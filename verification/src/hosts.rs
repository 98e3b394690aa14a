//! The managed block of the hosts file.
//!
//! A contiguous region of the hosts file is delimited by a begin marker line
//! and an end marker line.  Every operation here is a pure function from the
//! file's text (or its lines) to new text: reading the member hosts out of
//! the block, rewriting the block from a host list, and toggling the comment
//! prefix of the block's lines to engage or release the redirects.
use vstd::prelude::*;
use vstd::string::StrSliceExecFns;
use vstd::string::StringExecFns;

use crate::text::dedup_first_strings;
use crate::text::join_lines;
use crate::text::join_lines_spec;
use crate::text::split_lines;
use crate::text::split_lines_spec;
use crate::text::starts_with;
use crate::text::str_eq;
use crate::text::str_starts_with;
use crate::text::str_strip_prefix;
use crate::text::str_trim;
use crate::text::strip_prefix_spec;
use crate::text::trim_spec;

verus! {

pub const HOST_FILE_PATH: &'static str = "/etc/hosts";

pub const HOST_FILE_LOCAL_PREFIX_IP4: &'static str = "127.0.0.1\t";

pub const HOST_FILE_LOCAL_PREFIX_IP6: &'static str = "::1\t\t";

pub const HOST_FILE_BLOCK_PREFIX: &'static str = "#";

pub const HOST_FILE_LOCAL_PREFIX_DISABLED_IP4: &'static str = "#127.0.0.1\t";

pub const HOST_FILE_LOCAL_PREFIX_DISABLED_IP6: &'static str = "#::1\t\t";

pub const HOST_FILE_COMMIT_BLOCK_BEGIN: &'static str = "### CommitBlock";

pub const HOST_FILE_COMMIT_BLOCK_END: &'static str = "### End CommitBlock";

/// Whether to block (engage the redirects) or unblock (release them).
#[allow(non_camel_case_types)]
#[derive(Clone, Copy, PartialEq, Eq, Structural, Debug)]
pub enum HostToggleOption {
    BLOCK,
    UNBLOCK,
}

/// The failure the rewrite and toggle operations report: the file's
/// managed block opens with a begin marker that no end marker closes.
/// Such a file is handed back untouched, never silently repaired,
/// truncated or toggled past the end of the file.
#[derive(Clone, Copy, PartialEq, Eq, Structural, Debug)]
pub enum HostFileError {
    UnmatchedBeginMarker,
}

/// The begin marker's text.
pub open spec fn begin_marker() -> Seq<char> {
    "### CommitBlock"@
}

/// The end marker's text.
pub open spec fn end_marker() -> Seq<char> {
    "### End CommitBlock"@
}

/// `l` is the begin marker line: its text, trimmed of surrounding
/// whitespace, is exactly the begin marker.
pub open spec fn is_begin_line(l: Seq<char>) -> bool {
    trim_spec(l) == begin_marker()
}

/// `l` is the end marker line.
pub open spec fn is_end_line(l: Seq<char>) -> bool {
    trim_spec(l) == end_marker()
}

/// `l` is one of the two marker lines.
pub open spec fn is_marker_line(l: Seq<char>) -> bool {
    is_begin_line(l) || is_end_line(l)
}

fn line_is_begin(l: &str) -> (r: bool)
    ensures
        r == is_begin_line(l@),
{
    let t = str_trim(l);
    str_eq(t.as_str(), "### CommitBlock")
}

fn line_is_end(l: &str) -> (r: bool)
    ensures
        r == is_end_line(l@),
{
    let t = str_trim(l);
    str_eq(t.as_str(), "### End CommitBlock")
}

/// Whether, after the first `n` lines, the scan stands inside the managed
/// block: a begin marker opens it, an end marker closes it.
pub open spec fn in_block_after(lines: Seq<Seq<char>>, n: int) -> bool
    decreases n,
{
    if n <= 0 || n > lines.len() {
        false
    } else if is_begin_line(lines[n - 1]) {
        true
    } else if is_end_line(lines[n - 1]) {
        false
    } else {
        in_block_after(lines, n - 1)
    }
}

/// Engaging a line: remove one leading `'#'` if the line carries one.
pub open spec fn engage_line(l: Seq<char>) -> Seq<char> {
    if l.len() > 0 && l[0] == '#' {
        l.subrange(1, l.len() as int)
    } else {
        l
    }
}

/// The line's text, trimmed, begins with `'#'`.
pub open spec fn line_commented(l: Seq<char>) -> bool {
    trim_spec(l).len() > 0 && trim_spec(l)[0] == '#'
}

/// Releasing a line: prefix `'#'` unless the line is already commented.
pub open spec fn release_line(l: Seq<char>) -> Seq<char> {
    if line_commented(l) {
        l
    } else {
        seq!['#'] + l
    }
}

/// The toggle applied to one line.
pub open spec fn toggle_line(l: Seq<char>, opt: HostToggleOption) -> Seq<char> {
    match opt {
        HostToggleOption::BLOCK => engage_line(l),
        HostToggleOption::UNBLOCK => release_line(l),
    }
}

/// The whole toggle: marker lines and lines outside the block are kept as
/// they are; every line inside the block is toggled.
pub open spec fn modify_lines_spec(lines: Seq<Seq<char>>, opt: HostToggleOption) -> Seq<
    Seq<char>,
> {
    Seq::new(
        lines.len(),
        |i: int|
            if is_marker_line(lines[i]) {
                lines[i]
            } else if in_block_after(lines, i) {
                toggle_line(lines[i], opt)
            } else {
                lines[i]
            },
    )
}

fn engage_host_line(l: &str) -> (r: String)
    ensures
        r@ == engage_line(l@),
{
    if l.unicode_len() > 0 && l.get_char(0) == '#' {
        l.substring_char(1, l.unicode_len()).to_owned()
    } else {
        l.to_owned()
    }
}

fn release_host_line(l: &str) -> (r: String)
    ensures
        r@ == release_line(l@),
{
    let t = str_trim(l);
    if t.as_str().unicode_len() > 0 && t.as_str().get_char(0) == '#' {
        l.to_owned()
    } else {
        let mut r = String::new();
        r.append("#");
        r.append(l);
        proof {
            reveal_strlit("#");
            assert(r@ =~= seq!['#'] + l@);
        }
        r
    }
}

fn toggle_lines(lines: &Vec<String>, toggle_option: HostToggleOption) -> (out: Vec<String>)
    ensures
        out.deep_view() == modify_lines_spec(lines.deep_view(), toggle_option),
{
    let ghost dv = lines.deep_view();
    let mut out: Vec<String> = Vec::new();
    let mut inb = false;
    let mut i: usize = 0;
    while i < lines.len()
        invariant
            i <= lines.len(),
            dv == lines.deep_view(),
            inb == in_block_after(dv, i as int),
            out.deep_view() == modify_lines_spec(dv, toggle_option).take(i as int),
        decreases lines.len() - i,
    {
        let ghost old_out = out.deep_view();
        let line = &lines[i];
        let beg = line_is_begin(line.as_str());
        let fin = line_is_end(line.as_str());
        let next: String = if beg || fin {
            line.clone()
        } else if inb {
            match toggle_option {
                HostToggleOption::BLOCK => engage_host_line(line.as_str()),
                HostToggleOption::UNBLOCK => release_host_line(line.as_str()),
            }
        } else {
            line.clone()
        };
        out.push(next);
        if beg {
            inb = true;
        } else if fin {
            inb = false;
        }
        proof {
            assert(out.deep_view() =~= old_out.push(next@));
            assert(modify_lines_spec(dv, toggle_option).take(i + 1) =~= modify_lines_spec(
                dv,
                toggle_option,
            ).take(i as int).push(modify_lines_spec(dv, toggle_option)[i as int]));
        }
        i += 1;
    }
    proof {
        assert(modify_lines_spec(dv, toggle_option).take(lines.len() as int) =~= modify_lines_spec(
            dv,
            toggle_option,
        ));
    }
    out
}

fn find_first_begin(lines: &Vec<String>) -> (r: Option<usize>)
    ensures
        match r {
            Some(b) => b < lines.deep_view().len() && is_begin_line(lines.deep_view()[b as int])
                && forall|j: int| 0 <= j < b ==> !is_begin_line(#[trigger] lines.deep_view()[j]),
            None => forall|j: int|
                0 <= j < lines.deep_view().len() ==> !is_begin_line(
                    #[trigger] lines.deep_view()[j],
                ),
        },
{
    let ghost dv = lines.deep_view();
    let mut i: usize = 0;
    while i < lines.len()
        invariant
            i <= lines.len(),
            dv == lines.deep_view(),
            forall|j: int| 0 <= j < i ==> !is_begin_line(#[trigger] dv[j]),
        decreases lines.len() - i,
    {
        if line_is_begin(lines[i].as_str()) {
            return Some(i);
        }
        i += 1;
    }
    None
}

fn find_first_end_from(lines: &Vec<String>, from: usize) -> (r: Option<usize>)
    ensures
        match r {
            Some(e) => from <= e < lines.deep_view().len() && is_end_line(
                lines.deep_view()[e as int],
            ) && forall|j: int| from <= j < e ==> !is_end_line(#[trigger] lines.deep_view()[j]),
            None => forall|j: int|
                from <= j < lines.deep_view().len() ==> !is_end_line(
                    #[trigger] lines.deep_view()[j],
                ),
        },
{
    let ghost dv = lines.deep_view();
    if from >= lines.len() {
        return None;
    }
    let mut i: usize = from;
    while i < lines.len()
        invariant
            from <= i,
            i <= lines.len(),
            dv == lines.deep_view(),
            forall|j: int| from <= j < i ==> !is_end_line(#[trigger] dv[j]),
        decreases lines.len() - i,
    {
        if line_is_end(lines[i].as_str()) {
            return Some(i);
        }
        i += 1;
    }
    None
}

/// Whether the lines hold a begin marker that no end marker closes.
fn block_is_unterminated(lines: &Vec<String>) -> (r: bool)
    ensures
        r == unmatched_begin(lines.deep_view()),
{
    let ghost dv = lines.deep_view();
    match find_first_begin(lines) {
        None => {
            proof {
                if unmatched_begin(dv) {
                    let i = choose|i: int| lone_begin_at(dv, i);
                    assert(!is_begin_line(dv[i]));
                    assert(false);
                }
            }
            false
        },
        Some(b) => {
            proof {
                assert(lines.deep_view().len() == lines@.len());
            }
            let _len = lines.len();
            match find_first_end_from(lines, b + 1) {
                None => {
                    proof {
                        assert(lone_begin_at(dv, b as int));
                    }
                    true
                },
                Some(e) => {
                    proof {
                        if unmatched_begin(dv) {
                            let i = choose|i: int| lone_begin_at(dv, i);
                            if i < b {
                                assert(!is_begin_line(dv[i]));
                            } else if i == b {
                                assert(!is_end_line(dv[e as int]));
                            } else {
                                assert(!is_begin_line(dv[b as int]));
                            }
                            assert(false);
                        }
                    }
                    false
                },
            }
        },
    }
}

/// Toggle the comment prefix of every line inside the managed block,
/// leaving the marker lines and everything outside the block unchanged.
/// A begin marker that no end marker closes is reported as an error, and
/// nothing is toggled.
pub fn modify_host_lines(lines: &Vec<String>, toggle_option: HostToggleOption) -> (r: Result<
    Vec<String>,
    HostFileError,
>)
    ensures
        r is Ok <==> !unmatched_begin(lines.deep_view()),
        r matches Ok(out) ==> out.deep_view() == modify_lines_spec(
            lines.deep_view(),
            toggle_option,
        ),
{
    if block_is_unterminated(lines) {
        Err(HostFileError::UnmatchedBeginMarker)
    } else {
        Ok(toggle_lines(lines, toggle_option))
    }
}

/// The host name that a block line stands for, once its loopback prefix
/// (IPv4 or IPv6, blocked or released) is removed.
pub open spec fn trim_host_spec(l: Seq<char>, p: Seq<char>) -> Seq<char> {
    let t = strip_prefix_spec(l, p);
    if starts_with(t, "::1\t\t"@) {
        strip_prefix_spec(t, "::1\t\t"@)
    } else if starts_with(t, "#::1\t\t"@) {
        strip_prefix_spec(t, "#::1\t\t"@)
    } else {
        t
    }
}

/// Strip `prefix_to_trim`, then either IPv6 loopback prefix, from a block
/// line, recovering the bare host name; unrecognised lines pass through.
pub fn get_trimmed_host_name(line: String, prefix_to_trim: &str) -> (r: String)
    ensures
        r@ == trim_host_spec(line@, prefix_to_trim@),
{
    let t = str_strip_prefix(line.as_str(), prefix_to_trim);
    if str_starts_with(t.as_str(), "::1\t\t") {
        str_strip_prefix(t.as_str(), "::1\t\t")
    } else if str_starts_with(t.as_str(), "#::1\t\t") {
        str_strip_prefix(t.as_str(), "#::1\t\t")
    } else {
        t
    }
}

/// The host a block line names: commented lines lose the disabled IPv4
/// prefix, others the plain IPv4 prefix; IPv6 prefixes are handled either
/// way by `trim_host_spec`.
pub open spec fn host_of_line(l: Seq<char>) -> Seq<char> {
    if l.len() > 0 && l[0] == '#' {
        trim_host_spec(l, "#127.0.0.1\t"@)
    } else {
        trim_host_spec(l, "127.0.0.1\t"@)
    }
}

/// The hosts named between the first begin marker and the end marker that
/// the scan meets first, in order of appearance; the scan stops at the
/// first end marker.
pub open spec fn collect_hosts(lines: Seq<Seq<char>>, i: int, inside: bool) -> Seq<Seq<char>>
    decreases lines.len() - i,
{
    if i < 0 || i >= lines.len() {
        Seq::empty()
    } else if is_begin_line(lines[i]) {
        collect_hosts(lines, i + 1, true)
    } else if is_end_line(lines[i]) {
        Seq::empty()
    } else if inside {
        seq![host_of_line(lines[i])] + collect_hosts(lines, i + 1, inside)
    } else {
        collect_hosts(lines, i + 1, inside)
    }
}

/// The member hosts of the managed block: the collected host names as an
/// ordered set, every repeated name collapsed to its first occurrence (the
/// IPv4 and IPv6 lines of one host thus yield one entry, and so does a
/// host listed again further down the block).
pub open spec fn load_hosts_spec(lines: Seq<Seq<char>>) -> Seq<Seq<char>> {
    crate::text::dedup_first(collect_hosts(lines, 0, false))
}

/// Read the member hosts out of the managed block of the given lines.
pub fn initialise_host_lines(lines: &Vec<String>) -> (hosts: Vec<String>)
    ensures
        hosts.deep_view() == load_hosts_spec(lines.deep_view()),
{
    let ghost dv = lines.deep_view();
    let mut raw: Vec<String> = Vec::new();
    let mut inside = false;
    let mut i: usize = 0;
    let mut stopped = false;
    while i < lines.len() && !stopped
        invariant
            i <= lines.len(),
            dv == lines.deep_view(),
            !stopped ==> collect_hosts(dv, 0, false) == raw.deep_view() + collect_hosts(
                dv,
                i as int,
                inside,
            ),
            stopped ==> collect_hosts(dv, 0, false) == raw.deep_view(),
        decreases lines.len() - i,
    {
        let ghost old_raw = raw.deep_view();
        let line = &lines[i];
        if line_is_begin(line.as_str()) {
            inside = true;
        } else if line_is_end(line.as_str()) {
            stopped = true;
        } else if inside {
            let host: String = if str_starts_with(line.as_str(), "#") {
                get_trimmed_host_name(line.clone(), "#127.0.0.1\t")
            } else {
                get_trimmed_host_name(line.clone(), "127.0.0.1\t")
            };
            proof {
                reveal_strlit("#");
                assert(starts_with(dv[i as int], "#"@) == (dv[i as int].len() > 0 && dv[i as int][0]
                    == '#')) by {
                    if dv[i as int].len() > 0 && dv[i as int][0] == '#' {
                        assert(dv[i as int].subrange(0, 1) =~= "#"@);
                    }
                    if starts_with(dv[i as int], "#"@) {
                        assert(dv[i as int].subrange(0, 1)[0] == '#');
                    }
                }
                assert(host@ == host_of_line(dv[i as int]));
            }
            raw.push(host);
            proof {
                assert(raw.deep_view() =~= old_raw.push(host_of_line(dv[i as int])));
                assert(old_raw.push(host_of_line(dv[i as int])) + collect_hosts(
                    dv,
                    i + 1,
                    inside,
                ) =~= old_raw + (seq![host_of_line(dv[i as int])] + collect_hosts(
                    dv,
                    i + 1,
                    inside,
                )));
            }
        }
        i += 1;
    }
    proof {
        if !stopped {
            assert(collect_hosts(dv, lines.len() as int, inside) =~= Seq::<Seq<char>>::empty());
            assert(raw.deep_view() + Seq::<Seq<char>>::empty() =~= raw.deep_view());
        }
    }
    dedup_first_strings(raw)
}

/// The lines before the first begin marker, kept verbatim by a rewrite.
pub open spec fn before_block_spec(lines: Seq<Seq<char>>) -> Seq<Seq<char>>
    decreases lines.len(),
{
    if lines.len() == 0 {
        Seq::empty()
    } else if is_begin_line(lines[0]) {
        Seq::empty()
    } else {
        seq![lines[0]] + before_block_spec(lines.drop_first())
    }
}

/// The lines after the first end marker of `lines`.
pub open spec fn tail_after_end(lines: Seq<Seq<char>>) -> Seq<Seq<char>>
    decreases lines.len(),
{
    if lines.len() == 0 {
        Seq::empty()
    } else if is_end_line(lines[0]) {
        lines.drop_first()
    } else {
        tail_after_end(lines.drop_first())
    }
}

/// The lines after the managed block, kept verbatim by a rewrite:
/// everything past the first end marker that follows the first begin
/// marker.  Without a begin marker nothing follows the block.
pub open spec fn after_block_spec(lines: Seq<Seq<char>>) -> Seq<Seq<char>>
    decreases lines.len(),
{
    if lines.len() == 0 {
        Seq::empty()
    } else if is_begin_line(lines[0]) {
        tail_after_end(lines.drop_first())
    } else {
        after_block_spec(lines.drop_first())
    }
}

/// `i` is the first begin-marker line and no end-marker line follows it.
pub open spec fn lone_begin_at(lines: Seq<Seq<char>>, i: int) -> bool {
    &&& 0 <= i < lines.len()
    &&& is_begin_line(lines[i])
    &&& forall|j: int| 0 <= j < i ==> !is_begin_line(#[trigger] lines[j])
    &&& forall|k: int| i < k < lines.len() ==> !is_end_line(#[trigger] lines[k])
}

/// The managed block is unterminated: its begin marker stands with no end
/// marker after it.
pub open spec fn unmatched_begin(lines: Seq<Seq<char>>) -> bool {
    exists|i: int| lone_begin_at(lines, i)
}

/// The fresh block body for a host list: for each host in order, one IPv4
/// line and one IPv6 line, both uncommented.
pub open spec fn block_lines_spec(hosts: Seq<Seq<char>>) -> Seq<Seq<char>> {
    Seq::new(
        2 * hosts.len(),
        |i: int|
            if i % 2 == 0 {
                "127.0.0.1\t"@ + hosts[i / 2]
            } else {
                "::1\t\t"@ + hosts[i / 2]
            },
    )
}

/// A full rewrite: the lines before the block, then one fresh block in
/// the old block's place — at the end of the file when none existed —
/// then the lines after the old block's end marker.
pub open spec fn save_lines_spec(lines: Seq<Seq<char>>, hosts: Seq<Seq<char>>) -> Seq<
    Seq<char>,
> {
    before_block_spec(lines) + seq![begin_marker()] + block_lines_spec(hosts) + seq![
        end_marker(),
    ] + after_block_spec(lines)
}

pub proof fn lemma_before_at(lines: Seq<Seq<char>>, b: int)
    requires
        0 <= b <= lines.len(),
        forall|j: int| 0 <= j < b ==> !is_begin_line(#[trigger] lines[j]),
        b < lines.len() ==> is_begin_line(lines[b]),
    ensures
        before_block_spec(lines) == lines.take(b),
    decreases lines.len(),
{
    if lines.len() == 0 {
        assert(lines.take(0) =~= Seq::<Seq<char>>::empty());
    } else if is_begin_line(lines[0]) {
        assert(b == 0);
        assert(lines.take(0) =~= Seq::<Seq<char>>::empty());
    } else {
        let t = lines.drop_first();
        assert(forall|j: int| 0 <= j < t.len() ==> t[j] == lines[j + 1]);
        lemma_before_at(t, b - 1);
        assert(seq![lines[0]] + t.take(b - 1) =~= lines.take(b));
    }
}

proof fn lemma_tail_after_end_at(lines: Seq<Seq<char>>, e: int)
    requires
        0 <= e < lines.len(),
        is_end_line(lines[e]),
        forall|j: int| 0 <= j < e ==> !is_end_line(#[trigger] lines[j]),
    ensures
        tail_after_end(lines) == lines.skip(e + 1),
    decreases lines.len(),
{
    if is_end_line(lines[0]) {
        assert(e == 0);
        assert(lines.drop_first() =~= lines.skip(1));
    } else {
        let t = lines.drop_first();
        assert(forall|j: int| 0 <= j < t.len() ==> t[j] == lines[j + 1]);
        lemma_tail_after_end_at(t, e - 1);
        assert(t.skip(e) =~= lines.skip(e + 1));
    }
}

/// Where the block stands — its begin marker at `b`, the first end marker
/// after it at `e` — the lines after the block are those past `e`.
pub proof fn lemma_after_at(lines: Seq<Seq<char>>, b: int, e: int)
    requires
        0 <= b < e < lines.len(),
        is_begin_line(lines[b]),
        forall|j: int| 0 <= j < b ==> !is_begin_line(#[trigger] lines[j]),
        is_end_line(lines[e]),
        forall|j: int| b < j < e ==> !is_end_line(#[trigger] lines[j]),
    ensures
        after_block_spec(lines) == lines.skip(e + 1),
    decreases lines.len(),
{
    let t = lines.drop_first();
    assert(forall|j: int| 0 <= j < t.len() ==> t[j] == lines[j + 1]);
    if is_begin_line(lines[0]) {
        assert(b == 0);
        lemma_tail_after_end_at(t, e - 1);
        assert(t.skip(e) =~= lines.skip(e + 1));
    } else {
        lemma_after_at(t, b - 1, e - 1);
        assert(t.skip(e) =~= lines.skip(e + 1));
    }
}

/// Without a begin marker nothing follows the block.
pub proof fn lemma_after_none(lines: Seq<Seq<char>>)
    requires
        forall|j: int| 0 <= j < lines.len() ==> !is_begin_line(#[trigger] lines[j]),
    ensures
        after_block_spec(lines) == Seq::<Seq<char>>::empty(),
    decreases lines.len(),
{
    if lines.len() > 0 {
        let t = lines.drop_first();
        assert(forall|j: int| 0 <= j < t.len() ==> t[j] == lines[j + 1]);
        lemma_after_none(t);
    }
}

fn ip4_line(host: &str) -> (r: String)
    ensures
        r@ == "127.0.0.1\t"@ + host@,
{
    let mut r = String::new();
    r.append("127.0.0.1\t");
    r.append(host);
    proof {
        assert(r@ =~= "127.0.0.1\t"@ + host@);
    }
    r
}

fn ip6_line(host: &str) -> (r: String)
    ensures
        r@ == "::1\t\t"@ + host@,
{
    let mut r = String::new();
    r.append("::1\t\t");
    r.append(host);
    proof {
        assert(r@ =~= "::1\t\t"@ + host@);
    }
    r
}

/// Rewrite the managed block wholesale: keep every line outside the old
/// block verbatim and in place, and put one fresh block in the old one's
/// stead — at the end of the file when none existed — holding, for every
/// host in the given order, an uncommented IPv4 line and an uncommented
/// IPv6 line.  A begin marker that no end marker closes is reported as an
/// error, and nothing is rewritten.
pub fn save_host_lines(lines: &Vec<String>, hosts: &Vec<String>) -> (r: Result<
    Vec<String>,
    HostFileError,
>)
    ensures
        r is Ok <==> !unmatched_begin(lines.deep_view()),
        r matches Ok(out) ==> out.deep_view() == save_lines_spec(
            lines.deep_view(),
            hosts.deep_view(),
        ),
{
    let ghost dv = lines.deep_view();
    let ghost hv = hosts.deep_view();
    let bounds: (usize, usize) = match find_first_begin(lines) {
        None => {
            proof {
                lemma_before_at(dv, dv.len() as int);
                assert(dv.take(dv.len() as int) =~= dv);
                lemma_after_none(dv);
                assert(dv.skip(dv.len() as int) =~= Seq::<Seq<char>>::empty());
                if unmatched_begin(dv) {
                    let i = choose|i: int| lone_begin_at(dv, i);
                    assert(!is_begin_line(dv[i]));
                    assert(false);
                }
            }
            (lines.len(), lines.len())
        },
        Some(b) => {
            proof {
                assert(lines.deep_view().len() == lines@.len());
            }
            let _len = lines.len();
            match find_first_end_from(lines, b + 1) {
                None => {
                    proof {
                        assert(lone_begin_at(dv, b as int));
                    }
                    return Err(HostFileError::UnmatchedBeginMarker);
                },
                Some(e) => {
                    proof {
                        lemma_before_at(dv, b as int);
                        lemma_after_at(dv, b as int, e as int);
                        if unmatched_begin(dv) {
                            let i = choose|i: int| lone_begin_at(dv, i);
                            if i < b {
                                assert(!is_begin_line(dv[i]));
                            } else if i == b {
                                assert(!is_end_line(dv[e as int]));
                            } else {
                                assert(!is_begin_line(dv[b as int]));
                            }
                            assert(false);
                        }
                    }
                    (b, e + 1)
                },
            }
        },
    };
    let before_len = bounds.0;
    let after_start = bounds.1;
    proof {
        assert(before_block_spec(dv) == dv.take(before_len as int));
        assert(after_block_spec(dv) == dv.skip(after_start as int));
        assert(!unmatched_begin(dv));
    }
    let mut out: Vec<String> = Vec::new();
    let mut i: usize = 0;
    while i < before_len
        invariant
            i <= before_len <= lines.len(),
            dv == lines.deep_view(),
            out.deep_view() == dv.take(i as int),
        decreases before_len - i,
    {
        let ghost old_out = out.deep_view();
        out.push(lines[i].clone());
        proof {
            assert(out.deep_view() =~= old_out.push(dv[i as int]));
            assert(dv.take(i + 1) =~= dv.take(i as int).push(dv[i as int]));
        }
        i += 1;
    }
    out.push("### CommitBlock".to_owned());
    let ghost base = dv.take(before_len as int) + seq![begin_marker()];
    proof {
        assert(out.deep_view() =~= base);
    }
    let mut h: usize = 0;
    while h < hosts.len()
        invariant
            h <= hosts.len(),
            hv == hosts.deep_view(),
            dv == lines.deep_view(),
            before_len <= lines.len(),
            base == dv.take(before_len as int) + seq![begin_marker()],
            out.deep_view() == base + block_lines_spec(hv.take(h as int)),
        decreases hosts.len() - h,
    {
        let ghost old_out = out.deep_view();
        out.push(ip4_line(hosts[h].as_str()));
        out.push(ip6_line(hosts[h].as_str()));
        proof {
            assert(out.deep_view() =~= old_out.push("127.0.0.1\t"@ + hv[h as int]).push(
                "::1\t\t"@ + hv[h as int],
            ));
            assert(base + block_lines_spec(hv.take(h + 1)) =~= old_out.push(
                "127.0.0.1\t"@ + hv[h as int],
            ).push("::1\t\t"@ + hv[h as int]));
        }
        h += 1;
    }
    proof {
        assert(hv.take(hosts.len() as int) =~= hv);
    }
    out.push("### End CommitBlock".to_owned());
    let ghost mid = base + block_lines_spec(hv) + seq![end_marker()];
    proof {
        assert(out.deep_view() =~= mid);
    }
    let mut j: usize = after_start;
    while j < lines.len()
        invariant
            after_start <= j <= lines.len(),
            dv == lines.deep_view(),
            hv == hosts.deep_view(),
            before_len <= lines.len(),
            mid == dv.take(before_len as int) + seq![begin_marker()] + block_lines_spec(hv)
                + seq![end_marker()],
            out.deep_view() == mid + dv.subrange(after_start as int, j as int),
        decreases lines.len() - j,
    {
        let ghost old_out = out.deep_view();
        out.push(lines[j].clone());
        proof {
            assert(out.deep_view() =~= old_out.push(dv[j as int]));
            assert(dv.subrange(after_start as int, j + 1) =~= dv.subrange(
                after_start as int,
                j as int,
            ).push(dv[j as int]));
            assert(mid + dv.subrange(after_start as int, j + 1) =~= old_out.push(dv[j as int]));
        }
        j += 1;
    }
    proof {
        assert(dv.subrange(after_start as int, lines.len() as int) =~= dv.skip(
            after_start as int,
        ));
        assert(out.deep_view() =~= save_lines_spec(dv, hv));
    }
    Ok(out)
}

/// The member hosts of a file's full text.
pub open spec fn load_content_spec(content: Seq<char>) -> Seq<Seq<char>> {
    load_hosts_spec(split_lines_spec(content))
}

/// The whole rewrite of a file's text: split into lines, rewrite the
/// block, rejoin with a newline after every line.
pub open spec fn save_content_spec(content: Seq<char>, hosts: Seq<Seq<char>>) -> Seq<char> {
    join_lines_spec(save_lines_spec(split_lines_spec(content), hosts))
}

/// The whole toggle of a file's text: split into lines, toggle, rejoin.
pub open spec fn modify_content_spec(content: Seq<char>, opt: HostToggleOption) -> Seq<char> {
    join_lines_spec(modify_lines_spec(split_lines_spec(content), opt))
}

/// Read the member hosts out of the managed block of the file's full text.
pub fn initialise_hosts(content: &str) -> (hosts: Vec<String>)
    ensures
        hosts.deep_view() == load_content_spec(content@),
{
    let lines = split_lines(content);
    initialise_host_lines(&lines)
}

/// Rewrite the managed block of the file's full text from the host list.
/// Every line of the result, the preserved ones included, is written with
/// a trailing newline.  A file whose begin marker no end marker closes is
/// reported as an error and never rewritten.
pub fn save_to_host(content: &str, hosts: &Vec<String>) -> (r: Result<String, HostFileError>)
    ensures
        r is Ok <==> !unmatched_begin(split_lines_spec(content@)),
        r matches Ok(out) ==> out@ == save_content_spec(content@, hosts.deep_view()),
{
    let lines = split_lines(content);
    match save_host_lines(&lines, hosts) {
        Ok(new_lines) => Ok(join_lines(&new_lines)),
        Err(e) => Err(e),
    }
}

/// Toggle the comment prefix of every line inside the managed block of the
/// file's full text: `BLOCK` engages the redirects, `UNBLOCK` releases
/// them.  Lines outside the block are kept verbatim.  A file whose begin
/// marker no end marker closes is reported as an error and never toggled.
pub fn modify_hosts(content: &str, toggle_option: HostToggleOption) -> (r: Result<
    String,
    HostFileError,
>)
    ensures
        r is Ok <==> !unmatched_begin(split_lines_spec(content@)),
        r matches Ok(out) ==> out@ == modify_content_spec(content@, toggle_option),
{
    let lines = split_lines(content);
    match modify_host_lines(&lines, toggle_option) {
        Ok(new_lines) => Ok(join_lines(&new_lines)),
        Err(e) => Err(e),
    }
}

} // verus!
