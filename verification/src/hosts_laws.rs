//! The laws of the managed block operations: rewriting preserves unrelated
//! lines, toggling is idempotent and converges, and reading the block back
//! after a rewrite recovers the host list.
use vstd::prelude::*;

use crate::hosts::after_block_spec;
use crate::hosts::before_block_spec;
use crate::hosts::begin_marker;
use crate::hosts::block_lines_spec;
use crate::hosts::collect_hosts;
use crate::hosts::end_marker;
use crate::hosts::engage_line;
use crate::hosts::host_of_line;
use crate::hosts::in_block_after;
use crate::hosts::is_begin_line;
use crate::hosts::is_end_line;
use crate::hosts::is_marker_line;
use crate::hosts::line_commented;
use crate::hosts::load_content_spec;
use crate::hosts::load_hosts_spec;
use crate::hosts::modify_content_spec;
use crate::hosts::modify_lines_spec;
use crate::hosts::release_line;
use crate::hosts::save_content_spec;
use crate::hosts::save_lines_spec;
use crate::hosts::toggle_line;
use crate::hosts::trim_host_spec;
use crate::hosts::HostToggleOption;
use crate::text::dedup_first;
use crate::text::is_space;
use crate::text::lemma_split_join;
use crate::text::lemma_split_pieces_no_newline;
use crate::text::lemma_trim_keeps_head;
use crate::text::lines_have_no_newline;
use crate::text::split_lines_spec;
use crate::text::starts_with;
use crate::text::strip_prefix_spec;
use crate::text::trim_end_spec;
use crate::text::trim_spec;
use crate::text::trim_start_spec;

verus! {

/// The lines hold exactly one managed block: one begin marker, at `b`, and
/// one end marker, at `e`, after it.
pub open spec fn single_block(lines: Seq<Seq<char>>, b: int, e: int) -> bool {
    &&& 0 <= b < e < lines.len()
    &&& is_begin_line(lines[b])
    &&& is_end_line(lines[e])
    &&& forall|j: int| 0 <= j < lines.len() && j != b ==> !is_begin_line(#[trigger] lines[j])
    &&& forall|j: int| 0 <= j < lines.len() && j != e ==> !is_end_line(#[trigger] lines[j])
}

proof fn lemma_state_false_before(lines: Seq<Seq<char>>, i: int)
    requires
        0 <= i <= lines.len(),
        forall|j: int| 0 <= j < i ==> !is_begin_line(#[trigger] lines[j]),
    ensures
        !in_block_after(lines, i),
    decreases i,
{
    if i > 0 {
        lemma_state_false_before(lines, i - 1);
    }
}

/// The two marker texts differ, so no line is both markers at once.
proof fn lemma_markers_differ()
    ensures
        begin_marker() != end_marker(),
{
    reveal_strlit("### CommitBlock");
    reveal_strlit("### End CommitBlock");
    assert(begin_marker().len() != end_marker().len());
}

proof fn lemma_state_after_end(lines: Seq<Seq<char>>, e: int, i: int)
    requires
        0 <= e < i <= lines.len(),
        is_end_line(lines[e]),
        forall|j: int| e < j < i ==> !is_begin_line(#[trigger] lines[j]),
    ensures
        !in_block_after(lines, i),
    decreases i,
{
    if i > e + 1 {
        lemma_state_after_end(lines, e, i - 1);
    } else {
        lemma_markers_differ();
        assert(!is_begin_line(lines[e]));
    }
}

/// Toggling the block leaves the lines before its begin marker and after
/// its end marker, and the marker lines themselves, exactly as they were.
pub proof fn lemma_modify_preserves_unrelated(
    lines: Seq<Seq<char>>,
    opt: HostToggleOption,
    b: int,
    e: int,
)
    requires
        single_block(lines, b, e),
    ensures
        modify_lines_spec(lines, opt).len() == lines.len(),
        forall|i: int| 0 <= i <= b ==> modify_lines_spec(lines, opt)[i] == lines[i],
        forall|i: int| e <= i < lines.len() ==> modify_lines_spec(lines, opt)[i] == lines[i],
{
    assert forall|i: int| 0 <= i <= b implies modify_lines_spec(lines, opt)[i] == lines[i] by {
        if i < b && !is_marker_line(lines[i]) {
            lemma_state_false_before(lines, i);
        }
    }
    assert forall|i: int| e <= i < lines.len() implies modify_lines_spec(lines, opt)[i]
        == lines[i] by {
        if i > e && !is_marker_line(lines[i]) {
            lemma_state_after_end(lines, e, i);
        }
    }
}

/// Rewriting the block keeps the lines before its begin marker and after
/// its end marker verbatim and in place: the result is exactly those
/// lines around one fresh block where the old one stood.
pub proof fn lemma_save_preserves_unrelated(
    lines: Seq<Seq<char>>,
    hosts: Seq<Seq<char>>,
    b: int,
    e: int,
)
    requires
        single_block(lines, b, e),
    ensures
        save_lines_spec(lines, hosts) == lines.take(b) + seq![begin_marker()]
            + block_lines_spec(hosts) + seq![end_marker()] + lines.skip(e + 1),
{
    crate::hosts::lemma_before_at(lines, b);
    crate::hosts::lemma_after_at(lines, b, e);
}

proof fn lemma_toggle_state(lines: Seq<Seq<char>>, opt: HostToggleOption, i: int)
    requires
        0 <= i <= lines.len(),
    ensures
        in_block_after(modify_lines_spec(lines, opt), i) ==> in_block_after(lines, i),
    decreases i,
{
    let c = modify_lines_spec(lines, opt);
    if i > 0 && in_block_after(c, i) {
        lemma_toggle_state(lines, opt, i - 1);
        if is_begin_line(c[i - 1]) {
            if !is_begin_line(lines[i - 1]) {
                if !in_block_after(lines, i - 1) || is_marker_line(lines[i - 1]) {
                    assert(c[i - 1] == lines[i - 1]);
                    assert(false);
                }
                assert(in_block_after(lines, i));
            }
        } else if is_end_line(c[i - 1]) {
            assert(!in_block_after(c, i));
        } else {
            if is_marker_line(lines[i - 1]) {
                assert(c[i - 1] == lines[i - 1]);
                assert(false);
            }
            assert(in_block_after(c, i) == in_block_after(c, i - 1));
            assert(in_block_after(lines, i) == in_block_after(lines, i - 1));
        }
    }
}

/// No line inside the block still begins with `'#'` once engaged; that is,
/// no inside line begins with a doubled `"##"`.
pub open spec fn engage_ready(lines: Seq<Seq<char>>) -> bool {
    forall|i: int|
        0 <= i < lines.len() && !is_marker_line(#[trigger] lines[i]) && in_block_after(lines, i)
            ==> !(engage_line(lines[i]).len() > 0 && engage_line(lines[i])[0] == '#')
}

/// Engaging twice yields the same lines as engaging once, provided no
/// inside line begins with a doubled comment prefix.
pub proof fn lemma_engage_idempotent(lines: Seq<Seq<char>>)
    requires
        engage_ready(lines),
    ensures
        modify_lines_spec(modify_lines_spec(lines, HostToggleOption::BLOCK), HostToggleOption::BLOCK)
            == modify_lines_spec(lines, HostToggleOption::BLOCK),
{
    let c1 = modify_lines_spec(lines, HostToggleOption::BLOCK);
    let c2 = modify_lines_spec(c1, HostToggleOption::BLOCK);
    assert forall|i: int| 0 <= i < c1.len() implies c2[i] == c1[i] by {
        lemma_toggle_state(lines, HostToggleOption::BLOCK, i);
        if !is_marker_line(c1[i]) && in_block_after(c1, i) {
            if is_marker_line(lines[i]) {
                assert(c1[i] == lines[i]);
                assert(false);
            }
            assert(in_block_after(lines, i));
            assert(c1[i] == engage_line(lines[i]));
            assert(engage_line(c1[i]) == c1[i]);
        }
    }
    assert(c2 =~= c1);
}

/// A line that begins with `'#'` itself is commented however it is padded.
proof fn lemma_hash_head_commented(l: Seq<char>)
    requires
        l.len() > 0,
        l[0] == '#',
    ensures
        line_commented(l),
{
    assert(!is_space('#'));
    lemma_trim_keeps_head(l);
}

/// Releasing a line always leaves it commented.
proof fn lemma_release_line_commented(l: Seq<char>)
    ensures
        line_commented(release_line(l)),
{
    if !line_commented(l) {
        let r = seq!['#'] + l;
        assert(r[0] == '#');
        lemma_hash_head_commented(r);
    }
}

/// Releasing twice yields the same lines as releasing once, whatever the
/// lines hold.
pub proof fn lemma_release_idempotent(lines: Seq<Seq<char>>)
    ensures
        modify_lines_spec(
            modify_lines_spec(lines, HostToggleOption::UNBLOCK),
            HostToggleOption::UNBLOCK,
        ) == modify_lines_spec(lines, HostToggleOption::UNBLOCK),
{
    let c1 = modify_lines_spec(lines, HostToggleOption::UNBLOCK);
    let c2 = modify_lines_spec(c1, HostToggleOption::UNBLOCK);
    assert forall|i: int| 0 <= i < c1.len() implies c2[i] == c1[i] by {
        lemma_toggle_state(lines, HostToggleOption::UNBLOCK, i);
        if !is_marker_line(c1[i]) && in_block_after(c1, i) {
            if is_marker_line(lines[i]) {
                assert(c1[i] == lines[i]);
                assert(false);
            }
            assert(in_block_after(lines, i));
            assert(c1[i] == release_line(lines[i]));
            lemma_release_line_commented(lines[i]);
            assert(release_line(c1[i]) == c1[i]);
        }
    }
    assert(c2 =~= c1);
}

proof fn lemma_state_eq(a: Seq<Seq<char>>, b: Seq<Seq<char>>, i: int)
    requires
        a.len() == b.len(),
        0 <= i <= a.len(),
        forall|j: int| 0 <= j < a.len() ==> is_begin_line(#[trigger] a[j]) == is_begin_line(b[j]),
        forall|j: int| 0 <= j < a.len() ==> is_end_line(#[trigger] a[j]) == is_end_line(b[j]),
    ensures
        in_block_after(a, i) == in_block_after(b, i),
    decreases i,
{
    if i > 0 {
        lemma_state_eq(a, b, i - 1);
    }
}

/// Engaging no inside line turns it into a marker line.
pub open spec fn engage_makes_no_marker(lines: Seq<Seq<char>>) -> bool {
    forall|i: int|
        0 <= i < lines.len() && !is_marker_line(#[trigger] lines[i]) && in_block_after(lines, i)
            ==> !is_marker_line(engage_line(lines[i]))
}

/// Engaging and then releasing leaves every line inside the block
/// commented, whatever its comment prefix was before the pair of calls.
pub proof fn lemma_engage_then_release_commented(lines: Seq<Seq<char>>)
    requires
        engage_makes_no_marker(lines),
    ensures
        forall|i: int|
            0 <= i < lines.len() && !is_marker_line(#[trigger] lines[i]) && in_block_after(lines, i)
                ==> line_commented(
                modify_lines_spec(
                    modify_lines_spec(lines, HostToggleOption::BLOCK),
                    HostToggleOption::UNBLOCK,
                )[i],
            ),
{
    let c1 = modify_lines_spec(lines, HostToggleOption::BLOCK);
    let c2 = modify_lines_spec(c1, HostToggleOption::UNBLOCK);
    assert forall|j: int| 0 <= j < lines.len() implies is_begin_line(#[trigger] c1[j])
        == is_begin_line(lines[j]) && is_end_line(c1[j]) == is_end_line(lines[j]) by {
        if !is_marker_line(lines[j]) && in_block_after(lines, j) {
            assert(c1[j] == engage_line(lines[j]));
            assert(!is_marker_line(engage_line(lines[j])));
        } else {
            assert(c1[j] == lines[j]);
        }
    }
    assert forall|i: int|
        0 <= i < lines.len() && !is_marker_line(#[trigger] lines[i]) && in_block_after(
            lines,
            i,
        ) implies line_commented(c2[i]) by {
        lemma_state_eq(c1, lines, i);
        assert(!is_marker_line(c1[i]));
        assert(in_block_after(c1, i));
        assert(c2[i] == release_line(c1[i]));
        lemma_release_line_commented(c1[i]);
    }
}

/// Toggling introduces no newline into any line.
proof fn lemma_modify_no_newline(lines: Seq<Seq<char>>, opt: HostToggleOption)
    requires
        lines_have_no_newline(lines),
    ensures
        lines_have_no_newline(modify_lines_spec(lines, opt)),
{
    let out = modify_lines_spec(lines, opt);
    assert forall|i: int, j: int|
        0 <= i < out.len() && 0 <= j < out[i].len() implies #[trigger] out[i][j] != '\n' by {
        if !is_marker_line(lines[i]) && in_block_after(lines, i) {
            assert(out[i] == toggle_line(lines[i], opt));
            match opt {
                HostToggleOption::BLOCK => {
                    assert(forall|k: int|
                        0 <= k < lines[i].len() ==> #[trigger] lines[i][k] != '\n');
                },
                HostToggleOption::UNBLOCK => {
                    if !line_commented(lines[i]) {
                        assert(out[i] == seq!['#'] + lines[i]);
                    }
                },
            }
        } else {
            assert(out[i] == lines[i]);
        }
    }
}

/// Engaging a file's text twice yields the same text as engaging it once,
/// provided no line inside the block begins with a doubled comment prefix.
pub proof fn lemma_engage_idempotent_content(content: Seq<char>)
    requires
        engage_ready(split_lines_spec(content)),
    ensures
        modify_content_spec(modify_content_spec(content, HostToggleOption::BLOCK), HostToggleOption::BLOCK)
            == modify_content_spec(content, HostToggleOption::BLOCK),
{
    let lines = split_lines_spec(content);
    let m1 = modify_lines_spec(lines, HostToggleOption::BLOCK);
    lemma_split_pieces_no_newline(content);
    lemma_modify_no_newline(lines, HostToggleOption::BLOCK);
    lemma_split_join(m1);
    lemma_engage_idempotent(lines);
}

/// Releasing a file's text twice yields the same text as releasing it
/// once, whatever the text holds.
pub proof fn lemma_release_idempotent_content(content: Seq<char>)
    ensures
        modify_content_spec(
            modify_content_spec(content, HostToggleOption::UNBLOCK),
            HostToggleOption::UNBLOCK,
        ) == modify_content_spec(content, HostToggleOption::UNBLOCK),
{
    let lines = split_lines_spec(content);
    let m1 = modify_lines_spec(lines, HostToggleOption::UNBLOCK);
    lemma_split_pieces_no_newline(content);
    lemma_modify_no_newline(lines, HostToggleOption::UNBLOCK);
    lemma_split_join(m1);
    lemma_release_idempotent(lines);
}

/// A host name a rewrite can faithfully store: non-empty, free of
/// newlines, and not itself shaped like one of the IPv6 line prefixes
/// (those the reader would strip a second time).
pub open spec fn plain_host(h: Seq<char>) -> bool {
    &&& h.len() > 0
    &&& !starts_with(h, "::1\t\t"@)
    &&& !starts_with(h, "#::1\t\t"@)
    &&& forall|j: int| 0 <= j < h.len() ==> h[j] != '\n'
}

proof fn lemma_literal_facts()
    ensures
        "127.0.0.1\t"@.len() == 10,
        "127.0.0.1\t"@[0] == '1',
        "::1\t\t"@.len() == 5,
        "::1\t\t"@[0] == ':',
        "#::1\t\t"@.len() == 6,
        "#127.0.0.1\t"@.len() == 11,
        "#127.0.0.1\t"@[0] == '#',
        begin_marker().len() == 15,
        begin_marker()[0] == '#',
        end_marker().len() == 19,
        end_marker()[0] == '#',
        begin_marker() != end_marker(),
        forall|j: int| 0 <= j < 10 ==> "127.0.0.1\t"@[j] != '\n',
        forall|j: int| 0 <= j < 5 ==> "::1\t\t"@[j] != '\n',
        forall|j: int| 0 <= j < 15 ==> begin_marker()[j] != '\n',
        forall|j: int| 0 <= j < 19 ==> end_marker()[j] != '\n',
        !is_space(begin_marker()[14]),
        !is_space(end_marker()[18]),
{
    reveal_strlit("127.0.0.1\t");
    reveal_strlit("::1\t\t");
    reveal_strlit("#::1\t\t");
    reveal_strlit("#127.0.0.1\t");
    reveal_strlit("### CommitBlock");
    reveal_strlit("### End CommitBlock");
}

/// The marker texts themselves are marker lines, of their own kind only.
proof fn lemma_marker_lines()
    ensures
        is_begin_line(begin_marker()),
        !is_end_line(begin_marker()),
        is_end_line(end_marker()),
        !is_begin_line(end_marker()),
{
    lemma_literal_facts();
    assert(trim_spec(begin_marker()) == begin_marker()) by {
        assert(!is_space(begin_marker()[0]));
        assert(trim_start_spec(begin_marker()) == begin_marker());
        assert(!is_space(begin_marker()[begin_marker().len() - 1]));
        assert(trim_end_spec(begin_marker()) == begin_marker());
    }
    assert(trim_spec(end_marker()) == end_marker()) by {
        assert(!is_space(end_marker()[0]));
        assert(trim_start_spec(end_marker()) == end_marker());
        assert(!is_space(end_marker()[end_marker().len() - 1]));
        assert(trim_end_spec(end_marker()) == end_marker());
    }
}

/// What the reader makes of the two lines a rewrite emits for a host: both
/// give the host back, and neither is mistaken for a marker.
proof fn lemma_block_line_host(h: Seq<char>)
    requires
        plain_host(h),
    ensures
        host_of_line("127.0.0.1\t"@ + h) == h,
        host_of_line("::1\t\t"@ + h) == h,
        !is_marker_line("127.0.0.1\t"@ + h),
        !is_marker_line("::1\t\t"@ + h),
{
    lemma_literal_facts();
    let p4 = "127.0.0.1\t"@;
    let p6 = "::1\t\t"@;
    let l4 = p4 + h;
    let l6 = p6 + h;
    assert(l4[0] == '1');
    assert(l6[0] == ':');
    assert(starts_with(l4, p4)) by {
        assert(l4.subrange(0, 10) =~= p4);
    }
    assert(strip_prefix_spec(l4, p4) =~= h);
    assert(host_of_line(l4) == trim_host_spec(l4, p4));
    assert(host_of_line(l4) == h);
    assert(!starts_with(l6, p4)) by {
        if starts_with(l6, p4) {
            assert(l6.subrange(0, 10)[0] == p4[0]);
        }
    }
    assert(strip_prefix_spec(l6, p4) == l6);
    assert(starts_with(l6, p6)) by {
        assert(l6.subrange(0, 5) =~= p6);
    }
    assert(strip_prefix_spec(l6, p6) =~= h);
    assert(host_of_line(l6) == trim_host_spec(l6, p4));
    assert(host_of_line(l6) == h);
    assert(!is_space('1') && !is_space(':'));
    lemma_trim_keeps_head(l4);
    lemma_trim_keeps_head(l6);
    assert(trim_spec(l4)[0] == '1');
    assert(trim_spec(l6)[0] == ':');
    assert(!is_marker_line(l4));
    assert(!is_marker_line(l6));
}

/// Every host repeated twice, in order: the image of the fresh block's
/// lines under the reader's per-line host recovery.
pub open spec fn pair_hosts(hosts: Seq<Seq<char>>) -> Seq<Seq<char>> {
    Seq::new(2 * hosts.len(), |i: int| hosts[i / 2])
}

proof fn lemma_dedup_pairs(hosts: Seq<Seq<char>>)
    requires
        forall|k: int, l: int|
            #![trigger hosts[k], hosts[l]]
            0 <= k < l < hosts.len() ==> hosts[k] != hosts[l],
    ensures
        dedup_first(pair_hosts(hosts)) == hosts,
    decreases hosts.len(),
{
    let n = hosts.len() as int;
    let ph = pair_hosts(hosts);
    if n == 0 {
        assert(ph =~= Seq::<Seq<char>>::empty());
    } else {
        assert(ph.len() == 2 * n);
        assert(ph.last() == hosts[n - 1]);
        assert(ph.drop_last()[2 * n - 2] == hosts[n - 1]);
        assert(ph.drop_last().contains(hosts[n - 1]));
        assert(dedup_first(ph) == dedup_first(ph.drop_last()));
        let q = ph.drop_last();
        assert(q.len() == 2 * n - 1);
        assert(q.last() == hosts[n - 1]);
        let init = hosts.drop_last();
        assert(q.drop_last() =~= pair_hosts(init));
        assert(!q.drop_last().contains(hosts[n - 1])) by {
            if q.drop_last().contains(hosts[n - 1]) {
                let k = choose|k: int|
                    0 <= k < q.drop_last().len() && q.drop_last()[k] == hosts[n - 1];
                assert(q.drop_last()[k] == hosts[k / 2]);
                assert(k / 2 < n - 1);
                assert(hosts[k / 2] != hosts[n - 1]);
                assert(false);
            }
        }
        assert(dedup_first(q) == dedup_first(q.drop_last()).push(hosts[n - 1]));
        assert(forall|k: int| 0 <= k < init.len() ==> init[k] == hosts[k]);
        lemma_dedup_pairs(init);
        assert(dedup_first(pair_hosts(init)).push(hosts[n - 1]) =~= hosts);
    }
}

proof fn lemma_collect_outside(s: Seq<Seq<char>>, i: int, m: int)
    requires
        0 <= i <= m <= s.len(),
        forall|j: int| i <= j < m ==> !is_marker_line(#[trigger] s[j]),
    ensures
        collect_hosts(s, i, false) == collect_hosts(s, m, false),
    decreases m - i,
{
    if i < m {
        lemma_collect_outside(s, i + 1, m);
    }
}

proof fn lemma_collect_block(s: Seq<Seq<char>>, base: int, hosts: Seq<Seq<char>>, t: int)
    requires
        0 <= base,
        base + 2 * hosts.len() < s.len(),
        forall|j: int|
            0 <= j < 2 * hosts.len() ==> s[base + j] == #[trigger] block_lines_spec(hosts)[j],
        is_end_line(s[base + 2 * hosts.len()]),
        !is_begin_line(s[base + 2 * hosts.len()]),
        forall|k: int| 0 <= k < hosts.len() ==> plain_host(#[trigger] hosts[k]),
        0 <= t <= 2 * hosts.len(),
    ensures
        collect_hosts(s, base + t, true) == pair_hosts(hosts).skip(t),
    decreases 2 * hosts.len() - t,
{
    let n = hosts.len() as int;
    if t == 2 * n {
        assert(collect_hosts(s, base + t, true) == Seq::<Seq<char>>::empty());
        assert(pair_hosts(hosts).skip(t) =~= Seq::<Seq<char>>::empty());
    } else {
        let line = s[base + t];
        assert(line == block_lines_spec(hosts)[t]);
        lemma_block_line_host(hosts[t / 2]);
        assert(!is_marker_line(line));
        assert(host_of_line(line) == hosts[t / 2]);
        lemma_collect_block(s, base, hosts, t + 1);
        assert(collect_hosts(s, base + t, true) == seq![hosts[t / 2]] + collect_hosts(
            s,
            base + t + 1,
            true,
        ));
        assert(seq![hosts[t / 2]] + pair_hosts(hosts).skip(t + 1) =~= pair_hosts(hosts).skip(t));
    }
}

/// Reading the member hosts back right after a rewrite recovers the host
/// list exactly (hence as a set), at the level of the file's lines.  The
/// reader stops at the fresh block's end marker, so only the lines kept
/// before the block need to be free of marker lines.
pub proof fn lemma_load_after_save_lines(lines: Seq<Seq<char>>, hosts: Seq<Seq<char>>)
    requires
        forall|j: int|
            0 <= j < before_block_spec(lines).len() ==> !is_marker_line(
                #[trigger] before_block_spec(lines)[j],
            ),
        forall|k: int| 0 <= k < hosts.len() ==> plain_host(#[trigger] hosts[k]),
        forall|k: int, l: int|
            #![trigger hosts[k], hosts[l]]
            0 <= k < l < hosts.len() ==> hosts[k] != hosts[l],
    ensures
        load_hosts_spec(save_lines_spec(lines, hosts)) == hosts,
{
    let before = before_block_spec(lines);
    let kl = before.len() as int;
    let n = hosts.len() as int;
    let s = save_lines_spec(lines, hosts);
    lemma_marker_lines();
    assert(s.len() == kl + 2 * n + 2 + after_block_spec(lines).len());
    assert(forall|j: int| 0 <= j < kl ==> s[j] == before[j]);
    assert(s[kl] == begin_marker());
    assert(forall|j: int| 0 <= j < 2 * n ==> s[kl + 1 + j] == #[trigger] block_lines_spec(
        hosts,
    )[j]);
    assert(s[kl + 1 + 2 * n] == end_marker());
    lemma_collect_outside(s, 0, kl);
    assert(collect_hosts(s, kl, false) == collect_hosts(s, kl + 1, true));
    lemma_collect_block(s, kl + 1, hosts, 0);
    assert(pair_hosts(hosts).skip(0) =~= pair_hosts(hosts));
    assert(collect_hosts(s, 0, false) == pair_hosts(hosts));
    lemma_dedup_pairs(hosts);
}

proof fn lemma_before_no_newline(lines: Seq<Seq<char>>)
    requires
        lines_have_no_newline(lines),
    ensures
        lines_have_no_newline(before_block_spec(lines)),
    decreases lines.len(),
{
    if lines.len() > 0 && !is_begin_line(lines[0]) {
        let t = lines.drop_first();
        assert(forall|i: int, j: int|
            0 <= i < t.len() && 0 <= j < t[i].len() ==> #[trigger] t[i][j] == lines[i + 1][j]);
        lemma_before_no_newline(t);
        let b = before_block_spec(lines);
        assert(forall|i: int| 1 <= i < b.len() ==> b[i] == before_block_spec(t)[i - 1]);
        assert(forall|i: int, j: int|
            0 <= i < b.len() && 0 <= j < b[i].len() ==> #[trigger] b[i][j] != '\n');
    }
}

proof fn lemma_tail_no_newline(lines: Seq<Seq<char>>)
    requires
        lines_have_no_newline(lines),
    ensures
        lines_have_no_newline(crate::hosts::tail_after_end(lines)),
    decreases lines.len(),
{
    if lines.len() > 0 {
        let t = lines.drop_first();
        assert(forall|i: int, j: int|
            0 <= i < t.len() && 0 <= j < t[i].len() ==> #[trigger] t[i][j] == lines[i + 1][j]);
        if is_end_line(lines[0]) {
        } else {
            lemma_tail_no_newline(t);
        }
    }
}

proof fn lemma_after_no_newline(lines: Seq<Seq<char>>)
    requires
        lines_have_no_newline(lines),
    ensures
        lines_have_no_newline(after_block_spec(lines)),
    decreases lines.len(),
{
    if lines.len() > 0 {
        let t = lines.drop_first();
        assert(forall|i: int, j: int|
            0 <= i < t.len() && 0 <= j < t[i].len() ==> #[trigger] t[i][j] == lines[i + 1][j]);
        if is_begin_line(lines[0]) {
            lemma_tail_no_newline(t);
        } else {
            lemma_after_no_newline(t);
        }
    }
}

/// Reading the member hosts back right after a rewrite recovers the host
/// list exactly, through the file's full text: the rewrite's output,
/// re-split into lines, loads back to the same list.
pub proof fn lemma_load_after_save(content: Seq<char>, hosts: Seq<Seq<char>>)
    requires
        ({
            let lines = split_lines_spec(content);
            forall|j: int|
                0 <= j < before_block_spec(lines).len() ==> !is_marker_line(
                    #[trigger] before_block_spec(lines)[j],
                )
        }),
        forall|k: int| 0 <= k < hosts.len() ==> plain_host(#[trigger] hosts[k]),
        forall|k: int, l: int|
            #![trigger hosts[k], hosts[l]]
            0 <= k < l < hosts.len() ==> hosts[k] != hosts[l],
    ensures
        load_content_spec(save_content_spec(content, hosts)) == hosts,
{
    let lines = split_lines_spec(content);
    let saved = save_lines_spec(lines, hosts);
    lemma_literal_facts();
    lemma_split_pieces_no_newline(content);
    lemma_before_no_newline(lines);
    lemma_after_no_newline(lines);
    let before = before_block_spec(lines);
    let after = after_block_spec(lines);
    let kl = before.len() as int;
    let n = hosts.len() as int;
    assert forall|i: int, j: int|
        0 <= i < saved.len() && 0 <= j < saved[i].len() implies #[trigger] saved[i][j] != '\n' by {
        if i < kl {
            assert(saved[i] == before[i]);
        } else if i == kl {
            assert(saved[i] == begin_marker());
        } else if i < kl + 1 + 2 * n {
            let t = i - (kl + 1);
            assert(saved[i] == block_lines_spec(hosts)[t]);
            if t % 2 == 0 {
                assert(saved[i] == "127.0.0.1\t"@ + hosts[t / 2]);
            } else {
                assert(saved[i] == "::1\t\t"@ + hosts[t / 2]);
            }
        } else if i == kl + 1 + 2 * n {
            assert(saved[i] == end_marker());
        } else {
            assert(saved[i] == after[i - (kl + 2 * n + 2)]);
        }
    }
    lemma_split_join(saved);
    lemma_load_after_save_lines(lines, hosts);
}

} // verus!
