//! Small verified text utilities used throughout the crate: prefix tests,
//! whitespace trimming, line splitting and joining, and decimal notation
//! for `u32` values.
use vstd::prelude::*;
use vstd::string::StrSliceExecFns;
use vstd::string::StringExecFns;

verus! {

/// `p` is a prefix of `s`.
pub open spec fn starts_with(s: Seq<char>, p: Seq<char>) -> bool {
    p.len() <= s.len() && s.subrange(0, p.len() as int) == p
}

/// Whether `c` counts as surrounding whitespace inside a line of an ASCII,
/// line-oriented file (a line never contains `'\n'` itself).
pub open spec fn is_space(c: char) -> bool {
    c == ' ' || c == '\t' || c == '\r'
}

/// Executable prefix test, equal to `starts_with`.
pub fn str_starts_with(s: &str, p: &str) -> (r: bool)
    ensures
        r == starts_with(s@, p@),
{
    let n = p.unicode_len();
    if n > s.unicode_len() {
        return false;
    }
    let mut i: usize = 0;
    while i < n
        invariant
            i <= n,
            n == p@.len(),
            n <= s@.len(),
            forall|j: int| 0 <= j < i ==> s@[j] == p@[j],
        decreases n - i,
    {
        if s.get_char(i) != p.get_char(i) {
            assert(s@.subrange(0, p@.len() as int)[i as int] != p@[i as int]);
            return false;
        }
        i += 1;
    }
    assert(s@.subrange(0, p@.len() as int) =~= p@);
    true
}

/// Executable string equality on views.
pub fn str_eq(a: &str, b: &str) -> (r: bool)
    ensures
        r == (a@ == b@),
{
    let n = a.unicode_len();
    if n != b.unicode_len() {
        return false;
    }
    let mut i: usize = 0;
    while i < n
        invariant
            i <= n,
            n == a@.len(),
            n == b@.len(),
            forall|j: int| 0 <= j < i ==> a@[j] == b@[j],
        decreases n - i,
    {
        if a.get_char(i) != b.get_char(i) {
            return false;
        }
        i += 1;
    }
    assert(a@ =~= b@);
    true
}

/// What remains of `s` once a leading occurrence of `p` is removed;
/// `s` itself when `p` is not a prefix.
pub open spec fn strip_prefix_spec(s: Seq<char>, p: Seq<char>) -> Seq<char> {
    if starts_with(s, p) {
        s.subrange(p.len() as int, s.len() as int)
    } else {
        s
    }
}

/// Executable counterpart of `strip_prefix_spec`.
pub fn str_strip_prefix(s: &str, p: &str) -> (r: String)
    ensures
        r@ == strip_prefix_spec(s@, p@),
{
    if str_starts_with(s, p) {
        s.substring_char(p.unicode_len(), s.unicode_len()).to_owned()
    } else {
        s.to_owned()
    }
}

/// `s` without its leading whitespace.
pub open spec fn trim_start_spec(s: Seq<char>) -> Seq<char>
    decreases s.len(),
{
    if s.len() > 0 && is_space(s[0]) {
        trim_start_spec(s.subrange(1, s.len() as int))
    } else {
        s
    }
}

/// `s` without its trailing whitespace.
pub open spec fn trim_end_spec(s: Seq<char>) -> Seq<char>
    decreases s.len(),
{
    if s.len() > 0 && is_space(s[s.len() - 1]) {
        trim_end_spec(s.subrange(0, s.len() - 1))
    } else {
        s
    }
}

/// `s` without surrounding whitespace.
pub open spec fn trim_spec(s: Seq<char>) -> Seq<char> {
    trim_end_spec(trim_start_spec(s))
}

proof fn lemma_trim_start_at(s: Seq<char>, a: int)
    requires
        0 <= a <= s.len(),
        forall|j: int| 0 <= j < a ==> is_space(s[j]),
        a < s.len() ==> !is_space(s[a]),
    ensures
        trim_start_spec(s) == s.subrange(a, s.len() as int),
    decreases a,
{
    if a == 0 {
        assert(s.subrange(0, s.len() as int) =~= s);
    } else {
        let t = s.subrange(1, s.len() as int);
        lemma_trim_start_at(t, a - 1);
        assert(t.subrange(a - 1, t.len() as int) =~= s.subrange(a, s.len() as int));
    }
}

proof fn lemma_trim_end_at(s: Seq<char>, b: int)
    requires
        0 <= b <= s.len(),
        forall|j: int| b <= j < s.len() ==> is_space(s[j]),
        b > 0 ==> !is_space(s[b - 1]),
    ensures
        trim_end_spec(s) == s.subrange(0, b),
    decreases s.len(),
{
    if b == s.len() {
        if s.len() > 0 && is_space(s[s.len() - 1]) {
            assert(false);
        }
        assert(s.subrange(0, s.len() as int) =~= s);
    } else {
        let t = s.subrange(0, s.len() - 1);
        lemma_trim_end_at(t, b);
        assert(t.subrange(0, b) =~= s.subrange(0, b));
    }
}

/// Executable trimming of surrounding whitespace, equal to `trim_spec`.
pub fn str_trim(s: &str) -> (r: String)
    ensures
        r@ == trim_spec(s@),
{
    let n = s.unicode_len();
    let mut a: usize = 0;
    while a < n && is_space_char(s.get_char(a))
        invariant
            a <= n,
            n == s@.len(),
            forall|j: int| 0 <= j < a ==> is_space(s@[j]),
        decreases n - a,
    {
        a += 1;
    }
    let mut b: usize = n;
    while b > a && is_space_char(s.get_char(b - 1))
        invariant
            a <= b <= n,
            n == s@.len(),
            forall|j: int| 0 <= j < a ==> is_space(s@[j]),
            forall|j: int| b <= j < n ==> is_space(s@[j]),
        decreases b,
    {
        b -= 1;
    }
    let r = s.substring_char(a, b).to_owned();
    proof {
        lemma_trim_start_at(s@, a as int);
        let t = s@.subrange(a as int, n as int);
        lemma_trim_end_at(t, b - a);
        assert(t.subrange(0, b - a) =~= s@.subrange(a as int, b as int));
    }
    r
}

/// Executable test for `is_space`.
pub fn is_space_char(c: char) -> (r: bool)
    ensures
        r == is_space(c),
{
    c == ' ' || c == '\t' || c == '\r'
}

/// Index of the first `'\n'` in `s`, or `s.len()` when there is none.
pub open spec fn find_nl(s: Seq<char>) -> nat
    decreases s.len(),
{
    if s.len() == 0 {
        0
    } else if s[0] == '\n' {
        0
    } else {
        1 + find_nl(s.subrange(1, s.len() as int))
    }
}

proof fn lemma_find_nl(s: Seq<char>)
    ensures
        find_nl(s) <= s.len(),
        forall|j: int| 0 <= j < find_nl(s) ==> s[j] != '\n',
        find_nl(s) < s.len() ==> s[find_nl(s) as int] == '\n',
    decreases s.len(),
{
    if s.len() > 0 && s[0] != '\n' {
        let t = s.subrange(1, s.len() as int);
        lemma_find_nl(t);
        assert(forall|j: int| 0 <= j < t.len() ==> t[j] == s[j + 1]);
        assert forall|j: int| 0 <= j < find_nl(s) implies s[j] != '\n' by {
            if j > 0 {
                assert(s[j] == t[j - 1]);
            }
        }
        if find_nl(s) < s.len() {
            assert(s[find_nl(s) as int] == t[find_nl(t) as int]);
        }
    }
}

proof fn lemma_find_nl_at(s: Seq<char>, i: int)
    requires
        0 <= i <= s.len(),
        forall|j: int| 0 <= j < i ==> s[j] != '\n',
        i < s.len() ==> s[i] == '\n',
    ensures
        find_nl(s) == i,
    decreases s.len(),
{
    if s.len() == 0 {
    } else if s[0] == '\n' {
        assert(i == 0);
    } else {
        let t = s.subrange(1, s.len() as int);
        assert(forall|j: int| 0 <= j < i - 1 ==> t[j] == s[j + 1]);
        lemma_find_nl_at(t, i - 1);
    }
}

/// The lines of `s`: pieces between `'\n'` characters.  A trailing newline
/// does not produce an empty final line, matching line-by-line file readers.
pub open spec fn split_lines_spec(s: Seq<char>) -> Seq<Seq<char>>
    decreases s.len(),
{
    if s.len() == 0 {
        Seq::empty()
    } else {
        let i = find_nl(s);
        if i >= s.len() {
            seq![s]
        } else {
            seq![s.subrange(0, i as int)] + split_lines_spec(
                s.subrange(i as int + 1, s.len() as int),
            )
        }
    }
}

/// Executable line splitting, equal to `split_lines_spec`.
pub fn split_lines(s: &str) -> (lines: Vec<String>)
    ensures
        lines.deep_view() == split_lines_spec(s@),
{
    let n = s.unicode_len();
    let mut res: Vec<String> = Vec::new();
    let mut pos: usize = 0;
    proof {
        assert(s@.subrange(0, n as int) =~= s@);
        assert(res.deep_view() =~= Seq::<Seq<char>>::empty());
        assert(res.deep_view() + split_lines_spec(s@) =~= split_lines_spec(s@));
    }
    while pos < n
        invariant
            pos <= n,
            n == s@.len(),
            split_lines_spec(s@) == res.deep_view() + split_lines_spec(
                s@.subrange(pos as int, n as int),
            ),
        decreases n - pos,
    {
        let mut j: usize = pos;
        while j < n && s.get_char(j) != '\n'
            invariant
                pos <= j <= n,
                n == s@.len(),
                forall|k: int| pos <= k < j ==> s@[k] != '\n',
            decreases n - j,
    {
            j += 1;
        }
        let line = s.substring_char(pos, j).to_owned();
        let ghost old_dv = res.deep_view();
        res.push(line);
        proof {
            let suf = s@.subrange(pos as int, n as int);
            assert(forall|k: int| 0 <= k < j - pos ==> suf[k] == s@[k + pos]);
            lemma_find_nl_at(suf, j - pos);
            assert(suf.subrange(0, j - pos) =~= s@.subrange(pos as int, j as int));
            assert(res.deep_view() =~= old_dv.push(s@.subrange(pos as int, j as int)));
            if j < n {
                assert(suf.subrange(j - pos + 1, suf.len() as int) =~= s@.subrange(
                    j + 1,
                    n as int,
                ));
                assert(split_lines_spec(suf) == seq![s@.subrange(pos as int, j as int)]
                    + split_lines_spec(s@.subrange(j + 1, n as int)));
                assert(res.deep_view() + split_lines_spec(s@.subrange(j + 1, n as int)) =~= old_dv
                    + split_lines_spec(suf));
            } else {
                assert(split_lines_spec(suf) == seq![suf]);
                assert(suf =~= s@.subrange(pos as int, j as int));
                assert(s@.subrange(n as int, n as int) =~= Seq::<char>::empty());
                assert(res.deep_view() + split_lines_spec(s@.subrange(n as int, n as int)) =~=
                    old_dv + split_lines_spec(suf));
            }
        }
        if j < n {
            pos = j + 1;
        } else {
            pos = n;
        }
    }
    proof {
        assert(s@.subrange(n as int, n as int) =~= Seq::<char>::empty());
        assert(res.deep_view() + Seq::<Seq<char>>::empty() =~= res.deep_view());
    }
    res
}

/// The single text obtained by writing every line followed by `'\n'`.
pub open spec fn join_lines_spec(ls: Seq<Seq<char>>) -> Seq<char>
    decreases ls.len(),
{
    if ls.len() == 0 {
        Seq::empty()
    } else {
        ls[0] + seq!['\n'] + join_lines_spec(ls.subrange(1, ls.len() as int))
    }
}

proof fn lemma_join_push(ls: Seq<Seq<char>>, x: Seq<char>)
    ensures
        join_lines_spec(ls.push(x)) == join_lines_spec(ls) + x + seq!['\n'],
    decreases ls.len(),
{
    let p = ls.push(x);
    if ls.len() == 0 {
        assert(p[0] == x);
        assert(join_lines_spec(p) == p[0] + seq!['\n'] + join_lines_spec(
            p.subrange(1, p.len() as int),
        ));
        assert(p.subrange(1, p.len() as int) =~= Seq::<Seq<char>>::empty());
        assert(join_lines_spec(Seq::<Seq<char>>::empty()) == Seq::<char>::empty());
        assert(join_lines_spec(p) =~= join_lines_spec(ls) + x + seq!['\n']);
    } else {
        let rest = ls.subrange(1, ls.len() as int);
        assert(p[0] == ls[0]);
        assert(p.subrange(1, p.len() as int) =~= rest.push(x));
        lemma_join_push(rest, x);
        assert(join_lines_spec(p) == p[0] + seq!['\n'] + join_lines_spec(
            p.subrange(1, p.len() as int),
        ));
        assert(join_lines_spec(ls) == ls[0] + seq!['\n'] + join_lines_spec(rest));
        assert(join_lines_spec(p) =~= join_lines_spec(ls) + x + seq!['\n']);
    }
}

/// Executable line joining, equal to `join_lines_spec`.
pub fn join_lines(lines: &Vec<String>) -> (r: String)
    ensures
        r@ == join_lines_spec(lines.deep_view()),
{
    let ghost dv = lines.deep_view();
    let mut out = String::new();
    let mut i: usize = 0;
    proof {
        assert(dv.take(0) =~= Seq::<Seq<char>>::empty());
    }
    while i < lines.len()
        invariant
            i <= lines.len(),
            dv == lines.deep_view(),
            out@ == join_lines_spec(dv.take(i as int)),
        decreases lines.len() - i,
    {
        out.append(lines[i].as_str());
        out.append("\n");
        proof {
            reveal_strlit("\n");
            assert("\n"@ =~= seq!['\n']);
            lemma_join_push(dv.take(i as int), dv[i as int]);
            assert(dv.take(i + 1) =~= dv.take(i as int).push(dv[i as int]));
            assert(out@ =~= join_lines_spec(dv.take(i + 1)));
        }
        i += 1;
    }
    proof {
        assert(dv.take(lines.len() as int) =~= dv);
    }
    out
}

/// No character of any line of `ls` is a newline.
pub open spec fn lines_have_no_newline(ls: Seq<Seq<char>>) -> bool {
    forall|i: int, j: int| 0 <= i < ls.len() && 0 <= j < ls[i].len() ==> #[trigger] ls[i][j]
        != '\n'
}

/// Splitting the joined text recovers the lines exactly, provided no line
/// contains a newline of its own.
pub proof fn lemma_split_join(ls: Seq<Seq<char>>)
    requires
        lines_have_no_newline(ls),
    ensures
        split_lines_spec(join_lines_spec(ls)) == ls,
    decreases ls.len(),
{
    if ls.len() == 0 {
    } else {
        let rest = ls.subrange(1, ls.len() as int);
        let s = join_lines_spec(ls);
        assert(s =~= ls[0] + seq!['\n'] + join_lines_spec(rest));
        let l0 = ls[0].len() as int;
        assert(forall|j: int| 0 <= j < l0 ==> s[j] == ls[0][j]);
        assert(s[l0] == '\n');
        lemma_find_nl_at(s, l0);
        assert(s.len() > 0);
        assert(s.subrange(0, l0) =~= ls[0]);
        assert(s.subrange(l0 + 1, s.len() as int) =~= join_lines_spec(rest));
        assert(forall|i: int, j: int|
            0 <= i < rest.len() && 0 <= j < rest[i].len() ==> #[trigger] rest[i][j] != '\n');
        lemma_split_join(rest);
        assert(split_lines_spec(s) =~= ls);
    }
}

/// Every piece produced by `split_lines_spec` is free of newlines.
pub proof fn lemma_split_pieces_no_newline(s: Seq<char>)
    ensures
        lines_have_no_newline(split_lines_spec(s)),
    decreases s.len(),
{
    if s.len() > 0 {
        let i = find_nl(s);
        lemma_find_nl(s);
        if i >= s.len() {
        } else {
            lemma_split_pieces_no_newline(s.subrange(i as int + 1, s.len() as int));
            let ls = split_lines_spec(s);
            let rest = split_lines_spec(s.subrange(i as int + 1, s.len() as int));
            assert(forall|k: int, j: int|
                0 <= k < rest.len() && 0 <= j < rest[k].len() ==> #[trigger] rest[k][j] != '\n');
            assert(forall|k: int| 1 <= k < ls.len() ==> ls[k] == rest[k - 1]);
            assert(forall|j: int| 0 <= j < ls[0].len() ==> ls[0][j] != '\n');
        }
    }
}

proof fn lemma_trim_end_keeps_head(s: Seq<char>)
    requires
        s.len() > 0,
        !is_space(s[0]),
    ensures
        trim_end_spec(s).len() > 0,
        trim_end_spec(s)[0] == s[0],
    decreases s.len(),
{
    if s.len() > 0 && is_space(s[s.len() - 1]) {
        let t = s.subrange(0, s.len() - 1);
        lemma_trim_end_keeps_head(t);
    }
}

/// Trimming keeps the first character of a line that does not begin with
/// whitespace, and keeps the line non-empty.
pub proof fn lemma_trim_keeps_head(s: Seq<char>)
    requires
        s.len() > 0,
        !is_space(s[0]),
    ensures
        trim_spec(s).len() > 0,
        trim_spec(s)[0] == s[0],
{
    lemma_trim_end_keeps_head(s);
}

/// `s` with every later repeat of an entry removed: each entry keeps its
/// first occurrence, in its first occurrence's place.
pub open spec fn dedup_first(s: Seq<Seq<char>>) -> Seq<Seq<char>>
    decreases s.len(),
{
    if s.len() == 0 {
        s
    } else if s.drop_last().contains(s.last()) {
        dedup_first(s.drop_last())
    } else {
        dedup_first(s.drop_last()).push(s.last())
    }
}

/// Executable first-occurrence deduplication, equal to `dedup_first`.
pub fn dedup_first_strings(items: Vec<String>) -> (out: Vec<String>)
    ensures
        out.deep_view() == dedup_first(items.deep_view()),
{
    let ghost dv = items.deep_view();
    let mut out: Vec<String> = Vec::new();
    let mut i: usize = 0;
    proof {
        assert(dv.take(0) =~= Seq::<Seq<char>>::empty());
    }
    while i < items.len()
        invariant
            i <= items.len(),
            dv == items.deep_view(),
            out.deep_view() == dedup_first(dv.take(i as int)),
        decreases items.len() - i,
    {
        let ghost old_out = out.deep_view();
        let mut seen = false;
        let mut j: usize = 0;
        while j < i
            invariant
                j <= i,
                i < items.len(),
                dv == items.deep_view(),
                seen == exists|k: int| 0 <= k < j && dv[k] == dv[i as int],
            decreases i - j,
        {
            proof {
                assert(dv[j as int] == items@[j as int]@);
                assert(dv[i as int] == items@[i as int]@);
            }
            if items[j] == items[i] {
                seen = true;
                proof {
                    assert(dv[j as int] == dv[i as int]);
                }
            }
            j += 1;
        }
        if !seen {
            out.push(items[i].clone());
        }
        proof {
            assert(dv.take(i + 1).drop_last() =~= dv.take(i as int));
            assert(dv.take(i + 1).last() == dv[i as int]);
            if seen {
                let k = choose|k: int| 0 <= k < i && dv[k] == dv[i as int];
                assert(dv.take(i as int)[k] == dv[i as int]);
                assert(dv.take(i as int).contains(dv[i as int]));
                assert(dedup_first(dv.take(i + 1)) == dedup_first(dv.take(i as int)));
            } else {
                assert(forall|k: int| 0 <= k < i ==> dv.take(i as int)[k] != dv[i as int]);
                assert(!dv.take(i as int).contains(dv[i as int]));
                assert(dedup_first(dv.take(i + 1)) == dedup_first(dv.take(i as int)).push(
                    dv[i as int],
                ));
                assert(out.deep_view() =~= old_out.push(dv[i as int]));
            }
        }
        i += 1;
    }
    proof {
        assert(dv.take(items.len() as int) =~= dv);
    }
    out
}

/// The decimal digit character for `d`.
pub open spec fn digit_char(d: int) -> char {
    if d == 0 {
        '0'
    } else if d == 1 {
        '1'
    } else if d == 2 {
        '2'
    } else if d == 3 {
        '3'
    } else if d == 4 {
        '4'
    } else if d == 5 {
        '5'
    } else if d == 6 {
        '6'
    } else if d == 7 {
        '7'
    } else if d == 8 {
        '8'
    } else {
        '9'
    }
}

/// The usual decimal notation of `n`, without leading zeros.
pub open spec fn dec_rep(n: nat) -> Seq<char>
    decreases n,
{
    if n < 10 {
        seq![digit_char(n as int)]
    } else {
        dec_rep(n / 10).push(digit_char((n % 10) as int))
    }
}

/// The decimal digit character for `d`, as a one-character string.
pub(crate) fn digit_str(d: u32) -> (r: &'static str)
    requires
        d < 10,
    ensures
        r@ == seq![digit_char(d as int)],
{
    let r: &'static str = if d == 0 {
        "0"
    } else if d == 1 {
        "1"
    } else if d == 2 {
        "2"
    } else if d == 3 {
        "3"
    } else if d == 4 {
        "4"
    } else if d == 5 {
        "5"
    } else if d == 6 {
        "6"
    } else if d == 7 {
        "7"
    } else if d == 8 {
        "8"
    } else {
        "9"
    };
    proof {
        reveal_strlit("0");
        reveal_strlit("1");
        reveal_strlit("2");
        reveal_strlit("3");
        reveal_strlit("4");
        reveal_strlit("5");
        reveal_strlit("6");
        reveal_strlit("7");
        reveal_strlit("8");
        reveal_strlit("9");
        assert(r@ =~= seq![digit_char(d as int)]);
    }
    r
}

/// The decimal notation of `n`, as `u32::to_string` writes it.
pub fn u32_to_string(n: u32) -> (r: String)
    ensures
        r@ == dec_rep(n as nat),
    decreases n,
{
    if n < 10 {
        digit_str(n).to_owned()
    } else {
        let mut s = u32_to_string(n / 10);
        s.append(digit_str(n % 10));
        proof {
            assert(s@ =~= dec_rep(n as nat));
        }
        s
    }
}

/// `c` is a decimal digit.
pub open spec fn is_digit(c: char) -> bool {
    48 <= (c as int) && (c as int) <= 57
}

/// The numeric value of digit `c`.
pub open spec fn digit_val(c: char) -> nat {
    ((c as int) - ('0' as int)) as nat
}

/// The value of a digit string, most significant digit first.
pub open spec fn digits_val(s: Seq<char>) -> nat
    decreases s.len(),
{
    if s.len() == 0 {
        0
    } else {
        digits_val(s.drop_last()) * 10 + digit_val(s.last())
    }
}

/// The digits of a numeral after an optional leading `'+'` sign.
pub open spec fn numeral_body(s: Seq<char>) -> Seq<char> {
    if s.len() > 0 && s[0] == '+' {
        s.subrange(1, s.len() as int)
    } else {
        s
    }
}

/// `s` is a numeral that `u32` parsing accepts: an optional `'+'` sign,
/// then at least one digit, with a value that fits in `u32`.
pub open spec fn is_u32_numeral(s: Seq<char>) -> bool {
    let b = numeral_body(s);
    b.len() > 0 && (forall|i: int| 0 <= i < b.len() ==> is_digit(#[trigger] b[i])) && digits_val(b)
        <= u32::MAX
}

proof fn lemma_digits_val_take_grows(s: Seq<char>, i: int)
    requires
        0 <= i <= s.len(),
    ensures
        digits_val(s.take(i)) <= digits_val(s),
    decreases s.len() - i,
{
    if i == s.len() {
        assert(s.take(i) =~= s);
    } else {
        lemma_digits_val_take_grows(s, i + 1);
        assert(s.take(i + 1).drop_last() =~= s.take(i));
        assert(digits_val(s.take(i + 1)) == digits_val(s.take(i)) * 10 + digit_val(
            s.take(i + 1).last(),
        ));
    }
}

/// Parse a decimal `u32` as `str::parse::<u32>` does: an optional leading
/// `'+'`, then one or more digits; anything else, or a value over
/// `u32::MAX`, is rejected.
pub fn parse_u32(s: &str) -> (r: Option<u32>)
    ensures
        is_u32_numeral(s@) ==> r == Some(digits_val(numeral_body(s@)) as u32),
        !is_u32_numeral(s@) ==> r is None,
{
    let n = s.unicode_len();
    let mut start: usize = 0;
    if n > 0 && s.get_char(0) == '+' {
        start = 1;
    }
    let ghost b = numeral_body(s@);
    proof {
        assert(b =~= s@.subrange(start as int, n as int));
    }
    if start >= n {
        proof {
            assert(b.len() == 0);
        }
        return None;
    }
    let mut acc: u32 = 0;
    let mut i: usize = start;
    while i < n
        invariant
            start <= i <= n,
            n == s@.len(),
            b == numeral_body(s@),
            b == s@.subrange(start as int, n as int),
            forall|j: int| 0 <= j < i - start ==> is_digit(#[trigger] b[j]),
            acc as nat == digits_val(b.take(i - start)),
        decreases n - i,
    {
        let c = s.get_char(i);
        let v: u32 = c as u32;
        if !(48 <= v && v <= 57) {
            proof {
                assert(b[i - start] == s@[i as int]);
                assert(!is_digit(b[i - start]));
                assert(0 <= i - start < b.len());
                assert(!is_u32_numeral(s@));
            }
            return None;
        }
        let d: u32 = v - 48;
        let wide: u64 = (acc as u64) * 10 + (d as u64);
        proof {
            assert(b.take(i - start + 1).drop_last() =~= b.take(i - start));
            assert(b.take(i - start + 1).last() == b[i - start]);
            assert(b[i - start] == s@[i as int]);
            assert(digit_val(s@[i as int]) == d as nat);
            assert(digits_val(b.take(i - start + 1)) == digits_val(b.take(i - start)) * 10
                + d as nat);
        }
        if wide > 0xffff_ffff {
            proof {
                lemma_digits_val_take_grows(b, i - start + 1);
                assert(digits_val(b) > u32::MAX);
                assert(!is_u32_numeral(s@));
            }
            return None;
        }
        acc = wide as u32;
        i += 1;
    }
    proof {
        assert(b.take(n - start) =~= b);
        assert(forall|j: int| 0 <= j < b.len() ==> is_digit(#[trigger] b[j]));
        assert(is_u32_numeral(s@));
    }
    Some(acc)
}

} // verus!
