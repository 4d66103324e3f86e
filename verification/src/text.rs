//! Character-level helpers: string/char-vector conversion, Unicode
//! whitespace trimming and line splitting.

use vstd::prelude::*;
use vstd::std_specs::iter::IteratorSpec;

verus! {

/// Appends one character to a `String` (`String::push`).
#[verifier::external_body]
pub(crate) fn push_char(s: &mut String, c: char)
    ensures
        final(s)@ == old(s)@.push(c),
{
    s.push(c);
}

/// The characters of a string slice, in order.
pub fn chars_of(s: &str) -> (r: Vec<char>)
    ensures
        r@ == s@,
{
    broadcast use vstd::string::axiom_spec_iter;
    let mut out: Vec<char> = Vec::new();
    for c in it: s.chars()
        invariant
            out@ == it.seq().take(it.index() as int),
            it.seq() == s@,
    {
        out.push(c);
    }
    out
}

/// The string made of the given characters.
pub fn string_of(chars: &[char]) -> (r: String)
    ensures
        r@ == chars@,
{
    let mut out = String::new();
    let mut i: usize = 0;
    while i < chars.len()
        invariant
            i <= chars@.len(),
            out@ == chars@.subrange(0, i as int),
        decreases chars@.len() - i,
    {
        push_char(&mut out, chars[i]);
        i += 1;
    }
    out
}

} // verus!

verus! {

/// Unicode `White_Space` characters, the set that `char::is_whitespace`
/// and `str::trim` use.
pub open spec fn is_ws(c: char) -> bool {
    ||| ('\u{9}' <= c && c <= '\u{d}')
    ||| c == ' '
    ||| c == '\u{85}'
    ||| c == '\u{a0}'
    ||| c == '\u{1680}'
    ||| ('\u{2000}' <= c && c <= '\u{200a}')
    ||| c == '\u{2028}'
    ||| c == '\u{2029}'
    ||| c == '\u{202f}'
    ||| c == '\u{205f}'
    ||| c == '\u{3000}'
}

/// Decides `is_ws`.
pub fn is_whitespace(c: char) -> (r: bool)
    ensures
        r == is_ws(c),
{
    ('\u{9}' <= c && c <= '\u{d}') || c == ' ' || c == '\u{85}' || c == '\u{a0}' || c
        == '\u{1680}' || ('\u{2000}' <= c && c <= '\u{200a}') || c == '\u{2028}' || c
        == '\u{2029}' || c == '\u{202f}' || c == '\u{205f}' || c == '\u{3000}'
}

/// Number of whitespace characters at the start of `s`.
pub open spec fn lead_ws(s: Seq<char>) -> nat
    decreases s.len(),
{
    if s.len() > 0 && is_ws(s[0]) {
        1 + lead_ws(s.drop_first())
    } else {
        0
    }
}

/// Number of whitespace characters at the end of `s`.
pub open spec fn trail_ws(s: Seq<char>) -> nat
    decreases s.len(),
{
    if s.len() > 0 && is_ws(s.last()) {
        1 + trail_ws(s.drop_last())
    } else {
        0
    }
}

/// `s` without its trailing whitespace (`str::trim_end`).
pub open spec fn trim_end(s: Seq<char>) -> Seq<char> {
    s.take(s.len() - trail_ws(s))
}

/// `s` without its leading whitespace (`str::trim_start`).
pub open spec fn trim_start(s: Seq<char>) -> Seq<char> {
    s.skip(lead_ws(s) as int)
}

/// `s` without leading and trailing whitespace (`str::trim`).
pub open spec fn trim(s: Seq<char>) -> Seq<char> {
    trim_end(trim_start(s))
}

pub proof fn lemma_lead_ws(s: Seq<char>, k: int)
    requires
        0 <= k <= s.len(),
        forall|j: int| 0 <= j < k ==> is_ws(#[trigger] s[j]),
        k == s.len() || !is_ws(s[k]),
    ensures
        lead_ws(s) == k,
    decreases k,
{
    if k > 0 {
        let t = s.drop_first();
        assert forall|j: int| 0 <= j < k - 1 implies is_ws(#[trigger] t[j]) by {
            assert(t[j] == s[j + 1]);
        }
        if k < s.len() {
            assert(t[k - 1] == s[k]);
        }
        lemma_lead_ws(t, k - 1);
    }
}

pub proof fn lemma_trail_ws(s: Seq<char>, k: int)
    requires
        0 <= k <= s.len(),
        forall|j: int| s.len() - k <= j < s.len() ==> is_ws(#[trigger] s[j]),
        k == s.len() || !is_ws(s[s.len() - k - 1]),
    ensures
        trail_ws(s) == k,
    decreases k,
{
    if k > 0 {
        let t = s.drop_last();
        assert forall|j: int| t.len() - (k - 1) <= j < t.len() implies is_ws(#[trigger] t[j]) by {
            assert(t[j] == s[j]);
        }
        if k < s.len() {
            assert(t[t.len() - (k - 1) - 1] == s[s.len() - k - 1]);
        }
        lemma_trail_ws(t, k - 1);
    }
}

pub proof fn lemma_trail_ws_bound(s: Seq<char>)
    ensures
        trail_ws(s) <= s.len(),
    decreases s.len(),
{
    if s.len() > 0 && is_ws(s.last()) {
        lemma_trail_ws_bound(s.drop_last());
    }
}

pub proof fn lemma_lead_ws_bound(s: Seq<char>)
    ensures
        lead_ws(s) <= s.len(),
    decreases s.len(),
{
    if s.len() > 0 && is_ws(s[0]) {
        lemma_lead_ws_bound(s.drop_first());
    }
}

/// The bounds `(start, end)` of the trimmed part of `s[from..to]`.
pub fn trim_bounds(s: &[char], from: usize, to: usize, start_side: bool, end_side: bool) -> (r: (
    usize,
    usize,
))
    requires
        from <= to <= s@.len(),
    ensures
        from <= r.0 <= r.1 <= to,
        start_side && end_side ==> s@.subrange(r.0 as int, r.1 as int) == trim(
            s@.subrange(from as int, to as int),
        ),
        !start_side && end_side ==> r.0 == from && s@.subrange(r.0 as int, r.1 as int)
            == trim_end(s@.subrange(from as int, to as int)),
        !start_side && !end_side ==> r.0 == from && r.1 == to,
{
    let ghost whole = s@.subrange(from as int, to as int);
    let mut a = from;
    if start_side {
        while a < to && is_whitespace(s[a])
            invariant
                from <= a <= to <= s@.len(),
                forall|j: int| from <= j < a ==> is_ws(#[trigger] s@[j]),
            decreases to - a,
        {
            a += 1;
        }
        proof {
            assert forall|j: int| 0 <= j < a - from implies is_ws(#[trigger] whole[j]) by {
                assert(whole[j] == s@[from + j]);
            }
            if a < to {
                assert(whole[a - from] == s@[a as int]);
            }
            lemma_lead_ws(whole, a - from);
            assert(trim_start(whole) == s@.subrange(a as int, to as int));
        }
    }
    let ghost mid = s@.subrange(a as int, to as int);
    let mut b = to;
    if end_side {
        while b > a && is_whitespace(s[b - 1])
            invariant
                from <= a <= b <= to <= s@.len(),
                forall|j: int| b <= j < to ==> is_ws(#[trigger] s@[j]),
            decreases b - a,
        {
            b -= 1;
        }
        proof {
            assert forall|j: int| mid.len() - (to - b) <= j < mid.len() implies is_ws(
                #[trigger] mid[j],
            ) by {
                assert(mid[j] == s@[a + j]);
            }
            if b > a {
                assert(mid[mid.len() - (to - b) - 1] == s@[b - 1]);
            }
            lemma_trail_ws(mid, to - b);
            assert(trim_end(mid) == s@.subrange(a as int, b as int));
        }
    }
    (a, b)
}

/// Character-wise equality of two slices.
pub fn chars_equal(a: &[char], b: &[char]) -> (r: bool)
    ensures
        r == (a@ == b@),
{
    if a.len() != b.len() {
        return false;
    }
    let mut i: usize = 0;
    while i < a.len()
        invariant
            a@.len() == b@.len(),
            i <= a@.len(),
            forall|j: int| 0 <= j < i ==> a@[j] == b@[j],
        decreases a@.len() - i,
    {
        if a[i] != b[i] {
            return false;
        }
        i += 1;
    }
    assert(a@ =~= b@);
    true
}

} // verus!

verus! {

/// A copy of `s[a..b]`.
pub fn copy_range(s: &[char], a: usize, b: usize) -> (r: Vec<char>)
    requires
        a <= b <= s@.len(),
    ensures
        r@ == s@.subrange(a as int, b as int),
{
    let mut out: Vec<char> = Vec::new();
    let mut i = a;
    while i < b
        invariant
            a <= i <= b <= s@.len(),
            out@ == s@.subrange(a as int, i as int),
        decreases b - i,
    {
        out.push(s[i]);
        i += 1;
    }
    out
}

} // verus!

verus! {

/// The '\n'-separated segments of `s` (always at least one).
pub open spec fn segments(s: Seq<char>) -> Seq<Seq<char>>
    decreases s.len(),
{
    if s.len() == 0 {
        seq![seq![]]
    } else {
        let r = segments(s.drop_last());
        if s.last() == '\n' {
            r.push(seq![])
        } else {
            r.update(r.len() - 1, r.last().push(s.last()))
        }
    }
}

/// The lines of `s`: its '\n'-separated segments, without the empty
/// segment after a final '\n' (or of an empty text).
pub open spec fn lines_of(s: Seq<char>) -> Seq<Seq<char>> {
    let r = segments(s);
    if r.last().len() == 0 {
        r.drop_last()
    } else {
        r
    }
}

/// The lines joined with '\n' separators.
pub open spec fn join_lines(ls: Seq<Seq<char>>) -> Seq<char>
    decreases ls.len(),
{
    if ls.len() == 0 {
        seq![]
    } else if ls.len() == 1 {
        ls[0]
    } else {
        join_lines(ls.drop_last()).push('\n') + ls.last()
    }
}

/// The text of a list of lines: joined, with a final '\n' unless the text
/// is empty or its last line is empty.
pub open spec fn render_lines(ls: Seq<Seq<char>>) -> Seq<char> {
    if ls.len() > 0 && ls.last().len() > 0 {
        join_lines(ls).push('\n')
    } else {
        join_lines(ls)
    }
}

pub proof fn lemma_segments_nonempty(s: Seq<char>)
    ensures
        segments(s).len() >= 1,
    decreases s.len(),
{
    if s.len() > 0 {
        lemma_segments_nonempty(s.drop_last());
    }
}

/// Splits a text into its lines (see `lines_of`).
pub fn split_lines(s: &[char]) -> (r: Vec<Vec<char>>)
    ensures
        lines_view_of(r@) == lines_of(s@),
{
    let mut lines: Vec<Vec<char>> = Vec::new();
    let mut cur: Vec<char> = Vec::new();
    let mut i: usize = 0;
    while i < s.len()
        invariant
            i <= s@.len(),
            lines_view_of(lines@).push(cur@) == segments(s@.subrange(0, i as int)),
        decreases s@.len() - i,
    {
        let ghost pre = s@.subrange(0, i as int);
        assert(s@.subrange(0, i + 1).drop_last() == pre);
        proof {
            lemma_segments_nonempty(pre);
        }
        if s[i] == '\n' {
            let done = cur;
            lines.push(done);
            cur = Vec::new();
            assert(lines_view_of(lines@).push(cur@) =~= segments(pre).push(seq![]));
        } else {
            let ghost before = lines_view_of(lines@);
            cur.push(s[i]);
            assert(lines_view_of(lines@).push(cur@) =~= segments(pre).update(
                segments(pre).len() - 1,
                segments(pre).last().push(s@[i as int]),
            ));
        }
        i += 1;
    }
    assert(s@.subrange(0, s@.len() as int) == s@);
    if cur.len() > 0 {
        lines.push(cur);
    } else {
        assert(lines_view_of(lines@) =~= segments(s@).drop_last());
    }
    lines
}

/// The character view of a list of character vectors.
pub open spec fn lines_view_of(v: Seq<Vec<char>>) -> Seq<Seq<char>> {
    v.map_values(|l: Vec<char>| l@)
}

/// The character view of a list of strings.
pub open spec fn strings_view(v: Seq<String>) -> Seq<Seq<char>> {
    v.map_values(|l: String| l@)
}

/// The characters of each string.
pub fn char_lines(v: &[String]) -> (r: Vec<Vec<char>>)
    ensures
        lines_view_of(r@) == strings_view(v@),
{
    let mut out: Vec<Vec<char>> = Vec::new();
    let mut i: usize = 0;
    while i < v.len()
        invariant
            i <= v@.len(),
            lines_view_of(out@) == strings_view(v@.subrange(0, i as int)),
        decreases v@.len() - i,
    {
        let ghost prev = out@;
        let c = chars_of(v[i].as_str());
        assert(c@ == v@[i as int]@);
        out.push(c);
        assert(strings_view(v@.subrange(0, i + 1)) =~= strings_view(v@.subrange(0, i as int)).push(
            v@[i as int]@,
        ));
        assert(lines_view_of(out@) =~= lines_view_of(prev).push(c@));
        i += 1;
    }
    assert(v@.subrange(0, v@.len() as int) == v@);
    out
}

/// Appends `line` to a text being joined from lines.
pub fn push_joined_line(
    out: &mut Vec<char>,
    Ghost(written): Ghost<Seq<Seq<char>>>,
    any_written: bool,
    line: &[char],
)
    requires
        old(out)@ == join_lines(written),
        any_written == (written.len() > 0),
    ensures
        final(out)@ == join_lines(written.push(line@)),
{
    let ghost ws = written.push(line@);
    assert(ws.drop_last() == written);
    if any_written {
        out.push('\n');
    }
    let mut i: usize = 0;
    let ghost base = out@;
    while i < line.len()
        invariant
            i <= line@.len(),
            out@ == base + line@.subrange(0, i as int),
        decreases line@.len() - i,
    {
        out.push(line[i]);
        i += 1;
    }
    assert(line@.subrange(0, line@.len() as int) == line@);
    if !any_written {
        assert(ws.len() == 1);
        assert(out@ =~= ws[0]);
    } else {
        assert(out@ =~= join_lines(written).push('\n') + line@);
    }
}

} // verus!

verus! {

/// `p` is a prefix of `s`.
pub open spec fn has_prefix(s: Seq<char>, p: Seq<char>) -> bool {
    p.len() <= s.len() && s.subrange(0, p.len() as int) == p
}

/// `p` is a suffix of `s`.
pub open spec fn has_suffix(s: Seq<char>, p: Seq<char>) -> bool {
    p.len() <= s.len() && s.subrange(s.len() - p.len(), s.len() as int) == p
}

/// The first position at or after `from` holding `c`.
pub open spec fn char_pos_from(s: Seq<char>, c: char, from: int) -> Option<int>
    decreases s.len() - from,
{
    if from >= s.len() || from < 0 {
        None
    } else if s[from] == c {
        Some(from)
    } else {
        char_pos_from(s, c, from + 1)
    }
}

/// The first position at or after `from` where `a` is followed by `b`.
pub open spec fn pair_pos_from(s: Seq<char>, a: char, b: char, from: int) -> Option<int>
    decreases s.len() - from,
{
    if from + 1 >= s.len() || from < 0 {
        None
    } else if s[from] == a && s[from + 1] == b {
        Some(from)
    } else {
        pair_pos_from(s, a, b, from + 1)
    }
}

pub proof fn lemma_char_pos_from(s: Seq<char>, c: char, from: int)
    ensures
        char_pos_from(s, c, from) matches Some(i) ==> from <= i < s.len() && s[i] == c && 0
            <= from,
        char_pos_from(s, c, from) is None ==> forall|i: int|
            from <= i < s.len() && 0 <= from ==> s[i] != c,
    decreases s.len() - from,
{
    if from < s.len() && from >= 0 {
        lemma_char_pos_from(s, c, from + 1);
    }
}

pub proof fn lemma_pair_pos_from(s: Seq<char>, a: char, b: char, from: int)
    ensures
        pair_pos_from(s, a, b, from) matches Some(i) ==> from <= i && i + 1 < s.len() && 0
            <= from,
    decreases s.len() - from,
{
    if from + 1 < s.len() && from >= 0 {
        lemma_pair_pos_from(s, a, b, from + 1);
    }
}

/// Computes `char_pos_from`.
pub fn find_char_from(s: &[char], c: char, from: usize) -> (r: Option<usize>)
    ensures
        r matches Some(i) ==> char_pos_from(s@, c, from as int) == Some(i as int),
        r is None ==> char_pos_from(s@, c, from as int) is None,
{
    let mut i = from;
    while i < s.len()
        invariant
            from <= i,
            char_pos_from(s@, c, from as int) == char_pos_from(s@, c, i as int),
        decreases s@.len() - i,
    {
        if s[i] == c {
            return Some(i);
        }
        i += 1;
    }
    None
}

/// Computes `pair_pos_from`.
pub fn find_pair_from(s: &[char], a: char, b: char, from: usize) -> (r: Option<usize>)
    ensures
        r matches Some(i) ==> pair_pos_from(s@, a, b, from as int) == Some(i as int),
        r is None ==> pair_pos_from(s@, a, b, from as int) is None,
{
    let mut i = from;
    while i < s.len() && i + 1 < s.len()
        invariant
            from <= i,
            pair_pos_from(s@, a, b, from as int) == pair_pos_from(s@, a, b, i as int),
        decreases s@.len() - i,
    {
        if s[i] == a && s[i + 1] == b {
            return Some(i);
        }
        i += 1;
    }
    None
}

/// Decides `has_prefix(s, p)`.
pub fn starts_with(s: &[char], p: &str) -> (r: bool)
    ensures
        r == has_prefix(s@, p@),
{
    let pc = chars_of(p);
    if pc.len() > s.len() {
        return false;
    }
    let mut i: usize = 0;
    while i < pc.len()
        invariant
            i <= pc@.len() <= s@.len(),
            pc@ == p@,
            forall|j: int| 0 <= j < i ==> s@[j] == pc@[j],
        decreases pc@.len() - i,
    {
        if s[i] != pc[i] {
            assert(s@.subrange(0, pc@.len() as int)[i as int] != pc@[i as int]);
            return false;
        }
        i += 1;
    }
    assert(s@.subrange(0, pc@.len() as int) =~= pc@);
    true
}

/// Decides `has_suffix(s, p)`.
pub fn ends_with(s: &[char], p: &str) -> (r: bool)
    ensures
        r == has_suffix(s@, p@),
{
    let pc = chars_of(p);
    if pc.len() > s.len() {
        return false;
    }
    let off = s.len() - pc.len();
    let mut i: usize = 0;
    while i < pc.len()
        invariant
            i <= pc@.len() <= s@.len(),
            off + pc@.len() == s@.len(),
            s@.len() <= usize::MAX,
            pc@ == p@,
            forall|j: int| 0 <= j < i ==> s@[off + j] == pc@[j],
        decreases pc@.len() - i,
    {
        if s[off + i] != pc[i] {
            assert(s@.subrange(off as int, s@.len() as int)[i as int] != pc@[i as int]);
            return false;
        }
        i += 1;
    }
    assert(s@.subrange(off as int, s@.len() as int) =~= pc@);
    true
}

/// Decides `s == p`.
pub fn equals_str(s: &[char], p: &str) -> (r: bool)
    ensures
        r == (s@ == p@),
{
    let pc = chars_of(p);
    chars_equal(s, &pc)
}

} // verus!

verus! {

/// The decimal digit of `d` (0..=9).
pub open spec fn digit_char(d: int) -> char {
    (48 + d) as char
}

/// The decimal representation of `n`, without leading zeros.
pub open spec fn decimal(n: nat) -> Seq<char>
    decreases n,
{
    if n < 10 {
        seq![digit_char(n as int)]
    } else {
        decimal(n / 10).push(digit_char((n % 10) as int))
    }
}

/// Formats `n` with `itoa::Buffer::format`, which prints the decimal
/// representation of the integer.
#[verifier::external_body]
pub(crate) fn format_count(n: usize) -> (r: String)
    ensures
        r@ == decimal(n as nat),
{
    let mut buffer = itoa::Buffer::new();
    buffer.format(n).to_owned()
}

} // verus!
