//! Lines flattened for the Levenshtein closest-match search, with the
//! character range of every (collapsed, nonempty) line.

use crate::seek_sequence::corpus::corpus_chars;
use crate::seek_sequence::nearest::ranking::{threshold, Similarity};
use crate::seek_sequence::normalize::{collapse_spaces, collapsed};
use crate::seek_sequence::SequenceMatch;
use crate::text::lines_view_of;
use core::ops::Range;
use vstd::prelude::*;

verus! {

/// A flattened line: its index, and its characters' range.
pub struct FlatEntry {
    pub line: int,
    pub start: int,
    pub end: int,
}

/// The flattened lines among the first `n` lines.
pub open spec fn flat_entries(lines: Seq<Seq<char>>, n: int) -> Seq<FlatEntry>
    decreases n,
{
    if n <= 0 {
        seq![]
    } else {
        let prev = flat_entries(lines, n - 1);
        let key = collapsed(lines[n - 1]);
        if key.len() == 0 {
            prev
        } else {
            let base: int = corpus_chars(lines, n - 1).len() as int;
            let s: int = if base == 0 {
                0
            } else {
                base + 1
            };
            prev.push(FlatEntry { line: n - 1, start: s, end: s + key.len() })
        }
    }
}

/// Flattened entries are nonempty, ordered and separated by one character;
/// the last one ends the flattened text; each holds its line's key.
pub open spec fn entries_well_formed(chars: Seq<char>, entries: Seq<FlatEntry>, n: int) -> bool {
    &&& forall|i: int| 0 <= i < entries.len() ==> 0 <= #[trigger] entries[i].start < entries[i].end
        <= chars.len()
    &&& forall|i: int| 0 <= i < entries.len() ==> 0 <= #[trigger] entries[i].line < n
    &&& forall|i: int|
        0 <= i < entries.len() - 1 ==> #[trigger] entries[i].end + 1 == entries[i + 1].start
            && entries[i].line < entries[i + 1].line
    &&& entries.len() == 0 <==> chars.len() == 0
    &&& entries.len() > 0 ==> entries.last().end == chars.len() && entries[0].start == 0
}

pub proof fn lemma_flat_entries(lines: Seq<Seq<char>>, n: int)
    requires
        0 <= n <= lines.len(),
    ensures
        entries_well_formed(corpus_chars(lines, n), flat_entries(lines, n), n),
    decreases n,
{
    if n > 0 {
        lemma_flat_entries(lines, n - 1);
        let prev = flat_entries(lines, n - 1);
        let cur = flat_entries(lines, n);
        let c = corpus_chars(lines, n);
        assert forall|i: int| 0 <= i < cur.len() - 1 implies #[trigger] cur[i].end + 1 == cur[i
            + 1].start && cur[i].line < cur[i + 1].line by {
            if i + 1 < prev.len() {
                assert(cur[i] == prev[i] && cur[i + 1] == prev[i + 1]);
            } else {
                assert(cur[i] == prev[i]);
            }
        }
        assert forall|i: int| 0 <= i < cur.len() implies 0 <= #[trigger] cur[i].start
            < cur[i].end <= c.len() by {
            if i < prev.len() {
                assert(cur[i] == prev[i]);
            }
        }
        assert forall|i: int| 0 <= i < cur.len() implies 0 <= #[trigger] cur[i].line < n by {
            if i < prev.len() {
                assert(cur[i] == prev[i]);
            }
        }
    }
}

/// The flattened text of a pattern (the same flattening as the lines).
pub fn flatten_pattern(pattern: &[Vec<char>]) -> (r: Vec<char>)
    ensures
        r@ == corpus_chars(lines_view_of(pattern@), pattern@.len() as int),
{
    let ghost lv = lines_view_of(pattern@);
    let mut chars: Vec<char> = Vec::new();
    let mut i: usize = 0;
    while i < pattern.len()
        invariant
            i <= pattern@.len(),
            lv == lines_view_of(pattern@),
            chars@ == corpus_chars(lv, i as int),
        decreases pattern@.len() - i,
    {
        let key = collapse_spaces(&pattern[i]);
        assert(lv[i as int] == pattern@[i as int]@);
        if key.len() > 0 {
            if chars.len() > 0 {
                chars.push('\n');
            }
            crate::content::push_all(&mut chars, &key);
        }
        i += 1;
    }
    chars
}

/// Executable form of a `FlatEntry`.
#[derive(Clone, Copy)]
pub struct LineEntry {
    pub line_index: usize,
    pub start: usize,
    pub end: usize,
}

impl LineEntry {
    pub open spec fn view(&self) -> FlatEntry {
        FlatEntry { line: self.line_index as int, start: self.start as int, end: self.end as int }
    }
}

pub open spec fn entries_view(e: Seq<LineEntry>) -> Seq<FlatEntry> {
    e.map_values(|x: LineEntry| x.view())
}

/// The characters from entry `start` to the end of entry `end`.
pub open spec fn fragment_spec(chars: Seq<char>, entries: Seq<FlatEntry>, start: int, end: int) -> Seq<char> {
    chars.subrange(entries[start].start, entries[end].end)
}

/// The lines spanned by entries `start..=end`.
pub open spec fn sequence_spec(entries: Seq<FlatEntry>, start: int, end: int) -> SequenceMatch {
    SequenceMatch {
        start: entries[start].line as usize,
        length: (entries[end].line - entries[start].line + 1) as usize,
    }
}

/// The length of the fragment from entry `start` to the end of entry `e`.
pub open spec fn fragment_length(entries: Seq<FlatEntry>, start: int, e: int) -> int {
    entries[e].end - entries[start].start
}

/// A fragment so short that even a perfect match stays at or below the
/// threshold.
pub open spec fn too_short(length: int, pattern_length: int) -> bool {
    length < pattern_length && 2 * length <= pattern_length
}

/// The best similarity the lengths allow is above the threshold.
pub open spec fn length_allows(length: int, pattern_length: int) -> bool {
    if length <= pattern_length {
        2 * length > pattern_length
    } else {
        2 * pattern_length > length
    }
}

/// The number of entries from `from` (before `to`) that are too short.
pub open spec fn leading_too_short(entries: Seq<FlatEntry>, start: int, p: int, from: int, to: int) -> int
    decreases to - from,
{
    if from < to && too_short(fragment_length(entries, start, from), p) {
        1 + leading_too_short(entries, start, p, from + 1, to)
    } else {
        0
    }
}

/// The number of entries from `from` (before `to`) whose length allows a
/// match.
pub open spec fn leading_allowed(entries: Seq<FlatEntry>, start: int, p: int, from: int, to: int) -> int
    decreases to - from,
{
    if from < to && length_allows(fragment_length(entries, start, from), p) {
        1 + leading_allowed(entries, start, p, from + 1, to)
    } else {
        0
    }
}

/// The ends of the candidate fragments that start at entry `start`: after
/// the too short ones, those whose length allows a match.
pub open spec fn candidate_range_spec(entries: Seq<FlatEntry>, start: int, p: int) -> (int, int) {
    let first = start + leading_too_short(entries, start, p, start, entries.len() as int);
    (first, first + leading_allowed(entries, start, p, first, entries.len() as int))
}

/// Decides `too_short`: shorter than the pattern, and its best similarity
/// is not above the threshold.
fn is_too_short(length: usize, pattern_length: usize) -> (r: bool)
    ensures
        r == too_short(length as int, pattern_length as int),
{
    length < pattern_length && !Similarity::length_bound(pattern_length, length).greater_than(
        threshold(),
    )
}

/// Decides `length_allows`: the best similarity is above the threshold.
fn allows_match(length: usize, pattern_length: usize) -> (r: bool)
    ensures
        r == length_allows(length as int, pattern_length as int),
{
    Similarity::length_bound(pattern_length, length).greater_than(threshold())
}

/// Flattened lines: the characters, and the range of every line.
pub struct FlattenedLines {
    pub chars: Vec<char>,
    pub entries: Vec<LineEntry>,
}

impl FlattenedLines {
    pub open spec fn chars_view(&self) -> Seq<char> {
        self.chars@
    }

    pub open spec fn entries_spec(&self) -> Seq<FlatEntry> {
        entries_view(self.entries@)
    }

    /// Flattens `lines`.
    pub fn new(lines: &[Vec<char>]) -> (r: Self)
        ensures
            r.chars_view() == corpus_chars(lines_view_of(lines@), lines@.len() as int),
            r.entries_spec() == flat_entries(lines_view_of(lines@), lines@.len() as int),
    {
        let ghost lv = lines_view_of(lines@);
        let mut chars: Vec<char> = Vec::new();
        let mut entries: Vec<LineEntry> = Vec::new();
        let mut i: usize = 0;
        while i < lines.len()
            invariant
                i <= lines@.len(),
                lv == lines_view_of(lines@),
                chars@ == corpus_chars(lv, i as int),
                entries_view(entries@) == flat_entries(lv, i as int),
            decreases lines@.len() - i,
        {
            let key = collapse_spaces(&lines[i]);
            assert(lv[i as int] == lines@[i as int]@);
            if key.len() > 0 {
                if chars.len() > 0 {
                    chars.push('\n');
                }
                let start = chars.len();
                crate::content::push_all(&mut chars, &key);
                let ghost e0 = entries@;
                let end = chars.len();
                entries.push(LineEntry { line_index: i, start, end });
                assert(entries_view(entries@) =~= entries_view(e0).push(
                    LineEntry { line_index: i, start, end }.view(),
                ));
            }
            i += 1;
        }
        FlattenedLines { chars, entries }
    }

    /// The number of flattened lines.
    pub fn entry_count(&self) -> (r: usize)
        ensures
            r == self.entries_spec().len(),
    {
        self.entries.len()
    }

    /// The characters from entry `start` to the end of entry `end`.
    pub fn fragment(&self, start: usize, end: usize) -> (r: Vec<char>)
        requires
            start <= end < self.entries_spec().len(),
            self.entries_spec()[start as int].start <= self.entries_spec()[end as int].end
                <= self.chars_view().len(),
        ensures
            r@ == fragment_spec(self.chars_view(), self.entries_spec(), start as int, end as int),
    {
        let a = self.entries[start].start;
        let b = self.entries[end].end;
        crate::text::copy_range(&self.chars, a, b)
    }

    /// The lines spanned by entries `start..=end`.
    pub fn sequence(&self, start: usize, end: usize) -> (r: SequenceMatch)
        requires
            start <= end < self.entries_spec().len(),
            self.entries_spec()[start as int].line <= self.entries_spec()[end as int].line,
            self.entries_spec()[end as int].line - self.entries_spec()[start as int].line + 1
                <= usize::MAX,
        ensures
            r == sequence_spec(self.entries_spec(), start as int, end as int),
    {
        let first = self.entries[start].line_index;
        let last = self.entries[end].line_index;
        SequenceMatch { start: first, length: last - first + 1 }
    }

    /// The ends of the fragments starting at entry `start` whose length
    /// allows a similarity above the threshold (see `candidate_range_spec`).
    pub fn candidate_range(&self, start: usize, pattern_length: usize) -> (r: Range<usize>)
        requires
            start < self.entries_spec().len(),
            forall|i: int|
                0 <= i < self.entries_spec().len() ==> self.entries_spec()[start as int].start
                    <= #[trigger] self.entries_spec()[i].end || i < start,
        ensures
            (r.start as int, r.end as int) == candidate_range_spec(
                self.entries_spec(),
                start as int,
                pattern_length as int,
            ),
    {
        let ghost es = self.entries_spec();
        let n = self.entries.len();
        let origin = self.entries[start].start;
        let mut first = start;
        while first < n && is_too_short(self.entries[first].end - origin, pattern_length)
            invariant
                start <= first <= n,
                n == es.len(),
                es == self.entries_spec(),
                origin == es[start as int].start,
                forall|i: int|
                    0 <= i < es.len() ==> origin <= #[trigger] es[i].end || i < start,
                leading_too_short(es, start as int, pattern_length as int, start as int, n as int)
                    == (first - start) + leading_too_short(
                    es,
                    start as int,
                    pattern_length as int,
                    first as int,
                    n as int,
                ),
            decreases n - first,
        {
            assert(es[first as int] == self.entries@[first as int].view());
            first += 1;
        }
        proof {
            if first < n {
                assert(es[first as int] == self.entries@[first as int].view());
            }
        }
        let mut end = first;
        while end < n && allows_match(self.entries[end].end - origin, pattern_length)
            invariant
                first <= end <= n,
                n == es.len(),
                es == self.entries_spec(),
                origin == es[start as int].start,
                forall|i: int|
                    0 <= i < es.len() ==> origin <= #[trigger] es[i].end || i < start,
                start <= first,
                leading_allowed(es, start as int, pattern_length as int, first as int, n as int)
                    == (end - first) + leading_allowed(
                    es,
                    start as int,
                    pattern_length as int,
                    end as int,
                    n as int,
                ),
            decreases n - end,
        {
            assert(es[end as int] == self.entries@[end as int].view());
            end += 1;
        }
        proof {
            if end < n {
                assert(es[end as int] == self.entries@[end as int].view());
            }
        }
        first..end
    }

    /// Of the ends in `range`, the one or two whose fragment length is
    /// nearest the pattern length (the last shorter one and the first
    /// other one), the nearer of them, the shorter on a tie (see
    /// `closest_length_spec`).
    pub fn closest_length_index(&self, start: usize, pattern_length: usize, range: &Range<usize>) -> (r: Option<usize>)
        requires
            forall|i: int|
                range.start <= i < range.end && i < self.entries_spec().len() && start < self.entries_spec().len()
                    ==> self.entries_spec()[start as int].start <= #[trigger] self.entries_spec()[i].end,
        ensures
            option_int(r) == closest_length_spec(
                self.entries_spec(),
                start as int,
                pattern_length as int,
                range.start as int,
                range.end as int,
            ),
    {
        let ghost es = self.entries_spec();
        let n = self.entries.len();
        if range.start > range.end || range.end > n || start >= n {
            return None;
        }
        let origin = self.entries[start].start;
        let mut right = range.start;
        while right < range.end && self.entries[right].end - origin < pattern_length
            invariant
                range.start <= right <= range.end <= n,
                n == es.len(),
                es == self.entries_spec(),
                start < n,
                origin == es[start as int].start,
                forall|i: int|
                    range.start <= i < range.end ==> origin <= #[trigger] es[i].end,
                shorter_count(es, origin as int, pattern_length as int, range.start as int, range.end as int)
                    == (right - range.start) + shorter_count(
                    es,
                    origin as int,
                    pattern_length as int,
                    right as int,
                    range.end as int,
                ),
            decreases range.end - right,
        {
            assert(es[right as int] == self.entries@[right as int].view());
            right += 1;
        }
        proof {
            if right < range.end {
                assert(es[right as int] == self.entries@[right as int].view());
            }
        }
        let left = if right >= 1 && right - 1 >= range.start {
            Some(right - 1)
        } else {
            None
        };
        let next = if right < range.end {
            Some(right)
        } else {
            None
        };
        match (left, next) {
            (Some(l), Some(x)) => {
                assert(es[l as int] == self.entries@[l as int].view());
                assert(es[x as int] == self.entries@[x as int].view());
                if length_gap(self.entries[l].end - origin, pattern_length) <= length_gap(
                    self.entries[x].end - origin,
                    pattern_length,
                ) {
                    Some(l)
                } else {
                    Some(x)
                }
            },
            (Some(l), None) => Some(l),
            (None, Some(x)) => Some(x),
            (None, None) => None,
        }
    }
}

pub open spec fn option_int(o: Option<usize>) -> Option<int> {
    match o {
        Some(x) => Some(x as int),
        None => None,
    }
}

/// `|length - pattern_length|`.
fn length_gap(length: usize, pattern_length: usize) -> (r: usize)
    ensures
        r == gap_spec(length as int, pattern_length as int),
{
    if length >= pattern_length {
        length - pattern_length
    } else {
        pattern_length - length
    }
}

pub open spec fn gap_spec(a: int, b: int) -> int {
    if a >= b {
        a - b
    } else {
        b - a
    }
}

/// The number of entries from `from` (before `to`) whose fragment, from
/// character `origin`, is shorter than the pattern.
pub open spec fn shorter_count(entries: Seq<FlatEntry>, origin: int, p: int, from: int, to: int) -> int
    decreases to - from,
{
    if from < to && entries[from].end - origin < p {
        1 + shorter_count(entries, origin, p, from + 1, to)
    } else {
        0
    }
}

/// The end in `rs..re` whose fragment length (from entry `start`) is
/// nearest the pattern length: of the last shorter end and the first
/// other end, the nearer, the first on a tie.
pub open spec fn closest_length_spec(entries: Seq<FlatEntry>, start: int, p: int, rs: int, re: int) -> Option<int> {
    if rs > re || re > entries.len() || start >= entries.len() || start < 0 {
        None
    } else {
        let origin = entries[start].start;
        let right = rs + shorter_count(entries, origin, p, rs, re);
        let left = if right >= 1 && right - 1 >= rs {
            Some(right - 1)
        } else {
            None
        };
        let next = if right < re {
            Some(right)
        } else {
            None
        };
        match (left, next) {
            (Some(l), Some(x)) => if gap_spec(entries[l].end - origin, p) <= gap_spec(
                entries[x].end - origin,
                p,
            ) {
                Some(l)
            } else {
                Some(x)
            },
            (Some(l), None) => Some(l),
            (None, Some(x)) => Some(x),
            (None, None) => None,
        }
    }
}

} // verus!

verus! {

/// Entries further apart are further apart in the text and in the lines.
pub proof fn lemma_entries_ordered(chars: Seq<char>, es: Seq<FlatEntry>, n: int, i: int, j: int)
    requires
        entries_well_formed(chars, es, n),
        0 <= i < j < es.len(),
    ensures
        es[i].end < es[j].start,
        es[i].line < es[j].line,
    decreases j - i,
{
    assert(es[i].end + 1 == es[i + 1].start && es[i].line < es[i + 1].line);
    if i + 1 < j {
        lemma_entries_ordered(chars, es, n, i + 1, j);
        assert(es[i + 1].start < es[i + 1].end);
    }
}

pub proof fn lemma_leading_too_short(es: Seq<FlatEntry>, a: int, p: int, from: int, to: int)
    requires
        from <= to,
    ensures
        0 <= leading_too_short(es, a, p, from, to) <= to - from,
        forall|e: int|
            from <= e < from + leading_too_short(es, a, p, from, to) ==> #[trigger] too_short(
                fragment_length(es, a, e),
                p,
            ),
        from + leading_too_short(es, a, p, from, to) < to ==> !too_short(
            fragment_length(es, a, from + leading_too_short(es, a, p, from, to)),
            p,
        ),
    decreases to - from,
{
    if from < to && too_short(fragment_length(es, a, from), p) {
        lemma_leading_too_short(es, a, p, from + 1, to);
    }
}

pub proof fn lemma_leading_allowed(es: Seq<FlatEntry>, a: int, p: int, from: int, to: int)
    requires
        from <= to,
    ensures
        0 <= leading_allowed(es, a, p, from, to) <= to - from,
        from + leading_allowed(es, a, p, from, to) < to ==> !length_allows(
            fragment_length(es, a, from + leading_allowed(es, a, p, from, to)),
            p,
        ),
    decreases to - from,
{
    if from < to && length_allows(fragment_length(es, a, from), p) {
        lemma_leading_allowed(es, a, p, from + 1, to);
    }
}

/// Every end whose fragment length allows a match lies in the candidate
/// range.
pub proof fn lemma_candidate_range_covers(chars: Seq<char>, es: Seq<FlatEntry>, n: int, a: int, p: int, e: int)
    requires
        entries_well_formed(chars, es, n),
        0 <= a <= e < es.len(),
        p > 0,
        length_allows(fragment_length(es, a, e), p),
    ensures
        candidate_range_spec(es, a, p).0 <= e < candidate_range_spec(es, a, p).1,
{
    let len = es.len() as int;
    lemma_leading_too_short(es, a, p, a, len);
    let rs = a + leading_too_short(es, a, p, a, len);
    lemma_leading_allowed(es, a, p, rs, len);
    let re = rs + leading_allowed(es, a, p, rs, len);
    if e < rs {
        assert(too_short(fragment_length(es, a, e), p));
    } else if e >= re {
        assert(re < len);
        assert(!length_allows(fragment_length(es, a, re), p));
        assert(rs < len);
        assert(!too_short(fragment_length(es, a, rs), p));
        if rs < re {
            lemma_entries_ordered(chars, es, n, rs, re);
            assert(es[re].start < es[re].end);
        }
        if re < e {
            lemma_entries_ordered(chars, es, n, re, e);
            assert(es[e].start < es[e].end);
        }
    }
}

} // verus!

verus! {

pub proof fn lemma_shorter_count(es: Seq<FlatEntry>, origin: int, p: int, from: int, to: int)
    requires
        from <= to,
    ensures
        0 <= shorter_count(es, origin, p, from, to) <= to - from,
    decreases to - from,
{
    if from < to && es[from].end - origin < p {
        lemma_shorter_count(es, origin, p, from + 1, to);
    }
}

} // verus!
