//! Tolerant search of a block of lines inside a file's lines.
//!
//! A search tries, in order, an exact comparison and then progressively
//! more forgiving comparisons of line keys; the first tier that finds the
//! block decides the result.  Inside a tier the first window at or after
//! the start line wins.

pub mod alignment;
pub mod corpus;
pub mod nearest;
pub mod normalize;
pub mod tier;

use crate::seek_sequence::normalize::{collapse_spaces, collapsed, normalize, normalized};
use crate::seek_sequence::alignment::{dimensions_fit, fit, fit_spec, MIN_ACCEPTED_SCORE};
use crate::seek_sequence::corpus::{corpus_chars, corpus_lines, corpus_span, NormalizedCorpus};
use crate::seek_sequence::tier::SearchTier;
use crate::text::{copy_range, lines_view_of, trim, trim_bounds, trim_end};
use vstd::prelude::*;

verus! {

/// A located block: the first line and the number of original lines that it
/// spans (skipped empty lines inside the block count).
#[derive(Debug, Clone, Copy, PartialEq, Eq, Structural)]
pub struct SequenceMatch {
    pub start: usize,
    pub length: usize,
}

/// How two lines are compared.
#[derive(Debug, Clone, Copy, PartialEq, Eq, Structural)]
pub enum MatchMode {
    Exact,
    TrimEnd,
    Trim,
    Normalized,
    IgnoreEmptyLines,
    CollapseSpaces,
}

/// The comparison key of a line under a mode.
pub open spec fn line_key(mode: MatchMode, s: Seq<char>) -> Seq<char> {
    match mode {
        MatchMode::Exact => s,
        MatchMode::TrimEnd => trim_end(s),
        MatchMode::Trim => trim(s),
        MatchMode::Normalized => normalized(s),
        MatchMode::IgnoreEmptyLines => normalized(s),
        MatchMode::CollapseSpaces => collapsed(s),
    }
}

/// Modes that skip lines whose key is empty, on both sides.
pub open spec fn skips_empty(mode: MatchMode) -> bool {
    mode == MatchMode::IgnoreEmptyLines || mode == MatchMode::CollapseSpaces
}

/// Whether a line takes part in the comparison under a mode.
pub open spec fn keeps(mode: MatchMode, s: Seq<char>) -> bool {
    !(skips_empty(mode) && line_key(mode, s).len() == 0)
}

/// Indices (among the first `n`) of the lines that take part.
pub open spec fn kept_indices(mode: MatchMode, lines: Seq<Seq<char>>, n: int) -> Seq<int>
    decreases n,
{
    if n <= 0 {
        seq![]
    } else {
        let p = kept_indices(mode, lines, n - 1);
        if keeps(mode, lines[n - 1]) {
            p.push(n - 1)
        } else {
            p
        }
    }
}

/// Keys (among the first `n` lines) of the lines that take part.
pub open spec fn kept_keys(mode: MatchMode, lines: Seq<Seq<char>>, n: int) -> Seq<Seq<char>>
    decreases n,
{
    if n <= 0 {
        seq![]
    } else {
        let p = kept_keys(mode, lines, n - 1);
        if keeps(mode, lines[n - 1]) {
            p.push(line_key(mode, lines[n - 1]))
        } else {
            p
        }
    }
}

/// The keys of all lines that take part.
pub open spec fn all_keys(mode: MatchMode, lines: Seq<Seq<char>>) -> Seq<Seq<char>> {
    kept_keys(mode, lines, lines.len() as int)
}

/// The indices of all lines that take part.
pub open spec fn all_entries(mode: MatchMode, lines: Seq<Seq<char>>) -> Seq<int> {
    kept_indices(mode, lines, lines.len() as int)
}

/// The pattern keys equal the entry keys starting at entry `e`.
pub open spec fn window_at(keys: Seq<Seq<char>>, pattern_keys: Seq<Seq<char>>, e: int) -> bool {
    0 <= e && e + pattern_keys.len() <= keys.len() && keys.subrange(e, e + pattern_keys.len())
        == pattern_keys
}

/// The original lines covered by the `k` entries starting at entry `e`.
pub open spec fn span(entries: Seq<int>, e: int, k: int) -> SequenceMatch {
    SequenceMatch {
        start: entries[e] as usize,
        length: (entries[e + k - 1] - entries[e] + 1) as usize,
    }
}

/// The first entry `e` in `from..=last` whose line is at or after `start`
/// and where the window matches.
pub open spec fn first_window(
    entries: Seq<int>,
    keys: Seq<Seq<char>>,
    pattern_keys: Seq<Seq<char>>,
    start: int,
    from: int,
    last: int,
) -> Option<int>
    decreases last + 1 - from,
{
    if from > last {
        None
    } else if entries[from] >= start && window_at(keys, pattern_keys, from) {
        Some(from)
    } else {
        first_window(entries, keys, pattern_keys, start, from + 1, last)
    }
}

/// The result of searching `pattern` in `lines` under one mode.
///
/// An empty pattern matches (with length 0) at `start`.  With `eof` only
/// the last possible window is considered, wherever `start` is.
pub open spec fn tier_find(
    mode: MatchMode,
    lines: Seq<Seq<char>>,
    pattern: Seq<Seq<char>>,
    start: int,
    eof: bool,
) -> Option<SequenceMatch> {
    if pattern.len() == 0 {
        Some(SequenceMatch { start: start as usize, length: 0 })
    } else {
        let pk = all_keys(mode, pattern);
        let en = all_entries(mode, lines);
        let ek = all_keys(mode, lines);
        if pk.len() == 0 || pk.len() > en.len() {
            None
        } else {
            let last = en.len() - pk.len();
            if eof {
                if window_at(ek, pk, last) {
                    Some(span(en, last, pk.len() as int))
                } else {
                    None
                }
            } else {
                match first_window(en, ek, pk, start, 0, last) {
                    Some(e) => Some(span(en, e, pk.len() as int)),
                    None => None,
                }
            }
        }
    }
}

/// The tiers in the order they are tried.
pub open spec fn mode_at(i: int) -> MatchMode {
    if i == 0 {
        MatchMode::Exact
    } else if i == 1 {
        MatchMode::TrimEnd
    } else if i == 2 {
        MatchMode::Trim
    } else if i == 3 {
        MatchMode::Normalized
    } else if i == 4 {
        MatchMode::IgnoreEmptyLines
    } else {
        MatchMode::CollapseSpaces
    }
}

/// The result of the tiered search from tier `i` on.
pub open spec fn seek_from_tier(
    i: int,
    lines: Seq<Seq<char>>,
    pattern: Seq<Seq<char>>,
    start: int,
    eof: bool,
) -> Option<SequenceMatch>
    decreases 6 - i,
{
    if i >= 6 {
        None
    } else {
        match tier_find(mode_at(i), lines, pattern, start, eof) {
            Some(m) => Some(m),
            None => seek_from_tier(i + 1, lines, pattern, start, eof),
        }
    }
}

/// The tiered search: exact, then trailing whitespace ignored, then
/// surrounding whitespace ignored, then normalized punctuation, then
/// normalized with empty lines skipped, then with space runs collapsed.
pub open spec fn seek_spec(
    lines: Seq<Seq<char>>,
    pattern: Seq<Seq<char>>,
    start: int,
    eof: bool,
) -> Option<SequenceMatch> {
    seek_from_tier(0, lines, pattern, start, eof)
}

/// The closest approximate occurrence of `pattern` in `lines`: both are
/// flattened (collapsed keys, empty keys skipped, '\n'-joined), the pattern
/// is fitted into the lines by affine-gap alignment, and an alignment
/// scoring above `MIN_ACCEPTED_SCORE` is mapped back to the lines it
/// spans.  Nothing is reported for empty inputs, or for inputs too long for
/// the alignment's score range.
pub open spec fn closest_spec(lines: Seq<Seq<char>>, pattern: Seq<Seq<char>>) -> Option<
    SequenceMatch,
> {
    let pc = corpus_chars(pattern, pattern.len() as int);
    let tc = corpus_chars(lines, lines.len() as int);
    let tl = corpus_lines(lines, lines.len() as int);
    if pc.len() == 0 || tc.len() == 0 || !dimensions_fit(pc.len() as int, tc.len() as int) {
        None
    } else {
        let a = fit_spec(pc, tc);
        if a.score > MIN_ACCEPTED_SCORE {
            corpus_span(tc, tl, a.start, a.end)
        } else {
            None
        }
    }
}

/// Computes the key of a line under a mode.
pub fn line_key_of(mode: MatchMode, line: &[char]) -> (r: Vec<char>)
    ensures
        r@ == line_key(mode, line@),
{
    match mode {
        MatchMode::Exact => {
            assert(line@.subrange(0, line@.len() as int) == line@);
            copy_range(line, 0, line.len())
        },
        MatchMode::TrimEnd | MatchMode::Trim => {
            let both = match mode {
                MatchMode::Trim => true,
                _ => false,
            };
            let (a, b) = trim_bounds(line, 0, line.len(), both, true);
            assert(line@.subrange(0, line@.len() as int) == line@);
            copy_range(line, a, b)
        },
        MatchMode::Normalized | MatchMode::IgnoreEmptyLines => normalize(line),
        MatchMode::CollapseSpaces => collapse_spaces(line),
    }
}

/// Decides whether a mode skips empty keys.
pub fn mode_skips_empty(mode: MatchMode) -> (r: bool)
    ensures
        r == skips_empty(mode),
{
    match mode {
        MatchMode::IgnoreEmptyLines | MatchMode::CollapseSpaces => true,
        _ => false,
    }
}

fn mode_of_index(i: usize) -> (r: MatchMode)
    ensures
        r == mode_at(i as int),
{
    if i == 0 {
        MatchMode::Exact
    } else if i == 1 {
        MatchMode::TrimEnd
    } else if i == 2 {
        MatchMode::Trim
    } else if i == 3 {
        MatchMode::Normalized
    } else if i == 4 {
        MatchMode::IgnoreEmptyLines
    } else {
        MatchMode::CollapseSpaces
    }
}

/// Lines of a file prepared for repeated tiered searches; the tiers are
/// built the first time they are needed and kept.
pub struct LineSearchIndex {
    lines: Vec<Vec<char>>,
    tiers: Vec<Option<SearchTier>>,
}

impl LineSearchIndex {
    /// The lines searched.
    pub closed spec fn lines(&self) -> Seq<Seq<char>> {
        lines_view_of(self.lines@)
    }

    /// Every tier built so far agrees with the lines.
    pub closed spec fn wf(&self) -> bool {
        &&& self.tiers@.len() == 6
        &&& forall|i: int|
            0 <= i < 6 ==> match #[trigger] self.tiers@[i] {
                Some(t) => t.mode() == mode_at(i) && t.wf(lines_view_of(self.lines@)),
                None => true,
            }
    }

    /// An index over the given lines.
    pub fn new(lines: Vec<Vec<char>>) -> (r: Self)
        ensures
            r.wf(),
            r.lines() == lines_view_of(lines@),
    {
        let mut tiers: Vec<Option<SearchTier>> = Vec::new();
        let mut i: usize = 0;
        while i < 6
            invariant
                i <= 6,
                tiers@.len() == i,
                forall|j: int| 0 <= j < i ==> #[trigger] tiers@[j] is None,
            decreases 6 - i,
        {
            tiers.push(None);
            i += 1;
        }
        LineSearchIndex { lines, tiers }
    }

    /// Searches with tier `i` only.
    pub fn find_in_tier(&mut self, i: usize, pattern: &[Vec<char>], start: usize, eof: bool) -> (r:
        Option<SequenceMatch>)
        requires
            old(self).wf(),
            i < 6,
        ensures
            final(self).wf(),
            final(self).lines() == old(self).lines(),
            r == tier_find(mode_at(i as int), old(self).lines(), lines_view_of(pattern@), start as int, eof),
    {
        let mode = mode_of_index(i);
        let _line_count = self.lines.len();
        let cached = match &self.tiers[i] {
            Some(t) => Some(t.find(Ghost(lines_view_of(self.lines@)), pattern, start, eof)),
            None => None,
        };
        match cached {
            Some(r) => r,
            None => {
                let t = SearchTier::new(&self.lines, mode);
                let r = t.find(Ghost(lines_view_of(self.lines@)), pattern, start, eof);
                self.tiers.set(i, Some(t));
                r
            },
        }
    }

    /// The tiered search (see `seek_spec`).
    pub fn seek(&mut self, pattern: &[Vec<char>], start: usize, eof: bool) -> (r: Option<
        SequenceMatch,
    >)
        requires
            old(self).wf(),
        ensures
            final(self).wf(),
            final(self).lines() == old(self).lines(),
            r == seek_spec(old(self).lines(), lines_view_of(pattern@), start as int, eof),
    {
        let mut i: usize = 0;
        while i < 6
            invariant
                i <= 6,
                self.wf(),
                self.lines() == old(self).lines(),
                seek_spec(old(self).lines(), lines_view_of(pattern@), start as int, eof)
                    == seek_from_tier(i as int, old(self).lines(), lines_view_of(pattern@), start as int, eof),
            decreases 6 - i,
        {
            let r = self.find_in_tier(i, pattern, start, eof);
            if r.is_some() {
                return r;
            }
            i += 1;
        }
        None
    }

    /// The closest approximate occurrence (see `closest_spec`).
    pub fn closest(&self, pattern: &[Vec<char>]) -> (r: Option<SequenceMatch>)
        ensures
            r == closest_spec(self.lines(), lines_view_of(pattern@)),
    {
        let pattern_corpus = NormalizedCorpus::new(pattern);
        let target = NormalizedCorpus::new(&self.lines);
        let pattern_chars = pattern_corpus.chars();
        let target_chars = target.chars();
        if pattern_chars.len() == 0 || target_chars.len() == 0 {
            return None;
        }
        if (pattern_chars.len() as u128) + (target_chars.len() as u128) > 922337203685477580u128 {
            return None;
        }
        let alignment = fit(pattern_chars, target_chars);
        if alignment.score > MIN_ACCEPTED_SCORE {
            target.sequence(alignment.start, alignment.end)
        } else {
            None
        }
    }

    /// The exact tier alone.
    pub fn seek_exact(&mut self, pattern: &[Vec<char>], start: usize, eof: bool) -> (r: Option<
        SequenceMatch,
    >)
        requires
            old(self).wf(),
        ensures
            final(self).wf(),
            final(self).lines() == old(self).lines(),
            r == tier_find(MatchMode::Exact, old(self).lines(), lines_view_of(pattern@), start as int, eof),
    {
        self.find_in_tier(0, pattern, start, eof)
    }
}

} // verus!

verus! {

/// A found block lies within the lines (a nonempty pattern), or is the
/// empty block at `start` (an empty pattern).
pub proof fn lemma_tier_find_in_range(
    mode: MatchMode,
    lines: Seq<Seq<char>>,
    pattern: Seq<Seq<char>>,
    start: int,
    eof: bool,
)
    requires
        0 <= start,
        lines.len() <= usize::MAX,
        start <= usize::MAX,
    ensures
        tier_find(mode, lines, pattern, start, eof) matches Some(m) ==> (if pattern.len() == 0 {
            m.start == start && m.length == 0
        } else {
            m.start + m.length <= lines.len() && m.length >= 1 && (!eof ==> m.start >= start)
        }),
{
    if pattern.len() > 0 {
        let pk = all_keys(mode, pattern);
        let en = all_entries(mode, lines);
        let ek = all_keys(mode, lines);
        crate::seek_sequence::tier::lemma_kept_sorted(mode, lines, lines.len() as int);
        crate::seek_sequence::tier::lemma_kept_lengths(mode, lines, lines.len() as int);
        if pk.len() != 0 && pk.len() <= en.len() {
            let last = en.len() - pk.len();
            if !eof {
                lemma_first_window_range(en, ek, pk, start, 0, last);
                if let Some(e) = first_window(en, ek, pk, start, 0, last) {
                    assert(en[e] <= en[e + pk.len() - 1]);
                }
            } else {
                assert(en[last] <= en[last + pk.len() - 1]);
            }
        }
    }
}

pub proof fn lemma_first_window_range(
    en: Seq<int>,
    ek: Seq<Seq<char>>,
    pk: Seq<Seq<char>>,
    start: int,
    from: int,
    last: int,
)
    requires
        0 <= from,
    ensures
        first_window(en, ek, pk, start, from, last) matches Some(e) ==> from <= e <= last
            && en[e] >= start,
    decreases last + 1 - from,
{
    if from <= last {
        lemma_first_window_range(en, ek, pk, start, from + 1, last);
    }
}

/// The tiered search's result obeys `lemma_tier_find_in_range` too.
pub proof fn lemma_seek_in_range(
    i: int,
    lines: Seq<Seq<char>>,
    pattern: Seq<Seq<char>>,
    start: int,
    eof: bool,
)
    requires
        0 <= start <= usize::MAX,
        lines.len() <= usize::MAX,
        0 <= i,
    ensures
        seek_from_tier(i, lines, pattern, start, eof) matches Some(m) ==> (if pattern.len()
            == 0 {
            m.start == start && m.length == 0
        } else {
            m.start + m.length <= lines.len() && m.length >= 1 && (!eof ==> m.start >= start)
        }),
    decreases 6 - i,
{
    if i < 6 {
        lemma_tier_find_in_range(mode_at(i), lines, pattern, start, eof);
        lemma_seek_in_range(i + 1, lines, pattern, start, eof);
    }
}

/// A closest match lies within the lines.
pub proof fn lemma_closest_in_range(lines: Seq<Seq<char>>, pattern: Seq<Seq<char>>)
    ensures
        closest_spec(lines, pattern) matches Some(m) ==> m.start + m.length <= lines.len(),
{
    crate::seek_sequence::corpus::lemma_corpus_lengths(lines, lines.len() as int);
    let tc = corpus_chars(lines, lines.len() as int);
    let tl = corpus_lines(lines, lines.len() as int);
    if let Some(m) = closest_spec(lines, pattern) {
        let pc = corpus_chars(pattern, pattern.len() as int);
        let a = fit_spec(pc, tc);
        let f = crate::seek_sequence::corpus::first_content(tc, a.start, a.end);
        let l = crate::seek_sequence::corpus::last_content(tc, a.start, a.end);
        lemma_content_range(tc, a.start, a.end);
        assert(0 <= tl[l->0] < lines.len());
    }
}

pub proof fn lemma_content_range(chars: Seq<char>, start: int, end: int)
    requires
        0 <= start,
    ensures
        crate::seek_sequence::corpus::first_content(chars, start, end) matches Some(f) ==> start
            <= f < end,
        crate::seek_sequence::corpus::last_content(chars, start, end) matches Some(l) ==> start
            <= l < end,
    decreases end - start,
{
    if start < end {
        lemma_content_range(chars, start + 1, end);
        lemma_last_content_range(chars, start, end);
    }
}

pub proof fn lemma_last_content_range(chars: Seq<char>, start: int, to: int)
    ensures
        crate::seek_sequence::corpus::last_content(chars, start, to) matches Some(l) ==> start
            <= l < to,
    decreases to - start,
{
    if to > start {
        lemma_last_content_range(chars, start, to - 1);
    }
}

} // verus!

verus! {

/// Under the exact mode every line takes part, keyed by itself.
pub proof fn lemma_exact_keys(lines: Seq<Seq<char>>, n: int)
    requires
        0 <= n <= lines.len(),
    ensures
        kept_keys(MatchMode::Exact, lines, n) == lines.take(n),
        kept_indices(MatchMode::Exact, lines, n) == Seq::new(n as nat, |i: int| i),
    decreases n,
{
    if n > 0 {
        lemma_exact_keys(lines, n - 1);
        assert(lines.take(n - 1).push(lines[n - 1]) =~= lines.take(n));
        assert(Seq::new((n - 1) as nat, |i: int| i).push(n - 1) =~= Seq::new(n as nat, |i: int| i));
    } else {
        assert(lines.take(0) =~= Seq::<Seq<char>>::empty());
        assert(Seq::new(0, |i: int| i) =~= Seq::<int>::empty());
    }
}

/// Over the identity entries, `first_window` finds the first matching
/// window at or after both `from` and `start`.
pub proof fn lemma_first_window_first(
    en: Seq<int>,
    ek: Seq<Seq<char>>,
    pk: Seq<Seq<char>>,
    start: int,
    from: int,
    last: int,
)
    requires
        0 <= from,
        last < en.len(),
        forall|i: int| 0 <= i < en.len() ==> #[trigger] en[i] == i,
    ensures
        match first_window(en, ek, pk, start, from, last) {
            Some(e) => from <= e <= last && e >= start && window_at(ek, pk, e) && forall|q: int|
                from <= q < e && q >= start ==> !window_at(ek, pk, q),
            None => forall|q: int| from <= q <= last && q >= start ==> !window_at(ek, pk, q),
        },
    decreases last + 1 - from,
{
    if from <= last {
        lemma_first_window_first(en, ek, pk, start, from + 1, last);
    }
}

/// When the pattern occurs verbatim at or after the start line, the search
/// finds its first verbatim occurrence there: a tolerant match never wins
/// over an exact one, even an earlier one.
pub proof fn law_exact_occurrence_found_first(
    lines: Seq<Seq<char>>,
    pattern: Seq<Seq<char>>,
    start: int,
    p: int,
)
    requires
        pattern.len() > 0,
        lines.len() <= usize::MAX,
        0 <= start <= p,
        p + pattern.len() <= lines.len(),
        lines.subrange(p, p + pattern.len()) == pattern,
    ensures
        seek_spec(lines, pattern, start, false) matches Some(m) && start <= m.start <= p && m.length
            == pattern.len() && lines.subrange(m.start as int, m.start + pattern.len()) == pattern
            && forall|q: int|
            start <= q < m.start ==> #[trigger] lines.subrange(q, q + pattern.len()) != pattern,
{
    lemma_exact_keys(lines, lines.len() as int);
    lemma_exact_keys(pattern, pattern.len() as int);
    assert(lines.take(lines.len() as int) =~= lines);
    assert(pattern.take(pattern.len() as int) =~= pattern);
    let en = all_entries(MatchMode::Exact, lines);
    let ek = all_keys(MatchMode::Exact, lines);
    let pk = all_keys(MatchMode::Exact, pattern);
    assert(ek == lines);
    assert(pk == pattern);
    let last = en.len() - pk.len();
    lemma_first_window_first(en, ek, pk, start, 0, last);
    assert(window_at(ek, pk, p));
    let e = first_window(en, ek, pk, start, 0, last)->0;
    assert(en[e] == e);
    assert(en[e + pk.len() - 1] == e + pk.len() - 1);
    assert forall|q: int| start <= q < e implies #[trigger] lines.subrange(q, q + pattern.len())
        != pattern by {
        assert(!window_at(ek, pk, q));
    }
}

/// At the end of the file only the last possible window is considered, so
/// the start line plays no part.
pub proof fn law_eof_search_ignores_start(
    lines: Seq<Seq<char>>,
    pattern: Seq<Seq<char>>,
    s1: int,
    s2: int,
)
    requires
        pattern.len() > 0,
    ensures
        seek_spec(lines, pattern, s1, true) == seek_spec(lines, pattern, s2, true),
{
    lemma_eof_tiers_ignore_start(0, lines, pattern, s1, s2);
}

proof fn lemma_eof_tiers_ignore_start(
    i: int,
    lines: Seq<Seq<char>>,
    pattern: Seq<Seq<char>>,
    s1: int,
    s2: int,
)
    requires
        pattern.len() > 0,
    ensures
        seek_from_tier(i, lines, pattern, s1, true) == seek_from_tier(i, lines, pattern, s2, true),
    decreases 6 - i,
{
    if i < 6 {
        lemma_eof_tiers_ignore_start(i + 1, lines, pattern, s1, s2);
        assert(tier_find(mode_at(i), lines, pattern, s1, true) == tier_find(
            mode_at(i),
            lines,
            pattern,
            s2,
            true,
        ));
    }
}

} // verus!

verus! {

/// Under the normalized mode every line takes part, keyed by its
/// normalized form.
proof fn lemma_normalized_keys(lines: Seq<Seq<char>>, n: int)
    requires
        0 <= n <= lines.len(),
    ensures
        kept_keys(MatchMode::Normalized, lines, n) == lines.take(n).map_values(|l: Seq<char>| normalized(l)),
        kept_indices(MatchMode::Normalized, lines, n) == Seq::new(n as nat, |i: int| i),
    decreases n,
{
    if n > 0 {
        lemma_normalized_keys(lines, n - 1);
        assert(lines.take(n - 1).map_values(|l: Seq<char>| normalized(l)).push(normalized(lines[n - 1]))
            =~= lines.take(n).map_values(|l: Seq<char>| normalized(l)));
        assert(Seq::new((n - 1) as nat, |i: int| i).push(n - 1) =~= Seq::new(n as nat, |i: int| i));
    } else {
        assert(lines.take(0).map_values(|l: Seq<char>| normalized(l)) =~= Seq::<Seq<char>>::empty());
        assert(Seq::new(0, |i: int| i) =~= Seq::<int>::empty());
    }
}

/// A block written with ASCII spellings of the file's typographic
/// punctuation is found: when the pattern lines are ASCII and each one,
/// trimmed, spells the trimmed file line at the same place of a block at
/// or after the start line in ASCII (typographic dashes, quotes and spaces
/// written as '-', '\'', '"' and ' '), the search finds a block at or after
/// the start line.  (The file lines are taken to be in NFKC form already,
/// as text with such punctuation usually is: NFKC, an outside
/// normalization, is applied before the punctuation is folded.)
pub proof fn law_ascii_spelling_of_typographic_lines_found(
    lines: Seq<Seq<char>>,
    pattern: Seq<Seq<char>>,
    start: int,
    p: int,
)
    requires
        pattern.len() > 0,
        lines.len() <= usize::MAX,
        0 <= start <= p,
        p + pattern.len() <= lines.len(),
        forall|k: int|
            0 <= k < pattern.len() ==> {
                &&& crate::seek_sequence::normalize::nfkc_form(trim(lines[p + k])) == trim(lines[p + k])
                &&& crate::seek_sequence::normalize::all_ascii(#[trigger] pattern[k])
                &&& crate::seek_sequence::normalize::ascii_spelled(trim(lines[p + k]), trim(pattern[k]))
            },
    ensures
        seek_spec(lines, pattern, start, false) matches Some(m) && m.start >= start,
{
    let mode = MatchMode::Normalized;
    lemma_normalized_keys(lines, lines.len() as int);
    lemma_normalized_keys(pattern, pattern.len() as int);
    assert(lines.take(lines.len() as int) =~= lines);
    assert(pattern.take(pattern.len() as int) =~= pattern);
    let en = all_entries(mode, lines);
    let ek = all_keys(mode, lines);
    let pk = all_keys(mode, pattern);
    assert forall|k: int| 0 <= k < pattern.len() implies #[trigger] ek[p + k] == pk[k] by {
        assert(pattern[k] == pattern[k]);
        crate::seek_sequence::normalize::lemma_ascii_spelling_normalizes_alike(lines[p + k], pattern[k]);
    }
    assert(ek.subrange(p, p + pk.len()) =~= pk);
    assert(window_at(ek, pk, p));
    let last = en.len() - pk.len();
    lemma_first_window_first(en, ek, pk, start, 0, last);
    assert(en[p] == p);
    assert(tier_find(mode, lines, pattern, start, false) is Some);
    assert(mode_at(3) == mode);
    reveal_with_fuel(seek_from_tier, 5);
    assert(seek_from_tier(0, lines, pattern, start, false) is Some);
    lemma_seek_in_range(0, lines, pattern, start, false);
}

} // verus!
