//! The closest approximate occurrence of a block by Levenshtein
//! similarity: every run of consecutive (collapsed, nonempty) lines whose
//! length could be similar enough is compared with the pattern, and the
//! best-ranked candidate above the threshold wins.

pub mod corpus;
pub mod ranking;

use crate::seek_sequence::corpus::corpus_chars;
use crate::seek_sequence::nearest::corpus::{
    entries_well_formed, flat_entries, flatten_pattern, fragment_spec,
    lemma_candidate_range_covers, lemma_entries_ordered, lemma_flat_entries, lemma_leading_allowed,
    lemma_leading_too_short, lemma_shorter_count, length_allows, sequence_spec, FlatEntry,
    FlattenedLines,
};
use crate::seek_sequence::nearest::ranking::{
    above_threshold, candidate_spec, lemma_levenshtein_bounds, lemma_ranks_above_keeps_threshold,
    lemma_ranks_above_transitive, levenshtein, max_int, ranks_above, threshold, valid_similarity,
    Candidate, Similarity,
};
use crate::seek_sequence::SequenceMatch;
use crate::text::lines_view_of;
use rapidfuzz::distance::levenshtein::{Args, BatchComparator};
use vstd::prelude::*;

verus! {

#[verifier::external_type_specification]
#[verifier::external_body]
#[verifier::reject_recursive_types(Elem1)]
pub struct ExBatchComparator<Elem1>(BatchComparator<Elem1>);

/// The pattern a Levenshtein comparator was built for.
pub uninterp spec fn compared_pattern(scorer: BatchComparator<char>) -> Seq<char>;

/// `rapidfuzz::distance::levenshtein::BatchComparator::new`: a comparator
/// that computes distances from the given pattern.
#[verifier::external_body]
fn comparator_for(pattern: &[char]) -> (r: BatchComparator<char>)
    ensures
        compared_pattern(r) == pattern@,
{
    BatchComparator::new(pattern.iter().copied())
}

/// `BatchComparator::distance_with_args` with a score cutoff: the
/// Levenshtein distance (unit costs) between the comparator's pattern and
/// `fragment` when it is at most `cutoff`, else `None`.
#[verifier::external_body]
fn distance_within(scorer: &BatchComparator<char>, fragment: &[char], cutoff: usize) -> (r: Option<
    usize,
>)
    ensures
        match r {
            Some(d) => d == levenshtein(compared_pattern(*scorer), fragment@) && d <= cutoff,
            None => levenshtein(compared_pattern(*scorer), fragment@) > cutoff,
        },
{
    scorer.distance_with_args(fragment.iter().copied(), &Args::default().score_cutoff(cutoff))
}

/// The candidate of the fragment from entry `a` to the end of entry `b`.
pub open spec fn window_candidate(
    chars: Seq<char>,
    es: Seq<FlatEntry>,
    pattern: Seq<char>,
    a: int,
    b: int,
) -> Candidate {
    let fragment = fragment_spec(chars, es, a, b);
    candidate_spec(
        sequence_spec(es, a, b),
        pattern.len() as int,
        fragment.len() as int,
        levenshtein(pattern, fragment) as int,
    )
}

/// Strictly more similar than the threshold.
pub open spec fn eligible(c: Candidate) -> bool {
    above_threshold(c.similarity)
}

/// Identical to the pattern.
pub open spec fn exact(c: Candidate) -> bool {
    c.similarity.matching == c.similarity.maximum
}

/// The best candidate after `c` is considered.
pub open spec fn update_best(best: Option<Candidate>, c: Candidate) -> Option<Candidate> {
    if eligible(c) && (best is None || ranks_above(c, best->0)) {
        Some(c)
    } else {
        best
    }
}

/// A considered window needs no further look: it is not exact, and if it
/// is eligible the best so far ranks at least as high.
pub open spec fn settled(w: Candidate, best: Option<Candidate>) -> bool {
    !exact(w) && (eligible(w) ==> (best matches Some(c) && !ranks_above(w, c)))
}

/// Window `a..=b` is eligible and no eligible window ranks above it.
pub open spec fn is_best_window(chars: Seq<char>, es: Seq<FlatEntry>, pattern: Seq<char>, a: int, b: int) -> bool {
    &&& 0 <= a <= b < es.len()
    &&& eligible(window_candidate(chars, es, pattern, a, b))
    &&& forall|a2: int, b2: int|
        0 <= a2 <= b2 < es.len() && eligible(#[trigger] window_candidate(chars, es, pattern, a2, b2))
            ==> !ranks_above(
            window_candidate(chars, es, pattern, a2, b2),
            window_candidate(chars, es, pattern, a, b),
        )
}

/// What the closest-match search reports: nothing for an empty pattern or
/// no lines; otherwise the lines of the best-ranked eligible window, or
/// nothing when no window is eligible.
pub open spec fn nearest_result(lines: Seq<Seq<char>>, pattern: Seq<Seq<char>>, r: Option<SequenceMatch>) -> bool {
    let pat = corpus_chars(pattern, pattern.len() as int);
    let chars = corpus_chars(lines, lines.len() as int);
    let es = flat_entries(lines, lines.len() as int);
    if pat.len() == 0 || lines.len() == 0 {
        r is None
    } else {
        match r {
            Some(m) => exists|a: int, b: int|
                is_best_window(chars, es, pat, a, b) && m == #[trigger] window_candidate(
                    chars,
                    es,
                    pat,
                    a,
                    b,
                ).sequence,
            None => forall|a: int, b: int|
                0 <= a <= b < es.len() ==> !eligible(#[trigger] window_candidate(chars, es, pat, a, b)),
        }
    }
}

/// A window's fragment is at least as long as its pattern difference; an
/// eligible window's length allows a match; an exact one has the
/// pattern's length.
proof fn lemma_window_facts(chars: Seq<char>, es: Seq<FlatEntry>, pat: Seq<char>, a: int, b: int)
    requires
        0 < pat.len() <= usize::MAX,
        fragment_spec(chars, es, a, b).len() <= usize::MAX,
    ensures
        ({
            let w = window_candidate(chars, es, pat, a, b);
            let f = fragment_spec(chars, es, a, b).len() as int;
            &&& levenshtein(pat, fragment_spec(chars, es, a, b)) <= max_int(pat.len() as int, f)
            &&& valid_similarity(w.similarity)
            &&& w.similarity.maximum == max_int(pat.len() as int, f)
            &&& (eligible(w) ==> length_allows(f, pat.len() as int))
            &&& (exact(w) ==> f == pat.len() && eligible(w) && w.distance == 0 && w.length_delta
                == 0)
        }),
{
    lemma_levenshtein_bounds(pat, fragment_spec(chars, es, a, b));
}

} // verus!

verus! {

/// Considers the window from entry `start` to entry `end`: returns its
/// lines when it matches the pattern exactly; otherwise makes it the best
/// candidate when it is eligible and ranks above the best so far.  A
/// window that cannot rank above the best (by its lengths, or by a
/// distance beyond the cutoff) is not measured in full.
fn evaluate(
    target: &FlattenedLines,
    Ghost(line_count): Ghost<int>,
    scorer: &BatchComparator<char>,
    start: usize,
    end: usize,
    pattern_length: usize,
    best: &mut Option<Candidate>,
) -> (r: Option<SequenceMatch>)
    requires
        entries_well_formed(target.chars_view(), target.entries_spec(), line_count),
        line_count <= usize::MAX,
        target.chars_view().len() <= usize::MAX,
        start <= end < target.entries_spec().len(),
        pattern_length == compared_pattern(*scorer).len(),
        pattern_length > 0,
        *old(best) matches Some(c) ==> eligible(c) && valid_similarity(c.similarity),
    ensures
        (r is Some) == exact(
            window_candidate(
                target.chars_view(),
                target.entries_spec(),
                compared_pattern(*scorer),
                start as int,
                end as int,
            ),
        ),
        r matches Some(m) ==> m == window_candidate(
            target.chars_view(),
            target.entries_spec(),
            compared_pattern(*scorer),
            start as int,
            end as int,
        ).sequence,
        r is None ==> *final(best) == update_best(
            *old(best),
            window_candidate(
                target.chars_view(),
                target.entries_spec(),
                compared_pattern(*scorer),
                start as int,
                end as int,
            ),
        ),
        r is None ==> (*final(best) matches Some(c) ==> eligible(c) && valid_similarity(c.similarity)),
{
    let ghost chars = target.chars_view();
    let ghost es = target.entries_spec();
    let ghost pat = compared_pattern(*scorer);
    proof {
        if start < end {
            lemma_entries_ordered(chars, es, line_count, start as int, end as int);
        }
        assert(0 <= es[start as int].start < es[start as int].end <= chars.len());
        assert(0 <= es[end as int].start < es[end as int].end <= chars.len());
        assert(0 <= es[start as int].line < line_count && 0 <= es[end as int].line < line_count);
    }
    let fragment = target.fragment(start, end);
    let ghost w = window_candidate(chars, es, pat, start as int, end as int);
    proof {
        lemma_window_facts(chars, es, pat, start as int, end as int);
        lemma_levenshtein_bounds(pat, fragment@);
    }
    let flen = fragment.len();
    let length_bound = Similarity::length_bound(pattern_length, flen);
    let current: Option<Candidate> = *best;
    if let Some(c) = current {
        if length_bound.less_than(c.similarity) {
            proof {
                let m = w.similarity.maximum as int;
                let d = levenshtein(pat, fragment@) as int;
                let lb = length_bound.matching as int;
                assert(m - d <= lb);
                assert((m - d) * (c.similarity.maximum as int) <= lb * (c.similarity.maximum as int))
                    by (nonlinear_arith)
                    requires
                        m - d <= lb,
                        c.similarity.maximum >= 0,
                ;
                assert(!ranks_above(w, c));
                if exact(w) {
                    let l = length_bound.matching as int;
                    assert(length_bound.maximum as int == l);
                    assert(l > 0);
                    assert(!(c.similarity.matching * l > l * c.similarity.maximum)) by (nonlinear_arith)
                        requires
                            c.similarity.matching <= c.similarity.maximum,
                            l > 0,
                    ;
                }
            }
            return None;
        }
    }
    let maximum = if pattern_length >= flen {
        pattern_length
    } else {
        flen
    };
    let cutoff = match current {
        None => threshold().strict_distance_cutoff(maximum),
        Some(c) => c.similarity.distance_cutoff(maximum),
    };
    let distance = match distance_within(scorer, &fragment, cutoff) {
        Some(d) => d,
        None => {
            proof {
                let d = levenshtein(pat, fragment@) as int;
                let mx = maximum as int;
                match current {
                    None => {
                        assert(cutoff == (mx - 1) / 2);
                        assert(!eligible(w));
                    },
                    Some(c) => {
                        let cm = c.similarity.matching as int;
                        let cx = c.similarity.maximum as int;
                        let x = (cx - cm) * mx;
                        vstd::arithmetic::div_mod::lemma_fundamental_div_mod(x, cx);
                        assert(cutoff == x / cx);
                        assert(x % cx < cx) by {
                            vstd::arithmetic::div_mod::lemma_mod_bound(x, cx);
                        }
                        assert(d * cx > x) by (nonlinear_arith)
                            requires
                                d >= cutoff + 1,
                                x == cx * cutoff + x % cx,
                                x % cx < cx,
                                cx > 0,
                        ;
                        assert((mx - d) * cx < cm * mx) by (nonlinear_arith)
                            requires
                                d * cx > (cx - cm) * mx,
                        ;
                        assert(!ranks_above(w, c));
                    },
                }
            }
            return None;
        },
    };
    let candidate = Candidate::new(target.sequence(start, end), pattern_length, flen, distance);
    assert(candidate == w);
    if candidate.similarity.is_exact() {
        return Some(candidate.sequence);
    }
    match current {
        None => {
            proof {
                assert(cutoff == (maximum as int - 1) / 2);
                assert(eligible(w));
            }
            *best = Some(candidate);
        },
        Some(c) => {
            if candidate.is_better_than(&c) {
                proof {
                    lemma_ranks_above_keeps_threshold(candidate, c);
                }
                *best = Some(candidate);
            }
        },
    }
    None
}

} // verus!

verus! {

/// `new` is `old`, or a candidate that ranks above it.
pub open spec fn improves(old: Option<Candidate>, new: Option<Candidate>) -> bool {
    new == old || (new matches Some(c) && (old matches Some(o) ==> ranks_above(c, o)))
}

pub open spec fn positive(o: Option<Candidate>) -> bool {
    o matches Some(c) ==> c.similarity.maximum > 0
}

proof fn lemma_improves_transitive(a: Option<Candidate>, b: Option<Candidate>, c: Option<Candidate>)
    requires
        improves(a, b),
        improves(b, c),
        positive(a),
        positive(b),
        positive(c),
    ensures
        improves(a, c),
{
    if c != b && b != a {
        if let (Some(x), Some(y), Some(z)) = (a, b, c) {
            lemma_ranks_above_transitive(z, y, x);
        }
    }
}

proof fn lemma_settled_kept(w: Candidate, old: Option<Candidate>, new: Option<Candidate>)
    requires
        settled(w, old),
        improves(old, new),
        w.similarity.maximum > 0,
        positive(old),
        positive(new),
    ensures
        settled(w, new),
{
    if eligible(w) && new != old {
        let o = old->0;
        let c = new->0;
        if ranks_above(w, c) {
            lemma_ranks_above_transitive(w, c, o);
        }
    }
}

/// An exact window that no earlier-starting window matches exactly is
/// the best window.
proof fn lemma_exact_is_best(
    chars: Seq<char>,
    es: Seq<FlatEntry>,
    pat: Seq<char>,
    line_count: int,
    start: int,
    b: int,
    best: Option<Candidate>,
)
    requires
        entries_well_formed(chars, es, line_count),
        line_count <= usize::MAX,
        chars.len() <= usize::MAX,
        0 < pat.len() <= usize::MAX,
        0 <= start <= b < es.len(),
        exact(window_candidate(chars, es, pat, start, b)),
        forall|a: int, b2: int|
            0 <= a < start && a <= b2 < es.len() ==> settled(
                #[trigger] window_candidate(chars, es, pat, a, b2),
                best,
            ),
    ensures
        is_best_window(chars, es, pat, start, b),
{
    let w = window_candidate(chars, es, pat, start, b);
    lemma_fragment_fits(chars, es, line_count, start, b);
    lemma_window_facts(chars, es, pat, start, b);
    assert forall|a2: int, b2: int|
        0 <= a2 <= b2 < es.len() && eligible(#[trigger] window_candidate(chars, es, pat, a2, b2))
            implies !ranks_above(window_candidate(chars, es, pat, a2, b2), w) by {
        let w2 = window_candidate(chars, es, pat, a2, b2);
        lemma_fragment_fits(chars, es, line_count, a2, b2);
        lemma_window_facts(chars, es, pat, a2, b2);
        let m = w.similarity.maximum as int;
        let m2 = w2.similarity.matching as int;
        let x2 = w2.similarity.maximum as int;
        assert(!(m2 * m > m * x2)) by (nonlinear_arith)
            requires
                m2 <= x2,
                m > 0,
        ;
        if ranks_above(w2, w) {
            assert(m2 * m == m * x2);
            assert(m2 == x2) by (nonlinear_arith)
                requires
                    m2 * m == m * x2,
                    m > 0,
            ;
            assert(exact(w2));
            if a2 < start {
                assert(settled(w2, best));
            } else if a2 > start {
                lemma_entries_ordered(chars, es, line_count, start, a2);
            } else {
                if b2 < b {
                    lemma_entries_ordered(chars, es, line_count, b2, b);
                } else if b2 > b {
                    lemma_entries_ordered(chars, es, line_count, b, b2);
                }
            }
        }
    }
}

/// The fragment of a window lies within the text.
proof fn lemma_fragment_fits(chars: Seq<char>, es: Seq<FlatEntry>, line_count: int, a: int, b: int)
    requires
        entries_well_formed(chars, es, line_count),
        line_count <= usize::MAX,
        chars.len() <= usize::MAX,
        0 <= a <= b < es.len(),
    ensures
        0 <= es[a].start <= es[b].end <= chars.len(),
        fragment_spec(chars, es, a, b).len() == es[b].end - es[a].start,
        fragment_spec(chars, es, a, b).len() <= usize::MAX,
        0 <= es[a].line <= es[b].line < line_count,
{
    if a < b {
        lemma_entries_ordered(chars, es, line_count, a, b);
    }
    assert(0 <= es[a].start < es[a].end <= chars.len());
    assert(0 <= es[b].start < es[b].end <= chars.len());
}

} // verus!

verus! {

/// Considers the windows that start at entry `start`: the one whose length
/// is nearest the pattern's first, then the others whose length allows a
/// match, in order; returns the lines of the first exact one.
fn scan_start(
    target: &FlattenedLines,
    Ghost(line_count): Ghost<int>,
    scorer: &BatchComparator<char>,
    start: usize,
    pattern_length: usize,
    best: &mut Option<Candidate>,
) -> (r: Option<SequenceMatch>)
    requires
        entries_well_formed(target.chars_view(), target.entries_spec(), line_count),
        line_count <= usize::MAX,
        target.chars_view().len() <= usize::MAX,
        start < target.entries_spec().len(),
        pattern_length == compared_pattern(*scorer).len(),
        pattern_length > 0,
        *old(best) matches Some(c) ==> eligible(c) && valid_similarity(c.similarity),
    ensures
        r matches Some(m) ==> exists|b: int|
            start <= b < target.entries_spec().len() && exact(
                #[trigger] window_candidate(
                    target.chars_view(),
                    target.entries_spec(),
                    compared_pattern(*scorer),
                    start as int,
                    b,
                ),
            ) && m == window_candidate(
                target.chars_view(),
                target.entries_spec(),
                compared_pattern(*scorer),
                start as int,
                b,
            ).sequence,
        r is None ==> improves(*old(best), *final(best)),
        r is None ==> (*final(best) matches Some(c) ==> eligible(c) && valid_similarity(c.similarity)),
        r is None ==> (*final(best) != *old(best) ==> exists|b: int|
            start <= b < target.entries_spec().len() && #[trigger] window_candidate(
                target.chars_view(),
                target.entries_spec(),
                compared_pattern(*scorer),
                start as int,
                b,
            ) == final(best)->0),
        r is None ==> forall|b: int|
            start <= b < target.entries_spec().len() ==> settled(
                #[trigger] window_candidate(
                    target.chars_view(),
                    target.entries_spec(),
                    compared_pattern(*scorer),
                    start as int,
                    b,
                ),
                *final(best),
            ),
{
    let ghost chars = target.chars_view();
    let ghost es = target.entries_spec();
    let ghost pat = compared_pattern(*scorer);
    let ghost s = start as int;
    let n = target.entry_count();
    proof {
        assert forall|i: int| 0 <= i < es.len() implies es[s].start <= #[trigger] es[i].end || i
            < s by {
            if s < i {
                lemma_entries_ordered(chars, es, line_count, s, i);
            }
            assert(es[i].start < es[i].end);
        }
    }
    let range = target.candidate_range(start, pattern_length);
    let ghost rs = range.start as int;
    let ghost re = range.end as int;
    proof {
        lemma_leading_too_short(es, s, pattern_length as int, s, n as int);
        lemma_leading_allowed(es, s, pattern_length as int, rs, n as int);
        assert forall|b: int| s <= b < n && (b < rs || b >= re) implies !eligible(
            #[trigger] window_candidate(chars, es, pat, s, b),
        ) && !exact(window_candidate(chars, es, pat, s, b)) by {
            lemma_fragment_fits(chars, es, line_count, s, b);
            lemma_window_facts(chars, es, pat, s, b);
            if eligible(window_candidate(chars, es, pat, s, b)) {
                lemma_candidate_range_covers(chars, es, line_count, s, pattern_length as int, b);
            }
        }
    }
    let pivot = target.closest_length_index(start, pattern_length, &range);
    proof {
        lemma_shorter_count(es, es[s].start, pattern_length as int, rs, re);
        assert(s <= rs <= re <= n);
        if let Some(q) = pivot {
            assert(rs <= q < re);
        }
    }
    let ghost best0 = *best;
    if let Some(pivot_index) = pivot {
        assert(start <= pivot_index < n);
        match evaluate(target, Ghost(line_count), scorer, start, pivot_index, pattern_length, best) {
            Some(found) => {
                assert(exact(window_candidate(chars, es, pat, s, pivot_index as int)));
                return Some(found);
            },
            None => {},
        }
    }
    proof {
        if let Some(q) = pivot {
            let w = window_candidate(chars, es, pat, s, q as int);
            lemma_fragment_fits(chars, es, line_count, s, q as int);
            lemma_window_facts(chars, es, pat, s, q as int);
            assert forall|b: int| s <= b < n && (b < rs || b >= re) implies settled(
                #[trigger] window_candidate(chars, es, pat, s, b),
                *best,
            ) by {}
        }
    }
    let mut end = range.start;
    while end < range.end
        invariant
            rs <= end <= re <= n,
            range.start == rs,
            range.end == re,
            s <= rs,
            n == es.len(),
            chars == target.chars_view(),
            es == target.entries_spec(),
            pat == compared_pattern(*scorer),
            pattern_length == pat.len(),
            pattern_length > 0,
            entries_well_formed(chars, es, line_count),
            line_count <= usize::MAX,
            chars.len() <= usize::MAX,
            s == start,
            pivot matches Some(q) ==> rs <= q < re,
            improves(best0, *best),
            best0 matches Some(c) ==> valid_similarity(c.similarity),
            *best matches Some(c) ==> eligible(c) && valid_similarity(c.similarity),
            *best != best0 ==> exists|b: int|
                s <= b < n && #[trigger] window_candidate(chars, es, pat, s, b) == best->0,
            forall|b: int|
                s <= b < n && (b < rs || b >= re) ==> !eligible(
                    #[trigger] window_candidate(chars, es, pat, s, b),
                ) && !exact(window_candidate(chars, es, pat, s, b)),
            forall|b: int|
                s <= b < n && (b < rs || b >= re || b < end || (pivot matches Some(q) && b
                    == q)) ==> settled(#[trigger] window_candidate(chars, es, pat, s, b), *best),
        decreases re - end,
    {
        let skip = match pivot {
            Some(q) => q == end,
            None => false,
        };
        if !skip {
            let ghost before = *best;
            assert(start <= end < n);
            match evaluate(target, Ghost(line_count), scorer, start, end, pattern_length, best) {
                Some(found) => {
                    assert(exact(window_candidate(chars, es, pat, s, end as int)));
                    return Some(found);
                },
                None => {},
            }
            proof {
                let w = window_candidate(chars, es, pat, s, end as int);
                lemma_fragment_fits(chars, es, line_count, s, end as int);
                lemma_window_facts(chars, es, pat, s, end as int);
                assert(improves(before, *best));
                assert forall|b: int|
                    s <= b < n && (b < rs || b >= re || b < end + 1 || (pivot matches Some(q)
                        && b == q)) implies settled(
                    #[trigger] window_candidate(chars, es, pat, s, b),
                    *best,
                ) by {
                    let wb = window_candidate(chars, es, pat, s, b);
                    lemma_fragment_fits(chars, es, line_count, s, b);
                    lemma_window_facts(chars, es, pat, s, b);
                    if b != end {
                        lemma_settled_kept(wb, before, *best);
                    }
                }
                lemma_improves_transitive(best0, before, *best);
                if *best != before {
                    assert(window_candidate(chars, es, pat, s, end as int) == best->0);
                }
            }
        }
        end += 1;
    }
    None
}

/// The closest approximate occurrence of `pattern` in `lines` by
/// Levenshtein similarity (see `nearest_result`): the windows are
/// considered start by start, an exact one ends the search, and a window
/// that cannot rank above the best so far is not measured in full.
pub fn find(lines: &[Vec<char>], pattern: &[Vec<char>]) -> (r: Option<SequenceMatch>)
    ensures
        nearest_result(lines_view_of(lines@), lines_view_of(pattern@), r),
{
    let ghost lv = lines_view_of(lines@);
    let pattern_chars = flatten_pattern(pattern);
    if pattern_chars.len() == 0 || lines.len() == 0 {
        return None;
    }
    let target = FlattenedLines::new(lines);
    let scorer = comparator_for(&pattern_chars);
    let ghost chars = target.chars_view();
    let ghost es = target.entries_spec();
    let ghost pat = pattern_chars@;
    let ghost line_count = lines@.len() as int;
    let _line_total = lines.len();
    proof {
        lemma_flat_entries(lv, line_count);
    }
    let pattern_length = pattern_chars.len();
    let n = target.entry_count();
    let _char_total = target.chars.len();
    let mut best: Option<Candidate> = None;
    let mut start: usize = 0;
    while start < n
        invariant
            n == es.len(),
            lv == lines_view_of(lines@),
            chars == target.chars_view(),
            chars == corpus_chars(lv, lines@.len() as int),
            es == flat_entries(lv, lines@.len() as int),
            pat == corpus_chars(lines_view_of(pattern@), pattern@.len() as int),
            lines@.len() > 0,
            es == target.entries_spec(),
            pat == compared_pattern(scorer),
            pattern_length == pat.len(),
            pattern_length > 0,
            entries_well_formed(chars, es, line_count),
            line_count <= usize::MAX,
            chars.len() <= usize::MAX,
            start <= n,
            best matches Some(c) ==> eligible(c) && valid_similarity(c.similarity),
            best matches Some(c) ==> exists|a: int, b: int|
                0 <= a < start && a <= b < n && #[trigger] window_candidate(chars, es, pat, a, b)
                    == c,
            forall|a: int, b: int|
                0 <= a < start && a <= b < n ==> settled(
                    #[trigger] window_candidate(chars, es, pat, a, b),
                    best,
                ),
        decreases n - start,
    {
        let ghost before = best;
        match scan_start(&target, Ghost(line_count), &scorer, start, pattern_length, &mut best) {
            Some(found) => {
                proof {
                    let b = choose|b: int|
                        start <= b < n && exact(
                            #[trigger] window_candidate(chars, es, pat, start as int, b),
                        ) && found == window_candidate(chars, es, pat, start as int, b).sequence;
                    lemma_exact_is_best(chars, es, pat, line_count, start as int, b, before);
                    assert(is_best_window(chars, es, pat, start as int, b) && found
                        == window_candidate(chars, es, pat, start as int, b).sequence);
                }
                return Some(found);
            },
            None => {},
        }
        proof {
            assert forall|a: int, b: int| 0 <= a < start + 1 && a <= b < n implies settled(
                #[trigger] window_candidate(chars, es, pat, a, b),
                best,
            ) by {
                if a < start {
                    lemma_fragment_fits(chars, es, line_count, a, b);
                    lemma_window_facts(chars, es, pat, a, b);
                    lemma_settled_kept(window_candidate(chars, es, pat, a, b), before, best);
                }
            }
            if best != before {
                let b = choose|b: int|
                    start <= b < n && #[trigger] window_candidate(chars, es, pat, start as int, b)
                        == best->0;
                assert(window_candidate(chars, es, pat, start as int, b) == best->0);
            }
        }
        start += 1;
    }
    match best {
        Some(c) => {
            proof {
                let (a, b) = choose|a: int, b: int|
                    0 <= a < start && a <= b < n && #[trigger] window_candidate(chars, es, pat, a, b)
                        == c;
                assert(is_best_window(chars, es, pat, a, b));
            }
            Some(c.sequence)
        },
        None => None,
    }
}

} // verus!

verus! {

/// The best candidate of a plain scan: windows in order of their first
/// entry, then of their last, each made the best when it is eligible and
/// ranks above the best so far.
pub open spec fn exhaustive_from(
    chars: Seq<char>,
    es: Seq<FlatEntry>,
    pat: Seq<char>,
    a: int,
    b: int,
    best: Option<Candidate>,
) -> Option<Candidate>
    decreases es.len() - a, es.len() - b,
{
    if a < 0 || a >= es.len() {
        best
    } else if b >= es.len() {
        exhaustive_from(chars, es, pat, a + 1, a + 1, best)
    } else {
        exhaustive_from(chars, es, pat, a, b + 1, update_best(best, window_candidate(chars, es, pat, a, b)))
    }
}

/// What the plain scan of every window reports.
pub open spec fn exhaustive_result(lines: Seq<Seq<char>>, pattern: Seq<Seq<char>>) -> Option<SequenceMatch> {
    let pat = corpus_chars(pattern, pattern.len() as int);
    if pat.len() == 0 {
        None
    } else {
        match exhaustive_from(
            corpus_chars(lines, lines.len() as int),
            flat_entries(lines, lines.len() as int),
            pat,
            0,
            0,
            None,
        ) {
            Some(c) => Some(c.sequence),
            None => None,
        }
    }
}

/// An eligible window does not rank above `best`.
pub open spec fn dominated(w: Candidate, best: Option<Candidate>) -> bool {
    eligible(w) ==> (best matches Some(c) && !ranks_above(w, c))
}

proof fn lemma_exhaustive_from(
    chars: Seq<char>,
    es: Seq<FlatEntry>,
    pat: Seq<char>,
    line_count: int,
    a: int,
    b: int,
    best: Option<Candidate>,
)
    requires
        entries_well_formed(chars, es, line_count),
        line_count <= usize::MAX,
        chars.len() <= usize::MAX,
        0 < pat.len() <= usize::MAX,
        0 <= a <= b,
        a < es.len() ==> b <= es.len(),
        best matches Some(c) ==> eligible(c) && valid_similarity(c.similarity) && exists|x: int, y: int|
            0 <= x <= y < es.len() && #[trigger] window_candidate(chars, es, pat, x, y) == c,
        forall|x: int, y: int|
            0 <= x <= y < es.len() && (x < a || (x == a && y < b)) ==> dominated(
                #[trigger] window_candidate(chars, es, pat, x, y),
                best,
            ),
    ensures
        ({
            let r = exhaustive_from(chars, es, pat, a, b, best);
            &&& r matches Some(c) ==> eligible(c) && exists|x: int, y: int|
                0 <= x <= y < es.len() && #[trigger] window_candidate(chars, es, pat, x, y) == c
            &&& forall|x: int, y: int|
                0 <= x <= y < es.len() ==> dominated(
                    #[trigger] window_candidate(chars, es, pat, x, y),
                    r,
                )
        }),
    decreases es.len() - a, es.len() - b,
{
    if a >= es.len() {
    } else if b >= es.len() {
        lemma_exhaustive_from(chars, es, pat, line_count, a + 1, a + 1, best);
    } else {
        let w = window_candidate(chars, es, pat, a, b);
        lemma_fragment_fits(chars, es, line_count, a, b);
        lemma_window_facts(chars, es, pat, a, b);
        let next = update_best(best, w);
        assert forall|x: int, y: int|
            0 <= x <= y < es.len() && (x < a || (x == a && y < b + 1)) implies dominated(
            #[trigger] window_candidate(chars, es, pat, x, y),
            next,
        ) by {
            let v = window_candidate(chars, es, pat, x, y);
            lemma_fragment_fits(chars, es, line_count, x, y);
            lemma_window_facts(chars, es, pat, x, y);
            if !(x == a && y == b) && eligible(v) && next != best {
                if ranks_above(v, w) {
                    lemma_ranks_above_transitive(v, w, best->0);
                }
            }
        }
        if next != best {
            assert(window_candidate(chars, es, pat, a, b) == next->0);
        }
        lemma_exhaustive_from(chars, es, pat, line_count, a, b + 1, next);
    }
}

/// Two best windows are the same window.
proof fn lemma_best_window_unique(
    chars: Seq<char>,
    es: Seq<FlatEntry>,
    pat: Seq<char>,
    line_count: int,
    a: int,
    b: int,
    c: int,
    d: int,
)
    requires
        entries_well_formed(chars, es, line_count),
        line_count <= usize::MAX,
        chars.len() <= usize::MAX,
        0 < pat.len() <= usize::MAX,
        0 <= a <= b < es.len(),
        0 <= c <= d < es.len(),
        eligible(window_candidate(chars, es, pat, a, b)),
        eligible(window_candidate(chars, es, pat, c, d)),
        !ranks_above(window_candidate(chars, es, pat, a, b), window_candidate(chars, es, pat, c, d)),
        !ranks_above(window_candidate(chars, es, pat, c, d), window_candidate(chars, es, pat, a, b)),
    ensures
        a == c && b == d,
{
    lemma_fragment_fits(chars, es, line_count, a, b);
    lemma_fragment_fits(chars, es, line_count, c, d);
    lemma_window_facts(chars, es, pat, a, b);
    lemma_window_facts(chars, es, pat, c, d);
    if a < c {
        lemma_entries_ordered(chars, es, line_count, a, c);
    } else if c < a {
        lemma_entries_ordered(chars, es, line_count, c, a);
    } else if b < d {
        lemma_entries_ordered(chars, es, line_count, b, d);
    } else if d < b {
        lemma_entries_ordered(chars, es, line_count, d, b);
    }
}

/// The pruned search reports what the plain scan of every window
/// reports.
pub proof fn law_nearest_matches_exhaustive_scan(
    lines: Seq<Seq<char>>,
    pattern: Seq<Seq<char>>,
    r: Option<SequenceMatch>,
)
    requires
        nearest_result(lines, pattern, r),
        lines.len() <= usize::MAX,
        corpus_chars(lines, lines.len() as int).len() <= usize::MAX,
        corpus_chars(pattern, pattern.len() as int).len() <= usize::MAX,
    ensures
        r == exhaustive_result(lines, pattern),
{
    let pat = corpus_chars(pattern, pattern.len() as int);
    let chars = corpus_chars(lines, lines.len() as int);
    let es = flat_entries(lines, lines.len() as int);
    let line_count = lines.len() as int;
    if pat.len() > 0 {
        lemma_flat_entries(lines, line_count);
        if es.len() == 0 {
            assert(exhaustive_from(chars, es, pat, 0, 0, None) == None::<Candidate>);
        } else {
            lemma_exhaustive_from(chars, es, pat, line_count, 0, 0, None);
            let x = exhaustive_from(chars, es, pat, 0, 0, None);
            match r {
                Some(m) => {
                    let (a, b) = choose|a: int, b: int|
                        is_best_window(chars, es, pat, a, b) && m == #[trigger] window_candidate(
                            chars,
                            es,
                            pat,
                            a,
                            b,
                        ).sequence;
                    assert(dominated(window_candidate(chars, es, pat, a, b), x));
                    let c = x->0;
                    let (p, q) = choose|p: int, q: int|
                        0 <= p <= q < es.len() && #[trigger] window_candidate(chars, es, pat, p, q)
                            == c;
                    assert(!ranks_above(window_candidate(chars, es, pat, p, q), window_candidate(chars, es, pat, a, b)));
                    lemma_best_window_unique(chars, es, pat, line_count, a, b, p, q);
                },
                None => {
                    if let Some(c) = x {
                        let (p, q) = choose|p: int, q: int|
                            0 <= p <= q < es.len() && #[trigger] window_candidate(chars, es, pat, p, q)
                                == c;
                        assert(!eligible(window_candidate(chars, es, pat, p, q)));
                    }
                },
            }
        }
    }
}

} // verus!
