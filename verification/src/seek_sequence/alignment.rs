//! Affine-gap fitting alignment of a pattern inside a target text.
//!
//! The whole pattern is aligned against a contiguous part of the target;
//! target characters before and after that part cost nothing.  Matches
//! score `MATCH_SCORE`, substitutions `MISMATCH_SCORE`, and every gap
//! (in either sequence) costs `GAP_OPEN_SCORE` for its first character and
//! `GAP_EXTEND_SCORE` for each further one.

use vstd::prelude::*;

verus! {

pub const MATCH_SCORE: i64 = 3;

pub const MISMATCH_SCORE: i64 = -3;

pub const GAP_OPEN_SCORE: i64 = -5;

pub const GAP_EXTEND_SCORE: i64 = -1;

/// Scores at or below this are not accepted as a closest match.
pub const MIN_ACCEPTED_SCORE: i64 = 0;

/// The largest magnitude of a single alignment step.
pub const MAX_STEP_MAGNITUDE: i64 = 5;

/// Marks an unreachable alignment state.
pub const INVALID_SCORE: i64 = -4611686018427387904;

/// The largest combined length for which scores stay clear of
/// `INVALID_SCORE` (combined length times `MAX_STEP_MAGNITUDE` must stay
/// below its magnitude).
pub open spec fn dimensions_fit(pattern_length: int, target_length: int) -> bool {
    (pattern_length + target_length) * 5 < 4611686018427387904
}

/// A dynamic-programming state: the best score of an alignment ending here
/// and the target position where that alignment starts.
pub struct SCell {
    pub score: int,
    pub start: int,
}

pub open spec fn invalid_cell() -> SCell {
    SCell { score: INVALID_SCORE as int, start: 0 }
}

/// Extends a state by a step of score `delta`; unreachable states stay so.
pub open spec fn step(c: SCell, delta: int) -> SCell {
    if c.score == INVALID_SCORE {
        c
    } else {
        SCell { score: c.score + delta, start: c.start }
    }
}

/// The better of two states: higher score, then the later start.
pub open spec fn better_cell(a: SCell, b: SCell) -> SCell {
    if b.score > a.score || (b.score == a.score && b.start > a.start) {
        b
    } else {
        a
    }
}

pub open spec fn substitution(p: char, t: char) -> int {
    if p == t {
        MATCH_SCORE as int
    } else {
        MISMATCH_SCORE as int
    }
}

/// Best alignment of `pattern[..j]` ending at target position `t` whose
/// last step is a gap in the target (it consumes a pattern character).
pub open spec fn gap_in_target(pattern: Seq<char>, target: Seq<char>, t: int, j: int) -> SCell
    decreases t, j, 0int,
{
    if j <= 0 {
        invalid_cell()
    } else {
        better_cell(
            step(best_cell(pattern, target, t, j - 1), GAP_OPEN_SCORE as int),
            step(gap_in_target(pattern, target, t, j - 1), GAP_EXTEND_SCORE as int),
        )
    }
}

/// Best alignment of `pattern[..j]` ending at target position `t` whose
/// last step is a gap in the pattern (it consumes a target character).
pub open spec fn gap_in_pattern(pattern: Seq<char>, target: Seq<char>, t: int, j: int) -> SCell
    decreases t, j, 0int,
{
    if t <= 0 || j <= 0 {
        invalid_cell()
    } else {
        better_cell(
            step(best_cell(pattern, target, t - 1, j), GAP_OPEN_SCORE as int),
            step(gap_in_pattern(pattern, target, t - 1, j), GAP_EXTEND_SCORE as int),
        )
    }
}

/// Best alignment of `pattern[..j]` ending at target position `t`.
pub open spec fn best_cell(pattern: Seq<char>, target: Seq<char>, t: int, j: int) -> SCell
    decreases t, j, 1int,
{
    if j <= 0 {
        SCell { score: 0, start: if t <= 0 { 0 } else { t } }
    } else if t <= 0 {
        gap_in_target(pattern, target, t, j)
    } else {
        better_cell(
            better_cell(
                step(
                    best_cell(pattern, target, t - 1, j - 1),
                    substitution(pattern[j - 1], target[t - 1]),
                ),
                gap_in_target(pattern, target, t, j),
            ),
            gap_in_pattern(pattern, target, t, j),
        )
    }
}

/// A fitting alignment: its score and the target range `start..end`.
#[derive(Debug, Clone, Copy, PartialEq, Eq, Structural)]
pub struct Alignment {
    pub score: i64,
    pub start: usize,
    pub end: usize,
}

pub struct SAlignment {
    pub score: int,
    pub start: int,
    pub end: int,
}

/// Higher score, then the shorter target range, then the earlier start.
pub open spec fn outranks(a: SAlignment, b: SAlignment) -> bool {
    a.score > b.score || (a.score == b.score && (a.end - a.start < b.end - b.start || (a.end
        - a.start == b.end - b.start && a.start < b.start)))
}

/// The full-pattern alignment ending at target position `t`.
pub open spec fn candidate_at(pattern: Seq<char>, target: Seq<char>, t: int) -> SAlignment {
    let c = best_cell(pattern, target, t, pattern.len() as int);
    SAlignment { score: c.score, start: c.start, end: t }
}

/// Scans end positions `t..=target.len()`: a perfect alignment ends the
/// scan; otherwise the best non-empty candidate is kept.
pub open spec fn fit_from(pattern: Seq<char>, target: Seq<char>, t: int, best: SAlignment) -> SAlignment
    decreases target.len() + 1 - t,
{
    if t > target.len() || t < 1 {
        best
    } else {
        let c = candidate_at(pattern, target, t);
        if c.score == MATCH_SCORE * pattern.len() {
            c
        } else {
            fit_from(
                pattern,
                target,
                t + 1,
                if c.start < c.end && outranks(c, best) {
                    c
                } else {
                    best
                },
            )
        }
    }
}

/// The fitting alignment of `pattern` in `target`: the first perfect
/// alignment by end position if there is one, else the best-ranked one.
pub open spec fn fit_spec(pattern: Seq<char>, target: Seq<char>) -> SAlignment {
    fit_from(pattern, target, 1, SAlignment { score: INVALID_SCORE as int, start: 0, end: 0 })
}

/// A state is unreachable, or its score lies within what `t + j` steps can
/// reach and its start lies within the target prefix.
pub open spec fn cell_bounded(c: SCell, t: int, j: int) -> bool {
    (c == invalid_cell()) || (-5 * (t + j) <= c.score <= 3 * j && 0 <= c.start <= t)
}

pub proof fn lemma_cells_bounded(pattern: Seq<char>, target: Seq<char>, t: int, j: int)
    requires
        0 <= t,
        0 <= j,
        dimensions_fit(j, t),
    ensures
        cell_bounded(best_cell(pattern, target, t, j), t, j),
        cell_bounded(gap_in_target(pattern, target, t, j), t, j),
        cell_bounded(gap_in_pattern(pattern, target, t, j), t, j),
        best_cell(pattern, target, t, j) != invalid_cell() || j > 0,
        j == 0 ==> best_cell(pattern, target, t, j) == (SCell { score: 0, start: t }),
    decreases t, j,
{
    if j > 0 {
        lemma_cells_bounded(pattern, target, t, j - 1);
        let a = step(best_cell(pattern, target, t, j - 1), GAP_OPEN_SCORE as int);
        let b = step(gap_in_target(pattern, target, t, j - 1), GAP_EXTEND_SCORE as int);
        assert(cell_bounded(a, t, j));
        assert(cell_bounded(b, t, j));
        assert(cell_bounded(gap_in_target(pattern, target, t, j), t, j));
    }
    if t > 0 {
        lemma_cells_bounded(pattern, target, t - 1, j);
        if j > 0 {
            lemma_cells_bounded(pattern, target, t - 1, j - 1);
            let a = step(best_cell(pattern, target, t - 1, j), GAP_OPEN_SCORE as int);
            let b = step(gap_in_pattern(pattern, target, t - 1, j), GAP_EXTEND_SCORE as int);
            assert(cell_bounded(a, t, j));
            assert(cell_bounded(b, t, j));
            assert(cell_bounded(gap_in_pattern(pattern, target, t, j), t, j));
            let d = step(
                best_cell(pattern, target, t - 1, j - 1),
                substitution(pattern[j - 1], target[t - 1]),
            );
            assert(cell_bounded(d, t, j));
        }
    }
}

/// Executable dynamic-programming state.
#[derive(Clone, Copy)]
struct Cell {
    score: i64,
    start: usize,
}

impl Cell {
    spec fn view(self) -> SCell {
        SCell { score: self.score as int, start: self.start as int }
    }

    fn add(self, delta: i64) -> (r: Self)
        requires
            self.view() == invalid_cell() || (self.score + delta > INVALID_SCORE && self.score
                + delta <= i64::MAX),
        ensures
            r.view() == step(self.view(), delta as int),
    {
        if self.score == INVALID_SCORE {
            self
        } else {
            Cell { score: self.score + delta, start: self.start }
        }
    }

    fn best(self, other: Self) -> (r: Self)
        ensures
            r.view() == better_cell(self.view(), other.view()),
    {
        if other.score > self.score || other.score == self.score && other.start > self.start {
            other
        } else {
            self
        }
    }
}

fn substitution_score(p: char, t: char) -> (r: i64)
    ensures
        r == substitution(p, t),
{
    if p == t {
        MATCH_SCORE
    } else {
        MISMATCH_SCORE
    }
}

/// Computes the fitting alignment (see `fit_spec`).
pub fn fit(pattern: &[char], target: &[char]) -> (r: Alignment)
    requires
        dimensions_fit(pattern@.len() as int, target@.len() as int),
    ensures
        r.score as int == fit_spec(pattern@, target@).score,
        r.start as int == fit_spec(pattern@, target@).start,
        r.end as int == fit_spec(pattern@, target@).end,
{
    let ghost p = pattern@;
    let ghost q = target@;
    let m = pattern.len();
    let n = target.len();
    let invalid = Cell { score: INVALID_SCORE, start: 0 };
    // Row 0: nothing of the target consumed.
    let mut previous: Vec<Cell> = Vec::new();
    let mut previous_insertions: Vec<Cell> = Vec::new();
    previous.push(Cell { score: 0, start: 0 });
    previous_insertions.push(invalid);
    let mut deletion = invalid;
    let mut left = Cell { score: 0, start: 0 };
    let mut x: usize = 0;
    while x < m
        invariant
            x <= m,
            m == p.len(),
            n == q.len(),
            p == pattern@,
            q == target@,
            dimensions_fit(m as int, n as int),
            invalid.view() == invalid_cell(),
            previous@.len() == x + 1,
            previous_insertions@.len() == x + 1,
            forall|y: int| 0 <= y <= x ==> (#[trigger] previous@[y]).view() == best_cell(p, q, 0, y),
            forall|y: int| 0 <= y <= x ==> (#[trigger] previous_insertions@[y]).view() == gap_in_pattern(p, q, 0, y),
            left.view() == best_cell(p, q, 0, x as int),
            deletion.view() == gap_in_target(p, q, 0, x as int),
        decreases m - x,
    {
        proof {
            lemma_cells_bounded(p, q, 0, x as int);
        }
        deletion = left.add(GAP_OPEN_SCORE).best(deletion.add(GAP_EXTEND_SCORE));
        assert(deletion.view() == gap_in_target(p, q, 0, x + 1));
        assert(best_cell(p, q, 0, x + 1) == gap_in_target(p, q, 0, x + 1));
        assert(gap_in_pattern(p, q, 0, x + 1) == invalid_cell());
        previous.push(deletion);
        previous_insertions.push(invalid);
        left = deletion;
        x += 1;
    }
    let maximum_score: i64 = (m as i64) * MATCH_SCORE;
    let mut best = Alignment { score: INVALID_SCORE, start: 0, end: 0 };
    let mut t: usize = 0;
    while t < n
        invariant
            t <= n,
            m == p.len(),
            n == q.len(),
            p == pattern@,
            q == target@,
            dimensions_fit(m as int, n as int),
            invalid.view() == invalid_cell(),
            maximum_score == MATCH_SCORE * m,
            previous@.len() == m + 1,
            previous_insertions@.len() == m + 1,
            forall|x: int| 0 <= x <= m ==> (#[trigger] previous@[x]).view() == best_cell(p, q, t as int, x),
            forall|x: int| 0 <= x <= m ==> (#[trigger] previous_insertions@[x]).view() == gap_in_pattern(p, q, t as int, x),
            best.start <= best.end,
            fit_spec(p, q) == fit_from(p, q, t + 1, SAlignment { score: best.score as int, start: best.start as int, end: best.end as int }),
        decreases n - t,
    {
        let end = t + 1;
        let tc = target[t];
        let mut current: Vec<Cell> = Vec::new();
        let mut current_insertions: Vec<Cell> = Vec::new();
        let zero = Cell { score: 0, start: end };
        current.push(zero);
        current_insertions.push(invalid);
        let mut deletion = invalid;
        let mut left = zero;
        let mut x: usize = 0;
        while x < m
            invariant
                x <= m,
                t < n,
                end == t + 1,
                tc == q[t as int],
                m == p.len(),
                n == q.len(),
                p == pattern@,
                dimensions_fit(m as int, n as int),
                invalid.view() == invalid_cell(),
                previous@.len() == m + 1,
                previous_insertions@.len() == m + 1,
                forall|x: int| 0 <= x <= m ==> (#[trigger] previous@[x]).view() == best_cell(p, q, t as int, x),
                forall|x: int| 0 <= x <= m ==> (#[trigger] previous_insertions@[x]).view() == gap_in_pattern(p, q, t as int, x),
                current@.len() == x + 1,
                current_insertions@.len() == x + 1,
                forall|y: int| 0 <= y <= x ==> (#[trigger] current@[y]).view() == best_cell(p, q, end as int, y),
                forall|y: int| 0 <= y <= x ==> (#[trigger] current_insertions@[y]).view() == gap_in_pattern(p, q, end as int, y),
                left.view() == best_cell(p, q, end as int, x as int),
                deletion.view() == gap_in_target(p, q, end as int, x as int),
            decreases m - x,
        {
            let j = x + 1;
            proof {
                lemma_cells_bounded(p, q, end as int, x as int);
                lemma_cells_bounded(p, q, t as int, j as int);
                lemma_cells_bounded(p, q, t as int, x as int);
            }
            deletion = left.add(GAP_OPEN_SCORE).best(deletion.add(GAP_EXTEND_SCORE));
            let insertion = previous[j].add(GAP_OPEN_SCORE).best(
                previous_insertions[j].add(GAP_EXTEND_SCORE),
            );
            current_insertions.push(insertion);
            let diagonal = previous[j - 1].add(substitution_score(pattern[j - 1], tc));
            let resolved = diagonal.best(deletion).best(insertion);
            assert(deletion.view() == gap_in_target(p, q, end as int, j as int));
            assert(insertion.view() == gap_in_pattern(p, q, end as int, j as int));
            assert(resolved.view() == best_cell(p, q, end as int, j as int));
            current.push(resolved);
            left = resolved;
            x += 1;
        }
        let last = current[m];
        proof {
            lemma_cells_bounded(p, q, end as int, m as int);
        }
        let candidate = Alignment { score: last.score, start: last.start, end };
        if candidate.score == maximum_score {
            return candidate;
        }
        if candidate.start < candidate.end && (candidate.score > best.score || candidate.score
            == best.score && (candidate.end - candidate.start < best.end - best.start
            || candidate.end - candidate.start == best.end - best.start && candidate.start
            < best.start)) {
            best = candidate;
        }
        previous = current;
        previous_insertions = current_insertions;
        t += 1;
    }
    best
}

} // verus!

verus! {

/// The score of an alignment that matches every pattern character.
pub open spec fn perfect_score(pattern: Seq<char>) -> int {
    MATCH_SCORE * pattern.len()
}

/// The candidate ending at `t` covers at least one target character.
pub open spec fn nonempty_candidate(pattern: Seq<char>, target: Seq<char>, t: int) -> bool {
    candidate_at(pattern, target, t).start < t
}

proof fn lemma_fit_from(pattern: Seq<char>, target: Seq<char>, t: int, best: SAlignment)
    requires
        1 <= t,
        forall|u: int|
            1 <= u < t && nonempty_candidate(pattern, target, u) ==> !outranks(
                #[trigger] candidate_at(pattern, target, u),
                best,
            ),
        forall|u: int| 1 <= u < t ==> #[trigger] candidate_at(pattern, target, u).score != perfect_score(pattern),
    ensures
        ({
            let r = fit_from(pattern, target, t, best);
            ||| {
                &&& t <= r.end <= target.len()
                &&& r == candidate_at(pattern, target, r.end)
                &&& r.score == perfect_score(pattern)
                &&& forall|u: int| 1 <= u < r.end ==> #[trigger] candidate_at(pattern, target, u).score
                    != perfect_score(pattern)
            }
            ||| {
                &&& forall|u: int| 1 <= u <= target.len() ==> #[trigger] candidate_at(pattern, target, u).score
                    != perfect_score(pattern)
                &&& forall|u: int|
                    1 <= u <= target.len() && nonempty_candidate(pattern, target, u) ==> !outranks(
                        #[trigger] candidate_at(pattern, target, u),
                        r,
                    )
                &&& (r == best || (1 <= r.end <= target.len() && r == candidate_at(pattern, target, r.end)
                    && nonempty_candidate(pattern, target, r.end)))
            }
        }),
    decreases target.len() + 1 - t,
{
    if t <= target.len() {
        let c = candidate_at(pattern, target, t);
        if c.score != perfect_score(pattern) {
            let next = if c.start < c.end && outranks(c, best) {
                c
            } else {
                best
            };
            assert forall|u: int|
                1 <= u < t + 1 && nonempty_candidate(pattern, target, u) implies !outranks(
                #[trigger] candidate_at(pattern, target, u),
                next,
            ) by {
                if u < t {
                    assert(!outranks(candidate_at(pattern, target, u), best));
                }
            }
            lemma_fit_from(pattern, target, t + 1, next);
        }
    }
}

/// What the fitting alignment selects among the alignments of the whole
/// pattern, one per end position (each with its best score, and of equal
/// scores the latest start): the first perfect one (every pattern
/// character matched) by end position; when there is none, a non-empty
/// one that no other non-empty one
/// outranks (by score, then a shorter span, then an earlier start), or no
/// span at all (an unreachable score) when every candidate is empty.
pub proof fn law_fit_selects_best_span(pattern: Seq<char>, target: Seq<char>)
    ensures
        ({
            let r = fit_spec(pattern, target);
            ||| {
                &&& 1 <= r.end <= target.len()
                &&& r == candidate_at(pattern, target, r.end)
                &&& r.score == perfect_score(pattern)
                &&& forall|u: int| 1 <= u < r.end ==> #[trigger] candidate_at(pattern, target, u).score
                    != perfect_score(pattern)
            }
            ||| {
                &&& forall|u: int| 1 <= u <= target.len() ==> #[trigger] candidate_at(pattern, target, u).score
                    != perfect_score(pattern)
                &&& forall|u: int|
                    1 <= u <= target.len() && nonempty_candidate(pattern, target, u) ==> !outranks(
                        #[trigger] candidate_at(pattern, target, u),
                        r,
                    )
                &&& (r == SAlignment { score: INVALID_SCORE as int, start: 0, end: 0 } || (1 <= r.end
                    <= target.len() && r == candidate_at(pattern, target, r.end) && nonempty_candidate(
                    pattern,
                    target,
                    r.end,
                )))
            }
        }),
{
    lemma_fit_from(pattern, target, 1, SAlignment { score: INVALID_SCORE as int, start: 0, end: 0 });
}

} // verus!

verus! {

/// One step of an alignment of the pattern with a part of the target.
pub enum AlignStep {
    /// A pattern character against a target character (a match or a
    /// substitution).
    Diagonal,
    /// A pattern character against nothing (a gap in the target).
    PatternOnly,
    /// A target character against nothing (a gap in the pattern).
    TargetOnly,
}

/// The score of a gap step of kind `kind` after the steps `before`: it
/// opens a gap unless the step before is a gap of the same kind.
pub open spec fn gap_step_score(before: Seq<AlignStep>, kind: AlignStep) -> int {
    if before.len() > 0 && before.last() == kind {
        GAP_EXTEND_SCORE as int
    } else {
        GAP_OPEN_SCORE as int
    }
}

/// The alignment made of `steps` that ends after pattern character `j`
/// and target character `t`: its score and the target position where it
/// starts, or `None` when the steps do not fit (a target character is
/// never skipped before the first pattern character: the part of the
/// target before the alignment is free).
pub open spec fn aligned(
    pattern: Seq<char>,
    target: Seq<char>,
    steps: Seq<AlignStep>,
    t: int,
    j: int,
) -> Option<SCell>
    decreases steps.len(),
{
    if steps.len() == 0 {
        if j == 0 && 0 <= t <= target.len() {
            Some(SCell { score: 0, start: t })
        } else {
            None
        }
    } else {
        let before = steps.drop_last();
        match steps.last() {
            AlignStep::Diagonal => if t >= 1 && j >= 1 {
                match aligned(pattern, target, before, t - 1, j - 1) {
                    Some(c) => Some(SCell { score: c.score + substitution(pattern[j - 1], target[t - 1]), start: c.start }),
                    None => None,
                }
            } else {
                None
            },
            AlignStep::PatternOnly => if j >= 1 {
                match aligned(pattern, target, before, t, j - 1) {
                    Some(c) => Some(SCell { score: c.score + gap_step_score(before, AlignStep::PatternOnly), start: c.start }),
                    None => None,
                }
            } else {
                None
            },
            AlignStep::TargetOnly => if t >= 1 && j >= 1 {
                match aligned(pattern, target, before, t - 1, j) {
                    Some(c) => Some(SCell { score: c.score + gap_step_score(before, AlignStep::TargetOnly), start: c.start }),
                    None => None,
                }
            } else {
                None
            },
        }
    }
}

/// `a` ranks at most `b`: a lower score, or the same score and a start no
/// later.
pub open spec fn ranks_at_most(a: SCell, b: SCell) -> bool {
    a.score < b.score || (a.score == b.score && a.start <= b.start)
}

proof fn lemma_aligned_bounds(pattern: Seq<char>, target: Seq<char>, steps: Seq<AlignStep>, t: int, j: int)
    requires
        aligned(pattern, target, steps, t, j) is Some,
    ensures
        steps.len() <= t + j,
        aligned(pattern, target, steps, t, j)->0.score >= -5 * steps.len(),
        0 <= aligned(pattern, target, steps, t, j)->0.start <= t,
        0 <= j,
        0 <= t,
    decreases steps.len(),
{
    if steps.len() > 0 {
        let before = steps.drop_last();
        match steps.last() {
            AlignStep::Diagonal => lemma_aligned_bounds(pattern, target, before, t - 1, j - 1),
            AlignStep::PatternOnly => lemma_aligned_bounds(pattern, target, before, t, j - 1),
            AlignStep::TargetOnly => lemma_aligned_bounds(pattern, target, before, t - 1, j),
        }
    }
}

/// No alignment ranks above the dynamic-programming cells: every
/// alignment ending at (`t`, `j`) ranks at most `best_cell`, and at most
/// the gap cell of the kind of its last step.
proof fn lemma_cells_bound_alignments(pattern: Seq<char>, target: Seq<char>, steps: Seq<AlignStep>, t: int, j: int)
    requires
        aligned(pattern, target, steps, t, j) is Some,
        dimensions_fit(j, t),
    ensures
        ranks_at_most(aligned(pattern, target, steps, t, j)->0, best_cell(pattern, target, t, j)),
        steps.len() > 0 && steps.last() == AlignStep::PatternOnly ==> ranks_at_most(
            aligned(pattern, target, steps, t, j)->0,
            gap_in_target(pattern, target, t, j),
        ),
        steps.len() > 0 && steps.last() == AlignStep::TargetOnly ==> ranks_at_most(
            aligned(pattern, target, steps, t, j)->0,
            gap_in_pattern(pattern, target, t, j),
        ),
    decreases steps.len(),
{
    lemma_aligned_bounds(pattern, target, steps, t, j);
    let c = aligned(pattern, target, steps, t, j)->0;
    if steps.len() == 0 {
    } else {
        let before = steps.drop_last();
        match steps.last() {
            AlignStep::Diagonal => {
                lemma_cells_bound_alignments(pattern, target, before, t - 1, j - 1);
                lemma_aligned_bounds(pattern, target, before, t - 1, j - 1);
                lemma_cells_bounded(pattern, target, t - 1, j - 1);
                lemma_cells_bounded(pattern, target, t, j);
            },
            AlignStep::PatternOnly => {
                lemma_cells_bound_alignments(pattern, target, before, t, j - 1);
                lemma_aligned_bounds(pattern, target, before, t, j - 1);
                lemma_cells_bounded(pattern, target, t, j - 1);
                lemma_cells_bounded(pattern, target, t, j);
            },
            AlignStep::TargetOnly => {
                lemma_cells_bound_alignments(pattern, target, before, t - 1, j);
                lemma_aligned_bounds(pattern, target, before, t - 1, j);
                lemma_cells_bounded(pattern, target, t - 1, j);
                lemma_cells_bounded(pattern, target, t, j);
            },
        }
    }
}

/// `best_cell` ranks at least each of the gap cells.
proof fn lemma_best_ranks_above_gaps(pattern: Seq<char>, target: Seq<char>, t: int, j: int)
    requires
        0 <= t,
        0 < j,
    ensures
        ranks_at_most(gap_in_target(pattern, target, t, j), best_cell(pattern, target, t, j)),
        t > 0 ==> ranks_at_most(gap_in_pattern(pattern, target, t, j), best_cell(pattern, target, t, j)),
{
}

/// The dynamic-programming cells are attained: each is the score and
/// start of an alignment ending at (`t`, `j`), the gap cells of one whose
/// last step is a gap of their kind.
proof fn lemma_cells_attained(pattern: Seq<char>, target: Seq<char>, t: int, j: int)
    requires
        0 <= t <= target.len(),
        0 <= j,
        dimensions_fit(j, t),
    ensures
        exists|steps: Seq<AlignStep>| #[trigger] aligned(pattern, target, steps, t, j) == Some(best_cell(pattern, target, t, j)),
        j > 0 ==> exists|steps: Seq<AlignStep>|
            steps.len() > 0 && steps.last() == AlignStep::PatternOnly && #[trigger] aligned(pattern, target, steps, t, j)
                == Some(gap_in_target(pattern, target, t, j)),
        t > 0 && j > 0 ==> exists|steps: Seq<AlignStep>|
            steps.len() > 0 && steps.last() == AlignStep::TargetOnly && #[trigger] aligned(pattern, target, steps, t, j)
                == Some(gap_in_pattern(pattern, target, t, j)),
    decreases t, j,
{
    if j == 0 {
        let w = Seq::<AlignStep>::empty();
        assert(aligned(pattern, target, w, t, j) == Some(best_cell(pattern, target, t, j)));
        return;
    }
    // The gap in the target ending here.
    lemma_cells_attained(pattern, target, t, j - 1);
    let wb = choose|steps: Seq<AlignStep>| #[trigger] aligned(pattern, target, steps, t, j - 1) == Some(best_cell(pattern, target, t, j - 1));
    lemma_aligned_bounds(pattern, target, wb, t, j - 1);
    let bt = best_cell(pattern, target, t, j - 1);
    let a = step(bt, GAP_OPEN_SCORE as int);
    let b = step(gap_in_target(pattern, target, t, j - 1), GAP_EXTEND_SCORE as int);
    let gt = gap_in_target(pattern, target, t, j);
    assert(gt == better_cell(a, b));
    if j - 1 > 0 {
        let wg = choose|steps: Seq<AlignStep>|
            steps.len() > 0 && steps.last() == AlignStep::PatternOnly && #[trigger] aligned(pattern, target, steps, t, j - 1)
                == Some(gap_in_target(pattern, target, t, j - 1));
        lemma_aligned_bounds(pattern, target, wg, t, j - 1);
        lemma_best_ranks_above_gaps(pattern, target, t, j - 1);
        if gt == b && gt != a {
            let w = wg.push(AlignStep::PatternOnly);
            assert(w.drop_last() =~= wg);
            assert(aligned(pattern, target, w, t, j) == Some(gt));
        } else {
            let w = wb.push(AlignStep::PatternOnly);
            assert(w.drop_last() =~= wb);
            if wb.len() > 0 && wb.last() == AlignStep::PatternOnly {
                lemma_cells_bound_alignments(pattern, target, wb, t, j - 1);
                assert(false);
            }
            assert(aligned(pattern, target, w, t, j) == Some(gt));
        }
    } else {
        lemma_cells_bounded(pattern, target, t, j - 1);
        let w = wb.push(AlignStep::PatternOnly);
        assert(w.drop_last() =~= wb);
        assert(aligned(pattern, target, w, t, j) == Some(gt));
    }
    if t > 0 {
        // The gap in the pattern ending here.
        lemma_cells_attained(pattern, target, t - 1, j);
        let wp = choose|steps: Seq<AlignStep>| #[trigger] aligned(pattern, target, steps, t - 1, j) == Some(best_cell(pattern, target, t - 1, j));
        lemma_aligned_bounds(pattern, target, wp, t - 1, j);
        let bp = best_cell(pattern, target, t - 1, j);
        let c = step(bp, GAP_OPEN_SCORE as int);
        let d = step(gap_in_pattern(pattern, target, t - 1, j), GAP_EXTEND_SCORE as int);
        let gp = gap_in_pattern(pattern, target, t, j);
        assert(gp == better_cell(c, d));
        if t - 1 > 0 {
            let wq = choose|steps: Seq<AlignStep>|
                steps.len() > 0 && steps.last() == AlignStep::TargetOnly && #[trigger] aligned(pattern, target, steps, t - 1, j)
                    == Some(gap_in_pattern(pattern, target, t - 1, j));
            lemma_aligned_bounds(pattern, target, wq, t - 1, j);
            lemma_best_ranks_above_gaps(pattern, target, t - 1, j);
            if gp == d && gp != c {
                let w = wq.push(AlignStep::TargetOnly);
                assert(w.drop_last() =~= wq);
                assert(aligned(pattern, target, w, t, j) == Some(gp));
            } else {
                let w = wp.push(AlignStep::TargetOnly);
                assert(w.drop_last() =~= wp);
                if wp.len() > 0 && wp.last() == AlignStep::TargetOnly {
                    lemma_cells_bound_alignments(pattern, target, wp, t - 1, j);
                    assert(false);
                }
                assert(aligned(pattern, target, w, t, j) == Some(gp));
            }
        } else {
            lemma_cells_bounded(pattern, target, t - 1, j);
            let w = wp.push(AlignStep::TargetOnly);
            assert(w.drop_last() =~= wp);
            assert(aligned(pattern, target, w, t, j) == Some(gp));
        }
        // The diagonal step ending here.
        lemma_cells_attained(pattern, target, t - 1, j - 1);
        let wd = choose|steps: Seq<AlignStep>|
            #[trigger] aligned(pattern, target, steps, t - 1, j - 1) == Some(best_cell(pattern, target, t - 1, j - 1));
        lemma_aligned_bounds(pattern, target, wd, t - 1, j - 1);
        let dg = step(best_cell(pattern, target, t - 1, j - 1), substitution(pattern[j - 1], target[t - 1]));
        let w = wd.push(AlignStep::Diagonal);
        assert(w.drop_last() =~= wd);
        assert(aligned(pattern, target, w, t, j) == Some(dg));
        let wgt = choose|steps: Seq<AlignStep>|
            steps.len() > 0 && steps.last() == AlignStep::PatternOnly && #[trigger] aligned(pattern, target, steps, t, j)
                == Some(gap_in_target(pattern, target, t, j));
        let wgp = choose|steps: Seq<AlignStep>|
            steps.len() > 0 && steps.last() == AlignStep::TargetOnly && #[trigger] aligned(pattern, target, steps, t, j)
                == Some(gap_in_pattern(pattern, target, t, j));
        let bc = best_cell(pattern, target, t, j);
        assert(bc == better_cell(better_cell(dg, gt), gp));
        if bc == dg {
            assert(aligned(pattern, target, w, t, j) == Some(bc));
        } else if bc == gt {
            assert(aligned(pattern, target, wgt, t, j) == Some(bc));
        } else {
            assert(aligned(pattern, target, wgp, t, j) == Some(bc));
        }
    } else {
        let wgt = choose|steps: Seq<AlignStep>|
            steps.len() > 0 && steps.last() == AlignStep::PatternOnly && #[trigger] aligned(pattern, target, steps, t, j)
                == Some(gap_in_target(pattern, target, t, j));
        assert(aligned(pattern, target, wgt, t, j) == Some(best_cell(pattern, target, t, j)));
    }
}

/// The dynamic-programming cell of the fitting alignment is optimal: for
/// an end position `t` in the target and the first `j` pattern
/// characters, `best_cell` is the score and start of an alignment ending
/// there, and no alignment ending there scores higher, or scores the same
/// and starts later (spans fewer target characters).
pub proof fn law_fit_cells_are_optimal(pattern: Seq<char>, target: Seq<char>, t: int, j: int)
    requires
        0 <= t <= target.len(),
        0 <= j,
        dimensions_fit(j, t),
    ensures
        exists|steps: Seq<AlignStep>| #[trigger] aligned(pattern, target, steps, t, j) == Some(best_cell(pattern, target, t, j)),
        forall|steps: Seq<AlignStep>|
            #[trigger] aligned(pattern, target, steps, t, j) is Some ==> ranks_at_most(
                aligned(pattern, target, steps, t, j)->0,
                best_cell(pattern, target, t, j),
            ),
{
    lemma_cells_attained(pattern, target, t, j);
    assert forall|steps: Seq<AlignStep>|
        #[trigger] aligned(pattern, target, steps, t, j) is Some implies ranks_at_most(
        aligned(pattern, target, steps, t, j)->0,
        best_cell(pattern, target, t, j),
    ) by {
        lemma_cells_bound_alignments(pattern, target, steps, t, j);
    }
}

} // verus!
