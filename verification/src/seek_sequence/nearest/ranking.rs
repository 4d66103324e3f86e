//! Ranking of closest-match candidates by their Levenshtein similarity.

use crate::seek_sequence::SequenceMatch;
use vstd::prelude::*;

verus! {

pub open spec fn min_nat(a: nat, b: nat) -> nat {
    if a <= b {
        a
    } else {
        b
    }
}

pub open spec fn max_int(a: int, b: int) -> int {
    if a >= b {
        a
    } else {
        b
    }
}

/// The Levenshtein distance of two character sequences: the fewest
/// insertions, deletions and substitutions (each of cost one) that turn
/// `a` into `b`.
pub open spec fn levenshtein(a: Seq<char>, b: Seq<char>) -> nat
    decreases a.len() + b.len(),
{
    if a.len() == 0 {
        b.len()
    } else if b.len() == 0 {
        a.len()
    } else {
        let substitute = levenshtein(a.drop_last(), b.drop_last()) + if a.last() == b.last() {
            0nat
        } else {
            1nat
        };
        let delete = levenshtein(a.drop_last(), b) + 1;
        let insert = levenshtein(a, b.drop_last()) + 1;
        min_nat(min_nat(substitute, delete), insert)
    }
}

/// The distance is at least the difference of the lengths and at most the
/// larger length.
pub proof fn lemma_levenshtein_bounds(a: Seq<char>, b: Seq<char>)
    ensures
        levenshtein(a, b) <= max_int(a.len() as int, b.len() as int),
        levenshtein(a, b) >= a.len() - b.len(),
        levenshtein(a, b) >= b.len() - a.len(),
    decreases a.len() + b.len(),
{
    if a.len() > 0 && b.len() > 0 {
        lemma_levenshtein_bounds(a.drop_last(), b.drop_last());
        lemma_levenshtein_bounds(a.drop_last(), b);
        lemma_levenshtein_bounds(a, b.drop_last());
    }
}

/// A similarity `matching / maximum`.
#[derive(Clone, Copy)]
pub struct Similarity {
    pub matching: usize,
    pub maximum: usize,
}

/// Candidates must be strictly more similar than one half.
pub const THRESHOLD_MATCHING: usize = 1;

pub const THRESHOLD_MAXIMUM: usize = 2;

/// The acceptance threshold: one half.
pub fn threshold() -> (r: Similarity)
    ensures
        r.matching == THRESHOLD_MATCHING,
        r.maximum == THRESHOLD_MAXIMUM,
{
    Similarity { matching: THRESHOLD_MATCHING, maximum: THRESHOLD_MAXIMUM }
}

/// `a` is more similar than `b` (the fractions compared by
/// cross-multiplication).
pub open spec fn more_similar(a: Similarity, b: Similarity) -> bool {
    a.matching * b.maximum > b.matching * a.maximum
}

/// `a` and `b` are equally similar.
pub open spec fn equally_similar(a: Similarity, b: Similarity) -> bool {
    a.matching * b.maximum == b.matching * a.maximum
}

pub open spec fn above_threshold(a: Similarity) -> bool {
    a.matching * THRESHOLD_MAXIMUM > THRESHOLD_MATCHING * a.maximum
}

impl Similarity {
    /// The similarity of a distance over `maximum` characters.
    pub fn from_distance(maximum: usize, distance: usize) -> (r: Self)
        requires
            distance <= maximum,
        ensures
            r.matching == maximum - distance,
            r.maximum == maximum,
    {
        Similarity { matching: maximum - distance, maximum }
    }

    /// The best similarity two lengths allow.
    pub fn length_bound(pattern_length: usize, candidate_length: usize) -> (r: Self)
        ensures
            r.matching == (if pattern_length <= candidate_length {
                pattern_length
            } else {
                candidate_length
            }),
            r.maximum == max_int(pattern_length as int, candidate_length as int),
    {
        if pattern_length <= candidate_length {
            Similarity { matching: pattern_length, maximum: candidate_length }
        } else {
            Similarity { matching: candidate_length, maximum: pattern_length }
        }
    }

    /// Decides `more_similar(self, other)`.
    pub fn greater_than(self, other: Self) -> (r: bool)
        ensures
            r == more_similar(self, other),
    {
        proof {
            lemma_widened_products(self.matching, other.maximum);
            lemma_widened_products(other.matching, self.maximum);
        }
        let left = (self.matching as u128) * (other.maximum as u128);
        let right = (other.matching as u128) * (self.maximum as u128);
        left > right
    }

    /// Decides `more_similar(other, self)`.
    pub fn less_than(self, other: Self) -> (r: bool)
        ensures
            r == more_similar(other, self),
    {
        other.greater_than(self)
    }

    /// Nothing differs.
    pub fn is_exact(self) -> (r: bool)
        ensures
            r == (self.matching == self.maximum),
    {
        self.matching == self.maximum
    }

    /// The largest distance over `candidate_maximum` characters whose
    /// similarity is not below this one.
    pub fn distance_cutoff(self, candidate_maximum: usize) -> (r: usize)
        requires
            self.matching <= self.maximum,
            self.maximum > 0,
        ensures
            r == (self.maximum - self.matching) * candidate_maximum / (self.maximum as int),
    {
        scaled_distance(self.maximum - self.matching, candidate_maximum, self.maximum)
    }

    /// The largest distance over `candidate_maximum` characters whose
    /// similarity is strictly above this one.
    pub fn strict_distance_cutoff(self, candidate_maximum: usize) -> (r: usize)
        requires
            self.matching < self.maximum,
            candidate_maximum > 0,
        ensures
            r == ((self.maximum - self.matching) * candidate_maximum - 1) / (self.maximum as int),
    {
        let gap = self.maximum - self.matching;
        proof {
            lemma_widened_products(gap, candidate_maximum);
            assert((self.maximum - self.matching) * candidate_maximum >= 1) by (nonlinear_arith)
                requires
                    self.maximum - self.matching >= 1,
                    candidate_maximum >= 1,
            ;
        }
        let scaled = (gap as u128) * (candidate_maximum as u128);
        let strict = scaled - 1;
        let q = strict / (self.maximum as u128);
        proof {
            assert(q <= strict) by (nonlinear_arith)
                requires
                    q == strict / (self.maximum as u128),
                    self.maximum >= 1,
            ;
            lemma_quotient_fits(strict as int, self.maximum as int, (self.maximum - self.matching) as int, candidate_maximum as int);
        }
        q as usize
    }
}

proof fn lemma_widened_products(a: usize, b: usize)
    ensures
        (a as u128) * (b as u128) == a * b,
        a * b <= u128::MAX,
{
    assert(a * b <= usize::MAX * usize::MAX) by (nonlinear_arith)
        requires
            a <= usize::MAX,
            b <= usize::MAX,
    ;
    assert(usize::MAX * usize::MAX <= u128::MAX) by (nonlinear_arith)
        requires
            usize::MAX <= u64::MAX,
    ;
}

proof fn lemma_quotient_fits(x: int, m: int, d: int, c: int)
    requires
        m >= 1,
        0 <= d <= m,
        0 <= c <= usize::MAX,
        0 <= x < d * c,
    ensures
        x / m <= usize::MAX,
{
    assert(x / m <= c) by (nonlinear_arith)
        requires
            m >= 1,
            0 <= d <= m,
            0 <= x < d * c,
            c >= 0,
    {
        assert(d * c <= m * c) by (nonlinear_arith)
            requires
                0 <= d <= m,
                c >= 0,
        ;
    }
}

/// `numerator * scale / denominator`, rounded down.
fn scaled_distance(numerator: usize, scale: usize, denominator: usize) -> (r: usize)
    requires
        numerator <= denominator,
        denominator > 0,
    ensures
        r == numerator * scale / (denominator as int),
{
    proof {
        lemma_widened_products(numerator, scale);
    }
    let scaled = (numerator as u128) * (scale as u128);
    let q = scaled / (denominator as u128);
    proof {
        assert(q <= scale) by (nonlinear_arith)
            requires
                q == scaled / (denominator as u128),
                scaled == numerator * scale,
                numerator <= denominator,
                denominator >= 1,
                scale >= 0,
        {
            assert(numerator * scale <= denominator * scale) by (nonlinear_arith)
                requires
                    numerator <= denominator,
                    scale >= 0,
            ;
        }
    }
    q as usize
}

/// A closest-match candidate: the lines it spans, its similarity to the
/// pattern, its distance and the difference of the lengths.
#[derive(Clone, Copy)]
pub struct Candidate {
    pub sequence: SequenceMatch,
    pub similarity: Similarity,
    pub distance: usize,
    pub length_delta: usize,
}

/// `a` ranks above `b`: more similar; then a smaller distance; then a
/// smaller length difference; then an earlier start; then fewer lines.
pub open spec fn ranks_above(a: Candidate, b: Candidate) -> bool {
    ||| more_similar(a.similarity, b.similarity)
    ||| (equally_similar(a.similarity, b.similarity) && a.distance < b.distance)
    ||| (equally_similar(a.similarity, b.similarity) && a.distance == b.distance && a.length_delta
        < b.length_delta)
    ||| (equally_similar(a.similarity, b.similarity) && a.distance == b.distance && a.length_delta
        == b.length_delta && a.sequence.start < b.sequence.start)
    ||| (equally_similar(a.similarity, b.similarity) && a.distance == b.distance && a.length_delta
        == b.length_delta && a.sequence.start == b.sequence.start && a.sequence.length
        < b.sequence.length)
}

/// The candidate of a fragment at `distance` from a pattern.
pub open spec fn candidate_spec(
    sequence: SequenceMatch,
    pattern_length: int,
    fragment_length: int,
    distance: int,
) -> Candidate {
    Candidate {
        sequence,
        similarity: Similarity {
            matching: (max_int(pattern_length, fragment_length) - distance) as usize,
            maximum: max_int(pattern_length, fragment_length) as usize,
        },
        distance: distance as usize,
        length_delta: (if pattern_length >= fragment_length {
            pattern_length - fragment_length
        } else {
            fragment_length - pattern_length
        }) as usize,
    }
}

impl Candidate {
    pub fn new(sequence: SequenceMatch, pattern_length: usize, fragment_length: usize, distance: usize) -> (r: Self)
        requires
            distance <= max_int(pattern_length as int, fragment_length as int),
        ensures
            r == candidate_spec(sequence, pattern_length as int, fragment_length as int, distance as int),
    {
        let maximum = if pattern_length >= fragment_length {
            pattern_length
        } else {
            fragment_length
        };
        let delta = if pattern_length >= fragment_length {
            pattern_length - fragment_length
        } else {
            fragment_length - pattern_length
        };
        Candidate {
            sequence,
            similarity: Similarity::from_distance(maximum, distance),
            distance,
            length_delta: delta,
        }
    }

    /// Decides `ranks_above(*self, *other)`.
    pub fn is_better_than(&self, other: &Self) -> (r: bool)
        ensures
            r == ranks_above(*self, *other),
    {
        if self.similarity.greater_than(other.similarity) {
            return true;
        }
        if self.similarity.less_than(other.similarity) {
            return false;
        }
        if self.distance != other.distance {
            return self.distance < other.distance;
        }
        if self.length_delta != other.length_delta {
            return self.length_delta < other.length_delta;
        }
        if self.sequence.start != other.sequence.start {
            return self.sequence.start < other.sequence.start;
        }
        self.sequence.length < other.sequence.length
    }
}

} // verus!

verus! {

/// A similarity of a valid candidate: `0 <= matching <= maximum`, with a
/// positive maximum.
pub open spec fn valid_similarity(a: Similarity) -> bool {
    a.matching <= a.maximum && a.maximum > 0
}

pub proof fn lemma_similarity_order(a: Similarity, b: Similarity, c: Similarity)
    requires
        a.maximum > 0,
        b.maximum > 0,
        c.maximum > 0,
    ensures
        more_similar(a, b) && more_similar(b, c) ==> more_similar(a, c),
        more_similar(a, b) && equally_similar(b, c) ==> more_similar(a, c),
        equally_similar(a, b) && more_similar(b, c) ==> more_similar(a, c),
        equally_similar(a, b) && equally_similar(b, c) ==> equally_similar(a, c),
{
    let (am, aM, bm, bM, cm, cM) = (
        a.matching as int,
        a.maximum as int,
        b.matching as int,
        b.maximum as int,
        c.matching as int,
        c.maximum as int,
    );
    assert(am * bM > bm * aM && bm * cM > cm * bM ==> am * cM > cm * aM) by (nonlinear_arith)
        requires
            aM > 0,
            bM > 0,
            cM > 0,
            am >= 0,
            bm >= 0,
            cm >= 0,
    ;
    assert(am * bM > bm * aM && bm * cM == cm * bM ==> am * cM > cm * aM) by (nonlinear_arith)
        requires
            aM > 0,
            bM > 0,
            cM > 0,
            am >= 0,
            bm >= 0,
            cm >= 0,
    ;
    assert(am * bM == bm * aM && bm * cM > cm * bM ==> am * cM > cm * aM) by (nonlinear_arith)
        requires
            aM > 0,
            bM > 0,
            cM > 0,
            am >= 0,
            bm >= 0,
            cm >= 0,
    ;
    assert(am * bM == bm * aM && bm * cM == cm * bM ==> am * cM == cm * aM) by (nonlinear_arith)
        requires
            aM > 0,
            bM > 0,
            cM > 0,
            am >= 0,
            bm >= 0,
            cm >= 0,
    ;
}

/// The ranking is transitive.
pub proof fn lemma_ranks_above_transitive(a: Candidate, b: Candidate, c: Candidate)
    requires
        a.similarity.maximum > 0,
        b.similarity.maximum > 0,
        c.similarity.maximum > 0,
        ranks_above(a, b),
        ranks_above(b, c),
    ensures
        ranks_above(a, c),
{
    lemma_similarity_order(a.similarity, b.similarity, c.similarity);
}

/// A candidate ranked above one above the threshold is above it too.
pub proof fn lemma_ranks_above_keeps_threshold(a: Candidate, b: Candidate)
    requires
        a.similarity.maximum > 0,
        b.similarity.maximum > 0,
        ranks_above(a, b),
        above_threshold(b.similarity),
    ensures
        above_threshold(a.similarity),
{
    let t = Similarity { matching: THRESHOLD_MATCHING, maximum: THRESHOLD_MAXIMUM };
    assert(above_threshold(b.similarity) == more_similar(b.similarity, t));
    assert(above_threshold(a.similarity) == more_similar(a.similarity, t));
    lemma_similarity_order(a.similarity, b.similarity, t);
}

} // verus!
