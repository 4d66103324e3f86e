//! Lines flattened into one character sequence for the closest-match
//! search: each line's collapsed key, empty keys skipped, joined by '\n',
//! with the original line index of every character.

use crate::seek_sequence::normalize::{collapse_spaces, collapsed};
use crate::seek_sequence::SequenceMatch;
use crate::text::lines_view_of;
use vstd::prelude::*;

verus! {

/// The flattened characters of the first `n` lines.
pub open spec fn corpus_chars(lines: Seq<Seq<char>>, n: int) -> Seq<char>
    decreases n,
{
    if n <= 0 {
        seq![]
    } else {
        let prev = corpus_chars(lines, n - 1);
        let key = collapsed(lines[n - 1]);
        if key.len() == 0 {
            prev
        } else if prev.len() == 0 {
            key
        } else {
            prev.push('\n') + key
        }
    }
}

/// The original line index of every flattened character (a separator
/// belongs to the line that follows it).
pub open spec fn corpus_lines(lines: Seq<Seq<char>>, n: int) -> Seq<int>
    decreases n,
{
    if n <= 0 {
        seq![]
    } else {
        let prev = corpus_lines(lines, n - 1);
        let key = collapsed(lines[n - 1]);
        let own = Seq::new(key.len(), |i: int| n - 1);
        if key.len() == 0 {
            prev
        } else if prev.len() == 0 {
            own
        } else {
            prev.push(n - 1) + own
        }
    }
}

/// The first position in `from..end` that is not a separator.
pub open spec fn first_content(chars: Seq<char>, from: int, end: int) -> Option<int>
    decreases end - from,
{
    if from >= end {
        None
    } else if chars[from] != '\n' {
        Some(from)
    } else {
        first_content(chars, from + 1, end)
    }
}

/// The last position in `start..to` that is not a separator.
pub open spec fn last_content(chars: Seq<char>, start: int, to: int) -> Option<int>
    decreases to - start,
{
    if to <= start {
        None
    } else if chars[to - 1] != '\n' {
        Some(to - 1)
    } else {
        last_content(chars, start, to - 1)
    }
}

/// The original lines spanned by the flattened range `start..end`.
pub open spec fn corpus_span(chars: Seq<char>, line_of: Seq<int>, start: int, end: int) -> Option<
    SequenceMatch,
> {
    if !(0 <= start <= end <= chars.len()) || line_of.len() != chars.len() {
        None
    } else {
        match (first_content(chars, start, end), last_content(chars, start, end)) {
            (Some(f), Some(l)) => if line_of[l] < line_of[f] || line_of[l] - line_of[f] + 1
                > usize::MAX {
                None
            } else {
                Some(
                    SequenceMatch {
                        start: line_of[f] as usize,
                        length: (line_of[l] - line_of[f] + 1) as usize,
                    },
                )
            },
            _ => None,
        }
    }
}

pub struct NormalizedCorpus {
    chars: Vec<char>,
    line_indices: Vec<usize>,
}

pub proof fn lemma_corpus_lengths(lines: Seq<Seq<char>>, n: int)
    requires
        n <= lines.len(),
    ensures
        corpus_chars(lines, n).len() == corpus_lines(lines, n).len(),
        forall|i: int|
            0 <= i < corpus_lines(lines, n).len() ==> 0 <= #[trigger] corpus_lines(lines, n)[i]
                < n,
    decreases n,
{
    if n > 0 {
        lemma_corpus_lengths(lines, n - 1);
        let prev = corpus_lines(lines, n - 1);
        let cur = corpus_lines(lines, n);
        assert forall|i: int| 0 <= i < cur.len() implies 0 <= #[trigger] cur[i] < n by {
            if i < prev.len() {
                assert(cur[i] == prev[i]);
            }
        }
    }
}

impl NormalizedCorpus {
    pub closed spec fn chars_view(&self) -> Seq<char> {
        self.chars@
    }

    pub closed spec fn lines_of_chars(&self) -> Seq<int> {
        self.line_indices@.map_values(|x: usize| x as int)
    }

    /// Flattens `lines` (see `corpus_chars` and `corpus_lines`).
    pub fn new(lines: &[Vec<char>]) -> (r: Self)
        ensures
            r.chars_view() == corpus_chars(lines_view_of(lines@), lines@.len() as int),
            r.lines_of_chars() == corpus_lines(lines_view_of(lines@), lines@.len() as int),
    {
        let ghost lv = lines_view_of(lines@);
        let mut chars: Vec<char> = Vec::new();
        let mut line_indices: Vec<usize> = Vec::new();
        let mut i: usize = 0;
        while i < lines.len()
            invariant
                i <= lines@.len(),
                lv == lines_view_of(lines@),
                chars@ == corpus_chars(lv, i as int),
                line_indices@.map_values(|x: usize| x as int) == corpus_lines(lv, i as int),
            decreases lines@.len() - i,
        {
            let key = collapse_spaces(&lines[i]);
            assert(lv[i as int] == lines@[i as int]@);
            if key.len() > 0 {
                let ghost c0 = chars@;
                let ghost l0 = line_indices@.map_values(|x: usize| x as int);
                proof {
                    lemma_corpus_lengths(lv, i as int);
                }
                if chars.len() > 0 {
                    let ghost before = line_indices@;
                    chars.push('\n');
                    line_indices.push(i);
                    assert(line_indices@.map_values(|x: usize| x as int) =~= before.map_values(
                        |x: usize| x as int,
                    ).push(i as int));
                }
                let ghost c1 = chars@;
                let ghost l1 = line_indices@.map_values(|x: usize| x as int);
                let mut k: usize = 0;
                while k < key.len()
                    invariant
                        k <= key@.len(),
                        chars@ == c1 + key@.subrange(0, k as int),
                        line_indices@.map_values(|x: usize| x as int) == l1 + Seq::new(
                            k as nat,
                            |_j: int| i as int,
                        ),
                    decreases key@.len() - k,
                {
                    let ghost before = line_indices@;
                    chars.push(key[k]);
                    line_indices.push(i);
                    assert(line_indices@.map_values(|x: usize| x as int) =~= before.map_values(
                        |x: usize| x as int,
                    ).push(i as int));
                    k += 1;
                    assert(line_indices@.map_values(|x: usize| x as int) =~= l1 + Seq::new(
                        k as nat,
                        |_j: int| i as int,
                    ));
                }
                assert(key@.subrange(0, key@.len() as int) == key@);
                assert(chars@ =~= corpus_chars(lv, i + 1));
                assert(line_indices@.map_values(|x: usize| x as int) =~= corpus_lines(lv, i + 1));
            }
            i += 1;
        }
        NormalizedCorpus { chars, line_indices }
    }

    pub fn chars(&self) -> (r: &[char])
        ensures
            r@ == self.chars_view(),
    {
        self.chars.as_slice()
    }

    pub fn is_empty(&self) -> (r: bool)
        ensures
            r == (self.chars_view().len() == 0),
    {
        self.chars.len() == 0
    }

    /// The original lines spanned by `start..end` (see `corpus_span`).
    pub fn sequence(&self, start: usize, end: usize) -> (r: Option<SequenceMatch>)
        ensures
            r == corpus_span(self.chars_view(), self.lines_of_chars(), start as int, end as int),
    {
        let ghost c = self.chars@;
        let ghost li = self.lines_of_chars();
        if !(start <= end && end <= self.chars.len()) || self.line_indices.len() != self.chars.len() {
            return None;
        }
        let mut f = start;
        while f < end && self.chars[f] == '\n'
            invariant
                start <= f <= end <= c.len(),
                c == self.chars@,
                first_content(c, start as int, end as int) == first_content(c, f as int, end as int),
            decreases end - f,
        {
            f += 1;
        }
        if f == end {
            return None;
        }
        let mut l = end;
        while l > start && self.chars[l - 1] == '\n'
            invariant
                start <= l <= end <= c.len(),
                c == self.chars@,
                last_content(c, start as int, end as int) == last_content(c, start as int, l as int),
            decreases l - start,
        {
            l -= 1;
        }
        if l == start {
            return None;
        }
        let first_line = self.line_indices[f];
        let last_line = self.line_indices[l - 1];
        assert(li[f as int] == first_line as int);
        assert(li[(l - 1) as int] == last_line as int);
        if last_line < first_line {
            return None;
        }
        if last_line - first_line == usize::MAX {
            return None;
        }
        assert(first_content(c, start as int, end as int) == Some(f as int));
        assert(last_content(c, start as int, end as int) == Some((l - 1) as int));
        Some(SequenceMatch { start: first_line, length: last_line - first_line + 1 })
    }
}

} // verus!
