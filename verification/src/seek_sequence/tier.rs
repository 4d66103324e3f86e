//! One search tier: the keys of the lines that take part, and the window
//! search over them.

use crate::seek_sequence::{
    all_entries, all_keys, first_window, keeps, kept_indices, kept_keys, line_key_of,
    mode_skips_empty, skips_empty, span, tier_find, window_at, MatchMode, SequenceMatch,
};
use crate::text::chars_equal;
use crate::text::lines_view_of;
use vstd::prelude::*;

verus! {

/// Entry indices and keys of the lines that take part under one mode.
pub struct SearchTier {
    mode: MatchMode,
    entries: Vec<usize>,
    keys: Vec<Vec<char>>,
}

/// The indices as integers.
pub open spec fn ints(v: Seq<usize>) -> Seq<int> {
    v.map_values(|x: usize| x as int)
}

/// Computes the kept indices and keys of `lines` under `mode`.
pub fn kept(mode: MatchMode, lines: &[Vec<char>]) -> (r: (Vec<usize>, Vec<Vec<char>>))
    ensures
        ints(r.0@) == kept_indices(mode, lines_view_of(lines@), lines@.len() as int),
        lines_view_of(r.1@) == kept_keys(mode, lines_view_of(lines@), lines@.len() as int),
        forall|j: int| 0 <= j < r.0@.len() ==> r.0@[j] < lines@.len(),
{
    let ghost lv = lines_view_of(lines@);
    let skips = mode_skips_empty(mode);
    let mut entries: Vec<usize> = Vec::new();
    let mut keys: Vec<Vec<char>> = Vec::new();
    let mut i: usize = 0;
    while i < lines.len()
        invariant
            i <= lines@.len(),
            lv == lines_view_of(lines@),
            skips == skips_empty(mode),
            ints(entries@) == kept_indices(mode, lv, i as int),
            lines_view_of(keys@) == kept_keys(mode, lv, i as int),
            forall|j: int| 0 <= j < entries@.len() ==> entries@[j] < i,
        decreases lines@.len() - i,
    {
        let key = line_key_of(mode, &lines[i]);
        assert(lv[i as int] == lines@[i as int]@);
        if !(skips && key.len() == 0) {
            entries.push(i);
            keys.push(key);
            assert(ints(entries@) =~= kept_indices(mode, lv, i as int).push(i as int));
            assert(lines_view_of(keys@) =~= kept_keys(mode, lv, i as int).push(key@));
        }
        i += 1;
    }
    (entries, keys)
}

impl SearchTier {
    pub closed spec fn mode(&self) -> MatchMode {
        self.mode
    }

    /// The tier was built from `lines` under its mode.
    pub closed spec fn wf(&self, lines: Seq<Seq<char>>) -> bool {
        &&& ints(self.entries@) == all_entries(self.mode, lines)
        &&& lines_view_of(self.keys@) == all_keys(self.mode, lines)
        &&& forall|j: int| 0 <= j < self.entries@.len() ==> self.entries@[j] < lines.len()
    }

    pub fn new(lines: &[Vec<char>], mode: MatchMode) -> (r: Self)
        ensures
            r.wf(lines_view_of(lines@)),
            r.mode() == mode,
    {
        let (entries, keys) = kept(mode, lines);
        SearchTier { mode, entries, keys }
    }

    fn window_matches(&self, pattern_keys: &[Vec<char>], e: usize) -> (r: bool)
        requires
            e + pattern_keys@.len() <= self.keys@.len(),
        ensures
            r == window_at(lines_view_of(self.keys@), lines_view_of(pattern_keys@), e as int),
    {
        let ghost ek = lines_view_of(self.keys@);
        let ghost pk = lines_view_of(pattern_keys@);
        let n = self.keys.len();
        let mut j: usize = 0;
        while j < pattern_keys.len()
            invariant
                n == self.keys@.len(),
                j <= pattern_keys@.len(),
                e + pattern_keys@.len() <= self.keys@.len(),
                ek == lines_view_of(self.keys@),
                pk == lines_view_of(pattern_keys@),
                forall|x: int| 0 <= x < j ==> ek[e + x] == pk[x],
            decreases pattern_keys@.len() - j,
        {
            if !chars_equal(&self.keys[e + j], &pattern_keys[j]) {
                assert(ek.subrange(e as int, e + pk.len())[j as int] != pk[j as int]);
                return false;
            }
            j += 1;
        }
        assert(ek.subrange(e as int, e + pk.len()) =~= pk);
        true
    }

    /// The tier's search (see `tier_find`).
    pub fn find(&self, Ghost(lines): Ghost<Seq<Seq<char>>>, pattern: &[Vec<char>], start: usize, eof: bool) -> (r: Option<
        SequenceMatch,
    >)
        requires
            self.wf(lines),
            lines.len() <= usize::MAX,
        ensures
            r == tier_find(self.mode(), lines, lines_view_of(pattern@), start as int, eof),
    {
        if pattern.len() == 0 {
            return Some(SequenceMatch { start, length: 0 });
        }
        let (_pattern_entries, pattern_keys) = kept(self.mode, pattern);
        let ghost en = all_entries(self.mode, lines);
        let ghost ek = all_keys(self.mode, lines);
        let ghost pk = lines_view_of(pattern_keys@);
        proof {
            lemma_kept_lengths(self.mode, lines, lines.len() as int);
        }
        let k = pattern_keys.len();
        if k == 0 || k > self.entries.len() {
            return None;
        }
        let last = self.entries.len() - k;
        if eof {
            if self.window_matches(&pattern_keys, last) {
                let first = self.entries[last];
                let final_line = self.entries[last + k - 1];
                proof {
                    lemma_kept_sorted(self.mode, lines, lines.len() as int);
                    assert(ints(self.entries@)[last as int] == first);
                    assert(ints(self.entries@)[(last + k - 1) as int] == final_line);
                    assert(en[last as int] <= en[(last + k - 1) as int]);
                }
                return Some(SequenceMatch { start: first, length: final_line - first + 1 });
            }
            return None;
        }
        let mut e: usize = 0;
        while e <= last
            invariant
                e <= last + 1,
                last + k == self.entries@.len(),
                k == pk.len(),
                k > 0,
                self.entries@.len() <= usize::MAX,
                lines.len() <= usize::MAX,
                self.wf(lines),
                en == all_entries(self.mode, lines),
                ek == all_keys(self.mode, lines),
                pk == lines_view_of(pattern_keys@),
                pk == all_keys(self.mode, lines_view_of(pattern@)),
                pattern@.len() > 0,
                !eof,
                ek.len() == en.len(),
                first_window(en, ek, pk, start as int, 0, last as int)
                    == first_window(en, ek, pk, start as int, e as int, last as int),
            decreases last + 1 - e,
        {
            assert(ints(self.entries@)[e as int] == self.entries@[e as int]);
            if self.entries[e] >= start && self.window_matches(&pattern_keys, e) {
                let first = self.entries[e];
                let final_line = self.entries[e + k - 1];
                proof {
                    lemma_kept_sorted(self.mode, lines, lines.len() as int);
                    assert(ints(self.entries@)[(e + k - 1) as int] == final_line);
                    assert(en[e as int] <= en[(e + k - 1) as int]);
                    assert(first_window(en, ek, pk, start as int, e as int, last as int) == Some(e as int));
                    assert(first_window(en, ek, pk, start as int, 0, last as int) == Some(e as int));
                    assert(pk == all_keys(self.mode, lines_view_of(pattern@)));
                    assert(span(en, e as int, k as int) == SequenceMatch { start: first, length: (final_line - first + 1) as usize });
                }
                return Some(SequenceMatch { start: first, length: final_line - first + 1 });
            }
            e += 1;
        }
        None
    }
}

pub proof fn lemma_kept_lengths(mode: MatchMode, lines: Seq<Seq<char>>, n: int)
    ensures
        kept_indices(mode, lines, n).len() == kept_keys(mode, lines, n).len(),
    decreases n,
{
    if n > 0 {
        lemma_kept_lengths(mode, lines, n - 1);
    }
}

/// Kept indices are strictly increasing and below `n`.
pub proof fn lemma_kept_sorted(mode: MatchMode, lines: Seq<Seq<char>>, n: int)
    ensures
        forall|a: int, b: int|
            0 <= a < b < kept_indices(mode, lines, n).len() ==> #[trigger] kept_indices(
                mode,
                lines,
                n,
            )[a] < #[trigger] kept_indices(mode, lines, n)[b],
        forall|a: int|
            0 <= a < kept_indices(mode, lines, n).len() ==> 0 <= #[trigger] kept_indices(
                mode,
                lines,
                n,
            )[a] < n,
    decreases n,
{
    if n > 0 {
        lemma_kept_sorted(mode, lines, n - 1);
        let p = kept_indices(mode, lines, n - 1);
        let q = kept_indices(mode, lines, n);
        if keeps(mode, lines[n - 1]) {
            assert(q == p.push(n - 1));
            assert forall|a: int, b: int| 0 <= a < b < q.len() implies #[trigger] q[a] < #[trigger] q[b] by {
                if b < p.len() {
                    assert(p[a] < p[b]);
                } else {
                    assert(p[a] < n - 1);
                }
            }
            assert forall|a: int| 0 <= a < q.len() implies 0 <= #[trigger] q[a] < n by {
                if a < p.len() {
                    assert(p[a] < n - 1);
                }
            }
        }
    }
}

} // verus!
