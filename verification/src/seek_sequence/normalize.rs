//! Line normalization used by the tolerant search tiers: trimming, Unicode
//! compatibility normalization, punctuation folding and space collapsing.

use crate::text::{string_of, chars_of, trim, trim_bounds};
use unicode_normalization::UnicodeNormalization;
use vstd::prelude::*;

verus! {

/// The NFKC normalization form of a character sequence, as computed by the
/// `unicode-normalization` crate.
pub uninterp spec fn nfkc_form(s: Seq<char>) -> Seq<char>;

/// Calls `unicode_normalization::UnicodeNormalization::nfkc` on `s` and
/// collects the characters.  The contract only names the result: it is
/// `nfkc_form` of the input, a function of the input alone.
#[verifier::external_body]
fn nfkc(s: &str) -> (r: String)
    ensures
        r@ == nfkc_form(s@),
{
    s.nfkc().collect::<String>()
}

/// Folds typographic dashes, quotes and spaces to their ASCII counterparts.
pub open spec fn fold_char(c: char) -> char {
    if c == '\u{2010}' || c == '\u{2011}' || c == '\u{2012}' || c == '\u{2013}' || c
        == '\u{2014}' || c == '\u{2015}' || c == '\u{2212}' {
        '-'
    } else if c == '\u{2018}' || c == '\u{2019}' || c == '\u{201A}' || c == '\u{201B}' {
        '\''
    } else if c == '\u{201C}' || c == '\u{201D}' || c == '\u{201E}' || c == '\u{201F}' {
        '"'
    } else if c == '\u{00A0}' || c == '\u{2002}' || c == '\u{2003}' || c == '\u{2004}' || c
        == '\u{2005}' || c == '\u{2006}' || c == '\u{2007}' || c == '\u{2008}' || c
        == '\u{2009}' || c == '\u{200A}' || c == '\u{202F}' || c == '\u{205F}' || c
        == '\u{3000}' {
        ' '
    } else {
        c
    }
}

/// Computes `fold_char`.
pub fn normalize_character(c: char) -> (r: char)
    ensures
        r == fold_char(c),
{
    if c == '\u{2010}' || c == '\u{2011}' || c == '\u{2012}' || c == '\u{2013}' || c
        == '\u{2014}' || c == '\u{2015}' || c == '\u{2212}' {
        '-'
    } else if c == '\u{2018}' || c == '\u{2019}' || c == '\u{201A}' || c == '\u{201B}' {
        '\''
    } else if c == '\u{201C}' || c == '\u{201D}' || c == '\u{201E}' || c == '\u{201F}' {
        '"'
    } else if c == '\u{00A0}' || c == '\u{2002}' || c == '\u{2003}' || c == '\u{2004}' || c
        == '\u{2005}' || c == '\u{2006}' || c == '\u{2007}' || c == '\u{2008}' || c
        == '\u{2009}' || c == '\u{200A}' || c == '\u{202F}' || c == '\u{205F}' || c
        == '\u{3000}' {
        ' '
    } else {
        c
    }
}

/// All characters are ASCII.
pub open spec fn all_ascii(s: Seq<char>) -> bool {
    forall|i: int| 0 <= i < s.len() ==> (#[trigger] s[i]) <= '\u{7f}'
}

/// NFKC, skipped for ASCII text (which NFKC leaves unchanged).
pub open spec fn compat_form(s: Seq<char>) -> Seq<char> {
    if all_ascii(s) {
        s
    } else {
        nfkc_form(s)
    }
}

/// The normalized key of a line: trimmed, compatibility-normalized and with
/// typographic punctuation folded.
pub open spec fn normalized(s: Seq<char>) -> Seq<char> {
    compat_form(trim(s)).map_values(|c: char| fold_char(c))
}

/// `s` with every space that follows another space removed.
pub open spec fn squeeze_spaces(s: Seq<char>) -> Seq<char>
    decreases s.len(),
{
    if s.len() == 0 {
        s
    } else {
        let rest = squeeze_spaces(s.drop_last());
        if s.last() == ' ' && s.len() >= 2 && s[s.len() - 2] == ' ' {
            rest
        } else {
            rest.push(s.last())
        }
    }
}

/// The normalized key with runs of spaces collapsed to one space.
pub open spec fn collapsed(s: Seq<char>) -> Seq<char> {
    squeeze_spaces(normalized(s))
}

fn is_all_ascii(s: &[char]) -> (r: bool)
    ensures
        r == all_ascii(s@),
{
    let mut i: usize = 0;
    while i < s.len()
        invariant
            i <= s@.len(),
            forall|j: int| 0 <= j < i ==> s@[j] <= '\u{7f}',
        decreases s@.len() - i,
    {
        if s[i] > '\u{7f}' {
            return false;
        }
        i += 1;
    }
    true
}

/// Computes `normalized` of a line given as characters.
pub fn normalize(line: &[char]) -> (r: Vec<char>)
    ensures
        r@ == normalized(line@),
{
    let (a, b) = trim_bounds(line, 0, line.len(), true, true);
    assert(line@.subrange(0, line@.len() as int) == line@);
    let mut trimmed: Vec<char> = Vec::new();
    let mut i = a;
    while i < b
        invariant
            a <= i <= b <= line@.len(),
            trimmed@ == line@.subrange(a as int, i as int),
        decreases b - i,
    {
        trimmed.push(line[i]);
        i += 1;
    }
    let compat: Vec<char> = if is_all_ascii(&trimmed) {
        trimmed
    } else {
        let s = string_of(&trimmed);
        let n = nfkc(s.as_str());
        chars_of(n.as_str())
    };
    let mut out: Vec<char> = Vec::new();
    let mut j: usize = 0;
    while j < compat.len()
        invariant
            j <= compat@.len(),
            out@ == compat@.subrange(0, j as int).map_values(|c: char| fold_char(c)),
        decreases compat@.len() - j,
    {
        out.push(normalize_character(compat[j]));
        j += 1;
        assert(compat@.subrange(0, j as int).map_values(|c: char| fold_char(c)) =~= out@);
    }
    assert(compat@.subrange(0, compat@.len() as int) == compat@);
    out
}

/// Computes `squeeze_spaces`.
pub fn squeeze(s: &[char]) -> (r: Vec<char>)
    ensures
        r@ == squeeze_spaces(s@),
{
    let mut out: Vec<char> = Vec::new();
    let mut i: usize = 0;
    while i < s.len()
        invariant
            i <= s@.len(),
            out@ == squeeze_spaces(s@.subrange(0, i as int)),
        decreases s@.len() - i,
    {
        let ghost pre = s@.subrange(0, i as int);
        let ghost next = s@.subrange(0, i + 1);
        assert(next.drop_last() == pre);
        if !(s[i] == ' ' && i >= 1 && s[i - 1] == ' ') {
            out.push(s[i]);
        }
        i += 1;
    }
    assert(s@.subrange(0, s@.len() as int) == s@);
    out
}

/// Computes `collapsed` of a line.
pub fn collapse_spaces(line: &[char]) -> (r: Vec<char>)
    ensures
        r@ == collapsed(line@),
{
    let n = normalize(line);
    squeeze(&n)
}

} // verus!

verus! {

/// `y` is `x`, or its ASCII spelling when `x` is a typographic dash
/// (U+2010..U+2015, U+2212: '-'), single quote (U+2018..U+201B: '\''),
/// double quote (U+201C..U+201F: '"') or space (U+00A0, U+2002..U+200A,
/// U+202F, U+205F, U+3000: ' ').
pub open spec fn ascii_spelling(x: char, y: char) -> bool {
    ||| x == y
    ||| y == '-' && ('\u{2010}' <= x <= '\u{2015}' || x == '\u{2212}')
    ||| y == '\'' && '\u{2018}' <= x <= '\u{201B}'
    ||| y == '"' && '\u{201C}' <= x <= '\u{201F}'
    ||| y == ' ' && (x == '\u{00A0}' || '\u{2002}' <= x <= '\u{200A}' || x == '\u{202F}' || x
        == '\u{205F}' || x == '\u{3000}')
}

/// `y` spells `x` character by character (see `ascii_spelling`).
pub open spec fn ascii_spelled(x: Seq<char>, y: Seq<char>) -> bool {
    &&& x.len() == y.len()
    &&& forall|k: int| 0 <= k < x.len() ==> ascii_spelling(#[trigger] x[k], y[k])
}

/// Typographic punctuation and its ASCII spelling fold alike: texts that
/// differ only by writing typographic dashes, quotes and spaces in ASCII
/// have the same folded form.
pub proof fn law_ascii_spellings_fold_alike(x: Seq<char>, y: Seq<char>)
    requires
        ascii_spelled(x, y),
    ensures
        x.map_values(|c: char| fold_char(c)) == y.map_values(|c: char| fold_char(c)),
{
    assert forall|k: int| 0 <= k < x.len() implies fold_char(x[k]) == fold_char(y[k]) by {
        assert(ascii_spelling(x[k], y[k]));
    }
    assert(x.map_values(|c: char| fold_char(c)) =~= y.map_values(|c: char| fold_char(c)));
}

/// A line whose compatibility form is itself and its ASCII spelling have
/// the same normalized key.
pub proof fn lemma_ascii_spelling_normalizes_alike(line: Seq<char>, spelled: Seq<char>)
    requires
        nfkc_form(trim(line)) == trim(line),
        all_ascii(spelled),
        ascii_spelled(trim(line), trim(spelled)),
    ensures
        normalized(line) == normalized(spelled),
{
    law_ascii_spellings_fold_alike(trim(line), trim(spelled));
    let l = crate::text::lead_ws(spelled);
    crate::text::lemma_lead_ws_bound(spelled);
    let ts = spelled.skip(l as int);
    crate::text::lemma_trail_ws_bound(ts);
    assert(all_ascii(trim(spelled))) by {
        assert forall|i: int| 0 <= i < trim(spelled).len() implies (#[trigger] trim(spelled)[i]) <= '\u{7f}' by {
            assert(trim(spelled)[i] == ts[i]);
            assert(ts[i] == spelled[l + i]);
        }
    }
    assert(compat_form(trim(line)) == trim(line));
    assert(compat_form(trim(spelled)) == trim(spelled));
}

} // verus!
