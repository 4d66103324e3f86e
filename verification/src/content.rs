//! Deriving a file's new contents from update chunks.
//!
//! Every chunk is located in the original lines (after its optional `@@`
//! context line).  A chunk whose old lines are found becomes a forward
//! edit; a chunk whose new lines are already present is recognised as
//! already applied and becomes a reverse edit, which reconstructs the
//! contents the patch was written against.  Forward edits give the new
//! contents, reverse edits the "before" contents.

use crate::parser::{chunk_lines_slice, chunks_view, ChunkView, UpdateChunk};

use crate::seek_sequence::{
    closest_spec, lemma_seek_in_range, lemma_tier_find_in_range, seek_spec, tier_find,
    LineSearchIndex, MatchMode, SequenceMatch,
};
use crate::text::{
    char_lines, chars_equal, chars_of, join_lines, lines_of, lines_view_of, push_joined_line,
    render_lines, split_lines, string_of, strings_view,
};
use vstd::prelude::*;

verus! {

/// A replacement of `old_length` lines at `start` by `lines`.
pub struct Edit {
    pub start: int,
    pub old_length: int,
    pub lines: Seq<Seq<char>>,
}

/// Executable form of an `Edit`.
pub struct Replacement {
    pub start: usize,
    pub old_length: usize,
    pub lines: Vec<Vec<char>>,
}

impl Replacement {
    pub open spec fn view(&self) -> Edit {
        Edit { start: self.start as int, old_length: self.old_length as int, lines: lines_view_of(self.lines@) }
    }
}

pub open spec fn edits_view(r: Seq<Replacement>) -> Seq<Edit> {
    r.map_values(|x: Replacement| x.view())
}

pub open spec fn min_int(a: int, b: int) -> int {
    if a <= b {
        a
    } else {
        b
    }
}

/// Edits start in order, each at or after the end of the previous one,
/// and within the `n` lines.
pub open spec fn edits_ordered(n: int, edits: Seq<Edit>, from: int) -> bool
    decreases edits.len(),
{
    edits.len() == 0 || {
        let e = edits[0];
        &&& from <= e.start <= n
        &&& 0 <= e.old_length
        &&& e.start + e.old_length <= usize::MAX
        &&& edits_ordered(n, edits.drop_first(), min_int(e.start + e.old_length, n))
    }
}

/// The lines from `from` on with the edits applied.
pub open spec fn spliced(lines: Seq<Seq<char>>, edits: Seq<Edit>, from: int) -> Seq<Seq<char>>
    decreases edits.len(),
{
    if edits.len() == 0 {
        lines.subrange(from, lines.len() as int)
    } else {
        let e = edits[0];
        lines.subrange(from, e.start) + e.lines + spliced(
            lines,
            edits.drop_first(),
            min_int(e.start + e.old_length, lines.len() as int),
        )
    }
}

/// Appends `src[a..b]` to a text being joined; returns whether any line is
/// written and whether the last written line is empty.
fn append_lines(
    out: &mut Vec<char>,
    Ghost(written): Ghost<Seq<Seq<char>>>,
    any: bool,
    last_empty: bool,
    src: &[Vec<char>],
    a: usize,
    b: usize,
) -> (r: (bool, bool))
    requires
        old(out)@ == join_lines(written),
        any == (written.len() > 0),
        any ==> last_empty == (written.last().len() == 0),
        a <= b <= src@.len(),
    ensures
        ({
            let w2 = written + lines_view_of(src@).subrange(a as int, b as int);
            &&& final(out)@ == join_lines(w2)
            &&& r.0 == (w2.len() > 0)
            &&& r.0 ==> r.1 == (w2.last().len() == 0)
        }),
{
    let ghost sv = lines_view_of(src@);
    let ghost mut w = written;
    let mut any = any;
    let mut last_empty = last_empty;
    let mut k = a;
    while k < b
        invariant
            a <= k <= b <= src@.len(),
            sv == lines_view_of(src@),
            w == written + sv.subrange(a as int, k as int),
            out@ == join_lines(w),
            any == (w.len() > 0),
            any ==> last_empty == (w.last().len() == 0),
        decreases b - k,
    {
        push_joined_line(out, Ghost(w), any, &src[k]);
        proof {
            w = w.push(sv[k as int]);
            assert(written + sv.subrange(a as int, k + 1) =~= w);
        }
        any = true;
        last_empty = src[k].len() == 0;
        k += 1;
    }
    (any, last_empty)
}

/// Applies ordered replacements to lines and renders the text (see
/// `spliced` and `render_lines`).
pub fn apply_replacements(lines: &[Vec<char>], replacements: &[Replacement]) -> (r: String)
    requires
        edits_ordered(lines@.len() as int, edits_view(replacements@), 0),
    ensures
        r@ == render_lines(spliced(lines_view_of(lines@), edits_view(replacements@), 0)),
{
    let ghost lv = lines_view_of(lines@);
    let ghost ev = edits_view(replacements@);
    let n = lines.len();
    let mut out: Vec<char> = Vec::new();
    let ghost mut written: Seq<Seq<char>> = seq![];
    let mut any = false;
    let mut last_empty = false;
    let mut source: usize = 0;
    let mut i: usize = 0;
    assert(ev.skip(0) =~= ev);
    assert(written + spliced(lv, ev.skip(0), 0) =~= spliced(lv, ev, 0));
    while i < replacements.len()
        invariant
            i <= replacements@.len(),
            n == lines@.len(),
            lv == lines_view_of(lines@),
            ev == edits_view(replacements@),
            lv.len() == n,
            source <= n,
            edits_ordered(n as int, ev.skip(i as int), source as int),
            spliced(lv, ev, 0) == written + spliced(lv, ev.skip(i as int), source as int),
            out@ == join_lines(written),
            any == (written.len() > 0),
            any ==> last_empty == (written.last().len() == 0),
        decreases replacements@.len() - i,
    {
        let r = &replacements[i];
        let ghost rest = ev.skip(i as int);
        assert(rest[0] == r.view());
        assert(rest.drop_first() == ev.skip(i + 1));
        let (a1, l1) = append_lines(&mut out, Ghost(written), any, last_empty, lines, source, r.start);
        proof {
            written = written + lv.subrange(source as int, r.start as int);
        }
        let (a2, l2) = append_lines(&mut out, Ghost(written), a1, l1, &r.lines, 0, r.lines.len());
        proof {
            assert(lines_view_of(r.lines@).subrange(0, r.lines@.len() as int) == lines_view_of(r.lines@));
            written = written + lines_view_of(r.lines@);
        }
        any = a2;
        last_empty = l2;
        let next = r.start + r.old_length;
        source = if next < n {
            next
        } else {
            n
        };
        i += 1;
    }
    let (a3, l3) = append_lines(&mut out, Ghost(written), any, last_empty, lines, source, n);
    proof {
        written = written + lv.subrange(source as int, n as int);
        assert(ev.skip(i as int).len() == 0);
    }
    if a3 && !l3 {
        out.push('\n');
    }
    string_of(&out)
}

} // verus!

verus! {

/// The line index at which text is appended: before a final empty line.
pub open spec fn logical_end(lines: Seq<Seq<char>>) -> int {
    if lines.len() > 0 && lines.last().len() == 0 {
        lines.len() - 1
    } else {
        lines.len() as int
    }
}

/// A chunk whose old lines end with an empty line may also be tried
/// without it (and without a final empty new line).
pub open spec fn without_trailing_empty(old: Seq<Seq<char>>, new: Seq<Seq<char>>) -> (Seq<
    Seq<char>,
>, Seq<Seq<char>>) {
    if old.len() == 0 || old.last().len() != 0 {
        (old, new)
    } else {
        (old.drop_last(), if new.len() > 0 && new.last().len() == 0 {
            new.drop_last()
        } else {
            new
        })
    }
}

/// `l` without trailing carriage returns.
pub open spec fn trim_cr(l: Seq<char>) -> Seq<char>
    decreases l.len(),
{
    if l.len() > 0 && l.last() == '\r' {
        trim_cr(l.drop_last())
    } else {
        l
    }
}

/// Length of the run of backticks that ends `s`.
pub open spec fn backticks_at_end(s: Seq<char>) -> nat
    decreases s.len(),
{
    if s.len() > 0 && s.last() == '`' {
        1 + backticks_at_end(s.drop_last())
    } else {
        0
    }
}

/// Length of the longest run of backticks in `s`.
pub open spec fn longest_backtick_run(s: Seq<char>) -> nat
    decreases s.len(),
{
    if s.len() == 0 {
        0
    } else {
        let a = longest_backtick_run(s.drop_last());
        let b = backticks_at_end(s);
        if a >= b {
            a
        } else {
            b
        }
    }
}

/// A Markdown code fence longer than any backtick run in `s` (at least 3;
/// a length that cannot be held in memory is capped at `usize::MAX`).
pub open spec fn fence_for(s: Seq<char>) -> Seq<char> {
    let n = if longest_backtick_run(s) + 1 >= 3 {
        min_int(longest_backtick_run(s) + 1int, usize::MAX as int)
    } else {
        3
    };
    Seq::new(n as nat, |_i: int| '`')
}

/// `message`, then the closest match in a fenced block.
pub open spec fn closest_message(message: Seq<char>, fragment: Seq<char>) -> Seq<char> {
    message + ". Closest match:\n"@ + fence_for(fragment) + seq!['\n'] + fragment + seq!['\n']
        + fence_for(fragment)
}

/// The matched lines, without trailing carriage returns, '\n'-joined.
pub open spec fn fragment_of(lines: Seq<Seq<char>>, m: SequenceMatch) -> Seq<char> {
    join_lines(
        lines.subrange(m.start as int, m.start + m.length).map_values(|l: Seq<char>| trim_cr(l)),
    )
}

/// A failure message, with the closest match when there is one.
pub open spec fn failure_reason(
    message: Seq<char>,
    lines: Seq<Seq<char>>,
    pattern: Seq<Seq<char>>,
) -> Seq<char> {
    match closest_spec(lines, pattern) {
        Some(m) => closest_message(message, fragment_of(lines, m)),
        None => message,
    }
}

/// Formats `message` with a fenced closest match (see `closest_message`).
pub fn format_closest_match(message: &str, fragment: &[char]) -> (r: String)
    ensures
        r@ == closest_message(message@, fragment@),
{
    let mut longest: usize = 0;
    let mut run: usize = 0;
    let mut i: usize = 0;
    while i < fragment.len()
        invariant
            i <= fragment@.len(),
            run == backticks_at_end(fragment@.subrange(0, i as int)),
            longest == longest_backtick_run(fragment@.subrange(0, i as int)),
            run <= i,
            longest <= i,
        decreases fragment@.len() - i,
    {
        assert(fragment@.subrange(0, i + 1).drop_last() == fragment@.subrange(0, i as int));
        if fragment[i] == '`' {
            run += 1;
        } else {
            run = 0;
        }
        if run > longest {
            longest = run;
        }
        i += 1;
    }
    assert(fragment@.subrange(0, fragment@.len() as int) == fragment@);
    let fence_length = if longest == usize::MAX {
        usize::MAX
    } else if longest + 1 >= 3 {
        longest + 1
    } else {
        3
    };
    let mut fence: Vec<char> = Vec::new();
    let mut k: usize = 0;
    while k < fence_length
        invariant
            k <= fence_length,
            fence@ == Seq::new(k as nat, |_i: int| '`'),
        decreases fence_length - k,
    {
        fence.push('`');
        k += 1;
        assert(fence@ =~= Seq::new(k as nat, |_i: int| '`'));
    }
    assert(fence@ == fence_for(fragment@));
    let mut out: Vec<char> = chars_of(message);
    let ghost m0 = out@;
    let tail = chars_of(". Closest match:\n");
    push_all(&mut out, &tail);
    push_all(&mut out, &fence);
    out.push('\n');
    push_all(&mut out, fragment);
    out.push('\n');
    push_all(&mut out, &fence);
    assert(out@ =~= closest_message(message@, fragment@));
    string_of(&out)
}

/// Appends all of `s`.
pub fn push_all(out: &mut Vec<char>, s: &[char])
    ensures
        final(out)@ == old(out)@ + s@,
{
    let ghost base = out@;
    let mut i: usize = 0;
    while i < s.len()
        invariant
            i <= s@.len(),
            out@ == base + s@.subrange(0, i as int),
        decreases s@.len() - i,
    {
        out.push(s[i]);
        i += 1;
    }
    assert(s@.subrange(0, s@.len() as int) == s@);
}

/// `l` without trailing carriage returns.
fn trim_cr_of(l: &[char]) -> (r: Vec<char>)
    ensures
        r@ == trim_cr(l@),
{
    let mut n = l.len();
    assert(l@.subrange(0, n as int) == l@);
    while n > 0 && l[n - 1] == '\r'
        invariant
            n <= l@.len(),
            trim_cr(l@) == trim_cr(l@.subrange(0, n as int)),
        decreases n,
    {
        assert(l@.subrange(0, n as int).drop_last() == l@.subrange(0, n - 1));
        n -= 1;
    }
    assert(l@.subrange(0, n as int) == l@.subrange(0, n as int));
    crate::text::copy_range(l, 0, n)
}

/// The failure message for a block that could not be found (see
/// `failure_reason`).
pub fn match_failure_reason(
    message: &str,
    lines: &[Vec<char>],
    index: &LineSearchIndex,
    pattern: &[Vec<char>],
) -> (r: String)
    requires
        index.lines() == lines_view_of(lines@),
    ensures
        r@ == failure_reason(message@, lines_view_of(lines@), lines_view_of(pattern@)),
{
    let ghost lv = lines_view_of(lines@);
    match index.closest(pattern) {
        None => string_of(&chars_of(message)),
        Some(m) => {
            proof {
                crate::seek_sequence::lemma_closest_in_range(lv, lines_view_of(pattern@));
            }
            let _n = lines.len();
            let end = m.start + m.length;
            let ghost sel = lv.subrange(m.start as int, end as int).map_values(
                |l: Seq<char>| trim_cr(l),
            );
            let mut out: Vec<char> = Vec::new();
            let mut any = false;
            let mut k = m.start;
            while k < end
                invariant
                    m.start <= k <= end <= lines@.len(),
                    lv == lines_view_of(lines@),
                    sel == lv.subrange(m.start as int, end as int).map_values(
                        |l: Seq<char>| trim_cr(l),
                    ),
                    out@ == join_lines(sel.subrange(0, k - m.start)),
                    any == (k > m.start),
                decreases end - k,
            {
                let t = trim_cr_of(&lines[k]);
                assert(sel[k - m.start] == t@);
                push_joined_line(&mut out, Ghost(sel.subrange(0, k - m.start)), any, &t);
                assert(sel.subrange(0, k - m.start).push(t@) =~= sel.subrange(0, k + 1 - m.start));
                any = true;
                k += 1;
            }
            assert(sel.subrange(0, end - m.start) =~= sel);
            format_closest_match(message, &out)
        },
    }
}

/// How the chunks of an update are planned.
#[derive(Debug, Clone, Copy, PartialEq, Eq, Structural)]
pub enum Planning {
    /// Each chunk's old lines are searched (tolerantly) and replaced, and
    /// insertions go to the end of the file; a chunk that cannot be
    /// located is reported with its old lines.
    Direct,
    /// As `Direct`, but a chunk whose new lines are already in the file is
    /// taken as applied (its old lines go back into the "before" contents),
    /// exact matches are preferred, and a chunk that cannot be located is
    /// reported with the closest match in the file, when one is close
    /// enough.
    Reconciling,
}

/// `message`, a colon, then the searched lines on lines of their own.
pub open spec fn searched_reason(message: Seq<char>, searched: Seq<Seq<char>>) -> Seq<char> {
    message + ":\n"@ + join_lines(searched)
}

/// Why the context line `c` of a chunk was not found.
pub open spec fn context_reason(planning: Planning, lines: Seq<Seq<char>>, c: Seq<char>) -> Seq<char> {
    match planning {
        Planning::Direct => "Failed to find context '"@ + c + "'"@,
        Planning::Reconciling => failure_reason("Failed to find context"@, lines, seq![c]),
    }
}

/// Formats `searched_reason`.
fn searched_lines_reason(message: &str, searched: &[Vec<char>]) -> (r: String)
    ensures
        r@ == searched_reason(message@, lines_view_of(searched@)),
{
    let ghost sv = lines_view_of(searched@);
    let mut joined: Vec<char> = Vec::new();
    let mut i: usize = 0;
    while i < searched.len()
        invariant
            i <= searched@.len(),
            sv == lines_view_of(searched@),
            joined@ == join_lines(sv.subrange(0, i as int)),
        decreases searched@.len() - i,
    {
        assert(sv.subrange(0, i as int).push(searched@[i as int]@) =~= sv.subrange(0, i + 1));
        push_joined_line(&mut joined, Ghost(sv.subrange(0, i as int)), i > 0, &searched[i]);
        i += 1;
    }
    assert(sv.subrange(0, searched@.len() as int) =~= sv);
    let mut out = chars_of(message);
    push_all(&mut out, &chars_of(":\n"));
    push_all(&mut out, &joined);
    string_of(&out)
}

/// The failure message of a chunk whose context line `c` was not found
/// (see `context_reason`); `pattern` is that one line.
fn context_failure(
    planning: Planning,
    lines: &[Vec<char>],
    index: &LineSearchIndex,
    c: &[char],
    pattern: &[Vec<char>],
) -> (r: String)
    requires
        index.lines() == lines_view_of(lines@),
        lines_view_of(pattern@) == seq![c@],
    ensures
        r@ == context_reason(planning, lines_view_of(lines@), c@),
{
    match planning {
        Planning::Direct => {
            let mut out = chars_of("Failed to find context '");
            push_all(&mut out, c);
            push_all(&mut out, &chars_of("'"));
            string_of(&out)
        },
        Planning::Reconciling => match_failure_reason("Failed to find context", lines, index, pattern),
    }
}

} // verus!

verus! {

/// Character form of an update chunk.
pub struct ChunkChars {
    pub context: Option<Vec<char>>,
    pub old: Vec<Vec<char>>,
    pub new: Vec<Vec<char>>,
    pub eof: bool,
}

impl ChunkChars {
    pub open spec fn view(&self) -> ChunkView {
        ChunkView {
            context: match self.context {
                Some(c) => Some(c@),
                None => None,
            },
            old: lines_view_of(self.old@),
            new: lines_view_of(self.new@),
            eof: self.eof,
        }
    }
}

pub open spec fn chunk_chars_view(c: Seq<ChunkChars>) -> Seq<ChunkView> {
    c.map_values(|x: ChunkChars| x.view())
}

/// The character form of each chunk.
pub fn prepare_chunks(chunks: &[UpdateChunk]) -> (r: Vec<ChunkChars>)
    ensures
        chunk_chars_view(r@) == chunks_view(chunks@),
{
    let mut out: Vec<ChunkChars> = Vec::new();
    let mut i: usize = 0;
    while i < chunks.len()
        invariant
            i <= chunks@.len(),
            chunk_chars_view(out@) == chunks_view(chunks@.subrange(0, i as int)),
        decreases chunks@.len() - i,
    {
        let c = &chunks[i];
        let context = match &c.change_context {
            Some(s) => Some(chars_of(s.as_str())),
            None => None,
        };
        let cc = ChunkChars {
            context,
            old: char_lines(chunk_lines_slice(&c.old_lines)),
            new: char_lines(chunk_lines_slice(&c.new_lines)),
            eof: c.is_end_of_file,
        };
        assert(cc.view() == chunks@[i as int].view());
        let ghost prev = out@;
        out.push(cc);
        assert(chunk_chars_view(out@) =~= chunk_chars_view(prev).push(cc.view()));
        assert(chunks@.subrange(0, i + 1).drop_last() =~= chunks@.subrange(0, i as int));
        assert(chunks_view(chunks@.subrange(0, i + 1)) =~= chunks_view(chunks@.subrange(0, i as int)).push(
            chunks@[i as int].view(),
        ));
        i += 1;
    }
    assert(chunks@.subrange(0, chunks@.len() as int) == chunks@);
    out
}

/// The outcome of locating one chunk.
pub struct SPlan {
    pub forward: Option<Edit>,
    pub reverse: Option<Edit>,
    pub next: int,
}

/// Executable form of `SPlan`.
pub struct ChunkPlan {
    pub forward: Option<Replacement>,
    pub reverse: Option<Replacement>,
    pub next_line_index: usize,
}

impl ChunkPlan {
    pub open spec fn view(&self) -> SPlan {
        SPlan {
            forward: match self.forward {
                Some(r) => Some(r.view()),
                None => None,
            },
            reverse: match self.reverse {
                Some(r) => Some(r.view()),
                None => None,
            },
            next: self.next_line_index as int,
        }
    }
}

pub open spec fn plan_result_view(r: Result<ChunkPlan, String>) -> Result<SPlan, Seq<char>> {
    match r {
        Ok(p) => Ok(p.view()),
        Err(e) => Err(e@),
    }
}

/// The found block is replaced by `new`.
pub open spec fn forward_of(m: SequenceMatch, new: Seq<Seq<char>>) -> SPlan {
    SPlan {
        forward: Some(Edit { start: m.start as int, old_length: m.length as int, lines: new }),
        reverse: None,
        next: m.start + m.length,
    }
}

/// The block was already replaced: the "before" contents get `old` back.
pub open spec fn reverse_of(m: SequenceMatch, old: Seq<Seq<char>>) -> SPlan {
    SPlan {
        forward: None,
        reverse: Some(Edit { start: m.start as int, old_length: m.length as int, lines: old }),
        next: m.start + m.length,
    }
}

/// Number of leading chunks without old lines (a run of insertions).
pub open spec fn insertion_run_length(chunks: Seq<ChunkView>) -> nat
    decreases chunks.len(),
{
    if chunks.len() > 0 && chunks[0].old.len() == 0 {
        1 + insertion_run_length(chunks.drop_first())
    } else {
        0
    }
}

/// The new lines of chunks, concatenated.
pub open spec fn run_lines(run: Seq<ChunkView>) -> Seq<Seq<char>>
    decreases run.len(),
{
    if run.len() == 0 {
        seq![]
    } else {
        run_lines(run.drop_last()) + run.last().new
    }
}

/// Planning a chunk without old lines: its new lines are appended at the
/// logical end, unless the whole run of insertions it starts is already
/// there (at or after `line_index`), in which case it is already applied.
pub open spec fn insertion_plan(
    lines: Seq<Seq<char>>,
    chunks: Seq<ChunkView>,
    i: int,
    line_index: int,
) -> Result<SPlan, Seq<char>> {
    let chunk = chunks[i];
    let ins = logical_end(lines);
    let run = chunks.subrange(i, i + insertion_run_length(chunks.skip(i)));
    let added = run_lines(run);
    if added.len() > usize::MAX {
        Err("inserted line count overflowed"@)
    } else {
        let start = ins - added.len();
        if start >= 0 && start >= line_index && lines.subrange(start, ins) == added {
            Ok(
                SPlan {
                    forward: None,
                    reverse: Some(Edit { start, old_length: chunk.new.len() as int, lines: chunk.old }),
                    next: start + chunk.new.len(),
                },
            )
        } else {
            Ok(
                SPlan {
                    forward: Some(Edit { start: ins, old_length: 0, lines: chunk.new }),
                    reverse: None,
                    next: ins,
                },
            )
        }
    }
}

/// The new lines of a chunk without old lines, appended at the logical
/// end of the file.
pub open spec fn append_plan(lines: Seq<Seq<char>>, new: Seq<Seq<char>>) -> SPlan {
    SPlan {
        forward: Some(Edit { start: logical_end(lines), old_length: 0, lines: new }),
        reverse: None,
        next: logical_end(lines),
    }
}

/// Planning a chunk with old lines, searched from line `s`.
pub open spec fn update_plan(lines: Seq<Seq<char>>, chunk: ChunkView, s: int, planning: Planning) -> Result<
    SPlan,
    Seq<char>,
> {
    match planning {
        Planning::Direct => direct_update_plan(lines, chunk, s),
        Planning::Reconciling => reconciling_update_plan(lines, chunk, s),
    }
}

/// Direct planning of a chunk with old lines, searched from line `s`: the
/// tolerant search of the old lines, then of the old lines without a
/// trailing empty line; a chunk found by neither is reported with its old
/// lines.
pub open spec fn direct_update_plan(lines: Seq<Seq<char>>, chunk: ChunkView, s: int) -> Result<
    SPlan,
    Seq<char>,
> {
    let old = chunk.old;
    let (fo, fnw) = without_trailing_empty(old, chunk.new);
    if seek_spec(lines, old, s, chunk.eof) is Some {
        Ok(forward_of(seek_spec(lines, old, s, chunk.eof)->0, chunk.new))
    } else if fo.len() != old.len() && seek_spec(lines, fo, s, chunk.eof) is Some {
        Ok(forward_of(seek_spec(lines, fo, s, chunk.eof)->0, fnw))
    } else {
        Err(searched_reason("Failed to find expected lines"@, old))
    }
}

/// Reconciling planning of a chunk with old lines, searched from line `s`:
/// exact old lines, exact new lines (already applied), the same two without
/// a trailing empty line, then the tolerant search of the old lines (with
/// and without the trailing empty line); a pure deletion that is not found
/// is taken as already applied.
pub open spec fn reconciling_update_plan(lines: Seq<Seq<char>>, chunk: ChunkView, s: int) -> Result<
    SPlan,
    Seq<char>,
> {
    let old = chunk.old;
    let new = chunk.new;
    let eof = chunk.eof;
    let (fo, fnw) = without_trailing_empty(old, new);
    if tier_find(MatchMode::Exact, lines, old, s, eof) is Some {
        Ok(forward_of(tier_find(MatchMode::Exact, lines, old, s, eof)->0, new))
    } else if new.len() != 0 && tier_find(MatchMode::Exact, lines, new, s, eof) is Some {
        Ok(reverse_of(tier_find(MatchMode::Exact, lines, new, s, eof)->0, old))
    } else if fo.len() != old.len() && tier_find(MatchMode::Exact, lines, fo, s, eof) is Some {
        Ok(forward_of(tier_find(MatchMode::Exact, lines, fo, s, eof)->0, fnw))
    } else if fo.len() != old.len() && fnw.len() != 0 && tier_find(
        MatchMode::Exact,
        lines,
        fnw,
        s,
        eof,
    ) is Some {
        Ok(reverse_of(tier_find(MatchMode::Exact, lines, fnw, s, eof)->0, fo))
    } else if seek_spec(lines, old, s, eof) is Some {
        Ok(forward_of(seek_spec(lines, old, s, eof)->0, new))
    } else if fo.len() != old.len() && seek_spec(lines, fo, s, eof) is Some {
        Ok(forward_of(seek_spec(lines, fo, s, eof)->0, fnw))
    } else if fnw.len() == 0 {
        let ins = if eof {
            logical_end(lines)
        } else {
            s
        };
        Ok(
            SPlan {
                forward: None,
                reverse: Some(Edit { start: ins, old_length: 0, lines: fo }),
                next: ins,
            },
        )
    } else {
        Err(failure_reason("Failed to find expected lines"@, lines, fo))
    }
}

/// Planning chunk `i`: its context line, when present, is searched first
/// (from `line_index`) and the chunk is searched after it.
pub open spec fn plan_chunk_spec(
    lines: Seq<Seq<char>>,
    chunks: Seq<ChunkView>,
    i: int,
    line_index: int,
    planning: Planning,
) -> Result<SPlan, Seq<char>> {
    let chunk = chunks[i];
    let start = match chunk.context {
        Some(c) => match seek_spec(lines, seq![c], line_index, false) {
            Some(m) => Ok(m.start + m.length),
            None => Err(context_reason(planning, lines, c)),
        },
        None => Ok(line_index),
    };
    match start {
        Err(e) => Err(e),
        Ok(s) => if chunk.old.len() == 0 {
            match planning {
                Planning::Direct => Ok(append_plan(lines, chunk.new)),
                Planning::Reconciling => insertion_plan(lines, chunks, i, s),
            }
        } else {
            update_plan(lines, chunk, s, planning)
        },
    }
}

/// Computes `logical_end`.
pub fn logical_end_of(lines: &[Vec<char>]) -> (r: usize)
    ensures
        r == logical_end(lines_view_of(lines@)),
{
    if lines.len() > 0 && lines[lines.len() - 1].len() == 0 {
        lines.len() - 1
    } else {
        lines.len()
    }
}

/// Computes `without_trailing_empty`.
fn without_trailing_empty_of(old: &[Vec<char>], new: &[Vec<char>]) -> (r: (Vec<Vec<char>>, Vec<
    Vec<char>,
>))
    ensures
        (lines_view_of(r.0@), lines_view_of(r.1@)) == without_trailing_empty(
            lines_view_of(old@),
            lines_view_of(new@),
        ),
{
    let a = copy_lines(old, 0, old.len());
    let b = copy_lines(new, 0, new.len());
    assert(lines_view_of(old@).subrange(0, old@.len() as int) == lines_view_of(old@));
    assert(lines_view_of(new@).subrange(0, new@.len() as int) == lines_view_of(new@));
    if old.len() == 0 || old[old.len() - 1].len() != 0 {
        return (a, b);
    }
    let a2 = copy_lines(old, 0, old.len() - 1);
    assert(lines_view_of(old@).subrange(0, old@.len() - 1) == lines_view_of(old@).drop_last());
    if new.len() > 0 && new[new.len() - 1].len() == 0 {
        let b2 = copy_lines(new, 0, new.len() - 1);
        assert(lines_view_of(new@).subrange(0, new@.len() - 1) == lines_view_of(new@).drop_last());
        (a2, b2)
    } else {
        (a2, b)
    }
}

/// A copy of `lines[a..b]`.
pub fn copy_lines(lines: &[Vec<char>], a: usize, b: usize) -> (r: Vec<Vec<char>>)
    requires
        a <= b <= lines@.len(),
    ensures
        lines_view_of(r@) == lines_view_of(lines@).subrange(a as int, b as int),
{
    let mut out: Vec<Vec<char>> = Vec::new();
    let mut i = a;
    while i < b
        invariant
            a <= i <= b <= lines@.len(),
            lines_view_of(out@) == lines_view_of(lines@).subrange(a as int, i as int),
        decreases b - i,
    {
        let l = crate::text::copy_range(&lines[i], 0, lines[i].len());
        assert(lines@[i as int]@.subrange(0, lines@[i as int]@.len() as int) == lines@[i as int]@);
        let ghost prev = out@;
        out.push(l);
        assert(lines_view_of(out@) =~= lines_view_of(prev).push(l@));
        assert(lines_view_of(lines@).subrange(a as int, i + 1) =~= lines_view_of(lines@).subrange(
            a as int,
            i as int,
        ).push(lines_view_of(lines@)[i as int]));
        i += 1;
    }
    out
}

} // verus!

verus! {

pub proof fn lemma_run_length_bound(s: Seq<ChunkView>)
    ensures
        insertion_run_length(s) <= s.len(),
    decreases s.len(),
{
    if s.len() > 0 && s[0].old.len() == 0 {
        lemma_run_length_bound(s.drop_first());
    }
}

pub proof fn lemma_run_lines_monotone(s: Seq<ChunkView>, i: int, j: int, k: int)
    requires
        0 <= i <= j <= k <= s.len(),
    ensures
        run_lines(s.subrange(i, j)).len() <= run_lines(s.subrange(i, k)).len(),
    decreases k - j,
{
    if j < k {
        lemma_run_lines_monotone(s, i, j, k - 1);
        assert(s.subrange(i, k).drop_last() =~= s.subrange(i, k - 1));
    }
}

/// `lines[start..start + other.len()] == other`.
fn lines_match_at(lines: &[Vec<char>], start: usize, other: &[Vec<char>]) -> (r: bool)
    requires
        start + other@.len() <= lines@.len(),
    ensures
        r == (lines_view_of(lines@).subrange(start as int, start + other@.len()) == lines_view_of(
            other@,
        )),
{
    let ghost lv = lines_view_of(lines@);
    let ghost ov = lines_view_of(other@);
    let total = lines.len();
    let mut k: usize = 0;
    while k < other.len()
        invariant
            total == lines@.len(),
            k <= other@.len(),
            start + other@.len() <= lines@.len(),
            lv == lines_view_of(lines@),
            ov == lines_view_of(other@),
            forall|x: int| 0 <= x < k ==> lv[start + x] == ov[x],
        decreases other@.len() - k,
    {
        if !chars_equal(&lines[start + k], &other[k]) {
            assert(lv.subrange(start as int, start + other@.len())[k as int] != ov[k as int]);
            return false;
        }
        k += 1;
    }
    assert(lv.subrange(start as int, start + other@.len()) =~= ov);
    true
}

fn literal(s: &str) -> (r: String)
    ensures
        r@ == s@,
{
    string_of(&chars_of(s))
}

/// Plans a chunk without old lines (see `insertion_plan`).
fn plan_insertion(lines: &[Vec<char>], chunks: &[ChunkChars], i: usize, line_index: usize) -> (r:
    Result<ChunkPlan, String>)
    requires
        i < chunks@.len(),
        chunks@[i as int].old@.len() == 0,
    ensures
        plan_result_view(r) == insertion_plan(
            lines_view_of(lines@),
            chunk_chars_view(chunks@),
            i as int,
            line_index as int,
        ),
{
    let ghost cv = chunk_chars_view(chunks@);
    let ghost lv = lines_view_of(lines@);
    let ins = logical_end_of(lines);
    let mut j = i;
    let mut count: usize = 0;
    assert(cv.subrange(i as int, i as int).len() == 0);
    while j < chunks.len() && chunks[j].old.len() == 0
        invariant
            i <= j <= chunks@.len(),
            cv == chunk_chars_view(chunks@),
            count == run_lines(cv.subrange(i as int, j as int)).len(),
            insertion_run_length(cv.skip(i as int)) == (j - i) + insertion_run_length(
                cv.skip(j as int),
            ),
        decreases chunks@.len() - j,
    {
        assert(cv.subrange(i as int, j + 1).drop_last() =~= cv.subrange(i as int, j as int));
        assert(cv.skip(j as int).drop_first() =~= cv.skip(j + 1));
        assert(cv[j as int].new.len() == chunks@[j as int].new@.len());
        match count.checked_add(chunks[j].new.len()) {
            Some(c) => {
                count = c;
            },
            None => {
                proof {
                    assert(cv.skip(j as int)[0] == cv[j as int]);
                    let total = i + insertion_run_length(cv.skip(i as int));
                    assert(insertion_run_length(cv.skip(j as int)) >= 1);
                    lemma_run_length_bound(cv.skip(j as int));
                    lemma_run_lines_monotone(cv, i as int, j + 1, total);
                }
                return Err(literal("inserted line count overflowed"));
            },
        }
        j += 1;
    }
    proof {
        if j < chunks@.len() {
            assert(cv.skip(j as int)[0] == cv[j as int]);
        }
        assert(insertion_run_length(cv.skip(j as int)) == 0);
    }
    let chunk = &chunks[i];
    proof {
        assert(cv.subrange(i as int, i + 1).drop_last() =~= cv.subrange(i as int, i as int));
        assert(run_lines(cv.subrange(i as int, i as int)) =~= seq![]);
        assert(run_lines(cv.subrange(i as int, i + 1)) =~= cv[i as int].new);
        lemma_run_lines_monotone(cv, i as int, i + 1, j as int);
    }
    if count <= ins && ins - count >= line_index {
        let start = ins - count;
        let mut added: Vec<Vec<char>> = Vec::new();
        let mut k = i;
        while k < j
            invariant
                i <= k <= j <= chunks@.len(),
                cv == chunk_chars_view(chunks@),
                lines_view_of(added@) == run_lines(cv.subrange(i as int, k as int)),
            decreases j - k,
        {
            let part = copy_lines(&chunks[k].new, 0, chunks[k].new.len());
            assert(lines_view_of(chunks@[k as int].new@).subrange(0, chunks@[k as int].new@.len() as int)
                == cv[k as int].new);
            let ghost prev = added@;
            let mut x: usize = 0;
            while x < part.len()
                invariant
                    x <= part@.len(),
                    lines_view_of(added@) == lines_view_of(prev) + lines_view_of(part@).subrange(0, x as int),
                decreases part@.len() - x,
            {
                let l = crate::text::copy_range(&part[x], 0, part[x].len());
                assert(part@[x as int]@.subrange(0, part@[x as int]@.len() as int) == part@[x as int]@);
                let ghost before = added@;
                added.push(l);
                assert(lines_view_of(added@) =~= lines_view_of(before).push(l@));
                assert(lines_view_of(part@).subrange(0, x + 1) =~= lines_view_of(part@).subrange(0, x as int).push(l@));
                x += 1;
            }
            assert(lines_view_of(part@).subrange(0, part@.len() as int) == lines_view_of(part@));
            assert(cv.subrange(i as int, k + 1).drop_last() =~= cv.subrange(i as int, k as int));
            k += 1;
        }
        proof {
            assert(i + insertion_run_length(cv.skip(i as int)) == j);
            assert(added@.len() == count);
        }
        if lines_match_at(lines, start, &added) {
            let n = chunk.new.len();
            let old_copy = copy_lines(&chunk.old, 0, chunk.old.len());
            assert(lines_view_of(chunk.old@).subrange(0, chunk.old@.len() as int) == lines_view_of(chunk.old@));
            return Ok(
                ChunkPlan {
                    forward: None,
                    reverse: Some(Replacement { start, old_length: n, lines: old_copy }),
                    next_line_index: start + n,
                },
            );
        }
    }
    let new_copy = copy_lines(&chunk.new, 0, chunk.new.len());
    assert(lines_view_of(chunk.new@).subrange(0, chunk.new@.len() as int) == lines_view_of(chunk.new@));
    Ok(
        ChunkPlan {
            forward: Some(Replacement { start: ins, old_length: 0, lines: new_copy }),
            reverse: None,
            next_line_index: ins,
        },
    )
}

} // verus!

verus! {

fn forward_from(m: SequenceMatch, new: &[Vec<char>]) -> (r: ChunkPlan)
    requires
        m.start + m.length <= usize::MAX,
    ensures
        r.view() == forward_of(m, lines_view_of(new@)),
{
    let lines = copy_lines(new, 0, new.len());
    assert(lines_view_of(new@).subrange(0, new@.len() as int) == lines_view_of(new@));
    ChunkPlan {
        forward: Some(Replacement { start: m.start, old_length: m.length, lines }),
        reverse: None,
        next_line_index: m.start + m.length,
    }
}

fn reverse_from(m: SequenceMatch, old: &[Vec<char>]) -> (r: ChunkPlan)
    requires
        m.start + m.length <= usize::MAX,
    ensures
        r.view() == reverse_of(m, lines_view_of(old@)),
{
    let lines = copy_lines(old, 0, old.len());
    assert(lines_view_of(old@).subrange(0, old@.len() as int) == lines_view_of(old@));
    ChunkPlan {
        forward: None,
        reverse: Some(Replacement { start: m.start, old_length: m.length, lines }),
        next_line_index: m.start + m.length,
    }
}

/// Plans a chunk with old lines from line `s` (see `update_plan`).
fn plan_update(
    lines: &[Vec<char>],
    index: &mut LineSearchIndex,
    chunk: &ChunkChars,
    s: usize,
    planning: Planning,
) -> (r: Result<ChunkPlan, String>)
    requires
        old(index).wf(),
        old(index).lines() == lines_view_of(lines@),
    ensures
        final(index).wf(),
        final(index).lines() == old(index).lines(),
        plan_result_view(r) == update_plan(lines_view_of(lines@), chunk.view(), s as int, planning),
{
    match planning {
        Planning::Direct => plan_direct_update(lines, index, chunk, s),
        Planning::Reconciling => plan_reconciling_update(lines, index, chunk, s),
    }
}

/// Plans a chunk with old lines from line `s` (see `direct_update_plan`).
fn plan_direct_update(
    lines: &[Vec<char>],
    index: &mut LineSearchIndex,
    chunk: &ChunkChars,
    s: usize,
) -> (r: Result<ChunkPlan, String>)
    requires
        old(index).wf(),
        old(index).lines() == lines_view_of(lines@),
    ensures
        final(index).wf(),
        final(index).lines() == old(index).lines(),
        plan_result_view(r) == direct_update_plan(lines_view_of(lines@), chunk.view(), s as int),
{
    let ghost lv = lines_view_of(lines@);
    let _n = lines.len();
    let old = &chunk.old;
    let new = &chunk.new;
    let eof = chunk.eof;
    proof {
        lemma_seek_in_range(0, lv, lines_view_of(old@), s as int, eof);
    }
    if let Some(m) = index.seek(old, s, eof) {
        return Ok(forward_from(m, new));
    }
    let (fo, fnw) = without_trailing_empty_of(old, new);
    proof {
        lemma_seek_in_range(0, lv, lines_view_of(fo@), s as int, eof);
    }
    if fo.len() != old.len() {
        if let Some(m) = index.seek(&fo, s, eof) {
            return Ok(forward_from(m, &fnw));
        }
    }
    Err(searched_lines_reason("Failed to find expected lines", old))
}

/// Plans a chunk with old lines from line `s` (see
/// `reconciling_update_plan`).
fn plan_reconciling_update(
    lines: &[Vec<char>],
    index: &mut LineSearchIndex,
    chunk: &ChunkChars,
    s: usize,
) -> (r: Result<ChunkPlan, String>)
    requires
        old(index).wf(),
        old(index).lines() == lines_view_of(lines@),
    ensures
        final(index).wf(),
        final(index).lines() == old(index).lines(),
        plan_result_view(r) == reconciling_update_plan(lines_view_of(lines@), chunk.view(), s as int),
{
    let ghost lv = lines_view_of(lines@);
    let _n = lines.len();
    let old = &chunk.old;
    let new = &chunk.new;
    let eof = chunk.eof;
    proof {
        lemma_tier_find_in_range(MatchMode::Exact, lv, lines_view_of(old@), s as int, eof);
        lemma_tier_find_in_range(MatchMode::Exact, lv, lines_view_of(new@), s as int, eof);
        lemma_seek_in_range(0, lv, lines_view_of(old@), s as int, eof);
    }
    if let Some(m) = index.seek_exact(old, s, eof) {
        return Ok(forward_from(m, new));
    }
    if new.len() != 0 {
        if let Some(m) = index.seek_exact(new, s, eof) {
            return Ok(reverse_from(m, old));
        }
    }
    let (fo, fnw) = without_trailing_empty_of(old, new);
    proof {
        lemma_tier_find_in_range(MatchMode::Exact, lv, lines_view_of(fo@), s as int, eof);
        lemma_tier_find_in_range(MatchMode::Exact, lv, lines_view_of(fnw@), s as int, eof);
        lemma_seek_in_range(0, lv, lines_view_of(fo@), s as int, eof);
    }
    if fo.len() != old.len() {
        if let Some(m) = index.seek_exact(&fo, s, eof) {
            return Ok(forward_from(m, &fnw));
        }
        if fnw.len() != 0 {
            if let Some(m) = index.seek_exact(&fnw, s, eof) {
                return Ok(reverse_from(m, &fo));
            }
        }
    }
    if let Some(m) = index.seek(old, s, eof) {
        return Ok(forward_from(m, new));
    }
    if fo.len() != old.len() {
        if let Some(m) = index.seek(&fo, s, eof) {
            return Ok(forward_from(m, &fnw));
        }
    }
    if fnw.len() == 0 {
        let ins = if eof {
            logical_end_of(lines)
        } else {
            s
        };
        return Ok(
            ChunkPlan {
                forward: None,
                reverse: Some(Replacement { start: ins, old_length: 0, lines: fo }),
                next_line_index: ins,
            },
        );
    }
    Err(match_failure_reason("Failed to find expected lines", lines, index, &fo))
}

/// Plans chunk `i` (see `plan_chunk_spec`), with the line from which
/// the next chunk is searched should this one fail (see
/// `resume_after_failure`).
pub fn plan_chunk(
    lines: &[Vec<char>],
    index: &mut LineSearchIndex,
    chunks: &[ChunkChars],
    i: usize,
    line_index: usize,
    planning: Planning,
) -> (r: (Result<ChunkPlan, String>, usize))
    requires
        old(index).wf(),
        old(index).lines() == lines_view_of(lines@),
        i < chunks@.len(),
    ensures
        final(index).wf(),
        final(index).lines() == old(index).lines(),
        plan_result_view(r.0) == plan_chunk_spec(
            lines_view_of(lines@),
            chunk_chars_view(chunks@),
            i as int,
            line_index as int,
            planning,
        ),
        r.1 == resume_after_failure(
            lines_view_of(lines@),
            chunk_chars_view(chunks@)[i as int],
            line_index as int,
            planning,
        ),
{
    let ghost lv = lines_view_of(lines@);
    let _n = lines.len();
    let chunk = &chunks[i];
    let s = match &chunk.context {
        Some(c) => {
            let mut pattern: Vec<Vec<char>> = Vec::new();
            pattern.push(crate::text::copy_range(c, 0, c.len()));
            assert(c@.subrange(0, c@.len() as int) == c@);
            assert(lines_view_of(pattern@) =~= seq![c@]);
            proof {
                lemma_seek_in_range(0, lv, lines_view_of(pattern@), line_index as int, false);
            }
            match index.seek(&pattern, line_index, false) {
                Some(m) => m.start + m.length,
                None => {
                    return (Err(context_failure(planning, lines, index, c, &pattern)), line_index);
                },
            }
        },
        None => line_index,
    };
    let resume = match planning {
        Planning::Direct => s,
        Planning::Reconciling => line_index,
    };
    let r = if chunk.old.len() == 0 {
        match planning {
            Planning::Direct => {
                let at = logical_end_of(lines);
                let new = copy_lines(&chunk.new, 0, chunk.new.len());
                assert(lines_view_of(chunk.new@).subrange(0, chunk.new@.len() as int) == lines_view_of(
                    chunk.new@,
                ));
                Ok(
                    ChunkPlan {
                        forward: Some(Replacement { start: at, old_length: 0, lines: new }),
                        reverse: None,
                        next_line_index: at,
                    },
                )
            },
            Planning::Reconciling => plan_insertion(lines, chunks, i, s),
        }
    } else {
        plan_update(lines, index, chunk, s, planning)
    };
    (r, resume)
}

} // verus!

verus! {

/// The plan of all chunks: forward and reverse edits in chunk order, the
/// number of chunks located, and the failure message of each other chunk.
pub struct SPlanAll {
    pub forward: Seq<Edit>,
    pub reverse: Seq<Edit>,
    pub applied: nat,
    pub errors: Seq<Seq<char>>,
}

/// The line from which the chunk after `chunk` is searched when `chunk`
/// fails, having been searched from `line_index`: planned directly, past
/// its context line when that was found; planned reconciling, the same
/// line.
pub open spec fn resume_after_failure(
    lines: Seq<Seq<char>>,
    chunk: ChunkView,
    line_index: int,
    planning: Planning,
) -> int {
    match planning {
        Planning::Direct => match chunk.context {
            Some(c) => match seek_spec(lines, seq![c], line_index, false) {
                Some(m) => m.start + m.length,
                None => line_index,
            },
            None => line_index,
        },
        Planning::Reconciling => line_index,
    }
}

/// Plans chunks `i..` from `line_index`, each chunk searched after the
/// previous located one (or, after a failed one, from
/// `resume_after_failure`).
pub open spec fn plan_from(
    lines: Seq<Seq<char>>,
    chunks: Seq<ChunkView>,
    i: int,
    line_index: int,
    acc: SPlanAll,
    planning: Planning,
) -> SPlanAll
    decreases chunks.len() - i,
{
    if i >= chunks.len() || i < 0 {
        acc
    } else {
        match plan_chunk_spec(lines, chunks, i, line_index, planning) {
            Ok(p) => plan_from(
                lines,
                chunks,
                i + 1,
                p.next,
                SPlanAll {
                    forward: match p.forward {
                        Some(e) => acc.forward.push(e),
                        None => acc.forward,
                    },
                    reverse: match p.reverse {
                        Some(e) => acc.reverse.push(e),
                        None => acc.reverse,
                    },
                    applied: acc.applied + 1,
                    errors: acc.errors,
                },
                planning,
            ),
            Err(e) => plan_from(
                lines,
                chunks,
                i + 1,
                resume_after_failure(lines, chunks[i], line_index, planning),
                SPlanAll { errors: acc.errors.push(e), ..acc },
                planning,
            ),
        }
    }
}

pub open spec fn plan_all(lines: Seq<Seq<char>>, chunks: Seq<ChunkView>, planning: Planning) -> SPlanAll {
    plan_from(
        lines,
        chunks,
        0,
        0,
        SPlanAll { forward: seq![], reverse: seq![], applied: 0, errors: seq![] },
        planning,
    )
}

/// Executable form of `SPlanAll`.
pub struct ReplacementPlan {
    pub forward: Vec<Replacement>,
    pub reverse: Vec<Replacement>,
    pub applied_chunks: usize,
    pub errors: Vec<String>,
}

impl ReplacementPlan {
    pub open spec fn view(&self) -> SPlanAll {
        SPlanAll {
            forward: edits_view(self.forward@),
            reverse: edits_view(self.reverse@),
            applied: self.applied_chunks as nat,
            errors: strings_view(self.errors@),
        }
    }
}

/// Plans all chunks (see `plan_all`).
pub fn compute_replacements(lines: &[Vec<char>], chunks: &[ChunkChars], planning: Planning) -> (r: ReplacementPlan)
    ensures
        r.view() == plan_all(lines_view_of(lines@), chunk_chars_view(chunks@), planning),
{
    let ghost lv = lines_view_of(lines@);
    let ghost cv = chunk_chars_view(chunks@);
    let mut index = LineSearchIndex::new(copy_lines(lines, 0, lines.len()));
    assert(lv.subrange(0, lines@.len() as int) == lv);
    let mut forward: Vec<Replacement> = Vec::new();
    let mut reverse: Vec<Replacement> = Vec::new();
    let mut errors: Vec<String> = Vec::new();
    let mut applied: usize = 0;
    let mut line_index: usize = 0;
    let mut i: usize = 0;
    assert(edits_view(forward@) =~= seq![]);
    assert(edits_view(reverse@) =~= seq![]);
    assert(strings_view(errors@) =~= seq![]);
    while i < chunks.len()
        invariant
            i <= chunks@.len(),
            applied <= i,
            lv == lines_view_of(lines@),
            cv == chunk_chars_view(chunks@),
            index.wf(),
            index.lines() == lv,
            plan_all(lv, cv, planning) == plan_from(
                lv,
                cv,
                i as int,
                line_index as int,
                SPlanAll {
                    forward: edits_view(forward@),
                    reverse: edits_view(reverse@),
                    applied: applied as nat,
                    errors: strings_view(errors@),
                },
                planning,
            ),
        decreases chunks@.len() - i,
    {
        let (planned, resume) = plan_chunk(lines, &mut index, chunks, i, line_index, planning);
        match planned {
            Ok(p) => {
                let ghost f0 = forward@;
                let ghost r0 = reverse@;
                let next = p.next_line_index;
                match p.forward {
                    Some(e) => {
                        forward.push(e);
                        assert(edits_view(forward@) =~= edits_view(f0).push(e.view()));
                    },
                    None => {},
                }
                match p.reverse {
                    Some(e) => {
                        reverse.push(e);
                        assert(edits_view(reverse@) =~= edits_view(r0).push(e.view()));
                    },
                    None => {},
                }
                line_index = next;
                applied += 1;
            },
            Err(e) => {
                let ghost e0 = errors@;
                errors.push(e);
                assert(strings_view(errors@) =~= strings_view(e0).push(e@));
                line_index = resume;
            },
        }
        i += 1;
    }
    ReplacementPlan { forward, reverse, applied_chunks: applied, errors }
}

/// Decides `edits_ordered(n, edits, 0)`.
pub fn edits_are_ordered(n: usize, edits: &[Replacement]) -> (r: bool)
    ensures
        r == edits_ordered(n as int, edits_view(edits@), 0),
{
    let ghost ev = edits_view(edits@);
    let mut from: usize = 0;
    let mut i: usize = 0;
    assert(ev.skip(0) =~= ev);
    while i < edits.len()
        invariant
            i <= edits@.len(),
            ev == edits_view(edits@),
            from <= n,
            edits_ordered(n as int, ev, 0) == edits_ordered(n as int, ev.skip(i as int), from as int),
        decreases edits@.len() - i,
    {
        let e = &edits[i];
        assert(ev.skip(i as int)[0] == e.view());
        assert(ev.skip(i as int).drop_first() =~= ev.skip(i + 1));
        if !(from <= e.start && e.start <= n) {
            return false;
        }
        match e.start.checked_add(e.old_length) {
            None => {
                return false;
            },
            Some(next) => {
                from = if next < n {
                    next
                } else {
                    n
                };
            },
        }
        i += 1;
    }
    true
}

/// The contents produced by a list of edits: the original text itself
/// when there is none.
pub open spec fn edited_text(original: Seq<char>, edits: Seq<Edit>) -> Seq<char> {
    if edits.len() == 0 {
        original
    } else {
        render_lines(spliced(lines_of(original), edits, 0))
    }
}

/// Both edit lists of the plan are ordered (so they can be rendered).
pub open spec fn plan_renderable(original: Seq<char>, chunks: Seq<ChunkView>, planning: Planning) -> bool {
    let p = plan_all(lines_of(original), chunks, planning);
    edits_ordered(lines_of(original).len() as int, p.forward, 0) && edits_ordered(
        lines_of(original).len() as int,
        p.reverse,
        0,
    )
}

/// The result of deriving a file's contents from update chunks.
pub struct DerivedContents {
    pub before_contents: String,
    pub contents: String,
    pub applied_chunks: usize,
    pub errors: Vec<String>,
}

/// The derived contents fit the plan of `chunks` on `original`.
pub open spec fn derived_from(
    d: DerivedContents,
    original: Seq<char>,
    chunks: Seq<ChunkView>,
    planning: Planning,
) -> bool {
    let p = plan_all(lines_of(original), chunks, planning);
    &&& d.contents@ == edited_text(original, p.forward)
    &&& d.before_contents@ == edited_text(original, p.reverse)
    &&& d.applied_chunks == p.applied
    &&& strings_view(d.errors@) == p.errors
}

/// Derives the new contents and the reconstructed "before" contents of a
/// file; `None` when the located edits overlap or run backwards, which the
/// line renderer cannot apply.
pub fn try_derive_new_contents(original_contents: &str, chunks: &[UpdateChunk], planning: Planning) -> (r: Option<
    DerivedContents,
>)
    ensures
        r is None <==> !plan_renderable(original_contents@, chunks_view(chunks@), planning),
        r matches Some(d) ==> derived_from(d, original_contents@, chunks_view(chunks@), planning),
{
    let text = chars_of(original_contents);
    let lines = split_lines(&text);
    let prepared = prepare_chunks(chunks);
    let plan = compute_replacements(&lines, &prepared, planning);
    let n = lines.len();
    if !edits_are_ordered(n, &plan.forward) || !edits_are_ordered(n, &plan.reverse) {
        return None;
    }
    let contents = if plan.forward.len() == 0 {
        string_of(&text)
    } else {
        apply_replacements(&lines, &plan.forward)
    };
    let before_contents = if plan.reverse.len() == 0 {
        string_of(&text)
    } else {
        apply_replacements(&lines, &plan.reverse)
    };
    Some(
        DerivedContents {
            before_contents,
            contents,
            applied_chunks: plan.applied_chunks,
            errors: plan.errors,
        },
    )
}

/// Derives the new and "before" contents of a file (see
/// `try_derive_new_contents`) when the plan can be rendered.
pub fn derive_new_contents(original_contents: &str, chunks: &[UpdateChunk], planning: Planning) -> (r: DerivedContents)
    requires
        plan_renderable(original_contents@, chunks_view(chunks@), planning),
    ensures
        derived_from(r, original_contents@, chunks_view(chunks@), planning),
{
    match try_derive_new_contents(original_contents, chunks, planning) {
        Some(d) => d,
        None => {
            assert(false);
            DerivedContents {
                before_contents: String::new(),
                contents: String::new(),
                applied_chunks: 0,
                errors: Vec::new(),
            }
        },
    }
}

} // verus!

verus! {

/// A located chunk gives exactly one edit: forward, or (already applied)
/// reverse.
pub proof fn lemma_chunk_plan_one_edit(
    lines: Seq<Seq<char>>,
    chunks: Seq<ChunkView>,
    i: int,
    line_index: int,
    planning: Planning,
)
    ensures
        plan_chunk_spec(lines, chunks, i, line_index, planning) matches Ok(p) ==> (p.forward is Some) != (
        p.reverse is Some),
{
}

proof fn lemma_plan_from_counts(
    lines: Seq<Seq<char>>,
    chunks: Seq<ChunkView>,
    i: int,
    line_index: int,
    acc: SPlanAll,
    planning: Planning,
)
    requires
        0 <= i <= chunks.len(),
        acc.forward.len() + acc.reverse.len() == acc.applied,
    ensures
        plan_from(lines, chunks, i, line_index, acc, planning).applied + plan_from(
            lines,
            chunks,
            i,
            line_index,
            acc,
            planning,
        ).errors.len() == acc.applied + acc.errors.len() + chunks.len() - i,
        plan_from(lines, chunks, i, line_index, acc, planning).forward.len() + plan_from(
            lines,
            chunks,
            i,
            line_index,
            acc,
            planning,
        ).reverse.len() == plan_from(lines, chunks, i, line_index, acc, planning).applied,
    decreases chunks.len() - i,
{
    if i < chunks.len() {
        lemma_chunk_plan_one_edit(lines, chunks, i, line_index, planning);
        match plan_chunk_spec(lines, chunks, i, line_index, planning) {
            Ok(p) => {
                let next = SPlanAll {
                    forward: match p.forward {
                        Some(e) => acc.forward.push(e),
                        None => acc.forward,
                    },
                    reverse: match p.reverse {
                        Some(e) => acc.reverse.push(e),
                        None => acc.reverse,
                    },
                    applied: acc.applied + 1,
                    errors: acc.errors,
                };
                lemma_plan_from_counts(lines, chunks, i + 1, p.next, next, planning);
            },
            Err(e) => {
                let next = SPlanAll { errors: acc.errors.push(e), ..acc };
                lemma_plan_from_counts(
                    lines,
                    chunks,
                    i + 1,
                    resume_after_failure(lines, chunks[i], line_index, planning),
                    next,
                    planning,
                );
            },
        }
    }
}

/// Every chunk is either located, giving exactly one edit (forward, or
/// reverse when it is already applied), or reported with a failure reason.
pub proof fn law_every_chunk_located_or_reported(
    lines: Seq<Seq<char>>,
    chunks: Seq<ChunkView>,
    planning: Planning,
)
    ensures
        plan_all(lines, chunks, planning).applied + plan_all(lines, chunks, planning).errors.len() == chunks.len(),
        plan_all(lines, chunks, planning).forward.len() + plan_all(lines, chunks, planning).reverse.len()
            == plan_all(lines, chunks, planning).applied,
{
    lemma_plan_from_counts(
        lines,
        chunks,
        0,
        0,
        SPlanAll { forward: seq![], reverse: seq![], applied: 0, errors: seq![] },
        planning,
    );
}

} // verus!

verus! {

/// An update that is already in the file leaves the file as it is when
/// planned reconciling: a chunk whose old lines are not in the file but
/// whose new lines are is taken as already applied; it gives no forward edit, so the new contents are the
/// original text, and its old lines go back into the "before" contents.
pub proof fn law_already_applied_chunk_keeps_contents(
    original: Seq<char>,
    chunk: ChunkView,
)
    requires
        chunk.context is None,
        chunk.old.len() > 0,
        chunk.new.len() > 0,
        tier_find(MatchMode::Exact, lines_of(original), chunk.old, 0, chunk.eof) is None,
        tier_find(MatchMode::Exact, lines_of(original), chunk.new, 0, chunk.eof) is Some,
    ensures
        plan_all(lines_of(original), seq![chunk], Planning::Reconciling).applied == 1,
        plan_all(lines_of(original), seq![chunk], Planning::Reconciling).errors.len() == 0,
        plan_all(lines_of(original), seq![chunk], Planning::Reconciling).forward.len() == 0,
        plan_all(lines_of(original), seq![chunk], Planning::Reconciling).reverse.len() == 1,
        plan_all(lines_of(original), seq![chunk], Planning::Reconciling).reverse[0].lines == chunk.old,
        edited_text(original, plan_all(lines_of(original), seq![chunk], Planning::Reconciling).forward) == original,
{
    let lines = lines_of(original);
    let chunks = seq![chunk];
    let acc0 = SPlanAll { forward: seq![], reverse: seq![], applied: 0, errors: seq![] };
    let p = plan_chunk_spec(lines, chunks, 0, 0, Planning::Reconciling);
    assert(chunks[0] == chunk);
    assert(p == Ok::<SPlan, Seq<char>>(
        reverse_of(tier_find(MatchMode::Exact, lines, chunk.new, 0, chunk.eof)->0, chunk.old),
    ));
    let acc1 = SPlanAll {
        forward: acc0.forward,
        reverse: acc0.reverse.push(
            Edit {
                start: (tier_find(MatchMode::Exact, lines, chunk.new, 0, chunk.eof)->0).start as int,
                old_length: (tier_find(MatchMode::Exact, lines, chunk.new, 0, chunk.eof)->0).length as int,
                lines: chunk.old,
            },
        ),
        applied: 1,
        errors: acc0.errors,
    };
    assert(plan_from(lines, chunks, 0, 0, acc0, Planning::Reconciling) == plan_from(lines, chunks, 1, p->Ok_0.next, acc1, Planning::Reconciling));
}

} // verus!

verus! {

/// Removing chunk `i` shifts the chunks after it without changing how they
/// are planned.
proof fn lemma_plan_chunk_shift(
    lines: Seq<Seq<char>>,
    chunks: Seq<ChunkView>,
    i: int,
    j: int,
    line_index: int,
    planning: Planning,
)
    requires
        0 <= i <= j,
        j + 1 < chunks.len(),
    ensures
        plan_chunk_spec(lines, chunks, j + 1, line_index, planning) == plan_chunk_spec(
            lines,
            chunks.remove(i),
            j,
            line_index,
            planning,
        ),
{
    let rest = chunks.remove(i);
    assert(rest[j] == chunks[j + 1]);
    assert(rest.skip(j) =~= chunks.skip(j + 1));
    let n = insertion_run_length(chunks.skip(j + 1));
    lemma_run_length_bound(chunks.skip(j + 1));
    assert(rest.subrange(j, j + n) =~= chunks.subrange(j + 1, j + 1 + n));
}

/// Two plans that agree but for the failure `e`, which the first has at
/// position `k` of its failures.
pub open spec fn plans_differ_by_failure(with: SPlanAll, without: SPlanAll, k: int, e: Seq<char>) -> bool {
    &&& with.forward == without.forward
    &&& with.reverse == without.reverse
    &&& with.applied == without.applied
    &&& 0 <= k <= without.errors.len()
    &&& with.errors == without.errors.take(k).push(e) + without.errors.skip(k)
}

proof fn lemma_plan_from_shift(
    lines: Seq<Seq<char>>,
    chunks: Seq<ChunkView>,
    i: int,
    j: int,
    line_index: int,
    a1: SPlanAll,
    a2: SPlanAll,
    k: int,
    e: Seq<char>,
    planning: Planning,
)
    requires
        0 <= i <= j,
        i < chunks.len(),
        plans_differ_by_failure(a1, a2, k, e),
    ensures
        plans_differ_by_failure(
            plan_from(lines, chunks, j + 1, line_index, a1, planning),
            plan_from(lines, chunks.remove(i), j, line_index, a2, planning),
            k,
            e,
        ),
    decreases chunks.len() - j,
{
    let rest = chunks.remove(i);
    if j + 1 < chunks.len() {
        lemma_plan_chunk_shift(lines, chunks, i, j, line_index, planning);
        match plan_chunk_spec(lines, chunks, j + 1, line_index, planning) {
            Ok(p) => {
                let n1 = SPlanAll {
                    forward: match p.forward {
                        Some(x) => a1.forward.push(x),
                        None => a1.forward,
                    },
                    reverse: match p.reverse {
                        Some(x) => a1.reverse.push(x),
                        None => a1.reverse,
                    },
                    applied: a1.applied + 1,
                    errors: a1.errors,
                };
                let n2 = SPlanAll {
                    forward: match p.forward {
                        Some(x) => a2.forward.push(x),
                        None => a2.forward,
                    },
                    reverse: match p.reverse {
                        Some(x) => a2.reverse.push(x),
                        None => a2.reverse,
                    },
                    applied: a2.applied + 1,
                    errors: a2.errors,
                };
                lemma_plan_from_shift(lines, chunks, i, j + 1, p.next, n1, n2, k, e, planning);
            },
            Err(x) => {
                let n1 = SPlanAll { errors: a1.errors.push(x), ..a1 };
                let n2 = SPlanAll { errors: a2.errors.push(x), ..a2 };
                assert(n2.errors.take(k) =~= a2.errors.take(k));
                assert(n2.errors.skip(k) =~= a2.errors.skip(k).push(x));
                assert(n1.errors =~= n2.errors.take(k).push(e) + n2.errors.skip(k));
                assert(chunks.remove(i)[j] == chunks[j + 1]);
                lemma_plan_from_shift(
                    lines,
                    chunks,
                    i,
                    j + 1,
                    resume_after_failure(lines, chunks[j + 1], line_index, planning),
                    n1,
                    n2,
                    k,
                    e,
                    planning,
                );
            },
        }
    } else {
        assert(rest.len() == chunks.len() - 1);
    }
}

/// Partial success within an update: a chunk that cannot be located only
/// adds its failure.  From the chunk on, the plan is the plan of the same
/// chunks without it, the chunks after it searched from where the failed
/// chunk leaves the search (`resume_after_failure`), its failure recorded
/// in its place among the others.
pub proof fn law_failed_chunk_only_adds_its_failure(
    lines: Seq<Seq<char>>,
    chunks: Seq<ChunkView>,
    i: int,
    line_index: int,
    acc: SPlanAll,
    planning: Planning,
)
    requires
        0 <= i < chunks.len(),
        plan_chunk_spec(lines, chunks, i, line_index, planning) is Err,
    ensures
        plans_differ_by_failure(
            plan_from(lines, chunks, i, line_index, acc, planning),
            plan_from(
                lines,
                chunks.remove(i),
                i,
                resume_after_failure(lines, chunks[i], line_index, planning),
                acc,
                planning,
            ),
            acc.errors.len() as int,
            plan_chunk_spec(lines, chunks, i, line_index, planning)->Err_0,
        ),
{
    let e = plan_chunk_spec(lines, chunks, i, line_index, planning)->Err_0;
    let k = acc.errors.len() as int;
    let a1 = SPlanAll { errors: acc.errors.push(e), ..acc };
    assert(acc.errors.take(k) =~= acc.errors);
    assert(acc.errors.skip(k) =~= Seq::<Seq<char>>::empty());
    assert(a1.errors =~= acc.errors.take(k).push(e) + acc.errors.skip(k));
    lemma_plan_from_shift(
        lines,
        chunks,
        i,
        i,
        resume_after_failure(lines, chunks[i], line_index, planning),
        a1,
        acc,
        k,
        e,
        planning,
    );
}

} // verus!

verus! {

/// A chunk is edited after its context line: when the chunk's context line
/// is found (searching from where the chunk's search starts), the chunk's
/// edit, forward or reverse, starts at or after the line that follows the
/// found context line.  (This is for chunks with old lines that are not
/// tied to the end of the file: an end-of-file chunk is matched against the
/// last lines wherever its context is, and new lines without old lines are
/// appended at the end.)
pub proof fn law_chunk_edited_after_its_context(
    lines: Seq<Seq<char>>,
    chunks: Seq<ChunkView>,
    i: int,
    line_index: int,
    planning: Planning,
    context: Seq<char>,
    found: SequenceMatch,
)
    requires
        0 <= i < chunks.len(),
        0 <= line_index <= usize::MAX,
        lines.len() <= usize::MAX,
        chunks[i].context == Some(context),
        chunks[i].old.len() > 0,
        !chunks[i].eof,
        seek_spec(lines, seq![context], line_index, false) == Some(found),
    ensures
        found.start >= line_index,
        found.length >= 1,
        plan_chunk_spec(lines, chunks, i, line_index, planning) matches Ok(p) ==> {
            &&& (p.forward matches Some(e) ==> e.start >= found.start + 1)
            &&& (p.reverse matches Some(e) ==> e.start >= found.start + 1)
        },
{
    lemma_seek_in_range(0, lines, seq![context], line_index, false);
    let s = found.start + found.length;
    let chunk = chunks[i];
    let (fo, fnw) = without_trailing_empty(chunk.old, chunk.new);
    lemma_seek_in_range(0, lines, chunk.old, s, false);
    lemma_seek_in_range(0, lines, fo, s, false);
    lemma_tier_find_in_range(MatchMode::Exact, lines, chunk.old, s, false);
    lemma_tier_find_in_range(MatchMode::Exact, lines, chunk.new, s, false);
    lemma_tier_find_in_range(MatchMode::Exact, lines, fo, s, false);
    lemma_tier_find_in_range(MatchMode::Exact, lines, fnw, s, false);
}

} // verus!
