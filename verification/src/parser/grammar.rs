//! The patch grammar as spec functions: what `parse_patch` returns for a
//! given text and environment.

use crate::parser::{
    ChunkView, FailureView, HunkView, expansion_text, ADD_FILE_MARKER, BEGIN_PATCH_MARKER,
    CHANGE_CONTEXT_MARKER, DELETE_FILE_MARKER, EMPTY_CHANGE_CONTEXT_MARKER, END_PATCH_MARKER,
    EOF_MARKER, MOVE_TO_MARKER, UPDATE_FILE_MARKER,
};
use crate::path_expansion::{expand_spec, is_absolute_path, VarView};
use crate::text::{has_prefix, has_suffix, lines_of, trim};
use vstd::prelude::*;

verus! {

/// A line that starts a file operation.
pub open spec fn is_file_marker_line(l: Seq<char>) -> bool {
    ||| has_prefix(l, ADD_FILE_MARKER@)
    ||| has_prefix(l, DELETE_FILE_MARKER@)
    ||| has_prefix(l, UPDATE_FILE_MARKER@)
}

/// A line that starts a change chunk (`@@` or `@@ context`).
pub open spec fn is_chunk_marker_line(l: Seq<char>) -> bool {
    l == EMPTY_CHANGE_CONTEXT_MARKER@ || has_prefix(l, CHANGE_CONTEXT_MARKER@)
}

/// A line without the '\r' of a "\r\n" line ending.
pub open spec fn line_body(l: Seq<char>) -> Seq<char> {
    if l.len() > 0 && l.last() == '\r' {
        l.drop_last()
    } else {
        l
    }
}

/// The lines of the trimmed patch text (`str::trim`, then `str::lines`).
pub open spec fn patch_lines(patch: Seq<char>) -> Seq<Seq<char>> {
    lines_of(trim(patch)).map_values(|l: Seq<char>| line_body(l))
}

pub open spec fn hunk_failure(line_number: int, message: Seq<char>) -> FailureView {
    FailureView::Hunk { line_number, message }
}

/// The patch must start with the begin marker and end with the end marker
/// (each compared after trimming).
pub open spec fn strict_check(lines: Seq<Seq<char>>) -> Result<Seq<Seq<char>>, FailureView> {
    if lines.len() > 0 && trim(lines[0]) == BEGIN_PATCH_MARKER@ && trim(lines.last())
        == END_PATCH_MARKER@ {
        Ok(lines)
    } else if lines.len() > 0 && trim(lines[0]) != BEGIN_PATCH_MARKER@ {
        Err(FailureView::Patch("The first line of the patch must be '*** Begin Patch'"@))
    } else {
        Err(FailureView::Patch("The last line of the patch must be '*** End Patch'"@))
    }
}

/// The first and last lines of a `<<EOF` heredoc around a patch.
pub open spec fn is_heredoc_wrapper(first: Seq<char>, last: Seq<char>, line_count: int) -> bool {
    &&& (first == "<<EOF"@ || first == "<<'EOF'"@ || first == "<<\"EOF\""@)
    &&& has_suffix(last, "EOF"@)
    &&& line_count >= 4
}

/// The strict check, or, where it fails on a heredoc-wrapped patch, the
/// strict check of the wrapped lines.
pub open spec fn lenient_check(lines: Seq<Seq<char>>) -> Result<Seq<Seq<char>>, FailureView> {
    match strict_check(lines) {
        Ok(l) => Ok(l),
        Err(e) => if lines.len() > 0 && is_heredoc_wrapper(lines[0], lines.last(), lines.len() as int) {
            strict_check(lines.subrange(1, lines.len() - 1))
        } else {
            Err(e)
        },
    }
}

/// A path of the patch: expanded, and then required to be absolute.
pub open spec fn path_result(text: Seq<char>, marker: int, home: VarView, vars: Seq<(Seq<char>, VarView)>) -> Result<
    Seq<char>,
    FailureView,
> {
    match expand_spec(text, home, vars) {
        Err(e) => Err(hunk_failure(marker + 1, expansion_text(e))),
        Ok(p) => if is_absolute_path(p) {
            Ok(p)
        } else {
            Err(hunk_failure(marker + 1, "patch paths must be absolute"@))
        },
    }
}

/// The `+` lines of an added file from line `i` on: the contents (each line
/// with a final '\n'), the number of lines, and where they stop.
pub open spec fn add_body(lines: Seq<Seq<char>>, i: int) -> Result<(Seq<char>, int, int), FailureView>
    decreases lines.len() - i,
{
    if i + 1 < lines.len() && !is_file_marker_line(lines[i]) {
        let l = lines[i];
        if l.len() > 0 && l[0] == '+' {
            match add_body(lines, i + 1) {
                Ok((c, n, end)) => Ok((l.drop_first().push('\n') + c, n + 1, end)),
                Err(x) => Err(x),
            }
        } else {
            Err(hunk_failure(i + 1, "add file lines must start with '+'"@))
        }
    } else {
        Ok((seq![], 0, i))
    }
}

/// The change lines of a chunk from line `i` on: its old lines, its new
/// lines, whether it is marked as the end of the file, and where it stops.
pub open spec fn chunk_body(lines: Seq<Seq<char>>, i: int) -> Result<
    (Seq<Seq<char>>, Seq<Seq<char>>, bool, int),
    FailureView,
>
    decreases lines.len() - i,
{
    if i + 1 < lines.len() && !is_file_marker_line(lines[i]) && !is_chunk_marker_line(lines[i]) {
        let l = lines[i];
        let t = l.drop_first();
        if l == EOF_MARKER@ {
            match chunk_body(lines, i + 1) {
                Ok((o, n, _e, end)) => Ok((o, n, true, end)),
                Err(x) => Err(x),
            }
        } else if l.len() > 0 && l[0] == ' ' {
            match chunk_body(lines, i + 1) {
                Ok((o, n, e, end)) => Ok((seq![t] + o, seq![t] + n, e, end)),
                Err(x) => Err(x),
            }
        } else if l.len() > 0 && l[0] == '-' {
            match chunk_body(lines, i + 1) {
                Ok((o, n, e, end)) => Ok((seq![t] + o, n, e, end)),
                Err(x) => Err(x),
            }
        } else if l.len() > 0 && l[0] == '+' {
            match chunk_body(lines, i + 1) {
                Ok((o, n, e, end)) => Ok((o, seq![t] + n, e, end)),
                Err(x) => Err(x),
            }
        } else {
            Err(hunk_failure(i + 1, "expected change line prefix"@))
        }
    } else {
        Ok((seq![], seq![], false, i))
    }
}

/// The context of a chunk's marker line `l` (line index `i`).
pub open spec fn chunk_context(l: Seq<char>, i: int) -> Result<Option<Seq<char>>, FailureView> {
    if l == EMPTY_CHANGE_CONTEXT_MARKER@ {
        Ok(None)
    } else if has_prefix(l, CHANGE_CONTEXT_MARKER@) {
        Ok(Some(l.skip(CHANGE_CONTEXT_MARKER@.len() as int)))
    } else {
        Err(hunk_failure(i + 1, "expected '@@' change marker"@))
    }
}

pub proof fn lemma_chunk_body_end(lines: Seq<Seq<char>>, i: int)
    ensures
        chunk_body(lines, i) matches Ok((_o, _n, _e, end)) ==> end >= i && (end == i || end < lines.len()),
    decreases lines.len() - i,
{
    if i + 1 < lines.len() && !is_file_marker_line(lines[i]) && !is_chunk_marker_line(lines[i]) {
        lemma_chunk_body_end(lines, i + 1);
    }
}

pub proof fn lemma_add_body_end(lines: Seq<Seq<char>>, i: int)
    ensures
        add_body(lines, i) matches Ok((_c, _n, end)) ==> end >= i && (end == i || end < lines.len()),
    decreases lines.len() - i,
{
    if i + 1 < lines.len() && !is_file_marker_line(lines[i]) {
        lemma_add_body_end(lines, i + 1);
    }
}

/// The chunks of an update from line `i` on, and where they stop.
pub open spec fn update_chunks(lines: Seq<Seq<char>>, i: int) -> Result<(Seq<ChunkView>, int), FailureView>
    decreases lines.len() - i,
{
    if i + 1 < lines.len() && !is_file_marker_line(lines[i]) {
        match chunk_context(lines[i], i) {
            Err(x) => Err(x),
            Ok(context) => match chunk_body(lines, i + 1) {
                Err(x) => Err(x),
                Ok((o, n, e, end)) => {
                    proof {
                        lemma_chunk_body_end(lines, i + 1);
                    }
                    match update_chunks(lines, end) {
                        Ok((cs, fin)) => Ok(
                            (seq![ChunkView { context, old: o, new: n, eof: e }] + cs, fin),
                        ),
                        Err(x) => Err(x),
                    }
                },
            },
        }
    } else {
        Ok((seq![], i))
    }
}

/// An update operation whose marker is line `m`, and where it stops.
pub open spec fn update_result(
    lines: Seq<Seq<char>>,
    m: int,
    home: VarView,
    vars: Seq<(Seq<char>, VarView)>,
) -> Result<(HunkView, int), FailureView> {
    let j = m + 1;
    let has_move = j < lines.len() && has_prefix(lines[j], MOVE_TO_MARKER@);
    let moved = path_result(lines[j].skip(MOVE_TO_MARKER@.len() as int), j, home, vars);
    if has_move && moved is Err {
        Err(moved->Err_0)
    } else {
        let move_path = if has_move {
            Some(moved->Ok_0)
        } else {
            None
        };
        let k = if has_move {
            j + 1
        } else {
            j
        };
        match update_chunks(lines, k) {
            Err(x) => Err(x),
            Ok((cs, end)) => if cs.len() == 0 && !has_move {
                Err(hunk_failure(m + 1, "update file hunk has no changes"@))
            } else {
                match path_result(lines[m].skip(UPDATE_FILE_MARKER@.len() as int), m, home, vars) {
                    Err(x) => Err(x),
                    Ok(p) => Ok((HunkView::Update { path: p, move_path, chunks: cs }, end)),
                }
            },
        }
    }
}

/// The file operation whose marker is line `i`, and where it stops.
pub open spec fn operation_result(
    lines: Seq<Seq<char>>,
    i: int,
    home: VarView,
    vars: Seq<(Seq<char>, VarView)>,
) -> Result<(HunkView, int), FailureView> {
    let l = lines[i];
    if has_prefix(l, ADD_FILE_MARKER@) {
        match add_body(lines, i + 1) {
            Err(x) => Err(x),
            Ok((c, n, end)) => match path_result(l.skip(ADD_FILE_MARKER@.len() as int), i, home, vars) {
                Err(x) => Err(x),
                Ok(p) => Ok(
                    (
                        HunkView::Add {
                            path: p,
                            contents: c,
                            line_count: n,
                            character_count: c.len() as int,
                        },
                        end,
                    ),
                ),
            },
        }
    } else if has_prefix(l, DELETE_FILE_MARKER@) {
        match path_result(l.skip(DELETE_FILE_MARKER@.len() as int), i, home, vars) {
            Err(x) => Err(x),
            Ok(p) => Ok((HunkView::Delete { path: p }, i + 1)),
        }
    } else if has_prefix(l, UPDATE_FILE_MARKER@) {
        update_result(lines, i, home, vars)
    } else {
        Err(hunk_failure(i + 1, "expected file operation marker"@))
    }
}

pub proof fn lemma_update_chunks_end(lines: Seq<Seq<char>>, i: int)
    ensures
        update_chunks(lines, i) matches Ok((_cs, end)) ==> end >= i && (end == i || end < lines.len()),
    decreases lines.len() - i,
{
    if i + 1 < lines.len() && !is_file_marker_line(lines[i]) {
        lemma_chunk_body_end(lines, i + 1);
        if let Ok((_o, _n, _e, end)) = chunk_body(lines, i + 1) {
            lemma_update_chunks_end(lines, end);
        }
    }
}

pub proof fn lemma_operation_end(
    lines: Seq<Seq<char>>,
    i: int,
    home: VarView,
    vars: Seq<(Seq<char>, VarView)>,
)
    requires
        i + 1 < lines.len(),
    ensures
        operation_result(lines, i, home, vars) matches Ok((_h, end)) ==> i < end <= lines.len(),
{
    lemma_add_body_end(lines, i + 1);
    lemma_update_chunks_end(lines, i + 1);
    lemma_update_chunks_end(lines, i + 2);
}

/// The file operations from line `i` on, up to the last line.
pub open spec fn hunks_from(
    lines: Seq<Seq<char>>,
    i: int,
    home: VarView,
    vars: Seq<(Seq<char>, VarView)>,
) -> Result<Seq<HunkView>, FailureView>
    decreases lines.len() - i,
{
    if i + 1 < lines.len() {
        match operation_result(lines, i, home, vars) {
            Err(x) => Err(x),
            Ok((h, end)) => {
                proof {
                    lemma_operation_end(lines, i, home, vars);
                }
                match hunks_from(lines, end, home, vars) {
                    Ok(hs) => Ok(seq![h] + hs),
                    Err(x) => Err(x),
                }
            },
        }
    } else {
        Ok(seq![])
    }
}

/// What parsing `patch` gives: its file operations, or why it was refused.
pub open spec fn parse_spec(patch: Seq<char>, home: VarView, vars: Seq<(Seq<char>, VarView)>) -> Result<
    Seq<HunkView>,
    FailureView,
> {
    match lenient_check(patch_lines(patch)) {
        Err(x) => Err(x),
        Ok(body) => hunks_from(body, 1, home, vars),
    }
}

} // verus!

verus! {

/// Every path of a hunk is absolute.
pub open spec fn hunk_paths_absolute(h: HunkView) -> bool {
    match h {
        HunkView::Add { path, .. } => is_absolute_path(path),
        HunkView::Delete { path } => is_absolute_path(path),
        HunkView::Update { path, move_path, .. } => is_absolute_path(path) && match move_path {
            Some(m) => is_absolute_path(m),
            None => true,
        },
    }
}

proof fn lemma_hunks_from_absolute(
    lines: Seq<Seq<char>>,
    i: int,
    home: VarView,
    vars: Seq<(Seq<char>, VarView)>,
)
    ensures
        hunks_from(lines, i, home, vars) matches Ok(hs) ==> forall|k: int|
            0 <= k < hs.len() ==> #[trigger] hunk_paths_absolute(hs[k]),
    decreases lines.len() - i,
{
    if i + 1 < lines.len() {
        lemma_operation_end(lines, i, home, vars);
        if let Ok((h, end)) = operation_result(lines, i, home, vars) {
            lemma_hunks_from_absolute(lines, end, home, vars);
            assert(hunk_paths_absolute(h));
            if let Ok(hs) = hunks_from(lines, end, home, vars) {
                let all = seq![h] + hs;
                assert forall|k: int| 0 <= k < all.len() implies #[trigger] hunk_paths_absolute(
                    all[k],
                ) by {
                    if k > 0 {
                        assert(all[k] == hs[k - 1]);
                    }
                }
            }
        }
    }
}

/// Every path of a parsed patch is absolute (after expansion): a relative
/// path is refused.
pub proof fn law_parsed_paths_are_absolute(
    patch: Seq<char>,
    home: VarView,
    vars: Seq<(Seq<char>, VarView)>,
)
    ensures
        parse_spec(patch, home, vars) matches Ok(hs) ==> forall|k: int|
            0 <= k < hs.len() ==> #[trigger] hunk_paths_absolute(hs[k]),
{
    if let Ok(body) = lenient_check(patch_lines(patch)) {
        lemma_hunks_from_absolute(body, 1, home, vars);
    }
}

/// An update hunk changes something: it has chunks or a move.
pub open spec fn hunk_has_changes(h: HunkView) -> bool {
    match h {
        HunkView::Update { move_path, chunks, .. } => chunks.len() > 0 || move_path is Some,
        _ => true,
    }
}

proof fn lemma_hunks_from_changes(
    lines: Seq<Seq<char>>,
    i: int,
    home: VarView,
    vars: Seq<(Seq<char>, VarView)>,
)
    ensures
        hunks_from(lines, i, home, vars) matches Ok(hs) ==> forall|k: int|
            0 <= k < hs.len() ==> #[trigger] hunk_has_changes(hs[k]),
    decreases lines.len() - i,
{
    if i + 1 < lines.len() {
        lemma_operation_end(lines, i, home, vars);
        if let Ok((h, end)) = operation_result(lines, i, home, vars) {
            lemma_hunks_from_changes(lines, end, home, vars);
            assert(hunk_has_changes(h));
            if let Ok(hs) = hunks_from(lines, end, home, vars) {
                let all = seq![h] + hs;
                assert forall|k: int| 0 <= k < all.len() implies #[trigger] hunk_has_changes(all[k]) by {
                    if k > 0 {
                        assert(all[k] == hs[k - 1]);
                    }
                }
            }
        }
    }
}

/// Every update hunk of a parsed patch changes something: an update
/// without chunks and without a move is refused.
pub proof fn law_parsed_updates_change_something(
    patch: Seq<char>,
    home: VarView,
    vars: Seq<(Seq<char>, VarView)>,
)
    ensures
        parse_spec(patch, home, vars) matches Ok(hs) ==> forall|k: int|
            0 <= k < hs.len() ==> #[trigger] hunk_has_changes(hs[k]),
{
    if let Ok(body) = lenient_check(patch_lines(patch)) {
        lemma_hunks_from_changes(body, 1, home, vars);
    }
}

/// The contents of a file added with the `+` lines `block`: each line
/// without its `+`, followed by '\n', in order.
pub open spec fn added_text(block: Seq<Seq<char>>) -> Seq<char>
    decreases block.len(),
{
    if block.len() == 0 {
        seq![]
    } else {
        added_text(block.drop_last()) + block.last().drop_first() + seq!['\n']
    }
}

proof fn lemma_added_text_front(block: Seq<Seq<char>>)
    requires
        block.len() > 0,
    ensures
        added_text(block) == block[0].drop_first() + seq!['\n'] + added_text(block.drop_first()),
    decreases block.len(),
{
    if block.len() == 1 {
        assert(block.drop_last() =~= Seq::<Seq<char>>::empty());
        assert(block.drop_first() =~= Seq::<Seq<char>>::empty());
        assert(added_text(block) =~= block[0].drop_first() + seq!['\n'] + added_text(block.drop_first()));
    } else {
        lemma_added_text_front(block.drop_last());
        assert(block.drop_last().drop_first() =~= block.drop_first().drop_last());
        assert(block.drop_last()[0] == block[0]);
        assert(block.drop_first().last() == block.last());
        assert(added_text(block) =~= block[0].drop_first() + seq!['\n'] + added_text(block.drop_first()));
    }
}

proof fn lemma_add_body_block(lines: Seq<Seq<char>>, j: int, stop: int)
    requires
        0 <= j <= stop,
        stop < lines.len(),
        forall|k: int| j <= k < stop ==> (#[trigger] lines[k]).len() > 0 && lines[k][0] == '+',
        stop + 1 >= lines.len() || is_file_marker_line(lines[stop]),
    ensures
        add_body(lines, j) == Ok::<(Seq<char>, int, int), FailureView>(
            (added_text(lines.subrange(j, stop)), stop - j, stop),
        ),
    decreases stop - j,
{
    reveal_strlit("*** Add File: ");
    reveal_strlit("*** Delete File: ");
    reveal_strlit("*** Update File: ");
    if j == stop {
        assert(lines.subrange(j, stop) =~= Seq::<Seq<char>>::empty());
    } else {
        let l = lines[j];
        assert(l[0] == '+');
        assert(!has_prefix(l, ADD_FILE_MARKER@)) by {
            if has_prefix(l, ADD_FILE_MARKER@) {
                assert(l.subrange(0, 14)[0] == l[0]);
            }
        }
        assert(!has_prefix(l, DELETE_FILE_MARKER@)) by {
            if has_prefix(l, DELETE_FILE_MARKER@) {
                assert(l.subrange(0, 17)[0] == l[0]);
            }
        }
        assert(!has_prefix(l, UPDATE_FILE_MARKER@)) by {
            if has_prefix(l, UPDATE_FILE_MARKER@) {
                assert(l.subrange(0, 17)[0] == l[0]);
            }
        }
        lemma_add_body_block(lines, j + 1, stop);
        let block = lines.subrange(j, stop);
        lemma_added_text_front(block);
        assert(block.drop_first() =~= lines.subrange(j + 1, stop));
        assert(block[0] == l);
        assert(l.drop_first().push('\n') =~= l.drop_first() + seq!['\n']);
        assert(!is_file_marker_line(l));
        assert(j + 1 < lines.len());
    }
}

/// An added file holds exactly its `+` lines: for an `*** Add File:`
/// marker at line `i` followed by the `n` lines of `block`, each starting
/// with `+` and ended by the next file marker or by the last line (the end
/// marker), the hunk's contents are every line of the block without its
/// `+`, each followed by '\n', in order (an empty `+` line gives an empty
/// line); it counts `n` lines and as many characters as its contents, and
/// the next operation starts after the block.
pub proof fn law_added_file_holds_its_plus_lines(
    lines: Seq<Seq<char>>,
    i: int,
    n: int,
    home: VarView,
    vars: Seq<(Seq<char>, VarView)>,
    path: Seq<char>,
)
    requires
        0 <= i,
        0 <= n,
        i + 1 + n < lines.len(),
        has_prefix(lines[i], ADD_FILE_MARKER@),
        forall|k: int| i + 1 <= k < i + 1 + n ==> (#[trigger] lines[k]).len() > 0 && lines[k][0] == '+',
        i + 2 + n >= lines.len() || is_file_marker_line(lines[i + 1 + n]),
        path_result(lines[i].skip(ADD_FILE_MARKER@.len() as int), i, home, vars) == Ok::<Seq<char>, FailureView>(path),
    ensures
        operation_result(lines, i, home, vars) == Ok::<(HunkView, int), FailureView>(
            (
                HunkView::Add {
                    path,
                    contents: added_text(lines.subrange(i + 1, i + 1 + n)),
                    line_count: n,
                    character_count: added_text(lines.subrange(i + 1, i + 1 + n)).len() as int,
                },
                i + 1 + n,
            ),
        ),
{
    lemma_add_body_block(lines, i + 1, i + 1 + n);
}

proof fn lemma_trim_len(s: Seq<char>)
    ensures
        trim(s).len() <= s.len(),
{
    crate::text::lemma_lead_ws_bound(s);
    crate::text::lemma_trail_ws_bound(s.skip(crate::text::lead_ws(s) as int));
}

/// A patch whose lines pass the strict check is also accepted inside a
/// `<<EOF` heredoc: the wrapper lines are dropped.
pub proof fn law_heredoc_wrapped_patch_accepted(
    lines: Seq<Seq<char>>,
    first: Seq<char>,
    last: Seq<char>,
)
    requires
        strict_check(lines) is Ok,
        first == "<<EOF"@ || first == "<<'EOF'"@ || first == "<<\"EOF\""@,
        has_suffix(last, "EOF"@),
    ensures
        lenient_check(seq![first] + lines + seq![last]) == Ok::<Seq<Seq<char>>, FailureView>(lines),
{
    reveal_strlit("*** Begin Patch");
    reveal_strlit("*** End Patch");
    reveal_strlit("<<EOF");
    reveal_strlit("<<'EOF'");
    reveal_strlit("<<\"EOF\"");
    let w = seq![first] + lines + seq![last];
    lemma_trim_len(first);
    assert(w[0] == first);
    assert(trim(w[0]) != BEGIN_PATCH_MARKER@);
    if lines.len() == 1 {
        assert(BEGIN_PATCH_MARKER@ != END_PATCH_MARKER@) by {
            assert(BEGIN_PATCH_MARKER@.len() != END_PATCH_MARKER@.len());
        }
    }
    assert(lines.len() >= 2);
    assert(w.last() == last);
    assert(w.subrange(1, w.len() - 1) =~= lines);
}

} // verus!
