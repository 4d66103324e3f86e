//! The patch parser: splits the text into lines, checks the envelope and
//! reads the file operations (see `grammar` for what it returns).

use crate::content::{copy_lines, push_all};
use crate::path_expansion::{expand_with, is_absolute, PathEnvironment};
use crate::parser::grammar::{
    add_body, chunk_body, chunk_context, hunks_from, lemma_operation_end, operation_result,
    parse_spec, update_chunks, path_result, is_chunk_marker_line, is_file_marker_line, is_heredoc_wrapper, lenient_check, line_body,
    patch_lines, strict_check,
};
use crate::parser::{
    ParseFailure, ADD_FILE_MARKER, BEGIN_PATCH_MARKER, CHANGE_CONTEXT_MARKER, DELETE_FILE_MARKER,
    EMPTY_CHANGE_CONTEXT_MARKER, END_PATCH_MARKER, UPDATE_FILE_MARKER,
};
use crate::parser::{
    chunks_view, hunks_view, parse_result_view, ChunkView, FailureView, FileHunk, HunkView, UpdateChunk, EOF_MARKER, MOVE_TO_MARKER,
};
use crate::text::{
    has_prefix, string_of, chars_of, copy_range, ends_with, equals_str, lines_of, lines_view_of, split_lines, starts_with,
    trim, trim_bounds, strings_view,
};
use vstd::prelude::*;

verus! {

/// Decides `is_file_marker_line`.
pub fn is_file_marker(l: &[char]) -> (r: bool)
    ensures
        r == is_file_marker_line(l@),
{
    starts_with(l, ADD_FILE_MARKER) || starts_with(l, DELETE_FILE_MARKER) || starts_with(
        l,
        UPDATE_FILE_MARKER,
    )
}

/// Decides `is_chunk_marker_line`.
pub fn is_chunk_marker(l: &[char]) -> (r: bool)
    ensures
        r == is_chunk_marker_line(l@),
{
    equals_str(l, EMPTY_CHANGE_CONTEXT_MARKER) || starts_with(l, CHANGE_CONTEXT_MARKER)
}

/// `l` without its first `n` characters.
fn tail_from(l: &[char], n: usize) -> (r: Vec<char>)
    requires
        n <= l@.len(),
    ensures
        r@ == l@.skip(n as int),
{
    let r = copy_range(l, n, l.len());
    assert(r@ =~= l@.skip(n as int));
    r
}

/// The number of characters of `s`.
fn char_len(s: &str) -> (r: usize)
    ensures
        r == s@.len(),
{
    chars_of(s).len()
}

/// The text's lines (see `patch_lines`).
pub fn split_patch_lines(patch: &str) -> (r: Vec<Vec<char>>)
    ensures
        lines_view_of(r@) == patch_lines(patch@),
{
    let text = chars_of(patch);
    let (a, b) = trim_bounds(&text, 0, text.len(), true, true);
    assert(text@.subrange(0, text@.len() as int) == text@);
    let trimmed = copy_range(&text, a, b);
    let raw = split_lines(&trimmed);
    let ghost target = patch_lines(patch@);
    let mut out: Vec<Vec<char>> = Vec::new();
    let mut i: usize = 0;
    while i < raw.len()
        invariant
            i <= raw@.len(),
            lines_view_of(raw@) == lines_of(trim(patch@)),
            target == lines_of(trim(patch@)).map_values(|l: Seq<char>| line_body(l)),
            lines_view_of(out@) == target.subrange(0, i as int),
        decreases raw@.len() - i,
    {
        let l = &raw[i];
        let body = if l.len() > 0 && l[l.len() - 1] == '\r' {
            copy_range(l, 0, l.len() - 1)
        } else {
            copy_range(l, 0, l.len())
        };
        assert(raw@[i as int]@ == lines_view_of(raw@)[i as int]);
        assert(body@ == line_body(raw@[i as int]@)) by {
            if l@.len() > 0 && l@.last() == '\r' {
                assert(body@ =~= l@.drop_last());
            } else {
                assert(body@ =~= l@);
            }
        }
        let ghost prev = out@;
        out.push(body);
        assert(lines_view_of(out@) =~= lines_view_of(prev).push(body@));
        assert(target.subrange(0, i + 1) =~= target.subrange(0, i as int).push(target[i as int]));
        i += 1;
    }
    assert(target.subrange(0, raw@.len() as int) =~= target);
    out
}

/// The view of a check's result.
pub open spec fn check_view(r: Result<Vec<Vec<char>>, ParseFailure>) -> Result<Seq<Seq<char>>, FailureView> {
    match r {
        Ok(l) => Ok(lines_view_of(l@)),
        Err(e) => Err(e.view()),
    }
}

/// The trimmed line `l` equals `p`.
fn trimmed_equals(l: &[char], p: &str) -> (r: bool)
    ensures
        r == (trim(l@) == p@),
{
    let (a, b) = trim_bounds(l, 0, l.len(), true, true);
    assert(l@.subrange(0, l@.len() as int) == l@);
    let t = copy_range(l, a, b);
    equals_str(&t, p)
}

/// Decides `strict_check` (the lines are handed back on success).
fn check_strict(lines: Vec<Vec<char>>) -> (r: Result<Vec<Vec<char>>, ParseFailure>)
    ensures
        check_view(r) == strict_check(lines_view_of(lines@)),
{
    let ghost lv = lines_view_of(lines@);
    let n = lines.len();
    if n > 0 {
        assert(lv[0] == lines@[0]@);
        assert(lv.last() == lines@[n - 1]@);
        let first_ok = trimmed_equals(&lines[0], BEGIN_PATCH_MARKER);
        if first_ok && trimmed_equals(&lines[n - 1], END_PATCH_MARKER) {
            return Ok(lines);
        }
        if !first_ok {
            return Err(ParseFailure::patch("The first line of the patch must be '*** Begin Patch'"));
        }
    }
    Err(ParseFailure::patch("The last line of the patch must be '*** End Patch'"))
}

/// Decides `is_heredoc_wrapper`.
fn heredoc_wrapper(first: &[char], last: &[char], line_count: usize) -> (r: bool)
    ensures
        r == is_heredoc_wrapper(first@, last@, line_count as int),
{
    (equals_str(first, "<<EOF") || equals_str(first, "<<'EOF'") || equals_str(first, "<<\"EOF\""))
        && ends_with(last, "EOF") && line_count >= 4
}

/// Decides `lenient_check`.
pub fn check_lenient(lines: Vec<Vec<char>>) -> (r: Result<Vec<Vec<char>>, ParseFailure>)
    ensures
        check_view(r) == lenient_check(lines_view_of(lines@)),
{
    let ghost lv = lines_view_of(lines@);
    let n = lines.len();
    let wrapped = n > 0 && heredoc_wrapper(&lines[0], &lines[n - 1], n);
    proof {
        if n > 0 {
            assert(lv[0] == lines@[0]@);
            assert(lv.last() == lines@[n - 1]@);
        }
    }
    let inner = if wrapped {
        copy_lines(&lines, 1, n - 1)
    } else {
        Vec::new()
    };
    match check_strict(lines) {
        Ok(l) => Ok(l),
        Err(e) => if wrapped {
            check_strict(inner)
        } else {
            Err(e)
        },
    }
}

} // verus!

verus! {

/// The view of a parsed path.
pub open spec fn path_view(r: Result<String, ParseFailure>) -> Result<Seq<char>, FailureView> {
    match r {
        Ok(p) => Ok(p@),
        Err(e) => Err(e.view()),
    }
}

/// Expands a path of the patch whose marker is line `marker`, and requires
/// the outcome to be absolute (see `path_result`).
pub fn parse_path(text: &[char], marker: usize, env: &PathEnvironment) -> (r: Result<
    String,
    ParseFailure,
>)
    requires
        marker < usize::MAX,
    ensures
        path_view(r) == path_result(text@, marker as int, env.home.view(), env.vars_view()),
{
    let s = string_of(text);
    match expand_with(s.as_str(), env) {
        Err(e) => Err(ParseFailure::Hunk { line_number: marker + 1, message: e.to_message() }),
        Ok(p) => {
            let pc = chars_of(p.as_str());
            if is_absolute(&pc) {
                Ok(p)
            } else {
                Err(ParseFailure::hunk(marker + 1, "patch paths must be absolute"))
            }
        },
    }
}

/// The view of an operation's result.
pub open spec fn operation_view(r: Result<(FileHunk, usize), ParseFailure>) -> Result<
    (HunkView, int),
    FailureView,
> {
    match r {
        Ok((h, end)) => Ok((h.view(), end as int)),
        Err(e) => Err(e.view()),
    }
}

/// `r` with `c` before its contents and `n` added to its line count.
pub open spec fn add_shift(c: Seq<char>, n: int, r: Result<(Seq<char>, int, int), FailureView>) -> Result<
    (Seq<char>, int, int),
    FailureView,
> {
    match r {
        Ok((c2, n2, end)) => Ok((c + c2, n + n2, end)),
        Err(x) => Err(x),
    }
}

proof fn lemma_add_shift(c: Seq<char>, u: Seq<char>, n: int, r: Result<(Seq<char>, int, int), FailureView>)
    ensures
        add_shift(
            c,
            n,
            match r {
                Ok((c2, n2, end)) => Ok((u + c2, n2 + 1, end)),
                Err(x) => Err(x),
            },
        ) == add_shift(c + u, n + 1, r),
{
    if let Ok((c2, n2, end)) = r {
        assert(c + (u + c2) =~= (c + u) + c2);
    }
}

/// Reads an added file whose marker is line `marker`.
fn parse_add(lines: &Vec<Vec<char>>, marker: usize, env: &PathEnvironment) -> (r: Result<
    (FileHunk, usize),
    ParseFailure,
>)
    requires
        marker + 1 < lines@.len(),
        has_prefix(lines@[marker as int]@, ADD_FILE_MARKER@),
    ensures
        operation_view(r) == operation_result(
            lines_view_of(lines@),
            marker as int,
            env.home.view(),
            env.vars_view(),
        ),
{
    let ghost lv = lines_view_of(lines@);
    assert(lv[marker as int] == lines@[marker as int]@);
    let n = lines.len();
    let mut contents: Vec<char> = Vec::new();
    let mut count: usize = 0;
    let mut index = marker + 1;
    while index + 1 < n && !is_file_marker(&lines[index])
        invariant
            marker + 1 <= index < n,
            n == lines@.len(),
            has_prefix(lv[marker as int], ADD_FILE_MARKER@),
            count <= index,
            lv == lines_view_of(lines@),
            add_body(lv, marker + 1) == add_shift(contents@, count as int, add_body(lv, index as int)),
        decreases lines@.len() - index,
    {
        let line = &lines[index];
        assert(lv[index as int] == line@);
        if !(line.len() > 0 && line[0] == '+') {
            let e = ParseFailure::hunk(index + 1, "add file lines must start with '+'");
            assert(add_body(lv, index as int) == Err::<(Seq<char>, int, int), FailureView>(e.view()));
            return Err(e);
        }
        let ghost before = contents@;
        let t = tail_from(line, 1);
        push_all(&mut contents, &t);
        contents.push('\n');
        proof {
            assert(t@ == line@.drop_first());
            lemma_add_shift(before, t@.push('\n'), count as int, add_body(lv, index + 1));
            assert(contents@ =~= before + t@.push('\n'));
        }
        count += 1;
        index += 1;
    }
    assert(lv[index as int] == lines@[index as int]@);
    assert(add_body(lv, index as int) matches Ok((c0, n0, e0)) && c0.len() == 0 && n0 == 0 && e0 == index);
    assert(contents@ + seq![] =~= contents@);
    let path_text = tail_from(&lines[marker], char_len(ADD_FILE_MARKER));
    match parse_path(&path_text, marker, env) {
        Err(e) => Err(e),
        Ok(p) => {
            let n = contents.len();
            Ok(
                (
                    FileHunk::Add {
                        path: p,
                        contents: string_of(&contents),
                        line_count: count,
                        character_count: n,
                    },
                    index,
                ),
            )
        },
    }
}

} // verus!

verus! {

/// `r` with `o` and `n` before its old and new lines, and `e` or'ed into
/// its end-of-file flag.
pub open spec fn chunk_shift(
    o: Seq<Seq<char>>,
    n: Seq<Seq<char>>,
    e: bool,
    r: Result<(Seq<Seq<char>>, Seq<Seq<char>>, bool, int), FailureView>,
) -> Result<(Seq<Seq<char>>, Seq<Seq<char>>, bool, int), FailureView> {
    match r {
        Ok((o2, n2, e2, end)) => Ok((o + o2, n + n2, e || e2, end)),
        Err(x) => Err(x),
    }
}

/// The view of an optional context.
pub open spec fn context_view(c: Option<String>) -> Option<Seq<char>> {
    match c {
        Some(s) => Some(s@),
        None => None,
    }
}

/// Reads the change lines of a chunk from line `start` on.
fn parse_chunk(lines: &Vec<Vec<char>>, start: usize, change_context: Option<String>) -> (r: Result<
    (UpdateChunk, usize),
    ParseFailure,
>)
    requires
        start < lines@.len(),
    ensures
        match r {
            Ok((c, end)) => {
                &&& chunk_body(lines_view_of(lines@), start as int) == Ok::<
                    (Seq<Seq<char>>, Seq<Seq<char>>, bool, int),
                    FailureView,
                >((c.view().old, c.view().new, c.view().eof, end as int))
                &&& c.view().context == context_view(change_context)
                &&& start <= end < lines@.len()
            },
            Err(e) => chunk_body(lines_view_of(lines@), start as int) == Err::<
                (Seq<Seq<char>>, Seq<Seq<char>>, bool, int),
                FailureView,
            >(e.view()),
        },
{
    let ghost lv = lines_view_of(lines@);
    let n = lines.len();
    let mut old_lines: Vec<String> = Vec::new();
    let mut new_lines: Vec<String> = Vec::new();
    let mut is_end_of_file = false;
    let mut index = start;
    while index + 1 < n && !is_file_marker(&lines[index]) && !is_chunk_marker(&lines[index])
        invariant
            start <= index < n,
            n == lines@.len(),
            lv == lines_view_of(lines@),
            chunk_body(lv, start as int) == chunk_shift(
                strings_view(old_lines@),
                strings_view(new_lines@),
                is_end_of_file,
                chunk_body(lv, index as int),
            ),
        decreases n - index,
    {
        let line = &lines[index];
        assert(lv[index as int] == line@);
        let ghost o0 = strings_view(old_lines@);
        let ghost n0 = strings_view(new_lines@);
        let ghost rest = chunk_body(lv, index + 1);
        if equals_str(line, EOF_MARKER) {
            is_end_of_file = true;
        } else if line.len() > 0 && (line[0] == ' ' || line[0] == '-' || line[0] == '+') {
            let t = string_of(&tail_from(line, 1));
            assert(t@ == line@.drop_first());
            let ghost old_before = old_lines@;
            let ghost new_before = new_lines@;
            if line[0] == ' ' {
                old_lines.push(t.clone());
                new_lines.push(t);
            } else if line[0] == '-' {
                old_lines.push(t);
            } else {
                new_lines.push(t);
            }
            proof {
                let tv = line@.drop_first();
                if line@[0] == ' ' {
                    assert(strings_view(old_lines@) =~= o0.push(tv));
                    assert(strings_view(new_lines@) =~= n0.push(tv));
                } else if line@[0] == '-' {
                    assert(strings_view(old_lines@) =~= o0.push(tv));
                    assert(strings_view(new_lines@) =~= n0);
                } else {
                    assert(strings_view(old_lines@) =~= o0);
                    assert(strings_view(new_lines@) =~= n0.push(tv));
                }
                if let Ok((o2, n2, e2, end)) = rest {
                    assert(o0 + (seq![tv] + o2) =~= o0.push(tv) + o2);
                    assert(n0 + (seq![tv] + n2) =~= n0.push(tv) + n2);
                }
            }
        } else {
            return Err(ParseFailure::hunk(index + 1, "expected change line prefix"));
        }
        index += 1;
    }
    assert(lv[index as int] == lines@[index as int]@);
    let ghost o = strings_view(old_lines@);
    let ghost nw = strings_view(new_lines@);
    assert(o + seq![] =~= o);
    assert(nw + seq![] =~= nw);
    Ok(
        (
            UpdateChunk::new(change_context, old_lines, new_lines, is_end_of_file),
            index,
        ),
    )
}

} // verus!

verus! {

/// `r` with the chunks `acc` before its chunks.
pub open spec fn chunks_shift(acc: Seq<ChunkView>, r: Result<(Seq<ChunkView>, int), FailureView>) -> Result<
    (Seq<ChunkView>, int),
    FailureView,
> {
    match r {
        Ok((cs, end)) => Ok((acc + cs, end)),
        Err(x) => Err(x),
    }
}

/// The view of a list of chunks and where they stop.
pub open spec fn chunks_result_view(r: Result<(Vec<UpdateChunk>, usize), ParseFailure>) -> Result<
    (Seq<ChunkView>, int),
    FailureView,
> {
    match r {
        Ok((cs, end)) => Ok((chunks_view(cs@), end as int)),
        Err(e) => Err(e.view()),
    }
}

/// Reads the chunks of an update from line `k` on.
fn parse_chunks(lines: &Vec<Vec<char>>, k: usize) -> (r: Result<(Vec<UpdateChunk>, usize), ParseFailure>)
    requires
        k <= lines@.len(),
    ensures
        chunks_result_view(r) == update_chunks(lines_view_of(lines@), k as int),
{
    let ghost lv = lines_view_of(lines@);
    let n = lines.len();
    let mut index = k;
    let mut chunks: Vec<UpdateChunk> = Vec::new();
    while index < n && index + 1 < n && !is_file_marker(&lines[index])
        invariant
            k <= index <= n,
            n == lines@.len(),
            lv == lines_view_of(lines@),
            update_chunks(lv, k as int) == chunks_shift(
                chunks_view(chunks@),
                update_chunks(lv, index as int),
            ),
        decreases n - index,
    {
        let line = &lines[index];
        assert(lv[index as int] == line@);
        let change_context = if equals_str(line, EMPTY_CHANGE_CONTEXT_MARKER) {
            None
        } else if starts_with(line, CHANGE_CONTEXT_MARKER) {
            Some(string_of(&tail_from(line, char_len(CHANGE_CONTEXT_MARKER))))
        } else {
            return Err(ParseFailure::hunk(index + 1, "expected '@@' change marker"));
        };
        assert(chunk_context(lv[index as int], index as int) == Ok::<Option<Seq<char>>, FailureView>(
            context_view(change_context),
        ));
        match parse_chunk(lines, index + 1, change_context) {
            Err(e) => {
                return Err(e);
            },
            Ok((c, end)) => {
                let ghost prev = chunks@;
                chunks.push(c);
                proof {
                    assert(chunks_view(chunks@) =~= chunks_view(prev).push(c.view()));
                    assert(c.view() == (ChunkView {
                        context: c.view().context,
                        old: c.view().old,
                        new: c.view().new,
                        eof: c.view().eof,
                    }));
                    if let Ok((cs, fin)) = update_chunks(lv, end as int) {
                        assert(chunks_view(prev) + (seq![c.view()] + cs) =~= chunks_view(prev).push(
                            c.view(),
                        ) + cs);
                    }
                }
                index = end;
            },
        }
    }
    proof {
        if index < n {
            assert(lv[index as int] == lines@[index as int]@);
        }
        assert(chunks_view(chunks@) + seq![] =~= chunks_view(chunks@));
    }
    Ok((chunks, index))
}

/// Reads an update whose marker is line `marker`.
fn parse_update(lines: &Vec<Vec<char>>, marker: usize, env: &PathEnvironment) -> (r: Result<
    (FileHunk, usize),
    ParseFailure,
>)
    requires
        marker + 1 < lines@.len(),
        has_prefix(lines@[marker as int]@, UPDATE_FILE_MARKER@),
        !has_prefix(lines@[marker as int]@, ADD_FILE_MARKER@),
        !has_prefix(lines@[marker as int]@, DELETE_FILE_MARKER@),
    ensures
        operation_view(r) == operation_result(
            lines_view_of(lines@),
            marker as int,
            env.home.view(),
            env.vars_view(),
        ),
{
    let ghost lv = lines_view_of(lines@);
    assert(lv[marker as int] == lines@[marker as int]@);
    let n = lines.len();
    let j = marker + 1;
    assert(lv[j as int] == lines@[j as int]@);
    let has_move = starts_with(&lines[j], MOVE_TO_MARKER);
    let mut move_path: Option<String> = None;
    if has_move {
        let t = tail_from(&lines[j], char_len(MOVE_TO_MARKER));
        match parse_path(&t, j, env) {
            Err(e) => {
                return Err(e);
            },
            Ok(p) => {
                move_path = Some(p);
            },
        }
    }
    let k = if has_move {
        j + 1
    } else {
        j
    };
    let (chunks, index) = match parse_chunks(lines, k) {
        Err(e) => {
            return Err(e);
        },
        Ok(found) => found,
    };
    if chunks.len() == 0 && !has_move {
        return Err(ParseFailure::hunk(marker + 1, "update file hunk has no changes"));
    }
    let path_text = tail_from(&lines[marker], char_len(UPDATE_FILE_MARKER));
    match parse_path(&path_text, marker, env) {
        Err(e) => Err(e),
        Ok(p) => Ok((FileHunk::Update { path: p, move_path, chunks }, index)),
    }
}

/// Reads a delete whose marker is line `marker`.
fn parse_delete(lines: &Vec<Vec<char>>, marker: usize, env: &PathEnvironment) -> (r: Result<
    (FileHunk, usize),
    ParseFailure,
>)
    requires
        marker + 1 < lines@.len(),
        has_prefix(lines@[marker as int]@, DELETE_FILE_MARKER@),
        !has_prefix(lines@[marker as int]@, ADD_FILE_MARKER@),
    ensures
        operation_view(r) == operation_result(
            lines_view_of(lines@),
            marker as int,
            env.home.view(),
            env.vars_view(),
        ),
{
    assert(lines_view_of(lines@)[marker as int] == lines@[marker as int]@);
    let _n = lines.len();
    let path_text = tail_from(&lines[marker], char_len(DELETE_FILE_MARKER));
    match parse_path(&path_text, marker, env) {
        Err(e) => Err(e),
        Ok(p) => Ok((FileHunk::Delete { path: p }, marker + 1)),
    }
}

} // verus!

verus! {

/// `r` with the operations `acc` before its operations.
pub open spec fn hunks_shift(acc: Seq<HunkView>, r: Result<Seq<HunkView>, FailureView>) -> Result<
    Seq<HunkView>,
    FailureView,
> {
    match r {
        Ok(hs) => Ok(acc + hs),
        Err(x) => Err(x),
    }
}

/// Reads the file operations between the first and the last line.
fn parse_hunks(lines: &Vec<Vec<char>>, env: &PathEnvironment) -> (r: Result<Vec<FileHunk>, ParseFailure>)
    ensures
        parse_result_view(r) == hunks_from(
            lines_view_of(lines@),
            1,
            env.home.view(),
            env.vars_view(),
        ),
{
    let ghost lv = lines_view_of(lines@);
    let ghost home = env.home.view();
    let ghost vars = env.vars_view();
    let n = lines.len();
    let mut hunks: Vec<FileHunk> = Vec::new();
    let mut index: usize = 1;
    while index < n && index + 1 < n
        invariant
            1 <= index,
            index <= n || index == 1,
            n == lines@.len(),
            lv == lines_view_of(lines@),
            home == env.home.view(),
            vars == env.vars_view(),
            hunks_from(lv, 1, home, vars) == hunks_shift(
                hunks_view(hunks@),
                hunks_from(lv, index as int, home, vars),
            ),
        decreases n - index,
    {
        let line = &lines[index];
        assert(lv[index as int] == line@);
        let step = if starts_with(line, ADD_FILE_MARKER) {
            parse_add(lines, index, env)
        } else if starts_with(line, DELETE_FILE_MARKER) {
            parse_delete(lines, index, env)
        } else if starts_with(line, UPDATE_FILE_MARKER) {
            parse_update(lines, index, env)
        } else {
            return Err(ParseFailure::hunk(index + 1, "expected file operation marker"));
        };
        proof {
            lemma_operation_end(lv, index as int, home, vars);
        }
        match step {
            Err(e) => {
                return Err(e);
            },
            Ok((h, end)) => {
                let ghost prev = hunks@;
                hunks.push(h);
                proof {
                    assert(hunks_view(hunks@) =~= hunks_view(prev).push(h.view()));
                    if let Ok(hs) = hunks_from(lv, end as int, home, vars) {
                        assert(hunks_view(prev) + (seq![h.view()] + hs) =~= hunks_view(prev).push(
                            h.view(),
                        ) + hs);
                    }
                }
                index = end;
            },
        }
    }
    assert(hunks_view(hunks@) + seq![] =~= hunks_view(hunks@));
    Ok(hunks)
}

/// Parses a patch: its lines are checked for the begin and end markers
/// (also inside a `<<EOF` heredoc), then read as file operations, each
/// path expanded in `env` and required to be absolute (see `parse_spec`).
pub fn parse_patch(patch: &str, env: &PathEnvironment) -> (r: Result<Vec<FileHunk>, ParseFailure>)
    ensures
        parse_result_view(r) == parse_spec(patch@, env.home.view(), env.vars_view()),
{
    let lines = split_patch_lines(patch);
    match check_lenient(lines) {
        Err(e) => Err(e),
        Ok(body) => parse_hunks(&body, env),
    }
}

} // verus!
