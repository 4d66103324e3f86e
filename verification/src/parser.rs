//! The patch format: markers, parsed hunks, parse failures, and the parser.
//!
//! A patch is `*** Begin Patch`, then file operations, then
//! `*** End Patch` (optionally wrapped in a `<<EOF` heredoc).  Operations
//! are `*** Add File: PATH` followed by `+` lines, `*** Delete File: PATH`,
//! and `*** Update File: PATH`, optionally followed by `*** Move to: PATH`,
//! then `@@` chunks of ` `, `-` and `+` lines, possibly marked
//! `*** End of File`.

use crate::path_expansion::{ExpansionFailure, PathExpansionError};
use crate::text::{chars_of, decimal, format_count, string_of, strings_view};
use smallvec::SmallVec;
use vstd::prelude::*;

pub mod grammar;
pub mod parse;

verus! {

pub const BEGIN_PATCH_MARKER: &'static str = "*** Begin Patch";

pub const END_PATCH_MARKER: &'static str = "*** End Patch";

pub const ADD_FILE_MARKER: &'static str = "*** Add File: ";

pub const DELETE_FILE_MARKER: &'static str = "*** Delete File: ";

pub const UPDATE_FILE_MARKER: &'static str = "*** Update File: ";

pub const MOVE_TO_MARKER: &'static str = "*** Move to: ";

pub const EOF_MARKER: &'static str = "*** End of File";

pub const CHANGE_CONTEXT_MARKER: &'static str = "@@ ";

pub const EMPTY_CHANGE_CONTEXT_MARKER: &'static str = "@@";

/// The old or new lines of a chunk, held in a `SmallVec` (up to four
/// lines inline).
#[verifier::external_body]
#[derive(Debug, PartialEq, Eq)]
pub struct ChunkLines {
    lines: SmallVec<[String; 4]>,
}

/// The lines held by a chunk's line list, in order.
pub uninterp spec fn chunk_lines_of(lines: ChunkLines) -> Seq<Seq<char>>;

/// Builds a chunk's line list with `SmallVec::from_vec`, which keeps the
/// vector's items in their order (inline when they fit, else in the
/// vector's own buffer).
#[verifier::external_body]
pub(crate) fn chunk_lines_from_vec(lines: Vec<String>) -> (r: ChunkLines)
    ensures
        chunk_lines_of(r) == strings_view(lines@),
{
    ChunkLines { lines: SmallVec::from_vec(lines) }
}

/// The items of a chunk's line list, in order (`SmallVec::as_slice`).
#[verifier::external_body]
pub(crate) fn chunk_lines_slice(lines: &ChunkLines) -> (r: &[String])
    ensures
        strings_view(r@) == chunk_lines_of(*lines),
{
    lines.lines.as_slice()
}

/// A copy of a chunk's line list (`SmallVec::clone`, which clones each
/// item in order).
#[verifier::external_body]
fn chunk_lines_clone(lines: &ChunkLines) -> (r: ChunkLines)
    ensures
        chunk_lines_of(r) == chunk_lines_of(*lines),
{
    ChunkLines { lines: lines.lines.clone() }
}

impl Clone for ChunkLines {
    fn clone(&self) -> (r: Self)
        ensures
            chunk_lines_of(r) == chunk_lines_of(*self),
    {
        chunk_lines_clone(self)
    }
}

/// One `@@` chunk of an update hunk.
#[derive(Debug, Clone, PartialEq, Eq)]
pub struct UpdateChunk {
    pub change_context: Option<String>,
    pub old_lines: ChunkLines,
    pub new_lines: ChunkLines,
    pub is_end_of_file: bool,
}

/// The character-level view of an update chunk.
pub struct ChunkView {
    pub context: Option<Seq<char>>,
    pub old: Seq<Seq<char>>,
    pub new: Seq<Seq<char>>,
    pub eof: bool,
}

impl UpdateChunk {
    /// A chunk with the given context line, old and new lines, and end of
    /// file mark.
    pub fn new(
        change_context: Option<String>,
        old_lines: Vec<String>,
        new_lines: Vec<String>,
        is_end_of_file: bool,
    ) -> (r: Self)
        ensures
            r.view() == (ChunkView {
                context: match change_context {
                    Some(c) => Some(c@),
                    None => None,
                },
                old: strings_view(old_lines@),
                new: strings_view(new_lines@),
                eof: is_end_of_file,
            }),
    {
        UpdateChunk {
            change_context,
            old_lines: chunk_lines_from_vec(old_lines),
            new_lines: chunk_lines_from_vec(new_lines),
            is_end_of_file,
        }
    }

    pub open spec fn view(&self) -> ChunkView {
        ChunkView {
            context: match self.change_context {
                Some(c) => Some(c@),
                None => None,
            },
            old: chunk_lines_of(self.old_lines),
            new: chunk_lines_of(self.new_lines),
            eof: self.is_end_of_file,
        }
    }
}

/// The views of a list of chunks.
pub open spec fn chunks_view(chunks: Seq<UpdateChunk>) -> Seq<ChunkView> {
    chunks.map_values(|c: UpdateChunk| c.view())
}

/// One file operation of a patch.
#[derive(Debug, Clone, PartialEq, Eq)]
pub enum FileHunk {
    Add { path: String, contents: String, line_count: usize, character_count: usize },
    Delete { path: String },
    Update { path: String, move_path: Option<String>, chunks: Vec<UpdateChunk> },
}

pub enum HunkView {
    Add { path: Seq<char>, contents: Seq<char>, line_count: int, character_count: int },
    Delete { path: Seq<char> },
    Update { path: Seq<char>, move_path: Option<Seq<char>>, chunks: Seq<ChunkView> },
}

impl FileHunk {
    pub open spec fn view(&self) -> HunkView {
        match self {
            FileHunk::Add { path, contents, line_count, character_count } => HunkView::Add {
                path: path@,
                contents: contents@,
                line_count: *line_count as int,
                character_count: *character_count as int,
            },
            FileHunk::Delete { path } => HunkView::Delete { path: path@ },
            FileHunk::Update { path, move_path, chunks } => HunkView::Update {
                path: path@,
                move_path: match move_path {
                    Some(m) => Some(m@),
                    None => None,
                },
                chunks: chunks_view(chunks@),
            },
        }
    }
}

pub open spec fn hunks_view(h: Seq<FileHunk>) -> Seq<HunkView> {
    h.map_values(|x: FileHunk| x.view())
}

/// Why a patch could not be parsed.
#[derive(Debug, Clone, PartialEq, Eq)]
pub enum ParseFailure {
    Patch(String),
    Hunk { line_number: usize, message: String },
}

pub enum FailureView {
    Patch(Seq<char>),
    Hunk { line_number: int, message: Seq<char> },
}

impl ParseFailure {
    pub open spec fn view(&self) -> FailureView {
        match self {
            ParseFailure::Patch(m) => FailureView::Patch(m@),
            ParseFailure::Hunk { line_number, message } => FailureView::Hunk {
                line_number: *line_number as int,
                message: message@,
            },
        }
    }

    /// A failure of the patch as a whole.
    pub fn patch(message: &str) -> (r: Self)
        ensures
            r.view() == FailureView::Patch(message@),
    {
        ParseFailure::Patch(string_of(&chars_of(message)))
    }

    /// A failure at a (1-based) line.
    pub fn hunk(line_number: usize, message: &str) -> (r: Self)
        ensures
            r.view() == (FailureView::Hunk { line_number: line_number as int, message: message@ }),
    {
        ParseFailure::Hunk { line_number, message: string_of(&chars_of(message)) }
    }

    /// The failure's text.
    pub fn to_message(&self) -> (r: String)
        ensures
            r@ == failure_text(self.view()),
    {
        match self {
            ParseFailure::Patch(m) => {
                let mut out = chars_of("Invalid patch: ");
                crate::content::push_all(&mut out, &chars_of(m.as_str()));
                string_of(&out)
            },
            ParseFailure::Hunk { line_number, message } => {
                let mut out = chars_of("Invalid patch hunk on line ");
                crate::content::push_all(&mut out, &chars_of(format_count(*line_number).as_str()));
                crate::content::push_all(&mut out, &chars_of(": "));
                crate::content::push_all(&mut out, &chars_of(message.as_str()));
                string_of(&out)
            },
        }
    }
}

pub open spec fn parse_result_view(r: Result<Vec<FileHunk>, ParseFailure>) -> Result<Seq<HunkView>, FailureView> {
    match r {
        Ok(h) => Ok(hunks_view(h@)),
        Err(e) => Err(e.view()),
    }
}

/// The text of a parse failure.
pub open spec fn failure_text(f: FailureView) -> Seq<char> {
    match f {
        FailureView::Patch(m) => "Invalid patch: "@ + m,
        FailureView::Hunk { line_number, message } => "Invalid patch hunk on line "@ + decimal(
            line_number as nat,
        ) + ": "@ + message,
    }
}

/// The text of a path expansion failure.
pub open spec fn expansion_text(e: ExpansionFailure) -> Seq<char> {
    match e {
        ExpansionFailure::MissingVariable { name, path } => "environment variable '"@ + name
            + "' is not set in path '"@ + path + "'"@,
        ExpansionFailure::EmptyVariable { path } => "empty environment variable name in path '"@
            + path + "'"@,
        ExpansionFailure::UnterminatedBracedVariable { path } =>
            "unterminated braced environment variable in path '"@ + path + "'"@,
        ExpansionFailure::MissingHome { path } => "home directory is unavailable for path '"@ + path
            + "'"@,
        ExpansionFailure::NonUnicodeHome { path } => "home directory is not valid Unicode for path '"@
            + path + "'"@,
        ExpansionFailure::NonUnicodeVariable { name, path } => "environment variable '"@ + name
            + "' is not valid Unicode in path '"@ + path + "'"@,
    }
}

fn concat3(a: &str, b: &String, c: &str) -> (r: String)
    ensures
        r@ == a@ + b@ + c@,
{
    let mut out = chars_of(a);
    crate::content::push_all(&mut out, &chars_of(b.as_str()));
    crate::content::push_all(&mut out, &chars_of(c));
    string_of(&out)
}

fn concat5(a: &str, b: &String, c: &str, d: &String, e: &str) -> (r: String)
    ensures
        r@ == a@ + b@ + c@ + d@ + e@,
{
    let mut out = chars_of(a);
    crate::content::push_all(&mut out, &chars_of(b.as_str()));
    crate::content::push_all(&mut out, &chars_of(c));
    crate::content::push_all(&mut out, &chars_of(d.as_str()));
    crate::content::push_all(&mut out, &chars_of(e));
    string_of(&out)
}

impl PathExpansionError {
    /// The failure's text (see `expansion_text`).
    pub fn to_message(&self) -> (r: String)
        ensures
            r@ == expansion_text(self.view()),
    {
        match self {
            PathExpansionError::MissingVariable { name, path } => concat5(
                "environment variable '",
                name,
                "' is not set in path '",
                path,
                "'",
            ),
            PathExpansionError::EmptyVariable { path } => concat3(
                "empty environment variable name in path '",
                path,
                "'",
            ),
            PathExpansionError::UnterminatedBracedVariable { path } => concat3(
                "unterminated braced environment variable in path '",
                path,
                "'",
            ),
            PathExpansionError::MissingHome { path } => concat3(
                "home directory is unavailable for path '",
                path,
                "'",
            ),
            PathExpansionError::NonUnicodeHome { path } => concat3(
                "home directory is not valid Unicode for path '",
                path,
                "'",
            ),
            PathExpansionError::NonUnicodeVariable { name, path } => concat5(
                "environment variable '",
                name,
                "' is not valid Unicode in path '",
                path,
                "'",
            ),
        }
    }
}

} // verus!
