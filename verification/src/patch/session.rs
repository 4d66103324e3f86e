//! The decisions of applying a patch, one file operation at a time.
//!
//! A `PatchSession` holds the parsed hunks that are left, the step of the
//! hunk under way and the summary so far.  Its `action` names the file
//! operation to perform next; the caller performs it and hands the outcome
//! to `advance` (the contents of a file that was read, or the message of a
//! failed operation).  A failed operation is reported and the session goes
//! on with the next hunk.

use crate::content::{edited_text, plan_all, plan_renderable, try_derive_new_contents, Planning};
use crate::parser::grammar::{hunk_has_changes, parse_spec};
use crate::parser::parse::parse_patch;
use crate::patch::ApplyResult;
use crate::parser::{
    chunks_view, failure_text, hunks_view, ChunkView, FileHunk, HunkView, UpdateChunk,
};
use crate::path_expansion::{PathEnvironment, VarView};
use crate::patch::summary::{
    stats_of, render_spec, FileFailure, FileFailureView, FileStats, FileSuccess,
    OperationKind, SuccessView, Summary,
};
use crate::text::{chars_of, lines_of, string_of, strings_view, trim, trim_bounds};
use vstd::prelude::*;

verus! {

/// The failure reason of an update whose located edits overlap or run
/// backwards, which cannot be applied in one forward pass.
pub const UNORDERED_EDITS: &'static str = "replacement ranges must be ordered and in bounds";

/// A file operation for the caller to perform.
#[derive(Debug, Clone, PartialEq, Eq)]
pub enum FileAction {
    /// Write `contents` to `path`, creating missing parent directories.
    CreateFile { path: String, contents: String },
    /// Read the file that an update changes.
    ReadForUpdate { path: String },
    /// Read the file that is to be deleted (a directory is refused).
    ReadForDelete { path: String },
    /// Delete a file (a directory is refused).
    DeleteFile { path: String },
    /// Overwrite the file that an update changes.
    WriteFile { path: String, contents: String },
    /// Remove the original of a moved file.
    RemoveOriginal { path: String },
    /// Nothing is left to do.
    Finish,
}

pub enum ActionView {
    CreateFile { path: Seq<char>, contents: Seq<char> },
    ReadForUpdate { path: Seq<char> },
    ReadForDelete { path: Seq<char> },
    DeleteFile { path: Seq<char> },
    WriteFile { path: Seq<char>, contents: Seq<char> },
    RemoveOriginal { path: Seq<char> },
    Finish,
}

impl FileAction {
    pub open spec fn view(&self) -> ActionView {
        match self {
            FileAction::CreateFile { path, contents } => ActionView::CreateFile {
                path: path@,
                contents: contents@,
            },
            FileAction::ReadForUpdate { path } => ActionView::ReadForUpdate { path: path@ },
            FileAction::ReadForDelete { path } => ActionView::ReadForDelete { path: path@ },
            FileAction::DeleteFile { path } => ActionView::DeleteFile { path: path@ },
            FileAction::WriteFile { path, contents } => ActionView::WriteFile {
                path: path@,
                contents: contents@,
            },
            FileAction::RemoveOriginal { path } => ActionView::RemoveOriginal { path: path@ },
            FileAction::Finish => ActionView::Finish,
        }
    }
}

/// Where the hunk under way stands.
pub enum Step {
    /// An added file is being written.
    CreateFile { path: String, contents: String, after: FileStats },
    /// A file to delete is being read.
    ReadForDelete { path: String },
    /// A file is being deleted.
    DeleteFile { path: String, before: FileStats },
    /// The file of an update is being read.
    ReadForUpdate { path: String, move_path: Option<String>, chunks: Vec<UpdateChunk> },
    /// The new contents of an update are being written in place.
    WriteFile { path: String, contents: String, before: FileStats, after: FileStats },
    /// The contents of a moved file are being written to its destination.
    WriteMoved {
        source: String,
        destination: String,
        contents: String,
        before: FileStats,
        after: FileStats,
    },
    /// The original of a moved file is being removed.
    RemoveOriginal { source: String },
    /// Every hunk has been handled.
    Finished,
}

pub enum StepView {
    CreateFile { path: Seq<char>, contents: Seq<char>, after: FileStats },
    ReadForDelete { path: Seq<char> },
    DeleteFile { path: Seq<char>, before: FileStats },
    ReadForUpdate { path: Seq<char>, move_path: Option<Seq<char>>, chunks: Seq<ChunkView> },
    WriteFile { path: Seq<char>, contents: Seq<char>, before: FileStats, after: FileStats },
    WriteMoved {
        source: Seq<char>,
        destination: Seq<char>,
        contents: Seq<char>,
        before: FileStats,
        after: FileStats,
    },
    RemoveOriginal { source: Seq<char> },
    Finished,
}

pub open spec fn option_view(o: Option<String>) -> Option<Seq<char>> {
    match o {
        Some(s) => Some(s@),
        None => None,
    }
}

impl Step {
    pub open spec fn view(&self) -> StepView {
        match self {
            Step::CreateFile { path, contents, after } => StepView::CreateFile {
                path: path@,
                contents: contents@,
                after: *after,
            },
            Step::ReadForDelete { path } => StepView::ReadForDelete { path: path@ },
            Step::DeleteFile { path, before } => StepView::DeleteFile { path: path@, before: *before },
            Step::ReadForUpdate { path, move_path, chunks } => StepView::ReadForUpdate {
                path: path@,
                move_path: option_view(*move_path),
                chunks: chunks_view(chunks@),
            },
            Step::WriteFile { path, contents, before, after } => StepView::WriteFile {
                path: path@,
                contents: contents@,
                before: *before,
                after: *after,
            },
            Step::WriteMoved { source, destination, contents, before, after } =>
                StepView::WriteMoved {
                source: source@,
                destination: destination@,
                contents: contents@,
                before: *before,
                after: *after,
            },
            Step::RemoveOriginal { source } => StepView::RemoveOriginal { source: source@ },
            Step::Finished => StepView::Finished,
        }
    }
}

/// The state of applying a patch.
pub struct PatchSession {
    /// The hunks not begun yet, the next one last.
    pub pending: Vec<FileHunk>,
    pub step: Step,
    pub summary: Summary,
}

pub struct SessionView {
    /// The hunks not begun yet, in patch order.
    pub remaining: Seq<HunkView>,
    pub step: StepView,
    pub successes: Seq<SuccessView>,
    pub failures: Seq<FileFailureView>,
}

impl PatchSession {
    pub open spec fn view(&self) -> SessionView {
        SessionView {
            remaining: hunks_view(self.pending@).reverse(),
            step: self.step.view(),
            successes: self.summary.successes_view(),
            failures: self.summary.failures_view(),
        }
    }
}

/// The first step of a hunk.
pub open spec fn first_step(h: HunkView) -> StepView {
    match h {
        HunkView::Add { path, contents, line_count, character_count } => StepView::CreateFile {
            path,
            contents,
            after: FileStats {
                line_count: line_count as usize,
                character_count: character_count as usize,
            },
        },
        HunkView::Delete { path } => StepView::ReadForDelete { path },
        HunkView::Update { path, move_path, chunks } => StepView::ReadForUpdate {
            path,
            move_path,
            chunks,
        },
    }
}

/// Begins the next hunk, or finishes when none is left.
pub open spec fn begin_next(
    remaining: Seq<HunkView>,
    successes: Seq<SuccessView>,
    failures: Seq<FileFailureView>,
) -> SessionView {
    if remaining.len() > 0 {
        SessionView { remaining: remaining.drop_first(), step: first_step(remaining[0]), successes, failures }
    } else {
        SessionView { remaining, step: StepView::Finished, successes, failures }
    }
}

/// The file operation that a step asks for.
pub open spec fn action_spec(step: StepView) -> ActionView {
    match step {
        StepView::CreateFile { path, contents, .. } => ActionView::CreateFile { path, contents },
        StepView::ReadForDelete { path } => ActionView::ReadForDelete { path },
        StepView::DeleteFile { path, .. } => ActionView::DeleteFile { path },
        StepView::ReadForUpdate { path, .. } => ActionView::ReadForUpdate { path },
        StepView::WriteFile { path, contents, .. } => ActionView::WriteFile { path, contents },
        StepView::WriteMoved { destination, contents, .. } => ActionView::CreateFile {
            path: destination,
            contents,
        },
        StepView::RemoveOriginal { source } => ActionView::RemoveOriginal { path: source },
        StepView::Finished => ActionView::Finish,
    }
}

pub open spec fn file_failure(kind: OperationKind, path: Seq<char>, reason: Seq<char>) -> FileFailureView {
    FileFailureView { operation: Some((kind, path)), reason }
}

/// The failures of an update's chunks, in chunk order.
pub open spec fn chunk_failures(path: Seq<char>, reasons: Seq<Seq<char>>) -> Seq<FileFailureView> {
    reasons.map_values(|r: Seq<char>| file_failure(OperationKind::Edit, path, r))
}

/// What follows reading `original`, the file of an update: a move without
/// changes writes it to the destination; otherwise the chunks are located
/// (each one that cannot be is reported) and, when at least one applies,
/// the new contents are written, to the destination of a move if any.
pub open spec fn after_update_read(
    remaining: Seq<HunkView>,
    successes: Seq<SuccessView>,
    failures: Seq<FileFailureView>,
    path: Seq<char>,
    move_path: Option<Seq<char>>,
    chunks: Seq<ChunkView>,
    original: Seq<char>,
    planning: Planning,
) -> SessionView {
    if chunks.len() == 0 {
        match move_path {
            Some(destination) => SessionView {
                remaining,
                step: StepView::WriteMoved {
                    source: path,
                    destination,
                    contents: original,
                    before: stats_of(original),
                    after: stats_of(original),
                },
                successes,
                failures,
            },
            None => begin_next(remaining, successes, failures),
        }
    } else if !plan_renderable(original, chunks, planning) {
        begin_next(
            remaining,
            successes,
            failures.push(file_failure(OperationKind::Edit, path, UNORDERED_EDITS@)),
        )
    } else {
        let p = plan_all(lines_of(original), chunks, planning);
        let failed = failures + chunk_failures(path, p.errors);
        if p.applied == 0 {
            begin_next(remaining, successes, failed)
        } else {
            let contents = edited_text(original, p.forward);
            let before = stats_of(edited_text(original, p.reverse));
            let after = stats_of(contents);
            let step = match move_path {
                Some(destination) => StepView::WriteMoved {
                    source: path,
                    destination,
                    contents,
                    before,
                    after,
                },
                None => StepView::WriteFile { path, contents, before, after },
            };
            SessionView { remaining, step, successes, failures: failed }
        }
    }
}

/// The session after the outcome of its action: the contents of a file
/// that was read, or, on `Err`, why the operation failed.
pub open spec fn advance_spec(
    s: SessionView,
    outcome: Result<Seq<char>, Seq<char>>,
    planning: Planning,
) -> SessionView {
    match s.step {
        StepView::CreateFile { path, contents, after } => match outcome {
            Ok(_) => begin_next(
                s.remaining,
                s.successes.push(
                    SuccessView { kind: OperationKind::Add, path, before: None, after: Some(after) },
                ),
                s.failures,
            ),
            Err(m) => begin_next(
                s.remaining,
                s.successes,
                s.failures.push(file_failure(OperationKind::Add, path, m)),
            ),
        },
        StepView::ReadForDelete { path } => match outcome {
            Ok(c) => SessionView {
                remaining: s.remaining,
                step: StepView::DeleteFile { path, before: stats_of(c) },
                successes: s.successes,
                failures: s.failures,
            },
            Err(m) => begin_next(
                s.remaining,
                s.successes,
                s.failures.push(file_failure(OperationKind::Delete, path, m)),
            ),
        },
        StepView::DeleteFile { path, before } => match outcome {
            Ok(_) => begin_next(
                s.remaining,
                s.successes.push(
                    SuccessView {
                        kind: OperationKind::Delete,
                        path,
                        before: Some(before),
                        after: None,
                    },
                ),
                s.failures,
            ),
            Err(m) => begin_next(
                s.remaining,
                s.successes,
                s.failures.push(file_failure(OperationKind::Delete, path, m)),
            ),
        },
        StepView::ReadForUpdate { path, move_path, chunks } => match outcome {
            Ok(c) => after_update_read(
                s.remaining,
                s.successes,
                s.failures,
                path,
                move_path,
                chunks,
                c,
                planning,
            ),
            Err(m) => begin_next(
                s.remaining,
                s.successes,
                s.failures.push(file_failure(OperationKind::Edit, path, m)),
            ),
        },
        StepView::WriteFile { path, contents, before, after } => match outcome {
            Ok(_) => begin_next(
                s.remaining,
                s.successes.push(
                    SuccessView {
                        kind: OperationKind::Edit,
                        path,
                        before: Some(before),
                        after: Some(after),
                    },
                ),
                s.failures,
            ),
            Err(m) => begin_next(
                s.remaining,
                s.successes,
                s.failures.push(file_failure(OperationKind::Edit, path, m)),
            ),
        },
        StepView::WriteMoved { source, destination, contents, before, after } => match outcome {
            Ok(_) => SessionView {
                remaining: s.remaining,
                step: StepView::RemoveOriginal { source },
                successes: s.successes.push(
                    SuccessView {
                        kind: OperationKind::Edit,
                        path: destination,
                        before: Some(before),
                        after: Some(after),
                    },
                ),
                failures: s.failures,
            },
            Err(m) => begin_next(
                s.remaining,
                s.successes,
                s.failures.push(file_failure(OperationKind::Edit, destination, m)),
            ),
        },
        StepView::RemoveOriginal { source } => match outcome {
            Ok(_) => begin_next(s.remaining, s.successes, s.failures),
            Err(m) => begin_next(
                s.remaining,
                s.successes,
                s.failures.push(file_failure(OperationKind::Edit, source, m)),
            ),
        },
        StepView::Finished => s,
    }
}

/// A finished session with one failure of the whole patch.
pub open spec fn refused(reason: Seq<char>) -> SessionView {
    SessionView {
        remaining: seq![],
        step: StepView::Finished,
        successes: seq![],
        failures: seq![FileFailureView { operation: None, reason }],
    }
}

/// The session that applying `patch` starts with: a blank patch, one that
/// does not parse and one without file operations are refused; otherwise
/// the first hunk begins.
pub open spec fn start_spec(patch: Seq<char>, home: VarView, vars: Seq<(Seq<char>, VarView)>) -> SessionView {
    if trim(patch).len() == 0 {
        refused("patch must not be empty"@)
    } else {
        match parse_spec(patch, home, vars) {
            Err(f) => refused(failure_text(f)),
            Ok(hunks) => if hunks.len() == 0 {
                refused("No files were modified."@)
            } else {
                begin_next(hunks, seq![], seq![])
            },
        }
    }
}

pub open spec fn outcome_view(o: Result<String, String>) -> Result<Seq<char>, Seq<char>> {
    match o {
        Ok(s) => Ok(s@),
        Err(m) => Err(m@),
    }
}

} // verus!

verus! {

/// The first step of a hunk (see `first_step`).
fn first_step_of(h: FileHunk) -> (r: Step)
    ensures
        r.view() == first_step(h.view()),
{
    match h {
        FileHunk::Add { path, contents, line_count, character_count } => Step::CreateFile {
            path,
            contents,
            after: FileStats::from_counts(line_count, character_count),
        },
        FileHunk::Delete { path } => Step::ReadForDelete { path },
        FileHunk::Update { path, move_path, chunks } => Step::ReadForUpdate { path, move_path, chunks },
    }
}

/// A literal as a `String`.
fn owned(s: &str) -> (r: String)
    ensures
        r@ == s@,
{
    string_of(&chars_of(s))
}

impl PatchSession {
    /// Begins the last of `pending` (see `begin_next`).
    fn begin_next_hunk(pending: Vec<FileHunk>, summary: Summary) -> (r: Self)
        ensures
            r.view() == begin_next(
                hunks_view(pending@).reverse(),
                summary.successes_view(),
                summary.failures_view(),
            ),
    {
        let ghost hv = hunks_view(pending@);
        let mut pending = pending;
        match pending.pop() {
            Some(h) => {
                proof {
                    assert(hunks_view(pending@) =~= hv.drop_last());
                    assert(hunks_view(pending@).reverse() =~= hv.reverse().drop_first());
                    assert(hv.reverse()[0] == h.view());
                }
                PatchSession { pending, step: first_step_of(h), summary }
            },
            None => {
                assert(hv.reverse() =~= Seq::<HunkView>::empty());
                PatchSession { pending, step: Step::Finished, summary }
            },
        }
    }

    /// A finished session that refuses the whole patch.
    fn refused(reason: String) -> (r: Self)
        ensures
            r.view() == refused(reason@),
    {
        let r = PatchSession { pending: Vec::new(), step: Step::Finished, summary: Summary::failed(reason) };
        assert(hunks_view(r.pending@).reverse() =~= Seq::<HunkView>::empty());
        r
    }

    /// The session that applies `patch`, its paths expanded in `env` (see
    /// `start_spec`).
    pub fn start(patch: &str, env: &PathEnvironment) -> (r: Self)
        ensures
            r.view() == start_spec(patch@, env.home.view(), env.vars_view()),
    {
        let text = chars_of(patch);
        let (a, b) = trim_bounds(&text, 0, text.len(), true, true);
        assert(text@.subrange(0, text@.len() as int) == text@);
        if a == b {
            return Self::refused(owned("patch must not be empty"));
        }
        match parse_patch(patch, env) {
            Err(e) => Self::refused(e.to_message()),
            Ok(hunks) => {
                if hunks.len() == 0 {
                    return Self::refused(owned("No files were modified."));
                }
                let ghost all = hunks_view(hunks@);
                let mut hunks = hunks;
                let mut pending: Vec<FileHunk> = Vec::new();
                assert(hunks_view(hunks@) + hunks_view(pending@).reverse() =~= all);
                while hunks.len() > 0
                    invariant
                        hunks_view(hunks@) + hunks_view(pending@).reverse() == all,
                    decreases hunks@.len(),
                {
                    let ghost h0 = hunks_view(hunks@);
                    let ghost p0 = hunks_view(pending@);
                    match hunks.pop() {
                        Some(h) => {
                            pending.push(h);
                            proof {
                                assert(hunks_view(hunks@) =~= h0.drop_last());
                                assert(hunks_view(pending@) =~= p0.push(h.view()));
                                assert(p0.push(h.view()).reverse() =~= seq![h.view()] + p0.reverse());
                                assert(h0.drop_last() + (seq![h.view()] + p0.reverse()) =~= h0
                                    + p0.reverse());
                            }
                        },
                        None => {},
                    }
                }
                assert(hunks_view(pending@).reverse() =~= all);
                Self::begin_next_hunk(pending, Summary::new())
            },
        }
    }

    /// The file operation to perform next (see `action_spec`).
    pub fn action(&self) -> (r: FileAction)
        ensures
            r.view() == action_spec(self.view().step),
    {
        match &self.step {
            Step::CreateFile { path, contents, .. } => FileAction::CreateFile {
                path: path.clone(),
                contents: contents.clone(),
            },
            Step::ReadForDelete { path } => FileAction::ReadForDelete { path: path.clone() },
            Step::DeleteFile { path, .. } => FileAction::DeleteFile { path: path.clone() },
            Step::ReadForUpdate { path, .. } => FileAction::ReadForUpdate { path: path.clone() },
            Step::WriteFile { path, contents, .. } => FileAction::WriteFile {
                path: path.clone(),
                contents: contents.clone(),
            },
            Step::WriteMoved { destination, contents, .. } => FileAction::CreateFile {
                path: destination.clone(),
                contents: contents.clone(),
            },
            Step::RemoveOriginal { source } => FileAction::RemoveOriginal { path: source.clone() },
            Step::Finished => FileAction::Finish,
        }
    }

    /// Every hunk has been handled.
    pub fn is_finished(&self) -> (r: bool)
        ensures
            r == (self.view().step is Finished),
    {
        match self.step {
            Step::Finished => true,
            _ => false,
        }
    }
}

} // verus!

verus! {

impl PatchSession {
    /// What follows reading `original`, the file of an update (see
    /// `after_update_read`).
    fn after_read(
        pending: Vec<FileHunk>,
        summary: Summary,
        path: String,
        move_path: Option<String>,
        chunks: Vec<UpdateChunk>,
        original: String,
        planning: Planning,
    ) -> (r: Self)
        ensures
            r.view() == after_update_read(
                hunks_view(pending@).reverse(),
                summary.successes_view(),
                summary.failures_view(),
                path@,
                option_view(move_path),
                chunks_view(chunks@),
                original@,
                planning,
            ),
    {
        let mut summary = summary;
        if chunks.len() == 0 {
            assert(chunks_view(chunks@).len() == 0);
            return match move_path {
                Some(destination) => {
                    let stats = FileStats::from_contents(original.as_str());
                    PatchSession {
                        pending,
                        step: Step::WriteMoved {
                            source: path,
                            destination,
                            contents: original,
                            before: stats,
                            after: stats,
                        },
                        summary,
                    }
                },
                None => Self::begin_next_hunk(pending, summary),
            };
        }
        assert(chunks_view(chunks@).len() > 0);
        match try_derive_new_contents(original.as_str(), &chunks, planning) {
            None => {
                summary.push_failure(
                    FileFailure::file(OperationKind::Edit, path, owned(UNORDERED_EDITS)),
                );
                Self::begin_next_hunk(pending, summary)
            },
            Some(d) => {
                let ghost reasons = strings_view(d.errors@);
                let ghost f0 = summary.failures_view();
                let ghost s0 = summary.successes_view();
                let mut i: usize = 0;
                while i < d.errors.len()
                    invariant
                        i <= d.errors@.len(),
                        reasons == strings_view(d.errors@),
                        summary.failures_view() == f0 + chunk_failures(
                            path@,
                            reasons.subrange(0, i as int),
                        ),
                        summary.successes_view() == s0,
                    decreases d.errors@.len() - i,
                {
                    let ghost before = summary.failures_view();
                    summary.push_failure(
                        FileFailure::file(OperationKind::Edit, path.clone(), d.errors[i].clone()),
                    );
                    proof {
                        assert(reasons[i as int] == d.errors@[i as int]@);
                        assert(chunk_failures(path@, reasons.subrange(0, i + 1)) =~= chunk_failures(
                            path@,
                            reasons.subrange(0, i as int),
                        ).push(file_failure(OperationKind::Edit, path@, reasons[i as int])));
                        assert(f0 + chunk_failures(path@, reasons.subrange(0, i + 1)) =~= before.push(
                            file_failure(OperationKind::Edit, path@, reasons[i as int]),
                        ));
                    }
                    i += 1;
                }
                assert(reasons.subrange(0, reasons.len() as int) =~= reasons);
                if d.applied_chunks == 0 {
                    return Self::begin_next_hunk(pending, summary);
                }
                let before = FileStats::from_contents(d.before_contents.as_str());
                let after = FileStats::from_contents(d.contents.as_str());
                let step = match move_path {
                    Some(destination) => Step::WriteMoved {
                        source: path,
                        destination,
                        contents: d.contents,
                        before,
                        after,
                    },
                    None => Step::WriteFile { path, contents: d.contents, before, after },
                };
                PatchSession { pending, step, summary }
            },
        }
    }

    /// The session after the outcome of its action: the contents of a file
    /// that was read, or, on `Err`, why the operation failed (see
    /// `advance_spec`).
    pub fn advance(self, outcome: Result<String, String>, planning: Planning) -> (r: Self)
        ensures
            r.view() == advance_spec(self.view(), outcome_view(outcome), planning),
    {
        let PatchSession { pending, step, summary } = self;
        let mut summary = summary;
        match step {
            Step::CreateFile { path, contents: _, after } => {
                match outcome {
                    Ok(_) => summary.push_success(FileSuccess::add(path, after)),
                    Err(m) => summary.push_failure(FileFailure::file(OperationKind::Add, path, m)),
                }
                Self::begin_next_hunk(pending, summary)
            },
            Step::ReadForDelete { path } => match outcome {
                Ok(c) => PatchSession {
                    pending,
                    step: Step::DeleteFile { path, before: FileStats::from_contents(c.as_str()) },
                    summary,
                },
                Err(m) => {
                    summary.push_failure(FileFailure::file(OperationKind::Delete, path, m));
                    Self::begin_next_hunk(pending, summary)
                },
            },
            Step::DeleteFile { path, before } => {
                match outcome {
                    Ok(_) => summary.push_success(FileSuccess::delete(path, before)),
                    Err(m) => summary.push_failure(FileFailure::file(OperationKind::Delete, path, m)),
                }
                Self::begin_next_hunk(pending, summary)
            },
            Step::ReadForUpdate { path, move_path, chunks } => match outcome {
                Ok(c) => Self::after_read(pending, summary, path, move_path, chunks, c, planning),
                Err(m) => {
                    summary.push_failure(FileFailure::file(OperationKind::Edit, path, m));
                    Self::begin_next_hunk(pending, summary)
                },
            },
            Step::WriteFile { path, contents: _, before, after } => {
                match outcome {
                    Ok(_) => summary.push_success(FileSuccess::edit(path, before, after)),
                    Err(m) => summary.push_failure(FileFailure::file(OperationKind::Edit, path, m)),
                }
                Self::begin_next_hunk(pending, summary)
            },
            Step::WriteMoved { source, destination, contents: _, before, after } => match outcome {
                Ok(_) => {
                    summary.push_success(FileSuccess::edit(destination, before, after));
                    PatchSession { pending, step: Step::RemoveOriginal { source }, summary }
                },
                Err(m) => {
                    summary.push_failure(FileFailure::file(OperationKind::Edit, destination, m));
                    Self::begin_next_hunk(pending, summary)
                },
            },
            Step::RemoveOriginal { source } => {
                match outcome {
                    Ok(_) => {},
                    Err(m) => summary.push_failure(FileFailure::file(OperationKind::Edit, source, m)),
                }
                Self::begin_next_hunk(pending, summary)
            },
            Step::Finished => PatchSession { pending, step: Step::Finished, summary },
        }
    }

    /// The outcome of the patch so far: whether nothing failed, and the
    /// rendered summary.
    pub fn result(&self) -> (r: ApplyResult)
        ensures
            r.succeeded == (self.view().failures.len() == 0),
            r.output@ == render_spec(self.view().successes, self.view().failures),
    {
        ApplyResult { output: self.summary.render(), succeeded: self.summary.succeeded() }
    }
}

} // verus!

verus! {

/// The rank of a step: how many file operations its hunk may still ask
/// for, at most.
pub open spec fn step_rank(step: StepView) -> int {
    match step {
        StepView::CreateFile { .. } => 1,
        StepView::ReadForDelete { .. } => 2,
        StepView::DeleteFile { .. } => 1,
        StepView::ReadForUpdate { .. } => 3,
        StepView::WriteFile { .. } => 1,
        StepView::WriteMoved { .. } => 2,
        StepView::RemoveOriginal { .. } => 1,
        StepView::Finished => 0,
    }
}

/// An upper bound on the file operations a session may still ask for.
pub open spec fn work_left(s: SessionView) -> int {
    4 * s.remaining.len() + step_rank(s.step)
}

/// Applying a patch terminates: every outcome handed to an unfinished
/// session lowers the work left, which is never negative.
pub proof fn law_advance_makes_progress(
    s: SessionView,
    outcome: Result<Seq<char>, Seq<char>>,
    planning: Planning,
)
    requires
        !(s.step is Finished),
    ensures
        0 <= work_left(advance_spec(s, outcome, planning)) < work_left(s),
{
}

/// The summary only grows: what was reported before an outcome is still
/// reported, in the same order, after it.
pub proof fn law_summary_only_grows(
    s: SessionView,
    outcome: Result<Seq<char>, Seq<char>>,
    planning: Planning,
)
    ensures
        advance_spec(s, outcome, planning).successes.len() >= s.successes.len(),
        advance_spec(s, outcome, planning).successes.subrange(0, s.successes.len() as int) == s.successes,
        advance_spec(s, outcome, planning).failures.len() >= s.failures.len(),
        advance_spec(s, outcome, planning).failures.subrange(0, s.failures.len() as int) == s.failures,
{
    let r = advance_spec(s, outcome, planning);
    if let StepView::ReadForUpdate { path, move_path, chunks } = s.step {
        if let Ok(c) = outcome {
            if chunks.len() > 0 && plan_renderable(c, chunks, planning) {
                let p = plan_all(lines_of(c), chunks, planning);
                assert((s.failures + chunk_failures(path, p.errors)).subrange(
                    0,
                    s.failures.len() as int,
                ) =~= s.failures);
            }
        }
    }
    assert(r.successes.subrange(0, s.successes.len() as int) =~= s.successes);
    assert(r.failures.subrange(0, s.failures.len() as int) =~= s.failures);
}

/// A failed file operation does not stop the patch: it is reported, with
/// the failure message as its reason, and the next hunk begins.
pub proof fn law_failure_moves_to_next_hunk(s: SessionView, message: Seq<char>, planning: Planning)
    requires
        !(s.step is Finished),
    ensures
        exists|kind: OperationKind, path: Seq<char>|
            advance_spec(s, Err(message), planning) == begin_next(
                s.remaining,
                s.successes,
                s.failures.push(file_failure(kind, path, message)),
            ),
{
    match s.step {
        StepView::CreateFile { path, .. } => {
            assert(advance_spec(s, Err(message), planning) == begin_next(
                s.remaining,
                s.successes,
                s.failures.push(file_failure(OperationKind::Add, path, message)),
            ));
        },
        StepView::ReadForDelete { path } => {
            assert(advance_spec(s, Err(message), planning) == begin_next(
                s.remaining,
                s.successes,
                s.failures.push(file_failure(OperationKind::Delete, path, message)),
            ));
        },
        StepView::DeleteFile { path, .. } => {
            assert(advance_spec(s, Err(message), planning) == begin_next(
                s.remaining,
                s.successes,
                s.failures.push(file_failure(OperationKind::Delete, path, message)),
            ));
        },
        StepView::ReadForUpdate { path, .. } => {
            assert(advance_spec(s, Err(message), planning) == begin_next(
                s.remaining,
                s.successes,
                s.failures.push(file_failure(OperationKind::Edit, path, message)),
            ));
        },
        StepView::WriteFile { path, .. } => {
            assert(advance_spec(s, Err(message), planning) == begin_next(
                s.remaining,
                s.successes,
                s.failures.push(file_failure(OperationKind::Edit, path, message)),
            ));
        },
        StepView::WriteMoved { destination, .. } => {
            assert(advance_spec(s, Err(message), planning) == begin_next(
                s.remaining,
                s.successes,
                s.failures.push(file_failure(OperationKind::Edit, destination, message)),
            ));
        },
        StepView::RemoveOriginal { source } => {
            assert(advance_spec(s, Err(message), planning) == begin_next(
                s.remaining,
                s.successes,
                s.failures.push(file_failure(OperationKind::Edit, source, message)),
            ));
        },
        StepView::Finished => {},
    }
}

/// A patch that is refused before any file operation (blank, unparsable,
/// or without operations) asks for none and reports exactly one failure of
/// the whole patch.
pub proof fn law_refused_patch_touches_no_file(
    patch: Seq<char>,
    home: VarView,
    vars: Seq<(Seq<char>, VarView)>,
)
    requires
        trim(patch).len() == 0 || !(parse_spec(patch, home, vars) matches Ok(h) && h.len() > 0),
    ensures
        start_spec(patch, home, vars).step is Finished,
        start_spec(patch, home, vars).successes.len() == 0,
        start_spec(patch, home, vars).failures.len() == 1,
        start_spec(patch, home, vars).failures[0].operation is None,
{
}

} // verus!

verus! {

/// `s` with the records `successes` and `failures` made before its own.
pub open spec fn after_records(
    s: SessionView,
    successes: Seq<SuccessView>,
    failures: Seq<FileFailureView>,
) -> SessionView {
    SessionView { successes: successes + s.successes, failures: failures + s.failures, ..s }
}

proof fn lemma_begin_next_after_records(
    remaining: Seq<HunkView>,
    a: Seq<SuccessView>,
    b: Seq<FileFailureView>,
    successes: Seq<SuccessView>,
    failures: Seq<FileFailureView>,
)
    ensures
        begin_next(remaining, successes + a, failures + b) == after_records(
            begin_next(remaining, a, b),
            successes,
            failures,
        ),
{
}

/// The records made before a session do not change what it does next:
/// advancing a session with earlier records gives the same session as
/// advancing it without them, those records kept in front.
pub proof fn lemma_advance_after_records(
    s: SessionView,
    outcome: Result<Seq<char>, Seq<char>>,
    planning: Planning,
    successes: Seq<SuccessView>,
    failures: Seq<FileFailureView>,
)
    ensures
        advance_spec(after_records(s, successes, failures), outcome, planning) == after_records(
            advance_spec(s, outcome, planning),
            successes,
            failures,
        ),
{
    let t = after_records(s, successes, failures);
    match s.step {
        StepView::CreateFile { path, contents, after } => {
            match outcome {
                Ok(_) => {
                    let x = SuccessView { kind: OperationKind::Add, path, before: None, after: Some(after) };
                    assert((successes + s.successes).push(x) =~= successes + s.successes.push(x));
                    lemma_begin_next_after_records(s.remaining, s.successes.push(x), s.failures, successes, failures);
                },
                Err(m) => {
                    let x = file_failure(OperationKind::Add, path, m);
                    assert((failures + s.failures).push(x) =~= failures + s.failures.push(x));
                    lemma_begin_next_after_records(s.remaining, s.successes, s.failures.push(x), successes, failures);
                },
            }
        },
        StepView::ReadForDelete { path } => {
            if let Err(m) = outcome {
                let x = file_failure(OperationKind::Delete, path, m);
                assert((failures + s.failures).push(x) =~= failures + s.failures.push(x));
                lemma_begin_next_after_records(s.remaining, s.successes, s.failures.push(x), successes, failures);
            }
        },
        StepView::DeleteFile { path, before } => {
            match outcome {
                Ok(_) => {
                    let x = SuccessView { kind: OperationKind::Delete, path, before: Some(before), after: None };
                    assert((successes + s.successes).push(x) =~= successes + s.successes.push(x));
                    lemma_begin_next_after_records(s.remaining, s.successes.push(x), s.failures, successes, failures);
                },
                Err(m) => {
                    let x = file_failure(OperationKind::Delete, path, m);
                    assert((failures + s.failures).push(x) =~= failures + s.failures.push(x));
                    lemma_begin_next_after_records(s.remaining, s.successes, s.failures.push(x), successes, failures);
                },
            }
        },
        StepView::ReadForUpdate { path, move_path, chunks } => {
            match outcome {
                Ok(c) => {
                    if chunks.len() == 0 {
                        if move_path is None {
                            lemma_begin_next_after_records(s.remaining, s.successes, s.failures, successes, failures);
                        }
                    } else if !plan_renderable(c, chunks, planning) {
                        let x = file_failure(OperationKind::Edit, path, UNORDERED_EDITS@);
                        assert((failures + s.failures).push(x) =~= failures + s.failures.push(x));
                        lemma_begin_next_after_records(s.remaining, s.successes, s.failures.push(x), successes, failures);
                    } else {
                        let p = plan_all(lines_of(c), chunks, planning);
                        let e = chunk_failures(path, p.errors);
                        assert((failures + s.failures) + e =~= failures + (s.failures + e));
                        lemma_begin_next_after_records(s.remaining, s.successes, s.failures + e, successes, failures);
                    }
                },
                Err(m) => {
                    let x = file_failure(OperationKind::Edit, path, m);
                    assert((failures + s.failures).push(x) =~= failures + s.failures.push(x));
                    lemma_begin_next_after_records(s.remaining, s.successes, s.failures.push(x), successes, failures);
                },
            }
        },
        StepView::WriteFile { path, contents, before, after } => {
            match outcome {
                Ok(_) => {
                    let x = SuccessView { kind: OperationKind::Edit, path, before: Some(before), after: Some(after) };
                    assert((successes + s.successes).push(x) =~= successes + s.successes.push(x));
                    lemma_begin_next_after_records(s.remaining, s.successes.push(x), s.failures, successes, failures);
                },
                Err(m) => {
                    let x = file_failure(OperationKind::Edit, path, m);
                    assert((failures + s.failures).push(x) =~= failures + s.failures.push(x));
                    lemma_begin_next_after_records(s.remaining, s.successes, s.failures.push(x), successes, failures);
                },
            }
        },
        StepView::WriteMoved { source, destination, contents, before, after } => {
            match outcome {
                Ok(_) => {
                    let x = SuccessView {
                        kind: OperationKind::Edit,
                        path: destination,
                        before: Some(before),
                        after: Some(after),
                    };
                    assert((successes + s.successes).push(x) =~= successes + s.successes.push(x));
                },
                Err(m) => {
                    let x = file_failure(OperationKind::Edit, destination, m);
                    assert((failures + s.failures).push(x) =~= failures + s.failures.push(x));
                    lemma_begin_next_after_records(s.remaining, s.successes, s.failures.push(x), successes, failures);
                },
            }
        },
        StepView::RemoveOriginal { source } => {
            match outcome {
                Ok(_) => {
                    lemma_begin_next_after_records(s.remaining, s.successes, s.failures, successes, failures);
                },
                Err(m) => {
                    let x = file_failure(OperationKind::Edit, source, m);
                    assert((failures + s.failures).push(x) =~= failures + s.failures.push(x));
                    lemma_begin_next_after_records(s.remaining, s.successes, s.failures.push(x), successes, failures);
                },
            }
        },
        StepView::Finished => {},
    }
}

} // verus!

verus! {

/// The step will make a record (a success or a failure) before the next
/// hunk begins.
pub open spec fn step_makes_record(step: StepView) -> bool {
    match step {
        StepView::ReadForUpdate { move_path, chunks, .. } => chunks.len() > 0 || move_path is Some,
        StepView::RemoveOriginal { .. } => false,
        StepView::Finished => false,
        _ => true,
    }
}

/// Every hunk left changes something, and the session has a record or its
/// step will make one.
pub open spec fn records_owed(s: SessionView) -> bool {
    &&& forall|k: int| 0 <= k < s.remaining.len() ==> #[trigger] hunk_has_changes(s.remaining[k])
    &&& (s.successes.len() + s.failures.len() > 0 || step_makes_record(s.step))
}

proof fn lemma_begin_next_owed(
    remaining: Seq<HunkView>,
    successes: Seq<SuccessView>,
    failures: Seq<FileFailureView>,
)
    requires
        forall|k: int| 0 <= k < remaining.len() ==> #[trigger] hunk_has_changes(remaining[k]),
        successes.len() + failures.len() > 0,
    ensures
        records_owed(begin_next(remaining, successes, failures)),
{
    if remaining.len() > 0 {
        let r = remaining.drop_first();
        assert forall|k: int| 0 <= k < r.len() implies #[trigger] hunk_has_changes(r[k]) by {
            assert(r[k] == remaining[k + 1]);
        }
    }
}

/// Advancing keeps `records_owed`.
pub proof fn lemma_advance_keeps_records_owed(
    s: SessionView,
    outcome: Result<Seq<char>, Seq<char>>,
    planning: Planning,
)
    requires
        records_owed(s),
    ensures
        records_owed(advance_spec(s, outcome, planning)),
{
    let rem = s.remaining;
    match s.step {
        StepView::CreateFile { path, after, .. } => match outcome {
            Ok(_) => lemma_begin_next_owed(
                rem,
                s.successes.push(SuccessView { kind: OperationKind::Add, path, before: None, after: Some(after) }),
                s.failures,
            ),
            Err(m) => lemma_begin_next_owed(rem, s.successes, s.failures.push(file_failure(OperationKind::Add, path, m))),
        },
        StepView::ReadForDelete { path } => if let Err(m) = outcome {
            lemma_begin_next_owed(rem, s.successes, s.failures.push(file_failure(OperationKind::Delete, path, m)));
        },
        StepView::DeleteFile { path, before } => match outcome {
            Ok(_) => lemma_begin_next_owed(
                rem,
                s.successes.push(
                    SuccessView { kind: OperationKind::Delete, path, before: Some(before), after: None },
                ),
                s.failures,
            ),
            Err(m) => lemma_begin_next_owed(rem, s.successes, s.failures.push(file_failure(OperationKind::Delete, path, m))),
        },
        StepView::ReadForUpdate { path, move_path, chunks } => match outcome {
            Ok(c) => {
                if chunks.len() == 0 {
                } else if !plan_renderable(c, chunks, planning) {
                    lemma_begin_next_owed(
                        rem,
                        s.successes,
                        s.failures.push(file_failure(OperationKind::Edit, path, UNORDERED_EDITS@)),
                    );
                } else {
                    let p = plan_all(lines_of(c), chunks, planning);
                    crate::content::law_every_chunk_located_or_reported(lines_of(c), chunks, planning);
                    let failed = s.failures + chunk_failures(path, p.errors);
                    if p.applied == 0 {
                        assert(failed.len() > 0);
                        lemma_begin_next_owed(rem, s.successes, failed);
                    }
                }
            },
            Err(m) => lemma_begin_next_owed(rem, s.successes, s.failures.push(file_failure(OperationKind::Edit, path, m))),
        },
        StepView::WriteFile { path, before, after, .. } => match outcome {
            Ok(_) => lemma_begin_next_owed(
                rem,
                s.successes.push(
                    SuccessView { kind: OperationKind::Edit, path, before: Some(before), after: Some(after) },
                ),
                s.failures,
            ),
            Err(m) => lemma_begin_next_owed(rem, s.successes, s.failures.push(file_failure(OperationKind::Edit, path, m))),
        },
        StepView::WriteMoved { destination, .. } => if let Err(m) = outcome {
            lemma_begin_next_owed(rem, s.successes, s.failures.push(file_failure(OperationKind::Edit, destination, m)));
        },
        StepView::RemoveOriginal { source } => match outcome {
            Ok(_) => lemma_begin_next_owed(rem, s.successes, s.failures),
            Err(m) => lemma_begin_next_owed(rem, s.successes, s.failures.push(file_failure(OperationKind::Edit, source, m))),
        },
        StepView::Finished => {},
    }
}

/// The session a patch starts with owes its records (see `records_owed`).
pub proof fn lemma_start_owes_records(patch: Seq<char>, home: VarView, vars: Seq<(Seq<char>, VarView)>)
    ensures
        records_owed(start_spec(patch, home, vars)),
{
    if trim(patch).len() != 0 {
        crate::parser::grammar::law_parsed_updates_change_something(patch, home, vars);
        if let Ok(hunks) = parse_spec(patch, home, vars) {
            if hunks.len() > 0 {
                let r = hunks.drop_first();
                assert(hunk_has_changes(hunks[0]));
                assert forall|k: int| 0 <= k < r.len() implies #[trigger] hunk_has_changes(r[k]) by {
                    assert(r[k] == hunks[k + 1]);
                }
            }
        }
    }
}

} // verus!

verus! {

/// `s` with the hunks left replaced by `remaining`.
pub open spec fn with_remaining(s: SessionView, remaining: Seq<HunkView>) -> SessionView {
    SessionView { remaining, ..s }
}

/// The outcome leaves the session within the hunk under way (or
/// finished); otherwise the next hunk begins.
pub open spec fn stays_in_hunk(s: SessionView, outcome: Result<Seq<char>, Seq<char>>, planning: Planning) -> bool {
    match s.step {
        StepView::ReadForDelete { .. } => outcome is Ok,
        StepView::ReadForUpdate { move_path, chunks, .. } => match outcome {
            Ok(c) => if chunks.len() == 0 {
                move_path is Some
            } else {
                plan_renderable(c, chunks, planning) && plan_all(lines_of(c), chunks, planning).applied > 0
            },
            Err(_) => false,
        },
        StepView::WriteMoved { .. } => outcome is Ok,
        StepView::Finished => true,
        _ => false,
    }
}

/// The hunks left matter only when the next hunk begins: within a hunk
/// they are kept as they are, and otherwise the next one is taken from
/// them.
pub proof fn lemma_advance_with_remaining(
    s: SessionView,
    outcome: Result<Seq<char>, Seq<char>>,
    planning: Planning,
    remaining: Seq<HunkView>,
)
    ensures
        stays_in_hunk(s, outcome, planning) ==> advance_spec(s, outcome, planning).remaining == s.remaining
            && advance_spec(with_remaining(s, remaining), outcome, planning) == with_remaining(
            advance_spec(s, outcome, planning),
            remaining,
        ),
        !stays_in_hunk(s, outcome, planning) ==> advance_spec(s, outcome, planning) == begin_next(
            s.remaining,
            advance_spec(s, outcome, planning).successes,
            advance_spec(s, outcome, planning).failures,
        ) && advance_spec(with_remaining(s, remaining), outcome, planning) == begin_next(
            remaining,
            advance_spec(s, outcome, planning).successes,
            advance_spec(s, outcome, planning).failures,
        ),
{
}

} // verus!

verus! {

/// A moved update is written to its destination: when the same update
/// without the move would write `contents` back to its file, the update
/// with a move to `destination` writes those contents to the destination
/// instead (creating it), and once that succeeds it removes the original
/// file and reports the edit under the destination.
pub proof fn law_moved_update_writes_destination(
    s: SessionView,
    path: Seq<char>,
    destination: Seq<char>,
    chunks: Seq<ChunkView>,
    original: Seq<char>,
    written: Result<Seq<char>, Seq<char>>,
    planning: Planning,
)
    requires
        s.step == (StepView::ReadForUpdate { path, move_path: Some(destination), chunks }),
        action_spec(
            advance_spec(
                SessionView { step: StepView::ReadForUpdate { path, move_path: None, chunks }, ..s },
                Ok(original),
                planning,
            ).step,
        ) is WriteFile,
        written is Ok,
    ensures
        ({
            let in_place = action_spec(
                advance_spec(
                    SessionView { step: StepView::ReadForUpdate { path, move_path: None, chunks }, ..s },
                    Ok(original),
                    planning,
                ).step,
            );
            let moved = advance_spec(s, Ok(original), planning);
            let after_write = advance_spec(moved, written, planning);
            &&& in_place->WriteFile_path == path
            &&& action_spec(moved.step) == (ActionView::CreateFile {
                path: destination,
                contents: in_place->WriteFile_contents,
            })
            &&& action_spec(after_write.step) == (ActionView::RemoveOriginal { path })
            &&& after_write.successes.last().path == destination
            &&& after_write.successes.last().kind == OperationKind::Edit
        }),
{
}

} // verus!

verus! {

/// A move without changes copies the file: the update moves the original
/// contents, as read, to the destination and then removes the original.
pub proof fn law_plain_move_copies_then_removes(
    s: SessionView,
    path: Seq<char>,
    destination: Seq<char>,
    original: Seq<char>,
    written: Result<Seq<char>, Seq<char>>,
    planning: Planning,
)
    requires
        s.step == (StepView::ReadForUpdate { path, move_path: Some(destination), chunks: seq![] }),
        written is Ok,
    ensures
        ({
            let moved = advance_spec(s, Ok(original), planning);
            let after_write = advance_spec(moved, written, planning);
            &&& action_spec(moved.step) == (ActionView::CreateFile { path: destination, contents: original })
            &&& action_spec(after_write.step) == (ActionView::RemoveOriginal { path })
            &&& after_write.successes.last().path == destination
        }),
{
}

/// An added file is created at its path with its contents, and its
/// creation is reported as an add of that path with no "before" and the
/// hunk's line and character counts "after"; a failed creation is reported
/// as a failed add of that path with the failure message.
pub proof fn law_add_creates_its_file(
    remaining: Seq<HunkView>,
    successes: Seq<SuccessView>,
    failures: Seq<FileFailureView>,
    path: Seq<char>,
    contents: Seq<char>,
    line_count: int,
    character_count: int,
    outcome: Result<Seq<char>, Seq<char>>,
    planning: Planning,
)
    ensures
        ({
            let h = HunkView::Add { path, contents, line_count, character_count };
            let s = SessionView { remaining, step: first_step(h), successes, failures };
            let r = advance_spec(s, outcome, planning);
            &&& action_spec(s.step) == (ActionView::CreateFile { path, contents })
            &&& (outcome is Ok ==> r.successes.last() == (SuccessView {
                kind: OperationKind::Add,
                path,
                before: None,
                after: Some(
                    FileStats { line_count: line_count as usize, character_count: character_count as usize },
                ),
            }) && r.failures == failures)
            &&& (outcome matches Err(m) ==> r.failures.last() == file_failure(OperationKind::Add, path, m)
                && r.successes == successes)
        }),
{
}

/// A deleted file is read, then deleted at the same path, and its deletion
/// is reported with the line and character counts of what was read.
pub proof fn law_delete_reads_then_deletes(
    remaining: Seq<HunkView>,
    successes: Seq<SuccessView>,
    failures: Seq<FileFailureView>,
    path: Seq<char>,
    read: Seq<char>,
    deleted: Result<Seq<char>, Seq<char>>,
    planning: Planning,
)
    requires
        deleted is Ok,
    ensures
        ({
            let s = SessionView { remaining, step: first_step(HunkView::Delete { path }), successes, failures };
            let after_read = advance_spec(s, Ok(read), planning);
            let done = advance_spec(after_read, deleted, planning);
            &&& action_spec(s.step) == (ActionView::ReadForDelete { path })
            &&& action_spec(after_read.step) == (ActionView::DeleteFile { path })
            &&& done.successes.last() == (SuccessView {
                kind: OperationKind::Delete,
                path,
                before: Some(stats_of(read)),
                after: None,
            })
        }),
{
}

} // verus!
