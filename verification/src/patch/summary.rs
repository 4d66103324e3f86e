//! The outcome of applying a patch, file by file, and its text form:
//! `<SUCCEEDED>` with one block per changed file, then `<FAILED>` with one
//! block per failure, each failure carrying a `<REASON>`.

use crate::content::push_all;
use crate::text::{chars_of, decimal, format_count, has_prefix, has_suffix, lines_of, split_lines, string_of};
use vstd::prelude::*;

verus! {

/// The kind of a file operation.
#[derive(Debug, Clone, Copy, PartialEq, Eq, Structural)]
pub enum OperationKind {
    Add,
    Edit,
    Delete,
}

/// The tag of an operation kind.
pub open spec fn tag_spec(kind: OperationKind) -> Seq<char> {
    match kind {
        OperationKind::Add => "ADD"@,
        OperationKind::Edit => "EDIT"@,
        OperationKind::Delete => "DELETE"@,
    }
}

impl OperationKind {
    /// The tag that names the kind in the summary.
    pub fn tag(self) -> (r: &'static str)
        ensures
            r@ == tag_spec(self),
    {
        match self {
            OperationKind::Add => "ADD",
            OperationKind::Edit => "EDIT",
            OperationKind::Delete => "DELETE",
        }
    }
}

/// The size of a file's contents: its lines and its characters.
#[derive(Debug, Clone, Copy, PartialEq, Eq, Structural)]
pub struct FileStats {
    pub line_count: usize,
    pub character_count: usize,
}

/// The number of lines of a text (a final '\n' ends the last line).
pub open spec fn line_count_of(s: Seq<char>) -> int {
    lines_of(s).len() as int
}

/// The stats of a text.
pub open spec fn stats_of(s: Seq<char>) -> FileStats {
    FileStats { line_count: line_count_of(s) as usize, character_count: s.len() as usize }
}

impl FileStats {
    pub fn from_counts(line_count: usize, character_count: usize) -> (r: Self)
        ensures
            r.line_count == line_count,
            r.character_count == character_count,
    {
        FileStats { line_count, character_count }
    }

    /// The stats of `contents`.
    pub fn from_contents(contents: &str) -> (r: Self)
        ensures
            r.line_count == line_count_of(contents@),
            r.character_count == contents@.len(),
            r == stats_of(contents@),
    {
        let chars = chars_of(contents);
        let lines = split_lines(&chars);
        proof {
            assert(crate::text::lines_view_of(lines@).len() == lines@.len());
        }
        FileStats { line_count: lines.len(), character_count: chars.len() }
    }
}

/// A file that was changed.
#[derive(Debug, Clone, PartialEq, Eq)]
pub struct FileSuccess {
    pub kind: OperationKind,
    pub path: String,
    pub before: Option<FileStats>,
    pub after: Option<FileStats>,
}

pub struct SuccessView {
    pub kind: OperationKind,
    pub path: Seq<char>,
    pub before: Option<FileStats>,
    pub after: Option<FileStats>,
}

impl FileSuccess {
    pub open spec fn view(&self) -> SuccessView {
        SuccessView { kind: self.kind, path: self.path@, before: self.before, after: self.after }
    }

    pub fn add(path: String, after: FileStats) -> (r: Self)
        ensures
            r.view() == (SuccessView {
                kind: OperationKind::Add,
                path: path@,
                before: None,
                after: Some(after),
            }),
    {
        FileSuccess { kind: OperationKind::Add, path, before: None, after: Some(after) }
    }

    pub fn edit(path: String, before: FileStats, after: FileStats) -> (r: Self)
        ensures
            r.view() == (SuccessView {
                kind: OperationKind::Edit,
                path: path@,
                before: Some(before),
                after: Some(after),
            }),
    {
        FileSuccess { kind: OperationKind::Edit, path, before: Some(before), after: Some(after) }
    }

    pub fn delete(path: String, before: FileStats) -> (r: Self)
        ensures
            r.view() == (SuccessView {
                kind: OperationKind::Delete,
                path: path@,
                before: Some(before),
                after: None,
            }),
    {
        FileSuccess { kind: OperationKind::Delete, path, before: Some(before), after: None }
    }
}

/// A failure: of an operation on a file, or of the patch as a whole.
#[derive(Debug, Clone, PartialEq, Eq)]
pub struct FileFailure {
    pub operation: Option<(OperationKind, String)>,
    pub reason: String,
}

pub struct FileFailureView {
    pub operation: Option<(OperationKind, Seq<char>)>,
    pub reason: Seq<char>,
}

impl FileFailure {
    pub open spec fn view(&self) -> FileFailureView {
        FileFailureView {
            operation: match self.operation {
                Some((k, p)) => Some((k, p@)),
                None => None,
            },
            reason: self.reason@,
        }
    }

    /// A failure of the operation `kind` on `path`.
    pub fn file(kind: OperationKind, path: String, reason: String) -> (r: Self)
        ensures
            r.view() == (FileFailureView { operation: Some((kind, path@)), reason: reason@ }),
    {
        FileFailure { operation: Some((kind, path)), reason }
    }

    /// A failure of the patch as a whole.
    pub fn global(reason: String) -> (r: Self)
        ensures
            r.view() == (FileFailureView { operation: None, reason: reason@ }),
    {
        FileFailure { operation: None, reason }
    }
}

/// The successes and failures of a patch, in the order they happened.
#[derive(Debug, Clone, PartialEq, Eq)]
pub struct Summary {
    pub successes: Vec<FileSuccess>,
    pub failures: Vec<FileFailure>,
}

pub open spec fn successes_view(s: Seq<FileSuccess>) -> Seq<SuccessView> {
    s.map_values(|x: FileSuccess| x.view())
}

pub open spec fn failures_view(f: Seq<FileFailure>) -> Seq<FileFailureView> {
    f.map_values(|x: FileFailure| x.view())
}

/// "<TAG>\npath\n"
pub open spec fn operation_start(kind: OperationKind, path: Seq<char>) -> Seq<char> {
    "<"@ + tag_spec(kind) + ">\n"@ + path + "\n"@
}

/// "</TAG>\n"
pub open spec fn operation_end(kind: OperationKind) -> Seq<char> {
    "</"@ + tag_spec(kind) + ">\n"@
}

/// "label: N lines, M chars\n"
pub open spec fn stat_line(label: Seq<char>, stats: FileStats) -> Seq<char> {
    label + ": "@ + decimal(stats.line_count as nat) + " lines, "@ + decimal(
        stats.character_count as nat,
    ) + " chars\n"@
}

pub open spec fn optional_stat_line(label: Seq<char>, stats: Option<FileStats>) -> Seq<char> {
    match stats {
        Some(s) => stat_line(label, s),
        None => seq![],
    }
}

/// The block of a success.
pub open spec fn success_text(s: SuccessView) -> Seq<char> {
    operation_start(s.kind, s.path) + optional_stat_line("before"@, s.before) + optional_stat_line(
        "after"@,
        s.after,
    ) + operation_end(s.kind)
}

/// "<REASON>\n", the reason (ended by a '\n'), "</REASON>\n".
pub open spec fn reason_text(reason: Seq<char>) -> Seq<char> {
    "<REASON>\n"@ + reason + (if has_suffix(reason, "\n"@) {
        seq![]
    } else {
        "\n"@
    }) + "</REASON>\n"@
}

/// The block of a failure.
pub open spec fn file_failure_text(f: FileFailureView) -> Seq<char> {
    match f.operation {
        Some((kind, path)) => operation_start(kind, path) + reason_text(f.reason) + operation_end(
            kind,
        ),
        None => reason_text(f.reason),
    }
}

pub open spec fn successes_text(s: Seq<SuccessView>) -> Seq<char>
    decreases s.len(),
{
    if s.len() == 0 {
        seq![]
    } else {
        successes_text(s.drop_last()) + success_text(s.last())
    }
}

pub open spec fn failures_text(f: Seq<FileFailureView>) -> Seq<char>
    decreases f.len(),
{
    if f.len() == 0 {
        seq![]
    } else {
        failures_text(f.drop_last()) + file_failure_text(f.last())
    }
}

/// The text of a summary: the `<SUCCEEDED>` section when something
/// succeeded, then, on a line of its own, the `<FAILED>` section when
/// something failed.
pub open spec fn render_spec(successes: Seq<SuccessView>, failures: Seq<FileFailureView>) -> Seq<
    char,
> {
    let done = if successes.len() > 0 {
        "<SUCCEEDED>\n"@ + successes_text(successes) + "</SUCCEEDED>"@
    } else {
        seq![]
    };
    let failed = if failures.len() > 0 {
        (if done.len() > 0 {
            "\n"@
        } else {
            seq![]
        }) + "<FAILED>\n"@ + failures_text(failures) + "</FAILED>"@
    } else {
        seq![]
    };
    done + failed
}

fn push_str(out: &mut Vec<char>, s: &str)
    ensures
        final(out)@ == old(out)@ + s@,
{
    push_all(out, &chars_of(s));
}

fn push_operation_start(out: &mut Vec<char>, kind: OperationKind, path: &String)
    ensures
        final(out)@ == old(out)@ + operation_start(kind, path@),
{
    let ghost base = out@;
    push_str(out, "<");
    push_str(out, kind.tag());
    push_str(out, ">\n");
    push_str(out, path.as_str());
    push_str(out, "\n");
    assert(out@ =~= base + operation_start(kind, path@));
}

fn push_operation_end(out: &mut Vec<char>, kind: OperationKind)
    ensures
        final(out)@ == old(out)@ + operation_end(kind),
{
    let ghost base = out@;
    push_str(out, "</");
    push_str(out, kind.tag());
    push_str(out, ">\n");
    assert(out@ =~= base + operation_end(kind));
}

fn push_stat_line(out: &mut Vec<char>, label: &str, stats: FileStats)
    ensures
        final(out)@ == old(out)@ + stat_line(label@, stats),
{
    let ghost base = out@;
    push_str(out, label);
    push_str(out, ": ");
    push_str(out, format_count(stats.line_count).as_str());
    push_str(out, " lines, ");
    push_str(out, format_count(stats.character_count).as_str());
    push_str(out, " chars\n");
    assert(out@ =~= base + stat_line(label@, stats));
}

fn push_optional_stat_line(out: &mut Vec<char>, label: &str, stats: Option<FileStats>)
    ensures
        final(out)@ == old(out)@ + optional_stat_line(label@, stats),
{
    match stats {
        Some(s) => push_stat_line(out, label, s),
        None => {
            assert(out@ =~= out@ + seq![]);
        },
    }
}

fn push_success(out: &mut Vec<char>, success: &FileSuccess)
    ensures
        final(out)@ == old(out)@ + success_text(success.view()),
{
    let ghost base = out@;
    push_operation_start(out, success.kind, &success.path);
    push_optional_stat_line(out, "before", success.before);
    push_optional_stat_line(out, "after", success.after);
    push_operation_end(out, success.kind);
    assert(out@ =~= base + success_text(success.view()));
}

fn push_reason(out: &mut Vec<char>, reason: &String)
    ensures
        final(out)@ == old(out)@ + reason_text(reason@),
{
    let ghost base = out@;
    push_str(out, "<REASON>\n");
    let r = chars_of(reason.as_str());
    push_all(out, &r);
    let ends = r.len() > 0 && r[r.len() - 1] == '\n';
    proof {
        reveal_strlit("\n");
        assert(r@ == reason@);
        assert("\n"@ == seq!['\n']);
        assert(ends == has_suffix(reason@, "\n"@)) by {
            if r@.len() > 0 {
                let tail = reason@.subrange(reason@.len() - 1, reason@.len() as int);
                assert(tail =~= seq![reason@.last()]);
                if tail == seq!['\n'] {
                    assert(tail[0] == '\n');
                }
            }
        }
    }
    if !ends {
        out.push('\n');
    }
    push_str(out, "</REASON>\n");
    assert(out@ =~= base + reason_text(reason@));
}

fn push_failure(out: &mut Vec<char>, failure: &FileFailure)
    ensures
        final(out)@ == old(out)@ + file_failure_text(failure.view()),
{
    let ghost base = out@;
    match &failure.operation {
        Some((kind, path)) => {
            push_operation_start(out, *kind, path);
            push_reason(out, &failure.reason);
            push_operation_end(out, *kind);
            assert(out@ =~= base + file_failure_text(failure.view()));
        },
        None => {
            push_reason(out, &failure.reason);
        },
    }
}

impl Summary {
    pub open spec fn successes_view(&self) -> Seq<SuccessView> {
        successes_view(self.successes@)
    }

    pub open spec fn failures_view(&self) -> Seq<FileFailureView> {
        failures_view(self.failures@)
    }

    /// A summary with nothing in it.
    pub fn new() -> (r: Self)
        ensures
            r.successes_view() == Seq::<SuccessView>::empty(),
            r.failures_view() == Seq::<FileFailureView>::empty(),
    {
        let r = Summary { successes: Vec::new(), failures: Vec::new() };
        assert(r.successes_view() =~= Seq::<SuccessView>::empty());
        assert(r.failures_view() =~= Seq::<FileFailureView>::empty());
        r
    }

    pub fn push_success(&mut self, success: FileSuccess)
        ensures
            final(self).successes_view() == old(self).successes_view().push(success.view()),
            final(self).failures_view() == old(self).failures_view(),
    {
        let ghost prev = self.successes@;
        self.successes.push(success);
        assert(successes_view(self.successes@) =~= successes_view(prev).push(success.view()));
    }

    pub fn push_failure(&mut self, failure: FileFailure)
        ensures
            final(self).failures_view() == old(self).failures_view().push(failure.view()),
            final(self).successes_view() == old(self).successes_view(),
    {
        let ghost prev = self.failures@;
        self.failures.push(failure);
        assert(failures_view(self.failures@) =~= failures_view(prev).push(failure.view()));
    }

    /// A summary with one failure of the patch as a whole.
    pub fn failed(reason: String) -> (r: Self)
        ensures
            r.successes_view() == Seq::<SuccessView>::empty(),
            r.failures_view() == seq![FileFailureView { operation: None, reason: reason@ }],
    {
        let mut r = Summary::new();
        r.push_failure(FileFailure::global(reason));
        r
    }

    /// Nothing failed.
    pub fn succeeded(&self) -> (r: bool)
        ensures
            r == (self.failures_view().len() == 0),
    {
        self.failures.len() == 0
    }

    /// The summary's text (see `render_spec`).
    pub fn render(&self) -> (r: String)
        ensures
            r@ == render_spec(self.successes_view(), self.failures_view()),
    {
        let ghost sv = self.successes_view();
        let ghost fv = self.failures_view();
        let mut out: Vec<char> = Vec::new();
        if self.successes.len() > 0 {
            push_str(&mut out, "<SUCCEEDED>\n");
            let ghost head = out@;
            let mut i: usize = 0;
            while i < self.successes.len()
                invariant
                    i <= self.successes@.len(),
                    sv == successes_view(self.successes@),
                    out@ == head + successes_text(sv.subrange(0, i as int)),
                decreases self.successes@.len() - i,
            {
                push_success(&mut out, &self.successes[i]);
                assert(sv.subrange(0, i + 1).drop_last() =~= sv.subrange(0, i as int));
                assert(head + (successes_text(sv.subrange(0, i as int)) + success_text(sv[i as int]))
                    =~= head + successes_text(sv.subrange(0, i as int)) + success_text(sv[i as int]));
                i += 1;
            }
            assert(sv.subrange(0, sv.len() as int) =~= sv);
            push_str(&mut out, "</SUCCEEDED>");
        }
        let ghost done = out@;
        if self.failures.len() > 0 {
            if out.len() > 0 {
                out.push('\n');
            }
            push_str(&mut out, "<FAILED>\n");
            let ghost head = out@;
            let mut i: usize = 0;
            while i < self.failures.len()
                invariant
                    i <= self.failures@.len(),
                    fv == failures_view(self.failures@),
                    out@ == head + failures_text(fv.subrange(0, i as int)),
                decreases self.failures@.len() - i,
            {
                push_failure(&mut out, &self.failures[i]);
                assert(fv.subrange(0, i + 1).drop_last() =~= fv.subrange(0, i as int));
                assert(head + (failures_text(fv.subrange(0, i as int)) + file_failure_text(
                    fv[i as int],
                )) =~= head + failures_text(fv.subrange(0, i as int)) + file_failure_text(
                    fv[i as int],
                ));
                i += 1;
            }
            assert(fv.subrange(0, fv.len() as int) =~= fv);
            push_str(&mut out, "</FAILED>");
        }
        proof {
            reveal_strlit("<SUCCEEDED>\n");
            reveal_strlit("\n");
        }
        assert(out@ =~= render_spec(sv, fv));
        string_of(&out)
    }
}

} // verus!

verus! {

pub proof fn lemma_failures_text_concat(a: Seq<FileFailureView>, b: Seq<FileFailureView>)
    ensures
        failures_text(a + b) == failures_text(a) + failures_text(b),
    decreases b.len(),
{
    if b.len() == 0 {
        assert(a + b =~= a);
        assert(failures_text(a) + failures_text(b) =~= failures_text(a));
    } else {
        lemma_failures_text_concat(a, b.drop_last());
        assert((a + b).drop_last() =~= a + b.drop_last());
        assert((a + b).last() == b.last());
        assert(failures_text(a) + failures_text(b.drop_last()) + file_failure_text(b.last())
            =~= failures_text(a) + (failures_text(b.drop_last()) + file_failure_text(b.last())));
    }
}

pub proof fn lemma_failures_text_around(failures: Seq<FileFailureView>, i: int)
    requires
        0 <= i < failures.len(),
    ensures
        failures_text(failures) == failures_text(failures.take(i)) + file_failure_text(failures[i])
            + failures_text(failures.skip(i + 1)),
{
    let f = failures[i];
    let before = failures.take(i);
    let after = failures.skip(i + 1);
    assert(failures =~= before + seq![f] + after);
    lemma_failures_text_concat(before + seq![f], after);
    lemma_failures_text_concat(before, seq![f]);
    let single = seq![f];
    assert(single.drop_last() =~= Seq::<FileFailureView>::empty());
    assert(failures_text(single.drop_last()) =~= Seq::<char>::empty());
    assert(failures_text(single) =~= file_failure_text(f));
}

/// The rendered summary of at least one record is never empty; it starts
/// with "<SUCCEEDED>\n" and ends with "</SUCCEEDED>" exactly when nothing
/// failed, and otherwise ends with "</FAILED>".
pub proof fn law_output_shape(successes: Seq<SuccessView>, failures: Seq<FileFailureView>)
    requires
        successes.len() + failures.len() > 0,
    ensures
        render_spec(successes, failures).len() > 0,
        failures.len() == 0 <==> (has_prefix(render_spec(successes, failures), "<SUCCEEDED>\n"@)
            && has_suffix(render_spec(successes, failures), "</SUCCEEDED>"@)),
        failures.len() > 0 ==> has_suffix(render_spec(successes, failures), "</FAILED>"@),
{
    reveal_strlit("<SUCCEEDED>\n");
    reveal_strlit("</SUCCEEDED>");
    reveal_strlit("<FAILED>\n");
    reveal_strlit("</FAILED>");
    reveal_strlit("\n");
    let out = render_spec(successes, failures);
    let done = if successes.len() > 0 {
        "<SUCCEEDED>\n"@ + successes_text(successes) + "</SUCCEEDED>"@
    } else {
        seq![]
    };
    if failures.len() == 0 {
        assert(out =~= done);
        assert(out.subrange(0, 12) =~= "<SUCCEEDED>\n"@);
        assert(out.subrange(out.len() - 12, out.len() as int) =~= "</SUCCEEDED>"@);
    } else {
        let pre = done + (if done.len() > 0 {
            "\n"@
        } else {
            seq![]
        }) + "<FAILED>\n"@ + failures_text(failures);
        assert(out =~= pre + "</FAILED>"@);
        assert(out.subrange(out.len() - 9, out.len() as int) =~= "</FAILED>"@);
        assert(out[out.len() - 9] == '<');
        if out.len() >= 12 {
            assert(out.subrange(out.len() - 12, out.len() as int)[3] == out[out.len() - 9]);
            assert("</SUCCEEDED>"@[3] == 'U');
        }
    }
}

/// `r` occurs in `s` at `k`.
pub open spec fn occurs_at(s: Seq<char>, r: Seq<char>, k: int) -> bool {
    0 <= k && k + r.len() <= s.len() && s.subrange(k, k + r.len()) == r
}

pub proof fn lemma_occurs_inside(a: Seq<char>, s: Seq<char>, b: Seq<char>, r: Seq<char>, k: int)
    requires
        occurs_at(s, r, k),
    ensures
        occurs_at(a + s + b, r, k + a.len()),
{
    assert((a + s + b).subrange(k + a.len(), k + a.len() + r.len()) =~= s.subrange(k, k + r.len()));
}

/// Every failure's reason appears in the rendered summary exactly as it
/// was given (nothing in it is escaped or shortened).
pub proof fn law_failure_reason_rendered_verbatim(
    successes: Seq<SuccessView>,
    failures: Seq<FileFailureView>,
    i: int,
)
    requires
        0 <= i < failures.len(),
    ensures
        exists|k: int| #[trigger] occurs_at(render_spec(successes, failures), failures[i].reason, k),
{
    let f = failures[i];
    let r = f.reason;
    lemma_failures_text_around(failures, i);
    let newline: Seq<char> = if has_suffix(r, "\n"@) {
        seq![]
    } else {
        "\n"@
    };
    assert(occurs_at(r, r, 0)) by {
        assert(r.subrange(0, r.len() as int) =~= r);
    }
    lemma_occurs_inside("<REASON>\n"@, r, newline + "</REASON>\n"@, r, 0);
    assert(reason_text(r) =~= "<REASON>\n"@ + r + (newline + "</REASON>\n"@));
    let k1 = "<REASON>\n"@.len() as int;
    let (head, tail) = match f.operation {
        Some((kind, path)) => (operation_start(kind, path), operation_end(kind)),
        None => (seq![], seq![]),
    };
    lemma_occurs_inside(head, reason_text(r), tail, r, k1);
    assert(file_failure_text(f) =~= head + reason_text(r) + tail);
    let k2 = k1 + head.len();
    let before = failures_text(failures.take(i));
    let after = failures_text(failures.skip(i + 1));
    lemma_occurs_inside(before, file_failure_text(f), after, r, k2);
    let k3 = k2 + before.len();
    let ft = failures_text(failures);
    let done = if successes.len() > 0 {
        "<SUCCEEDED>\n"@ + successes_text(successes) + "</SUCCEEDED>"@
    } else {
        seq![]
    };
    let sep: Seq<char> = if done.len() > 0 {
        "\n"@
    } else {
        seq![]
    };
    let opening = sep + "<FAILED>\n"@;
    lemma_occurs_inside(opening, ft, "</FAILED>"@, r, k3);
    let failed = opening + ft + "</FAILED>"@;
    assert(failed =~= sep + "<FAILED>\n"@ + ft + "</FAILED>"@);
    let k4 = k3 + opening.len();
    lemma_occurs_inside(done, failed, seq![], r, k4);
    assert(render_spec(successes, failures) =~= done + failed + seq![]);
}

} // verus!
