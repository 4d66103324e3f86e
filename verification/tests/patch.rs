use apply_patch_mcp::patch::performer::Performer;
use apply_patch_mcp::content::Planning;
use apply_patch_mcp::command::{PatchExecution, PatchOutput, PatchRunner};
use apply_patch_mcp::patch::session::{FileAction, PatchSession};
use apply_patch_mcp::patch::{apply_patch_text, ApplyResult};
use std::cell::RefCell;
use apply_patch_mcp::path_expansion::{PathEnvironment, VariableValue};

fn environment() -> PathEnvironment {
    PathEnvironment { home: VariableValue::Missing, variables: Vec::new() }
}

/// Applies a patch to an in-memory file system: `files` holds the
/// (path, contents) of the existing files.
fn run(patch: &str, files: &mut Vec<(String, String)>) -> ApplyResult {
    let store = RefCell::new(std::mem::take(files));
    let result = apply_patch_text(patch, &environment(), &mut Performer::new(|action| perform(&store, action)));
    *files = store.into_inner();
    result
}

fn perform(store: &RefCell<Vec<(String, String)>>, action: FileAction) -> Result<String, String> {
    let mut files = store.borrow_mut();
    match action {
        FileAction::Finish => Ok(String::new()),
        FileAction::CreateFile { path, contents } | FileAction::WriteFile { path, contents } => {
            files.retain(|(p, _)| *p != path);
            files.push((path, contents));
            Ok(String::new())
        }
        FileAction::ReadForUpdate { path } => match files.iter().find(|(p, _)| *p == path) {
            Some((_, c)) => Ok(c.clone()),
            None => Err(String::from("Failed to read file to update: No such file or directory (os error 2)")),
        },
        FileAction::ReadForDelete { path } => match files.iter().find(|(p, _)| *p == path) {
            Some((_, c)) => Ok(c.clone()),
            None => Err(String::from("Failed to delete file: No such file or directory (os error 2)")),
        },
        FileAction::DeleteFile { path } | FileAction::RemoveOriginal { path } => {
            files.retain(|(p, _)| *p != path);
            Ok(String::new())
        }
    }
}

fn output(patch: &str) -> PatchOutput {
    let store = RefCell::new(Vec::new());
    PatchRunner::apply(PatchExecution { patch }, &environment(), &mut Performer::new(|action| perform(&store, action)))
}

#[test]
fn relative_patch_path_is_an_unscoped_failure() {
    let patch = ["*** Begin Patch", "*** Add File: relative.txt", "+hello", "*** End Patch", ""].join("\n");
    let output = output(&patch);
    assert!(!output.succeeded());
    assert_eq!(
        output.render(),
        "<FAILED>\n<REASON>\nInvalid patch hunk on line 2: patch paths must be absolute\n</REASON>\n</FAILED>"
    );
}

#[test]
fn parse_failure_has_an_unscoped_reason() {
    let result = run("*** Begin Patch\n*** Add File: relative.txt\n+hello\n*** End Patch", &mut Vec::new());
    assert!(!result.succeeded);
    assert_eq!(
        result.output,
        "<FAILED>\n<REASON>\nInvalid patch hunk on line 2: patch paths must be absolute\n</REASON>\n</FAILED>"
    );
}

#[test]
fn empty_patch_uses_the_standard_failure_format() {
    let result = run(" \n", &mut Vec::new());
    assert!(!result.succeeded);
    assert_eq!(result.output, "<FAILED>\n<REASON>\npatch must not be empty\n</REASON>\n</FAILED>");
}

#[test]
fn patch_without_operations_modifies_nothing() {
    let result = run("*** Begin Patch\n*** End Patch", &mut Vec::new());
    assert!(!result.succeeded);
    assert_eq!(result.output, "<FAILED>\n<REASON>\nNo files were modified.\n</REASON>\n</FAILED>");
}

#[test]
fn multiline_patch_is_applied_without_executable() {
    let store = RefCell::new(vec![(String::from("/w/target.txt"), String::from("old\n"))]);
    let patch = ["*** Begin Patch", "*** Update File: /w/target.txt", "@@", "-old", "+new", "*** End Patch", ""].join("\n");
    let output = PatchRunner::apply(PatchExecution { patch: &patch }, &environment(), &mut Performer::new(|action| perform(&store, action)));
    assert!(output.succeeded(), "{}", output.render());
    assert_eq!(store.into_inner(), vec![(String::from("/w/target.txt"), String::from("new\n"))]);
    assert_eq!(
        output.render(),
        "<SUCCEEDED>\n<EDIT>\n/w/target.txt\nbefore: 1 lines, 4 chars\nafter: 1 lines, 4 chars\n</EDIT>\n</SUCCEEDED>"
    );
}

#[test]
fn failed_update_does_not_stop_following_files() {
    let store = RefCell::new(vec![
        (String::from("/w/a.txt"), String::from("old\n")),
        (String::from("/w/b.txt"), String::from("kept\n")),
        (String::from("/w/c.txt"), String::from("old\n")),
    ]);
    let patch = [
        "*** Begin Patch",
        "*** Update File: /w/a.txt",
        "@@",
        "-old",
        "+new",
        "*** Update File: /w/b.txt",
        "@@",
        "-kepx",
        "+changed",
        "*** Update File: /w/c.txt",
        "@@",
        "-old",
        "+new",
        "*** End Patch",
        "",
    ]
    .join("\n");
    let output = PatchRunner::apply(PatchExecution { patch: &patch }, &environment(), &mut Performer::new(|action| perform(&store, action)));
    let files = store.into_inner();
    assert!(!output.succeeded());
    assert!(files.contains(&(String::from("/w/a.txt"), String::from("new\n"))));
    assert!(files.contains(&(String::from("/w/b.txt"), String::from("kept\n"))));
    assert!(files.contains(&(String::from("/w/c.txt"), String::from("new\n"))));
    assert!(output.render().contains("<SUCCEEDED>"));
    assert!(output.render().contains("<FAILED>"));
    assert!(output.render().contains("/w/b.txt"));
    assert!(output.render().contains("Failed to find expected lines. Closest match:\n```\nkept\n```"));
}

#[test]
fn successful_operations_keep_patch_order_and_specific_stats() {
    let mut files = vec![
        (String::from("/w/target.txt"), String::from("old\n")),
        (String::from("/w/obsolete.txt"), String::from("bye\n")),
    ];
    let patch = [
        "*** Begin Patch",
        "*** Update File: /w/target.txt",
        "@@",
        "-old",
        "+new",
        "*** Add File: /w/hello.txt",
        "+hello",
        "+world",
        "*** Delete File: /w/obsolete.txt",
        "*** End Patch",
        "",
    ]
    .join("\n");
    let result = run(&patch, &mut files);
    assert!(result.succeeded, "{}", result.output);
    assert_eq!(
        result.output,
        "<SUCCEEDED>\n<EDIT>\n/w/target.txt\nbefore: 1 lines, 4 chars\nafter: 1 lines, 4 chars\n</EDIT>\n<ADD>\n/w/hello.txt\nafter: 2 lines, 12 chars\n</ADD>\n<DELETE>\n/w/obsolete.txt\nbefore: 1 lines, 4 chars\n</DELETE>\n</SUCCEEDED>"
    );
}

#[test]
fn failed_chunk_is_reported_beside_successful_edit() {
    let mut files = vec![(String::from("/w/target.txt"), String::from("one\ntwo\nthree\n"))];
    let patch = [
        "*** Begin Patch",
        "*** Update File: /w/target.txt",
        "@@",
        "-one",
        "+1",
        "@@",
        "-missing",
        "+changed",
        "@@",
        "-three",
        "+3",
        "*** End Patch",
        "",
    ]
    .join("\n");
    let result = run(&patch, &mut files);
    assert!(!result.succeeded);
    assert_eq!(
        result.output,
        "<SUCCEEDED>\n<EDIT>\n/w/target.txt\nbefore: 3 lines, 14 chars\nafter: 3 lines, 8 chars\n</EDIT>\n</SUCCEEDED>\n<FAILED>\n<EDIT>\n/w/target.txt\n<REASON>\nFailed to find expected lines:\nmissing\n</REASON>\n</EDIT>\n</FAILED>"
    );
    assert_eq!(files, vec![(String::from("/w/target.txt"), String::from("1\ntwo\n3\n"))]);
}

#[test]
fn failure_message_is_rendered_verbatim() {
    let mut session = PatchSession::start("*** Begin Patch\n*** Delete File: /w/x.txt\n*** End Patch", &environment());
    session = session.advance(Err(String::from("Failed to delete file: <expected>&")), Planning::Direct);
    let result = session.result();
    assert!(!result.succeeded);
    assert!(result.output.contains("<REASON>\nFailed to delete file: <expected>&\n</REASON>"));
}

#[test]
fn move_is_rendered_as_an_edit_of_the_destination() {
    let mut files = vec![(String::from("/w/old-name.txt"), String::from("content\n"))];
    let patch = ["*** Begin Patch", "*** Update File: /w/old-name.txt", "*** Move to: /w/new-name.txt", "*** End Patch"].join("\n");
    let result = run(&patch, &mut files);
    assert!(result.succeeded, "{}", result.output);
    assert_eq!(
        result.output,
        "<SUCCEEDED>\n<EDIT>\n/w/new-name.txt\nbefore: 1 lines, 8 chars\nafter: 1 lines, 8 chars\n</EDIT>\n</SUCCEEDED>"
    );
    assert_eq!(files, vec![(String::from("/w/new-name.txt"), String::from("content\n"))]);
}

#[test]
fn delete_missing_file_reports_delete_context() {
    let result = run("*** Begin Patch\n*** Delete File: /w/missing.txt\n*** End Patch\n", &mut Vec::new());
    assert!(!result.succeeded);
    assert!(result.output.contains("<DELETE>"));
    assert!(result.output.contains("/w/missing.txt"));
    assert!(result.output.contains("Failed to delete file:"));
}

#[test]
fn failed_write_is_reported_and_next_hunk_runs() {
    let mut session = PatchSession::start(
        "*** Begin Patch\n*** Add File: /w/a.txt\n+a\n*** Add File: /w/b.txt\n+b\n*** End Patch",
        &environment(),
    );
    assert_eq!(
        session.action(),
        FileAction::CreateFile { path: String::from("/w/a.txt"), contents: String::from("a\n") }
    );
    session = session.advance(Err(String::from("Failed to write file: denied")), Planning::Direct);
    assert_eq!(
        session.action(),
        FileAction::CreateFile { path: String::from("/w/b.txt"), contents: String::from("b\n") }
    );
    session = session.advance(Ok(String::new()), Planning::Direct);
    assert!(session.is_finished());
    let result = session.result();
    assert_eq!(
        result.output,
        "<SUCCEEDED>\n<ADD>\n/w/b.txt\nafter: 1 lines, 2 chars\n</ADD>\n</SUCCEEDED>\n<FAILED>\n<ADD>\n/w/a.txt\n<REASON>\nFailed to write file: denied\n</REASON>\n</ADD>\n</FAILED>"
    );
}

#[test]
fn failure_reason_is_not_escaped() {
    let mut files = vec![(String::from("/w/target.txt"), String::from("actual\n"))];
    let patch = ["*** Begin Patch", "*** Update File: /w/target.txt", "@@", "-<expected>&", "+new", "*** End Patch"].join("\n");
    let result = run(&patch, &mut files);
    assert!(!result.succeeded);
    assert!(result.output.contains("Failed to find expected lines:\n<expected>&"));
}

#[test]
fn runner_reports_the_closest_match_of_unfound_lines() {
    let store = RefCell::new(vec![
        (String::from("/w/a.txt"), String::from("kept\n")),
    ]);
    let patch = ["*** Begin Patch", "*** Update File: /w/a.txt", "@@", "-kepx", "+new", "*** End Patch"].join("\n");
    let output = PatchRunner::apply(PatchExecution { patch: &patch }, &environment(), &mut Performer::new(|action| perform(&store, action)));
    assert!(!output.succeeded());
    assert!(output.render().contains("Failed to find expected lines. Closest match:\n```\nkept\n```"));
}

#[test]
fn output_starts_and_ends_with_its_section() {
    let mut files = vec![(String::from("/w/a.txt"), String::from("old\n"))];
    let ok = run("*** Begin Patch\n*** Update File: /w/a.txt\n@@\n-old\n+new\n*** End Patch", &mut files);
    assert!(ok.succeeded);
    assert!(ok.output.starts_with("<SUCCEEDED>\n") && ok.output.ends_with("</SUCCEEDED>"));
    let failed = run("*** Begin Patch\n*** Delete File: /w/missing.txt\n*** End Patch", &mut files);
    assert!(!failed.succeeded);
    assert!(!failed.output.is_empty());
    assert!(failed.output.ends_with("</FAILED>"));
}

#[test]
fn failed_hunk_only_adds_its_failure() {
    let original = vec![(String::from("/w/a.txt"), String::from("old\n"))];
    let mut with_files = original.clone();
    let with = run(
        "*** Begin Patch\n*** Delete File: /w/missing.txt\n*** Update File: /w/a.txt\n@@\n-old\n+new\n*** End Patch",
        &mut with_files,
    );
    let mut without_files = original.clone();
    let without = run("*** Begin Patch\n*** Update File: /w/a.txt\n@@\n-old\n+new\n*** End Patch", &mut without_files);
    assert_eq!(with_files, without_files);
    assert!(without.succeeded && !with.succeeded);
    assert_eq!(
        with.output,
        format!(
            "{}\n<FAILED>\n<DELETE>\n/w/missing.txt\n<REASON>\nFailed to delete file: No such file or directory (os error 2)\n</REASON>\n</DELETE>\n</FAILED>",
            without.output
        )
    );
}

#[test]
fn runner_and_apply_patch_text_report_unfound_lines_differently() {
    let patch = ["*** Begin Patch", "*** Update File: /w/a.txt", "@@", "-kepx", "+new", "*** End Patch"].join("\n");
    let mut files = vec![(String::from("/w/a.txt"), String::from("kept\n"))];
    let text = run(&patch, &mut files);
    let store = RefCell::new(vec![(String::from("/w/a.txt"), String::from("kept\n"))]);
    let output = PatchRunner::apply(PatchExecution { patch: &patch }, &environment(), &mut Performer::new(|action| perform(&store, action)));
    assert_eq!(text.succeeded, output.succeeded());
    assert!(text.output.contains("Failed to find expected lines:\nkepx"));
    assert!(output.render().contains("Failed to find expected lines. Closest match:\n```\nkept\n```"));
    assert_eq!(files, store.into_inner());
}

#[test]
fn performer_is_handed_only_the_operations_of_the_patch() {
    let store = RefCell::new(vec![(String::from("/w/a.txt"), String::from("old\n"))]);
    let handed = RefCell::new(Vec::new());
    let patch = "*** Begin Patch\n*** Update File: /w/a.txt\n@@\n-old\n+new\n*** Add File: /w/b.txt\n+b\n*** End Patch";
    let result = apply_patch_text(
        patch,
        &environment(),
        &mut Performer::new(|action: FileAction| {
            handed.borrow_mut().push(action.clone());
            perform(&store, action)
        }),
    );
    assert!(result.succeeded);
    assert_eq!(
        handed.into_inner(),
        vec![
            FileAction::ReadForUpdate { path: String::from("/w/a.txt") },
            FileAction::WriteFile { path: String::from("/w/a.txt"), contents: String::from("new\n") },
            FileAction::CreateFile { path: String::from("/w/b.txt"), contents: String::from("b\n") },
        ]
    );
}
