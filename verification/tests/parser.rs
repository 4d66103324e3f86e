use apply_patch_mcp::parser::parse::parse_patch;
use apply_patch_mcp::parser::{FileHunk, ParseFailure, UpdateChunk};
use apply_patch_mcp::path_expansion::{PathEnvironment, VariableValue};

fn environment() -> PathEnvironment {
    PathEnvironment {
        home: VariableValue::Present(String::from("/home/user")),
        variables: vec![(String::from("ROOT"), VariableValue::Present(String::from("/srv")))],
    }
}

fn parse(text: &str) -> Result<Vec<FileHunk>, ParseFailure> {
    parse_patch(text, &environment())
}

#[test]
fn parses_add_delete_and_update() {
    let text = "*** Begin Patch\n*** Add File: /tmp/a.txt\n+hello\n+world\n*** Delete File: /tmp/b.txt\n*** Update File: /tmp/c.txt\n*** Move to: /tmp/d.txt\n@@ fn main\n context\n-old\n+new\n*** End of File\n*** End Patch";
    let hunks = parse(text).unwrap();
    assert_eq!(
        hunks,
        vec![
            FileHunk::Add {
                path: String::from("/tmp/a.txt"),
                contents: String::from("hello\nworld\n"),
                line_count: 2,
                character_count: 12,
            },
            FileHunk::Delete { path: String::from("/tmp/b.txt") },
            FileHunk::Update {
                path: String::from("/tmp/c.txt"),
                move_path: Some(String::from("/tmp/d.txt")),
                chunks: vec![UpdateChunk::new(
                    Some(String::from("fn main")),
                    vec![String::from("context"), String::from("old")],
                    vec![String::from("context"), String::from("new")],
                    true,
                )],
            },
        ]
    );
}

#[test]
fn missing_begin_marker_is_refused() {
    let failure = parse("*** Add File: /tmp/a.txt\n*** End Patch").unwrap_err();
    assert_eq!(
        failure.to_message(),
        "Invalid patch: The first line of the patch must be '*** Begin Patch'"
    );
}

#[test]
fn missing_end_marker_is_refused() {
    let failure = parse("*** Begin Patch\n*** Add File: /tmp/a.txt\n+x").unwrap_err();
    assert_eq!(failure, ParseFailure::Patch(String::from("The last line of the patch must be '*** End Patch'")));
}

#[test]
fn heredoc_wrapped_patch_is_accepted() {
    let text = "<<'EOF'\n*** Begin Patch\n*** Delete File: /tmp/b.txt\n*** End Patch\nEOF";
    assert_eq!(parse(text).unwrap(), vec![FileHunk::Delete { path: String::from("/tmp/b.txt") }]);
}

#[test]
fn add_lines_must_start_with_plus() {
    let failure = parse("*** Begin Patch\n*** Add File: /tmp/a.txt\nhello\n*** End Patch").unwrap_err();
    assert_eq!(failure.to_message(), "Invalid patch hunk on line 3: add file lines must start with '+'");
}

#[test]
fn unknown_operation_is_refused() {
    let failure = parse("*** Begin Patch\n*** Rename File: /tmp/a.txt\n*** End Patch").unwrap_err();
    assert_eq!(failure.to_message(), "Invalid patch hunk on line 2: expected file operation marker");
}

#[test]
fn update_without_changes_is_refused() {
    let failure = parse("*** Begin Patch\n*** Update File: /tmp/a.txt\n*** End Patch").unwrap_err();
    assert_eq!(failure.to_message(), "Invalid patch hunk on line 2: update file hunk has no changes");
}

#[test]
fn chunk_needs_a_change_marker() {
    let failure = parse("*** Begin Patch\n*** Update File: /tmp/a.txt\n-old\n*** End Patch").unwrap_err();
    assert_eq!(failure.to_message(), "Invalid patch hunk on line 3: expected '@@' change marker");
}

#[test]
fn change_lines_need_a_prefix() {
    let failure = parse("*** Begin Patch\n*** Update File: /tmp/a.txt\n@@\nold\n*** End Patch").unwrap_err();
    assert_eq!(failure.to_message(), "Invalid patch hunk on line 4: expected change line prefix");
}

#[test]
fn relative_paths_are_refused() {
    let failure = parse("*** Begin Patch\n*** Delete File: relative.txt\n*** End Patch").unwrap_err();
    assert_eq!(failure.to_message(), "Invalid patch hunk on line 2: patch paths must be absolute");
}

#[test]
fn paths_are_expanded() {
    let text = "*** Begin Patch\n*** Delete File: ~/a.txt\n*** Delete File: $ROOT/b.txt\n*** End Patch";
    assert_eq!(
        parse(text).unwrap(),
        vec![
            FileHunk::Delete { path: String::from("/home/user/a.txt") },
            FileHunk::Delete { path: String::from("/srv/b.txt") },
        ]
    );
}

#[test]
fn missing_variable_is_reported_on_its_marker_line() {
    let failure = parse("*** Begin Patch\n*** Delete File: $NOPE/b.txt\n*** End Patch").unwrap_err();
    assert_eq!(
        failure.to_message(),
        "Invalid patch hunk on line 2: environment variable 'NOPE' is not set in path '$NOPE/b.txt'"
    );
}

#[test]
fn crlf_line_endings_are_accepted() {
    let text = "*** Begin Patch\r\n*** Delete File: /tmp/b.txt\r\n*** End Patch\r\n";
    assert_eq!(parse(text).unwrap(), vec![FileHunk::Delete { path: String::from("/tmp/b.txt") }]);
}

#[test]
fn empty_patch_has_no_operations() {
    assert_eq!(parse("*** Begin Patch\n*** End Patch").unwrap(), Vec::new());
}

#[test]
fn parsed_hunks_can_be_cloned() {
    let chunk = UpdateChunk::new(Some(String::from("ctx")), vec![String::from("old")], vec![String::from("new")], false);
    let hunk = FileHunk::Update { path: String::from("/w/a.txt"), move_path: None, chunks: vec![chunk.clone()] };
    assert_eq!(hunk.clone(), hunk);
    assert_eq!(chunk.clone(), chunk);
}
