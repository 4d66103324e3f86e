use apply_patch_mcp::content::Planning;
use apply_patch_mcp::content::{apply_replacements, derive_new_contents, format_closest_match, Replacement};
use apply_patch_mcp::parser::UpdateChunk;

fn chars(value: &str) -> Vec<char> {
    value.chars().collect()
}

fn lines(values: &[String]) -> Vec<Vec<char>> {
    values.iter().map(|value| chars(value)).collect()
}

fn chunk(old: &[&str], new: &[&str], eof: bool) -> UpdateChunk {
    UpdateChunk::new(
        None,
        old.iter().map(|line| (*line).to_owned()).collect(),
        new.iter().map(|line| (*line).to_owned()).collect(),
        eof,
    )
}

#[test]
fn tests_insertion_without_old_lines_precedes_logical_trailing_empty_line() {
    let result = derive_new_contents("a\n\n", &[chunk(&[], &["b"], false)], Planning::Reconciling);
    assert_eq!(result.contents, "a\nb\n");
    assert_eq!(result.applied_chunks, 1);
    assert!(result.errors.is_empty());
}

#[test]
fn replacement_can_ignore_empty_lines_in_original() {
    let result = derive_new_contents("a\n\nb\nc\n", &[chunk(&["a", "b"], &["updated"], false)], Planning::Reconciling);
    assert_eq!(result.contents, "updated\nc\n");
    assert_eq!(result.applied_chunks, 1);
    assert!(result.errors.is_empty());
}

#[test]
fn replacement_can_ignore_consecutive_space_counts() {
    let result = derive_new_contents("a  b\n\nc   d\n", &[chunk(&["a b", "c d"], &["updated"], false)], Planning::Reconciling);
    assert_eq!(result.contents, "updated\n");
    assert_eq!(result.applied_chunks, 1);
    assert!(result.errors.is_empty());
}

#[test]
fn tests_replacements_are_applied_in_one_forward_pass() {
    let owned_lines = (0_usize..1_000_usize).map(|index| format!("line-{index}")).collect::<Vec<_>>();
    let original_lines = lines(&owned_lines);
    let replacements = (0_usize..1_000_usize)
        .step_by(2)
        .map(|index| Replacement {
            start: index,
            old_length: 1,
            lines: vec![chars(&format!("updated-{index}"))],
        })
        .collect::<Vec<_>>();
    let result = apply_replacements(&original_lines, &replacements);
    let result_lines = result.trim_end_matches('\n').split('\n').collect::<Vec<_>>();
    assert_eq!(result_lines.len(), 1_000);
    assert_eq!(result_lines.first().copied(), Some("updated-0"));
    assert_eq!(result_lines.get(1).copied(), Some("line-1"));
    assert_eq!(result_lines.get(998).copied(), Some("updated-998"));
    assert_eq!(result_lines.get(999).copied(), Some("line-999"));
}

#[test]
fn tests_adjacent_insertions_keep_patch_order() {
    let original_lines = vec![chars("a")];
    let replacements = vec![
        Replacement { start: 1, old_length: 0, lines: vec![chars("b")] },
        Replacement { start: 1, old_length: 0, lines: vec![chars("c")] },
    ];
    assert_eq!(apply_replacements(&original_lines, &replacements), "a\nb\nc\n");
}

#[test]
fn already_applied_replacement_reconstructs_patch_before_contents() {
    let result = derive_new_contents("new\n", &[chunk(&["old from patch"], &["new"], false)], Planning::Reconciling);
    assert_eq!(result.contents, "new\n");
    assert_eq!(result.before_contents, "old from patch\n");
    assert_eq!(result.applied_chunks, 1);
    assert!(result.errors.is_empty());
}

#[test]
fn target_contents_must_match_exactly() {
    let result = derive_new_contents(" new \n", &[chunk(&["old"], &["new"], false)], Planning::Reconciling);
    assert_eq!(result.applied_chunks, 0);
    assert_eq!(result.errors.len(), 1);
}

#[test]
fn exact_target_match_precedes_a_fuzzy_old_match() {
    let result = derive_new_contents("new\n", &[chunk(&[" new "], &["new"], false)], Planning::Reconciling);
    assert_eq!(result.contents, "new\n");
    assert_eq!(result.before_contents, " new \n");
    assert_eq!(result.applied_chunks, 1);
    assert!(result.errors.is_empty());
}

#[test]
fn already_applied_eof_deletion_restores_old_lines_at_the_end() {
    let result = derive_new_contents("kept\n", &[chunk(&["removed"], &[], true)], Planning::Reconciling);
    assert_eq!(result.contents, "kept\n");
    assert_eq!(result.before_contents, "kept\nremoved\n");
    assert_eq!(result.applied_chunks, 1);
    assert!(result.errors.is_empty());
}

#[test]
fn mixed_update_reconstructs_full_before_and_after_contents() {
    let chunks = [chunk(&["old one"], &["new one"], false), chunk(&["old two"], &["new two"], false)];
    let result = derive_new_contents("new one\nold two\n", &chunks, Planning::Reconciling);
    assert_eq!(result.before_contents, "old one\nold two\n");
    assert_eq!(result.contents, "new one\nnew two\n");
    assert_eq!(result.applied_chunks, 2);
    assert!(result.errors.is_empty());
}

#[test]
fn multiple_already_applied_insertions_are_reconstructed_in_patch_order() {
    let chunks = [chunk(&[], &["first"], false), chunk(&[], &["second"], false)];
    let result = derive_new_contents("kept\nfirst\nsecond\n", &chunks, Planning::Reconciling);
    assert_eq!(result.before_contents, "kept\n");
    assert_eq!(result.contents, "kept\nfirst\nsecond\n");
    assert_eq!(result.applied_chunks, 2);
    assert!(result.errors.is_empty());
}

#[test]
fn insertion_target_in_the_middle_is_not_already_applied() {
    let result = derive_new_contents("added\nkept\n", &[chunk(&[], &["added"], false)], Planning::Reconciling);
    assert_eq!(result.before_contents, "added\nkept\n");
    assert_eq!(result.contents, "added\nkept\nadded\n");
    assert_eq!(result.applied_chunks, 1);
    assert!(result.errors.is_empty());
}

#[test]
fn closest_match_uses_a_standard_code_fence() {
    assert_eq!(
        format_closest_match("Failure", &chars("actual")),
        "Failure. Closest match:\n```\nactual\n```"
    );
}

#[test]
fn code_fence_is_longer_than_embedded_backtick_runs() {
    assert_eq!(
        format_closest_match("Failure", &chars("before ```` after")),
        "Failure. Closest match:\n`````\nbefore ```` after\n`````"
    );
}

#[test]
fn missing_lines_are_reported_with_the_closest_match() {
    let result = derive_new_contents("kept\n", &[chunk(&["kepx"], &["changed"], false)], Planning::Reconciling);
    assert_eq!(result.applied_chunks, 0);
    assert_eq!(result.errors, vec![String::from("Failed to find expected lines. Closest match:\n```\nkept\n```")]);
}

#[test]
fn missing_context_is_reported() {
    let mut with_context = chunk(&["a"], &["b"], false);
    with_context.change_context = Some(String::from("fn absent()"));
    let result = derive_new_contents("zzz\n", &[with_context], Planning::Reconciling);
    assert_eq!(result.applied_chunks, 0);
    assert_eq!(result.errors.len(), 1);
    assert!(result.errors[0].starts_with("Failed to find context"));
}

#[test]
fn every_chunk_is_located_or_reported() {
    let chunks = [chunk(&["one"], &["1"], false), chunk(&["missing"], &["x"], false), chunk(&["three"], &["3"], false)];
    let result = derive_new_contents("one\ntwo\nthree\n", &chunks, Planning::Reconciling);
    assert_eq!(result.applied_chunks + result.errors.len(), chunks.len());
    assert_eq!(result.contents, "1\ntwo\n3\n");
    assert_eq!(result.errors.len(), 1);
    assert!(result.errors[0].starts_with("Failed to find expected lines"));
}

#[test]
fn replacements_are_applied_in_one_forward_pass() {
    let owned_lines = (0_usize..1_000_usize).map(|index| format!("line-{index}")).collect::<Vec<_>>();
    let original_lines = lines(&owned_lines);
    let replacements = (0_usize..1_000_usize)
        .step_by(2)
        .map(|index| Replacement {
            start: index,
            old_length: 1,
            lines: vec![chars(&format!("updated-{index}"))],
        })
        .collect::<Vec<_>>();
    let result = apply_replacements(&original_lines, &replacements);
    let result_lines = result.trim_end_matches('\n').split('\n').collect::<Vec<_>>();
    assert_eq!(result_lines.len(), 1_000);
    assert_eq!(result_lines.first().copied(), Some("updated-0"));
    assert_eq!(result_lines.get(1).copied(), Some("line-1"));
    assert_eq!(result_lines.get(998).copied(), Some("updated-998"));
    assert_eq!(result_lines.get(999).copied(), Some("line-999"));
}

#[test]
fn direct_planning_reports_the_old_lines() {
    let result = derive_new_contents(
        "kept\n",
        &[chunk(&["kepx", "second"], &["changed"], false)],
        Planning::Direct,
    );
    assert_eq!(result.applied_chunks, 0);
    assert_eq!(result.errors, vec![String::from("Failed to find expected lines:\nkepx\nsecond")]);
}

#[test]
fn direct_planning_quotes_a_missing_context() {
    let mut with_context = chunk(&["zzz"], &["yyy"], false);
    with_context.change_context = Some(String::from("fn absent()"));
    let result = derive_new_contents("zzz\n", &[with_context], Planning::Direct);
    assert_eq!(result.errors, vec![String::from("Failed to find context 'fn absent()'")]);
}

#[test]
fn failed_chunk_only_adds_its_failure() {
    let with = derive_new_contents(
        "one\ntwo\nthree\n",
        &[chunk(&["one"], &["1"], false), chunk(&["missing"], &["x"], false), chunk(&["three"], &["3"], false)],
        Planning::Direct,
    );
    let without = derive_new_contents(
        "one\ntwo\nthree\n",
        &[chunk(&["one"], &["1"], false), chunk(&["three"], &["3"], false)],
        Planning::Direct,
    );
    assert_eq!(with.contents, without.contents);
    assert_eq!(with.applied_chunks, without.applied_chunks);
    assert_eq!(with.errors, vec![String::from("Failed to find expected lines:\nmissing")]);
    assert!(without.errors.is_empty());
}

#[test]
fn direct_planning_does_not_take_new_lines_as_applied() {
    let direct = derive_new_contents("new\n", &[chunk(&["old from patch"], &["new"], false)], Planning::Direct);
    assert_eq!(direct.applied_chunks, 0);
    assert_eq!(direct.errors, vec![String::from("Failed to find expected lines:\nold from patch")]);
    let reconciling =
        derive_new_contents("new\n", &[chunk(&["old from patch"], &["new"], false)], Planning::Reconciling);
    assert_eq!(reconciling.applied_chunks, 1);
    assert!(reconciling.errors.is_empty());
}

#[test]
fn direct_planning_appends_insertions_at_the_logical_end() {
    let result = derive_new_contents("added\nkept\n", &[chunk(&[], &["added"], false)], Planning::Direct);
    assert_eq!(result.contents, "added\nkept\nadded\n");
    assert_eq!(result.before_contents, "added\nkept\n");
    assert_eq!(result.applied_chunks, 1);
}

#[test]
fn direct_planning_resumes_after_a_found_context() {
    let mut failing = chunk(&["zzz"], &["yyy"], false);
    failing.change_context = Some(String::from("ctx"));
    let chunks = [failing, chunk(&["a"], &["b"], false)];
    let direct = derive_new_contents("a\nctx\na\n", &chunks, Planning::Direct);
    assert_eq!(direct.contents, "a\nctx\nb\n");
    assert_eq!(direct.applied_chunks, 1);
    assert_eq!(direct.errors, vec![String::from("Failed to find expected lines:\nzzz")]);
    let reconciling = derive_new_contents("a\nctx\na\n", &chunks, Planning::Reconciling);
    assert_eq!(reconciling.contents, "b\nctx\na\n");
}
