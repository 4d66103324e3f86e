use apply_patch_mcp::seek_sequence::alignment::{fit, Alignment};
use apply_patch_mcp::seek_sequence::{LineSearchIndex, SequenceMatch};

fn lines_of(values: &[&str]) -> Vec<Vec<char>> {
    values.iter().map(|value| value.chars().collect()).collect()
}

fn pattern(values: &[&str]) -> Vec<Vec<char>> {
    lines_of(values)
}

fn seek_sequence(lines: &[&str], pattern: &[Vec<char>], start: usize, eof: bool) -> Option<usize> {
    LineSearchIndex::new(lines_of(lines))
        .seek(pattern, start, eof)
        .map(|sequence_match| sequence_match.start)
}

fn seek_span(lines: &[&str], pattern: &[Vec<char>], start: usize, eof: bool) -> Option<SequenceMatch> {
    LineSearchIndex::new(lines_of(lines)).seek(pattern, start, eof)
}

fn chars(value: &str) -> Vec<char> {
    value.chars().collect()
}

#[test]
fn tests_exact_match_keeps_priority_over_earlier_trim_match() {
    let source = ["  target", "middle", "target"];
    let pattern = pattern(&["target"]);
    assert_eq!(seek_sequence(&source, &pattern, 0, false), Some(2));
}

#[test]
fn trim_match_replaces_removed_trim_end_tier() {
    let source = ["target   ", "  target"];
    let pattern = pattern(&["target"]);
    assert_eq!(seek_sequence(&source, &pattern, 0, false), Some(0));
}

#[test]
fn trim_end_match_keeps_priority_over_earlier_trim_match() {
    let source = ["  target", "target   "];
    let pattern = pattern(&["target"]);
    assert_eq!(seek_sequence(&source, &pattern, 0, false), Some(1));
}

#[test]
fn tests_trim_match_keeps_priority_over_earlier_normalized_match() {
    let source = ["a\u{2014}b", "  a-b  "];
    let pattern = pattern(&["a-b"]);
    assert_eq!(seek_sequence(&source, &pattern, 0, false), Some(1));
}

#[test]
fn normalized_match_keeps_priority_over_earlier_empty_line_match() {
    let source = ["a\u{2014}b", "c", "a-b", "", "c"];
    let pattern = pattern(&["a-b", "c"]);
    assert_eq!(seek_sequence(&source, &pattern, 0, false), Some(0));
}

#[test]
fn empty_lines_can_be_ignored() {
    let source = ["a", "", "b"];
    let pattern = pattern(&["a", "b"]);
    assert_eq!(
        seek_span(&source, &pattern, 0, false),
        Some(SequenceMatch { start: 0, length: 3 })
    );
}

#[test]
fn space_runs_can_be_collapsed_after_empty_lines() {
    let source = ["a  b", "", "c   d"];
    let pattern = pattern(&["a b", "c d"]);
    assert_eq!(
        seek_span(&source, &pattern, 0, false),
        Some(SequenceMatch { start: 0, length: 3 })
    );
}

#[test]
fn tests_eof_search_only_checks_the_last_possible_window() {
    let source = ["target", "middle", "target"];
    let pattern = pattern(&["target"]);
    assert_eq!(seek_sequence(&source, &pattern, 0, true), Some(2));
}

#[test]
fn tests_start_index_excludes_earlier_candidates() {
    let source = ["target", "middle", "target"];
    let pattern = pattern(&["target"]);
    assert_eq!(seek_sequence(&source, &pattern, 1, false), Some(2));
}

#[test]
fn exact_search_does_not_accept_a_trimmed_match() {
    let lines = [" target "];
    let pattern = pattern(&["target"]);
    assert_eq!(LineSearchIndex::new(lines_of(&lines)).seek_exact(&pattern, 0, false), None);
}

#[test]
fn tests_rare_middle_line_can_anchor_the_match() {
    let source = ["same", "same", "same", "unique", "same", "same"];
    let pattern = pattern(&["same", "unique", "same"]);
    let mut index = LineSearchIndex::new(lines_of(&source));
    assert_eq!(index.seek(&pattern, 0, false), Some(SequenceMatch { start: 2, length: 3 }));
}

#[test]
fn closest_match_uses_the_highest_affine_alignment_score() {
    let source = ["abzzef", "abcxef"];
    let pattern = pattern(&["abcdef"]);
    let index = LineSearchIndex::new(lines_of(&source));
    assert_eq!(index.closest(&pattern), Some(SequenceMatch { start: 1, length: 1 }));
}

#[test]
fn closest_match_finds_a_single_substitution() {
    let source = ["one", "two", "three"];
    let pattern = pattern(&["twx"]);
    let index = LineSearchIndex::new(lines_of(&source));
    assert_eq!(index.closest(&pattern), Some(SequenceMatch { start: 1, length: 1 }));
}

#[test]
fn closest_match_can_span_a_different_number_of_lines() {
    let source = ["alpha", "x", "beta"];
    let pattern = pattern(&["alpha", "beta"]);
    let index = LineSearchIndex::new(lines_of(&source));
    assert_eq!(index.closest(&pattern), Some(SequenceMatch { start: 0, length: 3 }));
}

#[test]
fn closest_match_compares_unicode_characters() {
    let source = ["unrelated", "\u{4f60}\u{597d}\u{4e16}\u{7540}"];
    let pattern = pattern(&["\u{4f60}\u{597d}\u{4e16}\u{754c}"]);
    let index = LineSearchIndex::new(lines_of(&source));
    assert_eq!(index.closest(&pattern), Some(SequenceMatch { start: 1, length: 1 }));
}

#[test]
fn closest_match_must_be_strictly_above_threshold() {
    let source = ["abxy"];
    let pattern = pattern(&["abcd"]);
    let index = LineSearchIndex::new(lines_of(&source));
    assert_eq!(index.closest(&pattern), None);
}

#[test]
fn fitting_alignment_consumes_the_pattern_and_skips_target_ends() {
    let pattern = chars("abcYdef");
    let target = chars("prefix abcXdef suffix");
    assert_eq!(fit(&pattern, &target), Alignment { score: 15, start: 7, end: 14 });
}

#[test]
fn a_contiguous_pattern_gap_uses_one_opening_penalty() {
    let pattern = chars("abcXYZdef");
    let target = chars("abcdef");
    assert_eq!(fit(&pattern, &target), Alignment { score: 11, start: 0, end: 6 });
}

#[test]
fn a_contiguous_target_gap_uses_one_opening_penalty() {
    let pattern = chars("abcdef");
    let target = chars("abcXYZdef");
    assert_eq!(fit(&pattern, &target), Alignment { score: 11, start: 0, end: 9 });
}

#[test]
fn character_boundaries_map_back_to_the_enclosing_original_lines() {
    let lines = ["unrelated prefix", "", "before abcXdef after", "unrelated suffix"];
    let pattern = pattern(&["abcYdef"]);
    let index = LineSearchIndex::new(lines_of(&lines));
    assert_eq!(index.closest(&pattern), Some(SequenceMatch { start: 2, length: 1 }));
}

#[test]
fn exact_window_search_reports_the_first_exact_occurrence() {
    let source = ["x", "a", "b", "a", "b"];
    let pattern = pattern(&["a", "b"]);
    assert_eq!(seek_span(&source, &pattern, 0, false), Some(SequenceMatch { start: 1, length: 2 }));
    assert_eq!(seek_span(&source, &pattern, 2, false), Some(SequenceMatch { start: 3, length: 2 }));
}

#[test]
fn eof_search_ignores_the_start_line() {
    let source = ["target", "middle", "target"];
    let pattern = pattern(&["target"]);
    assert_eq!(seek_sequence(&source, &pattern, 0, true), seek_sequence(&source, &pattern, 2, true));
}

#[test]
fn empty_pattern_matches_at_the_start_line() {
    let source = ["a", "b"];
    let empty: Vec<Vec<char>> = Vec::new();
    assert_eq!(seek_span(&source, &empty, 1, false), Some(SequenceMatch { start: 1, length: 0 }));
}

#[test]
fn compatibility_characters_are_normalized() {
    let source = ["\u{ff21}\u{ff22}"];
    let pattern = pattern(&["AB"]);
    assert_eq!(seek_sequence(&source, &pattern, 0, false), Some(0));
}

#[test]
fn missing_block_is_not_found() {
    let source = ["a", "b"];
    let pattern = pattern(&["c"]);
    assert_eq!(seek_sequence(&source, &pattern, 0, false), None);
}

#[test]
fn exact_match_keeps_priority_over_earlier_trim_match() {
    let source = ["  target", "middle", "target"];
    let pattern = pattern(&["target"]);
    assert_eq!(seek_sequence(&source, &pattern, 0, false), Some(2));
}

#[test]
fn trim_match_keeps_priority_over_earlier_normalized_match() {
    let source = ["a\u{2014}b", "  a-b  "];
    let pattern = pattern(&["a-b"]);
    assert_eq!(seek_sequence(&source, &pattern, 0, false), Some(1));
}

#[test]
fn eof_search_only_checks_the_last_possible_window() {
    let source = ["target", "middle", "target"];
    let pattern = pattern(&["target"]);
    assert_eq!(seek_sequence(&source, &pattern, 0, true), Some(2));
}

#[test]
fn start_index_excludes_earlier_candidates() {
    let source = ["target", "middle", "target"];
    let pattern = pattern(&["target"]);
    assert_eq!(seek_sequence(&source, &pattern, 1, false), Some(2));
}
