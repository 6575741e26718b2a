use teshi::diff::{diff_buffers, ChangeKind, DiffLine};

#[test]
fn test_identical_content() {
    let content = "Feature: Test\n  Scenario: S1\n    Given a step";
    let result = diff_buffers(content, content);
    assert!(result.iter().all(|d| d.kind == ChangeKind::Unchanged));
    assert_eq!(result.len(), 3);
}

#[test]
fn test_insert_line() {
    let old = "Line1\nLine2\nLine3";
    let new = "Line1\nLine2\nNewLine\nLine3";
    let result = diff_buffers(old, new);
    assert_eq!(result.len(), 4);
    assert_eq!(result[0].kind, ChangeKind::Unchanged);
    assert_eq!(result[1].kind, ChangeKind::Unchanged);
    assert_eq!(result[2].kind, ChangeKind::Added);
    assert_eq!(result[2].text, "NewLine");
    assert_eq!(result[3].kind, ChangeKind::Unchanged);
}

#[test]
fn test_delete_line() {
    let old = "Line1\nLine2\nLine3";
    let new = "Line1\nLine3";
    let result = diff_buffers(old, new);
    assert_eq!(result.len(), 3);
    assert_eq!(result[0].kind, ChangeKind::Unchanged);
    assert_eq!(result[1].kind, ChangeKind::Deleted);
    assert_eq!(result[2].kind, ChangeKind::Unchanged);
}

#[test]
fn test_modify_line() {
    let old = "Feature: Old name";
    let new = "Feature: New name";
    let result = diff_buffers(old, new);
    assert_eq!(result.len(), 1);
    assert_eq!(result[0].kind, ChangeKind::Modified);
}

#[test]
fn test_insert_multiline_block() {
    let old = "Feature: F\n  Scenario: S1\n    Given a";
    let new = "Feature: F\n  Scenario: S1\n    Given a\n\n  Scenario: S2\n    Given b\n    When c";
    let result = diff_buffers(old, new);
    assert!(result.len() >= 4, "should have at least 4 diff lines, got {}", result.len());
    let added: Vec<&DiffLine> = result.iter().filter(|d| d.kind == ChangeKind::Added).collect();
    assert_eq!(added.len(), 4, "expected 4 Added lines (blank + header + 2 steps)");
}

// ── Further cases ──

fn new_side(result: &[DiffLine]) -> Vec<String> {
    result.iter().filter(|d| d.kind != ChangeKind::Deleted).map(|d| d.text.clone()).collect()
}

fn old_side(result: &[DiffLine]) -> Vec<String> {
    result
        .iter()
        .filter_map(|d| match d.kind {
            ChangeKind::Added => None,
            ChangeKind::Modified => d.old_text.clone(),
            _ => Some(d.text.clone()),
        })
        .collect()
}

#[test]
fn diff_gives_both_buffers_back() {
    let old = "a\nb\nc\nd\ne";
    let new = "a\nx\nc\ne\nf\ng";
    let result = diff_buffers(old, new);
    assert_eq!(new_side(&result), vec!["a", "x", "c", "e", "f", "g"]);
    assert_eq!(old_side(&result), vec!["a", "b", "c", "d", "e"]);
    let numbers: Vec<usize> = result
        .iter()
        .filter(|d| d.kind != ChangeKind::Deleted)
        .map(|d| d.line_number_1based)
        .collect();
    assert_eq!(numbers, vec![1, 2, 3, 4, 5, 6]);
}

#[test]
fn deleted_lines_have_line_number_zero() {
    let result = diff_buffers("Line1\nLine2\nLine3", "Line1\nLine3");
    assert_eq!(result[1].kind, ChangeKind::Deleted);
    assert_eq!(result[1].line_number_1based, 0);
    assert_eq!(result[1].text, "Line2");
    assert_eq!(result[1].old_text.as_deref(), Some("Line2"));
}

#[test]
fn deleted_then_added_becomes_modified() {
    let result = diff_buffers("keep\nold line\nend", "keep\nnew line\nend");
    assert_eq!(result.len(), 3);
    assert_eq!(result[1].kind, ChangeKind::Modified);
    assert_eq!(result[1].text, "new line");
    assert_eq!(result[1].old_text.as_deref(), Some("old line"));
    assert_eq!(result[1].line_number_1based, 2);
}

#[test]
fn empty_buffers_give_empty_diff() {
    assert!(diff_buffers("", "").is_empty());
    let added = diff_buffers("", "one\ntwo");
    assert_eq!(added.len(), 2);
    assert!(added.iter().all(|d| d.kind == ChangeKind::Added && d.old_text.is_none()));
    assert_eq!(added[1].line_number_1based, 2);
}

#[test]
fn crlf_and_trailing_newline_are_line_endings() {
    let result = diff_buffers("a\r\nb\n", "a\nb");
    assert_eq!(result.len(), 2);
    assert!(result.iter().all(|d| d.kind == ChangeKind::Unchanged));
}

#[test]
fn moved_line_is_matched_in_order() {
    // "b" in the new text matches old "b"; "a" after it cannot match the earlier old "a".
    let result = diff_buffers("a\nb", "b\na");
    let kinds: Vec<ChangeKind> = result.iter().map(|d| d.kind).collect();
    assert_eq!(kinds, vec![ChangeKind::Deleted, ChangeKind::Unchanged, ChangeKind::Added]);
}

#[test]
fn longest_common_subsequence_is_kept() {
    // The common run "A", "B" is longer than the single "C", so both stay unchanged.
    let result = diff_buffers("A\nB\nC", "C\nA\nB");
    let summary: Vec<(ChangeKind, String, usize)> =
        result.iter().map(|d| (d.kind, d.text.clone(), d.line_number_1based)).collect();
    assert_eq!(
        summary,
        vec![
            (ChangeKind::Added, "C".to_string(), 1),
            (ChangeKind::Unchanged, "A".to_string(), 2),
            (ChangeKind::Unchanged, "B".to_string(), 3),
            (ChangeKind::Deleted, "C".to_string(), 0),
        ]
    );
    let unchanged = result.iter().filter(|d| d.kind == ChangeKind::Unchanged).count();
    assert_eq!(unchanged, 2);
}
