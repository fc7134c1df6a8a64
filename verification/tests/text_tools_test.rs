//! The checks on what the model writes, on the texts of errors and on diffs.
use cogent::diff_preview::{confirm_interactive, confirm_non_interactive, generate_diff};
use cogent::error_recovery::{
    find_closest_match, format_not_found_error, format_tool_outcomes, ToolOutcome,
};
use cogent::sanitize::{sanitize_edit_content, sanitize_write_content, SanitizeError};

#[test]
fn test_strip_leading_blank_lines() {
    let (old, new) = sanitize_edit_content("old", "\n\n    code").unwrap();
    assert_eq!(old, "old");
    assert_eq!(new, "    code");
}

#[test]
fn test_strip_leading_preserves_internal_blanks() {
    let (old, new) = sanitize_edit_content("old", "\n\nline1\n\nline2").unwrap();
    assert_eq!(old, "old");
    assert_eq!(new, "line1\n\nline2");
}

#[test]
fn test_empty_content_all_blank_lines() {
    let err = sanitize_edit_content("old", "\n\n\n").unwrap_err();
    assert_eq!(err, SanitizeError::EmptyContent);
}

#[test]
fn test_empty_content_empty_string() {
    let err = sanitize_edit_content("old", "").unwrap_err();
    assert_eq!(err, SanitizeError::EmptyContent);
}

#[test]
fn test_replacement_char_detected() {
    let err = sanitize_edit_content("old", "ab\u{FFFB}c").unwrap_err();
    assert_eq!(err, SanitizeError::ReplacementChar { position: 2 });
}

#[test]
fn test_no_replacement_char_passes() {
    let (_, new) = sanitize_edit_content("old", "正常中文内容").unwrap();
    assert_eq!(new, "正常中文内容");
}

#[test]
fn test_comment_glued_detected() {
    let err = sanitize_edit_content("old", "// 注释\n    code").unwrap_err();
    assert_eq!(err, SanitizeError::CommentGlued { line: 1 });
}

#[test]
fn test_comment_with_blank_line_passes() {
    let (_, new) = sanitize_edit_content("old", "// 注释\n\n    code").unwrap();
    assert_eq!(new, "// 注释\n\n    code");
}

#[test]
fn test_hash_comment_glued_detected() {
    let err = sanitize_edit_content("old", "# 注释\ncode").unwrap_err();
    assert_eq!(err, SanitizeError::CommentGlued { line: 1 });
}

#[test]
fn test_block_comment_end_not_glued() {
    let (_, new) = sanitize_edit_content("old", "/* 注释 */\ncode").unwrap();
    assert_eq!(new, "/* 注释 */\ncode");
}

#[test]
fn test_comment_last_line_not_glued() {
    let (_, new) = sanitize_edit_content("old", "code\n// 注释").unwrap();
    assert_eq!(new, "code\n// 注释");
}

#[test]
fn test_old_string_unchanged() {
    let (old, _) = sanitize_edit_content("  old with spaces  ", "\n\nnew").unwrap();
    assert_eq!(old, "  old with spaces  ");
}

#[test]
fn test_comment_glued_line_number() {
    let err = sanitize_edit_content("old", "code\n// 注释\nmore").unwrap_err();
    assert_eq!(err, SanitizeError::CommentGlued { line: 2 });
}

#[test]
fn test_write_content_strip_leading() {
    let out = sanitize_write_content("\n\npackage x;\nclass A {}\n").unwrap();
    assert_eq!(out, "package x;\nclass A {}\n");
}

#[test]
fn test_write_content_preserves_internal_blanks() {
    let out = sanitize_write_content("\n\nline1\n\nline2").unwrap();
    assert_eq!(out, "line1\n\nline2");
}

#[test]
fn test_write_content_rejects_replacement_char() {
    let err = sanitize_write_content("wor\u{FFFB}ld").unwrap_err();
    assert!(matches!(err, SanitizeError::ReplacementChar { .. }));
}

#[test]
fn test_write_content_rejects_comment_glued() {
    let err = sanitize_write_content("code\n// 注释\nmore").unwrap_err();
    assert_eq!(err, SanitizeError::CommentGlued { line: 2 });
}

#[test]
fn test_write_content_rejects_empty() {
    let err = sanitize_write_content("\n\n").unwrap_err();
    assert_eq!(err, SanitizeError::EmptyContent);
}

#[test]
fn decoding_marks_are_rejected() {
    let err = sanitize_write_content("wor\u{FFFD}ld").unwrap_err();
    assert_eq!(err, SanitizeError::ReplacementChar { position: 3 });
}

#[test]
fn places_count_the_blank_lines_that_go() {
    let err = sanitize_edit_content("old", "\n\nab\u{FFFB}c").unwrap_err();
    assert_eq!(err, SanitizeError::ReplacementChar { position: 4 });
    let err = sanitize_write_content("\r\n\ncode\n// note\nmore").unwrap_err();
    assert_eq!(err, SanitizeError::CommentGlued { line: 4 });
}

#[test]
fn sanitizing_twice_changes_nothing() {
    let once = sanitize_write_content("\n\nline1\n\nline2").unwrap();
    assert_eq!(sanitize_write_content(&once).unwrap(), once);
}

#[test]
fn sanitize_errors_have_messages() {
    assert_eq!(
        SanitizeError::EmptyContent.to_string(),
        "new_string is empty (only blank lines)"
    );
    assert!(SanitizeError::ReplacementChar { position: 7 }
        .to_string()
        .contains("char offset 7"));
    assert!(SanitizeError::CommentGlued { line: 4 }
        .to_string()
        .contains("line 4"));
}

#[test]
fn test_find_closest_match_indent_diff() {
    let file = "line1\n    old code\nline3\nline4";
    let old = "        old code";
    let m = find_closest_match(file, old).unwrap();
    assert_eq!(m.line, 2);
    assert!(m.context.contains("old code"));
    assert!(m.distance > 0);
}

#[test]
fn test_find_closest_match_exact() {
    let file = "line1\n    old code\nline3";
    let m = find_closest_match(file, "    old code").unwrap();
    assert_eq!(m.line, 2);
    assert_eq!(m.distance, 0);
}

#[test]
fn test_find_closest_match_empty_file() {
    assert!(find_closest_match("", "old").is_none());
}

#[test]
fn test_find_closest_match_empty_old() {
    assert!(find_closest_match("content", "").is_none());
}

#[test]
fn test_find_closest_match_short_file() {
    let file = "only one line";
    let m = find_closest_match(file, "only one line\nextra").unwrap();
    assert_eq!(m.line, 1);
    assert!(m.context.contains("only one line"));
}

#[test]
fn test_format_not_found_error_with_match() {
    let file = "line1\n    old code\nline3";
    let err = format_not_found_error("a.java", file, "        old code");
    assert!(err.contains("old_string not found in 'a.java'"));
    assert!(err.contains("Closest match at line 2"));
    assert!(err.contains("old code"));
}

#[test]
fn test_format_not_found_error_no_match() {
    let err = format_not_found_error("a.java", "", "old");
    assert!(err.contains("old_string not found in 'a.java'"));
    assert!(!err.contains("Closest match"));
}

#[test]
fn test_format_tool_outcomes_mixed() {
    let outcomes = vec![
        ToolOutcome {
            tool_name: "edit".into(),
            success: true,
            error: None,
        },
        ToolOutcome {
            tool_name: "edit".into(),
            success: false,
            error: Some("old_string not found".into()),
        },
        ToolOutcome {
            tool_name: "file_write".into(),
            success: false,
            error: Some("content is null".into()),
        },
    ];
    let out = format_tool_outcomes(&outcomes);
    assert!(out.contains("Tool results:"));
    assert!(out.contains("- edit: SUCCESS"));
    assert!(out.contains("- edit: FAILED - old_string not found"));
    assert!(out.contains("- file_write: FAILED - content is null"));
}

#[test]
fn test_format_tool_outcomes_empty() {
    let out = format_tool_outcomes(&[]);
    assert!(out.contains("No tool calls"));
}

#[test]
fn test_format_tool_outcomes_all_success() {
    let outcomes = vec![
        ToolOutcome {
            tool_name: "edit".into(),
            success: true,
            error: None,
        },
        ToolOutcome {
            tool_name: "file_read".into(),
            success: true,
            error: None,
        },
    ];
    let out = format_tool_outcomes(&outcomes);
    assert_eq!(out.matches("SUCCESS").count(), 2);
    assert!(!out.contains("FAILED"));
}

#[test]
fn calls_that_failed_without_a_reason_are_listed_as_failed() {
    let out = format_tool_outcomes(&[ToolOutcome {
        tool_name: "edit".into(),
        success: false,
        error: None,
    }]);
    assert_eq!(out, "Tool results:\n- edit: FAILED - unknown error");
}

#[test]
fn distance_is_that_of_levenshtein() {
    let m = find_closest_match("kitten", "sitting").unwrap();
    assert_eq!(m.distance, 3);
}

#[test]
fn the_first_of_the_best_places_is_found() {
    let m = find_closest_match("abc\nxyz\nabc", "abd").unwrap();
    assert_eq!(m.line, 1);
    assert_eq!(m.distance, 1);
}

#[test]
fn test_generate_diff_unified() {
    let old = "line1\nline2\nline3";
    let new = "line1\nline2-modified\nline3";
    let diff = generate_diff("a.txt", old, new);
    assert!(diff.contains("a.txt (before)"));
    assert!(diff.contains("a.txt (after)"));
    assert!(diff.contains("@@"));
    assert!(diff.contains("-line2"));
    assert!(diff.contains("+line2-modified"));
}

#[test]
fn test_generate_diff_context_3() {
    let old = (1..=10)
        .map(|i| format!("line{i}"))
        .collect::<Vec<_>>()
        .join("\n");
    let mut new_lines: Vec<String> = (1..=10).map(|i| format!("line{i}")).collect();
    new_lines[4] = "line5-changed".to_string();
    let new = new_lines.join("\n");
    let diff = generate_diff("a.txt", &old, &new);
    assert!(diff.contains("line2"));
    assert!(diff.contains("line8"));
    assert!(!diff.contains("line1\n"));
}

#[test]
fn test_generate_diff_no_change() {
    let diff = generate_diff("a.txt", "same", "same");
    assert!(!diff.contains("@@"));
}

#[test]
fn test_confirm_auto_approve_true() {
    let result = confirm_non_interactive("a.txt", "diff-here", true);
    assert!(result.approved);
    assert_eq!(result.diff, "diff-here");
}

#[test]
fn test_confirm_auto_approve_false() {
    let result = confirm_non_interactive("a.txt", "diff-here", false);
    assert!(!result.approved);
    assert_eq!(result.diff, "diff-here");
}

#[test]
fn test_confirm_result_keeps_diff() {
    let diff = "--- a\n+++ b\n@@ -1 +1 @@\n-old\n+new";
    let approved = confirm_non_interactive("a.txt", diff, true);
    let rejected = confirm_non_interactive("a.txt", diff, false);
    assert_eq!(approved.diff, diff);
    assert_eq!(rejected.diff, diff);
}

#[test]
fn only_a_yes_approves() {
    for yes in ["y", "Y", "yes", "YES", "  y\n"] {
        assert!(confirm_interactive("d", &Some(yes.to_string())).approved);
    }
    for no in ["", "n", "no", "yep", "Yes"] {
        let result = confirm_interactive("d", &Some(no.to_string()));
        assert!(!result.approved);
        assert_eq!(result.diff, "d");
    }
    assert!(!confirm_interactive("d", &None).approved);
}
