use uncoauthor::{rewrite_todo, strip_coauthors, StripError};

#[test]
fn single_coauthor_at_end() {
    let msg = "feat: add feature\n\nCo-authored-by: Alice <alice@example.com>\n";
    let (cleaned, count) = strip_coauthors(msg).unwrap();
    assert_eq!(count, 1);
    assert_eq!(cleaned, "feat: add feature\n");
    assert!(!cleaned.contains("Co-authored-by"));
}

#[test]
fn multiple_coauthors() {
    let msg = "fix: bug\n\nCo-authored-by: Alice <a@b>\nCo-authored-by: Bob <b@c>\n";
    let (cleaned, count) = strip_coauthors(msg).unwrap();
    assert_eq!(count, 2);
    assert_eq!(cleaned, "fix: bug\n");
}

#[test]
fn case_insensitive() {
    let msg = "msg\n\nco-authored-by: A <a@b>\nCO-AUTHORED-BY: B <b@c>\n";
    let (cleaned, count) = strip_coauthors(msg).unwrap();
    assert_eq!(count, 2);
    assert_eq!(cleaned, "msg\n");
}

#[test]
fn no_coauthors() {
    let msg = "feat: nothing special\n\nSigned-off-by: Dev <d@e>\n";
    let (cleaned, count) = strip_coauthors(msg).unwrap();
    assert_eq!(count, 0);
    assert_eq!(cleaned, msg);
}

#[test]
fn coauthor_in_middle_of_body() {
    let msg = "title\n\nsome body text\nCo-authored-by: A <a@b>\nmore text\n";
    let (cleaned, count) = strip_coauthors(msg).unwrap();
    assert_eq!(count, 1);
    assert_eq!(cleaned, "title\n\nsome body text\nmore text\n");
}

#[test]
fn only_coauthor_line_errors() {
    let msg = "Co-authored-by: A <a@b>\n";
    assert!(matches!(strip_coauthors(msg), Err(StripError::EmptyMessage)));
}

#[test]
fn trailing_blank_lines_collapsed() {
    let msg = "title\n\nbody\n\nCo-authored-by: A <a@b>\n\n\n";
    let (cleaned, count) = strip_coauthors(msg).unwrap();
    assert_eq!(count, 1);
    assert_eq!(cleaned, "title\n\nbody\n");
}

#[test]
fn rewrite_todo_basic() {
    let todo = "pick abc123 first commit\npick def456 second commit\n";
    let result = rewrite_todo(todo);
    assert_eq!(result, "reword abc123 first commit\nreword def456 second commit\n");
}

#[test]
fn rewrite_todo_preserves_comments() {
    let todo = "pick abc123 msg\n# comment line\npick def456 msg2\n";
    let result = rewrite_todo(todo);
    assert!(result.contains("reword abc123"));
    assert!(result.contains("# comment line"));
    assert!(result.contains("reword def456"));
}

#[test]
fn leading_white_space_before_trailer() {
    let msg = "title\n  \tCo-authored-by: A <a@b>\n";
    let (cleaned, count) = strip_coauthors(msg).unwrap();
    assert_eq!(count, 1);
    assert_eq!(cleaned, "title\n");
}

#[test]
fn unicode_white_space_before_trailer() {
    let msg = "title\n\u{3000}\u{a0}co-AUTHORED-by:x\n";
    let (cleaned, count) = strip_coauthors(msg).unwrap();
    assert_eq!(count, 1);
    assert_eq!(cleaned, "title\n");
}

#[test]
fn trailer_without_colon_is_kept() {
    let msg = "title\n\nCo-authored-by Alice\n";
    let (cleaned, count) = strip_coauthors(msg).unwrap();
    assert_eq!(count, 0);
    assert_eq!(cleaned, msg);
}

#[test]
fn trailer_word_inside_a_line_is_kept() {
    let msg = "see Co-authored-by: rules\n";
    let (cleaned, count) = strip_coauthors(msg).unwrap();
    assert_eq!(count, 0);
    assert_eq!(cleaned, msg);
}

#[test]
fn message_without_trailers_is_unchanged() {
    for msg in ["title", "a\r\nb\n", "title\n\n\n", "x\r\n\r\ny \n\t"] {
        let (cleaned, count) = strip_coauthors(msg).unwrap();
        assert_eq!(count, 0);
        assert_eq!(cleaned, msg);
    }
}

#[test]
fn crlf_endings_are_kept() {
    let (cleaned, count) = strip_coauthors("title\r\nbody\r\nCo-authored-by: A\r\n").unwrap();
    assert_eq!(count, 1);
    assert_eq!(cleaned, "title\r\nbody\r\n");
    let (cleaned, count) = strip_coauthors("a\r\nCo-authored-by: A\nb\n").unwrap();
    assert_eq!(count, 1);
    assert_eq!(cleaned, "a\r\nb\n");
}

#[test]
fn unterminated_last_line_gets_a_newline() {
    let (cleaned, count) = strip_coauthors("a\nCo-authored-by: x\nb").unwrap();
    assert_eq!(count, 1);
    assert_eq!(cleaned, "a\nb\n");
    let (cleaned, count) = strip_coauthors("title\nCo-authored-by: x").unwrap();
    assert_eq!(count, 1);
    assert_eq!(cleaned, "title\n");
}

#[test]
fn empty_message_errors() {
    assert_eq!(strip_coauthors(""), Err(StripError::EmptyMessage));
    assert_eq!(strip_coauthors("\n \n\t\n"), Err(StripError::EmptyMessage));
    assert_eq!(
        strip_coauthors("\n\nCo-authored-by: A\n  \n"),
        Err(StripError::EmptyMessage)
    );
}

#[test]
fn leading_blank_lines_are_kept() {
    let (cleaned, count) = strip_coauthors("\n\ntitle\n\nCo-authored-by: x\n\n").unwrap();
    assert_eq!(count, 1);
    assert_eq!(cleaned, "\n\ntitle\n");
}

#[test]
fn comment_lines_are_kept() {
    let msg = "title\n# Please enter the commit message\nCo-authored-by: A\n# end\n";
    let (cleaned, count) = strip_coauthors(msg).unwrap();
    assert_eq!(count, 1);
    assert_eq!(cleaned, "title\n# Please enter the commit message\n# end\n");
}

#[test]
fn strip_error_message() {
    assert_eq!(
        StripError::EmptyMessage.message(),
        "commit message would be empty after stripping co-author lines"
    );
}

#[test]
fn strip_is_idempotent() {
    let msg = "feat: x\n\nbody\nCo-authored-by: A\nco-authored-by: B\n\n\n";
    let (once, n1) = strip_coauthors(msg).unwrap();
    let (twice, n2) = strip_coauthors(&once).unwrap();
    assert_eq!(n1, 2);
    assert_eq!(n2, 0);
    assert_eq!(once, twice);
}

#[test]
fn no_coauthor_remains_after_strip() {
    let msg = "a\nCo-authored-by: x\n b\n  CO-AUTHORED-BY: y\nc\n";
    let (cleaned, _) = strip_coauthors(msg).unwrap();
    assert!(!cleaned.to_lowercase().contains("co-authored-by"));
    assert_eq!(cleaned, "a\n b\nc\n");
}

#[test]
fn rewrite_todo_keeps_indent() {
    assert_eq!(rewrite_todo("  pick abc x\n"), "  reword abc x\n");
    assert_eq!(rewrite_todo("\tpick abc\n"), "\treword abc\n");
}

#[test]
fn rewrite_todo_leaves_other_lines() {
    let todo = "edit abc x\npicked abc\npick\nPICK abc\n\nexec make\n";
    assert_eq!(rewrite_todo(todo), todo);
}

#[test]
fn rewrite_todo_bare_pick_space() {
    assert_eq!(rewrite_todo("pick "), "reword \n");
}

#[test]
fn rewrite_todo_empty() {
    assert_eq!(rewrite_todo(""), "\n");
    assert_eq!(rewrite_todo("\n"), "\n");
}

#[test]
fn rewrite_todo_adds_final_newline_and_drops_cr() {
    assert_eq!(rewrite_todo("pick a\r\npick b"), "reword a\nreword b\n");
}

#[test]
fn rewrite_todo_is_idempotent() {
    let todo = "pick a one\n# c\n  pick b two\n";
    let once = rewrite_todo(todo);
    assert_eq!(rewrite_todo(&once), once);
}

#[test]
fn strip_is_idempotent_with_crlf() {
    let msg = "t\r\n\r\nCo-authored-by: A\r\n\r\n";
    let (once, n1) = strip_coauthors(msg).unwrap();
    assert_eq!(once, "t\r\n");
    assert_eq!(n1, 1);
    assert_eq!(strip_coauthors(&once).unwrap(), (once.clone(), 0));
}

#[test]
fn final_newline_after_removal_is_single() {
    let (cleaned, _) = strip_coauthors("t\n\n \nCo-authored-by: A\n\n\n").unwrap();
    assert_eq!(cleaned, "t\n");
}
