use oxidized_git::git_manager::{
    commit_message, file_header_is_shown, file_type_of, flag_is_true, get_content_from_diff_line,
    get_message_without_summary, get_string_from_serde_string, get_utf8_string, local_branch_name,
    merge_message, parse_reset_type, push_refspec, remote_branch_refspec, revert_message, trim_newline,
    upstream_shorthand, ContentError, PayloadError, ResetKind,
};
use oxidized_git::text::{join_strs, split_str};

#[test]
fn trim_newline_removes_one_line_ending() {
    let mut a = String::from("abc\r\n");
    trim_newline(&mut a);
    assert_eq!(a, "abc");
    let mut b = String::from("abc\n\n");
    trim_newline(&mut b);
    assert_eq!(b, "abc\n");
    let mut c = String::from("abc\r");
    trim_newline(&mut c);
    assert_eq!(c, "abc");
    let mut d = String::from("abc");
    trim_newline(&mut d);
    assert_eq!(d, "abc");
}

#[test]
fn diff_line_content_is_trimmed_and_escaped() {
    let r = get_content_from_diff_line(b"if a < b && c > d {\n");
    assert_eq!(r.ok().unwrap(), "if a &lt; b &amp;&amp; c &gt; d {");
}

#[test]
fn diff_line_with_invalid_utf8_is_refused() {
    let r = get_content_from_diff_line(&[0x66, 0xff, 0x0a]);
    assert!(matches!(r, Err(ContentError::InvalidUtf8)));
}

#[test]
fn split_then_join_gives_back_the_text() {
    let text = "one\n\ntwo\n\n\n\nthree";
    let pieces = split_str(text, "\n\n");
    assert_eq!(pieces, vec!["one", "two", "", "three"]);
    assert_eq!(join_strs(&pieces, "\n\n"), text);
}

#[test]
fn message_without_summary_lf_and_crlf() {
    assert_eq!(get_message_without_summary("Fix\n\nLine one\n\nLine two"), (String::from("Line one\n\nLine two"), false));
    assert_eq!(get_message_without_summary("Fix\r\n\r\nBody"), (String::from("Body"), true));
    assert_eq!(get_message_without_summary("Only a summary"), (String::from(""), false));
}

#[test]
fn revert_message_keeps_the_body_and_line_endings() {
    assert_eq!(revert_message("Fix bug", "Fix bug\n\nBody text"), "Revert \"Fix bug\"\n\nBody text");
    assert_eq!(revert_message("Fix", "Fix\r\n\r\nBody"), "Revert \"Fix\"\r\n\r\nBody");
    assert_eq!(revert_message("Fix", "Fix"), "Revert \"Fix\"\n\n");
}

#[test]
fn summary_separator_and_rest_rebuild_the_message() {
    let full = "Summary\n\nFirst\n\nSecond";
    let (rest, crlf) = get_message_without_summary(full);
    assert!(!crlf);
    assert_eq!(format!("{}{}{}", "Summary", "\n\n", rest), full);
}

#[test]
fn merge_message_uses_five_characters_of_each_sha() {
    assert_eq!(merge_message("abcdef123", "0123456789"), "Merge commit abcde into commit 01234");
    assert_eq!(merge_message("abc", "01"), "Merge commit abc into commit 01");
}

#[test]
fn commit_message_adds_the_body_after_a_blank_line() {
    assert_eq!(commit_message("Summary", ""), "Summary");
    assert_eq!(commit_message("Summary", "Body"), "Summary\n\nBody");
}

#[test]
fn local_branch_name_drops_the_remote() {
    assert_eq!(local_branch_name("origin/feature/x"), "feature/x");
    assert_eq!(local_branch_name("origin/main"), "main");
    assert_eq!(local_branch_name("main"), "");
}

#[test]
fn remote_branch_refspec_splits_at_the_first_slash() {
    let r = remote_branch_refspec("origin/feature/x").unwrap();
    assert_eq!(r.0, "origin");
    assert_eq!(r.1, ":refs/heads/feature/x");
    assert!(remote_branch_refspec("no-remote").is_none());
}

#[test]
fn push_refspec_marks_forced_pushes() {
    assert_eq!(push_refspec("refs/heads/main", true), "+refs/heads/main");
    assert_eq!(push_refspec("refs/heads/main", false), "refs/heads/main");
}

#[test]
fn upstream_shorthand_joins_remote_and_branch() {
    assert_eq!(upstream_shorthand("origin", "topic"), "origin/topic");
}

#[test]
fn flags_are_true_only_for_the_text_true() {
    assert!(flag_is_true("true"));
    assert!(!flag_is_true("True"));
    assert!(!flag_is_true(""));
}

#[test]
fn reset_kinds_are_read_from_their_names() {
    assert!(matches!(parse_reset_type("soft"), Some(ResetKind::Soft)));
    assert!(matches!(parse_reset_type("mixed"), Some(ResetKind::Mixed)));
    assert!(matches!(parse_reset_type("hard"), Some(ResetKind::Hard)));
    assert!(parse_reset_type("medium").is_none());
}

#[test]
fn file_type_is_the_text_after_the_last_dot() {
    assert_eq!(file_type_of("src/main.rs"), "rs");
    assert_eq!(file_type_of("archive.tar.gz"), "gz");
    assert_eq!(file_type_of("Makefile"), "Makefile");
}

#[test]
fn only_mode_changes_and_renames_show_their_headers() {
    assert!(file_header_is_shown("old mode 100644"));
    assert!(file_header_is_shown("new mode 100755"));
    assert!(file_header_is_shown("rename from a.txt"));
    assert!(file_header_is_shown("similarity index 90%"));
    assert!(!file_header_is_shown("+++ b/old mode"));
    assert!(!file_header_is_shown("diff --git a/x b/x"));
}

#[test]
fn utf8_names_are_reported_when_absent() {
    assert_eq!(get_utf8_string(Some("Ann"), "Author Name"), Ok("Ann"));
    assert_eq!(get_utf8_string(None, "Author Name"), Err(String::from("Author Name uses invalid utf-8!")));
}

#[test]
fn json_string_values_must_be_strings() {
    assert!(matches!(get_string_from_serde_string(Some("path")), Ok("path")));
    assert!(matches!(get_string_from_serde_string(None), Err(PayloadError::InvalidJsonString)));
}
