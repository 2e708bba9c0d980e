use autograder_rust::util::{expand_tilde, format_pass_fail, normalize_lines, project_prefix};

#[test]
fn format_and_failed() {
    let s = format_pass_fail("01", 5, 5);
    assert!(s.starts_with("01(5/5)"));
}

#[test]
fn format_pass_fail_pads_to_full_width() {
    // The all-points form "case(12/12) " is 12 characters wide; the failing
    // form is padded to the same width so labels line up.
    assert_eq!(format_pass_fail("case", 12, 12), "case(12/12) ");
    assert_eq!(format_pass_fail("case", 12, 0), "case(0/12)  ");
    assert_eq!(format_pass_fail("01", 5, 0), "01(0/5) ");
}

#[test]
fn normalize_lines_trims_and_folds() {
    let v = normalize_lines("  Hello World \n\tMixed CASE", false);
    assert_eq!(v, vec!["hello world\n".to_string(), "mixed case\n".to_string()]);
}

#[test]
fn normalize_lines_case_sensitive_keeps_case() {
    let v = normalize_lines("Hello", true);
    assert_eq!(v, vec!["Hello\n".to_string()]);
}

#[test]
fn normalize_lines_empty_text_is_one_empty_line() {
    assert_eq!(normalize_lines("", false), vec!["\n".to_string()]);
}

#[test]
fn expand_tilde_replaces_leading_tilde() {
    assert_eq!(expand_tilde("~/Digital/Digital.jar", "/home/u"), "/home/u/Digital/Digital.jar");
    assert_eq!(expand_tilde("/abs/path", "/home/u"), "/abs/path");
    assert_eq!(expand_tilde("~", "/home/u"), "~");
}

#[test]
fn project_prefix_stops_at_first_dash() {
    assert_eq!(project_prefix("project1-someuser"), "project1");
    assert_eq!(project_prefix("project1"), "project1");
    assert_eq!(project_prefix("a-b-c"), "a");
}

#[test]
fn diff_pairs_reports_only_mismatches() {
    let expected = vec!["a\n".to_string(), "b\n".to_string(), "c\n".to_string()];
    let actual = vec!["a\n".to_string(), "x\n".to_string()];
    let pairs = autograder_rust::util::diff_pairs(&expected, &actual, 50);
    assert_eq!(pairs, vec![("b".to_string(), "x".to_string()), ("c".to_string(), String::new())]);
    let capped = autograder_rust::util::diff_pairs(&expected, &actual, 1);
    assert_eq!(capped, Vec::<(String, String)>::new());
}
