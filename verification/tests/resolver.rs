use clouddrive::paths::{
    contains_dot_dot_segment, is_within_root, percent_decode, resolve, strip_leading_separators,
};
use clouddrive::TransferError;

#[test]
fn resolve_joins_relative_path_under_root() {
    let r = resolve("/data/store1", Some("docs/report.pdf"));
    assert_eq!(r, Ok(String::from("/data/store1/docs/report.pdf")));
}

#[test]
fn resolve_without_request_returns_root() {
    assert_eq!(resolve("/data/store1", None), Ok(String::from("/data/store1")));
    assert_eq!(resolve("/data/store1", Some("")), Ok(String::from("/data/store1")));
    assert_eq!(resolve("/data/store1", Some("///")), Ok(String::from("/data/store1")));
}

#[test]
fn resolve_rejects_dot_dot_traversal() {
    let r = resolve("/data/store1", Some("../../etc/passwd"));
    assert_eq!(r, Err(TransferError::PathViolation));
}

#[test]
fn resolve_rejects_percent_encoded_traversal() {
    let r = resolve("/data/store1", Some("%2e%2e/%2e%2e/etc/passwd"));
    assert_eq!(r, Err(TransferError::PathViolation));
    let r = resolve("/data/store1", Some("%2E%2E%2fetc/passwd"));
    assert_eq!(r, Err(TransferError::PathViolation));
}

#[test]
fn resolve_never_interprets_request_as_absolute() {
    let r = resolve("/data/store1", Some("/etc/passwd")).unwrap();
    assert_eq!(r, "/data/store1/etc/passwd");
    assert!(is_within_root("/data/store1", &r));
}

#[test]
fn resolve_rejects_backslash_traversal() {
    let r = resolve("/data/store1", Some("..\\secrets"));
    assert_eq!(r, Err(TransferError::PathViolation));
}

#[test]
fn within_root_needs_a_segment_boundary() {
    assert!(is_within_root("/data/foo", "/data/foo"));
    assert!(is_within_root("/data/foo", "/data/foo/bar"));
    assert!(!is_within_root("/data/foo", "/data/foo2"));
    assert!(!is_within_root("/data/foo", "/data"));
    assert!(!is_within_root("/data/foo", "/other/foo/bar"));
}

#[test]
fn percent_decode_decodes_hex_triples() {
    assert_eq!(percent_decode(b"a%2Fb"), b"a/b".to_vec());
    assert_eq!(percent_decode(b"%2e%2E"), b"..".to_vec());
    assert_eq!(percent_decode(b"100%"), b"100%".to_vec());
    assert_eq!(percent_decode(b"%zz"), b"%zz".to_vec());
    assert_eq!(percent_decode(b""), b"".to_vec());
}

#[test]
fn dot_dot_segments_are_found_only_as_whole_segments() {
    assert!(contains_dot_dot_segment(b"../x"));
    assert!(contains_dot_dot_segment(b"a/../b"));
    assert!(contains_dot_dot_segment(b"a/.."));
    assert!(contains_dot_dot_segment(b"..\\x"));
    assert!(!contains_dot_dot_segment(b"a..b"));
    assert!(!contains_dot_dot_segment(b"..."));
    assert!(!contains_dot_dot_segment(b"a.b/c.d"));
}

#[test]
fn stripping_leading_separators() {
    assert_eq!(strip_leading_separators("///x/y"), "x/y");
    assert_eq!(strip_leading_separators("\\x"), "x");
    assert_eq!(strip_leading_separators("x/"), "x/");
    assert_eq!(strip_leading_separators(""), "");
}
