use axvfs::path_util::{bytes_eq, normalize_rel, split_path, starts_with, trim_path};

#[test]
fn split_simple_name() {
    let (name, rest) = split_path(b"foo");
    assert_eq!(name, b"foo");
    assert!(rest.is_none());
}

#[test]
fn split_trims_leading_separators() {
    let (name, rest) = split_path(b"///foo/bar/baz");
    assert_eq!(name, b"foo");
    assert_eq!(rest.unwrap(), b"bar/baz");
}

#[test]
fn split_empty_name_before_rest() {
    let (name, rest) = split_path(b"/");
    assert_eq!(name, b"");
    assert!(rest.is_none());
}

#[test]
fn trim_both_ends() {
    assert_eq!(trim_path(b"//a/b//"), b"a/b");
    assert_eq!(trim_path(b"///"), b"");
    assert_eq!(trim_path(b"abc"), b"abc");
}

#[test]
fn normalize_strips_dot_slash() {
    assert_eq!(normalize_rel(b"./foo"), b"foo");
    assert_eq!(normalize_rel(b"/./././x/"), b"x");
    assert_eq!(normalize_rel(b"/dev/null"), b"dev/null");
}

#[test]
fn prefix_and_equality() {
    assert!(starts_with(b"dev/null", b"dev"));
    assert!(!starts_with(b"de", b"dev"));
    assert!(bytes_eq(b"abc", b"abc"));
    assert!(!bytes_eq(b"abc", b"abd"));
}
