//! Unit tests for the path, formatter, parser and text helpers.

use tabula::format::{basename_x, format_path, trim_end_seps_x};
use tabula::parse::{parse_payload, parse_u32_x, strip_ends_x};
use tabula::path::{common_ancestor_x, is_path_prefix_x, path_parent_x};
use tabula::text::{dec_str, str_eq, trim_x};

fn s(x: &str) -> String {
    x.to_string()
}

#[test]
fn path_prefix_component_boundaries() {
    assert!(is_path_prefix_x("/a", "/a"));
    assert!(is_path_prefix_x("/a", "/a/b"));
    assert!(!is_path_prefix_x("/a", "/ab"));
    assert!(is_path_prefix_x("/", "/a"));
    assert!(is_path_prefix_x("/a/", "/a/b"));
    assert!(is_path_prefix_x("", "anything"));
    assert!(!is_path_prefix_x("/a/b", "/a"));
}

#[test]
fn parents() {
    assert_eq!(path_parent_x("/a/b"), Some(s("/a")));
    assert_eq!(path_parent_x("/a"), Some(s("/")));
    assert_eq!(path_parent_x("/"), None);
    assert_eq!(path_parent_x("plain"), None);
    assert_eq!(path_parent_x(""), None);
}

#[test]
fn common_ancestor_of_three() {
    let dirs = vec![s("/a/b/c"), s("/a/b/d"), s("/a/x")];
    assert_eq!(common_ancestor_x(&dirs), Some(s("/a")));
}

#[test]
fn common_ancestor_is_order_independent_on_normalized_paths() {
    let a = vec![s("/a/b/c"), s("/a/b/d"), s("/a/x")];
    let b = vec![s("/a/x"), s("/a/b/d"), s("/a/b/c")];
    let c = vec![s("/a/b/d"), s("/a/x"), s("/a/b/c")];
    assert_eq!(common_ancestor_x(&a), common_ancestor_x(&b));
    assert_eq!(common_ancestor_x(&a), common_ancestor_x(&c));
}

#[test]
fn common_ancestor_fails_across_the_root() {
    let dirs = vec![s("relative/path"), s("/absolute/path")];
    assert_eq!(common_ancestor_x(&dirs), None);
}

#[test]
fn basenames() {
    assert_eq!(basename_x("/home/u/proj"), Some(s("proj")));
    assert_eq!(basename_x("/home/u/proj/"), Some(s("proj")));
    assert_eq!(basename_x("/"), None);
    assert_eq!(basename_x(""), None);
    assert_eq!(basename_x("plain"), Some(s("plain")));
}

#[test]
fn formatter_rules() {
    let root = Some(s("/home/u/proj"));
    let home = Some(s("/home/u"));
    assert_eq!(format_path("/home/u/proj/src", &root, &home), s("proj/src"));
    assert_eq!(format_path("/home/u/proj", &root, &home), s("proj"));
    assert_eq!(format_path("/home/u/other", &None, &home), s("~/other"));
    assert_eq!(format_path("/home/u", &None, &home), s("~"));
    assert_eq!(format_path("/elsewhere", &None, &home), s("/elsewhere"));
    assert_eq!(format_path("/elsewhere", &None, &None), s("/elsewhere"));
}

#[test]
fn formatter_home_trailing_separator_is_ignored() {
    let home = Some(s("/home/u/"));
    assert_eq!(format_path("/home/u/proj", &None, &home), s("~/proj"));
}

#[test]
fn formatter_root_without_basename_falls_back_to_home() {
    let root = Some(s("/"));
    let home = Some(s("/home/u"));
    assert_eq!(format_path("/home/u/proj", &root, &home), s("~/proj"));
}

#[test]
fn payload_parsing() {
    assert_eq!(parse_payload("\"12\" \"/tmp\""), Some((12, s("/tmp"))));
    assert_eq!(parse_payload("\"1\" \"\""), Some((1, s(""))));
    assert_eq!(parse_payload("no_space"), None);
    assert_eq!(parse_payload("a b c"), None);
    assert_eq!(parse_payload("\"x\" \"/tmp\""), None);
    assert_eq!(parse_payload(""), None);
}

#[test]
fn pane_id_parsing() {
    assert_eq!(parse_u32_x("0"), Some(0));
    assert_eq!(parse_u32_x("42"), Some(42));
    assert_eq!(parse_u32_x("+42"), Some(42));
    assert_eq!(parse_u32_x("4294967295"), Some(u32::MAX));
    assert_eq!(parse_u32_x("4294967296"), None);
    assert_eq!(parse_u32_x("99999999999999999999"), None);
    assert_eq!(parse_u32_x(""), None);
    assert_eq!(parse_u32_x("+"), None);
    assert_eq!(parse_u32_x("-1"), None);
    assert_eq!(parse_u32_x("1 "), None);
    assert_eq!(parse_u32_x("12a"), None);
}

#[test]
fn token_stripping() {
    assert_eq!(strip_ends_x("\"abc\""), s("abc"));
    assert_eq!(strip_ends_x("ab"), s(""));
    assert_eq!(strip_ends_x("a"), s(""));
    assert_eq!(strip_ends_x(""), s(""));
}

#[test]
fn decimal_rendering() {
    assert_eq!(dec_str(0), s("0"));
    assert_eq!(dec_str(7), s("7"));
    assert_eq!(dec_str(10), s("10"));
    assert_eq!(dec_str(1234), s("1234"));
}

#[test]
fn trimming() {
    assert_eq!(trim_x(" \t/a/b\n\r "), s("/a/b"));
    assert_eq!(trim_x("/a/b"), s("/a/b"));
    assert_eq!(trim_x("  "), s(""));
    assert_eq!(trim_end_seps_x("/a/b//"), s("/a/b"));
    assert_eq!(trim_end_seps_x("/a/b"), s("/a/b"));
    assert_eq!(trim_end_seps_x("///"), s(""));
}

#[test]
fn string_equality() {
    assert!(str_eq("abc", "abc"));
    assert!(!str_eq("abc", "abd"));
    assert!(!str_eq("abc", "ab"));
    assert!(str_eq("", ""));
}
