//! String-level behavior: decomposition, reassembly, trimming, and the
//! two public normalization operations.

use pathnorm::component::PathComponent;
use pathnorm::normalize::{normalize_path, normalize_str, PathError};
use pathnorm::text::{decompose, reassemble, trim};

fn seg(name: &str) -> PathComponent {
    PathComponent::Segment(name.to_string())
}

fn root() -> PathComponent {
    PathComponent::Root("/".to_string())
}

#[test]
fn normalize_str_collapses_current_and_parent() {
    assert_eq!(normalize_str("/a/./b/../c"), "/a/c");
}

#[test]
fn normalize_str_keeps_unresolved_parent() {
    assert_eq!(normalize_str("a/../../b"), "../b");
}

#[test]
fn normalize_str_keeps_leading_parents() {
    assert_eq!(normalize_str("../../b"), "../../b");
}

#[test]
fn normalize_str_discards_parent_above_root() {
    assert_eq!(normalize_str("/../a"), "/a");
}

#[test]
fn normalize_str_doubled_separators_and_root() {
    assert_eq!(normalize_str("//a//b/"), "/a/b");
    assert_eq!(normalize_str("/"), "/");
}

#[test]
fn normalize_str_vanishing_relative_path() {
    assert_eq!(normalize_str("."), ".");
    assert_eq!(normalize_str("a/.."), ".");
}

#[test]
fn normalize_path_dot_yields_base_directory() {
    assert_eq!(normalize_path(".", Some("/home/user")), Ok("/home/user".to_string()));
}

#[test]
fn normalize_path_relative_joined_onto_base() {
    assert_eq!(normalize_path("x/../y", Some("/base")), Ok("/base/y".to_string()));
}

#[test]
fn normalize_path_absolute_ignores_base() {
    assert_eq!(normalize_path("/a/./b", None), Ok("/a/b".to_string()));
}

#[test]
fn normalize_path_trims_surrounding_whitespace() {
    assert_eq!(normalize_path("  /a/../b\t", Some("/c")), Ok("/b".to_string()));
}

#[test]
fn normalize_path_empty_is_invalid() {
    assert_eq!(normalize_path("", Some("/x")), Err(PathError::InvalidInput));
}

#[test]
fn normalize_path_whitespace_only_is_invalid() {
    assert_eq!(normalize_path("   ", None), Err(PathError::InvalidInput));
}

#[test]
fn normalize_path_relative_without_base_fails() {
    assert_eq!(normalize_path("a/b", None), Err(PathError::EnvironmentUnavailable));
}

#[test]
fn error_messages() {
    assert_eq!(PathError::InvalidInput.message(), "Path is required");
    assert_eq!(PathError::EnvironmentUnavailable.message(), "Unable to resolve current directory");
}

#[test]
fn decompose_absolute_with_markers() {
    let (components, absolute) = decompose("/a//b/./../");
    assert!(absolute);
    assert_eq!(
        components,
        vec![root(), seg("a"), seg("b"), PathComponent::Current, PathComponent::Parent]
    );
}

#[test]
fn decompose_relative() {
    let (components, absolute) = decompose("a/b");
    assert!(!absolute);
    assert_eq!(components, vec![seg("a"), seg("b")]);
}

#[test]
fn decompose_empty_and_dot() {
    let (components, absolute) = decompose("");
    assert!(!absolute);
    assert_eq!(components, vec![]);
    let (components, absolute) = decompose(".");
    assert!(!absolute);
    assert_eq!(components, vec![PathComponent::Current]);
}

#[test]
fn reassemble_joins_with_separators() {
    assert_eq!(reassemble(&vec![root(), seg("a"), seg("b")]), "/a/b");
    assert_eq!(reassemble(&vec![PathComponent::Parent, seg("b")]), "../b");
    assert_eq!(
        reassemble(&vec![PathComponent::Prefix("C:".to_string()), root(), seg("a")]),
        "C:/a"
    );
    assert_eq!(reassemble(&vec![]), "");
}

#[test]
fn trim_removes_surrounding_whitespace_only() {
    assert_eq!(trim("  a b "), "a b");
    assert_eq!(trim("\t\r\n"), "");
    assert_eq!(trim("a"), "a");
}
