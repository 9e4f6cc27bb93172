use staticserve::paths::has_traversal;
use staticserve::resolve::{resolve_start, Action, ResolveState, ResolvedTarget};

#[test]
fn detects_leading_parent_dir() {
    assert!(has_traversal("../etc/passwd"));
}

#[test]
fn detects_inner_parent_dir() {
    assert!(has_traversal("a/../b"));
}

#[test]
fn detects_trailing_parent_dir() {
    assert!(has_traversal("a/.."));
}

#[test]
fn detects_bare_parent_dir() {
    assert!(has_traversal(".."));
}

#[test]
fn accepts_names_that_merely_contain_dots() {
    assert!(!has_traversal("..a/b"));
    assert!(!has_traversal("a/b.."));
    assert!(!has_traversal("a..b"));
    assert!(!has_traversal("."));
    assert!(!has_traversal("a/./b"));
    assert!(!has_traversal(""));
    assert!(!has_traversal("a/b/c"));
}

#[test]
fn traversal_is_rejected_before_any_probe() {
    let (st, act) = resolve_start("/pub", "../secret");
    assert!(matches!(act, Action::ServeNotFound));
    assert!(matches!(st, ResolveState::Done(ResolvedTarget::NotFound)));
}
