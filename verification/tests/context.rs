//! Prefix matching of paths against route patterns, and the navigation
//! pipeline of the router.

use gpui_navigator::{guard_round_step, path_matches_prefix, NavigationAction};

#[test]
fn test_path_matches_prefix_exact() {
    assert!(path_matches_prefix("dashboard", "dashboard"));
}

#[test]
fn test_path_matches_prefix_child() {
    assert!(path_matches_prefix("dashboard/settings", "dashboard"));
}

#[test]
fn test_path_matches_prefix_no_match() {
    assert!(!path_matches_prefix("other", "dashboard"));
}

#[test]
fn test_path_matches_prefix_with_param() {
    assert!(path_matches_prefix("users/123", "users/:id"));
    assert!(path_matches_prefix("users/123/posts", "users/:id"));
}

#[test]
fn test_path_matches_prefix_shorter_path() {
    assert!(!path_matches_prefix("users", "users/123"));
}

#[test]
fn test_guard_round_step() {
    assert!(guard_round_step(NavigationAction::Continue).is_none());
    let deny = NavigationAction::deny("no");
    assert!(matches!(
        guard_round_step(deny),
        Some(NavigationAction::Deny { .. })
    ));
}
