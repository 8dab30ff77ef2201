//! Segment-based matching of a path against a route pattern.

use gpui_navigator::matching::{
    extract_param_name, is_param_segment, is_wildcard_segment, match_path, split_path,
};
use gpui_navigator::Route;
use std::sync::Arc;

#[test]
fn test_split_path() {
    assert_eq!(split_path("/users/123"), vec!["users", "123"]);
    assert_eq!(
        split_path("/users/123/profile"),
        vec!["users", "123", "profile"]
    );
    assert_eq!(split_path("/"), Vec::<String>::new());
    assert_eq!(split_path(""), Vec::<String>::new());
    assert_eq!(split_path("/users/"), vec!["users"]);
    assert_eq!(split_path("users"), vec!["users"]);
}

#[test]
fn test_extract_param_name() {
    assert_eq!(extract_param_name(":id"), Some("id"));
    assert_eq!(extract_param_name(":userId"), Some("userId"));
    assert_eq!(extract_param_name("users"), None);
    assert_eq!(extract_param_name(""), None);
}

#[test]
fn test_is_param_segment() {
    assert!(is_param_segment(":id"));
    assert!(is_param_segment(":userId"));
    assert!(!is_param_segment("users"));
    assert!(!is_param_segment(""));
}

#[test]
fn test_is_wildcard_segment() {
    assert!(is_wildcard_segment("*"));
    assert!(is_wildcard_segment("*path"));
    assert!(!is_wildcard_segment("path"));
    assert!(!is_wildcard_segment(":id"));
}

#[test]
fn test_exact_match() {
    // "/users/list" matches route "/users/list"
    let route = Route::new("/users/list");
    let m = route.matches("/users/list").expect("literal segments match");
    assert_eq!(m.path, "/users/list");
    assert!(m.params.is_empty());
}

#[test]
fn test_param_extraction() {
    // "/users/123" matches route "/users/:id" with {id: "123"}
    let route = Arc::new(Route::new("/users/:id"));
    let m = match_path("/users/123", &route).expect("parameter segment matches");
    assert_eq!(m.params.get("id"), Some(&"123".to_string()));
    assert!(m.remaining.is_empty());
}

#[test]
fn test_no_match_scenarios() {
    // "/users/123/extra" doesn't match route "/users/:id" (exact)
    let route = Route::new("/users/:id");
    assert!(route.matches("/users/123/extra").is_none());
    assert!(route.matches("/posts/123").is_none());
    let arc = Arc::new(Route::new("/users/:id"));
    assert!(match_path("/posts/123", &arc).is_none());
    assert!(match_path("/users", &arc).is_none());
}

#[test]
fn test_remaining_segments() {
    // "/users/123/profile" matches "/users/:id" with remaining ["profile"]
    let route = Arc::new(Route::new("/users/:id"));
    let m = match_path("/users/123/profile", &route).expect("prefix matches");
    assert_eq!(m.params.get("id"), Some(&"123".to_string()));
    assert_eq!(m.remaining, vec!["profile".to_string()]);
}
