//! Concrete instances of the library's laws.

use gpui_navigator::cache::{RouteCache, RouteId};
use gpui_navigator::params::{decode_uri_component, encode_uri_component};
use gpui_navigator::route::fill_pattern;
use gpui_navigator::{
    normalize_path, resolve_match_stack, QueryParams, Route, RouteParams, RouterState,
};
use std::sync::Arc;

#[test]
fn test_law_normalize_idempotent() {
    for p in ["", "/", "//", "dashboard", "/a//b/", "users/:id/", "///x///"] {
        let once = normalize_path(p);
        assert_eq!(normalize_path(&once), once);
        assert!(once.starts_with('/'));
        assert!(once == "/" || !once.ends_with('/'));
        assert!(!once.contains("//"));
    }
    assert_eq!(normalize_path("//dashboard"), "/dashboard");
    assert_eq!(normalize_path("/a//b/"), "/a/b");
}

#[test]
fn test_law_decode_undoes_encode() {
    for s in ["hello world", "a+b=c&d", "100% sure?", "", "~safe-_.", "x/y:z@w#"] {
        let encoded = encode_uri_component(s);
        assert!(!encoded.contains('&'));
        assert!(!encoded.contains('='));
        assert_eq!(decode_uri_component(&encoded), s);
    }
    assert_eq!(encode_uri_component("a b+c"), "a%20b%2Bc");
    assert_eq!(decode_uri_component("%zz"), "%zz");
    assert_eq!(decode_uri_component("%4"), "\u{4}");
    assert_eq!(decode_uri_component("%41%2b"), "A+");
}

#[test]
fn test_law_query_string_round_trip() {
    let mut query = QueryParams::new();
    query.insert("tag".to_string(), "rust lang".to_string());
    query.insert("q".to_string(), "a&b=c".to_string());
    query.insert("tag".to_string(), "gpui".to_string());
    let text = query.to_query_string();
    assert_eq!(text, "tag=rust%20lang&tag=gpui&q=a%26b%3Dc");
    let parsed = QueryParams::from_query_string(&text);
    assert_eq!(parsed.get_all("tag"), query.get_all("tag"));
    assert_eq!(parsed.get_all("q"), query.get_all("q"));
    assert_eq!(parsed.len(), query.len());
}

#[test]
fn test_query_pieces_without_equals_are_skipped() {
    let query = QueryParams::from_query_string("flag&a=1&=empty&b==2");
    assert_eq!(query.len(), 3);
    assert!(!query.contains("flag"));
    assert_eq!(query.get(""), Some(&"empty".to_string()));
    assert_eq!(query.get("b"), Some(&"=2".to_string()));
}

#[test]
fn test_law_history_back_after_push() {
    let mut state = RouterState::new();
    state.push("/a".to_string());
    state.push("/b".to_string());
    state.back();
    state.back();
    assert_eq!(state.current_path(), "/");
    // A push drops the entries after the cursor.
    state.push("/c".to_string());
    assert_eq!(state.history_len(), 2);
    assert!(!state.can_go_forward());
    assert!(state.forward().is_none());
    let event = state.back().unwrap();
    assert_eq!(event.from.as_deref(), Some("/c"));
    assert_eq!(event.to, "/");
    assert_eq!(state.current_path(), "/");
    assert!(state.back().is_none());
    assert_eq!(state.peek_forward_path(), Some("/c"));
    state.forward();
    assert_eq!(state.current_path(), "/c");
    assert_eq!(state.peek_back_path(), Some("/"));
}

#[test]
fn test_law_current_match_same_with_or_without_cache() {
    let mut state = RouterState::new();
    state.add_route(Route::new("/users"));
    state.add_route(Route::new("/users/:id"));
    state.add_route(Route::new("/:section/:id"));
    state.push("/users/42".to_string());
    let first = state.current_match().unwrap();
    let again = state.current_match().unwrap();
    let plain = state.current_match_immutable().unwrap();
    assert_eq!(first.path, "/users/42");
    assert_eq!(first.params.get("id"), Some(&"42".to_string()));
    assert_eq!(first.params.get("section"), None);
    assert_eq!(again.params.get("id"), plain.params.get("id"));
    // "/users" claims the path as a whole-segment prefix before the exact match.
    assert_eq!(state.current_route().unwrap().config.path, "/users");
    state.push("/nothing/here/at/all".to_string());
    assert!(state.current_match().is_none());
    assert!(state.current_route().is_none());
}

#[test]
fn test_current_route_prefix_claim() {
    let mut state = RouterState::new();
    state.add_route(Route::new("/dash"));
    state.add_route(Route::new("/dashboard"));
    state.push("/dashboard/settings".to_string());
    assert_eq!(state.current_route().unwrap().config.path, "/dashboard");

    let mut rooted = RouterState::new();
    rooted.add_route(Route::new("/").child(Arc::new(Route::new("about"))));
    rooted.push("/anything".to_string());
    assert_eq!(rooted.current_route().unwrap().config.path, "/");
}

#[test]
fn test_law_cache_get_after_set_and_capacity() {
    let mut cache = RouteCache::with_capacity(2);
    cache.set_parent("/a".to_string(), RouteId::from_path("/"));
    cache.set_parent("/a".to_string(), RouteId::from_path("/root"));
    assert_eq!(cache.parent_cache_size(), 1);
    assert_eq!(cache.get_parent("/a").unwrap().path, "/root");
    cache.set_parent("/b".to_string(), RouteId::from_path("/"));
    cache.set_parent("/c".to_string(), RouteId::from_path("/"));
    assert_eq!(cache.parent_cache_size(), 2);
    assert_eq!(cache.get_parent("/c").unwrap().path, "/");
    let copy = cache.clone();
    assert_eq!(copy.parent_cache_size(), 0);
    assert_eq!(copy.stats().parent_hits, cache.stats().parent_hits);
}

#[test]
fn test_url_for_fills_parameters() {
    let mut params = RouteParams::new();
    params.set("id".into(), "42".into());
    params.set("post_id".into(), "7".into());
    assert_eq!(fill_pattern("/users/:id/posts/:post_id", &params), "/users/42/posts/7");
    assert_eq!(fill_pattern("/users/:other", &params), "/users/:other");
    assert_eq!(fill_pattern("users/:id/", &params), "users/42/");
}

#[test]
fn test_match_stack_debug_string() {
    let routes = vec![Arc::new(
        Route::new("/users/:id").children(vec![Arc::new(Route::new("posts"))]),
    )];
    let stack = resolve_match_stack(&routes, "/users/42/posts");
    assert_eq!(
        stack.debug_string(),
        "MatchStack:\n[0] Route(\"/users/:id\") params={id=42}\n  [1] Route(\"posts\") params={id=42}"
    );
    let empty = resolve_match_stack(&routes, "/nowhere");
    assert_eq!(empty.debug_string(), "MatchStack: (empty)");
}
