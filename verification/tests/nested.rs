//! Unit tests for hierarchical route resolution
//!
//! Tests for src/nested.rs - verifying parent+child matching,
//! index route selection.
use gpui_navigator::nested::{normalize_path, resolve_child_route};
use gpui_navigator::route::Route;
use gpui_navigator::RouteParams;
use std::sync::Arc;

#[test]
fn test_parent_child_matching() {
    // Test hierarchical resolution
    // Example: "/dashboard/analytics" resolves parent "/dashboard" then child "analytics"

    let overview_route = Route::new("overview");
    let analytics_route = Route::new("analytics");
    let settings_route = Route::new("settings");

    let parent_route = Arc::new(
        Route::new("/dashboard").children(vec![
            overview_route.into(),
            analytics_route.into(),
            settings_route.into(),
        ]),
    );

    let parent_params = RouteParams::new();

    // Resolve "analytics" child
    let result =
        resolve_child_route(&parent_route, "/dashboard/analytics", &parent_params, None);
    assert!(result.is_some());

    let (child_route, child_params) = result.unwrap();
    assert_eq!(child_route.config.path, "analytics");
    assert!(child_params.is_empty());
}

#[test]
fn test_index_route_selection() {
    // Test finding child with empty path "" as default
    // Example: navigate "/dashboard" → renders index child with path ""

    let index_route = Route::new("");
    let analytics_route = Route::new("analytics");

    let parent_route = Arc::new(
        Route::new("/dashboard")
            .children(vec![index_route.into(), analytics_route.into()]),
    );

    let parent_params = RouteParams::new();

    // Navigate to parent without specifying child - should get index
    let result = resolve_child_route(&parent_route, "/dashboard", &parent_params, None);
    assert!(result.is_some());

    let (child_route, _) = result.unwrap();
    assert_eq!(child_route.config.path, ""); // Index route has empty path
}

#[test]
fn test_index_route_with_root_path() {
    // Navigate "/" → renders root index child
    let index_route = Route::new("");
    let about_route = Route::new("about");

    let root_route = Arc::new(
        Route::new("/")
            .children(vec![index_route.into(), about_route.into()]),
    );

    let parent_params = RouteParams::new();

    let result = resolve_child_route(&root_route, "/", &parent_params, None);
    assert!(result.is_some());

    let (child_route, _) = result.unwrap();
    assert_eq!(child_route.config.path, "");
}

#[test]
fn test_deep_hierarchy() {
    // Test 4+ level nesting without recursion
    // /app/workspace/:workspaceId/project/:projectId

    let task_route = Route::new(":taskId");
    let project_route = Route::new(":projectId")
        .children(vec![task_route.into()]);
    let workspace_route = Route::new(":workspaceId")
        .children(vec![project_route.into()]);
    let app_route = Arc::new(
        Route::new("/app")
            .children(vec![workspace_route.into()]),
    );

    let parent_params = RouteParams::new();

    // Resolve to taskId level
    let result = resolve_child_route(
        &app_route,
        "/app/ws-123/proj-456/task-789",
        &parent_params,
        None,
    );

    assert!(result.is_some());
    let (_child_route, child_params) = result.unwrap();

    // Should have extracted all parameters
    assert_eq!(child_params.get("workspaceId"), Some(&"ws-123".to_string()));
    assert_eq!(child_params.get("projectId"), Some(&"proj-456".to_string()));
    assert_eq!(child_params.get("taskId"), Some(&"task-789".to_string()));
}

#[test]
fn test_no_matching_child() {
    // No child matches path
    let overview_route = Route::new("overview");

    let parent_route = Arc::new(
        Route::new("/dashboard")
            .children(vec![overview_route.into()]),
    );

    let parent_params = RouteParams::new();

    // Try to resolve non-existent "analytics" child
    let result =
        resolve_child_route(&parent_route, "/dashboard/analytics", &parent_params, None);
    assert!(result.is_none());
}

#[test]
fn test_normalize_path_variants() {
    // Test path normalization
    assert_eq!(normalize_path("/dashboard"), "/dashboard");
    assert_eq!(normalize_path("dashboard"), "/dashboard");
    assert_eq!(normalize_path("/dashboard/"), "/dashboard");
    assert_eq!(normalize_path("/"), "/");
    assert_eq!(normalize_path(""), "/");
}

#[test]
fn test_child_with_params() {
    // Child route with parameter
    let detail_route = Route::new(":id");

    let parent_route = Arc::new(
        Route::new("/users")
            .children(vec![detail_route.into()]),
    );

    let parent_params = RouteParams::new();

    let result = resolve_child_route(&parent_route, "/users/123", &parent_params, None);
    assert!(result.is_some());

    let (child_route, child_params) = result.unwrap();
    assert_eq!(child_route.config.path, ":id");
    assert_eq!(child_params.get("id"), Some(&"123".to_string()));
}

#[test]
fn test_param_inheritance() {
    // Child inherits parent params
    // This is tested through the deep_hierarchy test above
    // which demonstrates 3-level parameter inheritance

    // Simple 2-level test
    let detail_route = Route::new(":id");
    let users_route = Arc::new(
        Route::new("/users")
            .children(vec![detail_route.into()]),
    );

    let mut parent_params = RouteParams::new();
    parent_params.set("category".to_string(), "admin".to_string());

    let result = resolve_child_route(&users_route, "/users/123", &parent_params, None);

    assert!(result.is_some());
    let (_, child_params) = result.unwrap();

    // Child should have its own param
    assert_eq!(child_params.get("id"), Some(&"123".to_string()));
    // And should have inherited parent param
    assert_eq!(child_params.get("category"), Some(&"admin".to_string()));
}

// Additional index route tests

#[test]
fn test_index_route_priority_over_named() {
    // Index route (empty path) should have priority over "index" named route
    let empty_index = Route::new("");
    let named_index = Route::new("index");
    let other_route = Route::new("other");

    let parent_route = Arc::new(
        Route::new("/dashboard").children(vec![
            other_route.into(),
            named_index.into(),
            empty_index.into(),
        ]),
    );

    let parent_params = RouteParams::new();
    let result = resolve_child_route(&parent_route, "/dashboard", &parent_params, None);

    assert!(result.is_some());
    let (child_route, _) = result.unwrap();
    // Should prioritize empty path over "index"
    assert_eq!(child_route.config.path, "");
}

#[test]
fn nested_test_index_route_with_siblings() {
    // Index route works correctly alongside named child routes
    let index_route = Route::new("");
    let overview = Route::new("overview");
    let settings = Route::new("settings");

    let parent_route = Arc::new(
        Route::new("/dashboard").children(vec![
            index_route.into(),
            overview.into(),
            settings.into(),
        ]),
    );

    let parent_params = RouteParams::new();

    // Navigate to parent - should get index
    let result = resolve_child_route(&parent_route, "/dashboard", &parent_params, None);
    assert!(result.is_some());
    let (child_route, _) = result.unwrap();
    assert_eq!(child_route.config.path, "");

    // Navigate to explicit child - should get that child
    let result =
        resolve_child_route(&parent_route, "/dashboard/settings", &parent_params, None);
    assert!(result.is_some());
    let (child_route, _) = result.unwrap();
    assert_eq!(child_route.config.path, "settings");
}

#[test]
fn nested_test_no_index_route_returns_none() {
    // If parent has no index route, navigating to parent path returns None
    let overview = Route::new("overview");
    let settings = Route::new("settings");

    let parent_route = Arc::new(
        Route::new("/dashboard")
            .children(vec![overview.into(), settings.into()]),
    );

    let parent_params = RouteParams::new();

    // Navigate to parent without index route - should return None
    let result = resolve_child_route(&parent_route, "/dashboard", &parent_params, None);
    assert!(result.is_none());
}

#[test]
fn test_nested_index_routes() {
    // Index routes work at multiple nesting levels
    let level3_index = Route::new("");
    let level3_child = Route::new("child");

    let level2_index = Route::new("")
        .children(vec![level3_index.into(), level3_child.into()]);
    let level2_other = Route::new("other");

    let level1 = Arc::new(
        Route::new("/parent")
            .children(vec![level2_index.into(), level2_other.into()]),
    );

    let parent_params = RouteParams::new();

    // Navigate to parent - should resolve to level2 index
    let result = resolve_child_route(&level1, "/parent", &parent_params, None);
    assert!(result.is_some());
    let (child_route, _) = result.unwrap();
    assert_eq!(child_route.config.path, "");
}

#[test]
fn test_index_route_with_trailing_slash() {
    // Index route resolution works with trailing slashes
    let index_route = Route::new("");
    let other = Route::new("other");

    let parent_route = Arc::new(
        Route::new("/dashboard")
            .children(vec![index_route.into(), other.into()]),
    );

    let parent_params = RouteParams::new();

    // Both "/dashboard" and "/dashboard/" should resolve to index
    let result = resolve_child_route(&parent_route, "/dashboard", &parent_params, None);
    assert!(result.is_some());
    assert_eq!(result.unwrap().0.config.path, "");

    let result = resolve_child_route(&parent_route, "/dashboard/", &parent_params, None);
    assert!(result.is_some());
    assert_eq!(result.unwrap().0.config.path, "");
}

