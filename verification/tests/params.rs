//! Route and query parameters: lookup, merging, extraction from paths,
//! query-string parsing and URI component coding.

use gpui_navigator::params::{decode_uri_component, encode_uri_component};
use gpui_navigator::{QueryParams, RouteParams};
use std::collections::HashMap;

// Route parameters tests

#[test]
fn test_route_params_basic() {
    let mut params = RouteParams::new();
    params.insert("id".to_string(), "123".to_string());

    assert_eq!(params.get("id"), Some(&"123".to_string()));
    assert!(params.contains("id"));
    assert!(!params.contains("missing"));
}

#[test]
fn test_route_params_get_as() {
    let mut params = RouteParams::new();
    params.insert("id".to_string(), "123".to_string());
    params.insert("active".to_string(), "true".to_string());

    assert_eq!(params.get_as::<i32>("id"), Some(123));
    assert_eq!(params.get_as::<u32>("id"), Some(123));
    assert_eq!(params.get_as::<bool>("active"), Some(true));
    assert_eq!(params.get_as::<i32>("missing"), None);
}

#[test]
fn test_route_params_from_map() {
    let mut map = HashMap::new();
    map.insert("name".to_string(), "John".to_string());
    map.insert("age".to_string(), "30".to_string());

    let params = RouteParams::from_map(map);

    assert_eq!(params.get("name"), Some(&"John".to_string()));
    assert_eq!(params.get_as::<i32>("age"), Some(30));
}

#[test]
fn test_route_params_set() {
    let mut params = RouteParams::new();
    params.set("key".to_string(), "value".to_string());

    assert_eq!(params.get("key"), Some(&"value".to_string()));
}

#[test]
fn test_route_params_all() {
    let mut params = RouteParams::new();
    params.insert("a".to_string(), "1".to_string());
    params.insert("b".to_string(), "2".to_string());

    let all = params.all();
    assert_eq!(all.len(), 2);
    assert_eq!(
        all.iter().find(|(k, _)| k == "a").map(|(_, v)| v),
        Some(&"1".to_string())
    );
}

#[test]
fn test_route_params_iter() {
    let mut params = RouteParams::new();
    params.insert("x".to_string(), "1".to_string());
    params.insert("y".to_string(), "2".to_string());

    let count = params.iter().count();
    assert_eq!(count, 2);
}

#[test]
fn test_route_params_empty() {
    let params = RouteParams::new();
    assert!(params.is_empty());
    assert_eq!(params.len(), 0);

    let mut params = RouteParams::new();
    params.insert("key".to_string(), "value".to_string());
    assert!(!params.is_empty());
    assert_eq!(params.len(), 1);
}

// Query parameters tests

#[test]
fn test_query_params_basic() {
    let query = QueryParams::from_query_string("page=1&sort=name&filter=active");

    assert_eq!(query.get("page"), Some(&"1".to_string()));
    assert_eq!(query.get("sort"), Some(&"name".to_string()));
    assert_eq!(query.get("filter"), Some(&"active".to_string()));
    assert_eq!(query.get("missing"), None);
}

#[test]
fn test_query_params_get_as() {
    let query = QueryParams::from_query_string("page=1&limit=50&active=true");

    assert_eq!(query.get_as::<i32>("page"), Some(1));
    assert_eq!(query.get_as::<usize>("limit"), Some(50));
    assert_eq!(query.get_as::<bool>("active"), Some(true));
    assert_eq!(query.get_as::<i32>("missing"), None);
}

#[test]
fn test_query_params_multiple_values() {
    let query = QueryParams::from_query_string("tag=rust&tag=gpui&tag=ui");

    let tags = query.get_all("tag").unwrap();
    assert_eq!(tags.len(), 3);
    assert!(tags.contains(&"rust".to_string()));
    assert!(tags.contains(&"gpui".to_string()));
    assert!(tags.contains(&"ui".to_string()));

    // get() returns first value
    assert_eq!(query.get("tag"), Some(&"rust".to_string()));
}

#[test]
fn test_query_params_insert() {
    let mut query = QueryParams::new();
    query.insert("key".to_string(), "value1".to_string());
    query.insert("key".to_string(), "value2".to_string());

    let values = query.get_all("key").unwrap();
    assert_eq!(values.len(), 2);
    assert_eq!(values[0], "value1");
    assert_eq!(values[1], "value2");
}

#[test]
fn test_uri_encoding() {
    let encoded = encode_uri_component("hello world");
    assert_eq!(encoded, "hello%20world");

    let encoded = encode_uri_component("test@example.com");
    assert!(encoded.contains("%40")); // @ encoded as %40
}

#[test]
fn test_uri_decoding() {
    let decoded = decode_uri_component("hello%20world");
    assert_eq!(decoded, "hello world");

    let decoded = decode_uri_component("hello+world");
    assert_eq!(decoded, "hello world");
}

#[test]
fn test_to_query_string() {
    let mut query = QueryParams::new();
    query.insert("page".to_string(), "1".to_string());
    query.insert("sort".to_string(), "name".to_string());

    let s = query.to_query_string();
    // Order may vary, check both keys are present
    assert!(s.contains("page=1"));
    assert!(s.contains("sort=name"));
}

#[test]
fn test_query_params_empty() {
    let query = QueryParams::new();
    assert!(query.is_empty());
    assert_eq!(query.len(), 0);

    let mut query = QueryParams::new();
    query.insert("key".to_string(), "value".to_string());
    assert!(!query.is_empty());
    assert_eq!(query.len(), 1);
}

#[test]
fn test_empty_query_string() {
    let query = QueryParams::from_query_string("");
    assert!(query.is_empty());
}

#[test]
fn test_parent_child_merge() {
    // Test merging parent params with child params
    // Example: parent {workspaceId: "1"} + child {projectId: "2"} = {workspaceId: "1", projectId: "2"}
    let mut parent = RouteParams::new();
    parent.set("workspaceId".to_string(), "123".to_string());
    parent.set("view".to_string(), "list".to_string());

    let mut child = RouteParams::new();
    child.set("projectId".to_string(), "456".to_string());

    let merged = RouteParams::merge(&parent, &child);

    assert_eq!(merged.get("workspaceId"), Some(&"123".to_string()));
    assert_eq!(merged.get("projectId"), Some(&"456".to_string()));
    assert_eq!(merged.get("view"), Some(&"list".to_string()));
    assert_eq!(merged.len(), 3);
}

#[test]
fn test_collision_child_wins() {
    // Test child param overrides parent on collision
    // Example: parent {id: "old"} + child {id: "new"} = {id: "new"}
    let mut parent = RouteParams::new();
    parent.set("id".to_string(), "parent-value".to_string());
    parent.set("type".to_string(), "document".to_string());

    let mut child = RouteParams::new();
    child.set("id".to_string(), "child-value".to_string());

    let merged = RouteParams::merge(&parent, &child);

    // Child wins collision
    assert_eq!(merged.get("id"), Some(&"child-value".to_string()));
    // Parent param without collision preserved
    assert_eq!(merged.get("type"), Some(&"document".to_string()));
    assert_eq!(merged.len(), 2);
}

#[test]
fn test_empty_parent() {
    // Test merging with empty parent RouteParams
    // Example: parent {} + child {id: "1"} = {id: "1"}
    let parent = RouteParams::new();

    let mut child = RouteParams::new();
    child.set("id".to_string(), "123".to_string());
    child.set("name".to_string(), "test".to_string());

    let merged = RouteParams::merge(&parent, &child);

    assert_eq!(merged.get("id"), Some(&"123".to_string()));
    assert_eq!(merged.get("name"), Some(&"test".to_string()));
    assert_eq!(merged.len(), 2);
}

#[test]
fn test_empty_child() {
    // Test merging with empty child RouteParams
    // Example: parent {id: "1"} + child {} = {id: "1"}
    let mut parent = RouteParams::new();
    parent.set("id".to_string(), "123".to_string());
    parent.set("type".to_string(), "document".to_string());

    let child = RouteParams::new();

    let merged = RouteParams::merge(&parent, &child);

    assert_eq!(merged.get("id"), Some(&"123".to_string()));
    assert_eq!(merged.get("type"), Some(&"document".to_string()));
    assert_eq!(merged.len(), 2);
}

#[test]
fn test_both_empty() {
    // Test merging two empty RouteParams
    let parent = RouteParams::new();
    let child = RouteParams::new();

    let merged = RouteParams::merge(&parent, &child);

    assert!(merged.is_empty());
    assert_eq!(merged.len(), 0);
}

#[test]
fn test_multiple_collisions() {
    // Test multiple param collisions, child always wins
    let mut parent = RouteParams::new();
    parent.set("a".to_string(), "parent-a".to_string());
    parent.set("b".to_string(), "parent-b".to_string());
    parent.set("c".to_string(), "parent-c".to_string());

    let mut child = RouteParams::new();
    child.set("a".to_string(), "child-a".to_string());
    child.set("b".to_string(), "child-b".to_string());
    child.set("d".to_string(), "child-d".to_string());

    let merged = RouteParams::merge(&parent, &child);

    // Collisions: child wins
    assert_eq!(merged.get("a"), Some(&"child-a".to_string()));
    assert_eq!(merged.get("b"), Some(&"child-b".to_string()));
    // No collision: parent value preserved
    assert_eq!(merged.get("c"), Some(&"parent-c".to_string()));
    // Child-only param
    assert_eq!(merged.get("d"), Some(&"child-d".to_string()));
    assert_eq!(merged.len(), 4);
}

#[test]
fn test_deep_nesting_simulation() {
    // Simulate 3-level param inheritance
    // Level 1: workspaceId
    let mut level1 = RouteParams::new();
    level1.set("workspaceId".to_string(), "ws-123".to_string());

    // Level 2: projectId
    let mut level2 = RouteParams::new();
    level2.set("projectId".to_string(), "proj-456".to_string());
    let merged_l2 = RouteParams::merge(&level1, &level2);

    // Level 3: taskId
    let mut level3 = RouteParams::new();
    level3.set("taskId".to_string(), "task-789".to_string());
    let merged_l3 = RouteParams::merge(&merged_l2, &level3);

    // Final should have all params from all levels
    assert_eq!(merged_l3.get("workspaceId"), Some(&"ws-123".to_string()));
    assert_eq!(merged_l3.get("projectId"), Some(&"proj-456".to_string()));
    assert_eq!(merged_l3.get("taskId"), Some(&"task-789".to_string()));
    assert_eq!(merged_l3.len(), 3);
}

// Additional tests for User Story 5 - Parameter Inheritance

#[test]
fn test_from_path_single_param() {
    // Extract single parameter from path
    let params = RouteParams::from_path("/users/123", "/users/:id");

    assert_eq!(params.get("id"), Some(&"123".to_string()));
    assert_eq!(params.len(), 1);
}

#[test]
fn test_from_path_multiple_params() {
    // Extract multiple parameters from path
    let params = RouteParams::from_path("/users/123/posts/456", "/users/:userId/posts/:postId");

    assert_eq!(params.get("userId"), Some(&"123".to_string()));
    assert_eq!(params.get("postId"), Some(&"456".to_string()));
    assert_eq!(params.len(), 2);
}

#[test]
fn test_from_path_no_match() {
    // Different number of segments returns empty
    let params = RouteParams::from_path("/users/123/extra", "/users/:id");

    assert!(params.is_empty());
}

#[test]
fn test_from_path_static_mismatch() {
    // Static segment mismatch returns empty
    let params = RouteParams::from_path("/products/123", "/users/:id");

    assert!(params.is_empty());
}

#[test]
fn test_from_path_with_type_constraints() {
    // Handle type constraints like :id<i32>
    let params = RouteParams::from_path("/users/123", "/users/:id<i32>");

    assert_eq!(params.get("id"), Some(&"123".to_string()));
    assert_eq!(params.len(), 1);
}

#[test]
fn test_four_level_param_merging() {
    // Test 4-level parameter inheritance (workspace → project → task → subtask)
    let mut workspace = RouteParams::new();
    workspace.set("workspaceId".to_string(), "ws-1".to_string());

    let mut project = RouteParams::new();
    project.set("projectId".to_string(), "proj-2".to_string());
    let merged_proj = RouteParams::merge(&workspace, &project);

    let mut task = RouteParams::new();
    task.set("taskId".to_string(), "task-3".to_string());
    let merged_task = RouteParams::merge(&merged_proj, &task);

    let mut subtask = RouteParams::new();
    subtask.set("subtaskId".to_string(), "sub-4".to_string());
    let merged_final = RouteParams::merge(&merged_task, &subtask);

    // All 4 levels should be present
    assert_eq!(merged_final.get("workspaceId"), Some(&"ws-1".to_string()));
    assert_eq!(merged_final.get("projectId"), Some(&"proj-2".to_string()));
    assert_eq!(merged_final.get("taskId"), Some(&"task-3".to_string()));
    assert_eq!(merged_final.get("subtaskId"), Some(&"sub-4".to_string()));
    assert_eq!(merged_final.len(), 4);
}

#[test]
fn test_param_collision_in_deep_hierarchy() {
    // Child overrides parent in multi-level hierarchy
    let mut level1 = RouteParams::new();
    level1.set("id".to_string(), "level1-id".to_string());
    level1.set("status".to_string(), "active".to_string());

    let mut level2 = RouteParams::new();
    level2.set("id".to_string(), "level2-id".to_string()); // Override
    let merged = RouteParams::merge(&level1, &level2);

    // level2 "id" should win
    assert_eq!(merged.get("id"), Some(&"level2-id".to_string()));
    // level1 "status" should be preserved
    assert_eq!(merged.get("status"), Some(&"active".to_string()));
}

#[test]
fn test_settings_page_scenario() {
    // Simulate the example: /workspace/:workspaceId/project/:projectId/settings
    // Settings page receives both workspaceId and projectId

    // Simulate workspace level
    let mut workspace_params = RouteParams::new();
    workspace_params.set("workspaceId".to_string(), "123".to_string());

    // Simulate project level
    let mut project_params = RouteParams::new();
    project_params.set("projectId".to_string(), "456".to_string());
    let merged_project = RouteParams::merge(&workspace_params, &project_params);

    // Simulate settings level (no new params, but inherits both)
    let settings_params = RouteParams::new();
    let final_params = RouteParams::merge(&merged_project, &settings_params);

    // Settings page should have access to both params
    assert_eq!(final_params.get("workspaceId"), Some(&"123".to_string()));
    assert_eq!(final_params.get("projectId"), Some(&"456".to_string()));
    assert_eq!(final_params.len(), 2);
}

#[test]
fn test_query_params_leading_question_mark() {
    let qp = QueryParams::from_query_string("?search=rust&page=2&tag=web&tag=api");
    assert_eq!(qp.get("search"), Some(&"rust".to_string()));
    assert_eq!(qp.get_as::<u32>("page"), Some(2));
    assert_eq!(
        qp.get_all("tag"),
        Some(&vec!["web".to_string(), "api".to_string()])
    );
    assert_eq!(qp.len(), 3);
    let only_one = QueryParams::from_query_string("??a=1");
    assert_eq!(only_one.get("?a"), Some(&"1".to_string()));
}

#[test]
fn test_query_round_trip_one_byte_chars() {
    let mut qp = QueryParams::new();
    qp.insert("caf\u{e9}".to_string(), "na\u{ef}ve \u{ff}".to_string());
    qp.insert("k".to_string(), "\u{80}?&=".to_string());
    let back = QueryParams::from_query_string(&qp.to_query_string());
    assert_eq!(back.len(), qp.len());
    assert_eq!(back.get_all("caf\u{e9}"), qp.get_all("caf\u{e9}"));
    assert_eq!(back.get_all("k"), qp.get_all("k"));
    assert_eq!(decode_uri_component(&encode_uri_component("\u{e9}")), "\u{e9}");
}

#[test]
fn test_route_params_from_map_len() {
    let mut map = HashMap::new();
    map.insert("a".to_string(), "1".to_string());
    map.insert("b".to_string(), "2".to_string());
    map.insert("c".to_string(), "3".to_string());
    let params = RouteParams::from_map(map);
    assert_eq!(params.len(), 3);
    assert_eq!(params.get("b"), Some(&"2".to_string()));
}

#[test]
fn test_route_params_remove() {
    let mut params = RouteParams::new();
    params.insert("id".to_string(), "7".to_string());
    params.insert("tab".to_string(), "info".to_string());
    assert_eq!(params.remove("id"), Some("7".to_string()));
    assert_eq!(params.get("id"), None);
    assert_eq!(params.get("tab"), Some(&"info".to_string()));
    assert_eq!(params.len(), 1);
    assert_eq!(params.remove("id"), None);
    assert_eq!(params.len(), 1);
}
