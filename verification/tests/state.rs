//! Navigation history of the router state.

use gpui_navigator::RouterState;

#[test]
fn test_navigation() {
    let mut state = RouterState::new();

    assert_eq!(state.current_path(), "/");

    state.push("/users".to_string());
    assert_eq!(state.current_path(), "/users");

    state.push("/users/123".to_string());
    assert_eq!(state.current_path(), "/users/123");

    state.back();
    assert_eq!(state.current_path(), "/users");

    state.forward();
    assert_eq!(state.current_path(), "/users/123");
}

#[test]
fn test_replace() {
    let mut state = RouterState::new();

    state.push("/users".to_string());
    state.replace("/posts".to_string());

    assert_eq!(state.current_path(), "/posts");
    assert_eq!(state.history_len(), 2);
}

#[test]
fn test_navigation_counter_shared_by_clones() {
    let state = RouterState::new();
    let copy = state.clone();
    let n = state.navigation_id();
    let started = state.start_navigation();
    assert_eq!(started, n + 1);
    assert_eq!(state.navigation_id(), n + 1);
    assert_eq!(copy.navigation_id(), n + 1);
    assert!(copy.is_navigation_current(started));
    let later = copy.start_navigation();
    assert!(!state.is_navigation_current(started));
    assert!(state.is_navigation_current(later));
}
