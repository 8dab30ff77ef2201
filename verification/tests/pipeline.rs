//! The navigation pipeline of the router, driven the way an application
//! drives it: the router names the guards, the caller runs them, and the
//! router decides.

use gpui_navigator::context::{NavigationStep, VerdictOutcome};
use gpui_navigator::{
    AuthRule, GlobalRouter, GuardHandle, MiddlewareHandle, NavigateOp, Navigation,
    NavigationAction, NavigationRequest, NavigationResult, Route, RouteParams, Transition,
};
use std::collections::HashMap;
use std::sync::Arc;

type GuardFn = Box<dyn Fn(&NavigationRequest) -> NavigationAction>;

fn run(router: &mut GlobalRouter, guards: &HashMap<u64, GuardFn>, nav: Navigation) -> NavigationResult {
    let mut nav = nav;
    loop {
        match router.navigation_step(&nav) {
            NavigationStep::Finished(result) => return result,
            NavigationStep::CheckGuards { request, guards: order } => {
                let mut verdict = NavigationAction::Continue;
                for handle in order {
                    let answer = (guards[&handle.id])(&request);
                    if !answer.is_continue() {
                        verdict = answer;
                        break;
                    }
                }
                match router.apply_verdict(nav, verdict) {
                    VerdictOutcome::Proceed(next) => return router.commit(next),
                    VerdictOutcome::Redirected(next) => nav = next,
                    VerdictOutcome::Finished(result) => return result,
                }
            }
        }
    }
}

fn push(router: &mut GlobalRouter, guards: &HashMap<u64, GuardFn>, path: &str) -> NavigationResult {
    run(router, guards, GlobalRouter::push_navigation(path.to_string()))
}

fn guard(id: u64, priority: i32) -> GuardHandle {
    GuardHandle { id, priority }
}

#[test]
fn test_nav_back_forward() {
    let mut router = GlobalRouter::new();
    router.add_route(Route::new("/"));
    router.add_route(Route::new("/page1"));
    router.add_route(Route::new("/page2"));
    let guards = HashMap::new();

    assert!(matches!(push(&mut router, &guards, "/page1"), NavigationResult::Success { .. }));
    assert!(matches!(push(&mut router, &guards, "/page2"), NavigationResult::Success { .. }));
    assert_eq!(router.current_path(), "/page2");
    assert!(router.can_go_back());

    let back = router.back_navigation().unwrap();
    assert_eq!(back.target, "/page1");
    let result = run(&mut router, &guards, back);
    match result {
        NavigationResult::Success { path } => assert_eq!(path, "/page1"),
        _ => panic!("expected success"),
    }
    assert!(router.can_go_forward());

    let forward = router.forward_navigation().unwrap();
    run(&mut router, &guards, forward);
    assert_eq!(router.current_path(), "/page2");
    assert!(!router.can_go_forward());
    assert!(router.forward_navigation().is_none());
}

#[test]
fn test_nav_replace() {
    let mut router = GlobalRouter::new();
    let guards = HashMap::new();
    push(&mut router, &guards, "/login");
    run(&mut router, &guards, GlobalRouter::replace_navigation("/home".to_string()));
    assert_eq!(router.current_path(), "/home");
    let back = router.back_navigation().unwrap();
    run(&mut router, &guards, back);
    assert_eq!(router.current_path(), "/");
    assert!(router.back_navigation().is_none());
}

#[test]
fn test_guard_blocks_navigation() {
    let auth = AuthRule::new("/login");
    let mut guards: HashMap<u64, GuardFn> = HashMap::new();
    guards.insert(1, Box::new(move |_| auth.decide(false)));

    let mut router = GlobalRouter::new();
    router.add_route(Route::new("/"));
    router.add_route(Route::new("/protected").guard(guard(1, 100)));
    router.add_route(Route::new("/login"));

    let result = push(&mut router, &guards, "/protected");
    match result {
        NavigationResult::Success { path } => assert_eq!(path, "/login"),
        _ => panic!("expected the redirect to succeed"),
    }
    assert_eq!(router.current_path(), "/login");
}

#[test]
fn test_guard_allows_navigation() {
    let auth = AuthRule::new("/login");
    let mut guards: HashMap<u64, GuardFn> = HashMap::new();
    guards.insert(1, Box::new(move |_| auth.decide(true)));

    let mut router = GlobalRouter::new();
    router.add_route(Route::new("/dashboard").guard(guard(1, 100)));
    push(&mut router, &guards, "/dashboard");
    assert_eq!(router.current_path(), "/dashboard");
}

#[test]
fn test_guard_denies_navigation() {
    let mut guards: HashMap<u64, GuardFn> = HashMap::new();
    guards.insert(7, Box::new(|_| NavigationAction::deny("No access")));

    let mut router = GlobalRouter::new();
    router.add_route(Route::new("/"));
    router.add_route(Route::new("/forbidden").guard(guard(7, 0)));

    let result = push(&mut router, &guards, "/forbidden");
    match result {
        NavigationResult::Blocked { reason, redirect } => {
            assert_eq!(reason, "No access");
            assert!(redirect.is_none());
        }
        _ => panic!("expected a refusal"),
    }
    assert_eq!(router.current_path(), "/");
    assert!(!router.can_go_back());
}

#[test]
fn test_parent_guard_blocks_child() {
    let auth = AuthRule::new("/login");
    let mut guards: HashMap<u64, GuardFn> = HashMap::new();
    guards.insert(1, Box::new(move |_| auth.decide(false)));

    let mut router = GlobalRouter::new();
    router.add_route(Route::new("/"));
    router.add_route(
        Route::new("/dashboard")
            .guard(guard(1, 100))
            .child(Arc::new(Route::new("settings"))),
    );
    router.add_route(Route::new("/login"));

    assert_eq!(router.guards_for("/dashboard/settings"), vec![guard(1, 100)]);
    assert!(router.guards_for("/login").is_empty());
    push(&mut router, &guards, "/dashboard/settings");
    assert_eq!(router.current_path(), "/login");
}

#[test]
fn test_redirect_loop_protection() {
    let mut guards: HashMap<u64, GuardFn> = HashMap::new();
    guards.insert(1, Box::new(|_| NavigationAction::redirect("/b")));
    guards.insert(2, Box::new(|_| NavigationAction::redirect("/a")));

    let mut router = GlobalRouter::new();
    router.add_route(Route::new("/"));
    router.add_route(Route::new("/a").guard(guard(1, 0)));
    router.add_route(Route::new("/b").guard(guard(2, 0)));

    let result = push(&mut router, &guards, "/a");
    match result {
        NavigationResult::Blocked { reason, redirect } => {
            assert_eq!(reason, "Redirect loop detected (depth 5): target '/b'");
            assert!(redirect.is_none());
        }
        _ => panic!("expected the loop to be cut off"),
    }
    assert_eq!(router.current_path(), "/");
}

#[test]
fn test_pipeline_guard_priority_order() {
    let mut router = GlobalRouter::new();
    router.add_route(
        Route::new("/admin")
            .guard(guard(1, 80))
            .guard(guard(2, 100))
            .guard(guard(3, 90))
            .guard(guard(4, 100)),
    );
    let order: Vec<u64> = router.guards_for("/admin").iter().map(|g| g.id).collect();
    assert_eq!(order, vec![2, 4, 3, 1]);
}

#[test]
fn test_pipeline_middleware_order() {
    let mut router = GlobalRouter::new();
    router.add_route(
        Route::new("/page")
            .middleware(MiddlewareHandle { id: 1, priority: 0 })
            .middleware(MiddlewareHandle { id: 2, priority: 10 })
            .middleware(MiddlewareHandle { id: 3, priority: 0 }),
    );
    let before: Vec<u64> = router.middleware_for("/page", true).iter().map(|m| m.id).collect();
    let after: Vec<u64> = router.middleware_for("/page", false).iter().map(|m| m.id).collect();
    assert_eq!(before, vec![2, 1, 3]);
    assert_eq!(after, vec![1, 3, 2]);
    assert!(router.middleware_for("/other", true).is_empty());
}

#[test]
fn test_pipeline_request_carries_source() {
    let mut router = GlobalRouter::new();
    router.add_route(Route::new("/users/:id").guard(guard(5, 0)));
    let nav = GlobalRouter::push_navigation("/users/7".to_string());
    match router.navigation_step(&nav) {
        NavigationStep::CheckGuards { request, guards } => {
            assert_eq!(request.to, "/users/7");
            assert_eq!(request.from.as_deref(), Some("/"));
            assert!(request.params.is_empty());
            assert_eq!(guards.len(), 1);
        }
        NavigationStep::Finished(_) => panic!("expected a guard round"),
    }
}

#[test]
fn test_pipeline_named_navigation() {
    let mut router = GlobalRouter::new();
    router.add_route(Route::new("/").name("home"));
    router.add_route(Route::new("/users/:id/posts/:post_id").name("user-post"));
    let guards = HashMap::new();

    let mut params = RouteParams::new();
    params.set("id".into(), "42".into());
    params.set("post_id".into(), "7".into());
    assert_eq!(router.url_for("user-post", &params), Some("/users/42/posts/7".to_string()));
    assert_eq!(router.url_for("missing", &params), None);

    let nav = router.named_navigation("user-post", &params).unwrap();
    assert_eq!(nav.op, NavigateOp::Push);
    run(&mut router, &guards, nav);
    assert_eq!(router.current_path(), "/users/42/posts/7");

    let nav = router.named_navigation("home", &RouteParams::new()).unwrap();
    run(&mut router, &guards, nav);
    assert_eq!(router.current_path(), "/");
    assert!(router.named_navigation("missing", &RouteParams::new()).is_none());
}

#[test]
fn test_pipeline_match_stack_follows_navigation() {
    let mut router = GlobalRouter::new();
    router.add_route(
        Route::new("/dashboard")
            .children(vec![Arc::new(Route::new("")), Arc::new(Route::new("settings"))]),
    );
    assert!(router.match_stack().is_empty());
    assert!(router.previous_stack().is_none());
    let guards = HashMap::new();

    push(&mut router, &guards, "/dashboard");
    assert_eq!(router.match_stack().len(), 2);
    assert!(router.previous_stack().unwrap().is_empty());

    push(&mut router, &guards, "/dashboard/settings");
    assert_eq!(router.match_stack().leaf().unwrap().route.config.path, "settings");
    assert_eq!(router.previous_stack().unwrap().leaf().unwrap().route.config.path, "");
}

#[test]
fn test_pipeline_transition_override() {
    let mut router = GlobalRouter::new();
    assert!(!router.has_next_transition());
    router.set_next_transition(Transition::fade(200));
    assert!(router.has_next_transition());
    let taken = router.take_next_transition();
    assert_eq!(taken.map(|t| t.duration_ms()), Some(200));
    assert!(!router.has_next_transition());
    assert!(router.take_next_transition().is_none());
    router.set_next_transition(Transition::slide_left(300));
    router.clear_next_transition();
    assert!(!router.has_next_transition());
}

#[test]
fn test_pipeline_cache_cleared_on_navigation() {
    let mut router = GlobalRouter::new();
    router.add_route(Route::new("/"));
    assert_eq!(router.cache_stats().invalidations, 1);
    let guards = HashMap::new();
    push(&mut router, &guards, "/x");
    assert_eq!(router.cache_stats().invalidations, 2);
    assert_eq!(router.current_match_immutable().is_some(), false);
    let back = router.back_navigation().unwrap();
    run(&mut router, &guards, back);
    assert_eq!(router.current_match().unwrap().path, "/");
}

fn no_guards() -> HashMap<u64, GuardFn> {
    HashMap::new()
}

fn router_with(paths: &[&str]) -> GlobalRouter {
    let mut router = GlobalRouter::new();
    for p in paths {
        router.add_route(Route::new(p));
    }
    router
}

fn pop(router: &mut GlobalRouter, guards: &HashMap<u64, GuardFn>) {
    if let Some(nav) = router.back_navigation() {
        run(router, guards, nav);
    }
}

fn forward(router: &mut GlobalRouter, guards: &HashMap<u64, GuardFn>) {
    if let Some(nav) = router.forward_navigation() {
        run(router, guards, nav);
    }
}

#[test]
fn test_nav_push() {
    let mut router = router_with(&["/", "/users", "/users/:id"]);
    let guards = no_guards();
    assert_eq!(router.current_path(), "/");
    push(&mut router, &guards, "/users");
    assert_eq!(router.current_path(), "/users");
    push(&mut router, &guards, "/users/123");
    assert_eq!(router.current_path(), "/users/123");
}

#[test]
fn test_nav_can_go_back_boundaries() {
    let mut router = router_with(&["/"]);
    let guards = no_guards();
    assert!(!router.can_go_back());
    push(&mut router, &guards, "/page1");
    assert!(router.can_go_back());
    pop(&mut router, &guards);
    assert!(!router.can_go_back());
}

#[test]
fn test_nav_multiple_pushes() {
    let mut router = router_with(&["/", "/step1", "/step2", "/step3"]);
    let guards = no_guards();
    push(&mut router, &guards, "/step1");
    push(&mut router, &guards, "/step2");
    push(&mut router, &guards, "/step3");
    assert_eq!(router.current_path(), "/step3");
    pop(&mut router, &guards);
    assert_eq!(router.current_path(), "/step2");
    pop(&mut router, &guards);
    assert_eq!(router.current_path(), "/step1");
    pop(&mut router, &guards);
    assert_eq!(router.current_path(), "/");
}

#[test]
fn test_nav_with_route_parameters() {
    let mut router = router_with(&["/", "/users/:id", "/posts/:id/comments/:commentId"]);
    let guards = no_guards();
    push(&mut router, &guards, "/users/42");
    assert_eq!(router.current_path(), "/users/42");
    assert_eq!(router.current_match().unwrap().params.get("id"), Some(&"42".to_string()));
    push(&mut router, &guards, "/posts/123/comments/456");
    assert_eq!(router.current_path(), "/posts/123/comments/456");
    let m = router.current_match().unwrap();
    assert_eq!(m.params.get("commentId"), Some(&"456".to_string()));
}

#[test]
fn test_navigator_of_style() {
    let mut router = router_with(&["/", "/home", "/profile"]);
    let guards = no_guards();
    push(&mut router, &guards, "/home");
    assert_eq!(router.current_path(), "/home");
    push(&mut router, &guards, "/profile");
    pop(&mut router, &guards);
    assert_eq!(router.current_path(), "/home");
    run(&mut router, &guards, GlobalRouter::replace_navigation("/profile".to_string()));
    assert_eq!(router.current_path(), "/profile");
    assert!(router.can_go_back());
    pop(&mut router, &guards);
    assert_eq!(router.current_path(), "/");
    assert!(!router.can_go_back());
}

#[test]
fn test_string_into_route() {
    let mut router = router_with(&["/", "/home"]);
    let guards = no_guards();
    push(&mut router, &guards, "/home");
    assert_eq!(router.current_path(), "/home");
    run(&mut router, &guards, GlobalRouter::push_navigation(String::from("/home")));
    assert_eq!(router.current_path(), "/home");
}

#[test]
fn test_middleware_runs_during_navigation() {
    let mut router = GlobalRouter::new();
    router.add_route(Route::new("/"));
    router.add_route(Route::new("/page").middleware(MiddlewareHandle { id: 9, priority: 0 }));

    let mut log: Vec<String> = Vec::new();
    let nav = GlobalRouter::push_navigation("/page".to_string());
    let request = match router.navigation_step(&nav) {
        NavigationStep::CheckGuards { request, guards: order } => {
            assert!(order.is_empty());
            request
        }
        NavigationStep::Finished(_) => panic!("expected a guard round"),
    };
    match router.apply_verdict(nav, NavigationAction::Continue) {
        VerdictOutcome::Proceed(next) => {
            for m in router.middleware_for(&request.to, true) {
                assert_eq!(m.id, 9);
                log.push(format!("before:{}", request.to));
            }
            router.commit(next);
            for m in router.middleware_for(&request.to, false) {
                assert_eq!(m.id, 9);
                log.push(format!("after:{}", request.to));
            }
        }
        _ => panic!("expected to proceed"),
    }
    assert_eq!(router.current_path(), "/page");
    assert_eq!(log.len(), 2);
    assert_eq!(log[0], "before:/page");
    assert_eq!(log[1], "after:/page");
}

#[test]
fn test_multiple_child_routes() {
    let mut router = GlobalRouter::new();
    router.add_route(
        Route::new("/layout").children(vec![Arc::new(Route::new("main")), Arc::new(Route::new("sidebar"))]),
    );
    let guards = no_guards();
    push(&mut router, &guards, "/layout/main");
    assert_eq!(router.current_path(), "/layout/main");
    run(&mut router, &guards, GlobalRouter::replace_navigation("/layout/sidebar".to_string()));
    assert_eq!(router.current_path(), "/layout/sidebar");
    assert_eq!(router.match_stack().leaf().unwrap().route.config.path, "sidebar");
}

#[test]
fn test_deep_nested_hierarchy() {
    let mut router = GlobalRouter::new();
    router.add_route(Route::new("/level1").child(Arc::new(
        Route::new("level2").child(Arc::new(
            Route::new("level3").child(Arc::new(Route::new("level4"))),
        )),
    )));
    let guards = no_guards();
    push(&mut router, &guards, "/level1/level2/level3/level4");
    assert_eq!(router.current_path(), "/level1/level2/level3/level4");
    assert_eq!(router.match_stack().len(), 4);
    pop(&mut router, &guards);
    assert_eq!(router.current_path(), "/");
}

#[test]
fn test_replace_navigation_with_stateful_route() {
    let mut router = router_with(&["/", "/login", "/dashboard"]);
    let guards = no_guards();
    push(&mut router, &guards, "/login");
    assert_eq!(router.current_path(), "/login");
    run(&mut router, &guards, GlobalRouter::replace_navigation("/dashboard".to_string()));
    assert_eq!(router.current_path(), "/dashboard");
    pop(&mut router, &guards);
    assert_eq!(router.current_path(), "/");
    assert!(!router.can_go_back());
}

#[test]
fn test_forward_backward_navigation() {
    let mut router = router_with(&["/", "/page1", "/page2"]);
    let guards = no_guards();
    push(&mut router, &guards, "/page1");
    push(&mut router, &guards, "/page2");
    assert_eq!(router.current_path(), "/page2");
    pop(&mut router, &guards);
    pop(&mut router, &guards);
    assert_eq!(router.current_path(), "/");
    assert!(router.can_go_forward());
    forward(&mut router, &guards);
    assert_eq!(router.current_path(), "/page1");
    forward(&mut router, &guards);
    assert_eq!(router.current_path(), "/page2");
    assert!(!router.can_go_forward());
}

#[test]
fn test_index_routes() {
    let mut router = GlobalRouter::new();
    router.add_route(
        Route::new("/dashboard").children(vec![Arc::new(Route::new("")), Arc::new(Route::new("settings"))]),
    );
    let guards = no_guards();
    push(&mut router, &guards, "/dashboard");
    assert_eq!(router.current_path(), "/dashboard");
    assert_eq!(router.match_stack().leaf().unwrap().route.config.path, "");
}

#[test]
fn test_named_navigation() {
    let mut router = GlobalRouter::new();
    router.add_route(Route::new("/").name("home"));
    router.add_route(Route::new("/user/:id").name("user-profile"));
    let guards = no_guards();
    let mut params = RouteParams::new();
    params.set("id".to_string(), "123".to_string());
    let nav = router.named_navigation("user-profile", &params).unwrap();
    run(&mut router, &guards, nav);
    assert_eq!(router.current_path(), "/user/123");
    let empty_params = RouteParams::new();
    let nav = router.named_navigation("home", &empty_params).unwrap();
    run(&mut router, &guards, nav);
    assert_eq!(router.current_path(), "/");
}

#[test]
fn test_url_generation() {
    let mut router = GlobalRouter::new();
    router.add_route(Route::new("/user/:id/posts/:postId").name("user-post"));
    let mut params = RouteParams::new();
    params.set("id".to_string(), "42".to_string());
    params.set("postId".to_string(), "999".to_string());
    assert_eq!(router.url_for("user-post", &params), Some("/user/42/posts/999".to_string()));
}

fn four_level_route() -> Route {
    Route::new("/app").child(Arc::new(
        Route::new("workspace/:workspaceId").child(Arc::new(
            Route::new("project/:projectId").child(Arc::new(Route::new("task/:taskId"))),
        )),
    ))
}

#[test]
fn test_four_level_hierarchy() {
    let mut router = GlobalRouter::new();
    router.add_route(four_level_route());
    let guards = no_guards();
    push(&mut router, &guards, "/app/workspace/ws1/project/proj1/task/task1");
    assert_eq!(router.current_path(), "/app/workspace/ws1/project/proj1/task/task1");
    let stack = router.match_stack();
    assert_eq!(stack.len(), 4);
    let leaf = stack.leaf().unwrap();
    assert_eq!(leaf.params.get("workspaceId"), Some(&"ws1".to_string()));
    assert_eq!(leaf.params.get("projectId"), Some(&"proj1".to_string()));
    assert_eq!(leaf.params.get("taskId"), Some(&"task1".to_string()));
}

#[test]
fn test_deep_nesting_performance() {
    let mut router = GlobalRouter::new();
    router.add_route(four_level_route());
    let guards = no_guards();
    let start = std::time::Instant::now();
    push(&mut router, &guards, "/app/workspace/ws1/project/proj1/task/task1");
    let elapsed = start.elapsed();
    assert!(elapsed.as_millis() < 100, "Deep navigation took {}ms", elapsed.as_millis());
}

#[test]
fn test_rapid_navigation_no_loops() {
    let mut router = router_with(&["/", "/page1", "/page2", "/page3"]);
    router.add_route(four_level_route());
    let guards = no_guards();
    let paths = vec![
        "/",
        "/page1",
        "/page2",
        "/page3",
        "/app/workspace/ws1/project/proj1/task/task1",
        "/page1",
        "/app/workspace/ws2/project/proj2/task/task2",
        "/page2",
        "/",
        "/page3",
    ];
    let start = std::time::Instant::now();
    for path in &paths {
        push(&mut router, &guards, path);
    }
    let elapsed = start.elapsed();
    assert!(elapsed.as_secs() < 2, "10 navigations took {}s", elapsed.as_secs());
    assert_eq!(router.current_path(), "/page3");
}
