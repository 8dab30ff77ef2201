//! Declarative client-side navigation: route matching, nested route
//! resolution, navigation history and the decisions of the navigation
//! pipeline, each stated and proved with Verus.

pub mod cache;
pub mod context;
pub mod guards;
pub mod lifecycle;
pub mod matching;
pub mod nested;
pub mod order;
pub mod params;
pub mod pattern;
pub mod resolve;
pub mod route;
pub mod state;
pub mod text;
pub mod transition;

pub use cache::{CacheStats, RouteCache, RouteId};
pub use context::{
    guard_round_step, path_matches_prefix, GlobalRouter, NavigateOp, Navigation, NavigationRequest,
    NavigationResult, NavigationStep, VerdictOutcome, MAX_REDIRECT_DEPTH,
};
pub use guards::{AuthRule, PermissionRule, RoleRule};
pub use lifecycle::NavigationAction;
pub use nested::{build_child_path, extract_param_name, normalize_path, resolve_child_route};
pub use params::{QueryParams, RouteParams};
pub use resolve::{resolve_match_stack, resolve_named_outlet, MatchEntry, MatchStack, OutletDepth};
pub use route::{GuardHandle, MiddlewareHandle, NamedRouteRegistry, Route, RouteConfig, RouteMatch};
pub use state::{NavigationDirection, RouteChangeEvent, RouterState};
pub use transition::{SlideDirection, Transition, TransitionConfig};
