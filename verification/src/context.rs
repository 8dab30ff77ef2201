//! The router: navigation state, the resolved match stack, named routes and
//! the decisions of the navigation pipeline.
//!
//! A navigation runs in rounds. In each round the router names the guards
//! that protect the target, in the order in which they must run; the
//! application runs them and reports the first answer that is not
//! `Continue` (or `Continue`). A denial ends the navigation, a redirect
//! starts a new round for the redirect target (at most
//! [`MAX_REDIRECT_DEPTH`] times), and `Continue` lets the application run
//! the middleware and commit the navigation.

use vstd::prelude::*;
use std::sync::Arc;
use crate::lifecycle::NavigationAction;
use crate::order::{sort_by_priority, stable_sort};
use crate::params::RouteParams;
use crate::pattern::{is_param, segs_match, views};
use crate::resolve::{resolve_match_stack, spec_resolve, EntrySpec, MatchStack};
use crate::route::{
    spec_fill_pattern, GuardHandle, MiddlewareHandle, NamedRouteRegistry, Route, RouteMatch,
};
use crate::state::{first_claim, first_match, RouteChangeEvent, RouterState};
use crate::text::{
    append_chars, chars_of, push_decimal, split_chars, split_segments, string_from_chars,
    trim_both, trim_both_chars, decimal,
};
use crate::transition::Transition;

verus! {

/// Maximum number of redirects in one navigation.
pub const MAX_REDIRECT_DEPTH: usize = 5;

/// A navigation as guards and middleware see it.
#[derive(Debug)]
pub struct NavigationRequest {
    /// The path we're navigating from (if any)
    pub from: Option<String>,
    /// The path we're navigating to
    pub to: String,
    /// Route parameters extracted from the path
    pub params: RouteParams,
}

impl NavigationRequest {
    /// A request to navigate to `to`.
    pub fn new(to: String) -> (r: Self)
        ensures
            r.from is None,
            r.to@ == to@,
            r.params@ == Map::<Seq<char>, Seq<char>>::empty(),
    {
        NavigationRequest { from: None, to, params: RouteParams::new() }
    }

    /// A request to navigate from `from` to `to`.
    pub fn with_from(to: String, from: String) -> (r: Self)
        ensures
            r.from is Some && r.from->0@ == from@,
            r.to@ == to@,
            r.params@ == Map::<Seq<char>, Seq<char>>::empty(),
    {
        NavigationRequest { from: Some(from), to, params: RouteParams::new() }
    }

    /// The same request with the given parameters.
    pub fn with_params(self, params: RouteParams) -> (r: Self)
        ensures
            r.from == self.from,
            r.to == self.to,
            r.params@ == params@,
    {
        let mut r = self;
        r.params = params;
        r
    }
}

/// The outcome of a navigation.
#[derive(Debug)]
pub enum NavigationResult {
    /// The navigation happened; `path` is the new current path.
    Success {
        /// The new current path.
        path: String,
    },
    /// The navigation was refused.
    Blocked {
        /// Why it was refused.
        reason: String,
        /// Where the refusing party suggested to go instead.
        redirect: Option<String>,
    },
}

/// The kind of history change a navigation makes.
#[derive(Clone, Copy, Debug, PartialEq, Eq)]
pub enum NavigateOp {
    /// Push a new entry.
    Push,
    /// Replace the current entry.
    Replace,
    /// Step back.
    Back,
    /// Step forward.
    Forward,
}

/// A navigation in progress: its target, the history change it makes and
/// the number of redirects that led to it.
#[derive(Debug)]
pub struct Navigation {
    /// The target path.
    pub target: String,
    /// The history change.
    pub op: NavigateOp,
    /// Redirects taken so far.
    pub redirects: usize,
}

/// What the application does next for a navigation in progress.
#[derive(Debug)]
pub enum NavigationStep {
    /// Run these guards, in this order, against the request, and report the
    /// first answer that is not `Continue` (or `Continue` when all agree).
    CheckGuards {
        /// The request the guards judge.
        request: NavigationRequest,
        /// The guards, in the order in which they run.
        guards: Vec<GuardHandle>,
    },
    /// The navigation is over.
    Finished(NavigationResult),
}

/// What a guard verdict means for a navigation in progress.
#[derive(Debug)]
pub enum VerdictOutcome {
    /// Run the middleware and commit the navigation.
    Proceed(Navigation),
    /// Start a new round for the redirect target.
    Redirected(Navigation),
    /// The navigation is over.
    Finished(NavigationResult),
}

/// `acc` and `rp` joined by `/`, where an empty side contributes nothing.
pub open spec fn joined_path(acc: Seq<char>, rp: Seq<char>) -> Seq<char> {
    if acc.len() == 0 {
        rp
    } else if rp.len() == 0 {
        acc
    } else {
        acc + seq!['/'] + rp
    }
}

/// `prefix` matches the leading segments of `path`, a `:name` segment
/// matching any segment.
pub open spec fn prefix_matches(path: Seq<char>, prefix: Seq<char>) -> bool {
    segs_match(split_segments(prefix), split_segments(path))
}

/// The routes of the forest `routes` (joined below `acc`) whose full path
/// is empty or a prefix of `target`, in pre-order; the children of a route
/// that does not match are not visited.
pub open spec fn matching_routes(routes: Seq<Arc<Route>>, target: Seq<char>, acc: Seq<char>) -> Seq<
    Arc<Route>,
>
    decreases routes,
{
    if routes.len() == 0 {
        Seq::empty()
    } else {
        let r = routes.last();
        let full = joined_path(acc, trim_both(r.config.path@, '/'));
        proof {
            assert(decreases_to!(routes => routes.subrange(0, routes.len() - 1)));
            assert(decreases_to!(routes => routes[routes.len() - 1]));
        }
        let rest = matching_routes(routes.drop_last(), target, acc);
        if full.len() == 0 || prefix_matches(target, full) {
            rest + seq![r] + matching_routes(r.children@, target, full)
        } else {
            rest
        }
    }
}

/// The guards of the routes, route by route.
pub open spec fn route_guards(rs: Seq<Arc<Route>>) -> Seq<GuardHandle>
    decreases rs.len(),
{
    if rs.len() == 0 {
        Seq::empty()
    } else {
        route_guards(rs.drop_last()) + rs.last().guards@
    }
}

/// The middleware of the routes, route by route.
pub open spec fn route_middleware(rs: Seq<Arc<Route>>) -> Seq<MiddlewareHandle>
    decreases rs.len(),
{
    if rs.len() == 0 {
        Seq::empty()
    } else {
        route_middleware(rs.drop_last()) + rs.last().middleware@
    }
}

/// The routes that apply to a navigation to `path`.
pub open spec fn applying_routes(routes: Seq<Arc<Route>>, path: Seq<char>) -> Seq<Arc<Route>> {
    matching_routes(routes, trim_both(path, '/'), Seq::empty())
}

/// One guard's answer within a round of guards, which run one after another
/// in priority order: `Continue` lets the next guard run (`None`); any other
/// answer ends the round and is the round's verdict.
pub fn guard_round_step(answer: NavigationAction) -> (r: Option<NavigationAction>)
    ensures
        answer is Continue ==> r is None,
        !(answer is Continue) ==> r == Some(answer),
{
    if answer.is_continue() {
        None
    } else {
        Some(answer)
    }
}

/// Whether `prefix` matches the leading segments of `path` (a `:name`
/// segment of the prefix matches any segment).
pub fn path_matches_prefix(path: &str, prefix: &str) -> (r: bool)
    ensures
        r == prefix_matches(path@, prefix@),
{
    let ps = split_chars(&chars_of(path));
    let fs = split_chars(&chars_of(prefix));
    prefix_segments_match(&ps, &fs)
}

fn prefix_segments_match(ps: &Vec<Vec<char>>, fs: &Vec<Vec<char>>) -> (r: bool)
    ensures
        r == segs_match(views(fs@), views(ps@)),
{
    if ps.len() < fs.len() {
        return false;
    }
    let mut i: usize = 0;
    while i < fs.len()
        invariant
            fs@.len() <= ps@.len(),
            i <= fs@.len(),
            forall|j: int|
                0 <= j < i ==> is_param(#[trigger] views(fs@)[j]) || views(fs@)[j] == views(ps@)[j],
        decreases fs.len() - i,
    {
        let f = &fs[i];
        let is_p = f.len() > 0 && f[0] == ':';
        if !is_p && !crate::text::chars_eq(f, &ps[i]) {
            assert(!(is_param(views(fs@)[i as int]) || views(fs@)[i as int] == views(ps@)[i as int]));
            return false;
        }
        i = i + 1;
    }
    true
}

fn join_path(acc: &Vec<char>, rp: &Vec<char>) -> (r: Vec<char>)
    ensures
        r@ == joined_path(acc@, rp@),
{
    if acc.len() == 0 {
        let mut r: Vec<char> = Vec::new();
        append_chars(&mut r, rp);
        assert(r@ =~= rp@);
        r
    } else if rp.len() == 0 {
        let mut r: Vec<char> = Vec::new();
        append_chars(&mut r, acc);
        assert(r@ =~= acc@);
        r
    } else {
        let mut r: Vec<char> = Vec::new();
        append_chars(&mut r, acc);
        r.push('/');
        append_chars(&mut r, rp);
        r
    }
}

/// Append the routes of `routes` below `acc` that match `target` (see
/// [`matching_routes`]).
fn collect_matching(
    routes: &[Arc<Route>],
    target: &Vec<char>,
    acc: &Vec<char>,
    out: &mut Vec<Arc<Route>>,
)
    ensures
        final(out)@ == old(out)@ + matching_routes(routes@, target@, acc@),
    decreases routes@,
{
    let mut i: usize = 0;
    while i < routes.len()
        invariant
            i <= routes@.len(),
            out@ == old(out)@ + matching_routes(routes@.take(i as int), target@, acc@),
        decreases routes@.len() - i,
    {
        let ghost pre = routes@.take(i + 1);
        assert(pre.drop_last() == routes@.take(i as int));
        assert(pre.last() == routes@[i as int]);
        let r = &routes[i];
        let rp = trim_both_chars(&chars_of(r.config.path.as_str()), '/');
        let full = join_path(acc, &rp);
        let ghost before = out@;
        if full.len() == 0 || path_prefix_chars(target, &full) {
            out.push(r.clone());
            proof {
                assert(decreases_to!(routes@ => routes@[i as int]));
            }
            collect_matching(r.children.as_slice(), target, &full, out);
            assert(out@ =~= old(out)@ + matching_routes(pre, target@, acc@));
        }
        i = i + 1;
    }
    assert(routes@.take(routes@.len() as int) == routes@);
}

fn path_prefix_chars(path: &Vec<char>, prefix: &Vec<char>) -> (r: bool)
    ensures
        r == prefix_matches(path@, prefix@),
{
    let ps = split_chars(path);
    let fs = split_chars(prefix);
    prefix_segments_match(&ps, &fs)
}

/// The routes that apply to a navigation to `path` (see [`applying_routes`]).
fn applying(routes: &[Arc<Route>], path: &str) -> (r: Vec<Arc<Route>>)
    ensures
        r@ == applying_routes(routes@, path@),
{
    let target = trim_both_chars(&chars_of(path), '/');
    let acc: Vec<char> = Vec::new();
    let mut out: Vec<Arc<Route>> = Vec::new();
    collect_matching(routes, &target, &acc, &mut out);
    assert(acc@ =~= Seq::<char>::empty());
    assert(out@ =~= applying_routes(routes@, path@));
    out
}

fn guards_of(rs: &Vec<Arc<Route>>) -> (r: Vec<GuardHandle>)
    ensures
        r@ == route_guards(rs@),
{
    let mut out: Vec<GuardHandle> = Vec::new();
    let mut i: usize = 0;
    while i < rs.len()
        invariant
            i <= rs@.len(),
            out@ == route_guards(rs@.take(i as int)),
        decreases rs@.len() - i,
    {
        assert(rs@.take(i + 1).drop_last() == rs@.take(i as int));
        let gs = &rs[i].guards;
        let mut j: usize = 0;
        let ghost base = out@;
        while j < gs.len()
            invariant
                j <= gs@.len(),
                out@ == base + gs@.take(j as int),
            decreases gs@.len() - j,
        {
            out.push(gs[j]);
            assert(gs@.take(j + 1) == gs@.take(j as int).push(gs@[j as int]));
            j = j + 1;
        }
        assert(gs@.take(gs@.len() as int) == gs@);
        i = i + 1;
    }
    assert(rs@.take(rs@.len() as int) == rs@);
    out
}

fn middleware_of(rs: &Vec<Arc<Route>>) -> (r: Vec<MiddlewareHandle>)
    ensures
        r@ == route_middleware(rs@),
{
    let mut out: Vec<MiddlewareHandle> = Vec::new();
    let mut i: usize = 0;
    while i < rs.len()
        invariant
            i <= rs@.len(),
            out@ == route_middleware(rs@.take(i as int)),
        decreases rs@.len() - i,
    {
        assert(rs@.take(i + 1).drop_last() == rs@.take(i as int));
        let ms = &rs[i].middleware;
        let mut j: usize = 0;
        let ghost base = out@;
        while j < ms.len()
            invariant
                j <= ms@.len(),
                out@ == base + ms@.take(j as int),
            decreases ms@.len() - j,
        {
            out.push(ms[j]);
            assert(ms@.take(j + 1) == ms@.take(j as int).push(ms@[j as int]));
            j = j + 1;
        }
        assert(ms@.take(ms@.len() as int) == ms@);
        i = i + 1;
    }
    assert(rs@.take(rs@.len() as int) == rs@);
    out
}

/// The reason given when a navigation exceeds the redirect limit.
pub open spec fn loop_reason(depth: nat, target: Seq<char>) -> Seq<char> {
    "Redirect loop detected (depth "@ + decimal(depth) + "): target '"@ + target + "'"@
}


/// The router: navigation state, the match stack resolved for the current
/// path, the previous match stack (for exit transitions), the resolution
/// cache, the named routes and a transition override for the next
/// navigation.
pub struct GlobalRouter {
    state: RouterState,
    match_stack: MatchStack,
    previous_stack: Option<MatchStack>,
    nested_cache: crate::cache::RouteCache,
    named_routes: NamedRouteRegistry,
    next_transition: Option<Transition>,
}

impl GlobalRouter {
    /// The navigation state.
    pub closed spec fn state_of(&self) -> RouterState {
        self.state
    }

    /// The resolved match stack.
    pub closed spec fn stack(&self) -> Seq<EntrySpec> {
        self.match_stack@
    }

    /// The match stack before the last navigation.
    pub closed spec fn previous(&self) -> Option<Seq<EntrySpec>> {
        match self.previous_stack {
            Some(s) => Some(s@),
            None => None,
        }
    }

    /// The resolution cache.
    pub closed spec fn cache_of(&self) -> crate::cache::RouteCache {
        self.nested_cache
    }

    /// The named routes: name to pattern.
    pub closed spec fn names(&self) -> Map<Seq<char>, Seq<char>> {
        self.named_routes@
    }

    /// The transition override for the next navigation.
    pub closed spec fn pending_transition(&self) -> Option<Transition> {
        self.next_transition
    }

    /// The match stack is the resolution of the current path against the
    /// registered routes, and the cache is well formed.
    pub closed spec fn wf(&self) -> bool {
        &&& self.match_stack@ == spec_resolve(self.state.route_list(), self.state.path())
        &&& self.nested_cache.well_formed()
        &&& self.state.valid()
    }

    /// A router with no routes at `/`.
    pub fn new() -> (r: Self)
        ensures
            r.wf(),
            r.stack() == spec_resolve(r.state_of().route_list(), r.state_of().path()),
            r.state_of().history() == seq![seq!['/']],
            r.state_of().cursor() == 0,
            r.state_of().route_list().len() == 0,
            r.state_of().valid(),
            r.previous() is None,
            r.names() == Map::<Seq<char>, Seq<char>>::empty(),
            r.pending_transition() is None,
            r.cache_of().counters() == crate::cache::zero_stats(),
    {
        let state = RouterState::new();
        let match_stack = resolve_match_stack(state.routes(), state.current_path());
        GlobalRouter {
            state,
            match_stack,
            previous_stack: None,
            nested_cache: crate::cache::RouteCache::new(),
            named_routes: NamedRouteRegistry::new(),
            next_transition: None,
        }
    }

    /// The match stack resolved for the current path.
    pub fn match_stack(&self) -> (r: &MatchStack)
        ensures
            r@ == self.stack(),
    {
        &self.match_stack
    }

    /// The match stack before the last navigation, if there was one.
    pub fn previous_stack(&self) -> (r: Option<&MatchStack>)
        ensures
            match self.previous() {
                Some(s) => r is Some && r->0@ == s,
                None => r is None,
            },
    {
        match &self.previous_stack {
            Some(s) => Some(s),
            None => None,
        }
    }

    /// Register a route (and its name, if it has one), empty the cache and
    /// resolve the current path again.
    pub fn add_route(&mut self, route: Route)
        requires
            old(self).wf(),
            old(self).cache_of().counters().invalidations < usize::MAX,
        ensures
            final(self).wf(),
            final(self).stack() == spec_resolve(
                final(self).state_of().route_list(),
                final(self).state_of().path(),
            ),
            final(self).state_of().route_list().drop_last() == old(self).state_of().route_list(),
            final(self).state_of().route_list().len() == old(self).state_of().route_list().len() + 1,
            *final(self).state_of().route_list().last() == route,
            final(self).state_of().history() == old(self).state_of().history(),
            final(self).state_of().cursor() == old(self).state_of().cursor(),
            final(self).names() == (match route.config.name {
                Some(n) => old(self).names().insert(n@, route.config.path@),
                None => old(self).names(),
            }),
            final(self).cache_of().parent_entries().len() == 0,
            final(self).cache_of().capacity() == old(self).cache_of().capacity(),
            final(self).cache_of().counters() == (crate::cache::CacheStats {
                invalidations: (old(self).cache_of().counters().invalidations + 1) as usize,
                ..old(self).cache_of().counters()
            }),
            final(self).previous() == old(self).previous(),
            final(self).pending_transition() == old(self).pending_transition(),
    {
        match &route.config.name {
            Some(name) => {
                self.named_routes.register(name.clone(), route.config.path.clone());
            },
            None => {},
        }
        self.state.add_route(route);
        self.nested_cache.clear();
        self.match_stack = resolve_match_stack(self.state.routes(), self.state.current_path());
    }

    /// The guards that protect a navigation to `path`: those of every route
    /// that applies to it (see [`applying_routes`]), from the highest
    /// priority down, equal priorities in route order.
    pub fn guards_for(&self, path: &str) -> (r: Vec<GuardHandle>)
        ensures
            r@ == stable_sort(route_guards(applying_routes(self.state_of().route_list(), path@)), true),
    {
        let rs = applying(self.state.routes(), path);
        let gs = guards_of(&rs);
        sort_by_priority(&gs, true)
    }

    /// The middleware that observes a navigation to `path`, in the order in
    /// which it runs before the navigation (highest priority first) or
    /// after it (lowest priority first); equal priorities in route order.
    pub fn middleware_for(&self, path: &str, before: bool) -> (r: Vec<MiddlewareHandle>)
        ensures
            r@ == stable_sort(
                route_middleware(applying_routes(self.state_of().route_list(), path@)),
                before,
            ),
    {
        let rs = applying(self.state.routes(), path);
        let ms = middleware_of(&rs);
        sort_by_priority(&ms, before)
    }

    /// The next step of a navigation in progress: past the redirect limit
    /// the navigation is refused; otherwise the guards of the target run.
    pub fn navigation_step(&self, nav: &Navigation) -> (r: NavigationStep)
        ensures
            nav.redirects >= MAX_REDIRECT_DEPTH ==> (r matches NavigationStep::Finished(
                NavigationResult::Blocked { reason, redirect },
            ) && reason@ == loop_reason(nav.redirects as nat, nav.target@) && redirect is None),
            nav.redirects < MAX_REDIRECT_DEPTH ==> (r matches NavigationStep::CheckGuards {
                request,
                guards,
            } && request.to@ == nav.target@ && request.from is Some && request.from->0@
                == self.state_of().path() && request.params@ == Map::<Seq<char>, Seq<char>>::empty()
                && guards@ == stable_sort(
                route_guards(applying_routes(self.state_of().route_list(), nav.target@)),
                true,
            )),
    {
        if nav.redirects >= MAX_REDIRECT_DEPTH {
            let reason = loop_message(nav.redirects, nav.target.as_str());
            return NavigationStep::Finished(NavigationResult::Blocked { reason, redirect: None });
        }
        let from = self.state.current_path().to_owned();
        let request = NavigationRequest::with_from(nav.target.clone(), from);
        let guards = self.guards_for(nav.target.as_str());
        NavigationStep::CheckGuards { request, guards }
    }

    /// What the guards' verdict means: `Continue` proceeds, a denial refuses
    /// the navigation with its reason, a redirect starts a new round for the
    /// redirect target as a push, one redirect further.
    pub fn apply_verdict(&self, nav: Navigation, verdict: NavigationAction) -> (r: VerdictOutcome)
        requires
            nav.redirects < usize::MAX,
        ensures
            match verdict {
                NavigationAction::Continue => r matches VerdictOutcome::Proceed(n) && n == nav,
                NavigationAction::Deny { reason } => r matches VerdictOutcome::Finished(
                    NavigationResult::Blocked { reason: rs, redirect },
                ) && rs == reason && redirect is None,
                NavigationAction::Redirect { to, .. } => r matches VerdictOutcome::Redirected(n)
                    && n.target == to && n.op == NavigateOp::Push && n.redirects == nav.redirects + 1,
            },
    {
        match verdict {
            NavigationAction::Continue => VerdictOutcome::Proceed(nav),
            NavigationAction::Deny { reason } => VerdictOutcome::Finished(
                NavigationResult::Blocked { reason, redirect: None },
            ),
            NavigationAction::Redirect { to, .. } => VerdictOutcome::Redirected(
                Navigation { target: to, op: NavigateOp::Push, redirects: nav.redirects + 1 },
            ),
        }
    }

    /// Perform a navigation that the guards let through: empty the cache,
    /// keep the current match stack as the previous one, change the history
    /// and resolve the new current path.
    pub fn commit(&mut self, nav: Navigation) -> (r: NavigationResult)
        requires
            old(self).wf(),
            old(self).cache_of().counters().invalidations < usize::MAX,
            nav.op == NavigateOp::Back ==> old(self).state_of().cursor() > 0,
            nav.op == NavigateOp::Forward ==> old(self).state_of().cursor() + 1
                < old(self).state_of().history().len(),
        ensures
            final(self).wf(),
            final(self).stack() == spec_resolve(
                final(self).state_of().route_list(),
                final(self).state_of().path(),
            ),
            final(self).previous() == Some(old(self).stack()),
            final(self).cache_of().parent_entries().len() == 0,
            final(self).cache_of().capacity() == old(self).cache_of().capacity(),
            final(self).cache_of().counters() == (crate::cache::CacheStats {
                invalidations: (old(self).cache_of().counters().invalidations + 1) as usize,
                ..old(self).cache_of().counters()
            }),
            final(self).state_of().route_list() == old(self).state_of().route_list(),
            final(self).names() == old(self).names(),
            final(self).pending_transition() == old(self).pending_transition(),
            r matches NavigationResult::Success { path } && path@ == final(self).state_of().path(),
            final(self).state_of().valid(),
            nav.op == NavigateOp::Push ==> final(self).state_of().history() == crate::state::pushed(
                old(self).state_of().history(),
                old(self).state_of().cursor(),
                nav.target@,
            ) && final(self).state_of().cursor() == old(self).state_of().cursor() + 1,
            nav.op == NavigateOp::Replace ==> final(self).state_of().history() == old(
                self,
            ).state_of().history().update(old(self).state_of().cursor(), nav.target@)
                && final(self).state_of().cursor() == old(self).state_of().cursor(),
            nav.op == NavigateOp::Back ==> final(self).state_of().history() == old(
                self,
            ).state_of().history() && final(self).state_of().cursor() == old(self).state_of().cursor()
                - 1,
            nav.op == NavigateOp::Forward ==> final(self).state_of().history() == old(
                self,
            ).state_of().history() && final(self).state_of().cursor() == old(self).state_of().cursor()
                + 1,
    {
        self.nested_cache.clear();
        self.previous_stack = Some(self.match_stack.clone());
        let path = match nav.op {
            NavigateOp::Push => self.state.push(nav.target).to,
            NavigateOp::Replace => self.state.replace(nav.target).to,
            NavigateOp::Back => match self.state.back() {
                Some(e) => e.to,
                None => self.state.current_path().to_owned(),
            },
            NavigateOp::Forward => match self.state.forward() {
                Some(e) => e.to,
                None => self.state.current_path().to_owned(),
            },
        };
        self.match_stack = resolve_match_stack(self.state.routes(), self.state.current_path());
        NavigationResult::Success { path }
    }

    /// A navigation that pushes `path`.
    pub fn push_navigation(path: String) -> (r: Navigation)
        ensures
            r.target == path,
            r.op == NavigateOp::Push,
            r.redirects == 0,
    {
        Navigation { target: path, op: NavigateOp::Push, redirects: 0 }
    }

    /// A navigation that replaces the current entry with `path`.
    pub fn replace_navigation(path: String) -> (r: Navigation)
        ensures
            r.target == path,
            r.op == NavigateOp::Replace,
            r.redirects == 0,
    {
        Navigation { target: path, op: NavigateOp::Replace, redirects: 0 }
    }

    /// A navigation one entry back, if there is an entry before the current
    /// one; its target is that entry.
    pub fn back_navigation(&self) -> (r: Option<Navigation>)
        ensures
            self.state_of().cursor() > 0 ==> r is Some && r->0.target@ == self.state_of().history()[self.state_of().cursor()
                - 1] && r->0.op == NavigateOp::Back && r->0.redirects == 0,
            self.state_of().cursor() == 0 ==> r is None,
    {
        match self.state.peek_back_path() {
            Some(p) => Some(Navigation { target: p.to_owned(), op: NavigateOp::Back, redirects: 0 }),
            None => None,
        }
    }

    /// A navigation one entry forward, if there is an entry after the
    /// current one; its target is that entry.
    pub fn forward_navigation(&self) -> (r: Option<Navigation>)
        ensures
            self.state_of().cursor() + 1 < self.state_of().history().len() ==> r is Some
                && r->0.target@ == self.state_of().history()[self.state_of().cursor() + 1]
                && r->0.op == NavigateOp::Forward && r->0.redirects == 0,
            self.state_of().cursor() + 1 >= self.state_of().history().len() ==> r is None,
    {
        match self.state.peek_forward_path() {
            Some(p) => Some(
                Navigation { target: p.to_owned(), op: NavigateOp::Forward, redirects: 0 },
            ),
            None => None,
        }
    }

    /// A navigation that pushes the URL of the named route, if the name is
    /// registered.
    pub fn named_navigation(&self, name: &str, params: &RouteParams) -> (r: Option<Navigation>)
        ensures
            match r {
                Some(n) => self.names().contains_key(name@) && n.target@ == spec_fill_pattern(
                    self.names()[name@],
                    params@,
                ) && n.op == NavigateOp::Push && n.redirects == 0,
                None => !self.names().contains_key(name@),
            },
    {
        match self.named_routes.url_for(name, params) {
            Some(url) => Some(Navigation { target: url, op: NavigateOp::Push, redirects: 0 }),
            None => None,
        }
    }

    /// The URL of the named route with `params` filled in, if the name is
    /// registered.
    pub fn url_for(&self, name: &str, params: &RouteParams) -> (r: Option<String>)
        ensures
            match r {
                Some(u) => self.names().contains_key(name@) && u@ == spec_fill_pattern(
                    self.names()[name@],
                    params@,
                ),
                None => !self.names().contains_key(name@),
            },
    {
        self.named_routes.url_for(name, params)
    }

    /// The current path.
    pub fn current_path(&self) -> (r: &str)
        ensures
            r@ == self.state_of().path(),
    {
        self.state.current_path()
    }

    /// The match of the first registered route that matches the current
    /// path as a whole (see [`RouterState::current_match`]).
    pub fn current_match(&mut self) -> (r: Option<RouteMatch>)
        requires
            old(self).wf(),
        ensures
            final(self).wf(),
            match first_match(old(self).state_of().route_list(), old(self).state_of().path()) {
                Some(m) => r is Some && r->0.path@ == old(self).state_of().path() && r->0.params@ == m,
                None => r is None,
            },
            final(self).state_of().history() == old(self).state_of().history(),
            final(self).state_of().cursor() == old(self).state_of().cursor(),
            final(self).state_of().route_list() == old(self).state_of().route_list(),
    {
        self.state.current_match()
    }

    /// The same answer as [`current_match`](Self::current_match), without
    /// filling the cache.
    pub fn current_match_immutable(&self) -> (r: Option<RouteMatch>)
        ensures
            match first_match(self.state_of().route_list(), self.state_of().path()) {
                Some(m) => r is Some && r->0.path@ == self.state_of().path() && r->0.params@ == m,
                None => r is None,
            },
    {
        self.state.current_match_immutable()
    }

    /// The first registered route that claims the current path.
    pub fn current_route(&self) -> (r: Option<&Arc<Route>>)
        ensures
            match first_claim(self.state_of().route_list(), 0, self.state_of().path()) {
                Some(i) => r is Some && *r->0 == self.state_of().route_list()[i],
                None => r is None,
            },
    {
        self.state.current_route()
    }

    /// Whether there is an entry before the current one.
    pub fn can_go_back(&self) -> (r: bool)
        ensures
            r == (self.state_of().cursor() > 0),
    {
        self.state.can_go_back()
    }

    /// Whether there is an entry after the current one.
    pub fn can_go_forward(&self) -> (r: bool)
        ensures
            r == (self.state_of().cursor() + 1 < self.state_of().history().len()),
    {
        self.state.can_go_forward()
    }

    /// The navigation state.
    pub fn state(&self) -> (r: &RouterState)
        ensures
            *r == self.state_of(),
    {
        &self.state
    }

    /// The navigation state, for changes outside the navigation pipeline
    /// (the match stack is not resolved again).
    pub fn state_mut(&mut self) -> (r: &mut RouterState)
        ensures
            *r == old(self).state_of(),
            final(self).state_of() == *final(r),
            final(self).stack() == old(self).stack(),
            final(self).previous() == old(self).previous(),
            final(self).cache_of() == old(self).cache_of(),
            final(self).names() == old(self).names(),
            final(self).pending_transition() == old(self).pending_transition(),
    {
        &mut self.state
    }

    /// The resolution cache.
    pub fn nested_cache_mut(&mut self) -> (r: &mut crate::cache::RouteCache)
        ensures
            *r == old(self).cache_of(),
            final(self).cache_of() == *final(r),
            final(self).state_of() == old(self).state_of(),
            final(self).stack() == old(self).stack(),
            final(self).previous() == old(self).previous(),
            final(self).names() == old(self).names(),
            final(self).pending_transition() == old(self).pending_transition(),
    {
        &mut self.nested_cache
    }

    /// The resolution cache's counters.
    pub fn cache_stats(&self) -> (r: &crate::cache::CacheStats)
        ensures
            *r == self.cache_of().counters(),
    {
        self.nested_cache.stats()
    }

    /// Use `transition` for the next navigation.
    pub fn set_next_transition(&mut self, transition: Transition)
        requires
            old(self).wf(),
        ensures
            final(self).wf(),
            final(self).pending_transition() == Some(transition),
            final(self).state_of() == old(self).state_of(),
            final(self).stack() == old(self).stack(),
    {
        self.next_transition = Some(transition);
    }

    /// Take the transition override, leaving none.
    pub fn take_next_transition(&mut self) -> (r: Option<Transition>)
        requires
            old(self).wf(),
        ensures
            final(self).wf(),
            r == old(self).pending_transition(),
            final(self).pending_transition() is None,
            final(self).state_of() == old(self).state_of(),
            final(self).stack() == old(self).stack(),
    {
        let mut t: Option<Transition> = None;
        std::mem::swap(&mut t, &mut self.next_transition);
        t
    }

    /// Whether a transition override is set.
    pub fn has_next_transition(&self) -> (r: bool)
        ensures
            r == self.pending_transition() is Some,
    {
        self.next_transition.is_some()
    }

    /// Drop the transition override.
    pub fn clear_next_transition(&mut self)
        requires
            old(self).wf(),
        ensures
            final(self).wf(),
            final(self).pending_transition() is None,
            final(self).state_of() == old(self).state_of(),
            final(self).stack() == old(self).stack(),
    {
        self.next_transition = None;
    }
}

impl Default for GlobalRouter {
    fn default() -> (r: Self)
        ensures
            r.wf(),
            r.state_of().history() == seq![seq!['/']],
            r.state_of().cursor() == 0,
            r.state_of().route_list().len() == 0,
            r.previous() is None,
            r.names() == Map::<Seq<char>, Seq<char>>::empty(),
            r.pending_transition() is None,
    {
        GlobalRouter::new()
    }
}

impl Clone for GlobalRouter {
    /// A router with the same state, stacks, names and transition override;
    /// its resolution cache starts empty with the same counters.
    fn clone(&self) -> (r: Self)
        ensures
            self.wf() ==> r.wf(),
            r.state_of().history() == self.state_of().history(),
            r.state_of().cursor() == self.state_of().cursor(),
            r.state_of().route_list() == self.state_of().route_list(),
            r.stack() == self.stack(),
            r.previous() == self.previous(),
            r.names() == self.names(),
            r.pending_transition() == self.pending_transition(),
            r.cache_of().counters() == self.cache_of().counters(),
    {
        let previous_stack = match &self.previous_stack {
            Some(s) => Some(s.clone()),
            None => None,
        };
        let next_transition = match &self.next_transition {
            Some(t) => Some(t.copied()),
            None => None,
        };
        GlobalRouter {
            state: self.state.clone(),
            match_stack: self.match_stack.clone(),
            previous_stack,
            nested_cache: self.nested_cache.clone(),
            named_routes: self.named_routes.clone(),
            next_transition,
        }
    }
}

/// The reason given when a navigation exceeds the redirect limit.
fn loop_message(depth: usize, target: &str) -> (r: String)
    ensures
        r@ == loop_reason(depth as nat, target@),
{
    let mut v: Vec<char> = Vec::new();
    append_chars(&mut v, &chars_of("Redirect loop detected (depth "));
    push_decimal(&mut v, depth);
    append_chars(&mut v, &chars_of("): target '"));
    append_chars(&mut v, &chars_of(target));
    append_chars(&mut v, &chars_of("'"));
    string_from_chars(v.as_slice())
}


proof fn lemma_matching_contains(routes: Seq<Arc<Route>>, i: int, target: Seq<char>)
    requires
        0 <= i < routes.len(),
        ({
            let rp = trim_both(routes[i].config.path@, '/');
            rp.len() == 0 || prefix_matches(target, rp)
        }),
    ensures
        matching_routes(routes, target, Seq::empty()).contains(routes[i]),
    decreases routes.len(),
{
    let r = routes.last();
    let rest = matching_routes(routes.drop_last(), target, Seq::empty());
    let full = joined_path(Seq::empty(), trim_both(r.config.path@, '/'));
    if i == routes.len() - 1 {
        let m = rest + seq![r] + matching_routes(r.children@, target, full);
        assert(m[rest.len() as int] == r);
    } else {
        assert(routes.drop_last()[i] == routes[i]);
        lemma_matching_contains(routes.drop_last(), i, target);
        let j = choose|j: int| 0 <= j < rest.len() && rest[j] == routes[i];
        if full.len() == 0 || prefix_matches(target, full) {
            let m = rest + seq![r] + matching_routes(r.children@, target, full);
            assert(m[j] == routes[i]);
        }
    }
}

proof fn lemma_route_guards_contains(rs: Seq<Arc<Route>>, j: int, g: GuardHandle)
    requires
        0 <= j < rs.len(),
        rs[j].guards@.contains(g),
    ensures
        route_guards(rs).contains(g),
    decreases rs.len(),
{
    let init = route_guards(rs.drop_last());
    let last = rs.last().guards@;
    if j == rs.len() - 1 {
        let k = choose|k: int| 0 <= k < last.len() && last[k] == g;
        assert((init + last)[init.len() + k] == g);
    } else {
        assert(rs.drop_last()[j] == rs[j]);
        lemma_route_guards_contains(rs.drop_last(), j, g);
        let k = choose|k: int| 0 <= k < init.len() && init[k] == g;
        assert((init + last)[k] == g);
    }
}

/// A guard on a registered route protects every path below that route: a
/// navigation to a path whose leading segments the route's pattern matches
/// (or to any path, for a route with an empty pattern) runs the guard.
pub proof fn lemma_route_guard_protects(
    routes: Seq<Arc<Route>>,
    i: int,
    path: Seq<char>,
    g: GuardHandle,
)
    requires
        0 <= i < routes.len(),
        routes[i].guards@.contains(g),
        ({
            let rp = trim_both(routes[i].config.path@, '/');
            rp.len() == 0 || prefix_matches(trim_both(path, '/'), rp)
        }),
    ensures
        stable_sort(route_guards(applying_routes(routes, path)), true).contains(g),
{
    let rs = applying_routes(routes, path);
    lemma_matching_contains(routes, i, trim_both(path, '/'));
    let j = choose|j: int| 0 <= j < rs.len() && rs[j] == routes[i];
    lemma_route_guards_contains(rs, j, g);
    let gs = route_guards(rs);
    crate::order::lemma_stable_sort_sorted(gs, true);
    gs.to_multiset_ensures();
    stable_sort(gs, true).to_multiset_ensures();
    assert(gs.to_multiset().count(g) > 0);
    assert(stable_sort(gs, true).to_multiset().count(g) > 0);
}


/// The path segments of a chain of routes down the route tree: each route's
/// pattern segments after those of the routes above it.
pub open spec fn chain_segments(chain: Seq<Arc<Route>>) -> Seq<Seq<char>>
    decreases chain.len(),
{
    if chain.len() == 0 {
        Seq::empty()
    } else {
        split_segments(chain[0].config.path@) + chain_segments(chain.drop_first())
    }
}

/// `chain` starts at one of `routes` and goes down the route tree: each
/// route is a child of the one before it.
pub open spec fn is_route_chain(routes: Seq<Arc<Route>>, chain: Seq<Arc<Route>>) -> bool {
    &&& chain.len() > 0
    &&& routes.contains(chain[0])
    &&& forall|k: int|
        #![trigger chain[k]]
        0 <= k < chain.len() - 1 ==> chain[k].children@.contains(chain[k + 1])
}

proof fn lemma_split_joined(acc: Seq<char>, rp: Seq<char>)
    ensures
        split_segments(joined_path(acc, rp)) == split_segments(acc) + split_segments(rp),
{
    let e = Seq::<char>::empty();
    assert(crate::text::split_acc(e) == (Seq::<Seq<char>>::empty(), e));
    if acc.len() == 0 {
        assert(acc =~= e);
        assert(split_segments(acc) + split_segments(rp) =~= split_segments(rp));
    } else if rp.len() == 0 {
        assert(rp =~= e);
        assert(split_segments(acc) + split_segments(rp) =~= split_segments(acc));
    } else {
        crate::text::lemma_split_slash_concat(acc, rp);
    }
}

proof fn lemma_segs_match_prefix(a: Seq<Seq<char>>, b: Seq<Seq<char>>, t: Seq<Seq<char>>)
    requires
        segs_match(a + b, t),
    ensures
        segs_match(a, t),
{
    assert forall|i: int| 0 <= i < a.len() implies is_param(#[trigger] a[i]) || a[i] == t[i] by {
        assert((a + b)[i] == a[i]);
    }
}

proof fn lemma_matching_below(routes: Seq<Arc<Route>>, i: int, target: Seq<char>, acc: Seq<char>)
    requires
        0 <= i < routes.len(),
        ({
            let full = joined_path(acc, trim_both(routes[i].config.path@, '/'));
            full.len() == 0 || prefix_matches(target, full)
        }),
    ensures
        matching_routes(routes, target, acc).contains(routes[i]),
        forall|x: Arc<Route>|
            matching_routes(
                routes[i].children@,
                target,
                joined_path(acc, trim_both(routes[i].config.path@, '/')),
            ).contains(x) ==> matching_routes(routes, target, acc).contains(x),
    decreases routes.len(),
{
    let r = routes.last();
    let rest = matching_routes(routes.drop_last(), target, acc);
    let full = joined_path(acc, trim_both(r.config.path@, '/'));
    let below = matching_routes(r.children@, target, full);
    if i == routes.len() - 1 {
        let m = rest + seq![r] + below;
        assert(m[rest.len() as int] == r);
        assert forall|x: Arc<Route>| below.contains(x) implies m.contains(x) by {
            let j = choose|j: int| 0 <= j < below.len() && below[j] == x;
            assert(m[rest.len() + 1 + j] == x);
        }
    } else {
        assert(routes.drop_last()[i] == routes[i]);
        lemma_matching_below(routes.drop_last(), i, target, acc);
        if full.len() == 0 || prefix_matches(target, full) {
            let m = rest + seq![r] + below;
            assert forall|x: Arc<Route>| rest.contains(x) implies m.contains(x) by {
                let j = choose|j: int| 0 <= j < rest.len() && rest[j] == x;
                assert(m[j] == x);
            }
        }
    }
}

proof fn lemma_matching_chain(
    routes: Seq<Arc<Route>>,
    chain: Seq<Arc<Route>>,
    target: Seq<char>,
    acc: Seq<char>,
)
    requires
        is_route_chain(routes, chain),
        segs_match(split_segments(acc) + chain_segments(chain), split_segments(target)),
    ensures
        matching_routes(routes, target, acc).contains(chain.last()),
    decreases chain.len(),
{
    let i = choose|i: int| 0 <= i < routes.len() && routes[i] == chain[0];
    let p0 = chain[0].config.path@;
    let full = joined_path(acc, trim_both(p0, '/'));
    let rest = chain.drop_first();
    lemma_split_joined(acc, trim_both(p0, '/'));
    crate::text::lemma_split_trim_both(p0);
    let sa = split_segments(acc);
    let s0 = split_segments(p0);
    assert(chain_segments(chain) == s0 + chain_segments(rest));
    assert(sa + (s0 + chain_segments(rest)) =~= (sa + s0) + chain_segments(rest));
    lemma_segs_match_prefix(sa + s0, chain_segments(rest), split_segments(target));
    assert(split_segments(full) == sa + s0);
    lemma_matching_below(routes, i, target, acc);
    if chain.len() > 1 {
        assert(chain[0].children@.contains(chain[1]));
        assert(rest[0] == chain[1]);
        assert forall|k: int| #![trigger rest[k]] 0 <= k < rest.len() - 1 implies rest[k].children@.contains(
            rest[k + 1],
        ) by {
            assert(rest[k] == chain[k + 1]);
            assert(rest[k + 1] == chain[k + 2]);
            assert(chain[k + 1].children@.contains(chain[k + 2]));
        }
        lemma_matching_chain(chain[0].children@, rest, target, full);
        assert(rest.last() == chain.last());
    }
}

/// A guard on any route of the route tree protects every path below that
/// route's full path: when `chain` goes down from a registered route to the
/// guarded route and the segments of all their patterns, in order, match the
/// leading segments of `path` (a `:name` segment matching any segment), a
/// navigation to `path` runs the guard.
pub proof fn lemma_nested_guard_protects(
    routes: Seq<Arc<Route>>,
    chain: Seq<Arc<Route>>,
    path: Seq<char>,
    g: GuardHandle,
)
    requires
        is_route_chain(routes, chain),
        chain.last().guards@.contains(g),
        segs_match(chain_segments(chain), split_segments(path)),
    ensures
        stable_sort(route_guards(applying_routes(routes, path)), true).contains(g),
{
    let target = trim_both(path, '/');
    crate::text::lemma_split_trim_both(path);
    let e = Seq::<char>::empty();
    assert(crate::text::split_acc(e) == (Seq::<Seq<char>>::empty(), e));
    assert(split_segments(e) + chain_segments(chain) =~= chain_segments(chain));
    lemma_matching_chain(routes, chain, target, e);
    let rs = applying_routes(routes, path);
    let j = choose|j: int| 0 <= j < rs.len() && rs[j] == chain.last();
    lemma_route_guards_contains(rs, j, g);
    let gs = route_guards(rs);
    crate::order::lemma_stable_sort_sorted(gs, true);
    gs.to_multiset_ensures();
    stable_sort(gs, true).to_multiset_ensures();
    assert(gs.to_multiset().count(g) > 0);
    assert(stable_sort(gs, true).to_multiset().count(g) > 0);
}

} // verus!
