//! The route tree: each route has a path pattern, an optional name, child
//! routes for the default outlet, child routes for named outlets, a
//! transition configuration, and handles of the guards and middleware that
//! protect or observe it.

use vstd::prelude::*;
use std::sync::Arc;
use crate::params::{last_key_index, lemma_last_key_index_bounds, lemma_last_key_index_is, RouteParams};
use crate::pattern::{bind_params, is_param, match_segments, segs_match, NameRule};
use crate::text::{
    append_chars, chars_of, join_chars_with, join_with, split_all, split_all_chars, split_chars,
    split_segments, str_eq, string_from_chars,
};
use crate::transition::{Transition, TransitionConfig};

verus! {

/// Path pattern and optional name of a route.
#[derive(Debug)]
pub struct RouteConfig {
    /// Path pattern, e.g. `/users/:id` or `settings` for a child route.
    pub path: String,
    /// Optional name used for URL generation.
    pub name: Option<String>,
}

/// Handle of a guard attached to a route: the guard itself is kept by the
/// application under `id`; the router orders guards by `priority`.
#[derive(Clone, Copy, Debug, PartialEq, Eq)]
pub struct GuardHandle {
    /// Key under which the application keeps the guard.
    pub id: u64,
    /// Execution priority: higher runs first.
    pub priority: i32,
}

/// Handle of a middleware attached to a route: the middleware itself is kept
/// by the application under `id`.
#[derive(Clone, Copy, Debug, PartialEq, Eq)]
pub struct MiddlewareHandle {
    /// Key under which the application keeps the middleware.
    pub id: u64,
    /// Priority: higher runs first before navigation and last after it.
    pub priority: i32,
}

/// A route in the route tree.
#[derive(Debug)]
pub struct Route {
    /// Path pattern and name.
    pub config: RouteConfig,
    /// Children rendered by the default outlet.
    pub children: Vec<Arc<Route>>,
    /// Children of named outlets, by outlet name (a later entry for a name
    /// replaces an earlier one).
    pub named_children: Vec<(String, Vec<Arc<Route>>)>,
    /// Transition used when this route is entered.
    pub transition: TransitionConfig,
    /// Guards protecting this route and its descendants.
    pub guards: Vec<GuardHandle>,
    /// Middleware observing navigations to this route and its descendants.
    pub middleware: Vec<MiddlewareHandle>,
    /// Key under which the application keeps the view this route renders.
    pub view: Option<u64>,
}

/// The children of the named outlet `name`: the last entry with that name.
pub open spec fn named_lookup(ns: Seq<(String, Vec<Arc<Route>>)>, name: Seq<char>) -> Option<
    Vec<Arc<Route>>,
>
    decreases ns.len(),
{
    if ns.len() == 0 {
        None
    } else if ns.last().0@ == name {
        Some(ns.last().1)
    } else {
        named_lookup(ns.drop_last(), name)
    }
}

impl Route {
    /// Create a route with the given path pattern and nothing else.
    pub fn new(path: &str) -> (r: Self)
        ensures
            r.config.path@ == path@,
            r.config.name is None,
            r.children@.len() == 0,
            r.named_children@.len() == 0,
            r.transition.default is Instant,
            r.transition.override_next is None,
            r.guards@.len() == 0,
            r.middleware@.len() == 0,
            r.view is None,
    {
        Route {
            config: RouteConfig { path: path.to_owned(), name: None },
            children: Vec::new(),
            named_children: Vec::new(),
            transition: TransitionConfig::new(Transition::Instant),
            guards: Vec::new(),
            middleware: Vec::new(),
            view: None,
        }
    }

    /// Render the view the application keeps under `view`.
    pub fn with_view(self, view: u64) -> (r: Self)
        ensures
            r.view == Some(view),
            r.config == self.config,
            r.children == self.children,
            r.named_children == self.named_children,
            r.transition == self.transition,
            r.guards == self.guards,
            r.middleware == self.middleware,
    {
        let mut r = self;
        r.view = Some(view);
        r
    }

    /// Give the route a name.
    pub fn name(self, name: &str) -> (r: Self)
        ensures
            r.config.name is Some,
            r.config.name->0@ == name@,
            r.config.path == self.config.path,
            r.children == self.children,
            r.named_children == self.named_children,
            r.transition == self.transition,
            r.guards == self.guards,
            r.middleware == self.middleware,
            r.view == self.view,
    {
        let mut r = self;
        r.config.name = Some(name.to_owned());
        r
    }

    /// Add children for the default outlet (after any existing ones).
    pub fn children(self, children: Vec<Arc<Route>>) -> (r: Self)
        ensures
            r.children@ == self.children@ + children@,
            r.config == self.config,
            r.named_children == self.named_children,
            r.transition == self.transition,
            r.guards == self.guards,
            r.middleware == self.middleware,
            r.view == self.view,
    {
        let mut r = self;
        let mut children = children;
        r.children.append(&mut children);
        r
    }

    /// Add one child for the default outlet.
    pub fn child(self, child: Arc<Route>) -> (r: Self)
        ensures
            r.children@ == self.children@.push(child),
            r.config == self.config,
            r.named_children == self.named_children,
            r.transition == self.transition,
            r.guards == self.guards,
            r.middleware == self.middleware,
            r.view == self.view,
    {
        let mut r = self;
        r.children.push(child);
        r
    }

    /// Set the children of the named outlet `name`.
    pub fn named_outlet(self, name: &str, children: Vec<Arc<Route>>) -> (r: Self)
        ensures
            named_lookup(r.named_children@, name@) == Some(children),
            forall|n: Seq<char>|
                n != name@ ==> named_lookup(r.named_children@, n) == named_lookup(
                    self.named_children@,
                    n,
                ),
            r.config == self.config,
            r.children == self.children,
            r.transition == self.transition,
            r.guards == self.guards,
            r.middleware == self.middleware,
            r.view == self.view,
    {
        let mut r = self;
        let ghost old_named = r.named_children@;
        r.named_children.push((name.to_owned(), children));
        assert(r.named_children@.drop_last() == old_named);
        r
    }

    /// Set the transition used when this route is entered.
    pub fn transition(self, transition: Transition) -> (r: Self)
        ensures
            r.transition.default == transition,
            r.transition.override_next is None,
            r.config == self.config,
            r.children == self.children,
            r.named_children == self.named_children,
            r.guards == self.guards,
            r.middleware == self.middleware,
            r.view == self.view,
    {
        let mut r = self;
        r.transition = TransitionConfig::new(transition);
        r
    }

    /// Attach a guard.
    pub fn guard(self, guard: GuardHandle) -> (r: Self)
        ensures
            r.guards@ == self.guards@.push(guard),
            r.config == self.config,
            r.children == self.children,
            r.named_children == self.named_children,
            r.transition == self.transition,
            r.middleware == self.middleware,
            r.view == self.view,
    {
        let mut r = self;
        r.guards.push(guard);
        r
    }

    /// Attach a middleware.
    pub fn middleware(self, middleware: MiddlewareHandle) -> (r: Self)
        ensures
            r.middleware@ == self.middleware@.push(middleware),
            r.config == self.config,
            r.children == self.children,
            r.named_children == self.named_children,
            r.transition == self.transition,
            r.guards == self.guards,
            r.view == self.view,
    {
        let mut r = self;
        r.middleware.push(middleware);
        r
    }

    /// The children of the default outlet.
    pub fn get_children(&self) -> (r: &Vec<Arc<Route>>)
        ensures
            *r == self.children,
    {
        &self.children
    }

    /// The children of the named outlet `name`, if it is defined.
    pub fn get_named_children(&self, name: &str) -> (r: Option<&Vec<Arc<Route>>>)
        ensures
            match named_lookup(self.named_children@, name@) {
                Some(c) => r is Some && *r->0 == c,
                None => r is None,
            },
    {
        let mut i = self.named_children.len();
        assert(self.named_children@.take(i as int) == self.named_children@);
        while i > 0
            invariant
                i <= self.named_children@.len(),
                named_lookup(self.named_children@, name@) == named_lookup(
                    self.named_children@.take(i as int),
                    name@,
                ),
            decreases i,
        {
            let ghost pre = self.named_children@.take(i as int);
            assert(pre.drop_last() == self.named_children@.take(i - 1));
            i = i - 1;
            if str_eq(self.named_children[i].0.as_str(), name) {
                return Some(&self.named_children[i].1);
            }
        }
        None
    }

    /// Names of the named outlets, in definition order.
    pub fn named_outlet_names(&self) -> (r: Vec<String>)
        ensures
            r@.len() == self.named_children@.len(),
            forall|i: int| 0 <= i < r@.len() ==> r@[i]@ == self.named_children@[i].0@,
    {
        let mut r: Vec<String> = Vec::new();
        let mut i: usize = 0;
        while i < self.named_children.len()
            invariant
                i <= self.named_children@.len(),
                r@.len() == i,
                forall|j: int| 0 <= j < i ==> r@[j]@ == self.named_children@[j].0@,
            decreases self.named_children@.len() - i,
        {
            r.push(self.named_children[i].0.clone());
            i = i + 1;
        }
        r
    }
}


/// A full match of a path against a route pattern.
#[derive(Debug)]
pub struct RouteMatch {
    /// The matched path.
    pub path: String,
    /// Parameters bound by the pattern's `:name` segments.
    pub params: RouteParams,
}

impl Clone for RouteMatch {
    fn clone(&self) -> (r: Self)
        ensures
            r.path@ == self.path@,
            r.params@ == self.params@,
    {
        RouteMatch { path: self.path.clone(), params: self.params.clone() }
    }
}

/// The parameters of a full match of `path` against `pattern`: both have the
/// same number of non-empty segments and each pattern segment is a `:name`
/// parameter or equals the path segment.
pub open spec fn spec_route_match(pattern: Seq<char>, path: Seq<char>) -> Option<
    Map<Seq<char>, Seq<char>>,
> {
    let rs = split_segments(pattern);
    let ps = split_segments(path);
    if rs.len() == ps.len() && segs_match(rs, ps) {
        Some(bind_params(NameRule::StripOne, Map::empty(), rs, ps))
    } else {
        None
    }
}

impl Route {
    /// Match `path` against this route's pattern as a whole (see
    /// [`spec_route_match`]).
    pub fn matches(&self, path: &str) -> (r: Option<RouteMatch>)
        ensures
            match spec_route_match(self.config.path@, path@) {
                Some(m) => r is Some && r->0.path@ == path@ && r->0.params@ == m,
                None => r is None,
            },
    {
        let pat = split_chars(&chars_of(self.config.path.as_str()));
        let segs = split_chars(&chars_of(path));
        assert(crate::pattern::views(pat@) == pat@.map_values(|x: Vec<char>| x@));
        assert(crate::pattern::views(segs@) == segs@.map_values(|x: Vec<char>| x@));
        assert(crate::pattern::views(segs@).skip(0) == crate::pattern::views(segs@));
        if pat.len() != segs.len() {
            return None;
        }
        let mut params = RouteParams::new();
        if match_segments(NameRule::StripOne, &pat, &segs, 0, &mut params) {
            Some(RouteMatch { path: path.to_owned(), params })
        } else {
            None
        }
    }
}

/// The URL of a pattern with parameters filled in: each `:name` segment
/// whose name has a value is replaced by that value; every other piece of
/// the pattern stays as it is.
pub open spec fn fill_segment(seg: Seq<char>, params: Map<Seq<char>, Seq<char>>) -> Seq<char> {
    if is_param(seg) && params.contains_key(seg.drop_first()) {
        params[seg.drop_first()]
    } else {
        seg
    }
}

/// The pattern with its parameters filled in (see [`fill_segment`]).
pub open spec fn spec_fill_pattern(pattern: Seq<char>, params: Map<Seq<char>, Seq<char>>) -> Seq<
    char,
> {
    join_with(split_all(pattern, '/').map_values(|s: Seq<char>| fill_segment(s, params)), '/')
}

/// Fill the parameters of a pattern (see [`spec_fill_pattern`]).
pub fn fill_pattern(pattern: &str, params: &RouteParams) -> (r: String)
    ensures
        r@ == spec_fill_pattern(pattern@, params@),
{
    let pieces = split_all_chars(&chars_of(pattern), '/');
    let ghost pv = pieces@.map_values(|x: Vec<char>| x@);
    let ghost f = |s: Seq<char>| fill_segment(s, params@);
    let mut out: Vec<Vec<char>> = Vec::new();
    let mut i: usize = 0;
    while i < pieces.len()
        invariant
            i <= pieces@.len(),
            pv == pieces@.map_values(|x: Vec<char>| x@),
            f == (|s: Seq<char>| fill_segment(s, params@)),
            out@.map_values(|x: Vec<char>| x@) == pv.take(i as int).map_values(f),
        decreases pieces.len() - i,
    {
        let ghost before = out@.map_values(|x: Vec<char>| x@);
        let seg = &pieces[i];
        let mut piece: Vec<char> = Vec::new();
        let mut done = false;
        if seg.len() > 0 && seg[0] == ':' {
            let name = crate::text::sub_chars(seg, 1, seg.len());
            assert(name@ == seg@.drop_first());
            let key = string_from_chars(name.as_slice());
            match params.get(key.as_str()) {
                Some(v) => {
                    append_chars(&mut piece, &chars_of(v.as_str()));
                    done = true;
                },
                None => {},
            }
        }
        if !done {
            append_chars(&mut piece, seg);
        }
        assert(piece@ == f(pv[i as int]));
        out.push(piece);
        assert(pv.take(i + 1).map_values(f) =~= pv.take(i as int).map_values(f).push(f(pv[i as int])));
        assert(out@.map_values(|x: Vec<char>| x@) =~= before.push(out@[i as int]@));
        i = i + 1;
    }
    assert(pv.take(pieces@.len() as int) == pv);
    let joined = join_chars_with(&out, '/');
    string_from_chars(joined.as_slice())
}

/// Route names with the patterns they stand for.
#[derive(Debug)]
pub struct NamedRouteRegistry {
    routes: Vec<(String, String)>,
}

impl View for NamedRouteRegistry {
    type V = Map<Seq<char>, Seq<char>>;

    closed spec fn view(&self) -> Map<Seq<char>, Seq<char>> {
        crate::params::pairs_map(self.routes@)
    }
}

impl Clone for NamedRouteRegistry {
    fn clone(&self) -> (r: Self)
        ensures
            r@ == self@,
    {
        let mut out: Vec<(String, String)> = Vec::new();
        let mut i: usize = 0;
        while i < self.routes.len()
            invariant
                i <= self.routes@.len(),
                out@.len() == i,
                forall|j: int|
                    0 <= j < i ==> out@[j].0@ == self.routes@[j].0@ && out@[j].1@
                        == self.routes@[j].1@,
            decreases self.routes@.len() - i,
        {
            out.push((self.routes[i].0.clone(), self.routes[i].1.clone()));
            i = i + 1;
        }
        proof {
            crate::params::lemma_pairs_map_same_views(out@, self.routes@);
        }
        NamedRouteRegistry { routes: out }
    }
}

impl NamedRouteRegistry {
    /// An empty registry.
    pub fn new() -> (r: Self)
        ensures
            r@ == Map::<Seq<char>, Seq<char>>::empty(),
    {
        let r = NamedRouteRegistry { routes: Vec::new() };
        assert(r@ =~= Map::<Seq<char>, Seq<char>>::empty());
        r
    }

    fn find(&self, name: &str) -> (r: Option<usize>)
        ensures
            match r {
                Some(i) => i < self.routes@.len() && last_key_index(self.routes@, name@) == i,
                None => last_key_index(self.routes@, name@) < 0,
            },
    {
        let mut i = self.routes.len();
        while i > 0
            invariant
                i <= self.routes@.len(),
                forall|j: int| i <= j < self.routes@.len() ==> self.routes@[j].0@ != name@,
            decreases i,
        {
            i = i - 1;
            if str_eq(self.routes[i].0.as_str(), name) {
                proof {
                    lemma_last_key_index_is(self.routes@, name@, i as int);
                }
                return Some(i);
            }
        }
        proof {
            lemma_last_key_index_bounds(self.routes@, name@);
            if last_key_index(self.routes@, name@) >= 0 {
                let j = last_key_index(self.routes@, name@);
                assert(self.routes@[j].0@ == name@);
            }
        }
        None
    }

    /// Register `name` for `pattern` (a later registration of a name
    /// replaces the earlier one).
    pub fn register(&mut self, name: String, pattern: String)
        ensures
            final(self)@ == old(self)@.insert(name@, pattern@),
    {
        proof {
            crate::params::lemma_pairs_map_push(self.routes@, (name, pattern));
        }
        self.routes.push((name, pattern));
    }

    /// The pattern registered for `name`.
    pub fn get(&self, name: &str) -> (r: Option<&String>)
        ensures
            match r {
                Some(p) => self@.contains_key(name@) && p@ == self@[name@],
                None => !self@.contains_key(name@),
            },
    {
        match self.find(name) {
            Some(i) => Some(&self.routes[i].1),
            None => None,
        }
    }

    /// The URL of the route registered as `name`, with `params` filled into
    /// its pattern; `None` when the name is not registered.
    pub fn url_for(&self, name: &str, params: &RouteParams) -> (r: Option<String>)
        ensures
            match r {
                Some(u) => self@.contains_key(name@) && u@ == spec_fill_pattern(
                    self@[name@],
                    params@,
                ),
                None => !self@.contains_key(name@),
            },
    {
        match self.get(name) {
            Some(p) => Some(fill_pattern(p.as_str(), params)),
            None => None,
        }
    }
}

} // verus!
