//! Router state: the navigation history with its cursor, the registered
//! routes, a cache of route matches, the current route parameters and the
//! navigation counter used to detect superseded navigations.
//!
//! The history is a linear stack with a cursor. `push` drops every entry
//! after the cursor before appending; `back` and `forward` move the cursor
//! without touching the stack.

use vstd::prelude::*;
use std::sync::Arc;
use std::sync::atomic::AtomicUsize;
use crate::params::RouteParams;
use crate::route::{spec_route_match, Route, RouteMatch};
use crate::text::{chars_of, is_prefix, starts_with_chars, str_eq, trim_both, trim_both_chars};

verus! {

/// The direction of a change of the current path.
#[derive(Clone, Copy, Debug, PartialEq, Eq)]
pub enum NavigationDirection {
    /// A new entry, or a step forward in the history.
    Forward,
    /// A step back in the history.
    Back,
    /// The current entry was replaced in place.
    Replace,
}

/// A change of the current path.
#[derive(Debug)]
pub struct RouteChangeEvent {
    /// The path before the change.
    pub from: Option<String>,
    /// The path after the change.
    pub to: String,
    /// How the path changed.
    pub direction: NavigationDirection,
}

/// The views of a list of strings.
pub open spec fn history_view(h: Seq<String>) -> Seq<Seq<char>> {
    h.map_values(|s: String| s@)
}

/// The history after pushing `p` with the cursor at `cur`: the entries up to
/// and including the cursor, then `p`.
pub open spec fn pushed(h: Seq<Seq<char>>, cur: int, p: Seq<char>) -> Seq<Seq<char>> {
    h.take(cur + 1).push(p)
}

/// `b` is `a` after pushing `p`: the entries after the cursor are dropped,
/// `p` is appended and becomes current.
pub open spec fn push_step(a: RouterState, b: RouterState, p: Seq<char>) -> bool {
    &&& b.history() == pushed(a.history(), a.cursor(), p)
    &&& b.cursor() == a.cursor() + 1
}

/// `b` is `a` after replacing the current entry with `p`.
pub open spec fn replace_step(a: RouterState, b: RouterState, p: Seq<char>) -> bool {
    &&& b.history() == a.history().update(a.cursor(), p)
    &&& b.cursor() == a.cursor()
}

/// `b` is `a` after a step back: the history is unchanged and the cursor
/// moves one entry back, unless it is at the oldest entry.
pub open spec fn back_step(a: RouterState, b: RouterState) -> bool {
    &&& b.history() == a.history()
    &&& b.cursor() == if a.cursor() > 0 {
        a.cursor() - 1
    } else {
        a.cursor()
    }
}

/// `b` is `a` after a step forward: the history is unchanged and the
/// cursor moves one entry forward, unless it is at the newest entry.
pub open spec fn forward_step(a: RouterState, b: RouterState) -> bool {
    &&& b.history() == a.history()
    &&& b.cursor() == if a.cursor() + 1 < a.history().len() {
        a.cursor() + 1
    } else {
        a.cursor()
    }
}

/// The parameters of the first route, in registration order, that matches
/// `path` as a whole.
pub open spec fn first_match(routes: Seq<Arc<Route>>, path: Seq<char>) -> Option<
    Map<Seq<char>, Seq<char>>,
>
    decreases routes.len(),
{
    if routes.len() == 0 {
        None
    } else {
        match spec_route_match(routes[0].config.path@, path) {
            Some(m) => Some(m),
            None => first_match(routes.drop_first(), path),
        }
    }
}

/// A route claims `path` as the current route when it matches the path as
/// a whole, when its pattern (without outer slashes) is a whole-segment
/// prefix of the path (without outer slashes), or when it is a root route
/// with children.
pub open spec fn claims(route: Arc<Route>, path: Seq<char>) -> bool {
    let rp = trim_both(route.config.path@, '/');
    let pt = trim_both(path, '/');
    ||| spec_route_match(route.config.path@, path) is Some
    ||| (rp.len() > 0 && is_prefix(rp, pt) && (pt.len() == rp.len() || pt[rp.len() as int] == '/'))
    ||| (rp.len() == 0 && route.children@.len() > 0)
}

/// The index of the first route from `i` on that claims `path`.
pub open spec fn first_claim(routes: Seq<Arc<Route>>, i: int, path: Seq<char>) -> Option<int>
    decreases routes.len() - i,
{
    if i < 0 || i >= routes.len() {
        None
    } else if claims(routes[i], path) {
        Some(i)
    } else {
        first_claim(routes, i + 1, path)
    }
}

/// The navigation history, registered routes and match cache.
#[derive(Debug)]
pub struct RouterState {
    history: Vec<String>,
    current: usize,
    routes: Vec<Arc<Route>>,
    cache: Vec<(String, RouteMatch)>,
    current_params: RouteParams,
    /// Shared by every clone of this state: a navigation started through any
    /// of them supersedes those started through the others.
    navigation_id: Arc<AtomicUsize>,
}

impl RouterState {
    #[verifier::type_invariant]
    spec fn inv(&self) -> bool {
        &&& self.history@.len() >= 1
        &&& self.current < self.history@.len()
        &&& self.cache_coherent()
    }

    /// Every cached match is the one that the registered routes give.
    spec fn cache_coherent(&self) -> bool {
        forall|i: int|
            0 <= i < self.cache@.len() ==> self.cache@[i].1.path@ == self.cache@[i].0@
                && first_match(self.routes@, #[trigger] self.cache@[i].0@) == Some(
                self.cache@[i].1.params@,
            )
    }

    /// The history entries, oldest first.
    pub closed spec fn history(&self) -> Seq<Seq<char>> {
        history_view(self.history@)
    }

    /// The position of the current entry in the history.
    pub closed spec fn cursor(&self) -> int {
        self.current as int
    }

    /// The registered routes, in registration order.
    pub closed spec fn route_list(&self) -> Seq<Arc<Route>> {
        self.routes@
    }

    /// The current route parameters.
    pub closed spec fn params(&self) -> Map<Seq<char>, Seq<char>> {
        self.current_params@
    }

    /// The current path.
    pub open spec fn path(&self) -> Seq<char> {
        self.history()[self.cursor()]
    }

    /// The history is never empty and the cursor points into it.
    pub open spec fn valid(&self) -> bool {
        &&& self.history().len() >= 1
        &&& 0 <= self.cursor() < self.history().len()
    }

    /// Create a state whose history holds the single entry `/`.
    pub fn new() -> (r: Self)
        ensures
            r.history() == seq![seq!['/']],
            r.cursor() == 0,
            r.route_list().len() == 0,
            r.params() == Map::<Seq<char>, Seq<char>>::empty(),
            r.valid(),
    {
        let mut history: Vec<String> = Vec::new();
        history.push(root_path());
        let r = RouterState {
            history,
            current: 0,
            routes: Vec::new(),
            cache: Vec::new(),
            current_params: RouteParams::new(),
            navigation_id: Arc::new(AtomicUsize::new(0)),
        };
        assert(r.history() =~= seq![seq!['/']]);
        r
    }

    /// The current navigation number, read from the counter that this
    /// state shares with its clones. Another clone may have moved it on, so
    /// nothing is promised of the value.
    pub fn navigation_id(&self) -> (r: usize) {
        self.navigation_id.load(std::sync::atomic::Ordering::SeqCst)
    }

    /// Start a new navigation: the shared counter moves on by one and its
    /// new value is returned (wrapping after `usize::MAX`). Every navigation
    /// started before it, through this state or a clone, is no longer
    /// current. The value depends on every clone's calls, so nothing is
    /// promised of it.
    pub fn start_navigation(&self) -> (r: usize) {
        let before = self.navigation_id.fetch_add(1, std::sync::atomic::Ordering::SeqCst);
        before.wrapping_add(1)
    }

    /// Whether `nav_id` is the value the shared counter holds now, that is,
    /// whether it is the most recently started navigation.
    pub fn is_navigation_current(&self, nav_id: usize) -> (r: bool) {
        self.navigation_id() == nav_id
    }

    /// Register a route after the existing ones; the match cache is emptied.
    pub fn add_route(&mut self, route: Route)
        ensures
            final(self).route_list().len() == old(self).route_list().len() + 1,
            final(self).route_list().drop_last() == old(self).route_list(),
            *final(self).route_list().last() == route,
            final(self).history() == old(self).history(),
            final(self).cursor() == old(self).cursor(),
            final(self).params() == old(self).params(),
            final(self).valid(),
    {
        proof {
            use_type_invariant(&*self);
        }
        let mut cache: Vec<(String, RouteMatch)> = Vec::new();
        std::mem::swap(&mut cache, &mut self.cache);
        let mut routes: Vec<Arc<Route>> = Vec::new();
        std::mem::swap(&mut routes, &mut self.routes);
        routes.push(Arc::new(route));
        self.routes = routes;
        proof {
            use_type_invariant(&*self);
        }
    }

    /// The current path.
    pub fn current_path(&self) -> (r: &str)
        ensures
            self.valid(),
            r@ == self.path(),
    {
        proof {
            use_type_invariant(self);
        }
        self.history[self.current].as_str()
    }

    /// The number of history entries.
    pub fn history_len(&self) -> (r: usize)
        ensures
            r == self.history().len(),
    {
        self.history.len()
    }

    /// The registered routes, in registration order.
    pub fn routes(&self) -> (r: &[Arc<Route>])
        ensures
            r@ == self.route_list(),
    {
        self.routes.as_slice()
    }

    /// The current route parameters.
    pub fn current_params(&self) -> (r: &RouteParams)
        ensures
            r@ == self.params(),
    {
        &self.current_params
    }

    /// Replace the current route parameters.
    pub fn set_current_params(&mut self, params: RouteParams)
        ensures
            final(self).params() == params@,
            final(self).history() == old(self).history(),
            final(self).cursor() == old(self).cursor(),
            final(self).route_list() == old(self).route_list(),
    {
        proof {
            use_type_invariant(&*self);
        }
        self.current_params = params;
    }

    /// The cached match for `path`, if any.
    fn cached(&self, path: &str) -> (r: Option<RouteMatch>)
        ensures
            match r {
                Some(m) => m.path@ == path@ && first_match(self.routes@, path@) == Some(m.params@),
                None => forall|j: int|
                    0 <= j < self.cache@.len() ==> #[trigger] self.cache@[j].0@ != path@,
            },
    {
        proof {
            use_type_invariant(self);
        }
        let mut i: usize = 0;
        while i < self.cache.len()
            invariant
                i <= self.cache@.len(),
                self.cache_coherent(),
                forall|j: int| 0 <= j < i ==> #[trigger] self.cache@[j].0@ != path@,
            decreases self.cache@.len() - i,
        {
            if str_eq(self.cache[i].0.as_str(), path) {
                return Some(self.cache[i].1.clone());
            }
            i = i + 1;
        }
        None
    }

    /// The match of the first registered route that matches `path`.
    fn find_match(&self, path: &str) -> (r: Option<RouteMatch>)
        ensures
            match first_match(self.routes@, path@) {
                Some(m) => r is Some && r->0.path@ == path@ && r->0.params@ == m,
                None => r is None,
            },
    {
        let mut i: usize = 0;
        assert(self.routes@.skip(0) == self.routes@);
        while i < self.routes.len()
            invariant
                i <= self.routes@.len(),
                first_match(self.routes@, path@) == first_match(self.routes@.skip(i as int), path@),
            decreases self.routes@.len() - i,
        {
            let ghost rest = self.routes@.skip(i as int);
            assert(rest[0] == self.routes@[i as int]);
            assert(rest.drop_first() == self.routes@.skip(i + 1));
            match self.routes[i].matches(path) {
                Some(m) => {
                    return Some(m);
                },
                None => {},
            }
            i = i + 1;
        }
        None
    }

    /// The match of the first registered route that matches the current
    /// path as a whole; a found match is kept in the cache for later calls,
    /// which give the same answer.
    pub fn current_match(&mut self) -> (r: Option<RouteMatch>)
        ensures
            match first_match(old(self).route_list(), old(self).path()) {
                Some(m) => r is Some && r->0.path@ == old(self).path() && r->0.params@ == m,
                None => r is None,
            },
            final(self).history() == old(self).history(),
            final(self).cursor() == old(self).cursor(),
            final(self).route_list() == old(self).route_list(),
            final(self).params() == old(self).params(),
            final(self).valid(),
    {
        proof {
            use_type_invariant(&*self);
        }
        let path = self.history[self.current].clone();
        match self.cached(path.as_str()) {
            Some(m) => {
                return Some(m);
            },
            None => {},
        }
        match self.find_match(path.as_str()) {
            Some(m) => {
                let kept = m.clone();
                let mut cache: Vec<(String, RouteMatch)> = Vec::new();
                assert(self.cache_coherent());
                std::mem::swap(&mut cache, &mut self.cache);
                let ghost before = cache@;
                let ghost key = path@;
                assert(first_match(self.routes@, key) == Some(kept.params@));
                assert(kept.path@ == key);
                cache.push((path, kept));
                assert forall|i: int| 0 <= i < cache@.len() implies (#[trigger] cache@[i]).1.path@
                    == cache@[i].0@ && first_match(self.routes@, cache@[i].0@) == Some(
                    cache@[i].1.params@,
                ) by {
                    if i < before.len() {
                        assert(cache@[i] == before[i]);
                        assert(first_match(self.routes@, before[i].0@) == Some(before[i].1.params@));
                    }
                }
                self.cache = cache;
                proof {
                    use_type_invariant(&*self);
                }
                Some(m)
            },
            None => None,
        }
    }

    /// The same answer as [`current_match`](Self::current_match), without
    /// filling the cache.
    pub fn current_match_immutable(&self) -> (r: Option<RouteMatch>)
        ensures
            match first_match(self.route_list(), self.path()) {
                Some(m) => r is Some && r->0.path@ == self.path() && r->0.params@ == m,
                None => r is None,
            },
    {
        proof {
            use_type_invariant(self);
        }
        let path = self.history[self.current].as_str();
        match self.cached(path) {
            Some(m) => Some(m),
            None => self.find_match(path),
        }
    }

    /// The first registered route that claims the current path (see
    /// [`claims`]).
    pub fn current_route(&self) -> (r: Option<&Arc<Route>>)
        ensures
            match first_claim(self.route_list(), 0, self.path()) {
                Some(i) => r is Some && *r->0 == self.route_list()[i],
                None => r is None,
            },
    {
        proof {
            use_type_invariant(self);
        }
        let path = self.history[self.current].as_str();
        assert(path@ == self.path());
        let pt = trim_both_chars(&chars_of(path), '/');
        let mut i: usize = 0;
        while i < self.routes.len()
            invariant
                i <= self.routes@.len(),
                pt@ == trim_both(path@, '/'),
                path@ == self.path(),
                first_claim(self.routes@, 0, path@) == first_claim(self.routes@, i as int, path@),
            decreases self.routes@.len() - i,
        {
            let route = &self.routes[i];
            let ghost r = self.routes@[i as int];
            if route.matches(path).is_some() {
                assert(claims(r, path@));
                assert(first_claim(self.routes@, i as int, path@) == Some(i as int));
                return Some(route);
            }
            let rp = trim_both_chars(&chars_of(route.config.path.as_str()), '/');
            if rp.len() > 0 && starts_with_chars(&pt, &rp) && (pt.len() == rp.len() || pt[rp.len()]
                == '/') {
                assert(claims(r, path@));
                assert(first_claim(self.routes@, i as int, path@) == Some(i as int));
                return Some(route);
            }
            if rp.len() == 0 && route.children.len() > 0 {
                assert(claims(r, path@));
                assert(first_claim(self.routes@, i as int, path@) == Some(i as int));
                return Some(route);
            }
            assert(!claims(r, path@));
            i = i + 1;
        }
        None
    }

    /// Push `path` as the new current entry, dropping the entries after the
    /// cursor first.
    pub fn push(&mut self, path: String) -> (r: RouteChangeEvent)
        ensures
            push_step(*old(self), *final(self), path@),
            final(self).history() == pushed(old(self).history(), old(self).cursor(), path@),
            final(self).cursor() == old(self).cursor() + 1,
            r.from is Some && r.from->0@ == old(self).path(),
            r.to@ == path@,
            r.direction == NavigationDirection::Forward,
            final(self).route_list() == old(self).route_list(),
            final(self).params() == old(self).params(),
            final(self).valid(),
    {
        proof {
            use_type_invariant(&*self);
        }
        let from = self.history[self.current].clone();
        let to = path.clone();
        let ghost old_h = self.history@;
        let n = self.history.len();
        assert(self.current < n);
        let mut h = copy_prefix(&self.history, self.current + 1);
        h.push(path);
        assert(history_view(h@) =~= pushed(history_view(old_h), self.current as int, to@));
        self.history = h;
        self.current = self.current + 1;
        proof {
            use_type_invariant(&*self);
        }
        RouteChangeEvent { from: Some(from), to, direction: NavigationDirection::Forward }
    }

    /// Replace the current entry with `path`.
    pub fn replace(&mut self, path: String) -> (r: RouteChangeEvent)
        ensures
            replace_step(*old(self), *final(self), path@),
            final(self).history() == old(self).history().update(old(self).cursor(), path@),
            final(self).cursor() == old(self).cursor(),
            r.from is Some && r.from->0@ == old(self).path(),
            r.to@ == path@,
            r.direction == NavigationDirection::Replace,
            final(self).route_list() == old(self).route_list(),
            final(self).params() == old(self).params(),
            final(self).valid(),
    {
        proof {
            use_type_invariant(&*self);
        }
        let from = self.history[self.current].clone();
        let to = path.clone();
        let ghost old_h = self.history@;
        let mut h = copy_prefix(&self.history, self.history.len());
        assert(history_view(old_h).take(old_h.len() as int) == history_view(old_h));
        h.set(self.current, path);
        assert(history_view(h@) =~= history_view(old_h).update(self.current as int, to@));
        self.history = h;
        proof {
            use_type_invariant(&*self);
        }
        RouteChangeEvent { from: Some(from), to, direction: NavigationDirection::Replace }
    }

    /// Move the cursor one entry back; `None` (and no change) at the oldest
    /// entry.
    pub fn back(&mut self) -> (r: Option<RouteChangeEvent>)
        ensures
            back_step(*old(self), *final(self)),
            final(self).history() == old(self).history(),
            final(self).route_list() == old(self).route_list(),
            final(self).params() == old(self).params(),
            final(self).valid(),
            old(self).cursor() > 0 ==> {
                &&& final(self).cursor() == old(self).cursor() - 1
                &&& r is Some
                &&& r->0.from is Some && r->0.from->0@ == old(self).path()
                &&& r->0.to@ == final(self).path()
                &&& r->0.direction == NavigationDirection::Back
            },
            old(self).cursor() == 0 ==> final(self).cursor() == 0 && r is None,
    {
        proof {
            use_type_invariant(&*self);
        }
        if self.current > 0 {
            let from = self.history[self.current].clone();
            self.current = self.current - 1;
            let to = self.history[self.current].clone();
            proof {
                use_type_invariant(&*self);
            }
            Some(RouteChangeEvent { from: Some(from), to, direction: NavigationDirection::Back })
        } else {
            None
        }
    }

    /// Move the cursor one entry forward; `None` (and no change) at the
    /// newest entry.
    pub fn forward(&mut self) -> (r: Option<RouteChangeEvent>)
        ensures
            forward_step(*old(self), *final(self)),
            final(self).history() == old(self).history(),
            final(self).route_list() == old(self).route_list(),
            final(self).params() == old(self).params(),
            final(self).valid(),
            old(self).cursor() + 1 < old(self).history().len() ==> {
                &&& final(self).cursor() == old(self).cursor() + 1
                &&& r is Some
                &&& r->0.from is Some && r->0.from->0@ == old(self).path()
                &&& r->0.to@ == final(self).path()
                &&& r->0.direction == NavigationDirection::Forward
            },
            old(self).cursor() + 1 >= old(self).history().len() ==> final(self).cursor()
                == old(self).cursor() && r is None,
    {
        proof {
            use_type_invariant(&*self);
        }
        if self.current < self.history.len() - 1 {
            let from = self.history[self.current].clone();
            self.current = self.current + 1;
            let to = self.history[self.current].clone();
            proof {
                use_type_invariant(&*self);
            }
            Some(RouteChangeEvent { from: Some(from), to, direction: NavigationDirection::Forward })
        } else {
            None
        }
    }

    /// Whether [`back`](Self::back) would move the cursor.
    pub fn can_go_back(&self) -> (r: bool)
        ensures
            r == (self.cursor() > 0),
    {
        self.current > 0
    }

    /// Whether [`forward`](Self::forward) would move the cursor.
    pub fn can_go_forward(&self) -> (r: bool)
        ensures
            r == (self.cursor() + 1 < self.history().len()),
    {
        proof {
            use_type_invariant(self);
        }
        self.current < self.history.len() - 1
    }

    /// The path that [`back`](Self::back) would move to.
    pub fn peek_back_path(&self) -> (r: Option<&str>)
        ensures
            self.cursor() > 0 ==> r is Some && r->0@ == self.history()[self.cursor() - 1],
            self.cursor() == 0 ==> r is None,
    {
        proof {
            use_type_invariant(self);
        }
        if self.current > 0 {
            Some(self.history[self.current - 1].as_str())
        } else {
            None
        }
    }

    /// The path that [`forward`](Self::forward) would move to.
    pub fn peek_forward_path(&self) -> (r: Option<&str>)
        ensures
            self.cursor() + 1 < self.history().len() ==> r is Some && r->0@ == self.history()[self.cursor()
                + 1],
            self.cursor() + 1 >= self.history().len() ==> r is None,
    {
        proof {
            use_type_invariant(self);
        }
        if self.current < self.history.len() - 1 {
            Some(self.history[self.current + 1].as_str())
        } else {
            None
        }
    }

    /// Reset the history to the single entry `/` and empty the match cache.
    pub fn clear(&mut self)
        ensures
            final(self).history() == seq![seq!['/']],
            final(self).cursor() == 0,
            final(self).route_list() == old(self).route_list(),
            final(self).params() == old(self).params(),
            final(self).valid(),
    {
        proof {
            use_type_invariant(&*self);
        }
        let mut cache: Vec<(String, RouteMatch)> = Vec::new();
        std::mem::swap(&mut cache, &mut self.cache);
        let mut h: Vec<String> = Vec::new();
        h.push(root_path());
        self.current = 0;
        self.history = h;
        assert(history_view(self.history@) =~= seq![seq!['/']]);
        proof {
            use_type_invariant(&*self);
        }
    }
}

impl Default for RouterState {
    fn default() -> (r: Self)
        ensures
            r.history() == seq![seq!['/']],
            r.cursor() == 0,
            r.route_list().len() == 0,
            r.params() == Map::<Seq<char>, Seq<char>>::empty(),
            r.valid(),
    {
        RouterState::new()
    }
}

impl Clone for RouterState {
    fn clone(&self) -> (r: Self)
        ensures
            r.history() == self.history(),
            r.cursor() == self.cursor(),
            r.route_list() == self.route_list(),
            r.params() == self.params(),
            r.valid(),
    {
        proof {
            use_type_invariant(self);
        }
        let history = copy_prefix(&self.history, self.history.len());
        assert(history_view(self.history@).take(self.history@.len() as int) == history_view(self.history@));
        let mut routes: Vec<Arc<Route>> = Vec::new();
        let mut i: usize = 0;
        while i < self.routes.len()
            invariant
                i <= self.routes@.len(),
                routes@ == self.routes@.take(i as int),
            decreases self.routes@.len() - i,
        {
            routes.push(self.routes[i].clone());
            assert(self.routes@.take(i + 1) == self.routes@.take(i as int).push(self.routes@[i as int]));
            i = i + 1;
        }
        assert(self.routes@.take(self.routes@.len() as int) == self.routes@);
        let mut cache: Vec<(String, RouteMatch)> = Vec::new();
        let mut j: usize = 0;
        while j < self.cache.len()
            invariant
                j <= self.cache@.len(),
                routes@ == self.routes@,
                self.cache_coherent(),
                cache@.len() == j,
                forall|k: int|
                    0 <= k < j ==> (#[trigger] cache@[k]).0@ == self.cache@[k].0@ && cache@[k].1.path@
                        == self.cache@[k].1.path@ && cache@[k].1.params@ == self.cache@[k].1.params@,
            decreases self.cache@.len() - j,
        {
            cache.push((self.cache[j].0.clone(), self.cache[j].1.clone()));
            j = j + 1;
        }
        RouterState {
            history,
            current: self.current,
            routes,
            cache,
            current_params: self.current_params.clone(),
            navigation_id: self.navigation_id.clone(),
        }
    }
}

proof fn lemma_whole_match_claimed_from(routes: Seq<Arc<Route>>, j: int, i: int, path: Seq<char>)
    requires
        0 <= j <= i < routes.len(),
        spec_route_match(routes[i].config.path@, path) is Some,
    ensures
        first_claim(routes, j, path) matches Some(k) && j <= k <= i,
    decreases i - j,
{
    if !claims(routes[j], path) {
        assert(j != i);
        lemma_whole_match_claimed_from(routes, j + 1, i, path);
    }
}

/// A registered route whose pattern matches a path as a whole is never
/// passed over: the current route for that path is this route or one
/// registered before it.
pub proof fn lemma_whole_match_is_claimed(routes: Seq<Arc<Route>>, i: int, path: Seq<char>)
    requires
        0 <= i < routes.len(),
        spec_route_match(routes[i].config.path@, path) is Some,
    ensures
        first_claim(routes, 0, path) matches Some(k) && 0 <= k <= i,
        i == 0 ==> first_claim(routes, 0, path) == Some(0int),
{
    lemma_whole_match_claimed_from(routes, 0, i, path);
}

/// Stepping forward right after stepping back returns to the same entry of
/// the same history.
pub proof fn lemma_forward_undoes_back(s0: RouterState, s1: RouterState, s2: RouterState)
    requires
        s0.valid(),
        s0.cursor() > 0,
        back_step(s0, s1),
        forward_step(s1, s2),
    ensures
        s2.history() == s0.history(),
        s2.cursor() == s0.cursor(),
        s2.path() == s0.path(),
{
}

/// Stepping back right after stepping forward returns to the same entry of
/// the same history.
pub proof fn lemma_back_undoes_forward(s0: RouterState, s1: RouterState, s2: RouterState)
    requires
        s0.valid(),
        s0.cursor() + 1 < s0.history().len(),
        forward_step(s0, s1),
        back_step(s1, s2),
    ensures
        s2.history() == s0.history(),
        s2.cursor() == s0.cursor(),
        s2.path() == s0.path(),
{
}

/// After a push the pushed path is current, there is no entry to go
/// forward to, and stepping back returns to the entry that was current
/// before the push; the entries up to it are kept.
pub proof fn lemma_back_after_push(s0: RouterState, s1: RouterState, s2: RouterState, p: Seq<char>)
    requires
        s0.valid(),
        push_step(s0, s1, p),
        back_step(s1, s2),
    ensures
        s1.path() == p,
        s1.cursor() + 1 == s1.history().len(),
        s2.path() == s0.path(),
        s2.history().take(s0.cursor() + 1) == s0.history().take(s0.cursor() + 1),
{
    assert(s1.history().take(s0.cursor() + 1) =~= s0.history().take(s0.cursor() + 1));
}

/// Replacing keeps the length of the history and the cursor, and makes the
/// new path current; no other entry changes.
pub proof fn lemma_replace_in_place(s0: RouterState, s1: RouterState, p: Seq<char>)
    requires
        s0.valid(),
        replace_step(s0, s1, p),
    ensures
        s1.history().len() == s0.history().len(),
        s1.cursor() == s0.cursor(),
        s1.path() == p,
        forall|i: int| 0 <= i < s0.history().len() && i != s0.cursor() ==> s1.history()[i] == s0.history()[i],
{
}

/// Copies of the first `n` entries.
fn copy_prefix(h: &Vec<String>, n: usize) -> (r: Vec<String>)
    requires
        n <= h@.len(),
    ensures
        history_view(r@) == history_view(h@).take(n as int),
{
    let mut r: Vec<String> = Vec::new();
    let mut i: usize = 0;
    while i < n
        invariant
            i <= n <= h@.len(),
            history_view(r@) == history_view(h@).take(i as int),
        decreases n - i,
    {
        let ghost before = r@;
        r.push(h[i].clone());
        assert(history_view(r@) =~= history_view(before).push(h@[i as int]@));
        assert(history_view(h@).take(i + 1) =~= history_view(h@).take(i as int).push(h@[i as int]@));
        i = i + 1;
    }
    r
}

/// The path `/`.
fn root_path() -> (r: String)
    ensures
        r@ == seq!['/'],
{
    let mut v: Vec<char> = Vec::new();
    v.push('/');
    crate::text::string_from_chars(v.as_slice())
}

} // verus!
