//! Resolution of a path into the chain of matched routes, one entry per
//! nesting level (the match stack), and resolution of named outlets.

use vstd::prelude::*;
use std::sync::Arc;
use crate::params::RouteParams;
use crate::pattern::{bind_params, is_param as is_param_seg, match_segments, seg_is_param, segs_match, views, NameRule};
use crate::route::{named_lookup, Route};
use crate::text::{
    append_chars, chars_eq, chars_of, decimal, push_decimal, count_leading, join_chars, join_slash, split_all,
    split_all_chars, split_chars, split_segments, string_from_chars, sub_chars, trim_both, trim_both_chars,
    trim_leading,
};

verus! {

/// Maximum nesting depth searched by [`resolve_match_stack`].
pub const MAX_DEPTH: usize = 16;

/// One level of a resolved route chain, as a mathematical value.
pub struct EntrySpec {
    /// The matched route.
    pub route: Arc<Route>,
    /// Parameters accumulated from the root down to this level.
    pub params: Map<Seq<char>, Seq<char>>,
    /// Nesting depth (0 is the top level).
    pub depth: int,
}

/// The non-empty segments of a route's path pattern.
pub open spec fn route_segs(r: Arc<Route>) -> Seq<Seq<char>> {
    split_segments(r.config.path@)
}

/// The segments of a route's pattern as resolution reads them: the pattern
/// without its leading and trailing slashes, split at every `/`. An empty
/// segment between two slashes is kept, and no path segment matches it.
pub open spec fn pattern_segs(r: Arc<Route>) -> Seq<Seq<char>> {
    let t = trim_both(r.config.path@, '/');
    if t.len() == 0 {
        Seq::empty()
    } else {
        split_all(t, '/')
    }
}

/// The path segments of the word `index`.
pub open spec fn index_word() -> Seq<char> {
    seq!['i', 'n', 'd', 'e', 'x']
}

/// First position from `j` on of a route whose pattern is empty, or `-1`.
pub open spec fn first_empty_from(s: Seq<Arc<Route>>, j: int) -> int
    decreases s.len() - j,
{
    if j < 0 || j >= s.len() {
        -1
    } else if route_segs(s[j]).len() == 0 {
        j
    } else {
        first_empty_from(s, j + 1)
    }
}

/// First position from `j` on of a route whose pattern is `index`, or `-1`.
pub open spec fn first_index_word_from(s: Seq<Arc<Route>>, j: int) -> int
    decreases s.len() - j,
{
    if j < 0 || j >= s.len() {
        -1
    } else if route_segs(s[j]) == seq![index_word()] {
        j
    } else {
        first_index_word_from(s, j + 1)
    }
}

pub proof fn lemma_first_empty_from(s: Seq<Arc<Route>>, j: int)
    requires
        0 <= j,
    ensures
        first_empty_from(s, j) == -1 || (j <= first_empty_from(s, j) < s.len() && route_segs(
            s[first_empty_from(s, j)],
        ).len() == 0),
        first_empty_from(s, j) == -1 ==> forall|k: int|
            j <= k < s.len() ==> route_segs(#[trigger] s[k]).len() != 0,
        first_empty_from(s, j) != -1 ==> forall|k: int|
            j <= k < first_empty_from(s, j) ==> route_segs(#[trigger] s[k]).len() != 0,
    decreases s.len() - j,
{
    if j < s.len() && route_segs(s[j]).len() != 0 {
        lemma_first_empty_from(s, j + 1);
    }
}

pub proof fn lemma_first_index_word_from(s: Seq<Arc<Route>>, j: int)
    requires
        0 <= j,
    ensures
        first_index_word_from(s, j) == -1 || (j <= first_index_word_from(s, j) < s.len()
            && route_segs(s[first_index_word_from(s, j)]) == seq![index_word()]),
        first_index_word_from(s, j) == -1 ==> forall|k: int|
            j <= k < s.len() ==> route_segs(#[trigger] s[k]) != seq![index_word()],
        first_index_word_from(s, j) != -1 ==> forall|k: int|
            j <= k < first_index_word_from(s, j) ==> route_segs(#[trigger] s[k]) != seq![
                index_word(),
            ],
    decreases s.len() - j,
{
    if j < s.len() && route_segs(s[j]) != seq![index_word()] {
        lemma_first_index_word_from(s, j + 1);
    }
}

/// The chain of index routes below a route whose path was fully consumed:
/// the first child with an empty pattern (followed by its own index chain),
/// otherwise the first child named `index`, otherwise nothing.
pub open spec fn index_chain(
    children: Seq<Arc<Route>>,
    depth: int,
    params: Map<Seq<char>, Seq<char>>,
) -> Seq<EntrySpec>
    decreases children,
{
    let k = first_empty_from(children, 0);
    if 0 <= k < children.len() {
        let c = children[k];
        let e = EntrySpec { route: c, params, depth };
        if c.children@.len() > 0 && depth + 1 <= usize::MAX {
            proof {
                assert(decreases_to!(children => children[k]));
            }
            seq![e] + index_chain(c.children@, depth + 1, params)
        } else {
            seq![e]
        }
    } else {
        let k2 = first_index_word_from(children, 0);
        if 0 <= k2 < children.len() {
            seq![EntrySpec { route: children[k2], params, depth }]
        } else {
            Seq::empty()
        }
    }
}


/// Resolution of the path segments `rem` against `routes[i..]` at nesting
/// `depth`, with `params` inherited from the levels above. The first route
/// that leads to a complete match wins; `None` means no route matched.
///
/// - A route with an empty pattern matches when no segment is left (followed
///   by its index chain); with segments left it matches only as a layout
///   around one of its children that matches them.
/// - A route with a pattern matches when its segments match the leading path
///   segments (`:param` segments bind values); when segments remain after it,
///   one of its children must match them.
pub open spec fn resolve_from(
    routes: Seq<Arc<Route>>,
    i: int,
    rem: Seq<Seq<char>>,
    depth: int,
    params: Map<Seq<char>, Seq<char>>,
) -> Option<Seq<EntrySpec>>
    decreases MAX_DEPTH - depth, routes.len() - i,
{
    if depth >= MAX_DEPTH || depth < 0 || i < 0 || i >= routes.len() {
        None
    } else {
        let route = routes[i];
        let rsegs = pattern_segs(route);
        let children = route.children@;
        if rsegs.len() == 0 {
            let e = EntrySpec { route, params, depth };
            if rem.len() == 0 {
                if children.len() > 0 {
                    Some(seq![e] + index_chain(children, depth + 1, params))
                } else {
                    Some(seq![e])
                }
            } else if children.len() > 0 {
                match resolve_from(children, 0, rem, depth + 1, params) {
                    Some(sub) => Some(seq![e] + sub),
                    None => resolve_from(routes, i + 1, rem, depth, params),
                }
            } else {
                resolve_from(routes, i + 1, rem, depth, params)
            }
        } else if !segs_match(rsegs, rem) {
            resolve_from(routes, i + 1, rem, depth, params)
        } else {
            let p2 = bind_params(NameRule::TrimCut, params, rsegs, rem);
            let after = rem.skip(rsegs.len() as int);
            let e = EntrySpec { route, params: p2, depth };
            if after.len() == 0 {
                if children.len() > 0 {
                    Some(seq![e] + index_chain(children, depth + 1, p2))
                } else {
                    Some(seq![e])
                }
            } else if children.len() > 0 && resolve_from(children, 0, after, depth + 1, p2) is Some {
                Some(seq![e] + resolve_from(children, 0, after, depth + 1, p2)->0)
            } else {
                resolve_from(routes, i + 1, rem, depth, params)
            }
        }
    }
}

/// Each entry of a route chain carries at least the parameter names of the
/// entry above it.
pub open spec fn params_grow(s: Seq<EntrySpec>) -> bool {
    forall|k: int|
        #![trigger s[k]]
        0 <= k < s.len() - 1 ==> s[k].params.dom().subset_of(s[k + 1].params.dom())
}

proof fn lemma_bind_params_grow(
    rule: NameRule,
    m: Map<Seq<char>, Seq<char>>,
    pat: Seq<Seq<char>>,
    segs: Seq<Seq<char>>,
)
    ensures
        m.dom().subset_of(bind_params(rule, m, pat, segs).dom()),
    decreases pat.len(),
{
    if pat.len() > 0 {
        lemma_bind_params_grow(rule, m, pat.drop_last(), segs);
    }
}

proof fn lemma_index_chain_params(children: Seq<Arc<Route>>, depth: int, p: Map<Seq<char>, Seq<char>>)
    ensures
        forall|k: int| 0 <= k < index_chain(children, depth, p).len() ==> #[trigger] index_chain(
            children,
            depth,
            p,
        )[k].params == p,
    decreases children,
{
    let k = first_empty_from(children, 0);
    if 0 <= k < children.len() {
        let c = children[k];
        if c.children@.len() > 0 && depth + 1 <= usize::MAX {
            assert(decreases_to!(children => children[k]));
            lemma_index_chain_params(c.children@, depth + 1, p);
            let e = EntrySpec { route: c, params: p, depth };
            let sub = index_chain(c.children@, depth + 1, p);
            assert forall|j: int| 0 <= j < (seq![e] + sub).len() implies #[trigger] (seq![e] + sub)[j].params
                == p by {
                if j > 0 {
                    assert((seq![e] + sub)[j] == sub[j - 1]);
                }
            }
        }
    }
}

proof fn lemma_cons_grow(e: EntrySpec, sub: Seq<EntrySpec>)
    requires
        params_grow(sub),
        sub.len() > 0 ==> e.params.dom().subset_of(sub[0].params.dom()),
    ensures
        params_grow(seq![e] + sub),
        (seq![e] + sub)[0] == e,
{
    let s = seq![e] + sub;
    assert forall|k: int| #![trigger s[k]] 0 <= k < s.len() - 1 implies s[k].params.dom().subset_of(
        s[k + 1].params.dom(),
    ) by {
        assert(s[k + 1] == sub[k]);
        if k > 0 {
            assert(s[k] == sub[k - 1]);
            assert(sub[k - 1] == sub[(k - 1) as int]);
        }
    }
}

proof fn lemma_resolve_from_grow(
    routes: Seq<Arc<Route>>,
    i: int,
    rem: Seq<Seq<char>>,
    depth: int,
    params: Map<Seq<char>, Seq<char>>,
)
    requires
        resolve_from(routes, i, rem, depth, params) is Some,
    ensures
        params_grow(resolve_from(routes, i, rem, depth, params)->0),
        resolve_from(routes, i, rem, depth, params)->0.len() > 0,
        params.dom().subset_of(resolve_from(routes, i, rem, depth, params)->0[0].params.dom()),
    decreases MAX_DEPTH - depth, routes.len() - i,
{
    let route = routes[i];
    let rsegs = pattern_segs(route);
    let children = route.children@;
    if rsegs.len() == 0 {
        let e = EntrySpec { route, params, depth };
        if rem.len() == 0 {
            if children.len() > 0 {
                let ic = index_chain(children, depth + 1, params);
                lemma_index_chain_params(children, depth + 1, params);
                assert(params_grow(ic)) by {
                    assert forall|k: int| #![trigger ic[k]] 0 <= k < ic.len() - 1 implies ic[k].params.dom().subset_of(
                        ic[k + 1].params.dom(),
                    ) by {
                        assert(ic[k].params == params);
                        assert(ic[k + 1].params == params);
                    }
                }
                lemma_cons_grow(e, ic);
            } else {
                lemma_cons_grow(e, Seq::empty());
                assert(seq![e] + Seq::<EntrySpec>::empty() =~= seq![e]);
            }
        } else if children.len() > 0 {
            match resolve_from(children, 0, rem, depth + 1, params) {
                Some(sub) => {
                    lemma_resolve_from_grow(children, 0, rem, depth + 1, params);
                    lemma_cons_grow(e, sub);
                },
                None => {
                    lemma_resolve_from_grow(routes, i + 1, rem, depth, params);
                },
            }
        } else {
            lemma_resolve_from_grow(routes, i + 1, rem, depth, params);
        }
    } else if !segs_match(rsegs, rem) {
        lemma_resolve_from_grow(routes, i + 1, rem, depth, params);
    } else {
        let p2 = bind_params(NameRule::TrimCut, params, rsegs, rem);
        lemma_bind_params_grow(NameRule::TrimCut, params, rsegs, rem);
        let after = rem.skip(rsegs.len() as int);
        let e = EntrySpec { route, params: p2, depth };
        if after.len() == 0 {
            if children.len() > 0 {
                let ic = index_chain(children, depth + 1, p2);
                lemma_index_chain_params(children, depth + 1, p2);
                assert(params_grow(ic)) by {
                    assert forall|k: int| #![trigger ic[k]] 0 <= k < ic.len() - 1 implies ic[k].params.dom().subset_of(
                        ic[k + 1].params.dom(),
                    ) by {
                        assert(ic[k].params == p2);
                        assert(ic[k + 1].params == p2);
                    }
                }
                lemma_cons_grow(e, ic);
            } else {
                lemma_cons_grow(e, Seq::empty());
                assert(seq![e] + Seq::<EntrySpec>::empty() =~= seq![e]);
            }
        } else if children.len() > 0 && resolve_from(children, 0, after, depth + 1, p2) is Some {
            let sub = resolve_from(children, 0, after, depth + 1, p2)->0;
            lemma_resolve_from_grow(children, 0, after, depth + 1, p2);
            lemma_cons_grow(e, sub);
        } else {
            lemma_resolve_from_grow(routes, i + 1, rem, depth, params);
        }
    }
}

/// Parameters are inherited down a resolved route chain: every entry of the
/// match stack of a path carries at least the parameter names of the entry
/// above it, so the deepest entry (an index route included) holds every
/// parameter bound along the chain.
pub proof fn lemma_resolved_params_grow(routes: Seq<Arc<Route>>, path: Seq<char>)
    ensures
        params_grow(spec_resolve(routes, path)),
{
    if resolve_from(routes, 0, split_segments(path), 0, Map::empty()) is Some {
        lemma_resolve_from_grow(routes, 0, split_segments(path), 0, Map::empty());
    }
}

/// The resolved route chain of a path: one entry per nesting level, empty
/// when no route matches.
pub open spec fn spec_resolve(routes: Seq<Arc<Route>>, path: Seq<char>) -> Seq<EntrySpec> {
    match resolve_from(routes, 0, split_segments(path), 0, Map::empty()) {
        Some(s) => s,
        None => Seq::empty(),
    }
}

/// A single entry in the route match stack.
#[derive(Debug)]
pub struct MatchEntry {
    /// The matched route at this level
    pub route: Arc<Route>,
    /// Accumulated params (all params from parent levels plus this level)
    pub params: RouteParams,
    /// Depth in the hierarchy (0 = top-level route)
    pub depth: usize,
}

impl MatchEntry {
    /// The mathematical value of this entry.
    pub open spec fn spec(&self) -> EntrySpec {
        EntrySpec { route: self.route, params: self.params@, depth: self.depth as int }
    }
}

impl Clone for MatchEntry {
    fn clone(&self) -> (r: Self)
        ensures
            r.spec() == self.spec(),
    {
        MatchEntry { route: self.route.clone(), params: self.params.clone(), depth: self.depth }
    }
}

/// The values of a list of entries.
pub open spec fn entry_specs(s: Seq<MatchEntry>) -> Seq<EntrySpec> {
    s.map_values(|e: MatchEntry| e.spec())
}

fn push_entry(out: &mut Vec<MatchEntry>, route: &Arc<Route>, params: &RouteParams, depth: usize)
    ensures
        entry_specs(final(out)@) == entry_specs(old(out)@).push(
            EntrySpec { route: *route, params: params@, depth: depth as int },
        ),
{
    let e = MatchEntry { route: route.clone(), params: params.clone(), depth };
    out.push(e);
    assert(entry_specs(out@) =~= entry_specs(old(out)@).push(e.spec()));
}

/// Segments of a route's pattern as resolution reads them.
pub(crate) fn pattern_segments_of(route: &Arc<Route>) -> (r: Vec<Vec<char>>)
    ensures
        views(r@) == pattern_segs(*route),
{
    let chars = chars_of(route.config.path.as_str());
    let t = trim_both_chars(&chars, '/');
    if t.len() == 0 {
        let r: Vec<Vec<char>> = Vec::new();
        assert(views(r@) =~= Seq::<Seq<char>>::empty());
        return r;
    }
    let r = split_all_chars(&t, '/');
    assert(views(r@) =~= r@.map_values(|x: Vec<char>| x@));
    r
}

/// Segments of a route's pattern.
pub(crate) fn segments_of_route(route: &Arc<Route>) -> (r: Vec<Vec<char>>)
    ensures
        views(r@) == route_segs(*route),
{
    let chars = chars_of(route.config.path.as_str());
    split_chars(&chars)
}

pub(crate) fn is_index_word(segs: &Vec<Vec<char>>) -> (r: bool)
    ensures
        r == (views(segs@) == seq![index_word()]),
{
    if segs.len() != 1 {
        assert(views(segs@).len() != 1);
        return false;
    }
    let w = vec!['i', 'n', 'd', 'e', 'x'];
    assert(w@ == index_word());
    let r = chars_eq(&segs[0], &w);
    assert(r ==> views(segs@) =~= seq![index_word()]);
    assert(views(segs@) == seq![index_word()] ==> views(segs@)[0] == index_word());
    r
}

/// Push the index chain of `children` (see [`index_chain`]).
fn try_index_route(
    children: &[Arc<Route>],
    depth: usize,
    params: &RouteParams,
    out: &mut Vec<MatchEntry>,
)
    ensures
        entry_specs(final(out)@) == entry_specs(old(out)@) + index_chain(
            children@,
            depth as int,
            params@,
        ),
    decreases children@,
{
    let mut k: usize = 0;
    while k < children.len()
        invariant
            k <= children@.len(),
            first_empty_from(children@, 0) == first_empty_from(children@, k as int),
            out@ == old(out)@,
        decreases children@.len() - k,
    {
        let segs = segments_of_route(&children[k]);
        if segs.len() == 0 {
            let c = &children[k];
            push_entry(out, c, params, depth);
            if c.children.len() > 0 && depth < usize::MAX {
                proof {
                    assert(decreases_to!(children@ => children@[k as int]));
                }
                try_index_route(c.children.as_slice(), depth + 1, params, out);
            }
            proof {
                reveal_with_fuel(index_chain, 1);
            }
            assert(entry_specs(out@) =~= entry_specs(old(out)@) + index_chain(
                children@,
                depth as int,
                params@,
            ));
            return;
        }
        k = k + 1;
    }
    let mut k2: usize = 0;
    while k2 < children.len()
        invariant
            k2 <= children@.len(),
            first_empty_from(children@, 0) == -1,
            first_index_word_from(children@, 0) == first_index_word_from(children@, k2 as int),
            out@ == old(out)@,
        decreases children@.len() - k2,
    {
        let segs = segments_of_route(&children[k2]);
        if is_index_word(&segs) {
            push_entry(out, &children[k2], params, depth);
            assert(entry_specs(out@) =~= entry_specs(old(out)@) + index_chain(
                children@,
                depth as int,
                params@,
            ));
            return;
        }
        k2 = k2 + 1;
    }
    assert(entry_specs(out@) =~= entry_specs(old(out)@) + index_chain(
        children@,
        depth as int,
        params@,
    ));
}


/// Recursive route matching with backtracking: on a complete match the
/// entries of this level and below are pushed onto `stack` and `true` is
/// returned; otherwise `stack` is left as it was.
fn resolve_recursive(
    routes: &[Arc<Route>],
    segs: &Vec<Vec<char>>,
    start: usize,
    depth: usize,
    inherited: &RouteParams,
    stack: &mut Vec<MatchEntry>,
) -> (r: bool)
    requires
        start <= segs@.len(),
        depth <= MAX_DEPTH,
    ensures
        r == resolve_from(routes@, 0, views(segs@).skip(start as int), depth as int, inherited@) is Some,
        r ==> entry_specs(final(stack)@) == entry_specs(old(stack)@) + resolve_from(
            routes@,
            0,
            views(segs@).skip(start as int),
            depth as int,
            inherited@,
        )->0,
        !r ==> entry_specs(final(stack)@) == entry_specs(old(stack)@),
    decreases MAX_DEPTH - depth,
{
    let ghost rem = views(segs@).skip(start as int);
    if depth >= MAX_DEPTH {
        return false;
    }
    let n = segs.len();
    let mut i: usize = 0;
    while i < routes.len()
        invariant
            n == segs@.len(),
            start <= n,
            depth < MAX_DEPTH,
            rem == views(segs@).skip(start as int),
            i <= routes@.len(),
            resolve_from(routes@, 0, rem, depth as int, inherited@) == resolve_from(
                routes@,
                i as int,
                rem,
                depth as int,
                inherited@,
            ),
            entry_specs(stack@) == entry_specs(old(stack)@),
        decreases routes@.len() - i,
    {
        let route = &routes[i];
        let rsegs = pattern_segments_of(route);
        let has_children = route.children.len() > 0;
        if rsegs.len() == 0 {
            if start == n {
                push_entry(stack, route, inherited, depth);
                if has_children {
                    try_index_route(route.children.as_slice(), depth + 1, inherited, stack);
                }
                assert(entry_specs(stack@) =~= entry_specs(old(stack)@) + resolve_from(
                    routes@,
                    0,
                    rem,
                    depth as int,
                    inherited@,
                )->0);
                return true;
            }
            if has_children {
                let ghost before = stack@;
                push_entry(stack, route, inherited, depth);
                if resolve_recursive(route.children.as_slice(), segs, start, depth + 1, inherited, stack) {
                    assert(entry_specs(stack@) =~= entry_specs(old(stack)@) + resolve_from(
                        routes@,
                        0,
                        rem,
                        depth as int,
                        inherited@,
                    )->0);
                    return true;
                }
                let ghost mid = stack@;
                assert(entry_specs(mid).len() == mid.len());
                assert(mid.len() > 0);
                stack.pop();
                assert(stack@ == mid.drop_last());
                assert(entry_specs(mid.drop_last()) =~= entry_specs(mid).drop_last());
                assert(entry_specs(stack@) =~= entry_specs(before));
            }
            i = i + 1;
            continue;
        }
        let mut params = inherited.clone();
        if !match_segments(NameRule::TrimCut, &rsegs, segs, start, &mut params) {
            i = i + 1;
            continue;
        }
        let next = start + rsegs.len();
        let ghost after = rem.skip(pattern_segs(*route).len() as int);
        assert(views(segs@).skip(next as int) =~= after);
        let ghost before = stack@;
        push_entry(stack, route, &params, depth);
        if next == n {
            assert(after.len() == 0);
            if has_children {
                try_index_route(route.children.as_slice(), depth + 1, &params, stack);
            }
            assert(entry_specs(stack@) =~= entry_specs(old(stack)@) + resolve_from(
                routes@,
                0,
                rem,
                depth as int,
                inherited@,
            )->0);
            return true;
        }
        if has_children && resolve_recursive(route.children.as_slice(), segs, next, depth + 1, &params, stack) {
            assert(entry_specs(stack@) =~= entry_specs(old(stack)@) + resolve_from(
                routes@,
                0,
                rem,
                depth as int,
                inherited@,
            )->0);
            return true;
        }
        let ghost mid = stack@;
        assert(entry_specs(mid).len() == mid.len());
        assert(mid.len() > 0);
        stack.pop();
        assert(stack@ == mid.drop_last());
        assert(entry_specs(mid.drop_last()) =~= entry_specs(mid).drop_last());
        assert(entry_specs(stack@) =~= entry_specs(before));
        i = i + 1;
    }
    false
}


/// `n` levels of two-space indentation.
pub open spec fn indent(n: nat) -> Seq<char>
    decreases n,
{
    if n == 0 {
        Seq::empty()
    } else {
        indent((n - 1) as nat) + seq![' ', ' ']
    }
}

/// The parts joined with `sep` between them.
pub open spec fn join_text(parts: Seq<Seq<char>>, sep: Seq<char>) -> Seq<char>
    decreases parts.len(),
{
    if parts.len() == 0 {
        Seq::empty()
    } else if parts.len() == 1 {
        parts[0]
    } else {
        join_text(parts.drop_last(), sep) + sep + parts.last()
    }
}

/// `name=value` for each parameter, in stored order.
pub open spec fn param_texts(ps: Seq<(String, String)>) -> Seq<Seq<char>> {
    ps.map_values(|p: (String, String)| p.0@ + seq!['='] + p.1@)
}

/// The line describing one entry: indentation by depth, the depth in
/// brackets, the route's pattern, and its parameters if it has any.
pub open spec fn entry_line(e: MatchEntry) -> Seq<char> {
    let ps = e.params.pairs();
    indent(e.depth as nat) + seq!['['] + decimal(e.depth as nat) + "] Route(\""@
        + e.route.config.path@ + "\")"@ + if ps.len() == 0 {
        Seq::empty()
    } else {
        " params={"@ + join_text(param_texts(ps), ", "@) + seq!['}']
    }
}

/// The text of a match stack: a header line, then one line per entry.
pub open spec fn stack_text(entries: Seq<MatchEntry>) -> Seq<char> {
    if entries.len() == 0 {
        "MatchStack: (empty)"@
    } else {
        join_text(seq!["MatchStack:"@] + entries.map_values(|e: MatchEntry| entry_line(e)), seq!['\n'])
    }
}

fn push_indent(out: &mut Vec<char>, n: usize)
    ensures
        final(out)@ == old(out)@ + indent(n as nat),
{
    let mut i: usize = 0;
    while i < n
        invariant
            i <= n,
            out@ == old(out)@ + indent(i as nat),
        decreases n - i,
    {
        out.push(' ');
        out.push(' ');
        i = i + 1;
    }
}

fn push_entry_line(out: &mut Vec<char>, e: &MatchEntry)
    ensures
        final(out)@ == old(out)@ + entry_line(*e),
{
    let ghost start = out@;
    push_indent(out, e.depth);
    out.push('[');
    push_decimal(out, e.depth);
    append_chars(out, &chars_of("] Route(\""));
    append_chars(out, &chars_of(e.route.config.path.as_str()));
    append_chars(out, &chars_of("\")"));
    let ps = e.params.all();
    let ghost head = out@;
    if ps.len() > 0 {
        append_chars(out, &chars_of(" params={"));
        let ghost texts = param_texts(ps@);
        let ghost base = out@;
        let mut i: usize = 0;
        while i < ps.len()
            invariant
                i <= ps@.len(),
                ps@.len() > 0,
                texts == param_texts(ps@),
                out@ == base + join_text(texts.take(i as int), ", "@),
            decreases ps@.len() - i,
        {
            assert(texts.take(i + 1).drop_last() == texts.take(i as int));
            if i > 0 {
                append_chars(out, &chars_of(", "));
            }
            append_chars(out, &chars_of(ps[i].0.as_str()));
            out.push('=');
            append_chars(out, &chars_of(ps[i].1.as_str()));
            i = i + 1;
        }
        assert(texts.take(ps@.len() as int) == texts);
        out.push('}');
    }
    assert(out@ =~= start + entry_line(*e));
}

/// The full resolved route chain for the current path.
///
/// Each outlet reads its entry by depth index.
#[derive(Debug)]
pub struct MatchStack {
    entries: Vec<MatchEntry>,
}

impl View for MatchStack {
    type V = Seq<EntrySpec>;

    closed spec fn view(&self) -> Seq<EntrySpec> {
        entry_specs(self.entries@)
    }
}

impl Clone for MatchStack {
    fn clone(&self) -> (r: Self)
        ensures
            r@ == self@,
    {
        let mut out: Vec<MatchEntry> = Vec::new();
        let mut i: usize = 0;
        while i < self.entries.len()
            invariant
                i <= self.entries@.len(),
                entry_specs(out@) == entry_specs(self.entries@.take(i as int)),
            decreases self.entries@.len() - i,
        {
            let e = self.entries[i].clone();
            let ghost old_out = out@;
            out.push(e);
            assert(self.entries@.take(i + 1) == self.entries@.take(i as int).push(self.entries@[i as int]));
            assert(entry_specs(out@) =~= entry_specs(old_out).push(e.spec()));
            assert(entry_specs(self.entries@.take(i + 1)) =~= entry_specs(self.entries@.take(i as int)).push(self.entries@[i as int].spec()));
            i = i + 1;
        }
        assert(self.entries@.take(self.entries@.len() as int) == self.entries@);
        MatchStack { entries: out }
    }
}

impl Default for MatchStack {
    fn default() -> (r: Self)
        ensures
            r@ == Seq::<EntrySpec>::empty(),
    {
        MatchStack::new()
    }
}

impl MatchStack {
    /// Create an empty match stack.
    pub fn new() -> (r: Self)
        ensures
            r@ == Seq::<EntrySpec>::empty(),
    {
        let r = MatchStack { entries: Vec::new() };
        assert(r@ =~= Seq::<EntrySpec>::empty());
        r
    }

    /// The entry at a specific depth.
    pub fn at_depth(&self, depth: usize) -> (r: Option<&MatchEntry>)
        ensures
            depth < self@.len() ==> r is Some && r->0.spec() == self@[depth as int],
            depth >= self@.len() ==> r is None,
    {
        if depth < self.entries.len() {
            Some(&self.entries[depth])
        } else {
            None
        }
    }

    /// The root (depth 0) entry.
    pub fn root(&self) -> (r: Option<&MatchEntry>)
        ensures
            self@.len() > 0 ==> r is Some && r->0.spec() == self@[0],
            self@.len() == 0 ==> r is None,
    {
        self.at_depth(0)
    }

    /// The leaf (deepest) entry.
    pub fn leaf(&self) -> (r: Option<&MatchEntry>)
        ensures
            self@.len() > 0 ==> r is Some && r->0.spec() == self@.last(),
            self@.len() == 0 ==> r is None,
    {
        if self.entries.len() > 0 {
            Some(&self.entries[self.entries.len() - 1])
        } else {
            None
        }
    }

    /// Total number of matched levels.
    pub fn len(&self) -> (r: usize)
        ensures
            r == self@.len(),
    {
        self.entries.len()
    }

    /// Whether no route matched.
    pub fn is_empty(&self) -> (r: bool)
        ensures
            r == (self@.len() == 0),
    {
        self.entries.len() == 0
    }

    /// Maximum depth (0-indexed), or `None` when empty.
    pub fn max_depth(&self) -> (r: Option<usize>)
        ensures
            self@.len() == 0 ==> r is None,
            self@.len() > 0 ==> r == Some((self@.len() - 1) as usize),
    {
        if self.entries.len() == 0 {
            None
        } else {
            Some(self.entries.len() - 1)
        }
    }

    /// All entries, root first.
    pub fn entries(&self) -> (r: &[MatchEntry])
        ensures
            r@ == self.entry_list(),
            entry_specs(r@) == self@,
    {
        self.entries.as_slice()
    }

    /// The entries, from the top level down.
    pub closed spec fn entry_list(&self) -> Seq<MatchEntry> {
        self.entries@
    }

    /// A description of the stack, one line per entry.
    pub fn debug_string(&self) -> (r: String)
        ensures
            r@ == stack_text(self.entry_list()),
    {
        if self.entries.len() == 0 {
            return "MatchStack: (empty)".to_owned();
        }
        let ghost lines = seq!["MatchStack:"@] + self.entries@.map_values(|e: MatchEntry| entry_line(e));
        let mut out: Vec<char> = Vec::new();
        append_chars(&mut out, &chars_of("MatchStack:"));
        assert(lines.take(1) == seq!["MatchStack:"@]);
        let mut i: usize = 0;
        while i < self.entries.len()
            invariant
                i <= self.entries@.len(),
                lines == seq!["MatchStack:"@] + self.entries@.map_values(|e: MatchEntry| entry_line(e)),
                out@ == join_text(lines.take(i + 1), seq!['\n']),
            decreases self.entries@.len() - i,
        {
            assert(lines.take(i + 2).drop_last() == lines.take(i + 1));
            assert(lines[i + 1] == entry_line(self.entries@[i as int]));
            out.push('\n');
            push_entry_line(&mut out, &self.entries[i]);
            i = i + 1;
        }
        assert(lines.take(self.entries@.len() as int + 1) == lines);
        string_from_chars(out.as_slice())
    }

    /// The accumulated params at the deepest level (empty when no route matched).
    pub fn params(&self) -> (r: RouteParams)
        ensures
            self@.len() > 0 ==> r@ == self@.last().params,
            self@.len() == 0 ==> r@ == Map::<Seq<char>, Seq<char>>::empty(),
    {
        match self.leaf() {
            Some(e) => e.params.clone(),
            None => RouteParams::new(),
        }
    }

    /// Whether a specific depth has an entry.
    pub fn has_depth(&self, depth: usize) -> (r: bool)
        ensures
            r == (depth < self@.len()),
    {
        depth < self.entries.len()
    }
}

/// Resolve the full match stack for a given path against the route tree.
///
/// The path is split into its non-empty segments; the first top-level route
/// that leads to a complete match (see [`resolve_from`]) wins, and the stack
/// holds one entry per nesting level, root first.
pub fn resolve_match_stack(routes: &[Arc<Route>], path: &str) -> (r: MatchStack)
    ensures
        r@ == spec_resolve(routes@, path@),
{
    let chars = chars_of(path);
    let segs = split_chars(&chars);
    let empty = RouteParams::new();
    let mut entries: Vec<MatchEntry> = Vec::new();
    let ok = resolve_recursive(routes, &segs, 0, 0, &empty, &mut entries);
    assert(views(segs@).skip(0) == split_segments(path@));
    assert(entry_specs(Seq::<MatchEntry>::empty()) =~= Seq::<EntrySpec>::empty());
    let r = MatchStack { entries };
    proof {
        if ok {
            assert(r@ =~= spec_resolve(routes@, path@));
        } else {
            assert(r@ =~= spec_resolve(routes@, path@));
        }
    }
    r
}


/// Number of path segments that the entries `0..=up_to` consume, saturating
/// at `usize::MAX`.
pub open spec fn consumed_total(s: Seq<EntrySpec>, n: int) -> int
    decreases n,
{
    if n <= 0 || s.len() == 0 {
        0
    } else if n > s.len() {
        consumed_total(s, s.len() as int)
    } else {
        consumed_total(s, n - 1) + pattern_segs(s[n - 1].route).len()
    }
}

/// Count how many path segments the match stack consumed up to a given depth
/// (saturating at `usize::MAX`).
fn count_consumed_segments(stack: &MatchStack, up_to_depth: usize) -> (r: usize)
    ensures
        r == (if consumed_total(stack@, up_to_depth + 1) <= usize::MAX {
            consumed_total(stack@, up_to_depth + 1)
        } else {
            usize::MAX as int
        }),
{
    let n = stack.entries.len();
    let limit: usize = if up_to_depth < n { up_to_depth + 1 } else { n };
    proof {
        if up_to_depth + 1 > n {
            assert(consumed_total(stack@, up_to_depth + 1) == consumed_total(stack@, n as int));
        }
    }
    let mut count: usize = 0;
    let mut saturated = false;
    let mut i: usize = 0;
    while i < limit
        invariant
            limit <= n,
            n == stack@.len(),
            i <= limit,
            saturated ==> consumed_total(stack@, i as int) > usize::MAX && count == usize::MAX,
            !saturated ==> count == consumed_total(stack@, i as int),
        decreases limit - i,
    {
        let segs = pattern_segments_of(&stack.entries[i].route);
        assert(stack@[i as int].route == stack.entries@[i as int].route);
        if saturated || segs.len() > usize::MAX - count {
            saturated = true;
            count = usize::MAX;
        } else {
            count = count + segs.len();
        }
        i = i + 1;
    }
    count
}

/// Choice among the children of a named outlet: the first child with an
/// empty pattern, or (when a segment remains) the first child whose pattern
/// starts with `:` (binding the remaining segment) or equals the remaining
/// segment.
pub open spec fn named_pick(
    children: Seq<Arc<Route>>,
    j: int,
    remaining: Seq<Seq<char>>,
    params: Map<Seq<char>, Seq<char>>,
) -> Option<(Arc<Route>, Map<Seq<char>, Seq<char>>)>
    decreases children.len() - j,
{
    if j < 0 || j >= children.len() {
        None
    } else {
        let c = children[j];
        let rs = route_segs(c);
        if rs.len() == 0 {
            Some((c, params))
        } else if remaining.len() == 0 {
            named_pick(children, j + 1, remaining, params)
        } else if is_param_seg(rs[0]) {
            Some((c, params.insert(trim_leading(trim_both(c.config.path@, '/'), ':'), remaining[0])))
        } else if rs == seq![remaining[0]] {
            Some((c, params))
        } else {
            named_pick(children, j + 1, remaining, params)
        }
    }
}

/// The route a named outlet at `outlet_depth` renders for `path`: the parent
/// is the entry at `outlet_depth - 1`, its named children for `name` are
/// searched (see [`named_pick`]) against the path segments left after the
/// segments that the entries up to the parent consumed.
pub open spec fn spec_named_outlet(
    stack: Seq<EntrySpec>,
    outlet_depth: int,
    name: Seq<char>,
    path: Seq<char>,
) -> Option<(Arc<Route>, Map<Seq<char>, Seq<char>>)> {
    if outlet_depth < 1 || outlet_depth - 1 >= stack.len() {
        None
    } else {
        let parent = stack[outlet_depth - 1];
        match named_lookup(parent.route.named_children@, name) {
            None => None,
            Some(children) => if children@.len() == 0 {
                None
            } else {
                let all = split_segments(path);
                let consumed = consumed_total(stack, outlet_depth);
                let rem = if consumed < all.len() {
                    all.skip(consumed)
                } else {
                    Seq::empty()
                };
                named_pick(children@, 0, rem, parent.params)
            },
        }
    }
}

proof fn lemma_named_pick_reaches(
    children: Seq<Arc<Route>>,
    k: int,
    j: int,
    remaining: Seq<Seq<char>>,
    params: Map<Seq<char>, Seq<char>>,
)
    requires
        0 <= k <= j < children.len(),
        remaining.len() > 0,
        route_segs(children[j]) == seq![remaining[0]],
        forall|m: int|
            #![trigger children[m]]
            0 <= m < j ==> route_segs(children[m]).len() > 0 && !is_param_seg(route_segs(children[m])[0])
                && route_segs(children[m]) != seq![remaining[0]],
    ensures
        named_pick(children, k, remaining, params) matches Some((c, p)) && c == children[j]
            && (!is_param_seg(remaining[0]) ==> p == params),
    decreases j - k,
{
    if k < j {
        assert(route_segs(children[k]).len() > 0);
        lemma_named_pick_reaches(children, k + 1, j, remaining, params);
    } else {
        assert(route_segs(children[j])[0] == remaining[0]);
    }
}

/// A named outlet at depth `d` looks at the path segment right after the
/// segments consumed by the stack entries `0..d` (its parent included) and
/// renders the named child whose pattern is exactly that segment, unless an
/// earlier named child takes precedence (an empty pattern, a `:param`
/// pattern, or the same segment).
pub proof fn lemma_named_outlet_next_segment(
    stack: Seq<EntrySpec>,
    d: int,
    name: Seq<char>,
    path: Seq<char>,
    children: Vec<Arc<Route>>,
    j: int,
)
    requires
        1 <= d <= stack.len(),
        named_lookup(stack[d - 1].route.named_children@, name) == Some(children),
        0 <= consumed_total(stack, d) < split_segments(path).len(),
        0 <= j < children@.len(),
        route_segs(children@[j]) == seq![split_segments(path)[consumed_total(stack, d)]],
        forall|m: int|
            #![trigger children@[m]]
            0 <= m < j ==> route_segs(children@[m]).len() > 0 && !is_param_seg(
                route_segs(children@[m])[0],
            ) && route_segs(children@[m]) != route_segs(children@[j]),
    ensures
        spec_named_outlet(stack, d, name, path) matches Some((c, p)) && c == children@[j] && (
        !is_param_seg(split_segments(path)[consumed_total(stack, d)]) ==> p == stack[d - 1].params),
{
    let all = split_segments(path);
    let consumed = consumed_total(stack, d);
    let rem = all.skip(consumed);
    assert(rem[0] == all[consumed]);
    lemma_named_pick_reaches(children@, 0, j, rem, stack[d - 1].params);
}

/// Resolve a named outlet at a given depth (see [`spec_named_outlet`]).
pub fn resolve_named_outlet(
    match_stack: &MatchStack,
    outlet_depth: usize,
    outlet_name: &str,
    current_path: &str,
) -> (r: Option<(Arc<Route>, RouteParams)>)
    ensures
        match spec_named_outlet(match_stack@, outlet_depth as int, outlet_name@, current_path@) {
            Some((route, params)) => match r {
                Some(pair) => pair.0 == route && pair.1@ == params,
                None => false,
            },
            None => r is None,
        },
{
    if outlet_depth == 0 {
        return None;
    }
    let parent_depth = outlet_depth - 1;
    let parent_entry = match match_stack.at_depth(parent_depth) {
        Some(e) => e,
        None => return None,
    };
    let named_children = match parent_entry.route.get_named_children(outlet_name) {
        Some(c) => c,
        None => return None,
    };
    if named_children.len() == 0 {
        return None;
    }
    let chars = chars_of(current_path);
    let all = split_chars(&chars);
    let consumed = count_consumed_segments(match_stack, parent_depth);
    let start = if consumed < all.len() { consumed } else { all.len() };
    let ghost rem = if consumed_total(match_stack@, outlet_depth as int) < views(all@).len() {
        views(all@).skip(consumed_total(match_stack@, outlet_depth as int))
    } else {
        Seq::empty()
    };
    assert(views(all@).skip(start as int) =~= rem);
    let params = &parent_entry.params;
    assert(parent_entry.spec() == match_stack@[parent_depth as int]);
    assert(consumed == (if consumed_total(match_stack@, outlet_depth as int) <= usize::MAX {
        consumed_total(match_stack@, outlet_depth as int)
    } else {
        usize::MAX as int
    }));
    assert(split_segments(current_path@) == views(all@));
    assert(spec_named_outlet(match_stack@, outlet_depth as int, outlet_name@, current_path@)
        == named_pick(named_children@, 0, rem, params@));
    let mut j: usize = 0;
    while j < named_children.len()
        invariant
            j <= named_children@.len(),
            start <= all@.len(),
            rem == views(all@).skip(start as int),
            spec_named_outlet(match_stack@, outlet_depth as int, outlet_name@, current_path@)
                == named_pick(named_children@, 0, rem, params@),
            named_pick(named_children@, 0, rem, params@) == named_pick(
                named_children@,
                j as int,
                rem,
                params@,
            ),
        decreases named_children@.len() - j,
    {
        let child = &named_children[j];
        let rs = segments_of_route(child);
        assert(views(rs@).len() == rs@.len());
        if rs.len() == 0 {
            return Some((child.clone(), params.clone()));
        }
        if start < all.len() {
            assert(rem[0] == all@[start as int]@);
            assert(views(rs@)[0] == rs@[0]@);
            if seg_is_param(&rs[0]) {
                let joined = trim_both_chars(&chars_of(child.config.path.as_str()), '/');
                let lead = count_leading(&joined, ':');
                proof {
                    crate::text::lemma_leading_count_bounded(joined@, ':');
                }
                let name = sub_chars(&joined, lead, joined.len());
                let mut child_params = params.clone();
                child_params.insert(
                    string_from_chars(name.as_slice()),
                    string_from_chars(all[start].as_slice()),
                );
                return Some((child.clone(), child_params));
            }
            if rs.len() == 1 && chars_eq(&rs[0], &all[start]) {
                assert(views(rs@) =~= seq![rem[0]]);
                return Some((child.clone(), params.clone()));
            }
            assert(views(rs@) != seq![rem[0]]) by {
                if views(rs@) == seq![rem[0]] {
                    assert(views(rs@)[0] == rem[0]);
                }
            }
        }
        j = j + 1;
    }
    None
}

/// Outlet depth tracking while rendering nested outlets: the depth of the
/// outlet rendered last (the parent of the next one), or none before the
/// first outlet of a render pass.
#[derive(Debug)]
pub struct OutletDepth {
    parent: Option<usize>,
}

impl View for OutletDepth {
    type V = Option<nat>;

    closed spec fn view(&self) -> Option<nat> {
        match self.parent {
            Some(d) => Some(d as nat),
            None => None,
        }
    }
}

/// The depth of the next outlet: 0 without a parent, else one below it.
pub open spec fn next_depth(parent: Option<nat>) -> nat {
    match parent {
        Some(d) => d + 1,
        None => 0,
    }
}

impl OutletDepth {
    /// Tracking at the start of a render pass: no parent yet.
    pub fn new() -> (r: Self)
        ensures
            r@ is None,
    {
        OutletDepth { parent: None }
    }
}

/// Start a render pass: the next outlet is the root (depth 0).
pub fn reset_outlet_depth(tracker: &mut OutletDepth)
    ensures
        final(tracker)@ is None,
{
    tracker.parent = None;
}

/// Enter an outlet: it renders at the depth below the current parent (0
/// without one) and becomes the parent of the outlets inside it.
pub fn enter_outlet(tracker: &mut OutletDepth) -> (r: usize)
    requires
        next_depth(old(tracker)@) <= usize::MAX,
    ensures
        r == next_depth(old(tracker)@),
        final(tracker)@ == Some(r as nat),
{
    let d = match tracker.parent {
        Some(p) => p + 1,
        None => 0,
    };
    tracker.parent = Some(d);
    d
}

/// Claim the depth below the current outlet depth (see
/// [`current_outlet_depth`]): after a reset the first claim gives 1 (the
/// top-level view renders depth 0 itself), and each claim moves the current
/// depth on to the depth it returns.
pub fn claim_outlet_depth(tracker: &mut OutletDepth) -> (r: usize)
    requires
        next_depth(old(tracker)@) < usize::MAX,
    ensures
        r == next_depth(old(tracker)@) + 1,
        final(tracker)@ == Some(next_depth(old(tracker)@)),
        next_depth(final(tracker)@) == r,
{
    let n = match tracker.parent {
        Some(p) => p + 1,
        None => 0,
    };
    tracker.parent = Some(n);
    n + 1
}

/// Make the outlet at `depth` the parent of the next one (an outlet whose
/// depth is already known re-enters it this way).
pub fn set_parent_depth(tracker: &mut OutletDepth, depth: usize)
    ensures
        final(tracker)@ == Some(depth as nat),
{
    tracker.parent = Some(depth);
}

/// Set the current outlet depth explicitly: afterwards
/// [`current_outlet_depth`] reads `depth` (no parent for depth 0, else the
/// outlet one above it is the parent).
pub fn set_outlet_depth(tracker: &mut OutletDepth, depth: usize)
    ensures
        final(tracker)@ == (if depth == 0 {
            None::<nat>
        } else {
            Some((depth - 1) as nat)
        }),
        next_depth(final(tracker)@) == depth,
{
    if depth == 0 {
        tracker.parent = None;
    } else {
        tracker.parent = Some(depth - 1);
    }
}

/// The depth of the outlet rendered last, if any.
pub fn current_parent_depth(tracker: &OutletDepth) -> (r: Option<usize>)
    ensures
        match r {
            Some(d) => tracker@ == Some(d as nat),
            None => tracker@ is None,
        },
{
    tracker.parent
}

/// The current outlet depth: the depth the next outlet would render at
/// (0 after a reset), read without changing anything.
pub fn current_outlet_depth(tracker: &OutletDepth) -> (r: usize)
    requires
        next_depth(tracker@) <= usize::MAX,
    ensures
        r == next_depth(tracker@),
{
    match tracker.parent {
        Some(p) => p + 1,
        None => 0,
    }
}


/// The depth a default outlet renders at: an outlet that already knows its
/// depth keeps it and becomes the parent again; a new outlet enters below
/// the current parent.
pub fn render_depth(tracker: &mut OutletDepth, known: Option<usize>) -> (r: usize)
    requires
        known is None ==> next_depth(old(tracker)@) <= usize::MAX,
    ensures
        match known {
            Some(d) => r == d,
            None => r == next_depth(old(tracker)@),
        },
        final(tracker)@ == Some(r as nat),
{
    match known {
        Some(d) => {
            set_parent_depth(tracker, d);
            d
        },
        None => enter_outlet(tracker),
    }
}

} // verus!
