//! Path normalization and resolution of the child route that an outlet of a
//! parent route renders.

use vstd::prelude::*;
use std::sync::Arc;
use crate::params::RouteParams;
use crate::pattern::{param_name, rule_name, views, NameRule};
use crate::route::{named_lookup, Route};
use crate::text::{
    chars_of, is_prefix, join_chars, join_slash, split_chars, split_segments, starts_with_chars,
    string_from_chars, sub_chars, trim_leading, trim_leading_chars,
};

verus! {

/// Maximum recursion depth for nested child resolution.
pub const MAX_RECURSION_DEPTH: usize = 10;

/// The normal form of a path: a leading `/` followed by its non-empty
/// segments joined with single slashes (`/` for the root).
pub open spec fn spec_normalize(p: Seq<char>) -> Seq<char> {
    seq!['/'] + join_slash(split_segments(p))
}

/// Normalizing keeps the segments of a path: every spelling of a path
/// (with or without leading, trailing or repeated slashes) has the same
/// segments as its normal form.
pub proof fn lemma_normalize_keeps_segments(p: Seq<char>)
    ensures
        split_segments(spec_normalize(p)) == split_segments(p),
{
    crate::text::lemma_split_segments_plain(p);
    crate::text::lemma_split_segments_of_joined(split_segments(p));
}

/// Normalizing a normalized path changes nothing.
pub proof fn lemma_normalize_idempotent(p: Seq<char>)
    ensures
        spec_normalize(spec_normalize(p)) == spec_normalize(p),
{
    lemma_normalize_keeps_segments(p);
}

/// Two paths have the same normal form exactly when they have the same
/// segments; in particular `""`, `"/"` and `"//"` all normalize to `"/"`.
pub proof fn lemma_normalize_same_segments(p: Seq<char>, q: Seq<char>)
    ensures
        (spec_normalize(p) == spec_normalize(q)) == (split_segments(p) == split_segments(q)),
{
    lemma_normalize_keeps_segments(p);
    lemma_normalize_keeps_segments(q);
}

/// A normal form starts with `/` and, unless it is the root `/`, does not
/// end with `/`.
pub proof fn lemma_normalize_shape(p: Seq<char>)
    ensures
        spec_normalize(p).len() >= 1,
        spec_normalize(p)[0] == '/',
        spec_normalize(p).len() > 1 ==> spec_normalize(p).last() != '/',
{
    let segs = split_segments(p);
    crate::text::lemma_split_segments_plain(p);
    if segs.len() > 0 {
        lemma_join_slash_last(segs);
    }
}

proof fn lemma_join_slash_last(segs: Seq<Seq<char>>)
    requires
        segs.len() > 0,
        forall|i: int| 0 <= i < segs.len() ==> crate::text::plain_segment(#[trigger] segs[i]),
    ensures
        join_slash(segs).len() > 0,
        join_slash(segs).last() == segs.last().last(),
        segs.last().last() != '/',
{
    assert(crate::text::plain_segment(segs[segs.len() - 1]));
    let l = segs.last();
    assert(l[l.len() - 1] == l.last());
    if segs.len() > 1 {
        assert(join_slash(segs) == join_slash(segs.drop_last()) + seq!['/'] + l);
    }
}

/// Normalize a path for consistent comparison.
///
/// The result has a leading slash, no trailing slash (except the root `/`),
/// and no repeated slashes; `""`, `"/"` and `"//"` all become `"/"`.
pub fn normalize_path(path: &str) -> (r: String)
    ensures
        r@ == spec_normalize(path@),
{
    let chars = chars_of(path);
    let segs = split_chars(&chars);
    let joined = join_chars(&segs);
    let mut out: Vec<char> = Vec::new();
    out.push('/');
    crate::text::append_chars(&mut out, &joined);
    string_from_chars(out.as_slice())
}

/// The parameter name of a route segment: leading `:` removed and any
/// `<constraint>` suffix cut off (`:id<i32>` gives `id`).
pub fn extract_param_name(segment: &str) -> (r: String)
    ensures
        r@ == rule_name(NameRule::TrimCut, segment@),
{
    let chars = chars_of(segment);
    let name = param_name(NameRule::TrimCut, &chars);
    string_from_chars(name.as_slice())
}

/// The full path of a child route: the normalized parent and child paths
/// joined (an empty child path denotes the parent itself).
pub open spec fn spec_build_child_path(parent: Seq<char>, child: Seq<char>) -> Seq<char> {
    if child.len() == 0 {
        spec_normalize(parent)
    } else if split_segments(parent).len() == 0 {
        spec_normalize(child)
    } else {
        seq!['/'] + join_slash(split_segments(parent)) + seq!['/'] + join_slash(
            split_segments(child),
        )
    }
}

/// Building a child's full path appends the child's segments to the
/// parent's: for a child path with at least one segment, the segments of the
/// built path are the parent's segments followed by the child's.
pub proof fn lemma_build_child_segments(parent: Seq<char>, child: Seq<char>)
    requires
        split_segments(child).len() > 0,
    ensures
        split_segments(spec_build_child_path(parent, child)) == split_segments(parent)
            + split_segments(child),
{
    let sp = split_segments(parent);
    let sc = split_segments(child);
    let e = Seq::<char>::empty();
    assert(crate::text::split_acc(e) == (Seq::<Seq<char>>::empty(), e));
    assert(child.len() > 0) by {
        if child.len() == 0 {
            assert(child =~= e);
        }
    }
    if sp.len() == 0 {
        lemma_normalize_keeps_segments(child);
        assert(sp + sc =~= sc);
    } else {
        crate::text::lemma_split_segments_plain(parent);
        crate::text::lemma_split_segments_plain(child);
        crate::text::lemma_split_segments_of_joined(sp);
        crate::text::lemma_split_segments_of_joined(sc);
        let a = seq!['/'] + join_slash(sp);
        let b = join_slash(sc);
        crate::text::lemma_split_slash_concat(a, b);
        crate::text::lemma_split_slash_concat(e, b);
        assert(e + seq!['/'] + b =~= seq!['/'] + b);
        assert(split_segments(e) + split_segments(b) =~= split_segments(b));
        assert(spec_build_child_path(parent, child) =~= a + seq!['/'] + b);
    }
}

proof fn lemma_join_slash_concat(a: Seq<Seq<char>>, b: Seq<Seq<char>>)
    requires
        a.len() > 0,
        b.len() > 0,
    ensures
        join_slash(a + b) == join_slash(a) + seq!['/'] + join_slash(b),
    decreases b.len(),
{
    let ab = a + b;
    assert(ab.drop_last() =~= a + b.drop_last());
    assert(ab.last() == b.last());
    if b.len() == 1 {
        assert(b.drop_last() =~= Seq::<Seq<char>>::empty());
        assert(a + Seq::<Seq<char>>::empty() =~= a);
        assert(join_slash(b) == b[0]);
        assert(b[0] == b.last());
    } else {
        lemma_join_slash_concat(a, b.drop_last());
        assert(join_slash(b) == join_slash(b.drop_last()) + seq!['/'] + b.last());
        assert(join_slash(a) + seq!['/'] + join_slash(b.drop_last()) + seq!['/'] + b.last()
            =~= join_slash(a) + seq!['/'] + (join_slash(b.drop_last()) + seq!['/'] + b.last()));
    }
}

/// For a child path with at least one segment, the built path is the normal
/// form (see [`normalize_path`]) of the parent and child paths joined by a
/// slash.
pub proof fn lemma_build_child_normal_form(parent: Seq<char>, child: Seq<char>)
    requires
        split_segments(child).len() > 0,
    ensures
        spec_build_child_path(parent, child) == spec_normalize(parent + seq!['/'] + child),
{
    let sp = split_segments(parent);
    let sc = split_segments(child);
    let e = Seq::<char>::empty();
    assert(crate::text::split_acc(e) == (Seq::<Seq<char>>::empty(), e));
    assert(child.len() > 0) by {
        if child.len() == 0 {
            assert(child =~= e);
        }
    }
    crate::text::lemma_split_slash_concat(parent, child);
    if sp.len() == 0 {
        assert(sp + sc =~= sc);
    } else {
        lemma_join_slash_concat(sp, sc);
        assert(seq!['/'] + join_slash(sp) + seq!['/'] + join_slash(sc) =~= seq!['/'] + (join_slash(
            sp,
        ) + seq!['/'] + join_slash(sc)));
    }
}

/// Build the full path for a child route (see [`spec_build_child_path`]).
pub fn build_child_path(parent_path: &str, child_path: &str) -> (r: String)
    ensures
        r@ == spec_build_child_path(parent_path@, child_path@),
{
    if child_path.unicode_len() == 0 {
        return normalize_path(parent_path);
    }
    let pchars = chars_of(parent_path);
    let psegs = split_chars(&pchars);
    if psegs.len() == 0 {
        return normalize_path(child_path);
    }
    let cchars = chars_of(child_path);
    let csegs = split_chars(&cchars);
    let mut out: Vec<char> = Vec::new();
    out.push('/');
    crate::text::append_chars(&mut out, &join_chars(&psegs));
    out.push('/');
    crate::text::append_chars(&mut out, &join_chars(&csegs));
    string_from_chars(out.as_slice())
}


/// The segments of a pattern joined back with single slashes.
pub open spec fn joined(p: Seq<char>) -> Seq<char> {
    join_slash(split_segments(p))
}

/// The index child among `children`: the first child whose normalized path
/// is empty, otherwise the first whose normalized path is `index`.
pub open spec fn spec_find_index(
    children: Seq<Arc<Route>>,
    params: Map<Seq<char>, Seq<char>>,
) -> Option<(Arc<Route>, Map<Seq<char>, Seq<char>>)> {
    let k = crate::resolve::first_empty_from(children, 0);
    if 0 <= k < children.len() {
        Some((children[k], params))
    } else {
        let k2 = crate::resolve::first_index_word_from(children, 0);
        if 0 <= k2 < children.len() {
            Some((children[k2], params))
        } else {
            None
        }
    }
}

/// The children an outlet of `parent` chooses from: the named outlet's
/// children when `outlet` names one (`None` when it is not defined),
/// otherwise the default children.
pub open spec fn outlet_children(parent: Arc<Route>, outlet: Option<Seq<char>>) -> Option<
    Seq<Arc<Route>>,
> {
    match outlet {
        Some(n) => match named_lookup(parent.named_children@, n) {
            Some(c) => Some(c@),
            None => None,
        },
        None => Some(parent.children@),
    }
}

/// The segments of the current path that lie below the parent: all of them
/// for a parent whose first segment starts with `:`; otherwise the parent's
/// segments must be the leading segments of the current path (whole
/// segments, so `/dash` is no prefix of `/dashboard`), and the rest remain.
pub open spec fn child_remaining(parent: Arc<Route>, cur: Seq<char>) -> Option<Seq<Seq<char>>> {
    let ps = split_segments(parent.config.path@);
    let cs = split_segments(cur);
    if ps.len() > 0 && ps[0].len() > 0 && ps[0][0] == ':' {
        Some(cs)
    } else if ps.len() <= cs.len() && cs.take(ps.len() as int) == ps {
        Some(cs.skip(ps.len() as int))
    } else {
        None
    }
}

/// Child resolution below `parent` for the path `cur` at recursion `depth`
/// (at most [`MAX_RECURSION_DEPTH`] levels).
///
/// With nothing remaining below the parent the index child is chosen.
/// Otherwise the children are tried in order against the first remaining
/// segment (see [`child_scan`]).
pub open spec fn child_resolve(
    parent: Arc<Route>,
    cur: Seq<char>,
    pp: Map<Seq<char>, Seq<char>>,
    outlet: Option<Seq<char>>,
    depth: int,
) -> Option<(Arc<Route>, Map<Seq<char>, Seq<char>>)>
    decreases MAX_RECURSION_DEPTH - depth, 1int, 0int,
{
    if depth >= MAX_RECURSION_DEPTH || depth < 0 {
        None
    } else {
        match outlet_children(parent, outlet) {
            None => None,
            Some(children) => if children.len() == 0 {
                None
            } else {
                match child_remaining(parent, cur) {
                    None => None,
                    Some(segs) => {
                        if segs.len() == 0 {
                            spec_find_index(children, pp)
                        } else {
                            child_scan(children, 0, segs, pp, outlet, depth)
                        }
                    },
                }
            },
        }
    }
}

/// Try `children[j..]` against the first of `segs`: a child matches when its
/// path (without leading slashes) equals the segment or starts with `:`
/// (binding the segment). With more segments left, the match must continue
/// below the child; otherwise the next child is tried.
pub open spec fn child_scan(
    children: Seq<Arc<Route>>,
    j: int,
    segs: Seq<Seq<char>>,
    pp: Map<Seq<char>, Seq<char>>,
    outlet: Option<Seq<char>>,
    depth: int,
) -> Option<(Arc<Route>, Map<Seq<char>, Seq<char>>)>
    decreases MAX_RECURSION_DEPTH - depth, 0int, children.len() - j,
{
    if depth >= MAX_RECURSION_DEPTH || depth < 0 || j < 0 || j >= children.len() || segs.len() == 0 {
        None
    } else {
        let child = children[j];
        let cp = trim_leading(child.config.path@, '/');
        let is_param = cp.len() > 0 && cp[0] == ':';
        if cp == segs[0] || is_param {
            let combined = if is_param {
                pp.insert(rule_name(NameRule::TrimCut, cp), segs[0])
            } else {
                pp
            };
            if segs.len() > 1 {
                let next_path = if is_param {
                    seq!['/'] + join_slash(segs.skip(1))
                } else {
                    seq!['/'] + join_slash(segs)
                };
                match child_resolve(child, next_path, combined, outlet, depth + 1) {
                    Some(found) => Some(found),
                    None => child_scan(children, j + 1, segs, pp, outlet, depth),
                }
            } else {
                Some((child, combined))
            }
        } else {
            child_scan(children, j + 1, segs, pp, outlet, depth)
        }
    }
}


/// The segments `v[from..]`, copied.
fn segs_from(v: &Vec<Vec<char>>, from: usize) -> (r: Vec<Vec<char>>)
    requires
        from <= v@.len(),
    ensures
        views(r@) == views(v@).skip(from as int),
{
    let mut r: Vec<Vec<char>> = Vec::new();
    let mut i = from;
    while i < v.len()
        invariant
            from <= i <= v@.len(),
            views(r@) == views(v@).subrange(from as int, i as int),
        decreases v.len() - i,
    {
        let c = sub_chars(&v[i], 0, v[i].len());
        assert(c@ == v@[i as int]@);
        let ghost old_r = r@;
        r.push(c);
        assert(views(r@) =~= views(old_r).push(c@));
        assert(views(v@).subrange(from as int, i + 1) =~= views(v@).subrange(from as int, i as int).push(v@[i as int]@));
        i = i + 1;
    }
    assert(views(v@).subrange(from as int, v@.len() as int) =~= views(v@).skip(from as int));
    r
}

/// Find the index child among `children` (see [`spec_find_index`]).
fn find_index_route(children: &Vec<Arc<Route>>, params: &RouteParams) -> (r: Option<
    (Arc<Route>, RouteParams),
>)
    ensures
        match spec_find_index(children@, params@) {
            Some((c, p)) => match r {
                Some(pair) => pair.0 == c && pair.1@ == p,
                None => false,
            },
            None => r is None,
        },
{
    let mut k: usize = 0;
    while k < children.len()
        invariant
            k <= children@.len(),
            crate::resolve::first_empty_from(children@, 0) == crate::resolve::first_empty_from(
                children@,
                k as int,
            ),
        decreases children@.len() - k,
    {
        let segs = crate::resolve::segments_of_route(&children[k]);
        if segs.len() == 0 {
            return Some((children[k].clone(), params.clone()));
        }
        k = k + 1;
    }
    let mut k2: usize = 0;
    while k2 < children.len()
        invariant
            k2 <= children@.len(),
            crate::resolve::first_empty_from(children@, 0) == -1,
            crate::resolve::first_index_word_from(children@, 0)
                == crate::resolve::first_index_word_from(children@, k2 as int),
        decreases children@.len() - k2,
    {
        let segs = crate::resolve::segments_of_route(&children[k2]);
        if crate::resolve::is_index_word(&segs) {
            return Some((children[k2].clone(), params.clone()));
        }
        k2 = k2 + 1;
    }
    None
}

fn remaining_below(parent: &Arc<Route>, cur: &Vec<char>) -> (r: Option<Vec<Vec<char>>>)
    ensures
        match child_remaining(*parent, cur@) {
            Some(rem) => r is Some && views(r->0@) == rem,
            None => r is None,
        },
{
    let pchars = chars_of(parent.config.path.as_str());
    let ps = split_chars(&pchars);
    let cs = split_chars(cur);
    assert(views(ps@) =~= ps@.map_values(|x: Vec<char>| x@));
    assert(views(cs@) =~= cs@.map_values(|x: Vec<char>| x@));
    let ghost psv = views(ps@);
    let ghost csv = views(cs@);
    assert(psv == split_segments(parent.config.path@));
    assert(csv == split_segments(cur@));
    if ps.len() > 0 && ps[0].len() > 0 && ps[0][0] == ':' {
        assert(psv[0] == ps@[0]@);
        assert(csv.skip(0) =~= csv);
        return Some(segs_from(&cs, 0));
    }
    assert(ps@.len() > 0 ==> psv[0] == ps@[0]@);
    if ps.len() > cs.len() {
        return None;
    }
    let mut i: usize = 0;
    while i < ps.len()
        invariant
            i <= ps@.len() <= cs@.len(),
            psv == views(ps@),
            csv == views(cs@),
            forall|k: int| 0 <= k < i ==> psv[k] == csv[k],
            !(psv.len() > 0 && psv[0].len() > 0 && psv[0][0] == ':'),
            psv == split_segments(parent.config.path@),
            csv == split_segments(cur@),
        decreases ps@.len() - i,
    {
        if !crate::text::chars_eq(&ps[i], &cs[i]) {
            assert(csv.take(psv.len() as int)[i as int] != psv[i as int]);
            return None;
        }
        i = i + 1;
    }
    assert(csv.take(psv.len() as int) =~= psv);
    Some(segs_from(&cs, ps.len()))
}

fn resolve_child_route_impl(
    parent_route: &Arc<Route>,
    current_path: &Vec<char>,
    parent_params: &RouteParams,
    outlet_name: Option<&str>,
    depth: usize,
) -> (r: Option<(Arc<Route>, RouteParams)>)
    requires
        depth <= MAX_RECURSION_DEPTH,
    ensures
        match child_resolve(
            *parent_route,
            current_path@,
            parent_params@,
            match outlet_name {
                Some(n) => Some(n@),
                None => None,
            },
            depth as int,
        ) {
            Some((c, p)) => match r {
                Some(pair) => pair.0 == c && pair.1@ == p,
                None => false,
            },
            None => r is None,
        },
    decreases MAX_RECURSION_DEPTH - depth,
{
    let ghost outlet = match outlet_name {
        Some(n) => Some(n@),
        None => None::<Seq<char>>,
    };
    if depth >= MAX_RECURSION_DEPTH {
        return None;
    }
    let children: &Vec<Arc<Route>> = match outlet_name {
        Some(name) => match parent_route.get_named_children(name) {
            Some(c) => c,
            None => return None,
        },
        None => &parent_route.children,
    };
    assert(outlet_children(*parent_route, outlet) == Some(children@));
    if children.len() == 0 {
        return None;
    }
    let segs = match remaining_below(parent_route, current_path) {
        Some(rem) => rem,
        None => return None,
    };
    if segs.len() == 0 {
        return find_index_route(children, parent_params);
    }
    let ghost sv = views(segs@);
    assert(child_resolve(*parent_route, current_path@, parent_params@, outlet, depth as int)
        == child_scan(children@, 0, sv, parent_params@, outlet, depth as int));
    let mut j: usize = 0;
    while j < children.len()
        invariant
            depth < MAX_RECURSION_DEPTH,
            j <= children@.len(),
            segs@.len() > 0,
            sv == views(segs@),
            outlet == match outlet_name {
                Some(n) => Some(n@),
                None => None::<Seq<char>>,
            },
            child_resolve(*parent_route, current_path@, parent_params@, outlet, depth as int)
                == child_scan(children@, j as int, sv, parent_params@, outlet, depth as int),
        decreases children@.len() - j,
    {
        let child = &children[j];
        let cpath = chars_of(child.config.path.as_str());
        let cp = trim_leading_chars(&cpath, '/');
        let is_param = cp.len() > 0 && cp[0] == ':';
        assert(sv[0] == segs@[0]@);
        if is_param || crate::text::chars_eq(&cp, &segs[0]) {
            let mut combined = parent_params.clone();
            if is_param {
                let name = param_name(NameRule::TrimCut, &cp);
                combined.insert(
                    string_from_chars(name.as_slice()),
                    string_from_chars(segs[0].as_slice()),
                );
            }
            if segs.len() > 1 {
                let rest = if is_param {
                    segs_from(&segs, 1)
                } else {
                    segs_from(&segs, 0)
                };
                let mut next_path: Vec<char> = Vec::new();
                next_path.push('/');
                crate::text::append_chars(&mut next_path, &join_chars(&rest));
                assert(sv.skip(0) == sv);
                match resolve_child_route_impl(child, &next_path, &combined, outlet_name, depth + 1) {
                    Some(found) => {
                        return Some(found);
                    },
                    None => {
                        j = j + 1;
                        continue ;
                    },
                }
            }
            return Some((child.clone(), combined));
        }
        j = j + 1;
    }
    None
}

/// Resolve the child route that an outlet of `parent_route` renders for
/// `current_path` (see [`child_resolve`]); the result carries the parent
/// parameters together with the parameters the children bind.
pub fn resolve_child_route(
    parent_route: &Arc<Route>,
    current_path: &str,
    parent_params: &RouteParams,
    outlet_name: Option<&str>,
) -> (r: Option<(Arc<Route>, RouteParams)>)
    ensures
        match child_resolve(
            *parent_route,
            current_path@,
            parent_params@,
            match outlet_name {
                Some(n) => Some(n@),
                None => None,
            },
            0,
        ) {
            Some((c, p)) => match r {
                Some(pair) => pair.0 == c && pair.1@ == p,
                None => false,
            },
            None => r is None,
        },
{
    let cur = chars_of(current_path);
    resolve_child_route_impl(parent_route, &cur, parent_params, outlet_name, 0)
}

} // verus!
