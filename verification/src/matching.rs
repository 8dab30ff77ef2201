//! Segment-based matching of a path against a single route pattern.

use vstd::prelude::*;
use std::sync::Arc;
use crate::params::RouteParams;
use crate::pattern::{bind_params, match_segments, segs_match, views, NameRule};
use crate::resolve::{route_segs, segments_of_route};
use crate::route::Route;
use crate::text::{chars_of, split_chars, split_segments, string_from_chars};

verus! {

/// Result of matching a path against a route.
#[derive(Debug)]
pub struct RouteMatch<'a> {
    /// The matched route
    pub route: &'a Arc<Route>,
    /// Extracted route parameters
    pub params: RouteParams,
    /// Remaining unmatched path segments (for nested resolution)
    pub remaining: Vec<String>,
}

/// The views of a list of strings.
pub open spec fn string_views(v: Seq<String>) -> Seq<Seq<char>> {
    v.map_values(|s: String| s@)
}

/// A path matches a route when the route's segments match the leading
/// segments of the path (`:name` binds the segment to `name`); the rest of
/// the path remains for nested resolution.
pub open spec fn spec_match_path(path: Seq<char>, route: Arc<Route>) -> Option<
    (Map<Seq<char>, Seq<char>>, Seq<Seq<char>>),
> {
    let ps = split_segments(path);
    let rs = route_segs(route);
    if segs_match(rs, ps) {
        Some((bind_params(NameRule::StripOne, Map::empty(), rs, ps), ps.skip(rs.len() as int)))
    } else {
        None
    }
}

fn strings_of(v: &Vec<Vec<char>>, from: usize) -> (r: Vec<String>)
    requires
        from <= v@.len(),
    ensures
        string_views(r@) == views(v@).skip(from as int),
{
    let mut r: Vec<String> = Vec::new();
    let mut i = from;
    while i < v.len()
        invariant
            from <= i <= v@.len(),
            string_views(r@) == views(v@).subrange(from as int, i as int),
        decreases v.len() - i,
    {
        let s = string_from_chars(v[i].as_slice());
        let ghost old_r = r@;
        r.push(s);
        assert(string_views(r@) =~= string_views(old_r).push(s@));
        assert(views(v@).subrange(from as int, i + 1) =~= views(v@).subrange(from as int, i as int).push(
            v@[i as int]@,
        ));
        i = i + 1;
    }
    assert(views(v@).subrange(from as int, v@.len() as int) =~= views(v@).skip(from as int));
    r
}

/// Match a path against a route pattern, extracting parameters and the
/// remaining segments (see [`spec_match_path`]).
pub fn match_path<'a>(path: &str, route: &'a Arc<Route>) -> (r: Option<RouteMatch<'a>>)
    ensures
        match spec_match_path(path@, *route) {
            Some((params, rest)) => match r {
                Some(m) => *m.route == *route && m.params@ == params && string_views(
                    m.remaining@,
                ) == rest,
                None => false,
            },
            None => r is None,
        },
{
    let chars = chars_of(path);
    let psegs = split_chars(&chars);
    let rsegs = segments_of_route(route);
    let mut params = RouteParams::new();
    if !match_segments(NameRule::StripOne, &rsegs, &psegs, 0, &mut params) {
        assert(views(psegs@).skip(0) == views(psegs@));
        return None;
    }
    assert(views(psegs@).skip(0) == views(psegs@));
    let remaining = strings_of(&psegs, rsegs.len());
    Some(RouteMatch { route, params, remaining })
}

/// Split a path into its non-empty segments.
pub fn split_path(path: &str) -> (r: Vec<String>)
    ensures
        string_views(r@) == split_segments(path@),
{
    let chars = chars_of(path);
    let segs = split_chars(&chars);
    let r = strings_of(&segs, 0);
    assert(views(segs@).skip(0) == views(segs@));
    r
}

/// The parameter name of a `:name` segment (`None` for other segments).
pub fn extract_param_name(segment: &str) -> (r: Option<&str>)
    ensures
        segment@.len() > 0 && segment@[0] == ':' ==> r is Some && r->0@ == segment@.drop_first(),
        !(segment@.len() > 0 && segment@[0] == ':') ==> r is None,
{
    let n = segment.unicode_len();
    if n > 0 && segment.get_char(0) == ':' {
        let name = segment.substring_char(1, n);
        assert(segment@.subrange(1, n as int) == segment@.drop_first());
        Some(name)
    } else {
        None
    }
}

/// Whether a route segment is a parameter (starts with `:`).
pub fn is_param_segment(segment: &str) -> (r: bool)
    ensures
        r == (segment@.len() > 0 && segment@[0] == ':'),
{
    segment.unicode_len() > 0 && segment.get_char(0) == ':'
}

/// Whether a route segment is a wildcard (starts with `*`).
pub fn is_wildcard_segment(segment: &str) -> (r: bool)
    ensures
        r == (segment@.len() > 0 && segment@[0] == '*'),
{
    segment.unicode_len() > 0 && segment.get_char(0) == '*'
}

} // verus!
