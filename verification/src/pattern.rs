//! Matching of route pattern segments against path segments, and the
//! parameter names that `:param` segments bind.

use vstd::prelude::*;
use crate::params::RouteParams;
use crate::text::{
    before_first, count_leading, find_first, sub_chars, string_from_chars, trim_leading,
};

verus! {

/// The character views of a list of character vectors.
pub open spec fn views(v: Seq<Vec<char>>) -> Seq<Seq<char>> {
    v.map_values(|x: Vec<char>| x@)
}

/// A pattern segment that binds a parameter: it starts with `:`.
pub open spec fn is_param(seg: Seq<char>) -> bool {
    seg.len() > 0 && seg[0] == ':'
}

/// How a `:param` segment is turned into a parameter name.
#[derive(Clone, Copy, PartialEq, Eq)]
pub enum NameRule {
    /// Drop the one leading `:`.
    StripOne,
    /// Drop the one leading `:`, then cut a `<constraint>` suffix.
    StripOneCut,
    /// Drop all leading `:`, then cut a `<constraint>` suffix.
    TrimCut,
    /// Drop all leading `:`.
    Trim,
}

/// The parameter name that `seg` binds under `rule`.
pub open spec fn rule_name(rule: NameRule, seg: Seq<char>) -> Seq<char> {
    match rule {
        NameRule::StripOne => seg.drop_first(),
        NameRule::StripOneCut => before_first(seg.drop_first(), '<'),
        NameRule::TrimCut => before_first(trim_leading(seg, ':'), '<'),
        NameRule::Trim => trim_leading(seg, ':'),
    }
}

/// Every segment of `pat` is a parameter or equals the path segment at the
/// same place, and the path has at least as many segments as the pattern.
pub open spec fn segs_match(pat: Seq<Seq<char>>, segs: Seq<Seq<char>>) -> bool {
    &&& pat.len() <= segs.len()
    &&& forall|i: int| 0 <= i < pat.len() ==> is_param(#[trigger] pat[i]) || pat[i] == segs[i]
}

/// `m` extended with the parameters that `pat` binds against `segs`, left to
/// right (a later binding of a name wins).
pub open spec fn bind_params(
    rule: NameRule,
    m: Map<Seq<char>, Seq<char>>,
    pat: Seq<Seq<char>>,
    segs: Seq<Seq<char>>,
) -> Map<Seq<char>, Seq<char>>
    decreases pat.len(),
{
    if pat.len() == 0 {
        m
    } else {
        let m2 = bind_params(rule, m, pat.drop_last(), segs);
        if is_param(pat.last()) {
            m2.insert(rule_name(rule, pat.last()), segs[pat.len() - 1])
        } else {
            m2
        }
    }
}

/// The parameter name that `seg` binds under `rule`.
pub fn param_name(rule: NameRule, seg: &Vec<char>) -> (r: Vec<char>)
    requires
        rule is StripOne || rule is StripOneCut ==> is_param(seg@),
    ensures
        r@ == rule_name(rule, seg@),
{
    let start: usize = match rule {
        NameRule::StripOne | NameRule::StripOneCut => 1,
        NameRule::TrimCut | NameRule::Trim => count_leading(seg, ':'),
    };
    proof {
        if start as int > seg@.len() {
            crate::text::lemma_leading_count_bounded(seg@, ':');
        }
    }
    let rest = sub_chars(seg, start, seg.len());
    match rule {
        NameRule::StripOne | NameRule::Trim => rest,
        NameRule::StripOneCut | NameRule::TrimCut => {
            let cut = find_first(&rest, '<');
            proof {
                crate::text::lemma_first_pos_bounded(rest@, '<');
            }
            sub_chars(&rest, 0, cut)
        },
    }
}

/// Whether a segment starts with `:`.
pub fn seg_is_param(seg: &Vec<char>) -> (r: bool)
    ensures
        r == is_param(seg@),
{
    seg.len() > 0 && seg[0] == ':'
}

/// Match `pat` against the segments of `segs` from `off` on, adding the
/// bound parameters to `params`. On a mismatch `false` is returned and
/// `params` may hold part of the bindings.
pub fn match_segments(
    rule: NameRule,
    pat: &Vec<Vec<char>>,
    segs: &Vec<Vec<char>>,
    off: usize,
    params: &mut RouteParams,
) -> (r: bool)
    requires
        off <= segs@.len(),
    ensures
        r == segs_match(views(pat@), views(segs@).skip(off as int)),
        r ==> final(params)@ == bind_params(
            rule,
            old(params)@,
            views(pat@),
            views(segs@).skip(off as int),
        ),
{
    let ghost p = views(pat@);
    let ghost s = views(segs@).skip(off as int);
    let n = segs.len();
    if pat.len() > n - off {
        return false;
    }
    let mut i: usize = 0;
    while i < pat.len()
        invariant
            n == segs@.len(),
            pat@.len() + off <= n,
            p == views(pat@),
            s == views(segs@).skip(off as int),
            i <= pat@.len(),
            forall|j: int| 0 <= j < i ==> is_param(#[trigger] p[j]) || p[j] == s[j],
            params@ == bind_params(rule, old(params)@, p.take(i as int), s),
        decreases pat.len() - i,
    {
        assert(p.take(i + 1).drop_last() == p.take(i as int));
        assert(p.take(i + 1).last() == p[i as int]);
        assert(i < pat@.len());
        assert(off + i < segs@.len());
        let k: usize = off + i;
        assert(s[i as int] == segs@[k as int]@);
        if seg_is_param(&pat[i]) {
            let name = param_name(rule, &pat[i]);
            let key = string_from_chars(name.as_slice());
            let value = string_from_chars(segs[k].as_slice());
            params.insert(key, value);
        } else {
            if !crate::text::chars_eq(&pat[i], &segs[k]) {
                return false;
            }
        }
        i = i + 1;
    }
    assert(p.take(pat@.len() as int) == p);
    true
}

} // verus!
