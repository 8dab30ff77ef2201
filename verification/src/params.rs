//! Route parameters extracted from dynamic path segments, and query
//! parameters parsed from the `?key=value&...` part of a URL.

use vstd::prelude::*;
use crate::text::{
    append_chars, chars_of, find_first, join_chars_with, join_with, split_all_chars, split_chars,
    split_segments, str_eq, string_from_chars, sub_chars,
};

verus! {

/// Index of the last pair in `s` whose key is `k`, or `-1` when there is none.
pub open spec fn last_key_index<V>(s: Seq<(String, V)>, k: Seq<char>) -> int
    decreases s.len(),
{
    if s.len() == 0 {
        -1
    } else if s.last().0@ == k {
        s.len() - 1
    } else {
        last_key_index(s.drop_last(), k)
    }
}

/// The map that a list of key/value pairs denotes: a later pair for a key
/// overrides an earlier one.
pub open spec fn pairs_map(s: Seq<(String, String)>) -> Map<Seq<char>, Seq<char>> {
    Map::new(|k: Seq<char>| last_key_index(s, k) >= 0, |k: Seq<char>| s[last_key_index(s, k)].1@)
}

/// No two pairs share a key.
pub open spec fn keys_distinct<V>(s: Seq<(String, V)>) -> bool {
    forall|i: int, j: int| 0 <= i < j < s.len() ==> s[i].0@ != s[j].0@
}

pub proof fn lemma_last_key_index_bounds<V>(s: Seq<(String, V)>, k: Seq<char>)
    ensures
        -1 <= last_key_index(s, k) < s.len(),
        last_key_index(s, k) >= 0 ==> s[last_key_index(s, k)].0@ == k,
        last_key_index(s, k) < 0 ==> forall|i: int| 0 <= i < s.len() ==> s[i].0@ != k,
        forall|i: int| last_key_index(s, k) < i < s.len() ==> s[i].0@ != k,
    decreases s.len(),
{
    if s.len() > 0 {
        lemma_last_key_index_bounds(s.drop_last(), k);
        assert forall|i: int| 0 <= i < s.len() - 1 implies #[trigger] s[i] == s.drop_last()[i] by {}
    }
}

pub proof fn lemma_last_key_index_is<V>(s: Seq<(String, V)>, k: Seq<char>, i: int)
    requires
        0 <= i < s.len(),
        s[i].0@ == k,
        forall|j: int| i < j < s.len() ==> s[j].0@ != k,
    ensures
        last_key_index(s, k) == i,
    decreases s.len(),
{
    if i < s.len() - 1 {
        lemma_last_key_index_is(s.drop_last(), k, i);
    }
}

pub proof fn lemma_pairs_map_push(s: Seq<(String, String)>, p: (String, String))
    ensures
        pairs_map(s.push(p)) == pairs_map(s).insert(p.0@, p.1@),
{
    let t = s.push(p);
    assert(t.drop_last() == s);
    assert forall|k: Seq<char>| #[trigger] last_key_index(t, k) == (if k == p.0@ {
        s.len() as int
    } else {
        last_key_index(s, k)
    }) by {}
    assert forall|k: Seq<char>| last_key_index(s, k) >= 0 && k != p.0@ implies #[trigger] t[last_key_index(
        t,
        k,
    )] == s[last_key_index(s, k)] by {
        lemma_last_key_index_bounds(s, k);
    }
    assert(pairs_map(t) =~= pairs_map(s).insert(p.0@, p.1@));
}

pub proof fn lemma_pairs_map_update(s: Seq<(String, String)>, i: int, v: String)
    requires
        0 <= i < s.len(),
        forall|j: int| i < j < s.len() ==> s[j].0@ != s[i].0@,
    ensures
        pairs_map(s.update(i, (s[i].0, v))) == pairs_map(s).insert(s[i].0@, v@),
{
    let t = s.update(i, (s[i].0, v));
    assert forall|k: Seq<char>| #[trigger] last_key_index(t, k) == last_key_index(s, k) by {
        lemma_last_key_index_same_keys(s, t, k);
    }
    lemma_last_key_index_is(s, s[i].0@, i);
    assert forall|k: Seq<char>| last_key_index(s, k) >= 0 && k != s[i].0@ implies #[trigger] t[last_key_index(
        t,
        k,
    )] == s[last_key_index(s, k)] by {
        lemma_last_key_index_bounds(s, k);
    }
    assert(pairs_map(t) =~= pairs_map(s).insert(s[i].0@, v@));
}

/// With distinct keys, dropping the pair at `i` drops its key from the map
/// and leaves every other key as it was.
pub proof fn lemma_pairs_map_remove(s: Seq<(String, String)>, i: int)
    requires
        keys_distinct(s),
        0 <= i < s.len(),
    ensures
        keys_distinct(s.remove(i)),
        pairs_map(s.remove(i)) == pairs_map(s).remove(s[i].0@),
{
    let t = s.remove(i);
    assert forall|a: int, b: int| 0 <= a < b < t.len() implies t[a].0@ != t[b].0@ by {
        let sa = if a < i { a } else { a + 1 };
        let sb = if b < i { b } else { b + 1 };
        assert(t[a] == s[sa]);
        assert(t[b] == s[sb]);
    }
    assert forall|k: Seq<char>| #[trigger] pairs_map(t).contains_key(k) == pairs_map(s).remove(
        s[i].0@,
    ).contains_key(k) && (pairs_map(t).contains_key(k) ==> pairs_map(t)[k] == pairs_map(s)[k]) by {
        lemma_last_key_index_bounds(s, k);
        lemma_last_key_index_bounds(t, k);
        let js = last_key_index(s, k);
        let jt = last_key_index(t, k);
        if jt >= 0 {
            let sj = if jt < i { jt } else { jt + 1 };
            assert(t[jt] == s[sj]);
            assert(s[sj].0@ == k);
            if k == s[i].0@ {
                assert(sj != i);
                if sj < i {
                    assert(s[sj].0@ != s[i].0@);
                } else {
                    assert(s[i].0@ != s[sj].0@);
                }
            }
            assert forall|j: int| sj < j < s.len() implies s[j].0@ != k by {
                assert(s[sj].0@ != s[j].0@);
            }
            lemma_last_key_index_is(s, k, sj);
        } else if js >= 0 && k != s[i].0@ {
            assert(js != i);
            let tj = if js < i { js } else { js - 1 };
            assert(t[tj] == s[js]);
        }
    }
    assert(pairs_map(t) =~= pairs_map(s).remove(s[i].0@));
}

pub proof fn lemma_last_key_index_same_keys<V, W>(
    s: Seq<(String, V)>,
    t: Seq<(String, W)>,
    k: Seq<char>,
)
    requires
        s.len() == t.len(),
        forall|j: int| 0 <= j < s.len() ==> s[j].0@ == t[j].0@,
    ensures
        last_key_index(s, k) == last_key_index(t, k),
    decreases s.len(),
{
    if s.len() > 0 {
        lemma_last_key_index_same_keys(s.drop_last(), t.drop_last(), k);
    }
}

pub proof fn lemma_pairs_map_len(s: Seq<(String, String)>)
    requires
        keys_distinct(s),
    ensures
        pairs_map(s).dom().finite(),
        pairs_map(s).dom().len() == s.len(),
    decreases s.len(),
{
    if s.len() == 0 {
        assert(pairs_map(s).dom() =~= Set::empty());
    } else {
        let u = s.drop_last();
        assert(u.push(s.last()) == s);
        lemma_pairs_map_len(u);
        lemma_pairs_map_push(u, s.last());
        lemma_last_key_index_bounds(u, s.last().0@);
        assert(!pairs_map(u).dom().contains(s.last().0@)) by {
            if last_key_index(u, s.last().0@) >= 0 {
                let j = last_key_index(u, s.last().0@);
                assert(s[j].0@ == s[s.len() - 1].0@);
            }
        }
    }
}

/// The parameters a pattern binds against a path: both must have the same
/// number of segments, literal segments must be equal, and each `:name`
/// segment (with any `<constraint>` suffix cut off) binds the path segment
/// at its place; any mismatch gives no parameters at all.
pub open spec fn spec_from_path(path: Seq<char>, pattern: Seq<char>) -> Map<Seq<char>, Seq<char>> {
    let ps = split_segments(path);
    let qs = split_segments(pattern);
    if ps.len() == qs.len() && crate::pattern::segs_match(qs, ps) {
        crate::pattern::bind_params(crate::pattern::NameRule::StripOneCut, Map::empty(), qs, ps)
    } else {
        Map::empty()
    }
}

/// Calls `<str>::parse::<T>` and keeps the value when parsing succeeds;
/// nothing is stated about which strings parse or to what.
#[verifier::external_body]
fn parse_value<T: std::str::FromStr>(s: &str) -> Option<T> {
    s.parse::<T>().ok()
}

/// Moves the entries of a `HashMap<String, String>` into a vector of pairs
/// (`HashMap::into_iter` collected): every entry appears once, in the map's
/// own iteration order, and distinct `String` keys have distinct contents.
#[verifier::external_body]
fn hash_map_pairs(m: std::collections::HashMap<String, String>) -> (r: Vec<(String, String)>)
    ensures
        keys_distinct(r@),
        forall|i: int| 0 <= i < r@.len() ==> m@.contains_key(#[trigger] r@[i].0) && m@[r@[i].0] == r@[i].1,
        forall|k: String| m@.contains_key(k) ==> exists|i: int| 0 <= i < r@.len() && r@[i].0 == k,
{
    m.into_iter().collect()
}

/// Route parameters extracted from path segments.
///
/// The parameters form a map from names to values; setting a name that is
/// already present replaces its value.
#[derive(Debug)]
pub struct RouteParams {
    params: Vec<(String, String)>,
}

pub proof fn lemma_pairs_map_same_views(s: Seq<(String, String)>, t: Seq<(String, String)>)
    requires
        s.len() == t.len(),
        forall|j: int| 0 <= j < s.len() ==> s[j].0@ == t[j].0@ && s[j].1@ == t[j].1@,
    ensures
        pairs_map(s) == pairs_map(t),
{
    assert forall|k: Seq<char>| #[trigger] last_key_index(s, k) == last_key_index(t, k) by {
        lemma_last_key_index_same_keys(s, t, k);
        lemma_last_key_index_bounds(s, k);
    }
    assert forall|k: Seq<char>| last_key_index(s, k) >= 0 implies #[trigger] s[last_key_index(s, k)].1@
        == t[last_key_index(t, k)].1@ by {
        lemma_last_key_index_bounds(s, k);
    }
    assert(pairs_map(s) =~= pairs_map(t));
}

impl Clone for RouteParams {
    fn clone(&self) -> (r: Self)
        ensures
            r@ == self@,
    {
        proof {
            use_type_invariant(self);
        }
        let mut out: Vec<(String, String)> = Vec::new();
        let mut i: usize = 0;
        while i < self.params.len()
            invariant
                i <= self.params@.len(),
                out@.len() == i,
                keys_distinct(self.params@),
                forall|j: int|
                    0 <= j < i ==> out@[j].0@ == self.params@[j].0@ && out@[j].1@
                        == self.params@[j].1@,
            decreases self.params@.len() - i,
        {
            let k = self.params[i].0.clone();
            let v = self.params[i].1.clone();
            out.push((k, v));
            i = i + 1;
        }
        proof {
            lemma_pairs_map_same_views(out@, self.params@);
        }
        RouteParams { params: out }
    }
}

impl View for RouteParams {
    type V = Map<Seq<char>, Seq<char>>;

    closed spec fn view(&self) -> Map<Seq<char>, Seq<char>> {
        pairs_map(self.params@)
    }
}

impl RouteParams {
    #[verifier::type_invariant]
    spec fn inv(&self) -> bool {
        keys_distinct(self.params@)
    }

    /// The stored pairs, in insertion order.
    pub closed spec fn pairs(&self) -> Seq<(String, String)> {
        self.params@
    }

    /// Create empty route parameters.
    pub fn new() -> (r: Self)
        ensures
            r@ == Map::<Seq<char>, Seq<char>>::empty(),
    {
        let r = RouteParams { params: Vec::new() };
        assert(r@ =~= Map::<Seq<char>, Seq<char>>::empty());
        r
    }

    /// Position of the pair whose key is `key`.
    fn find(&self, key: &str) -> (r: Option<usize>)
        ensures
            match r {
                Some(i) => i < self.params@.len() && last_key_index(self.params@, key@) == i,
                None => last_key_index(self.params@, key@) < 0,
            },
    {
        let mut i = self.params.len();
        while i > 0
            invariant
                i <= self.params@.len(),
                forall|j: int| i <= j < self.params@.len() ==> self.params@[j].0@ != key@,
            decreases i,
        {
            i = i - 1;
            if str_eq(self.params[i].0.as_str(), key) {
                proof {
                    lemma_last_key_index_is(self.params@, key@, i as int);
                }
                return Some(i);
            }
        }
        proof {
            lemma_last_key_index_bounds(self.params@, key@);
            if last_key_index(self.params@, key@) >= 0 {
                let j = last_key_index(self.params@, key@);
                assert(self.params@[j].0@ == key@);
            }
        }
        None
    }

    /// Get a parameter value by key.
    pub fn get(&self, key: &str) -> (r: Option<&String>)
        ensures
            match r {
                Some(v) => self@.contains_key(key@) && v@ == self@[key@],
                None => !self@.contains_key(key@),
            },
    {
        match self.find(key) {
            Some(i) => Some(&self.params[i].1),
            None => None,
        }
    }

    /// Return `true` if the given key is present.
    pub fn contains(&self, key: &str) -> (r: bool)
        ensures
            r == self@.contains_key(key@),
    {
        self.find(key).is_some()
    }

    /// Insert or overwrite a parameter.
    pub fn insert(&mut self, key: String, value: String)
        ensures
            final(self)@ == old(self)@.insert(key@, value@),
            old(self)@.dom().finite(),
            final(self)@.dom().finite(),
            final(self)@.len() == old(self)@.len() + (if old(self)@.contains_key(key@) {
                0int
            } else {
                1int
            }),
    {
        proof {
            use_type_invariant(&*self);
            lemma_pairs_map_len(self.params@);
        }
        match self.find(key.as_str()) {
            Some(i) => {
                proof {
                    lemma_last_key_index_bounds(self.params@, key@);
                    lemma_pairs_map_update(self.params@, i as int, value);
                }
                let k = self.params[i].0.clone();
                let ghost old_params = self.params@;
                let mut ps: Vec<(String, String)> = Vec::new();
                std::mem::swap(&mut ps, &mut self.params);
                ps.set(i, (k, value));
                proof {
                    assert forall|a: int, b: int| 0 <= a < b < ps@.len() implies ps@[a].0@ != ps@[b].0@ by {
                        assert(old_params[a].0@ != old_params[b].0@);
                    }
                    lemma_pairs_map_same_views(ps@, old_params.update(i as int, (old_params[i as int].0, value)));
                }
                self.params = ps;
            },
            None => {
                proof {
                    lemma_last_key_index_bounds(self.params@, key@);
                    lemma_pairs_map_push(self.params@, (key, value));
                }
                let mut ps: Vec<(String, String)> = Vec::new();
                std::mem::swap(&mut ps, &mut self.params);
                ps.push((key, value));
                self.params = ps;
            },
        }
    }

    /// Remove a parameter, returning its value if it was present.
    pub fn remove(&mut self, key: &str) -> (r: Option<String>)
        ensures
            match r {
                Some(v) => old(self)@.contains_key(key@) && v@ == old(self)@[key@],
                None => !old(self)@.contains_key(key@),
            },
            final(self)@ == old(self)@.remove(key@),
            old(self)@.dom().finite(),
            final(self)@.dom().finite(),
    {
        proof {
            use_type_invariant(&*self);
            lemma_pairs_map_len(self.params@);
        }
        match self.find(key) {
            Some(i) => {
                proof {
                    lemma_last_key_index_bounds(self.params@, key@);
                    lemma_pairs_map_remove(self.params@, i as int);
                }
                let mut ps: Vec<(String, String)> = Vec::new();
                std::mem::swap(&mut ps, &mut self.params);
                let (_, v) = ps.remove(i);
                self.params = ps;
                Some(v)
            },
            None => {
                proof {
                    assert(self@.remove(key@) =~= self@);
                }
                None
            },
        }
    }

    /// Set a parameter (same as [`insert`](Self::insert)).
    pub fn set(&mut self, key: String, value: String)
        ensures
            final(self)@ == old(self)@.insert(key@, value@),
    {
        self.insert(key, value);
    }

    /// Return `true` if there are no parameters.
    pub fn is_empty(&self) -> (r: bool)
        ensures
            r == (self@.len() == 0),
    {
        proof {
            use_type_invariant(self);
            lemma_pairs_map_len(self.params@);
        }
        self.params.len() == 0
    }

    /// The stored pairs (each name once), in insertion order.
    pub fn all(&self) -> (r: &Vec<(String, String)>)
        ensures
            r@ == self.pairs(),
            pairs_map(r@) == self@,
            keys_distinct(r@),
    {
        proof {
            use_type_invariant(self);
        }
        &self.params
    }

    /// Iterate over all `(name, value)` pairs.
    pub fn iter(&self) -> (r: std::slice::Iter<'_, (String, String)>)
        ensures
            pairs_map(vstd::std_specs::slice::into_iter_elts(r)) == self@,
    {
        proof {
            broadcast use vstd::std_specs::slice::axiom_spec_slice_iter;
        }
        let r = self.params.as_slice().iter();
        assert(vstd::std_specs::slice::into_iter_elts(r) == self.params@);
        r
    }

    /// Merge parent parameters with child parameters: the child's value wins
    /// for a name that both hold.
    pub fn merge(parent: &RouteParams, child: &RouteParams) -> (r: RouteParams)
        ensures
            r@ == parent@.union_prefer_right(child@),
    {
        proof {
            use_type_invariant(child);
        }
        let mut merged = parent.clone();
        let mut i: usize = 0;
        while i < child.params.len()
            invariant
                i <= child.params@.len(),
                keys_distinct(child.params@),
                merged@ == parent@.union_prefer_right(pairs_map(child.params@.take(i as int))),
            decreases child.params@.len() - i,
        {
            let ghost before = merged@;
            let k = child.params[i].0.clone();
            let v = child.params[i].1.clone();
            merged.insert(k, v);
            proof {
                let t = child.params@.take(i as int);
                assert(child.params@.take(i + 1) == t.push(child.params@[i as int]));
                lemma_pairs_map_push(t, child.params@[i as int]);
                assert(merged@ =~= parent@.union_prefer_right(pairs_map(child.params@.take(i + 1))));
            }
            i = i + 1;
        }
        assert(child.params@.take(child.params@.len() as int) == child.params@);
        merged
    }

    /// Extract route parameters from a path given a pattern (see
    /// [`spec_from_path`]).
    pub fn from_path(path: &str, pattern: &str) -> (r: RouteParams)
        ensures
            r@ == spec_from_path(path@, pattern@),
    {
        let pchars = chars_of(path);
        let psegs = split_chars(&pchars);
        let qchars = chars_of(pattern);
        let qsegs = split_chars(&qchars);
        let ghost pv = psegs@.map_values(|x: Vec<char>| x@);
        let ghost qv = qsegs@.map_values(|x: Vec<char>| x@);
        assert(pv.len() == psegs@.len() && qv.len() == qsegs@.len());
        if psegs.len() != qsegs.len() {
            return RouteParams::new();
        }
        let mut params = RouteParams::new();
        let ok = crate::pattern::match_segments(
            crate::pattern::NameRule::StripOneCut,
            &qsegs,
            &psegs,
            0,
            &mut params,
        );
        assert(pv.skip(0) == pv);
        if ok {
            params
        } else {
            RouteParams::new()
        }
    }

    /// Create from the entries of a `HashMap`.
    pub fn from_map(map: std::collections::HashMap<String, String>) -> (r: RouteParams)
        ensures
            forall|k: String| map@.contains_key(k) ==> r@.contains_key(k@) && r@[k@] == map@[k]@,
            forall|kv: Seq<char>|
                r@.contains_key(kv) ==> exists|k: String| map@.contains_key(k) && k@ == kv,
            r@.len() == map@.len(),
    {
        let ghost m = map@;
        let pairs = hash_map_pairs(map);
        let mut r = RouteParams::new();
        let mut i: usize = 0;
        while i < pairs.len()
            invariant
                i <= pairs@.len(),
                keys_distinct(pairs@),
                r@ == pairs_map(pairs@.take(i as int)),
            decreases pairs@.len() - i,
        {
            let k = pairs[i].0.clone();
            let v = pairs[i].1.clone();
            r.insert(k, v);
            proof {
                let t = pairs@.take(i as int);
                assert(pairs@.take(i + 1) == t.push(pairs@[i as int]));
                lemma_pairs_map_push(t, pairs@[i as int]);
            }
            i = i + 1;
        }
        proof {
            assert(pairs@.take(pairs@.len() as int) == pairs@);
            assert forall|k: String| map@.contains_key(k) implies r@.contains_key(k@) && r@[k@]
                == map@[k]@ by {
                let j = choose|j: int| 0 <= j < pairs@.len() && pairs@[j].0 == k;
                lemma_last_key_index_is(pairs@, k@, j);
            }
            assert forall|kv: Seq<char>| r@.contains_key(kv) implies exists|k: String|
                map@.contains_key(k) && k@ == kv by {
                lemma_last_key_index_bounds(pairs@, kv);
                let j = last_key_index(pairs@, kv);
                assert(map@.contains_key(pairs@[j].0));
            }
            let keys = pairs@.map_values(|p: (String, String)| p.0);
            assert(keys.no_duplicates()) by {
                assert forall|a: int, b: int| 0 <= a < keys.len() && 0 <= b < keys.len() && a != b
                    implies keys[a] != keys[b] by {
                    if a < b {
                        assert(pairs@[a].0@ != pairs@[b].0@);
                    } else {
                        assert(pairs@[b].0@ != pairs@[a].0@);
                    }
                }
            }
            keys.unique_seq_to_set();
            assert(keys.to_set() =~= m.dom()) by {
                assert forall|k: String| keys.to_set().contains(k) implies m.dom().contains(k) by {
                    let j = choose|j: int| 0 <= j < keys.len() && keys[j] == k;
                    assert(m.contains_key(pairs@[j].0));
                }
                assert forall|k: String| m.dom().contains(k) implies keys.to_set().contains(k) by {
                    let j = choose|j: int| 0 <= j < pairs@.len() && pairs@[j].0 == k;
                    assert(keys[j] == k);
                }
            }
            lemma_pairs_map_len(pairs@);
        }
        r
    }

    /// Get a parameter and parse it with `FromStr`: `None` when the parameter
    /// is missing or does not parse.
    pub fn get_as<T: std::str::FromStr>(&self, key: &str) -> (r: Option<T>)
        ensures
            !self@.contains_key(key@) ==> r is None,
    {
        match self.get(key) {
            Some(v) => parse_value::<T>(v.as_str()),
            None => None,
        }
    }

    /// Return the number of parameters.
    pub fn len(&self) -> (r: usize)
        ensures
            r == self@.len(),
            self@.dom().finite(),
    {
        proof {
            use_type_invariant(self);
            lemma_pairs_map_len(self.params@);
        }
        self.params.len()
    }
}


/// A character left as is by URI component encoding.
pub open spec fn is_unreserved(c: char) -> bool {
    ('A' <= c && c <= 'Z') || ('a' <= c && c <= 'z') || ('0' <= c && c <= '9') || c == '-' || c
        == '_' || c == '.' || c == '~'
}

/// Upper-case hexadecimal digit of `d` (`0 <= d < 16`).
pub open spec fn hex_upper(d: int) -> char {
    if d < 10 {
        (('0' as int) + d) as char
    } else {
        (('A' as int) + d - 10) as char
    }
}

/// Encoding of one character: unreserved characters stay, a space becomes
/// `%20`, and any other character becomes `%` and two upper-case hex digits
/// of the low byte of its code point.
pub open spec fn encode_char(c: char) -> Seq<char> {
    if is_unreserved(c) {
        seq![c]
    } else if c == ' ' {
        seq!['%', '2', '0']
    } else {
        let b = (c as u32) as int % 256;
        seq!['%', hex_upper(b / 16), hex_upper(b % 16)]
    }
}

/// URI component encoding of a character sequence, character by character.
pub open spec fn spec_encode(s: Seq<char>) -> Seq<char>
    decreases s.len(),
{
    if s.len() == 0 {
        Seq::empty()
    } else {
        spec_encode(s.drop_last()) + encode_char(s.last())
    }
}

/// Value of a hexadecimal digit (either case).
pub open spec fn hex_value(c: char) -> Option<int> {
    if '0' <= c && c <= '9' {
        Some(c as int - '0' as int)
    } else if 'a' <= c && c <= 'f' {
        Some(c as int - 'a' as int + 10)
    } else if 'A' <= c && c <= 'F' {
        Some(c as int - 'A' as int + 10)
    } else {
        None
    }
}

/// Value of a run of hexadecimal digits, or `None` if one is not a digit.
pub open spec fn hex_digits_value(d: Seq<char>) -> Option<int>
    decreases d.len(),
{
    if d.len() == 0 {
        Some(0)
    } else {
        match (hex_digits_value(d.drop_last()), hex_value(d.last())) {
            (Some(a), Some(b)) => Some(a * 16 + b),
            _ => None,
        }
    }
}

/// `u8::from_str_radix(h, 16)` for the at most two characters `h` after a
/// `%`: an optional `+` sign followed by at least one hex digit.
pub open spec fn parse_hex_byte(h: Seq<char>) -> Option<int> {
    let d = if h.len() > 0 && h[0] == '+' {
        h.drop_first()
    } else {
        h
    };
    if d.len() == 0 {
        None
    } else {
        hex_digits_value(d)
    }
}

/// URI component decoding: `%` with the (up to two) characters after it is
/// replaced by the character of that byte when they parse as hex, and left
/// as written otherwise; `+` becomes a space.
pub open spec fn spec_decode(s: Seq<char>) -> Seq<char>
    decreases s.len(),
{
    if s.len() == 0 {
        Seq::empty()
    } else if s[0] == '%' {
        let end = if s.len() < 3 {
            s.len() as int
        } else {
            3
        };
        let h = s.subrange(1, end);
        let head = match parse_hex_byte(h) {
            Some(b) => seq![b as char],
            None => seq!['%'] + h,
        };
        head + spec_decode(s.skip(end))
    } else if s[0] == '+' {
        seq![' '] + spec_decode(s.drop_first())
    } else {
        seq![s[0]] + spec_decode(s.drop_first())
    }
}

/// Every character's code point fits in one byte (at most `0xFF`).
pub open spec fn all_byte_chars(s: Seq<char>) -> bool {
    forall|i: int| 0 <= i < s.len() ==> (#[trigger] s[i] as u32) < 256
}

proof fn lemma_encode_append(a: Seq<char>, b: Seq<char>)
    ensures
        spec_encode(a + b) == spec_encode(a) + spec_encode(b),
    decreases b.len(),
{
    if b.len() == 0 {
        assert(a + b == a);
    } else {
        lemma_encode_append(a, b.drop_last());
        assert((a + b).drop_last() == a + b.drop_last());
        assert((a + b).last() == b.last());
    }
}

proof fn lemma_hex_upper_value(d: int)
    requires
        0 <= d < 16,
    ensures
        hex_value(hex_upper(d)) == Some(d),
        hex_upper(d) != '+',
{
}

proof fn lemma_decode_encoded_char(c: char, rest: Seq<char>)
    requires
        (c as u32) < 256,
    ensures
        spec_decode(encode_char(c) + rest) == seq![c] + spec_decode(rest),
{
    let e = encode_char(c) + rest;
    if is_unreserved(c) {
        assert(e[0] == c);
        assert(e.drop_first() == rest);
    } else {
        let b: int = if c == ' ' { 32 } else { (c as u32) as int % 256 };
        assert(b == (c as u32) as int);
        assert(0 <= b < 256);
        let hi = b / 16;
        let lo = b % 16;
        assert(0 <= hi < 16 && 0 <= lo < 16 && hi * 16 + lo == b) by (nonlinear_arith)
            requires
                0 <= b < 256,
                hi == b / 16,
                lo == b % 16,
        ;
        if c == ' ' {
            assert(hi == 2 && lo == 0);
            assert(hex_upper(2) == '2');
            assert(hex_upper(0) == '0');
        }
        assert(encode_char(c) == seq!['%', hex_upper(hi), hex_upper(lo)]);
        lemma_hex_upper_value(hi);
        lemma_hex_upper_value(lo);
        assert(e[0] == '%');
        assert(e.len() >= 3);
        let h = e.subrange(1, 3);
        assert(h == seq![hex_upper(hi), hex_upper(lo)]);
        assert(h.drop_last() == seq![hex_upper(hi)]);
        assert(seq![hex_upper(hi)].drop_last() == Seq::<char>::empty());
        assert(hex_digits_value(Seq::<char>::empty()) == Some(0int));
        assert(seq![hex_upper(hi)].last() == hex_upper(hi));
        assert(h.last() == hex_upper(lo));
        assert(hex_digits_value(seq![hex_upper(hi)]) == Some(hi));
        assert(hex_digits_value(h) == Some(hi * 16 + lo));
        assert(parse_hex_byte(h) == Some(b));
        assert((b as char) == c);
        assert(e.skip(3) == rest);
    }
}

/// Decoding undoes encoding for text whose characters fit in one byte
/// (code points up to `0xFF`): every character comes back.
pub proof fn lemma_decode_encode(s: Seq<char>)
    requires
        all_byte_chars(s),
    ensures
        spec_decode(spec_encode(s)) == s,
    decreases s.len(),
{
    if s.len() > 0 {
        let c = s[0];
        let t = s.drop_first();
        assert(all_byte_chars(t)) by {
            assert forall|i: int| 0 <= i < t.len() implies (#[trigger] t[i] as u32) < 256 by {
                assert(t[i] == s[i + 1]);
            }
        }
        lemma_decode_encode(t);
        assert(s == seq![c] + t);
        lemma_encode_append(seq![c], t);
        assert(seq![c].drop_last() == Seq::<char>::empty());
        assert(spec_encode(Seq::<char>::empty()) == Seq::<char>::empty());
        assert(seq![c].last() == c);
        assert(Seq::<char>::empty() + encode_char(c) == encode_char(c));
        assert(spec_encode(seq![c]) == encode_char(c));
        lemma_decode_encoded_char(c, spec_encode(t));
    }
}

fn hex_digit_upper(d: u32) -> (c: char)
    requires
        d < 16,
    ensures
        c == hex_upper(d as int),
{
    if d < 10 {
        let v: u32 = 48 + d;
        proof {
            assert(v == ('0' as int) + d);
        }
        char_of_ascii(v)
    } else {
        let v: u32 = 55 + d;
        proof {
            assert(v == ('A' as int) + d - 10);
        }
        char_of_ascii(v)
    }
}

fn char_of_ascii(v: u32) -> (c: char)
    requires
        v < 128,
    ensures
        c == v as char,
{
    let b: u8 = v as u8;
    b as char
}

/// Encode one URI component (see [`spec_encode`]).
pub fn encode_uri_component(s: &str) -> (r: String)
    ensures
        r@ == spec_encode(s@),
{
    let chars = chars_of(s);
    let out = encode_chars(&chars);
    string_from_chars(out.as_slice())
}

fn encode_chars(chars: &Vec<char>) -> (out: Vec<char>)
    ensures
        out@ == spec_encode(chars@),
{
    let mut out: Vec<char> = Vec::new();
    let mut i: usize = 0;
    while i < chars.len()
        invariant
            i <= chars@.len(),
            out@ == spec_encode(chars@.take(i as int)),
        decreases chars.len() - i,
    {
        let c = chars[i];
        assert(chars@.take(i + 1).drop_last() == chars@.take(i as int));
        let ghost before = out@;
        if ('A' <= c && c <= 'Z') || ('a' <= c && c <= 'z') || ('0' <= c && c <= '9') || c == '-'
            || c == '_' || c == '.' || c == '~' {
            out.push(c);
            assert(out@ =~= before + encode_char(c));
        } else if c == ' ' {
            out.push('%');
            out.push('2');
            out.push('0');
            assert(out@ =~= before + encode_char(c));
        } else {
            let b: u32 = (c as u32) % 256;
            out.push('%');
            let h1 = hex_digit_upper(b / 16);
            out.push(h1);
            let h2 = hex_digit_upper(b % 16);
            out.push(h2);
            assert(encode_char(c) == seq!['%', h1, h2]);
            assert(out@ =~= before + encode_char(c));
        }
        i = i + 1;
    }
    assert(chars@.take(chars@.len() as int) == chars@);
    out
}

fn hex_value_of(c: char) -> (r: Option<u32>)
    ensures
        match hex_value(c) {
            Some(v) => r == Some(v as u32),
            None => r is None,
        },
{
    if '0' <= c && c <= '9' {
        Some((c as u32) - 48)
    } else if 'a' <= c && c <= 'f' {
        Some((c as u32) - 87)
    } else if 'A' <= c && c <= 'F' {
        Some((c as u32) - 55)
    } else {
        None
    }
}

/// `u8::from_str_radix` in base 16 on the characters `h` (at most two).
fn parse_hex_chars(h: &Vec<char>) -> (r: Option<u32>)
    requires
        h@.len() <= 2,
    ensures
        match parse_hex_byte(h@) {
            Some(v) => r == Some(v as u32) && 0 <= v < 256,
            None => r is None,
        },
{
    let start: usize = if h.len() > 0 && h[0] == '+' { 1 } else { 0 };
    let d = sub_chars(h, start, h.len());
    assert(start == 1 ==> d@ == h@.drop_first());
    assert(start == 0 ==> d@ == h@);
    if d.len() == 0 {
        return None;
    }
    let mut acc: u32 = 0;
    let mut i: usize = 0;
    while i < d.len()
        invariant
            d@.len() <= 2,
            d@.len() > 0,
            parse_hex_byte(h@) == hex_digits_value(d@),
            i <= d@.len(),
            hex_digits_value(d@.take(i as int)) == Some(acc as int),
            i <= 1 ==> acc < 16,
            i == 0 ==> acc == 0,
            acc < 256,
        decreases d.len() - i,
    {
        assert(d@.take(i + 1).drop_last() == d@.take(i as int));
        match hex_value_of(d[i]) {
            Some(v) => {
                assert(i < 2);
                assert(acc < 16);
                acc = acc * 16 + v;
            },
            None => {
                proof {
                    assert(hex_value(d@[i as int]) is None);
                    lemma_hex_digits_none(d@, i as int);
                }
                return None;
            },
        }
        i = i + 1;
    }
    assert(d@.take(d@.len() as int) == d@);
    Some(acc)
}

proof fn lemma_hex_digits_none(d: Seq<char>, i: int)
    requires
        0 <= i < d.len(),
        hex_value(d[i]) is None,
    ensures
        hex_digits_value(d) is None,
    decreases d.len(),
{
    if i < d.len() - 1 {
        lemma_hex_digits_none(d.drop_last(), i);
    }
}

/// Decode one URI component (see [`spec_decode`]).
pub fn decode_uri_component(s: &str) -> (r: String)
    ensures
        r@ == spec_decode(s@),
{
    let chars = chars_of(s);
    let out = decode_chars(&chars);
    string_from_chars(out.as_slice())
}

fn decode_chars(chars: &Vec<char>) -> (out: Vec<char>)
    ensures
        out@ == spec_decode(chars@),
{
    let n = chars.len();
    let mut out: Vec<char> = Vec::new();
    let mut i: usize = 0;
    assert(chars@.skip(0) == chars@);
    assert(out@ + spec_decode(chars@) == spec_decode(chars@));
    while i < n
        invariant
            n == chars@.len(),
            i <= n,
            out@ + spec_decode(chars@.skip(i as int)) == spec_decode(chars@),
        decreases n - i,
    {
        let ghost rest = chars@.skip(i as int);
        let c = chars[i];
        assert(rest[0] == c);
        if c == '%' {
            let end: usize = if n - i < 3 { n } else { i + 3 };
            let h = sub_chars(&chars, i + 1, end);
            assert(h@ == rest.subrange(1, (end - i) as int));
            assert(rest.skip((end - i) as int) == chars@.skip(end as int));
            match parse_hex_chars(&h) {
                Some(b) => {
                    out.push(char_of_byte(b));
                },
                None => {
                    out.push('%');
                    crate::text::append_chars(&mut out, &h);
                },
            }
            i = end;
        } else if c == '+' {
            assert(rest.drop_first() == chars@.skip(i + 1));
            out.push(' ');
            i = i + 1;
        } else {
            assert(rest.drop_first() == chars@.skip(i + 1));
            out.push(c);
            i = i + 1;
        }
    }
    assert(chars@.skip(n as int) =~= Seq::<char>::empty());
    assert(out@ + Seq::<char>::empty() == out@);
    out
}

fn char_of_byte(b: u32) -> (c: char)
    requires
        b < 256,
    ensures
        c == b as char,
{
    let v: u8 = b as u8;
    v as char
}


/// The views of a list of strings.
pub open spec fn strs_view(v: Seq<String>) -> Seq<Seq<char>> {
    v.map_values(|s: String| s@)
}

/// The multi-valued map that a list of key/value-list pairs denotes.
pub open spec fn query_map(s: Seq<(String, Vec<String>)>) -> Map<Seq<char>, Seq<Seq<char>>> {
    Map::new(
        |k: Seq<char>| last_key_index(s, k) >= 0,
        |k: Seq<char>| strs_view(s[last_key_index(s, k)].1@),
    )
}

/// `m` with `v` appended to the values of `k`.
pub open spec fn query_add(m: Map<Seq<char>, Seq<Seq<char>>>, k: Seq<char>, v: Seq<char>) -> Map<
    Seq<char>,
    Seq<Seq<char>>,
> {
    m.insert(
        k,
        if m.contains_key(k) {
            m[k].push(v)
        } else {
            seq![v]
        },
    )
}

/// `m` with the parameter of one `&`-separated piece: a piece with `=`
/// contributes its decoded key (before the first `=`) and decoded value;
/// other pieces contribute nothing.
pub open spec fn piece_add(m: Map<Seq<char>, Seq<Seq<char>>>, p: Seq<char>) -> Map<
    Seq<char>,
    Seq<Seq<char>>,
> {
    let e = crate::text::first_pos(p, '=');
    if e < p.len() {
        query_add(m, spec_decode(p.take(e as int)), spec_decode(p.skip(e as int + 1)))
    } else {
        m
    }
}

/// `m` with the parameters of the pieces, in order.
pub open spec fn parse_more(m: Map<Seq<char>, Seq<Seq<char>>>, pieces: Seq<Seq<char>>) -> Map<
    Seq<char>,
    Seq<Seq<char>>,
>
    decreases pieces.len(),
{
    if pieces.len() == 0 {
        m
    } else {
        piece_add(parse_more(m, pieces.drop_last()), pieces.last())
    }
}

/// The query parameters of the `&`-separated pieces (see [`piece_add`]).
pub open spec fn parse_pieces(pieces: Seq<Seq<char>>) -> Map<Seq<char>, Seq<Seq<char>>> {
    parse_more(Map::empty(), pieces)
}

/// A query string without its one leading `?`, if it has one.
pub open spec fn query_body(q: Seq<char>) -> Seq<char> {
    if q.len() > 0 && q[0] == '?' {
        q.drop_first()
    } else {
        q
    }
}

/// The query parameters of a query string (one leading `?` is ignored).
pub open spec fn spec_from_query_string(q: Seq<char>) -> Map<Seq<char>, Seq<Seq<char>>> {
    parse_pieces(crate::text::split_all(query_body(q), '&'))
}

/// The `key=value` items of the pairs, each key with each of its values,
/// both encoded, in stored order.
pub open spec fn query_items(s: Seq<(String, Vec<String>)>) -> Seq<Seq<char>>
    decreases s.len(),
{
    if s.len() == 0 {
        Seq::empty()
    } else {
        query_items(s.drop_last()) + strs_view(s.last().1@).map_values(
            |v: Seq<char>| spec_encode(s.last().0@) + seq!['='] + spec_encode(v),
        )
    }
}

/// The `key=value` item of one value, both encoded.
pub open spec fn query_item(k: Seq<char>, v: Seq<char>) -> Seq<char> {
    spec_encode(k) + seq!['='] + spec_encode(v)
}

/// Every character of every key and value fits in one byte.
pub open spec fn query_byte_chars(s: Seq<(String, Vec<String>)>) -> bool {
    forall|j: int|
        0 <= j < s.len() ==> all_byte_chars((#[trigger] s[j]).0@) && forall|t: int|
            0 <= t < s[j].1@.len() ==> all_byte_chars((#[trigger] s[j].1@[t])@)
}

proof fn lemma_encode_char_plain(c: char)
    ensures
        forall|i: int| 0 <= i < encode_char(c).len() ==> encode_char(c)[i] != '&' && encode_char(c)[i] != '='
            && encode_char(c)[i] != '?',
{
    if !is_unreserved(c) && c != ' ' {
        let b = (c as u32) as int % 256;
        let hi = b / 16;
        let lo = b % 16;
        assert(0 <= hi < 16 && 0 <= lo < 16) by (nonlinear_arith)
            requires
                0 <= b < 256,
                hi == b / 16,
                lo == b % 16,
        ;
    }
}

/// Encoded text holds none of `&`, `=` and `?`.
pub proof fn lemma_encode_plain(s: Seq<char>)
    ensures
        forall|i: int| 0 <= i < spec_encode(s).len() ==> spec_encode(s)[i] != '&' && spec_encode(s)[i] != '='
            && spec_encode(s)[i] != '?',
    decreases s.len(),
{
    if s.len() > 0 {
        lemma_encode_plain(s.drop_last());
        lemma_encode_char_plain(s.last());
        let a = spec_encode(s.drop_last());
        let b = encode_char(s.last());
        assert forall|i: int| 0 <= i < (a + b).len() implies (a + b)[i] != '&' && (a + b)[i] != '='
            && (a + b)[i] != '?' by {
            if i >= a.len() {
                assert((a + b)[i] == b[i - a.len()]);
            }
        }
    }
}

proof fn lemma_item_parse(m: Map<Seq<char>, Seq<Seq<char>>>, k: Seq<char>, v: Seq<char>)
    requires
        all_byte_chars(k),
        all_byte_chars(v),
    ensures
        piece_add(m, query_item(k, v)) == query_add(m, k, v),
{
    let ek = spec_encode(k);
    let ev = spec_encode(v);
    let item = query_item(k, v);
    lemma_encode_plain(k);
    assert forall|j: int| 0 <= j < ek.len() implies item[j] != '=' by {
        assert(item[j] == ek[j]);
    }
    assert(item[ek.len() as int] == '=');
    crate::text::lemma_first_pos_is(item, '=', ek.len() as int);
    assert(item.take(ek.len() as int) == ek);
    assert(item.skip(ek.len() as int + 1) == ev);
    lemma_decode_encode(k);
    lemma_decode_encode(v);
}

proof fn lemma_parse_more_append(
    m: Map<Seq<char>, Seq<Seq<char>>>,
    a: Seq<Seq<char>>,
    b: Seq<Seq<char>>,
)
    ensures
        parse_more(m, a + b) == parse_more(parse_more(m, a), b),
    decreases b.len(),
{
    if b.len() == 0 {
        assert(a + b == a);
    } else {
        lemma_parse_more_append(m, a, b.drop_last());
        assert((a + b).drop_last() == a + b.drop_last());
        assert((a + b).last() == b.last());
    }
}

proof fn lemma_values_parse(m: Map<Seq<char>, Seq<Seq<char>>>, k: Seq<char>, vs: Seq<Seq<char>>)
    requires
        !m.contains_key(k),
        vs.len() > 0,
        all_byte_chars(k),
        forall|t: int| 0 <= t < vs.len() ==> all_byte_chars(#[trigger] vs[t]),
    ensures
        parse_more(m, vs.map_values(|v: Seq<char>| query_item(k, v))) == m.insert(k, vs),
    decreases vs.len(),
{
    let items = vs.map_values(|v: Seq<char>| query_item(k, v));
    let last = vs.last();
    assert(all_byte_chars(last)) by {
        assert(vs[vs.len() - 1] == last);
    }
    assert(items.last() == query_item(k, last));
    if vs.len() == 1 {
        assert(items.drop_last() == Seq::<Seq<char>>::empty());
        assert(parse_more(m, items.drop_last()) == m);
        lemma_item_parse(m, k, last);
        assert(seq![last] == vs);
        assert(query_add(m, k, last) == m.insert(k, seq![last]));
    } else {
        let init = vs.drop_last();
        assert forall|t: int| 0 <= t < init.len() implies all_byte_chars(#[trigger] init[t]) by {
            assert(init[t] == vs[t]);
        }
        lemma_values_parse(m, k, init);
        assert(items.drop_last() == init.map_values(|v: Seq<char>| query_item(k, v)));
        lemma_item_parse(m.insert(k, init), k, last);
        assert(init.push(last) == vs);
        assert(query_add(m.insert(k, init), k, last) =~= m.insert(k, vs));
    }
}

proof fn lemma_parse_query_items(s: Seq<(String, Vec<String>)>)
    requires
        keys_distinct(s),
        forall|j: int| 0 <= j < s.len() ==> (#[trigger] s[j]).1@.len() > 0,
        query_byte_chars(s),
    ensures
        parse_pieces(query_items(s)) == query_map(s),
    decreases s.len(),
{
    if s.len() == 0 {
        assert(query_map(s) =~= Map::empty());
    } else {
        let init = s.drop_last();
        let last = s.last();
        assert(last == s[s.len() - 1]);
        assert(keys_distinct(init)) by {
            assert forall|a: int, b: int| 0 <= a < b < init.len() implies init[a].0@ != init[b].0@ by {
                assert(init[a] == s[a] && init[b] == s[b]);
            }
        }
        assert forall|j: int| 0 <= j < init.len() implies (#[trigger] init[j]).1@.len() > 0 by {
            assert(init[j] == s[j]);
        }
        assert(query_byte_chars(init)) by {
            assert forall|j: int| 0 <= j < init.len() implies all_byte_chars((#[trigger] init[j]).0@) && forall|t: int|
                0 <= t < init[j].1@.len() ==> all_byte_chars((#[trigger] init[j].1@[t])@) by {
                assert(init[j] == s[j]);
            }
        }
        lemma_parse_query_items(init);
        let k = last.0@;
        let vs = strs_view(last.1@);
        lemma_parse_more_append(Map::empty(), query_items(init), vs.map_values(
            |v: Seq<char>| spec_encode(k) + seq!['='] + spec_encode(v),
        ));
        assert(vs.map_values(|v: Seq<char>| spec_encode(k) + seq!['='] + spec_encode(v))
            =~= vs.map_values(|v: Seq<char>| query_item(k, v)));
        lemma_last_key_index_bounds(init, k);
        assert(!query_map(init).contains_key(k)) by {
            if last_key_index(init, k) >= 0 {
                let j = last_key_index(init, k);
                assert(s[j].0@ == s[s.len() - 1].0@);
            }
        }
        assert forall|t: int| 0 <= t < vs.len() implies all_byte_chars(#[trigger] vs[t]) by {
            assert(vs[t] == last.1@[t]@);
        }
        lemma_values_parse(query_map(init), k, vs);
        assert(init.push(last) == s);
        lemma_query_map_push(init, last);
    }
}

/// Parsing the query string of a set of query parameters gives the same
/// parameters back, for keys and values whose characters fit in one byte
/// (code points up to `0xFF`): every key with all its
/// values, in order.
pub proof fn lemma_query_string_round_trip(s: Seq<(String, Vec<String>)>)
    requires
        keys_distinct(s),
        forall|j: int| 0 <= j < s.len() ==> (#[trigger] s[j]).1@.len() > 0,
        query_byte_chars(s),
    ensures
        spec_from_query_string(join_with(query_items(s), '&')) == query_map(s),
{
    let items = query_items(s);
    lemma_parse_query_items(s);
    lemma_items_plain(s);
    crate::text::lemma_join_with_lacks(items, '&', '?');
    let q = join_with(items, '&');
    if q.len() > 0 {
        assert(q[0] != '?');
    }
    assert(query_body(q) == q);
    if items.len() == 0 {
        assert(join_with(items, '&') == Seq::<char>::empty());
        let e = Seq::<char>::empty();
        assert(crate::text::split_all_acc(e, '&') == (Seq::<Seq<char>>::empty(), e));
        assert(crate::text::split_all(e, '&') == seq![e]);
        assert(seq![e].drop_last() == Seq::<Seq<char>>::empty());
        assert(crate::text::first_pos(e, '=') == 0);
        assert(parse_pieces(seq![e]) == parse_pieces(items));
    } else {
        lemma_items_plain(s);
        crate::text::lemma_split_all_join(items, '&');
    }
}

proof fn lemma_item_lacks(k: Seq<char>, v: Seq<char>, x: char)
    requires
        x == '&' || x == '?',
    ensures
        !(spec_encode(k) + seq!['='] + spec_encode(v)).contains(x),
{
    let item = spec_encode(k) + seq!['='] + spec_encode(v);
    lemma_encode_plain(k);
    lemma_encode_plain(v);
    if item.contains(x) {
        let j = choose|j: int| 0 <= j < item.len() && item[j] == x;
        if j < spec_encode(k).len() {
            assert(item[j] == spec_encode(k)[j]);
        } else if j > spec_encode(k).len() {
            assert(item[j] == spec_encode(v)[j - spec_encode(k).len() - 1]);
        }
    }
}

proof fn lemma_items_plain(s: Seq<(String, Vec<String>)>)
    ensures
        forall|i: int| 0 <= i < query_items(s).len() ==> !(#[trigger] query_items(s)[i]).contains('&')
            && !query_items(s)[i].contains('?'),
    decreases s.len(),
{
    if s.len() > 0 {
        lemma_items_plain(s.drop_last());
        let a = query_items(s.drop_last());
        let k = s.last().0@;
        let b = strs_view(s.last().1@).map_values(
            |v: Seq<char>| spec_encode(k) + seq!['='] + spec_encode(v),
        );
        assert forall|i: int| 0 <= i < (a + b).len() implies !(#[trigger] (a + b)[i]).contains('&')
            && !(a + b)[i].contains('?') by {
            if i >= a.len() {
                let v = strs_view(s.last().1@)[i - a.len()];
                assert((a + b)[i] == spec_encode(k) + seq!['='] + spec_encode(v));
                lemma_item_lacks(k, v, '&');
                lemma_item_lacks(k, v, '?');
            } else {
                assert((a + b)[i] == a[i]);
            }
        }
    }
}

pub proof fn lemma_query_map_push(s: Seq<(String, Vec<String>)>, p: (String, Vec<String>))
    ensures
        query_map(s.push(p)) == query_map(s).insert(p.0@, strs_view(p.1@)),
{
    let t = s.push(p);
    assert(t.drop_last() == s);
    assert forall|k: Seq<char>| #[trigger] last_key_index(t, k) == (if k == p.0@ {
        s.len() as int
    } else {
        last_key_index(s, k)
    }) by {}
    assert forall|k: Seq<char>| last_key_index(s, k) >= 0 && k != p.0@ implies #[trigger] t[last_key_index(
        t,
        k,
    )] == s[last_key_index(s, k)] by {
        lemma_last_key_index_bounds(s, k);
    }
    assert(query_map(t) =~= query_map(s).insert(p.0@, strs_view(p.1@)));
}

pub proof fn lemma_query_map_update(s: Seq<(String, Vec<String>)>, i: int, v: Vec<String>)
    requires
        0 <= i < s.len(),
        forall|j: int| i < j < s.len() ==> s[j].0@ != s[i].0@,
    ensures
        query_map(s.update(i, (s[i].0, v))) == query_map(s).insert(s[i].0@, strs_view(v@)),
{
    let t = s.update(i, (s[i].0, v));
    assert forall|k: Seq<char>| #[trigger] last_key_index(t, k) == last_key_index(s, k) by {
        lemma_last_key_index_same_keys(s, t, k);
    }
    lemma_last_key_index_is(s, s[i].0@, i);
    assert forall|k: Seq<char>| last_key_index(s, k) >= 0 && k != s[i].0@ implies #[trigger] t[last_key_index(
        t,
        k,
    )] == s[last_key_index(s, k)] by {
        lemma_last_key_index_bounds(s, k);
    }
    assert(query_map(t) =~= query_map(s).insert(s[i].0@, strs_view(v@)));
}

pub proof fn lemma_query_map_len(s: Seq<(String, Vec<String>)>)
    requires
        keys_distinct(s),
    ensures
        query_map(s).dom().finite(),
        query_map(s).dom().len() == s.len(),
    decreases s.len(),
{
    if s.len() == 0 {
        assert(query_map(s).dom() =~= Set::empty());
    } else {
        let u = s.drop_last();
        assert(u.push(s.last()) == s);
        lemma_query_map_len(u);
        lemma_query_map_push(u, s.last());
        lemma_last_key_index_bounds(u, s.last().0@);
        assert(!query_map(u).dom().contains(s.last().0@)) by {
            if last_key_index(u, s.last().0@) >= 0 {
                let j = last_key_index(u, s.last().0@);
                assert(s[j].0@ == s[s.len() - 1].0@);
            }
        }
    }
}

/// Query parameters parsed from a URL query string; a key may carry several
/// values, in the order they were added.
#[derive(Debug)]
pub struct QueryParams {
    params: Vec<(String, Vec<String>)>,
}

impl View for QueryParams {
    type V = Map<Seq<char>, Seq<Seq<char>>>;

    closed spec fn view(&self) -> Map<Seq<char>, Seq<Seq<char>>> {
        query_map(self.params@)
    }
}

fn clone_strings(v: &Vec<String>) -> (r: Vec<String>)
    ensures
        strs_view(r@) == strs_view(v@),
{
    let mut r: Vec<String> = Vec::new();
    let mut i: usize = 0;
    while i < v.len()
        invariant
            i <= v@.len(),
            strs_view(r@) == strs_view(v@.take(i as int)),
        decreases v.len() - i,
    {
        let ghost before = r@;
        r.push(v[i].clone());
        assert(strs_view(r@) =~= strs_view(before).push(v@[i as int]@));
        assert(strs_view(v@.take(i + 1)) =~= strs_view(v@.take(i as int)).push(v@[i as int]@));
        i = i + 1;
    }
    assert(v@.take(v@.len() as int) == v@);
    r
}

impl Clone for QueryParams {
    fn clone(&self) -> (r: Self)
        ensures
            r@ == self@,
    {
        proof {
            use_type_invariant(self);
        }
        let mut out: Vec<(String, Vec<String>)> = Vec::new();
        let mut i: usize = 0;
        while i < self.params.len()
            invariant
                i <= self.params@.len(),
                out@.len() == i,
                keys_distinct(self.params@),
                forall|j: int| 0 <= j < self.params@.len() ==> self.params@[j].1@.len() > 0,
                forall|j: int|
                    0 <= j < i ==> out@[j].0@ == self.params@[j].0@ && strs_view(out@[j].1@)
                        == strs_view(self.params@[j].1@),
            decreases self.params@.len() - i,
        {
            let k = self.params[i].0.clone();
            let v = clone_strings(&self.params[i].1);
            assert(v@.len() == strs_view(v@).len());
            out.push((k, v));
            i = i + 1;
        }
        proof {
            assert forall|k: Seq<char>| #[trigger] last_key_index(out@, k) == last_key_index(
                self.params@,
                k,
            ) by {
                lemma_last_key_index_same_keys(out@, self.params@, k);
            }
            assert forall|k: Seq<char>| last_key_index(out@, k) >= 0 implies strs_view(
                out@[last_key_index(out@, k)].1@,
            ) == strs_view(self.params@[last_key_index(self.params@, k)].1@) by {
                lemma_last_key_index_bounds(out@, k);
            }
            assert(query_map(out@) =~= query_map(self.params@));
            assert forall|j: int| 0 <= j < out@.len() implies out@[j].1@.len() > 0 by {
                assert(strs_view(out@[j].1@).len() == out@[j].1@.len());
                assert(strs_view(self.params@[j].1@).len() == self.params@[j].1@.len());
            }
        }
        QueryParams { params: out }
    }
}

impl QueryParams {
    #[verifier::type_invariant]
    spec fn inv(&self) -> bool {
        &&& keys_distinct(self.params@)
        &&& forall|j: int| 0 <= j < self.params@.len() ==> self.params@[j].1@.len() > 0
    }

    /// The stored keys with their values, in insertion order.
    pub closed spec fn pairs(&self) -> Seq<(String, Vec<String>)> {
        self.params@
    }

    /// Create empty query parameters.
    pub fn new() -> (r: Self)
        ensures
            r@ == Map::<Seq<char>, Seq<Seq<char>>>::empty(),
    {
        let r = QueryParams { params: Vec::new() };
        assert(r@ =~= Map::<Seq<char>, Seq<Seq<char>>>::empty());
        r
    }

    fn find(&self, key: &str) -> (r: Option<usize>)
        ensures
            match r {
                Some(i) => i < self.params@.len() && last_key_index(self.params@, key@) == i,
                None => last_key_index(self.params@, key@) < 0,
            },
    {
        let mut i = self.params.len();
        while i > 0
            invariant
                i <= self.params@.len(),
                forall|j: int| i <= j < self.params@.len() ==> self.params@[j].0@ != key@,
            decreases i,
        {
            i = i - 1;
            if str_eq(self.params[i].0.as_str(), key) {
                proof {
                    lemma_last_key_index_is(self.params@, key@, i as int);
                }
                return Some(i);
            }
        }
        proof {
            lemma_last_key_index_bounds(self.params@, key@);
            if last_key_index(self.params@, key@) >= 0 {
                let j = last_key_index(self.params@, key@);
                assert(self.params@[j].0@ == key@);
            }
        }
        None
    }

    /// The first value of a key.
    pub fn get(&self, key: &str) -> (r: Option<&String>)
        ensures
            match r {
                Some(v) => self@.contains_key(key@) && self@[key@].len() > 0 && v@
                    == self@[key@][0],
                None => !self@.contains_key(key@),
            },
    {
        proof {
            use_type_invariant(self);
        }
        match self.find(key) {
            Some(i) => {
                assert(strs_view(self.params@[i as int].1@)[0] == self.params@[i as int].1@[0]@);
                Some(&self.params[i].1[0])
            },
            None => None,
        }
    }

    /// All values of a key, in the order they were added.
    pub fn get_all(&self, key: &str) -> (r: Option<&Vec<String>>)
        ensures
            match r {
                Some(v) => self@.contains_key(key@) && strs_view(v@) == self@[key@],
                None => !self@.contains_key(key@),
            },
    {
        match self.find(key) {
            Some(i) => Some(&self.params[i].1),
            None => None,
        }
    }

    /// The first value of a key, parsed with `FromStr`: `None` when the key
    /// is missing or the value does not parse.
    pub fn get_as<T: std::str::FromStr>(&self, key: &str) -> (r: Option<T>)
        ensures
            !self@.contains_key(key@) ==> r is None,
    {
        match self.get(key) {
            Some(v) => parse_value::<T>(v.as_str()),
            None => None,
        }
    }

    /// Append a value for the given key (existing values are kept).
    pub fn insert(&mut self, key: String, value: String)
        ensures
            final(self)@ == query_add(old(self)@, key@, value@),
            old(self)@.dom().finite(),
            final(self)@.dom().finite(),
            final(self)@.len() == old(self)@.len() + (if old(self)@.contains_key(key@) {
                0int
            } else {
                1int
            }),
    {
        proof {
            use_type_invariant(&*self);
            lemma_query_map_len(self.params@);
        }
        match self.find(key.as_str()) {
            Some(i) => {
                proof {
                    lemma_last_key_index_bounds(self.params@, key@);
                }
                let mut vals = clone_strings(&self.params[i].1);
                let ghost old_vals = vals@;
                vals.push(value);
                assert(strs_view(vals@) =~= strs_view(old_vals).push(value@));
                proof {
                    lemma_query_map_update(self.params@, i as int, vals);
                }
                let k = self.params[i].0.clone();
                let ghost old_params = self.params@;
                let mut ps: Vec<(String, Vec<String>)> = Vec::new();
                std::mem::swap(&mut ps, &mut self.params);
                ps.set(i, (k, vals));
                proof {
                    assert forall|a: int, b: int| 0 <= a < b < ps@.len() implies ps@[a].0@
                        != ps@[b].0@ by {
                        assert(old_params[a].0@ != old_params[b].0@);
                    }
                    assert forall|k2: Seq<char>| #[trigger] last_key_index(ps@, k2)
                        == last_key_index(old_params.update(i as int, (old_params[i as int].0, vals)), k2) by {
                        lemma_last_key_index_same_keys(ps@, old_params.update(i as int, (old_params[i as int].0, vals)), k2);
                    }
                    assert(query_map(ps@) =~= query_map(old_params.update(i as int, (old_params[i as int].0, vals))));
                    assert(vals@.len() > 0);
                }
                self.params = ps;
            },
            None => {
                proof {
                    lemma_last_key_index_bounds(self.params@, key@);
                }
                let mut vals: Vec<String> = Vec::new();
                vals.push(value);
                assert(strs_view(vals@) =~= seq![value@]);
                proof {
                    lemma_query_map_push(self.params@, (key, vals));
                }
                let mut ps: Vec<(String, Vec<String>)> = Vec::new();
                std::mem::swap(&mut ps, &mut self.params);
                ps.push((key, vals));
                self.params = ps;
            },
        }
        assert(final(self)@ =~= query_add(old(self)@, key@, value@));
    }

    /// Parse a query string, with or without one leading `?`: each
    /// `&`-separated piece that holds `=` gives a decoded key (before its
    /// first `=`) and a decoded value; pieces without `=` are skipped.
    pub fn from_query_string(query: &str) -> (r: QueryParams)
        ensures
            r@ == spec_from_query_string(query@),
    {
        let all = chars_of(query);
        let chars = if all.len() > 0 && all[0] == '?' {
            sub_chars(&all, 1, all.len())
        } else {
            all
        };
        assert(chars@ == query_body(query@));
        let pieces = split_all_chars(&chars, '&');
        let ghost pv = pieces@.map_values(|x: Vec<char>| x@);
        let mut out = QueryParams::new();
        let mut i: usize = 0;
        while i < pieces.len()
            invariant
                i <= pieces@.len(),
                pv == pieces@.map_values(|x: Vec<char>| x@),
                out@ == parse_pieces(pv.take(i as int)),
            decreases pieces.len() - i,
        {
            assert(pv.take(i + 1).drop_last() == pv.take(i as int));
            let piece = &pieces[i];
            let e = find_first(piece, '=');
            if e < piece.len() {
                let k = sub_chars(piece, 0, e);
                let v = sub_chars(piece, e + 1, piece.len());
                assert(k@ == piece@.take(e as int));
                assert(v@ == piece@.skip(e as int + 1));
                let kd = decode_chars(&k);
                let vd = decode_chars(&v);
                out.insert(string_from_chars(kd.as_slice()), string_from_chars(vd.as_slice()));
            }
            i = i + 1;
        }
        assert(pv.take(pieces@.len() as int) == pv);
        out
    }

    /// The parameters as a query string (without the leading `?`): each key
    /// with each of its values as `key=value`, both encoded, joined by `&`.
    pub fn to_query_string(&self) -> (r: String)
        ensures
            r@ == join_with(query_items(self.pairs()), '&'),
            keys_distinct(self.pairs()),
            forall|j: int| 0 <= j < self.pairs().len() ==> (#[trigger] self.pairs()[j]).1@.len() > 0,
            query_map(self.pairs()) == self@,
    {
        proof {
            use_type_invariant(self);
        }
        let mut items: Vec<Vec<char>> = Vec::new();
        let mut i: usize = 0;
        while i < self.params.len()
            invariant
                i <= self.params@.len(),
                items@.map_values(|x: Vec<char>| x@) == query_items(self.params@.take(i as int)),
            decreases self.params@.len() - i,
        {
            assert(self.params@.take(i + 1).drop_last() == self.params@.take(i as int));
            let key = &self.params[i].0;
            let ek = encode_chars(&chars_of(key.as_str()));
            let vals = &self.params[i].1;
            let ghost base = items@.map_values(|x: Vec<char>| x@);
            let ghost f = |v: Seq<char>| spec_encode(key@) + seq!['='] + spec_encode(v);
            let mut j: usize = 0;
            while j < vals.len()
                invariant
                    j <= vals@.len(),
                    ek@ == spec_encode(key@),
                    f == (|v: Seq<char>| spec_encode(key@) + seq!['='] + spec_encode(v)),
                    items@.map_values(|x: Vec<char>| x@) == base + strs_view(vals@.take(j as int)).map_values(f),
                decreases vals@.len() - j,
            {
                let ghost before = items@.map_values(|x: Vec<char>| x@);
                let mut item: Vec<char> = Vec::new();
                append_chars(&mut item, &ek);
                item.push('=');
                let ev = encode_chars(&chars_of(vals[j].as_str()));
                append_chars(&mut item, &ev);
                assert(item@ == f(vals@[j as int]@));
                items.push(item);
                assert(strs_view(vals@.take(j + 1)).map_values(f) =~= strs_view(vals@.take(j as int)).map_values(f).push(f(vals@[j as int]@)));
                assert(items@.map_values(|x: Vec<char>| x@) =~= before.push(item@));
                j = j + 1;
            }
            assert(vals@.take(vals@.len() as int) == vals@);
            assert(self.params@.take(i + 1).last() == self.params@[i as int]);
            i = i + 1;
        }
        assert(self.params@.take(self.params@.len() as int) == self.params@);
        let joined = join_chars_with(&items, '&');
        string_from_chars(joined.as_slice())
    }

    /// Whether the given key is present.
    pub fn contains(&self, key: &str) -> (r: bool)
        ensures
            r == self@.contains_key(key@),
    {
        self.find(key).is_some()
    }

    /// Whether there are no parameters.
    pub fn is_empty(&self) -> (r: bool)
        ensures
            r == (self@.len() == 0),
    {
        proof {
            use_type_invariant(self);
            lemma_query_map_len(self.params@);
        }
        self.params.len() == 0
    }

    /// The number of distinct keys.
    pub fn len(&self) -> (r: usize)
        ensures
            r == self@.len(),
            self@.dom().finite(),
    {
        proof {
            use_type_invariant(self);
            lemma_query_map_len(self.params@);
        }
        self.params.len()
    }
}

} // verus!
