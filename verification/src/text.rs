//! Character-level helpers for paths: segment splitting, slash trimming
//! and the conversions between `str`/`String` and character vectors.

use vstd::prelude::*;

verus! {

/// Segments of `s` split at `/`, with empty segments dropped, together with
/// the trailing segment still being accumulated.
pub open spec fn split_acc(s: Seq<char>) -> (Seq<Seq<char>>, Seq<char>)
    decreases s.len(),
{
    if s.len() == 0 {
        (Seq::empty(), Seq::empty())
    } else {
        let (segs, cur) = split_acc(s.drop_last());
        if s.last() == '/' {
            if cur.len() > 0 {
                (segs.push(cur), Seq::empty())
            } else {
                (segs, Seq::empty())
            }
        } else {
            (segs, cur.push(s.last()))
        }
    }
}

/// The non-empty `/`-separated segments of `s`, in order.
pub open spec fn split_segments(s: Seq<char>) -> Seq<Seq<char>> {
    let (segs, cur) = split_acc(s);
    if cur.len() > 0 {
        segs.push(cur)
    } else {
        segs
    }
}

/// Collects the characters into a `String` (`Iterator::collect` over the
/// slice): the string holds exactly these characters, in order.
#[verifier::external_body]
pub(crate) fn string_from_chars(v: &[char]) -> (s: String)
    ensures
        s@ == v@,
{
    v.iter().collect()
}

/// The characters of a string slice, in order.
pub fn chars_of(s: &str) -> (v: Vec<char>)
    ensures
        v@ == s@,
{
    let n = s.unicode_len();
    let mut v: Vec<char> = Vec::new();
    let mut i: usize = 0;
    while i < n
        invariant
            n == s@.len(),
            i <= n,
            v@ == s@.subrange(0, i as int),
        decreases n - i,
    {
        let c = s.get_char(i);
        v.push(c);
        i = i + 1;
    }
    v
}

/// Split a character sequence into its non-empty `/`-separated segments.
pub fn split_chars(s: &Vec<char>) -> (segs: Vec<Vec<char>>)
    ensures
        segs@.map_values(|x: Vec<char>| x@) == split_segments(s@),
{
    let mut segs: Vec<Vec<char>> = Vec::new();
    let mut cur: Vec<char> = Vec::new();
    let mut i: usize = 0;
    while i < s.len()
        invariant
            i <= s.len(),
            (segs@.map_values(|x: Vec<char>| x@), cur@) == split_acc(s@.subrange(0, i as int)),
        decreases s.len() - i,
    {
        assert(s@.subrange(0, i + 1).drop_last() == s@.subrange(0, i as int));
        let c = s[i];
        if c == '/' {
            if cur.len() > 0 {
                let done = cur;
                segs.push(done);
                cur = Vec::new();
            }
        } else {
            cur.push(c);
        }
        i = i + 1;
    }
    assert(s@.subrange(0, s.len() as int) == s@);
    if cur.len() > 0 {
        segs.push(cur);
    }
    segs
}

/// Whether two string slices hold the same characters.
pub fn str_eq(a: &str, b: &str) -> (r: bool)
    ensures
        r == (a@ == b@),
{
    let n = a.unicode_len();
    let m = b.unicode_len();
    if n != m {
        return false;
    }
    let mut i: usize = 0;
    while i < n
        invariant
            n == a@.len(),
            m == b@.len(),
            n == m,
            i <= n,
            a@.subrange(0, i as int) == b@.subrange(0, i as int),
        decreases n - i,
    {
        if a.get_char(i) != b.get_char(i) {
            assert(a@[i as int] != b@[i as int]);
            return false;
        }
        assert(a@.subrange(0, i + 1) == a@.subrange(0, i as int).push(a@[i as int]));
        assert(b@.subrange(0, i + 1) == b@.subrange(0, i as int).push(b@[i as int]));
        i = i + 1;
    }
    assert(a@ == a@.subrange(0, n as int));
    assert(b@ == b@.subrange(0, n as int));
    true
}

/// Whether two character vectors are equal.
pub fn chars_eq(a: &Vec<char>, b: &Vec<char>) -> (r: bool)
    ensures
        r == (a@ == b@),
{
    if a.len() != b.len() {
        return false;
    }
    let mut i: usize = 0;
    while i < a.len()
        invariant
            a.len() == b.len(),
            i <= a.len(),
            forall|j: int| 0 <= j < i ==> a@[j] == b@[j],
        decreases a.len() - i,
    {
        if a[i] != b[i] {
            return false;
        }
        i = i + 1;
    }
    assert(a@ =~= b@);
    true
}


/// Number of leading copies of `c` in `s`.
pub open spec fn leading_count(s: Seq<char>, c: char) -> nat
    decreases s.len(),
{
    if s.len() > 0 && s[0] == c {
        1 + leading_count(s.drop_first(), c)
    } else {
        0
    }
}

/// Position of the first `c` in `s`, or `s.len()` when `c` does not occur.
pub open spec fn first_pos(s: Seq<char>, c: char) -> nat
    decreases s.len(),
{
    if s.len() == 0 {
        0
    } else if s[0] == c {
        0
    } else {
        1 + first_pos(s.drop_first(), c)
    }
}

/// `s` without its leading copies of `c`.
pub open spec fn trim_leading(s: Seq<char>, c: char) -> Seq<char> {
    s.skip(leading_count(s, c) as int)
}

/// The part of `s` before the first `c`.
pub open spec fn before_first(s: Seq<char>, c: char) -> Seq<char> {
    s.take(first_pos(s, c) as int)
}

/// `s` joined with `/` between the parts.
pub open spec fn join_slash(segs: Seq<Seq<char>>) -> Seq<char>
    decreases segs.len(),
{
    if segs.len() == 0 {
        Seq::empty()
    } else if segs.len() == 1 {
        segs[0]
    } else {
        join_slash(segs.drop_last()) + seq!['/'] + segs.last()
    }
}

pub proof fn lemma_leading_count_is(s: Seq<char>, c: char, i: int)
    requires
        0 <= i <= s.len(),
        forall|j: int| 0 <= j < i ==> s[j] == c,
        i == s.len() || s[i] != c,
    ensures
        leading_count(s, c) == i,
    decreases i,
{
    if i > 0 {
        lemma_leading_count_is(s.drop_first(), c, i - 1);
    }
}

pub proof fn lemma_first_pos_is(s: Seq<char>, c: char, i: int)
    requires
        0 <= i <= s.len(),
        forall|j: int| 0 <= j < i ==> s[j] != c,
        i == s.len() || s[i] == c,
    ensures
        first_pos(s, c) == i,
    decreases i,
{
    if i > 0 {
        lemma_first_pos_is(s.drop_first(), c, i - 1);
    }
}

pub proof fn lemma_leading_count_bounded(s: Seq<char>, c: char)
    ensures
        leading_count(s, c) <= s.len(),
    decreases s.len(),
{
    if s.len() > 0 {
        lemma_leading_count_bounded(s.drop_first(), c);
    }
}

pub proof fn lemma_first_pos_bounded(s: Seq<char>, c: char)
    ensures
        first_pos(s, c) <= s.len(),
    decreases s.len(),
{
    if s.len() > 0 {
        lemma_first_pos_bounded(s.drop_first(), c);
    }
}

/// The characters `v[a..b]`.
pub fn sub_chars(v: &Vec<char>, a: usize, b: usize) -> (r: Vec<char>)
    requires
        a <= b <= v@.len(),
    ensures
        r@ == v@.subrange(a as int, b as int),
{
    let mut r: Vec<char> = Vec::new();
    let mut i = a;
    while i < b
        invariant
            a <= i <= b <= v@.len(),
            r@ == v@.subrange(a as int, i as int),
        decreases b - i,
    {
        r.push(v[i]);
        i = i + 1;
    }
    r
}

/// Number of leading copies of `c` in `v`.
pub fn count_leading(v: &Vec<char>, c: char) -> (r: usize)
    ensures
        r == leading_count(v@, c),
{
    let mut i: usize = 0;
    while i < v.len() && v[i] == c
        invariant
            i <= v@.len(),
            forall|j: int| 0 <= j < i ==> v@[j] == c,
        decreases v.len() - i,
    {
        i = i + 1;
    }
    proof {
        lemma_leading_count_is(v@, c, i as int);
    }
    i
}

/// Position of the first `c` in `v`, or its length when there is none.
pub fn find_first(v: &Vec<char>, c: char) -> (r: usize)
    ensures
        r == first_pos(v@, c),
{
    let mut i: usize = 0;
    while i < v.len() && v[i] != c
        invariant
            i <= v@.len(),
            forall|j: int| 0 <= j < i ==> v@[j] != c,
        decreases v.len() - i,
    {
        i = i + 1;
    }
    proof {
        lemma_first_pos_is(v@, c, i as int);
    }
    i
}

/// Append the characters of `src` to `dst`.
pub fn append_chars(dst: &mut Vec<char>, src: &Vec<char>)
    ensures
        final(dst)@ == old(dst)@ + src@,
{
    let mut i: usize = 0;
    while i < src.len()
        invariant
            i <= src@.len(),
            dst@ == old(dst)@ + src@.subrange(0, i as int),
        decreases src.len() - i,
    {
        dst.push(src[i]);
        i = i + 1;
    }
    assert(src@.subrange(0, src@.len() as int) == src@);
}

/// The parts joined with `/` between them.
pub fn join_chars(segs: &Vec<Vec<char>>) -> (r: Vec<char>)
    ensures
        r@ == join_slash(segs@.map_values(|x: Vec<char>| x@)),
{
    let ghost views = segs@.map_values(|x: Vec<char>| x@);
    let mut r: Vec<char> = Vec::new();
    let mut i: usize = 0;
    while i < segs.len()
        invariant
            i <= segs@.len(),
            views == segs@.map_values(|x: Vec<char>| x@),
            r@ == join_slash(views.take(i as int)),
        decreases segs.len() - i,
    {
        assert(views.take(i + 1).drop_last() == views.take(i as int));
        if i > 0 {
            r.push('/');
        }
        append_chars(&mut r, &segs[i]);
        i = i + 1;
    }
    assert(views.take(segs@.len() as int) == views);
    r
}


/// `a` is a prefix of `b`.
pub open spec fn is_prefix(a: Seq<char>, b: Seq<char>) -> bool {
    a.len() <= b.len() && b.take(a.len() as int) == a
}

/// Whether `a` is a prefix of `b`.
pub fn starts_with_chars(b: &Vec<char>, a: &Vec<char>) -> (r: bool)
    ensures
        r == is_prefix(a@, b@),
{
    if a.len() > b.len() {
        return false;
    }
    let mut i: usize = 0;
    while i < a.len()
        invariant
            a@.len() <= b@.len(),
            i <= a@.len(),
            forall|j: int| 0 <= j < i ==> a@[j] == b@[j],
        decreases a.len() - i,
    {
        if a[i] != b[i] {
            assert(b@.take(a@.len() as int)[i as int] != a@[i as int]);
            return false;
        }
        i = i + 1;
    }
    assert(b@.take(a@.len() as int) =~= a@);
    true
}

/// `s` without its leading copies of `c`.
pub fn trim_leading_chars(s: &Vec<char>, c: char) -> (r: Vec<char>)
    ensures
        r@ == trim_leading(s@, c),
{
    let k = count_leading(s, c);
    proof {
        lemma_leading_count_bounded(s@, c);
    }
    sub_chars(s, k, s.len())
}


/// Number of trailing copies of `c` in `s`.
pub open spec fn trailing_count(s: Seq<char>, c: char) -> nat
    decreases s.len(),
{
    if s.len() > 0 && s.last() == c {
        1 + trailing_count(s.drop_last(), c)
    } else {
        0
    }
}

/// `s` without its leading and trailing copies of `c`.
pub open spec fn trim_both(s: Seq<char>, c: char) -> Seq<char> {
    let t = trim_leading(s, c);
    t.take(t.len() - trailing_count(t, c))
}

pub proof fn lemma_trailing_count_bounded(s: Seq<char>, c: char)
    ensures
        trailing_count(s, c) <= s.len(),
    decreases s.len(),
{
    if s.len() > 0 {
        lemma_trailing_count_bounded(s.drop_last(), c);
    }
}

/// `s` without its leading and trailing copies of `c`.
pub fn trim_both_chars(s: &Vec<char>, c: char) -> (r: Vec<char>)
    ensures
        r@ == trim_both(s@, c),
{
    let t = trim_leading_chars(s, c);
    let mut n = t.len();
    assert(t@.take(n as int) == t@);
    while n > 0 && t[n - 1] == c
        invariant
            n <= t@.len(),
            trailing_count(t@, c) == (t@.len() - n) + trailing_count(t@.take(n as int), c),
        decreases n,
    {
        assert(t@.take(n as int).drop_last() == t@.take(n - 1));
        n = n - 1;
    }
    proof {
        lemma_trailing_count_bounded(t@, c);
    }
    sub_chars(&t, 0, n)
}

/// Pieces of `s` split at every `c`, empty pieces kept, together with the
/// trailing piece being accumulated.
pub open spec fn split_all_acc(s: Seq<char>, c: char) -> (Seq<Seq<char>>, Seq<char>)
    decreases s.len(),
{
    if s.len() == 0 {
        (Seq::empty(), Seq::empty())
    } else {
        let (ps, cur) = split_all_acc(s.drop_last(), c);
        if s.last() == c {
            (ps.push(cur), Seq::empty())
        } else {
            (ps, cur.push(s.last()))
        }
    }
}

/// Pieces of `s` split at every `c`, empty pieces kept (as `str::split`).
pub open spec fn split_all(s: Seq<char>, c: char) -> Seq<Seq<char>> {
    let (ps, cur) = split_all_acc(s, c);
    ps.push(cur)
}

/// `parts` joined with `c` between them.
pub open spec fn join_with(parts: Seq<Seq<char>>, c: char) -> Seq<char>
    decreases parts.len(),
{
    if parts.len() == 0 {
        Seq::empty()
    } else if parts.len() == 1 {
        parts[0]
    } else {
        join_with(parts.drop_last(), c) + seq![c] + parts.last()
    }
}

/// Split a character sequence at every `c`, keeping empty pieces.
pub fn split_all_chars(s: &Vec<char>, c: char) -> (r: Vec<Vec<char>>)
    ensures
        r@.map_values(|x: Vec<char>| x@) == split_all(s@, c),
{
    let mut ps: Vec<Vec<char>> = Vec::new();
    let mut cur: Vec<char> = Vec::new();
    let mut i: usize = 0;
    while i < s.len()
        invariant
            i <= s.len(),
            (ps@.map_values(|x: Vec<char>| x@), cur@) == split_all_acc(s@.subrange(0, i as int), c),
        decreases s.len() - i,
    {
        assert(s@.subrange(0, i + 1).drop_last() == s@.subrange(0, i as int));
        let ch = s[i];
        if ch == c {
            let done = cur;
            ps.push(done);
            cur = Vec::new();
        } else {
            cur.push(ch);
        }
        i = i + 1;
    }
    assert(s@.subrange(0, s.len() as int) == s@);
    let ghost before = ps@;
    ps.push(cur);
    assert(ps@.map_values(|x: Vec<char>| x@) =~= before.map_values(|x: Vec<char>| x@).push(cur@));
    ps
}

/// The parts joined with `c` between them.
pub fn join_chars_with(parts: &Vec<Vec<char>>, c: char) -> (r: Vec<char>)
    ensures
        r@ == join_with(parts@.map_values(|x: Vec<char>| x@), c),
{
    let ghost views = parts@.map_values(|x: Vec<char>| x@);
    let mut r: Vec<char> = Vec::new();
    let mut i: usize = 0;
    while i < parts.len()
        invariant
            i <= parts@.len(),
            views == parts@.map_values(|x: Vec<char>| x@),
            r@ == join_with(views.take(i as int), c),
        decreases parts.len() - i,
    {
        assert(views.take(i + 1).drop_last() == views.take(i as int));
        if i > 0 {
            r.push(c);
        }
        append_chars(&mut r, &parts[i]);
        i = i + 1;
    }
    assert(views.take(parts@.len() as int) == views);
    r
}

/// The decimal digit `d`.
pub open spec fn digit_char(d: int) -> char {
    if d == 0 { '0' } else if d == 1 { '1' } else if d == 2 { '2' } else if d == 3 { '3' }
    else if d == 4 { '4' } else if d == 5 { '5' } else if d == 6 { '6' } else if d == 7 { '7' }
    else if d == 8 { '8' } else { '9' }
}

/// The decimal notation of `n`, without leading zeros.
pub open spec fn decimal(n: nat) -> Seq<char>
    decreases n,
{
    if n < 10 {
        seq![digit_char(n as int)]
    } else {
        decimal(n / 10).push(digit_char((n % 10) as int))
    }
}

fn digit_of(d: usize) -> (c: char)
    requires
        d < 10,
    ensures
        c == digit_char(d as int),
{
    match d {
        0 => '0',
        1 => '1',
        2 => '2',
        3 => '3',
        4 => '4',
        5 => '5',
        6 => '6',
        7 => '7',
        8 => '8',
        _ => '9',
    }
}

/// Append the decimal notation of `n` to `out`.
pub fn push_decimal(out: &mut Vec<char>, n: usize)
    ensures
        final(out)@ == old(out)@ + decimal(n as nat),
    decreases n,
{
    if n < 10 {
        out.push(digit_of(n));
        assert(decimal(n as nat) == seq![digit_char(n as int)]);
    } else {
        push_decimal(out, n / 10);
        let ghost mid = out@;
        out.push(digit_of(n % 10));
        assert(mid + seq![digit_char((n % 10) as int)] == mid.push(digit_char((n % 10) as int)));
    }
}


/// A segment as `split_segments` produces it: non-empty, without `/`.
pub open spec fn plain_segment(seg: Seq<char>) -> bool {
    seg.len() > 0 && !seg.contains('/')
}

proof fn lemma_split_acc_plain_suffix(s: Seq<char>, t: Seq<char>)
    requires
        !t.contains('/'),
    ensures
        split_acc(s + t) == (split_acc(s).0, split_acc(s).1 + t),
    decreases t.len(),
{
    if t.len() == 0 {
        assert(s + t == s);
        assert(split_acc(s).1 + t == split_acc(s).1);
    } else {
        let u = t.drop_last();
        assert(!u.contains('/')) by {
            if u.contains('/') {
                let j = choose|j: int| 0 <= j < u.len() && u[j] == '/';
                assert(t[j] == '/');
            }
        }
        lemma_split_acc_plain_suffix(s, u);
        assert((s + t).drop_last() == s + u);
        assert((s + t).last() == t.last());
        assert(t.last() != '/') by {
            assert(t[t.len() - 1] == t.last());
        }
        assert(split_acc(s).1 + u + seq![t.last()] == split_acc(s).1 + t);
    }
}

proof fn lemma_split_join(segs: Seq<Seq<char>>)
    requires
        segs.len() > 0,
        forall|i: int| 0 <= i < segs.len() ==> plain_segment(#[trigger] segs[i]),
    ensures
        split_acc(seq!['/'] + join_slash(segs)) == (segs.drop_last(), segs.last()),
    decreases segs.len(),
{
    let root = seq!['/'];
    assert(split_acc(root) == (Seq::<Seq<char>>::empty(), Seq::<char>::empty())) by {
        assert(root.drop_last() == Seq::<char>::empty());
        assert(split_acc(Seq::<char>::empty()) == (Seq::<Seq<char>>::empty(), Seq::<char>::empty()));
        assert(root.last() == '/');
    }
    if segs.len() == 1 {
        assert(plain_segment(segs[0]));
        lemma_split_acc_plain_suffix(root, segs[0]);
        assert(Seq::<char>::empty() + segs[0] == segs[0]);
        assert(segs.drop_last() == Seq::<Seq<char>>::empty());
    } else {
        let init = segs.drop_last();
        assert forall|i: int| 0 <= i < init.len() implies plain_segment(#[trigger] init[i]) by {
            assert(init[i] == segs[i]);
        }
        lemma_split_join(init);
        let s0 = root + join_slash(init);
        let s1 = s0 + seq!['/'];
        assert(s1.drop_last() == s0);
        assert(plain_segment(init.last())) by {
            assert(init.last() == init[init.len() - 1]);
        }
        assert(split_acc(s1) == (init, Seq::<char>::empty())) by {
            assert(init.drop_last().push(init.last()) == init);
        }
        assert(plain_segment(segs.last())) by {
            assert(segs.last() == segs[segs.len() - 1]);
        }
        lemma_split_acc_plain_suffix(s1, segs.last());
        assert(root + join_slash(segs) == s1 + segs.last());
        assert(Seq::<char>::empty() + segs.last() == segs.last());
    }
}

proof fn lemma_split_acc_slash_concat(a: Seq<char>, b: Seq<char>)
    ensures
        split_acc(a + seq!['/'] + b) == (split_segments(a) + split_acc(b).0, split_acc(b).1),
    decreases b.len(),
{
    let a1 = a + seq!['/'];
    if b.len() == 0 {
        assert(a1 + b == a1);
        assert(a1.drop_last() == a);
        assert(split_acc(b) == (Seq::<Seq<char>>::empty(), Seq::<char>::empty()));
        assert(split_segments(a) + Seq::<Seq<char>>::empty() == split_segments(a));
    } else {
        let b0 = b.drop_last();
        lemma_split_acc_slash_concat(a, b0);
        assert((a1 + b).drop_last() == a1 + b0);
        assert((a1 + b).last() == b.last());
        let (bs, bc) = split_acc(b0);
        let sa = split_segments(a);
        if b.last() == '/' {
            if bc.len() > 0 {
                assert((sa + bs).push(bc) == sa + bs.push(bc));
            }
        }
    }
}

/// Splitting two texts joined by a slash gives the segments of the first
/// followed by those of the second.
pub proof fn lemma_split_slash_concat(a: Seq<char>, b: Seq<char>)
    ensures
        split_segments(a + seq!['/'] + b) == split_segments(a) + split_segments(b),
{
    lemma_split_acc_slash_concat(a, b);
    let (bs, bc) = split_acc(b);
    let sa = split_segments(a);
    if bc.len() > 0 {
        assert((sa + bs).push(bc) == sa + bs.push(bc));
    }
}

proof fn lemma_split_trim_leading(s: Seq<char>)
    ensures
        split_segments(trim_leading(s, '/')) == split_segments(s),
    decreases s.len(),
{
    if s.len() > 0 && s[0] == '/' {
        let t = s.drop_first();
        lemma_split_trim_leading(t);
        assert(leading_count(s, '/') == 1 + leading_count(t, '/'));
        lemma_leading_count_bounded(t, '/');
        assert(trim_leading(s, '/') =~= trim_leading(t, '/'));
        lemma_split_slash_concat(Seq::<char>::empty(), t);
        assert(Seq::<char>::empty() + seq!['/'] + t =~= s);
        assert(split_acc(Seq::<char>::empty()) == (Seq::<Seq<char>>::empty(), Seq::<char>::empty()));
        assert(split_segments(Seq::<char>::empty()) + split_segments(t) =~= split_segments(t));
    } else {
        assert(trim_leading(s, '/') =~= s);
    }
}

proof fn lemma_split_trim_trailing(t: Seq<char>)
    ensures
        split_segments(t.take(t.len() - trailing_count(t, '/'))) == split_segments(t),
    decreases t.len(),
{
    lemma_trailing_count_bounded(t, '/');
    if t.len() > 0 && t.last() == '/' {
        let u = t.drop_last();
        lemma_split_trim_trailing(u);
        lemma_trailing_count_bounded(u, '/');
        assert(t.take(t.len() - trailing_count(t, '/')) =~= u.take(u.len() - trailing_count(u, '/')));
        lemma_split_slash_concat(u, Seq::<char>::empty());
        assert(u + seq!['/'] + Seq::<char>::empty() =~= t);
        assert(split_acc(Seq::<char>::empty()) == (Seq::<Seq<char>>::empty(), Seq::<char>::empty()));
        assert(split_segments(u) + split_segments(Seq::<char>::empty()) =~= split_segments(u));
    } else {
        assert(t.take(t.len() - trailing_count(t, '/')) =~= t);
    }
}

/// Trimming the outer slashes keeps the segments.
pub proof fn lemma_split_trim_both(s: Seq<char>)
    ensures
        split_segments(trim_both(s, '/')) == split_segments(s),
{
    lemma_split_trim_leading(s);
    lemma_split_trim_trailing(trim_leading(s, '/'));
}

/// Splitting `/` followed by plain segments joined with `/` gives the
/// segments back.
pub proof fn lemma_split_segments_of_joined(segs: Seq<Seq<char>>)
    requires
        forall|i: int| 0 <= i < segs.len() ==> plain_segment(#[trigger] segs[i]),
    ensures
        split_segments(seq!['/'] + join_slash(segs)) == segs,
{
    if segs.len() == 0 {
        let root = seq!['/'];
        assert(root.drop_last() == Seq::<char>::empty());
        assert(split_acc(Seq::<char>::empty()) == (Seq::<Seq<char>>::empty(), Seq::<char>::empty()));
        assert(root.last() == '/');
        assert(seq!['/'] + join_slash(segs) == root);
    } else {
        lemma_split_join(segs);
        assert(plain_segment(segs.last())) by {
            assert(segs.last() == segs[segs.len() - 1]);
        }
        assert(segs.drop_last().push(segs.last()) == segs);
    }
}

proof fn lemma_split_acc_plain(s: Seq<char>)
    ensures
        forall|i: int| 0 <= i < split_acc(s).0.len() ==> plain_segment(#[trigger] split_acc(s).0[i]),
        !split_acc(s).1.contains('/'),
    decreases s.len(),
{
    if s.len() > 0 {
        lemma_split_acc_plain(s.drop_last());
        let (segs, cur) = split_acc(s.drop_last());
        if s.last() == '/' {
            if cur.len() > 0 {
                assert forall|i: int| 0 <= i < segs.push(cur).len() implies plain_segment(
                    #[trigger] segs.push(cur)[i],
                ) by {
                    if i < segs.len() {
                        assert(segs.push(cur)[i] == segs[i]);
                    }
                }
            }
            assert(!Seq::<char>::empty().contains('/'));
        } else {
            assert(!cur.push(s.last()).contains('/')) by {
                if cur.push(s.last()).contains('/') {
                    let j = choose|j: int| 0 <= j < cur.push(s.last()).len() && cur.push(s.last())[j] == '/';
                    if j < cur.len() {
                        assert(cur[j] == '/');
                    }
                }
            }
        }
    }
}

/// Every segment that `split_segments` produces is plain.
pub proof fn lemma_split_segments_plain(s: Seq<char>)
    ensures
        forall|i: int| 0 <= i < split_segments(s).len() ==> plain_segment(#[trigger] split_segments(s)[i]),
{
    lemma_split_acc_plain(s);
    let (segs, cur) = split_acc(s);
    if cur.len() > 0 {
        assert forall|i: int| 0 <= i < segs.push(cur).len() implies plain_segment(
            #[trigger] segs.push(cur)[i],
        ) by {
            if i < segs.len() {
                assert(segs.push(cur)[i] == segs[i]);
            }
        }
    }
}


proof fn lemma_split_all_acc_suffix(s: Seq<char>, t: Seq<char>, c: char)
    requires
        !t.contains(c),
    ensures
        split_all_acc(s + t, c) == (split_all_acc(s, c).0, split_all_acc(s, c).1 + t),
    decreases t.len(),
{
    if t.len() == 0 {
        assert(s + t == s);
        assert(split_all_acc(s, c).1 + t == split_all_acc(s, c).1);
    } else {
        let u = t.drop_last();
        assert(!u.contains(c)) by {
            if u.contains(c) {
                let j = choose|j: int| 0 <= j < u.len() && u[j] == c;
                assert(t[j] == c);
            }
        }
        lemma_split_all_acc_suffix(s, u, c);
        assert((s + t).drop_last() == s + u);
        assert((s + t).last() == t.last());
        assert(t.last() != c) by {
            assert(t[t.len() - 1] == t.last());
        }
        assert(split_all_acc(s, c).1 + u + seq![t.last()] == split_all_acc(s, c).1 + t);
    }
}

/// Splitting parts joined with `c` at every `c` gives the parts back, when
/// there is at least one part and no part contains `c`.
/// Joining pieces that lack `x` with a separator other than `x` gives text
/// that lacks `x`.
pub proof fn lemma_join_with_lacks(parts: Seq<Seq<char>>, c: char, x: char)
    requires
        x != c,
        forall|i: int| 0 <= i < parts.len() ==> !(#[trigger] parts[i]).contains(x),
    ensures
        !join_with(parts, c).contains(x),
    decreases parts.len(),
{
    if parts.len() == 1 {
        assert(!parts[0].contains(x));
    } else if parts.len() > 1 {
        let init = parts.drop_last();
        assert forall|i: int| 0 <= i < init.len() implies !(#[trigger] init[i]).contains(x) by {
            assert(init[i] == parts[i]);
        }
        lemma_join_with_lacks(init, c, x);
        let a = join_with(init, c);
        let l = parts.last();
        assert(!l.contains(x)) by {
            assert(l == parts[parts.len() - 1]);
        }
        let j = a + seq![c] + l;
        if j.contains(x) {
            let k = choose|k: int| 0 <= k < j.len() && j[k] == x;
            if k < a.len() {
                assert(j[k] == a[k]);
            } else if k > a.len() {
                assert(j[k] == l[k - a.len() - 1]);
            }
        }
    }
}

pub proof fn lemma_split_all_join(parts: Seq<Seq<char>>, c: char)
    requires
        parts.len() > 0,
        forall|i: int| 0 <= i < parts.len() ==> !(#[trigger] parts[i]).contains(c),
    ensures
        split_all(join_with(parts, c), c) == parts,
    decreases parts.len(),
{
    let e = Seq::<char>::empty();
    assert(split_all_acc(e, c) == (Seq::<Seq<char>>::empty(), e));
    if parts.len() == 1 {
        assert(!parts[0].contains(c));
        lemma_split_all_acc_suffix(e, parts[0], c);
        assert(e + parts[0] == parts[0]);
        assert(seq![parts[0]] == parts);
    } else {
        let init = parts.drop_last();
        assert forall|i: int| 0 <= i < init.len() implies !(#[trigger] init[i]).contains(c) by {
            assert(init[i] == parts[i]);
        }
        lemma_split_all_join(init, c);
        let j0 = join_with(init, c);
        let j1 = j0 + seq![c];
        assert(j1.drop_last() == j0);
        assert(j1.last() == c);
        let (ps, cur) = split_all_acc(j0, c);
        assert(ps.push(cur) == init);
        assert(split_all_acc(j1, c) == (init, e));
        assert(!parts.last().contains(c)) by {
            assert(parts.last() == parts[parts.len() - 1]);
        }
        lemma_split_all_acc_suffix(j1, parts.last(), c);
        assert(join_with(parts, c) == j1 + parts.last());
        assert(e + parts.last() == parts.last());
        assert(init.push(parts.last()) == parts);
    }
}

} // verus!
