//! Sequences: what filtering and searching keep.
use vstd::prelude::*;

verus! {

broadcast use vstd::seq_lib::group_seq_properties;

/// Where the `i`th kept element of a sequence stood.
pub proof fn filter_origin<A>(s: Seq<A>, p: spec_fn(A) -> bool, i: int) -> (r: int)
    requires
        0 <= i < s.filter(p).len(),
    ensures
        0 <= r < s.len(),
        s[r] == s.filter(p)[i],
        p(s[r]),
    decreases s.len(),
{
    reveal(Seq::filter);
    let front = s.drop_last();
    if i < front.filter(p).len() {
        filter_origin(front, p, i)
    } else {
        s.len() - 1
    }
}

/// Filtering keeps the order: two kept elements stood in the same order
/// before.
pub proof fn filter_keeps_order<A>(s: Seq<A>, p: spec_fn(A) -> bool, i: int, j: int) -> (r: (int, int))
    requires
        0 <= i < j < s.filter(p).len(),
    ensures
        0 <= r.0 < r.1 < s.len(),
        s[r.0] == s.filter(p)[i],
        s[r.1] == s.filter(p)[j],
    decreases s.len(),
{
    reveal(Seq::filter);
    let front = s.drop_last();
    if j < front.filter(p).len() {
        filter_keeps_order(front, p, i, j)
    } else {
        (filter_origin(front, p, i), s.len() - 1)
    }
}

/// Every element that passes is kept.
pub proof fn filter_keeps<A>(s: Seq<A>, p: spec_fn(A) -> bool, k: int) -> (r: int)
    requires
        0 <= k < s.len(),
        p(s[k]),
    ensures
        0 <= r < s.filter(p).len(),
        s.filter(p)[r] == s[k],
    decreases s.len(),
{
    reveal(Seq::filter);
    let front = s.drop_last();
    if k < front.len() {
        let r = filter_keeps(front, p, k);
        r
    } else {
        front.filter(p).len() as int
    }
}

/// A prefix one longer filters to the same, or to one element more.
pub proof fn filter_step<A>(s: Seq<A>, p: spec_fn(A) -> bool, i: int)
    requires
        0 <= i < s.len(),
    ensures
        s.take(i + 1).filter(p) == (if p(s[i]) {
            s.take(i).filter(p).push(s[i])
        } else {
            s.take(i).filter(p)
        }),
{
    reveal(Seq::filter);
    assert(s.take(i + 1).drop_last() =~= s.take(i));
}

/// Where every element passes, filtering changes nothing.
pub proof fn filter_all<A>(s: Seq<A>, p: spec_fn(A) -> bool)
    requires
        forall|i: int| 0 <= i < s.len() ==> p(#[trigger] s[i]),
    ensures
        s.filter(p) == s,
    decreases s.len(),
{
    reveal(Seq::filter);
    if s.len() > 0 {
        assert forall|i: int| 0 <= i < s.drop_last().len() implies p(#[trigger] s.drop_last()[i]) by {
            assert(s.drop_last()[i] == s[i]);
        }
        filter_all(s.drop_last(), p);
        assert(s =~= s.drop_last().push(s.last()));
    }
}

/// What is kept is what passes.
pub proof fn filter_membership<A>(s: Seq<A>, p: spec_fn(A) -> bool, x: A)
    ensures
        s.filter(p).contains(x) <==> s.contains(x) && p(x),
{
    if s.filter(p).contains(x) {
        let k = choose|k: int| 0 <= k < s.filter(p).len() && s.filter(p)[k] == x;
        let i = filter_origin(s, p, k);
    }
    if s.contains(x) && p(x) {
        let i = choose|i: int| 0 <= i < s.len() && s[i] == x;
        let k = filter_keeps(s, p, i);
    }
}

/// Filters that agree on all elements keep the same.
pub proof fn filter_agrees<A>(s: Seq<A>, p: spec_fn(A) -> bool, q: spec_fn(A) -> bool)
    requires
        forall|i: int| 0 <= i < s.len() ==> p(#[trigger] s[i]) == q(s[i]),
    ensures
        s.filter(p) == s.filter(q),
    decreases s.len(),
{
    reveal(Seq::filter);
    if s.len() > 0 {
        let front = s.drop_last();
        assert forall|i: int| 0 <= i < front.len() implies p(#[trigger] front[i]) == q(front[i]) by {
            assert(front[i] == s[i]);
        }
        filter_agrees(front, p, q);
        assert(p(s[s.len() - 1]) == q(s[s.len() - 1]));
    }
}

/// Where two kept elements stood, in the same order.
pub proof fn filter_map_origins<A, B>(s: Seq<A>, f: spec_fn(A) -> Option<B>, i: int, j: int) -> (r: (int, int))
    requires
        0 <= i <= j < s.filter_map(f).len(),
    ensures
        0 <= r.0 <= r.1 < s.len(),
        i < j ==> r.0 < r.1,
        f(s[r.0]) == Some(s.filter_map(f)[i]),
        f(s[r.1]) == Some(s.filter_map(f)[j]),
    decreases s.len(),
{
    let front = s.drop_last();
    if j < front.filter_map(f).len() {
        filter_map_origins(front, f, i, j)
    } else if i < front.filter_map(f).len() {
        let (a, _) = filter_map_origins(front, f, i, i);
        (a, s.len() - 1)
    } else {
        (s.len() - 1, s.len() - 1)
    }
}

/// Every element that is mapped to something is kept.
pub proof fn filter_map_keeps<A, B>(s: Seq<A>, f: spec_fn(A) -> Option<B>, k: int) -> (r: int)
    requires
        0 <= k < s.len(),
        f(s[k]) is Some,
    ensures
        0 <= r < s.filter_map(f).len(),
        s.filter_map(f)[r] == f(s[k])->0,
    decreases s.len(),
{
    let front = s.drop_last();
    if k < front.len() {
        let r = filter_map_keeps(front, f, k);
        r
    } else {
        front.filter_map(f).len() as int
    }
}

} // verus!
