//! Stable sorting by a caller-supplied strict order.

use vstd::prelude::*;

verus! {

/// `to` holds the items of `from`, the one at `to[i]` coming from `from[at[i]]`,
/// each used once.
pub open spec fn rearranged<T>(from: Seq<T>, to: Seq<T>, at: Seq<int>) -> bool {
    &&& to.len() == from.len()
    &&& at.len() == from.len()
    &&& at.no_duplicates()
    &&& forall|i: int| 0 <= i < at.len() ==> 0 <= #[trigger] at[i] < from.len()
    &&& forall|i: int| 0 <= i < at.len() ==> to[i] == from[#[trigger] at[i]]
}

/// No item comes after one that it goes before, and items of which neither goes
/// before the other keep the order they had.
pub open spec fn in_order<T>(to: Seq<T>, at: Seq<int>, before: spec_fn(T, T) -> bool) -> bool {
    forall|i: int, j: int|
        #![trigger to[i], to[j]]
        0 <= i < j < to.len() ==> !before(to[j], to[i]) && (!before(to[i], to[j]) ==> at[i] < at[j])
}

/// `to` is `from` sorted by `before`, items that tie keeping their order.
pub open spec fn stably_sorted<T>(
    from: Seq<T>,
    to: Seq<T>,
    before: spec_fn(T, T) -> bool,
) -> bool {
    exists|at: Seq<int>| #[trigger] rearranged(from, to, at) && in_order(to, at, before)
}

/// `before` is a strict order in which "neither goes before the other" is
/// transitive, so that it ranks the items.
pub open spec fn ranks<T>(before: spec_fn(T, T) -> bool) -> bool {
    &&& forall|a: T, b: T| #[trigger] before(a, b) ==> !before(b, a)
    &&& forall|a: T, b: T, c: T|
        #![trigger before(a, b), before(b, c)]
        !before(a, b) && !before(b, c) ==> !before(a, c)
}

/// Every item of `from` is in `to`.
pub proof fn lemma_rearranged_onto<T>(from: Seq<T>, to: Seq<T>, at: Seq<int>, j: int)
    requires
        rearranged(from, to, at),
        0 <= j < from.len(),
    ensures
        exists|i: int| 0 <= i < at.len() && #[trigger] at[i] == j,
{
    let used = at.to_set();
    let all = vstd::set_lib::set_int_range(0, from.len() as int);
    vstd::set_lib::lemma_int_range(0, from.len() as int);
    at.unique_seq_to_set();
    assert(used.subset_of(all)) by {
        assert forall|x: int| used.contains(x) implies all.contains(x) by {
            let i = choose|i: int| 0 <= i < at.len() && at[i] == x;
            assert(0 <= at[i] < from.len());
        }
    }
    vstd::set_lib::lemma_subset_equality(used, all);
    assert(used.contains(j));
    let i = choose|i: int| 0 <= i < at.len() && at[i] == j;
    assert(at[i] == j);
}

/// Two sequences in strict order that hold the same items are the same.
pub proof fn lemma_strict_order_is_unique<T>(
    a: Seq<T>,
    b: Seq<T>,
    before: spec_fn(T, T) -> bool,
)
    requires
        forall|x: T, y: T| #[trigger] before(x, y) ==> !before(y, x),
        forall|i: int, j: int|
            #![trigger a[i], a[j]]
            0 <= i < j < a.len() ==> before(a[i], a[j]),
        forall|i: int, j: int|
            #![trigger b[i], b[j]]
            0 <= i < j < b.len() ==> before(b[i], b[j]),
        forall|x: T| #[trigger] a.contains(x) <==> b.contains(x),
    ensures
        a == b,
    decreases a.len(),
{
    if a.len() == 0 {
        if b.len() > 0 {
            assert(b.contains(b[0]) && a.contains(b[0]));
        }
        assert(a =~= b);
    } else {
        let (m, n) = (a.len() - 1, b.len() - 1);
        assert(a.contains(a[m]));
        let j = choose|j: int| 0 <= j < b.len() && b[j] == a[m];
        assert(b.len() > 0);
        assert(b.contains(b[n]) && a.contains(b[n]));
        let i = choose|i: int| 0 <= i < a.len() && a[i] == b[n];
        assert(a[m] == b[n]) by {
            if i < m && j < n {
                assert(before(a[i], a[m]) && before(b[j], b[n]));
            }
        }
        let (c, d) = (a.drop_last(), b.drop_last());
        assert forall|x: T| #[trigger] c.contains(x) <==> d.contains(x) by {
            if c.contains(x) {
                let k = choose|k: int| 0 <= k < c.len() && c[k] == x;
                assert(before(a[k], a[m]));
                assert(a.contains(a[k]));
                let l = choose|l: int| 0 <= l < b.len() && b[l] == x;
                assert(l < n);
                assert(d[l] == x);
            }
            if d.contains(x) {
                let k = choose|k: int| 0 <= k < d.len() && d[k] == x;
                assert(before(b[k], b[n]));
                assert(b.contains(b[k]) && a.contains(b[k]));
                let l = choose|l: int| 0 <= l < a.len() && a[l] == x;
                assert(l < m);
                assert(c[l] == x);
            }
        }
        lemma_strict_order_is_unique(c, d, before);
        assert(a =~= c.push(a[m]));
        assert(b =~= d.push(b[n]));
    }
}

/// A sorted sequence holds the items that it was sorted from.
pub proof fn lemma_sorted_holds_the_same<T>(
    from: Seq<T>,
    to: Seq<T>,
    before: spec_fn(T, T) -> bool,
    x: T,
)
    requires
        stably_sorted(from, to, before),
    ensures
        from.contains(x) <==> to.contains(x),
{
    let at = choose|at: Seq<int>| #[trigger] rearranged(from, to, at) && in_order(to, at, before);
    if from.contains(x) {
        let j = choose|j: int| 0 <= j < from.len() && from[j] == x;
        lemma_rearranged_onto(from, to, at, j);
        let i = choose|i: int| 0 <= i < at.len() && #[trigger] at[i] == j;
        assert(to[i] == x);
    }
    if to.contains(x) {
        let i = choose|i: int| 0 <= i < to.len() && to[i] == x;
        assert(from[at[i]] == x);
    }
}

fn swap_down<T>(v: &mut [T], j: usize)
    requires
        0 < j < old(v)@.len(),
    ensures
        final(v)@ == old(v)@.update(j as int, old(v)@[j - 1]).update(j - 1, old(v)@[j as int]),
{
    let (a, b) = v.split_at_mut(j);
    core::mem::swap(&mut a[j - 1], &mut b[0]);
}

/// Sorts `v` in place by `before`, keeping the order of items that tie.
pub(crate) fn sort_by<T, F: Fn(&T, &T) -> bool>(
    v: &mut [T],
    before: F,
    Ghost(rel): Ghost<spec_fn(T, T) -> bool>,
)
    requires
        ranks(rel),
        forall|a: T, b: T| #[trigger] before.requires((&a, &b)),
        forall|a: T, b: T, r: bool| #[trigger] before.ensures((&a, &b), r) ==> r == rel(a, b),
    ensures
        stably_sorted(old(v)@, final(v)@, rel),
{
    let ghost from = v@;
    let ghost mut at: Seq<int> = Seq::new(v@.len(), |i: int| i);
    let n: usize = v.len();
    let mut i: usize = 0;
    while i < n
        invariant
            ranks(rel),
            forall|a: T, b: T| #[trigger] before.requires((&a, &b)),
            forall|a: T, b: T, r: bool| #[trigger] before.ensures((&a, &b), r) ==> r == rel(a, b),
            n == from.len(),
            i <= n,
            rearranged(from, v@, at),
            forall|p: int| 0 <= p < i ==> #[trigger] at[p] < i,
            forall|p: int| i <= p < n ==> #[trigger] at[p] == p,
            in_order(v@.take(i as int), at, rel),
        decreases n - i,
    {
        let mut j: usize = i;
        let ghost x = v@[i as int];
        assert forall|p: int, q: int|
            #![trigger v@[p], v@[q]]
            0 <= p < q < i implies !rel(v@[q], v@[p]) && (!rel(v@[p], v@[q]) ==> at[p] < at[q]) by {
            let prefix = v@.take(i as int);
            assert(at[p] < i && at[q] < i);
            assert(prefix[p] == v@[p] && prefix[q] == v@[q]);
            assert(!rel(prefix[q], prefix[p]) && (!rel(prefix[p], prefix[q]) ==> at[p] < at[q]));
        }
        while j > 0 && before(&v[j], &v[j - 1])
            invariant
                ranks(rel),
                forall|a: T, b: T| #[trigger] before.requires((&a, &b)),
                forall|a: T, b: T, r: bool| #[trigger]
                    before.ensures((&a, &b), r) ==> r == rel(a, b),
                n == from.len(),
                j <= i < n,
                rearranged(from, v@, at),
                v@[j as int] == x,
                at[j as int] == i,
                forall|p: int| 0 <= p <= i && p != j ==> #[trigger] at[p] < i,
                forall|p: int| i < p < n ==> #[trigger] at[p] == p,
                forall|p: int, q: int|
                    #![trigger v@[p], v@[q]]
                    0 <= p < q <= i && p != j && q != j ==> !rel(v@[q], v@[p]) && (!rel(
                        v@[p],
                        v@[q],
                    ) ==> at[p] < at[q]),
                forall|q: int| #![trigger v@[q]] j < q <= i ==> rel(x, v@[q]),
            ensures
                j > 0 ==> !rel(x, v@[j - 1]),
            decreases j,
        {
            let ghost was = v@;
            let ghost at0 = at;
            swap_down(v, j);
            proof {
                at = at0.update(j as int, at0[j - 1]).update(j - 1, at0[j as int]);
                lemma_swapped(from, was, v@, at0, at, j as int);
                let k = j - 1;
                assert forall|q: int| #![trigger v@[q]] k < q <= i implies rel(x, v@[q]) by {
                    if q > j {
                        assert(at[q] == at0[q]);
                    }
                }
                assert forall|p: int, q: int|
                    #![trigger v@[p], v@[q]]
                    0 <= p < q <= i && p != k && q != k implies !rel(v@[q], v@[p]) && (!rel(
                    v@[p],
                    v@[q],
                ) ==> at[p] < at[q]) by {
                    let p0 = if p == j { k } else { p };
                    let q0 = if q == j { k } else { q };
                    assert(at[p] == at0[p0] && at[q] == at0[q0]);
                    assert(v@[p] == was[p0] && v@[q] == was[q0]);
                }
            }
            j = j - 1;
        }
        proof {
            let to = v@.take(i + 1);
            assert forall|p: int, q: int| #![trigger to[p], to[q]] 0 <= p < q < to.len() implies !rel(
                to[q],
                to[p],
            ) && (!rel(to[p], to[q]) ==> at[p] < at[q]) by {
                if q == j && p < j - 1 {
                    assert(at[j - 1] < i);
                    assert(!rel(x, v@[j - 1]));
                    assert(!rel(v@[j - 1], v@[p]));
                    assert(!rel(x, v@[p]));
                }
            }
        }
        i = i + 1;
    }
    assert(v@.take(n as int) =~= v@);
}

proof fn lemma_swapped<T>(
    from: Seq<T>,
    was: Seq<T>,
    now: Seq<T>,
    at0: Seq<int>,
    at: Seq<int>,
    j: int,
)
    requires
        rearranged(from, was, at0),
        0 < j < was.len(),
        now == was.update(j, was[j - 1]).update(j - 1, was[j]),
        at == at0.update(j, at0[j - 1]).update(j - 1, at0[j]),
    ensures
        rearranged(from, now, at),
{
    assert forall|p: int, q: int| 0 <= p < at.len() && 0 <= q < at.len() && p != q implies at[p]
        != at[q] by {
        let p0 = if p == j { j - 1 } else if p == j - 1 { j } else { p };
        let q0 = if q == j { j - 1 } else if q == j - 1 { j } else { q };
        assert(at[p] == at0[p0] && at[q] == at0[q0]);
    }
    assert forall|p: int| 0 <= p < at.len() implies 0 <= #[trigger] at[p] < from.len() by {
        let p0 = if p == j { j - 1 } else if p == j - 1 { j } else { p };
        assert(at[p] == at0[p0]);
    }
    assert forall|p: int| 0 <= p < at.len() implies now[p] == from[#[trigger] at[p]] by {
        let p0 = if p == j { j - 1 } else if p == j - 1 { j } else { p };
        assert(at[p] == at0[p0] && now[p] == was[p0]);
    }
}

} // verus!
