//! Stable sorting: the order of a list, by insertion of one element after the
//! other.

use vstd::prelude::*;

verus! {

/// `leq` orders all elements, equal ones allowed.
pub open spec fn total_order<T>(leq: spec_fn(T, T) -> bool) -> bool {
    &&& forall|a: T, b: T| #[trigger] leq(a, b) || leq(b, a)
    &&& forall|a: T, b: T, c: T| #[trigger] leq(a, b) && #[trigger] leq(b, c) ==> leq(a, c)
}

/// The position at which an element comes into an ordered list: after all that are
/// not after it.
pub open spec fn place_in<T>(s: Seq<T>, leq: spec_fn(T, T) -> bool, x: T, i: int) -> int
    decreases i,
{
    if i <= 0 || leq(s[i - 1], x) {
        i
    } else {
        place_in(s, leq, x, i - 1)
    }
}

/// The first `n` elements in their order; equals keep theirs.
pub open spec fn in_order<T>(s: Seq<T>, leq: spec_fn(T, T) -> bool, n: int) -> Seq<T>
    decreases n,
{
    if n <= 0 {
        Seq::empty()
    } else {
        let before = in_order(s, leq, n - 1);
        before.insert(place_in(before, leq, s[n - 1], before.len() as int), s[n - 1])
    }
}

/// The elements are in their order.
pub open spec fn ordered<T>(s: Seq<T>, leq: spec_fn(T, T) -> bool) -> bool {
    forall|i: int, j: int| 0 <= i <= j < s.len() ==> leq(#[trigger] s[i], #[trigger] s[j])
}

/// What `place_in` finds.
pub proof fn place_in_range<T>(s: Seq<T>, leq: spec_fn(T, T) -> bool, x: T, i: int)
    requires
        0 <= i <= s.len(),
    ensures
        0 <= place_in(s, leq, x, i) <= i,
        forall|k: int| place_in(s, leq, x, i) <= k < i ==> !leq(#[trigger] s[k], x),
        place_in(s, leq, x, i) > 0 ==> leq(s[place_in(s, leq, x, i) - 1], x),
    decreases i,
{
    if i > 0 && !leq(s[i - 1], x) {
        place_in_range(s, leq, x, i - 1);
    }
}

/// Sorting puts the elements in their order, and neither adds nor loses one.
pub proof fn sorting_keeps_everything<T>(s: Seq<T>, leq: spec_fn(T, T) -> bool, n: int)
    requires
        total_order(leq),
        0 <= n <= s.len(),
    ensures
        ordered(in_order(s, leq, n), leq),
        in_order(s, leq, n).len() == n,
        in_order(s, leq, n).to_multiset() == s.take(n).to_multiset(),
    decreases n,
{
    broadcast use vstd::seq_lib::group_to_multiset_ensures;

    if n > 0 {
        sorting_keeps_everything(s, leq, n - 1);
        let before = in_order(s, leq, n - 1);
        let x = s[n - 1];
        let k = place_in(before, leq, x, before.len() as int);
        place_in_range(before, leq, x, before.len() as int);
        let after = before.insert(k, x);
        assert forall|i: int, j: int| 0 <= i <= j < after.len() implies leq(
            #[trigger] after[i],
            #[trigger] after[j],
        ) by {
            let a = if i < k {
                before[i]
            } else if i == k {
                x
            } else {
                before[i - 1]
            };
            let b = if j < k {
                before[j]
            } else if j == k {
                x
            } else {
                before[j - 1]
            };
            assert(after[i] == a && after[j] == b);
            if i == k && j == k {
                assert(leq(x, x) || leq(x, x));
            }
            if i < k && j == k {
                assert(leq(before[i], before[k - 1]));
                assert(leq(before[k - 1], x));
            }
            if i < k && j > k {
                assert(leq(before[i], before[j - 1]));
            }
            if i == k && j > k {
                assert(!leq(before[j - 1], x));
                assert(leq(before[j - 1], x) || leq(x, before[j - 1]));
            }
            if i > k && j > k {
                assert(leq(before[i - 1], before[j - 1]));
            }
            if i < k && j < k {
                assert(leq(before[i], before[j]));
            }
        }
        assert(after.remove(k) =~= before);
        assert(after[k] == x && after.contains(x));
        assert(after.to_multiset() =~= before.to_multiset().insert(x));
        assert(s.take(n) =~= s.take(n - 1).push(x));
    } else {
        assert(s.take(0) =~= Seq::<T>::empty());
    }
}

/// An ordered list is its own order.
pub proof fn ordered_stays<T>(s: Seq<T>, leq: spec_fn(T, T) -> bool, n: int)
    requires
        ordered(s, leq),
        0 <= n <= s.len(),
    ensures
        in_order(s, leq, n) == s.take(n),
    decreases n,
{
    if n > 0 {
        ordered_stays(s, leq, n - 1);
        if n > 1 {
            assert(leq(s[n - 2], s[n - 1]));
            assert(s.take(n - 1)[n - 2] == s[n - 2]);
        }
        assert(s.take(n - 1).insert(n - 1, s[n - 1]) =~= s.take(n));
    } else {
        assert(s.take(0) =~= Seq::<T>::empty());
    }
}

/// Sorting is stable: the elements that are neither before nor after `x` keep the order
/// in which they came.
pub proof fn equals_keep_their_order<T>(s: Seq<T>, leq: spec_fn(T, T) -> bool, n: int, x: T)
    requires
        total_order(leq),
        0 <= n <= s.len(),
    ensures
        in_order(s, leq, n).filter(|y: T| leq(x, y) && leq(y, x)) == s.take(n).filter(
            |y: T| leq(x, y) && leq(y, x),
        ),
    decreases n,
{
    let equal = |y: T| leq(x, y) && leq(y, x);
    if n > 0 {
        equals_keep_their_order(s, leq, n - 1, x);
        sorting_keeps_everything(s, leq, n - 1);
        let before = in_order(s, leq, n - 1);
        let e = s[n - 1];
        let k = place_in(before, leq, e, before.len() as int);
        place_in_range(before, leq, e, before.len() as int);
        let front = before.take(k);
        let back = before.skip(k);
        let one = seq![e];
        assert(before =~= front + back);
        assert(before.insert(k, e) =~= front + one + back);
        Seq::filter_distributes_over_add(front + one, back, equal);
        Seq::filter_distributes_over_add(front, one, equal);
        Seq::filter_distributes_over_add(front, back, equal);
        crate::seqs::filter_step(s, equal, n - 1);
        assert(one.filter(equal) == if equal(e) {
            one
        } else {
            Seq::empty()
        }) by {
            reveal(Seq::filter);
            assert(one.drop_last() =~= Seq::<T>::empty());
            assert(one.drop_last().filter(equal) =~= Seq::<T>::empty());
            assert(Seq::<T>::empty().push(e) =~= one);
        }
        if equal(e) {
            let none = back.filter(equal);
            assert(none =~= Seq::<T>::empty()) by {
                if none.len() > 0 {
                    back.lemma_filter_pred(equal, 0);
                    assert(none.contains(none[0]));
                    back.lemma_filter_contains_rev(equal, none[0]);
                    let i = choose|i: int| 0 <= i < back.len() && back[i] == none[0];
                    assert(back[i] == before[k + i]);
                    assert(!leq(before[k + i], e));
                    assert(leq(before[k + i], x) && leq(x, e));
                }
            }
            assert(in_order(s, leq, n).filter(equal) =~= s.take(n).filter(equal));
        } else {
            assert(in_order(s, leq, n).filter(equal) =~= s.take(n).filter(equal));
        }
    } else {
        assert(s.take(0) =~= Seq::<T>::empty());
    }
}

} // verus!
