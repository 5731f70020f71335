//! Facts about finite sequences that several modules share.

use vstd::prelude::*;

verus! {

/// The first position from `i` on whose element satisfies `p`, or the length.
pub open spec fn first_where<T>(s: Seq<T>, p: spec_fn(T) -> bool, i: int) -> int
    decreases s.len() - i,
{
    if 0 <= i < s.len() {
        if p(s[i]) {
            i
        } else {
            first_where(s, p, i + 1)
        }
    } else {
        s.len() as int
    }
}

/// `first_where` finds an element that satisfies `p`, with none before it.
pub proof fn first_where_is_first<T>(s: Seq<T>, p: spec_fn(T) -> bool, i: int)
    requires
        0 <= i <= s.len(),
    ensures
        i <= first_where(s, p, i) <= s.len(),
        forall|k: int| i <= k < first_where(s, p, i) ==> !p(#[trigger] s[k]),
        first_where(s, p, i) < s.len() ==> p(s[first_where(s, p, i)]),
    decreases s.len() - i,
{
    if i < s.len() && !p(s[i]) {
        first_where_is_first(s, p, i + 1);
    }
}

/// A filter over one more element.
pub proof fn filter_step<T>(s: Seq<T>, p: spec_fn(T) -> bool, i: int)
    requires
        0 <= i < s.len(),
    ensures
        s.take(i + 1).filter(p) == (if p(s[i]) {
            s.take(i).filter(p).push(s[i])
        } else {
            s.take(i).filter(p)
        }),
{
    reveal(Seq::filter);
    assert(s.take(i + 1).drop_last() =~= s.take(i));
}

/// A filter over nothing is empty, and over everything taken is the filter.
pub proof fn filter_ends<T>(s: Seq<T>, p: spec_fn(T) -> bool)
    ensures
        s.take(0).filter(p) == Seq::<T>::empty(),
        s.take(s.len() as int).filter(p) == s.filter(p),
{
    reveal(Seq::filter);
    assert(s.take(0) =~= Seq::<T>::empty());
    assert(s.take(s.len() as int) =~= s);
}

/// `first_where` is a position of the sequence or its length.
pub broadcast proof fn first_where_range<T>(s: Seq<T>, p: spec_fn(T) -> bool, i: int)
    ensures
        0 <= #[trigger] first_where(s, p, i) <= s.len(),
    decreases s.len() - i,
{
    if 0 <= i < s.len() && !p(s[i]) {
        first_where_range(s, p, i + 1);
    }
}

/// Where a filter keeps something, `first_where` finds something.
pub proof fn first_where_of_filter<T>(s: Seq<T>, p: spec_fn(T) -> bool)
    requires
        s.filter(p).len() > 0,
    ensures
        first_where(s, p, 0) < s.len(),
{
    first_where_is_first(s, p, 0);
    let x = s.filter(p)[0];
    s.lemma_filter_pred(p, 0);
    s.lemma_filter_contains_rev(p, x);
    let k = choose|k: int| 0 <= k < s.len() && s[k] == x;
    assert(p(s[k]));
}

} // verus!
