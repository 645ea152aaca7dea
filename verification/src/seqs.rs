//! Sequences: the first item that satisfies a predicate, and the views of
//! the items of a vector.
use vstd::prelude::*;

verus! {

/// The views of the items of `s`, in order.
pub open spec fn views<T: View>(s: Seq<T>) -> Seq<T::V> {
    Seq::new(s.len(), |i: int| s[i]@)
}

/// The view of an optional value.
pub open spec fn opt_view<T: View>(o: Option<T>) -> Option<T::V> {
    match o {
        Some(x) => Some(x@),
        None => None,
    }
}

/// The least index of `s` whose item satisfies `p`; `s.len()` where no item
/// does.
pub open spec fn first_index<T>(s: Seq<T>, p: spec_fn(T) -> bool) -> int
    decreases s.len(),
{
    if s.len() == 0 {
        0
    } else if p(s[0]) {
        0
    } else {
        1 + first_index(s.drop_first(), p)
    }
}

/// The first item of `s` that satisfies `p`.
pub open spec fn first_match<T>(s: Seq<T>, p: spec_fn(T) -> bool) -> Option<T> {
    if first_index(s, p) < s.len() {
        Some(s[first_index(s, p)])
    } else {
        None
    }
}

/// Whether some item of `s` satisfies `p`.
pub open spec fn any<T>(s: Seq<T>, p: spec_fn(T) -> bool) -> bool {
    exists|i: int| 0 <= i < s.len() && p(#[trigger] s[i])
}

/// `first_index` is in range, nothing before it satisfies `p`, and the item
/// at it does.
pub proof fn lemma_first_index<T>(s: Seq<T>, p: spec_fn(T) -> bool)
    ensures
        0 <= first_index(s, p) <= s.len(),
        forall|j: int| 0 <= j < first_index(s, p) ==> !p(#[trigger] s[j]),
        first_index(s, p) < s.len() ==> p(s[first_index(s, p)]),
        first_index(s, p) < s.len() <==> any(s, p),
    decreases s.len(),
{
    if s.len() == 0 {
    } else if p(s[0]) {
        assert(any(s, p));
    } else {
        let t = s.drop_first();
        lemma_first_index(t, p);
        let k = first_index(t, p);
        assert forall|j: int| 0 <= j < 1 + k implies !p(#[trigger] s[j]) by {
            if j > 0 {
                assert(s[j] == t[j - 1]);
            }
        }
        if k < t.len() {
            assert(s[1 + k] == t[k]);
            assert(any(s, p));
        } else {
            if any(s, p) {
                let i = choose|i: int| 0 <= i < s.len() && p(#[trigger] s[i]);
                assert(s[i] == t[i - 1]);
                assert(false);
            }
        }
    }
}

/// An index with nothing before it that satisfies `p`, and which itself
/// does or is the end, is the first index.
pub proof fn lemma_first_index_is<T>(s: Seq<T>, p: spec_fn(T) -> bool, i: int)
    requires
        0 <= i <= s.len(),
        forall|j: int| 0 <= j < i ==> !p(#[trigger] s[j]),
        i < s.len() ==> p(s[i]),
    ensures
        first_index(s, p) == i,
{
    lemma_first_index(s, p);
    let k = first_index(s, p);
    if k < i {
        assert(!p(s[k]));
    } else if k > i {
        assert(!p(s[i]));
    }
}

/// Whether `x` collides with some item of `s` under the relation `same`.
pub open spec fn clash<T>(s: Seq<T>, same: spec_fn(T, T) -> bool, x: T) -> bool {
    exists|i: int| 0 <= i < s.len() && same(#[trigger] s[i], x)
}

/// Whether no two items of `s` collide under the relation `same`.
pub open spec fn distinct<T>(s: Seq<T>, same: spec_fn(T, T) -> bool) -> bool {
    forall|i: int, j: int| 0 <= i < j < s.len() ==> !same(#[trigger] s[i], #[trigger] s[j])
}

/// Pushing an item that collides with nothing keeps a sequence distinct.
pub proof fn lemma_distinct_push<T>(s: Seq<T>, same: spec_fn(T, T) -> bool, x: T)
    requires
        distinct(s, same),
        !clash(s, same, x),
    ensures
        distinct(s.push(x), same),
{
    let t = s.push(x);
    assert forall|i: int, j: int| 0 <= i < j < t.len() implies !same(
        #[trigger] t[i],
        #[trigger] t[j],
    ) by {
        if j == s.len() {
            assert(t[i] == s[i]);
            assert(!same(s[i], x));
        } else {
            assert(t[i] == s[i] && t[j] == s[j]);
        }
    }
}

/// Removing an item keeps a sequence distinct.
pub proof fn lemma_distinct_remove<T>(s: Seq<T>, same: spec_fn(T, T) -> bool, k: int)
    requires
        distinct(s, same),
        0 <= k < s.len(),
    ensures
        distinct(s.remove(k), same),
{
    let t = s.remove(k);
    assert forall|i: int, j: int| 0 <= i < j < t.len() implies !same(
        #[trigger] t[i],
        #[trigger] t[j],
    ) by {
        let a = if i < k { i } else { i + 1 };
        let b = if j < k { j } else { j + 1 };
        assert(t[i] == s[a] && t[j] == s[b]);
    }
}

/// Replacing an item by one that collides with none of the others keeps a
/// sequence distinct.
pub proof fn lemma_distinct_update<T>(s: Seq<T>, same: spec_fn(T, T) -> bool, k: int, x: T)
    requires
        distinct(s, same),
        0 <= k < s.len(),
        forall|i: int|
            0 <= i < s.len() && i != k ==> !same(#[trigger] s[i], x) && !same(x, s[i]),
    ensures
        distinct(s.update(k, x), same),
{
    let t = s.update(k, x);
    assert forall|i: int, j: int| 0 <= i < j < t.len() implies !same(
        #[trigger] t[i],
        #[trigger] t[j],
    ) by {
        assert(!same(s[i], s[j]));
        assert(t[i] == if i == k { x } else { s[i] });
        assert(t[j] == if j == k { x } else { s[j] });
    }
}

/// The items of `s` that satisfy `p`, in order.
pub open spec fn keep<T>(s: Seq<T>, p: spec_fn(T) -> bool) -> Seq<T>
    decreases s.len(),
{
    if s.len() == 0 {
        Seq::empty()
    } else if p(s.last()) {
        keep(s.drop_last(), p).push(s.last())
    } else {
        keep(s.drop_last(), p)
    }
}

/// `keep` over one more item.
pub proof fn lemma_keep_step<T>(s: Seq<T>, p: spec_fn(T) -> bool, i: int)
    requires
        0 <= i < s.len(),
    ensures
        keep(s.take(i + 1), p) == if p(s[i]) {
            keep(s.take(i), p).push(s[i])
        } else {
            keep(s.take(i), p)
        },
        keep(s.take(0), p) == Seq::<T>::empty(),
        s.take(s.len() as int) == s,
{
    assert(s.take(i + 1).drop_last() =~= s.take(i));
    assert(s.take(i + 1).last() == s[i]);
    assert(s.take(s.len() as int) =~= s);
}

/// Every item that `keep` keeps is an item of `s` that satisfies `p`, and
/// the kept items stand in the order in which they stand in `s`.
pub proof fn lemma_keep_sources<T>(s: Seq<T>, p: spec_fn(T) -> bool) -> (src: Seq<int>)
    ensures
        src.len() == keep(s, p).len(),
        keep(s, p).len() <= s.len(),
        forall|i: int|
            0 <= i < src.len() ==> 0 <= #[trigger] src[i] < s.len() && s[src[i]] == keep(s, p)[i]
                && p(s[src[i]]),
        forall|i: int, j: int| 0 <= i < j < src.len() ==> src[i] < src[j],
        forall|k: int|
            0 <= k < s.len() && p(s[k]) ==> exists|i: int|
                0 <= i < src.len() && #[trigger] src[i] == k,
    decreases s.len(),
{
    if s.len() == 0 {
        Seq::empty()
    } else {
        let rest = lemma_keep_sources(s.drop_last(), p);
        let n = s.len() - 1;
        if p(s.last()) {
            let src = rest.push(n);
            assert forall|k: int| 0 <= k < s.len() && p(s[k]) implies exists|i: int|
                0 <= i < src.len() && #[trigger] src[i] == k by {
                if k < n {
                    assert(s.drop_last()[k] == s[k]);
                    let i = choose|i: int| 0 <= i < rest.len() && #[trigger] rest[i] == k;
                    assert(src[i] == k);
                } else {
                    assert(src[rest.len() as int] == k);
                }
            }
            src
        } else {
            assert forall|k: int| 0 <= k < s.len() && p(s[k]) implies exists|i: int|
                0 <= i < rest.len() && #[trigger] rest[i] == k by {
                assert(s.drop_last()[k] == s[k]);
            }
            rest
        }
    }
}

/// Keeping some items of a distinct sequence leaves it distinct.
pub proof fn lemma_keep_distinct<T>(s: Seq<T>, same: spec_fn(T, T) -> bool, p: spec_fn(T) -> bool)
    requires
        distinct(s, same),
    ensures
        distinct(keep(s, p), same),
{
    let src = lemma_keep_sources(s, p);
    let t = keep(s, p);
    assert forall|i: int, j: int| 0 <= i < j < t.len() implies !same(
        #[trigger] t[i],
        #[trigger] t[j],
    ) by {
        assert(src[i] < src[j]);
        assert(!same(s[src[i]], s[src[j]]));
    }
}

/// Whether exactly one item of `s` satisfies `p`.
pub open spec fn exactly_one<T>(s: Seq<T>, p: spec_fn(T) -> bool) -> bool {
    exists|k: int|
        0 <= k < s.len() && p(#[trigger] s[k]) && forall|j: int|
            0 <= j < s.len() && p(#[trigger] s[j]) ==> j == k
}

/// Where no item satisfies `p`, `keep` keeps nothing.
pub proof fn lemma_keep_none<T>(s: Seq<T>, p: spec_fn(T) -> bool)
    requires
        forall|i: int| 0 <= i < s.len() ==> !p(#[trigger] s[i]),
    ensures
        keep(s, p) == Seq::<T>::empty(),
    decreases s.len(),
{
    if s.len() > 0 {
        assert(!p(s[s.len() - 1]));
        assert forall|i: int| 0 <= i < s.drop_last().len() implies !p(
            #[trigger] s.drop_last()[i],
        ) by {
            assert(s.drop_last()[i] == s[i]);
        }
        lemma_keep_none(s.drop_last(), p);
    }
}

} // verus!
