//! Listings in order: rows sorted by a pair of numbers, the larger pair
//! first, rows with equal pairs in the order in which they were inserted.
use vstd::prelude::*;
use crate::seqs::{first_index, lemma_first_index, lemma_first_index_is, views};

verus! {

/// Whether a row with the pair `a` is listed before every row with the
/// pair `b`: the first numbers decide, then the second.
pub open spec fn key_before(a: (int, int), b: (int, int)) -> bool {
    a.0 > b.0 || (a.0 == b.0 && a.1 > b.1)
}

/// The rows that `x` is listed before.
pub open spec fn listed_after<T>(key: spec_fn(T) -> (int, int), x: T) -> spec_fn(T) -> bool {
    |y: T| key_before(key(x), key(y))
}

/// Where a new row `x` goes into rows that are in order: before the first
/// row that it is listed before, and so behind every row of equal pair.
pub open spec fn slot<T>(s: Seq<T>, key: spec_fn(T) -> (int, int), x: T) -> int {
    first_index(s, listed_after(key, x))
}

/// The rows of `s` in order: the larger pair first, rows of equal pair in
/// the order in which they stand in `s`.
pub open spec fn ordered<T>(s: Seq<T>, key: spec_fn(T) -> (int, int)) -> Seq<T>
    decreases s.len(),
{
    if s.len() == 0 {
        Seq::empty()
    } else {
        let rest = ordered(s.drop_last(), key);
        rest.insert(slot(rest, key, s.last()), s.last())
    }
}

/// Where a window behind the first `offset` of `n` rows starts.
pub open spec fn window_start(n: int, offset: int) -> int {
    if offset >= n {
        n
    } else {
        offset
    }
}

/// Where a window of `limit` rows behind the first `offset` of `n` rows
/// ends.
pub open spec fn window_end(n: int, limit: int, offset: int) -> int {
    if offset >= n || offset + limit >= n {
        n
    } else {
        offset + limit
    }
}

/// The part of `rows` that a window of `limit` rows behind the first
/// `offset` rows shows.
pub open spec fn window<T>(rows: Seq<T>, limit: int, offset: int) -> Seq<T>
    recommends
        limit >= 0,
        offset >= 0,
{
    rows.subrange(
        window_start(rows.len() as int, offset),
        window_end(rows.len() as int, limit, offset),
    )
}

/// `ordered` over one more row.
pub proof fn lemma_ordered_push<T>(s: Seq<T>, key: spec_fn(T) -> (int, int), x: T)
    ensures
        ordered(s.push(x), key) == ordered(s, key).insert(slot(ordered(s, key), key, x), x),
{
    assert(s.push(x).drop_last() =~= s);
}

/// Ordering keeps every row, and adds none: row `i` of the listing is row
/// `src[i]` of `s`, and row `k` of `s` is row `dst[k]` of the listing.
pub proof fn lemma_ordered_sources<T>(s: Seq<T>, key: spec_fn(T) -> (int, int)) -> (r: (
    Seq<int>,
    Seq<int>,
))
    ensures
        ordered(s, key).len() == s.len(),
        r.0.len() == s.len(),
        r.1.len() == s.len(),
        forall|i: int|
            0 <= i < s.len() ==> 0 <= #[trigger] r.0[i] < s.len() && ordered(s, key)[i] == s[r.0[i]]
                && r.1[r.0[i]] == i,
        forall|k: int|
            0 <= k < s.len() ==> 0 <= #[trigger] r.1[k] < s.len() && ordered(s, key)[r.1[k]] == s[k]
                && r.0[r.1[k]] == k,
    decreases s.len(),
{
    if s.len() == 0 {
        (Seq::empty(), Seq::empty())
    } else {
        let rest = ordered(s.drop_last(), key);
        let (prev, back) = lemma_ordered_sources(s.drop_last(), key);
        let n = s.len() - 1;
        let at = slot(rest, key, s.last());
        lemma_first_index(rest, listed_after(key, s.last()));
        let src = prev.insert(at, n);
        let dst = Seq::new(
            s.len(),
            |k: int|
                if k == n {
                    at
                } else if back[k] < at {
                    back[k]
                } else {
                    back[k] + 1
                },
        );
        let out = ordered(s, key);
        assert forall|i: int| 0 <= i < s.len() implies 0 <= #[trigger] src[i] < s.len() && out[i]
            == s[src[i]] && dst[src[i]] == i by {
            if i < at {
                assert(src[i] == prev[i]);
                assert(out[i] == rest[i]);
                assert(s.drop_last()[prev[i]] == s[prev[i]]);
                assert(back[prev[i]] == i);
            } else if i == at {
            } else {
                assert(src[i] == prev[i - 1]);
                assert(out[i] == rest[i - 1]);
                assert(s.drop_last()[prev[i - 1]] == s[prev[i - 1]]);
                assert(back[prev[i - 1]] == i - 1);
            }
        }
        assert forall|k: int| 0 <= k < s.len() implies 0 <= #[trigger] dst[k] < s.len()
            && out[dst[k]] == s[k] && src[dst[k]] == k by {
            if k < n {
                assert(s.drop_last()[k] == s[k]);
                assert(0 <= back[k] < n && rest[back[k]] == s[k] && prev[back[k]] == k);
            }
        }
        (src, dst)
    }
}

/// In an ordered listing no row stands behind a row that it is listed
/// before.
pub proof fn lemma_ordered_sorted<T>(s: Seq<T>, key: spec_fn(T) -> (int, int))
    ensures
        forall|i: int, j: int|
            0 <= i < j < ordered(s, key).len() ==> !key_before(
                key(#[trigger] ordered(s, key)[j]),
                key(#[trigger] ordered(s, key)[i]),
            ),
    decreases s.len(),
{
    if s.len() > 0 {
        let rest = ordered(s.drop_last(), key);
        lemma_ordered_sorted(s.drop_last(), key);
        let x = s.last();
        let at = slot(rest, key, x);
        lemma_first_index(rest, listed_after(key, x));
        let out = ordered(s, key);
        assert forall|i: int, j: int| 0 <= i < j < out.len() implies !key_before(
            key(#[trigger] out[j]),
            key(#[trigger] out[i]),
        ) by {
            if j < at {
                assert(out[i] == rest[i] && out[j] == rest[j]);
            } else if j == at {
                assert(out[i] == rest[i]);
                assert(!listed_after(key, x)(rest[i]));
            } else if i == at {
                assert(out[j] == rest[j - 1]);
                assert(listed_after(key, x)(rest[at]));
                if j - 1 > at {
                    assert(!key_before(key(rest[j - 1]), key(rest[at])));
                }
            } else if i < at {
                assert(out[i] == rest[i] && out[j] == rest[j - 1]);
            } else {
                assert(out[i] == rest[i - 1] && out[j] == rest[j - 1]);
            }
        }
    }
}

/// Where each row of `s` stands in the listing: a row stands before
/// another exactly where its pair is the larger, or where the pairs are
/// equal and it stands before the other in `s`.
pub proof fn lemma_ordered_positions<T>(s: Seq<T>, key: spec_fn(T) -> (int, int)) -> (at: Seq<int>)
    ensures
        at.len() == s.len(),
        ordered(s, key).len() == s.len(),
        forall|k: int|
            0 <= k < s.len() ==> 0 <= #[trigger] at[k] < s.len() && ordered(s, key)[at[k]] == s[k],
        forall|i: int, j: int|
            0 <= i < j < s.len() ==> (#[trigger] at[i] < #[trigger] at[j] <==> !key_before(
                key(s[j]),
                key(s[i]),
            )),
        forall|i: int, j: int| 0 <= i < j < s.len() ==> at[i] != at[j],
    decreases s.len(),
{
    if s.len() == 0 {
        Seq::empty()
    } else {
        let front = s.drop_last();
        let rest = ordered(front, key);
        let before = lemma_ordered_positions(front, key);
        lemma_ordered_sorted(front, key);
        let n = s.len() - 1;
        let x = s.last();
        let slot_x = slot(rest, key, x);
        lemma_first_index(rest, listed_after(key, x));
        let at = Seq::new(
            s.len(),
            |k: int|
                if k == n {
                    slot_x
                } else if before[k] < slot_x {
                    before[k]
                } else {
                    before[k] + 1
                },
        );
        let out = ordered(s, key);
        assert forall|k: int| 0 <= k < s.len() implies 0 <= #[trigger] at[k] < s.len() && out[at[k]]
            == s[k] by {
            if k < n {
                assert(front[k] == s[k]);
                assert(rest[before[k]] == s[k]);
            }
        }
        assert forall|i: int, j: int| 0 <= i < j < s.len() implies (#[trigger] at[i]
            < #[trigger] at[j] <==> !key_before(key(s[j]), key(s[i]))) && at[i] != at[j] by {
            assert(front[i] == s[i]);
            assert(rest[before[i]] == s[i]);
            if j < n {
                assert(front[j] == s[j]);
                assert(before[i] != before[j]);
            } else {
                if before[i] < slot_x {
                    assert(!listed_after(key, x)(rest[before[i]]));
                } else {
                    assert(listed_after(key, x)(rest[slot_x]));
                    if before[i] > slot_x {
                        assert(!key_before(key(rest[before[i]]), key(rest[slot_x])));
                    }
                }
            }
        }
        at
    }
}

/// Puts `item` into rows that are in order, at its slot.
///
/// `keys` holds the pair of each row of `out`, and `k` that of `item`.
pub(crate) fn place<T: View>(
    out: &mut Vec<T>,
    keys: &mut Vec<(i64, i64)>,
    item: T,
    k: (i64, i64),
    Ghost(key): Ghost<spec_fn(T::V) -> (int, int)>,
)
    requires
        old(keys).len() == old(out).len(),
        forall|i: int|
            0 <= i < old(out).len() ==> key((#[trigger] old(out)[i])@) == (
                old(keys)[i].0 as int,
                old(keys)[i].1 as int,
            ),
        key(item@) == (k.0 as int, k.1 as int),
    ensures
        views(final(out)@) == views(old(out)@).insert(
            slot(views(old(out)@), key, item@),
            item@,
        ),
        final(keys).len() == final(out).len(),
        final(out).len() == old(out).len() + 1,
        forall|i: int|
            0 <= i < final(out).len() ==> key((#[trigger] final(out)[i])@) == (
                final(keys)[i].0 as int,
                final(keys)[i].1 as int,
            ),
{
    let ghost rows = views(out@);
    let ghost before = out@;
    let ghost keys_before = keys@;
    let mut j: usize = 0;
    while j < keys.len() && !(k.0 > keys[j].0 || (k.0 == keys[j].0 && k.1 > keys[j].1))
        invariant
            j <= keys.len(),
            keys.len() == out.len(),
            out@ == before,
            keys@ == keys_before,
            rows == views(out@),
            key(item@) == (k.0 as int, k.1 as int),
            forall|i: int|
                0 <= i < out.len() ==> key((#[trigger] out[i])@) == (
                    keys[i].0 as int,
                    keys[i].1 as int,
                ),
            forall|i: int| 0 <= i < j ==> !listed_after(key, item@)(#[trigger] rows[i]),
        decreases keys.len() - j,
    {
        proof {
            assert(rows[j as int] == out[j as int]@);
        }
        j = j + 1;
    }
    proof {
        if j < keys.len() {
            assert(rows[j as int] == out[j as int]@);
        }
        lemma_first_index_is(rows, listed_after(key, item@), j as int);
    }
    out.insert(j, item);
    keys.insert(j, k);
    proof {
        assert(views(out@) =~= rows.insert(j as int, item@));
        assert forall|i: int| 0 <= i < out.len() implies key((#[trigger] out[i])@) == (
            keys[i].0 as int,
            keys[i].1 as int,
        ) by {
            if i < j {
                assert(out[i] == before[i]);
            } else if i > j {
                assert(out[i] == before[i - 1]);
            }
        }
    }
}

} // verus!
