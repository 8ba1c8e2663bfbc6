//! Positions in the order of their keys.
//!
//! Scores are compared here by keys: integers that are ordered as the scores
//! are.

use vstd::prelude::*;

verus! {

/// The ordered positions with one more, which stands after those of the same
/// key.
pub open spec fn insert_position(order: Seq<int>, keys: Seq<i128>, x: int) -> Seq<int>
    decreases order.len(),
{
    if order.len() > 0 && keys[order.last()] > keys[x] {
        insert_position(order.drop_last(), keys, x).push(order.last())
    } else {
        order.push(x)
    }
}

/// The first `n` positions, in ascending order of their keys. Positions of the
/// same key stay in their own order.
pub open spec fn ascending(keys: Seq<i128>, n: nat) -> Seq<int>
    decreases n,
{
    if n == 0 {
        Seq::empty()
    } else {
        insert_position(ascending(keys, (n - 1) as nat), keys, n - 1)
    }
}

/// The positions that a list holds.
pub open spec fn positions(v: Seq<usize>) -> Seq<int> {
    v.map_values(|i: usize| i as int)
}

/// Keys with their order reversed.
pub open spec fn reversed(keys: Seq<i64>) -> Seq<i128> {
    keys.map_values(|k: i64| (-k) as i128)
}

/// All positions, in descending order of their keys. Positions of the same key
/// stay in their own order.
pub open spec fn descending(keys: Seq<i64>) -> Seq<int> {
    ascending(reversed(keys), keys.len())
}

/// The position `a` comes before the position `b`.
pub open spec fn comes_first(keys: Seq<i128>, a: int, b: int) -> bool {
    keys[a] < keys[b] || (keys[a] == keys[b] && a < b)
}

proof fn lemma_insert(order: Seq<int>, keys: Seq<i128>, x: int)
    requires
        x >= 0,
        forall|i: int, j: int|
            0 <= i < j < order.len() ==> #[trigger] comes_first(keys, order[i], order[j]),
        forall|i: int| 0 <= i < order.len() ==> 0 <= #[trigger] order[i] < x,
    ensures
        ({
            let r = insert_position(order, keys, x);
            &&& r.len() == order.len() + 1
            &&& forall|i: int| 0 <= i < r.len() ==> 0 <= #[trigger] r[i] <= x
            &&& forall|y: int| #[trigger] r.contains(y) <==> y == x || order.contains(y)
            &&& forall|i: int, j: int|
                0 <= i < j < r.len() ==> #[trigger] comes_first(keys, r[i], r[j])
        }),
    decreases order.len(),
{
    let r = insert_position(order, keys, x);
    if order.len() > 0 && keys[order.last()] > keys[x] {
        let u = order.drop_last();
        assert forall|i: int, j: int| 0 <= i < j < u.len() implies #[trigger] comes_first(
            keys,
            u[i],
            u[j],
        ) by {
            assert(comes_first(keys, order[i], order[j]));
        }
        assert forall|i: int| 0 <= i < u.len() implies 0 <= #[trigger] u[i] < x by {
            assert(u[i] == order[i]);
        }
        lemma_insert(u, keys, x);
        let w = insert_position(u, keys, x);
        assert(r =~= w.push(order.last()));
        assert forall|i: int| 0 <= i < r.len() implies 0 <= #[trigger] r[i] <= x by {
            if i < w.len() {
                assert(r[i] == w[i]);
            } else {
                assert(r[i] == order[order.len() - 1]);
            }
        }
        assert forall|y: int| #[trigger] r.contains(y) <==> y == x || order.contains(y) by {
            assert(w.contains(y) <==> y == x || u.contains(y));
            if r.contains(y) {
                let i = choose|i: int| 0 <= i < r.len() && r[i] == y;
                if i < w.len() {
                    assert(w[i] == y);
                    if u.contains(y) {
                        let k = choose|k: int| 0 <= k < u.len() && u[k] == y;
                        assert(order[k] == y);
                    }
                } else {
                    assert(order[order.len() - 1] == y);
                }
            }
            if order.contains(y) {
                let k = choose|k: int| 0 <= k < order.len() && order[k] == y;
                if k < u.len() {
                    assert(u[k] == y);
                    let i = choose|i: int| 0 <= i < w.len() && w[i] == y;
                    assert(r[i] == y);
                } else {
                    assert(r[r.len() - 1] == y);
                }
            }
            if y == x {
                let i = choose|i: int| 0 <= i < w.len() && w[i] == y;
                assert(r[i] == y);
            }
        }
        assert forall|i: int, j: int| 0 <= i < j < r.len() implies #[trigger] comes_first(
            keys,
            r[i],
            r[j],
        ) by {
            if j < w.len() {
                assert(comes_first(keys, w[i], w[j]));
            } else {
                assert(w.contains(w[i]));
                if w[i] != x {
                    let k = choose|k: int| 0 <= k < u.len() && u[k] == w[i];
                    assert(comes_first(keys, order[k], order[order.len() - 1]));
                }
            }
        }
    } else {
        assert forall|i: int| 0 <= i < r.len() implies 0 <= #[trigger] r[i] <= x by {
            if i < order.len() {
                assert(r[i] == order[i]);
            }
        }
        assert forall|y: int| #[trigger] r.contains(y) <==> y == x || order.contains(y) by {
            if r.contains(y) {
                let i = choose|i: int| 0 <= i < r.len() && r[i] == y;
                if i < order.len() {
                    assert(order[i] == y);
                }
            }
            if order.contains(y) {
                let k = choose|k: int| 0 <= k < order.len() && order[k] == y;
                assert(r[k] == y);
            }
            if y == x {
                assert(r[order.len() as int] == y);
            }
        }
        assert forall|i: int, j: int| 0 <= i < j < r.len() implies #[trigger] comes_first(
            keys,
            r[i],
            r[j],
        ) by {
            if j < order.len() {
                assert(comes_first(keys, order[i], order[j]));
            } else if i < order.len() - 1 {
                assert(comes_first(keys, order[i], order[order.len() - 1]));
                assert(order[order.len() - 1] < x);
            } else {
                assert(order[i] < x);
            }
        }
    }
}

/// Ordering positions by their keys loses none and adds none, puts smaller keys
/// first, and leaves positions of the same key in their own order.
pub proof fn law_ascending(keys: Seq<i128>, n: nat)
    ensures
        ascending(keys, n).len() == n,
        forall|i: int| 0 <= i < n ==> 0 <= #[trigger] ascending(keys, n)[i] < n,
        forall|y: int| 0 <= y < n ==> #[trigger] ascending(keys, n).contains(y),
        forall|i: int, j: int|
            0 <= i < j < n ==> #[trigger] comes_first(
                keys,
                ascending(keys, n)[i],
                ascending(keys, n)[j],
            ),
    decreases n,
{
    if n > 0 {
        law_ascending(keys, (n - 1) as nat);
        lemma_insert(ascending(keys, (n - 1) as nat), keys, n - 1);
    }
}

/// All positions, in ascending order of their keys.
pub fn ascending_order(keys: &Vec<i128>) -> (r: Vec<usize>)
    ensures
        positions(r@) == ascending(keys@, keys@.len()),
        r@.len() == keys@.len(),
        forall|i: int| 0 <= i < r@.len() ==> (#[trigger] r@[i]) < keys@.len(),
{
    let mut out: Vec<usize> = Vec::new();
    assert(positions(out@) =~= Seq::empty());
    let mut n: usize = 0;
    while n < keys.len()
        invariant
            n <= keys@.len(),
            out@.len() == n,
            positions(out@) == ascending(keys@, n as nat),
            forall|i: int| 0 <= i < n ==> (#[trigger] out@[i]) < n,
        decreases keys@.len() - n,
    {
        let ghost before = positions(out@);
        let mut k: usize = n;
        assert(before.take(k as int) =~= before);
        assert(before.skip(k as int) =~= Seq::empty());
        assert(insert_position(before, keys@, n as int) =~= insert_position(
            before.take(k as int),
            keys@,
            n as int,
        ) + before.skip(k as int));
        while k > 0 && keys[out[k - 1]] > keys[n]
            invariant
                n < keys@.len(),
                k <= n,
                out@.len() == n,
                before == positions(out@),
                forall|i: int| 0 <= i < n ==> (#[trigger] out@[i]) < n,
                insert_position(before, keys@, n as int) == insert_position(
                    before.take(k as int),
                    keys@,
                    n as int,
                ) + before.skip(k as int),
            decreases k,
        {
            assert(before[k - 1] == out@[k - 1] as int);
            assert(before.take(k as int).drop_last() =~= before.take(k - 1));
            assert(before.take(k as int).last() == before[k - 1]);
            assert(insert_position(before.take(k - 1), keys@, n as int).push(before[k - 1])
                + before.skip(k as int) =~= insert_position(before.take(k - 1), keys@, n as int)
                + before.skip(k - 1));
            k = k - 1;
        }
        assert(k > 0 ==> before.take(k as int).last() == out@[k - 1] as int);
        let ghost old_out = out@;
        out.insert(k, n);
        assert(positions(out@) =~= before.take(k as int).push(n as int) + before.skip(k as int));
        assert forall|i: int| 0 <= i < n + 1 implies (#[trigger] out@[i]) < n + 1 by {
            if i < k {
                assert(out@[i] == old_out[i]);
            } else if i > k {
                assert(out@[i] == old_out[i - 1]);
            }
        }
        n = n + 1;
    }
    out
}

/// All positions, in descending order of their keys.
pub fn descending_order(keys: &Vec<i64>) -> (r: Vec<usize>)
    ensures
        positions(r@) == descending(keys@),
        r@.len() == keys@.len(),
        forall|i: int| 0 <= i < r@.len() ==> (#[trigger] r@[i]) < keys@.len(),
{
    let mut flipped: Vec<i128> = Vec::new();
    let mut i: usize = 0;
    while i < keys.len()
        invariant
            i <= keys@.len(),
            flipped@ == reversed(keys@).take(i as int),
        decreases keys@.len() - i,
    {
        let k: i128 = keys[i] as i128;
        flipped.push(-k);
        assert(reversed(keys@).take(i + 1) =~= reversed(keys@).take(i as int).push(-k as i128));
        i = i + 1;
    }
    assert(reversed(keys@).take(keys@.len() as int) =~= reversed(keys@));
    ascending_order(&flipped)
}

/// The first `k` positions, or all where there are fewer.
pub open spec fn first_of(order: Seq<int>, k: nat) -> Seq<int> {
    if order.len() <= k {
        order
    } else {
        order.take(k as int)
    }
}

/// The positions of the `k` greatest keys, greatest first.
pub fn top(keys: &Vec<i64>, k: usize) -> (r: Vec<usize>)
    ensures
        positions(r@) == first_of(descending(keys@), k as nat),
        forall|i: int| 0 <= i < r@.len() ==> (#[trigger] r@[i]) < keys@.len(),
{
    let mut out = descending_order(keys);
    let ghost all = out@;
    if out.len() > k {
        out.truncate(k);
        assert(positions(out@) =~= positions(all).take(k as int));
    }
    out
}

/// The descending order holds every position once; of two positions the one with the
/// greater key comes first, and of two with the same key the first.
pub proof fn law_descending(keys: Seq<i64>)
    ensures
        descending(keys).len() == keys.len(),
        descending(keys).no_duplicates(),
        forall|i: int| 0 <= i < keys.len() ==> 0 <= #[trigger] descending(keys)[i] < keys.len(),
        forall|y: int| 0 <= y < keys.len() ==> #[trigger] descending(keys).contains(y),
        forall|i: int, j: int|
            0 <= i < j < keys.len() ==> {
                let a = #[trigger] descending(keys)[i];
                let b = #[trigger] descending(keys)[j];
                keys[a] > keys[b] || (keys[a] == keys[b] && a < b)
            },
{
    let r = reversed(keys);
    let d = descending(keys);
    law_ascending(r, keys.len());
    assert forall|i: int, j: int| 0 <= i < j < keys.len() implies {
        let a = #[trigger] d[i];
        let b = #[trigger] d[j];
        keys[a] > keys[b] || (keys[a] == keys[b] && a < b)
    } by {
        assert(comes_first(r, d[i], d[j]));
    }
}

/// The best of a choice are the first positions of the descending order: at most as
/// many as were asked for, all where there are no more, and none outside has a greater
/// key than one of them.
pub proof fn law_best_are_chosen(keys: Seq<i64>, k: nat)
    ensures
        first_of(descending(keys), k).len() == if keys.len() <= k {
            keys.len()
        } else {
            k
        },
        first_of(descending(keys), k).no_duplicates(),
        forall|i: int|
            0 <= i < first_of(descending(keys), k).len() ==> 0 <= #[trigger] first_of(
                descending(keys),
                k,
            )[i] < keys.len(),
        forall|i: int, y: int|
            0 <= i < first_of(descending(keys), k).len() && 0 <= y < keys.len()
                && !#[trigger] first_of(descending(keys), k).contains(y)
                ==> keys[#[trigger] first_of(descending(keys), k)[i]] >= keys[y],
        forall|i: int, j: int|
            0 <= i < j < first_of(descending(keys), k).len() ==> keys[#[trigger] first_of(
                descending(keys),
                k,
            )[i]] >= keys[#[trigger] first_of(descending(keys), k)[j]],
{
    let d = descending(keys);
    let f = first_of(d, k);
    law_descending(keys);
    assert forall|i: int, y: int|
        0 <= i < f.len() && 0 <= y < keys.len() && !#[trigger] f.contains(y) implies keys[
    #[trigger] f[i]] >= keys[y] by {
        assert(d.contains(y));
        let j = choose|j: int| 0 <= j < d.len() && d[j] == y;
        if j < f.len() {
            assert(f[j] == y);
        }
        assert(f[i] == d[i]);
    }
}

} // verus!
