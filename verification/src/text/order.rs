//! Texts in dictionary order.

use crate::text::{model, ops};
use vstd::prelude::*;
use vstd::string::*;

verus! {

/// Whether `a` comes before `b`: at the first position where they differ, `a`
/// has the smaller character or has ended.
pub open spec fn precedes(a: Seq<char>, b: Seq<char>) -> bool
    decreases a.len(),
{
    if b.len() == 0 {
        false
    } else if a.len() == 0 {
        true
    } else if a[0] != b[0] {
        a[0] < b[0]
    } else {
        precedes(a.skip(1), b.skip(1))
    }
}

/// The sorted texts with one more, which stands after its equals.
pub open spec fn insert_sorted(v: Seq<Seq<char>>, x: Seq<char>) -> Seq<Seq<char>>
    decreases v.len(),
{
    if v.len() > 0 && precedes(x, v.last()) {
        insert_sorted(v.drop_last(), x).push(v.last())
    } else {
        v.push(x)
    }
}

/// The texts in order.
pub open spec fn sorted(v: Seq<Seq<char>>) -> Seq<Seq<char>>
    decreases v.len(),
{
    if v.len() == 0 {
        v
    } else {
        insert_sorted(sorted(v.drop_last()), v.last())
    }
}

/// Whether one text comes before another.
pub fn comes_before(a: &str, b: &str) -> (r: bool)
    ensures
        r == precedes(a@, b@),
{
    let x = ops::chars_of(a);
    let y = ops::chars_of(b);
    let mut i: usize = 0;
    assert(x@.skip(0) =~= x@);
    assert(y@.skip(0) =~= y@);
    while i < x.len() && i < y.len()
        invariant
            i <= x@.len(),
            i <= y@.len(),
            x@ == a@,
            y@ == b@,
            precedes(x@, y@) == precedes(x@.skip(i as int), y@.skip(i as int)),
        decreases x@.len() - i,
    {
        if x[i] != y[i] {
            return x[i] < y[i];
        }
        assert(x@.skip(i as int).skip(1) =~= x@.skip(i + 1));
        assert(y@.skip(i as int).skip(1) =~= y@.skip(i + 1));
        i = i + 1;
    }
    i < y.len()
}

/// The texts in order.
pub fn sort(v: Vec<String>) -> (r: Vec<String>)
    ensures
        model::texts(r@) == sorted(model::texts(v@)),
{
    let ghost all = model::texts(v@);
    let mut out: Vec<String> = Vec::new();
    assert(model::texts(out@) =~= all.take(0));
    let mut i: usize = 0;
    while i < v.len()
        invariant
            i <= v@.len(),
            all == model::texts(v@),
            model::texts(out@) == sorted(all.take(i as int)),
        decreases v@.len() - i,
    {
        let ghost before = model::texts(out@);
        assert(all.take(i + 1).drop_last() =~= all.take(i as int));
        assert(all.take(i + 1).last() == v@[i as int]@);
        let mut k: usize = out.len();
        assert(before.take(k as int) =~= before);
        assert(before.skip(k as int) =~= Seq::empty());
        assert(insert_sorted(before, v@[i as int]@) =~= insert_sorted(
            before.take(k as int),
            v@[i as int]@,
        ) + before.skip(k as int));
        while k > 0 && comes_before(v[i].as_str(), out[k - 1].as_str())
            invariant
                i < v@.len(),
                k <= out@.len(),
                before == model::texts(out@),
                insert_sorted(before, v@[i as int]@) == insert_sorted(
                    before.take(k as int),
                    v@[i as int]@,
                ) + before.skip(k as int),
            decreases k,
        {
            assert(before[k - 1] == out@[k - 1]@);
            assert(before.take(k as int).drop_last() =~= before.take(k - 1));
            assert(before.take(k as int).last() == before[k - 1]);
            assert(insert_sorted(before.take(k - 1), v@[i as int]@).push(before[k - 1])
                + before.skip(k as int) =~= insert_sorted(before.take(k - 1), v@[i as int]@)
                + before.skip(k - 1));
            k = k - 1;
        }
        assert(k > 0 ==> before.take(k as int).last() == out@[k - 1]@);
        out.insert(k, v[i].clone());
        assert(model::texts(out@) =~= before.take(k as int).push(v@[i as int]@) + before.skip(
            k as int,
        ));
        i = i + 1;
    }
    assert(all.take(all.len() as int) =~= all);
    out
}

/// `b` does not come before `a`.
pub open spec fn in_order(a: Seq<char>, b: Seq<char>) -> bool {
    !precedes(b, a)
}

proof fn lemma_order_total(a: Seq<char>, b: Seq<char>)
    ensures
        precedes(a, b) ==> in_order(a, b),
    decreases a.len(),
{
    if a.len() > 0 && b.len() > 0 && a[0] == b[0] {
        lemma_order_total(a.skip(1), b.skip(1));
    }
}

proof fn lemma_order_transitive(a: Seq<char>, b: Seq<char>, c: Seq<char>)
    requires
        in_order(a, b),
        in_order(b, c),
    ensures
        in_order(a, c),
    decreases a.len(),
{
    if a.len() > 0 && b.len() > 0 && c.len() > 0 && a[0] == c[0] && a[0] == b[0] {
        lemma_order_transitive(a.skip(1), b.skip(1), c.skip(1));
    }
}

proof fn lemma_insert_sorted(v: Seq<Seq<char>>, x: Seq<char>)
    requires
        forall|i: int, j: int| 0 <= i <= j < v.len() ==> in_order(v[i], v[j]),
    ensures
        forall|i: int, j: int|
            0 <= i <= j < insert_sorted(v, x).len() ==> in_order(
                insert_sorted(v, x)[i],
                insert_sorted(v, x)[j],
            ),
        insert_sorted(v, x).to_multiset() == v.to_multiset().insert(x),
        insert_sorted(v, x).len() == v.len() + 1,
        forall|i: int|
            0 <= i < insert_sorted(v, x).len() ==> (#[trigger] insert_sorted(v, x)[i] == x
                || v.contains(insert_sorted(v, x)[i])),
    decreases v.len(),
{
    broadcast use vstd::seq_lib::group_to_multiset_ensures;

    let w = insert_sorted(v, x);
    lemma_order_total(x, x);
    assert(in_order(x, x)) by {
        if precedes(x, x) {
            lemma_order_total(x, x);
        }
    }
    if v.len() > 0 && precedes(x, v.last()) {
        let u = v.drop_last();
        lemma_insert_sorted(u, x);
        lemma_order_total(x, v.last());
        assert(v =~= u.push(v.last()));
        assert(w.to_multiset() =~= v.to_multiset().insert(x));
        assert forall|i: int, j: int| 0 <= i <= j < w.len() implies in_order(w[i], w[j]) by {
            if j == w.len() - 1 && i < j {
                let y = insert_sorted(u, x)[i];
                if y != x {
                    let k = choose|k: int| 0 <= k < u.len() && u[k] == y;
                    assert(v[k] == y);
                }
            } else if i == j {
                assert(in_order(v.last(), v.last())) by {
                    assert(v[v.len() - 1] == v.last());
                }
                if j < w.len() - 1 {
                    assert(w[j] == insert_sorted(u, x)[j]);
                }
            } else {
                assert(w[i] == insert_sorted(u, x)[i]);
                assert(w[j] == insert_sorted(u, x)[j]);
            }
        }
        assert forall|i: int| 0 <= i < w.len() implies (#[trigger] w[i] == x || v.contains(
            w[i],
        )) by {
            if i < w.len() - 1 {
                let y = insert_sorted(u, x)[i];
                if y != x {
                    let k = choose|k: int| 0 <= k < u.len() && u[k] == y;
                    assert(v[k] == y);
                }
            } else {
                assert(v[v.len() - 1] == w[i]);
            }
        }
    } else {
        assert forall|i: int, j: int| 0 <= i <= j < w.len() implies in_order(w[i], w[j]) by {
            if j == v.len() && i < j {
                lemma_order_transitive(v[i], v.last(), x);
            }
        }
        assert forall|i: int| 0 <= i < w.len() implies (#[trigger] w[i] == x || v.contains(
            w[i],
        )) by {
            if i < v.len() {
                assert(v[i] == w[i]);
            }
        }
    }
}

/// Sorting texts puts them in dictionary order and neither loses nor adds one.
pub proof fn law_sorted(v: Seq<Seq<char>>)
    ensures
        forall|i: int, j: int|
            0 <= i <= j < sorted(v).len() ==> in_order(sorted(v)[i], sorted(v)[j]),
        sorted(v).to_multiset() == v.to_multiset(),
        sorted(v).len() == v.len(),
    decreases v.len(),
{
    broadcast use vstd::seq_lib::group_to_multiset_ensures;

    if v.len() > 0 {
        law_sorted(v.drop_last());
        lemma_insert_sorted(sorted(v.drop_last()), v.last());
        assert(v =~= v.drop_last().push(v.last()));
    }
}

/// The list without the repetitions of neighbours.
pub open spec fn deduped(v: Seq<Seq<char>>) -> Seq<Seq<char>>
    decreases v.len(),
{
    if v.len() <= 1 {
        v
    } else {
        let before = deduped(v.drop_last());
        if before.last() == v.last() {
            before
        } else {
            before.push(v.last())
        }
    }
}

/// The list without the repetitions of neighbours.
pub fn dedup(v: &Vec<String>) -> (r: Vec<String>)
    ensures
        model::texts(r@) == deduped(model::texts(v@)),
{
    let ghost all = model::texts(v@);
    let mut out: Vec<String> = Vec::new();
    assert(model::texts(out@) =~= all.take(0));
    let mut i: usize = 0;
    while i < v.len()
        invariant
            i <= v@.len(),
            all == model::texts(v@),
            model::texts(out@) == deduped(all.take(i as int)),
            i > 0 ==> out@.len() > 0,
        decreases v@.len() - i,
    {
        assert(all[i as int] == v@[i as int]@);
        assert(all.take(i + 1).drop_last() =~= all.take(i as int));
        let n: usize = out.len();
        if n == 0 || !ops::same_text(out[n - 1].as_str(), v[i].as_str()) {
            let ghost before = out@;
            let item = v[i].clone();
            let ghost shown = item@;
            out.push(item);
            assert(model::texts(out@) =~= model::texts(before).push(shown));
        }
        i = i + 1;
    }
    assert(all.take(all.len() as int) =~= all);
    out
}

/// Taking repetitions out loses no text.
pub proof fn law_dedup_loses_nothing(v: Seq<Seq<char>>, x: Seq<char>)
    ensures
        deduped(v).contains(x) <==> v.contains(x),
        v.len() > 0 ==> deduped(v).len() > 0 && deduped(v).last() == v.last(),
        forall|i: int| 0 < i < deduped(v).len() ==> #[trigger] deduped(v)[i] != deduped(v)[i - 1],
    decreases v.len(),
{
    if v.len() > 1 {
        let p = v.drop_last();
        let before = deduped(p);
        let after = deduped(v);
        law_dedup_loses_nothing(p, x);
        if before.contains(x) {
            let i = choose|i: int| 0 <= i < before.len() && before[i] == x;
            assert(after[i] == x);
        }
        if p.contains(x) {
            let i = choose|i: int| 0 <= i < p.len() && p[i] == x;
            assert(v[i] == x);
        }
        if v.contains(x) && !p.contains(x) {
            let i = choose|i: int| 0 <= i < v.len() && v[i] == x;
            if i < p.len() {
                assert(p[i] == x);
            }
            assert(after.last() == x);
            assert(after[after.len() - 1] == x);
        }
        if after.contains(x) && !before.contains(x) {
            let i = choose|i: int| 0 <= i < after.len() && after[i] == x;
            if i < before.len() {
                assert(before[i] == x);
            }
            assert(v[v.len() - 1] == x);
        }
    }
}

/// Dictionary order goes by the first character in which two texts differ, and a text
/// comes before what it is the beginning of; none comes before itself.
pub proof fn law_dictionary_order(p: Seq<char>, x: char, s: Seq<char>, y: char, t: Seq<char>)
    ensures
        x < y ==> precedes(p + seq![x] + s, p + seq![y] + t) && !precedes(
            p + seq![y] + t,
            p + seq![x] + s,
        ),
        precedes(p, p + seq![x] + s),
        !precedes(p + seq![x] + s, p),
        !precedes(p, p),
    decreases p.len(),
{
    let a = p + seq![x] + s;
    let b = p + seq![y] + t;
    if p.len() == 0 {
        assert(a[0] == x && b[0] == y);
    } else {
        let q = p.skip(1);
        law_dictionary_order(q, x, s, y, t);
        assert(a.skip(1) =~= q + seq![x] + s);
        assert(b.skip(1) =~= q + seq![y] + t);
        assert(a[0] == p[0] && b[0] == p[0]);
    }
}

} // verus!
