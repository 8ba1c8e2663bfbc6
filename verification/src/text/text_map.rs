//! A map from texts to values that remembers the order in which its keys were
//! added.

use crate::text::{model, ops};
use vstd::prelude::*;
use vstd::string::*;

verus! {

/// A map from texts to values.
#[derive(Debug)]
pub struct TextMap<V> {
    keys: Vec<String>,
    values: Vec<V>,
}

/// The keys without one of them.
pub open spec fn without(order: Seq<Seq<char>>, k: Seq<char>) -> Seq<Seq<char>> {
    if order.contains(k) {
        order.remove(order.index_of(k))
    } else {
        order
    }
}

/// The keys with one more, at the end unless it is there already.
pub open spec fn with(order: Seq<Seq<char>>, k: Seq<char>) -> Seq<Seq<char>> {
    if order.contains(k) {
        order
    } else {
        order.push(k)
    }
}

/// The texts under the keys of a map.
pub open spec fn shown(m: Map<Seq<char>, String>) -> Map<Seq<char>, Seq<char>> {
    Map::new(|k: Seq<char>| m.contains_key(k), |k: Seq<char>| m[k]@)
}

/// The texts under the keys after one was put there.
pub proof fn lemma_shown_insert(m: Map<Seq<char>, String>, k: Seq<char>, v: String)
    ensures
        shown(m.insert(k, v)) == shown(m).insert(k, v@),
{
    assert(shown(m.insert(k, v)) =~= shown(m).insert(k, v@));
}

/// The texts under the keys after one was taken away.
pub proof fn lemma_shown_remove(m: Map<Seq<char>, String>, k: Seq<char>)
    ensures
        shown(m.remove(k)) == shown(m).remove(k),
{
    assert(shown(m.remove(k)) =~= shown(m).remove(k));
}

impl<V> View for TextMap<V> {
    type V = Map<Seq<char>, V>;

    closed spec fn view(&self) -> Map<Seq<char>, V> {
        Map::new(
            |k: Seq<char>| model::texts(self.keys@).contains(k),
            |k: Seq<char>| self.values@[model::texts(self.keys@).index_of(k)],
        )
    }
}

impl<V> TextMap<V> {
    /// The keys, in the order in which they were added.
    pub closed spec fn order(&self) -> Seq<Seq<char>> {
        model::texts(self.keys@)
    }

    /// No key is there twice, and each has a value.
    pub closed spec fn wf(&self) -> bool {
        &&& self.keys@.len() == self.values@.len()
        &&& model::texts(self.keys@).no_duplicates()
    }

    /// The map without keys.
    pub fn new() -> (r: Self)
        ensures
            r.wf(),
            r@ == Map::<Seq<char>, V>::empty(),
            r.order() == Seq::<Seq<char>>::empty(),
    {
        let m = TextMap { keys: Vec::new(), values: Vec::new() };
        assert(model::texts(m.keys@) =~= Seq::empty());
        assert(m@ =~= Map::empty());
        m
    }

    /// Where a key stands.
    pub fn slot(&self, key: &str) -> (r: Option<usize>)
        requires
            self.wf(),
        ensures
            match r {
                Some(i) => i < self.order().len() && self.order()[i as int] == key@
                    && self@.contains_key(key@),
                None => !self.order().contains(key@) && !self@.contains_key(key@),
            },
    {
        let ghost order = self.order();
        let mut i: usize = 0;
        while i < self.keys.len()
            invariant
                i <= self.keys@.len(),
                order == model::texts(self.keys@),
                forall|j: int| 0 <= j < i ==> order[j] != key@,
            decreases self.keys@.len() - i,
        {
            assert(order[i as int] == self.keys@[i as int]@);
            if ops::same_text(self.keys[i].as_str(), key) {
                assert(order.contains(key@));
                return Some(i);
            }
            i = i + 1;
        }
        None
    }

    /// How many keys there are.
    pub fn len(&self) -> (r: usize)
        requires
            self.wf(),
        ensures
            r == self.order().len(),
    {
        self.keys.len()
    }

    /// Whether there are no keys.
    pub fn is_empty(&self) -> (r: bool)
        requires
            self.wf(),
        ensures
            r == (self.order().len() == 0),
    {
        self.keys.len() == 0
    }

    /// Takes away every key.
    pub fn clear(&mut self)
        ensures
            final(self).wf(),
            final(self)@ == Map::<Seq<char>, V>::empty(),
            final(self).order() == Seq::<Seq<char>>::empty(),
    {
        *self = TextMap::new();
    }

    /// The key at a place.
    pub fn key_at(&self, i: usize) -> (r: &String)
        requires
            self.wf(),
            i < self.order().len(),
        ensures
            r@ == self.order()[i as int],
            self@.contains_key(r@),
    {
        assert(self.order()[i as int] == self.keys@[i as int]@);
        assert(self.order().contains(self.order()[i as int]));
        &self.keys[i]
    }

    /// The value at a place.
    pub fn value_at(&self, i: usize) -> (r: &V)
        requires
            self.wf(),
            i < self.order().len(),
        ensures
            *r == self@[self.order()[i as int]],
            self@.contains_key(self.order()[i as int]),
    {
        proof {
            self.lemma_at(i as int);
        }
        &self.values[i]
    }

    /// The value under the key at a place.
    proof fn lemma_at(&self, i: int)
        requires
            self.wf(),
            0 <= i < self.order().len(),
        ensures
            self@.contains_key(self.order()[i]),
            self@[self.order()[i]] == self.values@[i],
            self.order().index_of(self.order()[i]) == i,
    {
        let k = self.order()[i];
        assert(self.order().contains(k));
        let j = self.order().index_of(k);
        assert(0 <= j < self.order().len() && self.order()[j] == k);
    }

    /// The keys of the map are the keys in order.
    pub proof fn lemma_order(&self, k: Seq<char>)
        requires
            self.wf(),
        ensures
            self@.contains_key(k) <==> self.order().contains(k),
            self.order().no_duplicates(),
    {
    }

    /// Whether there is a value under the key.
    pub fn contains_key(&self, key: &str) -> (r: bool)
        requires
            self.wf(),
        ensures
            r == self@.contains_key(key@),
    {
        self.slot(key).is_some()
    }

    /// The value under a key.
    pub fn get(&self, key: &str) -> (r: Option<&V>)
        requires
            self.wf(),
        ensures
            match r {
                Some(v) => self@.contains_key(key@) && *v == self@[key@],
                None => !self@.contains_key(key@),
            },
    {
        match self.slot(key) {
            Some(i) => Some(self.value_at(i)),
            None => None,
        }
    }

    /// Puts another value at a place, and returns the one that was there.
    pub fn set_at(&mut self, i: usize, value: V) -> (r: V)
        requires
            old(self).wf(),
            i < old(self).order().len(),
        ensures
            final(self).wf(),
            final(self).order() == old(self).order(),
            final(self)@ == old(self)@.insert(old(self).order()[i as int], value),
            r == old(self)@[old(self).order()[i as int]],
    {
        proof {
            self.lemma_at(i as int);
        }
        let ghost k = self.order()[i as int];
        let mut other = value;
        self.values.set_and_swap(i, &mut other);
        proof {
            assert(self.order() == old(self).order());
            assert forall|x: Seq<char>| #[trigger] self@.contains_key(x) implies self@[x]
                == old(self)@.insert(k, value)[x] by {
                let j = self.order().index_of(x);
                assert(0 <= j < self.order().len() && self.order()[j] == x);
            }
            assert(self@ =~= old(self)@.insert(k, value));
        }
        other
    }

    /// Puts a value under a key, and returns the one that was there.
    pub fn insert(&mut self, key: String, value: V) -> (r: Option<V>)
        requires
            old(self).wf(),
        ensures
            final(self).wf(),
            final(self)@ == old(self)@.insert(key@, value),
            final(self).order() == with(old(self).order(), key@),
            match r {
                Some(v) => old(self)@.contains_key(key@) && v == old(self)@[key@],
                None => !old(self)@.contains_key(key@),
            },
    {
        match self.slot(key.as_str()) {
            Some(i) => {
                assert(self.order().contains(key@));
                Some(self.set_at(i, value))
            },
            None => {
                let ghost k = key@;
                let ghost before = self.order();
                self.keys.push(key);
                self.values.push(value);
                proof {
                    assert(self.order() =~= before.push(k));
                    assert(self.wf());
                    assert forall|x: Seq<char>| self@.contains_key(x) <==> old(self)@.insert(
                        k,
                        value,
                    ).contains_key(x) by {
                        if before.contains(x) {
                            let j = before.index_of(x);
                            assert(self.order()[j] == x);
                        }
                        if x == k {
                            assert(self.order()[before.len() as int] == k);
                        }
                    }
                    assert forall|x: Seq<char>| #[trigger] self@.contains_key(x) implies self@[x]
                        == old(self)@.insert(k, value)[x] by {
                        let j = self.order().index_of(x);
                        assert(0 <= j < self.order().len() && self.order()[j] == x);
                        if x != k {
                            let q = before.index_of(x);
                            assert(before.contains(x)) by {
                                assert(before[j] == x);
                            }
                            assert(self.order()[q] == x);
                        }
                    }
                    assert(self@ =~= old(self)@.insert(k, value));
                }
                None
            },
        }
    }

    /// Takes away a key, and returns the value that was under it.
    pub fn remove(&mut self, key: &str) -> (r: Option<V>)
        requires
            old(self).wf(),
        ensures
            final(self).wf(),
            final(self)@ == old(self)@.remove(key@),
            final(self).order() == without(old(self).order(), key@),
            match r {
                Some(v) => old(self)@.contains_key(key@) && v == old(self)@[key@],
                None => !old(self)@.contains_key(key@),
            },
    {
        match self.slot(key) {
            Some(i) => {
                proof {
                    self.lemma_at(i as int);
                }
                let ghost before = self.order();
                let ghost vals = self.values@;
                self.keys.remove(i);
                let v = self.values.remove(i);
                proof {
                    assert(self.order() =~= before.remove(i as int));
                    assert(before.index_of(key@) == i);
                    assert forall|a: int, b: int|
                        0 <= a < self.order().len() && 0 <= b < self.order().len() && a
                            != b implies self.order()[a] != self.order()[b] by {
                        let x = if a < i { a } else { a + 1 };
                        let y = if b < i { b } else { b + 1 };
                        assert(self.order()[a] == before[x]);
                        assert(self.order()[b] == before[y]);
                    }
                    assert(self.wf());
                    assert forall|x: Seq<char>| self@.contains_key(x) <==> old(self)@.remove(
                        key@,
                    ).contains_key(x) by {
                        if self.order().contains(x) {
                            let j = self.order().index_of(x);
                            let q = if j < i { j } else { j + 1 };
                            assert(before[q] == x);
                        }
                        if before.contains(x) && x != key@ {
                            let q = before.index_of(x);
                            let j = if q < i { q } else { q - 1 };
                            assert(self.order()[j] == x);
                        }
                    }
                    assert forall|x: Seq<char>| #[trigger] self@.contains_key(x) implies self@[x]
                        == old(self)@.remove(key@)[x] by {
                        let j = self.order().index_of(x);
                        assert(0 <= j < self.order().len() && self.order()[j] == x);
                        let q = if j < i { j } else { j + 1 };
                        assert(before[q] == x);
                        assert(before.index_of(x) == q);
                    }
                    assert(self@ =~= old(self)@.remove(key@));
                }
                Some(v)
            },
            None => {
                assert(self@.remove(key@) =~= self@);
                None
            },
        }
    }
}

/// A new key comes last, and one that is there already keeps its place.
pub proof fn law_keys_keep_their_places(order: Seq<Seq<char>>, k: Seq<char>)
    ensures
        with(order, k).contains(k),
        order.contains(k) ==> with(order, k) == order,
        !order.contains(k) ==> with(order, k) == order.push(k),
{
    if !order.contains(k) {
        assert(with(order, k)[order.len() as int] == k);
    }
}

/// A key that is taken away leaves the others in their order.
pub proof fn law_key_is_taken_away(a: Seq<Seq<char>>, k: Seq<char>, b: Seq<Seq<char>>)
    requires
        !a.contains(k),
        !b.contains(k),
    ensures
        without(a + seq![k] + b, k) == a + b,
        without(a, k) == a,
        !without(a + seq![k] + b, k).contains(k),
{
    let v = a + seq![k] + b;
    assert(v[a.len() as int] == k);
    let i = v.index_of(k);
    assert(v.contains(k));
    assert(0 <= i < v.len() && v[i] == k);
    if i < a.len() {
        assert(a.contains(a[i]));
    } else if i > a.len() {
        assert(b.contains(b[i - a.len() - 1]));
    }
    assert(v.remove(i) =~= a + b);
    assert(!(a + b).contains(k)) by {
        if (a + b).contains(k) {
            let j = choose|j: int| 0 <= j < (a + b).len() && (a + b)[j] == k;
            if j < a.len() {
                assert(a.contains(a[j]));
            } else {
                assert(b.contains(b[j - a.len()]));
            }
        }
    }
}

} // verus!
