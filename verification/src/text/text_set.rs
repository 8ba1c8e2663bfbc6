//! A set of texts.

use crate::text::{model, ops};
use vstd::prelude::*;

verus! {

/// A set of texts.
#[derive(Debug)]
pub struct TextSet {
    items: Vec<String>,
}

impl View for TextSet {
    type V = Set<Seq<char>>;

    closed spec fn view(&self) -> Set<Seq<char>> {
        model::texts(self.items@).to_set()
    }
}

impl TextSet {
    /// No text is there twice.
    pub closed spec fn wf(&self) -> bool {
        model::texts(self.items@).no_duplicates()
    }

    /// A set without texts.
    pub fn new() -> (r: Self)
        ensures
            r.wf(),
            r@ == Set::<Seq<char>>::empty(),
    {
        let r = TextSet { items: Vec::new() };
        assert(model::texts(r.items@) =~= Seq::empty());
        assert(r@ =~= Set::empty());
        r
    }

    /// Whether a text is in the set.
    pub fn contains(&self, s: &str) -> (r: bool)
        ensures
            r == self@.contains(s@),
    {
        ops::has_text(self.items.as_slice(), s)
    }

    /// Puts a text into the set and says whether it is new.
    pub fn insert(&mut self, s: String) -> (r: bool)
        requires
            old(self).wf(),
        ensures
            final(self).wf(),
            final(self)@ == old(self)@.insert(s@),
            r == !old(self)@.contains(s@),
    {
        if self.contains(s.as_str()) {
            assert(self@.insert(s@) =~= self@);
            return false;
        }
        let ghost before = model::texts(self.items@);
        let ghost shown = s@;
        self.items.push(s);
        proof {
            let after = model::texts(self.items@);
            assert(after =~= before.push(shown));
            assert forall|x: Seq<char>| after.to_set().contains(x) <==> before.to_set().insert(
                shown,
            ).contains(x) by {
                if before.contains(x) {
                    let i = before.index_of(x);
                    assert(after[i] == x);
                }
                assert(after[before.len() as int] == shown);
            }
            assert(self@ =~= old(self)@.insert(shown));
        }
        true
    }

    /// Takes a text out of the set and says whether it was there.
    pub fn remove(&mut self, s: &str) -> (r: bool)
        requires
            old(self).wf(),
        ensures
            final(self).wf(),
            final(self)@ == old(self)@.remove(s@),
            r == old(self)@.contains(s@),
    {
        let ghost before = model::texts(self.items@);
        let mut i: usize = 0;
        while i < self.items.len()
            invariant
                i <= self.items@.len(),
                self == old(self),
                before == model::texts(self.items@),
                before.no_duplicates(),
                forall|j: int| 0 <= j < i ==> (#[trigger] before[j]) != s@,
            decreases self.items@.len() - i,
        {
            assert(before[i as int] == self.items@[i as int]@);
            if ops::same_text(self.items[i].as_str(), s) {
                self.items.remove(i);
                proof {
                    let after = model::texts(self.items@);
                    assert(after =~= before.remove(i as int));
                    assert forall|a: int, b: int|
                        0 <= a < after.len() && 0 <= b < after.len() && a != b implies after[a]
                        != after[b] by {
                        let x = if a < i { a } else { a + 1 };
                        let y = if b < i { b } else { b + 1 };
                        assert(after[a] == before[x]);
                        assert(after[b] == before[y]);
                    }
                    assert forall|x: Seq<char>| after.to_set().contains(x)
                        <==> before.to_set().remove(s@).contains(x) by {
                        if after.contains(x) {
                            let j = after.index_of(x);
                            let q = if j < i { j } else { j + 1 };
                            assert(before[q] == x);
                            assert(before[i as int] == s@);
                        }
                        if before.contains(x) && x != s@ {
                            let q = before.index_of(x);
                            let j = if q < i { q } else { q - 1 };
                            assert(after[j] == x);
                        }
                    }
                    assert(self@ =~= old(self)@.remove(s@));
                    assert(before.contains(before[i as int]));
                }
                return true;
            }
            i = i + 1;
        }
        assert(!before.contains(s@));
        assert(self@.remove(s@) =~= self@);
        false
    }

    /// How many texts are in the set.
    pub fn len(&self) -> (r: usize)
        requires
            self.wf(),
        ensures
            self@.finite(),
            r == self@.len(),
    {
        proof {
            model::texts(self.items@).unique_seq_to_set();
            vstd::seq_lib::seq_to_set_is_finite(model::texts(self.items@));
        }
        self.items.len()
    }

    /// Whether the set has no text.
    pub fn is_empty(&self) -> (r: bool)
        ensures
            r == (self@ == Set::<Seq<char>>::empty()),
    {
        let empty = self.items.len() == 0;
        proof {
            let v = model::texts(self.items@);
            if empty {
                assert(self@ =~= Set::empty());
            } else {
                assert(v.contains(v[0]));
                assert(self@.contains(v[0]));
            }
        }
        empty
    }

    /// How many texts are in both sets.
    pub fn common(&self, other: &TextSet) -> (r: usize)
        requires
            self.wf(),
        ensures
            r == self@.intersect(other@).len(),
            r <= self@.len(),
    {
        let ghost all = model::texts(self.items@);
        let mut n: usize = 0;
        let mut i: usize = 0;
        proof {
            assert(all.take(0).to_set().intersect(other@) =~= Set::empty());
            vstd::seq_lib::seq_to_set_is_finite(all);
        }
        while i < self.items.len()
            invariant
                i <= self.items@.len(),
                all == model::texts(self.items@),
                all.no_duplicates(),
                n <= i,
                n == all.take(i as int).to_set().intersect(other@).len(),
                all.take(i as int).to_set().finite(),
            decreases self.items@.len() - i,
        {
            let ghost x = all[i as int];
            proof {
                let a = all.take(i as int);
                let b = all.take(i + 1);
                assert(b =~= a.push(x));
                vstd::seq_lib::seq_to_set_is_finite(b);
                assert forall|y: Seq<char>| b.to_set().contains(y) <==> a.to_set().insert(
                    x,
                ).contains(y) by {
                    if a.contains(y) {
                        let j = a.index_of(y);
                        assert(b[j] == y);
                    }
                    assert(b[i as int] == x);
                }
                assert(b.to_set() =~= a.to_set().insert(x));
                assert(!a.contains(x)) by {
                    if a.contains(x) {
                        let j = a.index_of(x);
                        assert(all[j] == all[i as int]);
                    }
                }
                assert(!a.to_set().contains(x));
                if other@.contains(x) {
                    assert(b.to_set().intersect(other@) =~= a.to_set().intersect(other@).insert(x));
                } else {
                    assert(b.to_set().intersect(other@) =~= a.to_set().intersect(other@));
                }
            }
            if other.contains(self.items[i].as_str()) {
                n = n + 1;
            }
            i = i + 1;
        }
        assert(all.take(all.len() as int) =~= all);
        proof {
            all.unique_seq_to_set();
        }
        n
    }
}

} // verus!
