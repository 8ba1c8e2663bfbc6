//! Selection by maximal marginal relevance: step by step the item with the best
//! balance of relevance and novelty is taken.
//!
//! The balance of an item depends on what was taken before, so the scores are
//! handed in anew for each step.

use crate::memory::rank;
use vstd::prelude::*;

verus! {

/// The scores of the first `n` remaining items: the place of the first best one.
/// An item without a score is never best.
pub open spec fn best_place(scores: Seq<Option<i64>>, n: nat) -> Option<int>
    decreases n,
{
    if n == 0 {
        None
    } else {
        let before = best_place(scores, (n - 1) as nat);
        match (scores[n - 1], before) {
            (None, _) => before,
            (Some(_), None) => Some(n - 1),
            (Some(s), Some(p)) => if s > scores[p]->0 {
                Some(n - 1)
            } else {
                before
            },
        }
    }
}

/// A selection under way.
#[verifier::ext_equal]
pub struct SelectionModel {
    /// What was taken, in order.
    pub selected: Seq<int>,
    /// What can still be taken.
    pub remaining: Seq<int>,
    /// How many are to be taken.
    pub wanted: nat,
}

/// The selection after one step. Where no remaining item has a score, the first
/// one leaves, and item zero is taken.
pub open spec fn stepped(m: SelectionModel, scores: Seq<Option<i64>>) -> SelectionModel {
    match best_place(scores, scores.len()) {
        Some(p) => SelectionModel {
            selected: m.selected.push(m.remaining[p]),
            remaining: m.remaining.remove(p),
            wanted: m.wanted,
        },
        None => SelectionModel {
            selected: m.selected.push(0),
            remaining: m.remaining.remove(0),
            wanted: m.wanted,
        },
    }
}

/// A selection before its first step.
pub open spec fn begun(n: nat, k: nat) -> SelectionModel {
    SelectionModel {
        selected: Seq::empty(),
        remaining: Seq::new(n, |i: int| i),
        wanted: if k <= n {
            k
        } else {
            n
        },
    }
}

/// Whether the selection is complete.
pub open spec fn is_complete(m: SelectionModel) -> bool {
    m.selected.len() >= m.wanted || m.remaining.len() == 0
}

/// A selection under way.
#[derive(Debug)]
pub struct MmrSelection {
    /// What was taken, in order.
    pub selected: Vec<usize>,
    /// What can still be taken.
    pub remaining: Vec<usize>,
    /// How many are to be taken.
    pub wanted: usize,
}

impl View for MmrSelection {
    type V = SelectionModel;

    open spec fn view(&self) -> SelectionModel {
        SelectionModel {
            selected: rank::positions(self.selected@),
            remaining: rank::positions(self.remaining@),
            wanted: self.wanted as nat,
        }
    }
}

impl MmrSelection {
    /// Begins to select `k` of `n` items.
    pub fn new(n: usize, k: usize) -> (r: Self)
        ensures
            r@ == begun(n as nat, k as nat),
    {
        let mut remaining: Vec<usize> = Vec::new();
        let mut i: usize = 0;
        while i < n
            invariant
                i <= n,
                rank::positions(remaining@) == Seq::new(i as nat, |j: int| j),
            decreases n - i,
        {
            let ghost before = remaining@;
            remaining.push(i);
            assert(rank::positions(remaining@) =~= rank::positions(before).push(i as int));
            assert(Seq::new((i + 1) as nat, |j: int| j) =~= Seq::new(i as nat, |j: int| j).push(
                i as int,
            ));
            i = i + 1;
        }
        let r = MmrSelection {
            selected: Vec::new(),
            remaining,
            wanted: if k <= n {
                k
            } else {
                n
            },
        };
        assert(r@.selected =~= Seq::<int>::empty());
        r
    }

    /// Whether the selection is complete.
    pub fn is_complete(&self) -> (r: bool)
        ensures
            r == is_complete(self@),
    {
        self.selected.len() >= self.wanted || self.remaining.len() == 0
    }

    /// Takes the best of the remaining items: `scores` holds the balance of each,
    /// by an integer that is ordered as the balances are, or `None` where it
    /// cannot be compared.
    pub fn step(&mut self, scores: &Vec<Option<i64>>)
        requires
            scores@.len() == old(self)@.remaining.len(),
            !is_complete(old(self)@),
        ensures
            final(self)@ == stepped(old(self)@, scores@),
    {
        let ghost before = self@;
        let mut best: Option<(usize, i64)> = None;
        let mut i: usize = 0;
        while i < scores.len()
            invariant
                i <= scores@.len(),
                scores@.len() == self.remaining@.len(),
                match best {
                    Some(b) => b.0 < i && best_place(scores@, i as nat) == Some(b.0 as int)
                        && scores@[b.0 as int] == Some(b.1),
                    None => best_place(scores@, i as nat) is None,
                },
            decreases scores@.len() - i,
        {
            if let Some(s) = scores[i] {
                let better = match best {
                    Some(b) => s > b.1,
                    None => true,
                };
                if better {
                    best = Some((i, s));
                }
            }
            i = i + 1;
        }
        match best {
            Some(b) => {
                let item: usize = self.remaining.remove(b.0);
                self.selected.push(item);
                assert(self@.selected =~= before.selected.push(before.remaining[b.0 as int]));
                assert(self@.remaining =~= before.remaining.remove(b.0 as int));
            },
            None => {
                self.remaining.remove(0);
                self.selected.push(0);
                assert(self@.selected =~= before.selected.push(0));
                assert(self@.remaining =~= before.remaining.remove(0));
            },
        }
    }
}

/// How results are made diverse.
#[derive(Debug, Clone, Copy)]
pub struct MmrConfig {
    /// Whether they are made diverse at all.
    pub enabled: bool,
    /// The weight of relevance, by the bit pattern of a single-precision number
    /// from zero to one.
    pub lambda: u32,
}

/// The bit pattern of one.
pub open spec fn one() -> u32 {
    0x3F80_0000
}

impl Default for MmrConfig {
    fn default() -> (r: Self)
        ensures
            r == (MmrConfig { enabled: true, lambda: 0x3F33_3333 }),
    {
        MmrConfig { enabled: true, lambda: 0x3F33_3333 }
    }
}

/// The bit pattern of infinity: greater ones are no numbers.
pub open spec fn infinity() -> u32 {
    0x7F80_0000
}

/// A weight within its bounds: a negative one is zero, one above one is one, and
/// what is no number stays what it is.
pub open spec fn clamped(lambda: u32) -> u32 {
    if 0x8000_0000 <= lambda <= 0xFF80_0000 {
        0
    } else if one() < lambda <= infinity() {
        one()
    } else {
        lambda
    }
}

/// Whether results are just ranked: selection is off, there is no choice, or
/// only relevance has weight.
pub open spec fn ranks_only(c: MmrConfig, n: nat) -> bool {
    !c.enabled || n <= 1 || one() <= c.lambda <= infinity()
}

impl MmrConfig {
    /// A configuration; the weight, given by its bit pattern, is brought within
    /// its bounds.
    pub fn new(enabled: bool, lambda: u32) -> (r: Self)
        ensures
            r == (MmrConfig { enabled: enabled, lambda: clamped(lambda) }),
    {
        let weight: u32 = if 0x8000_0000 <= lambda && lambda <= 0xFF80_0000 {
            0
        } else if 0x3F80_0000 < lambda && lambda <= 0x7F80_0000 {
            0x3F80_0000
        } else {
            lambda
        };
        MmrConfig { enabled, lambda: weight }
    }

    /// Whether results are just ranked.
    pub fn ranks_only(&self, n: usize) -> (r: bool)
        ensures
            r == ranks_only(*self, n as nat),
    {
        !self.enabled || n <= 1 || (self.lambda >= 0x3F80_0000 && self.lambda <= 0x7F80_0000)
    }

    /// The best `k` items by their similarities alone, best first.
    pub fn select_ranked(&self, scores: &Vec<i64>, k: usize) -> (r: Vec<usize>)
        ensures
            rank::positions(r@) == rank::first_of(rank::descending(scores@), k as nat),
    {
        rank::top(scores, k)
    }
}

/// Every score can be compared.
pub open spec fn all_scored(scores: Seq<Option<i64>>) -> bool {
    forall|i: int| 0 <= i < scores.len() ==> (#[trigger] scores[i]) is Some
}

proof fn lemma_best_place(scores: Seq<Option<i64>>, n: nat)
    requires
        n <= scores.len(),
        all_scored(scores),
    ensures
        n > 0 ==> best_place(scores, n) is Some,
        best_place(scores, n) matches Some(p) ==> 0 <= p < n && forall|i: int|
            0 <= i < n ==> (#[trigger] scores[i])->0 <= scores[p]->0,
    decreases n,
{
    if n > 0 {
        lemma_best_place(scores, (n - 1) as nat);
    }
}

/// What was taken and what remains are different items of the collection.
pub open spec fn is_fair(m: SelectionModel, n: nat) -> bool {
    &&& m.selected.len() + m.remaining.len() == n
    &&& m.wanted <= n
    &&& (m.selected + m.remaining).no_duplicates()
    &&& forall|i: int|
        0 <= i < n ==> 0 <= #[trigger] (m.selected + m.remaining)[i] < n
}

/// A selection begins with everything left to take.
pub proof fn law_selection_begins_fair(n: nat, k: nat)
    ensures
        is_fair(begun(n, k), n),
{
    let m = begun(n, k);
    assert((m.selected + m.remaining) =~= m.remaining);
}

/// No item is taken twice, and each step takes one that no other item beats.
pub proof fn law_step_takes_the_best(m: SelectionModel, scores: Seq<Option<i64>>, n: nat)
    requires
        is_fair(m, n),
        !is_complete(m),
        scores.len() == m.remaining.len(),
        all_scored(scores),
    ensures
        is_fair(stepped(m, scores), n),
        stepped(m, scores).selected.len() == m.selected.len() + 1,
        exists|p: int|
            0 <= p < scores.len() && stepped(m, scores).selected.last() == m.remaining[p]
                && forall|i: int|
                0 <= i < scores.len() ==> (#[trigger] scores[i])->0 <= (#[trigger] scores[p])->0,
{
    lemma_best_place(scores, scores.len());
    let p = best_place(scores, scores.len())->0;
    let s = stepped(m, scores);
    let before = m.selected + m.remaining;
    let after = s.selected + s.remaining;
    let a = m.selected.len() as int;
    // Where the item at place `i` of `after` stood before.
    let source = |i: int|
        if i < a {
            i
        } else if i == a {
            a + p
        } else if i - a - 1 < p {
            i - 1
        } else {
            i
        };
    assert forall|i: int| 0 <= i < n implies #[trigger] after[i] == before[source(i)] && 0
        <= source(i) < n by {
        if i > a {
            assert(s.remaining[i - a - 1] == if i - a - 1 < p {
                m.remaining[i - a - 1]
            } else {
                m.remaining[i - a]
            });
        }
    }
    assert forall|i: int, j: int| 0 <= i < n && 0 <= j < n && i != j implies after[i] != after[j] by {
        assert(source(i) != source(j));
    }
    assert(after.len() == n);
    assert(after.no_duplicates());
    assert(scores[p] is Some);
}

/// Scores that can all be compared.
pub open spec fn scored(v: Seq<i64>) -> Seq<Option<i64>> {
    v.map_values(|s: i64| Some(s))
}

/// There is a round for each item that is to be taken, with a score for each item
/// that then remains.
pub open spec fn covers(rounds: Seq<Vec<i64>>, n: nat, k: nat) -> bool {
    &&& rounds.len() == begun(n, k).wanted
    &&& forall|i: int| 0 <= i < rounds.len() ==> (#[trigger] rounds[i])@.len() == n - i
}

/// The selection of `k` out of `n` items after some rounds.
pub open spec fn selection(n: nat, k: nat, rounds: Seq<Vec<i64>>, steps: nat) -> SelectionModel
    decreases steps,
{
    if steps == 0 {
        begun(n, k)
    } else {
        stepped(selection(n, k, rounds, (steps - 1) as nat), scored(rounds[steps - 1]@))
    }
}

/// Each round takes one item more, and none twice.
pub proof fn law_rounds_take_different_items(n: nat, k: nat, rounds: Seq<Vec<i64>>, steps: nat)
    requires
        covers(rounds, n, k),
        steps <= rounds.len(),
    ensures
        is_fair(selection(n, k, rounds, steps), n),
        selection(n, k, rounds, steps).selected.len() == steps,
        selection(n, k, rounds, steps).wanted == rounds.len(),
    decreases steps,
{
    if steps == 0 {
        law_selection_begins_fair(n, k);
    } else {
        law_rounds_take_different_items(n, k, rounds, (steps - 1) as nat);
        let m = selection(n, k, rounds, (steps - 1) as nat);
        assert(rounds[steps - 1]@.len() == n - (steps - 1));
        law_step_takes_the_best(m, scored(rounds[steps - 1]@), n);
    }
}

/// Selects `k` out of `n` items, given the balances of the remaining ones in each
/// round, by integers that are ordered as the balances are.
pub fn select_in_rounds(n: usize, k: usize, rounds: &Vec<Vec<i64>>) -> (r: Vec<usize>)
    requires
        covers(rounds@, n as nat, k as nat),
    ensures
        rank::positions(r@) == selection(n as nat, k as nat, rounds@, rounds@.len()).selected,
        forall|i: int| 0 <= i < r@.len() ==> (#[trigger] r@[i]) < n,
{
    let mut m = MmrSelection::new(n, k);
    let mut i: usize = 0;
    while i < rounds.len()
        invariant
            i <= rounds@.len(),
            covers(rounds@, n as nat, k as nat),
            m@ == selection(n as nat, k as nat, rounds@, i as nat),
        decreases rounds@.len() - i,
    {
        let round = &rounds[i];
        let mut scores: Vec<Option<i64>> = Vec::new();
        let mut j: usize = 0;
        while j < round.len()
            invariant
                j <= round@.len(),
                scores@ == scored(round@).take(j as int),
            decreases round@.len() - j,
        {
            scores.push(Some(round[j]));
            assert(scored(round@).take(j + 1) =~= scored(round@).take(j as int).push(
                Some(round@[j as int]),
            ));
            j = j + 1;
        }
        assert(scored(round@).take(round@.len() as int) =~= scored(round@));
        proof {
            law_rounds_take_different_items(n as nat, k as nat, rounds@, i as nat);
        }
        m.step(&scores);
        i = i + 1;
    }
    proof {
        law_rounds_take_different_items(n as nat, k as nat, rounds@, rounds@.len());
    }
    let taken = m.selected;
    assert forall|i: int| 0 <= i < taken@.len() implies (#[trigger] taken@[i]) < n by {
        assert((m@.selected + m@.remaining)[i] == taken@[i] as int);
    }
    taken
}

/// Of the items with the best balance a step takes the one that comes first; what was
/// taken before stays, and the others remain in their order.
pub proof fn law_step_takes_one(m: SelectionModel, scores: Seq<Option<i64>>) -> (p: int)
    requires
        m.remaining.len() > 0,
        scores.len() == m.remaining.len(),
        all_scored(scores),
    ensures
        0 <= p < scores.len(),
        forall|i: int| 0 <= i < scores.len() ==> (#[trigger] scores[i])->0 <= scores[p]->0,
        forall|i: int| 0 <= i < p ==> (#[trigger] scores[i])->0 < scores[p]->0,
        stepped(m, scores).selected == m.selected.push(m.remaining[p]),
        stepped(m, scores).remaining == m.remaining.remove(p),
        stepped(m, scores).wanted == m.wanted,
{
    lemma_best_is_first(scores, scores.len());
    best_place(scores, scores.len())->0
}

proof fn lemma_best_is_first(scores: Seq<Option<i64>>, n: nat)
    requires
        0 < n <= scores.len(),
        all_scored(scores),
    ensures
        ({
            let p = best_place(scores, n)->0;
            &&& best_place(scores, n) is Some
            &&& 0 <= p < n
            &&& forall|i: int| 0 <= i < n ==> (#[trigger] scores[i])->0 <= scores[p]->0
            &&& forall|i: int| 0 <= i < p ==> (#[trigger] scores[i])->0 < scores[p]->0
        }),
    decreases n,
{
    assert(scores[n - 1] is Some);
    if n > 1 {
        lemma_best_is_first(scores, (n - 1) as nat);
    } else {
        assert(best_place(scores, 0) is None);
    }
}

/// As many items are selected as were asked for, or all where there are no more.
pub proof fn law_selection_is_as_long_as_asked(n: nat, k: nat, rounds: Seq<Vec<i64>>)
    requires
        covers(rounds, n, k),
    ensures
        selection(n, k, rounds, rounds.len()).selected.len() == if k <= n {
            k
        } else {
            n
        },
{
    law_rounds_take_different_items(n, k, rounds, rounds.len());
}

/// A weight between zero and one is kept, one above is taken for one, and one below
/// zero for zero.
pub proof fn law_weight_is_clamped(lambda: u32)
    ensures
        lambda <= 0x3F80_0000 ==> clamped(lambda) == lambda,
        0x3F80_0000 <= lambda <= 0x7F80_0000 ==> clamped(lambda) == 0x3F80_0000,
        0x8000_0000 <= lambda <= 0xFF80_0000 ==> clamped(lambda) == 0,
{
}

/// Novelty counts only where the selection is enabled, where there is more than one
/// item, and where its weight is not zero.
pub proof fn law_novelty_counts(c: MmrConfig, n: nat)
    ensures
        ranks_only(c, n) <==> (!c.enabled || n <= 1 || 0x3F80_0000 <= c.lambda <= 0x7F80_0000),
{
}

/// What a step takes has a score, no score among the others is greater, and it is the first
/// with that score; where nothing has a score, item zero is taken and the first of the
/// remaining ones leaves.
pub proof fn law_unscored_items_are_passed_over(
    m: SelectionModel,
    scores: Seq<Option<i64>>,
    k: int,
) -> (p: int)
    requires
        m.remaining.len() > 0,
        scores.len() == m.remaining.len(),
        0 <= k < scores.len(),
    ensures
        scores[k] is Some ==> {
            &&& 0 <= p < scores.len()
            &&& scores[p] is Some
            &&& scores[k]->0 <= scores[p]->0
            &&& k < p ==> scores[k]->0 < scores[p]->0
            &&& stepped(m, scores).selected == m.selected.push(m.remaining[p])
            &&& stepped(m, scores).remaining == m.remaining.remove(p)
        },
        (forall|i: int| 0 <= i < scores.len() ==> (#[trigger] scores[i]) is None) ==> stepped(
            m,
            scores,
        ).selected == m.selected.push(0) && stepped(m, scores).remaining == m.remaining.remove(0),
{
    lemma_best_scored(scores, scores.len(), k);
    best_place(scores, scores.len())->0
}

proof fn lemma_best_scored(scores: Seq<Option<i64>>, n: nat, k: int)
    requires
        n <= scores.len(),
    ensures
        best_place(scores, n) matches Some(p) ==> 0 <= p < n && scores[p] is Some,
        0 <= k < n && scores[k] is Some ==> (best_place(scores, n) matches Some(p) && scores[k]->0
            <= scores[p]->0 && (k < p ==> scores[k]->0 < scores[p]->0)),
    decreases n,
{
    if n > 0 {
        lemma_best_scored(scores, (n - 1) as nat, k);
    }
}

} // verus!
