//! Embedding vectors and the index that holds them.

use crate::memory::rank;
use crate::text::ops;
use vstd::prelude::*;

verus! {

/// An embedding vector.
///
/// The components are kept as the bit patterns of single-precision numbers:
/// the index stores and finds vectors, and does not calculate with them.
#[derive(Debug)]
pub struct EmbeddingVector {
    /// The components, each as its bit pattern.
    pub data: Vec<u32>,
    /// The entry that the vector belongs to.
    pub entry_id: String,
    /// The beginning of the embedded text.
    pub text_preview: String,
    /// When the vector was made.
    pub created_at: u64,
}

/// What an embedding vector holds.
#[verifier::ext_equal]
pub struct VectorModel {
    pub data: Seq<u32>,
    pub entry_id: Seq<char>,
    pub text_preview: Seq<char>,
    pub created_at: u64,
}

impl View for EmbeddingVector {
    type V = VectorModel;

    open spec fn view(&self) -> VectorModel {
        VectorModel {
            data: self.data@,
            entry_id: self.entry_id@,
            text_preview: self.text_preview@,
            created_at: self.created_at,
        }
    }
}

impl Clone for EmbeddingVector {
    fn clone(&self) -> (r: Self)
        ensures
            r@ == self@,
    {
        EmbeddingVector {
            data: self.data.clone(),
            entry_id: self.entry_id.clone(),
            text_preview: self.text_preview.clone(),
            created_at: self.created_at,
        }
    }
}

/// The vectors that a list holds.
pub open spec fn vector_models(v: Seq<EmbeddingVector>) -> Seq<VectorModel> {
    v.map_values(|e: EmbeddingVector| e@)
}

/// What an index holds.
#[verifier::ext_equal]
pub struct IndexModel {
    pub vectors: Seq<VectorModel>,
    pub dimension: usize,
}

/// Vectors of one dimension, in the order in which they came.
#[derive(Debug)]
pub struct EmbeddingIndex {
    /// The vectors.
    pub vectors: Vec<EmbeddingVector>,
    /// How many components each vector has.
    pub dimension: usize,
}

impl View for EmbeddingIndex {
    type V = IndexModel;

    open spec fn view(&self) -> IndexModel {
        IndexModel { vectors: vector_models(self.vectors@), dimension: self.dimension }
    }
}

/// Every vector is of the index's dimension.
pub open spec fn of_one_dimension(m: IndexModel) -> bool {
    forall|i: int|
        0 <= i < m.vectors.len() ==> (#[trigger] m.vectors[i]).data.len() == m.dimension
}

/// The index with one more vector, which is left out if it is of another
/// dimension.
pub open spec fn with_vector(m: IndexModel, v: VectorModel) -> IndexModel {
    if v.data.len() == m.dimension {
        IndexModel { vectors: m.vectors.push(v), dimension: m.dimension }
    } else {
        m
    }
}

/// The index with more vectors.
pub open spec fn with_vectors(m: IndexModel, v: Seq<VectorModel>) -> IndexModel
    decreases v.len(),
{
    if v.len() == 0 {
        m
    } else {
        with_vector(with_vectors(m, v.drop_last()), v.last())
    }
}

/// The first vector of an entry at place `i` or later.
pub open spec fn vector_from(v: Seq<VectorModel>, id: Seq<char>, i: int) -> Option<VectorModel>
    decreases v.len() - i,
{
    if i >= v.len() {
        None
    } else if v[i].entry_id == id {
        Some(v[i])
    } else {
        vector_from(v, id, i + 1)
    }
}

/// The vectors of other entries.
pub open spec fn without_entry(v: Seq<VectorModel>, id: Seq<char>) -> Seq<VectorModel> {
    v.filter(|m: VectorModel| m.entry_id != id)
}

/// Whether a score counts: it is a finite one above zero.
pub open spec fn counts(score: Option<i64>) -> bool {
    score is Some && score->0 > 0
}

/// A candidate: its score and its place.
pub type Candidate = (i64, int);

/// The first of the candidates with the least score, among the first `n`.
pub open spec fn first_least(t: Seq<Candidate>, n: nat) -> int
    decreases n,
{
    if n <= 1 {
        0
    } else {
        let m = first_least(t, (n - 1) as nat);
        if t[n - 1].0 < t[m].0 {
            n - 1
        } else {
            m
        }
    }
}

/// The list without the item at `m`, whose place the last one takes.
pub open spec fn swap_removed<A>(t: Seq<A>, m: int) -> Seq<A> {
    if m == t.len() - 1 {
        t.drop_last()
    } else {
        t.update(m, t.last()).drop_last()
    }
}

/// The candidates with one more, of which the first with the least score leaves
/// where they would become more than `k`.
pub open spec fn admitted(t: Seq<Candidate>, c: Candidate, k: nat) -> Seq<Candidate> {
    let u = t.push(c);
    if u.len() > k {
        swap_removed(u, first_least(u, u.len()))
    } else {
        u
    }
}

/// The best `k` of the first `n` places, by their scores.
pub open spec fn best_of(scores: Seq<Option<i64>>, k: nat, n: nat) -> Seq<Candidate>
    decreases n,
{
    if n == 0 {
        Seq::empty()
    } else if counts(scores[n - 1]) {
        admitted(best_of(scores, k, (n - 1) as nat), (scores[n - 1]->0, n - 1), k)
    } else {
        best_of(scores, k, (n - 1) as nat)
    }
}

/// The scores of some candidates.
pub open spec fn candidate_scores(t: Seq<Candidate>) -> Seq<i64> {
    t.map_values(|c: Candidate| c.0)
}

/// The places of the best `k` scores with the scores, best first.
pub open spec fn found(scores: Seq<Option<i64>>, k: nat) -> Seq<(int, i64)> {
    let t = best_of(scores, k, scores.len());
    rank::descending(candidate_scores(t)).map_values(|i: int| (t[i].1, t[i].0))
}

/// What a search finds.
pub open spec fn search_result(
    m: IndexModel,
    query_len: nat,
    scores: Seq<Option<i64>>,
    k: nat,
) -> Seq<(int, i64)> {
    if query_len != m.dimension || k == 0 {
        Seq::empty()
    } else {
        found(scores, k)
    }
}

/// The candidates that a list holds.
pub open spec fn candidates(v: Seq<(i64, usize)>) -> Seq<Candidate> {
    v.map_values(|c: (i64, usize)| (c.0, c.1 as int))
}

/// The places and scores that a list holds.
pub open spec fn hits(v: Seq<(usize, i64)>) -> Seq<(int, i64)> {
    v.map_values(|c: (usize, i64)| (c.0 as int, c.1))
}

/// A hit with the entry and its preview.
pub open spec fn described(m: IndexModel, h: (int, i64)) -> (Seq<char>, i64, Seq<char>) {
    (m.vectors[h.0].entry_id, h.1, m.vectors[h.0].text_preview)
}

/// The described hits that a list holds.
pub open spec fn descriptions(v: Seq<(String, i64, String)>) -> Seq<(Seq<char>, i64, Seq<char>)> {
    v.map_values(|c: (String, i64, String)| (c.0@, c.1, c.2@))
}

/// The first of the candidates with the least score.
fn least(t: &Vec<(i64, usize)>) -> (r: usize)
    requires
        t@.len() > 0,
    ensures
        r == first_least(candidates(t@), t@.len()),
        r < t@.len(),
{
    let mut m: usize = 0;
    let mut i: usize = 1;
    while i < t.len()
        invariant
            1 <= i <= t@.len(),
            m < i,
            m == first_least(candidates(t@), i as nat),
        decreases t@.len() - i,
    {
        assert(candidates(t@)[i as int] == (t@[i as int].0, t@[i as int].1 as int));
        assert(candidates(t@)[m as int] == (t@[m as int].0, t@[m as int].1 as int));
        if t[i].0 < t[m].0 {
            m = i;
        }
        i = i + 1;
    }
    m
}

/// Whether a vector belongs to another entry.
fn is_other(v: &EmbeddingVector, id: &str) -> (r: bool)
    ensures
        r == (v@.entry_id != id@),
{
    !ops::same_text(v.entry_id.as_str(), id)
}

impl EmbeddingIndex {
    /// An empty index for vectors of 1536 components.
    pub fn new() -> (r: Self)
        ensures
            r@ == (IndexModel { vectors: Seq::empty(), dimension: 1536 }),
    {
        EmbeddingIndex::with_dimension(1536)
    }

    /// An empty index for vectors of the given dimension.
    pub fn with_dimension(dimension: usize) -> (r: Self)
        ensures
            r@ == (IndexModel { vectors: Seq::empty(), dimension: dimension }),
    {
        let r = EmbeddingIndex { vectors: Vec::new(), dimension };
        assert(r@.vectors =~= Seq::<VectorModel>::empty());
        r
    }

    /// Adds a vector; one of another dimension is ignored.
    pub fn add(&mut self, vector: EmbeddingVector)
        ensures
            final(self)@ == with_vector(old(self)@, vector@),
    {
        let ghost before = self@;
        let ghost shown = vector@;
        if vector.data.len() == self.dimension {
            self.vectors.push(vector);
            assert(self@.vectors =~= before.vectors.push(shown));
        }
    }

    /// Adds vectors; those of another dimension are ignored.
    pub fn extend(&mut self, vectors: Vec<EmbeddingVector>)
        ensures
            final(self)@ == with_vectors(old(self)@, vector_models(vectors@)),
    {
        let ghost all = vector_models(vectors@);
        let ghost before = self@;
        assert(all.take(0) =~= Seq::empty());
        for vector in it: vectors
            invariant
                all == vector_models(it.seq()),
                self@ == with_vectors(before, all.take(it.index() as int)),
        {
            let ghost i = it.index() as int;
            assert(all[i] == vector@);
            assert(all.take(i + 1).drop_last() =~= all.take(i));
            self.add(vector);
        }
        assert(all.take(all.len() as int) =~= all);
    }

    /// How many vectors there are.
    pub fn len(&self) -> (r: usize)
        ensures
            r == self@.vectors.len(),
    {
        self.vectors.len()
    }

    /// Whether there is no vector.
    pub fn is_empty(&self) -> (r: bool)
        ensures
            r == (self@.vectors.len() == 0),
    {
        self.vectors.len() == 0
    }

    /// How many components each vector has.
    pub fn dimension(&self) -> (r: usize)
        ensures
            r == self@.dimension,
    {
        self.dimension
    }

    /// All vectors.
    pub fn vectors(&self) -> (r: &Vec<EmbeddingVector>)
        ensures
            vector_models(r@) == self@.vectors,
    {
        &self.vectors
    }

    /// The first vector of an entry.
    pub fn find_by_entry_id(&self, entry_id: &str) -> (r: Option<&EmbeddingVector>)
        ensures
            match r {
                Some(v) => vector_from(self@.vectors, entry_id@, 0) == Some(v@),
                None => vector_from(self@.vectors, entry_id@, 0) is None,
            },
    {
        let mut i: usize = 0;
        while i < self.vectors.len()
            invariant
                i <= self.vectors@.len(),
                vector_from(self@.vectors, entry_id@, 0) == vector_from(
                    self@.vectors,
                    entry_id@,
                    i as int,
                ),
            decreases self.vectors@.len() - i,
        {
            assert(self@.vectors[i as int] == self.vectors@[i as int]@);
            if ops::same_text(self.vectors[i].entry_id.as_str(), entry_id) {
                return Some(&self.vectors[i]);
            }
            i = i + 1;
        }
        None
    }

    /// The places of the `k` vectors that are most similar to a query, with
    /// their scores, best first. `scores` holds the similarity of each vector by
    /// an integer that is ordered as the similarities are, zero for zero, and
    /// `None` where the similarity is no finite number. Only similarities above
    /// zero count. A query of another dimension finds nothing.
    pub fn search(&self, query: &[u32], scores: &Vec<Option<i64>>, k: usize) -> (r: Vec<
        (usize, i64),
    >)
        requires
            scores@.len() == self@.vectors.len(),
        ensures
            hits(r@) == search_result(self@, query@.len(), scores@, k as nat),
            forall|i: int| 0 <= i < r@.len() ==> (#[trigger] r@[i]).0 < self@.vectors.len(),
    {
        let mut out: Vec<(usize, i64)> = Vec::new();
        assert(hits(out@) =~= Seq::empty());
        if query.len() != self.dimension || k == 0 {
            return out;
        }
        let mut top: Vec<(i64, usize)> = Vec::new();
        assert(candidates(top@) =~= Seq::empty());
        let mut i: usize = 0;
        while i < scores.len()
            invariant
                i <= scores@.len(),
                k > 0,
                top@.len() <= k,
                candidates(top@) == best_of(scores@, k as nat, i as nat),
                forall|j: int| 0 <= j < top@.len() ==> (#[trigger] top@[j]).1 < i,
            decreases scores@.len() - i,
        {
            if let Some(score) = scores[i] {
                if score > 0 {
                    let ghost before = top@;
                    top.push((score, i));
                    assert(candidates(top@) =~= candidates(before).push((score, i as int)));
                    let ghost full = top@;
                    if top.len() > k {
                        let m: usize = least(&top);
                        top.swap_remove(m);
                        assert(candidates(top@) =~= swap_removed(candidates(full), m as int));
                        assert forall|j: int| 0 <= j < top@.len() implies (#[trigger] top@[j]).1
                            < i + 1 by {
                            assert(top@[j] == if j == m {
                                full[full.len() - 1]
                            } else {
                                full[j]
                            });
                        }
                    }
                }
            }
            i = i + 1;
        }
        let ghost t = candidates(top@);
        let mut keys: Vec<i64> = Vec::new();
        let mut a: usize = 0;
        while a < top.len()
            invariant
                a <= top@.len(),
                t == candidates(top@),
                keys@ == candidate_scores(t).take(a as int),
            decreases top@.len() - a,
        {
            keys.push(top[a].0);
            assert(candidate_scores(t).take(a + 1) =~= candidate_scores(t).take(a as int).push(
                top@[a as int].0,
            ));
            a = a + 1;
        }
        assert(candidate_scores(t).take(t.len() as int) =~= candidate_scores(t));
        let order = rank::descending_order(&keys);
        let ghost ranked = rank::positions(order@);
        let ghost all = found(scores@, k as nat);
        assert(hits(out@) =~= all.take(0));
        let mut b: usize = 0;
        while b < order.len()
            invariant
                b <= order@.len(),
                t == candidates(top@),
                ranked == rank::positions(order@),
                all == ranked.map_values(|i: int| (t[i].1, t[i].0)),
                forall|j: int| 0 <= j < order@.len() ==> (#[trigger] order@[j]) < top@.len(),
                forall|j: int| 0 <= j < top@.len() ==> (#[trigger] top@[j]).1 < scores@.len(),
                forall|j: int| 0 <= j < out@.len() ==> (#[trigger] out@[j]).0 < scores@.len(),
                hits(out@) == all.take(b as int),
            decreases order@.len() - b,
        {
            assert(ranked[b as int] == order@[b as int] as int);
            let c = top[order[b]];
            assert(t[order@[b as int] as int] == (c.0, c.1 as int));
            let ghost before = out@;
            out.push((c.1, c.0));
            assert(hits(out@) =~= hits(before).push((c.1 as int, c.0)));
            assert(all.take(b + 1) =~= all.take(b as int).push((c.1 as int, c.0)));
            b = b + 1;
        }
        assert(all.take(all.len() as int) =~= all);
        out
    }

    /// The hits of a search with their entries and previews.
    pub fn search_with_metadata(
        &self,
        query: &[u32],
        scores: &Vec<Option<i64>>,
        k: usize,
    ) -> (r: Vec<(String, i64, String)>)
        requires
            scores@.len() == self@.vectors.len(),
        ensures
            descriptions(r@) == search_result(
                self@,
                query@.len(),
                scores@,
                k as nat,
            ).map_values(|h: (int, i64)| described(self@, h)),
    {
        let raw = self.search(query, scores, k);
        let ghost shown = hits(raw@).map_values(|h: (int, i64)| described(self@, h));
        let mut out: Vec<(String, i64, String)> = Vec::new();
        assert(descriptions(out@) =~= shown.take(0));
        let mut i: usize = 0;
        while i < raw.len()
            invariant
                i <= raw@.len(),
                shown == hits(raw@).map_values(|h: (int, i64)| described(self@, h)),
                forall|j: int| 0 <= j < raw@.len() ==> (#[trigger] raw@[j]).0 < self.vectors@.len(),
                descriptions(out@) == shown.take(i as int),
            decreases raw@.len() - i,
        {
            let (place, score) = raw[i];
            assert(hits(raw@)[i as int] == (place as int, score));
            assert(self@.vectors[place as int] == self.vectors@[place as int]@);
            let v = &self.vectors[place];
            let ghost before = out@;
            out.push((v.entry_id.clone(), score, v.text_preview.clone()));
            assert(descriptions(out@) =~= descriptions(before).push(shown[i as int]));
            assert(shown.take(i + 1) =~= shown.take(i as int).push(shown[i as int]));
            i = i + 1;
        }
        assert(shown.take(shown.len() as int) =~= shown);
        out
    }

    /// Removes all vectors.
    pub fn clear(&mut self)
        ensures
            final(self)@ == (IndexModel { vectors: Seq::empty(), ..old(self)@ }),
    {
        self.vectors = Vec::new();
        assert(self@.vectors =~= Seq::<VectorModel>::empty());
    }

    /// Removes the vectors of an entry and says whether there were any.
    pub fn remove_by_entry_id(&mut self, entry_id: &str) -> (r: bool)
        ensures
            final(self)@ == (IndexModel {
                vectors: without_entry(old(self)@.vectors, entry_id@),
                ..old(self)@
            }),
            r == (final(self)@.vectors.len() != old(self)@.vectors.len()),
    {
        let ghost f = |m: VectorModel| m.entry_id != entry_id@;
        let ghost all = self@.vectors;
        let before: usize = self.vectors.len();
        let mut kept: Vec<EmbeddingVector> = Vec::new();
        let mut old_vectors: Vec<EmbeddingVector> = Vec::new();
        std::mem::swap(&mut old_vectors, &mut self.vectors);
        assert(vector_models(kept@) =~= Seq::empty());
        proof {
            reveal(Seq::filter);
        }
        assert(all.take(0).filter(f) =~= Seq::empty());
        for vector in it: old_vectors
            invariant
                all == vector_models(it.seq()),
                before == all.len(),
                f == (|m: VectorModel| m.entry_id != entry_id@),
                vector_models(kept@) == all.take(it.index() as int).filter(f),
        {
            proof {
                reveal(Seq::filter);
            }
            let ghost i = it.index() as int;
            let ghost earlier = kept@;
            let ghost shown = vector@;
            assert(all[i] == shown);
            assert(all.take(i + 1).drop_last() =~= all.take(i));
            if is_other(&vector, entry_id) {
                kept.push(vector);
                assert(vector_models(kept@) =~= vector_models(earlier).push(shown));
            }
        }
        assert(all.take(all.len() as int) =~= all);
        self.vectors = kept;
        self.vectors.len() != before
    }
}

impl Default for EmbeddingIndex {
    fn default() -> (r: Self)
        ensures
            r@ == (IndexModel { vectors: Seq::empty(), dimension: 1536 }),
    {
        EmbeddingIndex::new()
    }
}

/// Adding vectors keeps the index to one dimension.
pub proof fn law_index_is_of_one_dimension(m: IndexModel, v: Seq<VectorModel>)
    requires
        of_one_dimension(m),
    ensures
        of_one_dimension(with_vectors(m, v)),
        with_vectors(m, v).dimension == m.dimension,
    decreases v.len(),
{
    if v.len() > 0 {
        law_index_is_of_one_dimension(m, v.drop_last());
        let a = with_vectors(m, v.drop_last());
        let b = with_vectors(m, v);
        assert forall|i: int| 0 <= i < b.vectors.len() implies (#[trigger] b.vectors[i]).data.len()
            == b.dimension by {
            if i < a.vectors.len() {
                assert(b.vectors[i] == a.vectors[i]);
            }
        }
    }
}

/// After an entry is removed, no vector of it is found.
pub proof fn law_removed_entry_is_gone(v: Seq<VectorModel>, id: Seq<char>)
    ensures
        vector_from(without_entry(v, id), id, 0) is None,
{
    let w = without_entry(v, id);
    let f = |m: VectorModel| m.entry_id != id;
    assert forall|i: int| 0 <= i < w.len() implies (#[trigger] w[i]).entry_id != id by {
        v.lemma_filter_pred(f, i);
    }
    lemma_not_found(w, id, 0);
}

proof fn lemma_not_found(v: Seq<VectorModel>, id: Seq<char>, i: int)
    requires
        0 <= i,
        forall|j: int| 0 <= j < v.len() ==> (#[trigger] v[j]).entry_id != id,
    ensures
        vector_from(v, id, i) is None,
    decreases v.len() - i,
{
    if i < v.len() {
        lemma_not_found(v, id, i + 1);
    }
}

proof fn lemma_first_least(t: Seq<Candidate>, n: nat)
    requires
        0 < n <= t.len(),
    ensures
        0 <= first_least(t, n) < n,
        forall|p: int| 0 <= p < n ==> t[first_least(t, n)].0 <= (#[trigger] t[p]).0,
    decreases n,
{
    if n > 1 {
        lemma_first_least(t, (n - 1) as nat);
    }
}

/// Whether a place is among the candidates.
pub open spec fn has_place(t: Seq<Candidate>, j: int) -> bool {
    exists|p: int| 0 <= p < t.len() && (#[trigger] t[p]).1 == j
}

/// The candidates are the best of the first `n` places.
pub open spec fn are_best(t: Seq<Candidate>, scores: Seq<Option<i64>>, k: nat, n: nat) -> bool {
    &&& t.len() <= k
    &&& forall|p: int|
        0 <= p < t.len() ==> {
            let c = #[trigger] t[p];
            &&& 0 <= c.1 < n
            &&& counts(scores[c.1])
            &&& scores[c.1] == Some(c.0)
        }
    &&& forall|p: int, q: int|
        0 <= p < q < t.len() ==> (#[trigger] t[p]).1 != (#[trigger] t[q]).1
    &&& forall|j: int|
        0 <= j < n && #[trigger] counts(scores[j]) && !has_place(t, j) ==> {
            &&& t.len() == k
            &&& forall|p: int| 0 <= p < t.len() ==> scores[j]->0 <= (#[trigger] t[p]).0
        }
}

proof fn lemma_best(scores: Seq<Option<i64>>, k: nat, n: nat)
    requires
        n <= scores.len(),
        k > 0,
    ensures
        are_best(best_of(scores, k, n), scores, k, n),
    decreases n,
{
    if n > 0 {
        lemma_best(scores, k, (n - 1) as nat);
        let t = best_of(scores, k, (n - 1) as nat);
        if counts(scores[n - 1]) {
            let c: Candidate = (scores[n - 1]->0, n - 1);
            lemma_admitted(t, scores, k, n, c);
        } else {
            let s = best_of(scores, k, n);
            assert(s == t);
            assert forall|j: int| 0 <= j < n && #[trigger] counts(scores[j]) && !has_place(s, j)
                implies s.len() == k && (forall|p: int|
                0 <= p < s.len() ==> scores[j]->0 <= (#[trigger] s[p]).0) by {
                assert(j != n - 1);
            }
        }
    }
}

proof fn lemma_admitted(
    t: Seq<Candidate>,
    scores: Seq<Option<i64>>,
    k: nat,
    n: nat,
    c: Candidate,
)
    requires
        0 < n <= scores.len(),
        k > 0,
        counts(scores[n - 1]),
        c == (scores[n - 1]->0, n - 1),
        are_best(t, scores, k, (n - 1) as nat),
    ensures
        are_best(admitted(t, c, k), scores, k, n),
{
    let u = t.push(c);
    assert(u[t.len() as int] == c);
    assert forall|p: int| 0 <= p < t.len() implies u[p] == #[trigger] t[p] by {}
    if u.len() <= k {
        assert forall|j: int| 0 <= j < n && #[trigger] counts(scores[j]) && !has_place(u, j)
            implies false by {
            if j == n - 1 {
                assert(u[t.len() as int].1 == j);
            } else if has_place(t, j) {
                let p = choose|p: int| 0 <= p < t.len() && (#[trigger] t[p]).1 == j;
                assert(u[p].1 == j);
            }
        }
    } else {
        lemma_first_least(u, u.len());
        let m = first_least(u, u.len());
        let w = swap_removed(u, m);
        assert(w.len() == k);
        assert forall|p: int| 0 <= p < w.len() implies #[trigger] w[p] == if p == m {
            u[k as int]
        } else {
            u[p]
        } by {}
        assert forall|j: int| 0 <= j < n && #[trigger] counts(scores[j]) && !has_place(w, j)
            implies (forall|p: int| 0 <= p < w.len() ==> scores[j]->0 <= (#[trigger] w[p]).0) by {
            if u[m].1 == j {
                assert(scores[j] == Some(u[m].0));
            } else {
                if j == n - 1 {
                    // The new candidate is still there.
                    if m == k {
                        assert(u[m].1 == j);
                    } else {
                        assert(w[m].1 == j);
                    }
                } else {
                    if has_place(t, j) {
                        let p = choose|p: int| 0 <= p < t.len() && (#[trigger] t[p]).1 == j;
                        assert(w[p].1 == j);
                    }
                    assert(!has_place(t, j));
                    if m < k {
                        assert(scores[j]->0 <= t[m].0);
                    }
                    assert forall|p: int| 0 <= p < w.len() implies scores[j]->0 <= (
                    #[trigger] w[p]).0 by {
                        if p == m {
                            assert(t[m].0 <= u[k as int].0);
                        } else {
                            assert(w[p] == t[p]);
                        }
                    }
                }
            }
        }
        assert forall|p: int, q: int| 0 <= p < q < w.len() implies (#[trigger] w[p]).1 != (
        #[trigger] w[q]).1 by {
            if p == m {
                assert(u[k as int].1 == n - 1);
                assert(w[q] == t[q]);
            } else if q == m {
                assert(w[p] == t[p]);
            }
        }
    }
}

/// A search gives the best scores: they come in descending order, each belongs to
/// the place that it is given with, no place comes twice, and a place that counts
/// is left out only where `k` others are at least as good.
pub proof fn law_search_finds_the_best(scores: Seq<Option<i64>>, k: nat)
    requires
        k > 0,
    ensures
        ({
            let r = found(scores, k);
            &&& r.len() <= k
            &&& forall|a: int|
                0 <= a < r.len() ==> {
                    let h = #[trigger] r[a];
                    &&& 0 <= h.0 < scores.len()
                    &&& counts(scores[h.0])
                    &&& scores[h.0] == Some(h.1)
                }
            &&& forall|a: int, b: int|
                0 <= a < b < r.len() ==> (#[trigger] r[a]).1 >= (#[trigger] r[b]).1 && r[a].0
                    != r[b].0
            &&& forall|j: int|
                0 <= j < scores.len() && #[trigger] counts(scores[j]) ==> ({
                    ||| exists|a: int| 0 <= a < r.len() && (#[trigger] r[a]).0 == j
                    ||| r.len() == k && forall|a: int|
                        0 <= a < r.len() ==> scores[j]->0 <= (#[trigger] r[a]).1
                })
        }),
{
    let t = best_of(scores, k, scores.len());
    lemma_best(scores, k, scores.len());
    let keys = rank::reversed(candidate_scores(t));
    rank::law_ascending(keys, t.len());
    let order = rank::descending(candidate_scores(t));
    let r = found(scores, k);
    assert forall|a: int| 0 <= a < r.len() implies #[trigger] r[a] == (t[order[a]].1, t[order[a]].0)
        && 0 <= order[a] < t.len() by {}
    assert forall|a: int, b: int| 0 <= a < b < r.len() implies (#[trigger] r[a]).1 >= (
    #[trigger] r[b]).1 && r[a].0 != r[b].0 by {
        assert(rank::comes_first(keys, order[a], order[b]));
        assert(keys[order[a]] == -t[order[a]].0);
        assert(keys[order[b]] == -t[order[b]].0);
        assert(order[a] != order[b]);
        if order[a] < order[b] {
            assert(t[order[a]].1 != t[order[b]].1);
        } else {
            assert(t[order[b]].1 != t[order[a]].1);
        }
    }
    assert forall|j: int| 0 <= j < scores.len() && #[trigger] counts(scores[j]) implies ({
        ||| exists|a: int| 0 <= a < r.len() && (#[trigger] r[a]).0 == j
        ||| r.len() == k && forall|a: int|
            0 <= a < r.len() ==> scores[j]->0 <= (#[trigger] r[a]).1
    }) by {
        if has_place(t, j) {
            let p = choose|p: int| 0 <= p < t.len() && (#[trigger] t[p]).1 == j;
            assert(order.contains(p));
            let a = choose|a: int| 0 <= a < order.len() && order[a] == p;
            assert(r[a].0 == j);
        }
    }
}

/// Only a positive score counts.
pub proof fn law_only_positive_scores_count(score: Option<i64>)
    ensures
        counts(score) <==> (score matches Some(s) && s > 0),
{
}

/// A vector of the index's dimension is added at the end; any other is left out.
pub proof fn law_vector_is_added(m: IndexModel, v: VectorModel, vs: Seq<VectorModel>)
    ensures
        v.data.len() == m.dimension ==> with_vector(m, v).vectors == m.vectors.push(v),
        v.data.len() != m.dimension ==> with_vector(m, v) == m,
        with_vector(m, v).dimension == m.dimension,
        with_vectors(m, vs.push(v)) == with_vector(with_vectors(m, vs), v),
        with_vectors(m, Seq::empty()) == m,
{
    assert(vs.push(v).drop_last() =~= vs);
}

/// A vector is found by the name of its entry, the first where there are several.
pub proof fn law_vector_is_found(v: Seq<VectorModel>, id: Seq<char>, i: int)
    requires
        0 <= i < v.len(),
        v[i].entry_id == id,
        forall|j: int| 0 <= j < i ==> (#[trigger] v[j]).entry_id != id,
    ensures
        vector_from(v, id, 0) == Some(v[i]),
{
    lemma_vector_from(v, id, 0, i);
}

proof fn lemma_vector_from(v: Seq<VectorModel>, id: Seq<char>, j: int, i: int)
    requires
        0 <= j <= i < v.len(),
        v[i].entry_id == id,
        forall|k: int| j <= k < i ==> (#[trigger] v[k]).entry_id != id,
    ensures
        vector_from(v, id, j) == Some(v[i]),
    decreases i - j,
{
    if j < i {
        assert(v[j].entry_id != id);
        lemma_vector_from(v, id, j + 1, i);
    }
}

/// Removing an entry takes its vectors away and no others.
pub proof fn law_other_vectors_stay(v: Seq<VectorModel>, id: Seq<char>, i: int)
    requires
        0 <= i < v.len(),
        v[i].entry_id != id,
    ensures
        without_entry(v, id).contains(v[i]),
    decreases v.len(),
{
    reveal(Seq::filter);
    let f = |m: VectorModel| m.entry_id != id;
    if i < v.len() - 1 {
        law_other_vectors_stay(v.drop_last(), id, i);
        let w = without_entry(v.drop_last(), id);
        let j = choose|j: int| 0 <= j < w.len() && w[j] == v[i];
        assert(v.filter(f)[j] == v[i]);
    } else {
        assert(v.filter(f).last() == v[i]);
    }
}

/// A query of another dimension finds nothing, nor does one for no results; else the
/// search tells the best of the scores.
pub proof fn law_query_must_fit(m: IndexModel, query_len: nat, scores: Seq<Option<i64>>, k: nat)
    ensures
        query_len != m.dimension ==> search_result(m, query_len, scores, k).len() == 0,
        k == 0 ==> search_result(m, query_len, scores, k).len() == 0,
        query_len == m.dimension && k > 0 ==> search_result(m, query_len, scores, k) == found(
            scores,
            k,
        ),
{
}

} // verus!
