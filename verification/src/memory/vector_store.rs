//! A store of vectors that can be kept on disk.
//!
//! The vectors stand in an index in memory. Beside it the store remembers a hash
//! of each entry's vector, so that a vector that has not changed is not added
//! again.

use crate::memory::embedding;
use crate::memory::embedding::{EmbeddingIndex, EmbeddingVector, IndexModel, VectorModel};
use crate::outside;
use crate::path;
use crate::path::FilePath;
use crate::text::text_map::TextMap;
use std::collections::hash_map::DefaultHasher;
use std::hash::Hasher;
use vstd::bytes::{u32_to_le_bytes, u64_to_le_bytes};
use vstd::prelude::*;
use vstd::std_specs::hash::DefaultHasherAdditionalSpecFns;

verus! {

/// How a store works.
#[derive(Debug)]
pub struct VectorStoreConfig {
    /// The directory of the files.
    pub data_dir: FilePath,
    /// How many components each vector has.
    pub dimension: usize,
    /// Whether the store is kept on disk.
    pub persist: bool,
    /// Whether a vector that has not changed is not added again.
    pub incremental_update: bool,
}

/// What a configuration holds.
#[verifier::ext_equal]
pub struct StoreConfigModel {
    pub data_dir: Seq<char>,
    pub dimension: usize,
    pub persist: bool,
    pub incremental_update: bool,
}

impl View for VectorStoreConfig {
    type V = StoreConfigModel;

    open spec fn view(&self) -> StoreConfigModel {
        StoreConfigModel {
            data_dir: self.data_dir@,
            dimension: self.dimension,
            persist: self.persist,
            incremental_update: self.incremental_update,
        }
    }
}

/// The usual configuration.
pub open spec fn default_config() -> StoreConfigModel {
    StoreConfigModel {
        data_dir: ".ccode/vectors"@,
        dimension: 1536,
        persist: true,
        incremental_update: true,
    }
}

impl Default for VectorStoreConfig {
    fn default() -> (r: Self)
        ensures
            r@ == default_config(),
    {
        VectorStoreConfig {
            data_dir: FilePath::new(".ccode/vectors"),
            dimension: 1536,
            persist: true,
            incremental_update: true,
        }
    }
}

/// The bytes of the components at places below `n` that are multiples of 100.
pub open spec fn sampled(data: Seq<u32>, n: nat) -> Seq<Seq<u8>>
    decreases n,
{
    if n == 0 {
        Seq::empty()
    } else if (n - 1) % 100 == 0 {
        sampled(data, (n - 1) as nat).push(vstd::bytes::spec_u32_to_le_bytes(data[n - 1]))
    } else {
        sampled(data, (n - 1) as nat)
    }
}

/// What is hashed of a vector: its length, and one in a hundred of its
/// components.
pub open spec fn hashed_parts(data: Seq<u32>) -> Seq<Seq<u8>> {
    seq![vstd::bytes::spec_u64_to_le_bytes(data.len() as u64)] + sampled(data, data.len())
}

/// The hash of a vector.
pub open spec fn hash_of(data: Seq<u32>) -> u64 {
    DefaultHasher::spec_finish(hashed_parts(data))
}

/// What a store holds.
#[verifier::ext_equal]
pub struct StoreModel {
    pub index: IndexModel,
    pub config: StoreConfigModel,
    pub hashes: Map<Seq<char>, u64>,
    pub loaded: bool,
}

/// A store of vectors.
#[derive(Debug)]
pub struct VectorStore {
    /// The vectors.
    pub hot_index: EmbeddingIndex,
    /// How the store works.
    pub config: VectorStoreConfig,
    /// The hash of each entry's vector.
    pub content_hashes: TextMap<u64>,
    /// Whether the store has been read from disk.
    pub loaded: bool,
}

impl View for VectorStore {
    type V = StoreModel;

    open spec fn view(&self) -> StoreModel {
        StoreModel {
            index: self.hot_index@,
            config: self.config@,
            hashes: self.content_hashes@,
            loaded: self.loaded,
        }
    }
}

/// A store after it was read from disk: what was kept replaces what it held, where
/// the store is kept on disk and the files could be read.
pub open spec fn loaded(
    m: StoreModel,
    index: Option<IndexModel>,
    hashes: Option<Map<Seq<char>, u64>>,
) -> StoreModel {
    StoreModel {
        index: match index {
            Some(i) if m.config.persist => i,
            _ => m.index,
        },
        config: m.config,
        hashes: match hashes {
            Some(h) if m.config.persist => h,
            _ => m.hashes,
        },
        loaded: true,
    }
}

/// The index that a file holds, if there is a file and it holds one.
pub open spec fn kept_index(file: Option<Seq<u8>>) -> Option<IndexModel> {
    match file {
        Some(b) => match outside::index_in(b) {
            Some((v, d)) if d <= usize::MAX => Some(
                IndexModel { vectors: v, dimension: d as usize },
            ),
            _ => None,
        },
        None => None,
    }
}

/// The hashes that a file holds, if there is a file and it holds some.
pub open spec fn kept_hashes(file: Option<Seq<u8>>) -> Option<Map<Seq<char>, u64>> {
    match file {
        Some(b) => outside::numbers_in(b),
        None => None,
    }
}

/// The bytes of a file, if there is one.
pub open spec fn file_bytes(file: Option<Vec<u8>>) -> Option<Seq<u8>> {
    match file {
        Some(b) => Some(b@),
        None => None,
    }
}

/// The index that a file holds.
fn read_index(file: &Option<Vec<u8>>) -> (r: Option<EmbeddingIndex>)
    ensures
        match r {
            Some(i) => kept_index(file_bytes(*file)) == Some(i@),
            None => kept_index(file_bytes(*file)) is None,
        },
{
    match file {
        Some(bytes) => match outside::read_index(bytes) {
            Some((vectors, dimension)) => if dimension <= usize::MAX as u64 {
                Some(EmbeddingIndex { vectors, dimension: dimension as usize })
            } else {
                None
            },
            None => None,
        },
        None => None,
    }
}

/// The hashes that a file holds.
fn read_hashes(file: &Option<Vec<u8>>) -> (r: Option<TextMap<u64>>)
    ensures
        match r {
            Some(h) => h.wf() && kept_hashes(file_bytes(*file)) == Some(h@),
            None => kept_hashes(file_bytes(*file)) is None,
        },
{
    let bytes = match file {
        Some(bytes) => bytes,
        None => {
            return None;
        },
    };
    match outside::read_numbers(bytes) {
        Some(pairs) => {
            let ghost all = outside::number_pairs(pairs@);
            let mut map: TextMap<u64> = TextMap::new();
            let mut i: usize = 0;
            while i < pairs.len()
                invariant
                    i <= pairs@.len(),
                    map.wf(),
                    all == outside::number_pairs(pairs@),
                    map@ == outside::numbers_under(all, i as nat),
                decreases pairs@.len() - i,
            {
                assert(all[i as int] == (pairs@[i as int].0@, pairs@[i as int].1));
                let key = pairs[i].0.clone();
                map.insert(key, pairs[i].1);
                i = i + 1;
            }
            Some(map)
        },
        None => None,
    }
}

proof fn lemma_numbers_under(
    v: Seq<(Seq<char>, u64)>,
    order: Seq<Seq<char>>,
    m: Map<Seq<char>, u64>,
    n: nat,
)
    requires
        v.len() == order.len(),
        n <= v.len(),
        forall|i: int| 0 <= i < v.len() ==> #[trigger] v[i] == (order[i], m[order[i]]),
    ensures
        ({
            let all = outside::numbers_under(v, n);
            forall|k: Seq<char>|
                (#[trigger] all.contains_key(k) <==> order.take(n as int).contains(k)) && (
                all.contains_key(k) ==> all[k] == m[k])
        }),
    decreases n,
{
    let all = outside::numbers_under(v, n);
    if n > 0 {
        lemma_numbers_under(v, order, m, (n - 1) as nat);
        let before = order.take(n - 1);
        let after = order.take(n as int);
        let last = order[n - 1];
        assert(after =~= before.push(last));
        assert(v[n - 1] == (last, m[last]));
        assert(all == outside::numbers_under(v, (n - 1) as nat).insert(last, m[last]));
        assert forall|k: Seq<char>| #[trigger] all.contains_key(k) <==> after.contains(k) by {
            if k == last {
                assert(after[n - 1] == k);
            } else if before.contains(k) {
                let i = choose|i: int| 0 <= i < before.len() && before[i] == k;
                assert(after[i] == k);
            } else if after.contains(k) {
                let i = choose|i: int| 0 <= i < after.len() && after[i] == k;
                assert(before[i] == k);
            }
        }
    }
}

/// Whether the store has the entry's vector already, by its hash.
pub open spec fn is_known(m: StoreModel, v: VectorModel) -> bool {
    &&& m.config.incremental_update
    &&& m.hashes.contains_key(v.entry_id)
    &&& m.hashes[v.entry_id] == hash_of(v.data)
}

/// The store after a vector was offered.
pub open spec fn offered(m: StoreModel, v: VectorModel) -> StoreModel {
    if is_known(m, v) {
        m
    } else {
        StoreModel {
            index: embedding::with_vector(m.index, v),
            hashes: if m.config.incremental_update {
                m.hashes.insert(v.entry_id, hash_of(v.data))
            } else {
                m.hashes
            },
            ..m
        }
    }
}

/// The store after vectors were offered.
pub open spec fn all_offered(m: StoreModel, v: Seq<VectorModel>) -> StoreModel
    decreases v.len(),
{
    if v.len() == 0 {
        m
    } else {
        offered(all_offered(m, v.drop_last()), v.last())
    }
}

/// How many of the vectors were new.
pub open spec fn new_count(m: StoreModel, v: Seq<VectorModel>) -> nat
    decreases v.len(),
{
    if v.len() == 0 {
        0
    } else {
        new_count(m, v.drop_last()) + if is_known(all_offered(m, v.drop_last()), v.last()) {
            0nat
        } else {
            1nat
        }
    }
}

impl VectorStore {
    /// The store's hashes are in order.
    pub open spec fn wf(&self) -> bool {
        self.content_hashes.wf()
    }

    /// An empty store, not yet read from disk.
    pub fn new(config: VectorStoreConfig) -> (r: Self)
        ensures
            r.wf(),
            r@ == (StoreModel {
                index: IndexModel { vectors: Seq::empty(), dimension: config.dimension },
                config: config@,
                hashes: Map::empty(),
                loaded: false,
            }),
    {
        VectorStore {
            hot_index: EmbeddingIndex::with_dimension(config.dimension),
            config,
            content_hashes: TextMap::new(),
            loaded: false,
        }
    }

    /// An empty store that is never kept on disk.
    pub fn in_memory(dimension: usize) -> (r: Self)
        ensures
            r.wf(),
            r@ == (StoreModel {
                index: IndexModel { vectors: Seq::empty(), dimension: dimension },
                config: StoreConfigModel { persist: false, ..default_config() },
                hashes: Map::empty(),
                loaded: true,
            }),
    {
        let mut config = VectorStoreConfig::default();
        config.persist = false;
        VectorStore {
            hot_index: EmbeddingIndex::with_dimension(dimension),
            config,
            content_hashes: TextMap::new(),
            loaded: true,
        }
    }

    /// The file of the index.
    pub fn index_path(&self) -> (r: FilePath)
        ensures
            r@ == path::join(self@.config.data_dir, "index.bin"@),
    {
        self.config.data_dir.join("index.bin")
    }

    /// The file of the hashes.
    pub fn hashes_path(&self) -> (r: FilePath)
        ensures
            r@ == path::join(self@.config.data_dir, "hashes.bin"@),
    {
        self.config.data_dir.join("hashes.bin")
    }

    /// Whether the files are to be read.
    pub fn reads_files(&self) -> (r: bool)
        ensures
            r == self@.config.persist,
    {
        self.config.persist
    }

    /// Takes what was read from disk: nothing unless the files were to be read,
    /// and of these only what was there and could be read.
    pub fn load_kept(
        &mut self,
        index: Option<EmbeddingIndex>,
        hashes: Option<TextMap<u64>>,
    )
        requires
            old(self).wf(),
            hashes matches Some(h) ==> h.wf(),
        ensures
            final(self).wf(),
            final(self)@ == loaded(
                old(self)@,
                match index {
                    Some(i) => Some(i@),
                    None => None,
                },
                match hashes {
                    Some(h) => Some(h@),
                    None => None,
                },
            ),
    {
        if self.reads_files() {
            if let Some(i) = index {
                self.hot_index = i;
            }
            if let Some(h) = hashes {
                self.content_hashes = h;
            }
        }
        self.loaded = true;
    }

    /// Takes what the files on disk hold: nothing unless they are to be read, and
    /// of these only what is there and can be read.
    pub fn load_from_disk(&mut self, index_file: Option<Vec<u8>>, hashes_file: Option<Vec<u8>>)
        requires
            old(self).wf(),
        ensures
            final(self).wf(),
            final(self)@ == loaded(
                old(self)@,
                kept_index(file_bytes(index_file)),
                kept_hashes(file_bytes(hashes_file)),
            ),
    {
        self.load_kept(read_index(&index_file), read_hashes(&hashes_file));
    }

    /// What is written to the file of the index and to the file of the hashes;
    /// nothing where the store is not kept on disk.
    pub fn save_to_disk(&self) -> (r: Option<(Vec<u8>, Vec<u8>)>)
        requires
            self.wf(),
        ensures
            match r {
                Some((index, hashes)) => {
                    &&& self@.config.persist
                    &&& index@ == outside::index_bytes(
                        self@.index.vectors,
                        self@.index.dimension as u64,
                    )
                    &&& kept_index(Some(index@)) == Some(self@.index)
                    &&& kept_hashes(Some(hashes@)) == Some(self@.hashes)
                },
                None => !self@.config.persist,
            },
    {
        if !self.config.persist {
            return None;
        }
        let index = outside::write_index(&self.hot_index.vectors, self.hot_index.dimension as u64);
        let ghost order = self.content_hashes.order();
        let ghost m = self.content_hashes@;
        let mut pairs: Vec<(String, u64)> = Vec::new();
        let mut i: usize = 0;
        while i < self.content_hashes.len()
            invariant
                i <= order.len(),
                self.content_hashes.wf(),
                order == self.content_hashes.order(),
                m == self.content_hashes@,
                pairs@.len() == i,
                forall|j: int|
                    0 <= j < i ==> (#[trigger] pairs@[j]).0@ == order[j] && pairs@[j].1
                        == m[order[j]],
            decreases order.len() - i,
        {
            let key = self.content_hashes.key_at(i).clone();
            pairs.push((key, *self.content_hashes.value_at(i)));
            i = i + 1;
        }
        let hashes = outside::write_numbers(&pairs);
        proof {
            let all = outside::number_pairs(pairs@);
            assert forall|j: int| 0 <= j < all.len() implies #[trigger] all[j] == (
                order[j],
                m[order[j]],
            ) by {
                assert(all[j] == (pairs@[j].0@, pairs@[j].1));
            }
            lemma_numbers_under(all, order, m, all.len());
            assert(order.take(all.len() as int) =~= order);
            assert forall|k: Seq<char>| m.contains_key(k) <==> #[trigger] order.contains(k) by {
                self.content_hashes.lemma_order(k);
            }
            assert(outside::numbers_under(all, all.len()) =~= m);
        }
        Some((index, hashes))
    }

    /// Whether the store is to be written to disk when it is given up.
    pub fn saves_at_end(&self) -> (r: bool)
        ensures
            r == (self@.config.persist && self@.loaded),
    {
        self.config.persist && self.loaded
    }

    /// The hash of a vector.
    pub fn content_hash(data: &Vec<u32>) -> (r: u64)
        ensures
            r == hash_of(data@),
    {
        let mut hasher = DefaultHasher::new();
        let length: u64 = data.len() as u64;
        let bytes = u64_to_le_bytes(length);
        hasher.write(bytes.as_slice());
        let ghost first = seq![vstd::bytes::spec_u64_to_le_bytes(data@.len() as u64)];
        assert(hasher@ =~= first + sampled(data@, 0));
        let mut i: usize = 0;
        while i < data.len()
            invariant
                i <= data@.len(),
                hasher@ == first + sampled(data@, i as nat),
            decreases data@.len() - i,
        {
            if i % 100 == 0 {
                let part = u32_to_le_bytes(data[i]);
                hasher.write(part.as_slice());
                assert(hasher@ =~= first + sampled(data@, i as nat).push(part@));
            }
            i = i + 1;
        }
        hasher.finish()
    }

    /// Adds a vector, unless it has not changed, and says whether it was added.
    pub fn add_vector(&mut self, vector: EmbeddingVector) -> (r: bool)
        requires
            old(self).wf(),
        ensures
            final(self).wf(),
            final(self)@ == offered(old(self)@, vector@),
            r == !is_known(old(self)@, vector@),
    {
        if self.config.incremental_update {
            let hash: u64 = VectorStore::content_hash(&vector.data);
            if let Some(existing) = self.content_hashes.get(vector.entry_id.as_str()) {
                if *existing == hash {
                    return false;
                }
            }
            self.content_hashes.insert(vector.entry_id.clone(), hash);
        }
        self.hot_index.add(vector);
        true
    }

    /// Adds vectors, but for those that have not changed, and says how many were
    /// added.
    pub fn add_vectors(&mut self, vectors: Vec<EmbeddingVector>) -> (r: usize)
        requires
            old(self).wf(),
        ensures
            final(self).wf(),
            final(self)@ == all_offered(old(self)@, embedding::vector_models(vectors@)),
            r == new_count(old(self)@, embedding::vector_models(vectors@)),
    {
        let ghost all = embedding::vector_models(vectors@);
        let ghost before = self@;
        let total: usize = vectors.len();
        let mut added: usize = 0;
        assert(all.take(0) =~= Seq::empty());
        for vector in it: vectors
            invariant
                all == embedding::vector_models(it.seq()),
                total == all.len(),
                self.wf(),
                self@ == all_offered(before, all.take(it.index() as int)),
                added == new_count(before, all.take(it.index() as int)),
                added <= it.index() <= total,
        {
            let ghost i = it.index() as int;
            assert(all[i] == vector@);
            assert(all.take(i + 1).drop_last() =~= all.take(i));
            if self.add_vector(vector) {
                added = added + 1;
            }
        }
        assert(all.take(all.len() as int) =~= all);
        added
    }

    /// Searches the index.
    pub fn search(&self, query: &[u32], scores: &Vec<Option<i64>>, k: usize) -> (r: Vec<
        (usize, i64),
    >)
        requires
            scores@.len() == self@.index.vectors.len(),
        ensures
            embedding::hits(r@) == embedding::search_result(
                self@.index,
                query@.len(),
                scores@,
                k as nat,
            ),
    {
        self.hot_index.search(query, scores, k)
    }

    /// How many vectors there are.
    pub fn len(&self) -> (r: usize)
        ensures
            r == self@.index.vectors.len(),
    {
        self.hot_index.len()
    }

    /// Whether there is no vector.
    pub fn is_empty(&self) -> (r: bool)
        ensures
            r == (self@.index.vectors.len() == 0),
    {
        self.hot_index.is_empty()
    }

    /// The index.
    pub fn index(&self) -> (r: &EmbeddingIndex)
        ensures
            r@ == self@.index,
    {
        &self.hot_index
    }

    /// Removes the vectors of an entry and says whether there were any.
    pub fn remove(&mut self, entry_id: &str) -> (r: bool)
        requires
            old(self).wf(),
        ensures
            final(self).wf(),
            final(self)@ == (StoreModel {
                index: IndexModel {
                    vectors: embedding::without_entry(old(self)@.index.vectors, entry_id@),
                    ..old(self)@.index
                },
                hashes: old(self)@.hashes.remove(entry_id@),
                ..old(self)@
            }),
            r == (final(self)@.index.vectors.len() != old(self)@.index.vectors.len()),
    {
        self.content_hashes.remove(entry_id);
        self.hot_index.remove_by_entry_id(entry_id)
    }

    /// Removes everything.
    pub fn clear(&mut self)
        ensures
            final(self).wf(),
            final(self)@ == (StoreModel {
                index: IndexModel { vectors: Seq::empty(), ..old(self)@.index },
                hashes: Map::empty(),
                ..old(self)@
            }),
    {
        self.hot_index.clear();
        self.content_hashes = TextMap::new();
    }

    /// How many vectors and how many hashes there are.
    pub fn incremental_stats(&self) -> (r: (usize, usize))
        requires
            self.wf(),
        ensures
            r.0 == self@.index.vectors.len(),
            r.1 == self.content_hashes.order().len(),
    {
        (self.hot_index.len(), self.content_hashes.len())
    }
}

/// A vector that was just offered is known: offering it again changes nothing.
pub proof fn law_second_offer_is_skipped(m: StoreModel, v: VectorModel)
    requires
        m.config.incremental_update,
    ensures
        is_known(offered(m, v), v),
        offered(offered(m, v), v) == offered(m, v),
{
}

/// A store that is read from the files that another was saved to holds what the other
/// held: nothing is lost when the program starts anew.
pub proof fn law_saved_store_is_loaded(
    saved: StoreModel,
    fresh: StoreModel,
    index_file: Seq<u8>,
    hashes_file: Seq<u8>,
)
    requires
        fresh.config == saved.config,
        saved.config.persist,
        kept_index(Some(index_file)) == Some(saved.index),
        kept_hashes(Some(hashes_file)) == Some(saved.hashes),
    ensures
        loaded(fresh, kept_index(Some(index_file)), kept_hashes(Some(hashes_file))) == (
        StoreModel { loaded: true, ..saved }),
{
}

/// After an entry is removed its vector is new again.
pub proof fn law_removed_entry_is_new(m: StoreModel, v: VectorModel)
    ensures
        !is_known(StoreModel { hashes: m.hashes.remove(v.entry_id), ..m }, v),
{
}

/// A vector is known where the store updates by what changed and holds the hash of the
/// same numbers under the same name.
pub proof fn law_known_vectors(m: StoreModel, v: VectorModel)
    ensures
        !m.config.incremental_update ==> !is_known(m, v),
        !m.hashes.contains_key(v.entry_id) ==> !is_known(m, v),
        m.config.incremental_update && m.hashes.contains_key(v.entry_id) ==> (is_known(m, v)
            <==> m.hashes[v.entry_id] == hash_of(v.data)),
{
}

/// A vector that is not known is added to the index where its dimension fits, and, where
/// the store updates by what changed, its hash is kept; a known one changes nothing.
pub proof fn law_new_vector_is_added(m: StoreModel, v: VectorModel)
    ensures
        is_known(m, v) ==> offered(m, v) == m,
        !is_known(m, v) && v.data.len() == m.index.dimension ==> offered(m, v).index.vectors
            == m.index.vectors.push(v),
        !is_known(m, v) && v.data.len() != m.index.dimension ==> offered(m, v).index == m.index,
        !is_known(m, v) && m.config.incremental_update ==> offered(m, v).hashes
            == m.hashes.insert(v.entry_id, hash_of(v.data)),
        !m.config.incremental_update ==> offered(m, v).hashes == m.hashes,
        offered(m, v).config == m.config,
{
}

/// Vectors are offered one after the other, and each that was not known is counted.
pub proof fn law_new_vectors_are_counted(m: StoreModel, vs: Seq<VectorModel>, v: VectorModel)
    ensures
        all_offered(m, Seq::empty()) == m,
        new_count(m, Seq::empty()) == 0,
        all_offered(m, vs.push(v)) == offered(all_offered(m, vs), v),
        is_known(all_offered(m, vs), v) ==> new_count(m, vs.push(v)) == new_count(m, vs),
        !is_known(all_offered(m, vs), v) ==> new_count(m, vs.push(v)) == new_count(m, vs) + 1,
{
    assert(vs.push(v).drop_last() =~= vs);
}

/// The hash of a vector is taken of its length and of every hundredth number, from the
/// first on.
pub proof fn law_every_hundredth_number_is_hashed(data: Seq<u32>, j: int)
    requires
        0 <= j,
        100 * j < data.len(),
    ensures
        hashed_parts(data)[0] == vstd::bytes::spec_u64_to_le_bytes(data.len() as u64),
        hashed_parts(data)[j + 1] == vstd::bytes::spec_u32_to_le_bytes(data[100 * j]),
        100 * (hashed_parts(data).len() - 2) < data.len() <= 100 * (hashed_parts(data).len() - 1),
{
    lemma_sampled(data, data.len(), j);
}

proof fn lemma_sampled(data: Seq<u32>, n: nat, j: int)
    requires
        n <= data.len(),
    ensures
        100 * (sampled(data, n).len() - 1) < n <= 100 * sampled(data, n).len(),
        0 <= j < sampled(data, n).len() ==> sampled(data, n)[j]
            == vstd::bytes::spec_u32_to_le_bytes(data[100 * j]),
    decreases n,
{
    if n > 0 {
        lemma_sampled(data, (n - 1) as nat, j);
    }
}

/// A store that keeps nothing on disk reads nothing from it, and a file that cannot be
/// read leaves what the store holds.
pub proof fn law_loading_needs_files(
    m: StoreModel,
    index: Option<IndexModel>,
    hashes: Option<Map<Seq<char>, u64>>,
)
    ensures
        loaded(m, index, hashes).loaded,
        loaded(m, index, hashes).config == m.config,
        !m.config.persist || index is None ==> loaded(m, index, hashes).index == m.index,
        !m.config.persist || hashes is None ==> loaded(m, index, hashes).hashes == m.hashes,
        m.config.persist && index is Some ==> loaded(m, index, hashes).index == index->0,
        m.config.persist && hashes is Some ==> loaded(m, index, hashes).hashes == hashes->0,
{
}

} // verus!
