//! Retrieval of code by what a query is after.
//!
//! A query is expanded into several intents; each is searched for on its own, and
//! out of the results together such are selected that are relevant and unlike each
//! other. Weights are kept as the bit patterns of
//! double-precision numbers, relevances as integers that are ordered as the
//! relevances are.

use crate::memory::embedding;
use crate::memory::embedding::{EmbeddingIndex, IndexModel};
use crate::memory::function_embed::{BlockModel, CodeBlock};
use crate::memory::mmr;
use crate::memory::rank;
use crate::memory::repo_map;
use crate::memory::repo_map::RepoMap;
use crate::outside;
use crate::path;
use crate::path::{FilePath, PathKey};
use crate::text::order;
use crate::text::text_map;
use crate::text::text_map::TextMap;
use crate::text::{model, ops};
use vstd::prelude::*;
use vstd::string::*;

verus! {

/// What a query is after.
#[derive(Debug)]
pub struct RetrievalIntent {
    /// The intent in words.
    pub description: String,
    /// The words to search for.
    pub keywords: Vec<String>,
    /// The kinds of code that are expected.
    pub expected_kinds: Vec<String>,
    /// The weight.
    pub weight: u64,
}

/// What an intent holds.
#[verifier::ext_equal]
pub struct IntentModel {
    pub description: Seq<char>,
    pub keywords: Seq<Seq<char>>,
    pub expected_kinds: Seq<Seq<char>>,
    pub weight: u64,
}

impl View for RetrievalIntent {
    type V = IntentModel;

    open spec fn view(&self) -> IntentModel {
        IntentModel {
            description: self.description@,
            keywords: model::texts(self.keywords@),
            expected_kinds: model::texts(self.expected_kinds@),
            weight: self.weight,
        }
    }
}

/// The intents that a list holds.
pub open spec fn intent_models(v: Seq<RetrievalIntent>) -> Seq<IntentModel> {
    v.map_values(|i: RetrievalIntent| i@)
}

/// A result of a retrieval.
#[derive(Debug)]
pub struct RetrievalResult {
    /// Names the block.
    pub block_id: String,
    /// The file that the block stands in.
    pub file_path: FilePath,
    /// The name of what the block defines.
    pub name: String,
    /// How relevant the block is.
    pub relevance_score: i64,
    /// The intent that has found it.
    pub source_intent: String,
    /// The beginning of its source text.
    pub preview: String,
}

/// What a result holds.
#[verifier::ext_equal]
pub struct RetrievedModel {
    pub block_id: Seq<char>,
    pub file_path: Seq<char>,
    pub name: Seq<char>,
    pub relevance_score: i64,
    pub source_intent: Seq<char>,
    pub preview: Seq<char>,
}

impl View for RetrievalResult {
    type V = RetrievedModel;

    open spec fn view(&self) -> RetrievedModel {
        RetrievedModel {
            block_id: self.block_id@,
            file_path: self.file_path@,
            name: self.name@,
            relevance_score: self.relevance_score,
            source_intent: self.source_intent@,
            preview: self.preview@,
        }
    }
}

impl Clone for RetrievalResult {
    fn clone(&self) -> (r: Self)
        ensures
            r@ == self@,
    {
        RetrievalResult {
            block_id: self.block_id.clone(),
            file_path: FilePath::new(self.file_path.as_text()),
            name: self.name.clone(),
            relevance_score: self.relevance_score,
            source_intent: self.source_intent.clone(),
            preview: self.preview.clone(),
        }
    }
}

/// The results that a list holds.
pub open spec fn retrieved_models(v: Seq<RetrievalResult>) -> Seq<RetrievedModel> {
    v.map_values(|r: RetrievalResult| r@)
}

/// The first 200 characters of a text.
pub open spec fn preview_of(source: Seq<char>) -> Seq<char> {
    if source.len() <= 200 {
        source
    } else {
        source.take(200)
    }
}

/// The result for a block.
pub open spec fn result_for(b: BlockModel, score: i64, intent: Seq<char>) -> RetrievedModel {
    RetrievedModel {
        block_id: b.id,
        file_path: b.file_path,
        name: b.name,
        relevance_score: score,
        source_intent: intent,
        preview: preview_of(b.source),
    }
}

/// The blocks by their names.
pub type Blocks = Map<Seq<char>, BlockModel>;

/// The blocks that a map of blocks shows.
pub open spec fn shown_blocks(m: Map<Seq<char>, CodeBlock>) -> Blocks {
    Map::new(|k: Seq<char>| m.contains_key(k), |k: Seq<char>| m[k]@)
}

/// The results for the first `n` hits of an intent: those whose block is known.
pub open spec fn hit_results(
    index: IndexModel,
    blocks: Blocks,
    hits: Seq<(int, i64)>,
    relevance: Seq<i64>,
    intent: Seq<char>,
    n: nat,
) -> Seq<RetrievedModel>
    decreases n,
{
    if n == 0 {
        Seq::empty()
    } else {
        let before = hit_results(index, blocks, hits, relevance, intent, (n - 1) as nat);
        let place = hits[n - 1].0;
        let id = index.vectors[place].entry_id;
        if blocks.contains_key(id) {
            before.push(result_for(blocks[id], relevance[place], intent))
        } else {
            before
        }
    }
}

/// The results for the first `n` intents, one intent after the other.
pub open spec fn intent_results(
    index: IndexModel,
    blocks: Blocks,
    intents: Seq<IntentModel>,
    query_len: nat,
    scores: Seq<Option<i64>>,
    limits: Seq<usize>,
    relevance: Seq<Vec<i64>>,
    n: nat,
) -> Seq<RetrievedModel>
    decreases n,
{
    if n == 0 {
        Seq::empty()
    } else {
        let hits = embedding::search_result(index, query_len, scores, limits[n - 1] as nat);
        intent_results(
            index,
            blocks,
            intents,
            query_len,
            scores,
            limits,
            relevance,
            (n - 1) as nat,
        ) + hit_results(
            index,
            blocks,
            hits,
            relevance[n - 1]@,
            intents[n - 1].description,
            hits.len(),
        )
    }
}

/// Whether a block is among the results.
pub open spec fn has_block(v: Seq<RetrievedModel>, id: Seq<char>) -> bool {
    exists|i: int| 0 <= i < v.len() && (#[trigger] v[i]).block_id == id
}

/// The results with each block only where it comes first.
pub open spec fn first_of_each(v: Seq<RetrievedModel>) -> Seq<RetrievedModel>
    decreases v.len(),
{
    if v.len() == 0 {
        v
    } else {
        let before = first_of_each(v.drop_last());
        if has_block(before, v.last().block_id) {
            before
        } else {
            before.push(v.last())
        }
    }
}

/// The relevances of some results.
pub open spec fn relevances(v: Seq<RetrievedModel>) -> Seq<i64> {
    v.map_values(|r: RetrievedModel| r.relevance_score)
}

/// The results, the most relevant first.
pub open spec fn by_relevance(v: Seq<RetrievedModel>) -> Seq<RetrievedModel> {
    rank::descending(relevances(v)).map_values(|i: int| v[i])
}

/// The results of some searches together: each block where it comes first, the most
/// relevant first.
pub open spec fn merged(v: Seq<RetrievedModel>) -> Seq<RetrievedModel> {
    by_relevance(first_of_each(v))
}

/// At most `k` of the results, selected in rounds.
pub open spec fn diversified(v: Seq<RetrievedModel>, k: nat, rounds: Seq<Vec<i64>>) -> Seq<
    RetrievedModel,
> {
    mmr::selection(v.len(), k, rounds, rounds.len()).selected.map_values(|i: int| v[i])
}

/// The pieces of a word before place `n`, and the piece that is not yet ended:
/// an upper-case letter begins a new piece.
pub open spec fn pieces_upto(word: Seq<char>, upper: Seq<bool>, n: nat) -> (
    Seq<Seq<char>>,
    Seq<char>,
)
    decreases n,
{
    if n == 0 {
        (Seq::empty(), Seq::empty())
    } else {
        let (done, current) = pieces_upto(word, upper, (n - 1) as nat);
        if upper[n - 1] && current.len() > 0 {
            (done.push(current), seq![word[n - 1]])
        } else {
            (done, current.push(word[n - 1]))
        }
    }
}

/// The pieces of a word.
pub open spec fn pieces(word: Seq<char>, upper: Seq<bool>) -> Seq<Seq<char>> {
    let (done, current) = pieces_upto(word, upper, word.len());
    if current.len() > 0 {
        done.push(current)
    } else {
        done
    }
}

/// Which characters of a word are upper-case ones.
pub open spec fn upper_flags(word: Seq<char>) -> Seq<bool> {
    word.map_values(|c: char| outside::is_upper(c))
}

/// The texts in lower case.
pub open spec fn lowered(v: Seq<Seq<char>>) -> Seq<Seq<char>> {
    v.map_values(|s: Seq<char>| outside::lower(s))
}

/// The list with the first `n` of other texts, each unless it is empty or there
/// already.
pub open spec fn with_new(v: Seq<Seq<char>>, more: Seq<Seq<char>>, n: nat) -> Seq<Seq<char>>
    decreases n,
{
    if n == 0 {
        v
    } else {
        let before = with_new(v, more, (n - 1) as nat);
        if more[n - 1].len() == 0 || before.contains(more[n - 1]) {
            before
        } else {
            before.push(more[n - 1])
        }
    }
}

/// The components with those of one more word: its pieces, and the parts between
/// underscores that are not there already.
pub open spec fn with_word(v: Seq<Seq<char>>, word: Seq<char>) -> Seq<Seq<char>> {
    let all = v + lowered(pieces(word, upper_flags(word)));
    if model::contains(word, "_"@) {
        let parts = lowered(model::split(word, "_"@));
        with_new(all, parts, parts.len())
    } else {
        all
    }
}

/// The components of the first `n` words.
pub open spec fn components_upto(words: Seq<Seq<char>>, n: nat) -> Seq<Seq<char>>
    decreases n,
{
    if n == 0 {
        Seq::empty()
    } else {
        with_word(components_upto(words, (n - 1) as nat), words[n - 1])
    }
}

/// The components of the names in a query.
pub open spec fn components(query: Seq<char>) -> Seq<Seq<char>> {
    let words = model::split_whitespace(query);
    order::deduped(components_upto(words, words.len()))
}

/// A word with a capital in front.
pub open spec fn capitalised(s: Seq<char>) -> Seq<char> {
    if s.len() == 0 {
        outside::lower(s)
    } else {
        outside::upper(s[0]) + outside::lower(s.skip(1))
    }
}

/// The first `n` words with capitals in front, one after the other.
pub open spec fn camel_upto(v: Seq<Seq<char>>, n: nat) -> Seq<char>
    decreases n,
{
    if n == 0 {
        Seq::empty()
    } else {
        camel_upto(v, (n - 1) as nat) + capitalised(v[n - 1])
    }
}

/// The list with an item, if a condition holds.
pub open spec fn with_if(v: Seq<IntentModel>, yes: bool, i: IntentModel) -> Seq<IntentModel> {
    if yes {
        v.push(i)
    } else {
        v
    }
}

/// An intent without keywords.
pub open spec fn kind_intent(
    description: Seq<char>,
    kinds: Seq<Seq<char>>,
    weight: u64,
) -> IntentModel {
    IntentModel {
        description: description,
        keywords: Seq::empty(),
        expected_kinds: kinds,
        weight: weight,
    }
}

/// Whether a text holds one of three words.
pub open spec fn holds_one_of(s: Seq<char>, a: Seq<char>, b: Seq<char>, c: Seq<char>) -> bool {
    model::contains(s, a) || model::contains(s, b) || model::contains(s, c)
}

/// The kinds of code that a query in lower case speaks of.
pub open spec fn type_intents(q: Seq<char>) -> Seq<IntentModel> {
    let a = with_if(
        Seq::empty(),
        holds_one_of(q, "函数"@, "function"@, "fn "@),
        kind_intent("函数搜索"@, seq!["function"@, "method"@], 0x3FE0_0000_0000_0000),
    );
    let b = with_if(
        a,
        holds_one_of(q, "类"@, "class"@, "struct"@),
        kind_intent("类/结构体搜索"@, seq!["class"@], 0x3FE0_0000_0000_0000),
    );
    let c = with_if(
        b,
        model::contains(q, "测试"@) || model::contains(q, "test"@),
        kind_intent("测试搜索"@, seq!["test"@], 0x3FD9_9999_9999_999A),
    );
    with_if(
        c,
        holds_one_of(q, "接口"@, "trait"@, "interface"@),
        kind_intent("接口/Trait 搜索"@, seq!["trait"@], 0x3FD9_9999_9999_999A),
    )
}

/// The intents of a query: the query itself, the components of the names in it,
/// the names that these make together, and the kinds of code that it speaks of.
pub open spec fn intents_of(query: Seq<char>) -> Seq<IntentModel> {
    let main = IntentModel {
        description: "主查询: "@ + query,
        keywords: lowered(model::split_whitespace(query)),
        expected_kinds: Seq::empty(),
        weight: 0x3FF0_0000_0000_0000,
    };
    let parts = components(query);
    let named = IntentModel {
        description: "名称组件匹配"@,
        keywords: parts,
        expected_kinds: Seq::empty(),
        weight: 0x3FE6_6666_6666_6666,
    };
    let combined = IntentModel {
        description: "组合名称匹配"@,
        keywords: seq![
            camel_upto(parts, parts.len()),
            outside::lower(model::join(parts, "_"@)),
        ],
        expected_kinds: Seq::empty(),
        weight: 0x3FE3_3333_3333_3333,
    };
    with_if(with_if(seq![main], parts.len() > 0, named), parts.len() > 0, combined) + type_intents(
        outside::lower(query),
    )
}

/// The pieces of a word; `upper` says which of its characters are upper-case
/// ones.
pub fn split_camel(word: &[char], upper: &Vec<bool>) -> (r: Vec<String>)
    requires
        upper@.len() == word@.len(),
    ensures
        model::texts(r@) == pieces(word@, upper@),
{
    let mut done: Vec<String> = Vec::new();
    let mut current = String::new();
    let mut size: usize = 0;
    assert(model::texts(done@) =~= Seq::empty());
    assert(current@ =~= Seq::empty());
    let mut i: usize = 0;
    while i < word.len()
        invariant
            i <= word@.len(),
            upper@.len() == word@.len(),
            size == current@.len(),
            size <= i,
            pieces_upto(word@, upper@, i as nat) == (model::texts(done@), current@),
        decreases word@.len() - i,
    {
        if upper[i] && size > 0 {
            let ghost before = done@;
            let ghost shown = current@;
            done.push(current);
            assert(model::texts(done@) =~= model::texts(before).push(shown));
            current = String::new();
            current.push(word[i]);
            assert(current@ =~= seq![word@[i as int]]);
            size = 1;
        } else {
            current.push(word[i]);
            size = size + 1;
        }
        i = i + 1;
    }
    if size > 0 {
        let ghost before = done@;
        let ghost shown = current@;
        done.push(current);
        assert(model::texts(done@) =~= model::texts(before).push(shown));
    }
    done
}

/// Which characters of a word are upper-case ones.
fn flags_of(word: &[char]) -> (r: Vec<bool>)
    ensures
        r@ == upper_flags(word@),
{
    let mut flags: Vec<bool> = Vec::new();
    let mut i: usize = 0;
    while i < word.len()
        invariant
            i <= word@.len(),
            flags@ == upper_flags(word@).take(i as int),
        decreases word@.len() - i,
    {
        flags.push(outside::is_uppercase(word[i]));
        assert(upper_flags(word@).take(i + 1) =~= upper_flags(word@).take(i as int).push(
            outside::is_upper(word@[i as int]),
        ));
        i = i + 1;
    }
    assert(upper_flags(word@).take(word@.len() as int) =~= upper_flags(word@));
    flags
}

/// The texts in lower case.
fn lower_all(v: &Vec<String>) -> (r: Vec<String>)
    ensures
        model::texts(r@) == lowered(model::texts(v@)),
{
    let ghost all = lowered(model::texts(v@));
    let mut out: Vec<String> = Vec::new();
    assert(model::texts(out@) =~= all.take(0));
    let mut i: usize = 0;
    while i < v.len()
        invariant
            i <= v@.len(),
            all == lowered(model::texts(v@)),
            model::texts(out@) == all.take(i as int),
        decreases v@.len() - i,
    {
        let ghost before = out@;
        let s = outside::to_lowercase(v[i].as_str());
        let ghost shown = s@;
        assert(all[i as int] == shown);
        out.push(s);
        assert(model::texts(out@) =~= model::texts(before).push(shown));
        assert(all.take(i + 1) =~= all.take(i as int).push(shown));
        i = i + 1;
    }
    assert(all.take(all.len() as int) =~= all);
    out
}

/// Appends texts, each unless it is empty or there already.
fn add_new(v: &mut Vec<String>, more: &Vec<String>)
    ensures
        model::texts(final(v)@) == with_new(
            model::texts(old(v)@),
            model::texts(more@),
            more@.len(),
        ),
{
    let ghost start = model::texts(v@);
    let ghost all = model::texts(more@);
    let mut i: usize = 0;
    while i < more.len()
        invariant
            i <= more@.len(),
            all == model::texts(more@),
            model::texts(v@) == with_new(start, all, i as nat),
        decreases more@.len() - i,
    {
        assert(all[i as int] == more@[i as int]@);
        let item = more[i].clone();
        let empty = ops::is_text(ops::chars_of(item.as_str()).as_slice(), "");
        proof {
            reveal_strlit("");
            assert(""@ =~= Seq::<char>::empty());
            assert(item@.len() == 0 <==> item@ =~= ""@);
        }
        if !empty && !ops::has_text(v.as_slice(), item.as_str()) {
            let ghost before = v@;
            let ghost shown = item@;
            v.push(item);
            assert(model::texts(v@) =~= model::texts(before).push(shown));
        }
        i = i + 1;
    }
}

/// Whether a text holds one of three words.
fn holds_any(s: &[char], a: &str, b: &str, c: &str) -> (r: bool)
    ensures
        r == holds_one_of(s@, a@, b@, c@),
{
    ops::contains(s, a) || ops::contains(s, b) || ops::contains(s, c)
}

/// Appends an intent without keywords.
fn add_kind_intent(out: &mut Vec<RetrievalIntent>, description: &str, kinds: Vec<String>, weight: u64)
    ensures
        intent_models(final(out)@) == intent_models(old(out)@).push(
            kind_intent(description@, model::texts(kinds@), weight),
        ),
{
    let ghost before = intent_models(out@);
    let keywords: Vec<String> = Vec::new();
    let intent = RetrievalIntent {
        description: String::from_str(description),
        keywords,
        expected_kinds: kinds,
        weight,
    };
    assert(intent@.keywords =~= Seq::<Seq<char>>::empty());
    let ghost shown = intent@;
    out.push(intent);
    assert(intent_models(out@) =~= before.push(shown));
}

/// A list of one text.
fn single(s: &str) -> (r: Vec<String>)
    ensures
        model::texts(r@) == seq![s@],
{
    let mut v: Vec<String> = Vec::new();
    v.push(String::from_str(s));
    assert(model::texts(v@) =~= seq![s@]);
    v
}

/// The blocks and the index that code is retrieved from.
#[derive(Debug)]
pub struct IntentRetriever {
    /// The index of the blocks' vectors.
    pub embedding_index: EmbeddingIndex,
    /// The blocks by their names.
    pub code_blocks: TextMap<CodeBlock>,
    /// The dependencies between the files, where they are known.
    pub repo_map: Option<RepoMap>,
}

/// What has been added along dependencies.
#[verifier::ext_equal]
pub struct Expansion {
    /// The files that are done.
    pub seen: Set<PathKey>,
    /// The results.
    pub added: Seq<RetrievedModel>,
}

/// The results with those of the first `n` blocks that stand in a file, as long
/// as there is room.
pub open spec fn with_blocks(
    v: Seq<RetrievedModel>,
    blocks: Seq<BlockModel>,
    file: PathKey,
    score: i64,
    intent: Seq<char>,
    max: nat,
    n: nat,
) -> Seq<RetrievedModel>
    decreases n,
{
    if n == 0 {
        v
    } else {
        let before = with_blocks(v, blocks, file, score, intent, max, (n - 1) as nat);
        let b = blocks[n - 1];
        if path::key(b.file_path) == file && before.len() < max {
            before.push(result_for(b, score, intent))
        } else {
            before
        }
    }
}

/// The expansion after a file was reached.
pub open spec fn with_file(
    e: Expansion,
    blocks: Seq<BlockModel>,
    file: PathKey,
    score: i64,
    intent: Seq<char>,
    max: nat,
) -> Expansion {
    if e.seen.contains(file) {
        e
    } else {
        Expansion {
            seen: e.seen.insert(file),
            added: with_blocks(e.added, blocks, file, score, intent, max, blocks.len()),
        }
    }
}

/// The expansion after the first `n` of some files were reached.
pub open spec fn with_files(
    e: Expansion,
    blocks: Seq<BlockModel>,
    files: Seq<PathKey>,
    score: i64,
    intent: Seq<char>,
    max: nat,
    n: nat,
) -> Expansion
    decreases n,
{
    if n == 0 {
        e
    } else {
        with_file(
            with_files(e, blocks, files, score, intent, max, (n - 1) as nat),
            blocks,
            files[n - 1],
            score,
            intent,
            max,
        )
    }
}

/// The files of some results.
pub open spec fn result_files(v: Seq<RetrievedModel>) -> Set<PathKey> {
    Set::new(|k: PathKey| exists|i: int| 0 <= i < v.len() && path::key((#[trigger] v[i]).file_path) == k)
}

/// The expansion of the first `n` results, given the files that each depends on.
pub open spec fn expanded(
    results: Seq<RetrievedModel>,
    blocks: Seq<BlockModel>,
    dependencies: Seq<Seq<PathKey>>,
    halved: Seq<i64>,
    max: nat,
    n: nat,
) -> Expansion
    decreases n,
{
    if n == 0 {
        Expansion { seen: result_files(results), added: Seq::empty() }
    } else {
        with_files(
            expanded(results, blocks, dependencies, halved, max, (n - 1) as nat),
            blocks,
            dependencies[n - 1],
            halved[n - 1],
            "依赖链扩展: "@ + results[n - 1].name,
            max,
            dependencies[n - 1].len(),
        )
    }
}

impl IntentRetriever {
    /// The blocks are in order.
    pub open spec fn wf(&self) -> bool {
        self.code_blocks.wf()
    }

    /// The blocks in the order in which they were registered.
    pub open spec fn blocks(&self) -> Seq<BlockModel> {
        self.code_blocks.order().map_values(|k: Seq<char>| self.code_blocks@[k]@)
    }

    /// The numbers of a search are there for every vector and every intent.
    pub open spec fn searchable(
        &self,
        intents: Seq<RetrievalIntent>,
        scores: Seq<Option<i64>>,
        limits: Seq<usize>,
        relevance: Seq<Vec<i64>>,
    ) -> bool {
        let n = self.embedding_index@.vectors.len();
        &&& self.wf()
        &&& scores.len() == n
        &&& limits.len() == intents.len()
        &&& relevance.len() == intents.len()
        &&& forall|i: int| 0 <= i < relevance.len() ==> (#[trigger] relevance[i])@.len() == n
    }

    /// What the intents find together.
    pub open spec fn found(
        &self,
        intents: Seq<RetrievalIntent>,
        query_len: nat,
        scores: Seq<Option<i64>>,
        limits: Seq<usize>,
        relevance: Seq<Vec<i64>>,
    ) -> Seq<RetrievedModel> {
        merged(
            intent_results(
                self.embedding_index@,
                shown_blocks(self.code_blocks@),
                intent_models(intents),
                query_len,
                scores,
                limits,
                relevance,
                intents.len(),
            ),
        )
    }

    /// A retriever without blocks.
    pub fn new(embedding_index: EmbeddingIndex) -> (r: Self)
        ensures
            r.wf(),
            r.embedding_index@ == embedding_index@,
            shown_blocks(r.code_blocks@) == Blocks::empty(),
            r.repo_map is None,
    {
        let r = IntentRetriever { embedding_index, code_blocks: TextMap::new(), repo_map: None };
        assert(shown_blocks(r.code_blocks@) =~= Blocks::empty());
        r
    }

    /// Makes the dependencies between the files known.
    pub fn set_repo_map(&mut self, repo_map: RepoMap)
        ensures
            final(self).repo_map == Some(repo_map),
            final(self).embedding_index == old(self).embedding_index,
            final(self).code_blocks == old(self).code_blocks,
    {
        self.repo_map = Some(repo_map);
    }

    /// Registers a block; one of the same name is replaced.
    pub fn register_block(&mut self, block: CodeBlock)
        requires
            old(self).wf(),
        ensures
            final(self).wf(),
            final(self).embedding_index == old(self).embedding_index,
            final(self).repo_map == old(self).repo_map,
            shown_blocks(final(self).code_blocks@) == shown_blocks(old(self).code_blocks@).insert(
                block@.id,
                block@,
            ),
            final(self).code_blocks.order() == text_map::with(
                old(self).code_blocks.order(),
                block@.id,
            ),
    {
        let id = block.id.clone();
        self.code_blocks.insert(id, block);
        assert(shown_blocks(self.code_blocks@) =~= shown_blocks(old(self).code_blocks@).insert(
            block@.id,
            block@,
        ));
    }

    /// Registers blocks, one after the other.
    pub fn register_blocks(&mut self, blocks: Vec<CodeBlock>)
        requires
            old(self).wf(),
        ensures
            final(self).wf(),
            final(self).embedding_index == old(self).embedding_index,
            final(self).repo_map == old(self).repo_map,
            shown_blocks(final(self).code_blocks@) == registered(
                shown_blocks(old(self).code_blocks@),
                blocks@,
            ),
    {
        let ghost all = blocks@;
        let ghost start = shown_blocks(self.code_blocks@);
        assert(all.take(0) =~= Seq::empty());
        for block in it: blocks
            invariant
                self.wf(),
                all == it.seq(),
                self.embedding_index == old(self).embedding_index,
                self.repo_map == old(self).repo_map,
                shown_blocks(self.code_blocks@) == registered(
                    start,
                    all.take(it.index() as int),
                ),
        {
            let ghost i = it.index() as int;
            assert(all.take(i + 1).drop_last() =~= all.take(i));
            self.register_block(block);
        }
        assert(all.take(all.len() as int) =~= all);
    }

    /// How many blocks there are.
    pub fn block_count(&self) -> (r: usize)
        requires
            self.wf(),
        ensures
            r == self.code_blocks.order().len(),
    {
        self.code_blocks.len()
    }

    /// The beginning of a source text.
    fn preview(source: &str) -> (r: String)
        ensures
            r@ == preview_of(source@),
    {
        let chars = ops::chars_of(source);
        if chars.len() <= 200 {
            ops::string_of(chars.as_slice())
        } else {
            ops::string_of(ops::take(chars.as_slice(), 200))
        }
    }

    /// The result for a block.
    fn result(block: &CodeBlock, score: i64, intent: &str) -> (r: RetrievalResult)
        ensures
            r@ == result_for(block@, score, intent@),
    {
        RetrievalResult {
            block_id: block.id.clone(),
            file_path: FilePath::new(block.file_path.as_text()),
            name: block.name.clone(),
            relevance_score: score,
            source_intent: String::from_str(intent),
            preview: IntentRetriever::preview(block.source.as_str()),
        }
    }

    /// Appends the results for an intent.
    fn add_hits(
        &self,
        out: &mut Vec<RetrievalResult>,
        query_embedding: &[u32],
        scores: &Vec<Option<i64>>,
        limit: usize,
        relevance: &Vec<i64>,
        intent: &str,
    )
        requires
            self.wf(),
            scores@.len() == self.embedding_index@.vectors.len(),
            relevance@.len() == self.embedding_index@.vectors.len(),
        ensures
            retrieved_models(final(out)@) == retrieved_models(old(out)@) + ({
                let hits = embedding::search_result(
                    self.embedding_index@,
                    query_embedding@.len(),
                    scores@,
                    limit as nat,
                );
                hit_results(
                    self.embedding_index@,
                    shown_blocks(self.code_blocks@),
                    hits,
                    relevance@,
                    intent@,
                    hits.len(),
                )
            }),
    {
        let ghost start = retrieved_models(out@);
        let ghost index = self.embedding_index@;
        let ghost blocks = shown_blocks(self.code_blocks@);
        let raw = self.embedding_index.search(query_embedding, scores, limit);
        let ghost hits = embedding::hits(raw@);
        let mut i: usize = 0;
        assert(start + hit_results(index, blocks, hits, relevance@, intent@, 0) =~= start);
        while i < raw.len()
            invariant
                i <= raw@.len(),
                self.wf(),
                index == self.embedding_index@,
                blocks == shown_blocks(self.code_blocks@),
                hits == embedding::hits(raw@),
                relevance@.len() == index.vectors.len(),
                forall|j: int| 0 <= j < raw@.len() ==> (#[trigger] raw@[j]).0 < index.vectors.len(),
                retrieved_models(out@) == start + hit_results(
                    index,
                    blocks,
                    hits,
                    relevance@,
                    intent@,
                    i as nat,
                ),
            decreases raw@.len() - i,
        {
            let place: usize = raw[i].0;
            assert(hits[i as int].0 == place as int);
            let vector = &self.embedding_index.vectors[place];
            assert(index.vectors[place as int] == vector@);
            if let Some(block) = self.code_blocks.get(vector.entry_id.as_str()) {
                let ghost before = retrieved_models(out@);
                let item = IntentRetriever::result(block, relevance[place], intent);
                let ghost shown = item@;
                out.push(item);
                assert(retrieved_models(out@) =~= before.push(shown));
                assert((start + hit_results(index, blocks, hits, relevance@, intent@, i as nat)).push(
                    shown,
                ) =~= start + hit_results(
                    index,
                    blocks,
                    hits,
                    relevance@,
                    intent@,
                    i as nat,
                ).push(shown));
            }
            i = i + 1;
        }
    }

    /// Whether a block is among the results.
    fn has_block(v: &Vec<RetrievalResult>, id: &str) -> (r: bool)
        ensures
            r == has_block(retrieved_models(v@), id@),
    {
        let ghost all = retrieved_models(v@);
        let mut i: usize = 0;
        while i < v.len()
            invariant
                i <= v@.len(),
                all == retrieved_models(v@),
                forall|j: int| 0 <= j < i ==> (#[trigger] all[j]).block_id != id@,
            decreases v@.len() - i,
        {
            assert(all[i as int] == v@[i as int]@);
            if ops::same_text(v[i].block_id.as_str(), id) {
                return true;
            }
            i = i + 1;
        }
        false
    }

    /// The results with each block only where it comes first.
    fn keep_first(v: &Vec<RetrievalResult>) -> (r: Vec<RetrievalResult>)
        ensures
            retrieved_models(r@) == first_of_each(retrieved_models(v@)),
    {
        let ghost all = retrieved_models(v@);
        let mut out: Vec<RetrievalResult> = Vec::new();
        assert(retrieved_models(out@) =~= all.take(0));
        let mut i: usize = 0;
        while i < v.len()
            invariant
                i <= v@.len(),
                all == retrieved_models(v@),
                retrieved_models(out@) == first_of_each(all.take(i as int)),
            decreases v@.len() - i,
        {
            assert(all[i as int] == v@[i as int]@);
            assert(all.take(i + 1).drop_last() =~= all.take(i as int));
            if !IntentRetriever::has_block(&out, v[i].block_id.as_str()) {
                let ghost before = out@;
                let item = v[i].clone();
                let ghost shown = item@;
                out.push(item);
                assert(retrieved_models(out@) =~= retrieved_models(before).push(shown));
            }
            i = i + 1;
        }
        assert(all.take(all.len() as int) =~= all);
        out
    }

    /// The results at some places, in their order.
    fn at_places(v: &Vec<RetrievalResult>, places: &Vec<usize>) -> (r: Vec<RetrievalResult>)
        requires
            forall|i: int| 0 <= i < places@.len() ==> (#[trigger] places@[i]) < v@.len(),
        ensures
            retrieved_models(r@) == rank::positions(places@).map_values(
                |i: int| retrieved_models(v@)[i],
            ),
    {
        let ghost all = retrieved_models(v@);
        let ghost wanted = rank::positions(places@).map_values(|i: int| all[i]);
        let mut out: Vec<RetrievalResult> = Vec::new();
        assert(retrieved_models(out@) =~= wanted.take(0));
        let mut j: usize = 0;
        while j < places.len()
            invariant
                j <= places@.len(),
                all == retrieved_models(v@),
                wanted == rank::positions(places@).map_values(|i: int| all[i]),
                forall|k: int| 0 <= k < places@.len() ==> (#[trigger] places@[k]) < v@.len(),
                retrieved_models(out@) == wanted.take(j as int),
            decreases places@.len() - j,
        {
            assert(rank::positions(places@)[j as int] == places@[j as int] as int);
            let ghost before = out@;
            let item = v[places[j]].clone();
            let ghost shown = item@;
            out.push(item);
            assert(retrieved_models(out@) =~= retrieved_models(before).push(shown));
            assert(wanted.take(j + 1) =~= wanted.take(j as int).push(shown));
            j = j + 1;
        }
        assert(wanted.take(wanted.len() as int) =~= wanted);
        out
    }

    /// The results, the most relevant first.
    fn sort_by_relevance(v: &Vec<RetrievalResult>) -> (r: Vec<RetrievalResult>)
        ensures
            retrieved_models(r@) == by_relevance(retrieved_models(v@)),
    {
        let ghost all = retrieved_models(v@);
        let mut keys: Vec<i64> = Vec::new();
        let mut i: usize = 0;
        while i < v.len()
            invariant
                i <= v@.len(),
                all == retrieved_models(v@),
                keys@ == relevances(all).take(i as int),
            decreases v@.len() - i,
        {
            keys.push(v[i].relevance_score);
            assert(relevances(all).take(i + 1) =~= relevances(all).take(i as int).push(
                v@[i as int].relevance_score,
            ));
            i = i + 1;
        }
        assert(relevances(all).take(all.len() as int) =~= relevances(all));
        let order = rank::descending_order(&keys);
        let r = IntentRetriever::at_places(v, &order);
        assert(retrieved_models(r@) =~= by_relevance(all));
        r
    }

    /// Searches for each intent, keeps each block where it comes first, and gives
    /// all of them, the most relevant first. `scores` holds the similarity of each
    /// vector to the query, `limits` how many hits each intent may have, and
    /// `relevance`, for each intent, the weighted similarity of each vector.
    pub fn merge_intents(
        &self,
        intents: &Vec<RetrievalIntent>,
        query_embedding: &[u32],
        scores: &Vec<Option<i64>>,
        limits: &Vec<usize>,
        relevance: &Vec<Vec<i64>>,
    ) -> (r: Vec<RetrievalResult>)
        requires
            self.searchable(intents@, scores@, limits@, relevance@),
        ensures
            retrieved_models(r@) == self.found(
                intents@,
                query_embedding@.len(),
                scores@,
                limits@,
                relevance@,
            ),
    {
        let ghost all = intent_models(intents@);
        let mut hits: Vec<RetrievalResult> = Vec::new();
        assert(retrieved_models(hits@) =~= Seq::empty());
        let mut i: usize = 0;
        while i < intents.len()
            invariant
                i <= intents@.len(),
                all == intent_models(intents@),
                self.searchable(intents@, scores@, limits@, relevance@),
                retrieved_models(hits@) == intent_results(
                    self.embedding_index@,
                    shown_blocks(self.code_blocks@),
                    all,
                    query_embedding@.len(),
                    scores@,
                    limits@,
                    relevance@,
                    i as nat,
                ),
            decreases intents@.len() - i,
        {
            assert(all[i as int] == intents@[i as int]@);
            self.add_hits(
                &mut hits,
                query_embedding,
                scores,
                limits[i],
                &relevance[i],
                intents[i].description.as_str(),
            );
            i = i + 1;
        }
        let kept = IntentRetriever::keep_first(&hits);
        IntentRetriever::sort_by_relevance(&kept)
    }

    /// Searches for each intent, and selects `top_k` out of the merged results that
    /// are relevant and unlike each other. For each round of the selection `rounds`
    /// holds the balance of relevance and novelty of each merged result that then
    /// remains.
    pub fn search_by_intents(
        &self,
        intents: &Vec<RetrievalIntent>,
        query_embedding: &[u32],
        scores: &Vec<Option<i64>>,
        limits: &Vec<usize>,
        relevance: &Vec<Vec<i64>>,
        top_k: usize,
        rounds: &Vec<Vec<i64>>,
    ) -> (r: Vec<RetrievalResult>)
        requires
            self.searchable(intents@, scores@, limits@, relevance@),
            mmr::covers(
                rounds@,
                self.found(
                    intents@,
                    query_embedding@.len(),
                    scores@,
                    limits@,
                    relevance@,
                ).len(),
                top_k as nat,
            ),
        ensures
            retrieved_models(r@) == diversified(
                self.found(intents@, query_embedding@.len(), scores@, limits@, relevance@),
                top_k as nat,
                rounds@,
            ),
    {
        let all = self.merge_intents(intents, query_embedding, scores, limits, relevance);
        assert(retrieved_models(all@).len() == all@.len());
        let places = mmr::select_in_rounds(all.len(), top_k, rounds);
        let r = IntentRetriever::at_places(&all, &places);
        assert(retrieved_models(r@) =~= diversified(
            retrieved_models(all@),
            top_k as nat,
            rounds@,
        ));
        r
    }

    /// The components of the names in a query, in lower case.
    pub fn extract_name_components(query: &str) -> (r: Vec<String>)
        ensures
            model::texts(r@) == components(query@),
    {
        let chars = ops::chars_of(query);
        let words = ops::split_whitespace(chars.as_slice());
        let ghost all = model::slices(words@);
        let mut out: Vec<String> = Vec::new();
        assert(model::texts(out@) =~= Seq::empty());
        let mut i: usize = 0;
        while i < words.len()
            invariant
                i <= words@.len(),
                all == model::slices(words@),
                model::texts(out@) == components_upto(all, i as nat),
            decreases words@.len() - i,
        {
            let word = words[i];
            assert(all[i as int] == word@);
            let ghost before = model::texts(out@);
            let flags = flags_of(word);
            let raw = split_camel(word, &flags);
            let mut lower = lower_all(&raw);
            let ghost extra = model::texts(lower@);
            out.append(&mut lower);
            assert(model::texts(out@) =~= before + extra);
            if ops::contains(word, "_") {
                proof {
                    reveal_strlit("_");
                }
                let parts = ops::split(word, "_");
                let strings = ops::strings_of(parts.as_slice());
                let low = lower_all(&strings);
                add_new(&mut out, &low);
            }
            i = i + 1;
        }
        order::dedup(&out)
    }

    /// The kinds of code that a query in lower case speaks of.
    pub fn detect_type_intents(lowered: &str) -> (r: Vec<RetrievalIntent>)
        ensures
            intent_models(r@) == type_intents(lowered@),
    {
        let chars = ops::chars_of(lowered);
        let s = chars.as_slice();
        let mut out: Vec<RetrievalIntent> = Vec::new();
        assert(intent_models(out@) =~= Seq::empty());
        if holds_any(s, "函数", "function", "fn ") {
            let mut kinds = single("function");
            let ghost one = model::texts(kinds@);
            kinds.push(String::from_str("method"));
            assert(model::texts(kinds@) =~= one.push("method"@));
            assert(model::texts(kinds@) =~= seq!["function"@, "method"@]);
            add_kind_intent(&mut out, "函数搜索", kinds, 0x3FE0_0000_0000_0000);
        }
        if holds_any(s, "类", "class", "struct") {
            add_kind_intent(&mut out, "类/结构体搜索", single("class"), 0x3FE0_0000_0000_0000);
        }
        if ops::contains(s, "测试") || ops::contains(s, "test") {
            add_kind_intent(&mut out, "测试搜索", single("test"), 0x3FD9_9999_9999_999A);
        }
        if holds_any(s, "接口", "trait", "interface") {
            add_kind_intent(&mut out, "接口/Trait 搜索", single("trait"), 0x3FD9_9999_9999_999A);
        }
        out
    }

    /// The words with capitals in front, one after the other.
    fn camel(v: &Vec<String>) -> (r: String)
        ensures
            r@ == camel_upto(model::texts(v@), v@.len()),
    {
        let ghost all = model::texts(v@);
        let mut out = String::new();
        assert(out@ =~= Seq::empty());
        let mut i: usize = 0;
        while i < v.len()
            invariant
                i <= v@.len(),
                all == model::texts(v@),
                out@ == camel_upto(all, i as nat),
            decreases v@.len() - i,
        {
            assert(all[i as int] == v@[i as int]@);
            let chars = ops::chars_of(v[i].as_str());
            let ghost before = out@;
            if chars.len() > 0 {
                let first = outside::to_uppercase(chars[0]);
                let rest = ops::string_of(ops::skip(chars.as_slice(), 1));
                let low = outside::to_lowercase(rest.as_str());
                out.append(first.as_str());
                out.append(low.as_str());
                assert(out@ =~= before + (first@ + low@));
            } else {
                let low = outside::to_lowercase(v[i].as_str());
                out.append(low.as_str());
            }
            i = i + 1;
        }
        out
    }

    /// The intents of a query.
    pub fn expand_intents(query: &str) -> (r: Vec<RetrievalIntent>)
        ensures
            intent_models(r@) == intents_of(query@),
    {
        let mut out: Vec<RetrievalIntent> = Vec::new();
        let none: Vec<String> = Vec::new();
        assert(model::texts(none@) =~= Seq::<Seq<char>>::empty());
        let chars = ops::chars_of(query);
        let words = ops::split_whitespace(chars.as_slice());
        let strings = ops::strings_of(words.as_slice());
        let main = RetrievalIntent {
            description: ops::concat2("主查询: ", query),
            keywords: lower_all(&strings),
            expected_kinds: none,
            weight: 0x3FF0_0000_0000_0000,
        };
        let ghost first = main@;
        out.push(main);
        assert(intent_models(out@) =~= seq![first]);
        let parts = IntentRetriever::extract_name_components(query);
        assert(model::texts(parts@).len() == parts@.len());
        if parts.len() > 0 {
            let none: Vec<String> = Vec::new();
            assert(model::texts(none@) =~= Seq::<Seq<char>>::empty());
            let named = RetrievalIntent {
                description: String::from_str("名称组件匹配"),
                keywords: ops::clone_texts(parts.as_slice()),
                expected_kinds: none,
                weight: 0x3FE6_6666_6666_6666,
            };
            let ghost second = named@;
            out.push(named);
            assert(intent_models(out@) =~= seq![first].push(second));
            let camel = IntentRetriever::camel(&parts);
            let joined = ops::join_texts(parts.as_slice(), "_");
            let mut keywords: Vec<String> = Vec::new();
            keywords.push(camel);
            keywords.push(outside::to_lowercase(joined.as_str()));
            assert(model::texts(keywords@) =~= seq![
                camel_upto(model::texts(parts@), parts@.len()),
                outside::lower(model::join(model::texts(parts@), "_"@)),
            ]);
            let none: Vec<String> = Vec::new();
            assert(model::texts(none@) =~= Seq::<Seq<char>>::empty());
            let combined = RetrievalIntent {
                description: String::from_str("组合名称匹配"),
                keywords,
                expected_kinds: none,
                weight: 0x3FE3_3333_3333_3333,
            };
            let ghost third = combined@;
            out.push(combined);
            assert(intent_models(out@) =~= seq![first].push(second).push(third));
        }
        let low = outside::to_lowercase(query);
        let mut kinds = IntentRetriever::detect_type_intents(low.as_str());
        let ghost before = intent_models(out@);
        let ghost extra = intent_models(kinds@);
        out.append(&mut kinds);
        assert(intent_models(out@) =~= before + extra);
        out
    }

    /// Appends the blocks that stand in a file, as long as there is room.
    fn add_blocks(
        &self,
        out: &mut Vec<RetrievalResult>,
        file: &FilePath,
        score: i64,
        intent: &str,
        max_additional: usize,
    )
        requires
            self.wf(),
        ensures
            retrieved_models(final(out)@) == with_blocks(
                retrieved_models(old(out)@),
                self.blocks(),
                path::key(file@),
                score,
                intent@,
                max_additional as nat,
                self.blocks().len(),
            ),
    {
        let ghost start = retrieved_models(out@);
        let ghost blocks = self.blocks();
        let n: usize = self.code_blocks.len();
        let mut i: usize = 0;
        while i < n
            invariant
                i <= n,
                n == self.code_blocks.order().len(),
                self.wf(),
                blocks == self.blocks(),
                retrieved_models(out@) == with_blocks(
                    start,
                    blocks,
                    path::key(file@),
                    score,
                    intent@,
                    max_additional as nat,
                    i as nat,
                ),
            decreases n - i,
        {
            let block = self.code_blocks.value_at(i);
            assert(blocks[i as int] == block@);
            if block.file_path.same(file) && out.len() < max_additional {
                let ghost before = retrieved_models(out@);
                let item = IntentRetriever::result(block, score, intent);
                let ghost shown = item@;
                out.push(item);
                assert(retrieved_models(out@) =~= before.push(shown));
            }
            i = i + 1;
        }
    }

    /// The blocks in the files that the results depend on, given these files for
    /// each result. `halved` holds the relevance of what is added for each
    /// result.
    pub fn expand_along(
        &self,
        results: &Vec<RetrievalResult>,
        dependencies: &Vec<Vec<FilePath>>,
        halved: &Vec<i64>,
        max_additional: usize,
    ) -> (r: Vec<RetrievalResult>)
        requires
            self.wf(),
            dependencies@.len() == results@.len(),
            halved@.len() == results@.len(),
        ensures
            retrieved_models(r@) == expanded(
                retrieved_models(results@),
                self.blocks(),
                dependency_keys(dependencies@),
                halved@,
                max_additional as nat,
                results@.len(),
            ).added,
    {
        let ghost all = retrieved_models(results@);
        let ghost blocks = self.blocks();
        let ghost deps = dependency_keys(dependencies@);
        let ghost max = max_additional as nat;
        let mut added: Vec<RetrievalResult> = Vec::new();
        assert(retrieved_models(added@) =~= Seq::empty());
        let mut seen: Vec<FilePath> = Vec::new();
        let mut a: usize = 0;
        while a < results.len()
            invariant
                a <= results@.len(),
                all == retrieved_models(results@),
                seen@.len() == a,
                forall|j: int|
                    0 <= j < a ==> #[trigger] repo_map::path_keys(seen@)[j] == path::key(
                        all[j].file_path,
                    ),
            decreases results@.len() - a,
        {
            assert(all[a as int] == results@[a as int]@);
            let ghost before = seen@;
            seen.push(FilePath::new(results[a].file_path.as_text()));
            assert(repo_map::path_keys(seen@) =~= repo_map::path_keys(before).push(
                path::key(all[a as int].file_path),
            ));
            a = a + 1;
        }
        proof {
            let keys = repo_map::path_keys(seen@);
            assert forall|k: PathKey| keys.to_set().contains(k) <==> result_files(all).contains(k) by {
                if keys.contains(k) {
                    let j = keys.index_of(k);
                    assert(path::key(all[j].file_path) == k);
                }
                if result_files(all).contains(k) {
                    let j = choose|j: int|
                        0 <= j < all.len() && path::key((#[trigger] all[j]).file_path) == k;
                    assert(keys[j] == k);
                }
            }
            assert(keys.to_set() =~= result_files(all));
        }
        let mut i: usize = 0;
        while i < results.len()
            invariant
                i <= results@.len(),
                self.wf(),
                dependencies@.len() == results@.len(),
                halved@.len() == results@.len(),
                all == retrieved_models(results@),
                blocks == self.blocks(),
                deps == dependency_keys(dependencies@),
                max == max_additional,
                expanded(all, blocks, deps, halved@, max, i as nat) == (Expansion {
                    seen: repo_map::path_keys(seen@).to_set(),
                    added: retrieved_models(added@),
                }),
            decreases results@.len() - i,
        {
            assert(all[i as int] == results@[i as int]@);
            let files = &dependencies[i];
            let ghost keys = repo_map::path_keys(files@);
            assert(deps[i as int] == keys);
            let intent = ops::concat2("依赖链扩展: ", results[i].name.as_str());
            let ghost begun = expanded(all, blocks, deps, halved@, max, i as nat);
            let mut j: usize = 0;
            while j < files.len()
                invariant
                    j <= files@.len(),
                    self.wf(),
                    i < results@.len(),
                    halved@.len() == results@.len(),
                    blocks == self.blocks(),
                    max == max_additional,
                    keys == repo_map::path_keys(files@),
                    with_files(
                        begun,
                        blocks,
                        keys,
                        halved@[i as int],
                        intent@,
                        max,
                        j as nat,
                    ) == (Expansion {
                        seen: repo_map::path_keys(seen@).to_set(),
                        added: retrieved_models(added@),
                    }),
                decreases files@.len() - j,
            {
                let file = &files[j];
                assert(keys[j as int] == path::key(file@));
                if !repo_map::has_path(&seen, file) {
                    let ghost before = repo_map::path_keys(seen@);
                    seen.push(FilePath::new(file.as_text()));
                    self.add_blocks(&mut added, file, halved[i], intent.as_str(), max_additional);
                    proof {
                        let after = repo_map::path_keys(seen@);
                        let k = path::key(file@);
                        assert(after =~= before.push(k));
                        assert forall|x: PathKey| after.to_set().contains(x)
                            <==> before.to_set().insert(k).contains(x) by {
                            if before.contains(x) {
                                let p = before.index_of(x);
                                assert(after[p] == x);
                            }
                            assert(after[before.len() as int] == k);
                        }
                        assert(after.to_set() =~= before.to_set().insert(k));
                    }
                }
                j = j + 1;
            }
            i = i + 1;
        }
        added
    }

    /// The blocks in the files that the results depend on; none where the
    /// dependencies are not known. `halved` holds the relevance of what is added
    /// for each result. The files that a result depends on are taken in no
    /// particular order.
    pub fn expand_with_dependencies(
        &self,
        results: &Vec<RetrievalResult>,
        halved: &Vec<i64>,
        max_additional: usize,
    ) -> (r: Vec<RetrievalResult>)
        requires
            self.wf(),
            halved@.len() == results@.len(),
        ensures
            self.repo_map is None ==> r@.len() == 0,
            self.repo_map matches Some(m) ==> exists|deps: Seq<Seq<PathKey>>|
                {
                    &&& #[trigger] are_dependencies(deps, m, retrieved_models(results@))
                    &&& retrieved_models(r@) == expanded(
                        retrieved_models(results@),
                        self.blocks(),
                        deps,
                        halved@,
                        max_additional as nat,
                        results@.len(),
                    ).added
                },
    {
        let map = match &self.repo_map {
            Some(m) => m,
            None => {
                return Vec::new();
            },
        };
        let ghost all = retrieved_models(results@);
        let mut dependencies: Vec<Vec<FilePath>> = Vec::new();
        let mut i: usize = 0;
        while i < results.len()
            invariant
                i <= results@.len(),
                all == retrieved_models(results@),
                dependencies@.len() == i,
                forall|j: int|
                    0 <= j < i ==> {
                        let d = #[trigger] dependency_keys(dependencies@)[j];
                        &&& d.no_duplicates()
                        &&& d.to_set() == repo_map::reached(
                            repo_map::arrows(map@.edges, true),
                            path::key(all[j].file_path),
                        )
                    },
            decreases results@.len() - i,
        {
            assert(all[i as int] == results@[i as int]@);
            let set = map.all_dependencies(&results[i].file_path);
            let items = repo_map::clone_paths(set.items());
            let ghost before = dependency_keys(dependencies@);
            let ghost shown = repo_map::path_keys(items@);
            dependencies.push(items);
            assert(dependency_keys(dependencies@) =~= before.push(shown));
            i = i + 1;
        }
        assert(are_dependencies(dependency_keys(dependencies@), *map, all));
        self.expand_along(results, &dependencies, halved, max_additional)
    }
}

/// The blocks after more were registered.
pub open spec fn registered(m: Blocks, v: Seq<CodeBlock>) -> Blocks
    decreases v.len(),
{
    if v.len() == 0 {
        m
    } else {
        registered(m, v.drop_last()).insert(v.last()@.id, v.last()@)
    }
}

/// The paths in lists of files.
pub open spec fn dependency_keys(v: Seq<Vec<FilePath>>) -> Seq<Seq<PathKey>> {
    v.map_values(|f: Vec<FilePath>| repo_map::path_keys(f@))
}

/// The lists hold, each once, the files that each result's file depends on.
pub open spec fn are_dependencies(
    deps: Seq<Seq<PathKey>>,
    m: RepoMap,
    results: Seq<RetrievedModel>,
) -> bool {
    &&& deps.len() == results.len()
    &&& forall|j: int|
        0 <= j < deps.len() ==> {
            let d = #[trigger] deps[j];
            &&& d.no_duplicates()
            &&& d.to_set() == repo_map::reached(
                repo_map::arrows(m@.edges, true),
                path::key(results[j].file_path),
            )
        }
}

/// No block comes twice where each is kept where it comes first, and none is lost.
pub proof fn law_each_block_once(v: Seq<RetrievedModel>)
    ensures
        forall|i: int, j: int|
            0 <= i < j < first_of_each(v).len() ==> (#[trigger] first_of_each(v)[i]).block_id != (
            #[trigger] first_of_each(v)[j]).block_id,
        forall|i: int|
            0 <= i < v.len() ==> has_block(first_of_each(v), (#[trigger] v[i]).block_id),
    decreases v.len(),
{
    if v.len() > 0 {
        let before = first_of_each(v.drop_last());
        let after = first_of_each(v);
        law_each_block_once(v.drop_last());
        assert forall|i: int| 0 <= i < v.len() implies has_block(after, (#[trigger] v[i]).block_id) by {
            if i < v.len() - 1 {
                assert(v.drop_last()[i] == v[i]);
                let k = choose|k: int| 0 <= k < before.len() && (#[trigger] before[k]).block_id == v[i].block_id;
                assert(after[k] == before[k]);
            } else if !has_block(before, v.last().block_id) {
                assert(after[before.len() as int].block_id == v[i].block_id);
            }
        }
    }
}

proof fn lemma_first_of_each_within(v: Seq<RetrievedModel>)
    ensures
        forall|i: int|
            0 <= i < first_of_each(v).len() ==> v.contains(#[trigger] first_of_each(v)[i]),
    decreases v.len(),
{
    if v.len() > 0 {
        lemma_first_of_each_within(v.drop_last());
        assert forall|i: int| 0 <= i < first_of_each(v).len() implies v.contains(
            #[trigger] first_of_each(v)[i],
        ) by {
            let before = first_of_each(v.drop_last());
            if i < before.len() {
                assert(v.drop_last().contains(before[i]));
                let k = choose|k: int|
                    0 <= k < v.drop_last().len() && v.drop_last()[k] == before[i];
                assert(v[k] == before[i]);
            } else {
                assert(v[v.len() - 1] == first_of_each(v)[i]);
            }
        }
    }
}

/// The merged results are sorted by relevance, no block comes twice among them, and
/// all of them were found.
pub proof fn law_merged_results(v: Seq<RetrievedModel>)
    ensures
        merged(v).len() == first_of_each(v).len(),
        forall|i: int| 0 <= i < merged(v).len() ==> v.contains(#[trigger] merged(v)[i]),
        forall|i: int, j: int|
            0 <= i < j < merged(v).len() ==> (#[trigger] merged(v)[i]).relevance_score >= (
            #[trigger] merged(v)[j]).relevance_score && merged(v)[i].block_id
                != merged(v)[j].block_id,
{
    let kept = first_of_each(v);
    let keys = relevances(kept);
    let turned = rank::reversed(keys);
    let order = rank::descending(keys);
    law_each_block_once(v);
    lemma_first_of_each_within(v);
    rank::law_ascending(turned, keys.len());
    assert forall|i: int| 0 <= i < merged(v).len() implies v.contains(#[trigger] merged(v)[i]) by {
        assert(0 <= order[i] < kept.len());
        assert(merged(v)[i] == kept[order[i]]);
    }
    assert forall|i: int, j: int| 0 <= i < j < merged(v).len() implies (
    #[trigger] merged(v)[i]).relevance_score >= (#[trigger] merged(v)[j]).relevance_score
        && merged(v)[i].block_id != merged(v)[j].block_id by {
        assert(rank::comes_first(turned, order[i], order[j]));
        let a = order[i];
        let b = order[j];
        assert(0 <= a < kept.len() && 0 <= b < kept.len());
        assert(keys[a] == kept[a].relevance_score && keys[b] == kept[b].relevance_score);
        if a < b {
            assert(kept[a].block_id != kept[b].block_id);
        } else {
            assert(kept[b].block_id != kept[a].block_id);
        }
    }
}

/// A search gives as many results as were asked for, or all where there are fewer;
/// no block comes twice among them, and all of them were found.
pub proof fn law_search_gives_each_block_once(
    v: Seq<RetrievedModel>,
    k: nat,
    rounds: Seq<Vec<i64>>,
)
    requires
        mmr::covers(rounds, merged(v).len(), k),
    ensures
        diversified(merged(v), k, rounds).len() == if k <= merged(v).len() {
            k
        } else {
            merged(v).len()
        },
        forall|i: int|
            0 <= i < diversified(merged(v), k, rounds).len() ==> v.contains(
                #[trigger] diversified(merged(v), k, rounds)[i],
            ),
        forall|i: int, j: int|
            0 <= i < j < diversified(merged(v), k, rounds).len() ==> (#[trigger] diversified(
                merged(v),
                k,
                rounds,
            )[i]).block_id != (#[trigger] diversified(merged(v), k, rounds)[j]).block_id,
{
    let all = merged(v);
    let m = mmr::selection(all.len(), k, rounds, rounds.len());
    let out = diversified(all, k, rounds);
    let both = m.selected + m.remaining;
    law_merged_results(v);
    mmr::law_rounds_take_different_items(all.len(), k, rounds, rounds.len());
    assert forall|i: int| 0 <= i < out.len() implies v.contains(#[trigger] out[i]) by {
        assert(both[i] == m.selected[i]);
        assert(out[i] == all[both[i]]);
    }
    assert forall|i: int, j: int| 0 <= i < j < out.len() implies (#[trigger] out[i]).block_id != (
    #[trigger] out[j]).block_id by {
        assert(both[i] == m.selected[i] && both[j] == m.selected[j]);
        let a = both[i];
        let b = both[j];
        assert(a != b);
        if a < b {
            assert(all[a].block_id != all[b].block_id);
        } else {
            assert(all[b].block_id != all[a].block_id);
        }
    }
}

proof fn lemma_with_blocks_bound(
    v: Seq<RetrievedModel>,
    blocks: Seq<BlockModel>,
    file: PathKey,
    score: i64,
    intent: Seq<char>,
    max: nat,
    n: nat,
)
    requires
        v.len() <= max,
    ensures
        with_blocks(v, blocks, file, score, intent, max, n).len() <= max,
    decreases n,
{
    if n > 0 {
        lemma_with_blocks_bound(v, blocks, file, score, intent, max, (n - 1) as nat);
    }
}

proof fn lemma_with_files_bound(
    e: Expansion,
    blocks: Seq<BlockModel>,
    files: Seq<PathKey>,
    score: i64,
    intent: Seq<char>,
    max: nat,
    n: nat,
)
    requires
        e.added.len() <= max,
    ensures
        with_files(e, blocks, files, score, intent, max, n).added.len() <= max,
    decreases n,
{
    if n > 0 {
        lemma_with_files_bound(e, blocks, files, score, intent, max, (n - 1) as nat);
        let f = with_files(e, blocks, files, score, intent, max, (n - 1) as nat);
        lemma_with_blocks_bound(
            f.added,
            blocks,
            files[n - 1],
            score,
            intent,
            max,
            blocks.len(),
        );
    }
}

/// No more blocks are added along dependencies than allowed.
pub proof fn law_expansion_is_bounded(
    results: Seq<RetrievedModel>,
    blocks: Seq<BlockModel>,
    dependencies: Seq<Seq<PathKey>>,
    halved: Seq<i64>,
    max: nat,
    n: nat,
)
    ensures
        expanded(results, blocks, dependencies, halved, max, n).added.len() <= max,
    decreases n,
{
    if n > 0 {
        law_expansion_is_bounded(results, blocks, dependencies, halved, max, (n - 1) as nat);
        lemma_with_files_bound(
            expanded(results, blocks, dependencies, halved, max, (n - 1) as nat),
            blocks,
            dependencies[n - 1],
            halved[n - 1],
            "依赖链扩展: "@ + results[n - 1].name,
            max,
            dependencies[n - 1].len(),
        );
    }
}

/// Of the results for one block the first is kept.
pub proof fn law_first_result_of_a_block_is_kept(v: Seq<RetrievedModel>, i: int)
    requires
        0 <= i < v.len(),
        forall|j: int| 0 <= j < i ==> (#[trigger] v[j]).block_id != v[i].block_id,
    ensures
        merged(v).contains(v[i]),
{
    let kept = first_of_each(v);
    let keys = relevances(kept);
    lemma_first_is_kept(v, i);
    rank::law_descending(keys);
    let p = choose|p: int| 0 <= p < kept.len() && kept[p] == v[i];
    assert(rank::descending(keys).contains(p));
    let q = choose|q: int|
        0 <= q < rank::descending(keys).len() && rank::descending(keys)[q] == p;
    assert(merged(v)[q] == v[i]);
}

proof fn lemma_first_is_kept(v: Seq<RetrievedModel>, i: int)
    requires
        0 <= i < v.len(),
        forall|j: int| 0 <= j < i ==> (#[trigger] v[j]).block_id != v[i].block_id,
    ensures
        first_of_each(v).contains(v[i]),
    decreases v.len(),
{
    let w = v.drop_last();
    let before = first_of_each(w);
    let after = first_of_each(v);
    if i < v.len() - 1 {
        assert forall|j: int| 0 <= j < i implies (#[trigger] w[j]).block_id != w[i].block_id by {
            assert(v[j].block_id != v[i].block_id);
        }
        lemma_first_is_kept(w, i);
        let p = choose|p: int| 0 <= p < before.len() && before[p] == w[i];
        assert(after[p] == v[i]);
    } else {
        lemma_first_of_each_within(w);
        if has_block(before, v[i].block_id) {
            let p = choose|p: int|
                0 <= p < before.len() && (#[trigger] before[p]).block_id == v[i].block_id;
            assert(w.contains(before[p]));
            let j = choose|j: int| 0 <= j < w.len() && w[j] == before[p];
            assert(v[j].block_id != v[i].block_id);
        }
        assert(after[before.len() as int] == v[i]);
    }
}

/// A result tells of a block its name, its file, the score, what it was found for, and
/// the first two hundred characters of its source.
pub proof fn law_result_tells_the_block(b: BlockModel, score: i64, intent: Seq<char>)
    ensures
        ({
            let r = result_for(b, score, intent);
            &&& r.block_id == b.id && r.file_path == b.file_path && r.name == b.name
            &&& r.relevance_score == score
            &&& r.source_intent == intent
            &&& b.source.len() <= 200 ==> r.preview == b.source
            &&& b.source.len() > 200 ==> r.preview == b.source.take(200)
        }),
{
}

/// Every hit on a known block becomes a result of its intent, with the relevance that the
/// intent gives it.
pub proof fn law_hits_become_results(
    index: IndexModel,
    blocks: Blocks,
    intents: Seq<IntentModel>,
    query_len: nat,
    scores: Seq<Option<i64>>,
    limits: Seq<usize>,
    relevance: Seq<Vec<i64>>,
    n: nat,
    i: int,
    h: int,
)
    requires
        0 <= i < n <= intents.len(),
        0 <= h < embedding::search_result(index, query_len, scores, limits[i] as nat).len(),
        blocks.contains_key(
            index.vectors[embedding::search_result(
                index,
                query_len,
                scores,
                limits[i] as nat,
            )[h].0].entry_id,
        ),
    ensures
        ({
            let place = embedding::search_result(
                index,
                query_len,
                scores,
                limits[i] as nat,
            )[h].0;
            intent_results(index, blocks, intents, query_len, scores, limits, relevance, n).contains(
                result_for(
                    blocks[index.vectors[place].entry_id],
                    relevance[i]@[place],
                    intents[i].description,
                ),
            )
        }),
    decreases n,
{
    let hits = embedding::search_result(index, query_len, scores, limits[i] as nat);
    let place = hits[h].0;
    let x = result_for(
        blocks[index.vectors[place].entry_id],
        relevance[i]@[place],
        intents[i].description,
    );
    let before = intent_results(
        index,
        blocks,
        intents,
        query_len,
        scores,
        limits,
        relevance,
        (n - 1) as nat,
    );
    let all = intent_results(index, blocks, intents, query_len, scores, limits, relevance, n);
    if i < n - 1 {
        law_hits_become_results(
            index,
            blocks,
            intents,
            query_len,
            scores,
            limits,
            relevance,
            (n - 1) as nat,
            i,
            h,
        );
        let k = choose|k: int| 0 <= k < before.len() && before[k] == x;
        assert(all[k] == x);
    } else {
        let k = lemma_hit_is_told(
            index,
            blocks,
            hits,
            relevance[i]@,
            intents[i].description,
            hits.len(),
            h,
        );
        assert(all[before.len() + k] == x);
    }
}

proof fn lemma_hit_is_told(
    index: IndexModel,
    blocks: Blocks,
    hits: Seq<(int, i64)>,
    relevance: Seq<i64>,
    intent: Seq<char>,
    n: nat,
    h: int,
) -> (k: int)
    requires
        0 <= h < n <= hits.len(),
        blocks.contains_key(index.vectors[hits[h].0].entry_id),
    ensures
        ({
            let r = hit_results(index, blocks, hits, relevance, intent, n);
            0 <= k < r.len() && r[k] == result_for(
                blocks[index.vectors[hits[h].0].entry_id],
                relevance[hits[h].0],
                intent,
            )
        }),
    decreases n,
{
    if h < n - 1 {
        lemma_hit_is_told(index, blocks, hits, relevance, intent, (n - 1) as nat, h)
    } else {
        hit_results(index, blocks, hits, relevance, intent, (n - 1) as nat).len() as int
    }
}

/// A name is cut before every capital letter but the first: a further letter begins a
/// piece of its own where it is a capital, and else belongs to the last piece.
pub proof fn law_capitals_begin_pieces(word: Seq<char>, upper: Seq<bool>, c: char, u: bool)
    requires
        word.len() == upper.len(),
    ensures
        pieces(Seq::empty(), Seq::empty()).len() == 0,
        word.len() == 0 ==> pieces(word.push(c), upper.push(u)) == seq![seq![c]],
        word.len() > 0 && u ==> pieces(word.push(c), upper.push(u)) == pieces(word, upper).push(
            seq![c],
        ),
        word.len() > 0 && !u ==> pieces(word, upper).len() > 0 && pieces(word.push(c), upper.push(u))
            == pieces(word, upper).drop_last().push(pieces(word, upper).last().push(c)),
{
    let w = word.push(c);
    let f = upper.push(u);
    lemma_pieces_prefix(word, upper, w, f, word.len());
    lemma_current(word, upper, word.len());
    let (done, current) = pieces_upto(word, upper, word.len());
    assert(pieces_upto(w, f, word.len()) == (done, current));
    assert(w[word.len() as int] == c && f[word.len() as int] == u);
    if word.len() == 0 {
        assert(current.push(c) =~= seq![c]);
        assert(pieces(w, f) =~= seq![seq![c]]);
    } else if !u {
        assert(pieces(word, upper).drop_last() =~= done);
        assert(pieces(w, f) =~= done.push(current.push(c)));
    }
}

proof fn lemma_pieces_prefix(
    word: Seq<char>,
    upper: Seq<bool>,
    w: Seq<char>,
    f: Seq<bool>,
    n: nat,
)
    requires
        n <= word.len() < w.len(),
        word.len() == upper.len(),
        w.len() == f.len(),
        forall|i: int| 0 <= i < word.len() ==> #[trigger] w[i] == word[i],
        forall|i: int| 0 <= i < word.len() ==> #[trigger] f[i] == upper[i],
    ensures
        pieces_upto(w, f, n) == pieces_upto(word, upper, n),
    decreases n,
{
    if n > 0 {
        lemma_pieces_prefix(word, upper, w, f, (n - 1) as nat);
        assert(w[n - 1] == word[n - 1] && f[n - 1] == upper[n - 1]);
    }
}

proof fn lemma_current(word: Seq<char>, upper: Seq<bool>, n: nat)
    ensures
        n > 0 ==> pieces_upto(word, upper, n).1.len() > 0,
{
}

/// The pieces of each word of a query are among the name components, in small letters.
pub proof fn law_pieces_are_components(query: Seq<char>, i: int, p: int)
    requires
        0 <= i < model::split_whitespace(query).len(),
        0 <= p < pieces(
            model::split_whitespace(query)[i],
            upper_flags(model::split_whitespace(query)[i]),
        ).len(),
    ensures
        components(query).contains(
            outside::lower(
                pieces(
                    model::split_whitespace(query)[i],
                    upper_flags(model::split_whitespace(query)[i]),
                )[p],
            ),
        ),
{
    let words = model::split_whitespace(query);
    let x = outside::lower(pieces(words[i], upper_flags(words[i]))[p]);
    let all = lowered(pieces(words[i], upper_flags(words[i])));
    assert(all[p] == x);
    lemma_components_hold(words, words.len(), i, x);
    order::law_dedup_loses_nothing(components_upto(words, words.len()), x);
}

/// The parts between the underscores of each word of a query are among the name
/// components, in small letters.
pub proof fn law_parts_are_components(query: Seq<char>, i: int, p: int)
    requires
        0 <= i < model::split_whitespace(query).len(),
        model::contains(model::split_whitespace(query)[i], "_"@),
        0 <= p < model::split(model::split_whitespace(query)[i], "_"@).len(),
        outside::lower(model::split(model::split_whitespace(query)[i], "_"@)[p]).len() > 0,
    ensures
        components(query).contains(
            outside::lower(model::split(model::split_whitespace(query)[i], "_"@)[p]),
        ),
{
    let words = model::split_whitespace(query);
    let x = outside::lower(model::split(words[i], "_"@)[p]);
    let parts = lowered(model::split(words[i], "_"@));
    assert(parts[p] == x);
    lemma_components_hold(words, words.len(), i, x);
    order::law_dedup_loses_nothing(components_upto(words, words.len()), x);
}

proof fn lemma_components_hold(words: Seq<Seq<char>>, n: nat, i: int, x: Seq<char>)
    requires
        0 <= i < n <= words.len(),
        lowered(pieces(words[i], upper_flags(words[i]))).contains(x) || (model::contains(
            words[i],
            "_"@,
        ) && x.len() > 0 && lowered(model::split(words[i], "_"@)).contains(x)),
    ensures
        components_upto(words, n).contains(x),
    decreases n,
{
    let v = components_upto(words, (n - 1) as nat);
    let word = words[n - 1];
    let new = lowered(pieces(word, upper_flags(word)));
    let all = v + new;
    let parts = lowered(model::split(word, "_"@));
    if i < n - 1 {
        lemma_components_hold(words, (n - 1) as nat, i, x);
        let k = choose|k: int| 0 <= k < v.len() && v[k] == x;
        assert(all[k] == x);
        lemma_with_new(all, parts, parts.len(), x);
    } else if new.contains(x) {
        let k = choose|k: int| 0 <= k < new.len() && new[k] == x;
        assert(all[v.len() + k] == x);
        lemma_with_new(all, parts, parts.len(), x);
    } else {
        assert(parts.take(parts.len() as int) =~= parts);
        lemma_with_new(all, parts, parts.len(), x);
    }
}

proof fn lemma_with_new(v: Seq<Seq<char>>, more: Seq<Seq<char>>, n: nat, x: Seq<char>)
    requires
        n <= more.len(),
        v.contains(x) || (x.len() > 0 && more.take(n as int).contains(x)),
    ensures
        with_new(v, more, n).contains(x),
    decreases n,
{
    if n > 0 {
        let before = with_new(v, more, (n - 1) as nat);
        let after = with_new(v, more, n);
        if v.contains(x) || more.take(n - 1).contains(x) {
            lemma_with_new(v, more, (n - 1) as nat, x);
            let k = choose|k: int| 0 <= k < before.len() && before[k] == x;
            assert(after[k] == x);
        } else {
            let t = more.take(n as int);
            let k = choose|k: int| 0 <= k < t.len() && t[k] == x;
            if k < n - 1 {
                assert(more.take(n - 1)[k] == x);
            }
            assert(more[n - 1] == x);
            if !before.contains(x) {
                assert(after[before.len() as int] == x);
            }
        }
    }
}

/// A name in capitals and small letters is made of its components, each with a capital
/// in front.
pub proof fn law_components_are_joined(v: Seq<Seq<char>>, s: Seq<char>)
    ensures
        camel_upto(v, 0).len() == 0,
        s.len() > 0 ==> camel_upto(v.push(s), v.len() + 1) == camel_upto(v, v.len())
            + outside::upper(s[0]) + outside::lower(s.skip(1)),
{
    lemma_camel_prefix(v, v.push(s), v.len());
    assert(v.push(s)[v.len() as int] == s);
    if s.len() > 0 {
        assert(camel_upto(v.push(s), v.len() + 1) =~= camel_upto(v, v.len()) + outside::upper(s[0])
            + outside::lower(s.skip(1)));
    }
}

proof fn lemma_camel_prefix(v: Seq<Seq<char>>, w: Seq<Seq<char>>, n: nat)
    requires
        n <= v.len() <= w.len(),
        forall|i: int| 0 <= i < v.len() ==> #[trigger] w[i] == v[i],
    ensures
        camel_upto(w, n) == camel_upto(v, n),
    decreases n,
{
    if n > 0 {
        lemma_camel_prefix(v, w, (n - 1) as nat);
        assert(w[n - 1] == v[n - 1]);
    }
}

/// A query is searched for as it is, first and with the full weight, by its words in
/// small letters; then, where it holds names, by their components and by the names that
/// these make together.
pub proof fn law_query_is_expanded(query: Seq<char>)
    ensures
        ({
            let v = intents_of(query);
            let parts = components(query);
            &&& v.len() >= 1
            &&& v[0].description == "主查询: "@ + query
            &&& v[0].keywords.len() == model::split_whitespace(query).len()
            &&& forall|i: int|
                0 <= i < v[0].keywords.len() ==> #[trigger] v[0].keywords[i] == outside::lower(
                    model::split_whitespace(query)[i],
                )
            &&& v[0].expected_kinds.len() == 0
            &&& v[0].weight == 0x3FF0_0000_0000_0000
            &&& parts.len() > 0 ==> {
                &&& v.len() >= 3
                &&& v[1].keywords == parts
                &&& v[1].weight == 0x3FE6_6666_6666_6666
                &&& v[2].keywords == seq![
                    camel_upto(parts, parts.len()),
                    outside::lower(model::join(parts, "_"@)),
                ]
                &&& v[2].weight == 0x3FE3_3333_3333_3333
                &&& v.skip(3) == type_intents(outside::lower(query))
            }
            &&& parts.len() == 0 ==> v.skip(1) == type_intents(outside::lower(query))
        }),
{
    let v = intents_of(query);
    let parts = components(query);
    let t = type_intents(outside::lower(query));
    if parts.len() > 0 {
        assert(v.skip(3) =~= t);
    } else {
        assert(v.skip(1) =~= t);
    }
}

/// The words of a query tell which kinds of blocks it is after.
pub proof fn law_words_tell_the_kinds(q: Seq<char>)
    ensures
        ({
            let functions = model::contains(q, "函数"@) || model::contains(q, "function"@)
                || model::contains(q, "fn "@);
            let classes = model::contains(q, "类"@) || model::contains(q, "class"@)
                || model::contains(q, "struct"@);
            let tests = model::contains(q, "测试"@) || model::contains(q, "test"@);
            let traits = model::contains(q, "接口"@) || model::contains(q, "trait"@)
                || model::contains(q, "interface"@);
            let v = type_intents(q);
            &&& v.len() == (if functions {
                1int
            } else {
                0
            }) + (if classes {
                1int
            } else {
                0
            }) + (if tests {
                1int
            } else {
                0
            }) + (if traits {
                1int
            } else {
                0
            })
            &&& functions ==> v[0].expected_kinds == seq!["function"@, "method"@] && v[0].weight
                == 0x3FE0_0000_0000_0000
            &&& classes ==> {
                let e = v[if functions {
                    1
                } else {
                    0
                }];
                e.expected_kinds == seq!["class"@] && e.weight == 0x3FE0_0000_0000_0000
            }
            &&& traits ==> v.last().expected_kinds == seq!["trait"@] && v.last().weight
                == 0x3FD9_9999_9999_999A
            &&& tests ==> {
                let e = v[v.len() - if traits {
                    2int
                } else {
                    1
                }];
                e.expected_kinds == seq!["test"@] && e.weight == 0x3FD9_9999_9999_999A
            }
        }),
{
}

/// A registered block is found under its name, the last where there are several.
pub proof fn law_block_is_registered(m: Blocks, v: Seq<CodeBlock>, b: CodeBlock)
    ensures
        registered(m, v.push(b)) == registered(m, v).insert(b@.id, b@),
        registered(m, Seq::empty()) == m,
{
    assert(v.push(b).drop_last() =~= v);
}

/// What an expansion adds is a block of a file on which a result depends and which no
/// result stands in, with half of the score of the result.
pub proof fn law_expansion_adds_dependencies(
    results: Seq<RetrievedModel>,
    blocks: Seq<BlockModel>,
    dependencies: Seq<Seq<PathKey>>,
    halved: Seq<i64>,
    max: nat,
    n: nat,
    a: int,
) -> (r: (int, int))
    requires
        n <= results.len(),
        n <= dependencies.len(),
        0 <= a < expanded(results, blocks, dependencies, halved, max, n).added.len(),
    ensures
        ({
            let e = expanded(results, blocks, dependencies, halved, max, n).added[a];
            &&& 0 <= r.0 < n
            &&& 0 <= r.1 < blocks.len()
            &&& e == result_for(blocks[r.1], halved[r.0], "依赖链扩展: "@ + results[r.0].name)
            &&& dependencies[r.0].contains(path::key(e.file_path))
            &&& forall|i: int|
                0 <= i < results.len() ==> path::key((#[trigger] results[i]).file_path)
                    != path::key(e.file_path)
        }),
    decreases n,
{
    let before = expanded(results, blocks, dependencies, halved, max, (n - 1) as nat);
    if a < before.added.len() {
        lemma_files_keep(
            before,
            blocks,
            dependencies[n - 1],
            halved[n - 1],
            "依赖链扩展: "@ + results[n - 1].name,
            max,
            dependencies[n - 1].len(),
            a,
        );
        law_expansion_adds_dependencies(
            results,
            blocks,
            dependencies,
            halved,
            max,
            (n - 1) as nat,
            a,
        )
    } else {
        let b = lemma_files_add(
            before,
            blocks,
            dependencies[n - 1],
            halved[n - 1],
            "依赖链扩展: "@ + results[n - 1].name,
            max,
            dependencies[n - 1].len(),
            a,
        );
        let e = expanded(results, blocks, dependencies, halved, max, n).added[a];
        assert forall|i: int| 0 <= i < results.len() implies path::key(
            (#[trigger] results[i]).file_path,
        ) != path::key(e.file_path) by {
            assert(result_files(results).contains(path::key(results[i].file_path)));
            lemma_seen_grows(
                results,
                blocks,
                dependencies,
                halved,
                max,
                (n - 1) as nat,
                path::key(results[i].file_path),
            );
        }
        (n - 1, b)
    }
}

proof fn lemma_seen_grows(
    results: Seq<RetrievedModel>,
    blocks: Seq<BlockModel>,
    dependencies: Seq<Seq<PathKey>>,
    halved: Seq<i64>,
    max: nat,
    n: nat,
    k: PathKey,
)
    requires
        result_files(results).contains(k),
    ensures
        expanded(results, blocks, dependencies, halved, max, n).seen.contains(k),
    decreases n,
{
    if n > 0 {
        lemma_seen_grows(results, blocks, dependencies, halved, max, (n - 1) as nat, k);
        lemma_files_seen(
            expanded(results, blocks, dependencies, halved, max, (n - 1) as nat),
            blocks,
            dependencies[n - 1],
            halved[n - 1],
            "依赖链扩展: "@ + results[n - 1].name,
            max,
            dependencies[n - 1].len(),
            k,
        );
    }
}

proof fn lemma_files_seen(
    e: Expansion,
    blocks: Seq<BlockModel>,
    files: Seq<PathKey>,
    score: i64,
    intent: Seq<char>,
    max: nat,
    n: nat,
    k: PathKey,
)
    requires
        e.seen.contains(k),
    ensures
        with_files(e, blocks, files, score, intent, max, n).seen.contains(k),
    decreases n,
{
    if n > 0 {
        lemma_files_seen(e, blocks, files, score, intent, max, (n - 1) as nat, k);
    }
}

proof fn lemma_blocks_keep(
    v: Seq<RetrievedModel>,
    blocks: Seq<BlockModel>,
    file: PathKey,
    score: i64,
    intent: Seq<char>,
    max: nat,
    n: nat,
    a: int,
)
    requires
        0 <= a < v.len(),
    ensures
        v.len() <= with_blocks(v, blocks, file, score, intent, max, n).len(),
        with_blocks(v, blocks, file, score, intent, max, n)[a] == v[a],
    decreases n,
{
    if n > 0 {
        lemma_blocks_keep(v, blocks, file, score, intent, max, (n - 1) as nat, a);
    }
}

proof fn lemma_files_keep(
    e: Expansion,
    blocks: Seq<BlockModel>,
    files: Seq<PathKey>,
    score: i64,
    intent: Seq<char>,
    max: nat,
    n: nat,
    a: int,
)
    requires
        0 <= a < e.added.len(),
    ensures
        e.added.len() <= with_files(e, blocks, files, score, intent, max, n).added.len(),
        with_files(e, blocks, files, score, intent, max, n).added[a] == e.added[a],
    decreases n,
{
    if n > 0 {
        lemma_files_keep(e, blocks, files, score, intent, max, (n - 1) as nat, a);
        let before = with_files(e, blocks, files, score, intent, max, (n - 1) as nat);
        lemma_blocks_keep(
            before.added,
            blocks,
            files[n - 1],
            score,
            intent,
            max,
            blocks.len(),
            a,
        );
    }
}

proof fn lemma_blocks_add(
    v: Seq<RetrievedModel>,
    blocks: Seq<BlockModel>,
    file: PathKey,
    score: i64,
    intent: Seq<char>,
    max: nat,
    n: nat,
    a: int,
) -> (b: int)
    requires
        n <= blocks.len(),
        v.len() <= a < with_blocks(v, blocks, file, score, intent, max, n).len(),
    ensures
        0 <= b < n,
        path::key(blocks[b].file_path) == file,
        with_blocks(v, blocks, file, score, intent, max, n)[a] == result_for(
            blocks[b],
            score,
            intent,
        ),
    decreases n,
{
    let before = with_blocks(v, blocks, file, score, intent, max, (n - 1) as nat);
    if a < before.len() {
        lemma_blocks_add(v, blocks, file, score, intent, max, (n - 1) as nat, a)
    } else {
        n - 1
    }
}

proof fn lemma_files_add(
    e: Expansion,
    blocks: Seq<BlockModel>,
    files: Seq<PathKey>,
    score: i64,
    intent: Seq<char>,
    max: nat,
    n: nat,
    a: int,
) -> (b: int)
    requires
        n <= files.len(),
        e.added.len() <= a < with_files(e, blocks, files, score, intent, max, n).added.len(),
    ensures
        0 <= b < blocks.len(),
        files.contains(path::key(blocks[b].file_path)),
        !e.seen.contains(path::key(blocks[b].file_path)),
        with_files(e, blocks, files, score, intent, max, n).added[a] == result_for(
            blocks[b],
            score,
            intent,
        ),
    decreases n,
{
    let before = with_files(e, blocks, files, score, intent, max, (n - 1) as nat);
    if a < before.added.len() {
        if !before.seen.contains(files[n - 1]) {
            lemma_blocks_keep(
                before.added,
                blocks,
                files[n - 1],
                score,
                intent,
                max,
                blocks.len(),
                a,
            );
        }
        lemma_files_add(e, blocks, files, score, intent, max, (n - 1) as nat, a)
    } else {
        let b = lemma_blocks_add(
            before.added,
            blocks,
            files[n - 1],
            score,
            intent,
            max,
            blocks.len(),
            a,
        );
        assert(files.contains(files[n - 1]));
        if e.seen.contains(files[n - 1]) {
            lemma_files_seen(
                e,
                blocks,
                files,
                score,
                intent,
                max,
                (n - 1) as nat,
                files[n - 1],
            );
        }
        b
    }
}

/// Where there is room, the blocks of every file on which the first result depends are
/// added, unless a result stands in that file.
pub proof fn law_dependencies_are_added(
    results: Seq<RetrievedModel>,
    blocks: Seq<BlockModel>,
    dependencies: Seq<Seq<PathKey>>,
    halved: Seq<i64>,
    max: nat,
    n: nat,
    f: int,
    b: int,
) -> (a: int)
    requires
        1 <= n <= results.len(),
        n <= dependencies.len(),
        0 <= f < dependencies[0].len(),
        0 <= b < blocks.len(),
        path::key(blocks[b].file_path) == dependencies[0][f],
        forall|i: int|
            0 <= i < results.len() ==> path::key((#[trigger] results[i]).file_path)
                != dependencies[0][f],
        expanded(results, blocks, dependencies, halved, max, n).added.len() < max,
    ensures
        ({
            let all = expanded(results, blocks, dependencies, halved, max, n).added;
            &&& 0 <= a < all.len()
            &&& all[a] == result_for(
                blocks[b],
                halved[0],
                "依赖链扩展: "@ + results[0].name,
            )
        }),
    decreases n,
{
    let before = expanded(results, blocks, dependencies, halved, max, (n - 1) as nat);
    let intent = "依赖链扩展: "@ + results[n - 1].name;
    lemma_files_grow(
        before,
        blocks,
        dependencies[n - 1],
        halved[n - 1],
        intent,
        max,
        dependencies[n - 1].len(),
    );
    if n > 1 {
        let a = law_dependencies_are_added(
            results,
            blocks,
            dependencies,
            halved,
            max,
            (n - 1) as nat,
            f,
            b,
        );
        lemma_files_keep(
            before,
            blocks,
            dependencies[n - 1],
            halved[n - 1],
            intent,
            max,
            dependencies[n - 1].len(),
            a,
        );
        a
    } else {
        assert(before == (Expansion { seen: result_files(results), added: Seq::empty() }));
        lemma_file_is_added(
            before,
            blocks,
            dependencies[0],
            halved[0],
            intent,
            max,
            dependencies[0].len(),
            f,
            b,
        )
    }
}

proof fn lemma_blocks_grow(
    v: Seq<RetrievedModel>,
    blocks: Seq<BlockModel>,
    file: PathKey,
    score: i64,
    intent: Seq<char>,
    max: nat,
    n: nat,
)
    ensures
        v.len() <= with_blocks(v, blocks, file, score, intent, max, n).len(),
    decreases n,
{
    if n > 0 {
        lemma_blocks_grow(v, blocks, file, score, intent, max, (n - 1) as nat);
    }
}

proof fn lemma_files_grow(
    e: Expansion,
    blocks: Seq<BlockModel>,
    files: Seq<PathKey>,
    score: i64,
    intent: Seq<char>,
    max: nat,
    n: nat,
)
    ensures
        e.added.len() <= with_files(e, blocks, files, score, intent, max, n).added.len(),
    decreases n,
{
    if n > 0 {
        lemma_files_grow(e, blocks, files, score, intent, max, (n - 1) as nat);
        let before = with_files(e, blocks, files, score, intent, max, (n - 1) as nat);
        lemma_blocks_grow(
            before.added,
            blocks,
            files[n - 1],
            score,
            intent,
            max,
            blocks.len(),
        );
    }
}

proof fn lemma_block_is_added(
    v: Seq<RetrievedModel>,
    blocks: Seq<BlockModel>,
    file: PathKey,
    score: i64,
    intent: Seq<char>,
    max: nat,
    n: nat,
    b: int,
) -> (a: int)
    requires
        0 <= b < n <= blocks.len(),
        path::key(blocks[b].file_path) == file,
        with_blocks(v, blocks, file, score, intent, max, n).len() < max,
    ensures
        0 <= a < with_blocks(v, blocks, file, score, intent, max, n).len(),
        with_blocks(v, blocks, file, score, intent, max, n)[a] == result_for(
            blocks[b],
            score,
            intent,
        ),
    decreases n,
{
    let before = with_blocks(v, blocks, file, score, intent, max, (n - 1) as nat);
    if b < n - 1 {
        lemma_block_is_added(v, blocks, file, score, intent, max, (n - 1) as nat, b)
    } else {
        before.len() as int
    }
}

proof fn lemma_file_is_added(
    e: Expansion,
    blocks: Seq<BlockModel>,
    files: Seq<PathKey>,
    score: i64,
    intent: Seq<char>,
    max: nat,
    n: nat,
    f: int,
    b: int,
) -> (a: int)
    requires
        0 <= f < n <= files.len(),
        0 <= b < blocks.len(),
        path::key(blocks[b].file_path) == files[f],
        !e.seen.contains(files[f]),
        with_files(e, blocks, files, score, intent, max, n).added.len() < max,
    ensures
        0 <= a < with_files(e, blocks, files, score, intent, max, n).added.len(),
        with_files(e, blocks, files, score, intent, max, n).added[a] == result_for(
            blocks[b],
            score,
            intent,
        ),
    decreases n,
{
    let before = with_files(e, blocks, files, score, intent, max, (n - 1) as nat);
    lemma_blocks_grow(before.added, blocks, files[n - 1], score, intent, max, blocks.len());
    if f < n - 1 {
        let a = lemma_file_is_added(
            e,
            blocks,
            files,
            score,
            intent,
            max,
            (n - 1) as nat,
            f,
            b,
        );
        lemma_blocks_keep(
            before.added,
            blocks,
            files[n - 1],
            score,
            intent,
            max,
            blocks.len(),
            a,
        );
        a
    } else if before.seen.contains(files[f]) {
        let g = lemma_seen_from(e, blocks, files, score, intent, max, (n - 1) as nat, files[f]);
        let a = lemma_file_is_added(
            e,
            blocks,
            files,
            score,
            intent,
            max,
            (n - 1) as nat,
            g,
            b,
        );
        a
    } else {
        lemma_block_is_added(
            before.added,
            blocks,
            files[n - 1],
            score,
            intent,
            max,
            blocks.len(),
            b,
        )
    }
}

proof fn lemma_seen_from(
    e: Expansion,
    blocks: Seq<BlockModel>,
    files: Seq<PathKey>,
    score: i64,
    intent: Seq<char>,
    max: nat,
    n: nat,
    k: PathKey,
) -> (g: int)
    requires
        n <= files.len(),
        !e.seen.contains(k),
        with_files(e, blocks, files, score, intent, max, n).seen.contains(k),
    ensures
        0 <= g < n,
        files[g] == k,
    decreases n,
{
    let before = with_files(e, blocks, files, score, intent, max, (n - 1) as nat);
    if n > 0 && before.seen.contains(k) {
        lemma_seen_from(e, blocks, files, score, intent, max, (n - 1) as nat, k)
    } else {
        n - 1
    }
}

} // verus!
