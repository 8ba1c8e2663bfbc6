//! Long-term memory: knowledge that outlives a session.
//!
//! Each piece of knowledge is a file. What is read is searched by keywords, by
//! embeddings, or by both; the scores are handed in as integers that are ordered
//! as the scores are, zero for zero.

use crate::memory::rank;
use crate::node::payload::{Payload, PayloadModel};
use crate::outside;
use crate::path;
use crate::path::FilePath;
use crate::text::text_set::TextSet;
use crate::text::{lemmas, model, ops};
use vstd::prelude::*;

verus! {

/// What a piece of knowledge is about.
#[derive(Debug, Clone, Copy, PartialEq, Eq, Structural)]
pub enum KnowledgeCategory {
    /// The architecture of the project.
    Architecture,
    /// A decision that was made.
    Decision,
    /// What the user prefers.
    UserPreference,
    /// A pattern in the code.
    CodePattern,
    /// An error and how it was repaired.
    ErrorFix,
}

/// A piece of knowledge.
#[derive(Debug)]
pub struct KnowledgeEntry {
    /// Names the entry.
    pub id: String,
    /// What it is about.
    pub category: KnowledgeCategory,
    /// The text.
    pub content: String,
    /// The embedding, each component as the bit pattern of a single-precision
    /// number.
    pub embedding: Vec<u32>,
    /// Where the entry comes from.
    pub metadata: Payload,
    /// When the entry was made.
    pub created_at: String,
    /// When the entry was last changed.
    pub updated_at: String,
}

/// What an entry holds.
#[verifier::ext_equal]
pub struct KnowledgeModel {
    pub id: Seq<char>,
    pub category: KnowledgeCategory,
    pub content: Seq<char>,
    pub embedding: Seq<u32>,
    pub metadata: PayloadModel,
    pub created_at: Seq<char>,
    pub updated_at: Seq<char>,
}

impl View for KnowledgeEntry {
    type V = KnowledgeModel;

    open spec fn view(&self) -> KnowledgeModel {
        KnowledgeModel {
            id: self.id@,
            category: self.category,
            content: self.content@,
            embedding: self.embedding@,
            metadata: self.metadata@,
            created_at: self.created_at@,
            updated_at: self.updated_at@,
        }
    }
}

/// The entries that a list holds.
pub open spec fn knowledge_models(v: Seq<KnowledgeEntry>) -> Seq<KnowledgeModel> {
    v.map_values(|e: KnowledgeEntry| e@)
}

/// How a result was found.
#[derive(Debug, Clone, Copy, PartialEq, Eq, Structural)]
pub enum SearchSource {
    /// By keywords.
    Keyword,
    /// By the embedding.
    Vector,
    /// In more than one way.
    Hybrid,
}

/// A result of a search.
#[derive(Debug)]
pub struct SearchResult {
    /// Names the entry.
    pub id: String,
    /// The text.
    pub content: String,
    /// The score.
    pub score: i64,
    /// How the result was found.
    pub source: SearchSource,
    /// When the entry was made.
    pub created_at: String,
}

/// What a result holds.
#[verifier::ext_equal]
pub struct ResultModel {
    pub id: Seq<char>,
    pub content: Seq<char>,
    pub score: i64,
    pub source: SearchSource,
    pub created_at: Seq<char>,
}

impl View for SearchResult {
    type V = ResultModel;

    open spec fn view(&self) -> ResultModel {
        ResultModel {
            id: self.id@,
            content: self.content@,
            score: self.score,
            source: self.source,
            created_at: self.created_at@,
        }
    }
}

impl Clone for SearchResult {
    fn clone(&self) -> (r: Self)
        ensures
            r@ == self@,
    {
        SearchResult {
            id: self.id.clone(),
            content: self.content.clone(),
            score: self.score,
            source: self.source,
            created_at: self.created_at.clone(),
        }
    }
}

/// The results that a list holds.
pub open spec fn result_models(v: Seq<SearchResult>) -> Seq<ResultModel> {
    v.map_values(|e: SearchResult| e@)
}

/// Whether a character is a CJK ideograph: of the unified ideographs and their
/// extensions, or one for compatibility.
pub open spec fn is_ideograph(c: char) -> bool {
    ||| '\u{3400}' <= c <= '\u{4DBF}'
    ||| '\u{4E00}' <= c <= '\u{9FFF}'
    ||| '\u{F900}' <= c <= '\u{FAFF}'
    ||| '\u{20000}' <= c <= '\u{323AF}'
}

/// Whether a word holds a CJK ideograph.
pub open spec fn has_ideograph(s: Seq<char>) -> bool {
    exists|i: int| 0 <= i < s.len() && is_ideograph(#[trigger] s[i])
}

/// The tails of a word that have at least two characters, the longest first:
/// those that begin before place `n`.
pub open spec fn tails(w: Seq<char>, n: nat) -> Seq<Seq<char>> {
    Seq::new(n, |i: int| w.skip(i))
}

/// The keywords in a word. A word of one character has none, and a longer one is its
/// own keyword. Between ideographs words are not set apart, so where the word holds
/// one, each of its tails is a keyword.
pub open spec fn keywords_in(w: Seq<char>) -> Seq<Seq<char>> {
    if w.len() < 2 {
        Seq::empty()
    } else if has_ideograph(w) {
        tails(w, (w.len() - 1) as nat)
    } else {
        seq![w]
    }
}

/// The keywords in the first `n` words.
pub open spec fn keywords_upto(words: Seq<Seq<char>>, n: nat) -> Seq<Seq<char>>
    decreases n,
{
    if n == 0 {
        Seq::empty()
    } else {
        keywords_upto(words, (n - 1) as nat) + keywords_in(words[n - 1])
    }
}

/// The words of a text in lower case, between white space and punctuation.
pub open spec fn words_of(lowered: Seq<char>) -> Seq<Seq<char>> {
    model::split_where(lowered, |c: char| model::is_white(c) || model::is_ascii_punctuation(c))
}

/// The keywords of a text that is in lower case.
pub open spec fn keywords_of(lowered: Seq<char>) -> Seq<Seq<char>> {
    keywords_upto(words_of(lowered), words_of(lowered).len())
}

/// Whether a keyword of a query is met by a keyword of an entry: they are the
/// same, or the one holds an ideograph and the other begins with it.
pub open spec fn meets(k: Seq<char>, w: Seq<char>) -> bool {
    w == k || (has_ideograph(k) && model::starts_with(w, k))
}

/// Whether a keyword is met by one of an entry's keywords.
pub open spec fn is_met(k: Seq<char>, entry: Seq<Seq<char>>) -> bool {
    exists|i: int| 0 <= i < entry.len() && meets(k, #[trigger] entry[i])
}

/// How many of a query's keywords are met.
pub open spec fn met_count(query: Seq<Seq<char>>, entry: Seq<Seq<char>>) -> nat
    decreases query.len(),
{
    if query.len() == 0 {
        0
    } else {
        met_count(query.drop_last(), entry) + if is_met(query.last(), entry) {
            1nat
        } else {
            0nat
        }
    }
}

/// How many of the keywords occur in a text.
pub open spec fn occurring(keywords: Seq<Seq<char>>, text: Seq<char>) -> nat
    decreases keywords.len(),
{
    if keywords.len() == 0 {
        0
    } else {
        occurring(keywords.drop_last(), text) + if model::contains(text, keywords.last()) {
            1nat
        } else {
            0nat
        }
    }
}

/// The runs of three characters in a text; a shorter text is its own run.
pub open spec fn trigrams(s: Seq<char>) -> Set<Seq<char>> {
    if s.len() == 0 {
        Set::empty()
    } else if s.len() < 3 {
        set![s]
    } else {
        Set::new(|w: Seq<char>| exists|i: int| 0 <= i <= s.len() - 3 && w == #[trigger] s.subrange(i, i + 3))
    }
}

/// A part of a whole.
#[derive(Debug, Clone, Copy, PartialEq, Eq, Structural)]
pub struct Share {
    pub part: u128,
    pub whole: u128,
}

/// Whether a word holds a CJK ideograph.
fn holds_ideograph(s: &[char]) -> (r: bool)
    ensures
        r == has_ideograph(s@),
{
    let mut i: usize = 0;
    while i < s.len()
        invariant
            i <= s@.len(),
            forall|j: int| 0 <= j < i ==> !is_ideograph(#[trigger] s@[j]),
        decreases s@.len() - i,
    {
        let c = s[i];
        if (c >= '\u{3400}' && c <= '\u{4DBF}') || (c >= '\u{4E00}' && c <= '\u{9FFF}') || (c
            >= '\u{F900}' && c <= '\u{FAFF}') || (c >= '\u{20000}' && c <= '\u{323AF}') {
            assert(is_ideograph(s@[i as int]));
            return true;
        }
        i = i + 1;
    }
    false
}

/// The keywords in a word.
fn add_keywords(out: &mut Vec<String>, w: &[char])
    ensures
        model::texts(final(out)@) == model::texts(old(out)@) + keywords_in(w@),
{
    let ghost before = model::texts(out@);
    if w.len() < 2 {
        assert(before + keywords_in(w@) =~= before);
        return;
    }
    if !holds_ideograph(w) {
        out.push(ops::string_of(w));
        assert(model::texts(out@) =~= before + keywords_in(w@));
        return;
    }
    let last: usize = w.len() - 1;
    let mut i: usize = 0;
    assert(before + tails(w@, 0) =~= before);
    while i < last
        invariant
            i <= last,
            last == w@.len() - 1,
            model::texts(out@) == before + tails(w@, i as nat),
        decreases last - i,
    {
        let ghost earlier = out@;
        let tail = ops::string_of(ops::skip(w, i));
        let ghost shown = tail@;
        out.push(tail);
        assert(model::texts(out@) =~= model::texts(earlier).push(shown));
        assert(tails(w@, (i + 1) as nat) =~= tails(w@, i as nat).push(shown));
        assert(before + tails(w@, (i + 1) as nat) =~= (before + tails(w@, i as nat)).push(shown));
        i = i + 1;
    }
}

/// The keywords of a text, in lower case.
pub fn tokenize(text: &str) -> (r: Vec<String>)
    ensures
        model::texts(r@) == keywords_of(outside::lower(text@)),
{
    let lowered = outside::to_lowercase(text);
    tokenize_lowered(lowered.as_str())
}

/// The keywords of a text that is in lower case.
pub fn tokenize_lowered(lowered: &str) -> (r: Vec<String>)
    ensures
        model::texts(r@) == keywords_of(lowered@),
{
    let chars = ops::chars_of(lowered);
    let words = ops::split_white_or_punctuation(chars.as_slice());
    let ghost all = words_of(lowered@);
    let mut out: Vec<String> = Vec::new();
    assert(model::texts(out@) =~= Seq::empty());
    let mut i: usize = 0;
    while i < words.len()
        invariant
            i <= words@.len(),
            all == model::slices(words@),
            model::texts(out@) == keywords_upto(all, i as nat),
        decreases words@.len() - i,
    {
        assert(all[i as int] == words@[i as int]@);
        add_keywords(&mut out, words[i]);
        i = i + 1;
    }
    out
}

/// Whether a keyword is met by one of an entry's keywords.
fn met(k: &str, entry: &Vec<String>) -> (r: bool)
    ensures
        r == is_met(k@, model::texts(entry@)),
{
    let chars = ops::chars_of(k);
    let unparted = holds_ideograph(chars.as_slice());
    let ghost all = model::texts(entry@);
    let mut i: usize = 0;
    while i < entry.len()
        invariant
            i <= entry@.len(),
            chars@ == k@,
            unparted == has_ideograph(k@),
            all == model::texts(entry@),
            forall|j: int| 0 <= j < i ==> !meets(k@, #[trigger] all[j]),
        decreases entry@.len() - i,
    {
        assert(all[i as int] == entry@[i as int]@);
        let word = ops::chars_of(entry[i].as_str());
        if ops::same(word.as_slice(), chars.as_slice()) || (unparted && ops::starts_with(
            word.as_slice(),
            k,
        )) {
            assert(meets(k@, all[i as int]));
            return true;
        }
        i = i + 1;
    }
    false
}

/// How many of a query's keywords an entry meets, of how many.
pub fn keyword_similarity(query: &Vec<String>, entry: &Vec<String>) -> (r: Share)
    ensures
        r.part == met_count(model::texts(query@), model::texts(entry@)),
        r.whole == query@.len(),
        r.part <= r.whole,
{
    let ghost all = model::texts(query@);
    let ghost words = model::texts(entry@);
    let mut n: usize = 0;
    let mut i: usize = 0;
    assert(all.take(0) =~= Seq::empty());
    while i < query.len()
        invariant
            i <= query@.len(),
            all == model::texts(query@),
            words == model::texts(entry@),
            n == met_count(all.take(i as int), words),
            n <= i,
        decreases query@.len() - i,
    {
        assert(all.take(i + 1).drop_last() =~= all.take(i as int));
        assert(all.take(i + 1).last() == query@[i as int]@);
        if met(query[i].as_str(), entry) {
            n = n + 1;
        }
        i = i + 1;
    }
    assert(all.take(all.len() as int) =~= all);
    Share { part: n as u128, whole: query.len() as u128 }
}

/// The runs of three characters in a text.
pub fn compute_trigrams(text: &str) -> (r: TextSet)
    ensures
        r.wf(),
        r@ == trigrams(text@),
{
    let chars = ops::chars_of(text);
    let mut set = TextSet::new();
    if chars.len() == 0 {
        return set;
    }
    if chars.len() < 3 {
        set.insert(ops::string_of(chars.as_slice()));
        assert(set@ =~= set![text@]);
        return set;
    }
    let ghost s = text@;
    let total: usize = chars.len() - 2;
    let mut i: usize = 0;
    assert(set@ =~= Set::new(
        |w: Seq<char>| exists|j: int| 0 <= j < 0 && w == #[trigger] s.subrange(j, j + 3),
    ));
    while i < total
        invariant
            chars@ == s,
            s.len() >= 3,
            total == s.len() - 2,
            i <= total,
            set.wf(),
            set@ == Set::new(
                |w: Seq<char>| exists|j: int| 0 <= j < i && w == #[trigger] s.subrange(j, j + 3),
            ),
        decreases total - i,
    {
        let ghost before = set@;
        let run = ops::string_of(ops::take(ops::skip(chars.as_slice(), i), 3));
        let ghost shown = run@;
        assert(shown =~= s.subrange(i as int, i + 3));
        set.insert(run);
        proof {
            let after = Set::new(
                |w: Seq<char>| exists|j: int| 0 <= j < i + 1 && w == #[trigger] s.subrange(j, j + 3),
            );
            assert forall|w: Seq<char>| set@.contains(w) <==> after.contains(w) by {
                if before.contains(w) {
                    let j = choose|j: int| 0 <= j < i && w == #[trigger] s.subrange(j, j + 3);
                    assert(w == s.subrange(j, j + 3));
                }
                if w == shown {
                    assert(w == s.subrange(i as int, i + 3));
                }
            }
            assert(set@ =~= after);
        }
        i = i + 1;
    }
    assert(set@ =~= trigrams(s));
    set
}

/// How many runs two texts have in common, of how many that either has.
pub fn trigram_similarity(a: &TextSet, b: &TextSet) -> (r: Share)
    requires
        a.wf(),
        b.wf(),
    ensures
        r.part == a@.intersect(b@).len(),
        r.whole == a@.union(b@).len(),
        r.part <= r.whole,
{
    let m: usize = a.len();
    let n: usize = b.len();
    let shared: usize = a.common(b);
    proof {
        vstd::set_lib::lemma_set_intersect_union_lens(a@, b@);
        assert(a@.intersect(b@).subset_of(b@));
        vstd::set_lib::lemma_len_subset(a@.intersect(b@), b@);
    }
    Share { part: shared as u128, whole: m as u128 + n as u128 - shared as u128 }
}

/// How much of a query a text holds: all of it, or so many of its keywords.
pub open spec fn substring_share(
    content: Seq<char>,
    query: Seq<char>,
    keywords: Seq<Seq<char>>,
) -> Share {
    if model::contains(content, query) {
        Share { part: 1, whole: 1 }
    } else {
        Share {
            part: occurring(keywords, content) as u128,
            whole: if keywords.len() == 0 {
                1
            } else {
                keywords.len() as u128
            },
        }
    }
}

/// How much of a query a text holds. All are in lower case.
pub fn substring_match(content: &str, query: &str, keywords: &Vec<String>) -> (r: Share)
    ensures
        r == substring_share(content@, query@, model::texts(keywords@)),
        r.part <= r.whole,
{
    if ops::text_contains(content, query) {
        return Share { part: 1, whole: 1 };
    }
    let ghost all = model::texts(keywords@);
    let mut n: usize = 0;
    let mut i: usize = 0;
    assert(all.take(0) =~= Seq::empty());
    while i < keywords.len()
        invariant
            i <= keywords@.len(),
            all == model::texts(keywords@),
            n == occurring(all.take(i as int), content@),
            n <= i,
        decreases keywords@.len() - i,
    {
        assert(all.take(i + 1).drop_last() =~= all.take(i as int));
        assert(all.take(i + 1).last() == keywords@[i as int]@);
        if ops::text_contains(content, keywords[i].as_str()) {
            n = n + 1;
        }
        i = i + 1;
    }
    assert(all.take(all.len() as int) =~= all);
    Share {
        part: n as u128,
        whole: if keywords.len() == 0 {
            1
        } else {
            keywords.len() as u128
        },
    }
}

/// How well a text answers a query, before the parts are weighted.
#[derive(Debug, Clone, Copy)]
pub struct KeywordMatch {
    /// How much of the query the text holds.
    pub substring: Share,
    /// How many runs of characters they have in common.
    pub trigram: Share,
}

/// How well a text answers a query.
pub fn keyword_match(query: &str, content: &str) -> (r: KeywordMatch)
    ensures
        r.substring == substring_share(
            outside::lower(content@),
            outside::lower(query@),
            keywords_of(outside::lower(query@)),
        ),
        r.trigram.part == trigrams(outside::lower(query@)).intersect(
            trigrams(outside::lower(content@)),
        ).len(),
        r.trigram.whole == trigrams(outside::lower(query@)).union(
            trigrams(outside::lower(content@)),
        ).len(),
{
    let q = outside::to_lowercase(query);
    let c = outside::to_lowercase(content);
    let keywords = tokenize_lowered(q.as_str());
    let a = compute_trigrams(q.as_str());
    let b = compute_trigrams(c.as_str());
    KeywordMatch {
        substring: substring_match(c.as_str(), q.as_str(), &keywords),
        trigram: trigram_similarity(&a, &b),
    }
}

/// The result for an entry.
pub open spec fn result_of(e: KnowledgeModel, score: i64, source: SearchSource) -> ResultModel {
    ResultModel {
        id: e.id,
        content: e.content,
        score: score,
        source: source,
        created_at: e.created_at,
    }
}

/// The results of the first `n` entries that have a score above zero, and an
/// embedding where one is needed.
pub open spec fn scored(
    v: Seq<KnowledgeModel>,
    scores: Seq<i64>,
    source: SearchSource,
    n: nat,
) -> Seq<ResultModel>
    decreases n,
{
    if n == 0 {
        Seq::empty()
    } else {
        let before = scored(v, scores, source, (n - 1) as nat);
        if scores[n - 1] > 0 && (source is Vector ==> v[n - 1].embedding.len() > 0) {
            before.push(result_of(v[n - 1], scores[n - 1], source))
        } else {
            before
        }
    }
}

/// The scores of some results.
pub open spec fn result_scores(v: Seq<ResultModel>) -> Seq<i64> {
    v.map_values(|r: ResultModel| r.score)
}

/// The best `k` results, best first.
pub open spec fn best_results(v: Seq<ResultModel>, k: nat) -> Seq<ResultModel> {
    rank::first_of(rank::descending(result_scores(v)), k).map_values(|i: int| v[i])
}

/// The best results, best first.
pub fn take_best(results: &Vec<SearchResult>, top_k: usize) -> (r: Vec<SearchResult>)
    ensures
        result_models(r@) == best_results(result_models(results@), top_k as nat),
{
    let ghost all = result_models(results@);
    let mut keys: Vec<i64> = Vec::new();
    let mut i: usize = 0;
    while i < results.len()
        invariant
            i <= results@.len(),
            all == result_models(results@),
            keys@ == result_scores(all).take(i as int),
        decreases results@.len() - i,
    {
        keys.push(results[i].score);
        assert(result_scores(all).take(i + 1) =~= result_scores(all).take(i as int).push(
            results@[i as int].score,
        ));
        i = i + 1;
    }
    assert(result_scores(all).take(all.len() as int) =~= result_scores(all));
    let order = rank::top(&keys, top_k);
    let ghost ranked = rank::positions(order@);
    let ghost best = best_results(all, top_k as nat);
    let mut out: Vec<SearchResult> = Vec::new();
    assert(result_models(out@) =~= best.take(0));
    let mut j: usize = 0;
    while j < order.len()
        invariant
            j <= order@.len(),
            all == result_models(results@),
            ranked == rank::positions(order@),
            best == ranked.map_values(|i: int| all[i]),
            forall|k: int| 0 <= k < order@.len() ==> (#[trigger] order@[k]) < results@.len(),
            result_models(out@) == best.take(j as int),
        decreases order@.len() - j,
    {
        assert(ranked[j as int] == order@[j as int] as int);
        let ghost before = out@;
        let item = results[order[j]].clone();
        let ghost shown = item@;
        out.push(item);
        assert(result_models(out@) =~= result_models(before).push(shown));
        assert(best.take(j + 1) =~= best.take(j as int).push(shown));
        j = j + 1;
    }
    assert(best.take(best.len() as int) =~= best);
    out
}

/// The results of the entries that have a score above zero, and an embedding
/// where one is needed.
fn results_for(entries: &Vec<KnowledgeEntry>, scores: &Vec<i64>, source: SearchSource) -> (r: Vec<
    SearchResult,
>)
    requires
        scores@.len() == entries@.len(),
    ensures
        result_models(r@) == scored(knowledge_models(entries@), scores@, source, entries@.len()),
{
    let ghost all = knowledge_models(entries@);
    let by_vector = matches!(source, SearchSource::Vector);
    let mut out: Vec<SearchResult> = Vec::new();
    assert(result_models(out@) =~= Seq::empty());
    let mut i: usize = 0;
    while i < entries.len()
        invariant
            i <= entries@.len(),
            scores@.len() == entries@.len(),
            all == knowledge_models(entries@),
            by_vector == (source is Vector),
            result_models(out@) == scored(all, scores@, source, i as nat),
        decreases entries@.len() - i,
    {
        assert(all[i as int] == entries@[i as int]@);
        let entry = &entries[i];
        if scores[i] > 0 && (!by_vector || entry.embedding.len() > 0) {
            let ghost before = out@;
            let item = SearchResult {
                id: entry.id.clone(),
                content: entry.content.clone(),
                score: scores[i],
                source,
                created_at: entry.created_at.clone(),
            };
            let ghost shown = item@;
            out.push(item);
            assert(result_models(out@) =~= result_models(before).push(shown));
        }
        i = i + 1;
    }
    out
}

/// The results with one more. A result with a text that is there already raises
/// the score of the earlier one, which then counts as found in more than one
/// way.
pub open spec fn merged_with(v: Seq<ResultModel>, r: ResultModel) -> Seq<ResultModel> {
    let p = content_from(v, r.content, 0);
    if p < v.len() {
        v.update(
            p,
            ResultModel {
                score: if v[p].score >= r.score {
                    v[p].score
                } else {
                    r.score
                },
                source: SearchSource::Hybrid,
                ..v[p]
            },
        )
    } else {
        v.push(r)
    }
}

/// The first result with a text, at place `i` or later; the length where there
/// is none.
pub open spec fn content_from(v: Seq<ResultModel>, content: Seq<char>, i: int) -> int
    decreases v.len() - i,
{
    if i >= v.len() {
        v.len() as int
    } else if v[i].content == content {
        i
    } else {
        content_from(v, content, i + 1)
    }
}

/// The results with more results.
pub open spec fn merged_with_all(v: Seq<ResultModel>, more: Seq<ResultModel>) -> Seq<ResultModel>
    decreases more.len(),
{
    if more.len() == 0 {
        v
    } else {
        merged_with(merged_with_all(v, more.drop_last()), more.last())
    }
}

/// The first result with a text.
fn content_slot(v: &Vec<SearchResult>, content: &str) -> (r: usize)
    ensures
        r == content_from(result_models(v@), content@, 0),
        r <= v@.len(),
{
    let ghost all = result_models(v@);
    let mut i: usize = 0;
    while i < v.len()
        invariant
            i <= v@.len(),
            all == result_models(v@),
            content_from(all, content@, 0) == content_from(all, content@, i as int),
        decreases v@.len() - i,
    {
        assert(all[i as int] == v@[i as int]@);
        if ops::same_text(v[i].content.as_str(), content) {
            return i;
        }
        i = i + 1;
    }
    i
}

/// Adds results to others.
fn merge_into(out: &mut Vec<SearchResult>, more: Vec<SearchResult>)
    ensures
        result_models(final(out)@) == merged_with_all(
            result_models(old(out)@),
            result_models(more@),
        ),
{
    let ghost all = result_models(more@);
    let ghost before = result_models(out@);
    assert(all.take(0) =~= Seq::empty());
    for r in it: more
        invariant
            all == result_models(it.seq()),
            result_models(out@) == merged_with_all(before, all.take(it.index() as int)),
    {
        let ghost i = it.index() as int;
        let ghost now = result_models(out@);
        let ghost shown = r@;
        assert(all[i] == shown);
        assert(all.take(i + 1).drop_last() =~= all.take(i));
        let p: usize = content_slot(out, r.content.as_str());
        if p < out.len() {
            assert(now[p as int] == out@[p as int]@);
            if r.score > out[p].score {
                out[p].score = r.score;
            }
            out[p].source = SearchSource::Hybrid;
            assert(result_models(out@) =~= merged_with(now, shown));
        } else {
            out.push(r);
            assert(result_models(out@) =~= now.push(shown));
        }
    }
    assert(all.take(all.len() as int) =~= all);
}

/// The results of two searches together, each text once, with its best score.
pub fn merge_search_results(keyword: Vec<SearchResult>, vector: Vec<SearchResult>) -> (r: Vec<
    SearchResult,
>)
    ensures
        result_models(r@) == merged_with_all(
            merged_with_all(Seq::empty(), result_models(keyword@)),
            result_models(vector@),
        ),
{
    let mut out: Vec<SearchResult> = Vec::new();
    assert(result_models(out@) =~= Seq::empty());
    merge_into(&mut out, keyword);
    merge_into(&mut out, vector);
    out
}

/// The weight of a source, in tenths.
pub open spec fn weight_in_tenths(source: SearchSource) -> u32 {
    match source {
        SearchSource::Keyword => 3,
        SearchSource::Vector => 7,
        SearchSource::Hybrid => 10,
    }
}

/// The weight of a source, in tenths.
pub fn source_weight(source: SearchSource) -> (r: u32)
    ensures
        r == weight_in_tenths(source),
{
    match source {
        SearchSource::Keyword => 3,
        SearchSource::Vector => 7,
        SearchSource::Hybrid => 10,
    }
}

/// The result with a text; where there is none, a result with nothing but the
/// text and the score.
pub open spec fn result_with(v: Seq<ResultModel>, content: Seq<char>, score: i64) -> ResultModel {
    let p = content_from(v, content, 0);
    if p < v.len() {
        v[p]
    } else {
        ResultModel {
            id: Seq::empty(),
            content: content,
            score: score,
            source: SearchSource::Hybrid,
            created_at: Seq::empty(),
        }
    }
}

/// The result with a text.
pub fn restore_result(merged: &Vec<SearchResult>, content: String, score: i64) -> (r: SearchResult)
    ensures
        r@ == result_with(result_models(merged@), content@, score),
{
    let p: usize = content_slot(merged, content.as_str());
    if p < merged.len() {
        merged[p].clone()
    } else {
        let id = String::new();
        let created_at = String::new();
        assert(id@ =~= Seq::<char>::empty());
        assert(created_at@ =~= Seq::<char>::empty());
        SearchResult { id, content, score, source: SearchSource::Hybrid, created_at }
    }
}

/// The directory under the home directory where knowledge is kept by default.
pub open spec fn default_dir(home: Seq<char>) -> Seq<char> {
    path::join(path::join(home, ".ccode"@), "memory"@)
}

/// Long-term memory.
#[derive(Debug)]
pub struct LongTermMemory {
    /// The directory of the files.
    pub storage_dir: FilePath,
}

impl LongTermMemory {
    /// A memory in the default directory; without a home directory, under the
    /// current one.
    pub fn new(home: Option<&str>) -> (r: Self)
        ensures
            r.storage_dir@ == default_dir(
                match home {
                    Some(h) => h@,
                    None => "."@,
                },
            ),
    {
        let home = match home {
            Some(h) => h,
            None => ".",
        };
        LongTermMemory { storage_dir: FilePath::new(home).join(".ccode").join("memory") }
    }

    /// A memory in the given directory.
    pub fn with_dir(storage_dir: FilePath) -> (r: Self)
        ensures
            r.storage_dir@ == storage_dir@,
    {
        LongTermMemory { storage_dir }
    }

    /// The file of an entry.
    pub fn entry_path(&self, id: &str) -> (r: FilePath)
        ensures
            r@ == path::join(self.storage_dir@, id@ + ".json"@),
    {
        let name = ops::concat2(id, ".json");
        self.storage_dir.join(name.as_str())
    }

    /// Whether a file holds an entry.
    pub fn is_entry_file(file: &FilePath) -> (r: bool)
        ensures
            r == (path::extension(file@) == Some("json"@)),
    {
        match file.extension() {
            Some(e) => ops::same_text(e.as_str(), "json"),
            None => false,
        }
    }

    /// The places of the entries that answer a query best, best first. A query
    /// without keywords finds nothing. `scores` holds the share of the query's
    /// keywords that each entry meets.
    pub fn search(&self, query: &str, scores: &Vec<i64>, top_k: usize) -> (r: Vec<usize>)
        ensures
            rank::positions(r@) == if keywords_of(outside::lower(query@)).len() == 0 {
                Seq::empty()
            } else {
                rank::first_of(rank::descending(scores@), top_k as nat)
            },
            forall|i: int| 0 <= i < r@.len() ==> (#[trigger] r@[i]) < scores@.len(),
    {
        let keywords = tokenize(query);
        if keywords.len() == 0 {
            let none: Vec<usize> = Vec::new();
            assert(rank::positions(none@) =~= Seq::empty());
            return none;
        }
        rank::top(scores, top_k)
    }

    /// The entries that answer a query best by keywords.
    pub fn keyword_search(
        &self,
        entries: &Vec<KnowledgeEntry>,
        scores: &Vec<i64>,
        top_k: usize,
    ) -> (r: Vec<SearchResult>)
        requires
            scores@.len() == entries@.len(),
        ensures
            result_models(r@) == best_results(
                scored(
                    knowledge_models(entries@),
                    scores@,
                    SearchSource::Keyword,
                    entries@.len(),
                ),
                top_k as nat,
            ),
    {
        let all = results_for(entries, scores, SearchSource::Keyword);
        take_best(&all, top_k)
    }

    /// The entries that are most similar to a query. An empty query finds
    /// nothing.
    pub fn vector_search(
        &self,
        entries: &Vec<KnowledgeEntry>,
        query_embedding: &[u32],
        scores: &Vec<i64>,
        top_k: usize,
    ) -> (r: Vec<SearchResult>)
        requires
            scores@.len() == entries@.len(),
        ensures
            result_models(r@) == if query_embedding@.len() == 0 {
                Seq::empty()
            } else {
                best_results(
                    scored(
                        knowledge_models(entries@),
                        scores@,
                        SearchSource::Vector,
                        entries@.len(),
                    ),
                    top_k as nat,
                )
            },
    {
        if query_embedding.len() == 0 {
            let none: Vec<SearchResult> = Vec::new();
            assert(result_models(none@) =~= Seq::empty());
            return none;
        }
        let all = results_for(entries, scores, SearchSource::Vector);
        take_best(&all, top_k)
    }
}

/// No two results have the same text.
pub open spec fn distinct_texts(v: Seq<ResultModel>) -> bool {
    forall|i: int, j: int|
        0 <= i < j < v.len() ==> (#[trigger] v[i]).content != (#[trigger] v[j]).content
}

proof fn lemma_content_from(v: Seq<ResultModel>, content: Seq<char>, i: int)
    requires
        0 <= i <= v.len(),
    ensures
        i <= content_from(v, content, i) <= v.len(),
        content_from(v, content, i) < v.len() ==> v[content_from(v, content, i)].content == content,
        forall|j: int|
            i <= j < content_from(v, content, i) ==> (#[trigger] v[j]).content != content,
    decreases v.len() - i,
{
    if i < v.len() && v[i].content != content {
        lemma_content_from(v, content, i + 1);
    }
}

/// Merging keeps each text once, loses none, and lets no score fall.
pub proof fn law_merge_keeps_each_text_once(v: Seq<ResultModel>, more: Seq<ResultModel>)
    requires
        distinct_texts(v),
    ensures
        distinct_texts(merged_with_all(v, more)),
        v.len() <= merged_with_all(v, more).len() <= v.len() + more.len(),
        forall|i: int|
            0 <= i < v.len() ==> {
                let w = merged_with_all(v, more);
                &&& w[i].content == (#[trigger] v[i]).content
                &&& w[i].id == v[i].id
                &&& w[i].score >= v[i].score
            },
        forall|j: int|
            0 <= j < more.len() ==> content_from(
                merged_with_all(v, more),
                (#[trigger] more[j]).content,
                0,
            ) < merged_with_all(v, more).len(),
    decreases more.len(),
{
    if more.len() > 0 {
        let w = merged_with_all(v, more.drop_last());
        let x = more.last();
        law_merge_keeps_each_text_once(v, more.drop_last());
        let r = merged_with_all(v, more);
        lemma_content_from(w, x.content, 0);
        let p = content_from(w, x.content, 0);
        assert forall|i: int| 0 <= i < w.len() implies r[i].content == (#[trigger] w[i]).content
            && r[i].id == w[i].id && r[i].score >= w[i].score by {}
        assert forall|i: int, j: int| 0 <= i < j < r.len() implies (#[trigger] r[i]).content != (
        #[trigger] r[j]).content by {
            if j < w.len() {
                assert(w[i].content != w[j].content);
            } else {
                assert(w[i].content != x.content);
            }
        }
        assert forall|j: int| 0 <= j < more.len() implies content_from(
            r,
            (#[trigger] more[j]).content,
            0,
        ) < r.len() by {
            let c = more[j].content;
            lemma_content_from(r, c, 0);
            if j < more.len() - 1 {
                assert(more.drop_last()[j] == more[j]);
                lemma_content_from(w, c, 0);
                let q = content_from(w, c, 0);
                assert(r[q].content == c);
            } else if p < w.len() {
                assert(r[p].content == c);
            } else {
                assert(r[w.len() as int].content == c);
            }
        }
    }
}

/// Every keyword has at least two characters.
pub proof fn law_keywords_are_no_single_characters(words: Seq<Seq<char>>, n: nat)
    requires
        n <= words.len(),
    ensures
        forall|i: int|
            0 <= i < keywords_upto(words, n).len() ==> (#[trigger] keywords_upto(words, n)[i]).len()
                >= 2,
    decreases n,
{
    if n > 0 {
        law_keywords_are_no_single_characters(words, (n - 1) as nat);
        let a = keywords_upto(words, (n - 1) as nat);
        let b = keywords_in(words[n - 1]);
        assert forall|i: int| 0 <= i < keywords_upto(words, n).len() implies (
        #[trigger] keywords_upto(words, n)[i]).len() >= 2 by {
            if i < a.len() {
                assert(keywords_upto(words, n)[i] == a[i]);
            } else {
                assert(keywords_upto(words, n)[i] == b[i - a.len()]);
            }
        }
    }
}

/// White space and punctuation part the words of a text: what stands on both sides of
/// them gives its own keywords.
pub proof fn law_words_are_parted(a: Seq<char>, c: char, b: Seq<char>)
    requires
        model::is_white(c) || model::is_ascii_punctuation(c),
    ensures
        keywords_of(a + seq![c] + b) == keywords_of(a) + keywords_of(b),
{
    let f = |c: char| model::is_white(c) || model::is_ascii_punctuation(c);
    lemmas::lemma_split_where_concat(a, c, b, f);
    let x = model::split_where(a, f);
    let y = model::split_where(b, f);
    lemma_keywords_concat(x, y, y.len());
}

proof fn lemma_keywords_concat(x: Seq<Seq<char>>, y: Seq<Seq<char>>, n: nat)
    requires
        n <= y.len(),
    ensures
        keywords_upto(x + y, x.len() + n) == keywords_upto(x, x.len()) + keywords_upto(y, n),
    decreases n,
{
    if n == 0 {
        lemma_keywords_prefix(x, x + y, x.len());
        assert(keywords_upto(x, x.len()) + keywords_upto(y, 0) =~= keywords_upto(x, x.len()));
    } else {
        lemma_keywords_concat(x, y, (n - 1) as nat);
        assert((x + y)[x.len() + n - 1] == y[n - 1]);
        assert(keywords_upto(x + y, x.len() + n) =~= keywords_upto(x, x.len()) + keywords_upto(
            y,
            n,
        ));
    }
}

proof fn lemma_keywords_prefix(x: Seq<Seq<char>>, z: Seq<Seq<char>>, n: nat)
    requires
        n <= x.len() <= z.len(),
        forall|i: int| 0 <= i < x.len() ==> #[trigger] x[i] == z[i],
    ensures
        keywords_upto(z, n) == keywords_upto(x, n),
    decreases n,
{
    if n > 0 {
        lemma_keywords_prefix(x, z, (n - 1) as nat);
        assert(x[n - 1] == z[n - 1]);
    }
}

/// A single word is its own keyword; where it holds Chinese characters, each of its
/// endings of at least two characters is one too. A single character is none.
pub proof fn law_word_gives_its_keywords(w: Seq<char>)
    requires
        forall|i: int|
            0 <= i < w.len() ==> !model::is_white(#[trigger] w[i]) && !model::is_ascii_punctuation(
                w[i],
            ),
    ensures
        w.len() < 2 ==> keywords_of(w).len() == 0,
        w.len() >= 2 && (forall|i: int| 0 <= i < w.len() ==> #[trigger] w[i] < '\u{3400}')
            ==> keywords_of(w) == seq![w],
        w.len() >= 2 && (exists|i: int|
            0 <= i < w.len() && '\u{4E00}' <= #[trigger] w[i] && w[i] <= '\u{9FFF}') ==> {
            &&& keywords_of(w).len() == w.len() - 1
            &&& forall|i: int|
                0 <= i < w.len() - 1 ==> #[trigger] keywords_of(w)[i] == w.skip(i)
        },
{
    let f = |c: char| model::is_white(c) || model::is_ascii_punctuation(c);
    lemmas::lemma_position_of(w, f, 0, w.len() as int);
    assert(words_of(w) == seq![w]);
    assert(keywords_upto(seq![w], 0) == Seq::<Seq<char>>::empty());
    assert(keywords_of(w) =~= keywords_in(w));
    if exists|i: int| 0 <= i < w.len() && '\u{4E00}' <= #[trigger] w[i] && w[i] <= '\u{9FFF}' {
        let i = choose|i: int|
            0 <= i < w.len() && '\u{4E00}' <= #[trigger] w[i] && w[i] <= '\u{9FFF}';
        assert(is_ideograph(w[i]));
    }
}

/// A keyword counts where the text has it among its own; one with Chinese characters
/// counts also where a keyword of the text begins with it.
pub proof fn law_keywords_are_met(
    query: Seq<Seq<char>>,
    k: Seq<char>,
    entry: Seq<Seq<char>>,
)
    ensures
        met_count(Seq::empty(), entry) == 0,
        entry.contains(k) ==> met_count(query.push(k), entry) == met_count(query, entry) + 1,
        (exists|i: int|
            0 <= i < k.len() && '\u{4E00}' <= #[trigger] k[i] && k[i] <= '\u{9FFF}') && (exists|
            i: int,
        |
            0 <= i < entry.len() && model::starts_with(#[trigger] entry[i], k)) ==> met_count(
            query.push(k),
            entry,
        ) == met_count(query, entry) + 1,
        (forall|i: int|
            0 <= i < entry.len() ==> !model::starts_with(#[trigger] entry[i], k)) ==> met_count(
            query.push(k),
            entry,
        ) == met_count(query, entry),
        !entry.contains(k) && (forall|i: int| 0 <= i < k.len() ==> #[trigger] k[i] < '\u{3400}')
            ==> met_count(query.push(k), entry) == met_count(query, entry),
{
    assert(query.push(k).drop_last() =~= query);
    if entry.contains(k) {
        let i = choose|i: int| 0 <= i < entry.len() && entry[i] == k;
        assert(meets(k, entry[i]));
    }
    if exists|i: int| 0 <= i < k.len() && '\u{4E00}' <= #[trigger] k[i] && k[i] <= '\u{9FFF}' {
        let i = choose|i: int|
            0 <= i < k.len() && '\u{4E00}' <= #[trigger] k[i] && k[i] <= '\u{9FFF}';
        assert(is_ideograph(k[i]));
        if exists|j: int| 0 <= j < entry.len() && model::starts_with(#[trigger] entry[j], k) {
            let j = choose|j: int|
                0 <= j < entry.len() && model::starts_with(#[trigger] entry[j], k);
            assert(meets(k, entry[j]));
        }
    }
    assert(k.take(k.len() as int) =~= k);
}

/// The trigrams of a text are its parts of three characters; a shorter text is its own
/// and only one, and the empty text has none.
pub proof fn law_trigrams_are_parts(s: Seq<char>, w: Seq<char>)
    ensures
        s.len() == 0 ==> trigrams(s) == Set::<Seq<char>>::empty(),
        0 < s.len() < 3 ==> (trigrams(s).contains(w) <==> w == s),
        s.len() >= 3 ==> (trigrams(s).contains(w) <==> exists|i: int|
            0 <= i && i + 3 <= s.len() && w == seq![#[trigger] s[i], s[i + 1], s[i + 2]]),
{
    if s.len() >= 3 {
        if trigrams(s).contains(w) {
            let i = choose|i: int| 0 <= i <= s.len() - 3 && w == #[trigger] s.subrange(i, i + 3);
            assert(w =~= seq![s[i], s[i + 1], s[i + 2]]);
        }
        if exists|i: int|
            0 <= i && i + 3 <= s.len() && w == seq![#[trigger] s[i], s[i + 1], s[i + 2]] {
            let i = choose|i: int|
                0 <= i && i + 3 <= s.len() && w == seq![#[trigger] s[i], s[i + 1], s[i + 2]];
            assert(s.subrange(i, i + 3) =~= w);
        }
    }
}

/// A text that holds the whole query matches it wholly; else each keyword of the query
/// counts that the text holds.
pub proof fn law_substrings_count(
    content: Seq<char>,
    query: Seq<char>,
    keywords: Seq<Seq<char>>,
    k: Seq<char>,
)
    requires
        keywords.len() < u64::MAX,
    ensures
        model::contains(content, query) ==> substring_share(content, query, keywords) == (Share {
            part: 1,
            whole: 1,
        }),
        !model::contains(content, query) ==> {
            let before = substring_share(content, query, keywords);
            let after = substring_share(content, query, keywords.push(k));
            &&& substring_share(content, query, Seq::empty()).part == 0
            &&& after.whole == keywords.len() + 1
            &&& after.part == before.part + if model::contains(content, k) {
                1int
            } else {
                0int
            }
        },
{
    assert(keywords.push(k).drop_last() =~= keywords);
    lemma_occurring_bound(keywords, content);
}

proof fn lemma_occurring_bound(keywords: Seq<Seq<char>>, text: Seq<char>)
    ensures
        occurring(keywords, text) <= keywords.len(),
    decreases keywords.len(),
{
    if keywords.len() > 0 {
        lemma_occurring_bound(keywords.drop_last(), text);
    }
}

/// A search finds the entries with a positive score, a search by meaning only those that
/// have an embedding, and tells of each its name, text, moment and score.
pub proof fn law_entries_are_scored(
    v: Seq<KnowledgeModel>,
    scores: Seq<i64>,
    source: SearchSource,
    n: nat,
    i: int,
)
    requires
        0 <= i < n <= v.len(),
        v.len() == scores.len(),
    ensures
        ({
            let r = ResultModel {
                id: v[i].id,
                content: v[i].content,
                score: scores[i],
                source: source,
                created_at: v[i].created_at,
            };
            scores[i] > 0 && (source is Keyword || v[i].embedding.len() > 0) && !(source is Hybrid)
                ==> scored(v, scores, source, n).contains(r)
        }),
        forall|j: int|
            0 <= j < scored(v, scores, source, n).len() ==> (#[trigger] scored(
                v,
                scores,
                source,
                n,
            )[j]).score > 0 && scored(v, scores, source, n)[j].source == source,
        scored(v, scores, source, n).len() <= n,
    decreases n,
{
    let before = scored(v, scores, source, (n - 1) as nat);
    let r = scored(v, scores, source, n);
    if i < n - 1 {
        law_entries_are_scored(v, scores, source, (n - 1) as nat, i);
        let x = result_of(v[i], scores[i], source);
        if before.contains(x) {
            let j = choose|j: int| 0 <= j < before.len() && before[j] == x;
            assert(r[j] == x);
        }
    } else {
        if n > 1 {
            law_entries_are_scored(v, scores, source, (n - 1) as nat, n - 2);
        } else {
            assert(before.len() == 0);
        }
        if r.len() > before.len() {
            assert(r[before.len() as int] == result_of(v[i], scores[i], source));
        }
    }
}

/// The best results are told from the best down, at most as many as were asked for, and
/// none that is left out has a better score.
pub proof fn law_best_results_are_kept(v: Seq<ResultModel>, k: nat)
    ensures
        ({
            let r = best_results(v, k);
            &&& r.len() == if v.len() <= k {
                v.len()
            } else {
                k
            }
            &&& forall|i: int| 0 <= i < r.len() ==> v.contains(#[trigger] r[i])
            &&& forall|i: int, j: int|
                0 <= i < j < r.len() ==> (#[trigger] r[i]).score >= (#[trigger] r[j]).score
            &&& forall|i: int, y: int|
                #![trigger r[i], v[y]]
                0 <= i < r.len() && 0 <= y < v.len() && !r.contains(v[y]) ==> r[i].score
                    >= v[y].score
        }),
{
    let keys = result_scores(v);
    rank::law_best_are_chosen(keys, k);
    let c = rank::first_of(rank::descending(keys), k);
    let r = best_results(v, k);
    assert forall|i: int| 0 <= i < r.len() implies v.contains(#[trigger] r[i]) by {
        assert(0 <= c[i] < keys.len());
        assert(r[i] == v[c[i]]);
    }
    assert forall|i: int, j: int| 0 <= i < j < r.len() implies (#[trigger] r[i]).score >= (
    #[trigger] r[j]).score by {
        assert(0 <= c[i] < keys.len() && 0 <= c[j] < keys.len());
        assert(keys[c[i]] >= keys[c[j]]);
    }
    assert forall|i: int, y: int|
        #![trigger r[i], v[y]]
        0 <= i < r.len() && 0 <= y < v.len() && !r.contains(v[y]) implies r[i].score
        >= v[y].score by {
        if c.contains(y) {
            let x = choose|x: int| 0 <= x < c.len() && c[x] == y;
            assert(r[x] == v[y]);
        }
        assert(!c.contains(y));
        assert(0 <= c[i] < keys.len());
        assert(keys[c[i]] >= keys[y]);
    }
}

/// A text that was found in both ways is told once, with the greater of its two scores,
/// as found in both; one that is new stands at the end.
pub proof fn law_results_are_merged(v: Seq<ResultModel>, r: ResultModel, p: int)
    ensures
        (forall|i: int| 0 <= i < v.len() ==> (#[trigger] v[i]).content != r.content)
            ==> merged_with(v, r) == v.push(r),
        0 <= p < v.len() && v[p].content == r.content && (forall|i: int|
            0 <= i < p ==> (#[trigger] v[i]).content != r.content) ==> {
            let w = merged_with(v, r);
            &&& w == v.update(p, w[p])
            &&& w[p].source is Hybrid
            &&& w[p].id == v[p].id && w[p].content == r.content && w[p].created_at
                == v[p].created_at
            &&& w[p].score >= v[p].score && w[p].score >= r.score
            &&& w[p].score == v[p].score || w[p].score == r.score
        },
{
    if forall|i: int| 0 <= i < v.len() ==> (#[trigger] v[i]).content != r.content {
        lemma_first_content(v, r.content, 0, v.len() as int);
    }
    if 0 <= p < v.len() && v[p].content == r.content && (forall|i: int|
        0 <= i < p ==> (#[trigger] v[i]).content != r.content) {
        lemma_first_content(v, r.content, 0, p);
    }
}

proof fn lemma_first_content(v: Seq<ResultModel>, content: Seq<char>, i: int, p: int)
    requires
        0 <= i <= p <= v.len(),
        forall|j: int| i <= j < p ==> (#[trigger] v[j]).content != content,
        p < v.len() ==> v[p].content == content,
    ensures
        content_from(v, content, i) == p,
    decreases p - i,
{
    if i < p {
        assert(v[i].content != content);
        lemma_first_content(v, content, i + 1, p);
    }
}

/// What was found by meaning weighs more than what was found by words, and what was
/// found in both ways weighs as much as both together.
pub proof fn law_both_ways_weigh_most()
    ensures
        weight_in_tenths(SearchSource::Keyword) == 3,
        weight_in_tenths(SearchSource::Vector) == 7,
        weight_in_tenths(SearchSource::Hybrid) == weight_in_tenths(SearchSource::Keyword)
            + weight_in_tenths(SearchSource::Vector),
{
}

/// A selected text gets back the result that it came from, the first with that text.
pub proof fn law_result_is_restored(v: Seq<ResultModel>, content: Seq<char>, score: i64, p: int)
    ensures
        result_with(v, content, score).content == content,
        0 <= p < v.len() && v[p].content == content && (forall|i: int|
            0 <= i < p ==> (#[trigger] v[i]).content != content) ==> result_with(v, content, score)
            == v[p],
        (forall|i: int| 0 <= i < v.len() ==> (#[trigger] v[i]).content != content)
            ==> result_with(v, content, score).score == score && result_with(
            v,
            content,
            score,
        ).source is Hybrid,
{
    lemma_content_from(v, content, 0);
    if 0 <= p < v.len() && v[p].content == content && (forall|i: int|
        0 <= i < p ==> (#[trigger] v[i]).content != content) {
        lemma_first_content(v, content, 0, p);
    }
    if forall|i: int| 0 <= i < v.len() ==> (#[trigger] v[i]).content != content {
        lemma_first_content(v, content, 0, v.len() as int);
    }
}

} // verus!
