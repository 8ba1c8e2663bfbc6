//! How the thinker is connected to a long-term memory.

use crate::memory::episodic;
use crate::memory::episodic::{EpisodicMemoryStore, MemoryType};
use crate::memory::working;
use crate::node::thinker::sensory;
use crate::outside;
use crate::text::{lemmas, model, ops};
use vstd::prelude::*;
use vstd::string::*;

verus! {

/// A long-term memory: finds what is relevant to an input, and keeps what is
/// worth keeping of a session.
pub trait MemoryBridge {
    /// Texts that are relevant to a query; none unless the memory says otherwise.
    fn search_relevant(&self, _query: &str, _top_k: usize) -> (r: Vec<String>)
        default_ensures
            r@.len() == 0,
    {
        Vec::new()
    }

    /// Keeps what is worth keeping of a session: who has said what. Does nothing
    /// unless the memory says otherwise.
    fn extract_and_store(&self, _messages: &Vec<(String, String)>) {
    }
}

/// A memory that finds and keeps nothing.
#[derive(Debug)]
pub struct NoopMemoryBridge;

impl MemoryBridge for NoopMemoryBridge {

}

/// The words that are no keywords.
#[verifier::opaque]
pub open spec fn stop_words() -> Seq<Seq<char>> {
    model::split(
        "the a an is are was were be been being have has had do does did will would could should may might shall can need dare ought used to of in for on with at by from as into through during before after above below between out off over under again further then once here there when where why how all both each few more most other some such no nor not only own same so than too very just because but and or if while about up 的 了 在 是 我 有 和 就 不 人 都 一 个 上 也 很 到 说 要 去 你 会 着 没 看 好 自 这 他 她 它 们 那"@,
        " "@,
    )
}

/// Whether a word, in lower case, is no keyword.
pub fn is_stop_word_lowered(lowered: &str) -> (r: bool)
    ensures
        r == stop_words().contains(lowered@),
{
    let list =
        "the a an is are was were be been being have has had do does did will would could should may might shall can need dare ought used to of in for on with at by from as into through during before after above below between out off over under again further then once here there when where why how all both each few more most other some such no nor not only own same so than too very just because but and or if while about up 的 了 在 是 我 有 和 就 不 人 都 一 个 上 也 很 到 说 要 去 你 会 着 没 看 好 自 这 他 她 它 们 那";
    proof {
        reveal_strlit(" ");
        reveal(stop_words);
    }
    let chars = ops::chars_of(list);
    let words = ops::split(chars.as_slice(), " ");
    let ghost all = stop_words();
    assert(all.len() == words@.len());
    let mut i: usize = 0;
    while i < words.len()
        invariant
            i <= words@.len(),
            all == stop_words(),
            all == model::slices(words@),
            forall|j: int| 0 <= j < i ==> all[j] != lowered@,
        decreases words@.len() - i,
    {
        assert(all[i as int] == words@[i as int]@);
        if ops::is_text(words[i], lowered) {
            assert(all.contains(lowered@));
            return true;
        }
        i = i + 1;
    }
    false
}

/// A text that is worth keeping.
#[derive(Debug)]
pub struct MemoryDraft {
    pub memory_type: MemoryType,
    pub content: String,
    /// Who has said it.
    pub context: String,
    pub keywords: Vec<String>,
    /// In which message it was said.
    pub message_index: usize,
}

/// What a draft holds.
#[verifier::ext_equal]
pub struct DraftModel {
    pub memory_type: MemoryType,
    pub content: Seq<char>,
    pub context: Seq<char>,
    pub keywords: Seq<Seq<char>>,
    pub message_index: int,
}

impl View for MemoryDraft {
    type V = DraftModel;

    open spec fn view(&self) -> DraftModel {
        DraftModel {
            memory_type: self.memory_type,
            content: self.content@,
            context: self.context@,
            keywords: model::texts(self.keywords@),
            message_index: self.message_index as int,
        }
    }
}

/// The drafts that a list holds.
pub open spec fn draft_models(v: Seq<MemoryDraft>) -> Seq<DraftModel> {
    v.map_values(|d: MemoryDraft| d@)
}

/// The sentences and lines of a text.
pub open spec fn sentences(text: Seq<char>) -> Seq<Seq<char>> {
    model::split_inclusive_where(text, |c: char| "\n。.！？"@.contains(c))
}

/// The first `n` sentences in groups, the last of which is still open: a group is
/// closed where the next sentence would make it too long.
pub open spec fn groups(v: Seq<Seq<char>>, max: nat, n: nat) -> Seq<Seq<char>>
    decreases n,
{
    if n == 0 {
        seq![Seq::empty()]
    } else {
        let before = groups(v, max, (n - 1) as nat);
        let open = before.last();
        if model::byte_len(open) + model::byte_len(v[n - 1]) > max && open.len() > 0 {
            before.push(v[n - 1])
        } else {
            before.drop_last().push(open + v[n - 1])
        }
    }
}

/// The groups, trimmed; the last is left out if it is blank.
pub open spec fn closed_groups(v: Seq<Seq<char>>) -> Seq<Seq<char>> {
    let trimmed = v.map_values(|s: Seq<char>| model::trim(s));
    if trimmed.len() > 0 && trimmed.last().len() == 0 {
        trimmed.drop_last()
    } else {
        trimmed
    }
}

/// A text in pieces of whole sentences.
pub open spec fn chunks_of(text: Seq<char>, max: nat) -> Seq<Seq<char>> {
    if model::byte_len(text) <= max {
        seq![text]
    } else {
        closed_groups(groups(sentences(text), max, sentences(text).len()))
    }
}

/// Whether a word is a keyword: it has more than three bytes and is no stop word.
pub open spec fn is_keyword(w: Seq<char>) -> bool {
    model::byte_len(w) > 3 && !stop_words().contains(outside::lower(w))
}

/// The first keywords of a text, ten at most, in lower case.
pub open spec fn keywords_of(text: Seq<char>) -> Seq<Seq<char>> {
    let all = model::split_whitespace(text).filter(|w: Seq<char>| is_keyword(w));
    let first = if all.len() > 10 {
        all.take(10)
    } else {
        all
    };
    first.map_values(|w: Seq<char>| outside::lower(w))
}

/// What kind of memory a message is: what the assistant has said is an episode.
pub open spec fn kind_of(role: Seq<char>) -> MemoryType {
    if role == "assistant"@ {
        MemoryType::Episodic
    } else {
        MemoryType::Semantic
    }
}

/// The drafts for the first `n` pieces of a message; pieces of less than 20 bytes
/// are passed over.
pub open spec fn piece_drafts(role: Seq<char>, pieces: Seq<Seq<char>>, index: int, n: nat) -> Seq<
    DraftModel,
>
    decreases n,
{
    if n == 0 {
        Seq::empty()
    } else {
        let before = piece_drafts(role, pieces, index, (n - 1) as nat);
        let piece = pieces[n - 1];
        if model::byte_len(piece) < 20 {
            before
        } else {
            before.push(
                DraftModel {
                    memory_type: kind_of(role),
                    content: piece,
                    context: role,
                    keywords: keywords_of(piece),
                    message_index: index,
                },
            )
        }
    }
}

/// The drafts for the first `n` messages, piece by piece.
pub open spec fn drafts(messages: Seq<(Seq<char>, Seq<char>)>, n: nat) -> Seq<DraftModel>
    decreases n,
{
    if n == 0 {
        Seq::empty()
    } else {
        let pieces = chunks_of(messages[n - 1].1, 500);
        drafts(messages, (n - 1) as nat) + piece_drafts(
            messages[n - 1].0,
            pieces,
            n - 1,
            pieces.len(),
        )
    }
}

/// The first words of a text, eight at most.
pub open spec fn first_words(text: Seq<char>) -> Seq<Seq<char>> {
    let all = model::split_whitespace(text);
    if all.len() > 8 {
        all.take(8)
    } else {
        all
    }
}

/// The drafts for the first `n` messages, one for each that has 50 bytes or more.
pub open spec fn whole_drafts(messages: Seq<(Seq<char>, Seq<char>)>, n: nat) -> Seq<DraftModel>
    decreases n,
{
    if n == 0 {
        Seq::empty()
    } else {
        let before = whole_drafts(messages, (n - 1) as nat);
        let (role, content) = messages[n - 1];
        if model::byte_len(content) < 50 {
            before
        } else {
            before.push(
                DraftModel {
                    memory_type: kind_of(role),
                    content: sensory::beginning(content, 500),
                    context: role,
                    keywords: first_words(content),
                    message_index: n - 1,
                },
            )
        }
    }
}

/// The first keywords of a text, ten at most, in lower case.
fn find_keywords(text: &str) -> (r: Vec<String>)
    ensures
        model::texts(r@) == keywords_of(text@),
{
    let chars = ops::chars_of(text);
    let words = ops::split_whitespace(chars.as_slice());
    let ghost all = model::split_whitespace(text@);
    let ghost f = |w: Seq<char>| is_keyword(w);
    let ghost g = |w: Seq<char>| outside::lower(w);
    let ghost found = all.filter(f);
    let mut out: Vec<String> = Vec::new();
    proof {
        reveal(Seq::filter);
    }
    assert(all.take(0).filter(f) =~= Seq::empty());
    assert(model::texts(out@) =~= all.take(0).filter(f).map_values(g));
    assert(all.take(all.len() as int) =~= all);
    let mut i: usize = 0;
    while i < words.len() && out.len() < 10
        invariant
            i <= words@.len(),
            all == model::slices(words@),
            f == (|w: Seq<char>| is_keyword(w)),
            g == (|w: Seq<char>| outside::lower(w)),
            out@.len() <= 10,
            model::texts(out@) == all.take(i as int).filter(f).map_values(g),
        decreases words@.len() - i,
    {
        proof {
            reveal(Seq::filter);
        }
        assert(all[i as int] == words@[i as int]@);
        assert(all.take(i + 1).drop_last() =~= all.take(i as int));
        let word = ops::string_of(words[i]);
        let lowered = outside::to_lowercase(word.as_str());
        if ops::byte_len(words[i]) > 3 && !is_stop_word_lowered(lowered.as_str()) {
            let ghost before = model::texts(out@);
            let ghost shown = lowered@;
            let ghost kept = all.take(i as int).filter(f);
            out.push(lowered);
            assert(model::texts(out@) =~= before.push(shown));
            assert(kept.push(all[i as int]).map_values(g) =~= kept.map_values(g).push(shown));
        }
        i = i + 1;
    }
    proof {
        let head = all.take(i as int);
        let rest = all.skip(i as int);
        assert(head + rest =~= all);
        Seq::filter_distributes_over_add(head, rest, f);
        assert(model::texts(out@).len() == out@.len());
        if i < words@.len() {
            assert(found.take(10) =~= head.filter(f));
            if found.len() == 10 {
                assert(found =~= head.filter(f));
            }
        } else {
            assert(rest =~= Seq::empty());
            assert(rest.filter(f) =~= Seq::empty());
            assert(found =~= head.filter(f));
        }
    }
    out
}

/// The first words of a text, eight at most.
fn find_first_words(text: &str) -> (r: Vec<String>)
    ensures
        model::texts(r@) == first_words(text@),
{
    let chars = ops::chars_of(text);
    let words = ops::split_whitespace(chars.as_slice());
    let ghost all = model::split_whitespace(text@);
    assert(all.len() == words@.len());
    let mut out: Vec<String> = Vec::new();
    let mut i: usize = 0;
    while i < words.len() && i < 8
        invariant
            i <= words@.len(),
            i <= 8,
            all == model::slices(words@),
            out@.len() == i,
            forall|j: int| 0 <= j < i ==> (#[trigger] out@[j])@ == all[j],
        decreases words@.len() - i,
    {
        assert(all[i as int] == words@[i as int]@);
        out.push(ops::string_of(words[i]));
        i = i + 1;
    }
    assert(model::texts(out@) =~= first_words(text@));
    out
}

/// What kind of memory a message is.
fn memory_kind(role: &str) -> (r: MemoryType)
    ensures
        r == kind_of(role@),
{
    if ops::same_text(role, "assistant") {
        MemoryType::Episodic
    } else {
        MemoryType::Semantic
    }
}

/// A long-term memory of episodes.
#[derive(Debug)]
pub struct EpisodicMemoryBridge {
    /// The memories.
    pub store: EpisodicMemoryStore,
}

impl EpisodicMemoryBridge {
    /// A bridge to a memory.
    pub fn new(store: EpisodicMemoryStore) -> (r: Self)
        ensures
            r.store == store,
    {
        EpisodicMemoryBridge { store }
    }

    /// Texts that are relevant to a query: what the related memories say
    /// together, if they say anything. `scores` says how related each memory is.
    pub fn search_relevant(&self, scores: &Vec<i64>, top_k: usize) -> (r: Vec<String>)
        requires
            self.store.wf(),
            scores@.len() == self.store@.order.len(),
        ensures
            ({
                let said = episodic::reconstructed(self.store@, scores@, top_k as nat);
                model::texts(r@) == if said.len() == 0 {
                    Seq::<Seq<char>>::empty()
                } else {
                    seq![said]
                }
            }),
    {
        let context = self.store.reconstruct_context(scores, top_k);
        let mut out: Vec<String> = Vec::new();
        let ghost said = context@;
        if !ops::is_empty(context.as_str()) {
            out.push(context);
            assert(model::texts(out@) =~= seq![said]);
        } else {
            assert(model::texts(out@) =~= Seq::empty());
        }
        out
    }

    /// Whether a word is no keyword.
    pub fn is_stop_word(w: &str) -> (r: bool)
        ensures
            r == stop_words().contains(outside::lower(w@)),
    {
        let lowered = outside::to_lowercase(w);
        is_stop_word_lowered(lowered.as_str())
    }

    /// A text in pieces of whole sentences, of at most the given number of bytes
    /// unless a single sentence has more.
    pub fn semantic_chunks(text: &str, max_chunk: usize) -> (r: Vec<String>)
        ensures
            model::texts(r@) == chunks_of(text@, max_chunk as nat),
    {
        if ops::text_byte_len(text) <= max_chunk {
            let mut whole: Vec<String> = Vec::new();
            whole.push(String::from_str(text));
            assert(model::texts(whole@) =~= seq![text@]);
            return whole;
        }
        let chars = ops::chars_of(text);
        let pieces = ops::split_inclusive_any(chars.as_slice(), "\n。.！？");
        let ghost max = max_chunk as nat;
        let ghost all = sentences(text@);
        let ghost f = |c: char| "\n。.！？"@.contains(c);
        let ghost trimmed = |s: Seq<char>| model::trim(s);
        assert(all.len() == pieces@.len());
        let mut out: Vec<String> = Vec::new();
        let mut current = String::new();
        assert(current@ =~= Seq::empty());
        assert(model::texts(out@) =~= groups(all, max, 0).drop_last().map_values(trimmed));
        let mut i: usize = 0;
        while i < pieces.len()
            invariant
                i <= pieces@.len(),
                max == max_chunk,
                all == model::slices(pieces@),
                trimmed == (|s: Seq<char>| model::trim(s)),
                groups(all, max, i as nat).len() > 0,
                current@ == groups(all, max, i as nat).last(),
                model::texts(out@) == groups(all, max, i as nat).drop_last().map_values(trimmed),
            decreases pieces@.len() - i,
        {
            let ghost before = groups(all, max, i as nat);
            let ghost said = model::texts(out@);
            assert(all[i as int] == pieces@[i as int]@);
            let a: usize = ops::text_byte_len(current.as_str());
            let b: usize = ops::byte_len(pieces[i]);
            let too_long = a > max_chunk || b > max_chunk - a;
            if too_long && !ops::is_empty(current.as_str()) {
                let group = ops::chars_of(current.as_str());
                let item = ops::string_of(ops::trim(group.as_slice()));
                let ghost shown = item@;
                out.push(item);
                current = ops::string_of(pieces[i]);
                proof {
                    assert(model::texts(out@) =~= said.push(shown));
                    assert(before.push(all[i as int]).drop_last() =~= before);
                    assert(before.map_values(trimmed) =~= before.drop_last().map_values(
                        trimmed,
                    ).push(shown));
                }
            } else {
                let mut longer = current.clone();
                ops::push_chars(&mut longer, pieces[i]);
                current = longer;
                proof {
                    assert(before.drop_last().push(before.last() + all[i as int]).drop_last()
                        =~= before.drop_last());
                }
            }
            i = i + 1;
        }
        let ghost end = groups(all, max, all.len());
        let group = ops::chars_of(current.as_str());
        let rest = ops::trim(group.as_slice());
        let ghost said = model::texts(out@);
        let ghost shown = rest@;
        proof {
            assert(end.map_values(trimmed) =~= said.push(shown));
            assert(said.push(shown).drop_last() =~= said);
        }
        if rest.len() > 0 {
            out.push(ops::string_of(rest));
            assert(model::texts(out@) =~= said.push(shown));
        }
        out
    }

    /// What is worth keeping of a session, piece by piece.
    pub fn extract_and_store(messages: &Vec<(String, String)>) -> (r: Vec<MemoryDraft>)
        ensures
            draft_models(r@) == drafts(working::text_pairs(messages@), messages@.len()),
    {
        let ghost all = working::text_pairs(messages@);
        let mut out: Vec<MemoryDraft> = Vec::new();
        assert(draft_models(out@) =~= Seq::empty());
        let mut i: usize = 0;
        while i < messages.len()
            invariant
                i <= messages@.len(),
                all == working::text_pairs(messages@),
                draft_models(out@) == drafts(all, i as nat),
            decreases messages@.len() - i,
        {
            assert(all[i as int] == (messages@[i as int].0@, messages@[i as int].1@));
            let role = messages[i].0.as_str();
            let pieces = EpisodicMemoryBridge::semantic_chunks(messages[i].1.as_str(), 500);
            let ghost before = drafts(all, i as nat);
            let ghost texts = model::texts(pieces@);
            assert(texts.len() == pieces@.len());
            assert(before + piece_drafts(role@, texts, i as int, 0) =~= before);
            let mut j: usize = 0;
            while j < pieces.len()
                invariant
                    j <= pieces@.len(),
                    texts == model::texts(pieces@),
                    draft_models(out@) == before + piece_drafts(role@, texts, i as int, j as nat),
                decreases pieces@.len() - j,
            {
                assert(texts[j as int] == pieces@[j as int]@);
                let piece = pieces[j].as_str();
                if ops::text_byte_len(piece) >= 20 {
                    let draft = MemoryDraft {
                        memory_type: memory_kind(role),
                        content: pieces[j].clone(),
                        context: String::from_str(role),
                        keywords: find_keywords(piece),
                        message_index: i,
                    };
                    let ghost held = draft_models(out@);
                    let ghost shown = draft@;
                    out.push(draft);
                    assert(draft_models(out@) =~= held.push(shown));
                    assert(before + piece_drafts(role@, texts, i as int, j as nat).push(shown)
                        =~= (before + piece_drafts(role@, texts, i as int, j as nat)).push(shown));
                }
                j = j + 1;
            }
            i = i + 1;
        }
        out
    }

    /// What is worth keeping of a session, message by message.
    pub fn extract_messages(messages: &Vec<(String, String)>) -> (r: Vec<MemoryDraft>)
        ensures
            draft_models(r@) == whole_drafts(working::text_pairs(messages@), messages@.len()),
    {
        let ghost all = working::text_pairs(messages@);
        let mut out: Vec<MemoryDraft> = Vec::new();
        assert(draft_models(out@) =~= Seq::empty());
        let mut i: usize = 0;
        while i < messages.len()
            invariant
                i <= messages@.len(),
                all == working::text_pairs(messages@),
                draft_models(out@) == whole_drafts(all, i as nat),
            decreases messages@.len() - i,
        {
            assert(all[i as int] == (messages@[i as int].0@, messages@[i as int].1@));
            let role = messages[i].0.as_str();
            let content = messages[i].1.as_str();
            if ops::text_byte_len(content) >= 50 {
                let draft = MemoryDraft {
                    memory_type: memory_kind(role),
                    content: sensory::begin(content, 500),
                    context: String::from_str(role),
                    keywords: find_first_words(content),
                    message_index: i,
                };
                let ghost held = draft_models(out@);
                let ghost shown = draft@;
                out.push(draft);
                assert(draft_models(out@) =~= held.push(shown));
            }
            i = i + 1;
        }
        out
    }
}

/// The texts one after another.
pub open spec fn together(v: Seq<Seq<char>>) -> Seq<char>
    decreases v.len(),
{
    if v.len() == 0 {
        Seq::empty()
    } else {
        together(v.drop_last()) + v.last()
    }
}

proof fn lemma_together_push(v: Seq<Seq<char>>, s: Seq<char>)
    ensures
        together(v.push(s)) == together(v) + s,
{
    assert(v.push(s).drop_last() =~= v);
}

proof fn lemma_together_cons(a: Seq<char>, v: Seq<Seq<char>>)
    ensures
        together(seq![a] + v) == a + together(v),
    decreases v.len(),
{
    if v.len() == 0 {
        reveal_with_fuel(together, 2);
        assert((seq![a] + v).drop_last() =~= Seq::empty());
        assert((seq![a] + v).last() == a);
        assert(together(seq![a] + v) =~= a + together(v));
    } else {
        assert((seq![a] + v).drop_last() =~= seq![a] + v.drop_last());
        lemma_together_cons(a, v.drop_last());
        assert(together(seq![a] + v) =~= a + together(v));
    }
}

proof fn lemma_sentences(s: Seq<char>, f: spec_fn(char) -> bool)
    ensures
        together(model::split_inclusive_where(s, f)) == s,
    decreases s.len(),
{
    let i = model::position_from(s, f, 0);
    if s.len() > 0 {
        lemmas::lemma_position_bound(s, f, 0);
        if i < s.len() {
            lemma_sentences(s.skip(i + 1), f);
            lemma_together_cons(s.take(i + 1), model::split_inclusive_where(s.skip(i + 1), f));
            assert(s.take(i + 1) + s.skip(i + 1) =~= s);
        } else {
            lemma_together_cons(s, Seq::empty());
            assert(seq![s] + Seq::<Seq<char>>::empty() =~= seq![s]);
            assert(s + Seq::<char>::empty() =~= s);
        }
    }
}

proof fn lemma_groups(v: Seq<Seq<char>>, max: nat, n: nat)
    requires
        n <= v.len(),
    ensures
        groups(v, max, n).len() > 0,
        together(groups(v, max, n)) == together(v.take(n as int)),
        forall|i: int|
            0 <= i < groups(v, max, n).len() ==> model::byte_len(
                #[trigger] groups(v, max, n)[i],
            ) <= max || v.contains(groups(v, max, n)[i]),
    decreases n,
{
    if n == 0 {
        reveal_with_fuel(together, 2);
        reveal_with_fuel(model::byte_len, 2);
        assert(v.take(0) =~= Seq::empty());
        assert(together(groups(v, max, 0)) =~= Seq::empty());
    } else {
        lemma_groups(v, max, (n - 1) as nat);
        let before = groups(v, max, (n - 1) as nat);
        let open = before.last();
        let next = v[n - 1];
        let now = groups(v, max, n);
        assert(v.take(n as int).drop_last() =~= v.take(n - 1));
        assert(v.contains(next));
        if model::byte_len(open) + model::byte_len(next) > max && open.len() > 0 {
            lemma_together_push(before, next);
            assert forall|i: int| 0 <= i < now.len() implies model::byte_len(#[trigger] now[i])
                <= max || v.contains(now[i]) by {
                if i < before.len() {
                    assert(now[i] == before[i]);
                }
            }
        } else {
            lemma_together_push(before.drop_last(), open + next);
            assert(together(now) =~= together(before) + next);
            lemmas::lemma_byte_len_concat(open, next);
            if open.len() == 0 {
                assert(open + next =~= next);
            }
            assert forall|i: int| 0 <= i < now.len() implies model::byte_len(#[trigger] now[i])
                <= max || v.contains(now[i]) by {
                if i < before.len() - 1 {
                    assert(now[i] == before[i]);
                } else {
                    assert(now[i] == open + next);
                }
            }
        }
    }
}

/// A text is divided between sentences only: the groups make up the text, and a
/// group that is longer than it may be is a single sentence.
pub proof fn law_sentences_stay_whole(text: Seq<char>, max: nat)
    ensures
        ({
            let v = groups(sentences(text), max, sentences(text).len());
            &&& together(v) == text
            &&& forall|i: int|
                0 <= i < v.len() ==> model::byte_len(#[trigger] v[i]) <= max || sentences(
                    text,
                ).contains(v[i])
        }),
{
    let f = |c: char| "\n。.！？"@.contains(c);
    let v = sentences(text);
    lemma_sentences(text, f);
    lemma_groups(v, max, v.len());
    assert(v.take(v.len() as int) =~= v);
}

/// A text that is short enough is one piece. The pieces of a longer one are its groups of
/// sentences without the white space at their ends, and a last group of nothing else is
/// left out.
pub proof fn law_pieces_are_groups_of_sentences(text: Seq<char>, max: nat, i: int)
    ensures
        model::byte_len(text) <= max ==> chunks_of(text, max) == seq![text],
        model::byte_len(text) > max ==> {
            let v = groups(sentences(text), max, sentences(text).len());
            let r = chunks_of(text, max);
            &&& v.len() > 0 && model::trim(v.last()).len() == 0 ==> r.len() == v.len() - 1
            &&& v.len() > 0 && model::trim(v.last()).len() > 0 ==> r.len() == v.len()
            &&& 0 <= i < r.len() ==> r[i] == model::trim(v[i])
        },
{
}

/// A sentence joins the open group as long as both fit together; else it opens a group of
/// its own.
pub proof fn law_sentences_are_grouped(v: Seq<Seq<char>>, max: nat, n: nat)
    requires
        0 < n <= v.len(),
    ensures
        groups(v, max, 0) == seq![Seq::<char>::empty()],
        ({
            let before = groups(v, max, (n - 1) as nat);
            let after = groups(v, max, n);
            let fits = model::byte_len(before.last() + v[n - 1]) <= max;
            &&& fits || before.last().len() == 0 ==> after == before.drop_last().push(
                before.last() + v[n - 1],
            )
            &&& !fits && before.last().len() > 0 ==> after == before.push(v[n - 1])
        }),
{
    lemmas::lemma_byte_len_concat(groups(v, max, (n - 1) as nat).last(), v[n - 1]);
}

/// The keywords of a text are its first ten words, in small letters, of more than three
/// bytes that are no stop words.
pub proof fn law_keywords_are_the_first_words(text: Seq<char>, i: int)
    ensures
        ({
            let r = keywords_of(text);
            let all = model::split_whitespace(text).filter(
                |w: Seq<char>| model::byte_len(w) > 3 && !stop_words().contains(outside::lower(w)),
            );
            &&& r.len() == if all.len() <= 10 {
                all.len()
            } else {
                10
            }
            &&& 0 <= i < r.len() ==> r[i] == outside::lower(all[i])
        }),
{
    let f = |w: Seq<char>| is_keyword(w);
    let g = |w: Seq<char>|
        model::byte_len(w) > 3 && !stop_words().contains(outside::lower(w));
    assert(f =~= g);
}

/// What an assistant says is remembered as what has happened, and what others say as
/// knowledge.
pub proof fn law_roles_tell_the_kind(role: Seq<char>)
    ensures
        role == "assistant"@ ==> kind_of(role) is Episodic,
        role != "assistant"@ ==> kind_of(role) is Semantic,
{
}

/// A piece of at least twenty bytes becomes a memory with its words, its role and the
/// place of its message; a shorter one is left out.
pub proof fn law_pieces_become_memories(
    role: Seq<char>,
    pieces: Seq<Seq<char>>,
    index: int,
    n: nat,
)
    requires
        0 < n <= pieces.len(),
    ensures
        piece_drafts(role, pieces, index, 0).len() == 0,
        model::byte_len(pieces[n - 1]) < 20 ==> piece_drafts(role, pieces, index, n)
            == piece_drafts(role, pieces, index, (n - 1) as nat),
        model::byte_len(pieces[n - 1]) >= 20 ==> {
            let r = piece_drafts(role, pieces, index, n);
            &&& r.len() == piece_drafts(role, pieces, index, (n - 1) as nat).len() + 1
            &&& r.drop_last() == piece_drafts(role, pieces, index, (n - 1) as nat)
            &&& r.last().content == pieces[n - 1]
            &&& r.last().context == role
            &&& r.last().memory_type == kind_of(role)
            &&& r.last().keywords == keywords_of(pieces[n - 1])
            &&& r.last().message_index == index
        },
{
    if model::byte_len(pieces[n - 1]) >= 20 {
        assert(piece_drafts(role, pieces, index, n).drop_last() =~= piece_drafts(
            role,
            pieces,
            index,
            (n - 1) as nat,
        ));
    }
}

/// Every message gives the memories of its pieces of at most five hundred bytes, after
/// those of the messages before it.
pub proof fn law_messages_become_memories(messages: Seq<(Seq<char>, Seq<char>)>, n: nat)
    requires
        0 < n <= messages.len(),
    ensures
        drafts(messages, 0).len() == 0,
        drafts(messages, n) == drafts(messages, (n - 1) as nat) + piece_drafts(
            messages[n - 1].0,
            chunks_of(messages[n - 1].1, 500),
            n - 1,
            chunks_of(messages[n - 1].1, 500).len(),
        ),
{
}

/// Taken whole, a message of at least fifty bytes becomes one memory: its first
/// five hundred characters, with its first eight words.
pub proof fn law_whole_messages_become_memories(messages: Seq<(Seq<char>, Seq<char>)>, n: nat)
    requires
        0 < n <= messages.len(),
    ensures
        ({
            let (role, content) = messages[n - 1];
            let before = whole_drafts(messages, (n - 1) as nat);
            let r = whole_drafts(messages, n);
            let words = model::split_whitespace(content);
            &&& whole_drafts(messages, 0).len() == 0
            &&& model::byte_len(content) < 50 ==> r == before
            &&& model::byte_len(content) >= 50 ==> {
                &&& r.len() == before.len() + 1
                &&& r.drop_last() == before
                &&& r.last().content == content.take(
                    if content.len() <= 500 {
                        content.len() as int
                    } else {
                        500
                    },
                )
                &&& r.last().context == role
                &&& r.last().memory_type == kind_of(role)
                &&& r.last().keywords == words.take(
                    if words.len() <= 8 {
                        words.len() as int
                    } else {
                        8
                    },
                )
                &&& r.last().message_index == n - 1
            }
        }),
{
    let content = messages[n - 1].1;
    let words = model::split_whitespace(content);
    assert(content.take(content.len() as int) =~= content);
    assert(words.take(words.len() as int) =~= words);
    if model::byte_len(content) >= 50 {
        assert(whole_drafts(messages, n).drop_last() =~= whole_drafts(messages, (n - 1) as nat));
    }
}

} // verus!
