//! Recall: bringing cold memories back.

use crate::memory::long_term;
use crate::memory::long_term::{KnowledgeEntry, KnowledgeModel};
use crate::memory::rank;
use crate::memory::short_term;
use crate::memory::short_term::{MessageModel, ShortTermMemory, ShortTermModel};
use vstd::prelude::*;
use vstd::string::*;

verus! {

/// What is to be recalled.
#[derive(Debug)]
pub struct RecallRequest {
    /// The query.
    pub query: String,
    /// The query's embedding, each component as the bit pattern of a
    /// single-precision number.
    pub query_embedding: Vec<u32>,
    /// How many entries are wanted at most.
    pub top_k: usize,
    /// Whether long-term memory is searched too.
    pub include_long_term: bool,
}

/// Where recalled entries come from.
#[derive(Debug, Clone, Copy, PartialEq, Eq, Structural)]
pub enum RecallSource {
    /// Short-term memory.
    ShortTerm,
    /// Long-term memory.
    LongTerm,
}

/// A recalled entry.
#[derive(Debug)]
pub struct RecalledEntry {
    /// Names the entry.
    pub id: String,
    /// Who the message is from.
    pub role: String,
    /// The text.
    pub content: String,
    /// The turn of the conversation, of an entry of short-term memory.
    pub turn: Option<u32>,
    /// The similarity, by an integer that is ordered as the similarities are.
    pub score: i64,
}

/// What a recalled entry holds.
#[verifier::ext_equal]
pub struct RecalledModel {
    pub id: Seq<char>,
    pub role: Seq<char>,
    pub content: Seq<char>,
    pub turn: Option<u32>,
    pub score: i64,
}

impl View for RecalledEntry {
    type V = RecalledModel;

    open spec fn view(&self) -> RecalledModel {
        RecalledModel {
            id: self.id@,
            role: self.role@,
            content: self.content@,
            turn: self.turn,
            score: self.score,
        }
    }
}

/// The recalled entries that a list holds.
pub open spec fn recalled_models(v: Seq<RecalledEntry>) -> Seq<RecalledModel> {
    v.map_values(|e: RecalledEntry| e@)
}

/// What was recalled.
#[derive(Debug)]
pub struct RecallResult {
    /// The entries.
    pub entries: Vec<RecalledEntry>,
    /// Where they come from.
    pub source: RecallSource,
}

/// A message as a recalled entry.
pub open spec fn from_message(m: MessageModel, score: i64) -> RecalledModel {
    RecalledModel {
        id: m.id,
        role: m.role,
        content: m.content,
        turn: Some(m.turn),
        score: score,
    }
}

/// A piece of knowledge as a recalled entry.
pub open spec fn from_knowledge(k: KnowledgeModel) -> RecalledModel {
    RecalledModel {
        id: k.id,
        role: "system"@,
        content: k.content,
        turn: None,
        score: 0,
    }
}

/// The entries recalled from short-term memory.
pub open spec fn from_short_term(
    m: ShortTermModel,
    query_len: nat,
    scores: Seq<i64>,
    k: nat,
) -> Seq<RecalledModel> {
    if query_len == 0 {
        Seq::empty()
    } else {
        short_term::best_places(m.entries, scores, k).map_values(
            |p: int| from_message(m.entries[p], scores[p]),
        )
    }
}

/// Everything that is recalled: first from short-term memory, then from long-term
/// memory if that is wanted.
pub open spec fn recalled(
    m: ShortTermModel,
    query_len: nat,
    scores: Seq<i64>,
    k: nat,
    include_long_term: bool,
    knowledge: Seq<KnowledgeModel>,
) -> Seq<RecalledModel> {
    from_short_term(m, query_len, scores, k) + if include_long_term {
        knowledge.map_values(|e: KnowledgeModel| from_knowledge(e))
    } else {
        Seq::empty()
    }
}

/// The entries after the first one of a name was recalled once more.
pub open spec fn marked(v: Seq<MessageModel>, id: Seq<char>) -> Seq<MessageModel> {
    let i = short_term::slot_of(v, id);
    if i < v.len() {
        v.update(i, short_term::recalled(v[i]))
    } else {
        v
    }
}

/// The entries after recalls were counted.
pub open spec fn marked_all(v: Seq<MessageModel>, r: Seq<RecalledModel>) -> Seq<MessageModel>
    decreases r.len(),
{
    if r.len() == 0 {
        v
    } else {
        marked(marked_all(v, r.drop_last()), r.last().id)
    }
}

/// Every entry can be recalled `n` more times.
pub open spec fn countable(v: Seq<MessageModel>, n: nat) -> bool {
    forall|i: int| 0 <= i < v.len() ==> (#[trigger] v[i]).recall_count + n <= u32::MAX
}

proof fn lemma_marked(v: Seq<MessageModel>, id: Seq<char>, n: nat)
    requires
        countable(v, n + 1),
    ensures
        countable(marked(v, id), n),
        marked(v, id).len() == v.len(),
        short_term::slot_of(v, id) < v.len() ==> v[short_term::slot_of(v, id)].recall_count < u32::MAX,
{
    lemma_slot(v, id, 0);
    let w = marked(v, id);
    assert forall|i: int| 0 <= i < w.len() implies (#[trigger] w[i]).recall_count + n
        <= u32::MAX by {
        assert(v[i].recall_count + n + 1 <= u32::MAX);
    }
}

proof fn lemma_slot(v: Seq<MessageModel>, id: Seq<char>, i: int)
    requires
        0 <= i <= v.len(),
    ensures
        i <= short_term::slot_from(v, id, i) <= v.len(),
    decreases v.len() - i,
{
    if i < v.len() && v[i].id != id {
        lemma_slot(v, id, i + 1);
    }
}

/// Recalls what answers a request, and counts the recalls. `scores` holds the
/// similarity of each message to the query; `knowledge` is what a search of
/// long-term memory has found, and is empty where there is no such memory.
pub fn recall(
    request: &RecallRequest,
    memory: &mut ShortTermMemory,
    scores: &Vec<i64>,
    knowledge: &Vec<KnowledgeEntry>,
) -> (r: RecallResult)
    requires
        scores@.len() == old(memory)@.entries.len(),
        countable(old(memory)@.entries, old(memory)@.entries.len() + knowledge@.len()),
    ensures
        r.source == RecallSource::ShortTerm,
        recalled_models(r.entries@) == recalled(
            old(memory)@,
            request.query_embedding@.len(),
            scores@,
            request.top_k as nat,
            request.include_long_term,
            long_term::knowledge_models(knowledge@),
        ),
        final(memory)@.current_turn == old(memory)@.current_turn,
        final(memory)@.entries == marked_all(old(memory)@.entries, recalled_models(r.entries@)),
{
    let ghost before = memory@;
    let mut entries = recall_messages(
        memory,
        request.query_embedding.as_slice(),
        scores,
        request.top_k,
    );
    let ghost first = recalled_models(entries@);
    let ghost all = long_term::knowledge_models(knowledge@);
    if request.include_long_term {
        let ghost wanted = all.map_values(|e: KnowledgeModel| from_knowledge(e));
        let mut i: usize = 0;
        assert(first + wanted.take(0) =~= first);
        while i < knowledge.len()
            invariant
                i <= knowledge@.len(),
                all == long_term::knowledge_models(knowledge@),
                wanted == all.map_values(|e: KnowledgeModel| from_knowledge(e)),
                recalled_models(entries@) == first + wanted.take(i as int),
            decreases knowledge@.len() - i,
        {
            assert(all[i as int] == knowledge@[i as int]@);
            let ghost earlier = recalled_models(entries@);
            let item = RecalledEntry {
                id: knowledge[i].id.clone(),
                role: String::from_str("system"),
                content: knowledge[i].content.clone(),
                turn: None,
                score: 0,
            };
            let ghost shown = item@;
            entries.push(item);
            assert(recalled_models(entries@) =~= earlier.push(shown));
            assert(first + wanted.take(i + 1) =~= (first + wanted.take(i as int)).push(shown));
            i = i + 1;
        }
        assert(wanted.take(wanted.len() as int) =~= wanted);
    } else {
        assert(first + Seq::<RecalledModel>::empty() =~= first);
    }
    let ghost found = recalled_models(entries@);
    let ghost room = before.entries.len() + knowledge@.len();
    let mut j: usize = 0;
    assert(found.take(0) =~= Seq::empty());
    while j < entries.len()
        invariant
            j <= entries@.len(),
            entries@.len() <= room,
            found == recalled_models(entries@),
            memory@.current_turn == before.current_turn,
            memory@.entries == marked_all(before.entries, found.take(j as int)),
            countable(memory@.entries, (room - j) as nat),
        decreases entries@.len() - j,
    {
        assert(found.take(j + 1).drop_last() =~= found.take(j as int));
        assert(found.take(j + 1).last() == entries@[j as int]@);
        proof {
            lemma_marked(memory@.entries, entries@[j as int].id@, (room - j - 1) as nat);
        }
        memory.mark_recalled(entries[j].id.as_str());
        j = j + 1;
    }
    assert(found.take(found.len() as int) =~= found);
    RecallResult { entries, source: RecallSource::ShortTerm }
}

/// The entries recalled from short-term memory.
fn recall_messages(
    memory: &ShortTermMemory,
    query_embedding: &[u32],
    scores: &Vec<i64>,
    top_k: usize,
) -> (r: Vec<RecalledEntry>)
    requires
        scores@.len() == memory@.entries.len(),
    ensures
        recalled_models(r@) == from_short_term(
            memory@,
            query_embedding@.len(),
            scores@,
            top_k as nat,
        ),
        r@.len() <= memory@.entries.len(),
{
    let mut out: Vec<RecalledEntry> = Vec::new();
    let ghost all = from_short_term(memory@, query_embedding@.len(), scores@, top_k as nat);
    let places = memory.search_places(query_embedding, scores, top_k);
    let ghost ranked = rank::positions(places@);
    assert(ranked.len() == places@.len());
    assert(all =~= ranked.map_values(
        |p: int| from_message(memory@.entries[p], scores@[p]),
    ));
    assert forall|k: int| 0 <= k < places@.len() implies #[trigger] all[k] == from_message(
        memory@.entries[places@[k] as int],
        scores@[places@[k] as int],
    ) by {
        assert(ranked[k] == places@[k] as int);
    }
    assert(recalled_models(out@) =~= all.take(0));
    let mut i: usize = 0;
    while i < places.len()
        invariant
            i <= places@.len(),
            places@.len() <= memory.entries@.len(),
            all.len() == places@.len(),
            scores@.len() == memory.entries@.len(),
            forall|k: int|
                0 <= k < places@.len() ==> (#[trigger] places@[k]) < memory.entries@.len(),
            forall|k: int|
                0 <= k < places@.len() ==> #[trigger] all[k] == from_message(
                    memory@.entries[places@[k] as int],
                    scores@[places@[k] as int],
                ),
            recalled_models(out@) == all.take(i as int),
            out@.len() == i,
        decreases places@.len() - i,
    {
        let ghost before = out@;
        let p: usize = places[i];
        let e = &memory.entries[p];
        assert(memory@.entries[p as int] == e@);
        let item = RecalledEntry {
            id: e.id.clone(),
            role: e.role.clone(),
            content: e.content.clone(),
            turn: Some(e.turn),
            score: scores[p],
        };
        let ghost shown = item@;
        out.push(item);
        assert(recalled_models(out@) =~= recalled_models(before).push(shown));
        assert(all[i as int] == shown);
        assert(all.take(i + 1) =~= all.take(i as int).push(shown));
        i = i + 1;
    }
    assert(all.take(all.len() as int) =~= all);
    out
}

/// A recall tells the messages that the search found, each with its name, role, text,
/// turn and score, and after them, where asked for, all that is known, as system
/// messages; without a query it finds no message.
pub proof fn law_recall_tells_what_was_found(
    m: ShortTermModel,
    query_len: nat,
    scores: Seq<i64>,
    k: nat,
    include_long_term: bool,
    knowledge: Seq<KnowledgeModel>,
)
    ensures
        ({
            let places = short_term::best_places(m.entries, scores, k);
            let n = if query_len == 0 {
                0
            } else {
                places.len()
            };
            let r = recalled(m, query_len, scores, k, include_long_term, knowledge);
            &&& r.len() == if include_long_term {
                n + knowledge.len()
            } else {
                n
            }
            &&& forall|i: int|
                0 <= i < n ==> {
                    let e = m.entries[places[i]];
                    &&& (#[trigger] r[i]).id == e.id
                    &&& r[i].role == e.role
                    &&& r[i].content == e.content
                    &&& r[i].turn == Some(e.turn)
                    &&& r[i].score == scores[places[i]]
                }
            &&& forall|j: int|
                include_long_term && 0 <= j < knowledge.len() ==> {
                    let e = r[n + j];
                    &&& e.id == (#[trigger] knowledge[j]).id
                    &&& e.role == "system"@
                    &&& e.content == knowledge[j].content
                    &&& e.turn is None
                    &&& e.score == 0
                }
        }),
{
}

/// A recalled message is counted once for each time that it was told; nothing else of it
/// changes, and the other messages stay as they are.
pub proof fn law_recalled_messages_are_counted(
    v: Seq<MessageModel>,
    r: Seq<RecalledModel>,
    i: int,
)
    requires
        0 <= i < v.len(),
        countable(v, r.len()),
        forall|a: int, b: int|
            0 <= a < b < v.len() ==> (#[trigger] v[a]).id != (#[trigger] v[b]).id,
    ensures
        marked_all(v, r).len() == v.len(),
        marked_all(v, r)[i] == (MessageModel {
            recall_count: (v[i].recall_count + times_told(r, v[i].id)) as u32,
            ..v[i]
        }),
        times_told(r, v[i].id) <= r.len(),
    decreases r.len(),
{
    if r.len() > 0 {
        let before = marked_all(v, r.drop_last());
        assert(countable(v, r.drop_last().len()));
        assert forall|a: int| 0 <= a < v.len() implies before.len() == v.len()
            && #[trigger] before[a].id == v[a].id by {
            law_recalled_messages_are_counted(v, r.drop_last(), a);
        }
        law_recalled_messages_are_counted(v, r.drop_last(), i);
        short_term::law_slot_is_the_first(before, r.last().id);
        let p = short_term::slot_of(before, r.last().id);
        assert(before[i].id == v[i].id);
        if p < v.len() {
            assert(before[p].id == v[p].id);
            if r.last().id == v[i].id && p != i {
                assert(v[p].id == v[i].id);
            }
        }
    }
}

/// How often a name is told.
pub open spec fn times_told(r: Seq<RecalledModel>, id: Seq<char>) -> nat
    decreases r.len(),
{
    if r.len() == 0 {
        0
    } else {
        times_told(r.drop_last(), id) + if r.last().id == id {
            1nat
        } else {
            0nat
        }
    }
}

} // verus!
