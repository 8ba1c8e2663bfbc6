//! Short-term memory: every message of the session, none of which is dropped.

use crate::memory::rank;
use crate::outside;
use crate::text::{model, ops};
use vstd::prelude::*;

verus! {

/// A message of the session.
#[derive(Debug)]
pub struct ShortTermEntry {
    /// Names the entry.
    pub id: String,
    /// The turn of the conversation.
    pub turn: u32,
    /// Who the message is from.
    pub role: String,
    /// The full text.
    pub content: String,
    /// The embedding, each component as the bit pattern of a single-precision
    /// number.
    pub embedding: Vec<u32>,
    /// How many tokens the message takes.
    pub token_count: u32,
    /// Whether the message belongs to a tool call.
    pub is_tool_call: bool,
    /// The tool that was called, where it is known.
    pub tool_name: Option<String>,
    /// How often the entry was recalled.
    pub recall_count: u32,
}

/// What an entry holds.
#[verifier::ext_equal]
pub struct MessageModel {
    pub id: Seq<char>,
    pub turn: u32,
    pub role: Seq<char>,
    pub content: Seq<char>,
    pub embedding: Seq<u32>,
    pub token_count: u32,
    pub is_tool_call: bool,
    pub tool_name: Option<Seq<char>>,
    pub recall_count: u32,
}

impl View for ShortTermEntry {
    type V = MessageModel;

    open spec fn view(&self) -> MessageModel {
        MessageModel {
            id: self.id@,
            turn: self.turn,
            role: self.role@,
            content: self.content@,
            embedding: self.embedding@,
            token_count: self.token_count,
            is_tool_call: self.is_tool_call,
            tool_name: model::opt_text(self.tool_name),
            recall_count: self.recall_count,
        }
    }
}

/// The entries that a list holds.
pub open spec fn message_models(v: Seq<ShortTermEntry>) -> Seq<MessageModel> {
    v.map_values(|e: ShortTermEntry| e@)
}

/// The entries that a list of references shows.
pub open spec fn shown_models(v: Seq<&ShortTermEntry>) -> Seq<MessageModel> {
    v.map_values(|e: &ShortTermEntry| e@)
}

/// The first entry named `id` at place `i` or later; the length where there is
/// none.
pub open spec fn slot_from(v: Seq<MessageModel>, id: Seq<char>, i: int) -> int
    decreases v.len() - i,
{
    if i >= v.len() {
        v.len() as int
    } else if v[i].id == id {
        i
    } else {
        slot_from(v, id, i + 1)
    }
}

/// The first entry named `id`; the length where there is none.
pub open spec fn slot_of(v: Seq<MessageModel>, id: Seq<char>) -> int {
    slot_from(v, id, 0)
}

/// An entry with one more recall.
pub open spec fn recalled(m: MessageModel) -> MessageModel {
    MessageModel { recall_count: (m.recall_count + 1) as u32, ..m }
}

/// Places of the first `n` entries that have an embedding.
pub open spec fn embedded_places(v: Seq<MessageModel>, n: nat) -> Seq<int>
    decreases n,
{
    if n == 0 {
        Seq::empty()
    } else if v[n - 1].embedding.len() == 0 {
        embedded_places(v, (n - 1) as nat)
    } else {
        embedded_places(v, (n - 1) as nat).push(n - 1)
    }
}

/// The scores at the given places.
pub open spec fn scores_at(scores: Seq<i64>, places: Seq<int>) -> Seq<i64> {
    places.map_values(|p: int| scores[p])
}

/// The best `k` of the entries that have an embedding, best first.
pub open spec fn best_places(v: Seq<MessageModel>, scores: Seq<i64>, k: nat) -> Seq<int> {
    let places = embedded_places(v, v.len());
    rank::first_of(rank::descending(scores_at(scores, places)), k).map_values(
        |i: int| places[i],
    )
}

/// The entries at the given places.
pub open spec fn entries_at(v: Seq<MessageModel>, places: Seq<int>) -> Seq<MessageModel> {
    places.map_values(|p: int| v[p])
}

/// Whether an entry is of a turn in the range, both ends included.
pub open spec fn within(m: MessageModel, start: u32, end: u32) -> bool {
    start <= m.turn <= end
}

/// Short-term memory: the session's messages in order.
#[derive(Debug)]
pub struct ShortTermMemory {
    /// The messages.
    pub entries: Vec<ShortTermEntry>,
    /// The turn of the last message that was stored.
    pub current_turn: u32,
}

/// What short-term memory holds.
#[verifier::ext_equal]
pub struct ShortTermModel {
    pub entries: Seq<MessageModel>,
    pub current_turn: u32,
}

impl View for ShortTermMemory {
    type V = ShortTermModel;

    open spec fn view(&self) -> ShortTermModel {
        ShortTermModel { entries: message_models(self.entries@), current_turn: self.current_turn }
    }
}

/// The memory with one more message, in a turn of its own.
pub open spec fn stored(
    m: ShortTermModel,
    id: Seq<char>,
    role: Seq<char>,
    content: Seq<char>,
    token_count: u32,
    is_tool_call: bool,
    embedding: Seq<u32>,
) -> ShortTermModel {
    ShortTermModel {
        entries: m.entries.push(
            MessageModel {
                id: id,
                turn: (m.current_turn + 1) as u32,
                role: role,
                content: content,
                embedding: embedding,
                token_count: token_count,
                is_tool_call: is_tool_call,
                tool_name: None,
                recall_count: 0,
            },
        ),
        current_turn: (m.current_turn + 1) as u32,
    }
}

impl Default for ShortTermMemory {
    fn default() -> (r: Self)
        ensures
            r@ == (ShortTermModel { entries: Seq::empty(), current_turn: 0 }),
    {
        ShortTermMemory::new()
    }
}

impl ShortTermMemory {
    /// A memory without messages.
    pub fn new() -> (r: Self)
        ensures
            r@ == (ShortTermModel { entries: Seq::empty(), current_turn: 0 }),
    {
        let r = ShortTermMemory { entries: Vec::new(), current_turn: 0 };
        assert(r@.entries =~= Seq::<MessageModel>::empty());
        r
    }

    /// Stores a message under a new random name, which is returned.
    pub fn store(
        &mut self,
        role: String,
        content: String,
        token_count: u32,
        is_tool_call: bool,
        embedding: Vec<u32>,
    ) -> (r: String)
        requires
            old(self)@.current_turn < u32::MAX,
        ensures
            outside::is_uuid_text(r@),
            final(self)@ == stored(
                old(self)@,
                r@,
                role@,
                content@,
                token_count,
                is_tool_call,
                embedding@,
            ),
    {
        let id = outside::fresh_id();
        self.store_as(id.clone(), role, content, token_count, is_tool_call, embedding);
        id
    }

    /// Stores a message under the given name.
    pub fn store_as(
        &mut self,
        id: String,
        role: String,
        content: String,
        token_count: u32,
        is_tool_call: bool,
        embedding: Vec<u32>,
    )
        requires
            old(self)@.current_turn < u32::MAX,
        ensures
            final(self)@ == stored(
                old(self)@,
                id@,
                role@,
                content@,
                token_count,
                is_tool_call,
                embedding@,
            ),
    {
        let ghost before = self@;
        self.current_turn = self.current_turn + 1;
        let entry = ShortTermEntry {
            id,
            turn: self.current_turn,
            role,
            content,
            embedding,
            token_count,
            is_tool_call,
            tool_name: None,
            recall_count: 0,
        };
        let ghost shown = entry@;
        self.entries.push(entry);
        assert(self@.entries =~= before.entries.push(shown));
    }

    /// The first entry of the given name.
    fn slot(&self, id: &str) -> (r: usize)
        ensures
            r == slot_of(self@.entries, id@),
            r <= self.entries@.len(),
    {
        let mut i: usize = 0;
        while i < self.entries.len()
            invariant
                i <= self.entries@.len(),
                slot_of(self@.entries, id@) == slot_from(self@.entries, id@, i as int),
            decreases self.entries@.len() - i,
        {
            assert(self@.entries[i as int] == self.entries@[i as int]@);
            if ops::same_text(self.entries[i].id.as_str(), id) {
                return i;
            }
            i = i + 1;
        }
        i
    }

    /// Replaces the embedding of the first entry of the given name.
    pub fn update_embedding(&mut self, id: &str, embedding: Vec<u32>)
        ensures
            final(self)@.current_turn == old(self)@.current_turn,
            ({
                let v = old(self)@.entries;
                let i = slot_of(v, id@);
                final(self)@.entries == if i < v.len() {
                    v.update(i, MessageModel { embedding: embedding@, ..v[i] })
                } else {
                    v
                }
            }),
    {
        let ghost before = self@.entries;
        let i: usize = self.slot(id);
        if i < self.entries.len() {
            assert(before[i as int] == self.entries@[i as int]@);
            self.entries[i].embedding = embedding;
            assert(self@.entries =~= before.update(
                i as int,
                MessageModel { embedding: embedding@, ..before[i as int] },
            ));
        }
    }

    /// Counts a recall of the first entry of the given name.
    pub fn mark_recalled(&mut self, id: &str)
        requires
            slot_of(old(self)@.entries, id@) < old(self)@.entries.len() ==> old(self)@.entries[slot_of(
                old(self)@.entries,
                id@,
            )].recall_count < u32::MAX,
        ensures
            final(self)@.current_turn == old(self)@.current_turn,
            ({
                let v = old(self)@.entries;
                let i = slot_of(v, id@);
                final(self)@.entries == if i < v.len() {
                    v.update(i, recalled(v[i]))
                } else {
                    v
                }
            }),
    {
        let ghost before = self@.entries;
        let i: usize = self.slot(id);
        if i < self.entries.len() {
            assert(before[i as int] == self.entries@[i as int]@);
            self.entries[i].recall_count = self.entries[i].recall_count + 1;
            assert(self@.entries =~= before.update(i as int, recalled(before[i as int])));
        }
    }

    /// The places of the entries that have an embedding.
    fn embedded(&self) -> (r: Vec<usize>)
        ensures
            rank::positions(r@) == embedded_places(self@.entries, self@.entries.len()),
            forall|i: int| 0 <= i < r@.len() ==> (#[trigger] r@[i]) < self.entries@.len(),
            r@.len() <= self.entries@.len(),
    {
        let mut places: Vec<usize> = Vec::new();
        assert(rank::positions(places@) =~= Seq::empty());
        let mut i: usize = 0;
        while i < self.entries.len()
            invariant
                i <= self.entries@.len(),
                rank::positions(places@) == embedded_places(self@.entries, i as nat),
                forall|j: int| 0 <= j < places@.len() ==> (#[trigger] places@[j]) < i,
                places@.len() <= i,
            decreases self.entries@.len() - i,
        {
            assert(self@.entries[i as int] == self.entries@[i as int]@);
            let ghost before = places@;
            if self.entries[i].embedding.len() > 0 {
                places.push(i);
                assert(rank::positions(places@) =~= rank::positions(before).push(i as int));
            }
            i = i + 1;
        }
        places
    }

    /// The places of the entries most similar to a query, best first: `scores`
    /// holds the similarity of each entry, by integers that are ordered as the
    /// similarities are. Entries without an embedding are left out, and an empty
    /// query finds nothing.
    pub fn search_places(
        &self,
        query_embedding: &[u32],
        scores: &Vec<i64>,
        top_k: usize,
    ) -> (r: Vec<usize>)
        requires
            scores@.len() == self@.entries.len(),
        ensures
            rank::positions(r@) == if query_embedding@.len() == 0 {
                Seq::empty()
            } else {
                best_places(self@.entries, scores@, top_k as nat)
            },
            forall|i: int| 0 <= i < r@.len() ==> (#[trigger] r@[i]) < self@.entries.len(),
            r@.len() <= self@.entries.len(),
    {
        let mut found: Vec<usize> = Vec::new();
        assert(rank::positions(found@) =~= Seq::empty());
        let places = self.embedded();
        let ghost all = embedded_places(self@.entries, self@.entries.len());
        if query_embedding.len() == 0 {
            return found;
        }
        let mut keys: Vec<i64> = Vec::new();
        let mut i: usize = 0;
        while i < places.len()
            invariant
                i <= places@.len(),
                scores@.len() == self.entries@.len(),
                rank::positions(places@) == all,
                forall|j: int| 0 <= j < places@.len() ==> (#[trigger] places@[j])
                    < self.entries@.len(),
                keys@ == scores_at(scores@, all).take(i as int),
            decreases places@.len() - i,
        {
            assert(all[i as int] == places@[i as int] as int);
            keys.push(scores[places[i]]);
            assert(scores_at(scores@, all).take(i + 1) =~= scores_at(scores@, all).take(
                i as int,
            ).push(scores@[places@[i as int] as int]));
            i = i + 1;
        }
        assert(scores_at(scores@, all).take(all.len() as int) =~= scores_at(scores@, all));
        let order = rank::top(&keys, top_k);
        let ghost best = best_places(self@.entries, scores@, top_k as nat);
        let ghost ranked = rank::positions(order@);
        proof {
            rank::law_ascending(rank::reversed(keys@), keys@.len());
        }
        let mut j: usize = 0;
        while j < order.len()
            invariant
                j <= order@.len(),
                rank::positions(places@) == all,
                ranked == rank::positions(order@),
                best == ranked.map_values(|i: int| all[i]),
                forall|k: int| 0 <= k < places@.len() ==> (#[trigger] places@[k])
                    < self.entries@.len(),
                forall|k: int| 0 <= k < order@.len() ==> (#[trigger] order@[k]) < places@.len(),
                forall|k: int| 0 <= k < found@.len() ==> (#[trigger] found@[k])
                    < self.entries@.len(),
                found@.len() == j,
                rank::positions(found@) == best.take(j as int),
            decreases order@.len() - j,
        {
            let ghost before = found@;
            let place: usize = places[order[j]];
            assert(ranked[j as int] == order@[j as int] as int);
            assert(all[order@[j as int] as int] == place as int);
            found.push(place);
            assert(rank::positions(found@) =~= rank::positions(before).push(place as int));
            assert(best.take(j + 1) =~= best.take(j as int).push(place as int));
            j = j + 1;
        }
        assert(best.take(best.len() as int) =~= best);
        found
    }

    /// The entries most similar to a query, best first, by the given scores.
    pub fn search_by_embedding(
        &self,
        query_embedding: &[u32],
        scores: &Vec<i64>,
        top_k: usize,
    ) -> (r: Vec<&ShortTermEntry>)
        requires
            scores@.len() == self@.entries.len(),
        ensures
            shown_models(r@) == if query_embedding@.len() == 0 {
                Seq::empty()
            } else {
                entries_at(
                    self@.entries,
                    best_places(self@.entries, scores@, top_k as nat),
                )
            },
    {
        let places = self.search_places(query_embedding, scores, top_k);
        let ghost all = entries_at(self@.entries, rank::positions(places@));
        let mut found: Vec<&ShortTermEntry> = Vec::new();
        assert(shown_models(found@) =~= all.take(0));
        let mut j: usize = 0;
        while j < places.len()
            invariant
                j <= places@.len(),
                all == entries_at(self@.entries, rank::positions(places@)),
                forall|k: int| 0 <= k < places@.len() ==> (#[trigger] places@[k])
                    < self.entries@.len(),
                shown_models(found@) == all.take(j as int),
            decreases places@.len() - j,
        {
            let ghost before = found@;
            let place: usize = places[j];
            assert(all[j as int] == self@.entries[place as int]);
            found.push(&self.entries[place]);
            assert(shown_models(found@) =~= shown_models(before).push(
                self@.entries[place as int],
            ));
            assert(all.take(j + 1) =~= all.take(j as int).push(self@.entries[place as int]));
            j = j + 1;
        }
        assert(all.take(all.len() as int) =~= all);
        assert(entries_at(self@.entries, Seq::empty()) =~= Seq::empty());
        found
    }

    /// The entries of the turns from `start_turn` through `end_turn`.
    pub fn get_by_range(&self, start_turn: u32, end_turn: u32) -> (r: Vec<&ShortTermEntry>)
        ensures
            shown_models(r@) == self@.entries.filter(
                |m: MessageModel| within(m, start_turn, end_turn),
            ),
    {
        let ghost f = |m: MessageModel| within(m, start_turn, end_turn);
        let ghost all = self@.entries;
        let mut found: Vec<&ShortTermEntry> = Vec::new();
        assert(shown_models(found@) =~= Seq::empty());
        proof {
            reveal(Seq::filter);
        }
        assert(all.take(0).filter(f) =~= Seq::empty());
        let mut i: usize = 0;
        while i < self.entries.len()
            invariant
                i <= self.entries@.len(),
                all == self@.entries,
                f == (|m: MessageModel| within(m, start_turn, end_turn)),
                shown_models(found@) == all.take(i as int).filter(f),
            decreases self.entries@.len() - i,
        {
            proof {
                reveal(Seq::filter);
            }
            let ghost before = found@;
            assert(all[i as int] == self.entries@[i as int]@);
            assert(all.take(i + 1).drop_last() =~= all.take(i as int));
            let turn: u32 = self.entries[i].turn;
            if turn >= start_turn && turn <= end_turn {
                found.push(&self.entries[i]);
                assert(shown_models(found@) =~= shown_models(before).push(all[i as int]));
            }
            i = i + 1;
        }
        assert(all.take(all.len() as int) =~= all);
        found
    }

    /// All entries, in order.
    pub fn all_entries(&self) -> (r: &Vec<ShortTermEntry>)
        ensures
            message_models(r@) == self@.entries,
    {
        &self.entries
    }

    /// How many entries there are.
    pub fn len(&self) -> (r: usize)
        ensures
            r == self@.entries.len(),
    {
        self.entries.len()
    }

    /// Whether there is no entry.
    pub fn is_empty(&self) -> (r: bool)
        ensures
            r == (self@.entries.len() == 0),
    {
        self.entries.len() == 0
    }

    /// The turn of the last message that was stored.
    pub fn current_turn(&self) -> (r: u32)
        ensures
            r == self@.current_turn,
    {
        self.current_turn
    }

    /// Removes the entries of the given names and returns how many they were.
    pub fn remove_entries(&mut self, ids: &[String]) -> (r: usize)
        ensures
            final(self)@.current_turn == old(self)@.current_turn,
            final(self)@.entries == old(self)@.entries.filter(
                |m: MessageModel| !model::texts(ids@).contains(m.id),
            ),
            r == old(self)@.entries.len() - final(self)@.entries.len(),
    {
        let ghost f = |m: MessageModel| !model::texts(ids@).contains(m.id);
        let ghost all = self@.entries;
        let before: usize = self.entries.len();
        let mut kept: Vec<ShortTermEntry> = Vec::new();
        let mut old_entries: Vec<ShortTermEntry> = Vec::new();
        std::mem::swap(&mut old_entries, &mut self.entries);
        assert(message_models(kept@) =~= Seq::empty());
        proof {
            reveal(Seq::filter);
        }
        assert(all.take(0).filter(f) =~= Seq::empty());
        for entry in it: old_entries
            invariant
                all == message_models(it.seq()),
                before == all.len(),
                f == (|m: MessageModel| !model::texts(ids@).contains(m.id)),
                message_models(kept@) == all.take(it.index() as int).filter(f),
                kept@.len() <= it.index(),
        {
            proof {
                reveal(Seq::filter);
            }
            let ghost i = it.index() as int;
            let ghost earlier = kept@;
            let ghost shown = entry@;
            assert(all[i] == shown);
            assert(all.take(i + 1).drop_last() =~= all.take(i));
            if !ops::has_text(ids, entry.id.as_str()) {
                kept.push(entry);
                assert(message_models(kept@) =~= message_models(earlier).push(shown));
            }
        }
        assert(all.take(all.len() as int) =~= all);
        self.entries = kept;
        before - self.entries.len()
    }
}

/// A stored message is found in its turn, and storing it changes none of the
/// earlier ones.
pub proof fn law_store_keeps_history(
    m: ShortTermModel,
    id: Seq<char>,
    role: Seq<char>,
    content: Seq<char>,
    token_count: u32,
    is_tool_call: bool,
    embedding: Seq<u32>,
)
    requires
        m.current_turn < u32::MAX,
    ensures
        ({
            let after = stored(m, id, role, content, token_count, is_tool_call, embedding);
            &&& after.entries.drop_last() == m.entries
            &&& after.entries.last().content == content
            &&& after.entries.last().role == role
            &&& after.entries.last().turn == m.current_turn + 1
        }),
{
    let after = stored(m, id, role, content, token_count, is_tool_call, embedding);
    assert(after.entries.drop_last() =~= m.entries);
}

/// A stored message whose name is new is the first entry of that name.
pub proof fn law_stored_is_found(
    m: ShortTermModel,
    id: Seq<char>,
    role: Seq<char>,
    content: Seq<char>,
    token_count: u32,
    is_tool_call: bool,
    embedding: Seq<u32>,
)
    requires
        forall|i: int| 0 <= i < m.entries.len() ==> (#[trigger] m.entries[i]).id != id,
    ensures
        slot_of(
            stored(m, id, role, content, token_count, is_tool_call, embedding).entries,
            id,
        ) == m.entries.len(),
{
    let after = stored(m, id, role, content, token_count, is_tool_call, embedding);
    assert(after.entries.drop_last() =~= m.entries);
    lemma_slot_at_end(m.entries, after.entries, id, 0);
}

proof fn lemma_slot_at_end(v: Seq<MessageModel>, w: Seq<MessageModel>, id: Seq<char>, i: int)
    requires
        0 <= i <= v.len(),
        w.len() == v.len() + 1,
        w.drop_last() == v,
        w.last().id == id,
        forall|j: int| 0 <= j < v.len() ==> (#[trigger] v[j]).id != id,
    ensures
        slot_from(w, id, i) == v.len(),
    decreases v.len() - i,
{
    if i < v.len() {
        assert(w.drop_last()[i] == v[i]);
        lemma_slot_at_end(v, w, id, i + 1);
    }
}

/// A message is stored as it was said: nothing of it is changed, and it was not recalled
/// yet.
pub proof fn law_message_is_stored_whole(
    m: ShortTermModel,
    id: Seq<char>,
    role: Seq<char>,
    content: Seq<char>,
    token_count: u32,
    is_tool_call: bool,
    embedding: Seq<u32>,
)
    requires
        m.current_turn < u32::MAX,
    ensures
        ({
            let after = stored(m, id, role, content, token_count, is_tool_call, embedding);
            &&& after.current_turn == m.current_turn + 1
            &&& after.entries == m.entries.push(after.entries.last())
            &&& after.entries.last() == (MessageModel {
                id: id,
                turn: after.current_turn,
                role: role,
                content: content,
                embedding: embedding,
                token_count: token_count,
                is_tool_call: is_tool_call,
                tool_name: None,
                recall_count: 0,
            })
        }),
{
}

/// A message is found by its name: the first that bears it, where there is one.
pub proof fn law_slot_is_the_first(v: Seq<MessageModel>, id: Seq<char>)
    ensures
        0 <= slot_of(v, id) <= v.len(),
        slot_of(v, id) < v.len() ==> v[slot_of(v, id)].id == id,
        forall|i: int| 0 <= i < slot_of(v, id) ==> (#[trigger] v[i]).id != id,
{
    lemma_slot_from(v, id, 0);
}

proof fn lemma_slot_from(v: Seq<MessageModel>, id: Seq<char>, j: int)
    requires
        0 <= j <= v.len(),
    ensures
        j <= slot_from(v, id, j) <= v.len(),
        slot_from(v, id, j) < v.len() ==> v[slot_from(v, id, j)].id == id,
        forall|i: int| j <= i < slot_from(v, id, j) ==> (#[trigger] v[i]).id != id,
    decreases v.len() - j,
{
    if j < v.len() && v[j].id != id {
        lemma_slot_from(v, id, j + 1);
    }
}

/// Being recalled counts, and changes nothing else.
pub proof fn law_recall_is_counted(m: MessageModel)
    requires
        m.recall_count < u32::MAX,
    ensures
        recalled(m).recall_count == m.recall_count + 1,
        recalled(m) == (MessageModel { recall_count: recalled(m).recall_count, ..m }),
{
}

/// A search tells different messages that have an embedding, the best first, at most as
/// many as were asked for. One that it does not tell scores no better than those that it
/// does, and there is none where fewer were found.
pub proof fn law_search_tells_the_best(v: Seq<MessageModel>, scores: Seq<i64>, k: nat)
    ensures
        ({
            let r = best_places(v, scores, k);
            &&& r.len() <= k
            &&& r.no_duplicates()
            &&& forall|i: int|
                0 <= i < r.len() ==> 0 <= #[trigger] r[i] < v.len() && v[r[i]].embedding.len() > 0
            &&& forall|i: int, j: int|
                0 <= i < j < r.len() ==> scores[#[trigger] r[i]] >= scores[#[trigger] r[j]]
            &&& forall|p: int|
                0 <= p < v.len() && v[p].embedding.len() > 0 && !#[trigger] r.contains(p)
                    ==> r.len() == k && forall|i: int|
                    0 <= i < r.len() ==> scores[#[trigger] r[i]] >= scores[p]
        }),
{
    let places = embedded_places(v, v.len());
    let keys = scores_at(scores, places);
    let chosen = rank::first_of(rank::descending(keys), k);
    let r = best_places(v, scores, k);
    lemma_embedded_are_told(v, v.len());
    rank::law_best_are_chosen(keys, k);
    assert forall|i: int| 0 <= i < r.len() implies 0 <= #[trigger] r[i] < v.len()
        && v[r[i]].embedding.len() > 0 by {
        assert(0 <= chosen[i] < keys.len());
        assert(r[i] == places[chosen[i]]);
    }
    assert forall|i: int, j: int| 0 <= i < j < r.len() implies scores[#[trigger] r[i]] >= scores[
    #[trigger] r[j]] by {
        assert(keys[chosen[i]] >= keys[chosen[j]]);
        assert(0 <= chosen[i] < keys.len() && 0 <= chosen[j] < keys.len());
    }
    assert forall|i: int, j: int| 0 <= i < j < r.len() implies r[i] != r[j] by {
        assert(0 <= chosen[i] < keys.len() && 0 <= chosen[j] < keys.len());
        assert(chosen[i] != chosen[j]);
    }
    assert forall|p: int|
        0 <= p < v.len() && v[p].embedding.len() > 0 && !#[trigger] r.contains(p) implies r.len()
        == k && forall|i: int| 0 <= i < r.len() ==> scores[#[trigger] r[i]] >= scores[p] by {
        assert(places.contains(p));
        let y = choose|y: int| 0 <= y < places.len() && places[y] == p;
        if chosen.contains(y) {
            let x = choose|x: int| 0 <= x < chosen.len() && chosen[x] == y;
            assert(r[x] == p);
        }
        assert(!chosen.contains(y));
        if keys.len() <= k {
            rank::law_descending(keys);
            assert(rank::descending(keys).contains(y));
        }
        assert forall|i: int| 0 <= i < r.len() implies scores[#[trigger] r[i]] >= scores[p] by {
            assert(keys[chosen[i]] >= keys[y]);
            assert(0 <= chosen[i] < keys.len());
        }
    }
}

proof fn lemma_embedded_are_told(v: Seq<MessageModel>, n: nat)
    requires
        n <= v.len(),
    ensures
        ({
            let r = embedded_places(v, n);
            &&& r.no_duplicates()
            &&& forall|i: int|
                0 <= i < r.len() ==> 0 <= #[trigger] r[i] < n && v[r[i]].embedding.len() > 0
            &&& forall|p: int|
                0 <= p < n && v[p].embedding.len() > 0 ==> #[trigger] r.contains(p)
        }),
    decreases n,
{
    if n > 0 {
        lemma_embedded_are_told(v, (n - 1) as nat);
        let a = embedded_places(v, (n - 1) as nat);
        let r = embedded_places(v, n);
        assert forall|p: int| 0 <= p < n && v[p].embedding.len() > 0 implies #[trigger] r.contains(
            p,
        ) by {
            if p < n - 1 {
                assert(a.contains(p));
                let y = choose|y: int| 0 <= y < a.len() && a[y] == p;
                assert(r[y] == p);
            } else {
                assert(r[a.len() as int] == p);
            }
        }
    }
}

/// The turns of a range stand between its ends, both of which belong to it.
pub proof fn law_range_has_both_ends(m: MessageModel, start: u32, end: u32)
    ensures
        within(m, start, end) <==> start <= m.turn && m.turn <= end,
{
}

} // verus!
