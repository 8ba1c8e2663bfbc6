//! Dreaming: while the agent is idle, cold messages are moved from short-term to
//! long-term memory.
//!
//! A heat is kept as an integer that is ordered as the heats are: the bit
//! pattern of a double-precision number that is not negative.

use crate::memory::long_term::{KnowledgeCategory, KnowledgeEntry, KnowledgeModel};
use crate::memory::short_term::{MessageModel, ShortTermEntry, ShortTermMemory};
use crate::node::payload;
use crate::node::payload::{Payload, PayloadModel};
use crate::outside;
use crate::text::number;
use crate::text::{lemmas, model, ops};
use vstd::prelude::*;
use vstd::string::*;

verus! {

/// When messages are moved.
#[derive(Debug, Clone, Copy)]
pub struct DreamConfig {
    /// Below this heat a message is cold.
    pub heat_threshold: i64,
    /// How many cold messages there must be.
    pub min_cold_entries: usize,
    /// How fast heat decays, as the bit pattern of a double-precision number.
    pub decay_lambda: u64,
}

impl Default for DreamConfig {
    fn default() -> (r: Self)
        ensures
            r == (DreamConfig {
                heat_threshold: 0x3FD3_3333_3333_3333,
                min_cold_entries: 5,
                decay_lambda: 0x3FB9_9999_9999_999A,
            }),
    {
        DreamConfig {
            heat_threshold: 0x3FD3_3333_3333_3333,
            min_cold_entries: 5,
            decay_lambda: 0x3FB9_9999_9999_999A,
        }
    }
}

/// What was moved.
#[derive(Debug, Clone, Copy, PartialEq, Eq, Structural)]
pub struct DreamResult {
    /// How many messages went to long-term memory.
    pub consolidated: usize,
    /// How many messages left short-term memory.
    pub removed_from_l1: usize,
}

/// The names of the cold ones among the first `n` messages.
pub open spec fn cold_names(
    v: Seq<MessageModel>,
    heats: Seq<i64>,
    threshold: i64,
    n: nat,
) -> Seq<Seq<char>>
    decreases n,
{
    if n == 0 {
        Seq::empty()
    } else {
        let before = cold_names(v, heats, threshold, (n - 1) as nat);
        if heats[n - 1] < threshold {
            before.push(v[n - 1].id)
        } else {
            before
        }
    }
}

/// The messages that have one of the names.
pub open spec fn named(v: Seq<MessageModel>, names: Seq<Seq<char>>) -> Seq<MessageModel> {
    v.filter(|m: MessageModel| names.contains(m.id))
}

/// The messages that have none of the names.
pub open spec fn unnamed(v: Seq<MessageModel>, names: Seq<Seq<char>>) -> Seq<MessageModel> {
    v.filter(|m: MessageModel| !names.contains(m.id))
}

/// Whether a text in lower case holds one of three words.
pub open spec fn holds_one_of(s: Seq<char>, a: Seq<char>, b: Seq<char>, c: Seq<char>) -> bool {
    model::contains(s, a) || model::contains(s, b) || model::contains(s, c)
}

/// What a text in lower case is about.
pub open spec fn category_of(s: Seq<char>) -> KnowledgeCategory {
    if holds_one_of(s, "架构"@, "architecture"@, "模块"@) {
        KnowledgeCategory::Architecture
    } else if holds_one_of(s, "决定"@, "决策"@, "选择"@) || model::contains(s, "decision"@) {
        KnowledgeCategory::Decision
    } else if holds_one_of(s, "偏好"@, "习惯"@, "preference"@) {
        KnowledgeCategory::UserPreference
    } else if holds_one_of(s, "修复"@, "bug"@, "错误"@) || model::contains(s, "error"@) {
        KnowledgeCategory::ErrorFix
    } else {
        KnowledgeCategory::CodePattern
    }
}

/// Where a piece of knowledge comes from.
pub open spec fn origin(m: MessageModel) -> PayloadModel {
    seq![
        payload::text_field("source_id"@, m.id),
        payload::number_field("source_turn"@, m.turn as u64),
        payload::text_field("source_role"@, m.role),
        payload::number_field("recall_count"@, m.recall_count as u64),
    ]
}

/// A message as a piece of knowledge.
pub open spec fn knowledge_from(m: MessageModel, id: Seq<char>, now: Seq<char>) -> KnowledgeModel {
    KnowledgeModel {
        id: id,
        category: category_of(outside::lower(m.content)),
        content: m.content,
        embedding: m.embedding,
        metadata: origin(m),
        created_at: now,
        updated_at: now,
    }
}

/// What is to be moved.
#[derive(Debug)]
pub struct DreamPlan {
    /// The names of the messages.
    pub cold_ids: Vec<String>,
    /// What is stored of them.
    pub knowledge: Vec<KnowledgeEntry>,
}

/// The numbered entries of a prompt.
pub open spec fn numbered(entries: Seq<Seq<char>>) -> Seq<Seq<char>> {
    Seq::new(
        entries.len(),
        |i: int| "["@ + model::decimal(i as nat) + "] "@ + entries[i],
    )
}

/// The texts that a list of string slices holds.
pub open spec fn str_texts(v: Seq<&str>) -> Seq<Seq<char>> {
    v.map_values(|s: &str| s@)
}

/// What a model is asked in order to make one text of many.
pub open spec fn consolidation_prompt(entries: Seq<Seq<char>>) -> Seq<char> {
    "Consolidate the following memory entries into a concise summary.\nRemove redundancy, keep unique information, and maintain the most important points.\n\nEntries:\n"@
        + model::join(numbered(entries), "\n\n"@)
        + "\n\nOutput a single consolidated markdown section:"@
}

/// Whether one of three words occurs.
fn holds_any(s: &[char], a: &str, b: &str, c: &str) -> (r: bool)
    ensures
        r == holds_one_of(s@, a@, b@, c@),
{
    ops::contains(s, a) || ops::contains(s, b) || ops::contains(s, c)
}

/// Moves cold messages to long-term memory.
#[derive(Debug, Clone, Copy)]
pub struct DreamOrganizer {
    /// When messages are moved.
    pub config: DreamConfig,
}

impl Default for DreamOrganizer {
    fn default() -> (r: Self)
        ensures
            r.config.heat_threshold == 0x3FD3_3333_3333_3333,
            r.config.min_cold_entries == 5,
            r.config.decay_lambda == 0x3FB9_9999_9999_999A,
    {
        DreamOrganizer::new()
    }
}

impl DreamOrganizer {
    /// An organizer with the usual configuration.
    pub fn new() -> (r: Self)
        ensures
            r.config.heat_threshold == 0x3FD3_3333_3333_3333,
            r.config.min_cold_entries == 5,
            r.config.decay_lambda == 0x3FB9_9999_9999_999A,
    {
        DreamOrganizer { config: DreamConfig::default() }
    }

    /// An organizer with the given configuration.
    pub fn with_config(config: DreamConfig) -> (r: Self)
        ensures
            r.config == config,
    {
        DreamOrganizer { config }
    }

    /// The process that holds the lock, by what the lock's file holds.
    pub fn lock_holder(content: &str) -> (r: Option<u32>)
        ensures
            match r {
                Some(n) => number::parsed_u32(model::trim(content@)) == Some(n as nat),
                None => number::parsed_u32(model::trim(content@)) is None,
            },
    {
        let chars = ops::chars_of(content);
        number::parse_u32(ops::trim(chars.as_slice()))
    }

    /// Whether the lock can be taken: `holder_lives` says whether the process
    /// that holds it is still there.
    pub fn can_lock(holder: Option<u32>, holder_lives: bool) -> (r: bool)
        ensures
            r == !(holder is Some && holder_lives),
    {
        !(holder.is_some() && holder_lives)
    }

    /// What a model is asked in order to make one text of many.
    pub fn build_consolidation_prompt(&self, entries: &[&str]) -> (r: String)
        ensures
            r@ == consolidation_prompt(str_texts(entries@)),
    {
        let ghost all = str_texts(entries@);
        let mut items: Vec<String> = Vec::new();
        assert(model::texts(items@) =~= numbered(all).take(0));
        let mut i: usize = 0;
        while i < entries.len()
            invariant
                i <= entries@.len(),
                all == str_texts(entries@),
                model::texts(items@) == numbered(all).take(i as int),
            decreases entries@.len() - i,
        {
            assert(all[i as int] == entries@[i as int]@);
            let ghost before = items@;
            let number = ops::decimal(i);
            let item = ops::concat4("[", number.as_str(), "] ", entries[i]);
            let ghost shown = item@;
            items.push(item);
            assert(model::texts(items@) =~= model::texts(before).push(shown));
            assert(numbered(all).take(i + 1) =~= numbered(all).take(i as int).push(shown));
            i = i + 1;
        }
        assert(numbered(all).take(all.len() as int) =~= numbered(all));
        let body = ops::join_texts(items.as_slice(), "\n\n");
        ops::concat3(
            "Consolidate the following memory entries into a concise summary.\nRemove redundancy, keep unique information, and maintain the most important points.\n\nEntries:\n",
            body.as_str(),
            "\n\nOutput a single consolidated markdown section:",
        )
    }

    /// The text that a model has made of many.
    pub fn parse_consolidation_response(response: &str) -> (r: String)
        ensures
            r@ == model::trim(response@),
    {
        let chars = ops::chars_of(response);
        ops::string_of(ops::trim(chars.as_slice()))
    }

    /// What a text is about.
    pub fn infer_category(content: &str) -> (r: KnowledgeCategory)
        ensures
            r == category_of(outside::lower(content@)),
    {
        let lowered = outside::to_lowercase(content);
        DreamOrganizer::category_of_lowered(lowered.as_str())
    }

    /// What a text in lower case is about.
    pub fn category_of_lowered(lowered: &str) -> (r: KnowledgeCategory)
        ensures
            r == category_of(lowered@),
    {
        let chars = ops::chars_of(lowered);
        let s = chars.as_slice();
        if holds_any(s, "架构", "architecture", "模块") {
            KnowledgeCategory::Architecture
        } else if holds_any(s, "决定", "决策", "选择") || ops::contains(s, "decision") {
            KnowledgeCategory::Decision
        } else if holds_any(s, "偏好", "习惯", "preference") {
            KnowledgeCategory::UserPreference
        } else if holds_any(s, "修复", "bug", "错误") || ops::contains(s, "error") {
            KnowledgeCategory::ErrorFix
        } else {
            KnowledgeCategory::CodePattern
        }
    }

    /// The names of the cold messages.
    fn cold_ids(&self, memory: &ShortTermMemory, heats: &Vec<i64>) -> (r: Vec<String>)
        requires
            heats@.len() == memory@.entries.len(),
        ensures
            model::texts(r@) == cold_names(
                memory@.entries,
                heats@,
                self.config.heat_threshold,
                memory@.entries.len(),
            ),
    {
        let ghost all = memory@.entries;
        let mut names: Vec<String> = Vec::new();
        assert(model::texts(names@) =~= Seq::empty());
        let mut i: usize = 0;
        while i < memory.entries.len()
            invariant
                i <= memory.entries@.len(),
                heats@.len() == memory.entries@.len(),
                all == memory@.entries,
                model::texts(names@) == cold_names(
                    all,
                    heats@,
                    self.config.heat_threshold,
                    i as nat,
                ),
            decreases memory.entries@.len() - i,
        {
            assert(all[i as int] == memory.entries@[i as int]@);
            let ghost before = names@;
            if heats[i] < self.config.heat_threshold {
                let name = memory.entries[i].id.clone();
                let ghost shown = name@;
                names.push(name);
                assert(model::texts(names@) =~= model::texts(before).push(shown));
            }
            i = i + 1;
        }
        names
    }

    /// Whether it is time to dream: there are enough cold messages. `heats`
    /// holds the heat of each message.
    pub fn should_auto_trigger(&self, memory: &ShortTermMemory, heats: &Vec<i64>) -> (r: bool)
        requires
            heats@.len() == memory@.entries.len(),
        ensures
            r == (cold_names(
                memory@.entries,
                heats@,
                self.config.heat_threshold,
                memory@.entries.len(),
            ).len() >= self.config.min_cold_entries),
    {
        let names = self.cold_ids(memory, heats);
        assert(model::texts(names@).len() == names@.len());
        names.len() >= self.config.min_cold_entries
    }

    /// A message as a piece of knowledge, under a new random name.
    fn knowledge_of(entry: &ShortTermEntry, now: &str) -> (r: KnowledgeEntry)
        ensures
            outside::is_uuid_text(r.id@),
            r@ == knowledge_from(entry@, r.id@, now@),
    {
        let metadata = Payload::new().text("source_id", entry.id.as_str()).number(
            "source_turn",
            entry.turn as u64,
        ).text("source_role", entry.role.as_str()).number(
            "recall_count",
            entry.recall_count as u64,
        );
        assert(metadata@ =~= origin(entry@));
        let r = KnowledgeEntry {
            id: outside::fresh_id(),
            category: DreamOrganizer::infer_category(entry.content.as_str()),
            content: entry.content.clone(),
            embedding: entry.embedding.clone(),
            metadata,
            created_at: String::from_str(now),
            updated_at: String::from_str(now),
        };
        assert(r@.embedding =~= entry@.embedding);
        r
    }

    /// What is to be moved, if there are enough cold messages. `heats` holds the
    /// heat of each message.
    pub fn plan(&self, memory: &ShortTermMemory, heats: &Vec<i64>, now: &str) -> (r: Option<
        DreamPlan,
    >)
        requires
            heats@.len() == memory@.entries.len(),
        ensures
            ({
                let names = cold_names(
                    memory@.entries,
                    heats@,
                    self.config.heat_threshold,
                    memory@.entries.len(),
                );
                match r {
                    None => names.len() < self.config.min_cold_entries,
                    Some(p) => {
                        &&& names.len() >= self.config.min_cold_entries
                        &&& model::texts(p.cold_ids@) == names
                        &&& p.knowledge@.len() == named(memory@.entries, names).len()
                        &&& forall|i: int|
                            0 <= i < p.knowledge@.len() ==> {
                                let k = #[trigger] p.knowledge@[i];
                                &&& outside::is_uuid_text(k.id@)
                                &&& k@ == knowledge_from(
                                    named(memory@.entries, names)[i],
                                    k.id@,
                                    now@,
                                )
                            }
                    },
                }
            }),
    {
        let cold_ids = self.cold_ids(memory, heats);
        let ghost names = model::texts(cold_ids@);
        assert(names.len() == cold_ids@.len());
        if cold_ids.len() < self.config.min_cold_entries {
            return None;
        }
        let ghost all = memory@.entries;
        let ghost f = |m: MessageModel| names.contains(m.id);
        let mut knowledge: Vec<KnowledgeEntry> = Vec::new();
        proof {
            reveal(Seq::filter);
        }
        assert(all.take(0).filter(f) =~= Seq::empty());
        let mut i: usize = 0;
        while i < memory.entries.len()
            invariant
                i <= memory.entries@.len(),
                all == memory@.entries,
                names == model::texts(cold_ids@),
                f == (|m: MessageModel| names.contains(m.id)),
                knowledge@.len() == all.take(i as int).filter(f).len(),
                forall|j: int|
                    0 <= j < knowledge@.len() ==> {
                        let k = #[trigger] knowledge@[j];
                        &&& outside::is_uuid_text(k.id@)
                        &&& k@ == knowledge_from(all.take(i as int).filter(f)[j], k.id@, now@)
                    },
            decreases memory.entries@.len() - i,
        {
            proof {
                reveal(Seq::filter);
            }
            assert(all[i as int] == memory.entries@[i as int]@);
            assert(all.take(i + 1).drop_last() =~= all.take(i as int));
            let entry = &memory.entries[i];
            if ops::has_text(cold_ids.as_slice(), entry.id.as_str()) {
                let ghost kept = all.take(i as int).filter(f);
                assert(all.take(i + 1).filter(f) == kept.push(all[i as int]));
                knowledge.push(DreamOrganizer::knowledge_of(entry, now));
            }
            i = i + 1;
        }
        assert(all.take(all.len() as int) =~= all);
        Some(DreamPlan { cold_ids, knowledge })
    }

    /// Removes what was moved from short-term memory. `stored` says how many
    /// pieces of knowledge long-term memory has taken.
    pub fn finish(memory: &mut ShortTermMemory, plan: &DreamPlan, stored: usize) -> (r: DreamResult)
        ensures
            final(memory)@.current_turn == old(memory)@.current_turn,
            final(memory)@.entries == unnamed(
                old(memory)@.entries,
                model::texts(plan.cold_ids@),
            ),
            r.consolidated == stored,
            r.removed_from_l1 == old(memory)@.entries.len() - final(memory)@.entries.len(),
    {
        let removed: usize = memory.remove_entries(plan.cold_ids.as_slice());
        DreamResult { consolidated: stored, removed_from_l1: removed }
    }
}

/// Dreaming loses no message: each is either kept or moved.
pub proof fn law_dream_loses_nothing(v: Seq<MessageModel>, names: Seq<Seq<char>>)
    ensures
        named(v, names).len() + unnamed(v, names).len() == v.len(),
        forall|i: int|
            0 <= i < v.len() ==> named(v, names).contains(#[trigger] v[i]) || unnamed(
                v,
                names,
            ).contains(v[i]),
    decreases v.len(),
{
    reveal(Seq::filter);
    if v.len() > 0 {
        let w = v.drop_last();
        law_dream_loses_nothing(w, names);
        let a = named(w, names);
        let b = unnamed(w, names);
        let c = named(v, names);
        let d = unnamed(v, names);
        assert forall|i: int| 0 <= i < v.len() implies c.contains(#[trigger] v[i]) || d.contains(
            v[i],
        ) by {
            if i < w.len() {
                assert(w[i] == v[i]);
                if a.contains(w[i]) {
                    let k = a.index_of(w[i]);
                    assert(c[k] == a[k]);
                } else {
                    let k = b.index_of(w[i]);
                    assert(d[k] == b[k]);
                }
            } else if names.contains(v[i].id) {
                assert(c.last() == v[i]);
            } else {
                assert(d.last() == v[i]);
            }
        }
    }
}

/// A lock that was written by a process names that process.
pub proof fn law_lock_names_its_holder(pid: u32)
    ensures
        number::parsed_u32(model::trim(model::decimal(pid as nat))) == Some(pid as nat),
{
    number::law_decimal_is_read_back(pid as nat);
    let s = model::decimal(pid as nat);
    assert(model::is_ascii_digit(s[0]));
    assert(model::is_ascii_digit(s[s.len() - 1]));
    assert(model::trim(s) == s);
}

/// The names of the messages that are colder than the threshold are gathered in their
/// order, and no others.
pub proof fn law_cold_messages_are_named(
    v: Seq<MessageModel>,
    heats: Seq<i64>,
    threshold: i64,
    n: nat,
) -> (at: Seq<int>)
    requires
        n <= v.len(),
        v.len() == heats.len(),
    ensures
        ({
            let names = cold_names(v, heats, threshold, n);
            &&& at.len() == names.len()
            &&& forall|i: int| 0 <= i < n ==> (at.contains(i) <==> #[trigger] heats[i] < threshold)
            &&& forall|a: int|
                0 <= a < at.len() ==> 0 <= #[trigger] at[a] < n && names[a] == v[at[a]].id
            &&& forall|a: int, b: int| 0 <= a < b < at.len() ==> #[trigger] at[a] < #[trigger] at[b]
        }),
    decreases n,
{
    if n == 0 {
        Seq::empty()
    } else {
        let before = law_cold_messages_are_named(v, heats, threshold, (n - 1) as nat);
        let at = if heats[n - 1] < threshold {
            before.push(n - 1)
        } else {
            before
        };
        assert forall|i: int| 0 <= i < n implies (at.contains(i) <==> #[trigger] heats[i]
            < threshold) by {
            if before.contains(i) {
                let a = choose|a: int| 0 <= a < before.len() && before[a] == i;
                assert(at[a] == i);
            }
            if heats[n - 1] < threshold {
                assert(at[before.len() as int] == n - 1);
            }
        }
        at
    }
}

/// A dream takes the named messages and leaves the others.
pub proof fn law_dream_takes_the_named(v: Seq<MessageModel>, names: Seq<Seq<char>>)
    ensures
        forall|i: int| 0 <= i < named(v, names).len() ==> names.contains((#[trigger] named(v, names)[i]).id),
        forall|i: int|
            0 <= i < unnamed(v, names).len() ==> !names.contains((#[trigger] unnamed(v, names)[i]).id),
    decreases v.len(),
{
    reveal(Seq::filter);
    if v.len() > 0 {
        law_dream_takes_the_named(v.drop_last(), names);
    }
}

/// The words of a text tell what it is about: architecture comes before decisions, these
/// before preferences, and these before errors. A text with none of the words is a
/// pattern.
pub proof fn law_words_tell_the_category(s: Seq<char>)
    ensures
        ({
            let architecture = model::contains(s, "架构"@) || model::contains(s, "architecture"@)
                || model::contains(s, "模块"@);
            let decision = model::contains(s, "决定"@) || model::contains(s, "决策"@)
                || model::contains(s, "选择"@) || model::contains(s, "decision"@);
            let preference = model::contains(s, "偏好"@) || model::contains(s, "习惯"@)
                || model::contains(s, "preference"@);
            let error = model::contains(s, "修复"@) || model::contains(s, "bug"@)
                || model::contains(s, "错误"@) || model::contains(s, "error"@);
            &&& category_of(s) is Architecture <==> architecture
            &&& category_of(s) is Decision <==> decision && !architecture
            &&& category_of(s) is UserPreference <==> preference && !decision && !architecture
            &&& category_of(s) is ErrorFix <==> error && !preference && !decision && !architecture
            &&& category_of(s) is CodePattern <==> !error && !preference && !decision
                && !architecture
        }),
{
}

/// What becomes of a message as knowledge: its text and its embedding are kept, and
/// where it came from is told.
pub proof fn law_knowledge_keeps_the_message(m: MessageModel, id: Seq<char>, now: Seq<char>)
    ensures
        ({
            let k = knowledge_from(m, id, now);
            &&& k.id == id
            &&& k.content == m.content
            &&& k.embedding == m.embedding
            &&& k.created_at == now && k.updated_at == now
            &&& k.category == category_of(outside::lower(m.content))
            &&& k.metadata == seq![
                payload::text_field("source_id"@, m.id),
                payload::number_field("source_turn"@, m.turn as u64),
                payload::text_field("source_role"@, m.role),
                payload::number_field("recall_count"@, m.recall_count as u64),
            ]
        }),
{
}

/// The prompt of a consolidation shows every entry, with its number before it.
pub proof fn law_prompt_shows_every_entry(entries: Seq<Seq<char>>, i: int)
    requires
        0 <= i < entries.len(),
    ensures
        model::contains(
            consolidation_prompt(entries),
            "["@ + model::decimal(i as nat) + "] "@ + entries[i],
        ),
{
    let e = "["@ + model::decimal(i as nat) + "] "@ + entries[i];
    let v = numbered(entries);
    let head = "Consolidate the following memory entries into a concise summary.\nRemove redundancy, keep unique information, and maintain the most important points.\n\nEntries:\n"@;
    let tail = "\n\nOutput a single consolidated markdown section:"@;
    assert(v[i] == e);
    assert(e.subrange(0, e.len() as int) =~= e);
    lemmas::lemma_found(e, e, 0, 0);
    lemmas::lemma_join_holds(v, "\n\n"@, i, e);
    lemmas::lemma_contains_within(head, model::join(v, "\n\n"@), tail, e);
}

} // verus!
