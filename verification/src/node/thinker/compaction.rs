//! Keeps the thinker's context within its budget.

use crate::memory::window;
use crate::memory::window::{MessageMeta, MetaModel};
use crate::memory::working;
use crate::memory::working::{EntryModel, WorkingEntry, WorkingMemory, WorkingModel};
use crate::node::thinker::{ThinkerModel, ThinkerNode};
use crate::text::{model, ops};
use vstd::prelude::*;
use vstd::string::*;

verus! {

/// When the context is compacted.
#[derive(Debug, Clone, Copy)]
pub struct CompactionConfig {
    /// The number of entries above which old ones are cooled.
    pub microcompact_threshold: usize,
    /// The percentage of the budget above which early turns are cooled.
    pub collapse_threshold_percent: u32,
    /// The percentage of the budget above which everything is cooled, as the last
    /// resort.
    pub auto_compact_threshold_percent: u32,
    /// How many of the last turns are left alone.
    pub keep_recent: usize,
}

/// The configuration that is in force unless another is set.
pub open spec fn default_config() -> CompactionConfig {
    CompactionConfig {
        microcompact_threshold: 20,
        collapse_threshold_percent: 85,
        auto_compact_threshold_percent: 95,
        keep_recent: 5,
    }
}

impl Default for CompactionConfig {
    fn default() -> (r: Self)
        ensures
            r == default_config(),
    {
        CompactionConfig {
            microcompact_threshold: 20,
            collapse_threshold_percent: 85,
            auto_compact_threshold_percent: 95,
            keep_recent: 5,
        }
    }
}

/// What the heat of an entry depends on.
#[derive(Debug, Clone, Copy, PartialEq, Eq, Structural)]
pub struct HeatFacts {
    /// How many turns ago the entry was made.
    pub elapsed_turns: u32,
    /// Whether the user or the model speaks.
    pub is_dialogue: bool,
    /// Whether it is the result of a tool.
    pub is_tool_result: bool,
}

/// Who speaks in an entry.
pub open spec fn entry_role(e: EntryModel) -> Seq<char> {
    match e {
        EntryModel::Hot { role, .. } => role,
        EntryModel::Warm { .. } => "warm"@,
        EntryModel::Cold { .. } => "cold"@,
    }
}

/// What an entry says.
pub open spec fn entry_text(e: EntryModel) -> Seq<char> {
    match e {
        EntryModel::Hot { content, .. } => content,
        EntryModel::Warm { summary, .. } => summary,
        EntryModel::Cold { placeholder, .. } => placeholder,
    }
}

/// What the heat of the entry at place `i` depends on, after `turns` turns.
pub open spec fn facts_of(e: EntryModel, i: int, turns: u32) -> HeatFacts {
    let role = entry_role(e);
    HeatFacts {
        elapsed_turns: if i <= turns {
            (turns - i) as u32
        } else {
            0
        },
        is_dialogue: role == "user"@ || role == "assistant"@,
        is_tool_result: role == "user"@ && model::starts_with(entry_text(e), "["@),
    }
}

/// An entry as a message for the window.
pub open spec fn meta_of(e: EntryModel, heat: i64, i: int) -> MetaModel {
    MetaModel {
        heat: heat,
        role: entry_role(e),
        content: entry_text(e),
        token_count: working::tokens_of(e) as u32,
        source_range: (i as usize, (i + 1) as usize),
    }
}

/// The entries as messages for the window.
pub open spec fn metas(v: Seq<EntryModel>, heats: Seq<i64>) -> Seq<MetaModel> {
    Seq::new(v.len(), |i: int| meta_of(v[i], heats[i], i))
}

/// The thinker after one more turn, its context put into the window.
pub open spec fn windowed(m: ThinkerModel, heats: Seq<i64>) -> ThinkerModel {
    ThinkerModel {
        turns: (m.turns + 1) as u32,
        memory: WorkingModel {
            entries: window::window(
                metas(m.memory.entries, heats),
                m.window.thresholds,
                m.window.max_tokens as nat,
            ),
            ..m.memory
        },
        ..m
    }
}

/// The percentage of the budget that the entries take.
pub open spec fn usage(m: WorkingModel) -> nat {
    if m.max_tokens > 0 {
        (working::total_tokens(m.entries) * 100) / (m.max_tokens as nat)
    } else {
        0
    }
}

/// The context after compaction.
pub open spec fn cooler(m: WorkingModel) -> WorkingModel {
    WorkingModel { entries: working::compacted(m.entries), ..m }
}

/// Whether there are so many entries that old ones are cooled.
pub open spec fn is_crowded(m: WorkingModel, last_count: usize, c: CompactionConfig) -> bool {
    m.entries.len() > c.microcompact_threshold && m.entries.len() > last_count
}

/// The context after the first layer.
pub open spec fn after_micro(m: WorkingModel, last_count: usize, c: CompactionConfig) -> WorkingModel {
    if is_crowded(m, last_count, c) {
        cooler(m)
    } else {
        m
    }
}

/// The context after a layer that cools the entries where they take more than a
/// percentage of the budget.
pub open spec fn cooled_above(m: WorkingModel, percent: u32) -> WorkingModel {
    if usage(m) > percent {
        cooler(m)
    } else {
        m
    }
}

/// Whether a layer can be run: the percentage can be computed in 32 bits, and
/// the entries can be compacted where that is due.
pub open spec fn can_cool_above(m: WorkingModel, percent: u32) -> bool {
    &&& working::total_tokens(m.entries) * 100 <= u32::MAX
    &&& usage(m) > percent ==> working::compactable(m.entries)
}

/// Whether all layers can be run.
pub open spec fn can_shrink(m: WorkingModel, last_count: usize, c: CompactionConfig) -> bool {
    let a = after_micro(m, last_count, c);
    let b = cooled_above(a, c.collapse_threshold_percent);
    &&& working::total_tokens(m.entries) * 100 <= u32::MAX
    &&& is_crowded(m, last_count, c) ==> working::compactable(m.entries)
    &&& can_cool_above(a, c.collapse_threshold_percent)
    &&& can_cool_above(b, c.auto_compact_threshold_percent)
}

/// The thinker after all layers: old entries are cooled where there are too many,
/// then early turns where they take too much, then, as the last resort, everything.
pub open spec fn shrunk(m: ThinkerModel) -> ThinkerModel {
    let c = m.compaction;
    let a = after_micro(m.memory, m.last_count, c);
    let b = cooled_above(a, c.collapse_threshold_percent);
    ThinkerModel {
        memory: cooled_above(b, c.auto_compact_threshold_percent),
        last_count: if is_crowded(m.memory, m.last_count, c) {
            m.memory.entries.len() as usize
        } else {
            m.last_count
        },
        ..m
    }
}

/// The percentage of the budget that the entries take.
fn usage_percent(memory: &WorkingMemory) -> (r: u32)
    requires
        working::total_tokens(memory@.entries) * 100 <= u32::MAX,
    ensures
        r == usage(memory@),
{
    let used: u32 = memory.used_tokens();
    let max: u32 = memory.max_tokens();
    if max > 0 {
        (used * 100) / max
    } else {
        0
    }
}

/// Whether a layer can be run.
fn layer_fits(memory: &WorkingMemory, percent: u32) -> (r: bool)
    ensures
        r == can_cool_above(memory@, percent),
{
    match memory.counted_tokens() {
        Some(used) => {
            if used > u32::MAX / 100 {
                return false;
            }
            usage_percent(memory) <= percent || memory.can_compact()
        },
        None => false,
    }
}

/// Runs a layer.
fn run_layer(memory: &mut WorkingMemory, percent: u32)
    requires
        can_cool_above(old(memory)@, percent),
    ensures
        final(memory)@ == cooled_above(old(memory)@, percent),
{
    if usage_percent(memory) > percent {
        memory.compact();
    }
}

impl ThinkerNode {
    /// What the heat of each entry of the context depends on, at the end of the
    /// turn.
    pub fn heat_facts(&self) -> (r: Vec<HeatFacts>)
        requires
            self@.turns < u32::MAX,
        ensures
            r@ == Seq::new(
                self@.memory.entries.len(),
                |i: int| facts_of(self@.memory.entries[i], i, (self@.turns + 1) as u32),
            ),
    {
        let turns: u32 = self.turns_executed + 1;
        let entries = self.working_memory.entries();
        let ghost all = self@.memory.entries;
        let mut out: Vec<HeatFacts> = Vec::new();
        let mut i: usize = 0;
        while i < entries.len()
            invariant
                i <= entries@.len(),
                all == working::entry_models(entries@),
                out@.len() == i,
                forall|j: int| 0 <= j < i ==> #[trigger] out@[j] == facts_of(all[j], j, turns),
            decreases entries@.len() - i,
        {
            assert(all[i as int] == entries@[i as int]@);
            let elapsed: u32 = if i as u64 <= turns as u64 {
                turns - i as u32
            } else {
                0
            };
            let (is_user, is_model, bracket): (bool, bool, bool) = match &entries[i] {
                WorkingEntry::Hot { role, content, .. } => {
                    let chars = ops::chars_of(content.as_str());
                    (
                        ops::same_text(role.as_str(), "user"),
                        ops::same_text(role.as_str(), "assistant"),
                        ops::starts_with(chars.as_slice(), "["),
                    )
                },
                _ => (false, false, false),
            };
            proof {
                reveal_strlit("user");
                reveal_strlit("assistant");
                reveal_strlit("warm");
                reveal_strlit("cold");
                assert("warm"@[0] == 'w' && "cold"@[0] == 'c');
                assert("user"@[0] == 'u' && "assistant"@[0] == 'a');
            }
            out.push(
                HeatFacts {
                    elapsed_turns: elapsed,
                    is_dialogue: is_user || is_model,
                    is_tool_result: is_user && bracket,
                },
            );
            i = i + 1;
        }
        assert(out@ =~= Seq::new(
            all.len(),
            |i: int| facts_of(all[i], i, (self@.turns + 1) as u32),
        ));
        out
    }

    /// The entries of the context as messages for the window.
    fn window_messages(&self, heats: &Vec<i64>) -> (r: Vec<MessageMeta>)
        requires
            heats@.len() == self@.memory.entries.len(),
        ensures
            window::meta_models(r@) == metas(self@.memory.entries, heats@),
    {
        let entries = self.working_memory.entries();
        let ghost all = self@.memory.entries;
        assert(all.len() == entries@.len());
        let mut out: Vec<MessageMeta> = Vec::new();
        let mut i: usize = 0;
        while i < entries.len()
            invariant
                i <= entries@.len(),
                all == working::entry_models(entries@),
                heats@.len() == entries@.len(),
                out@.len() == i,
                forall|j: int|
                    0 <= j < i ==> (#[trigger] out@[j])@ == meta_of(all[j], heats@[j], j),
            decreases entries@.len() - i,
        {
            assert(all[i as int] == entries@[i as int]@);
            let (role, content): (String, String) = match &entries[i] {
                WorkingEntry::Hot { role, content, .. } => (role.clone(), content.clone()),
                WorkingEntry::Warm { summary, .. } => (String::from_str("warm"), summary.clone()),
                WorkingEntry::Cold { placeholder, .. } => (
                    String::from_str("cold"),
                    placeholder.clone(),
                ),
            };
            out.push(
                MessageMeta {
                    heat: heats[i],
                    role,
                    content,
                    token_count: entries[i].token_count(),
                    source_range: (i, i + 1),
                },
            );
            i = i + 1;
        }
        assert(window::meta_models(out@) =~= metas(all, heats@));
        out
    }

    /// Ends a turn: puts the context into the window. `heats` holds the heat of
    /// each entry.
    pub fn update_context_window(&mut self, heats: &Vec<i64>)
        requires
            old(self).wf(),
            old(self)@.turns < u32::MAX,
            heats@.len() == old(self)@.memory.entries.len(),
        ensures
            final(self).wf(),
            final(self)@ == windowed(old(self)@, heats@),
    {
        self.turns_executed = self.turns_executed + 1;
        let messages = self.window_messages(heats);
        let updated = self.sliding_window.update(&messages);
        proof {
            window::law_window_keeps_every_message(
                metas(self@.memory.entries, heats@),
                self.sliding_window.thresholds,
                self.sliding_window.max_tokens as nat,
            );
            assert(working::entry_models(updated@).len() == updated@.len());
        }
        if updated.len() > 0 {
            self.working_memory.replace_entries(updated);
        } else {
            assert(self@.memory.entries =~= working::entry_models(updated@));
        }
    }

    /// Whether the layers of compaction can be run: no text would be cut inside a
    /// character, and the tokens can be counted.
    pub fn can_run_compaction(&self) -> (r: bool)
        ensures
            r == can_shrink(self@.memory, self@.last_count, self@.compaction),
    {
        let c = self.compaction_config;
        let mut copy = self.working_memory.clone();
        match copy.counted_tokens() {
            Some(used) => {
                if used > u32::MAX / 100 {
                    return false;
                }
            },
            None => {
                return false;
            },
        }
        let count: usize = copy.entries().len();
        assert(copy@.entries.len() == count);
        if count > c.microcompact_threshold && count > self.last_microcompact_count {
            if !copy.can_compact() {
                return false;
            }
            copy.compact();
        }
        if !layer_fits(&copy, c.collapse_threshold_percent) {
            return false;
        }
        run_layer(&mut copy, c.collapse_threshold_percent);
        layer_fits(&copy, c.auto_compact_threshold_percent)
    }

    /// Runs the layers of compaction, before the model is asked again.
    pub fn run_compaction_pipeline(&mut self)
        requires
            old(self).wf(),
            can_shrink(old(self)@.memory, old(self)@.last_count, old(self)@.compaction),
        ensures
            final(self).wf(),
            final(self)@ == shrunk(old(self)@),
    {
        let c = self.compaction_config;
        let count: usize = self.working_memory.entries().len();
        assert(self@.memory.entries.len() == count);
        if count > c.microcompact_threshold && count > self.last_microcompact_count {
            self.working_memory.compact();
            self.last_microcompact_count = count;
        }
        run_layer(&mut self.working_memory, c.collapse_threshold_percent);
        run_layer(&mut self.working_memory, c.auto_compact_threshold_percent);
    }
}

/// Compaction loses no entry, and leaves alone a context that is neither crowded
/// nor near its budget.
pub proof fn law_compaction_is_gentle(m: ThinkerModel)
    ensures
        shrunk(m).memory.entries.len() == m.memory.entries.len(),
        m.memory.entries.len() <= m.compaction.microcompact_threshold && usage(m.memory)
            <= m.compaction.collapse_threshold_percent && usage(m.memory)
            <= m.compaction.auto_compact_threshold_percent ==> shrunk(m) == m,
{
}

/// Compaction for the number of entries alone is not done twice: it waits until
/// there are more entries than it has left.
pub proof fn law_crowd_is_cooled_once(m: ThinkerModel)
    requires
        m.memory.entries.len() <= usize::MAX,
    ensures
        !is_crowded(shrunk(m).memory, shrunk(m).last_count, m.compaction),
{
}

/// A turn that ends loses no entry of the context.
pub proof fn law_window_loses_no_entry(m: ThinkerModel, heats: Seq<i64>)
    requires
        heats.len() == m.memory.entries.len(),
    ensures
        windowed(m, heats).memory.entries.len() == m.memory.entries.len(),
{
    window::law_window_keeps_every_message(
        metas(m.memory.entries, heats),
        m.window.thresholds,
        m.window.max_tokens as nat,
    );
}

/// How far a memory is filled, in whole percent.
pub proof fn law_usage_is_in_percent(m: WorkingModel)
    ensures
        m.max_tokens == 0 ==> usage(m) == 0,
        m.max_tokens > 0 ==> usage(m) * m.max_tokens <= working::total_tokens(m.entries) * 100 && (
        usage(m) + 1) * m.max_tokens > working::total_tokens(m.entries) * 100,
{
    if m.max_tokens > 0 {
        let a = (working::total_tokens(m.entries) * 100) as int;
        let d = m.max_tokens as int;
        assert(a / d * d <= a && (a / d + 1) * d > a) by (nonlinear_arith)
            requires
                d > 0,
        ;
    }
}

/// A memory is cooled where it holds too many entries, where it is filled too far, and once
/// more where that was not enough; else it is left as it is.
pub proof fn law_memory_is_cooled_step_by_step(m: ThinkerModel)
    ensures
        ({
            let c = m.compaction;
            let crowded = m.memory.entries.len() > c.microcompact_threshold
                && m.memory.entries.len() > m.last_count;
            let once = WorkingModel { entries: working::compacted(m.memory.entries), ..m.memory };
            let r = shrunk(m);
            &&& crowded ==> r.last_count == m.memory.entries.len() as usize
            &&& !crowded ==> r.last_count == m.last_count
            &&& !crowded && usage(m.memory) <= c.collapse_threshold_percent && usage(m.memory)
                <= c.auto_compact_threshold_percent ==> r == m
            &&& crowded && usage(once) <= c.collapse_threshold_percent && usage(once)
                <= c.auto_compact_threshold_percent ==> r.memory == once
            &&& !crowded && usage(m.memory) > c.collapse_threshold_percent && usage(once)
                <= c.auto_compact_threshold_percent ==> r.memory == once
            &&& !crowded && usage(m.memory) > c.collapse_threshold_percent && usage(once)
                > c.auto_compact_threshold_percent ==> r.memory.entries == working::compacted(
                once.entries,
            )
        }),
{
}

/// What the heat of an entry is computed from: how many turns ago it was, whether it
/// belongs to the talk, and whether it is what a tool has put out.
pub proof fn law_facts_of_an_entry(e: EntryModel, i: int, turns: u32)
    requires
        0 <= i,
    ensures
        i <= turns ==> facts_of(e, i, turns).elapsed_turns == turns - i,
        i > turns ==> facts_of(e, i, turns).elapsed_turns == 0,
        e matches EntryModel::Hot { role, content, .. } ==> {
            &&& facts_of(e, i, turns).is_dialogue <==> role == "user"@ || role == "assistant"@
            &&& facts_of(e, i, turns).is_tool_result <==> role == "user"@ && model::starts_with(
                content,
                "["@,
            )
        },
        !(e is Hot) ==> !facts_of(e, i, turns).is_dialogue && !facts_of(e, i, turns).is_tool_result,
{
    reveal_strlit("user");
    reveal_strlit("assistant");
    reveal_strlit("warm");
    reveal_strlit("cold");
    assert("user"@.len() == 4 && "assistant"@.len() == 9 && "warm"@.len() == 4 && "cold"@.len() == 4);
    assert("user"@[0] == 'u' && "warm"@[0] == 'w');
    assert("cold"@[0] == 'c' && "user"@[0] == 'u');
    assert("cold"@[0] == 'c' && "warm"@[0] == 'w');
}

/// An entry is weighed by its heat with its role, its text, its tokens and its place.
pub proof fn law_entries_are_weighed(v: Seq<EntryModel>, heats: Seq<i64>, i: int)
    requires
        0 <= i < v.len() < usize::MAX,
        heats.len() == v.len(),
    ensures
        metas(v, heats).len() == v.len(),
        metas(v, heats)[i].heat == heats[i],
        metas(v, heats)[i].source_range == (i as usize, (i + 1) as usize),
        v[i] matches EntryModel::Hot { role, content, token_count } ==> metas(v, heats)[i].role
            == role && metas(v, heats)[i].content == content && (token_count <= u32::MAX ==> metas(
            v,
            heats,
        )[i].token_count == token_count),
        v[i] matches EntryModel::Warm { summary, .. } ==> metas(v, heats)[i].content == summary,
        v[i] matches EntryModel::Cold { placeholder, .. } ==> metas(v, heats)[i].content
            == placeholder,
{
}

/// A turn that ends is counted. Where there is room, an entry that is still hot stands in
/// the window as it was said.
pub proof fn law_hot_entries_stay_in_the_window(m: ThinkerModel, heats: Seq<i64>, i: int)
    requires
        heats.len() == m.memory.entries.len(),
        0 <= i < m.memory.entries.len(),
        m.turns < u32::MAX,
        window::wanted(metas(m.memory.entries, heats), m.window.thresholds, heats.len())
            <= m.window.max_tokens,
        heats[i] >= m.window.thresholds.warm,
        m.memory.entries[i] is Hot,
        m.memory.entries[i]->role == "user"@ || m.memory.entries[i]->role == "assistant"@
            || m.memory.entries[i]->role == "system"@ || m.memory.entries[i]->role == "tool"@,
        m.memory.entries[i]->Hot_token_count <= u32::MAX,
    ensures
        windowed(m, heats).turns == m.turns + 1,
        windowed(m, heats).memory.entries.contains(m.memory.entries[i]),
        windowed(m, heats).outbox == m.outbox,
{
    let v = metas(m.memory.entries, heats);
    window::law_all_are_shown_where_they_fit(
        v,
        m.window.thresholds,
        m.window.max_tokens as nat,
        i,
    );
    let k = window::law_form_follows_heat(v[i], m.window.thresholds);
}

/// Unless another configuration is set, a context of more than twenty entries is cooled when
/// entries have come to it, and one that takes more than eighty-five percent of its budget
/// is cooled in any case.
pub proof fn law_usual_limits(m: ThinkerModel)
    requires
        m.compaction == default_config(),
    ensures
        m.memory.entries.len() > 20 && m.memory.entries.len() > m.last_count ==> shrunk(
            m,
        ).last_count == m.memory.entries.len() as usize,
        m.memory.entries.len() <= 20 ==> shrunk(m).last_count == m.last_count,
        m.memory.entries.len() <= 20 && usage(m.memory) <= 85 ==> shrunk(m).memory == m.memory,
        m.memory.entries.len() <= 20 && usage(m.memory) > 85 && usage(cooler(m.memory)) <= 95
            ==> shrunk(m).memory == cooler(m.memory),
{
}

} // verus!
