//! The thinker: the node that decides.
//!
//! It hears what the user says, asks the model, has tools called, senses their
//! results, and keeps the context within its budget. What it has decided to send
//! stands in its outbox until the caller takes it from there.

pub mod compaction;
pub mod events;
pub mod goal;
pub mod memory_bridge;
pub mod sampling;
pub mod sensory;

use crate::memory::heat::HeatThresholds;
use crate::memory::short_term::{ShortTermMemory, ShortTermModel};
use crate::memory::window::SlidingWindow;
use crate::memory::working;
use crate::memory::working::{EntryModel, WorkingEntry, WorkingMemory, WorkingModel};
use crate::message::frame;
use crate::message::topic::Topic;
use crate::node::payload;
use crate::node::payload::{Outgoing, OutgoingModel, Payload, Plane};
use crate::node::thinker::compaction::CompactionConfig;
use crate::node::thinker::sensory::{SensorySignal, SignalModel};
use crate::node::{NodeId, NodeType, PermissionMode};
use crate::outside;
use crate::text::text_map;
use crate::text::text_map::TextMap;
use crate::text::{model, ops};
use vstd::prelude::*;
use vstd::string::*;

verus! {

/// What an agent is doing.
#[derive(Debug, Clone, Copy, PartialEq, Eq, Structural)]
pub enum AgentState {
    Idle,
    Thinking,
    ToolCalling,
    Outputting,
    Done,
    Error,
}

/// A tool that the model may call.
#[derive(Debug)]
pub struct ToolDefinition {
    /// The name of the tool.
    pub name: String,
    /// The whole definition, in JSON notation.
    pub definition: String,
}

/// What a definition holds.
#[verifier::ext_equal]
pub struct ToolModel {
    pub name: Seq<char>,
    pub definition: Seq<char>,
}

impl View for ToolDefinition {
    type V = ToolModel;

    open spec fn view(&self) -> ToolModel {
        ToolModel { name: self.name@, definition: self.definition@ }
    }
}

/// The definitions that a list holds.
pub open spec fn tool_models(v: Seq<ToolDefinition>) -> Seq<ToolModel> {
    v.map_values(|t: ToolDefinition| t@)
}

/// How an agent works.
#[derive(Debug)]
pub struct AgentConfig {
    /// The model that is asked.
    pub model: String,
    /// What the agent may do without asking.
    pub permission_mode: PermissionMode,
    /// After how many turns it ends.
    pub max_turns: Option<u32>,
    /// Whether it may start other agents.
    pub subagents_enabled: bool,
    /// Whether there is nobody to ask.
    pub non_interactive: bool,
    /// The tools.
    pub tools: Vec<ToolDefinition>,
}

/// A call of a tool that the model has asked for.
#[derive(Debug)]
pub struct PendingToolCall {
    /// Names the call.
    pub tool_call_id: String,
    /// The tool.
    pub tool_name: String,
    /// The arguments, in JSON notation.
    pub arguments: String,
}

/// What a call holds.
#[verifier::ext_equal]
pub struct CallModel {
    pub tool_call_id: Seq<char>,
    pub tool_name: Seq<char>,
    pub arguments: Seq<char>,
}

impl View for PendingToolCall {
    type V = CallModel;

    open spec fn view(&self) -> CallModel {
        CallModel {
            tool_call_id: self.tool_call_id@,
            tool_name: self.tool_name@,
            arguments: self.arguments@,
        }
    }
}

impl Clone for PendingToolCall {
    fn clone(&self) -> (r: Self)
        ensures
            r@ == self@,
    {
        PendingToolCall {
            tool_call_id: self.tool_call_id.clone(),
            tool_name: self.tool_name.clone(),
            arguments: self.arguments.clone(),
        }
    }
}

/// The calls under the keys of a map.
pub open spec fn shown_calls(m: Map<Seq<char>, PendingToolCall>) -> Map<Seq<char>, CallModel> {
    Map::new(|k: Seq<char>| m.contains_key(k), |k: Seq<char>| m[k]@)
}

/// What the model is asked. The answer is streamed.
#[derive(Debug)]
pub struct SampleRequest {
    pub request_id: String,
    pub agent_id: String,
    pub model: String,
    /// Who has said what.
    pub messages: Vec<(String, String)>,
    pub tools: Vec<ToolDefinition>,
}

/// What a request holds.
#[verifier::ext_equal]
pub struct RequestModel {
    pub request_id: Seq<char>,
    pub agent_id: Seq<char>,
    pub model: Seq<char>,
    pub messages: Seq<(Seq<char>, Seq<char>)>,
    pub tools: Seq<ToolModel>,
}

impl View for SampleRequest {
    type V = RequestModel;

    open spec fn view(&self) -> RequestModel {
        RequestModel {
            request_id: self.request_id@,
            agent_id: self.agent_id@,
            model: self.model@,
            messages: working::text_pairs(self.messages@),
            tools: tool_models(self.tools@),
        }
    }
}

/// An entry of the working memory, as it is saved.
#[derive(Debug)]
pub struct SavedEntry {
    pub role: String,
    pub content: String,
    pub tokens: u32,
}

/// What a saved entry holds.
#[verifier::ext_equal]
pub struct SavedModel {
    pub role: Seq<char>,
    pub content: Seq<char>,
    pub tokens: u32,
}

impl View for SavedEntry {
    type V = SavedModel;

    open spec fn view(&self) -> SavedModel {
        SavedModel { role: self.role@, content: self.content@, tokens: self.tokens }
    }
}

/// The saved entries that a list holds.
pub open spec fn saved_models(v: Seq<SavedEntry>) -> Seq<SavedModel> {
    v.map_values(|e: SavedEntry| e@)
}

/// A saved entry in MessagePack.
pub open spec fn saved_bytes(e: SavedModel) -> Seq<u8> {
    outside::packed(
        seq![
            payload::text_field("role"@, e.role),
            payload::text_field("content"@, e.content),
            payload::number_field("tokens"@, e.tokens as u64),
        ],
    )
}

/// Saved entries as a list in MessagePack.
fn saved_list(entries: &Vec<SavedEntry>) -> (r: Vec<u8>)
    ensures
        r@ == outside::packed_list(
            saved_models(entries@).map_values(|e: SavedModel| saved_bytes(e)),
        ),
{
    let ghost all = saved_models(entries@).map_values(|e: SavedModel| saved_bytes(e));
    let mut parts: Vec<Vec<u8>> = Vec::new();
    let total: usize = entries.len();
    let mut i: usize = 0;
    while i < total
        invariant
            i <= total,
            total == entries@.len(),
            all == saved_models(entries@).map_values(|e: SavedModel| saved_bytes(e)),
            frame::frame_bytes(parts@) == all.take(i as int),
        decreases total - i,
    {
        let e = &entries[i];
        let fields = Payload::new().text("role", e.role.as_str()).text(
            "content",
            e.content.as_str(),
        ).number("tokens", e.tokens as u64);
        assert(fields@ =~= seq![
            payload::text_field("role"@, e@.role),
            payload::text_field("content"@, e@.content),
            payload::number_field("tokens"@, e@.tokens as u64),
        ]);
        let ghost before = frame::frame_bytes(parts@);
        parts.push(outside::pack(&fields));
        assert(frame::frame_bytes(parts@) =~= before.push(all[i as int]));
        assert(all.take(i as int + 1) =~= all.take(i as int).push(all[i as int]));
        i += 1;
    }
    assert(all.take(total as int) =~= all);
    outside::pack_list(&parts)
}

/// What the thinker has decided to do.
#[derive(Debug)]
pub enum ThinkerAction {
    /// Send a message.
    Send(Outgoing),
    /// Ask the model: a message on `sampler/request`, to the subscribers directly.
    Sample(SampleRequest),
    /// Have a tool called: a message on the agent's topic for that, to the
    /// subscribers directly.
    Call(PendingToolCall),
    /// Tell the kernel of errors: a message on `sensory/nose/compile_error`; a
    /// failure is passed over.
    Smell(Vec<String>),
    /// Have the working memory saved: a message on `state/persist`; a failure is
    /// passed over.
    Persist(Vec<SavedEntry>, u32),
    /// Tell the kernel of the way that the task has taken, in JSON notation: a
    /// message on `cortex/erl_trajectory`; a failure is passed over.
    Trajectory(String),
    /// Forget another agent, which has ended.
    Forget(String),
    /// Have the detector of loops note a call, by its tool and a hash of its
    /// arguments.
    Note(String, u64),
    /// Have the detector of loops be satisfied with this many repetitions.
    SlowDown(usize),
}

/// What an action holds.
#[verifier::ext_equal]
pub enum ActionModel {
    Send(OutgoingModel),
    Sample(RequestModel),
    Call(CallModel),
    Smell(Seq<Seq<char>>),
    Persist(Seq<SavedModel>, u32),
    Trajectory(Seq<char>),
    Forget(Seq<char>),
    Note(Seq<char>, u64),
    SlowDown(usize),
}

impl View for ThinkerAction {
    type V = ActionModel;

    open spec fn view(&self) -> ActionModel {
        match *self {
            ThinkerAction::Send(o) => ActionModel::Send(o@),
            ThinkerAction::Sample(r) => ActionModel::Sample(r@),
            ThinkerAction::Call(c) => ActionModel::Call(c@),
            ThinkerAction::Smell(v) => ActionModel::Smell(model::texts(v@)),
            ThinkerAction::Persist(v, n) => ActionModel::Persist(saved_models(v@), n),
            ThinkerAction::Trajectory(s) => ActionModel::Trajectory(s@),
            ThinkerAction::Forget(s) => ActionModel::Forget(s@),
            ThinkerAction::Note(s, n) => ActionModel::Note(s@, n),
            ThinkerAction::SlowDown(n) => ActionModel::SlowDown(n),
        }
    }
}

/// The actions that a list holds.
pub open spec fn action_models(v: Seq<ThinkerAction>) -> Seq<ActionModel> {
    v.map_values(|a: ThinkerAction| a@)
}

/// The thinker.
#[derive(Debug)]
pub struct ThinkerNode {
    pub id: NodeId,
    pub config: AgentConfig,
    pub state: AgentState,
    /// What stands in the model's context.
    pub working_memory: WorkingMemory,
    /// Every message of the session.
    pub short_term_memory: ShortTermMemory,
    /// A tool that is left out of the next request.
    pub disabled_tool_next_round: Option<String>,
    pub sliding_window: SlidingWindow,
    pub compaction_config: CompactionConfig,
    /// How many entries the last small compaction has left.
    pub last_microcompact_count: usize,
    /// The calls that the model has asked for.
    pub pending_tool_calls: TextMap<PendingToolCall>,
    /// The tools whose results are awaited, by their calls.
    pub pending_tool_results: TextMap<String>,
    /// The request that is being answered.
    pub current_sample_request_id: Option<String>,
    pub turns_executed: u32,
    /// The last signals of the senses.
    pub sensory_buffer: Vec<SensorySignal>,
    /// Whether the user has cancelled.
    pub cancel_requested: bool,
    /// Whether an input is being worked on.
    pub agentic_session_active: bool,
    /// The goal that is pursued.
    pub goal: Option<String>,
    /// How often it was tried to escape from a loop.
    pub doom_loop_escape_attempts: u32,
    /// What is to be done.
    pub outbox: Vec<ThinkerAction>,
}

/// What the thinker holds.
#[verifier::ext_equal]
pub struct ThinkerModel {
    pub id: Seq<char>,
    pub model: Seq<char>,
    pub max_turns: Option<u32>,
    pub tools: Seq<ToolModel>,
    pub state: AgentState,
    pub memory: WorkingModel,
    pub history: ShortTermModel,
    pub disabled: Option<Seq<char>>,
    pub window: SlidingWindow,
    pub compaction: CompactionConfig,
    pub last_count: usize,
    pub calls: Map<Seq<char>, CallModel>,
    pub call_order: Seq<Seq<char>>,
    pub results: Map<Seq<char>, Seq<char>>,
    pub result_order: Seq<Seq<char>>,
    pub request: Option<Seq<char>>,
    pub turns: u32,
    pub signals: Seq<SignalModel>,
    pub cancelled: bool,
    pub active: bool,
    pub goal: Option<Seq<char>>,
    pub escapes: u32,
    pub outbox: Seq<ActionModel>,
}

impl View for ThinkerNode {
    type V = ThinkerModel;

    open spec fn view(&self) -> ThinkerModel {
        ThinkerModel {
            id: self.id@,
            model: self.config.model@,
            max_turns: self.config.max_turns,
            tools: tool_models(self.config.tools@),
            state: self.state,
            memory: self.working_memory@,
            history: self.short_term_memory@,
            disabled: model::opt_text(self.disabled_tool_next_round),
            window: self.sliding_window,
            compaction: self.compaction_config,
            last_count: self.last_microcompact_count,
            calls: shown_calls(self.pending_tool_calls@),
            call_order: self.pending_tool_calls.order(),
            results: text_map::shown(self.pending_tool_results@),
            result_order: self.pending_tool_results.order(),
            request: model::opt_text(self.current_sample_request_id),
            turns: self.turns_executed,
            signals: sensory::signal_models(self.sensory_buffer@),
            cancelled: self.cancel_requested,
            active: self.agentic_session_active,
            goal: model::opt_text(self.goal),
            escapes: self.doom_loop_escape_attempts,
            outbox: action_models(self.outbox@),
        }
    }
}

/// How many tokens a text is counted as: one for every four bytes that it has
/// begun.
pub open spec fn estimate(text: Seq<char>) -> u32 {
    let n = (model::byte_len(text) + 3) / 4;
    if n > u32::MAX {
        u32::MAX
    } else {
        n as u32
    }
}

/// The thinker with one more message in its context.
pub open spec fn told(m: ThinkerModel, role: Seq<char>, text: Seq<char>, tokens: u32) -> ThinkerModel {
    ThinkerModel {
        memory: WorkingModel {
            entries: m.memory.entries.push(
                EntryModel::Hot { role: role, content: text, token_count: tokens as nat },
            ),
            ..m.memory
        },
        ..m
    }
}

/// The message by which a call, errors, the working memory or the way of a task are
/// told.
pub open spec fn announced(id: Seq<char>, a: ActionModel) -> Option<OutgoingModel> {
    match a {
        ActionModel::Call(call) => Some(
            payload::published(
                "agent/"@ + id + "/tool_call"@,
                seq![
                    payload::text_field("tool_call_id"@, call.tool_call_id),
                    payload::text_field("tool_name"@, call.tool_name),
                    payload::packed_field("arguments"@, outside::packed_json(call.arguments)),
                    payload::text_field("agent_id"@, id),
                ],
            ),
        ),
        ActionModel::Smell(errors) => Some(
            payload::whispered(
                "sensory/nose/compile_error"@,
                seq![
                    payload::number_field("error_count"@, errors.len() as u64),
                    payload::list_field("errors"@, errors),
                    payload::text_field("agent_id"@, id),
                ],
            ),
        ),
        ActionModel::Persist(entries, total) => Some(
            payload::whispered(
                "state/persist"@,
                seq![
                    payload::text_field("agent_id"@, id),
                    payload::packed_field(
                        "entries"@,
                        outside::packed_list(entries.map_values(|e: SavedModel| saved_bytes(e))),
                    ),
                    payload::number_field("total_tokens"@, total as u64),
                ],
            ),
        ),
        ActionModel::Trajectory(way) => Some(
            payload::whispered(
                "cortex/erl_trajectory"@,
                seq![
                    payload::text_field("agent_id"@, id),
                    payload::packed_field("trajectory"@, outside::packed_json(way)),
                ],
            ),
        ),
        _ => None,
    }
}

/// The thinker with one more thing to do.
pub open spec fn doing(m: ThinkerModel, a: ActionModel) -> ThinkerModel {
    ThinkerModel { outbox: m.outbox.push(a), ..m }
}

/// The thinker in another state.
pub open spec fn in_state(m: ThinkerModel, state: AgentState) -> ThinkerModel {
    ThinkerModel { state: state, ..m }
}

/// A thinker that has nothing to do.
pub open spec fn idle(
    id: Seq<char>,
    name: Seq<char>,
    max_turns: Option<u32>,
    tools: Seq<ToolModel>,
) -> ThinkerModel {
    ThinkerModel {
        id: id,
        model: name,
        max_turns: max_turns,
        tools: tools,
        state: AgentState::Idle,
        memory: WorkingModel {
            entries: Seq::empty(),
            max_tokens: 128_000,
            policy: working::default_policy(),
        },
        history: ShortTermModel { entries: Seq::empty(), current_turn: 0 },
        disabled: None,
        window: SlidingWindow {
            thresholds: HeatThresholds { cold: 0x3FC9_9999_9999_999A, warm: 0x3FD9_9999_9999_999A },
            max_tokens: 128_000,
        },
        compaction: compaction::default_config(),
        last_count: 0,
        calls: Map::empty(),
        call_order: Seq::empty(),
        results: Map::empty(),
        result_order: Seq::empty(),
        request: None,
        turns: 0,
        signals: Seq::empty(),
        cancelled: false,
        active: false,
        goal: None,
        escapes: 0,
        outbox: Seq::empty(),
    }
}

/// A role with a capital.
pub open spec fn title(role: Seq<char>) -> Seq<char> {
    if role == "user"@ {
        "User"@
    } else if role == "assistant"@ {
        "Assistant"@
    } else if role == "system"@ {
        "System"@
    } else if role == "tool"@ {
        "Tool"@
    } else {
        role
    }
}

/// Who has said what in an entry.
pub open spec fn spoken(e: EntryModel) -> (Seq<char>, Seq<char>) {
    match e {
        EntryModel::Hot { role, content, .. } => (title(role), content),
        EntryModel::Warm { summary, .. } => ("warm"@, summary),
        EntryModel::Cold { placeholder, .. } => ("cold"@, placeholder),
    }
}

/// The topics that a thinker always listens to.
pub open spec fn own_topics(id: Seq<char>) -> Seq<Seq<char>> {
    seq![
        "agent/"@ + id + "/input"@,
        "agent/"@ + id + "/tool_result"@,
        "agent/"@ + id + "/cancel"@,
        "motor/"@ + id + "/adjust"@,
        "cortex/sensory"@,
        "cortex/budget_deny"@,
        "cortex/meta_result"@,
        "cortex/erl_heuristic"@,
        "sampler/*/stream"@,
        "tool/register"@,
        "sys/shutdown"@,
    ]
}

/// The topics of the first `n` agents.
pub open spec fn agent_topics(agents: Seq<Seq<char>>, n: nat) -> Seq<Seq<char>>
    decreases n,
{
    if n == 0 {
        Seq::empty()
    } else {
        agent_topics(agents, (n - 1) as nat).push("agent/"@ + agents[n - 1] + "/output"@).push(
            "agent/"@ + agents[n - 1] + "/event"@,
        )
    }
}

/// A role with a capital.
fn role_title(role: &str) -> (r: &str)
    ensures
        r@ == title(role@),
{
    if ops::same_text(role, "user") {
        "User"
    } else if ops::same_text(role, "assistant") {
        "Assistant"
    } else if ops::same_text(role, "system") {
        "System"
    } else if ops::same_text(role, "tool") {
        "Tool"
    } else {
        role
    }
}

impl ThinkerNode {
    /// No key of a map is there twice.
    pub open spec fn wf(&self) -> bool {
        self.pending_tool_calls.wf() && self.pending_tool_results.wf()
    }

    /// A thinker that has nothing to do.
    pub fn new(id: NodeId, config: AgentConfig) -> (r: Self)
        ensures
            r.wf(),
            r@ == idle(id@, config.model@, config.max_turns, tool_models(config.tools@)),
    {
        let r = ThinkerNode {
            id,
            config,
            state: AgentState::Idle,
            working_memory: WorkingMemory::new(128_000),
            short_term_memory: ShortTermMemory::new(),
            disabled_tool_next_round: None,
            sliding_window: SlidingWindow::new(128_000),
            compaction_config: CompactionConfig::default(),
            last_microcompact_count: 0,
            pending_tool_calls: TextMap::new(),
            pending_tool_results: TextMap::new(),
            current_sample_request_id: None,
            turns_executed: 0,
            sensory_buffer: Vec::new(),
            cancel_requested: false,
            agentic_session_active: false,
            goal: None,
            doom_loop_escape_attempts: 0,
            outbox: Vec::new(),
        };
        assert(r@.calls =~= Map::empty());
        assert(r@.results =~= Map::empty());
        assert(r@.signals =~= Seq::empty());
        assert(r@.outbox =~= Seq::empty());
        r
    }

    /// What the node is.
    pub fn node_type(&self) -> (r: NodeType)
        ensures
            r == NodeType::Thinker,
    {
        NodeType::Thinker
    }

    /// The node's identifier.
    pub fn node_id(&self) -> (r: &NodeId)
        ensures
            r@ == self@.id,
    {
        &self.id
    }

    /// Begins.
    pub fn start(&mut self)
        requires
            old(self).wf(),
        ensures
            final(self).wf(),
            final(self)@ == in_state(old(self)@, AgentState::Idle),
    {
        self.state = AgentState::Idle;
    }

    /// Ends, and returns who has said what, for a long-term memory to keep.
    pub fn stop(&mut self) -> (r: Vec<(String, String)>)
        requires
            old(self).wf(),
        ensures
            final(self).wf(),
            final(self)@ == in_state(old(self)@, AgentState::Done),
            working::text_pairs(r@) == old(self)@.memory.entries.map_values(
                |e: EntryModel| spoken(e),
            ),
    {
        let ghost all = self@.memory.entries;
        let ghost said = all.map_values(|e: EntryModel| spoken(e));
        let entries = self.working_memory.entries();
        let mut out: Vec<(String, String)> = Vec::new();
        let mut i: usize = 0;
        while i < entries.len()
            invariant
                i <= entries@.len(),
                all == working::entry_models(entries@),
                said == all.map_values(|e: EntryModel| spoken(e)),
                out@.len() == i,
                forall|j: int|
                    0 <= j < i ==> ((#[trigger] out@[j]).0@, out@[j].1@) == said[j],
            decreases entries@.len() - i,
        {
            assert(all[i as int] == entries@[i as int]@);
            let pair = match &entries[i] {
                WorkingEntry::Hot { role, content, .. } => (
                    String::from_str(role_title(role.as_str())),
                    content.clone(),
                ),
                WorkingEntry::Warm { summary, .. } => (String::from_str("warm"), summary.clone()),
                WorkingEntry::Cold { placeholder, .. } => (
                    String::from_str("cold"),
                    placeholder.clone(),
                ),
            };
            assert((pair.0@, pair.1@) == said[i as int]);
            out.push(pair);
            i = i + 1;
        }
        assert(working::text_pairs(out@) =~= said);
        self.state = AgentState::Done;
        out
    }

    /// The topics that the node listens to, with those of the agents that it has
    /// started.
    pub fn subscriptions(&self, subagents: &Vec<String>) -> (r: Vec<String>)
        ensures
            model::texts(r@) == own_topics(self@.id) + agent_topics(
                model::texts(subagents@),
                subagents@.len(),
            ),
    {
        let id = self.id.as_str();
        let mut out: Vec<String> = Vec::new();
        out.push(ops::concat3("agent/", id, "/input"));
        out.push(ops::concat3("agent/", id, "/tool_result"));
        out.push(ops::concat3("agent/", id, "/cancel"));
        out.push(ops::concat3("motor/", id, "/adjust"));
        out.push(String::from_str("cortex/sensory"));
        out.push(String::from_str("cortex/budget_deny"));
        out.push(String::from_str("cortex/meta_result"));
        out.push(String::from_str("cortex/erl_heuristic"));
        out.push(String::from_str("sampler/*/stream"));
        out.push(String::from_str("tool/register"));
        out.push(String::from_str("sys/shutdown"));
        let ghost own = own_topics(self@.id);
        let ghost others = model::texts(subagents@);
        assert(model::texts(out@) =~= own);
        assert(own + agent_topics(others, 0) =~= own);
        let mut i: usize = 0;
        while i < subagents.len()
            invariant
                i <= subagents@.len(),
                others == model::texts(subagents@),
                model::texts(out@) == own + agent_topics(others, i as nat),
            decreases subagents@.len() - i,
        {
            assert(others[i as int] == subagents@[i as int]@);
            let ghost before = model::texts(out@);
            let name = subagents[i].as_str();
            out.push(ops::concat3("agent/", name, "/output"));
            out.push(ops::concat3("agent/", name, "/event"));
            assert(model::texts(out@) =~= before.push("agent/"@ + name@ + "/output"@).push(
                "agent/"@ + name@ + "/event"@,
            ));
            assert(own + agent_topics(others, (i + 1) as nat) =~= (own + agent_topics(
                others,
                i as nat,
            )).push("agent/"@ + name@ + "/output"@).push("agent/"@ + name@ + "/event"@));
            i = i + 1;
        }
        out
    }

    /// The topics that the node publishes on.
    pub fn published_topics(&self) -> (r: Vec<String>)
        ensures
            model::texts(r@) == seq![
                "agent/"@ + self@.id + "/output"@,
                "agent/"@ + self@.id + "/tool_call"@,
            ],
    {
        let id = self.id.as_str();
        let mut out: Vec<String> = Vec::new();
        out.push(ops::concat3("agent/", id, "/output"));
        out.push(ops::concat3("agent/", id, "/tool_call"));
        assert(model::texts(out@) =~= seq![
            "agent/"@ + self@.id + "/output"@,
            "agent/"@ + self@.id + "/tool_call"@,
        ]);
        out
    }

    /// How many tokens a text is counted as.
    pub fn estimate_tokens(text: &str) -> (r: u32)
        ensures
            r == estimate(text@),
    {
        let size: usize = ops::text_byte_len(text);
        let quarters: usize = size / 4 + if size % 4 == 0 {
            0
        } else {
            1
        };
        if quarters > u32::MAX as usize {
            u32::MAX
        } else {
            quarters as u32
        }
    }

    /// Adds a message to the context.
    pub fn tell(&mut self, role: &str, text: String, tokens: u32)
        requires
            old(self).wf(),
        ensures
            final(self).wf(),
            final(self)@ == told(old(self)@, role@, text@, tokens),
    {
        self.working_memory.push_hot(String::from_str(role), text, tokens);
    }

    /// Adds an action to the outbox.
    fn act(&mut self, action: ThinkerAction)
        requires
            old(self).wf(),
        ensures
            final(self).wf(),
            final(self)@ == doing(old(self)@, action@),
    {
        let ghost before = self@.outbox;
        let ghost shown = action@;
        self.outbox.push(action);
        assert(self@.outbox =~= before.push(shown));
    }

    /// Takes what is to be done out of the outbox.
    pub fn take_actions(&mut self) -> (r: Vec<ThinkerAction>)
        requires
            old(self).wf(),
        ensures
            final(self).wf(),
            action_models(r@) == old(self)@.outbox,
            final(self)@ == (ThinkerModel { outbox: Seq::empty(), ..old(self)@ }),
    {
        let mut out: Vec<ThinkerAction> = Vec::new();
        std::mem::swap(&mut out, &mut self.outbox);
        assert(self@.outbox =~= Seq::empty());
        out
    }

    /// The message by which a call, errors, the working memory or the way of a task
    /// are told.
    pub fn announcement(&self, action: &ThinkerAction) -> (r: Option<Outgoing>)
        ensures
            match r {
                Some(o) => announced(self@.id, action@) == Some(o@),
                None => announced(self@.id, action@) is None,
            },
    {
        let id = self.id.as_str();
        let (topic, body, plane) = match action {
            ThinkerAction::Call(call) => (
                Topic::agent_tool_call(id),
                Payload::new().text("tool_call_id", call.tool_call_id.as_str()).text(
                    "tool_name",
                    call.tool_name.as_str(),
                ).packed("arguments", outside::pack_json(call.arguments.as_str())).text("agent_id", id),
                Plane::Data,
            ),
            ThinkerAction::Smell(errors) => (
                Topic::new("sensory/nose/compile_error"),
                Payload::new().number("error_count", errors.len() as u64).list("errors", errors).text("agent_id", id),
                Plane::Quiet,
            ),
            ThinkerAction::Persist(entries, total) => (
                Topic::new("state/persist"),
                Payload::new().text("agent_id", id).packed("entries", saved_list(entries)).number("total_tokens", *total as u64),
                Plane::Quiet,
            ),
            ThinkerAction::Trajectory(way) => (
                Topic::new("cortex/erl_trajectory"),
                Payload::new().text("agent_id", id).packed("trajectory", outside::pack_json(way.as_str())),
                Plane::Quiet,
            ),
            _ => {
                return None;
            },
        };
        let out = Outgoing { topic, payload: body, plane };
        assert(announced(self@.id, action@)->0.payload =~= out@.payload);
        Some(out)
    }
}

/// A token is taken for every four bytes, and for what is left of them.
pub proof fn law_four_bytes_are_a_token(text: Seq<char>)
    requires
        model::byte_len(text) <= u32::MAX,
    ensures
        4 * estimate(text) >= model::byte_len(text),
        4 * estimate(text) < model::byte_len(text) + 4,
{
}

/// What a thinker is told stands last in its memory, in its role and with its whole text,
/// and nothing else changes.
pub proof fn law_what_is_told_is_kept(m: ThinkerModel, role: Seq<char>, text: Seq<char>, tokens: u32)
    ensures
        ({
            let r = told(m, role, text, tokens);
            &&& r.memory.entries.len() == m.memory.entries.len() + 1
            &&& r.memory.entries.drop_last() == m.memory.entries
            &&& r.memory.entries.last() == (EntryModel::Hot {
                role: role,
                content: text,
                token_count: tokens as nat,
            })
            &&& r.outbox == m.outbox && r.history == m.history && r.state == m.state && r.request
                == m.request
        }),
{
    assert(told(m, role, text, tokens).memory.entries.drop_last() =~= m.memory.entries);
}

/// A call is announced to the tools under the agent's name: which tool, with what, and
/// under which name of the call.
pub proof fn law_call_is_announced(id: Seq<char>, call: CallModel)
    ensures
        ({
            &&& announced(id, ActionModel::Call(call)) matches Some(o)
            &&& o.topic == "agent/"@ + id + "/tool_call"@
            &&& payload::text_at(o.payload, "tool_call_id"@) == Some(call.tool_call_id)
            &&& payload::text_at(o.payload, "tool_name"@) == Some(call.tool_name)
            &&& payload::field(o.payload, "arguments"@) == payload::FieldModel::Packed(
                outside::packed_json(call.arguments),
            )
            &&& payload::text_at(o.payload, "agent_id"@) == Some(id)
        }),
{
    reveal_strlit("tool_call_id");
    reveal_strlit("tool_name");
    reveal_strlit("arguments");
    reveal_strlit("agent_id");
    assert("tool_call_id"@.len() == 12 && "tool_name"@.len() == 9 && "arguments"@.len() == 9 && "agent_id"@.len() == 8);
    assert("arguments"@[0] == 'a' && "tool_name"@[0] == 't');
    let p = announced(id, ActionModel::Call(call))->0.payload;
    payload::law_field_is_read_by_name(p, 0);
    payload::law_field_is_read_by_name(p, 1);
    payload::law_field_is_read_by_name(p, 2);
    payload::law_field_is_read_by_name(p, 3);
}

/// Errors that were smelled, a context that is saved and a way that was gone are told
/// under their topics, each with the agent's name; other actions are not announced.
pub proof fn law_actions_are_announced(
    id: Seq<char>,
    errors: Seq<Seq<char>>,
    entries: Seq<SavedModel>,
    total: u32,
    way: Seq<char>,
    a: ActionModel,
)
    requires
        errors.len() <= u64::MAX,
    ensures
        ({
            &&& announced(id, ActionModel::Smell(errors)) matches Some(o)
            &&& o.topic == "sensory/nose/compile_error"@
            &&& payload::number_or(o.payload, "error_count"@, 0) == errors.len()
            &&& payload::text_at(o.payload, "agent_id"@) == Some(id)
        }),
        ({
            &&& announced(id, ActionModel::Persist(entries, total)) matches Some(o)
            &&& o.topic == "state/persist"@
            &&& payload::number_or(o.payload, "total_tokens"@, 0) == total
            &&& payload::text_at(o.payload, "agent_id"@) == Some(id)
        }),
        ({
            &&& announced(id, ActionModel::Trajectory(way)) matches Some(o)
            &&& o.topic == "cortex/erl_trajectory"@
            &&& payload::text_at(o.payload, "agent_id"@) == Some(id)
        }),
        a is Send || a is Sample || a is Forget || a is Note || a is SlowDown ==> announced(id, a) is None,
{
    reveal_strlit("error_count");
    reveal_strlit("errors");
    reveal_strlit("agent_id");
    reveal_strlit("entries");
    reveal_strlit("total_tokens");
    reveal_strlit("trajectory");
    assert("error_count"@.len() == 11 && "errors"@.len() == 6 && "agent_id"@.len() == 8 && "entries"@.len() == 7 && "total_tokens"@.len() == 12 && "trajectory"@.len() == 10);
    let p = announced(id, ActionModel::Smell(errors))->0.payload;
    payload::law_field_is_read_by_name(p, 0);
    payload::law_field_is_read_by_name(p, 2);
    let q = announced(id, ActionModel::Persist(entries, total))->0.payload;
    payload::law_field_is_read_by_name(q, 0);
    payload::law_field_is_read_by_name(q, 2);
    let r = announced(id, ActionModel::Trajectory(way))->0.payload;
    payload::law_field_is_read_by_name(r, 0);
}

/// The roles by the names that a reader sees; a role of another name keeps it.
pub proof fn law_roles_have_titles(role: Seq<char>)
    ensures
        title("user"@) == "User"@,
        title("assistant"@) == "Assistant"@,
        title("system"@) == "System"@,
        title("tool"@) == "Tool"@,
        role != "user"@ && role != "assistant"@ && role != "system"@ && role != "tool"@ ==> title(
            role,
        ) == role,
{
    reveal_strlit("user");
    reveal_strlit("assistant");
    reveal_strlit("system");
    reveal_strlit("tool");
    assert("user"@.len() == 4 && "assistant"@.len() == 9 && "system"@.len() == 6 && "tool"@.len() == 4);
    assert("tool"@[0] == 't' && "user"@[0] == 'u');
}

/// What is said of an entry in the end: a hot one under its title with its whole text, a
/// cooler one under its warmth with what is left of it.
pub proof fn law_entries_are_spoken(e: EntryModel)
    ensures
        e matches EntryModel::Hot { role, content, .. } ==> spoken(e) == (title(role), content),
        e matches EntryModel::Warm { summary, .. } ==> spoken(e) == ("warm"@, summary),
        e matches EntryModel::Cold { placeholder, .. } ==> spoken(e) == ("cold"@, placeholder),
{
}

/// A thinker listens to what is said to it, to the results of its tools, to being
/// cancelled and to the end.
pub proof fn law_thinker_listens(id: Seq<char>)
    ensures
        own_topics(id).contains("agent/"@ + id + "/input"@),
        own_topics(id).contains("agent/"@ + id + "/tool_result"@),
        own_topics(id).contains("agent/"@ + id + "/cancel"@),
        own_topics(id).contains("motor/"@ + id + "/adjust"@),
        own_topics(id).contains("cortex/sensory"@),
        own_topics(id).contains("cortex/budget_deny"@),
        own_topics(id).contains("cortex/meta_result"@),
        own_topics(id).contains("cortex/erl_heuristic"@),
        own_topics(id).contains("sampler/*/stream"@),
        own_topics(id).contains("tool/register"@),
        own_topics(id).contains("sys/shutdown"@),
{
    let v = own_topics(id);
    assert(v[0] == "agent/"@ + id + "/input"@);
    assert(v[1] == "agent/"@ + id + "/tool_result"@);
    assert(v[2] == "agent/"@ + id + "/cancel"@);
    assert(v[3] == "motor/"@ + id + "/adjust"@);
    assert(v[4] == "cortex/sensory"@);
    assert(v[5] == "cortex/budget_deny"@);
    assert(v[6] == "cortex/meta_result"@);
    assert(v[7] == "cortex/erl_heuristic"@);
    assert(v[8] == "sampler/*/stream"@);
    assert(v[9] == "tool/register"@);
    assert(v[10] == "sys/shutdown"@);
}

/// It listens to what each of its agents puts out and to what happens to it.
pub proof fn law_thinker_listens_to_its_agents(agents: Seq<Seq<char>>, n: nat, i: int)
    requires
        0 <= i < n <= agents.len(),
    ensures
        agent_topics(agents, n).len() == 2 * n,
        agent_topics(agents, n)[2 * i] == "agent/"@ + agents[i] + "/output"@,
        agent_topics(agents, n)[2 * i + 1] == "agent/"@ + agents[i] + "/event"@,
    decreases n,
{
    if i < n - 1 {
        law_thinker_listens_to_its_agents(agents, (n - 1) as nat, i);
    } else if n > 1 {
        law_thinker_listens_to_its_agents(agents, (n - 1) as nat, 0);
    } else {
        assert(agent_topics(agents, 0).len() == 0);
    }
}

/// A new thinker is idle and knows nothing but its name, its model and its tools.
pub proof fn law_thinker_begins_idle(
    id: Seq<char>,
    name: Seq<char>,
    max_turns: Option<u32>,
    tools: Seq<ToolModel>,
)
    ensures
        ({
            let m = idle(id, name, max_turns, tools);
            &&& m.id == id && m.model == name && m.max_turns == max_turns && m.tools == tools
            &&& m.state is Idle && !m.active && !m.cancelled
            &&& m.memory.entries.len() == 0 && m.memory.max_tokens == 128_000
            &&& m.history.entries.len() == 0 && m.signals.len() == 0 && m.outbox.len() == 0
            &&& m.calls == Map::<Seq<char>, CallModel>::empty() && m.call_order.len() == 0
            &&& m.results == Map::<Seq<char>, Seq<char>>::empty() && m.result_order.len() == 0
            &&& m.request is None && m.goal is None && m.disabled is None
            &&& m.turns == 0 && m.escapes == 0
        }),
{
}

/// What is announced carries all of it: every error, every entry of the context with its
/// role, its text and its tokens, and the whole way that was gone.
pub proof fn law_announcements_carry_all(
    id: Seq<char>,
    errors: Seq<Seq<char>>,
    entries: Seq<SavedModel>,
    total: u32,
    way: Seq<char>,
    i: int,
) -> (r: (Seq<Seq<u8>>, payload::PayloadModel))
    requires
        0 <= i < entries.len(),
    ensures
        ({
            &&& announced(id, ActionModel::Smell(errors)) matches Some(o)
            &&& payload::field(o.payload, "errors"@) == payload::FieldModel::Packed(
                outside::packed_texts(errors),
            )
        }),
        ({
            &&& announced(id, ActionModel::Persist(entries, total)) matches Some(o)
            &&& payload::field(o.payload, "entries"@) == payload::FieldModel::Packed(
                outside::packed_list(r.0),
            )
        }),
        r.0.len() == entries.len(),
        r.0[i] == outside::packed(r.1),
        payload::text_at(r.1, "role"@) == Some(entries[i].role),
        payload::text_at(r.1, "content"@) == Some(entries[i].content),
        payload::number_or(r.1, "tokens"@, 0) == entries[i].tokens as u64,
        ({
            &&& announced(id, ActionModel::Trajectory(way)) matches Some(o)
            &&& payload::field(o.payload, "trajectory"@) == payload::FieldModel::Packed(
                outside::packed_json(way),
            )
        }),
{
    reveal_strlit("error_count");
    reveal_strlit("errors");
    reveal_strlit("agent_id");
    reveal_strlit("entries");
    reveal_strlit("trajectory");
    reveal_strlit("role");
    reveal_strlit("content");
    reveal_strlit("tokens");
    assert("error_count"@.len() == 11 && "errors"@.len() == 6 && "agent_id"@.len() == 8);
    assert("entries"@.len() == 7 && "trajectory"@.len() == 10);
    assert("role"@.len() == 4 && "content"@.len() == 7 && "tokens"@.len() == 6);
    payload::law_field_is_read_by_name(announced(id, ActionModel::Smell(errors))->0.payload, 1);
    payload::law_field_is_read_by_name(
        announced(id, ActionModel::Persist(entries, total))->0.payload,
        1,
    );
    payload::law_field_is_read_by_name(announced(id, ActionModel::Trajectory(way))->0.payload, 1);
    let e = entries[i];
    let q = seq![
        payload::text_field("role"@, e.role),
        payload::text_field("content"@, e.content),
        payload::number_field("tokens"@, e.tokens as u64),
    ];
    payload::law_field_is_read_by_name(q, 0);
    payload::law_field_is_read_by_name(q, 1);
    payload::law_field_is_read_by_name(q, 2);
    (entries.map_values(|e: SavedModel| saved_bytes(e)), q)
}

} // verus!
