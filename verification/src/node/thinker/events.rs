//! What the thinker does with each message, and with loops that it is caught in.

use crate::memory::working;
use crate::memory::working::{EntryModel, WorkingModel};
use crate::message::frame;
use crate::message::frame::{FrameCodec, FrameError, Message};
use crate::message::topic::Topic;
use crate::node::payload;
use crate::node::payload::{Outgoing, Payload, PayloadModel, Plane};
use crate::node::thinker;
use crate::node::thinker::compaction;
use crate::node::thinker::sampling;
use crate::node::thinker::sampling::{AnswerEnd, ChunkModel, StreamChunk};
use crate::node::thinker::sensory;
use crate::node::thinker::sensory::{CodeHint, HintModel};
use crate::node::thinker::{
    ActionModel, AgentState, ThinkerAction, ThinkerModel, ThinkerNode, ToolDefinition, ToolModel,
};
use crate::outside;
use crate::text::text_map;
use crate::text::{lemmas, model, ops};
use vstd::prelude::*;
use vstd::string::*;

verus! {

/// How often the thinker tries to escape from a loop before it may be ended.
pub const MAX_ESCAPE_ATTEMPTS: u32 = 3;

/// What a message is about.
#[derive(Debug, Clone, Copy, PartialEq, Eq, Structural)]
pub enum ThinkerTopic {
    Input,
    Stream,
    ToolResult,
    Cancel,
    Adjust,
    BudgetDeny,
    Reflex,
    MetaResult,
    Heuristic,
    ToolRegister,
    Shutdown,
    AgentEvent,
    Other,
}

/// Whether a topic begins and ends in the given way.
pub open spec fn framed(topic: Seq<char>, start: Seq<char>, end: Seq<char>) -> bool {
    model::starts_with(topic, start) && model::ends_with(topic, end)
}

/// What a message on a topic is about.
pub open spec fn topic_kind(topic: Seq<char>) -> ThinkerTopic {
    if framed(topic, "agent/"@, "/input"@) {
        ThinkerTopic::Input
    } else if framed(topic, "sampler/"@, "/stream"@) {
        ThinkerTopic::Stream
    } else if framed(topic, "agent/"@, "/tool_result"@) {
        ThinkerTopic::ToolResult
    } else if framed(topic, "agent/"@, "/cancel"@) {
        ThinkerTopic::Cancel
    } else if framed(topic, "motor/"@, "/adjust"@) {
        ThinkerTopic::Adjust
    } else if topic == "cortex/budget_deny"@ {
        ThinkerTopic::BudgetDeny
    } else if topic == "cortex/sensory"@ {
        ThinkerTopic::Reflex
    } else if topic == "cortex/meta_result"@ {
        ThinkerTopic::MetaResult
    } else if topic == "cortex/erl_heuristic"@ {
        ThinkerTopic::Heuristic
    } else if topic == "tool/register"@ {
        ThinkerTopic::ToolRegister
    } else if topic == "sys/shutdown"@ {
        ThinkerTopic::Shutdown
    } else if model::ends_with(topic, "/event"@) {
        ThinkerTopic::AgentEvent
    } else {
        ThinkerTopic::Other
    }
}

/// A message to the thinker.
#[derive(Debug)]
pub enum ThinkerEvent {
    /// The user has said something; the memories and the pieces of code that were
    /// found for it come along, and the embedding of what was said.
    Input(Payload, Vec<String>, Vec<CodeHint>, Vec<u32>),
    /// The model's answer has ended; its request may be named.
    Done(Option<String>),
    /// The model could not answer.
    Failed,
    /// A piece of the model's answer.
    Chunk(StreamChunk),
    /// A tool has ended; the state that the loop is in once all have comes along, and
    /// the embedding of the tool's output.
    ToolResult(Payload, AgentState, Vec<u32>),
    /// The user has cancelled.
    Cancel,
    /// A reflex tells how to go on.
    Adjust(Payload),
    /// The model may not be asked.
    BudgetDeny(Payload),
    /// A reflex has acted.
    Reflex(Payload),
    /// How well the thinking goes: what each conflict is, and another strategy.
    MetaResult(Vec<Option<String>>, Option<String>),
    /// Something was learnt.
    Heuristic(Payload),
    /// The tools are these.
    Tools(Vec<ToolDefinition>),
    /// The system stops.
    Shutdown,
    /// An agent that the thinker has started has ended.
    AgentEvent(Payload),
    /// Something else.
    Other,
}

/// What a message to the thinker holds.
#[verifier::ext_equal]
pub enum EventModel {
    Input(PayloadModel, Seq<Seq<char>>, Seq<HintModel>, Seq<u32>),
    Done(Option<Seq<char>>),
    Failed,
    Chunk(ChunkModel),
    ToolResult(PayloadModel, AgentState, Seq<u32>),
    Cancel,
    Adjust(PayloadModel),
    BudgetDeny(PayloadModel),
    Reflex(PayloadModel),
    MetaResult(Seq<Option<Seq<char>>>, Option<Seq<char>>),
    Heuristic(PayloadModel),
    Tools(Seq<ToolModel>),
    Shutdown,
    AgentEvent(PayloadModel),
    Other,
}

impl View for ThinkerEvent {
    type V = EventModel;

    open spec fn view(&self) -> EventModel {
        match *self {
            ThinkerEvent::Input(p, m, h, e) => EventModel::Input(
                p@,
                model::texts(m@),
                sensory::hint_models(h@),
                e@,
            ),
            ThinkerEvent::Done(id) => EventModel::Done(model::opt_text(id)),
            ThinkerEvent::Failed => EventModel::Failed,
            ThinkerEvent::Chunk(c) => EventModel::Chunk(c@),
            ThinkerEvent::ToolResult(p, s, e) => EventModel::ToolResult(p@, s, e@),
            ThinkerEvent::Cancel => EventModel::Cancel,
            ThinkerEvent::Adjust(p) => EventModel::Adjust(p@),
            ThinkerEvent::BudgetDeny(p) => EventModel::BudgetDeny(p@),
            ThinkerEvent::Reflex(p) => EventModel::Reflex(p@),
            ThinkerEvent::MetaResult(v, s) => EventModel::MetaResult(
                outside::opt_texts(v@),
                model::opt_text(s),
            ),
            ThinkerEvent::Heuristic(p) => EventModel::Heuristic(p@),
            ThinkerEvent::Tools(v) => EventModel::Tools(thinker::tool_models(v@)),
            ThinkerEvent::Shutdown => EventModel::Shutdown,
            ThinkerEvent::AgentEvent(p) => EventModel::AgentEvent(p@),
            ThinkerEvent::Other => EventModel::Other,
        }
    }
}

/// Identifiers that nothing has yet.
#[derive(Debug)]
pub struct Fresh {
    /// For a request.
    pub request_id: String,
    /// For an entry of the history, or a call without a name.
    pub entry_id: String,
}

/// What follows a message.
#[derive(Debug, Clone, Copy, PartialEq, Eq, Structural)]
pub enum Next {
    /// Nothing.
    Nothing,
    /// The turn is to be ended.
    FinishTurn,
    /// The context is to be compacted and the model to be asked again; then it is
    /// to be seen whether there is a loop.
    Resume,
    /// It is to be seen whether there is a loop.
    Examine,
}

/// The thinker after a tool's result, which may be the last that was awaited.
pub open spec fn resulted(
    m: ThinkerModel,
    entry_id: Seq<char>,
    call: Seq<char>,
    tool: Seq<char>,
    output: Seq<char>,
    success: bool,
    after: AgentState,
    embedding: Seq<u32>,
) -> ThinkerModel {
    let a = ThinkerModel {
        results: m.results.remove(call),
        result_order: text_map::without(m.result_order, call),
        ..m
    };
    let b = sensory::observed(sensory::felt(a, tool, output, success), tool, output);
    let c = sensory::recorded(b, entry_id, "tool"@, output, true, embedding);
    let d = thinker::told(c, "user"@, output, thinker::estimate(output));
    if d.result_order.len() == 0 {
        thinker::in_state(d, after)
    } else {
        d
    }
}

/// The thinker after the user has cancelled.
pub open spec fn cancelled(m: ThinkerModel) -> ThinkerModel {
    let a = match m.request {
        Some(id) => thinker::doing(
            m,
            ActionModel::Send(
                payload::published(
                    "sampler/"@ + id + "/cancel"@,
                    PayloadModel::empty().push(payload::text_field("request_id"@, id)).push(
                        payload::text_field("agent_id"@, m.id),
                    ),
                ),
            ),
        ),
        None => m,
    };
    ThinkerModel {
        cancelled: true,
        calls: Map::empty(),
        call_order: Seq::empty(),
        results: Map::empty(),
        result_order: Seq::empty(),
        request: None,
        active: false,
        state: AgentState::Idle,
        ..a
    }
}

/// The thinker after a reflex has told how to go on.
pub open spec fn adjusted(m: ThinkerModel, p: PayloadModel) -> ThinkerModel {
    let action = payload::text_or(p, "action"@, "none"@);
    if action == "slow_down"@ {
        thinker::doing(m, ActionModel::SlowDown(2))
    } else if action == "switch_strategy"@ {
        let hint = payload::text_or(p, "hint"@, "尝试不同的方法"@);
        thinker::told(m, "system"@, "[反射弧建议] "@ + hint, thinker::estimate(hint))
    } else if action == "disable_tool"@ {
        match payload::text_at(p, "tool"@) {
            Some(t) => ThinkerModel { disabled: Some(t), ..m },
            None => m,
        }
    } else {
        m
    }
}

/// The thinker after it was denied to ask the model.
pub open spec fn denied(m: ThinkerModel, p: PayloadModel) -> ThinkerModel {
    let reason = payload::text_or(p, "reason"@, "unknown"@);
    ThinkerModel {
        state: AgentState::Idle,
        request: None,
        ..thinker::doing(
            m,
            ActionModel::Send(
                sampling::notice(
                    m.id,
                    "[系统保护] LLM 调用被拒绝："@ + reason,
                    Plane::DataOnly,
                ),
            ),
        )
    }
}

/// The thinker after a reflex has acted.
pub open spec fn reflected(m: ThinkerModel, p: PayloadModel) -> ThinkerModel {
    let text = "[反射弧L1] 信号="@ + payload::text_or(p, "signal_topic"@, ""@) + " 动作="@
        + payload::text_or(p, "action"@, ""@);
    thinker::told(m, "system"@, text, (model::byte_len(text) as u32) / 3)
}

/// The thinker after the first `n` conflicts were found in its thinking.
pub open spec fn warned(m: ThinkerModel, conflicts: Seq<Option<Seq<char>>>, n: nat) -> ThinkerModel
    decreases n,
{
    if n == 0 {
        m
    } else {
        let before = warned(m, conflicts, (n - 1) as nat);
        match conflicts[n - 1] {
            Some(d) => thinker::told(
                before,
                "system"@,
                "[元认知警告] "@ + d,
                thinker::estimate(d),
            ),
            None => before,
        }
    }
}

/// The thinker after another strategy was proposed.
pub open spec fn advised(m: ThinkerModel, strategy: Option<Seq<char>>) -> ThinkerModel {
    match strategy {
        Some(s) => thinker::told(
            m,
            "system"@,
            "[元认知建议] 考虑切换到 "@ + s + " 策略"@,
            thinker::estimate(s),
        ),
        None => m,
    }
}

/// The thinker after something was learnt.
pub open spec fn taught(m: ThinkerModel, p: PayloadModel) -> ThinkerModel {
    match payload::text_at(p, "heuristic"@) {
        Some(h) => thinker::told(m, "system"@, "[经验教训] "@ + h, thinker::estimate(h)),
        None => m,
    }
}

/// The thinker after an agent that it has started has told of its end.
pub open spec fn rejoined(m: ThinkerModel, p: PayloadModel) -> ThinkerModel {
    let agent = payload::text_or(p, "node_id"@, ""@);
    let output = payload::text_or(p, "output"@, ""@);
    if payload::has_field(p, "error"@) {
        thinker::doing(m, ActionModel::Forget(agent))
    } else if payload::text_at(p, "type"@) == Some("completed"@) {
        thinker::doing(
            thinker::told(m, "user"@, output, thinker::estimate(output)),
            ActionModel::Forget(agent),
        )
    } else {
        m
    }
}

/// The call that a tool's result belongs to.
pub open spec fn result_call(p: PayloadModel) -> Seq<char> {
    payload::text_or(p, "tool_call_id"@, ""@)
}

/// The thinker after a tool's result; one that is not awaited is passed over.
pub open spec fn result_taken(
    m: ThinkerModel,
    p: PayloadModel,
    after: AgentState,
    embedding: Seq<u32>,
    entry_id: Seq<char>,
) -> ThinkerModel {
    let call = result_call(p);
    if m.results.contains_key(call) {
        resulted(
            m,
            entry_id,
            call,
            m.results[call],
            payload::text_or(p, "output"@, ""@),
            payload::flag_or(p, "success"@, true),
            after,
            embedding,
        )
    } else {
        m
    }
}

/// The thinker after a message.
pub open spec fn handled(
    m: ThinkerModel,
    e: EventModel,
    request_id: Seq<char>,
    entry_id: Seq<char>,
) -> ThinkerModel {
    match e {
        EventModel::Input(p, memories, hints, embedding) => sampling::asked(
            ThinkerModel {
                active: true,
                ..sensory::heard(
                    m,
                    entry_id,
                    payload::text_or(p, "content"@, ""@),
                    payload::text_or(p, "role"@, "user"@),
                    memories,
                    hints,
                    embedding,
                )
            },
            request_id,
        ),
        EventModel::Done(id) => sampling::answered(m, id),
        EventModel::Failed => sampling::failed(m),
        EventModel::Chunk(c) => if m.request == Some(c.request_id) {
            sampling::streamed_to(m, c, entry_id)
        } else {
            m
        },
        EventModel::ToolResult(p, after, embedding) => result_taken(
            m,
            p,
            after,
            embedding,
            entry_id,
        ),
        EventModel::Cancel => cancelled(m),
        EventModel::Adjust(p) => adjusted(m, p),
        EventModel::BudgetDeny(p) => denied(m, p),
        EventModel::Reflex(p) => reflected(m, p),
        EventModel::MetaResult(v, s) => advised(warned(m, v, v.len()), s),
        EventModel::Heuristic(p) => taught(m, p),
        EventModel::Tools(v) => ThinkerModel { tools: v, ..m },
        EventModel::Shutdown => thinker::in_state(m, AgentState::Done),
        EventModel::AgentEvent(p) => rejoined(m, p),
        EventModel::Other => m,
    }
}

/// What follows a message.
pub open spec fn next_of(m: ThinkerModel, e: EventModel) -> Next {
    match e {
        EventModel::Done(id) => match sampling::end_of(m, id) {
            AnswerEnd::Turn => Next::FinishTurn,
            _ => Next::Nothing,
        },
        EventModel::Failed => Next::Nothing,
        EventModel::Chunk(c) => if m.request == Some(c.request_id) {
            Next::Examine
        } else {
            Next::Nothing
        },
        EventModel::ToolResult(p, _, _) => if m.results.contains_key(result_call(p))
            && text_map::without(m.result_order, result_call(p)).len() == 0 {
            Next::Resume
        } else {
            Next::Examine
        },
        _ => Next::Examine,
    }
}

/// A way out of a loop.
#[derive(Debug)]
pub enum EscapeAction {
    /// Tell the model to try something else.
    InjectHint(String),
    /// Leave a tool out of the next request.
    DisableTool(String),
    /// Have the model think less.
    DegradeModel,
}

/// What a way out of a loop is.
#[verifier::ext_equal]
pub enum EscapeModel {
    InjectHint(Seq<char>),
    DisableTool(Seq<char>),
    DegradeModel,
}

impl View for EscapeAction {
    type V = EscapeModel;

    open spec fn view(&self) -> EscapeModel {
        match *self {
            EscapeAction::InjectHint(s) => EscapeModel::InjectHint(s@),
            EscapeAction::DisableTool(s) => EscapeModel::DisableTool(s@),
            EscapeAction::DegradeModel => EscapeModel::DegradeModel,
        }
    }
}

/// The ways out that a list holds.
pub open spec fn escape_models(v: Seq<EscapeAction>) -> Seq<EscapeModel> {
    v.map_values(|e: EscapeAction| e@)
}

/// What the detector of loops has found.
#[derive(Debug)]
pub struct DoomLoopResult {
    /// Whether there is a loop.
    pub detected: bool,
    /// The tool that is called again and again.
    pub repeated_tool: Option<String>,
    /// How often it was called.
    pub repeat_count: usize,
    /// The ways out.
    pub escape_actions: Vec<EscapeAction>,
}

/// What a finding holds.
#[verifier::ext_equal]
pub struct DoomModel {
    pub detected: bool,
    pub repeated_tool: Option<Seq<char>>,
    pub repeat_count: usize,
    pub escapes: Seq<EscapeModel>,
}

impl View for DoomLoopResult {
    type V = DoomModel;

    open spec fn view(&self) -> DoomModel {
        DoomModel {
            detected: self.detected,
            repeated_tool: model::opt_text(self.repeated_tool),
            repeat_count: self.repeat_count,
            escapes: escape_models(self.escape_actions@),
        }
    }
}

/// What the loop's rules say of a loop: the state after it, and why the turn ends
/// if it does.
#[derive(Debug)]
pub struct LoopVerdict {
    pub state: AgentState,
    pub end_reason: Option<String>,
}

/// What such rules say.
#[verifier::ext_equal]
pub struct VerdictModel {
    pub state: AgentState,
    pub end_reason: Option<Seq<char>>,
}

impl View for LoopVerdict {
    type V = VerdictModel;

    open spec fn view(&self) -> VerdictModel {
        VerdictModel { state: self.state, end_reason: model::opt_text(self.end_reason) }
    }
}

/// What such rules say, if they say anything.
pub open spec fn opt_verdict(v: Option<LoopVerdict>) -> Option<VerdictModel> {
    match v {
        Some(l) => Some(l@),
        None => None,
    }
}

/// The thinker on the first `n` ways out.
pub open spec fn escaping(m: ThinkerModel, v: Seq<EscapeModel>, n: nat) -> ThinkerModel
    decreases n,
{
    if n == 0 {
        m
    } else {
        let before = escaping(m, v, (n - 1) as nat);
        match v[n - 1] {
            EscapeModel::InjectHint(s) => thinker::told(
                before,
                "system"@,
                s,
                thinker::estimate(s),
            ),
            EscapeModel::DisableTool(s) => ThinkerModel { disabled: Some(s), ..before },
            EscapeModel::DegradeModel => before,
        }
    }
}

/// What the user is told of a loop.
pub open spec fn loop_text(d: DoomModel, attempt: u32) -> Seq<char> {
    ("检测到工具循环（"@ + match d.repeated_tool {
        Some(t) => t,
        None => "unknown"@,
    } + " 重复 "@ + model::decimal(d.repeat_count as nat)) + (
    " 次），已注入换策略提示、临时禁用该工具并降级模型，正在尝试跳出循环（第 "@
        + model::decimal(attempt as nat) + " 次）。"@)
}

/// The thinker trying to escape from a loop.
pub open spec fn escaped(m: ThinkerModel, d: DoomModel, request_id: Seq<char>) -> ThinkerModel {
    let a = ThinkerModel { escapes: (m.escapes + 1) as u32, ..m };
    let b = escaping(a, d.escapes, d.escapes.len());
    let c = thinker::doing(
        b,
        ActionModel::Send(sampling::notice(b.id, loop_text(d, b.escapes), Plane::Data)),
    );
    sampling::asked(c, request_id)
}

/// The thinker once the loop's rules have spoken.
pub open spec fn judged(m: ThinkerModel, v: VerdictModel) -> ThinkerModel {
    let a = thinker::in_state(m, v.state);
    match v.end_reason {
        Some(r) => thinker::doing(
            a,
            ActionModel::Send(
                sampling::notice(a.id, "Agent 循环终止："@ + r, Plane::Data),
            ),
        ),
        None => a,
    }
}

/// Whether a loop ends the turn: escapes were tried often enough, and the loop's
/// rules say so.
pub open spec fn ends(m: ThinkerModel, d: DoomModel, v: Option<VerdictModel>) -> bool {
    d.detected && m.escapes >= MAX_ESCAPE_ATTEMPTS && v is Some && v->0.end_reason is Some
}

/// The thinker after it was seen whether there is a loop.
pub open spec fn examined(
    m: ThinkerModel,
    d: DoomModel,
    v: Option<VerdictModel>,
    request_id: Seq<char>,
) -> ThinkerModel {
    if !d.detected {
        ThinkerModel { escapes: 0, ..m }
    } else if m.escapes >= MAX_ESCAPE_ATTEMPTS && v is Some {
        let a = judged(m, v->0);
        if v->0.end_reason is Some {
            a
        } else {
            escaped(a, d, request_id)
        }
    } else {
        escaped(m, d, request_id)
    }
}

/// Whether the context takes so much of its budget that it is compacted.
pub open spec fn is_due(m: WorkingModel) -> bool {
    m.max_tokens > 0 && (working::total_tokens(m.entries) * 100) / (m.max_tokens as nat)
        >= m.policy.auto_compact_threshold_percent
}

/// Whether a message can be brought to its end: the tokens can be counted, and the
/// context can be compacted where that is due.
pub open spec fn can_settle(m: WorkingModel) -> bool {
    &&& working::total_tokens(m.entries) <= u32::MAX
    &&& is_due(m) ==> working::compactable(m.entries)
}

/// Whether the thinker has made as many turns as it may.
pub open spec fn is_worn_out(m: ThinkerModel) -> bool {
    match m.max_turns {
        Some(max) => m.turns >= max,
        None => false,
    }
}

/// The thinker at the end of a message.
pub open spec fn settled(m: ThinkerModel, ended: AgentState) -> ThinkerModel {
    let a = if is_due(m.memory) {
        ThinkerModel { memory: compaction::cooler(m.memory), ..m }
    } else {
        m
    };
    if is_worn_out(a) {
        thinker::in_state(a, ended)
    } else {
        a
    }
}

/// What is read of a message.
#[derive(Debug)]
pub enum Reading {
    /// Its fields.
    Fields(Payload),
    /// That an answer of the model has ended; its request may be named.
    Done(Option<String>),
    /// That the model could not answer.
    Failed,
    /// That it holds a piece of an answer.
    Chunk,
    /// How well the thinking goes: what each conflict is, and another strategy.
    Assessment(Vec<Option<String>>, Option<String>),
    /// That it holds a list of tools.
    Tools,
    /// Nothing.
    Nothing,
}

/// What is read of a message, as it is reckoned with.
#[verifier::ext_equal]
pub enum ReadingModel {
    Fields(PayloadModel),
    Done(Option<Seq<char>>),
    Failed,
    Chunk,
    Assessment(Seq<Option<Seq<char>>>, Option<Seq<char>>),
    Tools,
    Nothing,
}

impl View for Reading {
    type V = ReadingModel;

    open spec fn view(&self) -> ReadingModel {
        match *self {
            Reading::Fields(p) => ReadingModel::Fields(p@),
            Reading::Done(id) => ReadingModel::Done(model::opt_text(id)),
            Reading::Failed => ReadingModel::Failed,
            Reading::Chunk => ReadingModel::Chunk,
            Reading::Assessment(v, s) => ReadingModel::Assessment(
                outside::opt_texts(v@),
                model::opt_text(s),
            ),
            Reading::Tools => ReadingModel::Tools,
            Reading::Nothing => ReadingModel::Nothing,
        }
    }
}

/// The description that a packed value gives of a conflict.
pub open spec fn conflict_of(bytes: Seq<u8>) -> Option<Seq<char>> {
    match outside::unpacked(bytes) {
        Some(p) => payload::text_at(p, "description"@),
        None => None,
    }
}

/// The descriptions of the conflicts that a message names.
pub open spec fn conflicts_in(bytes: Seq<u8>) -> Seq<Option<Seq<char>>> {
    match outside::unpacked_items(bytes, "conflicts"@) {
        Some(items) => items.map_values(|b: Seq<u8>| conflict_of(b)),
        None => Seq::empty(),
    }
}

/// What is read of a message; nothing where it cannot be read. A piece of an
/// answer and a list of tools are read on their own.
pub open spec fn reading_of(topic: Seq<char>, bytes: Seq<u8>) -> Option<ReadingModel> {
    match topic_kind(topic) {
        ThinkerTopic::Cancel => Some(ReadingModel::Nothing),
        ThinkerTopic::Shutdown => Some(ReadingModel::Nothing),
        ThinkerTopic::Other => Some(ReadingModel::Nothing),
        ThinkerTopic::ToolRegister => Some(ReadingModel::Tools),
        ThinkerTopic::Stream => match outside::unpacked(bytes) {
            Some(p) => Some(
                if payload::text_at(p, "type"@) == Some("done"@) {
                    ReadingModel::Done(payload::text_at(p, "request_id"@))
                } else if payload::has_field(p, "error"@) {
                    ReadingModel::Failed
                } else {
                    ReadingModel::Chunk
                },
            ),
            None => None,
        },
        ThinkerTopic::MetaResult => match outside::unpacked(bytes) {
            Some(p) => Some(
                ReadingModel::Assessment(
                    conflicts_in(bytes),
                    payload::text_at(p, "suggested_strategy"@),
                ),
            ),
            None => None,
        },
        _ => match outside::unpacked(bytes) {
            Some(p) => Some(ReadingModel::Fields(p)),
            None => None,
        },
    }
}

/// The text of an optional field, as a string.
fn owned(s: Option<&str>) -> (r: Option<String>)
    ensures
        model::opt_text(r) == match s {
            Some(t) => Some(t@),
            None => None,
        },
{
    match s {
        Some(t) => Some(String::from_str(t)),
        None => None,
    }
}

/// The descriptions of the conflicts that a message names.
fn read_conflicts(bytes: &Vec<u8>) -> (r: Vec<Option<String>>)
    ensures
        outside::opt_texts(r@) == conflicts_in(bytes@),
{
    let mut out: Vec<Option<String>> = Vec::new();
    if let Some(items) = outside::unpack_items(bytes, "conflicts") {
        let ghost all = frame::frame_bytes(items@);
        let mut i: usize = 0;
        while i < items.len()
            invariant
                i <= items@.len(),
                all == frame::frame_bytes(items@),
                out@.len() == i,
                forall|j: int| 0 <= j < i ==> model::opt_text(#[trigger] out@[j]) == conflict_of(all[j]),
            decreases items@.len() - i,
        {
            assert(all[i as int] == items@[i as int]@);
            let found: Option<String> = match outside::unpack(&items[i]) {
                Some(p) => owned(p.text_at("description")),
                None => None,
            };
            out.push(found);
            i = i + 1;
        }
    }
    assert(outside::opt_texts(out@) =~= conflicts_in(bytes@));
    out
}

impl Fresh {
    /// Two new random identifiers.
    pub fn new() -> (r: Self)
        ensures
            outside::is_uuid_text(r.request_id@),
            outside::is_uuid_text(r.entry_id@),
    {
        Fresh { request_id: outside::fresh_id(), entry_id: outside::fresh_id() }
    }
}

impl ThinkerNode {
    /// What a message on a topic is about.
    pub fn topic_kind(topic: &Topic) -> (r: ThinkerTopic)
        ensures
            r == topic_kind(topic@),
    {
        let name = ops::chars_of(topic.as_str());
        let t = name.as_slice();
        let of_agent = ops::starts_with(t, "agent/");
        if of_agent && ops::ends_with(t, "/input") {
            ThinkerTopic::Input
        } else if ops::starts_with(t, "sampler/") && ops::ends_with(t, "/stream") {
            ThinkerTopic::Stream
        } else if of_agent && ops::ends_with(t, "/tool_result") {
            ThinkerTopic::ToolResult
        } else if of_agent && ops::ends_with(t, "/cancel") {
            ThinkerTopic::Cancel
        } else if ops::starts_with(t, "motor/") && ops::ends_with(t, "/adjust") {
            ThinkerTopic::Adjust
        } else if ops::is_text(t, "cortex/budget_deny") {
            ThinkerTopic::BudgetDeny
        } else if ops::is_text(t, "cortex/sensory") {
            ThinkerTopic::Reflex
        } else if ops::is_text(t, "cortex/meta_result") {
            ThinkerTopic::MetaResult
        } else if ops::is_text(t, "cortex/erl_heuristic") {
            ThinkerTopic::Heuristic
        } else if ops::is_text(t, "tool/register") {
            ThinkerTopic::ToolRegister
        } else if ops::is_text(t, "sys/shutdown") {
            ThinkerTopic::Shutdown
        } else if ops::ends_with(t, "/event") {
            ThinkerTopic::AgentEvent
        } else {
            ThinkerTopic::Other
        }
    }

    /// Takes the result of a tool that is awaited, and says whether it was the last.
    pub fn handle_tool_result(
        &mut self,
        entry_id: String,
        tool_call_id: &str,
        tool_name: &str,
        output: &str,
        success: bool,
        after: AgentState,
        embedding: Vec<u32>,
    ) -> (r: bool)
        requires
            old(self).wf(),
            old(self)@.history.current_turn < u32::MAX,
        ensures
            final(self).wf(),
            final(self)@ == resulted(
                old(self)@,
                entry_id@,
                tool_call_id@,
                tool_name@,
                output@,
                success,
                after,
                embedding@,
            ),
            r == (text_map::without(old(self)@.result_order, tool_call_id@).len() == 0),
    {
        let ghost results = self.pending_tool_results@;
        self.pending_tool_results.remove(tool_call_id);
        proof {
            text_map::lemma_shown_remove(results, tool_call_id@);
        }
        self.feel(tool_name, output, success);
        self.observe(tool_name, output);
        let tokens: u32 = ThinkerNode::estimate_tokens(output);
        self.short_term_memory.store_as(
            entry_id,
            String::from_str("tool"),
            String::from_str(output),
            tokens,
            true,
            embedding,
        );
        self.tell("user", String::from_str(output), tokens);
        if self.pending_tool_results.is_empty() {
            self.state = after;
            true
        } else {
            false
        }
    }

    /// Stops what is being done.
    pub fn cancel(&mut self)
        requires
            old(self).wf(),
        ensures
            final(self).wf(),
            final(self)@ == cancelled(old(self)@),
    {
        self.cancel_requested = true;
        let request = match &self.current_sample_request_id {
            Some(id) => Some(id.clone()),
            None => None,
        };
        if let Some(id) = request {
            let body = Payload::new().text("request_id", id.as_str()).text(
                "agent_id",
                self.id.as_str(),
            );
            self.act(
                ThinkerAction::Send(
                    Outgoing {
                        topic: Topic::sampler_cancel(id.as_str()),
                        payload: body,
                        plane: Plane::Data,
                    },
                ),
            );
        }
        self.pending_tool_calls.clear();
        self.pending_tool_results.clear();
        assert(self@.calls =~= Map::empty());
        assert(self@.results =~= Map::empty());
        self.current_sample_request_id = None;
        self.agentic_session_active = false;
        self.state = AgentState::Idle;
    }

    /// Does what a reflex tells.
    pub fn handle_motor_adjust(&mut self, payload: &Payload)
        requires
            old(self).wf(),
        ensures
            final(self).wf(),
            final(self)@ == adjusted(old(self)@, payload@),
    {
        let action = payload.text_or("action", "none");
        if ops::same_text(action, "slow_down") {
            self.act(ThinkerAction::SlowDown(2));
        } else if ops::same_text(action, "switch_strategy") {
            let hint = payload.text_or("hint", "尝试不同的方法");
            let tokens: u32 = ThinkerNode::estimate_tokens(hint);
            self.tell("system", ops::concat2("[反射弧建议] ", hint), tokens);
        } else if ops::same_text(action, "disable_tool") {
            if let Some(tool) = payload.text_at("tool") {
                self.disabled_tool_next_round = Some(String::from_str(tool));
            }
        }
    }

    /// Adds the conflicts that were found in the thinking to the context.
    fn warn(&mut self, conflicts: &Vec<Option<String>>)
        requires
            old(self).wf(),
        ensures
            final(self).wf(),
            final(self)@ == warned(
                old(self)@,
                outside::opt_texts(conflicts@),
                conflicts@.len(),
            ),
    {
        let ghost m = self@;
        let ghost all = outside::opt_texts(conflicts@);
        let mut i: usize = 0;
        while i < conflicts.len()
            invariant
                i <= conflicts@.len(),
                self.wf(),
                all == outside::opt_texts(conflicts@),
                self@ == warned(m, all, i as nat),
            decreases conflicts@.len() - i,
        {
            assert(all[i as int] == model::opt_text(conflicts@[i as int]));
            if let Some(d) = &conflicts[i] {
                let tokens: u32 = ThinkerNode::estimate_tokens(d.as_str());
                self.tell("system", ops::concat2("[元认知警告] ", d.as_str()), tokens);
            }
            i = i + 1;
        }
    }

    /// Takes what an agent tells of its end.
    fn rejoin(&mut self, payload: &Payload)
        requires
            old(self).wf(),
        ensures
            final(self).wf(),
            final(self)@ == rejoined(old(self)@, payload@),
    {
        let agent = payload.text_or("node_id", "");
        if payload.has("error") {
            self.act(ThinkerAction::Forget(String::from_str(agent)));
        } else {
            let completed = match payload.text_at("type") {
                Some(kind) => ops::same_text(kind, "completed"),
                None => false,
            };
            if completed {
                let output = payload.text_or("output", "");
                let tokens: u32 = ThinkerNode::estimate_tokens(output);
                self.tell("user", String::from_str(output), tokens);
                self.act(ThinkerAction::Forget(String::from_str(agent)));
            }
        }
    }

    /// Takes a tool's result, and says whether it was the last that was awaited.
    fn take_result(
        &mut self,
        payload: &Payload,
        after: AgentState,
        embedding: Vec<u32>,
        entry_id: String,
    ) -> (r: bool)
        requires
            old(self).wf(),
            old(self)@.history.current_turn < u32::MAX,
        ensures
            final(self).wf(),
            final(self)@ == result_taken(
                old(self)@,
                payload@,
                after,
                embedding@,
                entry_id@,
            ),
            r == (old(self)@.results.contains_key(result_call(payload@)) && text_map::without(
                old(self)@.result_order,
                result_call(payload@),
            ).len() == 0),
    {
        let call = payload.text_or("tool_call_id", "");
        let tool = match self.pending_tool_results.get(call) {
            Some(name) => Some(name.clone()),
            None => None,
        };
        match tool {
            Some(name) => {
                let output = payload.text_or("output", "");
                let success = payload.flag_or("success", true);
                self.handle_tool_result(
                    entry_id,
                    call,
                    name.as_str(),
                    output,
                    success,
                    after,
                    embedding,
                )
            },
            None => false,
        }
    }

    /// Reads a message as it came.
    pub fn read(msg: &Message) -> (r: Result<Reading, FrameError>)
        ensures
            match r {
                Ok(m) => reading_of(msg@.topic, msg@.payload) == Some(m@),
                Err(e) => {
                    &&& e == FrameError::BadPayload
                    &&& reading_of(msg@.topic, msg@.payload) is None
                },
            },
    {
        let kind = Self::topic_kind(&msg.topic);
        match kind {
            ThinkerTopic::Cancel => {
                return Ok(Reading::Nothing);
            },
            ThinkerTopic::Shutdown => {
                return Ok(Reading::Nothing);
            },
            ThinkerTopic::Other => {
                return Ok(Reading::Nothing);
            },
            ThinkerTopic::ToolRegister => {
                return Ok(Reading::Tools);
            },
            _ => {},
        }
        let p = match FrameCodec::decode_payload(msg) {
            Ok(p) => p,
            Err(e) => {
                return Err(e);
            },
        };
        Ok(
            match kind {
                ThinkerTopic::Stream => {
                    let done = match p.text_at("type") {
                        Some(s) => ops::same_text(s, "done"),
                        None => false,
                    };
                    if done {
                        Reading::Done(owned(p.text_at("request_id")))
                    } else if p.has("error") {
                        Reading::Failed
                    } else {
                        Reading::Chunk
                    }
                },
                ThinkerTopic::MetaResult => Reading::Assessment(
                    read_conflicts(&msg.payload),
                    owned(p.text_at("suggested_strategy")),
                ),
                _ => Reading::Fields(p),
            },
        )
    }

    /// Takes a message, and says what follows.
    pub fn handle_message(&mut self, event: ThinkerEvent, fresh: Fresh) -> (r: Next)
        requires
            old(self).wf(),
            event@ is Input || event@ is ToolResult ==> old(self)@.history.current_turn < u32::MAX,
        ensures
            final(self).wf(),
            final(self)@ == handled(
                old(self)@,
                event@,
                fresh.request_id@,
                fresh.entry_id@,
            ),
            r == next_of(old(self)@, event@),
    {
        match event {
            ThinkerEvent::Input(p, memories, hints, embedding) => {
                let content = p.text_or("content", "");
                let role = p.text_or("role", "user");
                self.listen(fresh.entry_id, content, role, &memories, &hints, embedding);
                self.agentic_session_active = true;
                self.send_sample_request(fresh.request_id);
                Next::Examine
            },
            ThinkerEvent::Done(id) => {
                let request = match &id {
                    Some(s) => Some(s.as_str()),
                    None => None,
                };
                match self.handle_done(request) {
                    AnswerEnd::Turn => Next::FinishTurn,
                    _ => Next::Nothing,
                }
            },
            ThinkerEvent::Failed => {
                self.handle_sampling_error();
                Next::Nothing
            },
            ThinkerEvent::Chunk(chunk) => {
                let current = match &self.current_sample_request_id {
                    Some(s) => ops::same_text(s.as_str(), chunk.request_id.as_str()),
                    None => false,
                };
                if current {
                    self.handle_stream_chunk(chunk, fresh.entry_id);
                    Next::Examine
                } else {
                    Next::Nothing
                }
            },
            ThinkerEvent::ToolResult(p, after, embedding) => {
                if self.take_result(&p, after, embedding, fresh.entry_id) {
                    Next::Resume
                } else {
                    Next::Examine
                }
            },
            ThinkerEvent::Cancel => {
                self.cancel();
                Next::Examine
            },
            ThinkerEvent::Adjust(p) => {
                self.handle_motor_adjust(&p);
                Next::Examine
            },
            ThinkerEvent::BudgetDeny(p) => {
                let reason = p.text_or("reason", "unknown");
                let text = ops::concat2("[系统保护] LLM 调用被拒绝：", reason);
                self.notify(text.as_str(), Plane::DataOnly);
                self.state = AgentState::Idle;
                self.current_sample_request_id = None;
                Next::Examine
            },
            ThinkerEvent::Reflex(p) => {
                let text = ops::concat4(
                    "[反射弧L1] 信号=",
                    p.text_or("signal_topic", ""),
                    " 动作=",
                    p.text_or("action", ""),
                );
                let tokens: u32 = (ops::text_byte_len(text.as_str()) as u32) / 3;
                self.tell("system", text, tokens);
                Next::Examine
            },
            ThinkerEvent::MetaResult(conflicts, strategy) => {
                self.warn(&conflicts);
                if let Some(s) = strategy {
                    let tokens: u32 = ThinkerNode::estimate_tokens(s.as_str());
                    let text = ops::concat3(
                        "[元认知建议] 考虑切换到 ",
                        s.as_str(),
                        " 策略",
                    );
                    self.tell("system", text, tokens);
                }
                Next::Examine
            },
            ThinkerEvent::Heuristic(p) => {
                if let Some(h) = p.text_at("heuristic") {
                    let tokens: u32 = ThinkerNode::estimate_tokens(h);
                    self.tell("system", ops::concat2("[经验教训] ", h), tokens);
                }
                Next::Examine
            },
            ThinkerEvent::Tools(tools) => {
                self.config.tools = tools;
                Next::Examine
            },
            ThinkerEvent::Shutdown => {
                self.state = AgentState::Done;
                Next::Examine
            },
            ThinkerEvent::AgentEvent(p) => {
                self.rejoin(&p);
                Next::Examine
            },
            ThinkerEvent::Other => Next::Examine,
        }
    }

    /// Goes on after the last result of a tool: compacts the context and asks the
    /// model again.
    pub fn resume(&mut self, request_id: String)
        requires
            old(self).wf(),
            compaction::can_shrink(
                old(self)@.memory,
                old(self)@.last_count,
                old(self)@.compaction,
            ),
        ensures
            final(self).wf(),
            final(self)@ == sampling::asked(compaction::shrunk(old(self)@), request_id@),
    {
        self.run_compaction_pipeline();
        self.send_sample_request(request_id);
    }

    /// Takes the ways out of a loop.
    fn take_ways_out(&mut self, ways: &Vec<EscapeAction>)
        requires
            old(self).wf(),
        ensures
            final(self).wf(),
            final(self)@ == escaping(old(self)@, escape_models(ways@), ways@.len()),
    {
        let ghost m = self@;
        let ghost all = escape_models(ways@);
        let mut i: usize = 0;
        while i < ways.len()
            invariant
                i <= ways@.len(),
                self.wf(),
                all == escape_models(ways@),
                self@ == escaping(m, all, i as nat),
            decreases ways@.len() - i,
        {
            assert(all[i as int] == ways@[i as int]@);
            match &ways[i] {
                EscapeAction::InjectHint(s) => {
                    let tokens: u32 = ThinkerNode::estimate_tokens(s.as_str());
                    self.tell("system", s.clone(), tokens);
                },
                EscapeAction::DisableTool(s) => {
                    self.disabled_tool_next_round = Some(s.clone());
                },
                EscapeAction::DegradeModel => {},
            }
            i = i + 1;
        }
    }

    /// Tries to escape from a loop.
    fn escape(&mut self, found: &DoomLoopResult, request_id: String)
        requires
            old(self).wf(),
            old(self)@.escapes < u32::MAX,
        ensures
            final(self).wf(),
            final(self)@ == escaped(old(self)@, found@, request_id@),
    {
        self.doom_loop_escape_attempts = self.doom_loop_escape_attempts + 1;
        self.take_ways_out(&found.escape_actions);
        let attempt = ops::decimal_u64(self.doom_loop_escape_attempts as u64);
        let count = ops::decimal(found.repeat_count);
        let tool = match &found.repeated_tool {
            Some(t) => t.as_str(),
            None => "unknown",
        };
        let a = ops::concat4("检测到工具循环（", tool, " 重复 ", count.as_str());
        let b = ops::concat3(
            " 次），已注入换策略提示、临时禁用该工具并降级模型，正在尝试跳出循环（第 ",
            attempt.as_str(),
            " 次）。",
        );
        let text = ops::concat2(a.as_str(), b.as_str());
        proof {
            lemma_escaping_keeps(
                ThinkerModel { escapes: (old(self)@.escapes + 1) as u32, ..old(self)@ },
                found@.escapes,
                found@.escapes.len(),
            );
        }
        self.notify(text.as_str(), Plane::Data);
        self.send_sample_request(request_id);
    }

    /// Sees whether there is a loop, and tries to escape from it. Where that was
    /// tried often enough, `verdict` is what the loop's rules say. Returns whether
    /// the message is to be brought to its end.
    pub fn examine(
        &mut self,
        found: DoomLoopResult,
        verdict: Option<LoopVerdict>,
        request_id: String,
    ) -> (r: bool)
        requires
            old(self).wf(),
            old(self)@.escapes < u32::MAX,
        ensures
            final(self).wf(),
            final(self)@ == examined(old(self)@, found@, opt_verdict(verdict), request_id@),
            r == !ends(old(self)@, found@, opt_verdict(verdict)),
    {
        if !found.detected {
            self.doom_loop_escape_attempts = 0;
            return true;
        }
        if self.doom_loop_escape_attempts >= MAX_ESCAPE_ATTEMPTS {
            if let Some(v) = verdict {
                self.state = v.state;
                if let Some(reason) = v.end_reason {
                    let text = ops::concat2("Agent 循环终止：", reason.as_str());
                    self.notify(text.as_str(), Plane::Data);
                    return false;
                }
            }
        }
        self.escape(&found, request_id);
        true
    }

    /// Whether the thinker has made as many turns as it may.
    pub fn check_max_turns(&self) -> (r: bool)
        ensures
            r == is_worn_out(self@),
    {
        match self.config.max_turns {
            Some(max) => self.turns_executed >= max,
            None => false,
        }
    }

    /// Whether a message can be brought to its end: no text would be cut inside a
    /// character, and the tokens can be counted.
    pub fn can_settle(&self) -> (r: bool)
        ensures
            r == can_settle(self@.memory),
    {
        match self.working_memory.counted_tokens() {
            Some(_) => !self.working_memory.should_compact() || self.working_memory.can_compact(),
            None => false,
        }
    }

    /// Brings a message to its end: compacts the context where that is due, and
    /// ends where there were turns enough. `ended` is the state of a loop that has
    /// ended in this way.
    pub fn settle(&mut self, ended: AgentState)
        requires
            old(self).wf(),
            can_settle(old(self)@.memory),
        ensures
            final(self).wf(),
            final(self)@ == settled(old(self)@, ended),
    {
        if self.working_memory.should_compact() {
            self.working_memory.compact();
        }
        if self.check_max_turns() {
            self.state = ended;
        }
    }
}

proof fn lemma_escaping_keeps(m: ThinkerModel, v: Seq<EscapeModel>, n: nat)
    ensures
        escaping(m, v, n).escapes == m.escapes,
        escaping(m, v, n).id == m.id,
        escaping(m, v, n).outbox == m.outbox,
    decreases n,
{
    if n > 0 {
        lemma_escaping_keeps(m, v, (n - 1) as nat);
    }
}

/// After the user has cancelled, no tool is called and no result awaited, and a
/// request that was being answered is cancelled.
pub proof fn law_cancel_clears(m: ThinkerModel)
    ensures
        cancelled(m).cancelled,
        cancelled(m).call_order.len() == 0,
        cancelled(m).result_order.len() == 0,
        cancelled(m).request is None,
        !cancelled(m).active,
        cancelled(m).state == AgentState::Idle,
        m.request is Some ==> cancelled(m).outbox.len() == m.outbox.len() + 1
            && cancelled(m).outbox.last()->Send_0.topic == "sampler/"@ + m.request->0
            + "/cancel"@,
        m.request is None ==> cancelled(m).outbox == m.outbox,
{
}

/// After the user has cancelled, pieces of the answer that was being given and
/// results of tools that were called are passed over.
pub proof fn law_cancelled_work_is_ignored(
    m: ThinkerModel,
    c: ChunkModel,
    p: PayloadModel,
    after: AgentState,
    embedding: Seq<u32>,
    request_id: Seq<char>,
    entry_id: Seq<char>,
)
    ensures
        handled(cancelled(m), EventModel::Chunk(c), request_id, entry_id) == cancelled(m),
        handled(cancelled(m), EventModel::ToolResult(p, after, embedding), request_id, entry_id)
            == cancelled(m),
{
}

/// The model is asked again only when the last awaited result has come, and never
/// for a result that is not awaited.
pub proof fn law_resumes_after_the_last_result(
    m: ThinkerModel,
    p: PayloadModel,
    after: AgentState,
    embedding: Seq<u32>,
)
    ensures
        next_of(m, EventModel::ToolResult(p, after, embedding)) == Next::Resume
            <==> m.results.contains_key(result_call(p)) && text_map::without(
            m.result_order,
            result_call(p),
        ).len() == 0,
        !m.results.contains_key(result_call(p)) ==> forall|entry_id: Seq<char>|
            #[trigger] result_taken(m, p, after, embedding, entry_id) == m,
{
}

/// A loop does not end the turn before it was tried three times to escape from it.
pub proof fn law_escapes_come_first(
    m: ThinkerModel,
    d: DoomModel,
    v: Option<VerdictModel>,
    request_id: Seq<char>,
)
    requires
        d.detected,
        m.escapes < MAX_ESCAPE_ATTEMPTS,
    ensures
        !ends(m, d, v),
        examined(m, d, v, request_id).escapes == m.escapes + 1,
        examined(m, d, v, request_id).request == Some(request_id),
{
    lemma_escaping_keeps(
        ThinkerModel { escapes: (m.escapes + 1) as u32, ..m },
        d.escapes,
        d.escapes.len(),
    );
}

/// Without a loop, the attempts to escape are counted anew.
pub proof fn law_no_loop_resets_escapes(
    m: ThinkerModel,
    d: DoomModel,
    v: Option<VerdictModel>,
    request_id: Seq<char>,
)
    requires
        !d.detected,
    ensures
        examined(m, d, v, request_id) == (ThinkerModel { escapes: 0, ..m }),
{
}

proof fn lemma_other_start(s: Seq<char>, p: Seq<char>, q: Seq<char>)
    requires
        model::starts_with(s, p),
        p.len() > 0,
        q.len() > 0,
        p[0] != q[0],
    ensures
        !model::starts_with(s, q),
{
    assert(s.take(p.len() as int)[0] == s[0]);
    if model::starts_with(s, q) {
        assert(s.take(q.len() as int)[0] == s[0]);
    }
}

/// What a message is by its topic: by how it begins and ends, or by the whole of it.
pub proof fn law_topics_tell_the_event(topic: Seq<char>)
    ensures
        model::starts_with(topic, "agent/"@) && model::ends_with(topic, "/input"@) ==> topic_kind(
            topic,
        ) is Input,
        model::starts_with(topic, "sampler/"@) && model::ends_with(topic, "/stream"@)
            ==> topic_kind(topic) is Stream,
        model::starts_with(topic, "agent/"@) && model::ends_with(topic, "/tool_result"@)
            ==> topic_kind(topic) is ToolResult,
        model::starts_with(topic, "agent/"@) && model::ends_with(topic, "/cancel"@) ==> topic_kind(
            topic,
        ) is Cancel,
        model::starts_with(topic, "motor/"@) && model::ends_with(topic, "/adjust"@) ==> topic_kind(
            topic,
        ) is Adjust,
        model::starts_with(topic, "agent/"@) && model::ends_with(topic, "/event"@) ==> topic_kind(
            topic,
        ) is AgentEvent,
{
    reveal_strlit("agent/");
    reveal_strlit("sampler/");
    reveal_strlit("motor/");
    reveal_strlit("/input");
    reveal_strlit("/stream");
    reveal_strlit("/tool_result");
    reveal_strlit("/cancel");
    reveal_strlit("/adjust");
    reveal_strlit("/event");
    let a = "agent/"@;
    let s = "sampler/"@;
    let m = "motor/"@;
    let i = "/input"@;
    let t = "/stream"@;
    let r = "/tool_result"@;
    let c = "/cancel"@;
    let j = "/adjust"@;
    let e = "/event"@;
    assert(a[0] == 'a' && s[0] == 's' && m[0] == 'm');
    assert(i.len() == 6 && t.len() == 7 && r.len() == 12 && c.len() == 7 && j.len() == 7 && e.len()
        == 6);
    assert(i[5] == 't' && t[6] == 'm' && r[11] == 't' && c[6] == 'l' && j[6] == 't' && e[5] == 't');
    assert(i[4] == 'u' && r[10] == 'l' && j[5] == 's' && e[4] == 'n');
    lemma_fixed_topics(topic);
    if model::starts_with(topic, s) {
        lemma_other_start(topic, s, a);
        lemma_other_start(topic, s, m);
    }
    if model::starts_with(topic, m) {
        lemma_other_start(topic, m, a);
        lemma_other_start(topic, m, s);
    }
    if model::starts_with(topic, a) {
        lemma_other_start(topic, a, s);
        lemma_other_start(topic, a, m);
        if model::ends_with(topic, r) {
            lemmas::lemma_other_ending(topic, r, i, 1);
        }
        if model::ends_with(topic, c) {
            lemmas::lemma_other_ending(topic, c, i, 0);
            lemmas::lemma_other_ending(topic, c, r, 0);
        }
        if model::ends_with(topic, e) {
            lemmas::lemma_other_ending(topic, e, i, 1);
            lemmas::lemma_other_ending(topic, e, r, 1);
            lemmas::lemma_other_ending(topic, e, c, 0);
        }
    }
}

proof fn lemma_fixed_topics(topic: Seq<char>)
    ensures
        model::starts_with(topic, "agent/"@) ==> topic != "cortex/budget_deny"@ && topic
            != "cortex/sensory"@ && topic != "cortex/meta_result"@ && topic
            != "cortex/erl_heuristic"@ && topic != "tool/register"@ && topic != "sys/shutdown"@,
{
    reveal_strlit("agent/");
    reveal_strlit("cortex/budget_deny");
    reveal_strlit("cortex/sensory");
    reveal_strlit("cortex/meta_result");
    reveal_strlit("cortex/erl_heuristic");
    reveal_strlit("tool/register");
    reveal_strlit("sys/shutdown");
    assert("agent/"@.len() == 6 && "agent/"@[0] == 'a');
    assert("cortex/budget_deny"@[0] == 'c' && "cortex/sensory"@[0] == 'c'
        && "cortex/meta_result"@[0] == 'c' && "cortex/erl_heuristic"@[0] == 'c'
        && "tool/register"@[0] == 't' && "sys/shutdown"@[0] == 's');
    if model::starts_with(topic, "agent/"@) {
        assert(topic.take(6)[0] == topic[0]);
    }
}

/// The messages with a topic of their own.
pub proof fn law_fixed_topics_tell_the_event()
    ensures
        topic_kind("cortex/budget_deny"@) is BudgetDeny,
        topic_kind("cortex/sensory"@) is Reflex,
        topic_kind("cortex/meta_result"@) is MetaResult,
        topic_kind("cortex/erl_heuristic"@) is Heuristic,
        topic_kind("tool/register"@) is ToolRegister,
        topic_kind("sys/shutdown"@) is Shutdown,
{
    reveal_strlit("cortex/budget_deny");
    reveal_strlit("cortex/sensory");
    reveal_strlit("cortex/meta_result");
    reveal_strlit("cortex/erl_heuristic");
    reveal_strlit("tool/register");
    reveal_strlit("sys/shutdown");
    assert("cortex/budget_deny"@.len() == 18 && "cortex/sensory"@.len() == 14 && "cortex/meta_result"@.len() == 18 && "cortex/erl_heuristic"@.len() == 20 && "tool/register"@.len() == 13 && "sys/shutdown"@.len() == 12);
    assert("cortex/budget_deny"@[7] == 'b' && "cortex/meta_result"@[7] == 'm');
    lemma_not_framed("cortex/budget_deny"@);
    lemma_not_framed("cortex/sensory"@);
    lemma_not_framed("cortex/meta_result"@);
    lemma_not_framed("cortex/erl_heuristic"@);
    lemma_not_framed("tool/register"@);
    assert("sys/shutdown"@[0] == 's' && "sys/shutdown"@[1] == 'y');
    reveal_strlit("agent/");
    reveal_strlit("sampler/");
    reveal_strlit("motor/");
    assert("agent/"@.len() == 6 && "sampler/"@.len() == 8 && "motor/"@.len() == 6);
    assert("agent/"@[0] == 'a' && "motor/"@[0] == 'm' && "sampler/"@[1] == 'a');
    let x = "sys/shutdown"@;
    assert(x.take(6)[0] == x[0] && x.take(8)[1] == x[1]);
}

proof fn lemma_not_framed(topic: Seq<char>)
    requires
        topic.len() > 0,
        topic[0] == 'c' || topic[0] == 't',
    ensures
        !model::starts_with(topic, "agent/"@),
        !model::starts_with(topic, "sampler/"@),
        !model::starts_with(topic, "motor/"@),
{
    reveal_strlit("agent/");
    reveal_strlit("sampler/");
    reveal_strlit("motor/");
    assert("agent/"@.len() == 6 && "sampler/"@.len() == 8 && "motor/"@.len() == 6);
    assert("agent/"@[0] == 'a' && "sampler/"@[0] == 's' && "motor/"@[0] == 'm');
    if topic.len() >= 6 {
        assert(topic.take(6)[0] == topic[0]);
    }
    if topic.len() >= 8 {
        assert(topic.take(8)[0] == topic[0]);
    }
}

/// Input is thought over and the model is asked, with the input in the talk.
pub proof fn law_input_is_asked_about(
    m: ThinkerModel,
    p: PayloadModel,
    memories: Seq<Seq<char>>,
    hints: Seq<HintModel>,
    embedding: Seq<u32>,
    request_id: Seq<char>,
    entry_id: Seq<char>,
    text: Seq<char>,
)
    requires
        payload::text_at(p, "content"@) == Some(text),
        m.history.current_turn < u32::MAX,
    ensures
        ({
            let r = handled(
                m,
                EventModel::Input(p, memories, hints, embedding),
                request_id,
                entry_id,
            );
            let n = m.memory.entries.len() as int;
            &&& r.request == Some(request_id)
            &&& r.active
            &&& r.state is Thinking
            &&& r.memory.entries.len() == n + 1 + memories.len() + hints.len()
            &&& r.memory.entries[n] == (EntryModel::Hot {
                role: working::role_of(payload::text_or(p, "role"@, "user"@)),
                content: text,
                token_count: thinker::estimate(text) as nat,
            })
            &&& r.outbox.len() == m.outbox.len() + 2
            &&& r.outbox.last() matches ActionModel::Sample(q)
            &&& q.request_id == request_id
            &&& q.messages == working::chat_messages(r.memory.entries)
        }),
{
    sensory::law_input_is_thought_over(
        m,
        entry_id,
        text,
        payload::text_or(p, "role"@, "user"@),
        memories,
        hints,
        embedding,
        0,
    );
}

/// A piece of an answer counts only while that answer is waited for.
pub proof fn law_only_the_awaited_answer_counts(
    m: ThinkerModel,
    c: ChunkModel,
    request_id: Seq<char>,
    entry_id: Seq<char>,
)
    ensures
        m.request != Some(c.request_id) ==> handled(
            m,
            EventModel::Chunk(c),
            request_id,
            entry_id,
        ) == m && next_of(m, EventModel::Chunk(c)) is Nothing,
        m.request == Some(c.request_id) ==> handled(
            m,
            EventModel::Chunk(c),
            request_id,
            entry_id,
        ) == sampling::streamed_to(m, c, entry_id) && next_of(m, EventModel::Chunk(c)) is Examine,
{
}

/// A result that is waited for is no longer waited for. It is recorded as the tool's and
/// stands last in the talk as the user's; with the last one the thinker goes on.
pub proof fn law_awaited_result_is_taken(
    m: ThinkerModel,
    p: PayloadModel,
    after: AgentState,
    embedding: Seq<u32>,
    entry_id: Seq<char>,
    call: Seq<char>,
    text: Seq<char>,
)
    requires
        payload::text_at(p, "tool_call_id"@) == Some(call),
        payload::text_at(p, "output"@) == Some(text),
        m.results.contains_key(call),
        m.history.current_turn < u32::MAX,
    ensures
        ({
            let r = result_taken(m, p, after, embedding, entry_id);
            &&& r.results == m.results.remove(call)
            &&& r.result_order == text_map::without(m.result_order, call)
            &&& r.memory.entries.last() == (EntryModel::Hot {
                role: "user"@,
                content: text,
                token_count: thinker::estimate(text) as nat,
            })
            &&& r.history.entries.len() == m.history.entries.len() + 1
            &&& r.history.entries.last().content == text
            &&& r.history.entries.last().role == "tool"@
            &&& r.history.entries.last().is_tool_call
            &&& text_map::without(m.result_order, call).len() == 0 ==> r.state == after
            &&& text_map::without(m.result_order, call).len() > 0 ==> r.state == m.state
            &&& r.outbox.len() > m.outbox.len()
        }),
{
}

/// The advice of a reflex: to slow down, to try another way, or to leave out a tool once.
pub proof fn law_advice_is_followed(m: ThinkerModel, p: PayloadModel)
    ensures
        payload::text_at(p, "action"@) == Some("slow_down"@) ==> adjusted(m, p).outbox
            == m.outbox.push(ActionModel::SlowDown(2)) && adjusted(m, p).memory == m.memory,
        payload::text_at(p, "action"@) == Some("switch_strategy"@) ==> {
            let hint = payload::text_or(p, "hint"@, "尝试不同的方法"@);
            &&& adjusted(m, p).memory.entries == m.memory.entries.push(
                EntryModel::Hot {
                    role: "system"@,
                    content: "[反射弧建议] "@ + hint,
                    token_count: thinker::estimate(hint) as nat,
                },
            )
            &&& adjusted(m, p).outbox == m.outbox
        },
        payload::text_at(p, "action"@) == Some("disable_tool"@) ==> (payload::text_at(
            p,
            "tool"@,
        ) matches Some(t) ==> adjusted(m, p) == (ThinkerModel { disabled: Some(t), ..m })),
        payload::text_at(p, "action"@) is None ==> adjusted(m, p) == m,
{
    reveal_strlit("slow_down");
    reveal_strlit("switch_strategy");
    reveal_strlit("disable_tool");
    reveal_strlit("none");
    assert("slow_down"@.len() == 9 && "switch_strategy"@.len() == 15 && "disable_tool"@.len() == 12 && "none"@.len() == 4);
}

/// Where the budget denies a call, the thinker says so, is idle and waits no more.
pub proof fn law_denied_call_is_told(m: ThinkerModel, p: PayloadModel, reason: Seq<char>)
    requires
        payload::text_at(p, "reason"@) == Some(reason),
    ensures
        ({
            let r = denied(m, p);
            &&& r.state is Idle
            &&& r.request is None
            &&& r.outbox.len() == m.outbox.len() + 1
            &&& r.outbox.last() matches ActionModel::Send(o)
            &&& o.topic == "agent/"@ + m.id + "/output"@
            &&& payload::text_at(o.payload, "content"@) == Some(
                "[系统保护] LLM 调用被拒绝："@ + reason,
            )
            &&& r.memory == m.memory
        }),
{
    sampling::law_notice_is_text(m.id, "[系统保护] LLM 调用被拒绝："@ + reason, Plane::DataOnly);
}

/// A reflex is told to the model as the system's: the signal and what was done.
pub proof fn law_reflex_is_told(m: ThinkerModel, p: PayloadModel, signal: Seq<char>, action: Seq<char>)
    requires
        payload::text_at(p, "signal_topic"@) == Some(signal),
        payload::text_at(p, "action"@) == Some(action),
    ensures
        ({
            let r = reflected(m, p);
            &&& r.memory.entries.len() == m.memory.entries.len() + 1
            &&& r.memory.entries.last() matches EntryModel::Hot { role, content, .. }
            &&& role == "system"@
            &&& content == "[反射弧L1] 信号="@ + signal + " 动作="@ + action
            &&& r.outbox == m.outbox && r.state == m.state
        }),
{
}

/// Every conflict that was found is told as a warning of its own, in order.
pub proof fn law_conflicts_are_warned_of(
    m: ThinkerModel,
    conflicts: Seq<Option<Seq<char>>>,
    n: nat,
)
    requires
        0 < n <= conflicts.len(),
    ensures
        warned(m, conflicts, 0) == m,
        conflicts[n - 1] is None ==> warned(m, conflicts, n) == warned(
            m,
            conflicts,
            (n - 1) as nat,
        ),
        conflicts[n - 1] matches Some(d) ==> warned(m, conflicts, n).memory.entries == warned(
            m,
            conflicts,
            (n - 1) as nat,
        ).memory.entries.push(
            EntryModel::Hot {
                role: "system"@,
                content: "[元认知警告] "@ + d,
                token_count: thinker::estimate(d) as nat,
            },
        ),
{
}

/// A strategy that is suggested and a lesson that was learned are told as the system's.
pub proof fn law_lessons_are_told(m: ThinkerModel, p: PayloadModel, s: Seq<char>)
    ensures
        advised(m, None) == m,
        advised(m, Some(s)).memory.entries == m.memory.entries.push(
            EntryModel::Hot {
                role: "system"@,
                content: "[元认知建议] 考虑切换到 "@ + s + " 策略"@,
                token_count: thinker::estimate(s) as nat,
            },
        ),
        payload::text_at(p, "heuristic"@) is None ==> taught(m, p) == m,
        payload::text_at(p, "heuristic"@) == Some(s) ==> taught(m, p).memory.entries
            == m.memory.entries.push(
            EntryModel::Hot {
                role: "system"@,
                content: "[经验教训] "@ + s,
                token_count: thinker::estimate(s) as nat,
            },
        ),
{
}

/// An agent that is done hands over what it has put out and is forgotten; one that failed
/// is forgotten alone.
pub proof fn law_agent_is_rejoined(m: ThinkerModel, p: PayloadModel, agent: Seq<char>, text: Seq<char>)
    requires
        payload::text_at(p, "node_id"@) == Some(agent),
        payload::text_at(p, "output"@) == Some(text),
    ensures
        payload::has_field(p, "error"@) ==> rejoined(m, p).outbox == m.outbox.push(
            ActionModel::Forget(agent),
        ) && rejoined(m, p).memory == m.memory,
        !payload::has_field(p, "error"@) && payload::text_at(p, "type"@) == Some("completed"@)
            ==> rejoined(m, p).outbox == m.outbox.push(ActionModel::Forget(agent)) && rejoined(
            m,
            p,
        ).memory.entries == m.memory.entries.push(
            EntryModel::Hot {
                role: "user"@,
                content: text,
                token_count: thinker::estimate(text) as nat,
            },
        ),
        !payload::has_field(p, "error"@) && payload::text_at(p, "type"@) != Some("completed"@)
            ==> rejoined(m, p) == m,
{
}

/// The other events: each goes to what it is for.
pub proof fn law_events_are_handled(
    m: ThinkerModel,
    p: PayloadModel,
    tools: Seq<ToolModel>,
    done: Option<Seq<char>>,
    request_id: Seq<char>,
    entry_id: Seq<char>,
)
    ensures
        handled(m, EventModel::Tools(tools), request_id, entry_id) == (ThinkerModel {
            tools: tools,
            ..m
        }),
        handled(m, EventModel::Shutdown, request_id, entry_id).state is Done,
        handled(m, EventModel::Other, request_id, entry_id) == m,
        handled(m, EventModel::Failed, request_id, entry_id).state is Error,
        handled(m, EventModel::Cancel, request_id, entry_id).cancelled,
        handled(m, EventModel::Done(done), request_id, entry_id) == sampling::answered(m, done),
        handled(m, EventModel::Adjust(p), request_id, entry_id) == adjusted(m, p),
        handled(m, EventModel::BudgetDeny(p), request_id, entry_id) == denied(m, p),
        handled(m, EventModel::Reflex(p), request_id, entry_id) == reflected(m, p),
        handled(m, EventModel::Heuristic(p), request_id, entry_id) == taught(m, p),
        handled(m, EventModel::AgentEvent(p), request_id, entry_id) == rejoined(m, p),
        sampling::end_of(m, done) is Turn ==> next_of(m, EventModel::Done(done)) is FinishTurn,
        !(sampling::end_of(m, done) is Turn) ==> next_of(m, EventModel::Done(done)) is Nothing,
        next_of(m, EventModel::Failed) is Nothing,
        next_of(m, EventModel::Cancel) is Examine,
{
}

/// A way out of a loop: a hint is told to the model, a tool is left out once.
pub proof fn law_ways_out_are_taken(m: ThinkerModel, v: Seq<EscapeModel>, n: nat)
    requires
        0 < n <= v.len(),
    ensures
        ({
            let before = escaping(m, v, (n - 1) as nat);
            let r = escaping(m, v, n);
            &&& escaping(m, v, 0) == m
            &&& v[n - 1] matches EscapeModel::InjectHint(s) ==> r.memory.entries
                == before.memory.entries.push(
                EntryModel::Hot {
                    role: "system"@,
                    content: s,
                    token_count: thinker::estimate(s) as nat,
                },
            )
            &&& v[n - 1] matches EscapeModel::DisableTool(s) ==> r == (ThinkerModel {
                disabled: Some(s),
                ..before
            })
            &&& v[n - 1] is DegradeModel ==> r == before
        }),
{
}

/// After three ways out in vain a verdict that ends the loop is carried out and told; one
/// that does not end it leads to a further way out, and so does none at all.
pub proof fn law_loop_is_ended(
    m: ThinkerModel,
    d: DoomModel,
    v: VerdictModel,
    request_id: Seq<char>,
)
    requires
        d.detected,
        3 <= m.escapes < u32::MAX,
    ensures
        v.end_reason matches Some(r) ==> {
            let e = examined(m, d, Some(v), request_id);
            &&& ends(m, d, Some(v))
            &&& e.state == v.state
            &&& e.request == m.request
            &&& e.escapes == m.escapes
            &&& e.outbox.len() == m.outbox.len() + 1
            &&& e.outbox.last() matches ActionModel::Send(o)
            &&& payload::text_at(o.payload, "content"@) == Some("Agent 循环终止："@ + r)
        },
        v.end_reason is None ==> !ends(m, d, Some(v)) && examined(
            m,
            d,
            Some(v),
            request_id,
        ).request == Some(request_id),
        !ends(m, d, None) && examined(m, d, None, request_id).request == Some(request_id),
{
    if v.end_reason is Some {
        sampling::law_notice_is_text(
            m.id,
            "Agent 循环终止："@ + v.end_reason->0,
            Plane::Data,
        );
    }
}

/// A memory is due from its threshold on, and is then cooled; a thinker that has had all
/// its turns ends.
pub proof fn law_full_memory_is_cooled(m: ThinkerModel, ended: AgentState)
    ensures
        ({
            let due = m.memory.max_tokens > 0 && (working::total_tokens(m.memory.entries) * 100) / (
            m.memory.max_tokens as nat) >= m.memory.policy.auto_compact_threshold_percent;
            let worn = m.max_turns is Some && m.turns >= m.max_turns->0;
            let r = settled(m, ended);
            &&& due ==> r.memory.entries == working::compacted(m.memory.entries)
            &&& !due ==> r.memory == m.memory
            &&& worn ==> r.state == ended
            &&& !worn ==> r.state == m.state
            &&& is_worn_out(m) == worn
            &&& r.outbox == m.outbox
        }),
{
}

/// The end of a stream, its failure and its pieces are told apart by their fields.
pub proof fn law_stream_is_read(topic: Seq<char>, bytes: Seq<u8>, p: PayloadModel)
    requires
        model::starts_with(topic, "sampler/"@),
        model::ends_with(topic, "/stream"@),
        outside::unpacked(bytes) == Some(p),
    ensures
        payload::text_at(p, "type"@) == Some("done"@) ==> reading_of(topic, bytes) == Some(
            ReadingModel::Done(payload::text_at(p, "request_id"@)),
        ),
        payload::text_at(p, "type"@) != Some("done"@) && payload::has_field(p, "error"@)
            ==> reading_of(topic, bytes) == Some(ReadingModel::Failed),
        payload::text_at(p, "type"@) != Some("done"@) && !payload::has_field(p, "error"@)
            ==> reading_of(topic, bytes) == Some(ReadingModel::Chunk),
{
    law_topics_tell_the_event(topic);
}

/// Of every other message its fields are read; what cannot be read is refused.
pub proof fn law_fields_are_read(topic: Seq<char>, bytes: Seq<u8>)
    requires
        model::starts_with(topic, "agent/"@),
        model::ends_with(topic, "/input"@) || model::ends_with(topic, "/tool_result"@),
    ensures
        outside::unpacked(bytes) is None ==> reading_of(topic, bytes) is None,
        outside::unpacked(bytes) matches Some(p) ==> reading_of(topic, bytes) == Some(
            ReadingModel::Fields(p),
        ),
{
    law_topics_tell_the_event(topic);
}

/// Who tries to escape from a loop says which tool was called how often, and which attempt
/// this is, and asks the model again.
pub proof fn law_escape_is_told(m: ThinkerModel, d: DoomModel, request_id: Seq<char>, tool: Seq<char>)
    requires
        m.escapes < u32::MAX,
        d.repeated_tool == Some(tool),
    ensures
        model::contains(loop_text(d, (m.escapes + 1) as u32), tool),
        model::contains(
            loop_text(d, (m.escapes + 1) as u32),
            model::decimal(d.repeat_count as nat),
        ),
        model::contains(
            loop_text(d, (m.escapes + 1) as u32),
            model::decimal((m.escapes + 1) as nat),
        ),
        escaped(m, d, request_id).escapes == m.escapes + 1,
        escaped(m, d, request_id).request == Some(request_id),
{
    let s = loop_text(d, (m.escapes + 1) as u32);
    let a = "检测到工具循环（"@;
    let b = " 重复 "@;
    let c = model::decimal(d.repeat_count as nat);
    let e = " 次），已注入换策略提示、临时禁用该工具并降级模型，正在尝试跳出循环（第 "@;
    let f = model::decimal((m.escapes + 1) as nat);
    let g = " 次）。"@;
    lemma_escaping_keeps(
        ThinkerModel { escapes: (m.escapes + 1) as u32, ..m },
        d.escapes,
        d.escapes.len(),
    );
    assert(s.subrange(a.len() as int, (a + tool).len() as int) =~= tool);
    lemmas::lemma_found(s, tool, 0, a.len() as int);
    assert(s.subrange((a + tool + b).len() as int, (a + tool + b + c).len() as int) =~= c);
    lemmas::lemma_found(s, c, 0, (a + tool + b).len() as int);
    assert(s.subrange(
        (a + tool + b + c + e).len() as int,
        (a + tool + b + c + e + f).len() as int,
    ) =~= f);
    lemmas::lemma_found(s, f, 0, (a + tool + b + c + e).len() as int);
}

/// Of an assessment every conflict is read by its description, in the order in which they
/// are named, and the other strategy by its name.
pub proof fn law_assessment_is_read(
    topic: Seq<char>,
    bytes: Seq<u8>,
    p: PayloadModel,
    items: Seq<Seq<u8>>,
    i: int,
    q: PayloadModel,
)
    requires
        topic_kind(topic) is MetaResult,
        outside::unpacked(bytes) == Some(p),
        outside::unpacked_items(bytes, "conflicts"@) == Some(items),
        0 <= i < items.len(),
        outside::unpacked(items[i]) == Some(q),
    ensures
        reading_of(topic, bytes) matches Some(ReadingModel::Assessment(v, s)) && v.len()
            == items.len() && v[i] == payload::text_at(q, "description"@) && s == payload::text_at(
            p,
            "suggested_strategy"@,
        ),
{
}

/// Under the policy that is in force unless another is set, the context is compacted from
/// eighty-five percent of its budget on.
pub proof fn law_compaction_is_due_at_its_threshold(m: WorkingModel)
    requires
        m.policy == working::default_policy(),
        m.max_tokens > 0,
    ensures
        is_due(m) <==> working::total_tokens(m.entries) * 100 >= 85 * m.max_tokens,
{
    let x = (working::total_tokens(m.entries) * 100) as int;
    let y = m.max_tokens as int;
    assert(x / y >= 85 <==> x >= 85 * y) by (nonlinear_arith)
        requires
            x >= 0,
            y > 0,
    ;
}

} // verus!
