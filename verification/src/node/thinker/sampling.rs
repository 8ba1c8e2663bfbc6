//! Asks the model, and takes its answer: what it says, and which tools it wants
//! called.

use crate::memory::working;
use crate::memory::working::{EntryModel, WorkingEntry};
use crate::message::topic::Topic;
use crate::node::payload;
use crate::node::payload::{Outgoing, OutgoingModel, Payload, PayloadModel, Plane};
use crate::node::thinker;
use crate::node::thinker::compaction;
use crate::node::thinker::goal;
use crate::node::thinker::goal::{GoalAction, GoalModel};
use crate::node::thinker::sensory;
use crate::node::thinker::{
    ActionModel, AgentState, CallModel, PendingToolCall, RequestModel, SampleRequest, SavedEntry,
    SavedModel, ThinkerAction, ThinkerModel, ThinkerNode, ToolDefinition, ToolModel,
};
use crate::outside;
use crate::text::text_map;
use crate::text::{model, ops};
use std::collections::hash_map::DefaultHasher;
use std::hash::Hasher;
use vstd::prelude::*;
use vstd::std_specs::hash::DefaultHasherAdditionalSpecFns;
use vstd::string::*;

verus! {

/// How many entries are saved at the end of a turn.
pub const MAX_PERSIST_ENTRIES: usize = 50;

/// How many tokens the entries that are saved at the end of a turn may take.
pub const MAX_PERSIST_TOKENS: u32 = 4000;

/// What a piece of the model's answer is.
#[derive(Debug, Clone, Copy, PartialEq, Eq, Structural)]
pub enum StreamChannel {
    Text,
    Reasoning,
    ToolCall,
}

/// A piece of the model's answer.
#[derive(Debug)]
pub struct StreamChunk {
    pub request_id: String,
    pub channel: StreamChannel,
    pub content: String,
    /// The call that the piece asks for, its arguments as the model has written
    /// them.
    pub tool_call: Option<PendingToolCall>,
    /// The call that the content is, where it is one.
    pub written_call: Option<PendingToolCall>,
}

/// A call of a tool, if there is one.
pub open spec fn opt_call(c: Option<PendingToolCall>) -> Option<CallModel> {
    match c {
        Some(c) => Some(c@),
        None => None,
    }
}

/// What a piece holds.
#[verifier::ext_equal]
pub struct ChunkModel {
    pub request_id: Seq<char>,
    pub channel: StreamChannel,
    pub content: Seq<char>,
    pub tool_call: Option<CallModel>,
    pub written_call: Option<CallModel>,
}

impl View for StreamChunk {
    type V = ChunkModel;

    open spec fn view(&self) -> ChunkModel {
        ChunkModel {
            request_id: self.request_id@,
            channel: self.channel,
            content: self.content@,
            tool_call: opt_call(self.tool_call),
            written_call: opt_call(self.written_call),
        }
    }
}

/// The tools that the next request offers.
pub open spec fn offered(m: ThinkerModel) -> Seq<ToolModel> {
    match m.disabled {
        Some(name) => m.tools.filter(|t: ToolModel| t.name != name),
        None => m.tools,
    }
}

/// What the model is asked next.
pub open spec fn question(m: ThinkerModel, request_id: Seq<char>) -> RequestModel {
    RequestModel {
        request_id: request_id,
        agent_id: m.id,
        model: m.model,
        messages: working::chat_messages(m.memory.entries),
        tools: offered(m),
    }
}

/// The thinker after the next request was made; a tool is left out of one request
/// only.
pub open spec fn after_question(m: ThinkerModel, request_id: Seq<char>) -> ThinkerModel {
    ThinkerModel { request: Some(request_id), disabled: None, ..m }
}

/// What the kernel is asked before the model is.
pub open spec fn budget_check(id: Seq<char>) -> OutgoingModel {
    OutgoingModel {
        topic: "cortex/budget_check"@,
        payload: PayloadModel::empty().push(payload::text_field("agent_id"@, id)),
        plane: Plane::Quiet,
    }
}

/// The thinker after it has asked the model.
pub open spec fn asked(m: ThinkerModel, request_id: Seq<char>) -> ThinkerModel {
    let a = thinker::doing(m, ActionModel::Send(budget_check(m.id)));
    thinker::doing(after_question(a, request_id), ActionModel::Sample(question(a, request_id)))
}

/// What the user is told.
pub open spec fn notice(id: Seq<char>, text: Seq<char>, plane: Plane) -> OutgoingModel {
    OutgoingModel {
        topic: "agent/"@ + id + "/output"@,
        payload: PayloadModel::empty().push(payload::text_field("channel"@, "text"@)).push(
            payload::text_field("content"@, text),
        ),
        plane: plane,
    }
}

/// The hash of a call's arguments, which are in JSON notation.
pub open spec fn args_hash(arguments: Seq<char>) -> u64 {
    DefaultHasher::spec_finish(seq![vstd::utf8::encode_utf8(arguments), seq![0xffu8]])
}

/// The call that the model asks for, its arguments being null where they are no
/// JSON.
pub open spec fn streamed(c: CallModel, parsed: Option<Seq<char>>) -> CallModel {
    CallModel {
        arguments: match parsed {
            Some(s) => s,
            None => "null"@,
        },
        ..c
    }
}

/// The call that a piece of the answer asks for. `spare` names it where nothing
/// else does.
pub open spec fn call_in(c: ChunkModel, spare: Seq<char>) -> CallModel {
    match c.tool_call {
        Some(call) => streamed(call, outside::json_value_of(call.arguments)),
        None => match c.written_call {
            Some(call) => call,
            None => CallModel {
                tool_call_id: spare,
                tool_name: "unknown"@,
                arguments: "null"@,
            },
        },
    }
}

/// The thinker with one more call to make.
pub open spec fn with_call(m: ThinkerModel, c: CallModel) -> ThinkerModel {
    ThinkerModel {
        calls: m.calls.insert(c.tool_call_id, c),
        call_order: text_map::with(m.call_order, c.tool_call_id),
        ..m
    }
}

/// The thinker after a piece of the answer.
pub open spec fn streamed_to(m: ThinkerModel, c: ChunkModel, spare: Seq<char>) -> ThinkerModel {
    match c.channel {
        StreamChannel::Text => thinker::doing(
            thinker::in_state(m, AgentState::Outputting),
            ActionModel::Send(notice(m.id, c.content, Plane::Data)),
        ),
        StreamChannel::Reasoning => m,
        StreamChannel::ToolCall => {
            let call = call_in(c, spare);
            with_call(
                thinker::doing(
                    thinker::in_state(m, AgentState::ToolCalling),
                    ActionModel::Note(call.tool_name, args_hash(call.arguments)),
                ),
                call,
            )
        },
    }
}

/// The thinker after the first `n` calls were made.
pub open spec fn called(m: ThinkerModel, n: nat) -> ThinkerModel
    decreases n,
{
    if n == 0 {
        m
    } else {
        let before = called(m, (n - 1) as nat);
        let id = m.call_order[n - 1];
        thinker::doing(
            ThinkerModel {
                results: before.results.insert(id, m.calls[id].tool_name),
                result_order: text_map::with(before.result_order, id),
                ..before
            },
            ActionModel::Call(m.calls[id]),
        )
    }
}

/// The thinker after all calls were made.
pub open spec fn all_called(m: ThinkerModel) -> ThinkerModel {
    ThinkerModel {
        calls: Map::empty(),
        call_order: Seq::empty(),
        ..called(thinker::in_state(m, AgentState::ToolCalling), m.call_order.len())
    }
}

/// What the end of an answer leads to.
#[derive(Debug, Clone, Copy, PartialEq, Eq, Structural)]
pub enum AnswerEnd {
    /// The answer was to another request.
    Stale,
    /// The tools that it asks for are called.
    Calls,
    /// The turn ends.
    Turn,
}

/// What the end of an answer leads to. An end that names no request is that of the
/// one being answered.
pub open spec fn end_of(m: ThinkerModel, request_id: Option<Seq<char>>) -> AnswerEnd {
    if request_id is Some && request_id != m.request {
        AnswerEnd::Stale
    } else if m.call_order.len() > 0 {
        AnswerEnd::Calls
    } else {
        AnswerEnd::Turn
    }
}

/// The thinker after an answer has ended, but for the end of the turn.
pub open spec fn answered(m: ThinkerModel, request_id: Option<Seq<char>>) -> ThinkerModel {
    match end_of(m, request_id) {
        AnswerEnd::Calls => all_called(m),
        _ => m,
    }
}

/// The beginnings of the hot ones among the last `n` entries, the last first.
pub open spec fn recent_parts(v: Seq<EntryModel>, n: nat) -> Seq<Seq<char>>
    decreases n,
{
    if n == 0 {
        Seq::empty()
    } else {
        let before = recent_parts(v, (n - 1) as nat);
        match v[v.len() - n] {
            EntryModel::Hot { content, .. } => before.push(sensory::beginning(content, 100)),
            _ => before,
        }
    }
}

/// What the last three entries are about.
pub open spec fn recent_summary(v: Seq<EntryModel>) -> Seq<char> {
    model::join(
        recent_parts(
            v,
            if v.len() < 3 {
                v.len()
            } else {
                3
            },
        ),
        " | "@,
    )
}

/// An entry as it is saved; a placeholder is not.
pub open spec fn saved_of(e: EntryModel) -> Option<SavedModel> {
    match e {
        EntryModel::Hot { role, content, token_count } => Some(
            SavedModel {
                role: thinker::title(role),
                content: sensory::beginning(content, 200),
                tokens: token_count as u32,
            },
        ),
        EntryModel::Warm { summary, token_count, .. } => Some(
            SavedModel {
                role: "Warm"@,
                content: sensory::beginning(summary, 200),
                tokens: token_count as u32,
            },
        ),
        EntryModel::Cold { .. } => None,
    }
}

/// The entries that are saved, and the tokens that they take, from place `i` on:
/// as many as the limits allow.
pub open spec fn saved_from(
    v: Seq<EntryModel>,
    i: nat,
    kept: Seq<SavedModel>,
    tokens: nat,
) -> (Seq<SavedModel>, nat)
    decreases v.len() - i,
{
    if i >= v.len() {
        (kept, tokens)
    } else {
        match saved_of(v[i as int]) {
            Some(s) => if tokens + working::tokens_of(v[i as int]) > MAX_PERSIST_TOKENS
                || kept.len() >= MAX_PERSIST_ENTRIES {
                (kept, tokens)
            } else {
                saved_from(v, i + 1, kept.push(s), tokens + working::tokens_of(v[i as int]))
            },
            None => saved_from(v, i + 1, kept, tokens),
        }
    }
}

/// The thinker after it has had its context saved; nothing is sent where nothing
/// is worth saving.
pub open spec fn persisted(m: ThinkerModel) -> ThinkerModel {
    let (kept, tokens) = saved_from(m.memory.entries, 0, Seq::empty(), 0);
    if kept.len() == 0 {
        m
    } else {
        thinker::doing(m, ActionModel::Persist(kept, tokens as u32))
    }
}

/// What is known at the end of a turn.
#[derive(Debug)]
pub struct TurnEnd {
    /// The heat of each entry of the context.
    pub heats: Vec<i64>,
    /// What is to be done for the goal.
    pub goal: Option<GoalAction>,
    /// The way that the task has taken, in JSON notation, if it has ended.
    pub trajectory: Option<String>,
}

/// What an end of a turn holds.
#[verifier::ext_equal]
pub struct EndModel {
    pub heats: Seq<i64>,
    pub goal: Option<GoalModel>,
    pub trajectory: Option<Seq<char>>,
}

impl View for TurnEnd {
    type V = EndModel;

    open spec fn view(&self) -> EndModel {
        EndModel {
            heats: self.heats@,
            goal: match self.goal {
                Some(g) => Some(g@),
                None => None,
            },
            trajectory: model::opt_text(self.trajectory),
        }
    }
}

/// The thinker at the end of a turn, its context in the window and its goal
/// pursued.
pub open spec fn rested(m: ThinkerModel, e: EndModel) -> ThinkerModel {
    let a = ThinkerModel { request: None, active: false, state: AgentState::Idle, ..m };
    let b = compaction::windowed(a, e.heats);
    match e.goal {
        Some(g) => goal::pursued_if(b, g),
        None => b,
    }
}

/// The thinker after the end of a turn: the kernel is told of the task's way and
/// asked how well the thinking goes, and the context is saved.
pub open spec fn finished(m: ThinkerModel, e: EndModel) -> ThinkerModel {
    let a = rested(m, e);
    let b = match e.trajectory {
        Some(t) => thinker::doing(a, ActionModel::Trajectory(t)),
        None => a,
    };
    persisted(
        thinker::doing(
            b,
            ActionModel::Send(sensory::assessment(b.id, recent_summary(b.memory.entries))),
        ),
    )
}

/// The thinker after an answer has failed.
pub open spec fn failed(m: ThinkerModel) -> ThinkerModel {
    ThinkerModel { request: None, state: AgentState::Error, ..m }
}

/// The call that the model asks for, given its arguments in the shortest notation
/// if they are JSON.
pub fn streamed_call(call: &PendingToolCall, parsed: Option<String>) -> (r: PendingToolCall)
    ensures
        r@ == streamed(call@, model::opt_text(parsed)),
{
    PendingToolCall {
        tool_call_id: call.tool_call_id.clone(),
        tool_name: call.tool_name.clone(),
        arguments: match parsed {
            Some(s) => s,
            None => String::from_str("null"),
        },
    }
}

impl ThinkerNode {
    /// The hash of a call's arguments, which are in JSON notation.
    pub fn hash_tool_args(arguments: &str) -> (r: u64)
        ensures
            r == args_hash(arguments@),
    {
        let mut hasher = DefaultHasher::new();
        let bytes = arguments.as_bytes_vec();
        hasher.write(bytes.as_slice());
        let end: Vec<u8> = vec![0xff];
        hasher.write(end.as_slice());
        assert(end@ =~= seq![0xffu8]);
        assert(hasher@ =~= seq![vstd::utf8::encode_utf8(arguments@), seq![0xffu8]]);
        hasher.finish()
    }

    /// The tools that the next request offers.
    fn offered_tools(&self) -> (r: Vec<ToolDefinition>)
        ensures
            thinker::tool_models(r@) == offered(self@),
    {
        let ghost all = self@.tools;
        let ghost f = |t: ToolModel|
            match self@.disabled {
                Some(name) => t.name != name,
                None => true,
            };
        let mut out: Vec<ToolDefinition> = Vec::new();
        assert(thinker::tool_models(out@) =~= Seq::empty());
        proof {
            reveal(Seq::filter);
        }
        assert(all.take(0).filter(f) =~= Seq::empty());
        let mut i: usize = 0;
        while i < self.config.tools.len()
            invariant
                i <= self.config.tools@.len(),
                all == thinker::tool_models(self.config.tools@),
                f == (|t: ToolModel|
                    match self@.disabled {
                        Some(name) => t.name != name,
                        None => true,
                    }),
                thinker::tool_models(out@) == all.take(i as int).filter(f),
            decreases self.config.tools@.len() - i,
        {
            proof {
                reveal(Seq::filter);
            }
            assert(all[i as int] == self.config.tools@[i as int]@);
            assert(all.take(i + 1).drop_last() =~= all.take(i as int));
            let tool = &self.config.tools[i];
            let left_out = match &self.disabled_tool_next_round {
                Some(name) => ops::same_text(tool.name.as_str(), name.as_str()),
                None => false,
            };
            if !left_out {
                let ghost before = thinker::tool_models(out@);
                let item = ToolDefinition {
                    name: tool.name.clone(),
                    definition: tool.definition.clone(),
                };
                let ghost shown = item@;
                out.push(item);
                assert(thinker::tool_models(out@) =~= before.push(shown));
            }
            i = i + 1;
        }
        assert(all.take(all.len() as int) =~= all);
        proof {
            match self@.disabled {
                Some(name) => {
                    assert(f =~= (|t: ToolModel| t.name != name));
                },
                None => {
                    lemma_filter_all(all, f);
                },
            }
        }
        out
    }

    /// Makes the next request.
    pub fn build_sample_request(&mut self, request_id: String) -> (r: SampleRequest)
        requires
            old(self).wf(),
        ensures
            final(self).wf(),
            r@ == question(old(self)@, request_id@),
            final(self)@ == after_question(old(self)@, request_id@),
    {
        let messages = self.working_memory.to_chat_messages();
        let tools = self.offered_tools();
        self.disabled_tool_next_round = None;
        self.current_sample_request_id = Some(request_id.clone());
        SampleRequest {
            request_id,
            agent_id: String::from_str(self.id.as_str()),
            model: self.config.model.clone(),
            messages,
            tools,
        }
    }

    /// Asks the kernel whether the model may be asked. A denial comes later.
    pub fn check_budget_and_circuit(&mut self)
        requires
            old(self).wf(),
        ensures
            final(self).wf(),
            final(self)@ == thinker::doing(
                old(self)@,
                ActionModel::Send(budget_check(old(self)@.id)),
            ),
    {
        let body = Payload::new().text("agent_id", self.id.as_str());
        self.act(
            ThinkerAction::Send(
                Outgoing {
                    topic: Topic::new("cortex/budget_check"),
                    payload: body,
                    plane: Plane::Quiet,
                },
            ),
        );
    }

    /// Asks the model, after asking the kernel.
    pub fn send_sample_request(&mut self, request_id: String)
        requires
            old(self).wf(),
        ensures
            final(self).wf(),
            final(self)@ == asked(old(self)@, request_id@),
    {
        self.check_budget_and_circuit();
        let request = self.build_sample_request(request_id);
        self.act(ThinkerAction::Sample(request));
    }

    /// Tells the user something.
    pub fn notify(&mut self, text: &str, plane: Plane)
        requires
            old(self).wf(),
        ensures
            final(self).wf(),
            final(self)@ == thinker::doing(
                old(self)@,
                ActionModel::Send(notice(old(self)@.id, text@, plane)),
            ),
    {
        let topic = Topic::agent_output(self.id.as_str());
        let body = Payload::new().text("channel", "text").text("content", text);
        self.act(ThinkerAction::Send(Outgoing { topic, payload: body, plane }));
    }

    /// Takes a piece of the model's answer. `spare_id` names a call that has no
    /// name of its own.
    pub fn handle_stream_chunk(&mut self, chunk: StreamChunk, spare_id: String)
        requires
            old(self).wf(),
        ensures
            final(self).wf(),
            final(self)@ == streamed_to(old(self)@, chunk@, spare_id@),
    {
        match chunk.channel {
            StreamChannel::Text => {
                self.state = AgentState::Outputting;
                self.notify(chunk.content.as_str(), Plane::Data);
            },
            StreamChannel::Reasoning => {},
            StreamChannel::ToolCall => {
                self.state = AgentState::ToolCalling;
                let call = match chunk.tool_call {
                    Some(call) => {
                        let parsed = outside::json_value(call.arguments.as_str());
                        streamed_call(&call, parsed)
                    },
                    None => match chunk.written_call {
                        Some(call) => call,
                        None => PendingToolCall {
                            tool_call_id: spare_id,
                            tool_name: String::from_str("unknown"),
                            arguments: String::from_str("null"),
                        },
                    },
                };
                let hash: u64 = ThinkerNode::hash_tool_args(call.arguments.as_str());
                self.act(ThinkerAction::Note(call.tool_name.clone(), hash));
                let ghost before = self@.calls;
                let ghost shown = call@;
                let key = call.tool_call_id.clone();
                self.pending_tool_calls.insert(key, call);
                assert(self@.calls =~= before.insert(shown.tool_call_id, shown));
            },
        }
    }

    /// Takes the end of the model's answer: where it asks for tools, they are
    /// called.
    pub fn handle_done(&mut self, request_id: Option<&str>) -> (r: AnswerEnd)
        requires
            old(self).wf(),
        ensures
            final(self).wf(),
            r == end_of(
                old(self)@,
                match request_id {
                    Some(s) => Some(s@),
                    None => None,
                },
            ),
            final(self)@ == answered(
                old(self)@,
                match request_id {
                    Some(s) => Some(s@),
                    None => None,
                },
            ),
    {
        if let Some(id) = request_id {
            let current = match &self.current_sample_request_id {
                Some(s) => ops::same_text(s.as_str(), id),
                None => false,
            };
            if !current {
                return AnswerEnd::Stale;
            }
        }
        if self.pending_tool_calls.is_empty() {
            return AnswerEnd::Turn;
        }
        self.call_tools();
        AnswerEnd::Calls
    }

    /// Has the tools called that the model has asked for.
    fn call_tools(&mut self)
        requires
            old(self).wf(),
        ensures
            final(self).wf(),
            final(self)@ == all_called(old(self)@),
    {
        self.state = AgentState::ToolCalling;
        let ghost m = self@;
        let total: usize = self.pending_tool_calls.len();
        let mut i: usize = 0;
        while i < total
            invariant
                i <= total,
                total == m.call_order.len(),
                self.wf(),
                self.pending_tool_calls.order() == m.call_order,
                thinker::shown_calls(self.pending_tool_calls@) == m.calls,
                self@ == called(m, i as nat),
            decreases total - i,
        {
            let ghost before = self@;
            let id = self.pending_tool_calls.key_at(i).clone();
            let call = self.pending_tool_calls.value_at(i).clone();
            let name = call.tool_name.clone();
            let ghost results = self.pending_tool_results@;
            self.pending_tool_results.insert(id, name);
            proof {
                text_map::lemma_shown_insert(results, id@, name);
            }
            self.act(ThinkerAction::Call(call));
            assert(self@ == called(m, (i + 1) as nat));
            i = i + 1;
        }
        self.pending_tool_calls.clear();
        assert(self@.calls =~= Map::empty());
    }

    /// What the last entries of the context are about.
    fn context_summary(&self) -> (r: String)
        ensures
            r@ == recent_summary(self@.memory.entries),
    {
        let entries = self.working_memory.entries();
        let ghost all = self@.memory.entries;
        assert(all.len() == entries@.len());
        let total: usize = entries.len();
        let count: usize = if total < 3 {
            total
        } else {
            3
        };
        let mut parts: Vec<String> = Vec::new();
        assert(model::texts(parts@) =~= Seq::empty());
        let mut i: usize = 0;
        while i < count
            invariant
                i <= count <= total,
                total == entries@.len(),
                all == working::entry_models(entries@),
                model::texts(parts@) == recent_parts(all, i as nat),
            decreases count - i,
        {
            assert(all[total - 1 - i] == entries@[total - 1 - i]@);
            if let WorkingEntry::Hot { content, .. } = &entries[total - 1 - i] {
                let ghost before = model::texts(parts@);
                let part = sensory::begin(content.as_str(), 100);
                let ghost shown = part@;
                parts.push(part);
                assert(model::texts(parts@) =~= before.push(shown));
            }
            i = i + 1;
        }
        ops::join_texts(parts.as_slice(), " | ")
    }

    /// Has the context saved, as far as the limits allow.
    pub fn persist_to_state(&mut self)
        requires
            old(self).wf(),
        ensures
            final(self).wf(),
            final(self)@ == persisted(old(self)@),
    {
        let ghost all = self@.memory.entries;
        let entries = self.working_memory.entries();
        let mut kept: Vec<SavedEntry> = Vec::new();
        let mut tokens: u32 = 0;
        assert(thinker::saved_models(kept@) =~= Seq::empty());
        let mut i: usize = 0;
        let mut full = false;
        while i < entries.len() && !full
            invariant
                i <= entries@.len(),
                all == working::entry_models(entries@),
                tokens <= MAX_PERSIST_TOKENS,
                full ==> saved_from(all, 0, Seq::empty(), 0) == (
                    thinker::saved_models(kept@),
                    tokens as nat,
                ),
                !full ==> saved_from(all, 0, Seq::empty(), 0) == saved_from(
                    all,
                    i as nat,
                    thinker::saved_models(kept@),
                    tokens as nat,
                ),
            decreases entries@.len() - i, if full { 0int } else { 1int },
        {
            assert(all[i as int] == entries@[i as int]@);
            let ghost before = thinker::saved_models(kept@);
            assert(before.len() == kept@.len());
            let count: u32 = entries[i].token_count();
            let item = match &entries[i] {
                WorkingEntry::Hot { role, content, .. } => Some(
                    SavedEntry {
                        role: String::from_str(thinker::role_title(role.as_str())),
                        content: sensory::begin(content.as_str(), 200),
                        tokens: count,
                    },
                ),
                WorkingEntry::Warm { summary, .. } => Some(
                    SavedEntry {
                        role: String::from_str("Warm"),
                        content: sensory::begin(summary.as_str(), 200),
                        tokens: count,
                    },
                ),
                WorkingEntry::Cold { .. } => None,
            };
            match item {
                Some(s) => {
                    if count > MAX_PERSIST_TOKENS - tokens || kept.len() >= MAX_PERSIST_ENTRIES {
                        full = true;
                    } else {
                        let ghost shown = s@;
                        tokens = tokens + count;
                        kept.push(s);
                        assert(thinker::saved_models(kept@) =~= before.push(shown));
                        i = i + 1;
                    }
                },
                None => {
                    i = i + 1;
                },
            }
        }
        assert(thinker::saved_models(kept@).len() == kept@.len());
        if kept.len() > 0 {
            self.act(ThinkerAction::Persist(kept, tokens));
        }
    }

    /// Ends a turn.
    pub fn finish_turn(&mut self, end: TurnEnd)
        requires
            old(self).wf(),
            old(self)@.turns < u32::MAX,
            end@.heats.len() == old(self)@.memory.entries.len(),
        ensures
            final(self).wf(),
            final(self)@ == finished(old(self)@, end@),
    {
        self.current_sample_request_id = None;
        self.agentic_session_active = false;
        self.state = AgentState::Idle;
        self.update_context_window(&end.heats);
        if let Some(action) = end.goal {
            self.on_goal_verification_result(action);
        }
        if let Some(way) = end.trajectory {
            self.act(ThinkerAction::Trajectory(way));
        }
        let summary = self.context_summary();
        self.request_meta_assessment(summary.as_str());
        self.persist_to_state();
    }

    /// Takes note that the model could not answer.
    pub fn handle_sampling_error(&mut self)
        requires
            old(self).wf(),
        ensures
            final(self).wf(),
            final(self)@ == failed(old(self)@),
    {
        self.current_sample_request_id = None;
        self.state = AgentState::Error;
    }
}

proof fn lemma_filter_all(v: Seq<ToolModel>, f: spec_fn(ToolModel) -> bool)
    requires
        forall|t: ToolModel| #[trigger] f(t),
    ensures
        v.filter(f) == v,
    decreases v.len(),
{
    reveal(Seq::filter);
    if v.len() > 0 {
        lemma_filter_all(v.drop_last(), f);
        assert(v.drop_last().push(v.last()) =~= v);
    } else {
        assert(v.filter(f) =~= v);
    }
}

proof fn lemma_called(m: ThinkerModel, n: nat)
    requires
        n <= m.call_order.len(),
    ensures
        called(m, n).outbox.len() == m.outbox.len() + n,
        forall|i: int|
            0 <= i < n ==> #[trigger] called(m, n).outbox[m.outbox.len() + i] == ActionModel::Call(
                m.calls[m.call_order[i]],
            ),
        forall|i: int|
            0 <= i < n ==> called(m, n).results.contains_key(#[trigger] m.call_order[i]),
    decreases n,
{
    if n > 0 {
        lemma_called(m, (n - 1) as nat);
        let before = called(m, (n - 1) as nat);
        assert forall|i: int| 0 <= i < n implies #[trigger] called(m, n).outbox[m.outbox.len() + i]
            == ActionModel::Call(m.calls[m.call_order[i]]) by {
            if i < n - 1 {
                assert(called(m, n).outbox[m.outbox.len() + i] == before.outbox[m.outbox.len()
                    + i]);
            }
        }
    }
}

/// Every call that the model has asked for is made once, in the order in which it
/// was asked for, and its result is then awaited.
pub proof fn law_every_call_is_made(m: ThinkerModel, i: int)
    requires
        0 <= i < m.call_order.len(),
    ensures
        all_called(m).outbox.len() == m.outbox.len() + m.call_order.len(),
        all_called(m).outbox[m.outbox.len() + i] == ActionModel::Call(m.calls[m.call_order[i]]),
        all_called(m).results.contains_key(m.call_order[i]),
        all_called(m).call_order.len() == 0,
{
    lemma_called(thinker::in_state(m, AgentState::ToolCalling), m.call_order.len());
}

/// A tool that is disabled is left out of the next request, and of that alone.
pub proof fn law_disabled_tool_is_left_out_once(m: ThinkerModel, name: Seq<char>, id: Seq<char>)
    requires
        m.disabled == Some(name),
    ensures
        forall|i: int|
            0 <= i < question(m, id).tools.len() ==> (#[trigger] question(m, id).tools[i]).name
                != name,
        after_question(m, id).disabled is None,
        offered(after_question(m, id)) == m.tools,
{
    let f = |t: ToolModel| t.name != name;
    assert forall|i: int| 0 <= i < question(m, id).tools.len() implies (#[trigger] question(
        m,
        id,
    ).tools[i]).name != name by {
        m.tools.lemma_filter_pred(f, i);
    }
}

/// What is saved at the end of a turn stays within the limits.
pub proof fn law_saved_context_is_bounded(m: ThinkerModel)
    ensures
        saved_from(m.memory.entries, 0, Seq::empty(), 0).0.len() <= MAX_PERSIST_ENTRIES,
        saved_from(m.memory.entries, 0, Seq::empty(), 0).1 <= MAX_PERSIST_TOKENS,
{
    lemma_saved_bound(m.memory.entries, 0, Seq::empty(), 0);
}

proof fn lemma_saved_bound(v: Seq<EntryModel>, i: nat, kept: Seq<SavedModel>, tokens: nat)
    requires
        kept.len() <= MAX_PERSIST_ENTRIES,
        tokens <= MAX_PERSIST_TOKENS,
    ensures
        saved_from(v, i, kept, tokens).0.len() <= MAX_PERSIST_ENTRIES,
        saved_from(v, i, kept, tokens).1 <= MAX_PERSIST_TOKENS,
    decreases v.len() - i,
{
    if i < v.len() {
        match saved_of(v[i as int]) {
            Some(s) => {
                let more = tokens + working::tokens_of(v[i as int]);
                if more <= MAX_PERSIST_TOKENS && kept.len() < MAX_PERSIST_ENTRIES {
                    lemma_saved_bound(v, i + 1, kept.push(s), more);
                }
            },
            None => {
                lemma_saved_bound(v, i + 1, kept, tokens);
            },
        }
    }
}

/// A model is asked with the whole talk and, but for a disabled one, all tools.
pub proof fn law_question_shows_the_talk(m: ThinkerModel, request_id: Seq<char>, i: int)
    ensures
        ({
            let q = question(m, request_id);
            &&& q.request_id == request_id
            &&& q.agent_id == m.id
            &&& q.model == m.model
            &&& q.messages == working::chat_messages(m.memory.entries)
            &&& m.disabled is None ==> q.tools == m.tools
            &&& 0 <= i < m.tools.len() && m.disabled != Some(m.tools[i].name) ==> q.tools.contains(
                m.tools[i],
            )
        }),
{
    if 0 <= i < m.tools.len() && m.disabled is Some && m.disabled != Some(m.tools[i].name) {
        lemma_tool_stays(m.tools, m.disabled->0, i);
    }
}

proof fn lemma_tool_stays(v: Seq<ToolModel>, name: Seq<char>, i: int)
    requires
        0 <= i < v.len(),
        v[i].name != name,
    ensures
        v.filter(|t: ToolModel| t.name != name).contains(v[i]),
    decreases v.len(),
{
    reveal(Seq::filter);
    let f = |t: ToolModel| t.name != name;
    let all = v.filter(f);
    if i < v.len() - 1 {
        lemma_tool_stays(v.drop_last(), name, i);
        let before = v.drop_last().filter(f);
        let k = choose|k: int| 0 <= k < before.len() && before[k] == v[i];
        assert(all[k] == v[i]);
    } else {
        assert(all[all.len() - 1] == v[i]);
    }
}

/// Before a question the budget is asked for; then the question waits for its answer under
/// its name.
pub proof fn law_budget_is_asked_first(m: ThinkerModel, request_id: Seq<char>)
    ensures
        ({
            let r = asked(m, request_id);
            let n = m.outbox.len() as int;
            &&& r.outbox.len() == n + 2
            &&& r.outbox.take(n) == m.outbox
            &&& r.outbox[n] matches ActionModel::Send(o)
            &&& o.topic == "cortex/budget_check"@
            &&& payload::text_at(o.payload, "agent_id"@) == Some(m.id)
            &&& r.outbox[n + 1] matches ActionModel::Sample(q)
            &&& q == question(m, request_id)
            &&& r.request == Some(request_id)
            &&& r.disabled is None
            &&& r.memory == m.memory && r.state == m.state
        }),
{
    let p = budget_check(m.id).payload;
    assert(p =~= seq![payload::text_field("agent_id"@, m.id)]);
    payload::law_field_is_read_by_name(p, 0);
    assert(asked(m, request_id).outbox.take(m.outbox.len() as int) =~= m.outbox);
}

/// A notice goes to the agent's output as text.
pub proof fn law_notice_is_text(id: Seq<char>, text: Seq<char>, plane: Plane)
    ensures
        notice(id, text, plane).topic == "agent/"@ + id + "/output"@,
        payload::text_at(notice(id, text, plane).payload, "channel"@) == Some("text"@),
        payload::text_at(notice(id, text, plane).payload, "content"@) == Some(text),
        notice(id, text, plane).plane == plane,
{
    reveal_strlit("channel");
    reveal_strlit("content");
    assert("channel"@.len() == 7 && "content"@.len() == 7);
    assert("channel"@[1] == 'h' && "content"@[1] == 'o');
    let p = notice(id, text, plane).payload;
    assert(p =~= seq![
        payload::text_field("channel"@, "text"@),
        payload::text_field("content"@, text),
    ]);
    payload::law_field_is_read_by_name(p, 0);
    payload::law_field_is_read_by_name(p, 1);
}

/// What a model says is put out at once, what it reasons is not, and a call that it wants
/// is kept until its answer ends.
pub proof fn law_stream_is_followed(m: ThinkerModel, c: ChunkModel, spare: Seq<char>)
    ensures
        c.channel is Text ==> {
            let r = streamed_to(m, c, spare);
            &&& r.state is Outputting
            &&& r.outbox.len() == m.outbox.len() + 1
            &&& r.outbox.last() matches ActionModel::Send(o)
            &&& o.topic == "agent/"@ + m.id + "/output"@
            &&& payload::text_at(o.payload, "content"@) == Some(c.content)
            &&& r.calls == m.calls
        },
        c.channel is Reasoning ==> streamed_to(m, c, spare) == m,
        c.channel is ToolCall ==> {
            let r = streamed_to(m, c, spare);
            let call = call_in(c, spare);
            &&& r.state is ToolCalling
            &&& r.calls == m.calls.insert(call.tool_call_id, call)
            &&& r.call_order.contains(call.tool_call_id)
            &&& r.outbox.len() == m.outbox.len() + 1
            &&& r.outbox.last() == ActionModel::Note(call.tool_name, args_hash(call.arguments))
        },
{
    law_notice_is_text(m.id, c.content, Plane::Data);
    if c.channel is ToolCall {
        let r = streamed_to(m, c, spare);
        let id = call_in(c, spare).tool_call_id;
        if !m.call_order.contains(id) {
            assert(r.call_order[m.call_order.len() as int] == id);
        }
    }
}

/// A call comes with its arguments, as far as they can be read; one that was written into
/// the text counts where there is no other, and where there is none at all its tool is not
/// known.
pub proof fn law_call_is_taken(c: ChunkModel, spare: Seq<char>)
    ensures
        c.tool_call matches Some(call) ==> {
            &&& call_in(c, spare).tool_call_id == call.tool_call_id
            &&& call_in(c, spare).tool_name == call.tool_name
            &&& outside::json_value_of(call.arguments) matches Some(s) ==> call_in(
                c,
                spare,
            ).arguments == s
            &&& outside::json_value_of(call.arguments) is None ==> call_in(c, spare).arguments
                == "null"@
        },
        c.tool_call is None ==> (c.written_call matches Some(call) ==> call_in(c, spare) == call),
        c.tool_call is None && c.written_call is None ==> call_in(c, spare).tool_call_id == spare
            && call_in(c, spare).tool_name == "unknown"@ && call_in(c, spare).arguments == "null"@,
{
}

/// The end of another answer is stale. At the end of its own the calls are made that were
/// kept; without any the turn has ended.
pub proof fn law_answer_ends(m: ThinkerModel, request_id: Option<Seq<char>>)
    ensures
        request_id is Some && request_id != m.request ==> end_of(m, request_id) is Stale && answered(
            m,
            request_id,
        ) == m,
        (request_id is None || request_id == m.request) && m.call_order.len() > 0 ==> end_of(
            m,
            request_id,
        ) is Calls && answered(m, request_id) == all_called(m) && all_called(m).state is ToolCalling,
        (request_id is None || request_id == m.request) && m.call_order.len() == 0 ==> end_of(
            m,
            request_id,
        ) is Turn && answered(m, request_id) == m,
{
    lemma_called(thinker::in_state(m, AgentState::ToolCalling), m.call_order.len());
    lemma_called_state(thinker::in_state(m, AgentState::ToolCalling), m.call_order.len());
}

proof fn lemma_called_state(m: ThinkerModel, n: nat)
    ensures
        called(m, n).state == m.state,
    decreases n,
{
    if n > 0 {
        lemma_called_state(m, (n - 1) as nat);
    }
}

/// A summary tells of the last three entries those that are hot, the last first, each with
/// its first hundred characters.
pub proof fn law_summary_tells_the_last_entries(v: Seq<EntryModel>, n: nat)
    requires
        0 < n <= v.len(),
    ensures
        recent_parts(v, 0).len() == 0,
        v[v.len() - n] matches EntryModel::Hot { content, .. } ==> recent_parts(v, n)
            == recent_parts(v, (n - 1) as nat).push(
            content.take(
                if content.len() <= 100 {
                    content.len() as int
                } else {
                    100
                },
            ),
        ),
        !(v[v.len() - n] is Hot) ==> recent_parts(v, n) == recent_parts(v, (n - 1) as nat),
        v.len() >= 3 ==> recent_summary(v) == model::join(recent_parts(v, 3), " | "@),
        v.len() < 3 ==> recent_summary(v) == model::join(recent_parts(v, v.len()), " | "@),
{
    if v[v.len() - n] is Hot {
        let content = v[v.len() - n]->content;
        assert(content.take(content.len() as int) =~= content);
    }
}

/// What is saved of an entry: its title, its first two hundred characters and its tokens;
/// of a cold one nothing.
pub proof fn law_entries_are_saved(e: EntryModel)
    ensures
        e is Cold <==> saved_of(e) is None,
        e matches EntryModel::Hot { role, content, token_count } ==> {
            &&& saved_of(e) matches Some(s)
            &&& s.role == thinker::title(role)
            &&& s.content == content.take(
                if content.len() <= 200 {
                    content.len() as int
                } else {
                    200
                },
            )
            &&& token_count <= u32::MAX ==> s.tokens == token_count
        },
        e matches EntryModel::Warm { summary, token_count, .. } ==> {
            &&& saved_of(e) matches Some(s)
            &&& s.role == "Warm"@
            &&& s.content == summary.take(
                if summary.len() <= 200 {
                    summary.len() as int
                } else {
                    200
                },
            )
            &&& token_count <= u32::MAX ==> s.tokens == token_count
        },
{
    if e is Hot {
        assert(e->content.take(e->content.len() as int) =~= e->content);
    }
    if e is Warm {
        assert(e->summary.take(e->summary.len() as int) =~= e->summary);
    }
}

/// Where a context is small enough all of it is saved, entry by entry, and told with all
/// its tokens.
pub proof fn law_small_context_is_saved_whole(m: ThinkerModel, i: int)
    requires
        0 <= i < m.memory.entries.len() <= 50,
        working::total_tokens(m.memory.entries) <= 4000,
        forall|j: int| 0 <= j < m.memory.entries.len() ==> !((#[trigger] m.memory.entries[j]) is Cold),
    ensures
        ({
            let r = persisted(m);
            &&& r.outbox.len() == m.outbox.len() + 1
            &&& r.outbox.last() matches ActionModel::Persist(kept, tokens)
            &&& kept.len() == m.memory.entries.len()
            &&& saved_of(m.memory.entries[i]) == Some(kept[i])
            &&& tokens == working::total_tokens(m.memory.entries)
        }),
{
    let v = m.memory.entries;
    assert(v.take(0) =~= Seq::empty());
    lemma_all_saved(v, 0, Seq::empty(), 0);
    let (kept, tokens) = saved_from(v, 0, Seq::empty(), 0);
    assert(saved_of(v[i]) == Some(kept[i]));
}

proof fn lemma_all_saved(v: Seq<EntryModel>, i: nat, kept: Seq<SavedModel>, tokens: nat)
    requires
        i <= v.len() <= 50,
        kept.len() == i,
        tokens == working::total_tokens(v.take(i as int)),
        working::total_tokens(v) <= 4000,
        forall|j: int| 0 <= j < v.len() ==> !((#[trigger] v[j]) is Cold),
        forall|j: int| 0 <= j < i ==> saved_of(#[trigger] v[j]) == Some(kept[j]),
    ensures
        ({
            let r = saved_from(v, i, kept, tokens);
            &&& r.0.len() == v.len()
            &&& r.1 == working::total_tokens(v)
            &&& forall|j: int| 0 <= j < v.len() ==> saved_of(#[trigger] v[j]) == Some(r.0[j])
        }),
    decreases v.len() - i,
{
    if i >= v.len() {
        assert(v.take(i as int) =~= v);
    } else {
        assert(!(v[i as int] is Cold));
        assert(v.take(i as int + 1).drop_last() =~= v.take(i as int));
        lemma_tokens_prefix(v, i as int + 1);
        let s = saved_of(v[i as int])->0;
        lemma_all_saved(
            v,
            i + 1,
            kept.push(s),
            tokens + working::tokens_of(v[i as int]),
        );
    }
}

proof fn lemma_tokens_prefix(v: Seq<EntryModel>, i: int)
    requires
        0 <= i <= v.len(),
    ensures
        working::total_tokens(v.take(i)) <= working::total_tokens(v),
    decreases v.len() - i,
{
    if i < v.len() {
        lemma_tokens_prefix(v, i + 1);
        assert(v.take(i + 1).drop_last() =~= v.take(i));
    } else {
        assert(v.take(i) =~= v);
    }
}

/// At the end of a turn a thinker is idle and waits for no answer; it asks for an
/// assessment and tells the way that it went.
pub proof fn law_turn_ends_in_rest(m: ThinkerModel, e: EndModel)
    requires
        m.turns < u32::MAX,
        e.goal is None,
    ensures
        ({
            let r = finished(m, e);
            let n = m.outbox.len() as int;
            &&& r.state is Idle
            &&& r.request is None
            &&& !r.active
            &&& r.turns == m.turns + 1
            &&& e.trajectory matches Some(t) ==> r.outbox[n] == ActionModel::Trajectory(t)
            &&& e.trajectory is Some ==> (r.outbox[n + 1] matches ActionModel::Send(o) && o.topic
                == "cortex/meta_assess"@)
            &&& e.trajectory is None ==> (r.outbox[n] matches ActionModel::Send(o) && o.topic
                == "cortex/meta_assess"@)
            &&& r.outbox.take(n) == m.outbox
        }),
{
    assert(finished(m, e).outbox.take(m.outbox.len() as int) =~= m.outbox);
}

/// An answer that failed leaves the thinker in error, and it waits no more.
pub proof fn law_failed_answer_is_an_error(m: ThinkerModel)
    ensures
        failed(m).state is Error,
        failed(m).request is None,
        failed(m).memory == m.memory && failed(m).outbox == m.outbox,
{
}

} // verus!
