//! The tool node: runs tools for agents, after asking for permission where that
//! is needed.
//!
//! What happens to a call is decided here step by step; hooks are run, the user
//! is asked, and tools are executed by the caller.

use crate::message::payloads::PermissionRequest;
use crate::message::topic::Topic;
use crate::node::payload;
use crate::node::payload::{Outgoing, OutgoingModel, Payload, PayloadModel, Plane};
use crate::node::{NodeId, NodeType, PermissionMode};
use crate::outside;
use crate::text::text_set::TextSet;
use crate::text::{lemmas, model, ops};
use vstd::prelude::*;
use vstd::string::*;

verus! {

/// How many tools may run at the same time.
pub const MAX_CONCURRENT_TOOLS: usize = 20;

/// A call of a tool.
#[derive(Debug)]
pub struct ToolCallRequest {
    /// The agent that calls.
    pub agent_id: String,
    /// Names the call.
    pub tool_call_id: String,
    /// The tool.
    pub tool_name: String,
    /// The arguments, as JSON text.
    pub arguments: String,
}

/// What a call holds.
#[verifier::ext_equal]
pub struct CallModel {
    pub agent_id: Seq<char>,
    pub tool_call_id: Seq<char>,
    pub tool_name: Seq<char>,
    pub arguments: Seq<char>,
}

impl View for ToolCallRequest {
    type V = CallModel;

    open spec fn view(&self) -> CallModel {
        CallModel {
            agent_id: self.agent_id@,
            tool_call_id: self.tool_call_id@,
            tool_name: self.tool_name@,
            arguments: self.arguments@,
        }
    }
}

/// What a tool has answered.
#[derive(Debug)]
pub struct ToolCallResult {
    /// Names the call.
    pub tool_call_id: String,
    /// The output.
    pub output: String,
    /// Whether the tool has succeeded.
    pub success: bool,
    /// How many milliseconds it took.
    pub duration_ms: u64,
}

/// What a hook or a rule decides.
#[derive(Debug)]
pub enum Verdict {
    /// The tool may run.
    Allow,
    /// The tool must not run.
    Deny { reason: String },
    /// The user is to be asked.
    Ask,
}

/// What a verdict holds.
#[verifier::ext_equal]
pub enum VerdictModel {
    Allow,
    Deny { reason: Seq<char> },
    Ask,
}

impl View for Verdict {
    type V = VerdictModel;

    open spec fn view(&self) -> VerdictModel {
        match *self {
            Verdict::Allow => VerdictModel::Allow,
            Verdict::Deny { reason } => VerdictModel::Deny { reason: reason@ },
            Verdict::Ask => VerdictModel::Ask,
        }
    }
}

/// What came of the hooks that run before a tool.
#[derive(Debug)]
pub struct HookOutcome {
    /// Other arguments for the tool.
    pub updated_input: Option<String>,
    /// What the hooks decide.
    pub decision: Verdict,
    /// What the rules decide, where they decide.
    pub rules: Option<Verdict>,
    /// What could be done instead, by the rules.
    pub alternatives: Vec<String>,
}

/// What such an outcome holds.
#[verifier::ext_equal]
pub struct HookModel {
    pub updated_input: Option<Seq<char>>,
    pub decision: VerdictModel,
    pub rules: Option<VerdictModel>,
    pub alternatives: Seq<Seq<char>>,
}

impl View for HookOutcome {
    type V = HookModel;

    open spec fn view(&self) -> HookModel {
        HookModel {
            updated_input: model::opt_text(self.updated_input),
            decision: self.decision@,
            rules: match self.rules {
                Some(v) => Some(v@),
                None => None,
            },
            alternatives: model::texts(self.alternatives@),
        }
    }
}

/// What is to be done about a call.
#[derive(Debug)]
pub enum ToolStep {
    /// Answer that the tool did not run.
    Refuse { answer: Outgoing },
    /// Ask the user, and go on with the call when the answer is there.
    AskUser { request: PermissionRequest, call: ToolCallRequest },
    /// Run the tool.
    Execute(ToolCallRequest),
}

/// What is to be done, as it is reckoned with.
#[verifier::ext_equal]
pub enum StepModel {
    Refuse { answer: OutgoingModel },
    AskUser { arguments: Seq<char>, call: CallModel },
    Execute(CallModel),
}

impl View for ToolStep {
    type V = StepModel;

    open spec fn view(&self) -> StepModel {
        match *self {
            ToolStep::Refuse { answer } => StepModel::Refuse { answer: answer@ },
            ToolStep::AskUser { request, call } => StepModel::AskUser {
                arguments: request.arguments@,
                call: call@,
            },
            ToolStep::Execute(call) => StepModel::Execute(call@),
        }
    }
}

/// The fields of an answer.
pub open spec fn answer_fields(
    tool_call_id: Seq<char>,
    output: Seq<char>,
    success: bool,
    duration_ms: u64,
) -> PayloadModel {
    seq![
        payload::text_field("tool_call_id"@, tool_call_id),
        payload::text_field("output"@, output),
        payload::flag_field("success"@, success),
        payload::number_field("duration_ms"@, duration_ms),
    ]
}

/// An answer to the agent that has called.
pub open spec fn answer(
    agent_id: Seq<char>,
    tool_call_id: Seq<char>,
    output: Seq<char>,
    success: bool,
    duration_ms: u64,
) -> OutgoingModel {
    payload::published(
        "agent/"@ + agent_id + "/tool_result"@,
        answer_fields(tool_call_id, output, success, duration_ms),
    )
}

/// The answer that a tool did not run, and what could be done instead where the
/// rules say that.
pub open spec fn refusal(
    call: CallModel,
    why: Seq<char>,
    reason: Seq<char>,
    alternatives: Option<Seq<Seq<char>>>,
) -> StepModel {
    let plain = answer(
        call.agent_id,
        call.tool_call_id,
        "工具 "@ + call.tool_name + why + reason,
        false,
        0,
    );
    StepModel::Refuse {
        answer: match alternatives {
            Some(v) => OutgoingModel {
                payload: plain.payload.push(
                    payload::list_field("alternatives"@, v),
                ),
                ..plain
            },
            None => plain,
        },
    }
}

/// The call with the arguments that the hooks have left.
pub open spec fn rewritten(call: CallModel, hooks: Option<HookModel>) -> CallModel {
    match hooks {
        Some(h) => match h.updated_input {
            Some(input) => CallModel { arguments: input, ..call },
            None => call,
        },
        None => call,
    }
}

/// Why a call is refused before the user is asked, if it is: the hooks come
/// before the rules.
pub open spec fn refused(call: CallModel, hooks: Option<HookModel>) -> Option<StepModel> {
    match hooks {
        None => None,
        Some(h) => match h.decision {
            VerdictModel::Deny { reason } => Some(
                refusal(call, " 被 Hook 拒绝："@, reason, None),
            ),
            _ => match h.rules {
                Some(VerdictModel::Deny { reason }) => Some(
                    refusal(call, " 被权限规则拒绝："@, reason, Some(h.alternatives)),
                ),
                _ => None,
            },
        },
    }
}

/// What is to be done about a call: it is refused, the user is asked, or the
/// tool runs.
pub open spec fn first_step(
    call: CallModel,
    hooks: Option<HookModel>,
    mode: PermissionMode,
    needs_confirmation: bool,
) -> StepModel {
    match refused(call, hooks) {
        Some(s) => s,
        None => if needs_confirmation && mode == PermissionMode::Ask {
            StepModel::AskUser { arguments: call.arguments, call: rewritten(call, hooks) }
        } else {
            StepModel::Execute(rewritten(call, hooks))
        },
    }
}

/// What is to be done when the user has answered.
pub open spec fn second_step(call: CallModel, allowed: bool) -> StepModel {
    if allowed {
        StepModel::Execute(call)
    } else {
        StepModel::Refuse {
            answer: answer(
                call.agent_id,
                call.tool_call_id,
                "工具 "@ + call.tool_name + " 被用户拒绝"@,
                false,
                0,
            ),
        }
    }
}

/// What a message is about.
#[derive(Debug, Clone, Copy, PartialEq, Eq, Structural)]
pub enum ToolTopic {
    /// A call of a tool.
    Call,
    /// An answer of the user.
    Permission,
    /// A new node, which is to learn of the tools.
    Spawn,
    /// Something else.
    Other,
}

/// What a message on a topic is about.
pub open spec fn topic_kind(topic: Seq<char>) -> ToolTopic {
    if model::ends_with(topic, "/tool_call"@) {
        ToolTopic::Call
    } else if model::ends_with(topic, "/permission"@) {
        ToolTopic::Permission
    } else if topic == "sys/spawn"@ {
        ToolTopic::Spawn
    } else {
        ToolTopic::Other
    }
}

/// What the tool node holds.
#[verifier::ext_equal]
pub struct ToolModel {
    pub id: Seq<char>,
    pub permission_mode: PermissionMode,
    /// How many tools run.
    pub running: nat,
    /// The calls that wait for the user.
    pub pending: Set<Seq<char>>,
    pub auto_mode: bool,
}

/// The tool node.
#[derive(Debug)]
pub struct ToolNode {
    id: NodeId,
    permission_mode: PermissionMode,
    running: usize,
    pending: TextSet,
    auto_mode: bool,
}

impl View for ToolNode {
    type V = ToolModel;

    closed spec fn view(&self) -> ToolModel {
        ToolModel {
            id: self.id@,
            permission_mode: self.permission_mode,
            running: self.running as nat,
            pending: self.pending@,
            auto_mode: self.auto_mode,
        }
    }
}

/// An answer to the agent that has called.
fn make_answer(
    agent_id: &str,
    tool_call_id: &str,
    output: &str,
    success: bool,
    duration_ms: u64,
) -> (r: Outgoing)
    ensures
        r@ == answer(agent_id@, tool_call_id@, output@, success, duration_ms),
{
    let body = Payload::new().text("tool_call_id", tool_call_id).text("output", output).flag(
        "success",
        success,
    ).number("duration_ms", duration_ms);
    assert(body@ =~= answer_fields(tool_call_id@, output@, success, duration_ms));
    Outgoing { topic: Topic::agent_tool_result(agent_id), payload: body, plane: Plane::Data }
}

/// The answer that a tool did not run, and what could be done instead where the
/// rules say that.
fn make_refusal(
    call: &ToolCallRequest,
    why: &str,
    reason: &str,
    alternatives: Option<Vec<String>>,
) -> (r: ToolStep)
    ensures
        r@ == refusal(
            call@,
            why@,
            reason@,
            match alternatives {
                Some(v) => Some(model::texts(v@)),
                None => None,
            },
        ),
{
    let output = ops::concat4("工具 ", call.tool_name.as_str(), why, reason);
    let plain = make_answer(
        call.agent_id.as_str(),
        call.tool_call_id.as_str(),
        output.as_str(),
        false,
        0,
    );
    let answer = match alternatives {
        Some(v) => {
            Outgoing {
                topic: plain.topic,
                payload: plain.payload.list("alternatives", &v),
                plane: plain.plane,
            }
        },
        None => plain,
    };
    ToolStep::Refuse { answer }
}

impl ToolNode {
    /// No more tools run than may, and no call waits twice.
    pub closed spec fn wf(&self) -> bool {
        self.running <= MAX_CONCURRENT_TOOLS && self.pending.wf()
    }

    /// A node that runs no tool.
    pub fn new(id: NodeId) -> (r: Self)
        ensures
            r.wf(),
            r@ == (ToolModel {
                id: id@,
                permission_mode: PermissionMode::Trust,
                running: 0,
                pending: Set::empty(),
                auto_mode: false,
            }),
    {
        ToolNode {
            id,
            permission_mode: PermissionMode::Trust,
            running: 0,
            pending: TextSet::new(),
            auto_mode: false,
        }
    }

    /// Whether calls are approved without asking where that is safe.
    pub fn set_auto_mode(&mut self, enabled: bool)
        requires
            old(self).wf(),
        ensures
            final(self).wf(),
            final(self)@ == (ToolModel { auto_mode: enabled, ..old(self)@ }),
    {
        self.auto_mode = enabled;
    }

    /// How freely tools may be used.
    pub fn set_permission_mode(&mut self, mode: PermissionMode)
        requires
            old(self).wf(),
        ensures
            final(self).wf(),
            final(self)@ == (ToolModel { permission_mode: mode, ..old(self)@ }),
    {
        self.permission_mode = mode;
    }

    /// Whether calls are approved without asking where that is safe.
    pub fn auto_mode(&self) -> (r: bool)
        ensures
            r == self@.auto_mode,
    {
        self.auto_mode
    }

    /// How freely tools may be used.
    pub fn permission_mode(&self) -> (r: PermissionMode)
        ensures
            r == self@.permission_mode,
    {
        self.permission_mode
    }

    /// Takes a place for one more tool, if there is one.
    pub fn try_acquire(&mut self) -> (r: bool)
        requires
            old(self).wf(),
        ensures
            final(self).wf(),
            r == (old(self)@.running < MAX_CONCURRENT_TOOLS),
            final(self)@ == (ToolModel {
                running: if r {
                    old(self)@.running + 1
                } else {
                    old(self)@.running
                },
                ..old(self)@
            }),
    {
        if self.running < MAX_CONCURRENT_TOOLS {
            self.running = self.running + 1;
            true
        } else {
            false
        }
    }

    /// Gives a place back.
    pub fn release(&mut self)
        requires
            old(self).wf(),
            old(self)@.running > 0,
        ensures
            final(self).wf(),
            final(self)@ == (ToolModel {
                running: (old(self)@.running - 1) as nat,
                ..old(self)@
            }),
    {
        self.running = self.running - 1;
    }

    /// Decides about a call. `hooks` is what came of the hooks that run before a
    /// tool, where there are any, and `needs_confirmation` says whether the tool
    /// is one that is confirmed in the present mode. A call that the user is asked
    /// about waits for the answer.
    pub fn begin_call(
        &mut self,
        request: ToolCallRequest,
        hooks: Option<HookOutcome>,
        needs_confirmation: bool,
    ) -> (r: ToolStep)
        requires
            old(self).wf(),
        ensures
            final(self).wf(),
            ({
                let h = match hooks {
                    Some(o) => Some(o@),
                    None => None,
                };
                &&& r@ == first_step(
                    request@,
                    h,
                    old(self)@.permission_mode,
                    needs_confirmation,
                )
                &&& final(self)@ == (ToolModel {
                    pending: if r is AskUser {
                        old(self)@.pending.insert(request@.tool_call_id)
                    } else {
                        old(self)@.pending
                    },
                    ..old(self)@
                })
                &&& r matches ToolStep::AskUser { request: q, call } ==> {
                    &&& q.agent_id@ == request@.agent_id
                    &&& q.tool_call_id@ == request@.tool_call_id
                    &&& q.tool_name@ == request@.tool_name
                    &&& q.arguments@ == request@.arguments
                    &&& q.reason is None
                }
            }),
    {
        let mut arguments = request.arguments.clone();
        if let Some(outcome) = hooks {
            if let Some(input) = outcome.updated_input {
                arguments = input;
            }
            if let Verdict::Deny { reason } = &outcome.decision {
                return make_refusal(&request, " 被 Hook 拒绝：", reason.as_str(), None);
            }
            if let Some(Verdict::Deny { reason }) = &outcome.rules {
                return make_refusal(
                    &request,
                    " 被权限规则拒绝：",
                    reason.as_str(),
                    Some(outcome.alternatives),
                );
            }
        }
        let asks = match self.permission_mode {
            PermissionMode::Ask => needs_confirmation,
            _ => false,
        };
        if asks {
            self.pending.insert(request.tool_call_id.clone());
            let question = PermissionRequest {
                agent_id: request.agent_id.clone(),
                tool_call_id: request.tool_call_id.clone(),
                tool_name: request.tool_name.clone(),
                arguments: request.arguments.clone(),
                reason: None,
            };
            let call = ToolCallRequest {
                agent_id: request.agent_id,
                tool_call_id: request.tool_call_id,
                tool_name: request.tool_name,
                arguments,
            };
            ToolStep::AskUser { request: question, call }
        } else {
            ToolStep::Execute(
                ToolCallRequest {
                    agent_id: request.agent_id,
                    tool_call_id: request.tool_call_id,
                    tool_name: request.tool_name,
                    arguments,
                },
            )
        }
    }

    /// Takes in an answer of the user, and says whether a call waits for it.
    pub fn handle_permission_response(&mut self, tool_call_id: &str) -> (r: bool)
        requires
            old(self).wf(),
        ensures
            final(self).wf(),
            r == old(self)@.pending.contains(tool_call_id@),
            final(self)@ == (ToolModel {
                pending: old(self)@.pending.remove(tool_call_id@),
                ..old(self)@
            }),
    {
        self.pending.remove(tool_call_id)
    }

    /// Gives up waiting for an answer of the user. A call that got no answer is
    /// not allowed.
    pub fn expire_permission(&mut self, tool_call_id: &str)
        requires
            old(self).wf(),
        ensures
            final(self).wf(),
            final(self)@ == (ToolModel {
                pending: old(self)@.pending.remove(tool_call_id@),
                ..old(self)@
            }),
    {
        self.pending.remove(tool_call_id);
    }

    /// Whether a call waits for an answer of the user.
    pub fn is_waiting(&self, tool_call_id: &str) -> (r: bool)
        ensures
            r == self@.pending.contains(tool_call_id@),
    {
        self.pending.contains(tool_call_id)
    }

    /// Decides about a call when the user has answered.
    pub fn after_permission(call: ToolCallRequest, allowed: bool) -> (r: ToolStep)
        ensures
            r@ == second_step(call@, allowed),
    {
        if allowed {
            return ToolStep::Execute(call);
        }
        let output = ops::concat3("工具 ", call.tool_name.as_str(), " 被用户拒绝");
        ToolStep::Refuse {
            answer: make_answer(
                call.agent_id.as_str(),
                call.tool_call_id.as_str(),
                output.as_str(),
                false,
                0,
            ),
        }
    }

    /// The message that tells an agent what a tool has answered.
    pub fn result_message(agent_id: &str, result: &ToolCallResult) -> (r: Outgoing)
        ensures
            r@ == answer(
                agent_id@,
                result.tool_call_id@,
                result.output@,
                result.success,
                result.duration_ms,
            ),
    {
        make_answer(
            agent_id,
            result.tool_call_id.as_str(),
            result.output.as_str(),
            result.success,
            result.duration_ms,
        )
    }

    /// The name of the event that the hooks after a tool are told of.
    pub fn post_event(success: bool) -> (r: &'static str)
        ensures
            r@ == if success {
                "PostToolUse"@
            } else {
                "PostToolUseFailure"@
            },
    {
        if success {
            "PostToolUse"
        } else {
            "PostToolUseFailure"
        }
    }

    /// What a message on a topic is about.
    pub fn topic_kind(topic: &Topic) -> (r: ToolTopic)
        ensures
            r == topic_kind(topic@),
    {
        let name = ops::chars_of(topic.as_str());
        let t = name.as_slice();
        if ops::ends_with(t, "/tool_call") {
            ToolTopic::Call
        } else if ops::ends_with(t, "/permission") {
            ToolTopic::Permission
        } else if ops::is_text(t, "sys/spawn") {
            ToolTopic::Spawn
        } else {
            ToolTopic::Other
        }
    }

    /// What the node is.
    pub fn node_type(&self) -> (r: NodeType)
        ensures
            r == NodeType::Tool,
    {
        NodeType::Tool
    }

    /// The node's identifier.
    pub fn node_id(&self) -> (r: &NodeId)
        ensures
            r@ == self@.id,
    {
        &self.id
    }

    /// The topics that the node listens to.
    pub fn subscriptions(&self) -> (r: Vec<String>)
        ensures
            model::texts(r@) == seq![
                "agent/*/tool_call"@,
                "agent/*/permission"@,
                "sys/spawn"@,
                "sys/shutdown"@,
            ],
    {
        payload::strings(
            &["agent/*/tool_call", "agent/*/permission", "sys/spawn", "sys/shutdown"],
        )
    }

    /// The topics that the node publishes on.
    pub fn published_topics(&self) -> (r: Vec<String>)
        ensures
            model::texts(r@) == seq!["agent/*/tool_result"@, "tool/register"@],
    {
        payload::strings(&["agent/*/tool_result", "tool/register"])
    }
}

/// A tool that the hooks or the rules deny never runs, and its agent is told so.
pub proof fn law_denied_tool_does_not_run(
    call: CallModel,
    h: HookModel,
    mode: PermissionMode,
    needs_confirmation: bool,
)
    requires
        h.decision is Deny || (h.rules is Some && h.rules->0 is Deny),
    ensures
        first_step(call, Some(h), mode, needs_confirmation) is Refuse,
        first_step(call, Some(h), mode, needs_confirmation)->answer.topic == "agent/"@
            + call.agent_id + "/tool_result"@,
{
}

/// A tool that needs confirmation, in the mode that asks for everything, runs only
/// when the user has allowed it.
pub proof fn law_ask_mode_asks(call: CallModel, hooks: Option<HookModel>)
    ensures
        first_step(call, hooks, PermissionMode::Ask, true) !is Execute,
        second_step(rewritten(call, hooks), false) is Refuse,
{
}

/// A call that neither the hooks nor the rules deny runs at once in the modes that trust,
/// whatever the tool, and in the mode that asks where the tool needs no confirmation;
/// the user is asked exactly in that mode, for a tool that needs it. What runs is the
/// call itself, with other arguments only where the hooks have given such.
pub proof fn law_undenied_tool_runs(
    call: CallModel,
    hooks: Option<HookModel>,
    mode: PermissionMode,
    needs_confirmation: bool,
)
    requires
        hooks matches Some(h) ==> h.decision !is Deny && (h.rules is None || h.rules->0 !is Deny),
    ensures
        ({
            let s = first_step(call, hooks, mode, needs_confirmation);
            let c = if s is Execute {
                s->Execute_0
            } else {
                s->call
            };
            &&& mode == PermissionMode::Trust ==> s is Execute
            &&& mode == PermissionMode::Yolo ==> s is Execute
            &&& mode == PermissionMode::Ask ==> (if needs_confirmation {
                s is AskUser
            } else {
                s is Execute
            })
            &&& s is AskUser ==> s->arguments == call.arguments
            &&& c.agent_id == call.agent_id
            &&& c.tool_call_id == call.tool_call_id
            &&& c.tool_name == call.tool_name
            &&& hooks is None ==> c.arguments == call.arguments
            &&& hooks matches Some(h) ==> c.arguments == (match h.updated_input {
                Some(input) => input,
                None => call.arguments,
            })
        }),
{
}

/// When the user has answered, an allowed call runs as it is, and another is refused:
/// its agent is told that this call has failed.
pub proof fn law_answer_decides(call: CallModel)
    ensures
        second_step(call, true) == StepModel::Execute(call),
        second_step(call, false) matches StepModel::Refuse { answer } && {
            &&& answer.topic == "agent/"@ + call.agent_id + "/tool_result"@
            &&& payload::text_at(answer.payload, "tool_call_id"@) == Some(call.tool_call_id)
            &&& payload::flag_or(answer.payload, "success"@, true) == false
        },
{
    law_answers_tell_the_result(
        call.agent_id,
        call.tool_call_id,
        "工具 "@ + call.tool_name + " 被用户拒绝"@,
        false,
        0,
    );
}

/// An answer goes to the agent that has called, and tells of the call, its output,
/// whether it has succeeded and how long it took.
pub proof fn law_answers_tell_the_result(
    agent_id: Seq<char>,
    tool_call_id: Seq<char>,
    output: Seq<char>,
    success: bool,
    duration_ms: u64,
)
    ensures
        ({
            let a = answer(agent_id, tool_call_id, output, success, duration_ms);
            &&& a.topic == "agent/"@ + agent_id + "/tool_result"@
            &&& payload::text_at(a.payload, "tool_call_id"@) == Some(tool_call_id)
            &&& payload::text_at(a.payload, "output"@) == Some(output)
            &&& payload::flag_or(a.payload, "success"@, !success) == success
            &&& payload::number_or(a.payload, "duration_ms"@, 0) == duration_ms
        }),
{
    reveal_strlit("tool_call_id");
    reveal_strlit("output");
    reveal_strlit("success");
    reveal_strlit("duration_ms");
    assert("tool_call_id"@[0] == 't' && "output"@[0] == 'o' && "success"@[0] == 's'
        && "duration_ms"@[0] == 'd');
    reveal_with_fuel(payload::field_from, 5);
}

/// An answer to a call that waits is taken once.
pub proof fn law_answer_is_taken_once(pending: Set<Seq<char>>, id: Seq<char>)
    ensures
        !pending.insert(id).remove(id).contains(id),
        !pending.contains(id) ==> pending.insert(id).remove(id) == pending,
{
    if !pending.contains(id) {
        assert(pending.insert(id).remove(id) =~= pending);
    }
}

/// A refusal tells the agent which tool was refused and why, and, where a rule refused it,
/// what could be done instead.
pub proof fn law_refusal_tells_why(
    call: CallModel,
    h: HookModel,
    mode: PermissionMode,
    needs_confirmation: bool,
    reason: Seq<char>,
)
    ensures
        h.decision == (VerdictModel::Deny { reason: reason }) ==> {
            &&& first_step(call, Some(h), mode, needs_confirmation) matches StepModel::Refuse {
                answer,
            }
            &&& payload::text_at(answer.payload, "tool_call_id"@) == Some(call.tool_call_id)
            &&& payload::text_at(answer.payload, "output"@) == Some(
                "工具 "@ + call.tool_name + " 被 Hook 拒绝："@ + reason,
            )
            &&& payload::flag_or(answer.payload, "success"@, true) == false
        },
        h.decision !is Deny && h.rules == Some(VerdictModel::Deny { reason: reason }) ==> {
            &&& first_step(call, Some(h), mode, needs_confirmation) matches StepModel::Refuse {
                answer,
            }
            &&& payload::text_at(answer.payload, "tool_call_id"@) == Some(call.tool_call_id)
            &&& payload::text_at(answer.payload, "output"@) == Some(
                "工具 "@ + call.tool_name + " 被权限规则拒绝："@ + reason,
            )
            &&& payload::flag_or(answer.payload, "success"@, true) == false
            &&& payload::field(answer.payload, "alternatives"@) == payload::FieldModel::Packed(
                outside::packed_texts(h.alternatives),
            )
        },
{
    reveal_strlit("tool_call_id");
    reveal_strlit("output");
    reveal_strlit("success");
    reveal_strlit("duration_ms");
    reveal_strlit("alternatives");
    assert("tool_call_id"@.len() == 12 && "output"@.len() == 6 && "success"@.len() == 7 && "duration_ms"@.len() == 11 && "alternatives"@.len() == 12);
    assert("alternatives"@[0] == 'a' && "tool_call_id"@[0] == 't');
    if first_step(call, Some(h), mode, needs_confirmation) is Refuse {
        let p = first_step(call, Some(h), mode, needs_confirmation)->answer.payload;
        payload::law_field_is_read_by_name(p, 0);
        payload::law_field_is_read_by_name(p, 1);
        payload::law_field_is_read_by_name(p, 2);
        if p.len() > 4 {
            payload::law_field_is_read_by_name(p, 4);
        }
    }
}

/// What a tool node is told: a call, an answer to a question, or a new node.
pub proof fn law_topics_tell_the_kind(topic: Seq<char>)
    ensures
        model::ends_with(topic, "/tool_call"@) ==> topic_kind(topic) is Call,
        model::ends_with(topic, "/permission"@) ==> topic_kind(topic) is Permission,
        topic == "sys/spawn"@ ==> topic_kind(topic) is Spawn,
        !model::ends_with(topic, "/tool_call"@) && !model::ends_with(topic, "/permission"@) && topic
            != "sys/spawn"@ ==> topic_kind(topic) is Other,
{
    reveal_strlit("/tool_call");
    reveal_strlit("/permission");
    reveal_strlit("sys/spawn");
    let a = "/tool_call"@;
    let b = "/permission"@;
    let c = "sys/spawn"@;
    assert(a.len() == 10 && b.len() == 11 && c.len() == 9);
    assert(a[9] == 'l' && b[10] == 'n' && b[9] == 'o' && c[8] == 'n' && c[7] == 'w');
    if model::ends_with(topic, b) {
        lemmas::lemma_other_ending(topic, b, a, 0);
    }
    if topic == c {
        assert(c.skip(0) =~= c);
        assert(model::ends_with(topic, c));
        lemmas::lemma_other_ending(topic, c, a, 0);
        lemmas::lemma_other_ending(topic, c, b, 1);
    }
}

} // verus!
