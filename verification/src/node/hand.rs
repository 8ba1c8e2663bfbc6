//! The hand: edits, searches and restructures code.
//!
//! The hand notes each request, tells the skin of it and answers the agent that
//! made it.

use crate::message::frame::{FrameCodec, FrameError, Message};
use crate::message::topic::Topic;
use crate::node::payload;
use crate::node::payload::{Outgoing, OutgoingModel, Payload, PayloadModel};
use crate::node::{NodeId, NodeType, PermissionMode};
use crate::text::text_map::TextMap;
use crate::text::{model, ops, text_map};
use vstd::prelude::*;
use vstd::string::*;

verus! {

/// The hand.
#[derive(Debug)]
pub struct HandNode {
    id: NodeId,
    permission_mode: PermissionMode,
    pending_results: TextMap<String>,
}

/// What the hand holds.
#[verifier::ext_equal]
pub struct HandModel {
    pub id: Seq<char>,
    pub permission_mode: PermissionMode,
    /// The requests that are being worked on, each with its description.
    pub pending: Map<Seq<char>, Seq<char>>,
}

impl View for HandNode {
    type V = HandModel;

    closed spec fn view(&self) -> HandModel {
        HandModel {
            id: self.id@,
            permission_mode: self.permission_mode,
            pending: text_map::shown(self.pending_results@),
        }
    }
}

/// What a request asks of the hand.
#[verifier::ext_equal]
pub struct HandJob {
    /// What is to be done, in words.
    pub desc: Seq<char>,
    /// What is answered.
    pub note: Seq<char>,
}

/// A request in words: the deed, its object and its manner.
pub open spec fn job(verb: Seq<char>, noted: Seq<char>, object: Seq<char>, manner: Seq<char>) -> HandJob {
    let desc = verb + object + " ("@ + manner + ")"@;
    HandJob { desc: desc, note: noted + desc }
}

/// What a message asks of the hand.
pub open spec fn job_of(topic: Seq<char>, p: PayloadModel) -> Option<HandJob> {
    if topic == "hand/edit"@ {
        Some(
            job(
                "编辑 "@,
                "已记录编辑请求："@,
                payload::text_or(p, "path"@, ""@),
                payload::text_or(p, "operation"@, "replace"@),
            ),
        )
    } else if topic == "hand/search"@ {
        Some(
            job(
                "搜索 "@,
                "已记录搜索请求："@,
                payload::text_or(p, "query"@, ""@),
                payload::text_or(p, "type"@, "semantic"@),
            ),
        )
    } else if topic == "hand/restructure"@ {
        Some(
            job(
                "重构 "@,
                "已记录重构请求："@,
                payload::text_or(p, "target"@, ""@),
                payload::text_or(p, "action"@, "move"@),
            ),
        )
    } else {
        None
    }
}

/// What the skin is told: which tool came back with what.
pub open spec fn touch(tool: Seq<char>, result: Seq<char>) -> OutgoingModel {
    payload::sent(
        "skin/touch"@,
        seq![
            payload::text_field("tool_name"@, tool),
            payload::text_field("result"@, result),
            payload::flag_field("success"@, true),
        ],
    )
}

/// What the agent is answered.
pub open spec fn answer(agent_id: Seq<char>, request_id: Seq<char>, output: Seq<char>) -> OutgoingModel {
    payload::sent(
        "agent/"@ + agent_id + "/tool_result"@,
        seq![
            payload::text_field("tool_call_id"@, request_id),
            payload::text_field("output"@, output),
            payload::flag_field("success"@, true),
            payload::number_field("duration_ms"@, 0),
        ],
    )
}

/// The messages that follow a request: one to the skin, and one to the agent
/// where the request names one.
pub open spec fn feedback(
    tool: Seq<char>,
    note: Seq<char>,
    agent_id: Seq<char>,
    request_id: Seq<char>,
) -> Seq<OutgoingModel> {
    if agent_id.len() == 0 {
        seq![touch(tool, note)]
    } else {
        seq![touch(tool, note), answer(agent_id, request_id, note)]
    }
}

/// The messages that follow a request.
pub fn give_feedback(tool: &str, note: &str, agent_id: &str, request_id: &str) -> (r: Vec<Outgoing>)
    ensures
        payload::outgoing_models(r@) == feedback(tool@, note@, agent_id@, request_id@),
{
    let mut out = payload::nothing();
    let touched = Payload::new().text("tool_name", tool).text("result", note).flag("success", true);
    assert(touched@ =~= touch(tool@, note@).payload);
    payload::send(&mut out, Topic::skin_touch(), touched);
    if !ops::is_empty(agent_id) {
        let answered = Payload::new().text("tool_call_id", request_id).text("output", note).flag(
            "success",
            true,
        ).number("duration_ms", 0);
        assert(answered@ =~= answer(agent_id@, request_id@, note@).payload);
        payload::send(&mut out, Topic::agent_tool_result(agent_id), answered);
    }
    assert(payload::outgoing_models(out@) =~= feedback(tool@, note@, agent_id@, request_id@));
    out
}

/// Whether the hand reads what a message carries.
pub open spec fn reads(topic: Seq<char>) -> bool {
    topic == "hand/edit"@ || topic == "hand/search"@ || topic == "hand/restructure"@
}

/// What follows a message to the hand: the hand after it, and the messages to
/// send.
pub open spec fn handled(m: HandModel, topic: Seq<char>, p: PayloadModel) -> (
    HandModel,
    Seq<OutgoingModel>,
) {
    let request_id = payload::text_or(p, "request_id"@, ""@);
    match job_of(topic, p) {
        Some(j) => (
            HandModel { pending: m.pending.insert(request_id, j.desc), ..m },
            feedback(topic, j.note, payload::text_or(p, "agent_id"@, ""@), request_id),
        ),
        None => (m, Seq::empty()),
    }
}

impl HandNode {
    pub closed spec fn wf(&self) -> bool {
        self.pending_results.wf()
    }

    /// A hand that trusts.
    pub fn new(id: NodeId) -> (r: Self)
        ensures
            r.wf(),
            r@ == (HandModel {
                id: id@,
                permission_mode: PermissionMode::Trust,
                pending: Map::empty(),
            }),
    {
        let node = HandNode {
            id: id,
            permission_mode: PermissionMode::Trust,
            pending_results: TextMap::new(),
        };
        assert(node@.pending =~= Map::empty());
        node
    }

    /// Sets how freely the hand may act.
    pub fn set_permission_mode(&mut self, mode: PermissionMode)
        requires
            old(self).wf(),
        ensures
            final(self).wf(),
            final(self)@ == (HandModel { permission_mode: mode, ..old(self)@ }),
    {
        self.permission_mode = mode;
    }

    /// Whether an operation is allowed: in every mode it is.
    pub fn check_permission(&self, _operation: &str) -> (r: bool)
        ensures
            r,
    {
        match self.permission_mode {
            PermissionMode::Yolo => true,
            PermissionMode::Trust => true,
            PermissionMode::Ask => true,
        }
    }

    pub fn node_type(&self) -> (r: NodeType)
        ensures
            r == NodeType::Hand,
    {
        NodeType::Hand
    }

    pub fn node_id(&self) -> (r: &NodeId)
        ensures
            r@ == self@.id,
    {
        &self.id
    }

    /// What a message asks of the hand: its description and the answer.
    fn job(topic: &Topic, p: &Payload) -> (r: Option<(String, String)>)
        ensures
            match r {
                Some(j) => job_of(topic@, p@) == Some(HandJob { desc: j.0@, note: j.1@ }),
                None => job_of(topic@, p@) is None,
            },
    {
        let name = ops::chars_of(topic.as_str());
        let t = name.as_slice();
        let (verb, noted, object, manner) = if ops::is_text(t, "hand/edit") {
            (
                "编辑 ",
                "已记录编辑请求：",
                p.text_or("path", ""),
                p.text_or("operation", "replace"),
            )
        } else if ops::is_text(t, "hand/search") {
            (
                "搜索 ",
                "已记录搜索请求：",
                p.text_or("query", ""),
                p.text_or("type", "semantic"),
            )
        } else if ops::is_text(t, "hand/restructure") {
            (
                "重构 ",
                "已记录重构请求：",
                p.text_or("target", ""),
                p.text_or("action", "move"),
            )
        } else {
            return None;
        };
        let desc = ops::concat5(verb, object, " (", manner, ")");
        let note = ops::concat2(noted, desc.as_str());
        Some((desc, note))
    }

    /// Takes in a message: notes the request that it makes, if it makes one, and
    /// returns the messages to send. When these have been sent, `complete` is to
    /// be called with the request's identifier.
    pub fn handle_message(&mut self, topic: &Topic, p: &Payload) -> (r: Vec<Outgoing>)
        requires
            old(self).wf(),
        ensures
            final(self).wf(),
            (final(self)@, payload::outgoing_models(r@)) == handled(old(self)@, topic@, p@),
    {
        match Self::job(topic, p) {
            Some((desc, note)) => {
                let agent_id = p.text_or("agent_id", "");
                let request_id = p.text_or("request_id", "");
                if !self.check_permission(topic.as_str()) {
                    return payload::nothing();
                }
                let out = give_feedback(topic.as_str(), note.as_str(), agent_id, request_id);
                proof {
                    text_map::lemma_shown_insert(self.pending_results@, request_id@, desc);
                }
                self.pending_results.insert(String::from_str(request_id), desc);
                out
            },
            None => payload::nothing(),
        }
    }

    /// Takes in a message as it came. A message that cannot be read changes
    /// nothing.
    pub fn receive(&mut self, msg: &Message) -> (r: Result<Vec<Outgoing>, FrameError>)
        requires
            old(self).wf(),
        ensures
            final(self).wf(),
            match r {
                Ok(out) => {
                    &&& payload::carried(reads(msg@.topic), msg@.payload) matches Some(p)
                    &&& (final(self)@, payload::outgoing_models(out@)) == handled(
                        old(self)@,
                        msg@.topic,
                        p,
                    )
                },
                Err(e) => {
                    &&& e == FrameError::BadPayload
                    &&& payload::carried(reads(msg@.topic), msg@.payload) is None
                    &&& final(self)@ == old(self)@
                },
            },
    {
        let topic = msg.topic.as_str();
        let read = ops::same_text(topic, "hand/edit") || ops::same_text(topic, "hand/search")
            || ops::same_text(topic, "hand/restructure");
        let p = match FrameCodec::decode_if(read, msg) {
            Ok(p) => p,
            Err(e) => {
                return Err(e);
            },
        };
        Ok(self.handle_message(&msg.topic, &p))
    }

    /// Notes that a request has been answered.
    pub fn complete(&mut self, request_id: &str)
        requires
            old(self).wf(),
        ensures
            final(self).wf(),
            final(self)@ == (HandModel {
                pending: old(self)@.pending.remove(request_id@),
                ..old(self)@
            }),
    {
        proof {
            text_map::lemma_shown_remove(self.pending_results@, request_id@);
        }
        self.pending_results.remove(request_id);
    }

    /// The topics that the hand listens to.
    pub fn subscriptions(&self) -> (r: Vec<String>)
        ensures
            model::texts(r@) == seq![
                "hand/edit"@,
                "hand/search"@,
                "hand/restructure"@,
                "sys/shutdown"@,
            ],
    {
        let list = ["hand/edit", "hand/search", "hand/restructure", "sys/shutdown"];
        let out = payload::strings(&list);
        assert(model::texts(out@) =~= seq![
            "hand/edit"@,
            "hand/search"@,
            "hand/restructure"@,
            "sys/shutdown"@,
        ]);
        out
    }

    /// The topics that the hand speaks on.
    pub fn published_topics(&self) -> (r: Vec<String>)
        ensures
            model::texts(r@) == seq!["skin/touch"@, "agent/*/tool_result"@],
    {
        let list = ["skin/touch", "agent/*/tool_result"];
        let out = payload::strings(&list);
        assert(model::texts(out@) =~= seq!["skin/touch"@, "agent/*/tool_result"@]);
        out
    }
}

/// A request is answered with a touch, and to the agent that made it with a result under
/// the name of the request.
pub proof fn law_feedback_reaches_the_agent(
    tool: Seq<char>,
    note: Seq<char>,
    agent_id: Seq<char>,
    request_id: Seq<char>,
)
    ensures
        ({
            let out = feedback(tool, note, agent_id, request_id);
            &&& out.len() == if agent_id.len() == 0 {
                1int
            } else {
                2int
            }
            &&& out[0].topic == "skin/touch"@
            &&& payload::text_at(out[0].payload, "tool_name"@) == Some(tool)
            &&& payload::text_at(out[0].payload, "result"@) == Some(note)
            &&& payload::flag_or(out[0].payload, "success"@, false)
            &&& agent_id.len() > 0 ==> {
                &&& out[1].topic == "agent/"@ + agent_id + "/tool_result"@
                &&& payload::text_at(out[1].payload, "tool_call_id"@) == Some(request_id)
                &&& payload::text_at(out[1].payload, "output"@) == Some(note)
                &&& payload::flag_or(out[1].payload, "success"@, false)
            }
        }),
{
    reveal_strlit("tool_name");
    reveal_strlit("result");
    reveal_strlit("success");
    reveal_strlit("tool_call_id");
    reveal_strlit("output");
    assert("tool_name"@.len() == 9 && "result"@.len() == 6 && "success"@.len() == 7 && "tool_call_id"@.len() == 12 && "output"@.len() == 6);
    assert("output"@[0] == 'o' && "result"@[0] == 'r');
    let p = touch(tool, note).payload;
    payload::law_field_is_read_by_name(p, 0);
    payload::law_field_is_read_by_name(p, 1);
    payload::law_field_is_read_by_name(p, 2);
    let q = answer(agent_id, request_id, note).payload;
    payload::law_field_is_read_by_name(q, 0);
    payload::law_field_is_read_by_name(q, 1);
    payload::law_field_is_read_by_name(q, 2);
}

/// What a hand is asked to do is written down under the name of the request: what, and in
/// which manner.
pub proof fn law_requests_are_written_down(m: HandModel, p: PayloadModel, object: Seq<char>)
    ensures
        ({
            let id = payload::text_or(p, "request_id"@, ""@);
            &&& payload::text_at(p, "path"@) == Some(object) ==> handled(
                m,
                "hand/edit"@,
                p,
            ).0.pending == m.pending.insert(
                id,
                "编辑 "@ + object + " ("@ + payload::text_or(p, "operation"@, "replace"@) + ")"@,
            )
            &&& payload::text_at(p, "query"@) == Some(object) ==> handled(
                m,
                "hand/search"@,
                p,
            ).0.pending == m.pending.insert(
                id,
                "搜索 "@ + object + " ("@ + payload::text_or(p, "type"@, "semantic"@) + ")"@,
            )
            &&& payload::text_at(p, "target"@) == Some(object) ==> handled(
                m,
                "hand/restructure"@,
                p,
            ).0.pending == m.pending.insert(
                id,
                "重构 "@ + object + " ("@ + payload::text_or(p, "action"@, "move"@) + ")"@,
            )
        }),
{
    reveal_strlit("hand/edit");
    reveal_strlit("hand/search");
    reveal_strlit("hand/restructure");
    assert("hand/edit"@.len() == 9 && "hand/search"@.len() == 11 && "hand/restructure"@.len() == 16);
}

/// Each request gets its feedback: what was written down, after what it was taken for.
pub proof fn law_requests_are_answered(m: HandModel, topic: Seq<char>, p: PayloadModel)
    ensures
        topic != "hand/edit"@ && topic != "hand/search"@ && topic != "hand/restructure"@
            ==> handled(m, topic, p) == (m, Seq::<OutgoingModel>::empty()),
        topic == "hand/edit"@ || topic == "hand/search"@ || topic == "hand/restructure"@ ==> {
            let id = payload::text_or(p, "request_id"@, ""@);
            let (after, out) = handled(m, topic, p);
            let said = if topic == "hand/edit"@ {
                "已记录编辑请求："@
            } else if topic == "hand/search"@ {
                "已记录搜索请求："@
            } else {
                "已记录重构请求："@
            };
            &&& after.pending.contains_key(id)
            &&& out == feedback(
                topic,
                said + after.pending[id],
                payload::text_or(p, "agent_id"@, ""@),
                id,
            )
        },
{
}

/// What a message carries is read exactly under the topics of the hand where it counts: under
/// every other topic the same follows, whatever the message carries.
pub proof fn law_fields_are_read_where_they_count(
    m: HandModel,
    topic: Seq<char>,
    p: PayloadModel,
    q: PayloadModel,
)
    ensures
        !reads(topic) ==> handled(m, topic, p) == handled(m, topic, q),
        reads(topic) <==> topic == "hand/edit"@ || topic == "hand/search"@ || topic == "hand/restructure"@,
{
}

} // verus!
