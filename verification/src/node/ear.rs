//! The ear: takes in what the user says and what the system reports, and passes
//! it on to the thinker.

use crate::message::frame::{FrameCodec, FrameError, Message};
use crate::message::topic::Topic;
use crate::node::payload;
use crate::node::payload::{Outgoing, OutgoingModel, Payload, PayloadModel};
use crate::node::{NodeId, NodeType};
use crate::text::{model, ops};
use vstd::prelude::*;
use vstd::string::*;

verus! {

/// The ear.
#[derive(Debug)]
pub struct EarNode {
    id: NodeId,
    agent_id: Option<String>,
}

/// What the ear, or the mouth, holds: its identifier and the agent's.
#[verifier::ext_equal]
pub struct LinkModel {
    pub id: Seq<char>,
    pub agent_id: Option<Seq<char>>,
}

impl View for EarNode {
    type V = LinkModel;

    closed spec fn view(&self) -> LinkModel {
        LinkModel { id: self.id@, agent_id: model::opt_text(self.agent_id) }
    }
}

/// What the thinker is told.
pub open spec fn input(
    agent_id: Seq<char>,
    content: Seq<char>,
    role: Seq<char>,
    source: Seq<char>,
) -> OutgoingModel {
    payload::sent(
        "cortex/"@ + agent_id + "/input"@,
        seq![
            payload::text_field("content"@, content),
            payload::text_field("role"@, role),
            payload::text_field("source"@, source),
        ],
    )
}

/// The messages that follow a message to the ear. Without an agent there are
/// none.
pub open spec fn heard(m: LinkModel, topic: Seq<char>, p: PayloadModel) -> Seq<OutgoingModel> {
    match m.agent_id {
        Some(agent_id) => if topic == "ear/hear"@ {
            seq![
                input(
                    agent_id,
                    payload::text_or(p, "content"@, ""@),
                    payload::text_or(p, "role"@, "user"@),
                    "ear"@,
                ),
            ]
        } else if topic == "ear/notification"@ {
            seq![
                input(
                    agent_id,
                    "[系统通知]["@ + payload::text_or(p, "level"@, "info"@) + "] "@
                        + payload::text_or(p, "message"@, ""@),
                    "system"@,
                    "ear/notification"@,
                ),
            ]
        } else {
            Seq::empty()
        },
        None => Seq::empty(),
    }
}

/// Whether the ear reads what a message carries.
pub open spec fn reads(topic: Seq<char>) -> bool {
    topic == "ear/hear"@ || topic == "ear/notification"@
}

/// Adds what the thinker is told.
fn send_input(out: &mut Vec<Outgoing>, agent_id: &str, content: &str, role: &str, source: &str)
    ensures
        payload::outgoing_models(final(out)@) == payload::outgoing_models(old(out)@).push(
            input(agent_id@, content@, role@, source@),
        ),
{
    let p = Payload::new().text("content", content).text("role", role).text("source", source);
    assert(p@ =~= input(agent_id@, content@, role@, source@).payload);
    payload::send(out, Topic::cortex_input(agent_id), p);
}

impl EarNode {
    /// An ear without an agent.
    pub fn new(id: NodeId) -> (r: Self)
        ensures
            r@ == (LinkModel { id: id@, agent_id: None }),
    {
        EarNode { id: id, agent_id: None }
    }

    /// Names the agent that is told what the ear hears.
    pub fn set_agent_id(&mut self, agent_id: String)
        ensures
            final(self)@ == (LinkModel { agent_id: Some(agent_id@), ..old(self)@ }),
    {
        self.agent_id = Some(agent_id);
    }

    pub fn node_type(&self) -> (r: NodeType)
        ensures
            r == NodeType::Ear,
    {
        NodeType::Ear
    }

    pub fn node_id(&self) -> (r: &NodeId)
        ensures
            r@ == self@.id,
    {
        &self.id
    }

    /// Takes in a message, and returns the messages to send.
    pub fn handle_message(&self, topic: &Topic, p: &Payload) -> (r: Vec<Outgoing>)
        ensures
            payload::outgoing_models(r@) == heard(self@, topic@, p@),
    {
        let mut out = payload::nothing();
        if let Some(agent_id) = &self.agent_id {
            let name = ops::chars_of(topic.as_str());
            if ops::is_text(name.as_slice(), "ear/hear") {
                let content = p.text_or("content", "");
                let role = p.text_or("role", "user");
                send_input(&mut out, agent_id.as_str(), content, role, "ear");
            } else if ops::is_text(name.as_slice(), "ear/notification") {
                let level = p.text_or("level", "info");
                let message = p.text_or("message", "");
                let content = ops::concat4("[系统通知][", level, "] ", message);
                send_input(
                    &mut out,
                    agent_id.as_str(),
                    content.as_str(),
                    "system",
                    "ear/notification",
                );
            }
        }
        assert(payload::outgoing_models(out@) =~= heard(self@, topic@, p@));
        out
    }

    /// Takes in a message as it came.
    pub fn receive(&self, msg: &Message) -> (r: Result<Vec<Outgoing>, FrameError>)
        ensures
            match r {
                Ok(out) => {
                    &&& payload::carried(reads(msg@.topic), msg@.payload) matches Some(p)
                    &&& payload::outgoing_models(out@) == heard(self@, msg@.topic, p)
                },
                Err(e) => {
                    &&& e == FrameError::BadPayload
                    &&& payload::carried(reads(msg@.topic), msg@.payload) is None
                },
            },
    {
        let topic = msg.topic.as_str();
        let read = ops::same_text(topic, "ear/hear") || ops::same_text(topic, "ear/notification");
        let p = match FrameCodec::decode_if(read, msg) {
            Ok(p) => p,
            Err(e) => {
                return Err(e);
            },
        };
        Ok(self.handle_message(&msg.topic, &p))
    }

    /// The topics that the ear listens to.
    pub fn subscriptions(&self) -> (r: Vec<String>)
        ensures
            model::texts(r@) == seq!["ear/hear"@, "ear/notification"@, "sys/shutdown"@],
    {
        let list = ["ear/hear", "ear/notification", "sys/shutdown"];
        let out = payload::strings(&list);
        assert(model::texts(out@) =~= seq!["ear/hear"@, "ear/notification"@, "sys/shutdown"@]);
        out
    }

    /// The topics that the ear speaks on.
    pub fn published_topics(&self) -> (r: Vec<String>)
        ensures
            model::texts(r@) == match self@.agent_id {
                Some(id) => seq!["cortex/"@ + id + "/input"@],
                None => Seq::empty(),
            },
    {
        let mut out: Vec<String> = Vec::new();
        if let Some(id) = &self.agent_id {
            out.push(ops::concat3("cortex/", id.as_str(), "/input"));
        }
        assert(model::texts(out@) =~= match self@.agent_id {
            Some(id) => seq!["cortex/"@ + id + "/input"@],
            None => Seq::empty(),
        });
        out
    }
}

/// What is heard goes to the agent as it was said, in the role of who said it.
pub proof fn law_words_reach_the_agent(
    m: LinkModel,
    p: PayloadModel,
    agent_id: Seq<char>,
    text: Seq<char>,
)
    requires
        m.agent_id == Some(agent_id),
        payload::text_at(p, "content"@) == Some(text),
    ensures
        ({
            let out = heard(m, "ear/hear"@, p);
            &&& out.len() == 1
            &&& out[0].topic == "cortex/"@ + agent_id + "/input"@
            &&& payload::text_at(out[0].payload, "content"@) == Some(text)
            &&& payload::text_at(out[0].payload, "role"@) == Some(
                payload::text_or(p, "role"@, "user"@),
            )
            &&& payload::text_at(out[0].payload, "source"@) == Some("ear"@)
        }),
{
    lemma_input_is_read(agent_id, text, payload::text_or(p, "role"@, "user"@), "ear"@);
}

/// A notification goes to the agent as the system's, with its level before it.
pub proof fn law_notifications_reach_the_agent(
    m: LinkModel,
    p: PayloadModel,
    agent_id: Seq<char>,
    text: Seq<char>,
)
    requires
        m.agent_id == Some(agent_id),
        payload::text_at(p, "message"@) == Some(text),
    ensures
        ({
            let out = heard(m, "ear/notification"@, p);
            &&& out.len() == 1
            &&& out[0].topic == "cortex/"@ + agent_id + "/input"@
            &&& payload::text_at(out[0].payload, "content"@) == Some(
                "[系统通知]["@ + payload::text_or(p, "level"@, "info"@) + "] "@ + text,
            )
            &&& payload::text_at(out[0].payload, "role"@) == Some("system"@)
        }),
{
    reveal_strlit("ear/hear");
    reveal_strlit("ear/notification");
    assert("ear/hear"@.len() == 8 && "ear/notification"@.len() == 16);
    lemma_input_is_read(
        agent_id,
        "[系统通知]["@ + payload::text_or(p, "level"@, "info"@) + "] "@ + text,
        "system"@,
        "ear/notification"@,
    );
}

/// Without an agent nothing is passed on, nor is what is not for the ear.
pub proof fn law_ear_needs_an_agent(m: LinkModel, topic: Seq<char>, p: PayloadModel)
    ensures
        m.agent_id is None ==> heard(m, topic, p).len() == 0,
        topic != "ear/hear"@ && topic != "ear/notification"@ ==> heard(m, topic, p).len() == 0,
{
}

proof fn lemma_input_is_read(
    agent_id: Seq<char>,
    content: Seq<char>,
    role: Seq<char>,
    source: Seq<char>,
)
    ensures
        ({
            let p = input(agent_id, content, role, source).payload;
            &&& payload::text_at(p, "content"@) == Some(content)
            &&& payload::text_at(p, "role"@) == Some(role)
            &&& payload::text_at(p, "source"@) == Some(source)
        }),
{
    reveal_strlit("content");
    reveal_strlit("role");
    reveal_strlit("source");
    assert("content"@.len() == 7 && "role"@.len() == 4 && "source"@.len() == 6);
    let p = input(agent_id, content, role, source).payload;
    payload::law_field_is_read_by_name(p, 0);
    payload::law_field_is_read_by_name(p, 1);
    payload::law_field_is_read_by_name(p, 2);
}

/// What a message carries is read exactly under the topics of the ear where it counts: under
/// every other topic the same follows, whatever the message carries.
pub proof fn law_fields_are_read_where_they_count(
    m: LinkModel,
    topic: Seq<char>,
    p: PayloadModel,
    q: PayloadModel,
)
    ensures
        !reads(topic) ==> heard(m, topic, p) == heard(m, topic, q),
        reads(topic) <==> topic == "ear/hear"@ || topic == "ear/notification"@,
{
}

} // verus!
