//! The mouth: says what the thinker wants said.

use crate::message::frame::{FrameCodec, FrameError, Message};
use crate::message::topic::Topic;
use crate::node::ear::LinkModel;
use crate::node::payload;
use crate::node::payload::{FieldModel, Outgoing, OutgoingModel, Payload, PayloadModel};
use crate::node::{NodeId, NodeType};
use crate::outside;
use crate::text::{model, ops};
use vstd::prelude::*;
use vstd::string::*;

verus! {

/// The mouth.
#[derive(Debug)]
pub struct MouthNode {
    id: NodeId,
    agent_id: Option<String>,
}

impl View for MouthNode {
    type V = LinkModel;

    closed spec fn view(&self) -> LinkModel {
        LinkModel { id: self.id@, agent_id: model::opt_text(self.agent_id) }
    }
}

/// Whether a topic tells the mouth to speak.
pub open spec fn is_speech(topic: Seq<char>) -> bool {
    model::starts_with(topic, "cortex/"@) && model::ends_with(topic, "/speak"@)
}

/// What is said on a channel: code is fenced, anything else is said as it is.
pub open spec fn formatted(channel: Seq<char>, content: Seq<char>) -> Seq<char> {
    if channel == "code"@ {
        "```\n"@ + content + "\n```"@
    } else {
        content
    }
}

/// The mouth's report on itself.
pub open spec fn status_fields(m: LinkModel) -> PayloadModel {
    seq![
        payload::text_field("node_id"@, m.id),
        payload::text_field("node_type"@, "mouth"@),
        match m.agent_id {
            Some(id) => payload::text_field("agent_id"@, id),
            None => ("agent_id"@, FieldModel::Null),
        },
        payload::text_field("status"@, "active"@),
    ]
}

/// The mouth's report on itself, in JSON notation.
pub open spec fn status_text(m: LinkModel) -> Seq<char> {
    outside::json_of(status_fields(m))
}

/// The messages that follow a message to the mouth.
pub open spec fn said(m: LinkModel, topic: Seq<char>, p: PayloadModel) -> Seq<OutgoingModel> {
    if is_speech(topic) {
        let channel = payload::text_or(p, "channel"@, "text"@);
        match m.agent_id {
            Some(agent_id) => seq![
                payload::sent(
                    "agent/"@ + agent_id + "/output"@,
                    seq![
                        payload::text_field("channel"@, channel),
                        payload::text_field(
                            "content"@,
                            formatted(channel, payload::text_or(p, "content"@, ""@)),
                        ),
                        payload::text_field("source"@, "mouth"@),
                    ],
                ),
            ],
            None => Seq::empty(),
        }
    } else if topic == "mouth/status"@ {
        let agent_id = match m.agent_id {
            Some(id) => id,
            None => "unknown"@,
        };
        seq![
            payload::sent(
                "agent/"@ + agent_id + "/output"@,
                seq![
                    payload::text_field("channel"@, "status"@),
                    payload::text_field("content"@, status_text(m)),
                ],
            ),
        ]
    } else {
        Seq::empty()
    }
}

impl MouthNode {
    /// A mouth without an agent.
    pub fn new(id: NodeId) -> (r: Self)
        ensures
            r@ == (LinkModel { id: id@, agent_id: None }),
    {
        MouthNode { id: id, agent_id: None }
    }

    /// Names the agent that the mouth speaks for.
    pub fn set_agent_id(&mut self, agent_id: String)
        ensures
            final(self)@ == (LinkModel { agent_id: Some(agent_id@), ..old(self)@ }),
    {
        self.agent_id = Some(agent_id);
    }

    pub fn node_type(&self) -> (r: NodeType)
        ensures
            r == NodeType::Mouth,
    {
        NodeType::Mouth
    }

    pub fn node_id(&self) -> (r: &NodeId)
        ensures
            r@ == self@.id,
    {
        &self.id
    }

    /// The mouth's report on itself.
    fn status(&self) -> (r: String)
        ensures
            r@ == status_text(self@),
    {
        let named = Payload::new().text("node_id", self.id.as_str()).text("node_type", "mouth");
        let linked = match &self.agent_id {
            Some(id) => named.text("agent_id", id.as_str()),
            None => named.null("agent_id"),
        };
        let body = linked.text("status", "active");
        assert(body@ =~= status_fields(self@));
        outside::json_object(&body)
    }

    /// Takes in a message, and returns the messages to send.
    pub fn handle_message(&self, topic: &Topic, p: &Payload) -> (r: Vec<Outgoing>)
        ensures
            payload::outgoing_models(r@) == said(self@, topic@, p@),
    {
        let mut out = payload::nothing();
        let name = ops::chars_of(topic.as_str());
        if ops::starts_with(name.as_slice(), "cortex/") && ops::ends_with(
            name.as_slice(),
            "/speak",
        ) {
            let content = p.text_or("content", "");
            let channel = p.text_or("channel", "text");
            if let Some(agent_id) = &self.agent_id {
                let shown = if ops::same_text(channel, "code") {
                    ops::concat3("```\n", content, "\n```")
                } else {
                    String::from_str(content)
                };
                let body = Payload::new().text("channel", channel).text(
                    "content",
                    shown.as_str(),
                ).text("source", "mouth");
                payload::send(&mut out, Topic::agent_output(agent_id.as_str()), body);
                assert(payload::outgoing_models(out@) =~~= said(self@, topic@, p@));
            }
        } else if ops::is_text(name.as_slice(), "mouth/status") {
            let report = self.status();
            let agent_id = match &self.agent_id {
                Some(id) => id.as_str(),
                None => "unknown",
            };
            let body = Payload::new().text("channel", "status").text("content", report.as_str());
            payload::send(&mut out, Topic::agent_output(agent_id), body);
            assert(payload::outgoing_models(out@) =~~= said(self@, topic@, p@));
        }
        out
    }

    /// Takes in a message as it came.
    pub fn receive(&self, msg: &Message) -> (r: Result<Vec<Outgoing>, FrameError>)
        ensures
            match r {
                Ok(out) => {
                    &&& payload::carried(is_speech(msg@.topic), msg@.payload) matches Some(p)
                    &&& payload::outgoing_models(out@) == said(self@, msg@.topic, p)
                },
                Err(e) => {
                    &&& e == FrameError::BadPayload
                    &&& payload::carried(is_speech(msg@.topic), msg@.payload) is None
                },
            },
    {
        let name = ops::chars_of(msg.topic.as_str());
        let t = name.as_slice();
        let read = ops::starts_with(t, "cortex/") && ops::ends_with(t, "/speak");
        let p = match FrameCodec::decode_if(read, msg) {
            Ok(p) => p,
            Err(e) => {
                return Err(e);
            },
        };
        Ok(self.handle_message(&msg.topic, &p))
    }

    /// The topics that the mouth listens to.
    pub fn subscriptions(&self) -> (r: Vec<String>)
        ensures
            model::texts(r@) == match self@.agent_id {
                Some(id) => seq!["mouth/status"@, "sys/shutdown"@, "cortex/"@ + id + "/speak"@],
                None => seq!["mouth/status"@, "sys/shutdown"@],
            },
    {
        let mut out = payload::strings(&["mouth/status", "sys/shutdown"]);
        let ghost first = model::texts(out@);
        assert(first =~= seq!["mouth/status"@, "sys/shutdown"@]);
        if let Some(id) = &self.agent_id {
            let more = ops::concat3("cortex/", id.as_str(), "/speak");
            let ghost shown = more@;
            out.push(more);
            assert(model::texts(out@) =~= first.push(shown));
            assert(first.push(shown) =~= seq!["mouth/status"@, "sys/shutdown"@, shown]);
        }
        out
    }

    /// The topics that the mouth speaks on.
    pub fn published_topics(&self) -> (r: Vec<String>)
        ensures
            model::texts(r@) == match self@.agent_id {
                Some(id) => seq!["agent/"@ + id + "/output"@],
                None => Seq::empty(),
            },
    {
        let mut out: Vec<String> = Vec::new();
        if let Some(id) = &self.agent_id {
            out.push(ops::concat3("agent/", id.as_str(), "/output"));
        }
        assert(model::texts(out@) =~= match self@.agent_id {
            Some(id) => seq!["agent/"@ + id + "/output"@],
            None => Seq::empty(),
        });
        out
    }
}

/// What an agent wants to say is put out on its channel: code in a block of its own, and
/// anything else as it is.
pub proof fn law_speech_is_put_out(
    m: LinkModel,
    topic: Seq<char>,
    p: PayloadModel,
    agent_id: Seq<char>,
    text: Seq<char>,
)
    requires
        model::starts_with(topic, "cortex/"@),
        model::ends_with(topic, "/speak"@),
        m.agent_id == Some(agent_id),
        payload::text_at(p, "content"@) == Some(text),
    ensures
        ({
            let out = said(m, topic, p);
            let channel = payload::text_or(p, "channel"@, "text"@);
            &&& out.len() == 1
            &&& out[0].topic == "agent/"@ + agent_id + "/output"@
            &&& payload::text_at(out[0].payload, "channel"@) == Some(channel)
            &&& channel == "code"@ ==> payload::text_at(out[0].payload, "content"@) == Some(
                "```\n"@ + text + "\n```"@,
            )
            &&& channel != "code"@ ==> payload::text_at(out[0].payload, "content"@) == Some(text)
        }),
{
    reveal_strlit("channel");
    reveal_strlit("content");
    assert("channel"@.len() == 7 && "content"@.len() == 7);
    assert("channel"@[1] == 'h' && "content"@[1] == 'o');
    let q = said(m, topic, p)[0].payload;
    payload::law_field_is_read_by_name(q, 0);
    payload::law_field_is_read_by_name(q, 1);
}

/// Asked how it is, a mouth tells the agent that it is there.
pub proof fn law_status_is_told(m: LinkModel, p: PayloadModel)
    ensures
        ({
            let out = said(m, "mouth/status"@, p);
            &&& out.len() == 1
            &&& m.agent_id matches Some(a) ==> out[0].topic == "agent/"@ + a + "/output"@
            &&& payload::text_at(out[0].payload, "channel"@) == Some("status"@)
            &&& payload::text_at(out[0].payload, "content"@) == Some(status_text(m))
            &&& payload::text_at(status_fields(m), "node_id"@) == Some(m.id)
            &&& payload::text_at(status_fields(m), "status"@) == Some("active"@)
            &&& payload::text_at(status_fields(m), "agent_id"@) == m.agent_id
        }),
{
    reveal_strlit("mouth/status");
    reveal_strlit("cortex/");
    assert("mouth/status"@.len() == 12 && "cortex/"@.len() == 7);
    assert("mouth/status"@[0] == 'm' && "cortex/"@[0] == 'c');
    assert(!is_speech("mouth/status"@)) by {
        assert("mouth/status"@.take(7)[0] == 'm');
    }
    reveal_strlit("channel");
    reveal_strlit("content");
    assert("channel"@.len() == 7 && "content"@.len() == 7);
    assert("channel"@[1] == 'h' && "content"@[1] == 'o');
    let q = said(m, "mouth/status"@, p)[0].payload;
    payload::law_field_is_read_by_name(q, 0);
    payload::law_field_is_read_by_name(q, 1);
    reveal_strlit("node_id");
    reveal_strlit("node_type");
    reveal_strlit("agent_id");
    reveal_strlit("status");
    assert("node_id"@.len() == 7 && "node_type"@.len() == 9 && "agent_id"@.len() == 8 && "status"@.len() == 6);
    payload::law_field_is_read_by_name(status_fields(m), 0);
    payload::law_field_is_read_by_name(status_fields(m), 2);
    payload::law_field_is_read_by_name(status_fields(m), 3);
}

/// Without an agent nothing is said, nor is what is not for the mouth.
pub proof fn law_mouth_has_its_topics(m: LinkModel, topic: Seq<char>, p: PayloadModel)
    requires
        topic != "mouth/status"@,
    ensures
        m.agent_id is None ==> said(m, topic, p).len() == 0,
        !model::starts_with(topic, "cortex/"@) || !model::ends_with(topic, "/speak"@) ==> said(
            m,
            topic,
            p,
        ).len() == 0,
{
}

/// Only what is to be said is read: under every other topic the same follows, whatever the
/// message carries.
pub proof fn law_only_speech_is_read(
    m: LinkModel,
    topic: Seq<char>,
    p: PayloadModel,
    q: PayloadModel,
)
    ensures
        !is_speech(topic) ==> said(m, topic, p) == said(m, topic, q),
        is_speech(topic) <==> model::starts_with(topic, "cortex/"@) && model::ends_with(
            topic,
            "/speak"@,
        ),
{
}

} // verus!
