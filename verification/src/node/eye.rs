//! The eye: sees files, changes of files and the output of terminals.
//!
//! The eye remembers the last ten things that it has seen.

use crate::message::frame::{FrameCodec, FrameError, Message};
use crate::message::topic::Topic;
use crate::node::payload;
use crate::node::payload::{Outgoing, OutgoingModel, Payload, PayloadModel};
use crate::node::{NodeId, NodeType};
use crate::text::{model, ops};
use vstd::prelude::*;
use vstd::string::*;

verus! {

/// Something that the eye has seen.
#[derive(Debug)]
pub struct Observation {
    /// The topic that told of it.
    pub topic: String,
    /// What it is.
    pub content: String,
    /// When it was seen, in nanoseconds.
    pub timestamp: u64,
}

/// What an observation holds.
#[verifier::ext_equal]
pub struct ObservationModel {
    pub topic: Seq<char>,
    pub content: Seq<char>,
    pub timestamp: u64,
}

impl View for Observation {
    type V = ObservationModel;

    open spec fn view(&self) -> ObservationModel {
        ObservationModel {
            topic: self.topic@,
            content: self.content@,
            timestamp: self.timestamp,
        }
    }
}

/// The observations that a list holds.
pub open spec fn observation_models(v: Seq<Observation>) -> Seq<ObservationModel> {
    v.map_values(|o: Observation| o@)
}

/// How many observations are remembered.
pub const BUFFER_CAPACITY: usize = 10;

/// The eye.
#[derive(Debug)]
pub struct EyeNode {
    id: NodeId,
    buffer: Vec<Observation>,
}

/// What the eye holds.
#[verifier::ext_equal]
pub struct EyeModel {
    pub id: Seq<char>,
    /// What was seen, oldest first.
    pub buffer: Seq<ObservationModel>,
}

impl View for EyeNode {
    type V = EyeModel;

    closed spec fn view(&self) -> EyeModel {
        EyeModel { id: self.id@, buffer: observation_models(self.buffer@) }
    }
}

/// What a message shows the eye.
pub open spec fn sight(topic: Seq<char>, p: PayloadModel) -> Option<Seq<char>> {
    if topic == "eye/observe"@ {
        Some(
            "[Eye] 观察 "@ + payload::text_or(p, "path"@, ""@) + "（类型="@ + payload::text_or(
                p,
                "type"@,
                "file"@,
            ) + "）：已读取内容"@,
        )
    } else if topic == "eye/file_changed"@ {
        Some(
            "[Eye] 文件变化："@ + payload::text_or(p, "path"@, ""@) + " ("@ + payload::text_or(
                p,
                "change_type"@,
                "modified"@,
            ) + ")"@,
        )
    } else if topic == "eye/terminal_output"@ {
        Some(payload::text_or(p, "content"@, ""@))
    } else {
        None
    }
}

/// The messages that follow a message to the eye.
pub open spec fn seen(id: Seq<char>, topic: Seq<char>, p: PayloadModel) -> Seq<OutgoingModel> {
    let path = payload::text_or(p, "path"@, ""@);
    if topic == "eye/observe"@ {
        seq![
            payload::sent(
                "eye/observe"@,
                seq![
                    payload::text_field("path"@, path),
                    payload::text_field("type"@, payload::text_or(p, "type"@, "file"@)),
                    payload::text_field("content"@, sight(topic, p)->0),
                    payload::text_field("observer"@, id),
                ],
            ),
        ]
    } else if topic == "eye/file_changed"@ {
        seq![
            payload::sent(
                "eye/observe"@,
                seq![
                    payload::text_field("action"@, "reindex"@),
                    payload::text_field("path"@, path),
                    payload::text_field(
                        "change_type"@,
                        payload::text_or(p, "change_type"@, "modified"@),
                    ),
                ],
            ),
        ]
    } else {
        Seq::empty()
    }
}

/// Whether the eye reads what a message carries.
pub open spec fn reads(topic: Seq<char>) -> bool {
    topic == "eye/observe"@ || topic == "eye/file_changed"@ || topic == "eye/terminal_output"@
}

/// The eye after it has taken in a message.
pub open spec fn after_seeing(m: EyeModel, topic: Seq<char>, p: PayloadModel, now: u64) -> EyeModel {
    match sight(topic, p) {
        Some(content) => EyeModel {
            buffer: payload::pushed_within(
                m.buffer,
                (ObservationModel { topic: topic, content: content, timestamp: now }),
                BUFFER_CAPACITY as nat,
            ),
            ..m
        },
        None => m,
    }
}

impl EyeNode {
    /// The eye remembers no more than it can.
    pub open spec fn wf(&self) -> bool {
        self@.buffer.len() <= BUFFER_CAPACITY
    }

    /// An eye that has seen nothing.
    pub fn new(id: NodeId) -> (r: Self)
        ensures
            r.wf(),
            r@ == (EyeModel { id: id@, buffer: Seq::empty() }),
    {
        let node = EyeNode { id: id, buffer: Vec::new() };
        assert(node@.buffer =~= Seq::empty());
        node
    }

    /// Remembers an observation, and forgets the oldest where there are too
    /// many.
    fn push_observation(&mut self, obs: Observation)
        requires
            old(self).wf(),
        ensures
            final(self).wf(),
            final(self)@ == (EyeModel {
                buffer: payload::pushed_within(
                    old(self)@.buffer,
                    obs@,
                    BUFFER_CAPACITY as nat,
                ),
                ..old(self)@
            }),
    {
        let ghost before = self@.buffer;
        let ghost shown = obs@;
        if self.buffer.len() >= BUFFER_CAPACITY {
            self.buffer.remove(0);
            assert(observation_models(self.buffer@) =~= before.skip(1));
        }
        let ghost middle = observation_models(self.buffer@);
        self.buffer.push(obs);
        assert(observation_models(self.buffer@) =~= middle.push(shown));
    }

    /// What the eye remembers, oldest first.
    pub fn observations(&self) -> (r: &Vec<Observation>)
        ensures
            observation_models(r@) == self@.buffer,
    {
        &self.buffer
    }

    pub fn node_type(&self) -> (r: NodeType)
        ensures
            r == NodeType::Eye,
    {
        NodeType::Eye
    }

    pub fn node_id(&self) -> (r: &NodeId)
        ensures
            r@ == self@.id,
    {
        &self.id
    }

    /// Takes in a message at a moment: remembers what it shows, if it shows
    /// something, and returns the messages to send.
    pub fn handle_message(&mut self, topic: &Topic, p: &Payload, now: u64) -> (r: Vec<Outgoing>)
        requires
            old(self).wf(),
        ensures
            final(self).wf(),
            payload::outgoing_models(r@) == seen(old(self)@.id, topic@, p@),
            final(self)@ == after_seeing(old(self)@, topic@, p@, now),
    {
        let mut out = payload::nothing();
        let name = ops::chars_of(topic.as_str());
        let t = name.as_slice();
        let mut content: Option<String> = None;
        if ops::is_text(t, "eye/observe") {
            let path = p.text_or("path", "");
            let kind = p.text_or("type", "file");
            let shown = ops::concat5("[Eye] 观察 ", path, "（类型=", kind, "）：已读取内容");
            let body = Payload::new().text("path", path).text("type", kind).text(
                "content",
                shown.as_str(),
            ).text("observer", self.id.as_str());
            payload::send(&mut out, Topic::eye_observe(), body);
            assert(payload::outgoing_models(out@) =~~= seen(old(self)@.id, topic@, p@));
            content = Some(shown);
        } else if ops::is_text(t, "eye/file_changed") {
            let path = p.text_or("path", "");
            let change = p.text_or("change_type", "modified");
            let shown = ops::concat5("[Eye] 文件变化：", path, " (", change, ")");
            let body = Payload::new().text("action", "reindex").text("path", path).text(
                "change_type",
                change,
            );
            payload::send(&mut out, Topic::eye_observe(), body);
            assert(payload::outgoing_models(out@) =~~= seen(old(self)@.id, topic@, p@));
            content = Some(shown);
        } else if ops::is_text(t, "eye/terminal_output") {
            content = Some(String::from_str(p.text_or("content", "")));
        }
        if let Some(shown) = content {
            self.push_observation(
                Observation {
                    topic: String::from_str(topic.as_str()),
                    content: shown,
                    timestamp: now,
                },
            );
        }
        out
    }

    /// Takes in a message as it came. A message that cannot be read changes
    /// nothing.
    pub fn receive(&mut self, msg: &Message, now: u64) -> (r: Result<Vec<Outgoing>, FrameError>)
        requires
            old(self).wf(),
        ensures
            final(self).wf(),
            match r {
                Ok(out) => {
                    &&& payload::carried(reads(msg@.topic), msg@.payload) matches Some(p)
                    &&& payload::outgoing_models(out@) == seen(old(self)@.id, msg@.topic, p)
                    &&& final(self)@ == after_seeing(old(self)@, msg@.topic, p, now)
                },
                Err(e) => {
                    &&& e == FrameError::BadPayload
                    &&& payload::carried(reads(msg@.topic), msg@.payload) is None
                    &&& final(self)@ == old(self)@
                },
            },
    {
        let topic = msg.topic.as_str();
        let read = ops::same_text(topic, "eye/observe") || ops::same_text(topic, "eye/file_changed")
            || ops::same_text(topic, "eye/terminal_output");
        let p = match FrameCodec::decode_if(read, msg) {
            Ok(p) => p,
            Err(e) => {
                return Err(e);
            },
        };
        Ok(self.handle_message(&msg.topic, &p, now))
    }

    /// The topics that the eye listens to.
    pub fn subscriptions(&self) -> (r: Vec<String>)
        ensures
            model::texts(r@) == seq![
                "eye/observe"@,
                "eye/file_changed"@,
                "eye/terminal_output"@,
                "sys/shutdown"@,
            ],
    {
        let out = payload::strings(
            &["eye/observe", "eye/file_changed", "eye/terminal_output", "sys/shutdown"],
        );
        assert(model::texts(out@) =~= seq![
            "eye/observe"@,
            "eye/file_changed"@,
            "eye/terminal_output"@,
            "sys/shutdown"@,
        ]);
        out
    }

    /// The topics that the eye speaks on.
    pub fn published_topics(&self) -> (r: Vec<String>)
        ensures
            model::texts(r@) == seq!["eye/observe"@],
    {
        let out = payload::strings(&["eye/observe"]);
        assert(model::texts(out@) =~= seq!["eye/observe"@]);
        out
    }
}

/// Something to observe is looked at, remembered and answered with what was seen.
pub proof fn law_observation_is_answered(
    m: EyeModel,
    p: PayloadModel,
    path: Seq<char>,
    now: u64,
)
    requires
        payload::text_at(p, "path"@) == Some(path),
        m.buffer.len() < 10,
    ensures
        ({
            let out = seen(m.id, "eye/observe"@, p);
            let kind = payload::text_or(p, "type"@, "file"@);
            let text = "[Eye] 观察 "@ + path + "（类型="@ + kind + "）：已读取内容"@;
            &&& out.len() == 1
            &&& out[0].topic == "eye/observe"@
            &&& payload::text_at(out[0].payload, "path"@) == Some(path)
            &&& payload::text_at(out[0].payload, "type"@) == Some(kind)
            &&& payload::text_at(out[0].payload, "content"@) == Some(text)
            &&& payload::text_at(out[0].payload, "observer"@) == Some(m.id)
            &&& after_seeing(m, "eye/observe"@, p, now).buffer == m.buffer.push(
                ObservationModel { topic: "eye/observe"@, content: text, timestamp: now },
            )
        }),
{
    reveal_strlit("path");
    reveal_strlit("type");
    reveal_strlit("content");
    reveal_strlit("observer");
    assert("path"@.len() == 4 && "type"@.len() == 4 && "content"@.len() == 7 && "observer"@.len() == 8);
    assert("path"@[0] == 'p' && "type"@[0] == 't');
    let q = seen(m.id, "eye/observe"@, p)[0].payload;
    payload::law_field_is_read_by_name(q, 0);
    payload::law_field_is_read_by_name(q, 1);
    payload::law_field_is_read_by_name(q, 2);
    payload::law_field_is_read_by_name(q, 3);
}

/// A file that has changed is remembered, and asked to be indexed again.
pub proof fn law_changed_file_is_indexed_again(
    m: EyeModel,
    p: PayloadModel,
    path: Seq<char>,
    now: u64,
)
    requires
        payload::text_at(p, "path"@) == Some(path),
        m.buffer.len() < 10,
    ensures
        ({
            let out = seen(m.id, "eye/file_changed"@, p);
            let kind = payload::text_or(p, "change_type"@, "modified"@);
            &&& out.len() == 1
            &&& out[0].topic == "eye/observe"@
            &&& payload::text_at(out[0].payload, "action"@) == Some("reindex"@)
            &&& payload::text_at(out[0].payload, "path"@) == Some(path)
            &&& payload::text_at(out[0].payload, "change_type"@) == Some(kind)
            &&& after_seeing(m, "eye/file_changed"@, p, now).buffer == m.buffer.push(
                ObservationModel {
                    topic: "eye/file_changed"@,
                    content: "[Eye] 文件变化："@ + path + " ("@ + kind + ")"@,
                    timestamp: now,
                },
            )
        }),
{
    reveal_strlit("eye/observe");
    reveal_strlit("eye/file_changed");
    assert("eye/observe"@.len() == 11 && "eye/file_changed"@.len() == 16);
    reveal_strlit("action");
    reveal_strlit("path");
    reveal_strlit("change_type");
    assert("action"@.len() == 6 && "path"@.len() == 4 && "change_type"@.len() == 11);
    let q = seen(m.id, "eye/file_changed"@, p)[0].payload;
    payload::law_field_is_read_by_name(q, 0);
    payload::law_field_is_read_by_name(q, 1);
    payload::law_field_is_read_by_name(q, 2);
}

/// What a terminal shows is remembered as it is and not passed on.
pub proof fn law_terminal_output_is_remembered(
    m: EyeModel,
    p: PayloadModel,
    text: Seq<char>,
    now: u64,
)
    requires
        payload::text_at(p, "content"@) == Some(text),
        m.buffer.len() < 10,
    ensures
        seen(m.id, "eye/terminal_output"@, p).len() == 0,
        after_seeing(m, "eye/terminal_output"@, p, now).buffer == m.buffer.push(
            ObservationModel { topic: "eye/terminal_output"@, content: text, timestamp: now },
        ),
{
    reveal_strlit("eye/observe");
    reveal_strlit("eye/file_changed");
    reveal_strlit("eye/terminal_output");
    assert("eye/observe"@.len() == 11 && "eye/file_changed"@.len() == 16 && "eye/terminal_output"@.len() == 19);
}

/// What is not for the eye changes nothing.
pub proof fn law_eye_sees_its_topics(m: EyeModel, topic: Seq<char>, p: PayloadModel, now: u64)
    requires
        topic != "eye/observe"@,
        topic != "eye/file_changed"@,
        topic != "eye/terminal_output"@,
    ensures
        seen(m.id, topic, p).len() == 0,
        after_seeing(m, topic, p, now) == m,
        !reads(topic),
{
}

/// What a message carries is read exactly under the topics of the eye where it counts:
/// under every other topic the same follows, whatever the message carries.
pub proof fn law_fields_are_read_where_they_count(
    m: EyeModel,
    topic: Seq<char>,
    p: PayloadModel,
    q: PayloadModel,
    now: u64,
)
    ensures
        !reads(topic) ==> seen(m.id, topic, p) == seen(m.id, topic, q) && after_seeing(
            m,
            topic,
            p,
            now,
        ) == after_seeing(m, topic, q, now),
        topic == "eye/observe"@ || topic == "eye/file_changed"@ || topic == "eye/terminal_output"@
            ==> reads(topic),
{
}

} // verus!
