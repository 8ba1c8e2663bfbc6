//! The skin: feels what tools come back with.
//!
//! The skin remembers the last fifty results.

use crate::message::frame::{FrameCodec, FrameError, Message};
use crate::message::topic::Topic;
use crate::node::payload;
use crate::node::payload::{Outgoing, OutgoingModel, Payload, PayloadModel};
use crate::node::{NodeId, NodeType};
use crate::text::{model, ops};
use vstd::prelude::*;
use vstd::string::*;

verus! {

/// What a tool came back with.
#[derive(Debug)]
pub struct TouchRecord {
    /// The tool.
    pub tool_name: String,
    /// Its result.
    pub result: String,
    /// Whether it succeeded.
    pub success: bool,
    /// When it came back, in nanoseconds.
    pub timestamp: u64,
}

/// What a record holds.
#[verifier::ext_equal]
pub struct TouchModel {
    pub tool_name: Seq<char>,
    pub result: Seq<char>,
    pub success: bool,
    pub timestamp: u64,
}

impl View for TouchRecord {
    type V = TouchModel;

    open spec fn view(&self) -> TouchModel {
        TouchModel {
            tool_name: self.tool_name@,
            result: self.result@,
            success: self.success,
            timestamp: self.timestamp,
        }
    }
}

/// The records that a list holds.
pub open spec fn touch_models(v: Seq<TouchRecord>) -> Seq<TouchModel> {
    v.map_values(|t: TouchRecord| t@)
}

/// How many records are remembered.
pub const MEMORY_CAPACITY: usize = 50;

/// The skin.
#[derive(Debug)]
pub struct SkinNode {
    id: NodeId,
    short_term_memory: Vec<TouchRecord>,
}

/// What the skin holds.
#[verifier::ext_equal]
pub struct SkinModel {
    pub id: Seq<char>,
    /// The records, oldest first.
    pub memory: Seq<TouchModel>,
}

impl View for SkinNode {
    type V = SkinModel;

    closed spec fn view(&self) -> SkinModel {
        SkinModel { id: self.id@, memory: touch_models(self.short_term_memory@) }
    }
}

/// Whether a topic is one of the hand's or the limb's.
pub open spec fn is_motion(topic: Seq<char>) -> bool {
    model::starts_with(topic, "hand/"@) || model::starts_with(topic, "limb/"@)
}

/// What a message makes the skin feel.
pub open spec fn felt(topic: Seq<char>, p: PayloadModel, now: u64) -> Option<TouchModel> {
    if is_motion(topic) {
        Some(
            TouchModel {
                tool_name: payload::text_or(p, "tool_name"@, topic),
                result: match payload::text_at(p, "output"@) {
                    Some(s) => s,
                    None => payload::text_or(p, "result"@, ""@),
                },
                success: payload::flag_or(p, "success"@, true),
                timestamp: now,
            },
        )
    } else if topic == "skin/touch"@ {
        Some(
            TouchModel {
                tool_name: payload::text_or(p, "tool_name"@, ""@),
                result: payload::text_or(p, "result"@, ""@),
                success: payload::flag_or(p, "success"@, true),
                timestamp: now,
            },
        )
    } else {
        None
    }
}

/// What others are told of a touch.
pub open spec fn report(t: TouchModel, topic: Seq<char>) -> OutgoingModel {
    payload::sent(
        "skin/touch"@,
        seq![
            payload::text_field("tool_name"@, t.tool_name),
            payload::text_field("result"@, t.result),
            payload::flag_field("success"@, t.success),
            payload::text_field("source_topic"@, topic),
        ],
    )
}

/// What others are told of a failure.
pub open spec fn failure(t: TouchModel) -> OutgoingModel {
    payload::sent(
        "skin/process_exit"@,
        seq![
            payload::text_field("tool_name"@, t.tool_name),
            payload::flag_field("success"@, false),
        ],
    )
}

/// The messages that follow a message to the skin.
pub open spec fn passed_on(topic: Seq<char>, p: PayloadModel) -> Seq<OutgoingModel> {
    if is_motion(topic) {
        let t = felt(topic, p, 0)->0;
        if t.success {
            seq![report(t, topic)]
        } else {
            seq![report(t, topic), failure(t)]
        }
    } else {
        Seq::empty()
    }
}

/// Whether the skin reads what a message carries.
pub open spec fn reads(topic: Seq<char>) -> bool {
    is_motion(topic) || topic == "skin/touch"@
}

/// The skin after it has taken in a message.
pub open spec fn after_feeling(m: SkinModel, topic: Seq<char>, p: PayloadModel, now: u64) -> SkinModel {
    match felt(topic, p, now) {
        Some(t) => SkinModel {
            memory: payload::pushed_within(m.memory, t, MEMORY_CAPACITY as nat),
            ..m
        },
        None => m,
    }
}

impl SkinNode {
    /// The skin remembers no more than it can.
    pub open spec fn wf(&self) -> bool {
        self@.memory.len() <= MEMORY_CAPACITY
    }

    /// A skin that has felt nothing.
    pub fn new(id: NodeId) -> (r: Self)
        ensures
            r.wf(),
            r@ == (SkinModel { id: id@, memory: Seq::empty() }),
    {
        let node = SkinNode { id: id, short_term_memory: Vec::new() };
        assert(node@.memory =~= Seq::empty());
        node
    }

    /// Remembers a record, and forgets the oldest where there are too many.
    fn push_touch_record(&mut self, record: TouchRecord)
        requires
            old(self).wf(),
        ensures
            final(self).wf(),
            final(self)@ == (SkinModel {
                memory: payload::pushed_within(
                    old(self)@.memory,
                    record@,
                    MEMORY_CAPACITY as nat,
                ),
                ..old(self)@
            }),
    {
        let ghost before = self@.memory;
        let ghost shown = record@;
        if self.short_term_memory.len() >= MEMORY_CAPACITY {
            self.short_term_memory.remove(0);
            assert(touch_models(self.short_term_memory@) =~= before.skip(1));
        }
        let ghost middle = touch_models(self.short_term_memory@);
        self.short_term_memory.push(record);
        assert(touch_models(self.short_term_memory@) =~= middle.push(shown));
    }

    /// What the skin remembers, oldest first.
    pub fn records(&self) -> (r: &Vec<TouchRecord>)
        ensures
            touch_models(r@) == self@.memory,
    {
        &self.short_term_memory
    }

    pub fn node_type(&self) -> (r: NodeType)
        ensures
            r == NodeType::Skin,
    {
        NodeType::Skin
    }

    pub fn node_id(&self) -> (r: &NodeId)
        ensures
            r@ == self@.id,
    {
        &self.id
    }

    /// Takes in a message at a moment: remembers what it makes the skin feel, if
    /// anything, and returns the messages to send.
    pub fn handle_message(&mut self, topic: &Topic, p: &Payload, now: u64) -> (r: Vec<Outgoing>)
        requires
            old(self).wf(),
        ensures
            final(self).wf(),
            payload::outgoing_models(r@) == passed_on(topic@, p@),
            final(self)@ == after_feeling(old(self)@, topic@, p@, now),
    {
        let mut out = payload::nothing();
        let name = ops::chars_of(topic.as_str());
        let t = name.as_slice();
        if ops::starts_with(t, "hand/") || ops::starts_with(t, "limb/") {
            let tool_name = p.text_or("tool_name", topic.as_str());
            let result = match p.text_at("output") {
                Some(s) => s,
                None => p.text_or("result", ""),
            };
            let success = p.flag_or("success", true);
            let body = Payload::new().text("tool_name", tool_name).text("result", result).flag(
                "success",
                success,
            ).text("source_topic", topic.as_str());
            payload::send(&mut out, Topic::skin_touch(), body);
            if !success {
                let exit = Payload::new().text("tool_name", tool_name).flag("success", false);
                payload::send(&mut out, Topic::skin_process_exit(), exit);
            }
            assert(payload::outgoing_models(out@) =~~= passed_on(topic@, p@));
            self.push_touch_record(
                TouchRecord {
                    tool_name: String::from_str(tool_name),
                    result: String::from_str(result),
                    success: success,
                    timestamp: now,
                },
            );
        } else if ops::is_text(t, "skin/touch") {
            let tool_name = p.text_or("tool_name", "");
            let result = p.text_or("result", "");
            self.push_touch_record(
                TouchRecord {
                    tool_name: String::from_str(tool_name),
                    result: String::from_str(result),
                    success: p.flag_or("success", true),
                    timestamp: now,
                },
            );
        }
        out
    }

    /// Takes in a message as it came. A message that cannot be read changes
    /// nothing.
    pub fn receive(&mut self, msg: &Message, now: u64) -> (r: Result<Vec<Outgoing>, FrameError>)
        requires
            old(self).wf(),
        ensures
            final(self).wf(),
            match r {
                Ok(out) => {
                    &&& payload::carried(reads(msg@.topic), msg@.payload) matches Some(p)
                    &&& payload::outgoing_models(out@) == passed_on(msg@.topic, p)
                    &&& final(self)@ == after_feeling(old(self)@, msg@.topic, p, now)
                },
                Err(e) => {
                    &&& e == FrameError::BadPayload
                    &&& payload::carried(reads(msg@.topic), msg@.payload) is None
                    &&& final(self)@ == old(self)@
                },
            },
    {
        let name = ops::chars_of(msg.topic.as_str());
        let t = name.as_slice();
        let read = ops::starts_with(t, "hand/") || ops::starts_with(t, "limb/") || ops::is_text(
            t,
            "skin/touch",
        );
        let p = match FrameCodec::decode_if(read, msg) {
            Ok(p) => p,
            Err(e) => {
                return Err(e);
            },
        };
        Ok(self.handle_message(&msg.topic, &p, now))
    }

    /// The topics that the skin listens to.
    pub fn subscriptions(&self) -> (r: Vec<String>)
        ensures
            model::texts(r@) == seq!["hand/*"@, "limb/*"@, "skin/touch"@, "sys/shutdown"@],
    {
        let out = payload::strings(&["hand/*", "limb/*", "skin/touch", "sys/shutdown"]);
        assert(model::texts(out@) =~= seq!["hand/*"@, "limb/*"@, "skin/touch"@, "sys/shutdown"@]);
        out
    }

    /// The topics that the skin speaks on.
    pub fn published_topics(&self) -> (r: Vec<String>)
        ensures
            model::texts(r@) == seq!["skin/touch"@, "skin/process_exit"@, "skin/memory_pressure"@],
    {
        let out = payload::strings(&["skin/touch", "skin/process_exit", "skin/memory_pressure"]);
        assert(model::texts(out@) =~= seq![
            "skin/touch"@,
            "skin/process_exit"@,
            "skin/memory_pressure"@,
        ]);
        out
    }
}

/// What hands and limbs have done is felt: it is reported with its tool and result, and a
/// failure is told once more on its own.
pub proof fn law_motion_is_reported(topic: Seq<char>, p: PayloadModel, tool: Seq<char>, text: Seq<char>)
    requires
        model::starts_with(topic, "hand/"@) || model::starts_with(topic, "limb/"@),
        payload::text_at(p, "tool_name"@) == Some(tool),
        payload::text_at(p, "output"@) == Some(text),
    ensures
        ({
            let out = passed_on(topic, p);
            let success = payload::flag_or(p, "success"@, true);
            &&& out.len() == if success {
                1int
            } else {
                2int
            }
            &&& out[0].topic == "skin/touch"@
            &&& payload::text_at(out[0].payload, "tool_name"@) == Some(tool)
            &&& payload::text_at(out[0].payload, "result"@) == Some(text)
            &&& payload::flag_or(out[0].payload, "success"@, !success) == success
            &&& payload::text_at(out[0].payload, "source_topic"@) == Some(topic)
            &&& !success ==> out[1].topic == "skin/process_exit"@ && payload::text_at(
                out[1].payload,
                "tool_name"@,
            ) == Some(tool) && !payload::flag_or(out[1].payload, "success"@, true)
        }),
{
    reveal_strlit("tool_name");
    reveal_strlit("result");
    reveal_strlit("success");
    reveal_strlit("source_topic");
    assert("tool_name"@.len() == 9 && "result"@.len() == 6 && "success"@.len() == 7 && "source_topic"@.len() == 12);
    let out = passed_on(topic, p);
    let q = out[0].payload;
    payload::law_field_is_read_by_name(q, 0);
    payload::law_field_is_read_by_name(q, 1);
    payload::law_field_is_read_by_name(q, 2);
    payload::law_field_is_read_by_name(q, 3);
    if !payload::flag_or(p, "success"@, true) {
        payload::law_field_is_read_by_name(out[1].payload, 0);
        payload::law_field_is_read_by_name(out[1].payload, 1);
    }
}

/// Whatever is felt is remembered, with the moment.
pub proof fn law_touch_is_remembered(
    m: SkinModel,
    topic: Seq<char>,
    p: PayloadModel,
    tool: Seq<char>,
    text: Seq<char>,
    now: u64,
)
    requires
        payload::text_at(p, "tool_name"@) == Some(tool),
        payload::text_at(p, "result"@) == Some(text),
        payload::text_at(p, "output"@) is None,
        model::starts_with(topic, "hand/"@) || model::starts_with(topic, "limb/"@) || topic
            == "skin/touch"@,
        m.memory.len() < 50,
    ensures
        after_feeling(m, topic, p, now).memory == m.memory.push(
            TouchModel {
                tool_name: tool,
                result: text,
                success: payload::flag_or(p, "success"@, true),
                timestamp: now,
            },
        ),
{
}

/// A touch is not passed on again, and what is not for the skin is not felt.
pub proof fn law_skin_feels_its_topics(m: SkinModel, topic: Seq<char>, p: PayloadModel, now: u64)
    requires
        !model::starts_with(topic, "hand/"@),
        !model::starts_with(topic, "limb/"@),
    ensures
        passed_on(topic, p).len() == 0,
        topic != "skin/touch"@ ==> after_feeling(m, topic, p, now) == m,
{
}

/// What a message carries is read exactly under the topics of the skin where it counts:
/// under every other topic the same follows, whatever the message carries.
pub proof fn law_fields_are_read_where_they_count(
    m: SkinModel,
    topic: Seq<char>,
    p: PayloadModel,
    q: PayloadModel,
    now: u64,
)
    ensures
        !reads(topic) ==> passed_on(topic, p) == passed_on(topic, q) && after_feeling(
            m,
            topic,
            p,
            now,
        ) == after_feeling(m, topic, q, now),
        reads(topic) <==> topic == "skin/touch"@ || model::starts_with(topic, "hand/"@)
            || model::starts_with(topic, "limb/"@),
{
}

} // verus!
