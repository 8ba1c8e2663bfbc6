//! The limb: runs commands, builds and git.
//!
//! The limb notes each request, remembers what it answered, tells the skin and
//! answers the agent that made the request.

use crate::message::frame::{FrameCodec, FrameError, Message};
use crate::message::topic::Topic;
use crate::node::hand;
use crate::node::payload;
use crate::node::payload::{Outgoing, OutgoingModel, Payload, PayloadModel};
use crate::node::{NodeId, NodeType};
use crate::text::text_map::TextMap;
use crate::text::{model, ops, text_map};
use vstd::prelude::*;
use vstd::string::*;

verus! {

/// The limb.
#[derive(Debug)]
pub struct LimbNode {
    id: NodeId,
    muscle_memory: TextMap<String>,
}

/// What the limb holds.
#[verifier::ext_equal]
pub struct LimbModel {
    pub id: Seq<char>,
    /// What each command was answered last.
    pub memory: Map<Seq<char>, Seq<char>>,
}

impl View for LimbNode {
    type V = LimbModel;

    closed spec fn view(&self) -> LimbModel {
        LimbModel { id: self.id@, memory: text_map::shown(self.muscle_memory@) }
    }
}

/// What a message asks of the limb: what the request is remembered by, and what
/// is answered.
pub open spec fn task_of(topic: Seq<char>, p: PayloadModel) -> Option<(Seq<char>, Seq<char>)> {
    if topic == "limb/execute"@ {
        let command = payload::text_or(p, "command"@, ""@);
        Some((command, "已记录命令执行请求："@ + command))
    } else if topic == "limb/build"@ {
        let target = payload::text_or(p, "target"@, ""@);
        Some(("build:"@ + target, "已记录构建请求："@ + target))
    } else if topic == "limb/git"@ {
        let action = payload::text_or(p, "action"@, ""@);
        Some(("git:"@ + action, "已记录 Git 操作请求："@ + action))
    } else {
        None
    }
}

/// Whether the limb reads what a message carries.
pub open spec fn reads(topic: Seq<char>) -> bool {
    topic == "limb/execute"@ || topic == "limb/build"@ || topic == "limb/git"@
}

/// What follows a message to the limb: the limb after it, and the messages to
/// send.
pub open spec fn worked(m: LimbModel, topic: Seq<char>, p: PayloadModel) -> (
    LimbModel,
    Seq<OutgoingModel>,
) {
    match task_of(topic, p) {
        Some((key, note)) => (
            LimbModel { memory: m.memory.insert(key, note), ..m },
            hand::feedback(
                topic,
                note,
                payload::text_or(p, "agent_id"@, ""@),
                payload::text_or(p, "request_id"@, ""@),
            ),
        ),
        None => (m, Seq::empty()),
    }
}

impl LimbNode {
    pub closed spec fn wf(&self) -> bool {
        self.muscle_memory.wf()
    }

    /// A limb that remembers nothing.
    pub fn new(id: NodeId) -> (r: Self)
        ensures
            r.wf(),
            r@ == (LimbModel { id: id@, memory: Map::empty() }),
    {
        let node = LimbNode { id: id, muscle_memory: TextMap::new() };
        assert(node@.memory =~= Map::empty());
        node
    }

    pub fn node_type(&self) -> (r: NodeType)
        ensures
            r == NodeType::Limb,
    {
        NodeType::Limb
    }

    pub fn node_id(&self) -> (r: &NodeId)
        ensures
            r@ == self@.id,
    {
        &self.id
    }

    /// What a message asks of the limb.
    fn task(topic: &Topic, p: &Payload) -> (r: Option<(String, String)>)
        ensures
            match r {
                Some(t) => task_of(topic@, p@) == Some((t.0@, t.1@)),
                None => task_of(topic@, p@) is None,
            },
    {
        let name = ops::chars_of(topic.as_str());
        let t = name.as_slice();
        if ops::is_text(t, "limb/execute") {
            let command = p.text_or("command", "");
            Some((String::from_str(command), ops::concat2("已记录命令执行请求：", command)))
        } else if ops::is_text(t, "limb/build") {
            let target = p.text_or("target", "");
            Some((ops::concat2("build:", target), ops::concat2("已记录构建请求：", target)))
        } else if ops::is_text(t, "limb/git") {
            let action = p.text_or("action", "");
            Some((ops::concat2("git:", action), ops::concat2("已记录 Git 操作请求：", action)))
        } else {
            None
        }
    }

    /// Takes in a message: remembers the request that it makes, if it makes one,
    /// and returns the messages to send.
    pub fn handle_message(&mut self, topic: &Topic, p: &Payload) -> (r: Vec<Outgoing>)
        requires
            old(self).wf(),
        ensures
            final(self).wf(),
            (final(self)@, payload::outgoing_models(r@)) == worked(old(self)@, topic@, p@),
    {
        match Self::task(topic, p) {
            Some((key, note)) => {
                let agent_id = p.text_or("agent_id", "");
                let request_id = p.text_or("request_id", "");
                let out = hand::give_feedback(
                    topic.as_str(),
                    note.as_str(),
                    agent_id,
                    request_id,
                );
                proof {
                    text_map::lemma_shown_insert(self.muscle_memory@, key@, note);
                }
                self.muscle_memory.insert(key, note);
                out
            },
            None => payload::nothing(),
        }
    }

    /// Takes in a message as it came. A message that cannot be read changes
    /// nothing.
    pub fn receive(&mut self, msg: &Message) -> (r: Result<Vec<Outgoing>, FrameError>)
        requires
            old(self).wf(),
        ensures
            final(self).wf(),
            match r {
                Ok(out) => {
                    &&& payload::carried(reads(msg@.topic), msg@.payload) matches Some(p)
                    &&& (final(self)@, payload::outgoing_models(out@)) == worked(
                        old(self)@,
                        msg@.topic,
                        p,
                    )
                },
                Err(e) => {
                    &&& e == FrameError::BadPayload
                    &&& payload::carried(reads(msg@.topic), msg@.payload) is None
                    &&& final(self)@ == old(self)@
                },
            },
    {
        let topic = msg.topic.as_str();
        let read = ops::same_text(topic, "limb/execute") || ops::same_text(topic, "limb/build")
            || ops::same_text(topic, "limb/git");
        let p = match FrameCodec::decode_if(read, msg) {
            Ok(p) => p,
            Err(e) => {
                return Err(e);
            },
        };
        Ok(self.handle_message(&msg.topic, &p))
    }

    /// The topics that the limb listens to.
    pub fn subscriptions(&self) -> (r: Vec<String>)
        ensures
            model::texts(r@) == seq!["limb/execute"@, "limb/build"@, "limb/git"@, "sys/shutdown"@],
    {
        let list = ["limb/execute", "limb/build", "limb/git", "sys/shutdown"];
        let out = payload::strings(&list);
        assert(model::texts(out@) =~= seq![
            "limb/execute"@,
            "limb/build"@,
            "limb/git"@,
            "sys/shutdown"@,
        ]);
        out
    }

    /// The topics that the limb speaks on.
    pub fn published_topics(&self) -> (r: Vec<String>)
        ensures
            model::texts(r@) == seq!["skin/touch"@, "agent/*/tool_result"@],
    {
        let list = ["skin/touch", "agent/*/tool_result"];
        let out = payload::strings(&list);
        assert(model::texts(out@) =~= seq!["skin/touch"@, "agent/*/tool_result"@]);
        out
    }
}

/// What a limb is asked to do is remembered by the command, the build or the action, and
/// answered with the same words.
pub proof fn law_tasks_are_remembered(m: LimbModel, p: PayloadModel, object: Seq<char>)
    ensures
        payload::text_at(p, "command"@) == Some(object) ==> worked(m, "limb/execute"@, p).0.memory
            == m.memory.insert(object, "已记录命令执行请求："@ + object),
        payload::text_at(p, "target"@) == Some(object) ==> worked(m, "limb/build"@, p).0.memory
            == m.memory.insert("build:"@ + object, "已记录构建请求："@ + object),
        payload::text_at(p, "action"@) == Some(object) ==> worked(m, "limb/git"@, p).0.memory
            == m.memory.insert("git:"@ + object, "已记录 Git 操作请求："@ + object),
        payload::text_at(p, "command"@) == Some(object) ==> worked(m, "limb/execute"@, p).1
            == hand::feedback(
            "limb/execute"@,
            "已记录命令执行请求："@ + object,
            payload::text_or(p, "agent_id"@, ""@),
            payload::text_or(p, "request_id"@, ""@),
        ),
        payload::text_at(p, "target"@) == Some(object) ==> worked(m, "limb/build"@, p).1
            == hand::feedback(
            "limb/build"@,
            "已记录构建请求："@ + object,
            payload::text_or(p, "agent_id"@, ""@),
            payload::text_or(p, "request_id"@, ""@),
        ),
        payload::text_at(p, "action"@) == Some(object) ==> worked(m, "limb/git"@, p).1
            == hand::feedback(
            "limb/git"@,
            "已记录 Git 操作请求："@ + object,
            payload::text_or(p, "agent_id"@, ""@),
            payload::text_or(p, "request_id"@, ""@),
        ),
{
    reveal_strlit("limb/execute");
    reveal_strlit("limb/build");
    reveal_strlit("limb/git");
    assert("limb/execute"@.len() == 12 && "limb/build"@.len() == 10 && "limb/git"@.len() == 8);
}

/// What is not for a limb changes nothing.
pub proof fn law_limb_has_its_topics(m: LimbModel, topic: Seq<char>, p: PayloadModel)
    requires
        topic != "limb/execute"@,
        topic != "limb/build"@,
        topic != "limb/git"@,
    ensures
        worked(m, topic, p) == (m, Seq::<OutgoingModel>::empty()),
        !reads(topic),
{
}

/// What a message carries is read exactly under the topics of the limb where it counts: under
/// every other topic the same follows, whatever the message carries.
pub proof fn law_fields_are_read_where_they_count(
    m: LimbModel,
    topic: Seq<char>,
    p: PayloadModel,
    q: PayloadModel,
)
    ensures
        !reads(topic) ==> worked(m, topic, p) == worked(m, topic, q),
        reads(topic) <==> topic == "limb/execute"@ || topic == "limb/build"@ || topic == "limb/git"@,
{
}

} // verus!
