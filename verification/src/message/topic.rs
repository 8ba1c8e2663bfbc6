//! Topics and the patterns that subscribe to them.
//!
//! A topic is a list of segments separated by `/`. In a pattern, `*` stands for
//! any one segment and `**` for any number of segments.

use crate::text::{lemmas, model, ops};
use vstd::prelude::*;
use vstd::slice::slice_subrange;
use vstd::string::*;

verus! {

/// The most segments that a topic or a pattern may have to be matched, and the
/// most steps that matching may take.
pub const MAX_TOPIC_DEPTH: usize = 100;

/// The most bytes that a segment of a topic should have.
pub const MAX_SEGMENT_LENGTH: usize = 100;

/// Where a message is sent.
#[derive(Debug, PartialEq, Eq, Hash)]
pub struct Topic(pub String);

/// A pattern of topics.
#[derive(Debug, PartialEq, Eq, Hash)]
pub struct TopicPattern(pub String);

impl View for Topic {
    type V = Seq<char>;

    open spec fn view(&self) -> Seq<char> {
        self.0@
    }
}

impl View for TopicPattern {
    type V = Seq<char>;

    open spec fn view(&self) -> Seq<char> {
        self.0@
    }
}

impl Clone for Topic {
    fn clone(&self) -> (r: Self)
        ensures
            r@ == self@,
    {
        Topic(self.0.clone())
    }
}

impl Clone for TopicPattern {
    fn clone(&self) -> (r: Self)
        ensures
            r@ == self@,
    {
        TopicPattern(self.0.clone())
    }
}

/// The segments of a topic or a pattern.
pub open spec fn segments(s: Seq<char>) -> Seq<Seq<char>> {
    model::split(s, "/"@)
}

/// A topic as it should be: it is not empty and no segment is too long.
pub open spec fn well_formed(s: Seq<char>) -> bool {
    &&& s.len() > 0
    &&& forall|i: int|
        0 <= i < segments(s).len() ==> model::byte_len(#[trigger] segments(s)[i])
            <= MAX_SEGMENT_LENGTH
}

/// Whether the segments of a pattern match those of a topic, where `depth`
/// steps have been taken. A `**` is matched with nothing, or takes one segment
/// and stays.
pub open spec fn parts_match(p: Seq<Seq<char>>, t: Seq<Seq<char>>, depth: nat) -> bool
    decreases p.len() + t.len(),
{
    if depth > MAX_TOPIC_DEPTH {
        false
    } else if p.len() == 0 {
        t.len() == 0
    } else if p[0] == "**"@ {
        parts_match(p.skip(1), t, depth + 1) || (t.len() > 0 && parts_match(
            p,
            t.skip(1),
            depth + 1,
        ))
    } else {
        t.len() > 0 && (p[0] == "*"@ || p[0] == t[0]) && parts_match(
            p.skip(1),
            t.skip(1),
            depth + 1,
        )
    }
}

/// Whether a topic matches a pattern.
pub open spec fn pattern_matches(pattern: Seq<char>, topic: Seq<char>) -> bool {
    &&& segments(pattern).len() <= MAX_TOPIC_DEPTH
    &&& segments(topic).len() <= MAX_TOPIC_DEPTH
    &&& parts_match(segments(pattern), segments(topic), 0)
}

/// Whether a topic matches a pattern.
pub fn topic_matches(pattern: &str, topic: &str) -> (r: bool)
    ensures
        r == pattern_matches(pattern@, topic@),
{
    proof {
        reveal_strlit("/");
    }
    let pattern_chars = ops::chars_of(pattern);
    let topic_chars = ops::chars_of(topic);
    let p = ops::split(pattern_chars.as_slice(), "/");
    let t = ops::split(topic_chars.as_slice(), "/");
    assert(model::slices(p@).len() == p@.len());
    assert(model::slices(t@).len() == t@.len());
    if p.len() > MAX_TOPIC_DEPTH || t.len() > MAX_TOPIC_DEPTH {
        return false;
    }
    match_parts(p.as_slice(), t.as_slice(), 0)
}

/// Whether the segments of a pattern match those of a topic, where `depth`
/// steps have been taken.
fn match_parts(pattern: &[&[char]], topic: &[&[char]], depth: usize) -> (r: bool)
    requires
        depth <= MAX_TOPIC_DEPTH + 1,
    ensures
        r == parts_match(model::slices(pattern@), model::slices(topic@), depth as nat),
    decreases pattern@.len() + topic@.len(),
{
    let ghost p = model::slices(pattern@);
    let ghost t = model::slices(topic@);
    if depth > MAX_TOPIC_DEPTH {
        return false;
    }
    if pattern.len() == 0 {
        return topic.len() == 0;
    }
    assert(p[0] == pattern@[0]@);
    let rest = slice_subrange(pattern, 1, pattern.len());
    assert(model::slices(rest@) =~= p.skip(1));
    if ops::is_text(pattern[0], "**") {
        if match_parts(rest, topic, depth + 1) {
            return true;
        }
        if topic.len() == 0 {
            return false;
        }
        let tail = slice_subrange(topic, 1, topic.len());
        assert(model::slices(tail@) =~= t.skip(1));
        return match_parts(pattern, tail, depth + 1);
    }
    if topic.len() == 0 {
        return false;
    }
    assert(t[0] == topic@[0]@);
    let tail = slice_subrange(topic, 1, topic.len());
    assert(model::slices(tail@) =~= t.skip(1));
    (ops::is_text(pattern[0], "*") || ops::same(pattern[0], topic[0])) && match_parts(
        rest,
        tail,
        depth + 1,
    )
}

impl TopicPattern {
    /// The pattern that the text denotes.
    pub fn new(pattern: &str) -> (r: Self)
        ensures
            r@ == pattern@,
    {
        TopicPattern(String::from_str(pattern))
    }

    /// The output of every agent.
    pub fn all_agent_outputs() -> (r: Self)
        ensures
            r@ == "agent/*/output"@,
    {
        Self::new("agent/*/output")
    }

    /// Every message of an agent.
    pub fn agent_all(agent_id: &str) -> (r: Self)
        ensures
            r@ == "agent/"@ + agent_id@ + "/*"@,
    {
        TopicPattern(ops::concat3("agent/", agent_id, "/*"))
    }

    /// Every stream of the sampler.
    pub fn all_sampler_streams() -> (r: Self)
        ensures
            r@ == "sampler/*/stream"@,
    {
        Self::new("sampler/*/stream")
    }

    /// Every request for permission.
    pub fn all_agent_permissions() -> (r: Self)
        ensures
            r@ == "agent/*/permission"@,
    {
        Self::new("agent/*/permission")
    }

    /// Every request that an agent stop.
    pub fn all_agent_cancels() -> (r: Self)
        ensures
            r@ == "agent/*/cancel"@,
    {
        Self::new("agent/*/cancel")
    }

    /// Whether a topic matches the pattern.
    pub fn matches(&self, topic: &Topic) -> (r: bool)
        ensures
            r == pattern_matches(self@, topic@),
    {
        topic_matches(self.0.as_str(), topic.as_str())
    }
}

impl Topic {
    /// The topic that the text denotes.
    pub fn new(topic: &str) -> (r: Self)
        ensures
            r@ == topic@,
    {
        Topic(String::from_str(topic))
    }

    /// The topic as text.
    pub fn as_str(&self) -> (r: &str)
        ensures
            r@ == self@,
    {
        self.0.as_str()
    }

    /// Whether the topic is as it should be: not empty, no segment too long.
    pub fn is_well_formed(&self) -> (r: bool)
        ensures
            r == well_formed(self@),
    {
        proof {
            reveal_strlit("/");
        }
        let chars = ops::chars_of(self.0.as_str());
        let parts = ops::split(chars.as_slice(), "/");
        let ghost all = segments(self@);
        if chars.len() == 0 {
            return false;
        }
        let mut i: usize = 0;
        while i < parts.len()
            invariant
                i <= parts@.len(),
                all == model::slices(parts@),
                all == segments(self@),
                forall|j: int|
                    0 <= j < i ==> model::byte_len(#[trigger] all[j]) <= MAX_SEGMENT_LENGTH,
            decreases parts@.len() - i,
        {
            assert(all[i as int] == parts@[i as int]@);
            if ops::byte_len(parts[i]) > MAX_SEGMENT_LENGTH {
                return false;
            }
            i = i + 1;
        }
        true
    }

    /// Nodes tell the kernel that they are alive.
    pub fn sys_heartbeat() -> (r: Self)
        ensures
            r@ == "sys/heartbeat"@,
    {
        Self::new("sys/heartbeat")
    }

    /// A node registers.
    pub fn sys_register() -> (r: Self)
        ensures
            r@ == "sys/register"@,
    {
        Self::new("sys/register")
    }

    /// A node leaves.
    pub fn sys_deregister() -> (r: Self)
        ensures
            r@ == "sys/deregister"@,
    {
        Self::new("sys/deregister")
    }

    /// The kernel announces a new node.
    pub fn sys_spawn() -> (r: Self)
        ensures
            r@ == "sys/spawn"@,
    {
        Self::new("sys/spawn")
    }

    /// The kernel announces that everything stops.
    pub fn sys_shutdown() -> (r: Self)
        ensures
            r@ == "sys/shutdown"@,
    {
        Self::new("sys/shutdown")
    }

    /// The kernel tells subscribers of a new publisher.
    pub fn sys_publisher_change() -> (r: Self)
        ensures
            r@ == "sys/publisher_change"@,
    {
        Self::new("sys/publisher_change")
    }

    /// Acknowledgement of a message.
    pub fn sys_ack() -> (r: Self)
        ensures
            r@ == "sys/ack"@,
    {
        Self::new("sys/ack")
    }

    /// An agent asks the sampler.
    pub fn sampler_request() -> (r: Self)
        ensures
            r@ == "sampler/request"@,
    {
        Self::new("sampler/request")
    }

    /// Asks for the state of a conversation.
    pub fn state_query() -> (r: Self)
        ensures
            r@ == "state/query"@,
    {
        Self::new("state/query")
    }

    /// Answers a question for the state.
    pub fn state_response() -> (r: Self)
        ensures
            r@ == "state/response"@,
    {
        Self::new("state/response")
    }

    /// Asks for a conversation to be kept.
    pub fn state_persist() -> (r: Self)
        ensures
            r@ == "state/persist"@,
    {
        Self::new("state/persist")
    }

    /// Asks for a conversation to be compacted.
    pub fn state_compact() -> (r: Self)
        ensures
            r@ == "state/compact"@,
    {
        Self::new("state/compact")
    }

    /// A tool registers.
    pub fn tool_register() -> (r: Self)
        ensures
            r@ == "tool/register"@,
    {
        Self::new("tool/register")
    }

    /// The eye observes.
    pub fn eye_observe() -> (r: Self)
        ensures
            r@ == "eye/observe"@,
    {
        Self::new("eye/observe")
    }

    /// A file has changed.
    pub fn eye_file_changed() -> (r: Self)
        ensures
            r@ == "eye/file_changed"@,
    {
        Self::new("eye/file_changed")
    }

    /// Output of a terminal.
    pub fn eye_terminal_output() -> (r: Self)
        ensures
            r@ == "eye/terminal_output"@,
    {
        Self::new("eye/terminal_output")
    }

    /// The user has said something.
    pub fn ear_hear() -> (r: Self)
        ensures
            r@ == "ear/hear"@,
    {
        Self::new("ear/hear")
    }

    /// A notification of the system.
    pub fn ear_notification() -> (r: Self)
        ensures
            r@ == "ear/notification"@,
    {
        Self::new("ear/notification")
    }

    /// The nose has smelled something.
    pub fn nose_smell() -> (r: Self)
        ensures
            r@ == "nose/smell"@,
    {
        Self::new("nose/smell")
    }

    /// A compilation has failed.
    pub fn nose_compile_error() -> (r: Self)
        ensures
            r@ == "nose/compile_error"@,
    {
        Self::new("nose/compile_error")
    }

    /// A test has failed.
    pub fn nose_test_failure() -> (r: Self)
        ensures
            r@ == "nose/test_failure"@,
    {
        Self::new("nose/test_failure")
    }

    /// A tool has come back.
    pub fn skin_touch() -> (r: Self)
        ensures
            r@ == "skin/touch"@,
    {
        Self::new("skin/touch")
    }

    /// A process has ended.
    pub fn skin_process_exit() -> (r: Self)
        ensures
            r@ == "skin/process_exit"@,
    {
        Self::new("skin/process_exit")
    }

    /// Memory is short.
    pub fn skin_memory_pressure() -> (r: Self)
        ensures
            r@ == "skin/memory_pressure"@,
    {
        Self::new("skin/memory_pressure")
    }

    /// The mouth speaks.
    pub fn mouth_speak() -> (r: Self)
        ensures
            r@ == "mouth/speak"@,
    {
        Self::new("mouth/speak")
    }

    /// Code is to be written.
    pub fn mouth_code_write() -> (r: Self)
        ensures
            r@ == "mouth/code_write"@,
    {
        Self::new("mouth/code_write")
    }

    /// A report of the status.
    pub fn mouth_status() -> (r: Self)
        ensures
            r@ == "mouth/status"@,
    {
        Self::new("mouth/status")
    }

    /// An edit.
    pub fn hand_edit() -> (r: Self)
        ensures
            r@ == "hand/edit"@,
    {
        Self::new("hand/edit")
    }

    /// A search.
    pub fn hand_search() -> (r: Self)
        ensures
            r@ == "hand/search"@,
    {
        Self::new("hand/search")
    }

    /// A restructuring.
    pub fn hand_restructure() -> (r: Self)
        ensures
            r@ == "hand/restructure"@,
    {
        Self::new("hand/restructure")
    }

    /// A command.
    pub fn limb_execute() -> (r: Self)
        ensures
            r@ == "limb/execute"@,
    {
        Self::new("limb/execute")
    }

    /// A build.
    pub fn limb_build() -> (r: Self)
        ensures
            r@ == "limb/build"@,
    {
        Self::new("limb/build")
    }

    /// A command for git.
    pub fn limb_git() -> (r: Self)
        ensures
            r@ == "limb/git"@,
    {
        Self::new("limb/git")
    }

    /// Sets a parameter.
    pub fn param_set() -> (r: Self)
        ensures
            r@ == "param/set"@,
    {
        Self::new("param/set")
    }

    /// Asks for a parameter.
    pub fn param_get() -> (r: Self)
        ensures
            r@ == "param/get"@,
    {
        Self::new("param/get")
    }

    /// A parameter has changed.
    pub fn param_changed() -> (r: Self)
        ensures
            r@ == "param/changed"@,
    {
        Self::new("param/changed")
    }

    /// Input for an agent.
    pub fn agent_input(agent_id: &str) -> (r: Self)
        ensures
            r@ == "agent/"@ + agent_id@ + "/input"@,
    {
        Topic(ops::concat3("agent/", agent_id, "/input"))
    }

    /// The output of an agent.
    pub fn agent_output(agent_id: &str) -> (r: Self)
        ensures
            r@ == "agent/"@ + agent_id@ + "/output"@,
    {
        Topic(ops::concat3("agent/", agent_id, "/output"))
    }

    /// An agent calls a tool.
    pub fn agent_tool_call(agent_id: &str) -> (r: Self)
        ensures
            r@ == "agent/"@ + agent_id@ + "/tool_call"@,
    {
        Topic(ops::concat3("agent/", agent_id, "/tool_call"))
    }

    /// A tool's result for an agent.
    pub fn agent_tool_result(agent_id: &str) -> (r: Self)
        ensures
            r@ == "agent/"@ + agent_id@ + "/tool_result"@,
    {
        Topic(ops::concat3("agent/", agent_id, "/tool_result"))
    }

    /// An agent asks for a subagent.
    pub fn agent_spawn(agent_id: &str) -> (r: Self)
        ensures
            r@ == "agent/"@ + agent_id@ + "/spawn"@,
    {
        Topic(ops::concat3("agent/", agent_id, "/spawn"))
    }

    /// What has become of an agent.
    pub fn agent_event(agent_id: &str) -> (r: Self)
        ensures
            r@ == "agent/"@ + agent_id@ + "/event"@,
    {
        Topic(ops::concat3("agent/", agent_id, "/event"))
    }

    /// An agent asks for permission.
    pub fn agent_permission(agent_id: &str) -> (r: Self)
        ensures
            r@ == "agent/"@ + agent_id@ + "/permission"@,
    {
        Topic(ops::concat3("agent/", agent_id, "/permission"))
    }

    /// An agent is to stop.
    pub fn agent_cancel(agent_id: &str) -> (r: Self)
        ensures
            r@ == "agent/"@ + agent_id@ + "/cancel"@,
    {
        Topic(ops::concat3("agent/", agent_id, "/cancel"))
    }

    /// A task for a subagent.
    pub fn subagent_task(subagent_id: &str) -> (r: Self)
        ensures
            r@ == "subagent/"@ + subagent_id@ + "/task"@,
    {
        Topic(ops::concat3("subagent/", subagent_id, "/task"))
    }

    /// The output of a subagent.
    pub fn subagent_output(subagent_id: &str) -> (r: Self)
        ensures
            r@ == "subagent/"@ + subagent_id@ + "/output"@,
    {
        Topic(ops::concat3("subagent/", subagent_id, "/output"))
    }

    /// A subagent calls a tool.
    pub fn subagent_tool_call(subagent_id: &str) -> (r: Self)
        ensures
            r@ == "subagent/"@ + subagent_id@ + "/tool_call"@,
    {
        Topic(ops::concat3("subagent/", subagent_id, "/tool_call"))
    }

    /// A tool's result for a subagent.
    pub fn subagent_tool_result(subagent_id: &str) -> (r: Self)
        ensures
            r@ == "subagent/"@ + subagent_id@ + "/tool_result"@,
    {
        Topic(ops::concat3("subagent/", subagent_id, "/tool_result"))
    }

    /// A subagent has finished.
    pub fn subagent_completed(subagent_id: &str) -> (r: Self)
        ensures
            r@ == "subagent/"@ + subagent_id@ + "/completed"@,
    {
        Topic(ops::concat3("subagent/", subagent_id, "/completed"))
    }

    /// A subagent has failed.
    pub fn subagent_crashed(subagent_id: &str) -> (r: Self)
        ensures
            r@ == "subagent/"@ + subagent_id@ + "/crashed"@,
    {
        Topic(ops::concat3("subagent/", subagent_id, "/crashed"))
    }

    /// The sampler's stream for a request.
    pub fn sampler_stream(request_id: &str) -> (r: Self)
        ensures
            r@ == "sampler/"@ + request_id@ + "/stream"@,
    {
        Topic(ops::concat3("sampler/", request_id, "/stream"))
    }

    /// A request to the sampler is to stop.
    pub fn sampler_cancel(request_id: &str) -> (r: Self)
        ensures
            r@ == "sampler/"@ + request_id@ + "/cancel"@,
    {
        Topic(ops::concat3("sampler/", request_id, "/cancel"))
    }

    /// A request to a service.
    pub fn service_request(service_name: &str) -> (r: Self)
        ensures
            r@ == "service/"@ + service_name@ + "/request"@,
    {
        Topic(ops::concat3("service/", service_name, "/request"))
    }

    /// A response of a service.
    pub fn service_response(service_name: &str) -> (r: Self)
        ensures
            r@ == "service/"@ + service_name@ + "/response"@,
    {
        Topic(ops::concat3("service/", service_name, "/response"))
    }

    /// The thinker is to think.
    pub fn cortex_think(agent_id: &str) -> (r: Self)
        ensures
            r@ == "cortex/"@ + agent_id@ + "/think"@,
    {
        Topic(ops::concat3("cortex/", agent_id, "/think"))
    }

    /// The thinker is to plan.
    pub fn cortex_plan(agent_id: &str) -> (r: Self)
        ensures
            r@ == "cortex/"@ + agent_id@ + "/plan"@,
    {
        Topic(ops::concat3("cortex/", agent_id, "/plan"))
    }

    /// The thinker is to decide.
    pub fn cortex_decide(agent_id: &str) -> (r: Self)
        ensures
            r@ == "cortex/"@ + agent_id@ + "/decide"@,
    {
        Topic(ops::concat3("cortex/", agent_id, "/decide"))
    }

    /// What the senses have taken in.
    pub fn cortex_sensory(agent_id: &str) -> (r: Self)
        ensures
            r@ == "cortex/"@ + agent_id@ + "/sensory"@,
    {
        Topic(ops::concat3("cortex/", agent_id, "/sensory"))
    }

    /// Input for the thinker.
    pub fn cortex_input(agent_id: &str) -> (r: Self)
        ensures
            r@ == "cortex/"@ + agent_id@ + "/input"@,
    {
        Topic(ops::concat3("cortex/", agent_id, "/input"))
    }

    /// What the mouth is to say.
    pub fn cortex_speak(agent_id: &str) -> (r: Self)
        ensures
            r@ == "cortex/"@ + agent_id@ + "/speak"@,
    {
        Topic(ops::concat3("cortex/", agent_id, "/speak"))
    }
}

/// A segment of a pattern that stands for itself.
pub open spec fn is_plain(seg: Seq<char>) -> bool {
    seg != "*"@ && seg != "**"@
}

/// The topic has as many segments as the pattern, and each segment of the
/// pattern is `*` or the topic's own.
pub open spec fn fits(p: Seq<Seq<char>>, t: Seq<Seq<char>>) -> bool {
    &&& p.len() == t.len()
    &&& forall|i: int| 0 <= i < p.len() ==> #[trigger] p[i] == "*"@ || p[i] == t[i]
}

proof fn lemma_fits(p: Seq<Seq<char>>, t: Seq<Seq<char>>, depth: nat)
    requires
        depth + p.len() <= MAX_TOPIC_DEPTH,
        forall|i: int| 0 <= i < p.len() ==> #[trigger] p[i] != "**"@,
    ensures
        parts_match(p, t, depth) <==> fits(p, t),
    decreases p.len(),
{
    if p.len() > 0 && t.len() > 0 {
        let q = p.skip(1);
        let u = t.skip(1);
        assert forall|i: int| 0 <= i < q.len() implies #[trigger] q[i] != "**"@ by {
            assert(q[i] == p[i + 1]);
        }
        lemma_fits(q, u, depth + 1);
        assert(p[0] != "**"@);
        if fits(p, t) {
            assert forall|i: int| 0 <= i < q.len() implies #[trigger] q[i] == "*"@ || q[i]
                == u[i] by {
                assert(q[i] == p[i + 1]);
                assert(u[i] == t[i + 1]);
            }
            assert(p[0] == "*"@ || p[0] == t[0]);
        }
        if fits(q, u) && (p[0] == "*"@ || p[0] == t[0]) {
            assert forall|i: int| 0 <= i < p.len() implies #[trigger] p[i] == "*"@ || p[i]
                == t[i] by {
                if i > 0 {
                    assert(p[i] == q[i - 1]);
                    assert(t[i] == u[i - 1]);
                }
            }
        }
    } else if p.len() > 0 {
        assert(p[0] != "**"@);
    }
}

/// `*` stands for exactly one segment: a pattern without `**`, of at most a
/// hundred segments, matches the topics that have as many segments as it and
/// agree with it wherever it has no `*`.
pub proof fn law_star_is_one_segment(pattern: Seq<char>, topic: Seq<char>)
    requires
        segments(pattern).len() <= MAX_TOPIC_DEPTH,
        forall|i: int|
            0 <= i < segments(pattern).len() ==> #[trigger] segments(pattern)[i] != "**"@,
    ensures
        pattern_matches(pattern, topic) <==> fits(segments(pattern), segments(topic)),
{
    lemma_fits(segments(pattern), segments(topic), 0);
}

/// A pattern without wildcards, of at most a hundred segments, matches itself
/// and no other topic.
pub proof fn law_plain_pattern_is_exact(pattern: Seq<char>, topic: Seq<char>)
    requires
        segments(pattern).len() <= MAX_TOPIC_DEPTH,
        forall|i: int| 0 <= i < segments(pattern).len() ==> is_plain(#[trigger] segments(pattern)[i]),
    ensures
        pattern_matches(pattern, topic) <==> pattern == topic,
{
    reveal_strlit("/");
    let p = segments(pattern);
    let t = segments(topic);
    assert forall|i: int| 0 <= i < p.len() implies #[trigger] p[i] != "**"@ by {
        assert(is_plain(p[i]));
    }
    lemma_fits(p, t, 0);
    if fits(p, t) {
        assert forall|i: int| 0 <= i < p.len() implies p[i] == t[i] by {
            assert(is_plain(p[i]));
        }
        assert(p =~= t);
        lemmas::lemma_join_split(pattern, "/"@);
        lemmas::lemma_join_split(topic, "/"@);
    }
}

proof fn lemma_double_star(rest: Seq<Seq<char>>, depth: nat)
    requires
        depth + rest.len() < MAX_TOPIC_DEPTH,
    ensures
        parts_match(seq!["**"@], rest, depth),
    decreases rest.len(),
{
    let p = seq!["**"@];
    assert(p.skip(1) =~= Seq::<Seq<char>>::empty());
    if rest.len() == 0 {
        assert(parts_match(p.skip(1), rest, depth + 1));
    } else {
        lemma_double_star(rest.skip(1), depth + 1);
    }
}

proof fn lemma_tail_star(pre: Seq<Seq<char>>, rest: Seq<Seq<char>>, depth: nat)
    requires
        depth + pre.len() + rest.len() < MAX_TOPIC_DEPTH,
        forall|i: int| 0 <= i < pre.len() ==> #[trigger] pre[i] != "**"@,
    ensures
        parts_match(pre.push("**"@), pre + rest, depth),
    decreases pre.len(),
{
    let p = pre.push("**"@);
    let t = pre + rest;
    if pre.len() == 0 {
        assert(p =~= seq!["**"@]);
        assert(t =~= rest);
        lemma_double_star(rest, depth);
    } else {
        let q = pre.skip(1);
        assert forall|i: int| 0 <= i < q.len() implies #[trigger] q[i] != "**"@ by {
            assert(q[i] == pre[i + 1]);
        }
        lemma_tail_star(q, rest, depth + 1);
        assert(p.skip(1) =~= q.push("**"@));
        assert(t.skip(1) =~= q + rest);
        assert(p[0] == pre[0] && t[0] == pre[0]);
    }
}

/// `**` at the end of a pattern stands for any number of segments, none among
/// them: the pattern matches every topic, of fewer than a hundred segments,
/// that begins with the segments before it.
pub proof fn law_double_star_is_any_tail(
    pattern: Seq<char>,
    topic: Seq<char>,
    pre: Seq<Seq<char>>,
    rest: Seq<Seq<char>>,
)
    requires
        segments(pattern) == pre.push("**"@),
        segments(topic) == pre + rest,
        pre.len() + rest.len() < MAX_TOPIC_DEPTH,
        forall|i: int| 0 <= i < pre.len() ==> #[trigger] pre[i] != "**"@,
    ensures
        pattern_matches(pattern, topic),
{
    lemma_tail_star(pre, rest, 0);
}

/// The segments of a topic that has an identifier in its middle.
proof fn lemma_three_segments(a: Seq<char>, id: Seq<char>, b: Seq<char>)
    requires
        !a.contains('/'),
        !id.contains('/'),
        !b.contains('/'),
    ensures
        segments(a + "/"@ + id + "/"@ + b) == seq![a, id, b],
{
    reveal_strlit("/");
    let c = '/';
    assert("/"@ =~= seq![c]);
    lemmas::lemma_split_single(b, c);
    lemmas::lemma_split_first(id, c, b);
    lemmas::lemma_split_first(a, c, id + seq![c] + b);
    assert(a + "/"@ + id + "/"@ + b =~= a + seq![c] + (id + seq![c] + b));
    assert(seq![a] + (seq![id] + seq![b]) =~= seq![a, id, b]);
}

/// A topic whose identifier has a separator in it has more than three segments.
proof fn lemma_more_segments(a: Seq<char>, id: Seq<char>, b: Seq<char>)
    requires
        !a.contains('/'),
        id.contains('/'),
    ensures
        segments(a + "/"@ + id + "/"@ + b).len() > 3,
{
    reveal_strlit("/");
    let c = '/';
    assert("/"@ =~= seq![c]);
    let rest = id + seq![c] + b;
    lemmas::lemma_split_first(a, c, rest);
    assert(a + "/"@ + id + "/"@ + b =~= a + seq![c] + rest);
    let k = first_index(id, c, 0);
    lemma_first_index(id, c, 0);
    let x = id.take(k);
    let y = id.skip(k + 1) + seq![c] + b;
    assert(!x.contains(c));
    assert(rest =~= x + seq![c] + y);
    lemmas::lemma_split_first(x, c, y);
    lemma_split_two(id.skip(k + 1), c, b);
}

spec fn first_index(s: Seq<char>, c: char, i: int) -> int
    decreases s.len() - i,
{
    if i < 0 || i >= s.len() || s[i] == c {
        i
    } else {
        first_index(s, c, i + 1)
    }
}

proof fn lemma_first_index(s: Seq<char>, c: char, i: int)
    requires
        s.contains(c),
        0 <= i <= s.len(),
        forall|j: int| 0 <= j < i ==> s[j] != c,
    ensures
        0 <= first_index(s, c, i) < s.len(),
        s[first_index(s, c, i)] == c,
        forall|j: int| 0 <= j < first_index(s, c, i) ==> s[j] != c,
    decreases s.len() - i,
{
    let w = choose|w: int| 0 <= w < s.len() && s[w] == c;
    if i < s.len() && s[i] != c {
        lemma_first_index(s, c, i + 1);
    }
}

/// A text with a separator in it has at least two pieces.
proof fn lemma_split_two(a: Seq<char>, c: char, b: Seq<char>)
    ensures
        model::split(a + seq![c] + b, seq![c]).len() >= 2,
{
    let s = a + seq![c] + b;
    assert(s[a.len() as int] == c);
    assert(s.contains(c));
    let k = first_index(s, c, 0);
    lemma_first_index(s, c, 0);
    let x = s.take(k);
    let y = s.skip(k + 1);
    assert(!x.contains(c));
    assert(s =~= x + seq![c] + y);
    lemmas::lemma_split_first(x, c, y);
    lemmas::lemma_join_split(y, seq![c]);
}

/// A pattern with `*` in its middle matches a topic with an identifier in its
/// place, unless the identifier has a `/` in it.
proof fn lemma_middle_matched(a: Seq<char>, id: Seq<char>, b: Seq<char>)
    requires
        !a.contains('/'),
        !b.contains('/'),
        a != "**"@,
        b != "**"@,
    ensures
        pattern_matches(a + "/"@ + "*"@ + "/"@ + b, a + "/"@ + id + "/"@ + b) <==> !id.contains('/'),
{
    reveal_strlit("*");
    reveal_strlit("**");
    assert(!"*"@.contains('/'));
    lemma_three_segments(a, "*"@, b);
    let p = seq![a, "*"@, b];
    if id.contains('/') {
        lemma_more_segments(a, id, b);
        lemma_fits(p, segments(a + "/"@ + id + "/"@ + b), 0);
    } else {
        lemma_three_segments(a, id, b);
        lemma_fits(p, seq![a, id, b], 0);
        assert(fits(p, seq![a, id, b]));
    }
}

/// The pattern of all agents' outputs matches the output of an agent, unless
/// the agent's identifier has a `/` in it.
pub proof fn law_agent_outputs_are_matched(agent_id: Seq<char>)
    ensures
        pattern_matches("agent/*/output"@, "agent/"@ + agent_id + "/output"@)
            <==> !agent_id.contains('/'),
{
    reveal_strlit("agent/*/output");
    reveal_strlit("agent/");
    reveal_strlit("/output");
    reveal_strlit("agent");
    reveal_strlit("output");
    reveal_strlit("/");
    reveal_strlit("*");
    reveal_strlit("**");
    lemma_middle_matched("agent"@, agent_id, "output"@);
    assert("agent/*/output"@ =~= "agent"@ + "/"@ + "*"@ + "/"@ + "output"@);
    assert("agent/"@ + agent_id + "/output"@ =~= "agent"@ + "/"@ + agent_id + "/"@ + "output"@);
}

/// The pattern of all agents' requests for permission matches such a request of
/// an agent, unless the agent's identifier has a `/` in it.
pub proof fn law_agent_permissions_are_matched(agent_id: Seq<char>)
    ensures
        pattern_matches("agent/*/permission"@, "agent/"@ + agent_id + "/permission"@)
            <==> !agent_id.contains('/'),
{
    reveal_strlit("agent/*/permission");
    reveal_strlit("agent/");
    reveal_strlit("/permission");
    reveal_strlit("agent");
    reveal_strlit("permission");
    reveal_strlit("/");
    reveal_strlit("*");
    reveal_strlit("**");
    lemma_middle_matched("agent"@, agent_id, "permission"@);
    assert("agent/*/permission"@ =~= "agent"@ + "/"@ + "*"@ + "/"@ + "permission"@);
    assert("agent/"@ + agent_id + "/permission"@ =~= "agent"@ + "/"@ + agent_id + "/"@
        + "permission"@);
}

/// The pattern of all agents' stops matches the stop of an agent, unless the
/// agent's identifier has a `/` in it.
pub proof fn law_agent_cancels_are_matched(agent_id: Seq<char>)
    ensures
        pattern_matches("agent/*/cancel"@, "agent/"@ + agent_id + "/cancel"@)
            <==> !agent_id.contains('/'),
{
    reveal_strlit("agent/*/cancel");
    reveal_strlit("agent/");
    reveal_strlit("/cancel");
    reveal_strlit("agent");
    reveal_strlit("cancel");
    reveal_strlit("/");
    reveal_strlit("*");
    reveal_strlit("**");
    lemma_middle_matched("agent"@, agent_id, "cancel"@);
    assert("agent/*/cancel"@ =~= "agent"@ + "/"@ + "*"@ + "/"@ + "cancel"@);
    assert("agent/"@ + agent_id + "/cancel"@ =~= "agent"@ + "/"@ + agent_id + "/"@ + "cancel"@);
}

/// The pattern of the sampler's streams matches the stream of a request, unless
/// the request's identifier has a `/` in it.
pub proof fn law_sampler_streams_are_matched(request_id: Seq<char>)
    ensures
        pattern_matches("sampler/*/stream"@, "sampler/"@ + request_id + "/stream"@)
            <==> !request_id.contains('/'),
{
    reveal_strlit("sampler/*/stream");
    reveal_strlit("sampler/");
    reveal_strlit("/stream");
    reveal_strlit("sampler");
    reveal_strlit("stream");
    reveal_strlit("/");
    reveal_strlit("*");
    reveal_strlit("**");
    lemma_middle_matched("sampler"@, request_id, "stream"@);
    assert("sampler/*/stream"@ =~= "sampler"@ + "/"@ + "*"@ + "/"@ + "stream"@);
    assert("sampler/"@ + request_id + "/stream"@ =~= "sampler"@ + "/"@ + request_id + "/"@
        + "stream"@);
}

/// The pattern of an agent's messages matches each topic of the agent: the
/// agent's identifier, without `/` in it, and one more segment.
pub proof fn law_agent_messages_are_matched(agent_id: Seq<char>, action: Seq<char>)
    requires
        !agent_id.contains('/'),
        !action.contains('/'),
    ensures
        pattern_matches("agent/"@ + agent_id + "/*"@, "agent/"@ + agent_id + "/"@ + action),
{
    reveal_strlit("agent/");
    reveal_strlit("/*");
    reveal_strlit("agent");
    reveal_strlit("/");
    reveal_strlit("*");
    reveal_strlit("**");
    let p = seq!["agent"@, agent_id, "*"@];
    let t = seq!["agent"@, agent_id, action];
    assert("agent/"@ + agent_id + "/*"@ =~= "agent"@ + "/"@ + agent_id + "/"@ + "*"@);
    assert("agent/"@ + agent_id + "/"@ + action =~= "agent"@ + "/"@ + agent_id + "/"@ + action);
    lemma_three_segments("agent"@, agent_id, "*"@);
    lemma_three_segments("agent"@, agent_id, action);
    if agent_id == "**"@ {
        let p1 = seq!["**"@, "*"@];
        let t1 = seq![agent_id, action];
        let t2 = seq![action];
        let p2 = seq!["*"@];
        assert(p.skip(1) =~= p1);
        assert(t.skip(1) =~= t1);
        assert(t1.skip(1) =~= t2);
        assert(p1.skip(1) =~= p2);
        assert(p2.skip(1) =~= Seq::<Seq<char>>::empty());
        assert(t2.skip(1) =~= Seq::<Seq<char>>::empty());
        assert(parts_match(p2.skip(1), t2.skip(1), 4));
        assert(parts_match(p2, t2, 3));
        assert(parts_match(p1, t2, 2));
        assert(parts_match(p1, t1, 1));
        assert("agent"@ != "**"@) by {
            assert("agent"@.len() != "**"@.len());
        }
        assert(parts_match(p, t, 0));
    } else {
        lemma_fits(p, t, 0);
        assert(fits(p, t));
    }
}

/// A topic of one segment is well formed where the segment is neither empty nor longer
/// than a hundred bytes; a topic of several where each segment is short enough.
pub proof fn law_segments_are_short(a: Seq<char>, b: Seq<char>)
    requires
        !a.contains('/'),
    ensures
        well_formed(a) <==> a.len() > 0 && model::byte_len(a) <= 100,
        b.len() > 0 ==> (well_formed(a + seq!['/'] + b) <==> model::byte_len(a) <= 100
            && well_formed(b)),
{
    let s = a + seq!['/'] + b;
    reveal_strlit("/");
    assert("/"@ =~= seq!['/']);
    lemmas::lemma_split_single(a, '/');
    lemmas::lemma_split_first(a, '/', b);
    assert(segments(a) == seq![a]);
    assert(segments(s) == seq![a] + segments(b));
    if well_formed(a) {
        assert(model::byte_len(segments(a)[0]) <= 100);
    }
    if well_formed(s) {
        assert(model::byte_len(segments(s)[0]) <= 100);
        assert forall|i: int| 0 <= i < segments(b).len() implies model::byte_len(
            #[trigger] segments(b)[i],
        ) <= 100 by {
            assert(segments(s)[i + 1] == segments(b)[i]);
        }
    }
    if model::byte_len(a) <= 100 && well_formed(b) {
        assert forall|i: int| 0 <= i < segments(s).len() implies model::byte_len(
            #[trigger] segments(s)[i],
        ) <= 100 by {
            if i > 0 {
                assert(segments(s)[i] == segments(b)[i - 1]);
            }
        }
    }
}

/// A topic or a pattern of more than a hundred segments takes part in no match.
pub proof fn law_deep_topics_never_match(pattern: Seq<char>, topic: Seq<char>)
    requires
        segments(pattern).len() > 100 || segments(topic).len() > 100,
    ensures
        !pattern_matches(pattern, topic),
{
}

/// What stands before a double star must be there, segment by segment.
pub proof fn law_double_star_needs_its_head(
    pattern: Seq<char>,
    topic: Seq<char>,
    pre: Seq<Seq<char>>,
)
    requires
        segments(pattern) == pre.push("**"@),
        forall|i: int| 0 <= i < pre.len() ==> #[trigger] pre[i] != "**"@,
        pattern_matches(pattern, topic),
    ensures
        segments(topic).len() >= pre.len(),
        forall|i: int|
            0 <= i < pre.len() ==> #[trigger] pre[i] == "*"@ || pre[i] == segments(topic)[i],
{
    lemma_head_fits(pre, seq!["**"@], segments(topic), 0);
    assert(pre + seq!["**"@] =~= pre.push("**"@));
}

proof fn lemma_head_fits(
    pre: Seq<Seq<char>>,
    rest: Seq<Seq<char>>,
    t: Seq<Seq<char>>,
    depth: nat,
)
    requires
        forall|i: int| 0 <= i < pre.len() ==> #[trigger] pre[i] != "**"@,
        parts_match(pre + rest, t, depth),
    ensures
        t.len() >= pre.len(),
        forall|i: int| 0 <= i < pre.len() ==> #[trigger] pre[i] == "*"@ || pre[i] == t[i],
    decreases pre.len(),
{
    if pre.len() > 0 {
        let p = pre + rest;
        assert(p[0] == pre[0]);
        assert(pre[0] != "**"@);
        let q = pre.skip(1);
        assert(p.skip(1) =~= q + rest);
        assert forall|i: int| 0 <= i < q.len() implies #[trigger] q[i] != "**"@ by {
            assert(q[i] == pre[i + 1]);
        }
        lemma_head_fits(q, rest, t.skip(1), depth + 1);
        assert forall|i: int| 0 <= i < pre.len() implies #[trigger] pre[i] == "*"@ || pre[i]
            == t[i] by {
            if i > 0 {
                assert(q[i - 1] == pre[i]);
                assert(t.skip(1)[i - 1] == t[i]);
            }
        }
    }
}

/// A double star between other segments stands for any number of segments.
pub proof fn law_double_star_is_any_middle(
    pattern: Seq<char>,
    topic: Seq<char>,
    pre: Seq<Seq<char>>,
    mid: Seq<Seq<char>>,
    post: Seq<Seq<char>>,
)
    requires
        segments(pattern) == pre + (seq!["**"@] + post),
        segments(topic) == pre + (mid + post),
        pre.len() + mid.len() + post.len() < 100,
        forall|i: int| 0 <= i < pre.len() ==> #[trigger] pre[i] != "**"@,
        forall|i: int| 0 <= i < post.len() ==> #[trigger] post[i] != "**"@,
    ensures
        pattern_matches(pattern, topic),
{
    lemma_middle_star(mid, post, pre.len());
    lemma_same_head(pre, seq!["**"@] + post, mid + post, 0);
}

proof fn lemma_same_head(
    pre: Seq<Seq<char>>,
    p: Seq<Seq<char>>,
    t: Seq<Seq<char>>,
    depth: nat,
)
    requires
        depth + pre.len() <= 100,
        forall|i: int| 0 <= i < pre.len() ==> #[trigger] pre[i] != "**"@,
        parts_match(p, t, depth + pre.len()),
    ensures
        parts_match(pre + p, pre + t, depth),
    decreases pre.len(),
{
    if pre.len() > 0 {
        let q = pre.skip(1);
        assert forall|i: int| 0 <= i < q.len() implies #[trigger] q[i] != "**"@ by {
            assert(q[i] == pre[i + 1]);
        }
        lemma_same_head(q, p, t, depth + 1);
        assert((pre + p).skip(1) =~= q + p);
        assert((pre + t).skip(1) =~= q + t);
        assert((pre + p)[0] == pre[0] && (pre + t)[0] == pre[0]);
        assert(pre[0] != "**"@);
    } else {
        assert(pre + p =~= p);
        assert(pre + t =~= t);
    }
}

proof fn lemma_middle_star(mid: Seq<Seq<char>>, post: Seq<Seq<char>>, depth: nat)
    requires
        depth + mid.len() + post.len() < 100,
        forall|i: int| 0 <= i < post.len() ==> #[trigger] post[i] != "**"@,
    ensures
        parts_match(seq!["**"@] + post, mid + post, depth),
    decreases mid.len(),
{
    let p = seq!["**"@] + post;
    assert(p[0] == "**"@);
    assert(p.skip(1) =~= post);
    if mid.len() == 0 {
        assert(mid + post =~= post);
        lemma_fits(post, post, depth + 1);
        assert(fits(post, post));
    } else {
        assert((mid + post).skip(1) =~= mid.skip(1) + post);
        lemma_middle_star(mid.skip(1), post, depth + 1);
    }
}

} // verus!
