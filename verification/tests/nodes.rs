//! The nodes that keep state, run tools, and connect to others.

use ccore::message::frame::{FrameCodec, Message};
use ccore::message::topic::Topic;
use ccore::node::payload::{Field, Outgoing, Payload, Plane};
use ccore::node::sampler::{extract_status_code, parse_goal_verify_json};
use ccore::node::state::{JsonlEntry, PersistedMessage, StateAction, StateNode};
use ccore::node::tool::{HookOutcome, ToolCallRequest, ToolNode, ToolStep, Verdict};
use ccore::node::transport::{
    route, with_sequence, zmq_subscribe_prefix, DataPlaneState, NodeConnectInfo, PublisherInfo, Route,
};
use ccore::node::{NodeId, NodeType, PermissionMode};
use ccore::performance::memory_pool::{BufferGuard, MessagePool};

fn text<'a>(o: &'a Outgoing, name: &str) -> &'a str {
    o.payload.text_at(name).unwrap_or("")
}

fn call(id: &str) -> ToolCallRequest {
    ToolCallRequest {
        agent_id: "a1".into(),
        tool_call_id: id.into(),
        tool_name: "Bash".into(),
        arguments: "{}".into(),
    }
}

#[test]
fn permission_oneshot_allowed() {
    let mut node = ToolNode::new(NodeId::from_str("tool"));
    node.set_permission_mode(PermissionMode::Ask);
    let step = node.begin_call(call("tc-1"), None, true);
    assert!(node.is_waiting("tc-1"));
    assert!(node.handle_permission_response("tc-1"));
    match step {
        ToolStep::AskUser { call, .. } => {
            assert!(matches!(ToolNode::after_permission(call, true), ToolStep::Execute(_)));
        }
        _ => panic!("the user should be asked"),
    }
    assert!(!node.handle_permission_response("tc-1"));
}

#[test]
fn permission_oneshot_denied() {
    let mut node = ToolNode::new(NodeId::from_str("tool"));
    node.set_permission_mode(PermissionMode::Ask);
    let step = node.begin_call(call("tc-2"), None, true);
    assert!(node.handle_permission_response("tc-2"));
    match step {
        ToolStep::AskUser { call, .. } => match ToolNode::after_permission(call, false) {
            ToolStep::Refuse { answer, .. } => {
                assert_eq!(answer.topic.as_str(), "agent/a1/tool_result");
                assert_eq!(text(&answer, "output"), "工具 Bash 被用户拒绝");
                assert!(!answer.payload.flag_or("success", true));
            }
            _ => panic!("permission should be denied"),
        },
        _ => panic!("the user should be asked"),
    }
}

#[test]
fn permission_oneshot_timeout() {
    let mut node = ToolNode::new(NodeId::from_str("tool"));
    node.set_permission_mode(PermissionMode::Ask);
    node.begin_call(call("tc-3"), None, true);
    assert!(node.is_waiting("tc-3"));
    node.expire_permission("tc-3");
    assert!(!node.is_waiting("tc-3"));
}

#[test]
fn denied_tool_does_not_run() {
    let mut node = ToolNode::new(NodeId::from_str("tool"));
    let hooks = HookOutcome {
        updated_input: None,
        decision: Verdict::Deny { reason: "no".into() },
        rules: None,
        alternatives: Vec::new(),
    };
    let step = node.begin_call(call("tc-4"), Some(hooks), false);
    assert!(matches!(step, ToolStep::Refuse { .. }));
    assert!(!node.is_waiting("tc-4"));
}

#[test]
fn tools_run_side_by_side_within_a_bound() {
    let mut node = ToolNode::new(NodeId::from_str("tool"));
    for _ in 0..20 {
        assert!(node.try_acquire());
    }
    assert!(!node.try_acquire());
    node.release();
    assert!(node.try_acquire());
}

#[test]
fn conversation_is_kept_and_told() {
    let mut node = StateNode::new(NodeId::from_str("state"), Some("/home/u"));
    let body = Payload::new().text("role", "user").text("content", "hello there");
    let action = node.handle_message(&Topic::state_persist(), &body, Vec::new(), "now");
    assert!(matches!(action, StateAction::Save(_)));
    match node.handle_message(&Topic::state_query(), &Payload::new(), Vec::new(), "now") {
        StateAction::Report(state) => {
            assert_eq!(state.total_messages, 1);
            assert_eq!(state.turn_count, 1);
        }
        _ => panic!("the conversation should be told"),
    }
    let compact = node.handle_message(&Topic::state_compact(), &Payload::new(), Vec::new(), "now");
    assert!(matches!(compact, StateAction::Compact));
}

#[test]
fn status_codes_are_found() {
    assert_eq!(extract_status_code("HTTP 429 Too Many Requests"), Some(429));
    assert_eq!(extract_status_code("failed with Status 503"), Some(503));
    assert_eq!(extract_status_code("HTTP 200"), None);
    assert_eq!(extract_status_code("connection reset"), None);
}

#[test]
fn goal_verdicts_are_read() {
    assert!(parse_goal_verify_json("{\"passed\": true}"));
    assert!(!parse_goal_verify_json("{\"passed\": false}"));
    assert!(parse_goal_verify_json("Result: {\"passed\": true} done"));
}

fn publisher(addr: &str, topics: &[&str]) -> PublisherInfo {
    PublisherInfo {
        node_id: "n".into(),
        pub_addr: addr.into(),
        topics: topics.iter().map(|t| t.to_string()).collect(),
    }
}

#[test]
fn publishers_are_connected_to_once() {
    let mut plane = DataPlaneState::new(vec!["agent/a1/".into(), "sys/shutdown".into()]);
    let found = plane.handle_discovery(vec![
        publisher("tcp://1", &["agent/a1/output", "agent/*/output"]),
        publisher("tcp://2", &["sampler/x/stream"]),
        publisher("", &["agent/a1/output"]),
    ]);
    assert_eq!(found.len(), 1);
    assert_eq!(found[0].pub_addr, "tcp://1");
    assert_eq!(found[0].topics, vec!["agent/a1/output"]);
    assert_eq!(plane.publishers().len(), 2);
    let again = plane.handle_publisher_change(vec![publisher("tcp://1", &["agent/a1/output"])]);
    assert!(again.is_empty());
}

#[test]
fn patterns_have_plain_beginnings() {
    assert_eq!(zmq_subscribe_prefix("sampler/*/stream"), "sampler/");
    assert_eq!(zmq_subscribe_prefix("*/x"), "");
    assert_eq!(zmq_subscribe_prefix("agent/a1/input"), "agent/a1/input");
    assert_eq!(zmq_subscribe_prefix("agent*"), "agent");
}

fn message(topic: &str) -> Message {
    FrameCodec::new_message(Topic::new(topic), "node", Vec::new())
}

#[test]
fn messages_are_routed() {
    assert_eq!(route(&message("sys/shutdown")), Route::Stop);
    assert_eq!(route(&message("sys/ack")), Route::Acknowledge);
    assert_eq!(route(&message("sys/heartbeat")), Route::Ignore);
    assert_eq!(route(&message("sys/publisher_change")), Route::Change);
    assert_eq!(route(&message("sys/register")), Route::Handle);
    assert_eq!(route(&message("agent/a/input")), Route::Handle);
    let mut reply = message("sys/register");
    reply.header.reply_to = Some("m1".into());
    assert_eq!(route(&reply), Route::Discover);
}

#[test]
fn messages_are_numbered() {
    let m = message("a/b");
    let n = with_sequence(&m, 7);
    assert_eq!(n.header.sequence, 7);
    assert_eq!(n.header.msg_id, m.header.msg_id);
    assert_eq!(n.header.requires_ack, m.header.requires_ack);
}

#[test]
fn node_without_address_publishes_nothing() {
    let info = NodeConnectInfo::of_node(
        "r",
        "p",
        NodeId::from_str("n"),
        NodeType::Tool,
        Vec::new(),
        "",
        Vec::new(),
        None,
    );
    assert!(!info.publishes());
    assert_eq!(info.node_type, "tool");
}

#[test]
fn test_message_pool() {
    let mut pool = MessagePool::new(10, 1024);
    let mut buf = pool.acquire();
    buf.extend_from_slice(b"hello");
    pool.release(buf);
    let buf2 = pool.acquire();
    assert!(buf2.is_empty());
}

#[test]
fn test_buffer_guard() {
    let mut pool = MessagePool::new(10, 1024);
    let mut guard = BufferGuard::new(&mut pool);
    guard.as_mut().extend_from_slice(b"test");
    guard.finish(&mut pool);
    assert_eq!(pool.available(), 10);
}

#[test]
fn pool_lends_and_is_bounded() {
    let mut pool = MessagePool::new(2, 8);
    assert_eq!((pool.available(), pool.capacity()), (2, 2));
    let a = pool.acquire();
    let b = pool.acquire();
    let c = pool.acquire();
    assert_eq!(pool.available(), 0);
    assert_eq!(pool.usage(), (2, 2));
    pool.release(a);
    pool.release(b);
    pool.release(c);
    assert_eq!(pool.available(), 2);
    let mut guard = BufferGuard::new(&mut pool);
    let copies = guard.copy_frames(&vec![vec![1, 2], vec![3]]);
    assert_eq!(copies, vec![vec![1, 2], vec![3]]);
    assert_eq!(guard.as_ref(), &vec![1, 2, 3]);
}

#[test]
fn payload_tells_null_from_nothing() {
    let p = Payload { fields: vec![("a".into(), Field::Null)] };
    assert!(p.has("a"));
    assert!(!p.has("b"));
    assert!(p.text_at("a").is_none());
    assert_eq!(p.number_or("a", 4), 4);
    assert_eq!(Plane::Quiet, Plane::Quiet);
}

fn line(entry_type: &str, content: &str) -> JsonlEntry {
    JsonlEntry {
        entry_type: entry_type.into(),
        role: None,
        content: Some(content.into()),
        tool_call_id: None,
        tool_name: Some("Read".into()),
        success: None,
        token_count: Some(3),
        ts: String::new(),
    }
}

#[test]
fn sessions_are_taken_up_with_their_embeddings() {
    let mut node = StateNode::new(NodeId::from_str("state"), Some("/home/u"));
    let lines = vec![line("user", "hello"), line("meta", "-"), line("tool_result", "done")];
    let vectors = vec![vec![1], vec![2], vec![3, 4]];
    assert_eq!(node.load_session_jsonl("s1", &lines, &vectors), 2);
    let saved = PersistedMessage {
        id: "old".into(),
        turn: 9,
        role: "assistant".into(),
        content: "hi".into(),
        token_count: 2,
        is_tool_call: false,
    };
    node.load_session("s2", &vec![saved], &vec![vec![5]]);
    assert_eq!(node.session_id, "s2");
    let entries = node.short_term.all_entries();
    let kept: Vec<(&str, u32, &[u32])> =
        entries.iter().map(|e| (e.role.as_str(), e.turn, e.embedding.as_slice())).collect();
    assert_eq!(
        kept,
        [("user", 1, &[1][..]), ("tool", 2, &[3, 4]), ("assistant", 3, &[5])]
    );
    assert!(entries.iter().all(|e| e.tool_name.is_none() && e.id.len() == 36));
}
