use ccore::memory::embedding::EmbeddingVector;
use ccore::memory::vector_store::{VectorStore, VectorStoreConfig};
use ccore::message::frame::{FrameCodec, FrameError, Message};
use ccore::message::service::{ResponseOutcome, ServiceClient};
use ccore::message::topic::Topic;
use ccore::node::acp::{AcpNode, AcpNotification};
use ccore::node::ear::EarNode;
use ccore::node::eye::EyeNode;
use ccore::node::hand::HandNode;
use ccore::node::limb::LimbNode;
use ccore::node::mouth::MouthNode;
use ccore::node::nose::{NoseNode, SmellSeverity};
use ccore::node::payload::{Outgoing, Payload, Plane};
use ccore::node::sampler::{SamplerBody, SamplerEvent, TokenUsage};
use ccore::node::skin::SkinNode;
use ccore::node::state::StateNode;
use ccore::node::thinker::events::Reading;
use ccore::node::thinker::{AgentConfig, PendingToolCall, SavedEntry, ThinkerAction, ThinkerNode};
use ccore::node::tool::{HookOutcome, ToolCallRequest, ToolNode, ToolStep, Verdict};
use ccore::node::transport::{DataPlaneState, NodeConnectInfo};
use ccore::node::tui::{Shown, TUINode};
use ccore::node::{NodeId, NodeType, PermissionMode};
use ccore::path::FilePath;

/// A message whose payload is a JSON value in MessagePack.
fn packed(topic: &str, json: &str) -> Message {
    let value: serde_json::Value = serde_json::from_str(json).unwrap();
    FrameCodec::new_message(Topic::new(topic), "sender", rmp_serde::to_vec(&value).unwrap())
}

/// A message whose payload is no value in MessagePack.
fn broken(topic: &str) -> Message {
    FrameCodec::new_message(Topic::new(topic), "sender", vec![0xc1])
}

#[test]
fn fields_are_read_by_their_kind() {
    let msg = packed("t", r#"{"a": "x", "b": true, "c": 7, "d": null, "e": [1], "f": -1, "g": 0.5}"#);
    let p = FrameCodec::decode_payload(&msg).unwrap();
    assert_eq!(p.fields.len(), 7);
    assert_eq!(p.text_at("a"), Some("x"));
    assert!(p.flag_or("b", false));
    assert_eq!(p.number_or("c", 0), 7);
    for name in ["d", "e", "f", "g"] {
        assert!(p.has(name));
        assert_eq!(p.text_at(name), None);
        assert_eq!(p.number_or(name, 9), 9);
    }
    assert!(!p.has("h"));
}

#[test]
fn a_list_has_no_fields() {
    let p = FrameCodec::decode_payload(&packed("t", "[1, 2]")).unwrap();
    assert!(p.fields.is_empty());
}

#[test]
fn what_is_no_value_is_refused() {
    let e = FrameCodec::decode_payload(&broken("t")).unwrap_err();
    assert_eq!(e, FrameError::BadPayload);
    assert_eq!(e.describe(), "invalid payload");
}

#[test]
fn sent_fields_are_read_back() {
    let payload = Payload::new()
        .text("z", "last")
        .flag("a", false)
        .number("n", u64::MAX)
        .null("nothing");
    let out = Outgoing { topic: Topic::new("x/y"), payload, plane: Plane::Control };
    let msg = out.to_message("me");
    assert_eq!(msg.topic.as_str(), "x/y");
    assert_eq!(msg.header.src_node, "me");
    assert_ne!(msg.payload.len(), 0);
    let p = FrameCodec::decode_payload(&msg).unwrap();
    assert_eq!(p.text_at("z"), Some("last"));
    assert!(!p.flag_or("a", true));
    assert_eq!(p.number_or("n", 0), u64::MAX);
    assert!(p.has("nothing"));
    let value: serde_json::Value = rmp_serde::from_slice(&msg.payload).unwrap();
    assert_eq!(value["n"].as_u64(), Some(u64::MAX));
}

#[test]
fn ear_takes_messages_as_they_come() {
    let mut ear = EarNode::new(NodeId::from_str("ear-1"));
    ear.set_agent_id("a1".to_string());
    let out = ear.receive(&packed("ear/hear", r#"{"content": "hi"}"#)).unwrap();
    assert_eq!(out.len(), 1);
    assert_eq!(out[0].topic.as_str(), "cortex/a1/input");
    assert_eq!(out[0].payload.text_at("content"), Some("hi"));
    assert!(matches!(ear.receive(&broken("ear/hear")), Err(FrameError::BadPayload)));
    assert!(ear.receive(&broken("sys/shutdown")).unwrap().is_empty());
}

#[test]
fn organs_refuse_what_they_cannot_read() {
    let mut eye = EyeNode::new(NodeId::from_str("eye"));
    let mut nose = NoseNode::new(NodeId::from_str("nose"));
    let mut skin = SkinNode::new(NodeId::from_str("skin"));
    let mut hand = HandNode::new(NodeId::from_str("hand"));
    let mut limb = LimbNode::new(NodeId::from_str("limb"));
    let mouth = MouthNode::new(NodeId::from_str("mouth"));
    assert!(eye.receive(&broken("eye/observe"), 1).is_err());
    assert!(eye.observations().is_empty());
    assert!(nose.receive(&broken("skin/touch")).is_err());
    assert!(skin.receive(&broken("hand/anything"), 1).is_err());
    assert!(skin.records().is_empty());
    assert!(hand.receive(&broken("hand/edit")).is_err());
    assert!(limb.receive(&broken("limb/git")).is_err());
    assert!(mouth.receive(&broken("cortex/a/speak")).is_err());
    assert_eq!(mouth.receive(&broken("mouth/status")).unwrap().len(), 1);
    assert!(eye.receive(&broken("other"), 1).unwrap().is_empty());
}

#[test]
fn organs_take_messages_as_they_come() {
    let mut eye = EyeNode::new(NodeId::from_str("eye"));
    eye.receive(&packed("eye/terminal_output", r#"{"content": "$ ls"}"#), 5).unwrap();
    assert_eq!(eye.observations()[0].content, "$ ls");
    assert_eq!(eye.observations()[0].timestamp, 5);
    let mut skin = SkinNode::new(NodeId::from_str("skin"));
    let out = skin.receive(&packed("limb/build", r#"{"success": false}"#), 2).unwrap();
    assert_eq!(out.len(), 2);
    let mut limb = LimbNode::new(NodeId::from_str("limb"));
    let out = limb.receive(&packed("limb/git", r#"{"action": "status"}"#)).unwrap();
    assert_eq!(out[0].payload.text_at("result"), Some("已记录 Git 操作请求：status"));
    let mut hand = HandNode::new(NodeId::from_str("hand"));
    let edit = packed("hand/edit", r#"{"path": "a.rs", "agent_id": "a", "request_id": "r"}"#);
    assert_eq!(hand.receive(&edit).unwrap().len(), 2);
    let mut nose = NoseNode::new(NodeId::from_str("nose"));
    let out = nose.receive(&packed("nose/smell", r#"{"target": "src"}"#)).unwrap();
    assert_eq!(out[0].payload.number_or("error_count", 0), 1);
}

#[test]
fn unreadable_output_counts_as_empty_at_the_border() {
    let acp = AcpNode::new(NodeId::from_str("acp"), "a1");
    match acp.receive(&packed("agent/a1/output", r#"{"content": "hello"}"#)) {
        Some(AcpNotification::Update { kind, content }) => {
            assert_eq!(kind, "text");
            assert_eq!(content, "hello");
        }
        _ => panic!("no update"),
    }
    match acp.receive(&broken("agent/a1/output")) {
        Some(AcpNotification::Update { content, .. }) => assert_eq!(content, ""),
        _ => panic!("no update"),
    }
}

#[test]
fn discovery_is_read_from_the_message() {
    let mut plane = DataPlaneState::new(vec!["agent/a/output".to_string()]);
    let json = r#"{
        "type": "publisher_discovery",
        "publishers": [
            {"publishers": [
                {"node_id": "n1", "pub_addr": "tcp://1", "topics": ["agent/a/output", 5, "x"]},
                {"node_id": "n2", "pub_addr": "", "topics": ["agent/a/output"]}
            ]},
            {"none": true},
            {"publishers": [{"pub_addr": "tcp://3", "topics": ["agent/*/output"]}]}
        ]
    }"#;
    let found = plane.discover(&packed("sys/register", json)).unwrap();
    assert_eq!(found.len(), 1);
    assert_eq!(found[0].pub_addr, "tcp://1");
    assert_eq!(found[0].topics, vec!["agent/a/output".to_string()]);
    assert_eq!(plane.publishers().len(), 2);
    assert_eq!(plane.publishers().get("tcp://1").unwrap().topics.len(), 2);
    assert_eq!(plane.publishers().get("tcp://3").unwrap().node_id, "");
}

#[test]
fn other_answers_are_no_discovery() {
    let mut plane = DataPlaneState::new(vec!["t".to_string()]);
    let json = r#"{"publishers": [{"publishers": [{"pub_addr": "tcp://1", "topics": ["t"]}]}]}"#;
    assert!(plane.discover(&packed("sys/register", json)).unwrap().is_empty());
    assert_eq!(plane.change(&packed("sys/publisher_change", json)).unwrap().len(), 1);
    assert!(plane.discover(&broken("sys/register")).is_err());
    assert!(plane.change(&broken("sys/publisher_change")).is_err());
    assert_eq!(plane.publishers().len(), 1);
}

#[test]
fn thinker_reads_each_message() {
    let done = packed("sampler/r/stream", r#"{"type": "done", "request_id": "r"}"#);
    assert!(matches!(ThinkerNode::read(&done), Ok(Reading::Done(Some(_)))));
    let failed = packed("sampler/r/stream", r#"{"error": null}"#);
    assert!(matches!(ThinkerNode::read(&failed), Ok(Reading::Failed)));
    let chunk = packed("sampler/r/stream", r#"["r", "Text", "hi", null, null]"#);
    assert!(matches!(ThinkerNode::read(&chunk), Ok(Reading::Chunk)));
    let tools = broken("tool/register");
    assert!(matches!(ThinkerNode::read(&tools), Ok(Reading::Tools)));
    assert!(matches!(ThinkerNode::read(&broken("sys/shutdown")), Ok(Reading::Nothing)));
    assert!(ThinkerNode::read(&broken("agent/a/input")).is_err());
    match ThinkerNode::read(&packed("agent/a/input", r#"{"content": "go"}"#)) {
        Ok(Reading::Fields(p)) => assert_eq!(p.text_at("content"), Some("go")),
        _ => panic!("no fields"),
    }
}

#[test]
fn assessment_names_its_conflicts() {
    let json = r#"{
        "conflicts": [{"description": "a"}, {"other": 1}, 3],
        "suggested_strategy": "slow"
    }"#;
    match ThinkerNode::read(&packed("cortex/meta_result", json)) {
        Ok(Reading::Assessment(conflicts, strategy)) => {
            assert_eq!(conflicts, vec![Some("a".to_string()), None, None]);
            assert_eq!(strategy, Some("slow".to_string()));
        }
        _ => panic!("no assessment"),
    }
    match ThinkerNode::read(&packed("cortex/meta_result", "{}")) {
        Ok(Reading::Assessment(conflicts, strategy)) => {
            assert!(conflicts.is_empty());
            assert_eq!(strategy, None);
        }
        _ => panic!("no assessment"),
    }
}

#[test]
fn terminal_takes_messages_as_they_come() {
    let mut tui = TUINode::new(NodeId::from_str("tui"));
    match tui.receive(&packed("agent/a/output", r#"{"content": "hi"}"#), 3) {
        Ok(Some(Shown::Output(text))) => assert_eq!(text, "hi"),
        _ => panic!("nothing shown"),
    }
    assert_eq!(tui.output_buffer, "hi");
    assert!(tui.receive(&broken("agent/a/event"), 3).is_err());
    assert!(matches!(tui.receive(&broken("sys/shutdown"), 3), Ok(Some(Shown::Restore))));
}

#[test]
fn terminal_does_not_count_beyond_its_numbers() {
    let mut tui = TUINode::new(NodeId::from_str("tui"));
    tui.total_input_tokens = usize::MAX;
    let event = packed("agent/a/event", r#"{"input_tokens": 1, "state": "thinking"}"#);
    assert!(matches!(tui.receive(&event, 0), Ok(None)));
    assert_eq!(tui.total_input_tokens, usize::MAX);
}

#[test]
fn responses_are_taken_as_they_come() {
    let mut client = ServiceClient::new("n".to_string());
    let msg = client.begin("search", "r1", in_messagepack(r#"{"q": [1]}"#));
    assert_eq!(msg.topic.as_str(), "service/search/request");
    assert_eq!(carried(&msg), json(r#"{"request_id": "r1", "data": {"q": [1]}}"#));
    let known = packed("service/search/response", r#"{"request_id": "r1"}"#);
    assert_eq!(client.receive(&known), Ok(ResponseOutcome::Delivered));
    assert_eq!(client.receive(&known), Ok(ResponseOutcome::Unknown));
    let unnamed = packed("service/search/response", "{}");
    assert_eq!(client.receive(&unnamed), Ok(ResponseOutcome::MissingRequestId));
    assert_eq!(client.receive(&broken("service/x/response")), Err(FrameError::BadPayload));
}

#[test]
fn a_call_waits_until_it_is_answered() {
    let mut client = ServiceClient::new("n".to_string());
    let (first, msg) = client.call("search", in_messagepack("1"));
    let (second, _) = client.call("search", in_messagepack("2"));
    assert_eq!(first.len(), 36);
    assert_ne!(first, second);
    assert_eq!(msg.header.src_node, "n");
    assert_eq!(carried(&msg)["request_id"], serde_json::Value::String(first.clone()));
    assert_eq!(client.handle_response(Some(&first)), ResponseOutcome::Delivered);
    assert!(!client.is_waiting(&first));
    assert!(client.is_waiting(&second));
}

#[test]
fn state_node_reads_what_it_needs() {
    let p = StateNode::read(&packed("state/persist", r#"{"role": "user"}"#)).unwrap();
    assert_eq!(p.text_at("role"), Some("user"));
    assert!(StateNode::read(&broken("agent/a/event")).is_err());
    assert!(StateNode::read(&broken("state/query")).unwrap().fields.is_empty());
}

fn kept_store() -> VectorStore {
    VectorStore::new(VectorStoreConfig {
        data_dir: FilePath::new("vectors"),
        dimension: 2,
        persist: true,
        incremental_update: true,
    })
}

fn vector(id: &str, a: f32, b: f32) -> EmbeddingVector {
    EmbeddingVector {
        data: vec![a.to_bits(), b.to_bits()],
        entry_id: id.to_string(),
        text_preview: "text".to_string(),
        created_at: 12,
    }
}

#[test]
fn saved_vectors_are_loaded() {
    let mut store = kept_store();
    assert!(store.add_vector(vector("b", 1.0, -0.5)));
    assert!(store.add_vector(vector("a", 0.25, 3.0)));
    let (index, hashes) = store.save_to_disk().unwrap();
    let mut other = kept_store();
    other.load_from_disk(Some(index), Some(hashes));
    assert!(other.loaded);
    assert_eq!(other.len(), 2);
    assert_eq!(other.index().dimension(), 2);
    assert_eq!(other.index().vectors()[0].entry_id, "b");
    assert_eq!(other.index().vectors()[1].data, vec![0.25f32.to_bits(), 3.0f32.to_bits()]);
    assert_eq!(other.incremental_stats(), (2, 2));
    assert!(!other.add_vector(vector("a", 0.25, 3.0)));
    assert!(other.add_vector(vector("a", 0.5, 3.0)));
}

#[test]
fn index_file_holds_floats() {
    let mut store = kept_store();
    store.add_vector(vector("v", 1.5, 2.5));
    let (index, hashes) = store.save_to_disk().unwrap();
    let one = (vec![1.5f32, 2.5f32], "v".to_string(), "text".to_string(), 12u64);
    assert_eq!(index, bincode::serialize(&(vec![one], 2usize)).unwrap());
    let map: std::collections::HashMap<String, u64> = bincode::deserialize(&hashes).unwrap();
    assert_eq!(map.len(), 1);
    assert_eq!(map["v"], VectorStore::content_hash(&vec![1.5f32.to_bits(), 2.5f32.to_bits()]));
}

#[test]
fn broken_files_leave_the_store_empty() {
    let mut store = kept_store();
    store.load_from_disk(Some(vec![1, 2]), Some(vec![9]));
    assert!(store.loaded);
    assert!(store.is_empty());
    let mut apart = VectorStore::in_memory(2);
    assert!(apart.save_to_disk().is_none());
    apart.load_from_disk(Some(vec![0; 16]), None);
    assert_eq!(apart.index().dimension(), 2);
}

/// What a message carries, as a JSON value.
fn carried(msg: &Message) -> serde_json::Value {
    rmp_serde::from_slice(&msg.payload).unwrap()
}

fn json(text: &str) -> serde_json::Value {
    serde_json::from_str(text).unwrap()
}

/// A JSON value in MessagePack.
fn in_messagepack(text: &str) -> Vec<u8> {
    rmp_serde::to_vec(&json(text)).unwrap()
}

#[test]
fn deep_values_are_handed_on() {
    let text = format!("{}{}", "[".repeat(100), "]".repeat(100));
    let mut deep = json(&text);
    for _ in 0..200 {
        deep = serde_json::Value::Array(vec![deep]);
    }
    let mut fields = serde_json::Map::new();
    fields.insert("deep".to_string(), deep.clone());
    let bytes = rmp_serde::to_vec(&serde_json::Value::Object(fields)).unwrap();
    let msg = FrameCodec::new_message(Topic::new("agent/a1/permission"), "sender", bytes);
    let payload = FrameCodec::decode_payload(&msg).unwrap();
    let out = Outgoing { topic: Topic::new("x"), payload, plane: Plane::Control };
    assert_eq!(carried(&out.to_message("me"))["deep"], deep);
    let acp = AcpNode::new(NodeId::from_str("acp"), "a1");
    let line = acp.receive(&msg).unwrap().line();
    assert!(line.contains(&format!("{}{}", "[".repeat(300), "]".repeat(300))));
}

#[test]
fn packed_fields_are_values() {
    let payload = Payload::new()
        .packed("a", in_messagepack(r#"[1, {"b": -2}]"#))
        .packed("c", vec![0xc1]);
    let out = Outgoing { topic: Topic::new("x"), payload, plane: Plane::Control };
    let msg = out.to_message("me");
    assert_eq!(carried(&msg), json(r#"{"a": [1, {"b": -2}], "c": null}"#));
}

#[test]
fn a_node_registers_with_what_it_offers() {
    let mut info = NodeConnectInfo::of_node(
        "tcp://r",
        "tcp://p",
        NodeId::from_str("n1"),
        NodeType::Tool,
        vec!["tool/*".into(), "sys/\"x\"".into()],
        "tcp://d",
        vec!["agent/a/tool_result".into()],
        None,
    );
    let msg = info.registration();
    assert_eq!(msg.topic.as_str(), "sys/register");
    assert_eq!(msg.header.src_node, "n1");
    assert_eq!(msg.header.sequence, 0);
    let plain = r#"{"node_id": "n1", "node_type": "tool", "subscriptions": ["tool/*", "sys/\"x\""],
        "pub_addr": "tcp://d", "published_topics": ["agent/a/tool_result"]}"#;
    assert_eq!(carried(&msg), json(plain));
    info.data_rep_addr = Some("tcp://s".into());
    info.service_name = Some("search".into());
    let value = carried(&info.registration());
    assert_eq!(value["rep_addr"], json("\"tcp://s\""));
    assert_eq!(value["service_name"], json("\"search\""));
}

#[test]
fn what_a_thinker_decides_is_announced() {
    let config = AgentConfig {
        model: "m".into(),
        permission_mode: PermissionMode::Yolo,
        max_turns: None,
        subagents_enabled: false,
        non_interactive: true,
        tools: Vec::new(),
    };
    let node = ThinkerNode::new(NodeId::from_str("t1"), config);
    let call = PendingToolCall {
        tool_call_id: "c1".into(),
        tool_name: "Read".into(),
        arguments: "{\"p\":1}".into(),
    };
    let out = node.announcement(&ThinkerAction::Call(call)).unwrap();
    assert_eq!(out.topic.as_str(), "agent/t1/tool_call");
    assert_eq!(out.plane, Plane::Data);
    assert_eq!(
        carried(&out.to_message("t1")),
        json(r#"{"tool_call_id": "c1", "tool_name": "Read", "arguments": {"p": 1}, "agent_id": "t1"}"#)
    );

    let out = node.announcement(&ThinkerAction::Smell(vec!["error: a".into()])).unwrap();
    assert_eq!(out.topic.as_str(), "sensory/nose/compile_error");
    assert_eq!(out.plane, Plane::Quiet);
    assert_eq!(
        carried(&out.to_message("t1")),
        json(r#"{"error_count": 1, "errors": ["error: a"], "agent_id": "t1"}"#)
    );

    let kept = vec![SavedEntry { role: "user".into(), content: "hi".into(), tokens: 1 }];
    let out = node.announcement(&ThinkerAction::Persist(kept, 1)).unwrap();
    assert_eq!(out.topic.as_str(), "state/persist");
    assert_eq!(
        carried(&out.to_message("t1")),
        json(
            r#"{"agent_id": "t1", "total_tokens": 1,
                "entries": [{"role": "user", "content": "hi", "tokens": 1}]}"#
        )
    );

    let out = node.announcement(&ThinkerAction::Trajectory("[1]".into())).unwrap();
    assert_eq!(out.topic.as_str(), "cortex/erl_trajectory");
    assert_eq!(carried(&out.to_message("t1")), json(r#"{"agent_id": "t1", "trajectory": [1]}"#));

    assert!(node.announcement(&ThinkerAction::SlowDown(2)).is_none());
}

fn ruled_out(alternatives: Vec<String>) -> serde_json::Value {
    let mut node = ToolNode::new(NodeId::from_str("tool"));
    let call = ToolCallRequest {
        tool_call_id: "c".into(),
        tool_name: "Bash".into(),
        arguments: "{}".into(),
        agent_id: "a".into(),
    };
    let hooks = HookOutcome {
        updated_input: None,
        decision: Verdict::Allow,
        rules: Some(Verdict::Deny { reason: "no".into() }),
        alternatives,
    };
    match node.begin_call(call, Some(hooks), false) {
        ToolStep::Refuse { answer } => carried(&answer.to_message("tool")),
        _ => panic!("the tool should not run"),
    }
}

#[test]
fn rules_that_deny_name_alternatives() {
    assert_eq!(ruled_out(vec!["Read".into()])["alternatives"], json(r#"["Read"]"#));
    assert_eq!(ruled_out(Vec::new())["alternatives"], json("[]"));
}

#[test]
fn errors_with_a_code_are_smelled() {
    let mut nose = NoseNode::new(NodeId::from_str("nose"));
    let body = r#"{"result": "error[E0308]: mismatched types", "tool_name": "Bash"}"#;
    let out = nose.receive(&packed("skin/touch", body)).unwrap();
    assert_eq!(nose.smells().len(), 1);
    assert_eq!(nose.smells()[0].severity, SmellSeverity::L0);
    assert_eq!(out.len(), 1);
    assert_eq!(out[0].topic.as_str(), "nose/compile_error");
}

#[test]
fn the_nose_remembers_the_last_hundred_smells() {
    let mut nose = NoseNode::new(NodeId::from_str("nose"));
    for i in 0..101 {
        let body = format!("{{\"target\": \"t{}\"}}", i);
        let out = nose.receive(&packed("nose/smell", &body)).unwrap();
        assert_eq!(out[0].payload.number_or("error_count", 0), if i < 100 { i + 1 } else { 100 });
    }
    assert_eq!(nose.smells().len(), 100);
    assert_eq!(nose.smells()[0].message, "嗅探请求：t1");
}

#[test]
fn requests_are_answered_in_lines() {
    let acp = AcpNode::new(NodeId::from_str("acp"), "a1");
    let (line, out) = acp.handle_jsonrpc_request("initialize", &Payload::new(), Some("7"));
    assert!(out.is_none());
    assert_eq!(
        json(&line.unwrap()),
        json(
            r#"{"jsonrpc": "2.0", "id": 7, "result": {"protocolVersion": "2025-03-26",
                "capabilities": {"session": {}},
                "agentInfo": {"name": "ccore-fusion", "version": "0.1.0"}}}"#
        )
    );
    let (line, _) = acp.handle_jsonrpc_request("other", &Payload::new(), Some("\"x\""));
    assert_eq!(
        json(&line.unwrap()),
        json(r#"{"jsonrpc": "2.0", "id": "x", "result": {"error": "method not found"}}"#)
    );
    assert!(acp.handle_jsonrpc_request("initialize", &Payload::new(), None).0.is_none());
    let params = Payload::new().text("text", "hi").text("sessionId", "s");
    let (line, out) = acp.handle_jsonrpc_request("session/prompt", &params, Some("1"));
    assert!(line.is_none());
    let out = out.unwrap();
    assert_eq!(out.topic.as_str(), "agent/a1/input");
    assert_eq!(
        carried(&out.to_message("acp")),
        json(r#"{"content": "hi", "role": "user", "session_id": "s"}"#)
    );
    let (_, out) = acp.handle_jsonrpc_request("session/cancel", &Payload::new(), None);
    let out = out.unwrap();
    assert_eq!(out.topic.as_str(), "agent/a1/cancel");
    assert_eq!(out.payload.text_at("reason"), Some("user_cancelled"));
    assert_eq!(out.payload.text_at("session_id"), Some("default"));
}

#[test]
fn notifications_are_lines() {
    let acp = AcpNode::new(NodeId::from_str("acp"), "a1");
    let told = |m: &Message| acp.receive(m).map(|n| json(&n.line()));
    let output = packed("agent/a1/output", r#"{"channel": "code", "content": "x"}"#);
    assert_eq!(
        told(&output),
        Some(json(
            r#"{"jsonrpc": "2.0", "method": "session/update", "params": {"sessionId": "default",
                "update": {"type": "tool_call", "content": "x"}}}"#
        ))
    );
    let asked = packed("agent/a1/permission", r#"{"tool": ["a", 1]}"#);
    assert_eq!(
        told(&asked).unwrap()["params"]["update"],
        json(r#"{"type": "permission_request", "content": {"tool": ["a", 1]}}"#)
    );
    let unread = told(&broken("agent/a1/permission")).unwrap();
    assert_eq!(unread["params"]["update"]["content"], serde_json::Value::Null);
    assert_eq!(
        json(&acp.stop().line()),
        json(r#"{"jsonrpc": "2.0", "method": "session/end", "params": {"sessionId": "default"}}"#)
    );
    assert_eq!(told(&packed("agent/a1/event", "{}")), None);
}

#[test]
fn the_sampler_says_what_happens() {
    let usage = TokenUsage { prompt_tokens: 1, completion_tokens: 2, total_tokens: 3 };
    let value = |b: SamplerBody| {
        b.payload().map(|payload| {
            let out = Outgoing { topic: Topic::new("t"), payload, plane: Plane::Data };
            carried(&out.to_message("s"))
        })
    };
    assert_eq!(value(SamplerBody::Chunk), None);
    assert_eq!(
        value(SamplerBody::StreamError { error: "e".into(), request_id: "r".into() }),
        Some(json(r#"{"error": "e", "request_id": "r"}"#))
    );
    assert_eq!(
        value(SamplerBody::Done { request_id: "r".into(), usage, finish_reason: "stop".into() }),
        Some(json(
            r#"{"type": "done", "request_id": "r", "finish_reason": "stop",
                "usage": {"prompt_tokens": 1, "completion_tokens": 2, "total_tokens": 3}}"#
        ))
    );
    assert_eq!(
        value(SamplerBody::Cancelled { request_id: "r".into() }),
        Some(json(r#"{"type": "cancelled", "request_id": "r"}"#))
    );
    assert_eq!(
        value(SamplerBody::Fatal { error: "e".into(), request_id: "r".into(), retry_count: 2 }),
        Some(json(r#"{"error": "e", "request_id": "r", "retry_count": 2}"#))
    );
    let event = SamplerEvent::Started { request_id: "r".into(), model: "m".into() };
    assert_eq!(
        value(SamplerBody::Event { event }),
        Some(json(r#"{"Started": {"request_id": "r", "model": "m"}}"#))
    );
    assert_eq!(
        value(SamplerBody::GoalVerify { passed: true, reasoning: "ok".into() }),
        Some(json(r#"{"passed": true, "reasoning": "ok"}"#))
    );
}
