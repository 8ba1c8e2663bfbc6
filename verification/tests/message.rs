use ccore::message::ack::{backoff_delays, create_ack_message, AckConfig, AckManager};
use ccore::message::frame::{FrameCodec, FrameError, Message, MessageHeader, RawMessage};
use ccore::message::sequence::{
    SequenceCheckResult, SequenceChecker, SequenceError, SequenceManager,
};
use ccore::message::topic::{topic_matches, Topic, TopicPattern};
use ccore::node::NodeId;

#[test]
fn test_sequence_manager() {
    let mut mgr = SequenceManager::new(NodeId::from_str("test"));

    assert_eq!(mgr.next_sequence(), 0);
    assert_eq!(mgr.next_sequence(), 1);
    assert_eq!(mgr.next_sequence(), 2);
    assert_eq!(mgr.current_sequence(), 3);
}

#[test]
fn test_sequence_checker_in_order() {
    let mut checker = SequenceChecker::new(10);
    let node_id = NodeId::from_str("node-1");

    assert_eq!(
        checker.check(&node_id, 0).unwrap(),
        SequenceCheckResult::InOrder
    );
    assert_eq!(
        checker.check(&node_id, 1).unwrap(),
        SequenceCheckResult::InOrder
    );
    assert_eq!(
        checker.check(&node_id, 2).unwrap(),
        SequenceCheckResult::InOrder
    );
}

#[test]
fn test_sequence_checker_gap() {
    let mut checker = SequenceChecker::new(10);
    let node_id = NodeId::from_str("node-1");

    checker.check(&node_id, 0).unwrap();
    let result = checker.check(&node_id, 5).unwrap();
    assert_eq!(result, SequenceCheckResult::Gap(5));
}

#[test]
fn test_sequence_checker_out_of_order() {
    let mut checker = SequenceChecker::new(10);
    let node_id = NodeId::from_str("node-1");

    checker.check(&node_id, 5).unwrap();
    let result = checker.check(&node_id, 3);
    assert!(result.is_err());
    assert_eq!(
        result.unwrap_err(),
        SequenceError::OutOfOrder {
            expected: 6,
            actual: 3
        }
    );
}

#[test]
fn test_sequence_checker_duplicate() {
    let mut checker = SequenceChecker::new(10);
    let node_id = NodeId::from_str("node-1");

    checker.check(&node_id, 5).unwrap();
    let result = checker.check(&node_id, 5);
    assert!(result.is_err());
    assert_eq!(result.unwrap_err(), SequenceError::Duplicate);
}

#[test]
fn test_exact_match() {
    let pattern = TopicPattern::new("agent/abc/input");
    let topic = Topic::agent_input("abc");
    assert!(pattern.matches(&topic));
}

#[test]
fn test_wildcard_single() {
    let pattern = TopicPattern::all_agent_outputs();
    assert!(pattern.matches(&Topic::agent_output("abc")));
    assert!(pattern.matches(&Topic::agent_output("xyz")));
    assert!(!pattern.matches(&Topic::agent_input("abc")));
}

#[test]
fn test_wildcard_multi() {
    let pattern = TopicPattern::new("agent/**");
    assert!(pattern.matches(&Topic::agent_input("abc")));
    assert!(pattern.matches(&Topic::agent_output("abc")));
}

#[test]
fn a_star_stands_for_one_segment_only() {
    assert!(topic_matches("a/*/c", "a/b/c"));
    assert!(!topic_matches("a/*/c", "a/b/b/c"));
    assert!(!topic_matches("a/*", "a/b/c"));
    assert!(topic_matches("a/**", "a/b/c"));
}

#[test]
fn test_encode_decode_roundtrip() {
    let topic = Topic::sys_heartbeat();
    let mut object = serde_json::Map::new();
    object.insert("text".to_string(), serde_json::Value::from("hello"));
    object.insert("value".to_string(), serde_json::Value::from(42));
    let payload = serde_json::Value::Object(object);
    let bytes = rmp_serde::to_vec_named(&payload).unwrap();
    let msg = FrameCodec::new_message(topic, "node-1", bytes);
    assert_eq!(msg.header.src_node, "node-1");

    let h = &msg.header;
    let mut header = serde_json::Map::new();
    header.insert("msg_id".to_string(), h.msg_id.clone().into());
    header.insert("timestamp".to_string(), h.timestamp.clone().into());
    header.insert("src_node".to_string(), h.src_node.clone().into());
    header.insert("reply_to".to_string(), h.reply_to.clone().into());
    header.insert("sequence".to_string(), h.sequence.into());
    header.insert("requires_ack".to_string(), h.requires_ack.into());
    let raw = RawMessage {
        topic: Topic::new(msg.topic.as_str()),
        header: rmp_serde::to_vec_named(&serde_json::Value::Object(header)).unwrap(),
        payload: msg.payload,
    };
    let frames = FrameCodec::encode(&raw);
    assert_eq!(frames.len(), 3);
    let decoded = FrameCodec::decode(&frames).unwrap();
    assert_eq!(decoded.topic, msg.topic);
    let header: serde_json::Value = rmp_serde::from_slice(&decoded.header).unwrap();
    assert_eq!(header["src_node"], "node-1");
    let decoded_payload: serde_json::Value = rmp_serde::from_slice(&decoded.payload).unwrap();
    assert_eq!(decoded_payload, payload);
}

#[test]
fn test_reply_message() {
    let topic = Topic::state_response();
    let mut object = serde_json::Map::new();
    object.insert("ok".to_string(), serde_json::Value::from(true));
    let payload = rmp_serde::to_vec_named(&serde_json::Value::Object(object)).unwrap();
    let msg = FrameCodec::new_reply(topic, "state-1", "original-msg-id", payload);
    assert_eq!(msg.header.reply_to, Some("original-msg-id".into()));
}

#[test]
fn too_few_frames_are_refused() {
    let result = FrameCodec::decode(&[vec![1], vec![2]]);
    assert!(result.is_err());
    let error: FrameError = result.unwrap_err();
    assert!(!error.describe().is_empty());
}

#[test]
fn a_topic_that_is_no_text_is_refused() {
    let frames = vec![vec![0xff, 0xfe], vec![], vec![]];
    assert!(FrameCodec::decode(&frames).is_err());
}

#[test]
fn messages_have_names_of_their_own() {
    let a = FrameCodec::new_message(Topic::sys_heartbeat(), "node-1", vec![]);
    let b = FrameCodec::new_message(Topic::sys_heartbeat(), "node-1", vec![]);
    assert_eq!(a.header.msg_id.len(), 36);
    assert_ne!(a.header.msg_id, b.header.msg_id);
    assert!(a.header.timestamp.contains('T'));
}

fn sent(id: &str) -> Message {
    Message {
        topic: Topic::new("test/topic"),
        header: MessageHeader {
            msg_id: id.to_string(),
            timestamp: "2026-01-01T00:00:00+00:00".to_string(),
            src_node: "test-node".to_string(),
            reply_to: None,
            sequence: 1,
            requires_ack: false,
        },
        payload: vec![],
    }
}

#[test]
fn test_ack_flow() {
    let mut manager = AckManager::new(AckConfig::default());

    manager.record_sent(sent("test-msg-1"), 0);
    assert_eq!(manager.pending_count(), 1);

    let handled = manager.handle_ack("test-msg-1", 1);
    assert!(handled);
    assert_eq!(manager.pending_count(), 0);
}

#[test]
fn test_retry_delay() {
    let manager = AckManager::new(AckConfig {
        retry_delays_ms: backoff_delays(1000, 10000, 2, 4),
        ..Default::default()
    });

    assert_eq!(manager.calculate_retry_delay(0), 1000);
    assert_eq!(manager.calculate_retry_delay(1), 2000);
    assert_eq!(manager.calculate_retry_delay(2), 4000);
    assert_eq!(manager.calculate_retry_delay(3), 8000);
    assert_eq!(manager.calculate_retry_delay(4), 10000);
}

#[test]
fn usual_delays_grow_to_half_a_minute() {
    let manager = AckManager::new(AckConfig { max_retries: 9, ..Default::default() });
    let delays: Vec<u64> = (0..9).map(|n| manager.calculate_retry_delay(n)).collect();
    assert_eq!(delays, [1000, 2000, 4000, 8000, 16000, 30000, 30000, 30000, 30000]);
    assert!(manager.is_in_time(0));
    assert!(manager.is_in_time(u64::MAX - 30_000_000_000));
    assert!(!manager.is_in_time(u64::MAX - 30_000_000_000 + 1));
}

#[test]
fn an_unknown_message_is_not_acknowledged() {
    let mut manager = AckManager::new(AckConfig::default());
    assert!(!manager.handle_ack("nobody", 1));
}

#[test]
fn an_acknowledgement_names_the_message() {
    let ack = create_ack_message("test-msg-1", "node-1");
    assert_eq!(ack.topic, Topic::sys_ack());
    assert_eq!(ack.header.reply_to, Some("test-msg-1".to_string()));
    assert_eq!(ack.header.src_node, "node-1");
}
