//! Parameters, acknowledgements, numbered messages, working memory and files.

use ccore::memory::repo_map::{DependencyEdge, DependencyType, RepoMap};
use ccore::memory::storage::{MemoryScope, MemoryStorage, StorageError};
use ccore::memory::working::{WorkingEntry, WorkingMemory};
use ccore::message::ack::{AckConfig, AckManager};
use ccore::message::frame::{Message, MessageHeader};
use ccore::message::param::{ParamServer, ParamValue};
use ccore::message::sequence::{
    SequenceCheckResult, SequenceChecker, SequenceError, SequenceManager,
};
use ccore::message::topic::{Topic, TopicPattern};
use ccore::node::NodeId;
use ccore::path::FilePath;

fn is_integer(v: Option<&ParamValue>, n: i64) -> bool {
    matches!(v, Some(ParamValue::Integer(m)) if *m == n)
}

#[test]
fn parameters_are_set_and_read() {
    let mut server = ParamServer::new();
    assert!(server.is_empty());
    server.set("agent/a/limit", ParamValue::Integer(1));
    server.set("agent/b/limit", ParamValue::Integer(2));
    server.set("agent/a/name", ParamValue::Text("x".into()));
    server.set("agent/a/limit", ParamValue::Integer(3));
    assert_eq!(server.len(), 3);
    assert!(is_integer(server.get("agent/a/limit"), 3));
    assert!(is_integer(server.get_value("agent/b/limit"), 2));
    assert!(server.get("agent").is_none());
    assert_eq!(server.list(), vec!["agent/a/limit", "agent/b/limit", "agent/a/name"]);
    assert_eq!(server.list_prefix("agent/a/"), vec!["agent/a/limit", "agent/a/name"]);
    assert!(is_integer(server.delete("agent/a/limit").as_ref(), 3));
    assert!(server.delete("agent/a/limit").is_none());
    assert!(!server.has("agent/a/limit"));
    assert!(server.has("agent/b/limit"));
}

#[test]
fn parameters_are_searched_by_segments() {
    let mut server = ParamServer::new();
    server.set("agent/a/limit", ParamValue::Integer(1));
    server.set("agent/b/limit", ParamValue::Integer(2));
    server.set("agent/limit", ParamValue::Null);
    let names = |p: &str| -> Vec<String> {
        server.search(p).iter().map(|f| f.0.to_string()).collect()
    };
    assert_eq!(names("agent/*/limit"), vec!["agent/a/limit", "agent/b/limit"]);
    assert_eq!(names("agent/*"), vec!["agent/limit"]);
    assert_eq!(names("*/b/*"), vec!["agent/b/limit"]);
    assert_eq!(names("agent/limit"), vec!["agent/limit"]);
    assert!(names("agent/a*/limit").is_empty());
    assert!(names("agent").is_empty());
}

fn sent(id: &str) -> Message {
    Message {
        topic: Topic::new("a/b"),
        header: MessageHeader {
            msg_id: id.into(),
            timestamp: String::new(),
            src_node: "n".into(),
            reply_to: None,
            sequence: 1,
            requires_ack: true,
        },
        payload: Vec::new(),
    }
}

const SECOND: u64 = 1_000_000_000;

#[test]
fn overdue_messages_are_sent_again_and_then_fail() {
    let config = AckConfig { ack_timeout_secs: 30, max_retries: 2, retry_delays_ms: vec![1000] };
    let mut manager = AckManager::new(config);
    manager.record_sent(sent("m1"), 0);
    manager.record_sent(sent("m2"), 0);
    assert!(manager.check_timeout(30 * SECOND).is_empty());
    assert!(manager.handle_ack("m2", 30 * SECOND));
    let again = manager.check_timeout(31 * SECOND);
    assert_eq!(again.len(), 1);
    assert_eq!(again[0].header.msg_id, "m1");
    assert_eq!(manager.check_timeout(62 * SECOND).len(), 1);
    assert!(manager.get_failed_messages().is_empty());
    assert!(manager.check_timeout(93 * SECOND).is_empty());
    assert_eq!(manager.pending_count(), 0);
    assert_eq!(manager.get_failed_messages().len(), 1);
    assert_eq!(manager.get_failed_messages()[0].1, "达到最大重试次数");
    assert!(!manager.handle_ack("m1", 94 * SECOND));
}

#[test]
fn numbers_are_followed_by_node() {
    let mut checker = SequenceChecker::new(100);
    let (a, b) = (NodeId::from_str("a"), NodeId::from_str("b"));
    assert_eq!(checker.check(&a, 5), Ok(SequenceCheckResult::InOrder));
    assert_eq!(checker.check(&a, 6), Ok(SequenceCheckResult::InOrder));
    assert_eq!(checker.check(&a, 9), Ok(SequenceCheckResult::Gap(3)));
    assert_eq!(checker.check(&a, 9), Err(SequenceError::Duplicate));
    let refused = checker.check(&a, 2);
    assert_eq!(refused, Err(SequenceError::OutOfOrder { expected: 10, actual: 2 }));
    assert_eq!(refused.unwrap_err().describe(), "序列号乱序：期望 10，实际 2");
    assert_eq!(checker.get_last_sequence(&a), Some(9));
    assert_eq!(checker.get_last_sequence(&b), None);
    checker.reset(&a);
    assert_eq!(checker.check(&a, 1), Ok(SequenceCheckResult::InOrder));
}

#[test]
fn given_numbers_follow_each_other() {
    let mut manager = SequenceManager::new(NodeId::from_str("a"));
    let first = manager.next_sequence();
    for i in 1..50 {
        assert_eq!(manager.next_sequence(), first + i);
    }
    assert_eq!(manager.current_sequence(), first + 50);
}

#[test]
fn the_greatest_number_is_remembered() {
    let mut checker = SequenceChecker::new(3);
    let a = NodeId::from_str("a");
    for n in [4, 9, 2, 7, 30, 11] {
        let _ = checker.check(&a, n);
    }
    assert_eq!(checker.get_last_sequence(&a), Some(30));
}

#[test]
fn topics_have_a_form() {
    assert!(Topic::new("agent/a/input").is_well_formed());
    assert!(!Topic::new("").is_well_formed());
    assert!(Topic::new(&"x".repeat(100)).is_well_formed());
    assert!(!Topic::new(&format!("a/{}", "x".repeat(101))).is_well_formed());
    assert_eq!(Topic::service_request("s").as_str(), "service/s/request");
    assert_eq!(Topic::subagent_crashed("s").as_str(), "subagent/s/crashed");
    assert_eq!(Topic::cortex_think("a").as_str(), "cortex/a/think");
    let all = TopicPattern::all_agent_permissions();
    assert!(all.matches(&Topic::agent_permission("a1")));
    assert!(!all.matches(&Topic::agent_cancel("a1")));
}

#[test]
fn old_entries_are_cooled() {
    let mut memory = WorkingMemory::new(100);
    for i in 0..6 {
        memory.push_hot("user".into(), format!("message {}", i), 15);
    }
    assert_eq!(memory.used_tokens(), 90);
    assert_eq!(memory.available_tokens(), 10);
    assert!(memory.should_compact());
    assert!(memory.can_compact());
    let report = memory.compact();
    assert_eq!(report.tokens_before, 90);
    assert_eq!(report.entries_compacted, 2);
    assert_eq!(report.compacted_range, (0, 1));
    assert_eq!(report.tokens_after, memory.used_tokens());
    assert!(matches!(memory.entries()[0], WorkingEntry::Warm { .. }));
    assert!(matches!(memory.entries()[2], WorkingEntry::Hot { .. }));
    assert!(!memory.should_compact());
    let said = memory.to_chat_messages();
    assert_eq!(said[0].0, "system");
    assert!(said[0].1.starts_with("[上下文摘要] "));
    assert_eq!(said[5], ("user".to_string(), "message 5".to_string()));
    memory.compact();
    assert!(matches!(memory.entries()[0], WorkingEntry::Cold { .. }));
}

fn hot(content: &str) -> WorkingEntry {
    WorkingEntry::Hot { role: "user".into(), content: content.into(), token_count: 40 }
}

fn cold() -> WorkingEntry {
    WorkingEntry::Cold { placeholder: "[冷记忆]".into(), source_range: (1, 2), token_count: 5 }
}

#[test]
fn only_the_oldest_block_is_cooled() {
    let mut memory = WorkingMemory::new(100);
    let mut entries = vec![hot("first"), cold()];
    for i in 0..5 {
        entries.push(hot(&format!("message {}", i)));
    }
    memory.replace_entries(entries);
    let report = memory.compact();
    assert_eq!((report.entries_compacted, report.compacted_range), (1, (0, 0)));
    assert!(matches!(memory.entries()[0], WorkingEntry::Warm { .. }));
    assert!(matches!(memory.entries()[1], WorkingEntry::Cold { .. }));
    for i in 2..7 {
        assert!(matches!(memory.entries()[i], WorkingEntry::Hot { .. }));
    }
}

#[test]
fn cold_entries_are_not_said() {
    let mut memory = WorkingMemory::new(100);
    memory.replace_entries(vec![cold(), hot("here"), cold()]);
    let said = memory.to_chat_messages();
    assert_eq!(said, [("user".to_string(), "here".to_string())]);
}

#[test]
fn a_few_entries_are_left_alone() {
    let mut memory = WorkingMemory::new(0);
    assert!(!memory.should_compact());
    for _ in 0..4 {
        memory.push_hot("user".into(), "x".into(), 10);
    }
    let report = memory.compact();
    assert_eq!((report.entries_compacted, report.compacted_range), (0, (0, 0)));
    assert_eq!(memory.used_tokens(), 40);
}

#[test]
fn memories_have_their_places() {
    let storage = MemoryStorage::with_default_root(Some("/home/u"), "/work");
    assert_eq!(storage.root().as_text(), "/home/u/.ccode/memory");
    let hash = storage.workspace_hash().to_string();
    let dir = format!("/home/u/.ccode/memory/{}", hash);
    assert_eq!(storage.workspace_dir().as_text(), dir);
    assert_eq!(storage.session_dir().as_text(), format!("{}/sessions", dir));
    let file = |scope| storage.read_path(scope).map(|p| p.as_text().to_string());
    assert_eq!(file(MemoryScope::Global), Some("/home/u/.ccode/memory/MEMORY.md".to_string()));
    assert_eq!(file(MemoryScope::Workspace), Some(format!("{}/MEMORY.md", dir)));
    assert_eq!(file(MemoryScope::Session), None);
    let target = storage.write_target(MemoryScope::Workspace).unwrap();
    assert_eq!(target.0.as_text(), dir);
    assert_eq!(Some(target.1.as_text().to_string()), file(MemoryScope::Workspace));
    let refused = storage.write_target(MemoryScope::Session).unwrap_err();
    assert_eq!(refused, StorageError::SessionScope);
    assert_eq!(refused.describe(), "Session scope requires write_session method");
    assert!(MemoryStorage::global_template().starts_with("# Global Memory\n"));
    assert!(MemoryStorage::workspace_template().starts_with("# Project Memory\n"));
    let file = storage.session_file("2026-01-01", "s", "0123456789");
    assert_eq!(file.file_name(), Some("2026-01-01-s-01234567.md".to_string()));
    assert!(MemoryStorage::is_session_name("2026-01-01-s-01234567.md"));
    assert!(!MemoryStorage::is_session_name(".md"));
}

#[test]
fn dependents_are_found_backwards() {
    let mut map = RepoMap::new(FilePath::new("/p"));
    for (from, to) in [("a", "b"), ("b", "c"), ("d", "c"), ("c", "a")] {
        map.add_dependency(DependencyEdge {
            from: FilePath::new(from),
            to: FilePath::new(to),
            dep_type: DependencyType::Direct,
        });
    }
    let back = map.all_dependents(&FilePath::new("c"));
    for name in ["a", "b", "d"] {
        assert!(back.contains(&FilePath::new(name)), "{}", name);
    }
    let forth = map.all_dependencies(&FilePath::new("d"));
    assert!(!forth.contains(&FilePath::new("x")));
    for name in ["a", "b", "c"] {
        assert!(forth.contains(&FilePath::new(name)), "{}", name);
    }
}
