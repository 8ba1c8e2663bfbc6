//! Memories of episodes, and how the thinker is connected to them.

use ccore::memory::episodic::{EpisodicMemoryStore, MemorySource, MemoryType};
use ccore::memory::long_term::{compute_trigrams, trigram_similarity};
use ccore::node::thinker::memory_bridge::{EpisodicMemoryBridge, MemoryBridge, NoopMemoryBridge};

fn key(x: f64) -> i64 {
    if x >= 0.0 {
        (x + 0.0).to_bits() as i64
    } else {
        -((-x).to_bits() as i64)
    }
}

fn number(key: i64) -> f64 {
    f64::from_bits(key as u64)
}

fn similarity(a: &str, b: &str) -> f64 {
    let s = trigram_similarity(&compute_trigrams(a), &compute_trigrams(b));
    if s.whole == 0 {
        0.0
    } else {
        s.part as f64 / s.whole as f64
    }
}

fn make_source() -> MemorySource {
    MemorySource {
        session_id: "test_session".to_string(),
        timestamp: 1_700_000_000,
        message_index: Some(0),
        confidence: 0.9f64.to_bits(),
    }
}

const NOW: i64 = 1_700_000_000;

fn scores(store: &EpisodicMemoryStore, content: &str, keywords: &Vec<String>) -> Vec<i64> {
    (0..store.nodes.len())
        .map(|i| {
            let node = store.nodes.value_at(i);
            let hits = store.keyword_hits(i, keywords) as f64;
            let score = hits * 0.3 + similarity(content, &node.content) * 0.7;
            key(score * number(node.reward))
        })
        .collect()
}

fn encode(
    store: &mut EpisodicMemoryStore,
    kind: MemoryType,
    content: &str,
    context: &str,
    keywords: Vec<String>,
) -> String {
    let related = scores(store, content, &keywords);
    let raised: Vec<i64> = (0..store.nodes.len())
        .map(|i| key((number(store.nodes.value_at(i).reward) + 0.1).min(1.0)))
        .collect();
    store.encode(
        kind,
        content,
        context,
        keywords,
        make_source(),
        &related,
        &raised,
        (NOW as u64) * 1000,
        NOW,
    )
}

fn annotate(store: &mut EpisodicMemoryStore, id: &str, useful: bool) {
    let before = number(store.nodes.get(id).unwrap().reward);
    let delta = if useful { 0.1 } else { -0.2 };
    store.annotate_reward(id, key((before + delta).clamp(0.0, 1.0)), NOW);
}

fn words(v: &[&str]) -> Vec<String> {
    v.iter().map(|s| s.to_string()).collect()
}

#[test]
fn test_encode_memory() {
    let mut store = EpisodicMemoryStore::new();
    let id = encode(
        &mut store,
        MemoryType::Semantic,
        "Rust的HashMap是线程不安全的",
        "在并发编程讨论中提到",
        words(&["Rust", "HashMap", "并发"]),
    );
    assert!(id.starts_with("mem_"));
    let (s, e, p) = store.stats();
    assert_eq!(s, 1);
    assert_eq!(e, 0);
    assert_eq!(p, 0);
}

#[test]
fn test_bidirectional_links() {
    let mut store = EpisodicMemoryStore::new();
    let id1 = encode(
        &mut store,
        MemoryType::Semantic,
        "Rust的HashMap是线程不安全的",
        "在并发编程讨论中提到",
        words(&["Rust", "HashMap"]),
    );
    let id2 = encode(
        &mut store,
        MemoryType::Procedural,
        "并发场景使用Arc<RwLock<HashMap>>而非HashMap",
        "从HashMap数据竞争事故中学到的",
        words(&["Rust", "HashMap", "并发"]),
    );
    let node2 = store.nodes.get(&id2).unwrap();
    assert!(node2.forward_links.contains(&id1));
    let node1 = store.nodes.get(&id1).unwrap();
    assert!(node1.back_links.contains(&id2));
}

#[test]
fn test_reconstruct_context() {
    let mut store = EpisodicMemoryStore::new();
    encode(
        &mut store,
        MemoryType::Semantic,
        "Rust的HashMap是线程不安全的",
        "在并发编程讨论中提到",
        words(&["Rust", "HashMap"]),
    );
    encode(
        &mut store,
        MemoryType::Episodic,
        "上次尝试用HashMap做缓存导致了数据竞争",
        "代码审查中发现了这个问题",
        words(&["HashMap", "数据竞争"]),
    );
    let related = scores(&store, "HashMap", &Vec::new());
    let context = store.reconstruct_context(&related, 2);
    assert!(!context.is_empty());
    assert!(context.contains("HashMap"));
    let bridge = EpisodicMemoryBridge::new(store);
    assert_eq!(bridge.search_relevant(&related, 2), vec![context]);
    assert!(bridge.search_relevant(&vec![0, 0], 2).is_empty());
}

#[test]
fn test_annotate_reward() {
    let mut store = EpisodicMemoryStore::new();
    let id = encode(&mut store, MemoryType::Semantic, "测试记忆", "测试上下文", words(&["测试"]));
    annotate(&mut store, &id, true);
    annotate(&mut store, &id, true);
    let node = store.nodes.get(&id).unwrap();
    assert!(number(node.reward) > 0.5);
    assert_eq!(node.access_count, 2);
}

#[test]
fn test_trigram_similarity() {
    let sim = similarity("Rust的HashMap", "Rust的HashMap是线程不安全的");
    assert!(sim > 0.0);
    let sim2 = similarity("完全不相关的内容", "另一个无关文本");
    assert!(sim2 < sim);
}

#[test]
fn test_merge_similar() {
    let mut store = EpisodicMemoryStore::new();
    let id1 = encode(
        &mut store,
        MemoryType::Semantic,
        "Rust的Vec是线程不安全的",
        "讨论1",
        words(&["Rust"]),
    );
    let id2 = encode(
        &mut store,
        MemoryType::Semantic,
        "Rust的Vec是线程不安全的",
        "讨论2",
        words(&["Rust"]),
    );
    annotate(&mut store, &id1, false);
    annotate(&mut store, &id1, false);
    annotate(&mut store, &id2, false);
    annotate(&mut store, &id2, false);
    let n = store.nodes.len();
    let alike: Vec<Vec<bool>> = (0..n)
        .map(|i| {
            (0..n)
                .map(|j| {
                    similarity(&store.nodes.value_at(i).content, &store.nodes.value_at(j).content)
                        > 0.3
                })
                .collect()
        })
        .collect();
    let merged = store.merge_similar(key(0.3), &alike);
    assert!(merged >= 1);
}

#[test]
fn merging_three_loses_none() {
    let mut store = EpisodicMemoryStore::new();
    for context in ["讨论1", "讨论2", "讨论3"] {
        let content = format!("Rust的Vec是线程不安全的 {}", context);
        let id = encode(&mut store, MemoryType::Semantic, &content, context, words(&["Rust"]));
        annotate(&mut store, &id, false);
        annotate(&mut store, &id, false);
    }
    let merged = store.merge_similar(key(0.3), &vec![vec![true; 3]; 3]);
    assert_eq!(merged, 2);
    assert_eq!(store.nodes.len(), 1);
    let content = &store.nodes.value_at(0).content;
    for context in ["讨论1", "讨论2", "讨论3"] {
        assert!(content.contains(context));
    }
}

#[test]
fn test_prune() {
    let mut store = EpisodicMemoryStore::new();
    let id = encode(&mut store, MemoryType::Semantic, "待修剪的记忆", "旧上下文", words(&["旧"]));
    annotate(&mut store, &id, false);
    annotate(&mut store, &id, false);
    annotate(&mut store, &id, false);
    let pruned = store.prune(key(0.5), 30, NOW + 31 * 86400);
    assert!(pruned >= 1);
}

#[test]
fn test_three_memory_types() {
    let mut store = EpisodicMemoryStore::new();
    encode(
        &mut store,
        MemoryType::Semantic,
        "Rust的HashMap是线程不安全的",
        "知识库",
        words(&["Rust"]),
    );
    encode(
        &mut store,
        MemoryType::Episodic,
        "上次HashMap导致了数据竞争",
        "事故报告",
        words(&["HashMap"]),
    );
    encode(
        &mut store,
        MemoryType::Procedural,
        "使用Arc<RwLock<HashMap>>",
        "最佳实践",
        words(&["并发"]),
    );
    let (s, e, p) = store.stats();
    assert_eq!(s, 1);
    assert_eq!(e, 1);
    assert_eq!(p, 1);
}

#[test]
fn recent_and_useful_memories_are_not_pruned() {
    let mut store = EpisodicMemoryStore::new();
    let id = encode(&mut store, MemoryType::Semantic, "一条记忆", "上下文", words(&["记忆"]));
    assert_eq!(store.prune(key(0.9), 30, NOW + 30 * 86400), 0);
    annotate(&mut store, &id, true);
    assert_eq!(store.prune(key(0.55), 30, NOW + 300 * 86400), 0);
    assert_eq!(store.prune(key(0.9), 30, NOW + 300 * 86400), 1);
}

#[test]
fn oldest_memory_gives_way_and_is_unlinked() {
    let mut store = EpisodicMemoryStore::with_capacity(2);
    let a = encode(&mut store, MemoryType::Semantic, "alpha beta gamma", "x", words(&["alpha"]));
    let b = encode(&mut store, MemoryType::Semantic, "alpha beta gamma", "y", words(&["alpha"]));
    assert!(store.nodes.get(&b).unwrap().forward_links.contains(&a));
    encode(&mut store, MemoryType::Semantic, "something else", "z", words(&["else"]));
    assert_eq!(store.nodes.len(), 2);
    assert!(store.nodes.get(&a).is_none());
    assert!(!store.nodes.get(&b).unwrap().forward_links.contains(&a));
}

#[test]
fn memory_that_keeps_nothing_finds_nothing() {
    let none = NoopMemoryBridge;
    assert!(none.search_relevant("anything", 5).is_empty());
    none.extract_and_store(&vec![("user".to_string(), "text".to_string())]);
}

#[test]
fn sentences_are_not_cut() {
    let text = "First sentence here. Second one follows.\nThird line.";
    assert_eq!(EpisodicMemoryBridge::semantic_chunks(text, 500), vec![text.to_string()]);
    assert_eq!(
        EpisodicMemoryBridge::semantic_chunks(text, 25),
        vec!["First sentence here.", "Second one follows.", "Third line."]
    );
    assert_eq!(
        EpisodicMemoryBridge::semantic_chunks(text, 45),
        vec!["First sentence here. Second one follows.", "Third line."]
    );
    assert_eq!(
        EpisodicMemoryBridge::semantic_chunks("一句话。另一句话！", 12),
        vec!["一句话。", "另一句话！"]
    );
}

#[test]
fn stop_words_are_no_keywords() {
    assert!(EpisodicMemoryBridge::is_stop_word("The"));
    assert!(EpisodicMemoryBridge::is_stop_word("because"));
    assert!(EpisodicMemoryBridge::is_stop_word("的"));
    assert!(!EpisodicMemoryBridge::is_stop_word("borrow"));
    assert!(!EpisodicMemoryBridge::is_stop_word(""));
}

#[test]
fn sessions_become_memories() {
    let messages = vec![
        ("assistant".to_string(), "The borrow checker rejects this because of Lifetimes".to_string()),
        ("User".to_string(), "short".to_string()),
    ];
    let drafts = EpisodicMemoryBridge::extract_and_store(&messages);
    assert_eq!(drafts.len(), 1);
    assert_eq!(drafts[0].memory_type, MemoryType::Episodic);
    assert_eq!(drafts[0].keywords, vec!["borrow", "checker", "rejects", "this", "lifetimes"]);
    assert_eq!(drafts[0].message_index, 0);
    let whole = EpisodicMemoryBridge::extract_messages(&messages);
    assert_eq!(whole.len(), 1);
    assert_eq!(whole[0].content, messages[0].1);
    assert_eq!(whole[0].keywords.len(), 8);
    assert_eq!(whole[0].keywords[0], "The");
}
