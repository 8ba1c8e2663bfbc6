//! Long-term memory, dreams, storage, recall and the sliding window.

use ccore::memory::dream::{DreamConfig, DreamOrganizer};
use ccore::memory::embedding::{EmbeddingIndex, EmbeddingVector};
use ccore::memory::function_embed::{CodeBlock, CodeBlockKind};
use ccore::memory::heat::{classify, HeatThresholds, Temperature};
use ccore::memory::intent_retriever::IntentRetriever;
use ccore::memory::long_term::{
    compute_trigrams, keyword_match, keyword_similarity, merge_search_results, source_weight,
    tokenize, trigram_similarity, KnowledgeCategory, KnowledgeEntry, LongTermMemory, SearchResult,
    SearchSource, Share,
};
use ccore::memory::recall::{recall, RecallRequest};
use ccore::memory::short_term::ShortTermMemory;
use ccore::memory::storage::{MemoryScope, MemoryStorage, StorageError};
use ccore::memory::summarizer::DirectSamplerSummarizer;
use ccore::memory::watcher::{changes, is_watched, MemoryWatchEvent};
use ccore::memory::window::{MessageMeta, SlidingWindow};
use ccore::memory::working::{WorkingEntry, WorkingMemory};
use ccore::node::payload::Payload;
use ccore::path::FilePath;
use ccore::text::text_map::TextMap;

fn key(x: f64) -> i64 {
    if x >= 0.0 {
        (x + 0.0).to_bits() as i64
    } else {
        -((-x).to_bits() as i64)
    }
}

fn number(key: i64) -> f64 {
    f64::from_bits(key as u64)
}

fn ratio(s: &Share) -> f64 {
    if s.whole == 0 {
        0.0
    } else {
        s.part as f64 / s.whole as f64
    }
}

fn store(memory: &mut ShortTermMemory, content: &str) -> String {
    memory.store("user".into(), content.into(), 10, false, Vec::new())
}

fn simple_heats(memory: &ShortTermMemory, lambda: f64) -> Vec<i64> {
    memory
        .all_entries()
        .iter()
        .map(|e| {
            let elapsed = memory.current_turn().saturating_sub(e.turn);
            let recency = (-lambda * elapsed as f64).exp();
            let activity = (e.recall_count as f64 / 5.0).min(1.0);
            key(0.6 * recency + 0.4 * activity)
        })
        .collect()
}

fn knowledge(id: &str, content: &str, embedding: &[f32]) -> KnowledgeEntry {
    KnowledgeEntry {
        id: id.into(),
        category: KnowledgeCategory::Architecture,
        content: content.into(),
        embedding: embedding.iter().map(|v| v.to_bits()).collect(),
        metadata: Payload::new(),
        created_at: "2026-01-01T00:00:00+00:00".into(),
        updated_at: "2026-01-01T00:00:00+00:00".into(),
    }
}

fn result(id: &str, content: &str, score: f64, source: SearchSource) -> SearchResult {
    SearchResult {
        id: id.into(),
        content: content.into(),
        score: key(score),
        source,
        created_at: String::new(),
    }
}

#[test]
fn test_build_consolidation_prompt() {
    let organizer = DreamOrganizer::new();
    let entries = vec!["Entry one about architecture", "Entry two about decisions"];
    let prompt = organizer.build_consolidation_prompt(&entries);
    assert!(prompt.contains("Consolidate"));
    assert!(prompt.contains("[0] Entry one"));
    assert!(prompt.contains("[1] Entry two"));
    assert!(prompt.contains("consolidated markdown section"));
}

#[test]
fn test_build_consolidation_prompt_empty() {
    let organizer = DreamOrganizer::new();
    let entries: Vec<&str> = vec![];
    let prompt = organizer.build_consolidation_prompt(&entries);
    assert!(prompt.contains("Consolidate"));
    assert!(prompt.contains("Entries:"));
}

#[test]
fn test_parse_consolidation_response() {
    let response = "  ## Summary\n\nKey points here.  \n";
    let parsed = DreamOrganizer::parse_consolidation_response(response);
    assert_eq!(parsed, "## Summary\n\nKey points here.");
}

#[test]
fn test_should_auto_trigger_below_threshold() {
    let mut short_term = ShortTermMemory::new();
    for _ in 0..3 {
        store(&mut short_term, "some content");
    }
    let organizer = DreamOrganizer::with_config(DreamConfig {
        min_cold_entries: 5,
        heat_threshold: key(0.3),
        decay_lambda: 0.1f64.to_bits(),
    });
    let heats = simple_heats(&short_term, 0.1);
    assert!(!organizer.should_auto_trigger(&short_term, &heats));
}

#[test]
fn test_should_auto_trigger_sufficient_cold() {
    let mut short_term = ShortTermMemory::new();
    for _ in 0..10 {
        store(&mut short_term, "some content");
    }
    let organizer = DreamOrganizer::with_config(DreamConfig {
        min_cold_entries: 3,
        heat_threshold: key(0.99),
        decay_lambda: 0.1f64.to_bits(),
    });
    let heats = simple_heats(&short_term, 0.1);
    assert!(organizer.should_auto_trigger(&short_term, &heats));
}

#[test]
fn test_try_acquire_lock() {
    assert!(DreamOrganizer::can_lock(None, false));
    assert!(DreamOrganizer::can_lock(None, true));
}

#[test]
fn test_try_acquire_lock_existing_stale() {
    assert_eq!(DreamOrganizer::lock_holder("999999999"), Some(999999999));
    assert!(DreamOrganizer::can_lock(DreamOrganizer::lock_holder("999999999"), false));
    assert!(!DreamOrganizer::can_lock(DreamOrganizer::lock_holder(" 12\n"), true));
    assert_eq!(DreamOrganizer::lock_holder("not a number"), None);
}

#[test]
fn test_infer_category() {
    assert!(matches!(
        DreamOrganizer::infer_category("系统架构设计"),
        KnowledgeCategory::Architecture
    ));
    assert!(matches!(
        DreamOrganizer::infer_category("决定使用 Rust"),
        KnowledgeCategory::Decision
    ));
    assert!(matches!(
        DreamOrganizer::infer_category("用户偏好暗色主题"),
        KnowledgeCategory::UserPreference
    ));
    assert!(matches!(
        DreamOrganizer::infer_category("修复了空指针 bug"),
        KnowledgeCategory::ErrorFix
    ));
    assert!(matches!(
        DreamOrganizer::infer_category("使用 Builder 模式"),
        KnowledgeCategory::CodePattern
    ));
    assert!(matches!(
        DreamOrganizer::infer_category("ARCHITECTURE"),
        KnowledgeCategory::Architecture
    ));
}

#[test]
fn dream_moves_cold_messages() {
    let mut memory = ShortTermMemory::new();
    for n in 0..6 {
        store(&mut memory, &format!("message {}", n));
    }
    let organizer = DreamOrganizer::with_config(DreamConfig {
        min_cold_entries: 2,
        heat_threshold: 100,
        decay_lambda: 0.1f64.to_bits(),
    });
    let heats = vec![50, 200, 50, 200, 50, 200];
    let plan = organizer.plan(&memory, &heats, "now").unwrap();
    assert_eq!(plan.knowledge.len(), 3);
    assert_eq!(plan.knowledge[1].content, "message 2");
    let done = DreamOrganizer::finish(&mut memory, &plan, 3);
    assert_eq!((done.consolidated, done.removed_from_l1), (3, 3));
    let left: Vec<&str> = memory.all_entries().iter().map(|e| e.content.as_str()).collect();
    assert_eq!(left, vec!["message 1", "message 3", "message 5"]);
    assert!(organizer.plan(&memory, &vec![50, 200, 200], "now").is_none());
}

#[test]
fn test_tokenize() {
    let tokens = tokenize("Rust 是一门系统编程语言!");
    assert!(tokens.contains(&"rust".to_string()));
    assert!(tokens.contains(&"系统编程语言".to_string()));
}

#[test]
fn test_keyword_similarity_full_match() {
    let query = tokenize("项目架构");
    let entry = tokenize("项目架构知识包括模块划分和依赖关系");
    assert!(ratio(&keyword_similarity(&query, &entry)) > 0.5);
}

#[test]
fn test_keyword_similarity_no_match() {
    let query = tokenize("数据库连接池");
    let entry = tokenize("前端路由配置和样式主题");
    assert!(ratio(&keyword_similarity(&query, &entry)) < 0.3);
}

#[test]
fn test_compute_trigrams() {
    let trigrams = compute_trigrams("hello");
    assert!(trigrams.contains("hel"));
    assert!(trigrams.contains("ell"));
    assert!(trigrams.contains("llo"));
}

#[test]
fn test_compute_trigrams_short() {
    let trigrams = compute_trigrams("ab");
    assert!(trigrams.contains("ab"));
}

#[test]
fn test_compute_trigrams_empty() {
    let trigrams = compute_trigrams("");
    assert!(trigrams.is_empty());
}

#[test]
fn test_trigram_similarity_identical() {
    let a = compute_trigrams("hello world");
    let b = compute_trigrams("hello world");
    assert!((ratio(&trigram_similarity(&a, &b)) - 1.0).abs() < 1e-6);
}

#[test]
fn test_trigram_similarity_no_overlap() {
    let a = compute_trigrams("abc");
    let b = compute_trigrams("xyz");
    assert!(ratio(&trigram_similarity(&a, &b)) < 0.01);
}

#[test]
fn trigram_share_is_exact() {
    let a = compute_trigrams("hello");
    let b = compute_trigrams("jello");
    let s = trigram_similarity(&a, &b);
    assert_eq!((s.part, s.whole), (2, 4));
}

#[test]
fn words_of_one_letter_are_no_keywords() {
    assert_eq!(tokenize("A fast, small b-tree"), vec!["fast", "small", "tree"]);
    assert!(tokenize(" . ").is_empty());
    assert_eq!(tokenize("Café привет 한국어 ελληνικά"), ["café", "привет", "한국어", "ελληνικά"]);
    assert_eq!(tokenize("用Rust写 x"), ["用rust写", "rust写", "ust写", "st写", "t写"]);
    let entry = tokenize("приветствие");
    assert_eq!(keyword_similarity(&tokenize("привет"), &entry), Share { part: 0, whole: 1 });
    assert_eq!(keyword_similarity(&tokenize("приветствие"), &entry), Share { part: 1, whole: 1 });
}

#[test]
fn test_merge_search_results_dedup() {
    let keyword = vec![result("1", "shared content", 0.5, SearchSource::Keyword)];
    let vector = vec![result("2", "shared content", 0.8, SearchSource::Vector)];
    let merged = merge_search_results(keyword, vector);
    assert_eq!(merged.len(), 1);
    assert_eq!(merged[0].source, SearchSource::Hybrid);
    assert!((number(merged[0].score) - 0.8).abs() < 1e-6);
}

#[test]
fn test_merge_search_results_distinct() {
    let keyword = vec![result("1", "keyword only", 0.6, SearchSource::Keyword)];
    let vector = vec![result("2", "vector only", 0.9, SearchSource::Vector)];
    let merged = merge_search_results(keyword, vector);
    assert_eq!(merged.len(), 2);
}

#[test]
fn test_apply_source_weights() {
    assert_eq!(source_weight(SearchSource::Keyword), 3);
    assert_eq!(source_weight(SearchSource::Vector), 7);
    assert_eq!(source_weight(SearchSource::Hybrid), 10);
}

#[test]
fn test_keyword_search() {
    let ltm = LongTermMemory::with_dir(FilePath::new("/tmp/memory"));
    let entries = vec![
        knowledge("1", "项目使用 Rust 编写，采用模块化架构", &[]),
        knowledge("2", "前端使用 React 和 TypeScript", &[]),
    ];
    let scores: Vec<i64> = entries
        .iter()
        .map(|e| {
            let m = keyword_match("Rust 架构", &e.content);
            key(0.5 * ratio(&m.substring) + 0.5 * ratio(&m.trigram))
        })
        .collect();
    let results = ltm.keyword_search(&entries, &scores, 10);
    assert!(!results.is_empty());
    assert!(results[0].content.contains("Rust"));
}

#[test]
fn test_vector_search() {
    let ltm = LongTermMemory::with_dir(FilePath::new("/tmp/memory"));
    let entries = vec![
        knowledge("1", "项目架构信息", &[1.0, 0.0, 0.0]),
        knowledge("2", "代码模式", &[0.0, 1.0, 0.0]),
    ];
    let query: Vec<u32> = [1.0f32, 0.0, 0.0].iter().map(|v| v.to_bits()).collect();
    let results = ltm.vector_search(&entries, &query, &vec![key(1.0), key(0.0)], 10);
    assert_eq!(results.len(), 1);
    assert_eq!(results[0].id, "1");
}

#[test]
fn test_hybrid_search() {
    let ltm = LongTermMemory::with_dir(FilePath::new("/tmp/memory"));
    let entries = vec![knowledge("1", "Rust 模块化架构设计", &[1.0, 0.0, 0.0])];
    let query: Vec<u32> = [1.0f32, 0.0, 0.0].iter().map(|v| v.to_bits()).collect();
    let m = keyword_match("Rust 架构", &entries[0].content);
    let by_keyword = key(0.5 * ratio(&m.substring) + 0.5 * ratio(&m.trigram));
    let results = merge_search_results(
        ltm.keyword_search(&entries, &vec![by_keyword], 20),
        ltm.vector_search(&entries, &query, &vec![key(1.0)], 20),
    );
    assert!(!results.is_empty());
    assert_eq!(results[0].source, SearchSource::Hybrid);
}

#[test]
fn entries_have_files() {
    let ltm = LongTermMemory::new(Some("/home/u"));
    assert_eq!(ltm.entry_path("k1").as_text(), "/home/u/.ccode/memory/k1.json");
    assert!(LongTermMemory::is_entry_file(&FilePath::new("/x/k1.json")));
    assert!(!LongTermMemory::is_entry_file(&FilePath::new("/x/MEMORY.md")));
}

#[test]
fn test_compute_workspace_hash_deterministic() {
    let hash1 = MemoryStorage::compute_workspace_hash("/some/workspace");
    let hash2 = MemoryStorage::compute_workspace_hash("/some/workspace");
    assert_eq!(hash1, hash2);
}

#[test]
fn test_compute_workspace_hash_different_paths() {
    let hash1 = MemoryStorage::compute_workspace_hash("/workspace/a");
    let hash2 = MemoryStorage::compute_workspace_hash("/workspace/b");
    assert_ne!(hash1, hash2);
}

#[test]
fn test_compute_workspace_hash_length() {
    let hash = MemoryStorage::compute_workspace_hash("/test/path");
    assert_eq!(hash.len(), 16, "hash should be 16 hex chars");
    assert!(hash.chars().all(|c| c.is_ascii_hexdigit()));
}

#[test]
fn workspace_hash_is_that_of_blake3() {
    // The BLAKE3 hash of the empty input begins with these digits.
    assert_eq!(MemoryStorage::compute_workspace_hash(""), "af1349b9f5f9a1a6");
}

#[test]
fn test_read_write_global() {
    let storage = MemoryStorage::new(FilePath::new("/r/memory"), "/test/project");
    let (dir, file) = storage.write_target(MemoryScope::Global).unwrap();
    assert_eq!(dir.as_text(), "/r/memory");
    assert_eq!(file.as_text(), "/r/memory/MEMORY.md");
    assert_eq!(storage.read_path(MemoryScope::Global).unwrap().as_text(), file.as_text());
}

#[test]
fn test_read_write_workspace() {
    let storage = MemoryStorage::new(FilePath::new("/r/memory"), "/test/project");
    let (dir, file) = storage.write_target(MemoryScope::Workspace).unwrap();
    assert_eq!(dir.as_text(), format!("/r/memory/{}", storage.workspace_hash()));
    assert_eq!(storage.read_path(MemoryScope::Workspace).unwrap().as_text(), file.as_text());
}

#[test]
fn session_scope_has_no_file() {
    let storage = MemoryStorage::new(FilePath::new("/r/memory"), "/test/project");
    assert!(storage.read_path(MemoryScope::Session).is_none());
    let error = storage.write_target(MemoryScope::Session);
    assert!(matches!(error, Err(StorageError::SessionScope)));
    assert_eq!(
        StorageError::SessionScope.describe(),
        "Session scope requires write_session method"
    );
}

#[test]
fn test_append() {
    let content = MemoryStorage::appended(Some("# First"), "## Second");
    assert!(content.contains("# First"));
    assert!(content.contains("## Second"));
    assert_eq!(content, "# First\n\n## Second");
    assert_eq!(MemoryStorage::appended(Some("a \n"), "b"), "a\n\nb");
    assert_eq!(MemoryStorage::appended(Some(""), "b"), "b");
    assert_eq!(MemoryStorage::appended(None, "b"), "b");
}

#[test]
fn test_session_write_and_list() {
    let storage = MemoryStorage::new(FilePath::new("/r/memory"), "/test/project");
    let file = storage.session_file("2026-07-29", "fix-auth", "abc123456789");
    assert!(file.file_name().unwrap().contains("2026-07-29-fix-auth-abc12345"));
    let names = vec!["b.md".to_string(), "notes.txt".to_string(), "a.md".to_string()];
    let sessions = storage.list_sessions(names);
    let shown: Vec<String> = sessions.iter().map(|p| p.file_name().unwrap()).collect();
    assert_eq!(shown, vec!["a.md", "b.md"]);
}

fn moments(files: &[(&str, Option<u64>)]) -> TextMap<Option<u64>> {
    let mut map = TextMap::new();
    for (name, at) in files {
        map.insert(name.to_string(), *at);
    }
    map
}

#[test]
fn test_watcher_detects_creation() {
    let found = changes(&moments(&[]), &moments(&[("MEMORY.md", Some(1))]));
    assert_eq!(found.len(), 1);
    assert!(matches!(found[0], MemoryWatchEvent::Created { .. }));
}

#[test]
fn test_watcher_detects_modification() {
    let found = changes(&moments(&[("MEMORY.md", Some(1))]), &moments(&[("MEMORY.md", Some(2))]));
    assert_eq!(found.len(), 1);
    assert!(matches!(found[0], MemoryWatchEvent::Modified { .. }));
}

#[test]
fn test_watcher_detects_deletion() {
    let found = changes(&moments(&[("MEMORY.md", Some(1))]), &moments(&[]));
    assert_eq!(found.len(), 1);
    assert!(matches!(found[0], MemoryWatchEvent::Deleted { .. }));
}

#[test]
fn unchanged_files_are_passed_over() {
    let look = moments(&[("a.md", Some(1)), ("b.md", None)]);
    assert!(changes(&look, &look).is_empty());
    assert!(is_watched(&FilePath::new("/m/MEMORY.md")));
    assert!(!is_watched(&FilePath::new("/m/k.json")));
}

#[test]
fn test_expand_intents_basic() {
    let intents = IntentRetriever::expand_intents("User login function");
    assert!(!intents.is_empty());
    assert!(intents[0].description.contains("主查询"));
}

#[test]
fn test_expand_intents_camel_case() {
    let intents = IntentRetriever::expand_intents("UserModel");
    let combined = intents.iter().find(|i| i.description.contains("组合"));
    assert!(combined.is_some());
}

#[test]
fn test_expand_intents_type_detection() {
    let intents = IntentRetriever::expand_intents("查找登录函数");
    let fn_intent = intents.iter().find(|i| i.description.contains("函数搜索"));
    assert!(fn_intent.is_some());
}

#[test]
fn test_extract_name_components() {
    let components = IntentRetriever::extract_name_components("UserModel login_handler");
    assert!(components.contains(&"user".to_string()));
    assert!(components.contains(&"model".to_string()));
    assert!(components.contains(&"login".to_string()));
    assert!(components.contains(&"handler".to_string()));
}

#[test]
fn retriever_without_blocks_finds_nothing() {
    let retriever = IntentRetriever::new(EmbeddingIndex::new());
    let intents = IntentRetriever::expand_intents("User login function");
    let limits = vec![5; intents.len()];
    let relevance = vec![Vec::new(); intents.len()];
    let none = Vec::new();
    let found = retriever.search_by_intents(
        &intents,
        &[0, 0, 0],
        &Vec::new(),
        &limits,
        &relevance,
        5,
        &none,
    );
    assert!(found.is_empty());
    assert_eq!(retriever.block_count(), 0);
}

fn register(retriever: &mut IntentRetriever, id: &str, values: [f32; 2]) {
    retriever.embedding_index.add(EmbeddingVector {
        data: values.iter().map(|x| x.to_bits()).collect(),
        entry_id: id.to_string(),
        text_preview: id.to_string(),
        created_at: 1000,
    });
    retriever.register_block(CodeBlock {
        id: id.to_string(),
        file_path: FilePath::new("src/a.rs"),
        kind: CodeBlockKind::Function,
        name: id.to_string(),
        source: format!("fn {}() {{}}", id),
        start_line: 0,
        end_line: 0,
        doc_comment: None,
        embedding: None,
    });
}

#[test]
fn retrieved_blocks_are_unlike_each_other() {
    let mut retriever = IntentRetriever::new(EmbeddingIndex::with_dimension(2));
    register(&mut retriever, "far", [0.6, 0.8]);
    register(&mut retriever, "best", [1.0, 0.0]);
    register(&mut retriever, "copy", [0.99, 0.01]);
    let intents = IntentRetriever::expand_intents("best");
    let values = [0.6, 1.0, 0.99];
    let scores: Vec<Option<i64>> = values.iter().map(|s| Some(key(*s))).collect();
    let limits = vec![3; intents.len()];
    let relevance = vec![values.iter().map(|s| key(*s)).collect::<Vec<i64>>(); intents.len()];
    let query = [1.0f32.to_bits(), 0.0f32.to_bits()];
    let merged = retriever.merge_intents(&intents, &query, &scores, &limits, &relevance);
    let names: Vec<&str> = merged.iter().map(|r| r.name.as_str()).collect();
    assert_eq!(names, ["best", "copy", "far"]);
    let rounds = vec![
        vec![key(0.7), key(0.693), key(0.42)],
        vec![key(0.393), key(0.24)],
        vec![key(0.2)],
    ];
    let by_balance = vec![rounds[0].clone(), vec![key(0.1), key(0.24)]];
    let found = retriever.search_by_intents(
        &intents,
        &query,
        &scores,
        &limits,
        &relevance,
        2,
        &by_balance,
    );
    let names: Vec<&str> = found.iter().map(|r| r.name.as_str()).collect();
    assert_eq!(names, ["best", "far"]);
    let found =
        retriever.search_by_intents(&intents, &query, &scores, &limits, &relevance, 9, &rounds);
    let names: Vec<&str> = found.iter().map(|r| r.name.as_str()).collect();
    assert_eq!(names, ["best", "copy", "far"]);
}

#[test]
fn heats_are_classified() {
    let t = HeatThresholds::default();
    assert_eq!(classify(key(0.4), &t), Temperature::Hot);
    assert_eq!(classify(key(0.39), &t), Temperature::Warm);
    assert_eq!(classify(key(0.2), &t), Temperature::Warm);
    assert_eq!(classify(key(0.19), &t), Temperature::Cold);
}

fn meta(heat: f64, content: &str, tokens: u32, at: usize) -> MessageMeta {
    MessageMeta {
        heat: key(heat),
        role: "user".into(),
        content: content.into(),
        token_count: tokens,
        source_range: (at, at + 1),
    }
}

#[test]
fn unknown_roles_in_a_window_are_users() {
    let mut odd = meta(0.9, "hello", 5, 0);
    odd.role = "warm".into();
    let mut tool = meta(0.9, "done", 5, 1);
    tool.role = "tool".into();
    let entries = SlidingWindow::new(100).update(&vec![odd, tool]);
    let roles: Vec<&str> = entries
        .iter()
        .map(|e| match e {
            WorkingEntry::Hot { role, .. } => role.as_str(),
            _ => "",
        })
        .collect();
    assert_eq!(roles, ["user", "tool"]);
}

#[test]
fn a_window_stays_within_its_budget() {
    let messages: Vec<MessageMeta> =
        (0..20).map(|i| meta(0.5 + i as f64 / 100.0, "words of a message", 7, i)).collect();
    let entries = SlidingWindow::new(30).update(&messages);
    let hot: u32 = entries
        .iter()
        .map(|e| match e {
            WorkingEntry::Hot { token_count, .. } => *token_count,
            _ => 0,
        })
        .sum();
    assert_eq!(hot, 28);
}

#[test]
fn a_window_is_in_the_order_of_the_conversation() {
    let entries = SlidingWindow::new(100).update(&vec![
        meta(0.1, "cold", 5, 0),
        meta(0.8, "hot", 5, 1),
        meta(0.3, "warm", 5, 2),
        meta(0.9, "hotter", 5, 3),
    ]);
    let shown: Vec<&str> = entries
        .iter()
        .map(|e| match e {
            WorkingEntry::Hot { content, .. } => content.as_str(),
            WorkingEntry::Warm { summary, .. } => summary.as_str(),
            WorkingEntry::Cold { placeholder, .. } => placeholder.as_str(),
        })
        .collect();
    assert_eq!(shown, ["[冷记忆: 第0-1轮, 主题概要]", "hot", "warm", "hotter"]);
}

#[test]
fn window_serves_the_hottest_first() {
    let window = SlidingWindow::new(25);
    let entries = window.update(&vec![
        meta(0.1, "cold", 5, 0),
        meta(0.9, "hot", 20, 1),
        meta(0.8, "also hot", 20, 2),
    ]);
    assert_eq!(entries.len(), 3);
    let hot: Vec<bool> = entries.iter().map(|e| matches!(e, WorkingEntry::Hot { .. })).collect();
    assert_eq!(hot.iter().filter(|h| **h).count(), 1);
    let said = entries.iter().any(|e| matches!(e, WorkingEntry::Hot { content, .. } if content == "hot"));
    assert!(said);
    let dropped = entries
        .iter()
        .any(|e| matches!(e, WorkingEntry::Cold { placeholder, .. } if placeholder == "[冷记忆: 第2-3轮]"));
    assert!(dropped);
}

#[test]
fn compaction_cools_old_entries() {
    let mut memory = WorkingMemory::new(1000);
    for n in 0..6 {
        memory.push_hot("user".into(), format!("message number {}", n), 8);
    }
    assert!(memory.can_compact());
    let done = memory.compact();
    assert_eq!(done.entries_compacted, 2);
    assert_eq!(done.compacted_range, (0, 1));
    assert_eq!((done.tokens_before, done.tokens_after), (48, 40));
    assert!(matches!(&memory.entries()[0], WorkingEntry::Warm { summary, .. } if summary == "[已压缩] message ..."));
    memory.compact();
    assert!(memory.entries()[0].is_cold());
    assert!(!memory.entries()[5].is_cold());
    assert_eq!(memory.counted_tokens(), Some(memory.used_tokens()));
}

#[test]
fn text_is_not_cut_inside_a_character() {
    let mut memory = WorkingMemory::new(1000);
    for _ in 0..5 {
        memory.push_hot("user".into(), "一二三".into(), 3);
    }
    assert!(!memory.can_compact());
}

#[test]
fn recall_counts_and_adds_knowledge() {
    let mut memory = ShortTermMemory::new();
    let one = vec![1.0f32.to_bits()];
    memory.store("user".into(), "first".into(), 1, false, one.clone());
    memory.store("user".into(), "second".into(), 1, false, one.clone());
    memory.store("user".into(), "bare".into(), 1, false, Vec::new());
    let request = RecallRequest {
        query: "q".into(),
        query_embedding: one,
        top_k: 1,
        include_long_term: true,
    };
    let scores = vec![key(0.2), key(0.9), key(0.0)];
    let found = recall(&request, &mut memory, &scores, &vec![knowledge("k", "known", &[])]);
    let texts: Vec<&str> = found.entries.iter().map(|e| e.content.as_str()).collect();
    assert_eq!(texts, vec!["second", "known"]);
    assert_eq!(memory.all_entries()[1].recall_count, 1);
    assert_eq!(memory.all_entries()[0].recall_count, 0);
}

#[test]
fn history_is_kept_in_order() {
    let mut memory = ShortTermMemory::new();
    let a = store(&mut memory, "one");
    let b = store(&mut memory, "two");
    assert_ne!(a, b);
    assert_eq!(a.len(), 36);
    assert_eq!(memory.current_turn(), 2);
    assert_eq!(memory.get_by_range(2, 5).len(), 1);
    assert_eq!(memory.remove_entries(&[a]), 1);
    assert_eq!(memory.len(), 1);
}

#[test]
fn summaries_are_asked_for() {
    let s = DirectSamplerSummarizer::new("m".into(), 200);
    let prompt = s.full_prompt("请总结", "内容");
    assert_eq!(prompt, "请总结\n\n内容\n\n请用简洁的中文总结以上内容的要点，不超过 200 个字：");
    assert_eq!(DirectSamplerSummarizer::new("m".into(), 3).summarize("abcdef"), "[摘要] abc...");
    assert_eq!(s.summarize("short"), "short");
}
