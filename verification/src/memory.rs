//! What the agent remembers: text chunks, code blocks, the repository's
//! dependency graph, and the memories of one and of many sessions.

pub mod chunker;
pub mod dream;
pub mod embedding;
pub mod episodic;
pub mod function_embed;
pub mod heat;
pub mod imports;
pub mod intent_retriever;
pub mod long_term;
pub mod mmr;
pub mod rank;
pub mod recall;
pub mod repo_map;
pub mod short_term;
pub mod storage;
pub mod summarizer;
pub mod vector_store;
pub mod watcher;
pub mod window;
pub mod working;
