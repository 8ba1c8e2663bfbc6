//! Vectors: the index, the store and diverse selection.

use ccore::memory::embedding::{EmbeddingIndex, EmbeddingVector};
use ccore::memory::mmr::{MmrConfig, MmrSelection};
use ccore::memory::vector_store::VectorStore;

fn bits(values: &[f32]) -> Vec<u32> {
    values.iter().map(|v| v.to_bits()).collect()
}

/// An integer that is ordered as the numbers are.
fn key(x: f64) -> i64 {
    if x >= 0.0 {
        (x + 0.0).to_bits() as i64
    } else {
        -((-x).to_bits() as i64)
    }
}

fn number(key: i64) -> f64 {
    if key >= 0 {
        f64::from_bits(key as u64)
    } else {
        -f64::from_bits((-key) as u64)
    }
}

fn cosine(a: &[u32], b: &[u32]) -> f32 {
    if a.len() != b.len() || a.is_empty() {
        return 0.0;
    }
    let x: Vec<f32> = a.iter().map(|v| f32::from_bits(*v)).collect();
    let y: Vec<f32> = b.iter().map(|v| f32::from_bits(*v)).collect();
    let dot: f32 = x.iter().zip(y.iter()).map(|(p, q)| p * q).sum();
    let m: f32 = x.iter().map(|p| p * p).sum::<f32>().sqrt();
    let n: f32 = y.iter().map(|p| p * p).sum::<f32>().sqrt();
    if m == 0.0 || n == 0.0 {
        0.0
    } else {
        dot / (m * n)
    }
}

fn create_test_vector(id: &str, values: Vec<f32>) -> EmbeddingVector {
    EmbeddingVector {
        data: bits(&values),
        entry_id: id.to_string(),
        text_preview: format!("Preview for {}", id),
        created_at: 1000,
    }
}

fn scores(index: &EmbeddingIndex, query: &[u32]) -> Vec<Option<i64>> {
    index.vectors().iter().map(|v| Some(key(cosine(query, &v.data) as f64))).collect()
}

fn search(index: &EmbeddingIndex, values: &[f32], k: usize) -> Vec<(usize, f64)> {
    let query = bits(values);
    let found = index.search(&query, &scores(index, &query), k);
    found.into_iter().map(|(i, s)| (i, number(s))).collect()
}

fn mmr_select(index: &EmbeddingIndex, values: &[f32], k: usize, lambda: f32) -> Vec<usize> {
    let query = bits(values);
    let vectors = index.vectors();
    let mut selection = MmrSelection::new(vectors.len(), k);
    while !selection.is_complete() {
        let balance: Vec<Option<i64>> = selection
            .remaining
            .iter()
            .map(|d| {
                let relevance = cosine(&query, &vectors[*d].data);
                let penalty = selection
                    .selected
                    .iter()
                    .map(|s| cosine(&vectors[*d].data, &vectors[*s].data))
                    .fold(0.0_f32, |max, sim| sim.max(max));
                Some(key((lambda * relevance - (1.0 - lambda) * penalty) as f64))
            })
            .collect();
        selection.step(&balance);
    }
    selection.selected
}

fn select(config: &MmrConfig, index: &EmbeddingIndex, values: &[f32], k: usize) -> Vec<usize> {
    if config.ranks_only(index.len()) {
        let query = bits(values);
        let similar: Vec<i64> =
            index.vectors().iter().map(|v| key(cosine(&query, &v.data) as f64)).collect();
        config.select_ranked(&similar, k)
    } else {
        mmr_select(index, values, k, f32::from_bits(config.lambda))
    }
}

#[test]
fn test_index_add_and_search() {
    let mut index = EmbeddingIndex::with_dimension(3);
    index.add(create_test_vector("v1", vec![1.0, 0.0, 0.0]));
    index.add(create_test_vector("v2", vec![0.0, 1.0, 0.0]));
    index.add(create_test_vector("v3", vec![0.0, 0.0, 1.0]));
    let results = search(&index, &[1.0, 0.0, 0.0], 2);
    assert_eq!(results.len(), 1);
    assert_eq!(results[0].0, 0);
    assert!((results[0].1 - 1.0).abs() < 1e-6);
}

#[test]
fn test_index_with_metadata() {
    let mut index = EmbeddingIndex::with_dimension(3);
    index.add(create_test_vector("v1", vec![1.0, 0.0, 0.0]));
    let query = bits(&[1.0, 0.0, 0.0]);
    let results = index.search_with_metadata(&query, &scores(&index, &query), 1);
    assert_eq!(results.len(), 1);
    assert_eq!(results[0].0, "v1");
    assert!((number(results[0].1) - 1.0).abs() < 1e-6);
    assert!(results[0].2.contains("v1"));
}

#[test]
fn test_index_remove() {
    let mut index = EmbeddingIndex::with_dimension(3);
    index.add(create_test_vector("v1", vec![1.0, 0.0, 0.0]));
    index.add(create_test_vector("v2", vec![0.0, 1.0, 0.0]));
    assert_eq!(index.len(), 2);
    let removed = index.remove_by_entry_id("v1");
    assert!(removed);
    assert_eq!(index.len(), 1);
    assert!(index.find_by_entry_id("v1").is_none());
}

#[test]
fn test_index_clear() {
    let mut index = EmbeddingIndex::with_dimension(3);
    index.add(create_test_vector("v1", vec![1.0, 0.0, 0.0]));
    index.clear();
    assert!(index.is_empty());
}

#[test]
fn test_index_wrong_dimension() {
    let mut index = EmbeddingIndex::with_dimension(3);
    index.add(create_test_vector("v1", vec![1.0, 0.0]));
    assert!(index.is_empty());
}

#[test]
fn test_search_empty_index() {
    let index = EmbeddingIndex::with_dimension(3);
    assert!(search(&index, &[1.0, 0.0, 0.0], 5).is_empty());
}

#[test]
fn test_search_wrong_dimension() {
    let mut index = EmbeddingIndex::with_dimension(3);
    index.add(create_test_vector("v1", vec![1.0, 0.0, 0.0]));
    assert!(search(&index, &[1.0, 0.0], 5).is_empty());
}

#[test]
fn search_is_in_order_of_similarity() {
    let mut index = EmbeddingIndex::with_dimension(2);
    index.add(create_test_vector("far", vec![0.1, 1.0]));
    index.add(create_test_vector("near", vec![1.0, 0.1]));
    index.add(create_test_vector("opposite", vec![-1.0, 0.0]));
    index.add(create_test_vector("middle", vec![1.0, 1.0]));
    let found: Vec<usize> = search(&index, &[1.0, 0.0], 10).into_iter().map(|r| r.0).collect();
    assert_eq!(found, vec![1, 3, 0]);
}

#[test]
fn test_mmr_basic() {
    let mut index = EmbeddingIndex::with_dimension(3);
    index.add(create_test_vector("v1", vec![1.0, 0.0, 0.0]));
    index.add(create_test_vector("v2", vec![0.99, 0.1, 0.0]));
    index.add(create_test_vector("v3", vec![0.0, 1.0, 0.0]));
    let selected = mmr_select(&index, &[1.0, 0.0, 0.0], 2, 0.7);
    assert_eq!(selected.len(), 2);
    assert_eq!(selected[0], 0);
    assert!(selected.contains(&1) || selected.contains(&2));
}

#[test]
fn test_mmr_empty_index() {
    let index = EmbeddingIndex::with_dimension(3);
    assert!(mmr_select(&index, &[1.0, 0.0, 0.0], 5, 0.7).is_empty());
}

#[test]
fn test_mmr_zero_k() {
    let mut index = EmbeddingIndex::with_dimension(3);
    index.add(create_test_vector("v1", vec![1.0, 0.0, 0.0]));
    assert!(mmr_select(&index, &[1.0, 0.0, 0.0], 0, 0.7).is_empty());
}

#[test]
fn test_mmr_k_larger_than_index() {
    let mut index = EmbeddingIndex::with_dimension(3);
    index.add(create_test_vector("v1", vec![1.0, 0.0, 0.0]));
    index.add(create_test_vector("v2", vec![0.0, 1.0, 0.0]));
    assert_eq!(mmr_select(&index, &[1.0, 0.0, 0.0], 10, 0.7).len(), 2);
}

#[test]
fn test_mmr_lambda_high() {
    let mut index = EmbeddingIndex::with_dimension(3);
    index.add(create_test_vector("v1", vec![1.0, 0.0, 0.0]));
    index.add(create_test_vector("v2", vec![0.99, 0.1, 0.0]));
    index.add(create_test_vector("v3", vec![0.0, 1.0, 0.0]));
    let selected = mmr_select(&index, &[1.0, 0.0, 0.0], 2, 0.95);
    assert_eq!(selected.len(), 2);
    assert_eq!(selected[0], 0);
}

#[test]
fn test_mmr_lambda_low() {
    let mut index = EmbeddingIndex::with_dimension(3);
    index.add(create_test_vector("v1", vec![1.0, 0.0, 0.0]));
    index.add(create_test_vector("v2", vec![0.99, 0.1, 0.0]));
    index.add(create_test_vector("v3", vec![0.0, 1.0, 0.0]));
    let selected = mmr_select(&index, &[1.0, 0.0, 0.0], 2, 0.3);
    assert_eq!(selected.len(), 2);
    assert_eq!(selected[0], 0);
    assert!(selected.contains(&2));
}

#[test]
fn test_mmr_config_disabled() {
    let mut index = EmbeddingIndex::with_dimension(3);
    index.add(create_test_vector("v1", vec![1.0, 0.0, 0.0]));
    index.add(create_test_vector("v2", vec![0.0, 1.0, 0.0]));
    let config = MmrConfig::new(false, 0.7f32.to_bits());
    let selected = select(&config, &index, &[1.0, 0.0, 0.0], 2);
    assert_eq!(selected.len(), 2);
    assert_eq!(selected[0], 0);
}

#[test]
fn test_mmr_config_lambda_one() {
    let mut index = EmbeddingIndex::with_dimension(3);
    index.add(create_test_vector("v1", vec![1.0, 0.0, 0.0]));
    index.add(create_test_vector("v2", vec![0.0, 1.0, 0.0]));
    let config = MmrConfig::new(true, 1.0f32.to_bits());
    let selected = select(&config, &index, &[1.0, 0.0, 0.0], 2);
    assert_eq!(selected.len(), 2);
    assert_eq!(selected[0], 0);
}

#[test]
fn test_mmr_preserves_all_results() {
    let mut index = EmbeddingIndex::with_dimension(3);
    index.add(create_test_vector("v1", vec![1.0, 0.0, 0.0]));
    index.add(create_test_vector("v2", vec![0.0, 1.0, 0.0]));
    index.add(create_test_vector("v3", vec![0.0, 0.0, 1.0]));
    let selected = mmr_select(&index, &[1.0, 0.0, 0.0], 3, 0.5);
    assert_eq!(selected.len(), 3);
    assert!(selected.contains(&0));
    assert!(selected.contains(&1));
    assert!(selected.contains(&2));
}

#[test]
fn test_mmr_identical_vectors() {
    let mut index = EmbeddingIndex::with_dimension(3);
    index.add(create_test_vector("v1", vec![1.0, 0.0, 0.0]));
    index.add(create_test_vector("v2", vec![1.0, 0.0, 0.0]));
    assert_eq!(mmr_select(&index, &[1.0, 0.0, 0.0], 2, 0.5).len(), 2);
}

#[test]
fn weights_are_brought_within_their_bounds() {
    assert_eq!(MmrConfig::new(true, 2.5f32.to_bits()).lambda, 1.0f32.to_bits());
    assert_eq!(MmrConfig::new(true, (-0.5f32).to_bits()).lambda, 0.0f32.to_bits());
    assert_eq!(MmrConfig::new(true, f32::INFINITY.to_bits()).lambda, 1.0f32.to_bits());
    assert_eq!(MmrConfig::new(true, 0.25f32.to_bits()).lambda, 0.25f32.to_bits());
    assert!(!MmrConfig::new(true, f32::NAN.to_bits()).ranks_only(5));
    assert_eq!(f32::from_bits(MmrConfig::default().lambda), 0.7f32);
}

#[test]
fn test_in_memory_store() {
    let mut store = VectorStore::in_memory(3);
    assert!(store.is_empty());
    store.add_vector(EmbeddingVector {
        data: bits(&[1.0, 0.0, 0.0]),
        entry_id: "v1".to_string(),
        text_preview: "test".to_string(),
        created_at: 1000,
    });
    assert_eq!(store.len(), 1);
}

#[test]
fn test_incremental_update() {
    let mut store = VectorStore::in_memory(3);
    let added = store.add_vector(EmbeddingVector {
        data: bits(&[1.0, 0.0, 0.0]),
        entry_id: "v1".to_string(),
        text_preview: "test".to_string(),
        created_at: 1000,
    });
    assert!(added);
    let added = store.add_vector(EmbeddingVector {
        data: bits(&[1.0, 0.0, 0.0]),
        entry_id: "v1".to_string(),
        text_preview: "test".to_string(),
        created_at: 1000,
    });
    assert!(!added);
    let added = store.add_vector(EmbeddingVector {
        data: bits(&[0.0, 1.0, 0.0]),
        entry_id: "v1".to_string(),
        text_preview: "test updated".to_string(),
        created_at: 1001,
    });
    assert!(added);
}

#[test]
fn test_search() {
    let mut store = VectorStore::in_memory(3);
    store.add_vector(EmbeddingVector {
        data: bits(&[1.0, 0.0, 0.0]),
        entry_id: "v1".to_string(),
        text_preview: "test1".to_string(),
        created_at: 1000,
    });
    store.add_vector(EmbeddingVector {
        data: bits(&[0.0, 1.0, 0.0]),
        entry_id: "v2".to_string(),
        text_preview: "test2".to_string(),
        created_at: 1000,
    });
    let query = bits(&[1.0, 0.0, 0.0]);
    let similar = scores(store.index(), &query);
    let results = store.search(&query, &similar, 1);
    assert_eq!(results.len(), 1);
    assert_eq!(results[0].0, 0);
}

#[test]
fn test_remove() {
    let mut store = VectorStore::in_memory(3);
    store.add_vector(EmbeddingVector {
        data: bits(&[1.0, 0.0, 0.0]),
        entry_id: "v1".to_string(),
        text_preview: "test".to_string(),
        created_at: 1000,
    });
    assert!(store.remove("v1"));
    assert!(store.is_empty());
}

#[test]
fn removed_vector_is_new_again() {
    let mut store = VectorStore::in_memory(3);
    store.add_vector(create_test_vector("v1", vec![1.0, 0.0, 0.0]));
    assert!(!store.add_vector(create_test_vector("v1", vec![1.0, 0.0, 0.0])));
    assert!(store.remove("v1"));
    assert!(!store.remove("v1"));
    assert!(store.add_vector(create_test_vector("v1", vec![1.0, 0.0, 0.0])));
}
