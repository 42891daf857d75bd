use vibe_cli::models::Embedding;
use vibe_cli::search::SearchEngine;

fn corpus(texts: &[&str]) -> Vec<Embedding> {
    texts
        .iter()
        .enumerate()
        .map(|(i, t)| Embedding {
            id: format!("doc:{}", i),
            vector: vec![i as u32],
            text: t.to_string(),
            path: "doc".to_string(),
        })
        .collect()
}

fn sorted_prefix(scores: &[u64], k: usize) -> Vec<usize> {
    let mut order: Vec<usize> = (0..scores.len()).collect();
    order.sort_by(|a, b| scores[*b].cmp(&scores[*a]));
    order.truncate(k);
    order
}

#[test]
fn rank_gives_the_best_first() {
    let scores = vec![5u64, 9, 1, 7];
    assert_eq!(SearchEngine::rank(&scores, 2), vec![1, 3]);
    assert_eq!(SearchEngine::rank(&scores, 4), vec![1, 3, 0, 2]);
}

#[test]
fn rank_of_more_than_there_are_gives_all() {
    let scores = vec![3u64, 8];
    assert_eq!(SearchEngine::rank(&scores, 10), vec![1, 0]);
}

#[test]
fn rank_of_none_is_empty() {
    let scores = vec![3u64, 8];
    assert!(SearchEngine::rank(&scores, 0).is_empty());
    assert!(SearchEngine::rank(&Vec::new(), 5).is_empty());
}

#[test]
fn equal_scores_keep_their_order() {
    let scores = vec![4u64, 4, 9, 4, 9];
    assert_eq!(SearchEngine::rank(&scores, 5), vec![2, 4, 0, 1, 3]);
    assert_eq!(SearchEngine::rank(&scores, 3), vec![2, 4, 0]);
}

#[test]
fn rank_is_the_start_of_a_stable_sort() {
    let mut scores: Vec<u64> = Vec::new();
    let mut seed = 12345u64;
    for _ in 0..300 {
        seed = seed.wrapping_mul(6364136223846793005).wrapping_add(1442695040888963407);
        scores.push((seed >> 33) % 40);
    }
    for k in [0usize, 1, 7, 50, 299, 300, 400] {
        assert_eq!(SearchEngine::rank(&scores, k), sorted_prefix(&scores, k));
    }
}

fn scored<'a>(scores: &[u64], embeddings: &'a [Embedding]) -> Vec<(u64, &'a Embedding)> {
    scores.iter().copied().zip(embeddings.iter()).collect()
}

#[test]
fn find_relevant_chunks_returns_texts_by_descending_score() {
    let embeddings = corpus(&["alpha", "beta", "gamma", "delta"]);
    let found = SearchEngine::find_relevant_chunks(&scored(&[10, 40, 20, 30], &embeddings), 3);
    assert_eq!(found, vec!["beta".to_string(), "delta".to_string(), "gamma".to_string()]);
}

#[test]
fn equally_similar_chunks_come_in_corpus_order() {
    let embeddings = corpus(&["first", "second", "third"]);
    let found = SearchEngine::find_relevant_chunks(&scored(&[7, 9, 7], &embeddings), 3);
    assert_eq!(found, vec!["second".to_string(), "first".to_string(), "third".to_string()]);
}

#[test]
fn find_relevant_chunks_never_returns_more_than_asked() {
    let embeddings = corpus(&["a", "b", "c"]);
    let all = scored(&[1, 2, 3], &embeddings);
    assert_eq!(SearchEngine::find_relevant_chunks(&all, 2).len(), 2);
    assert_eq!(SearchEngine::find_relevant_chunks(&all, 50).len(), 3);
    assert!(SearchEngine::find_relevant_chunks(&all, 0).is_empty());
}

#[test]
fn empty_corpus_gives_nothing() {
    let found = SearchEngine::find_relevant_chunks(&Vec::new(), 50);
    assert!(found.is_empty());
}
