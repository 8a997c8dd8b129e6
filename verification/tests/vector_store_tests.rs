use financial_rag::clock::Timestamp;
use financial_rag::document_processor::{Chunk, DocumentProcessor};
use financial_rag::vector_store::VectorStore;

fn chunks_of(source: &str, text: &str) -> Vec<Chunk> {
    DocumentProcessor::new(2, 0).chunk_text_at(text, source, Timestamp { seconds: 0, nanos: 0 })
}

#[test]
fn new_store_is_empty() {
    let store: VectorStore<Vec<f32>> = VectorStore::new();
    assert_eq!(store.total_chunks(), 0);
    assert!(store.doc_names().is_empty());
    assert!(store.doc_info().is_empty());
}

#[test]
fn add_pairs_chunks_with_vectors_and_counts_them() {
    let mut store: VectorStore<Vec<f32>> = VectorStore::new();
    let chunks = chunks_of("a.txt", "one two three four five");
    assert_eq!(chunks.len(), 3);
    store.add(chunks, vec![vec![1.0], vec![2.0], vec![3.0]]);
    assert_eq!(store.total_chunks(), 3);
    assert_eq!(store.doc_info(), vec![("a.txt".to_string(), 3)]);
    let entries = store.entry_list();
    assert_eq!(entries[0].0.text, "one two");
    assert_eq!(entries[2].1, vec![3.0]);
}

#[test]
fn add_with_fewer_vectors_stores_only_the_pairs_but_counts_all_chunks() {
    let mut store: VectorStore<u32> = VectorStore::new();
    store.add(chunks_of("a.txt", "one two three four five"), vec![10, 20]);
    assert_eq!(store.total_chunks(), 2);
    assert_eq!(store.doc_info(), vec![("a.txt".to_string(), 3)]);
}

#[test]
fn adding_the_same_document_twice_accumulates_its_count() {
    let mut store: VectorStore<u32> = VectorStore::new();
    store.add(chunks_of("a.txt", "one two"), vec![1]);
    store.add(chunks_of("a.txt", "three four"), vec![2]);
    assert_eq!(store.doc_info(), vec![("a.txt".to_string(), 2)]);
    assert_eq!(store.total_chunks(), 2);
}

#[test]
fn adding_no_chunks_records_the_empty_name() {
    let mut store: VectorStore<u32> = VectorStore::new();
    store.add(Vec::new(), vec![1, 2]);
    assert_eq!(store.total_chunks(), 0);
    assert_eq!(store.doc_names(), vec!["".to_string()]);
}

#[test]
fn remove_document_takes_exactly_its_chunks() {
    let mut store: VectorStore<u32> = VectorStore::new();
    store.add(chunks_of("a.txt", "one two three four"), vec![1, 2]);
    store.add(chunks_of("b.txt", "five six seven"), vec![3, 4]);
    assert_eq!(store.remove_document("a.txt"), 2);
    assert_eq!(store.total_chunks(), 2);
    assert!(store.entry_list().iter().all(|(c, _)| c.source == "b.txt"));
    assert_eq!(store.doc_names(), vec!["b.txt".to_string()]);
    assert_eq!(store.remove_document("missing.txt"), 0);
    assert_eq!(store.total_chunks(), 2);
}

#[test]
fn add_then_remove_restores_the_store() {
    let mut store: VectorStore<u32> = VectorStore::new();
    store.add(chunks_of("b.txt", "five six seven"), vec![3, 4]);
    let before: Vec<String> = store.entry_list().iter().map(|(c, _)| c.id.clone()).collect();
    let info_before = store.doc_info();
    store.add(chunks_of("a.txt", "one two three"), vec![1, 2]);
    store.remove_document("a.txt");
    let after: Vec<String> = store.entry_list().iter().map(|(c, _)| c.id.clone()).collect();
    assert_eq!(before, after);
    assert_eq!(info_before, store.doc_info());
}

#[test]
fn counts_match_stored_chunks_per_document() {
    let mut store: VectorStore<u32> = VectorStore::new();
    store.add(chunks_of("a.txt", "1 2 3 4 5"), vec![1, 2, 3]);
    store.add(chunks_of("b.txt", "6 7"), vec![4]);
    store.remove_document("a.txt");
    store.add(chunks_of("c.txt", "8 9 10"), vec![5, 6]);
    for (name, count) in store.doc_info() {
        let stored = store.entry_list().iter().filter(|(c, _)| c.source == name).count();
        assert_eq!(stored, count);
    }
}

#[test]
fn document_counts_sum_to_the_total_after_adds_and_removes() {
    let mut store: VectorStore<u32> = VectorStore::new();
    store.add(chunks_of("a.txt", "one two three four five"), vec![1, 2, 3]);
    store.add(chunks_of("b.txt", "six seven"), vec![4]);
    store.add(chunks_of("a.txt", "eight"), vec![5]);
    let sum: usize = store.doc_info().iter().map(|d| d.1).sum();
    assert_eq!(sum, store.total_chunks());
    assert_eq!(sum, 5);
    assert_eq!(store.remove_document("a.txt"), 4);
    let sum: usize = store.doc_info().iter().map(|d| d.1).sum();
    assert_eq!(sum, store.total_chunks());
    assert_eq!(sum, 1);
}
