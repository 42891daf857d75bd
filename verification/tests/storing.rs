use vibe_cli::models::Embedding;
use vibe_cli::storage::{EmbeddingStorage, StoreError, StoredRow};

fn embedding(id: &str, vector: Vec<u32>) -> Embedding {
    Embedding { id: id.to_string(), vector, text: format!("text of {}", id), path: "p.rs".to_string() }
}

fn row(bytes: Vec<u8>) -> StoredRow {
    StoredRow { id: "r".to_string(), vector: bytes, text: "t".to_string(), path: "p".to_string() }
}

#[test]
fn vector_is_stored_as_length_and_components() {
    let storage = EmbeddingStorage::new("db.sqlite");
    assert_eq!(storage.db_path, "db.sqlite");
    let one = 1.0f32.to_bits();
    let rows = storage.insert_embeddings(&vec![embedding("a:0", vec![one, 0x0403_0201])]).unwrap();
    assert_eq!(rows.len(), 1);
    assert_eq!(rows[0].id, "a:0");
    assert_eq!(rows[0].text, "text of a:0");
    assert_eq!(rows[0].path, "p.rs");
    assert_eq!(rows[0].vector, vec![2, 0, 0, 0, 0, 0, 0, 0, 0, 0, 0x80, 0x3f, 1, 2, 3, 4]);
}

#[test]
fn stored_bytes_are_those_of_the_floats() {
    let storage = EmbeddingStorage::new("db.sqlite");
    let floats = vec![0.25f32, -1.5, 3.0e-7, f32::MAX];
    let bits: Vec<u32> = floats.iter().map(|f| f.to_bits()).collect();
    let rows = storage.insert_embeddings(&vec![embedding("a:0", bits)]).unwrap();
    let mut expected = vec![4u8, 0, 0, 0, 0, 0, 0, 0];
    for f in &floats {
        expected.extend_from_slice(&f.to_le_bytes());
    }
    assert_eq!(rows[0].vector, expected);
}

#[test]
fn empty_vector_is_stored_as_its_length() {
    let storage = EmbeddingStorage::new("db.sqlite");
    let rows = storage.insert_embeddings(&vec![embedding("a:0", Vec::new())]).unwrap();
    assert_eq!(rows[0].vector, vec![0u8; 8]);
    assert_eq!(storage.insert_embeddings(&Vec::new()).unwrap().len(), 0);
}

#[test]
fn what_is_stored_is_read_back() {
    let storage = EmbeddingStorage::new("db.sqlite");
    let embeddings = vec![embedding("a:0", vec![1, 2, 3]), embedding("a:7", Vec::new()), embedding("b:0", vec![u32::MAX])];
    let rows = storage.insert_embeddings(&embeddings).unwrap();
    let back = storage.get_all_embeddings(&rows).unwrap();
    assert_eq!(back.len(), 3);
    for (read, written) in back.iter().zip(embeddings.iter()) {
        assert_eq!(read.id, written.id);
        assert_eq!(read.vector, written.vector);
        assert_eq!(read.text, written.text);
        assert_eq!(read.path, written.path);
    }
}

#[test]
fn empty_store_is_read_as_no_embeddings() {
    let storage = EmbeddingStorage::new("db.sqlite");
    assert_eq!(storage.get_all_embeddings(&Vec::new()).unwrap().len(), 0);
}

#[test]
fn bytes_after_the_last_component_are_ignored() {
    let storage = EmbeddingStorage::new("db.sqlite");
    let back = storage.get_all_embeddings(&vec![row(vec![1, 0, 0, 0, 0, 0, 0, 0, 9, 0, 0, 0, 0xff, 0xff])]).unwrap();
    assert_eq!(back[0].vector, vec![9]);
}

#[test]
fn truncated_bytes_are_an_error() {
    let storage = EmbeddingStorage::new("db.sqlite");
    let good = row(vec![0; 8]);
    for bad in [
        vec![],
        vec![1, 0, 0],
        vec![1, 0, 0, 0, 0, 0, 0, 0],
        vec![2, 0, 0, 0, 0, 0, 0, 0, 1, 1, 1, 1, 2, 2, 2],
        vec![0xff; 8],
    ] {
        let result = storage.get_all_embeddings(&vec![good.clone(), row(bad), good.clone()]);
        assert!(matches!(result, Err(StoreError::Decode(_))));
    }
}

#[test]
fn missing_path_column_is_added_before_its_index() {
    let old = vec!["id".to_string(), "vector".to_string(), "text".to_string()];
    assert_eq!(
        EmbeddingStorage::setup_db(&old),
        vec![
            "ALTER TABLE embeddings ADD COLUMN path TEXT NOT NULL DEFAULT ''",
            "CREATE INDEX IF NOT EXISTS idx_embeddings_path ON embeddings(path)"
        ]
    );
}

#[test]
fn store_that_is_up_to_date_only_gets_its_index() {
    let current = vec!["id".to_string(), "vector".to_string(), "text".to_string(), "path".to_string()];
    assert_eq!(
        EmbeddingStorage::setup_db(&current),
        vec!["CREATE INDEX IF NOT EXISTS idx_embeddings_path ON embeddings(path)"]
    );
    assert_eq!(EmbeddingStorage::setup_db(&vec!["Path".to_string()]).len(), 2);
    assert_eq!(EmbeddingStorage::setup_db(&Vec::new()).len(), 2);
}
