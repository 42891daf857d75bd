use vibe_cli::text::decimal_string;
use std::collections::BTreeMap;
use vibe_cli::embedder::{Embedder, EmbeddingInput};
use vibe_cli::indexing::FileUpdate;
use vibe_cli::models::Embedding;
use vibe_cli::query::QueryPlan;
use vibe_cli::rag::RagService;
use vibe_cli::config::{Config, Settings};
use vibe_cli::scanner::FileScanner;
use vibe_cli::chunker::FileChunk;

/// A store in memory that does what the store on disk does.
struct Store {
    rows: BTreeMap<String, Embedding>,
    hashes: BTreeMap<String, String>,
    deletes: Vec<String>,
    inserts: usize,
    embedded: usize,
}

fn new_store() -> Store {
    Store { rows: BTreeMap::new(), hashes: BTreeMap::new(), deletes: Vec::new(), inserts: 0, embedded: 0 }
}

fn index_pass(store: &mut Store, scanner: &FileScanner, files: &[(&str, &str)]) {
    let mut queued: Vec<EmbeddingInput> = Vec::new();
    for (path, content) in files {
        let scan = scanner.load_and_chunk_file(path, Some(content.len() as u64), content.as_bytes());
        if !RagService::is_indexable(&scan) {
            continue;
        }
        let stored = store.hashes.get(*path).cloned();
        if let Some(update) = RagService::plan_file(&scan, stored.as_deref()) {
            let FileUpdate { path, hash, inputs } = update;
            store.rows.retain(|_, row| row.path != path);
            store.deletes.push(path.clone());
            queued.extend(inputs);
            store.hashes.insert(path, hash);
        }
    }
    if !queued.is_empty() {
        let vectors: Vec<Vec<u32>> = queued.iter().map(|input| vec![input.text.len() as u32]).collect();
        store.embedded += vectors.len();
        let embeddings = Embedder::new().generate_embeddings(&queued, &vectors).unwrap();
        for embedding in embeddings {
            store.inserts += 1;
            store.rows.insert(embedding.id.clone(), embedding);
        }
    }
}

fn service() -> RagService {
    let settings = Settings {
        ollama_base_url: None,
        base_model: None,
        db_path: None,
        home: None,
        cache_suffix: "t".to_string(),
        include_patterns: None,
        exclude_patterns: None,
    };
    RagService::new(".", Config::load(&settings))
}

#[test]
fn numbers_are_written_in_decimal() {
    assert_eq!(decimal_string(0), "0");
    assert_eq!(decimal_string(7), "7");
    assert_eq!(decimal_string(10), "10");
    assert_eq!(decimal_string(2104), "2104");
    assert_eq!(decimal_string(usize::MAX), usize::MAX.to_string());
}

#[test]
fn chunk_input_names_path_and_offset() {
    let chunk = FileChunk { path: "src/a.rs".to_string(), text: "fn main() {}".to_string(), start_offset: 602 };
    let input = RagService::chunk_input(&chunk);
    assert_eq!(input.id, "src/a.rs:602");
    assert_eq!(input.path, "src/a.rs");
    assert_eq!(input.text, "FILE: src/a.rs\nOFFSET: 602\nfn main() {}");
}

#[test]
fn new_file_is_indexed() {
    let scanner = FileScanner::new(".");
    let scan = scanner.load_and_chunk_file("a.md", Some(5), b"hello");
    let update = RagService::plan_file(&scan, None).unwrap();
    assert_eq!(update.path, "a.md");
    assert_eq!(update.hash, "5d41402abc4b2a76b9719d911017c592");
    assert_eq!(update.inputs.len(), 1);
    assert_eq!(update.inputs[0].id, "a.md:0");
    assert_eq!(update.inputs[0].text, "FILE: a.md\nOFFSET: 0\nhello");
}

#[test]
fn unchanged_file_is_left_alone() {
    let scanner = FileScanner::new(".");
    let scan = scanner.load_and_chunk_file("a.md", Some(5), b"hello");
    assert!(RagService::plan_file(&scan, Some("5d41402abc4b2a76b9719d911017c592")).is_none());
    assert!(RagService::plan_file(&scan, Some("5D41402ABC4B2A76B9719D911017C592")).is_some());
    assert!(RagService::plan_file(&scan, Some("")).is_some());
}

#[test]
fn oversized_file_adds_nothing_to_the_batch() {
    let scanner = FileScanner::new(".");
    let scan = scanner.load_and_chunk_file("big.md", Some(5_000_000), b"");
    assert!(!RagService::is_indexable(&scan));
    assert!(RagService::plan_file(&scan, None).is_none());
    assert!(RagService::plan_file(&scan, Some("old")).is_none());
}

#[test]
fn empty_file_adds_nothing_to_the_batch() {
    let scanner = FileScanner::new(".");
    let scan = scanner.load_and_chunk_file("empty.md", Some(0), b"");
    assert_eq!(scan.hash, "d41d8cd98f00b204e9800998ecf8427e");
    assert!(scan.chunks.is_empty());
    assert!(RagService::is_indexable(&scan));
    let update = RagService::plan_file(&scan, None).unwrap();
    assert_eq!(update.path, "empty.md");
    assert_eq!(update.hash, "d41d8cd98f00b204e9800998ecf8427e");
    assert!(update.inputs.is_empty());
    assert!(RagService::plan_file(&scan, Some("d41d8cd98f00b204e9800998ecf8427e")).is_none());
}

#[test]
fn file_that_became_empty_loses_its_rows() {
    let scanner = FileScanner::new(".");
    let mut store = new_store();
    index_pass(&mut store, &scanner, &[("a.md", "hello"), ("b.md", "kept")]);
    assert_eq!(store.rows.len(), 2);
    index_pass(&mut store, &scanner, &[("a.md", ""), ("b.md", "kept")]);
    assert!(store.rows.values().all(|row| row.path != "a.md"));
    assert!(store.rows.contains_key("b.md:0"));
    assert_eq!(store.hashes["a.md"], "d41d8cd98f00b204e9800998ecf8427e");
    assert_eq!(store.deletes, vec!["a.md".to_string(), "b.md".to_string(), "a.md".to_string()]);
    assert_eq!(store.inserts, 2);
    // The pass after that finds nothing to do.
    index_pass(&mut store, &scanner, &[("a.md", ""), ("b.md", "kept")]);
    assert_eq!(store.deletes.len(), 3);
    assert_eq!(store.inserts, 2);
}

#[test]
fn file_of_separators_only_is_indexed_as_one_window() {
    let scanner = FileScanner::new(".");
    let scan = scanner.load_and_chunk_file("blank.md", Some(4), b"\n\n\n\n");
    let update = RagService::plan_file(&scan, Some("old")).unwrap();
    assert_eq!(update.inputs.len(), 1);
    assert_eq!(update.inputs[0].id, "blank.md:0");
}

#[test]
fn reindexing_without_changes_writes_nothing() {
    let scanner = FileScanner::new(".");
    let mut store = new_store();
    index_pass(&mut store, &scanner, &[("a.md", "hello")]);
    assert_eq!(store.deletes, vec!["a.md".to_string()]);
    assert_eq!(store.inserts, 1);
    assert_eq!(store.embedded, 1);
    assert_eq!(store.rows.len(), 1);
    assert_eq!(store.rows["a.md:0"].text, "FILE: a.md\nOFFSET: 0\nhello");

    index_pass(&mut store, &scanner, &[("a.md", "hello")]);
    assert_eq!(store.deletes.len(), 1);
    assert_eq!(store.inserts, 1);
    assert_eq!(store.embedded, 1);
}

#[test]
fn changed_file_is_deleted_once_and_reinserted() {
    let scanner = FileScanner::new(".");
    let mut store = new_store();
    index_pass(&mut store, &scanner, &[("a.md", "hello")]);
    index_pass(&mut store, &scanner, &[("a.md", "hello world")]);
    assert_eq!(store.deletes, vec!["a.md".to_string(), "a.md".to_string()]);
    assert_eq!(store.inserts, 2);
    assert_eq!(store.rows.len(), 1);
    assert_eq!(store.rows["a.md:0"].text, "FILE: a.md\nOFFSET: 0\nhello world");
    assert_eq!(store.hashes["a.md"], "5eb63bbbe01eeed093cb22bb8f5acdc3");
}

#[test]
fn no_chunk_of_the_old_content_is_left() {
    let scanner = FileScanner::new(".");
    let mut store = new_store();
    let a = "a".repeat(600);
    let b = "b".repeat(600);
    let c = "c".repeat(600);
    let old = format!("{}\n\n{}\n\n{}", a, b, c);
    let new = format!("{}\n\n{}", c, a);
    index_pass(&mut store, &scanner, &[("f.rs", &old), ("g.rs", "other")]);
    assert_eq!(store.rows.len(), 4);
    index_pass(&mut store, &scanner, &[("f.rs", &new), ("g.rs", "other")]);
    let of_f: Vec<&Embedding> = store.rows.values().filter(|row| row.path == "f.rs").collect();
    assert_eq!(of_f.len(), 2);
    let chunks = scanner.chunk_text(&new, "f.rs");
    for chunk in &chunks {
        let input = RagService::chunk_input(chunk);
        assert_eq!(store.rows[&input.id].text, input.text);
    }
    assert!(store.rows.contains_key("g.rs:0"));
    assert_eq!(store.deletes, vec!["f.rs".to_string(), "g.rs".to_string(), "f.rs".to_string()]);
}

#[test]
fn duplicate_paragraph_gives_one_stored_chunk() {
    let scanner = FileScanner::new(".");
    let mut store = new_store();
    let p = "p".repeat(700);
    let text = format!("{}\n\n{}", p, p);
    index_pass(&mut store, &scanner, &[("dup.md", &text)]);
    assert_eq!(store.rows.len(), 1);
    assert_eq!(store.inserts, 1);
}

#[test]
fn overview_is_indexed_when_it_changes() {
    let update = RagService::plan_overview(".\n  src", None).unwrap();
    assert_eq!(update.path, "__dir_overview__");
    assert_eq!(update.inputs.len(), 1);
    assert_eq!(update.inputs[0].path, "__dir_overview__");
    assert_eq!(update.inputs[0].id, format!("__dir_overview__:{}", update.hash));
    assert_eq!(update.inputs[0].text, "DIRECTORY TREE:\n.\n  src");
    assert_eq!(update.hash.len(), 32);
    assert!(RagService::plan_overview(".\n  src", Some(&update.hash)).is_none());
    assert!(RagService::plan_overview(".\n  src", Some("other")).is_some());
    assert!(RagService::plan_overview("", None).is_none());
    assert!(RagService::plan_overview("", Some("x")).is_none());
}

#[test]
fn inputs_are_sent_in_batches_of_thirty_two() {
    let embedder = Embedder::new();
    assert_eq!(embedder.batches(0), Vec::new());
    assert_eq!(embedder.batches(1), vec![(0, 1)]);
    assert_eq!(embedder.batches(32), vec![(0, 32)]);
    assert_eq!(embedder.batches(33), vec![(0, 32), (32, 33)]);
    assert_eq!(embedder.batches(70), vec![(0, 32), (32, 64), (64, 70)]);
}

#[test]
fn embeddings_keep_what_their_inputs_say() {
    let inputs = vec![
        EmbeddingInput { id: "a:0".to_string(), path: "a".to_string(), text: "first".to_string() },
        EmbeddingInput { id: "a:9".to_string(), path: "a".to_string(), text: "second".to_string() },
        EmbeddingInput { id: "b:0".to_string(), path: "b".to_string(), text: "third".to_string() },
    ];
    let vectors = vec![vec![1u32, 2], vec![3], vec![]];
    let embeddings = Embedder::new().generate_embeddings(&inputs, &vectors).unwrap();
    assert_eq!(embeddings.len(), 3);
    assert_eq!(embeddings[0].id, "a:0");
    assert_eq!(embeddings[0].vector, vec![1, 2]);
    assert_eq!(embeddings[1].id, "a:9");
    assert_eq!(embeddings[1].text, "second");
    assert_eq!(embeddings[1].vector, vec![3]);
    assert_eq!(embeddings[2].path, "b");
    assert!(embeddings[2].vector.is_empty());
    let one = Embedder::embedding(&inputs[1], vec![7]);
    assert_eq!(one.id, "a:9");
    assert_eq!(one.vector, vec![7]);
}

#[test]
fn missing_vector_gives_no_embeddings() {
    let inputs = vec![EmbeddingInput { id: "a:0".to_string(), path: "a".to_string(), text: "t".to_string() }];
    assert!(Embedder::new().generate_embeddings(&inputs, &Vec::new()).is_none());
    assert!(Embedder::new().generate_batch_embeddings(&inputs, &vec![vec![1], vec![2]]).is_none());
    assert_eq!(Embedder::new().generate_embeddings(&Vec::new(), &Vec::new()).unwrap().len(), 0);
}

#[test]
fn empty_store_gives_the_no_context_answer() {
    let service = service();
    let found = vibe_cli::search::SearchEngine::find_relevant_chunks(&Vec::new(), 50);
    match service.query("how does chunking work", found, None, "") {
        QueryPlan::Answer(text) => assert_eq!(text, "No relevant code context found for this query."),
        QueryPlan::Complete(_) => panic!("the backend must not be asked"),
    }
}

#[test]
fn chunks_of_empty_text_give_the_no_context_answer() {
    let service = service();
    let plan = service.query_with_feedback("anything", "more detail", vec![String::new()], None, "");
    assert!(matches!(plan, QueryPlan::Answer(_)));
}

#[test]
fn prompt_holds_question_and_context() {
    let service = service();
    let chunks = vec!["first chunk".to_string(), "second chunk".to_string()];
    let expected = "You are an expert software engineer. Based on the provided code context and directory structure, how are files scanned \n\nContext:\nfirst chunk\n\nsecond chunk\n\nProvide a concise summary that includes:\n- Project purpose\n- Main features\n- Technologies used\n- Architecture\n- Complete directory structure (copy exactly from the DIRECTORY TREE section in the context)\n\nBe accurate and base your answer only on the provided context. Do not invent or modify the directory structure.";
    match service.query("how are files scanned", chunks, Some("readme"), ".\n  src") {
        QueryPlan::Complete(prompt) => assert_eq!(prompt, expected),
        QueryPlan::Answer(_) => panic!("there is context"),
    }
}

#[test]
fn prompt_holds_the_feedback() {
    let service = service();
    match service.query_with_feedback("q", "be brief", vec!["c".to_string()], None, "") {
        QueryPlan::Complete(prompt) => {
            assert!(prompt.starts_with(
                "You are an expert software engineer. Based on the provided code context and directory structure, q\n\nUser feedback for improvement: be brief \n\nContext:\nc\n\nProvide"
            ));
        }
        QueryPlan::Answer(_) => panic!("there is context"),
    }
}

#[test]
fn project_question_gets_tree_and_readme_first() {
    let service = service();
    assert!(RagService::is_project_question("What is this?"));
    assert!(RagService::is_project_question("describe the PROJECT"));
    assert!(!RagService::is_project_question("how are files scanned"));
    match service.query("What is this", vec!["chunk".to_string()], Some("# Title"), ".\n  src") {
        QueryPlan::Complete(prompt) => {
            assert!(prompt.contains(
                "Context:\nDIRECTORY TREE:\n.\n  src\n\nFILE: README.md\n# Title\n\nchunk\n\nProvide"
            ));
        }
        QueryPlan::Answer(_) => panic!("there is context"),
    }
    match service.query("What is this", Vec::new(), None, ".") {
        QueryPlan::Complete(prompt) => assert!(prompt.contains("Context:\nDIRECTORY TREE:\n.\n\nProvide")),
        QueryPlan::Answer(_) => panic!("there is context"),
    }
    match service.query("What is this", Vec::new(), Some(""), "") {
        QueryPlan::Complete(prompt) => assert!(prompt.contains("Context:\nFILE: README.md\n\n\nProvide")),
        QueryPlan::Answer(_) => panic!("there is context"),
    }
    assert!(matches!(service.query("What is this", Vec::new(), None, ""), QueryPlan::Answer(_)));
}
