use vibe_cli::scanner::{is_supported_file, join_path, DirNode, FileScanner, LoadedFile, ScanError};

fn file(name: &str) -> DirNode {
    DirNode { name: name.to_string(), is_dir: false, readable: false, children: Vec::new() }
}

fn dir(name: &str, children: Vec<DirNode>) -> DirNode {
    DirNode { name: name.to_string(), is_dir: true, readable: true, children }
}

fn locked(name: &str) -> DirNode {
    DirNode { name: name.to_string(), is_dir: true, readable: false, children: Vec::new() }
}

fn sample_tree() -> DirNode {
    dir(
        "",
        vec![
            file("README.md"),
            dir("src", vec![file("main.rs"), file("notes.txt"), dir("deep", vec![file("x.json")])]),
            dir("target", vec![file("built.rs")]),
            dir(".git", vec![file("config.toml")]),
            locked("secret"),
            file("schema.graphql"),
            file("Cargo.lock"),
        ],
    )
}

#[test]
fn supported_files_go_by_extension() {
    assert!(is_supported_file("a.rs"));
    assert!(is_supported_file("dir/b.md"));
    assert!(is_supported_file("c.toml"));
    assert!(is_supported_file("d.json"));
    assert!(is_supported_file("e.graphql"));
    assert!(!is_supported_file("f.txt"));
    assert!(!is_supported_file("Makefile"));
    assert!(!is_supported_file(".rs"));
    assert!(!is_supported_file("g.RS"));
    assert!(!is_supported_file("dir.rs/file"));
}

#[test]
fn paths_are_joined_with_one_slash() {
    assert_eq!(join_path(".", "a.md"), "./a.md");
    assert_eq!(join_path("", "a.md"), "a.md");
    assert_eq!(join_path("root/", "a.md"), "root/a.md");
    assert_eq!(join_path("/", "etc"), "/etc");
    assert_eq!(join_path("a/b", "c"), "a/b/c");
}

#[test]
fn new_scanner_has_the_usual_settings() {
    let scanner = FileScanner::new("proj");
    assert_eq!(scanner.root_path, "proj");
    assert_eq!(scanner.max_file_bytes, 2 * 1024 * 1024);
    for name in [
        ".git", "target", "node_modules", ".next", "dist", "build", ".idea", ".vscode", ".cache", "venv",
        "__pycache__",
    ] {
        assert!(scanner.is_ignored_dir(name));
    }
    assert!(!scanner.is_ignored_dir("src"));
    assert!(!scanner.is_ignored_dir("Target"));
}

#[test]
fn collect_files_skips_ignored_directories_and_other_extensions() {
    let scanner = FileScanner::new(".");
    let files = scanner.collect_files(&sample_tree()).unwrap();
    assert_eq!(
        files,
        vec![
            "./README.md".to_string(),
            "./src/main.rs".to_string(),
            "./src/deep/x.json".to_string(),
            "./schema.graphql".to_string(),
        ]
    );
}

#[test]
fn collect_files_fails_on_an_unreadable_root() {
    let scanner = FileScanner::new(".");
    assert_eq!(scanner.collect_files(&locked("")), Err(ScanError::UnreadableRoot));
    assert_eq!(scanner.collect_files(&file("a.rs")), Err(ScanError::UnreadableRoot));
}

#[test]
fn collect_files_of_an_empty_tree_is_empty() {
    let scanner = FileScanner::new("/tmp/x");
    assert_eq!(scanner.collect_files(&dir("", Vec::new())), Ok(Vec::new()));
}

#[test]
fn overview_lists_directories_before_what_they_hold() {
    let scanner = FileScanner::new(".");
    let overview = scanner.directory_overview(&sample_tree(), 4, 400);
    assert_eq!(overview, ".\n  src\n    src/deep\n  secret");
}

#[test]
fn overview_stops_at_the_depth_limit() {
    let scanner = FileScanner::new(".");
    assert_eq!(scanner.directory_overview(&sample_tree(), 1, 400), ".\n  src\n  secret");
    assert_eq!(scanner.directory_overview(&sample_tree(), 0, 400), ".");
}

#[test]
fn overview_stops_at_the_entry_limit() {
    let scanner = FileScanner::new(".");
    assert_eq!(scanner.directory_overview(&sample_tree(), 4, 3), ".\n  src\n    src/deep");
    assert_eq!(scanner.directory_overview(&sample_tree(), 4, 2), ".\n  src");
    assert_eq!(scanner.directory_overview(&sample_tree(), 4, 1), ".");
    assert_eq!(scanner.directory_overview(&sample_tree(), 4, 0), "");
}

#[test]
fn overview_of_an_unreadable_root_is_its_own_line() {
    let scanner = FileScanner::new(".");
    assert_eq!(scanner.directory_overview(&locked(""), 4, 400), ".");
}

#[test]
fn file_is_scanned_into_hash_and_chunks() {
    let scanner = FileScanner::new(".");
    let scan = scanner.load_and_chunk_file("a.md", Some(5), b"hello");
    assert_eq!(scan.path, "a.md");
    assert_eq!(scan.hash, "5d41402abc4b2a76b9719d911017c592");
    assert_eq!(scan.chunks.len(), 1);
    assert_eq!(scan.chunks[0].text, "hello");
    assert_eq!(scan.chunks[0].path, "a.md");
    assert_eq!(scan.chunks[0].start_offset, 0);
}

#[test]
fn hash_is_that_of_the_content() {
    let scanner = FileScanner::new(".");
    let empty = scanner.load_and_chunk_file("e.md", Some(0), b"");
    assert_eq!(empty.hash, "d41d8cd98f00b204e9800998ecf8427e");
    assert!(empty.chunks.is_empty());
    let fox = scanner.load_and_chunk_file("f.md", None, b"The quick brown fox jumps over the lazy dog");
    assert_eq!(fox.hash, "9e107d9d372bb6826bd81d3542a419d6");
}

#[test]
fn oversized_file_is_passed_over() {
    let scanner = FileScanner::new(".");
    let scan = scanner.load_and_chunk_file("big.json", Some(2 * 1024 * 1024 + 1), b"not looked at");
    assert_eq!(scan.path, "big.json");
    assert_eq!(scan.hash, "");
    assert!(scan.chunks.is_empty());
    assert!(scanner.is_oversized(2 * 1024 * 1024 + 1));
}

#[test]
fn file_at_the_cap_is_scanned() {
    let scanner = FileScanner::new(".");
    assert!(!scanner.is_oversized(2 * 1024 * 1024));
    let scan = scanner.load_and_chunk_file("edge.md", Some(2 * 1024 * 1024), b"hello");
    assert_eq!(scan.hash, "5d41402abc4b2a76b9719d911017c592");
    assert_eq!(scan.chunks.len(), 1);
}

#[test]
fn file_of_unknown_length_is_scanned() {
    let scanner = FileScanner::new(".");
    let scan = scanner.load_and_chunk_file("x.md", None, b"hello");
    assert_eq!(scan.chunks.len(), 1);
}

#[test]
fn scan_paths_gives_one_result_for_each_file() {
    let scanner = FileScanner::new(".");
    let files = vec![
        LoadedFile { path: "a.md".to_string(), byte_len: Some(5), content: b"hello".to_vec() },
        LoadedFile { path: "big.rs".to_string(), byte_len: Some(3_000_000), content: Vec::new() },
        LoadedFile { path: "b.md".to_string(), byte_len: Some(11), content: b"hello world".to_vec() },
    ];
    let scans = scanner.scan_paths(&files);
    assert_eq!(scans.len(), 3);
    assert_eq!(scans[0].path, "a.md");
    assert_eq!(scans[0].hash, "5d41402abc4b2a76b9719d911017c592");
    assert_eq!(scans[1].path, "big.rs");
    assert_eq!(scans[1].hash, "");
    assert!(scans[1].chunks.is_empty());
    assert_eq!(scans[2].path, "b.md");
    assert_eq!(scans[2].hash, "5eb63bbbe01eeed093cb22bb8f5acdc3");
    assert_eq!(scans[2].chunks[0].text, "hello world");
}

#[test]
fn bytes_that_are_no_text_are_replaced() {
    let scanner = FileScanner::new(".");
    let bytes = b"ab\xffcd\xc3\x28";
    let scan = scanner.load_and_chunk_file("bin.md", Some(7), bytes);
    assert_eq!(scan.chunks.len(), 1);
    assert_eq!(scan.chunks[0].text, "ab\u{fffd}cd\u{fffd}(");
    assert_eq!(scan.chunks[0].path, "bin.md");
}

#[test]
fn hash_is_that_of_the_bytes_as_they_are() {
    let scanner = FileScanner::new(".");
    let bytes = b"ab\xffcd\xc3\x28";
    let scan = scanner.load_and_chunk_file("bin.md", Some(7), bytes);
    assert_eq!(scan.hash, format!("{:x}", md5::compute(bytes)));
    assert_ne!(scan.hash, scanner.scan_text("bin.md", "ab\u{fffd}cd\u{fffd}(").hash);
    // Two files that differ only in bytes that are no text differ in their hash.
    let other = scanner.load_and_chunk_file("bin.md", Some(7), b"ab\xfecd\xc3\x28");
    assert_eq!(other.chunks[0].text, scan.chunks[0].text);
    assert_ne!(other.hash, scan.hash);
    let plain = scanner.load_and_chunk_file("t.md", None, "caf\u{e9}".as_bytes());
    assert_eq!(plain.chunks[0].text, "caf\u{e9}");
    assert_eq!(plain.hash, scanner.scan_text("t.md", "caf\u{e9}").hash);
    assert_eq!(plain.hash, format!("{:x}", md5::compute("caf\u{e9}".as_bytes())));
}

#[test]
fn text_is_scanned_into_hash_and_chunks() {
    let scanner = FileScanner::new(".");
    let scan = scanner.scan_text("a.md", "hello");
    assert_eq!(scan.path, "a.md");
    assert_eq!(scan.hash, "5d41402abc4b2a76b9719d911017c592");
    assert_eq!(scan.chunks.len(), 1);
}
