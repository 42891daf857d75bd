use vibe_cli::config::{parse_patterns, Config, Settings};
use vibe_cli::keywords::is_stop_word_exec;
use vibe_cli::rag::RagService;
use vibe_cli::scanner::DirNode;

fn strings(items: &[&str]) -> Vec<String> {
    items.iter().map(|s| s.to_string()).collect()
}

fn settings() -> Settings {
    Settings {
        ollama_base_url: None,
        base_model: None,
        db_path: None,
        home: None,
        cache_suffix: "global".to_string(),
        include_patterns: None,
        exclude_patterns: None,
    }
}

fn service_with(includes: &[&str], excludes: &[&str]) -> RagService {
    let config = Config {
        ollama_base_url: String::new(),
        ollama_model: String::new(),
        db_path: String::new(),
        rag_include_patterns: strings(includes),
        rag_exclude_patterns: strings(excludes),
    };
    RagService::new(".", config)
}

fn default_service() -> RagService {
    RagService::new(".", Config::load(&settings()))
}

#[test]
fn subtree_pattern_matches_below_the_directory() {
    let service = default_service();
    assert!(service.matches_pattern("target/debug/x.rs", "target/**"));
    assert!(service.matches_pattern("./target/debug/x.rs", "target/**"));
    assert!(service.matches_pattern("a/target/x", "target/**"));
    assert!(service.matches_pattern("targeted.rs", "target/**"));
    assert!(!service.matches_pattern("src/main.rs", "target/**"));
    assert!(!service.matches_pattern("src/mytarget", "target/**"));
}

#[test]
fn bare_double_star_matches_everything() {
    let service = default_service();
    assert!(service.matches_pattern("anything", "**"));
    assert!(service.matches_pattern("", "/**"));
    assert!(service.matches_pattern("x", "/**/**"));
}

#[test]
fn subtree_pattern_loses_every_trailing_star_pair() {
    let service = default_service();
    assert!(service.matches_pattern("dist/a", "dist/**/**"));
    assert!(service.matches_pattern("dist/a", "dist****"));
    // A pair of stars inside the pattern is kept as it is written.
    assert!(!service.matches_pattern("a/b", "a/**/b"));
    assert!(service.matches_pattern("a/**/b", "a/**/b"));
}

#[test]
fn extension_pattern_matches_the_end_of_the_path() {
    let service = default_service();
    assert!(service.matches_pattern("src/main.rs", "*.rs"));
    assert!(service.matches_pattern(".rs", "*.rs"));
    assert!(!service.matches_pattern("src/main.rss", "*.rs"));
    assert!(!service.matches_pattern("src/mainrs", "*.rs"));
    assert!(service.matches_pattern("Cargo.lock", "*.lock"));
    assert!(service.matches_pattern("a.", "*."));
}

#[test]
fn plain_pattern_matches_anywhere() {
    let service = default_service();
    assert!(service.matches_pattern("./Cargo.lock", "Cargo.lock"));
    assert!(service.matches_pattern("vendor/Cargo.lock.bak", "Cargo.lock"));
    assert!(!service.matches_pattern("cargo.lock", "Cargo.lock"));
    assert!(service.matches_pattern("whatever", ""));
    assert!(service.matches_pattern("a*b", "*b"));
}

#[test]
fn exclude_patterns_come_before_include_patterns() {
    let service = service_with(&["*.rs", "*.md"], &["target/**", "*.lock"]);
    let files = strings(&["src/a.rs", "target/b.rs", "README.md", "Cargo.lock", "notes.txt", "x/target/c.md"]);
    assert_eq!(service.filter_files_by_patterns(&files), strings(&["src/a.rs", "README.md"]));
}

#[test]
fn without_include_patterns_all_but_the_excluded_pass() {
    let service = service_with(&[], &["*.lock"]);
    let files = strings(&["a.rs", "b.lock", "c.txt"]);
    assert_eq!(service.filter_files_by_patterns(&files), strings(&["a.rs", "c.txt"]));
}

#[test]
fn default_patterns_are_the_usual_ones() {
    let config = Config::load(&settings());
    assert_eq!(
        config.rag_include_patterns,
        strings(&["*.rs", "*.js", "*.ts", "*.py", "*.java", "*.go", "*.md", "*.toml", "*.json"])
    );
    assert_eq!(
        config.rag_exclude_patterns,
        strings(&[
            "target/**",
            "node_modules/**",
            "*.lock",
            "Cargo.lock",
            ".git/**",
            "__pycache__/**",
            "*.pyc",
            "dist/**",
            "build/**",
            ".next/**",
            ".cache/**"
        ])
    );
    assert_eq!(config.ollama_base_url, "http://localhost:11434");
    assert_eq!(config.ollama_model, "qwen2.5:1.5b-instruct");
    assert_eq!(config.db_path, "./.local/share/vibe_cli/global_embeddings.db");
}

#[test]
fn settings_replace_the_defaults() {
    let given = Settings {
        ollama_base_url: Some("http://box:1".to_string()),
        base_model: Some("m".to_string()),
        db_path: Some("/var/db.sqlite".to_string()),
        home: Some("/home/u".to_string()),
        cache_suffix: "abc".to_string(),
        include_patterns: Some(" *.c , *.h".to_string()),
        exclude_patterns: Some("".to_string()),
    };
    let config = Config::load(&given);
    assert_eq!(config.ollama_base_url, "http://box:1");
    assert_eq!(config.ollama_model, "m");
    assert_eq!(config.db_path, "/var/db.sqlite");
    assert_eq!(config.rag_include_patterns, strings(&["*.c", "*.h"]));
    assert_eq!(config.rag_exclude_patterns, strings(&[""]));
}

#[test]
fn store_lies_below_the_home_directory() {
    let given = Settings { home: Some("/home/u".to_string()), cache_suffix: "1f".to_string(), ..settings() };
    assert_eq!(Config::load(&given).db_path, "/home/u/.local/share/vibe_cli/1f_embeddings.db");
}

#[test]
fn patterns_are_split_at_commas_and_trimmed() {
    assert_eq!(parse_patterns("a,b"), strings(&["a", "b"]));
    assert_eq!(parse_patterns(" a ,\tb\n"), strings(&["a", "b"]));
    assert_eq!(parse_patterns(""), strings(&[""]));
    assert_eq!(parse_patterns(",x,"), strings(&["", "x", ""]));
    assert_eq!(parse_patterns("\u{a0}caf\u{e9}\u{3000}, \u{2003}z"), strings(&["caf\u{e9}", "z"]));
    assert_eq!(parse_patterns("in ner"), strings(&["in ner"]));
}

#[test]
fn stop_words_are_recognised() {
    assert!(is_stop_word_exec("the"));
    assert!(is_stop_word_exec("select"));
    assert!(is_stop_word_exec("i"));
    assert!(!is_stop_word_exec("The"));
    assert!(!is_stop_word_exec("scanner"));
    assert!(!is_stop_word_exec(""));
}

#[test]
fn short_words_and_stop_words_are_no_keywords() {
    let service = default_service();
    let kept = service.filter_relevant_keywords(&strings(&["The", "db", "Scanner", "explain", "rag", "WHERE", "\u{e9}\u{e9}"]));
    assert_eq!(kept, strings(&["Scanner", "rag", "\u{e9}\u{e9}"]));
}

#[test]
fn files_are_narrowed_to_those_that_mention_a_keyword() {
    let service = default_service();
    let files = strings(&["src/Scanner.rs", "src/main.rs", "docs/SCANNER.md"]);
    let kept = service.narrow_by_keywords(&files, &strings(&["scanner", "the"]));
    assert_eq!(kept, strings(&["src/Scanner.rs", "docs/SCANNER.md"]));
}

#[test]
fn narrowing_that_leaves_nothing_keeps_everything() {
    let service = default_service();
    let files = strings(&["src/a.rs", "src/b.rs"]);
    assert_eq!(service.narrow_by_keywords(&files, &strings(&["missing"])), files);
    assert_eq!(service.narrow_by_keywords(&files, &strings(&["the", "is"])), files);
    assert_eq!(service.narrow_by_keywords(&files, &Vec::new()), files);
}

#[test]
fn few_files_are_not_trimmed() {
    let service = default_service();
    let files = strings(&["b.rs", "a.rs"]);
    assert_eq!(service.cap_files(&files, &strings(&["a"])), files);
}

#[test]
fn many_files_are_trimmed_to_the_most_relevant() {
    let service = default_service();
    let mut files: Vec<String> = Vec::new();
    for i in 0..250 {
        if i % 50 == 49 {
            files.push(format!("src/store/index_{}.rs", i));
        } else if i % 10 == 9 {
            files.push(format!("src/store/f{}.rs", i));
        } else {
            files.push(format!("src/other/f{}.rs", i));
        }
    }
    let kept = service.cap_files(&files, &strings(&["Store", "index"]));
    assert_eq!(kept.len(), 200);
    // Five paths mention both keywords, twenty more mention one.
    assert_eq!(
        kept[..5].to_vec(),
        strings(&[
            "src/store/index_49.rs",
            "src/store/index_99.rs",
            "src/store/index_149.rs",
            "src/store/index_199.rs",
            "src/store/index_249.rs"
        ])
    );
    assert_eq!(kept[5], "src/store/f9.rs");
    assert_eq!(kept[24], "src/store/f239.rs");
    assert_eq!(kept[25], "src/other/f0.rs");
    assert_eq!(kept[199], "src/other/f193.rs");
}

#[test]
fn without_keywords_the_first_files_are_kept() {
    let service = default_service();
    let files: Vec<String> = (0..230).map(|i| format!("f{}.rs", i)).collect();
    let kept = service.cap_files(&files, &Vec::new());
    assert_eq!(kept, files[..200].to_vec());
}

#[test]
fn selection_narrows_then_filters_then_trims() {
    let service = default_service();
    let files = strings(&["src/scanner.rs", "target/scanner.rs", "src/main.rs", "scanner.lock"]);
    assert_eq!(service.select_files(&files, &strings(&["scanner"])), strings(&["src/scanner.rs"]));
    assert_eq!(
        service.select_files(&files, &Vec::new()),
        strings(&["src/scanner.rs", "src/main.rs"])
    );
}

#[test]
fn index_for_keywords_starts_from_the_eligible_files() {
    let service = default_service();
    let tree = DirNode {
        name: String::new(),
        is_dir: true,
        readable: true,
        children: vec![
            DirNode { name: "search.rs".to_string(), is_dir: false, readable: false, children: Vec::new() },
            DirNode { name: "search.txt".to_string(), is_dir: false, readable: false, children: Vec::new() },
            DirNode { name: "main.rs".to_string(), is_dir: false, readable: false, children: Vec::new() },
        ],
    };
    assert_eq!(service.build_index(&tree), Ok(strings(&["./search.rs", "./main.rs"])));
    assert_eq!(
        service.build_index_for_keywords(&tree, &strings(&["searching", "search.rs"])),
        Ok(strings(&["./search.rs"]))
    );
    let unreadable = DirNode { name: String::new(), is_dir: true, readable: false, children: Vec::new() };
    assert!(service.build_index(&unreadable).is_err());
    assert!(service.build_index_for_keywords(&unreadable, &Vec::new()).is_err());
}
