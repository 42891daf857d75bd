use vibe_cli::chars::strip_char;
use vibe_cli::text::lines_exec;
use vibe_cli::assistant_config::Config;
use vibe_cli::cache::{CacheEntry, CacheFile};
use vibe_cli::chat::Message;
use vibe_cli::cli;
use vibe_cli::interaction::{chat_turn, confirmation_for_key, confirmation_prompt, ends_chat, is_yes, select_mode, Key, Mode, Turn};
use vibe_cli::documents::{document_kind, document_text, DocumentKind, DocumentPart};
use vibe_cli::project::{lower_hex_string, project_cache_suffix, project_marker_list, suffix_for_hash};
use vibe_cli::json::string_array;
use vibe_cli::keywords::{keywords_from_text, normalize_text};
use vibe_cli::replies;
use vibe_cli::ollama_client::{BackendError, OllamaClient, ResponsePart};
use vibe_cli::requests::{command_messages, plan_messages, script_from_reply, script_messages};

fn strings(items: &[&str]) -> Vec<String> {
    items.iter().map(|s| s.to_string()).collect()
}

fn message(role: &str, content: &str) -> Message {
    Message { role: role.to_string(), content: content.to_string() }
}

fn part(content: &str, done: bool) -> Option<ResponsePart> {
    Some(ResponsePart { content: content.to_string(), done })
}

#[test]
fn lines_end_with_line_feeds() {
    assert_eq!(lines_exec("a\nb"), vec!["a", "b"]);
    assert_eq!(lines_exec("a\nb\n"), vec!["a", "b"]);
    assert_eq!(lines_exec("a\r\nb\r\n"), vec!["a", "b"]);
    assert_eq!(lines_exec("a\rb\r"), vec!["a\rb\r"]);
    assert_eq!(lines_exec("a\n\nb"), vec!["a", "", "b"]);
    assert_eq!(lines_exec(""), Vec::<&str>::new());
    assert_eq!(lines_exec("\n"), vec![""]);
    assert_eq!(lines_exec("a\r\r\n"), vec!["a\r"]);
    for text in ["x\ny\r\n\r\nz", "\r\n", "one", "\n\n", "q\r", "\u{e9}\n\u{20ac}\r\n."] {
        assert_eq!(lines_exec(text), text.lines().collect::<Vec<&str>>());
    }
}

#[test]
fn characters_are_stripped_from_both_ends() {
    assert_eq!(strip_char("``ls``", '`'), "ls");
    assert_eq!(strip_char("`a`b`", '`'), "a`b");
    assert_eq!(strip_char("````", '`'), "");
    assert_eq!(strip_char("plain", '`'), "plain");
}

#[test]
fn keywords_are_bare_lowercase_words() {
    assert_eq!(
        keywords_from_text("How does the Scanner (really) work?  ok"),
        strings(&["how", "does", "the", "scanner", "really", "work"])
    );
    assert_eq!(keywords_from_text("a bb ccc"), strings(&["ccc"]));
    assert_eq!(keywords_from_text("--flag-- ... 'x' \u{e9}\u{e9}!"), strings(&["flag", "\u{e9}\u{e9}"]));
    assert_eq!(keywords_from_text("mid-word_x"), strings(&["mid-word_x"]));
    assert!(keywords_from_text("").is_empty());
    assert!(keywords_from_text(" \t\n ").is_empty());
}

#[test]
fn normalized_text_has_single_spaces_and_no_punctuation() {
    assert_eq!(normalize_text("  List ALL   files, please!  "), "list all files please");
    assert_eq!(normalize_text("a-b\tc\n"), "ab c");
    assert_eq!(normalize_text("!!!"), "");
    assert_eq!(normalize_text(""), "");
}

#[test]
fn command_is_taken_out_of_a_fenced_block() {
    assert_eq!(replies::clean_command_output("```sh\nls -la\n```"), "ls -la");
    assert_eq!(replies::clean_command_output("  ```\n  a\n  b  \n```  \n"), "a\n  b");
    assert_eq!(replies::clean_command_output("ls -la\n"), "ls -la");
    assert_eq!(replies::clean_command_output("```ls```"), "```ls```");
    assert_eq!(replies::clean_command_output("```\nls```"), "```\nls```");
    assert_eq!(replies::clean_command_output("```\nls\n``` ```"), "```\nls\n``` ```");
    assert_eq!(replies::clean_command_output("```\r\nls\r\n```"), "ls");
}

#[test]
fn reply_is_cleaned_of_fences_and_quotes() {
    assert_eq!(cli::clean_command_output("```bash\nls\n```"), "ls");
    assert_eq!(cli::clean_command_output("`ls -la`"), "ls -la");
    assert_eq!(cli::clean_command_output(" \"'ls'\" "), "ls");
    assert_eq!(cli::clean_command_output("```ls```"), "ls");
    assert_eq!(cli::clean_command_output("echo 'a'"), "echo 'a");
}

#[test]
fn command_is_extracted_from_a_response() {
    assert_eq!(cli::extract_command_from_response("```bash\nls -la\n```"), "ls -la");
    assert_eq!(cli::extract_command_from_response("```\ndf -h\n```\n"), "df -h");
    assert_eq!(cli::extract_command_from_response("`uptime`"), "uptime");
    assert_eq!(cli::extract_command_from_response("\"ls\""), "ls");
    assert_eq!(cli::extract_command_from_response("```bash ls```"), "bash ls");
    assert_eq!(cli::extract_command_from_response("```"), "");
    assert_eq!(cli::extract_command_from_response("````"), "");
    assert_eq!(cli::extract_command_from_response("plain text"), "plain text");
}

#[test]
fn json_object_is_found_in_noise() {
    assert_eq!(replies::extract_last_json("  {\"a\": 1}  "), Some("{\"a\": 1}"));
    assert_eq!(replies::extract_last_json("noise {\"a\": {\"b\": 2}} more {\"c\": 3}"), Some("{\"a\": {\"b\": 2}}"));
    assert_eq!(replies::extract_last_json("no json"), None);
    assert_eq!(replies::extract_last_json("} {\"a\": 1}"), None);
    assert_eq!(replies::extract_last_json("[1, 2]"), None);
    assert_eq!(replies::extract_last_json("{ open"), None);
    assert_eq!(replies::extract_last_json("x {\u{e9}} y"), Some("{\u{e9}}"));
    assert_eq!(replies::extract_last_json("{a} and {b}"), Some("{a} and {b}"));
}

#[test]
fn json_array_counts_as_a_value_for_the_shell() {
    assert_eq!(cli::extract_last_json("[\"ls\"]"), Some("[\"ls\"]"));
    assert_eq!(cli::extract_last_json("plan: [\"a\", {\"b\": 1}] end"), Some("[\"a\", {\"b\": 1}]"));
    assert_eq!(cli::extract_last_json("x {\"a\": [1]} y"), Some("{\"a\": [1]}"));
    assert_eq!(cli::extract_last_json("nothing"), None);
}

#[test]
fn json_array_is_found_outside_strings() {
    assert_eq!(replies::extract_json_array("Here: [\"a\", \"b\"] done"), Some("[\"a\", \"b\"]"));
    assert_eq!(replies::extract_json_array("[[1], [2]] [3]"), Some("[[1], [2]]"));
    assert_eq!(replies::extract_json_array("\"[\" [\"x]\"]"), Some("[\"x]\"]"));
    assert_eq!(replies::extract_json_array("[\"a\\\"]\"]"), Some("[\"a\\\"]\"]"));
    assert_eq!(replies::extract_json_array("none"), None);
    assert_eq!(replies::extract_json_array("[ open"), None);
    assert_eq!(replies::extract_json_array("] [1]"), None);
}

#[test]
fn comments_are_removed_from_json() {
    assert_eq!(replies::clean_json_content("[\"a\", // first\n \"b\"]"), "[\"a\",  \"b\"]");
    assert_eq!(replies::clean_json_content("[\"http://x\"]"), "[\"http://x\"]");
    assert_eq!(replies::clean_json_content("  [1] // tail"), "[1]");
    assert_eq!(replies::clean_json_content("[\"a\\\"//b\"]"), "[\"a\\\"//b\"]");
    assert_eq!(replies::clean_json_content("a / b"), "a / b");
    assert_eq!(replies::clean_json_content("x // \"q\" \\ y\nz"), "x \\z");
}

#[test]
fn strings_of_a_json_array_are_read() {
    assert_eq!(string_array("[\"ls\", \"pwd\"]"), Some(strings(&["ls", "pwd"])));
    assert_eq!(string_array(" [ ] "), Some(Vec::new()));
    assert_eq!(string_array("[\"a\\nb\", \"\\u00e9\"]"), Some(strings(&["a\nb", "\u{e9}"])));
    assert_eq!(string_array("[1]"), None);
    assert_eq!(string_array("\"ls\""), None);
    assert_eq!(string_array("[\"ls\"] x"), None);
    assert_eq!(string_array(""), None);
}

#[test]
fn plan_is_read_from_json() {
    assert_eq!(cli::parse_agent_plan("[\"ls\", \"pwd\"]"), strings(&["ls", "pwd"]));
    assert_eq!(cli::parse_agent_plan("```json\n[\"ls\"]\n```"), strings(&["ls"]));
    assert_eq!(cli::parse_agent_plan("Sure! [\"apt update\", \"apt upgrade\"] Done."), strings(&["apt update", "apt upgrade"]));
    assert_eq!(cli::parse_agent_plan("[]"), Vec::<String>::new());
}

#[test]
fn plan_is_read_from_lines_where_there_is_no_json() {
    assert_eq!(
        cli::parse_agent_plan("1. sudo apt update\n2) sudo apt upgrade\n- echo done\n* \"ls\",\n\n```\n"),
        strings(&["sudo apt update", "sudo apt upgrade", "echo done", "ls"])
    );
    assert_eq!(cli::commands_from_lines("[\n ls\n]\n```sh\npwd```"), strings(&["ls"]));
    assert_eq!(cli::commands_from_lines("10. late\nst: one\nstep: two\nlong line: kept"), strings(&["late", "one", "step: two", "long line: kept"]));
    assert_eq!(cli::commands_from_lines("\u{2022} item\n-\n  ,\"x\",  "), strings(&["item", "x"]));
    assert_eq!(cli::commands_from_lines(""), Vec::<String>::new());
    assert_eq!(cli::commands_from_lines("a.b"), strings(&["b"]));
}

#[test]
fn filled_lines_of_a_reply_are_trimmed() {
    assert_eq!(replies::response_lines(" {\"a\":1} \n\n  \r\n{\"b\":2}\n"), vec!["{\"a\":1}", "{\"b\":2}"]);
    assert!(replies::response_lines("  \n\t\n").is_empty());
}

#[test]
fn command_comes_from_the_last_assistant_line() {
    let lines = vec![Some(message("assistant", "ls")), None, Some(message("assistant", "```\npwd\n```")), Some(message("user", "x"))];
    let whole = message("assistant", "whole");
    let extracted = message("assistant", "extracted");
    assert_eq!(replies::command_from_reply("raw", &lines, Some(&whole), Some(&extracted)), "pwd");
    let others = vec![Some(message("user", "x")), None];
    assert_eq!(replies::command_from_reply("raw", &others, Some(&whole), Some(&extracted)), "whole");
    assert_eq!(replies::command_from_reply("raw", &others, None, Some(&extracted)), "extracted");
    assert_eq!(replies::command_from_reply(" raw \n", &others, None, None), "raw");
    assert_eq!(replies::command_from_reply("```\nls\n```", &Vec::new(), None, None), "ls");
}

#[test]
fn plan_comes_from_the_first_place_that_holds_one() {
    let none: Vec<Option<Message>> = Vec::new();
    assert_eq!(replies::plan_from_reply("[\"a\"]", &none, None, None), strings(&["a"]));
    assert_eq!(replies::plan_from_reply("```\n[\"b\"]\n```", &none, None, None), strings(&["b"]));
    let lines = vec![
        Some(message("assistant", "[\"early\"]")),
        Some(message("assistant", "no plan here")),
        Some(message("user", "[\"not mine\"]")),
    ];
    assert_eq!(replies::plan_from_reply("raw", &lines, None, None), strings(&["early"]));
    let commented = vec![Some(message("assistant", "[\"x\", // why\n\"y\"]"))];
    assert_eq!(replies::plan_from_reply("raw", &commented, None, None), strings(&["x", "y"]));
    let whole = message("user", "[\"w\"]");
    assert_eq!(replies::plan_from_reply("raw", &none, Some(&whole), None), strings(&["w"]));
    assert_eq!(replies::plan_from_reply("text [\"arr\"] text", &none, None, None), strings(&["arr"]));
    let extracted = message("assistant", "```\n[\"e\"]\n```");
    assert_eq!(replies::plan_from_reply("x {\"message\": 1} y", &none, None, Some(&extracted)), strings(&["e"]));
    assert_eq!(replies::plan_from_reply("just prose", &none, None, None), Vec::<String>::new());
    assert_eq!(replies::plan_from_content("[\"p\"]", false), Some(strings(&["p"])));
    assert_eq!(replies::plan_from_content("[\"p\", // c\n\"q\"]", false), None);
    assert_eq!(replies::plan_from_content("prose", true), None);
}

#[test]
fn requests_hold_their_prompts() {
    let chat = vec![message("system", "s"), message("user", "free space")];
    let sent = command_messages(&chat, "/work");
    assert_eq!(sent.len(), 3);
    assert_eq!(sent[0].content, "s");
    assert_eq!(sent[1].role, "user");
    assert_eq!(sent[2].role, "user");
    assert_eq!(
        sent[2].content,
        "Convert the user's last request into ONE POSIX shell command. Current working directory: /work. Use actual paths and commands that will work in this environment. Avoid placeholders like '/path/to/' - use real paths or relative paths. Common patterns: 'disk space/free space' \u{2192} df -h, 'folder sizes/largest folders' \u{2192} du -sh */ | sort -hr. Distinguish between filesystem space (df) and folder sizes (du). Cache management: 'clear cache' uses --retrain flag, 'show cache' \u{2192} cat ~/.config/qwen_cli_assistant/cache.json. Output ONLY the command, no markdown, no explanation."
    );
    let plan = plan_messages("/w", "linux", "install ssh");
    assert_eq!(plan.len(), 3);
    assert_eq!(plan[0].role, "system");
    assert!(plan[0].content.starts_with("You turn a user's goal into an ordered list of POSIX shell commands"));
    assert!(plan[0].content.ends_with("Generate the plan based on the user's request.\n  "));
    assert!(plan[0].content.contains("[\"sudo apt-get update\", \"sudo apt-get install -y openssh-server\", \"sudo systemctl enable --now ssh\"]"));
    assert_eq!(plan[1].content, "Environment context: cwd='/w', platform='linux'. Use paths that work here and avoid placeholders.");
    assert_eq!(plan[2].content, "install ssh");
    let script = script_messages("backup home");
    assert_eq!(script[0].content, "Generate a POSIX-compatible bash script only.\nReturn only the script text, no markdown.");
    assert_eq!(script[1].content, "backup home");
    assert_eq!(script_from_reply("\n#!/bin/sh\necho hi\n\n"), "#!/bin/sh\necho hi");
}

#[test]
fn backend_answer_is_what_its_lines_say() {
    let client = OllamaClient::new(None, None);
    assert_eq!(client.base_url, "http://localhost:11434");
    assert_eq!(client.model, "qwen2.5-coder:7b");
    assert_eq!(client.embeddings_url(), "http://localhost:11434/api/embeddings");
    assert_eq!(client.chat_url(), "http://localhost:11434/api/chat");
    let parts = vec![part("Hel", false), None, part("lo", true), part(" ignored", false)];
    assert_eq!(client.generate_response(true, "body", &parts).unwrap(), "Hello");
    assert_eq!(client.generate_response(true, "body", &vec![part("a", false), part("b", false)]).unwrap(), "ab");
    assert_eq!(client.generate_response(true, "", &Vec::new()).unwrap(), "");
    let named = OllamaClient::new(Some("http://h:1".to_string()), Some("m".to_string()));
    assert_eq!(named.chat_url(), "http://h:1/api/chat");
    assert_eq!(named.model, "m");
}

#[test]
fn backend_failure_says_what_the_backend_said() {
    let client = OllamaClient::new(None, None);
    match client.generate_response(false, "model not found", &vec![part("x", true)]) {
        Err(error) => {
            assert!(matches!(&error, BackendError::Status(body) if body == "model not found"));
            assert_eq!(error.message(), "Ollama API error: model not found");
        }
        Ok(_) => panic!("a failure is no answer"),
    }
}

#[test]
fn old_entries_leave_the_cache() {
    let week = 604800u64;
    let now = 10 * week;
    let mut cache = CacheFile::new();
    cache.remember("old", "x", now - week);
    cache.remember("edge", "y", now - week + 1);
    cache.remember("new", "z", now);
    cache.remember("future", "w", now + 5);
    cache.retain_fresh(now);
    let kept: Vec<&str> = cache.entries.iter().map(|e| e.prompt.as_str()).collect();
    assert_eq!(kept, vec!["edge", "new"]);
}

#[test]
fn cache_gives_the_first_exact_match() {
    let mut cache = CacheFile { entries: Vec::new() };
    cache.remember("list files", "ls", 100);
    cache.remember("list files", "ls -la", 200);
    cache.remember("show disk", "df -h", 300);
    assert_eq!(cache.find_exact("list files"), Some(0));
    assert_eq!(cache.find_exact("show disk"), Some(2));
    assert_eq!(cache.find_exact("List files"), None);
    assert_eq!(cache.lookup("list files"), Some("ls".to_string()));
    assert_eq!(cache.lookup("nothing"), None);
    assert_eq!(cache.entries[1].timestamp, 200);
}

#[test]
fn assistant_cache_cleans_commands() {
    let config = Config::new(true, true, false, None, None, "/tmp/cache.bin".to_string());
    assert_eq!(config.model, "qwen2.5:1.5b-instruct");
    assert_eq!(config.endpoint, "http://localhost:11434/api/chat");
    assert!(config.safe_mode && config.cache_enabled && !config.copy_to_clipboard);
    assert_eq!(config.cache_path, "/tmp/cache.bin");
    let mut cache = CacheFile::new();
    config.save_cached(&mut cache, "list", "```sh\nls\n```", 1000);
    assert_eq!(cache.entries[0].response, "ls");
    cache.entries.push(CacheEntry { prompt: "old".to_string(), response: "x".to_string(), timestamp: 1 });
    cache.entries.push(CacheEntry { prompt: "raw".to_string(), response: " ```\npwd\n``` ".to_string(), timestamp: 1000 });
    assert_eq!(config.load_cached(&mut cache, "list", 605000), Some("ls".to_string()));
    assert_eq!(cache.entries.len(), 2);
    assert_eq!(config.load_cached(&mut cache, "raw", 605000), Some("pwd".to_string()));
    assert_eq!(config.load_cached(&mut cache, "old", 605000), None);
    let named = Config::new(false, false, true, Some("m".to_string()), Some("e".to_string()), String::new());
    assert_eq!(named.model, "m");
    assert_eq!(named.endpoint, "e");
}

#[test]
fn system_is_described_in_one_line() {
    let probe = vibe_cli::system_info::SystemProbe {
        os_release: Some("NAME=\"Ubuntu\"\nID=ubuntu\nVERSION_ID=\"22.04\"\nID_LIKE=debian\nID=ID=\"x\"\n".to_string()),
        os_name: Some("Linux".to_string()),
        has_systemd: true,
        has_init_d: true,
        package_manager: Some("apt".to_string()),
        kernel: Some("6.1.0".to_string()),
    };
    assert_eq!(
        vibe_cli::system_info::detect_system_info(&probe),
        "Distro: ubuntu, Version: 22.04, Distro: x, Init system: systemd, Package manager: apt, Kernel: 6.1.0"
    );
    let bare = vibe_cli::system_info::SystemProbe {
        os_release: None,
        os_name: Some("Darwin".to_string()),
        has_systemd: false,
        has_init_d: true,
        package_manager: None,
        kernel: None,
    };
    assert_eq!(vibe_cli::system_info::detect_system_info(&bare), "OS: Darwin, Init system: init.d");
    let nothing = vibe_cli::system_info::SystemProbe {
        os_release: None,
        os_name: None,
        has_systemd: false,
        has_init_d: false,
        package_manager: None,
        kernel: None,
    };
    assert_eq!(vibe_cli::system_info::detect_system_info(&nothing), "");
}

#[test]
fn shell_prompts_hold_system_and_task() {
    assert_eq!(
        cli::command_prompt("Distro: ubuntu", "list files"),
        "You are on a system with: Distro: ubuntu. Generate a bash command to: list files. Respond with only the exact command to run, without any formatting, backticks, quotes, or explanation. Ensure the command is complete, syntactically correct, and uses standard Unix tools. For size comparisons, use appropriate units like -BG for gigabytes in df."
    );
    let agent = cli::agent_prompt("Kernel: 6", "install ssh");
    assert!(agent.starts_with("You are an assistant that turns a user's goal into a sequence of POSIX shell commands that can be run one-by-one with confirmation in between.\nEnvironment: Kernel: 6.\nConstraints:\n- Respond ONLY with a JSON array of strings."));
    assert!(agent.ends_with("- Keep commands minimal and idempotent (check state before changing it).\n\nUser request: install ssh"));
    assert_eq!(cli::explain_prompt("fn main() {}"), "Explain this content in detail:\n\nfn main() {}");
}

#[test]
fn documents_are_read_by_their_kind() {
    assert_eq!(document_kind(Some("pdf")), DocumentKind::Pdf);
    assert_eq!(document_kind(Some("PDF")), DocumentKind::Pdf);
    assert_eq!(document_kind(Some("Docx")), DocumentKind::Docx);
    assert_eq!(document_kind(Some("txt")), DocumentKind::Text);
    assert_eq!(document_kind(None), DocumentKind::Text);
    let parts = vec![
        DocumentPart::Paragraph("Title".to_string()),
        DocumentPart::Other,
        DocumentPart::Table,
        DocumentPart::Paragraph(String::new()),
    ];
    assert_eq!(document_text(&parts), "Title\n[Table content not extracted]\n\n");
    assert_eq!(document_text(&Vec::new()), "");
}

#[test]
fn docx_body_is_read_as_text() {
    let document = docx_rs::Docx::new()
        .add_paragraph(docx_rs::Paragraph::new().add_run(docx_rs::Run::new().add_text("Hello")))
        .add_table(docx_rs::Table::new(vec![docx_rs::TableRow::new(vec![docx_rs::TableCell::new()])]))
        .add_paragraph(docx_rs::Paragraph::new().add_run(docx_rs::Run::new().add_text("second").add_tab().add_text("line")));
    let mut packed = std::io::Cursor::new(Vec::new());
    document.build().pack(&mut packed).unwrap();
    let read = docx_rs::read_docx(&packed.into_inner()).unwrap();
    let parts: Vec<DocumentPart> = read
        .document
        .children
        .iter()
        .map(|child| match child {
            docx_rs::DocumentChild::Paragraph(p) => DocumentPart::Paragraph(p.raw_text()),
            docx_rs::DocumentChild::Table(_) => DocumentPart::Table,
            _ => DocumentPart::Other,
        })
        .collect();
    assert_eq!(document_text(&parts), "Hello\n[Table content not extracted]\nsecond\tline\n");
}

#[test]
fn numbers_are_written_in_hexadecimal() {
    for n in [0u64, 9, 10, 15, 16, 255, 256, 0xdead_beef, u64::MAX] {
        assert_eq!(lower_hex_string(n), format!("{:x}", n));
        assert_eq!(suffix_for_hash(n), format!("{:x}", n));
    }
}

#[test]
fn stores_of_a_project_share_a_suffix() {
    assert_eq!(project_cache_suffix(None), "global");
    let suffix = project_cache_suffix(Some("/home/u/project"));
    assert_eq!(suffix, project_cache_suffix(Some("/home/u/project")));
    assert_ne!(suffix, project_cache_suffix(Some("/home/u/other")));
    assert!(!suffix.is_empty() && suffix.len() <= 16);
    assert!(suffix.chars().all(|c| c.is_ascii_hexdigit() && !c.is_ascii_uppercase()));
    let mut hasher = std::collections::hash_map::DefaultHasher::new();
    std::hash::Hash::hash("/home/u/project", &mut hasher);
    assert_eq!(suffix, format!("{:x}", std::hash::Hasher::finish(&hasher)));
    assert_eq!(project_marker_list().len(), 13);
    assert_eq!(project_marker_list()[0], "Cargo.toml");
    assert_eq!(project_marker_list()[12], ".git");
}

#[test]
fn keys_answer_a_question() {
    assert_eq!(confirmation_for_key(Key::Char('y'), false), Some(true));
    assert_eq!(confirmation_for_key(Key::Char('Y'), false), Some(true));
    assert_eq!(confirmation_for_key(Key::Char('n'), true), Some(false));
    assert_eq!(confirmation_for_key(Key::Char('N'), true), Some(false));
    assert_eq!(confirmation_for_key(Key::Enter, true), Some(true));
    assert_eq!(confirmation_for_key(Key::Enter, false), Some(false));
    assert_eq!(confirmation_for_key(Key::Char('x'), true), None);
    assert_eq!(confirmation_for_key(Key::Other, true), None);
    assert_eq!(confirmation_prompt("Run this command?", false), "Run this command? [y/N] ");
    assert_eq!(confirmation_prompt("Use it?", true), "Use it? [Y/n] ");
}

#[test]
fn typed_lines_say_yes_or_no() {
    assert!(is_yes(""));
    assert!(is_yes("  \n"));
    assert!(is_yes("y\n"));
    assert!(is_yes(" Yes please"));
    assert!(!is_yes("n"));
    assert!(!is_yes("no, yes"));
}

#[test]
fn flags_select_the_mode() {
    assert_eq!(select_mode(true, true, true, true, true, true), Mode::Chat);
    assert_eq!(select_mode(false, true, true, true, true, true), Mode::Agent);
    assert_eq!(select_mode(false, false, true, true, true, true), Mode::Explain);
    assert_eq!(select_mode(false, false, false, true, true, true), Mode::Rag);
    assert_eq!(select_mode(false, false, false, false, true, true), Mode::Context);
    assert_eq!(select_mode(false, false, false, false, false, true), Mode::LeptosMode);
    assert_eq!(select_mode(false, false, false, false, false, false), Mode::Query);
}

#[test]
fn chats_end_with_exit() {
    assert!(ends_chat("exit"));
    assert!(ends_chat("EXIT"));
    assert!(!ends_chat(" exit"));
    assert!(!ends_chat("quit"));
    assert_eq!(chat_turn("  "), Turn::Skip);
    assert_eq!(chat_turn(""), Turn::Skip);
    assert_eq!(chat_turn(" Exit \n"), Turn::Quit);
    assert_eq!(chat_turn("QUIT"), Turn::Quit);
    assert_eq!(chat_turn("exit now"), Turn::Ask);
    assert_eq!(chat_turn("list files"), Turn::Ask);
    assert_eq!(chat_turn("ex\u{130}t"), Turn::Ask);
}
