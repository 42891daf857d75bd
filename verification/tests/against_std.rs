use std::collections::HashSet;

use vibe_cli::chars::trim;
use vibe_cli::chunker::FileChunk;
use vibe_cli::cli;
use vibe_cli::config::{Config, Settings};
use vibe_cli::keywords::{keywords_from_text, normalize_text};
use vibe_cli::rag::RagService;
use vibe_cli::replies;
use vibe_cli::scanner::FileScanner;

/// A small generator of repeatable pseudo-random numbers.
struct Dice(u64);

impl Dice {
    fn roll(&mut self, sides: usize) -> usize {
        self.0 = self.0.wrapping_mul(6364136223846793005).wrapping_add(1442695040888963407);
        ((self.0 >> 33) as usize) % sides
    }

    fn text(&mut self, alphabet: &[&str], max_len: usize) -> String {
        let len = self.roll(max_len + 1);
        let mut text = String::new();
        for _ in 0..len {
            text.push_str(alphabet[self.roll(alphabet.len())]);
        }
        text
    }
}

fn service() -> RagService {
    let settings = Settings {
        ollama_base_url: None,
        base_model: None,
        db_path: None,
        home: None,
        cache_suffix: "t".to_string(),
        include_patterns: None,
        exclude_patterns: None,
    };
    RagService::new(".", Config::load(&settings))
}

fn digest(text: &str) -> String {
    format!("{:x}", md5::compute(text.as_bytes()))
}

fn paragraph_texts(text: &str) -> Vec<String> {
    let mut chunks = Vec::new();
    let mut seen = HashSet::new();
    let mut current = String::new();
    for paragraph in text.split("\n\n") {
        if current.len() + paragraph.len() > 2000 && !current.is_empty() {
            if seen.insert(digest(&current)) {
                chunks.push(current.clone());
            }
            current.clear();
        }
        if !current.is_empty() {
            current.push_str("\n\n");
        }
        current.push_str(paragraph);
        if current.len() >= 500 {
            if seen.insert(digest(&current)) {
                chunks.push(current.clone());
            }
            current.clear();
        }
    }
    if !current.is_empty() && seen.insert(digest(&current)) {
        chunks.push(current);
    }
    chunks
}

fn window_chunks(text: &str) -> Vec<(usize, String)> {
    let mut chunks = Vec::new();
    let mut seen = HashSet::new();
    let mut start = 0;
    while start < text.len() {
        let mut end = (start + 1000).min(text.len());
        while end < text.len() && !text.is_char_boundary(end) {
            end += 1;
        }
        let chunk = text[start..end].to_string();
        if seen.insert(digest(&chunk)) {
            chunks.push((start, chunk));
        }
        if end == text.len() {
            break;
        }
        let mut next = end.saturating_sub(200);
        while next > 0 && !text.is_char_boundary(next) {
            next -= 1;
        }
        start = next;
    }
    chunks
}

fn texts(chunks: &[FileChunk]) -> Vec<String> {
    chunks.iter().map(|c| c.text.clone()).collect()
}

#[test]
fn paragraph_chunks_are_those_of_a_running_buffer() {
    let scanner = FileScanner::new(".");
    let mut dice = Dice(7);
    let pieces = ["\n", "\n\n", "a", "bb ", "\u{e9}", &"x".repeat(140), &"y".repeat(480), &"z".repeat(1600), "same\n\n"];
    for _ in 0..300 {
        let text = dice.text(&pieces, 14);
        let expected = paragraph_texts(&text);
        let chunks = scanner.chunk_text(&text, "f.md");
        if expected.is_empty() {
            let windows: Vec<String> = window_chunks(&text).into_iter().map(|(_, t)| t).collect();
            assert_eq!(texts(&chunks), windows, "{:?}", text);
        } else {
            assert_eq!(texts(&chunks), expected, "{:?}", text);
        }
        for chunk in &chunks {
            assert_eq!(&text[chunk.start_offset..chunk.start_offset + chunk.text.len()], chunk.text);
        }
    }
}

#[test]
fn window_chunks_are_those_of_a_sliding_window() {
    let scanner = FileScanner::new(".");
    let mut dice = Dice(11);
    let pieces = ["a", "\u{e9}", "\u{20ac}", "\u{1f600}", &"q".repeat(97), &"\u{4e2d}".repeat(61), "\n\n"];
    for _ in 0..200 {
        let text = dice.text(&pieces, 60);
        let expected = window_chunks(&text);
        let chunks = scanner.chunk_fixed_size_dedup(&text, "f.md");
        let got: Vec<(usize, String)> = chunks.iter().map(|c| (c.start_offset, c.text.clone())).collect();
        assert_eq!(got, expected, "{:?}", text);
    }
}

fn glob_matches(path: &str, pattern: &str) -> bool {
    if pattern.contains("**") {
        let prefix = pattern.trim_end_matches("/**").trim_end_matches("**");
        if prefix.is_empty() {
            return true;
        }
        path.contains(&format!("/{}", prefix)) || path.starts_with(prefix)
    } else if pattern.starts_with("*.") {
        let ext = &pattern[2..];
        path.ends_with(&format!(".{}", ext))
    } else {
        path.contains(pattern)
    }
}

#[test]
fn patterns_match_as_the_string_methods_say() {
    let service = service();
    let mut dice = Dice(3);
    let pieces = ["*", "**", "/", ".", "a", "b", "rs", "/**", "*.", "src", "\u{e9}"];
    for _ in 0..4000 {
        let path = dice.text(&pieces, 6);
        let pattern = dice.text(&pieces, 4);
        assert_eq!(service.matches_pattern(&path, &pattern), glob_matches(&path, &pattern), "{:?} {:?}", path, pattern);
    }
}

fn fenced_command(raw: &str) -> String {
    let trimmed = raw.trim();
    if trimmed.starts_with("```") && trimmed.ends_with("```") {
        let lines: Vec<&str> = trimmed.lines().collect();
        if lines.len() >= 3 && lines[0].trim().starts_with("```") && lines.last().unwrap().trim() == "```" {
            return lines[1..lines.len() - 1].join("\n").trim().to_string();
        }
    }
    trimmed.to_string()
}

fn unquoted_command(raw: &str) -> String {
    let trimmed = raw.trim();
    if trimmed.starts_with("```") && trimmed.ends_with("```") {
        let lines: Vec<&str> = trimmed.lines().collect();
        if lines.len() >= 3 && lines.last().unwrap().trim() == "```" {
            return lines[1..lines.len() - 1].join("\n").trim().to_string();
        }
    }
    trimmed.trim_matches('`').trim_matches('"').trim_matches('\'').trim().to_string()
}

fn command_in_response(response: &str) -> String {
    let response = response.trim();
    let cleaned = if response.starts_with("```") && response.ends_with("```") {
        let start = response.find('\n').unwrap_or(0) + 1;
        let end = response.len() - 3;
        response[start..end].trim().to_string()
    } else {
        response.to_string()
    };
    cleaned.trim_matches('`').trim_matches('"').trim_matches('\'').trim().to_string()
}

#[test]
fn commands_are_cleaned_as_the_string_methods_say() {
    let mut dice = Dice(5);
    let pieces = ["```", "`", "\n", "\r\n", " ", "ls", "\"", "'", "sh", "\t", "\u{a0}", "x y"];
    for _ in 0..4000 {
        let raw = dice.text(&pieces, 9);
        assert_eq!(replies::clean_command_output(&raw), fenced_command(&raw), "{:?}", raw);
        assert_eq!(cli::clean_command_output(&raw), unquoted_command(&raw), "{:?}", raw);
        if raw.trim() != "```" {
            assert_eq!(cli::extract_command_from_response(&raw), command_in_response(&raw), "{:?}", raw);
        }
    }
}

fn first_value(raw: &str, arrays_too: bool) -> Option<&str> {
    let trimmed = raw.trim();
    if trimmed.starts_with('{') && trimmed.ends_with('}')
        || arrays_too && trimmed.starts_with('[') && trimmed.ends_with(']')
    {
        return Some(trimmed);
    }
    let bytes = trimmed.as_bytes();
    let mut depth = 0i64;
    let mut start = None;
    for (i, &b) in bytes.iter().enumerate() {
        if b == b'{' || arrays_too && b == b'[' {
            if depth == 0 {
                start = Some(i);
            }
            depth += 1;
        } else if b == b'}' || arrays_too && b == b']' {
            depth -= 1;
            if depth == 0 {
                if let Some(s) = start {
                    return Some(&trimmed[s..=i]);
                }
            }
        }
    }
    None
}

fn first_array(text: &str) -> Option<&str> {
    let bytes = text.as_bytes();
    let mut depth = 0i64;
    let mut start = None;
    let mut in_string = false;
    let mut escape_next = false;
    for (i, &b) in bytes.iter().enumerate() {
        if escape_next {
            escape_next = false;
            continue;
        }
        match b {
            b'"' => in_string = !in_string,
            b'\\' => {
                if in_string {
                    escape_next = true;
                }
            }
            b'[' => {
                if !in_string && depth == 0 {
                    start = Some(i);
                }
                if !in_string {
                    depth += 1;
                }
            }
            b']' => {
                if !in_string {
                    depth -= 1;
                    if depth == 0 {
                        if let Some(s) = start {
                            return Some(&text[s..=i]);
                        }
                    }
                }
            }
            _ => {}
        }
    }
    None
}

fn without_comments(content: &str) -> String {
    let mut result = String::new();
    let mut in_string = false;
    let mut escape_next = false;
    let mut comment_start = false;
    for (i, ch) in content.chars().enumerate() {
        if escape_next {
            result.push(ch);
            escape_next = false;
            continue;
        }
        match ch {
            '"' => {
                if !comment_start {
                    in_string = !in_string;
                    result.push(ch);
                }
            }
            '\\' => {
                if in_string {
                    escape_next = true;
                }
                result.push(ch);
            }
            '/' => {
                if !in_string && i + 1 < content.len() && content.chars().nth(i + 1) == Some('/') {
                    comment_start = true;
                    continue;
                } else if !comment_start {
                    result.push(ch);
                }
            }
            '\n' | '\r' => {
                if comment_start {
                    comment_start = false;
                } else {
                    result.push(ch);
                }
            }
            _ => {
                if !comment_start {
                    result.push(ch);
                }
            }
        }
    }
    result.trim().to_string()
}

#[test]
fn json_is_found_as_a_scan_of_the_bytes_says() {
    let mut dice = Dice(13);
    let pieces = ["{", "}", "[", "]", "\"", "\\", " ", "a", ",", "\n", "\u{e9}", "//", "/"];
    for _ in 0..6000 {
        let raw = dice.text(&pieces, 10);
        assert_eq!(replies::extract_last_json(&raw), first_value(&raw, false), "{:?}", raw);
        assert_eq!(cli::extract_last_json(&raw), first_value(&raw, true), "{:?}", raw);
        assert_eq!(replies::extract_json_array(&raw), first_array(&raw), "{:?}", raw);
        assert_eq!(replies::clean_json_content(&raw), without_comments(&raw), "{:?}", raw);
    }
}

fn listed_commands(raw: &str) -> Vec<String> {
    raw.lines()
        .map(|l| l.trim())
        .filter(|l| !l.is_empty() && !l.starts_with("```") && !l.ends_with("```") && *l != "[" && *l != "]")
        .map(|l| {
            let mut line = l.trim_start_matches(|c| c == '-' || c == '*' || c == '\u{2022}').trim();
            if let Some(pos) = line.find(|c: char| c == ')' || c == '.' || c == ':') {
                if pos < 4 {
                    line = line[pos + 1..].trim();
                }
            }
            line.trim_matches(',').trim().trim_matches('"').to_string()
        })
        .filter(|l| !l.is_empty())
        .collect()
}

#[test]
fn commands_are_listed_as_the_string_methods_say() {
    let mut dice = Dice(17);
    let pieces = ["-", "*", "\u{2022}", "1", ".", ")", ":", " ", "ls", "\n", ",", "\"", "```", "[", "]", "\r\n", "\u{e9}"];
    for _ in 0..6000 {
        let raw = dice.text(&pieces, 12);
        assert_eq!(cli::commands_from_lines(&raw), listed_commands(&raw), "{:?}", raw);
    }
}

fn plain_keywords(text: &str) -> Vec<String> {
    text.split_whitespace()
        .map(|w| w.trim_matches(|c: char| !c.is_alphanumeric()))
        .filter(|w| w.len() > 2)
        .map(|w| w.to_lowercase())
        .collect()
}

fn plain_normal(text: &str) -> String {
    text.to_lowercase()
        .chars()
        .filter(|c| c.is_alphanumeric() || c.is_whitespace())
        .collect::<String>()
        .split_whitespace()
        .collect::<Vec<&str>>()
        .join(" ")
}

#[test]
fn words_are_read_as_the_string_methods_say() {
    let mut dice = Dice(19);
    let pieces = ["a", "B", "\u{e9}", "\u{c9}", "1", "-", "_", "!", " ", "\t", "\n", "\u{a0}", "\u{3000}", "(", "zz", "\u{130}"];
    for _ in 0..6000 {
        let text = dice.text(&pieces, 12);
        assert_eq!(keywords_from_text(&text), plain_keywords(&text), "{:?}", text);
        assert_eq!(normalize_text(&text), plain_normal(&text), "{:?}", text);
    }
}

#[test]
fn white_space_is_trimmed_as_the_string_method_says() {
    let mut dice = Dice(23);
    let pieces = [" ", "\t", "\n", "\r", "\u{a0}", "\u{85}", "\u{3000}", "\u{2003}", "\u{feff}", "a", "\u{e9}", "\u{20ac}", "\u{1f600}", "\u{200b}"];
    for _ in 0..6000 {
        let text = dice.text(&pieces, 10);
        assert_eq!(trim(&text), text.trim(), "{:?}", text);
    }
    assert_eq!(trim(""), "");
    assert_eq!(trim(" \u{2028} "), "");
    assert_eq!(trim("x"), "x");
}
