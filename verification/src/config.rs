use vstd::prelude::*;
use vstd::string::StringExecFns;
use vstd::string::StringSliceAdditionalSpecFns;
use vstd::utf8::*;
use crate::byte_search::split;
use crate::chars::{trim, trimmed};
use crate::scanner::{entry_path, join_path};
use crate::text::{slice_bytes, split_exec};

verus! {

broadcast use vstd::utf8::encode_utf8_decode_utf8;

/// The backend that is asked where none is named.
pub const DEFAULT_BASE_URL: &'static str = "http://localhost:11434";

/// The model that is asked where none is named.
pub const DEFAULT_MODEL: &'static str = "qwen2.5:1.5b-instruct";

/// The patterns of the paths that are indexed where none are named.
pub const DEFAULT_INCLUDE_PATTERNS: &'static str = "*.rs,*.js,*.ts,*.py,*.java,*.go,*.md,*.toml,*.json";

/// The patterns of the paths that are not indexed where none are named.
pub const DEFAULT_EXCLUDE_PATTERNS: &'static str = "target/**,node_modules/**,*.lock,Cargo.lock,.git/**,__pycache__/**,*.pyc,dist/**,build/**,.next/**,.cache/**";

/// The byte that separates the patterns of a list.
pub const PATTERN_SEPARATOR: u8 = 44;

/// Settings of the index: where the backend and the store are, and which
/// paths are indexed.
#[derive(Clone)]
pub struct Config {
    pub ollama_base_url: String,
    pub ollama_model: String,
    pub db_path: String,
    pub rag_include_patterns: Vec<String>,
    pub rag_exclude_patterns: Vec<String>,
}

/// What the environment says about the index. `cache_suffix` tells the
/// stores of different projects apart.
pub struct Settings {
    pub ollama_base_url: Option<String>,
    pub base_model: Option<String>,
    pub db_path: Option<String>,
    pub home: Option<String>,
    pub cache_suffix: String,
    pub include_patterns: Option<String>,
    pub exclude_patterns: Option<String>,
}

/// The patterns of a list: the pieces between commas, each without the white
/// space around it.
pub open spec fn pattern_list(list: Seq<char>) -> Seq<Seq<char>> {
    let pieces = split(encode_utf8(list), PATTERN_SEPARATOR);
    Seq::new(pieces.len(), |i: int| trimmed(decode_utf8(pieces[i])))
}

/// A setting, or what stands for it where it is not set.
pub open spec fn setting_or(setting: Option<String>, default: Seq<char>) -> Seq<char> {
    match setting {
        Some(value) => value@,
        None => default,
    }
}

/// Where the store of a project lies unless the environment names a place:
/// below the home directory, or below the working directory where there is
/// no home.
pub open spec fn default_db_path(home: Option<String>, cache_suffix: Seq<char>) -> Seq<char> {
    entry_path(
        entry_path(entry_path(entry_path(setting_or(home, "."@), ".local"@), "share"@), "vibe_cli"@),
        cache_suffix + "_embeddings.db"@,
    )
}

fn value_or(setting: &Option<String>, default: &str) -> (value: String)
    ensures
        value@ == setting_or(*setting, default@),
{
    match setting {
        Some(value) => value.clone(),
        None => String::from_str(default),
    }
}

/// The patterns of a list: the pieces between commas, each without the white
/// space around it.
pub fn parse_patterns(list: &str) -> (patterns: Vec<String>)
    ensures
        crate::text::texts(patterns@) == pattern_list(list@),
{
    let pieces = split_exec(list, PATTERN_SEPARATOR);
    let ghost parts = split(encode_utf8(list@), PATTERN_SEPARATOR);
    let mut patterns: Vec<String> = Vec::new();
    let mut i: usize = 0;
    while i < pieces.len()
        invariant
            i <= pieces.len(),
            slice_bytes(pieces@) == parts,
            patterns.len() == i,
            forall|j: int| 0 <= j < i ==> (#[trigger] patterns[j])@ == trimmed(decode_utf8(parts[j])),
        decreases pieces.len() - i,
    {
        proof {
            assert(slice_bytes(pieces@)[i as int] == pieces[i as int].spec_bytes());
        }
        patterns.push(String::from_str(trim(pieces[i])));
        i += 1;
    }
    assert(crate::text::texts(patterns@) =~= pattern_list(list@));
    patterns
}

impl Config {
    /// The settings of the index as the environment gives them, with the
    /// usual value for each that it does not give.
    pub fn load(settings: &Settings) -> (config: Self)
        ensures
            config.ollama_base_url@ == setting_or(settings.ollama_base_url, DEFAULT_BASE_URL@),
            config.ollama_model@ == setting_or(settings.base_model, DEFAULT_MODEL@),
            config.db_path@ == setting_or(
                settings.db_path,
                default_db_path(settings.home, settings.cache_suffix@),
            ),
            crate::text::texts(config.rag_include_patterns@) == pattern_list(
                setting_or(settings.include_patterns, DEFAULT_INCLUDE_PATTERNS@),
            ),
            crate::text::texts(config.rag_exclude_patterns@) == pattern_list(
                setting_or(settings.exclude_patterns, DEFAULT_EXCLUDE_PATTERNS@),
            ),
    {
        let db_path = match &settings.db_path {
            Some(path) => path.clone(),
            None => {
                let home = value_or(&settings.home, ".");
                let local = join_path(home.as_str(), ".local");
                let share = join_path(local.as_str(), "share");
                let dir = join_path(share.as_str(), "vibe_cli");
                let mut name = settings.cache_suffix.clone();
                name.append("_embeddings.db");
                join_path(dir.as_str(), name.as_str())
            },
        };
        let wanted = value_or(&settings.include_patterns, DEFAULT_INCLUDE_PATTERNS);
        let unwanted = value_or(&settings.exclude_patterns, DEFAULT_EXCLUDE_PATTERNS);
        Config {
            ollama_base_url: value_or(&settings.ollama_base_url, DEFAULT_BASE_URL),
            ollama_model: value_or(&settings.base_model, DEFAULT_MODEL),
            db_path,
            rag_include_patterns: parse_patterns(wanted.as_str()),
            rag_exclude_patterns: parse_patterns(unwanted.as_str()),
        }
    }
}

} // verus!
