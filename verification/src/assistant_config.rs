use vstd::prelude::*;
use vstd::string::StringExecFns;
use crate::cache::{CacheEntry, CacheFile, first_for, is_fresh};
use crate::replies::{clean_command_output, cleaned_command};

verus! {

/// The model that is asked where none is named.
pub const DEFAULT_MODEL: &'static str = "qwen2.5:1.5b-instruct";

/// Where the model is asked where no place is named.
pub const DEFAULT_ENDPOINT: &'static str = "http://localhost:11434/api/chat";

/// Settings of the assistant.
#[derive(Clone)]
pub struct Config {
    pub model: String,
    pub endpoint: String,
    pub safe_mode: bool,
    pub cache_enabled: bool,
    pub copy_to_clipboard: bool,
    pub cache_path: String,
}

impl Config {
    /// The settings with the model and the endpoint that the environment
    /// names, or the usual ones.
    pub fn new(
        safe_mode: bool,
        cache_enabled: bool,
        copy_to_clipboard: bool,
        model: Option<String>,
        endpoint: Option<String>,
        cache_path: String,
    ) -> (config: Self)
        ensures
            config.safe_mode == safe_mode,
            config.cache_enabled == cache_enabled,
            config.copy_to_clipboard == copy_to_clipboard,
            config.cache_path == cache_path,
            config.model@ == match model {
                Some(name) => name@,
                None => DEFAULT_MODEL@,
            },
            config.endpoint@ == match endpoint {
                Some(url) => url@,
                None => DEFAULT_ENDPOINT@,
            },
    {
        Config {
            model: match model {
                Some(name) => name,
                None => String::from_str(DEFAULT_MODEL),
            },
            endpoint: match endpoint {
                Some(url) => url,
                None => String::from_str(DEFAULT_ENDPOINT),
            },
            safe_mode,
            cache_enabled,
            copy_to_clipboard,
            cache_path,
        }
    }

    /// Looks a prompt up in the cache at the time `now`: drops the entries
    /// that are too old, and gives the command that was cached for exactly
    /// this prompt, cleaned of code fences, if there is one.
    pub fn load_cached(&self, cache: &mut CacheFile, prompt: &str, now: u64) -> (command: Option<String>)
        ensures
            final(cache).entries@ == old(cache).entries@.filter(|e: CacheEntry| is_fresh(now, e.timestamp)),
            match command {
                Some(text) => {
                    &&& first_for(final(cache).entries@, prompt@, final(cache).entries.len() as int) is Some
                    &&& text@ == cleaned_command(
                        final(cache).entries[first_for(
                            final(cache).entries@,
                            prompt@,
                            final(cache).entries.len() as int,
                        )->0].response@,
                    )
                },
                None => first_for(final(cache).entries@, prompt@, final(cache).entries.len() as int) is None,
            },
    {
        cache.retain_fresh(now);
        match cache.find_exact(prompt) {
            Some(at) => Some(clean_command_output(cache.entries[at].response.as_str())),
            None => None,
        }
    }

    /// Adds a command, cleaned of code fences, to the cache at the time `now`.
    pub fn save_cached(&self, cache: &mut CacheFile, prompt: &str, command: &str, now: u64)
        ensures
            final(cache).entries@.len() == old(cache).entries@.len() + 1,
            final(cache).entries@.drop_last() == old(cache).entries@,
            final(cache).entries@.last().prompt@ == prompt@,
            final(cache).entries@.last().response@ == cleaned_command(command@),
            final(cache).entries@.last().timestamp == now,
    {
        let cleaned = clean_command_output(command);
        cache.remember(prompt, cleaned.as_str(), now);
    }
}

} // verus!
