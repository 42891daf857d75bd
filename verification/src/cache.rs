use vstd::prelude::*;
use vstd::string::StringExecFns;
use crate::text::str_eq;

verus! {

/// An entry of the cache is dropped once it is this many seconds old.
pub const CACHE_TTL_SECONDS: u64 = 604800;

/// An answer that was given before, with the question and the time.
#[derive(Debug, Clone)]
pub struct CacheEntry {
    pub prompt: String,
    pub response: String,
    pub timestamp: u64,
}

/// The answers that were given before, oldest first.
#[derive(Debug, Clone)]
pub struct CacheFile {
    pub entries: Vec<CacheEntry>,
}

/// Whether an entry of the given time is still good at the time `now`. An
/// entry from a time after `now` is not.
pub open spec fn is_fresh(now: u64, timestamp: u64) -> bool {
    timestamp <= now && now - timestamp < CACHE_TTL_SECONDS
}

/// The position of the first of the first `n` entries for the prompt.
pub open spec fn first_for(entries: Seq<CacheEntry>, prompt: Seq<char>, n: int) -> Option<int>
    decreases n,
{
    if n <= 0 {
        None
    } else {
        match first_for(entries, prompt, n - 1) {
            Some(at) => Some(at),
            None => if entries[n - 1].prompt@ == prompt {
                Some(n - 1)
            } else {
                None
            },
        }
    }
}

impl CacheFile {
    /// A cache without entries.
    pub fn new() -> (cache: Self)
        ensures
            cache.entries@ == Seq::<CacheEntry>::empty(),
    {
        CacheFile { entries: Vec::new() }
    }

    /// Drops the entries that are too old.
    pub fn retain_fresh(&mut self, now: u64)
        ensures
            final(self).entries@ == old(self).entries@.filter(|e: CacheEntry| is_fresh(now, e.timestamp)),
    {
        let ghost fresh = |e: CacheEntry| is_fresh(now, e.timestamp);
        let ghost all = self.entries@;
        let mut kept: Vec<CacheEntry> = Vec::new();
        let mut i: usize = 0;
        proof {
            reveal(Seq::filter);
            assert(all.take(0) =~= Seq::<CacheEntry>::empty());
        }
        while i < self.entries.len()
            invariant
                i <= self.entries.len(),
                self.entries@ == all,
                fresh == |e: CacheEntry| is_fresh(now, e.timestamp),
                kept@ == all.take(i as int).filter(fresh),
            decreases self.entries.len() - i,
        {
            let entry = &self.entries[i];
            proof {
                assert(all.take(i + 1) =~= all.take(i as int).push(all[i as int]));
                all.take(i as int).lemma_filter_push(all[i as int], fresh);
            }
            if entry.timestamp <= now && now - entry.timestamp < CACHE_TTL_SECONDS {
                kept.push(
                    CacheEntry {
                        prompt: entry.prompt.clone(),
                        response: entry.response.clone(),
                        timestamp: entry.timestamp,
                    },
                );
            }
            i += 1;
        }
        assert(all.take(all.len() as int) =~= all);
        self.entries = kept;
    }

    /// The first entry for exactly this prompt, if there is one.
    pub fn find_exact(&self, prompt: &str) -> (found: Option<usize>)
        ensures
            match found {
                Some(at) => first_for(self.entries@, prompt@, self.entries.len() as int) == Some(at as int) && at
                    < self.entries.len(),
                None => first_for(self.entries@, prompt@, self.entries.len() as int) is None,
            },
    {
        let mut i: usize = 0;
        while i < self.entries.len()
            invariant
                i <= self.entries.len(),
                first_for(self.entries@, prompt@, i as int) is None,
            decreases self.entries.len() - i,
        {
            if str_eq(self.entries[i].prompt.as_str(), prompt) {
                proof {
                    lemma_first_stays(self.entries@, prompt@, i + 1, self.entries.len() as int);
                }
                return Some(i);
            }
            i += 1;
        }
        None
    }

    /// The answer that was given to exactly this prompt, if one is cached.
    pub fn lookup(&self, prompt: &str) -> (response: Option<String>)
        ensures
            match response {
                Some(text) => {
                    &&& first_for(self.entries@, prompt@, self.entries.len() as int) is Some
                    &&& text@ == self.entries[first_for(
                        self.entries@,
                        prompt@,
                        self.entries.len() as int,
                    )->0].response@
                },
                None => first_for(self.entries@, prompt@, self.entries.len() as int) is None,
            },
    {
        match self.find_exact(prompt) {
            Some(at) => Some(self.entries[at].response.clone()),
            None => None,
        }
    }

    /// Adds an answer that was given at the time `now`.
    pub fn remember(&mut self, prompt: &str, response: &str, now: u64)
        ensures
            final(self).entries@.len() == old(self).entries@.len() + 1,
            final(self).entries@.drop_last() == old(self).entries@,
            final(self).entries@.last().prompt@ == prompt@,
            final(self).entries@.last().response@ == response@,
            final(self).entries@.last().timestamp == now,
    {
        self.entries.push(
            CacheEntry { prompt: String::from_str(prompt), response: String::from_str(response), timestamp: now },
        );
        assert(self.entries@.drop_last() =~= old(self).entries@);
    }
}

/// The first entry for a prompt stays the first when entries are added.
proof fn lemma_first_stays(entries: Seq<CacheEntry>, prompt: Seq<char>, n: int, m: int)
    requires
        0 <= n <= m,
        first_for(entries, prompt, n) is Some,
    ensures
        first_for(entries, prompt, m) == first_for(entries, prompt, n),
    decreases m - n,
{
    if n < m {
        lemma_first_stays(entries, prompt, n, m - 1);
    }
}

} // verus!
