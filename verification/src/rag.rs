use vstd::prelude::*;
use vstd::slice::slice_subrange;
use vstd::string::StringSliceAdditionalSpecFns;
use vstd::utf8::*;
use crate::byte_search::{
    contains_exec, contains_sub, ends_with, ends_with_exec, starts_with, starts_with_exec,
    strip_suffix_all, strip_suffix_all_exec,
};
use crate::chars::{lowercase, to_lowercase};
use crate::config::Config;
use crate::keywords::is_relevant_keyword;
use crate::scanner::{
    DirNode, files_under, FileScanner, ignored_dir_names, MAX_FILE_BYTES, ScanError,
};
use crate::search::{SearchEngine, top_k};
use crate::text::texts;

verus! {

broadcast use vstd::utf8::encode_utf8_valid_utf8;

/// Coordinates indexing and retrieval over one source tree.
pub struct RagService {
    pub scanner: FileScanner,
    pub config: Config,
}

/// What a subtree pattern is left with once its trailing `/**` and `**` are removed.
pub open spec fn subtree_prefix(pattern: Seq<u8>) -> Seq<u8> {
    strip_suffix_all(strip_suffix_all(pattern, "/**".spec_bytes()), "**".spec_bytes())
}

/// Whether a path matches a glob-like pattern:
/// - a pattern that holds `**` names a subtree: with `/**` and `**` removed
///   from its end, it must begin the path or follow a `/` in it (and matches
///   every path if nothing is left of it);
/// - a pattern that begins with `*.` names an extension: the path must end
///   with the pattern's text after the `*`;
/// - any other pattern must occur in the path.
pub open spec fn pattern_matches(path: Seq<u8>, pattern: Seq<u8>) -> bool {
    if contains_sub(pattern, "**".spec_bytes()) {
        let prefix = subtree_prefix(pattern);
        prefix.len() == 0 || contains_sub(path, "/".spec_bytes() + prefix) || starts_with(path, prefix)
    } else if starts_with(pattern, "*.".spec_bytes()) {
        ends_with(path, pattern.subrange(1, pattern.len() as int))
    } else {
        contains_sub(path, pattern)
    }
}

/// Whether a path matches one of the patterns.
pub open spec fn matches_any(path: Seq<char>, patterns: Seq<String>) -> bool {
    exists|i: int|
        0 <= i < patterns.len() && pattern_matches(encode_utf8(path), encode_utf8(#[trigger] patterns[i]@))
}

/// Whether the include and exclude patterns let a path through: no exclude
/// pattern matches it, and an include pattern does unless there is none.
pub open spec fn passes_patterns(path: Seq<char>, includes: Seq<String>, excludes: Seq<String>) -> bool {
    !matches_any(path, excludes) && (includes.len() == 0 || matches_any(path, includes))
}

proof fn lemma_two_ascii(s: &str)
    requires
        s@.len() == 2,
        is_ascii_chars(s@),
    ensures
        s.spec_bytes().len() == 2,
{
    vstd::string::is_ascii_spec_bytes(s);
}

impl RagService {
    /// Whether `path` matches the glob-like `pattern`.
    pub fn matches_pattern(&self, path: &str, pattern: &str) -> (matched: bool)
        ensures
            matched == pattern_matches(path.spec_bytes(), pattern.spec_bytes()),
    {
        let path_bytes = path.as_bytes();
        let pat = pattern.as_bytes();
        if contains_exec(pat, "**".as_bytes()) {
            assert(pat@.subrange(0, pat@.len() as int) =~= pat@);
            let without_slash = strip_suffix_all_exec(pat, pat.len(), "/**".as_bytes());
            let kept = strip_suffix_all_exec(pat, without_slash, "**".as_bytes());
            if kept == 0 {
                return true;
            }
            let prefix = slice_subrange(pat, 0, kept);
            let mut needle: Vec<u8> = Vec::new();
            needle.extend_from_slice("/".as_bytes());
            needle.extend_from_slice(prefix);
            assert(needle@ =~= "/".spec_bytes() + prefix@);
            contains_exec(path_bytes, needle.as_slice()) || starts_with_exec(path_bytes, prefix)
        } else if starts_with_exec(pat, "*.".as_bytes()) {
            proof {
                reveal_strlit("*.");
                lemma_two_ascii("*.");
            }
            ends_with_exec(path_bytes, slice_subrange(pat, 1, pat.len()))
        } else {
            contains_exec(path_bytes, pat)
        }
    }

    /// Whether one of `patterns` matches `path`.
    fn matches_any_pattern(&self, path: &str, patterns: &Vec<String>) -> (matched: bool)
        ensures
            matched == matches_any(path@, patterns@),
    {
        let mut i: usize = 0;
        while i < patterns.len()
            invariant
                i <= patterns.len(),
                forall|j: int|
                    0 <= j < i ==> !pattern_matches(encode_utf8(path@), encode_utf8(#[trigger] patterns[j]@)),
            decreases patterns.len() - i,
        {
            if self.matches_pattern(path, patterns[i].as_str()) {
                return true;
            }
            i += 1;
        }
        false
    }

    /// The files that the configured patterns let through, in their order.
    /// Exclude patterns take precedence over include patterns.
    pub fn filter_files_by_patterns(&self, files: &Vec<String>) -> (kept: Vec<String>)
        ensures
            kept@ == files@.filter(
                |p: String|
                    passes_patterns(p@, self.config.rag_include_patterns@, self.config.rag_exclude_patterns@),
            ),
    {
        let ghost keep = |p: String|
            passes_patterns(p@, self.config.rag_include_patterns@, self.config.rag_exclude_patterns@);
        let mut kept: Vec<String> = Vec::new();
        let mut i: usize = 0;
        proof {
            reveal(Seq::filter);
            assert(files@.take(0) =~= Seq::<String>::empty());
        }
        while i < files.len()
            invariant
                i <= files.len(),
                keep == |p: String|
                    passes_patterns(p@, self.config.rag_include_patterns@, self.config.rag_exclude_patterns@),
                kept@ == files@.take(i as int).filter(keep),
            decreases files.len() - i,
        {
            let path = files[i].as_str();
            let excluded = self.matches_any_pattern(path, &self.config.rag_exclude_patterns);
            let included = self.config.rag_include_patterns.len() == 0 || self.matches_any_pattern(
                path,
                &self.config.rag_include_patterns,
            );
            proof {
                assert(files@.take(i + 1) =~= files@.take(i as int).push(files[i as int]));
                files@.take(i as int).lemma_filter_push(files[i as int], keep);
            }
            if !excluded && included {
                kept.push(files[i].clone());
            }
            i += 1;
        }
        proof {
            assert(files@.take(files.len() as int) =~= files@);
        }
        kept
    }
}

/// No more than this many files are indexed for one question.
pub const MAX_FILES: usize = 200;

/// Whether a path, taken in lowercase, holds the given text.
pub open spec fn mentions(path: Seq<char>, needle: Seq<char>) -> bool {
    contains_sub(encode_utf8(lowercase(path)), encode_utf8(needle))
}

/// Whether a path, taken in lowercase, holds one of the given texts.
pub open spec fn mentions_any(path: Seq<char>, needles: Seq<Seq<char>>) -> bool {
    exists|i: int| 0 <= i < needles.len() && mentions(path, #[trigger] needles[i])
}

/// The texts that are looked for in paths: the relevant keywords, in lowercase.
pub open spec fn needles_of(keywords: Seq<String>) -> Seq<Seq<char>> {
    keywords.filter(|k: String| is_relevant_keyword(k@)).map_values(|k: String| lowercase(k@))
}

/// The files whose path mentions a relevant keyword; all files if there is
/// no such file.
pub open spec fn narrowed(files: Seq<String>, keywords: Seq<String>) -> Seq<String> {
    let hits = files.filter(|p: String| mentions_any(p@, needles_of(keywords)));
    if hits.len() > 0 {
        hits
    } else {
        files
    }
}

/// How many of the keywords a path mentions, each keyword taken in lowercase.
pub open spec fn count_mentioned(path: Seq<char>, keywords: Seq<String>) -> nat
    decreases keywords.len(),
{
    if keywords.len() == 0 {
        0
    } else {
        count_mentioned(path, keywords.drop_last()) + if mentions(path, lowercase(keywords.last()@)) {
            1nat
        } else {
            0nat
        }
    }
}

/// By what a path is preferred when files are trimmed: the number of keywords
/// that it mentions, and the same for every path where there are no keywords.
pub open spec fn relevance(path: Seq<char>, keywords: Seq<String>) -> nat {
    if keywords.len() == 0 {
        1
    } else {
        count_mentioned(path, keywords)
    }
}

pub open spec fn relevance_scores(files: Seq<String>, keywords: Seq<String>) -> Seq<u64> {
    Seq::new(files.len(), |i: int| relevance(files[i]@, keywords) as u64)
}

/// At most `MAX_FILES` of the files: those that mention the most keywords,
/// those first, and of two that mention as many the one that came first.
pub open spec fn capped(files: Seq<String>, keywords: Seq<String>) -> Seq<String> {
    if files.len() <= MAX_FILES {
        files
    } else {
        top_k(relevance_scores(files, keywords), MAX_FILES as int).map_values(|i: int| files[i])
    }
}

/// The files that are indexed for a question with the given keywords.
pub open spec fn selected(
    files: Seq<String>,
    keywords: Seq<String>,
    includes: Seq<String>,
    excludes: Seq<String>,
) -> Seq<String> {
    capped(
        narrowed(files, keywords).filter(|p: String| passes_patterns(p@, includes, excludes)),
        keywords,
    )
}

fn clone_all(items: &Vec<String>) -> (copies: Vec<String>)
    ensures
        copies@ == items@,
{
    let mut copies: Vec<String> = Vec::new();
    let mut i: usize = 0;
    while i < items.len()
        invariant
            i <= items.len(),
            copies@ == items@.take(i as int),
        decreases items.len() - i,
    {
        copies.push(items[i].clone());
        assert(copies@ =~= items@.take(i + 1));
        i += 1;
    }
    assert(items@.take(items.len() as int) =~= items@);
    copies
}

impl RagService {
    /// The relevant keywords in lowercase.
    fn needles(&self, keywords: &Vec<String>) -> (needles: Vec<String>)
        ensures
            needles@.map_values(|n: String| n@) == needles_of(keywords@),
    {
        let relevant = self.filter_relevant_keywords(keywords);
        let mut needles: Vec<String> = Vec::new();
        let mut i: usize = 0;
        while i < relevant.len()
            invariant
                i <= relevant.len(),
                needles.len() == i,
                forall|j: int| 0 <= j < i ==> (#[trigger] needles[j])@ == lowercase(relevant[j]@),
            decreases relevant.len() - i,
        {
            needles.push(to_lowercase(relevant[i].as_str()));
            i += 1;
        }
        assert(needles@.map_values(|n: String| n@) =~= relevant@.map_values(|k: String| lowercase(k@)));
        needles
    }

    /// Whether a path mentions one of the needles.
    fn mentions_any_needle(path: &str, needles: &Vec<String>) -> (found: bool)
        ensures
            found == mentions_any(path@, needles@.map_values(|n: String| n@)),
    {
        let ghost texts = needles@.map_values(|n: String| n@);
        let lower = to_lowercase(path);
        let mut i: usize = 0;
        while i < needles.len()
            invariant
                i <= needles.len(),
                lower@ == lowercase(path@),
                texts == needles@.map_values(|n: String| n@),
                forall|j: int| 0 <= j < i ==> !mentions(path@, #[trigger] texts[j]),
            decreases needles.len() - i,
        {
            assert(texts[i as int] == needles[i as int]@);
            if contains_exec(lower.as_str().as_bytes(), needles[i].as_str().as_bytes()) {
                return true;
            }
            i += 1;
        }
        false
    }

    /// Narrows the files to those whose path mentions a relevant keyword,
    /// without regard to case. Where no file is left, all files are kept.
    pub fn narrow_by_keywords(&self, files: &Vec<String>, keywords: &Vec<String>) -> (kept: Vec<String>)
        ensures
            kept@ == narrowed(files@, keywords@),
    {
        let needles = self.needles(keywords);
        let ghost keep = |p: String| mentions_any(p@, needles_of(keywords@));
        let mut hits: Vec<String> = Vec::new();
        let mut i: usize = 0;
        proof {
            reveal(Seq::filter);
            assert(files@.take(0) =~= Seq::<String>::empty());
        }
        while i < files.len()
            invariant
                i <= files.len(),
                needles@.map_values(|n: String| n@) == needles_of(keywords@),
                keep == |p: String| mentions_any(p@, needles_of(keywords@)),
                hits@ == files@.take(i as int).filter(keep),
            decreases files.len() - i,
        {
            let hit = Self::mentions_any_needle(files[i].as_str(), &needles);
            proof {
                assert(files@.take(i + 1) =~= files@.take(i as int).push(files[i as int]));
                files@.take(i as int).lemma_filter_push(files[i as int], keep);
            }
            if hit {
                hits.push(files[i].clone());
            }
            i += 1;
        }
        proof {
            assert(files@.take(files.len() as int) =~= files@);
        }
        if hits.len() > 0 {
            hits
        } else {
            clone_all(files)
        }
    }

    /// How strongly a path is preferred when files are trimmed.
    fn relevance_of(path: &str, keywords: &Vec<String>) -> (score: u64)
        ensures
            score == relevance(path@, keywords@),
    {
        if keywords.len() == 0 {
            return 1;
        }
        let lower = to_lowercase(path);
        let mut count: usize = 0;
        let mut i: usize = 0;
        assert(keywords@.take(0) =~= Seq::<String>::empty());
        while i < keywords.len()
            invariant
                i <= keywords.len(),
                lower@ == lowercase(path@),
                count == count_mentioned(path@, keywords@.take(i as int)),
                count <= i,
            decreases keywords.len() - i,
        {
            let needle = to_lowercase(keywords[i].as_str());
            proof {
                let longer = keywords@.take(i + 1);
                assert(longer.drop_last() =~= keywords@.take(i as int));
                assert(longer.last() == keywords[i as int]);
            }
            if contains_exec(lower.as_str().as_bytes(), needle.as_str().as_bytes()) {
                count += 1;
            }
            i += 1;
        }
        assert(keywords@.take(keywords.len() as int) =~= keywords@);
        count as u64
    }

    /// Trims the files to `MAX_FILES`, preferring those whose path mentions
    /// more of the keywords.
    pub fn cap_files(&self, files: &Vec<String>, keywords: &Vec<String>) -> (kept: Vec<String>)
        ensures
            kept@ == capped(files@, keywords@),
    {
        if files.len() <= MAX_FILES {
            return clone_all(files);
        }
        let mut scores: Vec<u64> = Vec::new();
        let mut i: usize = 0;
        while i < files.len()
            invariant
                i <= files.len(),
                scores.len() == i,
                forall|j: int| 0 <= j < i ==> #[trigger] scores[j] == relevance(files[j]@, keywords@) as u64,
            decreases files.len() - i,
        {
            scores.push(Self::relevance_of(files[i].as_str(), keywords));
            i += 1;
        }
        assert(scores@ =~= relevance_scores(files@, keywords@));
        let best = SearchEngine::rank(&scores, MAX_FILES);
        let ghost picks = top_k(scores@, MAX_FILES as int);
        let mut kept: Vec<String> = Vec::new();
        let mut j: usize = 0;
        while j < best.len()
            invariant
                j <= best.len(),
                scores.len() == files.len(),
                picks.len() == best.len(),
                forall|p: int| 0 <= p < best.len() ==> #[trigger] best[p] as int == picks[p],
                forall|p: int| 0 <= p < best.len() ==> #[trigger] best[p] < scores.len(),
                kept.len() == j,
                forall|p: int| 0 <= p < j ==> #[trigger] kept[p] == files[picks[p]],
            decreases best.len() - j,
        {
            kept.push(files[best[j]].clone());
            j += 1;
        }
        assert(kept@ =~= picks.map_values(|i: int| files@[i]));
        kept
    }

    /// The files to index for a question with the given keywords, out of all
    /// eligible files: narrowed to those that mention a keyword, passed through
    /// the configured patterns, and trimmed to `MAX_FILES`.
    pub fn select_files(&self, files: &Vec<String>, keywords: &Vec<String>) -> (chosen: Vec<String>)
        ensures
            chosen@ == selected(
                files@,
                keywords@,
                self.config.rag_include_patterns@,
                self.config.rag_exclude_patterns@,
            ),
    {
        let narrowed = self.narrow_by_keywords(files, keywords);
        let passed = self.filter_files_by_patterns(&narrowed);
        self.cap_files(&passed, keywords)
    }

    /// A service for the tree at `root_path`.
    pub fn new(root_path: &str, config: Config) -> (service: Self)
        ensures
            service.config == config,
            service.scanner.root_path@ == root_path@,
            service.scanner.ignored_dirs@ == ignored_dir_names(),
            service.scanner.max_file_bytes == MAX_FILE_BYTES,
    {
        RagService { scanner: FileScanner::new(root_path), config }
    }

    /// The files that a full index of the tree below `root` covers: every
    /// eligible file.
    pub fn build_index(&self, root: &DirNode) -> (result: Result<Vec<String>, ScanError>)
        ensures
            match result {
                Ok(files) => root.is_dir && root.readable && texts(files@) == files_under(
                    self.scanner.ignored_dirs@,
                    root.children@,
                    self.scanner.root_path@,
                ),
                Err(error) => !(root.is_dir && root.readable) && error == ScanError::UnreadableRoot,
            },
    {
        self.scanner.collect_files(root)
    }

    /// The files that an index of the tree below `root` covers that is built
    /// for a question with the given keywords: the eligible files, narrowed,
    /// filtered and trimmed as `select_files` does.
    pub fn build_index_for_keywords(&self, root: &DirNode, keywords: &Vec<String>) -> (result: Result<
        Vec<String>,
        ScanError,
    >)
        ensures
            match result {
                Ok(chosen) => root.is_dir && root.readable && exists|files: Seq<String>|
                    {
                        &&& texts(files) == files_under(
                            self.scanner.ignored_dirs@,
                            root.children@,
                            self.scanner.root_path@,
                        )
                        &&& chosen@ == selected(
                            files,
                            keywords@,
                            self.config.rag_include_patterns@,
                            self.config.rag_exclude_patterns@,
                        )
                    },
                Err(error) => !(root.is_dir && root.readable) && error == ScanError::UnreadableRoot,
            },
    {
        match self.scanner.collect_files(root) {
            Ok(files) => Ok(self.select_files(&files, keywords)),
            Err(error) => Err(error),
        }
    }
}

} // verus!
