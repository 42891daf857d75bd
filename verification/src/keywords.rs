use vstd::prelude::*;
use vstd::utf8::*;
use crate::chars::{
    bare_word, bare_word_exec, char_seqs, chars_of, is_alphanumeric, is_alphanumeric_exec,
    is_whitespace, is_whitespace_exec, lowercase, string_of, to_lowercase, words, words_exec,
};
use crate::rag::RagService;
use crate::text::{join, join_exec, str_eq, texts};

verus! {

/// A keyword has at least this many bytes.
pub const MIN_KEYWORD_BYTES: usize = 3;

/// Words too common to tell one file from another.
pub open spec fn stop_words() -> Seq<&'static str> {
    seq![
        "the", "a", "an", "and", "or", "but", "in", "on", "at", "to", "for", "of", "with",
        "by", "is", "are", "was", "were", "be", "been", "being", "have", "has", "had", "do",
        "does", "did", "will", "would", "could", "should", "may", "might", "must", "can",
        "shall", "this", "that", "these", "those", "i", "you", "he", "she", "it", "we", "they",
        "me", "him", "her", "us", "them", "my", "your", "his", "its", "our", "their", "what",
        "which", "who", "when", "where", "why", "how", "all", "any", "both", "each", "few",
        "more", "most", "other", "some", "such", "no", "nor", "not", "only", "own", "same",
        "so", "than", "too", "very", "just", "now", "here", "there", "then", "once", "also",
        "explain", "available", "list", "show", "get", "find", "search", "query", "select",
    ]
}

/// Whether a lowercase word is a stop word.
pub open spec fn is_stop_word(word: Seq<char>) -> bool {
    exists|i: int| 0 <= i < stop_words().len() && (#[trigger] stop_words()[i])@ == word
}

/// Whether a word is kept as a keyword: it is long enough and, in lowercase,
/// no stop word.
pub open spec fn is_relevant_keyword(word: Seq<char>) -> bool {
    encode_utf8(word).len() >= MIN_KEYWORD_BYTES && !is_stop_word(lowercase(word))
}

fn stop_word_list() -> (words: Vec<&'static str>)
    ensures
        words@ == stop_words(),
{
    let words = vec![
        "the", "a", "an", "and", "or", "but", "in", "on", "at", "to", "for", "of", "with",
        "by", "is", "are", "was", "were", "be", "been", "being", "have", "has", "had", "do",
        "does", "did", "will", "would", "could", "should", "may", "might", "must", "can",
        "shall", "this", "that", "these", "those", "i", "you", "he", "she", "it", "we", "they",
        "me", "him", "her", "us", "them", "my", "your", "his", "its", "our", "their", "what",
        "which", "who", "when", "where", "why", "how", "all", "any", "both", "each", "few",
        "more", "most", "other", "some", "such", "no", "nor", "not", "only", "own", "same",
        "so", "than", "too", "very", "just", "now", "here", "there", "then", "once", "also",
        "explain", "available", "list", "show", "get", "find", "search", "query", "select",
    ];
    assert(words@ =~= stop_words());
    words
}

/// Whether a lowercase word is a stop word.
pub fn is_stop_word_exec(word: &str) -> (found: bool)
    ensures
        found == is_stop_word(word@),
{
    let words = stop_word_list();
    let mut i: usize = 0;
    while i < words.len()
        invariant
            words@ == stop_words(),
            i <= words.len(),
            forall|j: int| 0 <= j < i ==> (#[trigger] stop_words()[j])@ != word@,
        decreases words.len() - i,
    {
        if str_eq(words[i], word) {
            return true;
        }
        i += 1;
    }
    false
}

impl RagService {
    /// The words that are kept as keywords, in their order.
    pub fn filter_relevant_keywords(&self, keywords: &Vec<String>) -> (kept: Vec<String>)
        ensures
            kept@ == keywords@.filter(|k: String| is_relevant_keyword(k@)),
    {
        let ghost keep = |k: String| is_relevant_keyword(k@);
        let mut kept: Vec<String> = Vec::new();
        let mut i: usize = 0;
        proof {
            reveal(Seq::filter);
            assert(keywords@.take(0) =~= Seq::<String>::empty());
        }
        while i < keywords.len()
            invariant
                i <= keywords.len(),
                keep == |k: String| is_relevant_keyword(k@),
                kept@ == keywords@.take(i as int).filter(keep),
            decreases keywords.len() - i,
        {
            let word = keywords[i].as_str();
            let long_enough = word.as_bytes().len() >= MIN_KEYWORD_BYTES;
            let lower = to_lowercase(word);
            let stop = is_stop_word_exec(lower.as_str());
            proof {
                assert(keywords@.take(i + 1) =~= keywords@.take(i as int).push(keywords[i as int]));
                keywords@.take(i as int).lemma_filter_push(keywords[i as int], keep);
            }
            if long_enough && !stop {
                kept.push(keywords[i].clone());
            }
            i += 1;
        }
        proof {
            assert(keywords@.take(keywords.len() as int) =~= keywords@);
        }
        kept
    }
}

/// The keywords among the given words: each word without what is neither
/// letter nor digit at its start and end, in lowercase, unless that leaves
/// fewer than three bytes.
pub open spec fn keywords_among(words: Seq<Seq<char>>) -> Seq<Seq<char>>
    decreases words.len(),
{
    if words.len() == 0 {
        seq![]
    } else {
        let before = keywords_among(words.drop_last());
        let bare = bare_word(words.last());
        if encode_utf8(bare).len() >= MIN_KEYWORD_BYTES {
            before.push(lowercase(bare))
        } else {
            before
        }
    }
}

/// The keywords of a question: its words, cut at white space, each without
/// what is neither letter nor digit at its start and end, in lowercase,
/// those of fewer than three bytes left out.
pub open spec fn keywords_of(text: Seq<char>) -> Seq<Seq<char>> {
    keywords_among(words(text))
}

/// The keywords of a question.
pub fn keywords_from_text(text: &str) -> (keywords: Vec<String>)
    ensures
        texts(keywords@) == keywords_of(text@),
{
    let chars = chars_of(text);
    let found = words_exec(chars.as_slice());
    let mut keywords: Vec<String> = Vec::new();
    let mut i: usize = 0;
    assert(char_seqs(found@).take(0) =~= Seq::<Seq<char>>::empty());
    assert(texts(keywords@) =~= Seq::<Seq<char>>::empty());
    while i < found.len()
        invariant
            i <= found.len(),
            texts(keywords@) == keywords_among(char_seqs(found@).take(i as int)),
        decreases found.len() - i,
    {
        let bare = bare_word_exec(found[i].as_slice());
        let ghost before = texts(keywords@);
        proof {
            let longer = char_seqs(found@).take(i + 1);
            assert(longer.drop_last() =~= char_seqs(found@).take(i as int));
            assert(longer.last() == found[i as int]@);
        }
        if bare.as_str().as_bytes().len() >= MIN_KEYWORD_BYTES {
            keywords.push(to_lowercase(bare.as_str()));
            assert(texts(keywords@) =~= before.push(lowercase(bare@)));
        }
        i += 1;
    }
    assert(char_seqs(found@).take(found.len() as int) =~= char_seqs(found@));
    keywords
}

/// The letters, digits and white space of a text.
pub open spec fn plain_chars(s: Seq<char>) -> Seq<char> {
    s.filter(|c: char| is_alphanumeric(c) || is_whitespace(c))
}

/// A text made comparable: in lowercase, without what is neither letter,
/// digit nor white space, its words with one space between each two.
pub open spec fn normalized(text: Seq<char>) -> Seq<char> {
    join(words(plain_chars(lowercase(text))), " "@)
}

/// Makes a text comparable: lowercase, without punctuation, with single
/// spaces between its words.
pub fn normalize_text(text: &str) -> (normal: String)
    ensures
        normal@ == normalized(text@),
{
    let lower = to_lowercase(text);
    let chars = chars_of(lower.as_str());
    let ghost keep = |c: char| is_alphanumeric(c) || is_whitespace(c);
    let mut plain: Vec<char> = Vec::new();
    let mut i: usize = 0;
    proof {
        reveal(Seq::filter);
        assert(chars@.take(0) =~= Seq::<char>::empty());
    }
    while i < chars.len()
        invariant
            i <= chars.len(),
            keep == |c: char| is_alphanumeric(c) || is_whitespace(c),
            plain@ == chars@.take(i as int).filter(keep),
        decreases chars.len() - i,
    {
        let c = chars[i];
        proof {
            assert(chars@.take(i + 1) =~= chars@.take(i as int).push(chars[i as int]));
            chars@.take(i as int).lemma_filter_push(chars[i as int], keep);
        }
        if is_alphanumeric_exec(c) || is_whitespace_exec(c) {
            plain.push(c);
        }
        i += 1;
    }
    assert(chars@.take(chars.len() as int) =~= chars@);
    let found = words_exec(plain.as_slice());
    let mut parts: Vec<String> = Vec::new();
    let mut j: usize = 0;
    while j < found.len()
        invariant
            j <= found.len(),
            parts.len() == j,
            forall|k: int| 0 <= k < j ==> (#[trigger] parts[k])@ == found[k]@,
        decreases found.len() - j,
    {
        parts.push(string_of(found[j].as_slice()));
        j += 1;
    }
    assert(texts(parts@) =~= char_seqs(found@));
    join_exec(&parts, " ")
}

} // verus!
