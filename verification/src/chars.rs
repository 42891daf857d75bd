use vstd::prelude::*;
use vstd::string::StringSliceAdditionalSpecFns;
use vstd::utf8::*;
use crate::boundaries::{
    lemma_boundary_between, lemma_encode_concat, lemma_encode_one, lemma_same_bytes_same_text, substr,
};

verus! {

/// Whether a character is white space, as Unicode defines it.
pub open spec fn is_whitespace(c: char) -> bool {
    let u = c as u32;
    (0x09 <= u <= 0x0D) || u == 0x20 || u == 0x85 || u == 0xA0 || u == 0x1680 || (0x2000 <= u <= 0x200A)
        || u == 0x2028 || u == 0x2029 || u == 0x202F || u == 0x205F || u == 0x3000
}

/// Whether a character is white space.
pub fn is_whitespace_exec(c: char) -> (white: bool)
    ensures
        white == is_whitespace(c),
{
    let u = c as u32;
    (0x09 <= u && u <= 0x0D) || u == 0x20 || u == 0x85 || u == 0xA0 || u == 0x1680 || (0x2000 <= u && u
        <= 0x200A) || u == 0x2028 || u == 0x2029 || u == 0x202F || u == 0x205F || u == 0x3000
}

/// Whether a character is a letter or a digit, as Unicode defines them.
pub uninterp spec fn is_alphanumeric(c: char) -> bool;

/// Calls `char::is_alphanumeric`, whose result depends on the character alone.
#[verifier::external_body]
pub(crate) fn is_alphanumeric_exec(c: char) -> (alphanumeric: bool)
    ensures
        alphanumeric == is_alphanumeric(c),
{
    c.is_alphanumeric()
}

/// The lowercase form of a string, as Unicode defines it.
pub uninterp spec fn lowercase(s: Seq<char>) -> Seq<char>;

/// Calls `str::to_lowercase`, whose result depends on the characters alone.
#[verifier::external_body]
pub(crate) fn to_lowercase(s: &str) -> (lower: String)
    ensures
        lower@ == lowercase(s@),
{
    s.to_lowercase()
}

/// A text without the characters at its start that are to be dropped.
pub open spec fn strip_start(s: Seq<char>, dropped: spec_fn(char) -> bool) -> Seq<char>
    decreases s.len(),
{
    if s.len() > 0 && dropped(s[0]) {
        strip_start(s.drop_first(), dropped)
    } else {
        s
    }
}

/// A text without the characters at its end that are to be dropped.
pub open spec fn strip_end(s: Seq<char>, dropped: spec_fn(char) -> bool) -> Seq<char>
    decreases s.len(),
{
    if s.len() > 0 && dropped(s.last()) {
        strip_end(s.drop_last(), dropped)
    } else {
        s
    }
}

/// A text without the white space at its start and at its end.
pub open spec fn trimmed(s: Seq<char>) -> Seq<char> {
    strip_end(strip_start(s, is_space()), is_space())
}

/// How many bytes the encoding of a character takes.
fn encoded_len(c: char) -> (len: usize)
    ensures
        len == encode_scalar(c as u32).len(),
        1 <= len <= 4,
{
    let u = c as u32;
    if u <= 0x7F {
        1
    } else if u <= 0x7FF {
        2
    } else if u <= 0xFFFF {
        proof {
            char_is_scalar(c);
        }
        3
    } else {
        4
    }
}

/// The test for being white space.
pub open spec fn is_space() -> spec_fn(char) -> bool {
    |c: char| is_whitespace(c)
}

/// A text without the white space at its start and at its end.
pub fn trim<'a>(s: &'a str) -> (t: &'a str)
    ensures
        t@ == trimmed(s@),
{
    let chars = chars_of(s);
    let ghost all = chars@;
    let ghost bytes = s.spec_bytes();
    let n = chars.len();
    let total = s.as_bytes().len();
    let mut lo: usize = 0;
    let mut start: usize = 0;
    proof {
        assert(all.take(0) =~= Seq::<char>::empty());
        assert(all.subrange(0, n as int) =~= all);
    }
    while lo < n && is_whitespace_exec(chars[lo])
        invariant
            chars@ == all,
            all == s@,
            bytes == encode_utf8(all),
            n == all.len(),
            total == bytes.len(),
            lo <= n,
            start == encode_utf8(all.take(lo as int)).len(),
            start <= total,
            strip_start(all.subrange(lo as int, n as int), is_space()) == strip_start(all, is_space()),
        decreases n - lo,
    {
        let width = encoded_len(chars[lo]);
        proof {
            let rest = all.subrange(lo as int, n as int);
            assert(rest.drop_first() =~= all.subrange(lo + 1, n as int));
            let longer = all.take(lo + 1);
            assert(longer =~= all.take(lo as int) + seq![all[lo as int]]);
            lemma_encode_concat(all.take(lo as int), seq![all[lo as int]]);
            lemma_encode_one(all[lo as int]);
            assert(all =~= longer + all.subrange(lo + 1, n as int));
            lemma_encode_concat(longer, all.subrange(lo + 1, n as int));
        }
        start += width;
        lo += 1;
    }
    let mut hi: usize = n;
    let mut end: usize = total;
    proof {
        assert(all.take(n as int) =~= all);
        assert(all =~= all.take(lo as int) + all.subrange(lo as int, n as int));
        lemma_encode_concat(all.take(lo as int), all.subrange(lo as int, n as int));
    }
    while hi > lo && is_whitespace_exec(chars[hi - 1])
        invariant
            chars@ == all,
            all == s@,
            bytes == encode_utf8(all),
            n == all.len(),
            total == bytes.len(),
            lo <= hi <= n,
            start == encode_utf8(all.take(lo as int)).len(),
            end == encode_utf8(all.take(hi as int)).len(),
            start <= end <= total,
            strip_end(all.subrange(lo as int, hi as int), is_space()) == strip_end(
                all.subrange(lo as int, n as int),
                is_space(),
            ),
        decreases hi,
    {
        let width = encoded_len(chars[hi - 1]);
        proof {
            let rest = all.subrange(lo as int, hi as int);
            assert(rest.drop_last() =~= all.subrange(lo as int, hi - 1));
            assert(rest.last() == all[hi - 1]);
            let shorter = all.take(hi - 1);
            assert(all.take(hi as int) =~= shorter + seq![all[hi - 1]]);
            lemma_encode_concat(shorter, seq![all[hi - 1]]);
            lemma_encode_one(all[hi - 1]);
            assert(shorter =~= all.take(lo as int) + all.subrange(lo as int, hi - 1));
            lemma_encode_concat(all.take(lo as int), all.subrange(lo as int, hi - 1));
        }
        end -= width;
        hi -= 1;
    }
    proof {
        let before = all.take(lo as int);
        let kept = all.subrange(lo as int, hi as int);
        let after = all.subrange(hi as int, n as int);
        assert(all =~= before + (kept + after));
        assert(all =~= (before + kept) + after);
        assert(all.take(hi as int) =~= before + kept);
        lemma_boundary_between(before, kept + after);
        lemma_boundary_between(before + kept, after);
        lemma_encode_concat(before, kept);
        lemma_encode_concat(before + kept, after);
        assert(bytes.subrange(start as int, end as int) =~= encode_utf8(kept));
    }
    let t = substr(s, start, end);
    proof {
        lemma_same_bytes_same_text(t@, all.subrange(lo as int, hi as int));
    }
    t
}

/// The test for being the character `c`.
pub open spec fn is_char(c: char) -> spec_fn(char) -> bool {
    |x: char| x == c
}

/// A text without a given character at its start and at its end, however
/// often it stands there.
pub open spec fn stripped_of(s: Seq<char>, c: char) -> Seq<char> {
    strip_end(strip_start(s, is_char(c)), is_char(c))
}

/// The characters of a text.
pub fn chars_of(text: &str) -> (chars: Vec<char>)
    ensures
        chars@ == text@,
{
    let mut chars: Vec<char> = Vec::new();
    for c in it: text.chars()
        invariant
            chars@ == it.history(),
            it.seq() == text@,
    {
        chars.push(c);
    }
    chars
}

/// Calls `String::push`, which appends one character.
#[verifier::external_body]
pub(crate) fn push_char(text: &mut String, c: char)
    ensures
        final(text)@ == old(text)@.push(c),
{
    text.push(c)
}

/// The text that the characters make.
pub fn string_of(chars: &[char]) -> (text: String)
    ensures
        text@ == chars@,
{
    let mut text = String::new();
    let mut i: usize = 0;
    while i < chars.len()
        invariant
            i <= chars.len(),
            text@ == chars@.take(i as int),
        decreases chars.len() - i,
    {
        push_char(&mut text, chars[i]);
        assert(text@ =~= chars@.take(i + 1));
        i += 1;
    }
    assert(chars@.take(chars.len() as int) =~= chars@);
    text
}

/// A text without a given character at its start and at its end.
pub fn strip_char(text: &str, c: char) -> (stripped: String)
    ensures
        stripped@ == stripped_of(text@, c),
{
    let chars = chars_of(text);
    let ghost dropped = is_char(c);
    let mut lo: usize = 0;
    assert(chars@.subrange(0, chars@.len() as int) =~= chars@);
    while lo < chars.len() && chars[lo] == c
        invariant
            lo <= chars.len(),
            dropped == is_char(c),
            strip_start(chars@.subrange(lo as int, chars@.len() as int), dropped) == strip_start(chars@, dropped),
        decreases chars.len() - lo,
    {
        proof {
            let rest = chars@.subrange(lo as int, chars@.len() as int);
            assert(rest.drop_first() =~= chars@.subrange(lo + 1, chars@.len() as int));
        }
        lo += 1;
    }
    let mut hi: usize = chars.len();
    while hi > lo && chars[hi - 1] == c
        invariant
            lo <= hi <= chars.len(),
            dropped == is_char(c),
            strip_end(chars@.subrange(lo as int, hi as int), dropped) == strip_end(
                chars@.subrange(lo as int, chars@.len() as int),
                dropped,
            ),
        decreases hi,
    {
        proof {
            let rest = chars@.subrange(lo as int, hi as int);
            assert(rest.drop_last() =~= chars@.subrange(lo as int, hi - 1));
        }
        hi -= 1;
    }
    string_of(vstd::slice::slice_subrange(chars.as_slice(), lo, hi))
}

/// The words of `s[i..]`, where `current` holds the characters of the word
/// that is being read: the runs of characters between white space.
pub open spec fn words_from(s: Seq<char>, i: int, current: Seq<char>) -> Seq<Seq<char>>
    decreases s.len() - i,
{
    if i >= s.len() {
        if current.len() > 0 {
            seq![current]
        } else {
            seq![]
        }
    } else if is_whitespace(s[i]) {
        (if current.len() > 0 {
            seq![current]
        } else {
            seq![]
        }) + words_from(s, i + 1, seq![])
    } else {
        words_from(s, i + 1, current.push(s[i]))
    }
}

/// The words of a text: the runs of characters between white space.
pub open spec fn words(s: Seq<char>) -> Seq<Seq<char>> {
    words_from(s, 0, seq![])
}

/// The sequences of characters as they are held in vectors.
pub open spec fn char_seqs(items: Seq<Vec<char>>) -> Seq<Seq<char>> {
    Seq::new(items.len(), |i: int| items[i]@)
}

/// The words of a text: the runs of characters between white space.
pub fn words_exec(chars: &[char]) -> (found: Vec<Vec<char>>)
    ensures
        char_seqs(found@) == words(chars@),
{
    let mut found: Vec<Vec<char>> = Vec::new();
    let mut current: Vec<char> = Vec::new();
    let mut i: usize = 0;
    assert(char_seqs(found@) + words_from(chars@, 0, current@) =~= words(chars@));
    while i < chars.len()
        invariant
            i <= chars.len(),
            char_seqs(found@) + words_from(chars@, i as int, current@) == words(chars@),
        decreases chars.len() - i,
    {
        let c = chars[i];
        let ghost before = char_seqs(found@);
        if is_whitespace_exec(c) {
            if current.len() > 0 {
                let ghost word = current@;
                found.push(current);
                current = Vec::new();
                assert(char_seqs(found@) =~= before + seq![word]);
                assert(char_seqs(found@) + words_from(chars@, i + 1, current@) =~= before + words_from(
                    chars@,
                    i as int,
                    word,
                ));
            } else {
                assert(current@ =~= Seq::<char>::empty());
                assert(Seq::<Seq<char>>::empty() + words_from(chars@, i + 1, seq![]) =~= words_from(
                    chars@,
                    i + 1,
                    seq![],
                ));
            }
        } else {
            current.push(c);
        }
        i += 1;
    }
    if current.len() > 0 {
        let ghost before = char_seqs(found@);
        let ghost word = current@;
        found.push(current);
        assert(char_seqs(found@) =~= before + seq![word]);
    } else {
        assert(char_seqs(found@) + Seq::<Seq<char>>::empty() =~= char_seqs(found@));
    }
    found
}

/// A word without what is neither letter nor digit at its start and its end.
pub open spec fn bare_word(word: Seq<char>) -> Seq<char> {
    strip_end(strip_start(word, |c: char| !is_alphanumeric(c)), |c: char| !is_alphanumeric(c))
}

/// A word without what is neither letter nor digit at its start and its end.
pub fn bare_word_exec(word: &[char]) -> (bare: String)
    ensures
        bare@ == bare_word(word@),
{
    let ghost dropped = |c: char| !is_alphanumeric(c);
    let mut lo: usize = 0;
    assert(word@.subrange(0, word@.len() as int) =~= word@);
    while lo < word.len() && !is_alphanumeric_exec(word[lo])
        invariant
            lo <= word.len(),
            dropped == |c: char| !is_alphanumeric(c),
            strip_start(word@.subrange(lo as int, word@.len() as int), dropped) == strip_start(word@, dropped),
        decreases word.len() - lo,
    {
        proof {
            let rest = word@.subrange(lo as int, word@.len() as int);
            assert(rest.drop_first() =~= word@.subrange(lo + 1, word@.len() as int));
        }
        lo += 1;
    }
    let mut hi: usize = word.len();
    while hi > lo && !is_alphanumeric_exec(word[hi - 1])
        invariant
            lo <= hi <= word.len(),
            dropped == |c: char| !is_alphanumeric(c),
            strip_end(word@.subrange(lo as int, hi as int), dropped) == strip_end(
                word@.subrange(lo as int, word@.len() as int),
                dropped,
            ),
        decreases hi,
    {
        proof {
            let rest = word@.subrange(lo as int, hi as int);
            assert(rest.drop_last() =~= word@.subrange(lo as int, hi - 1));
        }
        hi -= 1;
    }
    string_of(vstd::slice::slice_subrange(word, lo, hi))
}

} // verus!
