use vstd::prelude::*;
use vstd::string::StringExecFns;
use vstd::string::StringSliceAdditionalSpecFns;
use vstd::utf8::*;
use crate::boundaries::{lemma_boundary_around_ascii, lemma_same_bytes_same_text, substr};
use crate::byte_search::{
    bytes_eq, CARRIAGE_RETURN, contains_exec, contains_sub, ends_with, ends_with_exec,
    lemma_split_not_empty, LINE_FEED, lines_of, split, split_from, starts_with, starts_with_exec,
    without_return,
};

verus! {

broadcast use vstd::utf8::encode_utf8_valid_utf8;

/// Whether two strings are equal.
pub fn str_eq(a: &str, b: &str) -> (same: bool)
    ensures
        same == (a@ == b@),
{
    proof {
        lemma_same_bytes_same_text(a@, b@);
    }
    bytes_eq(a.as_bytes(), b.as_bytes())
}

/// The texts of a vector of strings.
pub open spec fn texts(strings: Seq<String>) -> Seq<Seq<char>> {
    strings.map_values(|s: String| s@)
}

/// The texts of string slices.
pub open spec fn slice_bytes(pieces: Seq<&str>) -> Seq<Seq<u8>> {
    Seq::new(pieces.len(), |i: int| pieces[i].spec_bytes())
}

/// The texts of string slices.
pub open spec fn slice_texts(pieces: Seq<&str>) -> Seq<Seq<char>> {
    Seq::new(pieces.len(), |i: int| pieces[i]@)
}

/// Where byte strings are the encodings of string slices, they decode to
/// the slices' texts.
pub proof fn lemma_slices_decode(pieces: Seq<&str>, parts: Seq<Seq<u8>>)
    requires
        slice_bytes(pieces) == parts,
    ensures
        parts.len() == pieces.len(),
        forall|i: int| 0 <= i < pieces.len() ==> decode_utf8(#[trigger] parts[i]) == pieces[i]@,
{
    assert forall|i: int| 0 <= i < pieces.len() implies decode_utf8(#[trigger] parts[i]) == pieces[i]@ by {
        assert(slice_bytes(pieces)[i] == pieces[i].spec_bytes());
        encode_utf8_decode_utf8(pieces[i]@);
    }
}

/// Whether a text begins with another.
pub open spec fn text_starts_with(s: Seq<char>, prefix: Seq<char>) -> bool {
    starts_with(encode_utf8(s), encode_utf8(prefix))
}

/// Whether a text ends with another.
pub open spec fn text_ends_with(s: Seq<char>, suffix: Seq<char>) -> bool {
    ends_with(encode_utf8(s), encode_utf8(suffix))
}

/// Whether a text holds another.
pub open spec fn text_contains(s: Seq<char>, needle: Seq<char>) -> bool {
    contains_sub(encode_utf8(s), encode_utf8(needle))
}

/// Whether a text begins with another.
pub fn str_starts_with(s: &str, prefix: &str) -> (found: bool)
    ensures
        found == text_starts_with(s@, prefix@),
{
    starts_with_exec(s.as_bytes(), prefix.as_bytes())
}

/// Whether a text ends with another.
pub fn str_ends_with(s: &str, suffix: &str) -> (found: bool)
    ensures
        found == text_ends_with(s@, suffix@),
{
    ends_with_exec(s.as_bytes(), suffix.as_bytes())
}

/// Whether a text holds another.
pub fn str_contains(s: &str, needle: &str) -> (found: bool)
    ensures
        found == text_contains(s@, needle@),
{
    contains_exec(s.as_bytes(), needle.as_bytes())
}

/// The parts in a row, with the separator between each two.
pub open spec fn join(parts: Seq<Seq<char>>, separator: Seq<char>) -> Seq<char>
    decreases parts.len(),
{
    if parts.len() == 0 {
        seq![]
    } else if parts.len() == 1 {
        parts[0]
    } else {
        join(parts.drop_last(), separator) + separator + parts.last()
    }
}

/// The parts in a row, with the separator between each two.
pub fn join_exec(parts: &Vec<String>, separator: &str) -> (joined: String)
    ensures
        joined@ == join(texts(parts@), separator@),
{
    let mut joined = String::new();
    let mut i: usize = 0;
    assert(texts(parts@).take(0) =~= Seq::<Seq<char>>::empty());
    while i < parts.len()
        invariant
            i <= parts.len(),
            joined@ == join(texts(parts@).take(i as int), separator@),
        decreases parts.len() - i,
    {
        proof {
            let longer = texts(parts@).take(i + 1);
            assert(longer.drop_last() =~= texts(parts@).take(i as int));
            assert(longer.last() == parts[i as int]@);
            if i == 0 {
                assert(joined@ + parts[i as int]@ =~= parts[i as int]@);
            }
        }
        if i > 0 {
            joined.append(separator);
        }
        joined.append(parts[i].as_str());
        i += 1;
    }
    assert(texts(parts@).take(parts.len() as int) =~= texts(parts@));
    joined
}

/// The pieces from `from` up to `to` in a row, with the separator between
/// each two.
pub(crate) fn join_slices(pieces: &Vec<&str>, from: usize, to: usize, separator: &str) -> (joined: String)
    requires
        from <= to <= pieces.len(),
    ensures
        joined@ == join(slice_texts(pieces@).subrange(from as int, to as int), separator@),
{
    let ghost wanted = slice_texts(pieces@).subrange(from as int, to as int);
    let mut joined = String::new();
    let mut i: usize = from;
    assert(wanted.take(0) =~= Seq::<Seq<char>>::empty());
    while i < to
        invariant
            from <= i <= to <= pieces.len(),
            wanted == slice_texts(pieces@).subrange(from as int, to as int),
            joined@ == join(wanted.take(i - from), separator@),
        decreases to - i,
    {
        proof {
            let longer = wanted.take(i - from + 1);
            assert(longer.drop_last() =~= wanted.take(i - from));
            assert(longer.last() == pieces[i as int]@);
            if i == from {
                assert(joined@ + pieces[i as int]@ =~= pieces[i as int]@);
            }
        }
        if i > from {
            joined.append(separator);
        }
        joined.append(pieces[i]);
        i += 1;
    }
    assert(wanted.take(to - from) =~= wanted);
    joined
}

/// The pieces of a text between occurrences of an ASCII separator.
pub(crate) fn split_exec<'a>(text: &'a str, sep: u8) -> (pieces: Vec<&'a str>)
    requires
        sep < 0x80,
    ensures
        slice_bytes(pieces@) == split(text.spec_bytes(), sep),
{
    let ghost bytes = text.spec_bytes();
    let data = text.as_bytes();
    let len = data.len();
    let mut pieces: Vec<&'a str> = Vec::new();
    let mut start: usize = 0;
    let mut i: usize = 0;
    proof {
        is_char_boundary_start_end_of_seq(bytes);
        assert(slice_bytes(pieces@) + split_from(bytes, sep, 0, 0) =~= split(bytes, sep));
    }
    while i < len
        invariant
            bytes == text.spec_bytes(),
            data@ == bytes,
            len == bytes.len(),
            valid_utf8(bytes),
            sep < 0x80,
            start <= i <= len,
            is_char_boundary(bytes, start as int),
            is_char_boundary(bytes, len as int),
            slice_bytes(pieces@) + split_from(bytes, sep, start as int, i as int) == split(bytes, sep),
        decreases len - i,
    {
        if data[i] == sep {
            proof {
                lemma_boundary_around_ascii(bytes, i as int);
            }
            let piece = substr(text, start, i);
            let ghost before = slice_bytes(pieces@);
            pieces.push(piece);
            proof {
                assert(slice_bytes(pieces@) =~= before + seq![bytes.subrange(start as int, i as int)]);
                assert(slice_bytes(pieces@) + split_from(bytes, sep, i + 1, i + 1) =~= before + split_from(
                    bytes,
                    sep,
                    start as int,
                    i as int,
                ));
            }
            start = i + 1;
        }
        i += 1;
    }
    let piece = substr(text, start, len);
    let ghost before = slice_bytes(pieces@);
    pieces.push(piece);
    assert(slice_bytes(pieces@) =~= before + seq![bytes.subrange(start as int, len as int)]);
    pieces
}

/// The lines of a text.
pub fn lines_exec<'a>(text: &'a str) -> (lines: Vec<&'a str>)
    ensures
        slice_bytes(lines@) == lines_of(text.spec_bytes()),
{
    let pieces = split_exec(text, LINE_FEED);
    let ghost parts = split(text.spec_bytes(), LINE_FEED);
    proof {
        lemma_split_not_empty(text.spec_bytes(), LINE_FEED, 0, 0);
    }
    let count = pieces.len();
    let mut lines: Vec<&'a str> = Vec::new();
    let mut i: usize = 0;
    while i + 1 < count
        invariant
            count == pieces.len(),
            count >= 1,
            i + 1 <= count,
            slice_bytes(pieces@) == parts,
            lines.len() == i,
            forall|j: int| 0 <= j < i ==> (#[trigger] lines[j]).spec_bytes() == without_return(parts[j]),
        decreases count - i,
    {
        let piece = pieces[i];
        let data = piece.as_bytes();
        proof {
            assert(slice_bytes(pieces@)[i as int] == pieces[i as int].spec_bytes());
        }
        if data.len() > 0 && data[data.len() - 1] == CARRIAGE_RETURN {
            proof {
                lemma_boundary_around_ascii(piece.spec_bytes(), data.len() - 1);
                is_char_boundary_start_end_of_seq(piece.spec_bytes());
            }
            let line = substr(piece, 0, data.len() - 1);
            assert(line.spec_bytes() =~= without_return(parts[i as int]));
            lines.push(line);
        } else {
            lines.push(piece);
        }
        i += 1;
    }
    let last = pieces[count - 1];
    proof {
        assert(slice_bytes(pieces@)[count - 1] == pieces[count - 1].spec_bytes());
    }
    let ghost ended = slice_bytes(lines@);
    if last.as_bytes().len() > 0 {
        lines.push(last);
        assert(slice_bytes(lines@) =~= lines_of(text.spec_bytes()));
    } else {
        assert(slice_bytes(lines@) =~= lines_of(text.spec_bytes()));
    }
    lines
}

/// The lines of a text, as texts.
pub open spec fn text_lines(s: Seq<char>) -> Seq<Seq<char>> {
    Seq::new(lines_of(encode_utf8(s)).len(), |i: int| decode_utf8(lines_of(encode_utf8(s))[i]))
}

/// The text of a decimal digit.
pub open spec fn digit_text(digit: int) -> Seq<char> {
    if digit == 0 {
        "0"@
    } else if digit == 1 {
        "1"@
    } else if digit == 2 {
        "2"@
    } else if digit == 3 {
        "3"@
    } else if digit == 4 {
        "4"@
    } else if digit == 5 {
        "5"@
    } else if digit == 6 {
        "6"@
    } else if digit == 7 {
        "7"@
    } else if digit == 8 {
        "8"@
    } else {
        "9"@
    }
}

/// A number in decimal notation, without leading zeros.
pub open spec fn decimal(n: nat) -> Seq<char>
    decreases n,
{
    if n < 10 {
        digit_text(n as int)
    } else {
        decimal(n / 10) + digit_text((n % 10) as int)
    }
}

fn digit_str(digit: usize) -> (text: &'static str)
    requires
        digit < 10,
    ensures
        text@ == digit_text(digit as int),
{
    if digit == 0 {
        "0"
    } else if digit == 1 {
        "1"
    } else if digit == 2 {
        "2"
    } else if digit == 3 {
        "3"
    } else if digit == 4 {
        "4"
    } else if digit == 5 {
        "5"
    } else if digit == 6 {
        "6"
    } else if digit == 7 {
        "7"
    } else if digit == 8 {
        "8"
    } else {
        "9"
    }
}

/// A number in decimal notation, without leading zeros.
pub fn decimal_string(n: usize) -> (text: String)
    ensures
        text@ == decimal(n as nat),
    decreases n,
{
    if n < 10 {
        String::from_str(digit_str(n))
    } else {
        let mut text = decimal_string(n / 10);
        text.append(digit_str(n % 10));
        text
    }
}

/// Every digit is written with one character, and no two digits with the same.
proof fn lemma_digit_texts()
    ensures
        forall|d: int| 0 <= d < 10 ==> (#[trigger] digit_text(d)).len() == 1,
        forall|a: int, b: int|
            0 <= a < 10 && 0 <= b < 10 && #[trigger] digit_text(a) == #[trigger] digit_text(b) ==> a == b,
{
    reveal_strlit("0");
    reveal_strlit("1");
    reveal_strlit("2");
    reveal_strlit("3");
    reveal_strlit("4");
    reveal_strlit("5");
    reveal_strlit("6");
    reveal_strlit("7");
    reveal_strlit("8");
    reveal_strlit("9");
    assert forall|a: int, b: int|
        0 <= a < 10 && 0 <= b < 10 && #[trigger] digit_text(a) == #[trigger] digit_text(b) implies a == b by {
        assert(digit_text(a)[0] == digit_text(b)[0]);
    }
}

proof fn lemma_decimal_len(n: nat)
    ensures
        decimal(n).len() >= 1,
        n >= 10 ==> decimal(n).len() >= 2,
    decreases n,
{
    lemma_digit_texts();
    if n >= 10 {
        lemma_decimal_len(n / 10);
    }
}

/// Different numbers are written differently.
pub proof fn lemma_decimal_injective(a: nat, b: nat)
    requires
        decimal(a) == decimal(b),
    ensures
        a == b,
    decreases a,
{
    lemma_digit_texts();
    lemma_decimal_len(a);
    lemma_decimal_len(b);
    if a < 10 || b < 10 {
    } else {
        let da = decimal(a / 10);
        let db = decimal(b / 10);
        let la = digit_text((a % 10) as int);
        let lb = digit_text((b % 10) as int);
        assert(decimal(a) == da + la);
        assert(decimal(b) == db + lb);
        assert(da.len() == db.len());
        assert(la =~= (da + la).subrange(da.len() as int, da.len() as int + 1));
        assert(lb =~= (db + lb).subrange(db.len() as int, db.len() as int + 1));
        assert(da =~= (da + la).subrange(0, da.len() as int));
        assert(db =~= (db + lb).subrange(0, db.len() as int));
        lemma_decimal_injective(a / 10, b / 10);
    }
}

} // verus!
