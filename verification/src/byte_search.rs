use vstd::prelude::*;

verus! {

/// `needle` occurs in `hay` at position `at`.
pub open spec fn occurs_at(hay: Seq<u8>, needle: Seq<u8>, at: int) -> bool {
    0 <= at && at + needle.len() <= hay.len() && hay.subrange(at, at + needle.len()) == needle
}

/// `needle` occurs somewhere in `hay`.
pub open spec fn contains_sub(hay: Seq<u8>, needle: Seq<u8>) -> bool {
    exists|at: int| occurs_at(hay, needle, at)
}

/// `hay` begins with `needle`.
pub open spec fn starts_with(hay: Seq<u8>, needle: Seq<u8>) -> bool {
    occurs_at(hay, needle, 0)
}

/// `hay` ends with `needle`.
pub open spec fn ends_with(hay: Seq<u8>, needle: Seq<u8>) -> bool {
    occurs_at(hay, needle, hay.len() - needle.len())
}

/// `hay` without every trailing repetition of `suffix`.
pub open spec fn strip_suffix_all(hay: Seq<u8>, suffix: Seq<u8>) -> Seq<u8>
    decreases hay.len(),
{
    if suffix.len() > 0 && ends_with(hay, suffix) {
        strip_suffix_all(hay.subrange(0, hay.len() - suffix.len()), suffix)
    } else {
        hay
    }
}

/// Whether `needle` occurs in `hay` at position `at`.
pub fn occurs_at_exec(hay: &[u8], needle: &[u8], at: usize) -> (found: bool)
    ensures
        found == occurs_at(hay@, needle@, at as int),
{
    if at > hay.len() || needle.len() > hay.len() - at {
        return false;
    }
    let mut k: usize = 0;
    while k < needle.len()
        invariant
            at + needle.len() <= hay.len(),
            k <= needle.len(),
            forall|j: int| 0 <= j < k ==> hay[at + j] == needle[j],
        decreases needle.len() - k,
    {
        if hay[at + k] != needle[k] {
            proof {
                assert(hay@.subrange(at as int, at + needle.len())[k as int] == hay[at + k]);
            }
            return false;
        }
        k += 1;
    }
    assert(hay@.subrange(at as int, at + needle.len()) =~= needle@);
    true
}

/// Whether two byte strings are equal.
pub fn bytes_eq(a: &[u8], b: &[u8]) -> (same: bool)
    ensures
        same == (a@ == b@),
{
    if a.len() != b.len() {
        return false;
    }
    let same = occurs_at_exec(a, b, 0);
    proof {
        assert(a@.subrange(0, a.len() as int) =~= a@);
    }
    same
}

/// Whether `needle` occurs somewhere in `hay`.
pub fn contains_exec(hay: &[u8], needle: &[u8]) -> (found: bool)
    ensures
        found == contains_sub(hay@, needle@),
{
    if needle.len() > hay.len() {
        return false;
    }
    let last = hay.len() - needle.len();
    let mut at: usize = 0;
    while at < last
        invariant
            last == hay.len() - needle.len(),
            at <= last,
            forall|j: int| 0 <= j < at ==> !occurs_at(hay@, needle@, j),
        decreases last - at,
    {
        if occurs_at_exec(hay, needle, at) {
            return true;
        }
        at += 1;
    }
    occurs_at_exec(hay, needle, last)
}

/// Whether `hay` begins with `needle`.
pub fn starts_with_exec(hay: &[u8], needle: &[u8]) -> (found: bool)
    ensures
        found == starts_with(hay@, needle@),
{
    occurs_at_exec(hay, needle, 0)
}

/// Whether `hay` ends with `needle`.
pub fn ends_with_exec(hay: &[u8], needle: &[u8]) -> (found: bool)
    ensures
        found == ends_with(hay@, needle@),
{
    if needle.len() > hay.len() {
        return false;
    }
    occurs_at_exec(hay, needle, hay.len() - needle.len())
}

/// The length of `hay[..end]` without every trailing repetition of `suffix`.
pub(crate) fn strip_suffix_all_exec(hay: &[u8], end: usize, suffix: &[u8]) -> (kept: usize)
    requires
        end <= hay.len(),
    ensures
        kept <= end,
        hay@.subrange(0, kept as int) == strip_suffix_all(hay@.subrange(0, end as int), suffix@),
{
    let mut kept: usize = end;
    if suffix.len() == 0 {
        return kept;
    }
    while kept >= suffix.len() && occurs_at_exec(hay, suffix, kept - suffix.len())
        invariant
            kept <= end <= hay.len(),
            suffix.len() > 0,
            strip_suffix_all(hay@.subrange(0, kept as int), suffix@) == strip_suffix_all(
                hay@.subrange(0, end as int),
                suffix@,
            ),
        decreases kept,
    {
        proof {
            let whole = hay@.subrange(0, kept as int);
            let shorter = hay@.subrange(0, kept - suffix.len());
            assert(whole.subrange(kept - suffix.len(), kept as int) =~= hay@.subrange(
                kept - suffix.len(),
                kept as int,
            ));
            assert(ends_with(whole, suffix@));
            assert(whole.subrange(0, whole.len() - suffix.len()) =~= shorter);
        }
        kept -= suffix.len();
    }
    proof {
        let whole = hay@.subrange(0, kept as int);
        if kept >= suffix.len() {
            assert(whole.subrange(kept - suffix.len(), kept as int) =~= hay@.subrange(
                kept - suffix.len(),
                kept as int,
            ));
        }
        assert(!ends_with(whole, suffix@));
    }
    kept
}

/// The pieces of `bytes[start..]` between occurrences of the byte `sep`,
/// where `sep` does not occur in `[start, i)`.
pub open spec fn split_from(bytes: Seq<u8>, sep: u8, start: int, i: int) -> Seq<Seq<u8>>
    decreases bytes.len() - i,
{
    if i >= bytes.len() {
        seq![bytes.subrange(start, bytes.len() as int)]
    } else if bytes[i] == sep {
        seq![bytes.subrange(start, i)] + split_from(bytes, sep, i + 1, i + 1)
    } else {
        split_from(bytes, sep, start, i + 1)
    }
}

/// The pieces of a text between occurrences of a separator.
pub open spec fn split(bytes: Seq<u8>, sep: u8) -> Seq<Seq<u8>> {
    split_from(bytes, sep, 0, 0)
}

/// A text has at least one piece, whatever separates its pieces.
pub proof fn lemma_split_not_empty(bytes: Seq<u8>, sep: u8, start: int, i: int)
    ensures
        split_from(bytes, sep, start, i).len() >= 1,
    decreases bytes.len() - i,
{
    if i >= bytes.len() {
    } else if bytes[i] == sep {
        lemma_split_not_empty(bytes, sep, i + 1, i + 1);
    } else {
        lemma_split_not_empty(bytes, sep, start, i + 1);
    }
}

/// The byte that ends a line.
pub const LINE_FEED: u8 = 10;

/// The byte that may stand before the one that ends a line.
pub const CARRIAGE_RETURN: u8 = 13;

/// A line without the carriage return at its end, if it has one.
pub open spec fn without_return(line: Seq<u8>) -> Seq<u8> {
    if line.len() > 0 && line.last() == CARRIAGE_RETURN {
        line.drop_last()
    } else {
        line
    }
}

/// The lines of a text. A line ends with a line feed, which does not belong
/// to it, nor does a carriage return right before the line feed. What
/// follows the last line feed is a line unless it is empty.
pub open spec fn lines_of(bytes: Seq<u8>) -> Seq<Seq<u8>> {
    let pieces = split(bytes, LINE_FEED);
    let ended = Seq::new((pieces.len() - 1) as nat, |i: int| without_return(pieces[i]));
    if pieces.last().len() == 0 {
        ended
    } else {
        ended.push(pieces.last())
    }
}

/// `hay` without every leading repetition of `prefix`.
pub open spec fn strip_prefix_all(hay: Seq<u8>, prefix: Seq<u8>) -> Seq<u8>
    decreases hay.len(),
{
    if prefix.len() > 0 && starts_with(hay, prefix) {
        strip_prefix_all(hay.subrange(prefix.len() as int, hay.len() as int), prefix)
    } else {
        hay
    }
}

/// Where `hay` begins once every leading repetition of `prefix` is left out.
pub fn strip_prefix_all_exec(hay: &[u8], prefix: &[u8]) -> (from: usize)
    ensures
        from <= hay.len(),
        hay@.subrange(from as int, hay.len() as int) == strip_prefix_all(hay@, prefix@),
        from > 0 ==> prefix.len() > 0 && hay[from - 1] == prefix@.last(),
{
    let mut from: usize = 0;
    assert(hay@.subrange(0, hay.len() as int) =~= hay@);
    if prefix.len() == 0 {
        return from;
    }
    while occurs_at_exec(hay, prefix, from)
        invariant
            from <= hay.len(),
            prefix.len() > 0,
            from > 0 ==> hay[from - 1] == prefix@.last(),
            strip_prefix_all(hay@.subrange(from as int, hay.len() as int), prefix@) == strip_prefix_all(
                hay@,
                prefix@,
            ),
        decreases hay.len() - from,
    {
        proof {
            let rest = hay@.subrange(from as int, hay.len() as int);
            let found = hay@.subrange(from as int, from + prefix.len());
            assert(rest.subrange(0, prefix.len() as int) =~= found);
            assert(starts_with(rest, prefix@));
            assert(rest.subrange(prefix.len() as int, rest.len() as int) =~= hay@.subrange(
                from + prefix.len(),
                hay.len() as int,
            ));
            assert(found[prefix.len() - 1] == hay[from + prefix.len() - 1]);
        }
        from += prefix.len();
    }
    proof {
        let rest = hay@.subrange(from as int, hay.len() as int);
        if from + prefix.len() <= hay.len() {
            assert(rest.subrange(0, prefix.len() as int) =~= hay@.subrange(from as int, from + prefix.len()));
        }
        assert(!starts_with(rest, prefix@));
    }
    from
}

} // verus!
