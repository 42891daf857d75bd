use vstd::prelude::*;
use vstd::hash_set::StringHashSet;
use vstd::string::StringSliceAdditionalSpecFns;
use vstd::utf8::*;
use crate::boundaries::{
    lemma_boundary_around_ascii, lemma_boundary_step, lemma_slice_valid, substr,
};
use crate::hashing::{content_hash, md5_hex};
use crate::scanner::FileScanner;
use crate::text::texts;

verus! {

broadcast use vstd::utf8::encode_utf8_valid_utf8;

/// A buffer of paragraphs is flushed before it would grow beyond this many bytes.
pub const MAX_CHUNK_SIZE: usize = 2000;

/// A buffer of paragraphs is flushed once it holds at least this many bytes.
pub const MIN_CHUNK_SIZE: usize = 500;

/// Width in bytes of a fixed-size window.
pub const WINDOW_SIZE: usize = 1000;

/// Bytes shared by two consecutive fixed-size windows.
pub const WINDOW_OVERLAP: usize = 200;

/// The byte that ends a line; two of them in a row separate paragraphs.
pub const NEWLINE: u8 = 10;

/// A bounded piece of a file's text, retrievable as one unit.
#[derive(Debug, Clone)]
pub struct FileChunk {
    pub path: String,
    pub text: String,
    pub start_offset: usize,
}

/// What a chunk is, mathematically.
pub struct ChunkModel {
    pub path: Seq<char>,
    pub text: Seq<char>,
    pub start_offset: nat,
}

impl View for FileChunk {
    type V = ChunkModel;

    open spec fn view(&self) -> ChunkModel {
        ChunkModel { path: self.path@, text: self.text@, start_offset: self.start_offset as nat }
    }
}

/// A half-open range of byte positions in a text.
pub struct Span {
    pub start: int,
    pub end: int,
}

impl Span {
    pub open spec fn len(self) -> int {
        self.end - self.start
    }

    /// The range lies inside `bytes` and both of its ends are character boundaries.
    pub open spec fn fits(self, bytes: Seq<u8>) -> bool {
        &&& 0 <= self.start <= self.end <= bytes.len()
        &&& is_char_boundary(bytes, self.start)
        &&& is_char_boundary(bytes, self.end)
    }

    pub open spec fn slice(self, bytes: Seq<u8>) -> Seq<u8> {
        bytes.subrange(self.start, self.end)
    }
}

/// Position `i` starts a paragraph separator: a blank line.
pub open spec fn is_break(bytes: Seq<u8>, i: int) -> bool {
    0 <= i && i + 1 < bytes.len() && bytes[i] == NEWLINE && bytes[i + 1] == NEWLINE
}

/// The paragraphs of `bytes[start..]`, where no separator starts in `[start, i)`.
/// Separators are matched from left to right and do not overlap.
pub open spec fn paragraphs_from(bytes: Seq<u8>, start: int, i: int) -> Seq<Span>
    decreases bytes.len() - i,
{
    if i >= bytes.len() {
        seq![Span { start, end: bytes.len() as int }]
    } else if is_break(bytes, i) {
        seq![Span { start, end: i }] + paragraphs_from(bytes, i + 2, i + 2)
    } else {
        paragraphs_from(bytes, start, i + 1)
    }
}

/// The paragraphs of a text: the pieces between blank-line separators.
pub open spec fn paragraphs(bytes: Seq<u8>) -> Seq<Span> {
    paragraphs_from(bytes, 0, 0)
}

/// The buffer after one more paragraph, where the buffer was not flushed for
/// the paragraph's sake: it reaches to the paragraph's end, or starts with the
/// paragraph if it was empty. An empty paragraph leaves an empty buffer empty.
pub open spec fn grow(buffer: Option<Span>, paragraph: Span) -> Option<Span> {
    match buffer {
        Some(b) => Some(Span { start: b.start, end: paragraph.end }),
        None => if paragraph.len() > 0 {
            Some(paragraph)
        } else {
            None
        },
    }
}

/// A non-empty buffer is flushed before a paragraph that would take it beyond the maximum.
pub open spec fn overflows(buffer: Option<Span>, paragraph: Span) -> bool {
    buffer is Some && buffer->0.len() + paragraph.len() > MAX_CHUNK_SIZE
}

/// A buffer is flushed as soon as it has reached the minimum.
pub open spec fn is_full(buffer: Option<Span>) -> bool {
    buffer is Some && buffer->0.len() >= MIN_CHUNK_SIZE
}

/// Greedy packing of paragraphs into candidate chunks, always cut on paragraph
/// boundaries. `buffer` is what has been gathered and not yet flushed.
pub open spec fn pack(paras: Seq<Span>, buffer: Option<Span>) -> Seq<Span>
    decreases paras.len(),
{
    if paras.len() == 0 {
        match buffer {
            Some(b) => seq![b],
            None => seq![],
        }
    } else {
        let p = paras[0];
        let early = overflows(buffer, p);
        let grown = grow(if early { None } else { buffer }, p);
        let full = is_full(grown);
        let flushed = (if early { seq![buffer->0] } else { seq![] })
            + (if full { seq![grown->0] } else { seq![] });
        flushed + pack(paras.drop_first(), if full { None } else { grown })
    }
}

/// The least position at or after `i` that is a character boundary or the end.
pub open spec fn snap_up(bytes: Seq<u8>, i: int) -> int
    decreases bytes.len() - i,
{
    if i >= bytes.len() {
        bytes.len() as int
    } else if is_char_boundary(bytes, i) {
        i
    } else {
        snap_up(bytes, i + 1)
    }
}

/// The greatest position at or before `i` that is a character boundary or the start.
pub open spec fn snap_down(bytes: Seq<u8>, i: int) -> int
    decreases i,
{
    if i <= 0 {
        0
    } else if is_char_boundary(bytes, i) {
        i
    } else {
        snap_down(bytes, i - 1)
    }
}

/// Where the window that starts at `start` ends.
pub open spec fn window_end(bytes: Seq<u8>, start: int) -> int {
    snap_up(
        bytes,
        if start + WINDOW_SIZE < bytes.len() {
            start + WINDOW_SIZE
        } else {
            bytes.len() as int
        },
    )
}

/// Where the window after the one that ends at `end` starts.
pub open spec fn next_window_start(bytes: Seq<u8>, end: int) -> int {
    snap_down(
        bytes,
        if end >= WINDOW_OVERLAP {
            end - WINDOW_OVERLAP
        } else {
            0
        },
    )
}

/// Overlapping fixed-size windows over `bytes[start..]`, their edges moved to
/// character boundaries. The last window is the one that reaches the end.
///
/// In well-formed UTF-8 a window that stops short of the end is always followed
/// by one that starts later than it did; the two conditions on `next` only make
/// the definition total on arbitrary bytes.
pub open spec fn windows(bytes: Seq<u8>, start: int) -> Seq<Span>
    decreases bytes.len() - start,
{
    if start < 0 || start >= bytes.len() {
        seq![]
    } else {
        let end = window_end(bytes, start);
        let next = next_window_start(bytes, end);
        if end < bytes.len() && start < next < bytes.len() {
            seq![Span { start, end }] + windows(bytes, next)
        } else {
            seq![Span { start, end }]
        }
    }
}

/// The positions of the keys that no earlier key equals.
pub open spec fn first_occurrences(keys: Seq<Seq<char>>) -> Seq<int>
    decreases keys.len(),
{
    if keys.len() == 0 {
        seq![]
    } else {
        let before = first_occurrences(keys.drop_last());
        if keys.drop_last().contains(keys.last()) {
            before
        } else {
            before.push(keys.len() - 1)
        }
    }
}

/// The content hashes of the candidates, one for each.
pub open spec fn span_keys(bytes: Seq<u8>, spans: Seq<Span>) -> Seq<Seq<char>> {
    Seq::new(spans.len(), |i: int| md5_hex(spans[i].slice(bytes)))
}

/// The candidates without those whose content hash an earlier candidate has.
pub open spec fn dedup(bytes: Seq<u8>, spans: Seq<Span>) -> Seq<Span> {
    let kept = first_occurrences(span_keys(bytes, spans));
    Seq::new(kept.len(), |p: int| spans[kept[p]])
}

/// The chunk that a range of a file's text makes.
pub open spec fn chunk_of(bytes: Seq<u8>, path: Seq<char>, span: Span) -> ChunkModel {
    ChunkModel { path, text: decode_utf8(span.slice(bytes)), start_offset: span.start as nat }
}

pub open spec fn chunks_of_spans(bytes: Seq<u8>, path: Seq<char>, spans: Seq<Span>) -> Seq<ChunkModel> {
    Seq::new(spans.len(), |i: int| chunk_of(bytes, path, spans[i]))
}

/// The ranges that paragraph-aligned chunking keeps.
pub open spec fn paragraph_chunk_spans(bytes: Seq<u8>) -> Seq<Span> {
    dedup(bytes, pack(paragraphs(bytes), None))
}

/// The ranges that fixed-size chunking keeps.
pub open spec fn window_chunk_spans(bytes: Seq<u8>) -> Seq<Span> {
    dedup(bytes, windows(bytes, 0))
}

/// The ranges of a text that become its chunks: paragraph-aligned where that
/// yields any chunk, fixed-size windows otherwise.
pub open spec fn chunk_spans(bytes: Seq<u8>) -> Seq<Span> {
    if paragraph_chunk_spans(bytes).len() > 0 {
        paragraph_chunk_spans(bytes)
    } else {
        window_chunk_spans(bytes)
    }
}

/// The chunks of a file's text.
pub open spec fn chunks_of(text: Seq<char>, path: Seq<char>) -> Seq<ChunkModel> {
    chunks_of_spans(encode_utf8(text), path, chunk_spans(encode_utf8(text)))
}

/// The models of a vector of chunks.
pub open spec fn chunk_models(chunks: Seq<FileChunk>) -> Seq<ChunkModel> {
    Seq::new(chunks.len(), |i: int| chunks[i]@)
}

/// The positions of first occurrences are positions of keys, in ascending
/// order; the keys at them differ; and the first key's position is among them.
proof fn lemma_first_occurrences(keys: Seq<Seq<char>>)
    ensures
        forall|p: int|
            0 <= p < first_occurrences(keys).len() ==> 0 <= #[trigger] first_occurrences(keys)[p] < keys.len(),
        forall|p: int, q: int|
            0 <= p < q < first_occurrences(keys).len() ==> #[trigger] first_occurrences(keys)[p]
                < #[trigger] first_occurrences(keys)[q],
        forall|p: int, q: int|
            0 <= p < q < first_occurrences(keys).len() ==> keys[#[trigger] first_occurrences(keys)[p]]
                != keys[#[trigger] first_occurrences(keys)[q]],
        keys.len() > 0 ==> first_occurrences(keys).len() > 0,
    decreases keys.len(),
{
    if keys.len() > 0 {
        let earlier = keys.drop_last();
        lemma_first_occurrences(earlier);
        let before = first_occurrences(earlier);
        let kept = first_occurrences(keys);
        assert forall|p: int| 0 <= p < kept.len() implies 0 <= #[trigger] kept[p] < keys.len() by {
            if p < before.len() {
                assert(kept[p] == before[p]);
            }
        }
        assert forall|p: int, q: int| 0 <= p < q < kept.len() implies #[trigger] kept[p] < #[trigger] kept[q]
            && keys[kept[p]] != keys[kept[q]] by {
            assert(kept[p] == before[p]);
            if q < before.len() {
                assert(kept[q] == before[q]);
                assert(keys[before[p]] == earlier[before[p]]);
                assert(keys[before[q]] == earlier[before[q]]);
            } else {
                assert(kept[q] == keys.len() - 1);
                assert(!earlier.contains(keys.last()));
                assert(earlier[before[p]] == keys[before[p]]);
            }
        }
        if earlier.len() == 0 {
            assert(!earlier.contains(keys.last()));
        }
    }
}

/// Every kept candidate is one of the candidates; of candidates there are
/// some kept if there are any.
proof fn lemma_dedup_members(bytes: Seq<u8>, spans: Seq<Span>)
    ensures
        forall|i: int| 0 <= i < dedup(bytes, spans).len() ==> spans.contains(#[trigger] dedup(bytes, spans)[i]),
        spans.len() > 0 ==> dedup(bytes, spans).len() > 0,
{
    lemma_first_occurrences(span_keys(bytes, spans));
    let kept = first_occurrences(span_keys(bytes, spans));
    assert forall|i: int| 0 <= i < dedup(bytes, spans).len() implies spans.contains(
        #[trigger] dedup(bytes, spans)[i],
    ) by {
        assert(spans[kept[i]] == dedup(bytes, spans)[i]);
    }
}

/// No two kept candidates have the same content hash.
pub proof fn lemma_dedup_distinct(bytes: Seq<u8>, spans: Seq<Span>)
    ensures
        forall|i: int, j: int|
            0 <= i < j < dedup(bytes, spans).len() ==> md5_hex(
                #[trigger] dedup(bytes, spans)[i].slice(bytes),
            ) != md5_hex(#[trigger] dedup(bytes, spans)[j].slice(bytes)),
{
    let keys = span_keys(bytes, spans);
    lemma_first_occurrences(keys);
    let kept = first_occurrences(keys);
    assert forall|i: int, j: int| 0 <= i < j < dedup(bytes, spans).len() implies md5_hex(
        #[trigger] dedup(bytes, spans)[i].slice(bytes),
    ) != md5_hex(#[trigger] dedup(bytes, spans)[j].slice(bytes)) by {
        assert(keys[kept[i]] != keys[kept[j]]);
    }
}

/// Every kept candidate fits the text if every candidate does.
proof fn lemma_dedup_fits(bytes: Seq<u8>, spans: Seq<Span>)
    requires
        forall|k: int| 0 <= k < spans.len() ==> (#[trigger] spans[k]).fits(bytes),
    ensures
        forall|i: int| 0 <= i < dedup(bytes, spans).len() ==> (#[trigger] dedup(bytes, spans)[i]).fits(bytes),
{
    lemma_first_occurrences(span_keys(bytes, spans));
    let kept = first_occurrences(span_keys(bytes, spans));
    assert forall|i: int| 0 <= i < dedup(bytes, spans).len() implies (#[trigger] dedup(bytes, spans)[i]).fits(
        bytes,
    ) by {
        assert(spans[kept[i]].fits(bytes));
    }
}

/// Chunks cut from kept candidates differ in their text.
proof fn lemma_chunk_texts_differ(bytes: Seq<u8>, path: Seq<char>, spans: Seq<Span>)
    requires
        valid_utf8(bytes),
        forall|k: int| 0 <= k < spans.len() ==> (#[trigger] spans[k]).fits(bytes),
    ensures
        forall|i: int, j: int|
            0 <= i < j < dedup(bytes, spans).len() ==> (#[trigger] chunks_of_spans(
                bytes,
                path,
                dedup(bytes, spans),
            )[i]).text != (#[trigger] chunks_of_spans(bytes, path, dedup(bytes, spans))[j]).text,
{
    let kept = dedup(bytes, spans);
    lemma_dedup_distinct(bytes, spans);
    lemma_dedup_fits(bytes, spans);
    assert forall|i: int, j: int| 0 <= i < j < kept.len() implies (#[trigger] chunks_of_spans(
        bytes,
        path,
        kept,
    )[i]).text != (#[trigger] chunks_of_spans(bytes, path, kept)[j]).text by {
        let a = kept[i].slice(bytes);
        let b = kept[j].slice(bytes);
        assert(kept[i].fits(bytes));
        assert(kept[j].fits(bytes));
        lemma_slice_valid(bytes, kept[i].start, kept[i].end);
        lemma_slice_valid(bytes, kept[j].start, kept[j].end);
        decode_utf8_encode_utf8(a);
        decode_utf8_encode_utf8(b);
        assert(md5_hex(a) != md5_hex(b));
    }
}

/// The ranges start one after the other.
pub open spec fn ascending(spans: Seq<Span>) -> bool {
    forall|i: int, j: int| 0 <= i < j < spans.len() ==> (#[trigger] spans[i]).start < (#[trigger] spans[j]).start
}

/// Paragraphs follow one another with a separator between each two.
pub open spec fn in_order(paras: Seq<Span>) -> bool {
    &&& forall|k: int| 0 <= k < paras.len() ==> (#[trigger] paras[k]).start <= paras[k].end
    &&& forall|k: int| 0 <= k < paras.len() - 1 ==> (#[trigger] paras[k]).end < paras[k + 1].start
}

proof fn lemma_paragraphs_in_order(bytes: Seq<u8>, start: int, i: int)
    requires
        0 <= start <= i <= bytes.len(),
    ensures
        paragraphs_from(bytes, start, i).len() > 0,
        paragraphs_from(bytes, start, i)[0].start == start,
        in_order(paragraphs_from(bytes, start, i)),
    decreases bytes.len() - i,
{
    let paras = paragraphs_from(bytes, start, i);
    if i >= bytes.len() {
    } else if is_break(bytes, i) {
        lemma_paragraphs_in_order(bytes, i + 2, i + 2);
        let rest = paragraphs_from(bytes, i + 2, i + 2);
        assert forall|k: int| 0 <= k < paras.len() implies (#[trigger] paras[k]).start <= paras[k].end by {
            if k > 0 {
                assert(paras[k] == rest[k - 1]);
            }
        }
        assert forall|k: int| 0 <= k < paras.len() - 1 implies (#[trigger] paras[k]).end < paras[k + 1].start by {
            assert(paras[k + 1] == rest[k]);
            if k > 0 {
                assert(paras[k] == rest[k - 1]);
            }
        }
    } else {
        lemma_paragraphs_in_order(bytes, start, i + 1);
    }
}

/// The least position at which a packed range may start.
pub open spec fn pack_floor(paras: Seq<Span>, buffer: Option<Span>) -> int {
    if buffer is Some {
        buffer->0.start
    } else if paras.len() > 0 {
        paras[0].start
    } else {
        0
    }
}

proof fn lemma_pack_ascending(paras: Seq<Span>, buffer: Option<Span>)
    requires
        in_order(paras),
        buffer is Some ==> buffer->0.start < buffer->0.end,
        buffer is Some && paras.len() > 0 ==> buffer->0.end < paras[0].start,
    ensures
        ascending(pack(paras, buffer)),
        forall|k: int|
            0 <= k < pack(paras, buffer).len() ==> (#[trigger] pack(paras, buffer)[k]).start >= pack_floor(
                paras,
                buffer,
            ),
    decreases paras.len(),
{
    if paras.len() > 0 {
        let p = paras[0];
        let rest = paras.drop_first();
        let early = overflows(buffer, p);
        let grown = grow(if early { None } else { buffer }, p);
        let full = is_full(grown);
        let flushed = (if early { seq![buffer->0] } else { seq![] }) + (if full { seq![grown->0] } else { seq![] });
        let carry = if full { None } else { grown };
        assert forall|k: int| 0 <= k < rest.len() implies (#[trigger] rest[k]).start <= rest[k].end by {
            assert(rest[k] == paras[k + 1]);
        }
        assert forall|k: int| 0 <= k < rest.len() - 1 implies (#[trigger] rest[k]).end < rest[k + 1].start by {
            assert(rest[k] == paras[k + 1]);
            assert(rest[k + 1] == paras[k + 2]);
        }
        if rest.len() > 0 {
            assert(rest[0] == paras[1]);
            assert(paras[0].end < paras[1].start);
        }
        lemma_pack_ascending(rest, carry);
        let tail = pack(rest, carry);
        let whole = pack(paras, buffer);
        assert(whole == flushed + tail);
        let floor = pack_floor(paras, buffer);
        let tail_floor = pack_floor(rest, carry);
        assert forall|k: int| 0 <= k < flushed.len() implies (#[trigger] flushed[k]).start >= floor && (tail.len() > 0
            ==> flushed[k].start < tail_floor) by {}
        assert forall|k: int| 0 <= k < whole.len() implies (#[trigger] whole[k]).start >= floor by {
            if k >= flushed.len() {
                assert(whole[k] == tail[k - flushed.len()]);
            } else {
                assert(whole[k] == flushed[k]);
            }
        }
        assert forall|i: int, j: int| 0 <= i < j < whole.len() implies (#[trigger] whole[i]).start < (
        #[trigger] whole[j]).start by {
            if i >= flushed.len() {
                assert(whole[i] == tail[i - flushed.len()]);
                assert(whole[j] == tail[j - flushed.len()]);
            } else if j >= flushed.len() {
                assert(whole[i] == flushed[i]);
                assert(whole[j] == tail[j - flushed.len()]);
            } else {
                assert(whole[i] == flushed[i]);
                assert(whole[j] == flushed[j]);
            }
        }
    }
}

proof fn lemma_windows_ascending(bytes: Seq<u8>, start: int)
    ensures
        ascending(windows(bytes, start)),
        forall|k: int| 0 <= k < windows(bytes, start).len() ==> (#[trigger] windows(bytes, start)[k]).start >= start,
    decreases bytes.len() - start,
{
    if !(start < 0 || start >= bytes.len()) {
        let end = window_end(bytes, start);
        let next = next_window_start(bytes, end);
        if end < bytes.len() && start < next < bytes.len() {
            lemma_windows_ascending(bytes, next);
            let whole = windows(bytes, start);
            let tail = windows(bytes, next);
            assert forall|k: int| 0 <= k < whole.len() implies (#[trigger] whole[k]).start >= start by {
                if k > 0 {
                    assert(whole[k] == tail[k - 1]);
                }
            }
            assert forall|i: int, j: int| 0 <= i < j < whole.len() implies (#[trigger] whole[i]).start < (
            #[trigger] whole[j]).start by {
                assert(whole[j] == tail[j - 1]);
                if i > 0 {
                    assert(whole[i] == tail[i - 1]);
                }
            }
        }
    }
}

/// What is kept of ranges that start one after the other starts one after the other.
proof fn lemma_dedup_ascending(bytes: Seq<u8>, spans: Seq<Span>)
    requires
        ascending(spans),
    ensures
        ascending(dedup(bytes, spans)),
{
    lemma_first_occurrences(span_keys(bytes, spans));
    let kept = first_occurrences(span_keys(bytes, spans));
    let left = dedup(bytes, spans);
    assert forall|i: int, j: int| 0 <= i < j < left.len() implies (#[trigger] left[i]).start < (
    #[trigger] left[j]).start by {
        assert(kept[i] < kept[j]);
        assert(left[i] == spans[kept[i]]);
        assert(left[j] == spans[kept[j]]);
    }
}

/// The chunks of a text start one after the other: no two of them start at
/// the same position.
pub proof fn lemma_chunks_ascending(bytes: Seq<u8>)
    ensures
        ascending(paragraph_chunk_spans(bytes)),
        ascending(window_chunk_spans(bytes)),
        ascending(chunk_spans(bytes)),
{
    lemma_paragraphs_in_order(bytes, 0, 0);
    lemma_pack_ascending(paragraphs(bytes), None);
    lemma_dedup_ascending(bytes, pack(paragraphs(bytes), None));
    lemma_windows_ascending(bytes, 0);
    lemma_dedup_ascending(bytes, windows(bytes, 0));
}

proof fn lemma_dedup_not_before(bytes: Seq<u8>, spans: Seq<Span>, floor: int)
    requires
        forall|k: int| 0 <= k < spans.len() ==> (#[trigger] spans[k]).start >= floor,
    ensures
        forall|k: int| 0 <= k < dedup(bytes, spans).len() ==> (#[trigger] dedup(bytes, spans)[k]).start >= floor,
{
    lemma_dedup_members(bytes, spans);
    assert forall|k: int| 0 <= k < dedup(bytes, spans).len() implies (#[trigger] dedup(bytes, spans)[k]).start
        >= floor by {
        let kept = dedup(bytes, spans)[k];
        assert(spans.contains(kept));
        let m = choose|m: int| 0 <= m < spans.len() && spans[m] == kept;
        assert(spans[m].start >= floor);
    }
}

/// The chunks of a text carry the text's path, and each starts later than
/// the one before it: no two chunks of a file start at the same position.
pub proof fn lemma_chunk_offsets_ascend(text: Seq<char>, path: Seq<char>)
    ensures
        forall|i: int| 0 <= i < chunks_of(text, path).len() ==> (#[trigger] chunks_of(text, path)[i]).path == path,
        forall|i: int, j: int|
            0 <= i < j < chunks_of(text, path).len() ==> (#[trigger] chunks_of(text, path)[i]).start_offset < (
            #[trigger] chunks_of(text, path)[j]).start_offset,
{
    let bytes = encode_utf8(text);
    lemma_chunks_ascending(bytes);
    lemma_paragraphs_in_order(bytes, 0, 0);
    lemma_pack_ascending(paragraphs(bytes), None);
    lemma_dedup_not_before(bytes, pack(paragraphs(bytes), None), 0);
    lemma_windows_ascending(bytes, 0);
    lemma_dedup_not_before(bytes, windows(bytes, 0), 0);
    let spans = chunk_spans(bytes);
    let chunks = chunks_of(text, path);
    assert forall|i: int, j: int| 0 <= i < j < chunks.len() implies (#[trigger] chunks[i]).start_offset < (
    #[trigger] chunks[j]).start_offset by {
        assert(chunks[i] == chunk_of(bytes, path, spans[i]));
        assert(chunks[j] == chunk_of(bytes, path, spans[j]));
        assert(spans[i].start < spans[j].start);
    }
}

proof fn lemma_paragraphs_fit(bytes: Seq<u8>, start: int, i: int)
    requires
        valid_utf8(bytes),
        0 <= start <= i <= bytes.len(),
        is_char_boundary(bytes, start),
    ensures
        forall|k: int|
            0 <= k < paragraphs_from(bytes, start, i).len() ==> (#[trigger] paragraphs_from(bytes, start, i)[k]).fits(
                bytes,
            ),
    decreases bytes.len() - i,
{
    let paras = paragraphs_from(bytes, start, i);
    is_char_boundary_start_end_of_seq(bytes);
    if i >= bytes.len() {
        assert(paras[0] == Span { start, end: bytes.len() as int });
    } else if is_break(bytes, i) {
        lemma_boundary_around_ascii(bytes, i);
        lemma_boundary_around_ascii(bytes, i + 1);
        lemma_paragraphs_fit(bytes, i + 2, i + 2);
        let rest = paragraphs_from(bytes, i + 2, i + 2);
        assert(paras =~= seq![Span { start, end: i }] + rest);
        assert forall|k: int| 0 <= k < paras.len() implies (#[trigger] paras[k]).fits(bytes) by {
            if k > 0 {
                assert(paras[k] == rest[k - 1]);
            } else {
                assert(paras[0] == Span { start, end: i });
            }
        }
    } else {
        lemma_paragraphs_fit(bytes, start, i + 1);
        assert(paras == paragraphs_from(bytes, start, i + 1));
    }
}

proof fn lemma_pack_fits(bytes: Seq<u8>, paras: Seq<Span>, buffer: Option<Span>)
    requires
        in_order(paras),
        forall|k: int| 0 <= k < paras.len() ==> (#[trigger] paras[k]).fits(bytes),
        buffer is Some ==> buffer->0.fits(bytes),
        buffer is Some && paras.len() > 0 ==> buffer->0.end < paras[0].start,
    ensures
        forall|k: int| 0 <= k < pack(paras, buffer).len() ==> (#[trigger] pack(paras, buffer)[k]).fits(bytes),
    decreases paras.len(),
{
    if paras.len() > 0 {
        let p = paras[0];
        let rest = paras.drop_first();
        let early = overflows(buffer, p);
        let grown = grow(if early { None } else { buffer }, p);
        let full = is_full(grown);
        let flushed = (if early { seq![buffer->0] } else { seq![] }) + (if full { seq![grown->0] } else { seq![] });
        let carry = if full { None } else { grown };
        assert(p.fits(bytes));
        assert forall|k: int| 0 <= k < rest.len() implies (#[trigger] rest[k]).fits(bytes) by {
            assert(rest[k] == paras[k + 1]);
        }
        assert forall|k: int| 0 <= k < rest.len() implies (#[trigger] rest[k]).start <= rest[k].end by {
            assert(rest[k] == paras[k + 1]);
        }
        assert forall|k: int| 0 <= k < rest.len() - 1 implies (#[trigger] rest[k]).end < rest[k + 1].start by {
            assert(rest[k] == paras[k + 1]);
            assert(rest[k + 1] == paras[k + 2]);
        }
        if rest.len() > 0 {
            assert(rest[0] == paras[1]);
            assert(paras[0].end < paras[1].start);
        }
        lemma_pack_fits(bytes, rest, carry);
        let tail = pack(rest, carry);
        let whole = pack(paras, buffer);
        assert(whole == flushed + tail);
        assert forall|k: int| 0 <= k < whole.len() implies (#[trigger] whole[k]).fits(bytes) by {
            if k >= flushed.len() {
                assert(whole[k] == tail[k - flushed.len()]);
            } else {
                assert(whole[k] == flushed[k]);
            }
        }
    }
}

proof fn lemma_snap_up(bytes: Seq<u8>, i: int)
    requires
        valid_utf8(bytes),
        0 <= i <= bytes.len(),
    ensures
        i <= snap_up(bytes, i) <= bytes.len(),
        is_char_boundary(bytes, snap_up(bytes, i)),
    decreases bytes.len() - i,
{
    is_char_boundary_start_end_of_seq(bytes);
    if i < bytes.len() && !is_char_boundary(bytes, i) {
        lemma_snap_up(bytes, i + 1);
    }
}

proof fn lemma_snap_down(bytes: Seq<u8>, i: int)
    requires
        valid_utf8(bytes),
        0 <= i <= bytes.len(),
    ensures
        0 <= snap_down(bytes, i) <= i,
        is_char_boundary(bytes, snap_down(bytes, i)),
    decreases i,
{
    is_char_boundary_start_end_of_seq(bytes);
    if i > 0 && !is_char_boundary(bytes, i) {
        lemma_snap_down(bytes, i - 1);
    }
}

proof fn lemma_windows_fit(bytes: Seq<u8>, start: int)
    requires
        valid_utf8(bytes),
        0 <= start,
        is_char_boundary(bytes, start),
    ensures
        forall|k: int| 0 <= k < windows(bytes, start).len() ==> (#[trigger] windows(bytes, start)[k]).fits(bytes),
    decreases bytes.len() - start,
{
    if start < bytes.len() {
        let raw = if start + WINDOW_SIZE < bytes.len() {
            start + WINDOW_SIZE
        } else {
            bytes.len() as int
        };
        lemma_snap_up(bytes, raw);
        let end = window_end(bytes, start);
        let back = if end >= WINDOW_OVERLAP {
            end - WINDOW_OVERLAP
        } else {
            0
        };
        lemma_snap_down(bytes, back);
        let next = next_window_start(bytes, end);
        let whole = windows(bytes, start);
        if end < bytes.len() && start < next < bytes.len() {
            lemma_windows_fit(bytes, next);
            let tail = windows(bytes, next);
            assert forall|k: int| 0 <= k < whole.len() implies (#[trigger] whole[k]).fits(bytes) by {
                if k > 0 {
                    assert(whole[k] == tail[k - 1]);
                }
            }
        }
    }
}

proof fn lemma_one_paragraph(bytes: Seq<u8>, i: int)
    requires
        0 <= i,
        forall|k: int| !is_break(bytes, k),
    ensures
        paragraphs_from(bytes, 0, i) == seq![Span { start: 0, end: bytes.len() as int }],
    decreases bytes.len() - i,
{
    if i < bytes.len() {
        assert(!is_break(bytes, i));
        lemma_one_paragraph(bytes, i + 1);
    }
}

proof fn lemma_encoding_not_empty(text: Seq<char>)
    requires
        text.len() > 0,
    ensures
        encode_utf8(text).len() > 0,
{
    assert(encode_scalar(text[0] as u32).len() > 0);
}

/// A text that is not empty and has no blank line in it is one chunk: the
/// whole text, from its first byte on.
pub proof fn lemma_text_without_blank_line_is_one_chunk(text: Seq<char>, path: Seq<char>)
    requires
        text.len() > 0,
        forall|k: int| !is_break(encode_utf8(text), k),
    ensures
        chunks_of(text, path) == seq![ChunkModel { path, text, start_offset: 0 }],
{
    let bytes = encode_utf8(text);
    let whole = Span { start: 0, end: bytes.len() as int };
    lemma_encoding_not_empty(text);
    lemma_one_paragraph(bytes, 0);
    let paras = seq![whole];
    assert(paragraphs(bytes) == paras);
    assert(paras.drop_first() =~= Seq::<Span>::empty());
    reveal_with_fuel(pack, 3);
    assert(pack(paras, None) =~= seq![whole]);
    let keys = span_keys(bytes, seq![whole]);
    assert(keys.drop_last() =~= Seq::<Seq<char>>::empty());
    reveal_with_fuel(first_occurrences, 3);
    assert(first_occurrences(keys) =~= seq![0int]);
    assert(dedup(bytes, seq![whole]) =~= seq![whole]);
    assert(whole.slice(bytes) =~= bytes);
    encode_utf8_decode_utf8(text);
    assert(chunks_of(text, path) =~= seq![ChunkModel { path, text, start_offset: 0 }]);
}

/// No two chunks of a text have the same content.
pub proof fn lemma_chunks_differ(text: Seq<char>, path: Seq<char>)
    ensures
        forall|i: int, j: int|
            0 <= i < j < chunks_of(text, path).len() ==> (#[trigger] chunks_of(text, path)[i]).text != (
            #[trigger] chunks_of(text, path)[j]).text,
{
    let bytes = encode_utf8(text);
    is_char_boundary_start_end_of_seq(bytes);
    lemma_paragraphs_in_order(bytes, 0, 0);
    lemma_paragraphs_fit(bytes, 0, 0);
    lemma_pack_fits(bytes, paragraphs(bytes), None);
    lemma_windows_fit(bytes, 0);
    lemma_chunk_texts_differ(bytes, path, pack(paragraphs(bytes), None));
    lemma_chunk_texts_differ(bytes, path, windows(bytes, 0));
}

/// The ranges that pairs of positions stand for.
pub open spec fn span_models(pairs: Seq<(usize, usize)>) -> Seq<Span> {
    Seq::new(pairs.len(), |i: int| Span { start: pairs[i].0 as int, end: pairs[i].1 as int })
}

/// The positions as numbers.
pub open spec fn positions(indices: Seq<usize>) -> Seq<int> {
    Seq::new(indices.len(), |i: int| indices[i] as int)
}

/// The positions of the keys that no earlier key equals, in ascending order.
pub fn first_occurrences_exec(keys: &Vec<String>) -> (kept: Vec<usize>)
    ensures
        positions(kept@) == first_occurrences(texts(keys@)),
        forall|p: int| 0 <= p < kept.len() ==> #[trigger] kept[p] < keys.len(),
{
    let ghost all = texts(keys@);
    let mut kept: Vec<usize> = Vec::new();
    let mut seen = StringHashSet::new();
    let mut i: usize = 0;
    proof {
        assert(all.take(0) =~= Seq::<Seq<char>>::empty());
        assert(positions(kept@) =~= first_occurrences(all.take(0)));
    }
    while i < keys.len()
        invariant
            i <= keys.len(),
            all == texts(keys@),
            positions(kept@) == first_occurrences(all.take(i as int)),
            forall|p: int| 0 <= p < kept.len() ==> #[trigger] kept[p] < i,
            forall|key: Seq<char>| seen@.contains(key) <==> all.take(i as int).contains(key),
        decreases keys.len() - i,
    {
        let ghost before = positions(kept@);
        let ghost earlier = all.take(i as int);
        let ghost longer = all.take(i + 1);
        proof {
            assert(longer.drop_last() =~= earlier);
            assert(longer.last() == keys[i as int]@);
        }
        let fresh = seen.insert(keys[i].clone());
        if fresh {
            kept.push(i);
            assert(positions(kept@) =~= before.push(i as int));
        }
        proof {
            assert forall|key: Seq<char>| seen@.contains(key) <==> longer.contains(key) by {
                if longer.contains(key) {
                    let k = choose|k: int| 0 <= k < longer.len() && longer[k] == key;
                    if k < i {
                        assert(earlier[k] == key);
                    }
                }
                if earlier.contains(key) {
                    let k = choose|k: int| 0 <= k < earlier.len() && earlier[k] == key;
                    assert(longer[k] == key);
                }
                if key == keys[i as int]@ {
                    assert(longer[i as int] == key);
                }
            }
        }
        i += 1;
    }
    assert(all.take(keys.len() as int) =~= all);
    kept
}

/// The buffer of the paragraph chunker as a range.
pub open spec fn span_of(buffer: Option<(usize, usize)>) -> Option<Span> {
    match buffer {
        Some(b) => Some(Span { start: b.0 as int, end: b.1 as int }),
        None => None,
    }
}

impl FileScanner {
    /// The candidate chunks of fixed-size chunking: overlapping windows of
    /// `WINDOW_SIZE` bytes whose edges lie on character boundaries.
    pub fn window_spans(text: &str) -> (found: Vec<(usize, usize)>)
        ensures
            span_models(found@) == windows(text.spec_bytes(), 0),
            forall|k: int| 0 <= k < found.len() ==> (#[trigger] span_models(found@)[k]).fits(text.spec_bytes()),
    {
        let ghost bytes = text.spec_bytes();
        let len = text.as_bytes().len();
        let mut found: Vec<(usize, usize)> = Vec::new();
        let ghost mut spans: Seq<Span> = Seq::empty();
        let mut start: usize = 0;
        let mut done = len == 0;
        proof {
            is_char_boundary_start_end_of_seq(bytes);
            assert(span_models(found@) =~= spans);
            assert(spans + windows(bytes, 0) =~= windows(bytes, 0));
        }
        while !done
            invariant
                bytes == text.spec_bytes(),
                valid_utf8(bytes),
                len == bytes.len(),
                start <= len,
                !done ==> start < len,
                is_char_boundary(bytes, start as int),
                is_char_boundary(bytes, len as int),
                !done ==> spans + windows(bytes, start as int) == windows(bytes, 0),
                done ==> spans == windows(bytes, 0),
                forall|k: int| 0 <= k < spans.len() ==> (#[trigger] spans[k]).fits(bytes),
                span_models(found@) == spans,
            decreases len - start, (if done { 0int } else { 1int }),
        {
            let raw_end: usize = if len - start > WINDOW_SIZE {
                start + WINDOW_SIZE
            } else {
                len
            };
            let mut end: usize = raw_end;
            while end < len && !text.is_char_boundary(end)
                invariant
                    bytes == text.spec_bytes(),
                    len == bytes.len(),
                    raw_end <= end <= len,
                    snap_up(bytes, end as int) == snap_up(bytes, raw_end as int),
                decreases len - end,
            {
                end += 1;
            }
            assert(end as int == window_end(bytes, start as int));
            let ghost span = Span { start: start as int, end: end as int };
            let ghost before = spans;
            found.push((start, end));
            proof {
                spans = spans.push(span);
                assert(span_models(found@) =~= spans);
            }
            if end == len {
                proof {
                    assert(windows(bytes, start as int) =~= seq![span]);
                    assert(before + seq![span] =~= spans);
                }
                done = true;
            } else {
                let raw_next: usize = if end >= WINDOW_OVERLAP {
                    end - WINDOW_OVERLAP
                } else {
                    0
                };
                let ghost stepping = lemma_boundary_step(bytes, start as int);
                let mut next: usize = raw_next;
                while next > 0 && !text.is_char_boundary(next)
                    invariant
                        bytes == text.spec_bytes(),
                        stepping <= next <= raw_next,
                        is_char_boundary(bytes, stepping),
                        snap_down(bytes, next as int) == snap_down(bytes, raw_next as int),
                    decreases next,
                {
                    next -= 1;
                }
                assert(next as int == next_window_start(bytes, end as int));
                proof {
                    assert(windows(bytes, start as int) =~= seq![span] + windows(bytes, next as int));
                    assert(spans + windows(bytes, next as int) =~= before + windows(
                        bytes,
                        start as int,
                    ));
                }
                start = next;
            }
        }
        found
    }

    /// The candidate chunks of paragraph-aligned chunking: paragraphs are
    /// gathered until the buffer reaches `MIN_CHUNK_SIZE` bytes, or until the
    /// next paragraph would take it beyond `MAX_CHUNK_SIZE`.
    pub fn paragraph_spans(text: &str) -> (found: Vec<(usize, usize)>)
        ensures
            span_models(found@) == pack(paragraphs(text.spec_bytes()), None),
            forall|k: int| 0 <= k < found.len() ==> (#[trigger] span_models(found@)[k]).fits(text.spec_bytes()),
    {
        let ghost bytes = text.spec_bytes();
        let data = text.as_bytes();
        let len = data.len();
        let mut found: Vec<(usize, usize)> = Vec::new();
        let ghost mut spans: Seq<Span> = Seq::empty();
        let mut para_start: usize = 0;
        let mut buffer: Option<(usize, usize)> = None;
        let mut i: usize = 0;
        let mut done = false;
        proof {
            is_char_boundary_start_end_of_seq(bytes);
            assert(span_models(found@) =~= spans);
            assert(spans + pack(paragraphs(bytes), None) =~= pack(paragraphs(bytes), None));
        }
        while !done
            invariant
                bytes == text.spec_bytes(),
                data@ == bytes,
                valid_utf8(bytes),
                len == bytes.len(),
                para_start <= i <= len,
                is_char_boundary(bytes, para_start as int),
                is_char_boundary(bytes, len as int),
                buffer matches Some(b) ==> b.0 < b.1 <= para_start && is_char_boundary(
                    bytes,
                    b.0 as int,
                ) && is_char_boundary(bytes, b.1 as int),
                !done ==> spans + pack(
                    paragraphs_from(bytes, para_start as int, i as int),
                    span_of(buffer),
                ) == pack(paragraphs(bytes), None),
                done ==> spans == pack(paragraphs(bytes), None),
                forall|k: int| 0 <= k < spans.len() ==> (#[trigger] spans[k]).fits(bytes),
                span_models(found@) == spans,
            decreases len - i, (if done { 0int } else { 1int }),
        {
            let at_end = i >= len;
            let at_break = !at_end && i + 1 < len && data[i] == NEWLINE && data[i + 1] == NEWLINE;
            if at_end || at_break {
                let ghost paragraph = Span { start: para_start as int, end: i as int };
                let ghost rest = if at_end {
                    Seq::<Span>::empty()
                } else {
                    paragraphs_from(bytes, i + 2, i + 2)
                };
                let ghost paras = paragraphs_from(bytes, para_start as int, i as int);
                let ghost entry = spans;
                let ghost held_before = span_of(buffer);
                proof {
                    assert(paras =~= seq![paragraph] + rest);
                    assert(paras[0] == paragraph);
                    assert(paras.drop_first() =~= rest);
                    if at_break {
                        lemma_boundary_around_ascii(bytes, i as int);
                        lemma_boundary_around_ascii(bytes, i + 1);
                    }
                }
                let paragraph_len = i - para_start;
                let mut held = buffer;
                match buffer {
                    Some((held_start, held_end)) => {
                        if (held_end - held_start) + paragraph_len > MAX_CHUNK_SIZE {
                            found.push((held_start, held_end));
                            proof {
                                spans = spans.push(Span { start: held_start as int, end: held_end as int });
                                assert(span_models(found@) =~= spans);
                            }
                            held = None;
                        }
                    },
                    None => {},
                }
                let grown: Option<(usize, usize)> = match held {
                    Some((held_start, _)) => Some((held_start, i)),
                    None => if paragraph_len > 0 {
                        Some((para_start, i))
                    } else {
                        None
                    },
                };
                assert(span_of(grown) == grow(
                    if overflows(held_before, paragraph) { None } else { held_before },
                    paragraph,
                ));
                let mut carry = grown;
                match grown {
                    Some((grown_start, grown_end)) => {
                        if grown_end - grown_start >= MIN_CHUNK_SIZE {
                            found.push((grown_start, grown_end));
                            proof {
                                spans = spans.push(Span { start: grown_start as int, end: grown_end as int });
                                assert(span_models(found@) =~= spans);
                            }
                            carry = None;
                        }
                    },
                    None => {},
                }
                proof {
                    let grown_model = span_of(grown);
                    let flushed = (if overflows(held_before, paragraph) {
                        seq![held_before->0]
                    } else {
                        seq![]
                    }) + (if is_full(grown_model) {
                        seq![grown_model->0]
                    } else {
                        seq![]
                    });
                    assert(spans =~= entry + flushed);
                    assert(pack(paras, held_before) == flushed + pack(rest, span_of(carry)));
                    assert(spans + pack(rest, span_of(carry)) =~= entry + pack(paras, held_before));
                }
                if at_end {
                    let ghost closing = spans;
                    match carry {
                        Some((carry_start, carry_end)) => {
                            found.push((carry_start, carry_end));
                            proof {
                                spans = spans.push(Span { start: carry_start as int, end: carry_end as int });
                                assert(span_models(found@) =~= spans);
                            }
                        },
                        None => {},
                    }
                    proof {
                        assert(spans =~= closing + pack(rest, span_of(carry)));
                    }
                    done = true;
                } else {
                    i = i + 2;
                    para_start = i;
                    buffer = carry;
                }
            } else {
                i = i + 1;
            }
        }
        found
    }

    /// Cuts the candidates out of a text and keeps each as a chunk unless
    /// an earlier candidate has the same content hash.
    fn cut_chunks(text: &str, path: &str, candidates: &Vec<(usize, usize)>) -> (chunks: Vec<FileChunk>)
        requires
            forall|k: int|
                0 <= k < candidates.len() ==> (#[trigger] span_models(candidates@)[k]).fits(text.spec_bytes()),
        ensures
            chunk_models(chunks@) == chunks_of_spans(
                text.spec_bytes(),
                path@,
                dedup(text.spec_bytes(), span_models(candidates@)),
            ),
            forall|i: int, j: int|
                0 <= i < j < chunks.len() ==> (#[trigger] chunks[i]).text@ != (#[trigger] chunks[j]).text@,
    {
        let ghost bytes = text.spec_bytes();
        let ghost spans = span_models(candidates@);
        let mut hashes: Vec<String> = Vec::new();
        let mut i: usize = 0;
        while i < candidates.len()
            invariant
                i <= candidates.len(),
                bytes == text.spec_bytes(),
                spans == span_models(candidates@),
                forall|k: int| 0 <= k < candidates.len() ==> (#[trigger] spans[k]).fits(bytes),
                hashes.len() == i,
                forall|k: int| 0 <= k < i ==> (#[trigger] hashes[k])@ == md5_hex(spans[k].slice(bytes)),
            decreases candidates.len() - i,
        {
            proof {
                assert(spans[i as int].fits(bytes));
            }
            let part = substr(text, candidates[i].0, candidates[i].1);
            hashes.push(content_hash(part.as_bytes()));
            i += 1;
        }
        assert(texts(hashes@) =~= span_keys(bytes, spans));
        let kept = first_occurrences_exec(&hashes);
        proof {
            lemma_first_occurrences(span_keys(bytes, spans));
            assert forall|q: int| 0 <= q < kept.len() implies #[trigger] dedup(bytes, spans)[q] == spans[kept[q] as int] by {
                assert(positions(kept@)[q] == kept[q] as int);
            }
        }
        let ghost wanted = dedup(bytes, spans);
        let mut chunks: Vec<FileChunk> = Vec::new();
        let mut p: usize = 0;
        while p < kept.len()
            invariant
                p <= kept.len(),
                bytes == text.spec_bytes(),
                spans == span_models(candidates@),
                wanted == dedup(bytes, spans),
                hashes.len() == candidates.len(),
                forall|k: int| 0 <= k < candidates.len() ==> (#[trigger] spans[k]).fits(bytes),
                wanted.len() == kept.len(),
                forall|q: int| 0 <= q < kept.len() ==> #[trigger] kept[q] < candidates.len(),
                forall|q: int| 0 <= q < kept.len() ==> #[trigger] wanted[q] == spans[kept[q] as int],
                chunks.len() == p,
                forall|q: int| 0 <= q < p ==> (#[trigger] chunks[q])@ == chunk_of(bytes, path@, wanted[q]),
            decreases kept.len() - p,
        {
            let pair = candidates[kept[p]];
            proof {
                assert(spans[kept[p as int] as int].fits(bytes));
                assert(wanted[p as int] == spans[kept[p as int] as int]);
            }
            let part = substr(text, pair.0, pair.1);
            proof {
                encode_utf8_decode_utf8(part@);
            }
            chunks.push(FileChunk { path: path.to_owned(), text: part.to_owned(), start_offset: pair.0 });
            p += 1;
        }
        proof {
            assert(chunk_models(chunks@) =~= chunks_of_spans(bytes, path@, wanted));
            lemma_chunk_texts_differ(bytes, path@, spans);
            let models = chunks_of_spans(bytes, path@, wanted);
            assert forall|i: int, j: int| 0 <= i < j < chunks.len() implies (#[trigger] chunks[i]).text@
                != (#[trigger] chunks[j]).text@ by {
                assert(chunk_models(chunks@)[i] == models[i]);
                assert(chunk_models(chunks@)[j] == models[j]);
            }
        }
        chunks
    }

    /// Cuts a text into overlapping fixed-size windows whose edges lie on
    /// character boundaries, and drops a window whose content an earlier one had.
    pub fn chunk_fixed_size_dedup(&self, text: &str, path: &str) -> (chunks: Vec<FileChunk>)
        ensures
            chunk_models(chunks@) == chunks_of_spans(
                text.spec_bytes(),
                path@,
                window_chunk_spans(text.spec_bytes()),
            ),
            forall|i: int, j: int|
                0 <= i < j < chunks.len() ==> (#[trigger] chunks[i]).text@ != (#[trigger] chunks[j]).text@,
    {
        let candidates = Self::window_spans(text);
        Self::cut_chunks(text, path, &candidates)
    }

    /// Cuts a text into chunks on paragraph boundaries: paragraphs are gathered
    /// until the buffer reaches the minimum size, or until the next paragraph
    /// would take it beyond the maximum. A chunk whose content an earlier chunk
    /// of the same text had is dropped. A text that yields no chunk this way is
    /// cut into fixed-size windows instead.
    ///
    /// A chunk's `start_offset` is the byte position at which its text starts.
    pub fn chunk_text(&self, text: &str, path: &str) -> (chunks: Vec<FileChunk>)
        ensures
            chunk_models(chunks@) == chunks_of(text@, path@),
            forall|i: int, j: int|
                0 <= i < j < chunks.len() ==> (#[trigger] chunks[i]).text@ != (#[trigger] chunks[j]).text@,
            forall|i: int, j: int|
                0 <= i < j < chunks.len() ==> (#[trigger] chunks[i]).start_offset < (#[trigger] chunks[j]).start_offset,
    {
        let ghost bytes = text.spec_bytes();
        let candidates = Self::paragraph_spans(text);
        let by_paragraph = Self::cut_chunks(text, path, &candidates);
        proof {
            assert(chunk_models(by_paragraph@).len() == paragraph_chunk_spans(bytes).len());
        }
        let chunks = if by_paragraph.len() == 0 {
            self.chunk_fixed_size_dedup(text, path)
        } else {
            by_paragraph
        };
        proof {
            assert(chunk_models(chunks@) == chunks_of(text@, path@));
            lemma_chunk_offsets_ascend(text@, path@);
            let models = chunks_of(text@, path@);
            assert forall|i: int, j: int| 0 <= i < j < chunks.len() implies (#[trigger] chunks[i]).start_offset < (
            #[trigger] chunks[j]).start_offset by {
                assert(chunk_models(chunks@)[i] == models[i]);
                assert(chunk_models(chunks@)[j] == models[j]);
            }
        }
        chunks
    }
}

} // verus!
