//! Reading a growing text in slices, and a growing capture in complete records.
//!
//! Both are addressed by byte offset, and neither ever splits a character or a record.

use vstd::prelude::*;
use vstd::string::*;
use vstd::utf8::{
    decode_utf8, decode_utf8_split, encode_utf8, encode_utf8_decode_utf8, encode_utf8_valid_utf8,
    is_char_boundary, is_char_boundary_iff_not_is_continuation_byte,
    is_char_boundary_start_end_of_seq, partial_valid_partial_invalid_utf8, valid_utf8,
    valid_utf8_concat, valid_utf8_split,
};

use crate::stream::{lemma_newline_at, newline_at};
use crate::text::{chars_of, clip, clipped, text_between, trim, trimmed};

verus! {

/// A slice of the rendered transcript.
pub struct TranscriptPage {
    /// The text, from `offset`.
    pub text: String,
    /// Where this slice started.
    pub offset: u64,
    /// Where the next slice starts.
    /// Pass it back as the next `offset` or `cursor`.
    pub next_offset: u64,
    /// Total size of the rendered transcript right now.
    pub total_bytes: u64,
    /// Whether `next_offset` has reached the end of what exists so far.
    pub at_end: bool,
}

/// The last character boundary at or before a byte offset.
pub open spec fn boundary_before(bytes: Seq<u8>, i: int) -> int
    decreases i,
{
    if i <= 0 {
        0
    } else if is_char_boundary(bytes, i) {
        i
    } else {
        boundary_before(bytes, i - 1)
    }
}

/// The first character boundary at or behind a byte offset.
pub open spec fn boundary_after(bytes: Seq<u8>, i: int) -> int
    decreases bytes.len() - i,
{
    if i >= bytes.len() {
        bytes.len() as int
    } else if is_char_boundary(bytes, i) {
        i
    } else {
        boundary_after(bytes, i + 1)
    }
}

/// The smaller of two numbers.
pub open spec fn smaller_of(a: int, b: int) -> int {
    if a <= b {
        a
    } else {
        b
    }
}

/// Where a page asked for at an offset starts: at the character the offset falls into.
pub open spec fn page_start(bytes: Seq<u8>, offset: int) -> int {
    boundary_before(bytes, smaller_of(offset, bytes.len() as int))
}

/// Where a page ends: as many whole characters as fit, and one where none does.
pub open spec fn page_end(bytes: Seq<u8>, start: int, max_bytes: int) -> int {
    let end = boundary_before(bytes, smaller_of(start + max_bytes, bytes.len() as int));
    if end <= start && start < bytes.len() {
        boundary_after(bytes, start + 1)
    } else {
        end
    }
}

/// Looking back for a boundary finds the nearest one.
pub proof fn lemma_boundary_before(bytes: Seq<u8>, i: int)
    requires
        valid_utf8(bytes),
        0 <= i <= bytes.len(),
    ensures
        0 <= boundary_before(bytes, i) <= i,
        is_char_boundary(bytes, boundary_before(bytes, i)),
        forall|j: int| boundary_before(bytes, i) < j <= i ==> !is_char_boundary(bytes, j),
    decreases i,
{
    is_char_boundary_start_end_of_seq(bytes);
    if i > 0 && !is_char_boundary(bytes, i) {
        lemma_boundary_before(bytes, i - 1);
    }
}

/// Looking ahead for a boundary finds one.
pub proof fn lemma_boundary_after(bytes: Seq<u8>, i: int)
    requires
        valid_utf8(bytes),
        0 <= i <= bytes.len(),
    ensures
        i <= boundary_after(bytes, i) <= bytes.len(),
        is_char_boundary(bytes, boundary_after(bytes, i)),
    decreases bytes.len() - i,
{
    is_char_boundary_start_end_of_seq(bytes);
    if i < bytes.len() && !is_char_boundary(bytes, i) {
        lemma_boundary_after(bytes, i + 1);
    }
}

/// Where a boundary is known, looking for the last one at or before it finds it.
proof fn lemma_boundary_stays(bytes: Seq<u8>, low: int, i: int)
    requires
        valid_utf8(bytes),
        0 <= low <= i <= bytes.len(),
        is_char_boundary(bytes, low),
    ensures
        low <= boundary_before(bytes, i),
    decreases i,
{
    lemma_boundary_before(bytes, i);
}

/// No page splits a character, and every page of a text that is not used up moves on: it starts
/// and ends at the boundary of a character, and it ends behind its start unless nothing is left.
pub proof fn pages_make_progress(bytes: Seq<u8>, offset: int, max_bytes: int)
    requires
        valid_utf8(bytes),
        0 <= offset,
        0 <= max_bytes,
    ensures
        ({
            let start = page_start(bytes, offset);
            let end = page_end(bytes, start, max_bytes);
            &&& 0 <= start <= end <= bytes.len()
            &&& is_char_boundary(bytes, start)
            &&& is_char_boundary(bytes, end)
            &&& start < bytes.len() ==> start < end
            &&& valid_utf8(bytes.subrange(start, end))
        }),
{
    let len = bytes.len() as int;
    let start = page_start(bytes, offset);
    lemma_boundary_before(bytes, smaller_of(offset, len));
    lemma_boundary_before(bytes, smaller_of(start + max_bytes, len));
    lemma_boundary_stays(bytes, start, smaller_of(start + max_bytes, len));
    if start < len {
        lemma_boundary_after(bytes, start + 1);
    }
    let end = page_end(bytes, start, max_bytes);
    lemma_between(bytes, start, end);
}

/// What stands between two boundaries is whole characters.
proof fn lemma_between(bytes: Seq<u8>, start: int, end: int)
    requires
        valid_utf8(bytes),
        0 <= start <= end <= bytes.len(),
        is_char_boundary(bytes, start),
        is_char_boundary(bytes, end),
    ensures
        valid_utf8(bytes.subrange(start, end)),
        is_char_boundary(bytes.subrange(0, end), start),
{
    valid_utf8_split(bytes, end);
    let front = bytes.subrange(0, end);
    is_char_boundary_start_end_of_seq(front);
    if start < end {
        is_char_boundary_iff_not_is_continuation_byte(bytes, start);
        is_char_boundary_iff_not_is_continuation_byte(front, start);
        assert(front[start] == bytes[start]);
    }
    valid_utf8_split(front, start);
    assert(front.subrange(start, end) =~= bytes.subrange(start, end));
}

/// What a reader has who starts at an offset and follows each page to the next.
pub open spec fn read_on(bytes: Seq<u8>, from: int, max_bytes: int) -> Seq<u8>
    decreases bytes.len() - from,
{
    let end = page_end(bytes, from, max_bytes);
    if end <= from || end > bytes.len() {
        Seq::empty()
    } else {
        bytes.subrange(from, end) + read_on(bytes, end, max_bytes)
    }
}

/// Following each page to the next loses nothing and repeats nothing: the pages put together are
/// everything from where the reader started.
pub proof fn pages_cover_everything(bytes: Seq<u8>, from: int, max_bytes: int)
    requires
        valid_utf8(bytes),
        0 <= from <= bytes.len(),
        is_char_boundary(bytes, from),
        0 <= max_bytes,
    ensures
        read_on(bytes, from, max_bytes) == bytes.subrange(from, bytes.len() as int),
        page_start(bytes, from) == from,
    decreases bytes.len() - from,
{
    let end = page_end(bytes, from, max_bytes);
    pages_make_progress(bytes, from, max_bytes);
    assert(page_start(bytes, from) == from);
    if from < bytes.len() {
        pages_cover_everything(bytes, end, max_bytes);
        assert(bytes.subrange(from, end) + bytes.subrange(end, bytes.len() as int)
            =~= bytes.subrange(from, bytes.len() as int));
    } else {
        assert(bytes.subrange(from, bytes.len() as int) =~= Seq::empty());
    }
}

/// Two texts put together are written as the bytes of the first and then those of the second.
pub proof fn lemma_encode_concat(a: Seq<char>, b: Seq<char>)
    ensures
        encode_utf8(a + b) == encode_utf8(a) + encode_utf8(b),
    decreases a.len(),
{
    if a.len() == 0 {
        assert(a + b =~= b);
        assert(encode_utf8(a + b) =~= encode_utf8(a) + encode_utf8(b));
    } else {
        assert((a + b).drop_first() =~= a.drop_first() + b);
        lemma_encode_concat(a.drop_first(), b);
        assert(encode_utf8(a + b) =~= encode_utf8(a) + encode_utf8(b));
    }
}

/// Boundaries of a text stay boundaries when it grows, and none is added before its end.
proof fn lemma_boundaries_stay(a: Seq<u8>, b: Seq<u8>, i: int)
    requires
        valid_utf8(a),
        valid_utf8(b),
        0 <= i <= a.len(),
    ensures
        is_char_boundary(a + b, i) == is_char_boundary(a, i),
{
    valid_utf8_concat(a, b);
    is_char_boundary_start_end_of_seq(a);
    is_char_boundary_start_end_of_seq(b);
    is_char_boundary_start_end_of_seq(a + b);
    if i < a.len() {
        is_char_boundary_iff_not_is_continuation_byte(a, i);
        is_char_boundary_iff_not_is_continuation_byte(a + b, i);
        assert((a + b)[i] == a[i]);
    } else if b.len() == 0 {
        assert(a + b =~= a);
    } else {
        is_char_boundary_iff_not_is_continuation_byte(b, 0);
        is_char_boundary_iff_not_is_continuation_byte(a + b, i);
        assert((a + b)[i] == b[0]);
    }
}

proof fn lemma_same_boundary(a: Seq<u8>, b: Seq<u8>, i: int)
    requires
        valid_utf8(a),
        valid_utf8(b),
        0 <= i <= a.len(),
    ensures
        boundary_before(a + b, i) == boundary_before(a, i),
    decreases i,
{
    lemma_boundaries_stay(a, b, i);
    if i > 0 {
        lemma_same_boundary(a, b, i - 1);
    }
}

proof fn lemma_same_boundary_after(a: Seq<u8>, b: Seq<u8>, i: int)
    requires
        valid_utf8(a),
        valid_utf8(b),
        0 <= i <= a.len(),
    ensures
        boundary_after(a + b, i) == boundary_after(a, i),
    decreases a.len() - i,
{
    lemma_boundaries_stay(a, b, i);
    is_char_boundary_start_end_of_seq(a);
    if i < a.len() {
        lemma_same_boundary_after(a, b, i + 1);
    }
}

/// A page that was read stays what it was however much is appended: it starts where it started,
/// and unless it reached the end of the text it also ends where it ended.
pub proof fn a_page_outlives_growth(
    text: Seq<char>,
    more: Seq<char>,
    offset: int,
    max_bytes: int,
)
    requires
        0 <= offset <= encode_utf8(text).len(),
        0 <= max_bytes,
    ensures
        ({
            let before = encode_utf8(text);
            let after = encode_utf8(text + more);
            let start = page_start(before, offset);
            let end = page_end(before, start, max_bytes);
            &&& page_start(after, offset) == start
            &&& end < before.len() ==> page_end(after, start, max_bytes) == end
            &&& before.subrange(start, end) == after.subrange(start, end)
        }),
{
    let a = encode_utf8(text);
    let b = encode_utf8(more);
    lemma_encode_concat(text, more);
    encode_utf8_valid_utf8(text);
    encode_utf8_valid_utf8(more);
    encode_utf8_valid_utf8(text + more);
    let start = page_start(a, offset);
    let end = page_end(a, start, max_bytes);
    pages_make_progress(a, offset, max_bytes);
    lemma_same_boundary(a, b, offset);
    is_char_boundary_start_end_of_seq(a);
    if end < a.len() {
        let want = start + max_bytes;
        if want >= a.len() {
            assert(boundary_before(a, a.len() as int) == a.len());
        } else {
            lemma_same_boundary(a, b, want);
            lemma_same_boundary_after(a, b, start + 1);
        }
    }
    assert(a.subrange(start, end) =~= (a + b).subrange(start, end));
}

fn floor_char_boundary(text: &str, at: usize) -> (r: usize)
    requires
        at <= text.spec_bytes().len(),
    ensures
        r == boundary_before(text.spec_bytes(), at as int),
        is_char_boundary(text.spec_bytes(), r as int),
        r <= at,
{
    proof {
        encode_utf8_valid_utf8(text@);
        lemma_boundary_before(text.spec_bytes(), at as int);
    }
    let mut i: usize = at;
    while i > 0 && !text.is_char_boundary(i)
        invariant
            i <= at,
            boundary_before(text.spec_bytes(), at as int) == boundary_before(
                text.spec_bytes(),
                i as int,
            ),
        decreases i,
    {
        i = i - 1;
    }
    i
}

fn ceil_char_boundary(text: &str, at: usize) -> (r: usize)
    requires
        at <= text.spec_bytes().len(),
        text.spec_bytes().len() <= usize::MAX,
    ensures
        r == boundary_after(text.spec_bytes(), at as int),
        is_char_boundary(text.spec_bytes(), r as int),
        r <= text.spec_bytes().len(),
{
    proof {
        encode_utf8_valid_utf8(text@);
        lemma_boundary_after(text.spec_bytes(), at as int);
        is_char_boundary_start_end_of_seq(text.spec_bytes());
    }
    let mut i: usize = at;
    while !text.is_char_boundary(i)
        invariant
            at <= i <= text.spec_bytes().len(),
            text.spec_bytes().len() <= usize::MAX,
            boundary_after(text.spec_bytes(), at as int) == boundary_after(
                text.spec_bytes(),
                i as int,
            ),
            is_char_boundary(text.spec_bytes(), text.spec_bytes().len() as int),
        decreases text.spec_bytes().len() - i,
    {
        i = i + 1;
    }
    i
}

/// How many bytes a text has.
pub fn byte_len(text: &str) -> (r: usize)
    ensures
        r == text.spec_bytes().len(),
{
    text.as_bytes().len()
}

/// The text between two boundaries.
fn slice(text: &str, start: usize, end: usize) -> (r: String)
    requires
        start <= end <= text.spec_bytes().len(),
        is_char_boundary(text.spec_bytes(), start as int),
        is_char_boundary(text.spec_bytes(), end as int),
    ensures
        encode_utf8(r@) == text.spec_bytes().subrange(start as int, end as int),
{
    proof {
        encode_utf8_valid_utf8(text@);
        lemma_between(text.spec_bytes(), start as int, end as int);
    }
    let front = text.split_at(end).0;
    let part = front.split_at(start).1;
    assert(front.spec_bytes().subrange(start as int, end as int) =~= text.spec_bytes().subrange(
        start as int,
        end as int,
    ));
    part.to_owned()
}

/// Slice a render by byte offset without ever splitting a character.
///
/// A page smaller than the next character holds that one whole character: an empty page would
/// leave the cursor where it was, and a polling caller would spin forever.
pub fn page_of(full: &str, offset: u64, max_bytes: usize) -> (r: TranscriptPage)
    ensures
        r.total_bytes == encode_utf8(full@).len(),
        r.offset == page_start(encode_utf8(full@), offset as int),
        r.next_offset == page_end(encode_utf8(full@), r.offset as int, max_bytes as int),
        r.at_end == (r.next_offset >= r.total_bytes),
        encode_utf8(r.text@) == encode_utf8(full@).subrange(
            r.offset as int,
            r.next_offset as int,
        ),
{
    let ghost bytes = encode_utf8(full@);
    proof {
        encode_utf8_valid_utf8(full@);
        pages_make_progress(bytes, offset as int, max_bytes as int);
    }
    let len: usize = byte_len(full);
    let wanted: usize = if offset < len as u64 {
        offset as usize
    } else {
        len
    };
    let start: usize = floor_char_boundary(full, wanted);
    let limit: usize = if max_bytes < len - start {
        start + max_bytes
    } else {
        len
    };
    let mut end: usize = floor_char_boundary(full, limit);
    if end <= start && start < len {
        end = ceil_char_boundary(full, start + 1);
    }
    TranscriptPage {
        text: slice(full, start, end),
        offset: start as u64,
        next_offset: end as u64,
        total_bytes: len as u64,
        at_end: end >= len,
    }
}

/// The end of a text, of at most a number of bytes and back to the start of a character.
pub open spec fn tail_bytes(text: Seq<char>, max_bytes: int) -> Seq<u8> {
    let bytes = encode_utf8(text);
    if bytes.len() <= max_bytes {
        bytes
    } else {
        bytes.subrange(boundary_before(bytes, bytes.len() - max_bytes), bytes.len() as int)
    }
}

/// The end of a text.
///
/// Where the cut would fall into a character, the whole character is kept.
pub fn tail_of(text: &str, max_bytes: usize) -> (r: String)
    ensures
        encode_utf8(r@) == tail_bytes(text@, max_bytes as int),
{
    let len: usize = byte_len(text);
    if len <= max_bytes {
        return text.to_owned();
    }
    proof {
        encode_utf8_valid_utf8(text@);
        is_char_boundary_start_end_of_seq(encode_utf8(text@));
    }
    let start: usize = floor_char_boundary(text, len - max_bytes);
    slice(text, start, len)
}

/// The first line of a text that says anything, without the white space around it.
pub open spec fn first_said(s: Seq<char>) -> Seq<char>
    decreases s.len(),
{
    let end = newline_at(s);
    let line = trimmed(s.take(end));
    if line.len() > 0 || end >= s.len() {
        line
    } else {
        proof {
            lemma_newline_at(s);
        }
        first_said(s.skip(end + 1))
    }
}

/// The first line of a text that says anything, cut to a number of characters.
pub open spec fn headline(s: Seq<char>, max: nat) -> Seq<char> {
    clipped(first_said(s), max)
}

/// The first line of a text that says anything, truncated.
pub fn first_line(text: &str, max: usize) -> (r: String)
    ensures
        r@ == headline(text@, max as nat),
{
    let chars = chars_of(text);
    let mut start: usize = 0;
    let mut at: usize = 0;
    assert(chars@.skip(0) =~= chars@);
    while at < chars.len() && chars[at] != '\n'
        invariant
            start <= at <= chars.len(),
            chars@ == text@,
            start == 0,
            newline_at(chars@.skip(start as int)) == (at - start) + newline_at(
                chars@.skip(at as int),
            ),
        decreases chars.len() - at,
    {
        assert(chars@.skip(at as int).drop_first() =~= chars@.skip(at + 1));
        at = at + 1;
    }
    let ghost whole = first_said(text@);
    let mut line = trim(text_between(&chars, start, at).as_str());
    proof {
        assert(newline_at(chars@.skip(start as int)) == at - start);
        assert(chars@.skip(start as int).take(at - start) =~= chars@.subrange(
            start as int,
            at as int,
        ));
    }
    while line.as_str().is_empty() && at < chars.len()
        invariant
            start <= at <= chars.len(),
            chars@ == text@,
            at < chars.len() ==> chars@[at as int] == '\n',
            newline_at(chars@.skip(start as int)) == at - start,
            line@ == trimmed(chars@.skip(start as int).take(at - start)),
            first_said(chars@.skip(start as int)) == whole,
        decreases chars.len() - at,
    {
        assert(chars@.skip(start as int).skip(at - start + 1) =~= chars@.skip(at + 1));
        assert(line@.len() == 0);
        at = at + 1;
        start = at;
        assert(first_said(chars@.skip(start as int)) == whole);
        while at < chars.len() && chars[at] != '\n'
            invariant
                start <= at <= chars.len(),
                newline_at(chars@.skip(start as int)) == (at - start) + newline_at(
                    chars@.skip(at as int),
                ),
            decreases chars.len() - at,
        {
            assert(chars@.skip(at as int).drop_first() =~= chars@.skip(at + 1));
            at = at + 1;
        }
        line = trim(text_between(&chars, start, at).as_str());
        assert(chars@.skip(start as int).take(at - start) =~= chars@.subrange(
            start as int,
            at as int,
        ));
    }
    clip(line.as_str(), max)
}

/// How many bytes of a capture make up its complete records: those up to its last newline.
pub open spec fn records_len(bytes: Seq<u8>) -> int
    decreases bytes.len(),
{
    if bytes.len() == 0 || bytes.last() == 10u8 {
        bytes.len() as int
    } else {
        records_len(bytes.drop_last())
    }
}

/// The complete records of a capture, of which only so much is considered as a limit says.
pub open spec fn records_of(bytes: Seq<u8>, limit: Option<u64>) -> Seq<u8> {
    let considered = match limit {
        Some(limit) => bytes.take(smaller_of(limit as int, bytes.len() as int)),
        None => bytes,
    };
    considered.take(records_len(considered))
}

/// The text that bytes stand for, with a replacement for whatever stands for none.
pub uninterp spec fn lossy_text(bytes: Seq<u8>) -> Seq<char>;

/// The text that bytes stand for.
///
/// Calls `String::from_utf8_lossy`.
/// Bytes that are a text in UTF-8 give that text; what others give depends on them alone.
#[verifier::external_body]
fn lossy(bytes: &Vec<u8>) -> (r: String)
    ensures
        r@ == lossy_text(bytes@),
        valid_utf8(bytes@) ==> r@ == decode_utf8(bytes@),
{
    String::from_utf8_lossy(bytes).into_owned()
}

/// The text of a whole file, however it was written.
pub fn text_of_bytes(bytes: &Vec<u8>) -> (r: String)
    ensures
        r@ == lossy_text(bytes@),
        valid_utf8(bytes@) ==> r@ == decode_utf8(bytes@),
{
    lossy(bytes)
}

/// The complete records end at the last newline.
pub proof fn lemma_records_len(bytes: Seq<u8>)
    ensures
        0 <= records_len(bytes) <= bytes.len(),
        records_len(bytes) > 0 ==> bytes[records_len(bytes) - 1] == 10u8,
        forall|i: int| records_len(bytes) <= i < bytes.len() ==> bytes[i] != 10u8,
    decreases bytes.len(),
{
    if bytes.len() > 0 && bytes.last() != 10u8 {
        let front = bytes.drop_last();
        lemma_records_len(front);
        assert forall|i: int| records_len(bytes) <= i < bytes.len() implies bytes[i] != 10u8 by {
            if i < front.len() {
                assert(front[i] != 10u8);
            }
        }
    }
}

/// The complete, newline-terminated records of a capture, and how many bytes they span.
///
/// A live child is appending, so a capture routinely ends mid-line and often mid-character.
/// Cutting at the last newline first means only complete records are decoded.
/// With a `limit` only that many bytes are considered at all: it is the length a settled turn's
/// record froze, and it applies to the raw bytes, so that it means the same thing whether or not
/// they decode cleanly.
pub fn complete_records(capture: &Vec<u8>, limit: Option<u64>) -> (r: (String, u64))
    ensures
        r.0@ == lossy_text(records_of(capture@, limit)),
        valid_utf8(records_of(capture@, limit)) ==> r.0@ == decode_utf8(
            records_of(capture@, limit),
        ),
        r.1 == records_of(capture@, limit).len(),
{
    let considered: usize = match limit {
        Some(limit) => if limit < capture.len() as u64 {
            limit as usize
        } else {
            capture.len()
        },
        None => capture.len(),
    };
    let ghost all = capture@.take(considered as int);
    assert(limit is None ==> all =~= capture@);
    let mut end: usize = considered;
    assert(all.take(end as int) =~= all);
    while end > 0 && capture[end - 1] != 10u8
        invariant
            end <= considered <= capture.len(),
            all == capture@.take(considered as int),
            records_len(all.take(end as int)) == records_len(all),
        decreases end,
    {
        assert(all.take(end as int).last() == capture@[end - 1]);
        assert(all.take(end as int).drop_last() =~= all.take(end - 1));
        end = end - 1;
    }
    proof {
        if end > 0 {
            assert(all.take(end as int).last() == capture@[end - 1]);
        }
        assert(records_len(all) == end);
    }
    let mut kept: Vec<u8> = Vec::new();
    let mut i: usize = 0;
    while i < end
        invariant
            i <= end <= considered <= capture.len(),
            kept@ == capture@.take(i as int),
        decreases end - i,
    {
        kept.push(capture[i]);
        assert(kept@ =~= capture@.take(i + 1));
        i = i + 1;
    }
    assert(kept@ =~= records_of(capture@, limit));
    (lossy(&kept), end as u64)
}

proof fn lemma_records_len_is(bytes: Seq<u8>, n: int)
    requires
        0 <= n <= bytes.len(),
        n > 0 ==> bytes[n - 1] == 10u8,
        forall|i: int| n <= i < bytes.len() ==> bytes[i] != 10u8,
    ensures
        records_len(bytes) == n,
{
    lemma_records_len(bytes);
    let m = records_len(bytes);
    if n < m {
        assert(bytes[m - 1] == 10u8);
    }
}

/// A frozen length keeps its meaning: reading no further than the records spanned when they were
/// frozen yields exactly those records, whatever was appended since.
pub proof fn frozen_records_stay(capture: Seq<u8>, later: Seq<u8>, limit: u64)
    requires
        capture.is_prefix_of(later),
        limit == records_of(capture, None).len(),
    ensures
        records_of(later, Some(limit)) == records_of(capture, None),
{
    lemma_records_len(capture);
    let n = records_len(capture);
    let cut = later.take(n);
    assert(cut =~= capture.take(n));
    lemma_records_len_is(cut, n);
    assert(cut.take(n) =~= cut);
}

/// Records that were complete stay: appending to a capture only appends records.
pub proof fn complete_records_only_grow(capture: Seq<u8>, later: Seq<u8>)
    requires
        capture.is_prefix_of(later),
    ensures
        records_of(capture, None).is_prefix_of(records_of(later, None)),
{
    lemma_records_len(capture);
    lemma_records_len(later);
    let n = records_len(capture);
    let m = records_len(later);
    if n > m {
        assert(later[n - 1] == capture[n - 1]);
    }
    assert(capture.take(n) =~= later.take(m).take(n));
}

proof fn lemma_end_of_first(a: Seq<u8>, b: Seq<u8>)
    requires
        valid_utf8(a),
        valid_utf8(b),
    ensures
        valid_utf8(a + b),
        is_char_boundary(a + b, a.len() as int),
        decode_utf8(a + b) == decode_utf8(a) + decode_utf8(b),
{
    valid_utf8_concat(a, b);
    is_char_boundary_start_end_of_seq(a);
    lemma_boundaries_stay(a, b, a.len() as int);
    decode_utf8_split(a + b, a.len() as int);
    assert((a + b).subrange(0, a.len() as int) =~= a);
    assert((a + b).subrange(a.len() as int, (a + b).len() as int) =~= b);
}

/// The text of the complete records only grows, where they are text at all: what was read of a
/// capture stands unchanged at the start of what is read later.
pub proof fn complete_text_only_grows(capture: Seq<u8>, later: Seq<u8>)
    requires
        capture.is_prefix_of(later),
        valid_utf8(records_of(capture, None)),
        valid_utf8(records_of(later, None)),
    ensures
        decode_utf8(records_of(capture, None)).is_prefix_of(decode_utf8(records_of(later, None))),
{
    complete_records_only_grow(capture, later);
    let a = records_of(capture, None);
    let whole = records_of(later, None);
    let b = whole.skip(a.len() as int);
    assert(whole =~= a + b);
    if !valid_utf8(b) {
        assert(whole.subrange(0, a.len() as int) =~= a);
        assert(whole.subrange(a.len() as int, whole.len() as int) =~= b);
        partial_valid_partial_invalid_utf8(whole, a.len() as int);
    }
    lemma_end_of_first(a, b);
}

/// Every character of a page is one the text has at that place: put between what stands before
/// the page and what stands behind it, the page makes the whole text again.
pub proof fn a_page_is_a_part(full: Seq<char>, page: Seq<char>, start: int, end: int)
    requires
        0 <= start <= end <= encode_utf8(full).len(),
        is_char_boundary(encode_utf8(full), start),
        is_char_boundary(encode_utf8(full), end),
        encode_utf8(page) == encode_utf8(full).subrange(start, end),
    ensures
        exists|before: Seq<char>, after: Seq<char>|
            full == #[trigger] ((before + page) + after),
{
    let bytes = encode_utf8(full);
    encode_utf8_valid_utf8(full);
    encode_utf8_decode_utf8(full);
    encode_utf8_decode_utf8(page);
    lemma_between(bytes, start, end);
    let front = bytes.subrange(0, end);
    decode_utf8_split(bytes, end);
    valid_utf8_split(bytes, end);
    decode_utf8_split(front, start);
    assert(front.subrange(start, end) =~= bytes.subrange(start, end));
    let before = decode_utf8(front.subrange(0, start));
    let after = decode_utf8(bytes.subrange(end, bytes.len() as int));
    assert(full =~= (before + page) + after);
}

} // verus!
