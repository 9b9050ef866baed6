//! What a reader of a growing text is given.

use vstd::prelude::*;
use vstd::utf8::{
    encode_utf8, encode_utf8_valid_utf8, is_char_boundary, is_char_boundary_start_end_of_seq,
    valid_utf8,
};

use crate::laws::settle::lemma_not_blank;
use crate::laws::text::only_white_space_is_cut_from_the_ends;
use crate::run::paging::{
    boundary_after, first_said, lemma_boundary_after, lemma_boundary_before,
    lemma_records_len, page_end, page_start, records_len, records_of, tail_bytes,
};
use crate::stream::{complete_lines_of, lemma_newline_at, lines_of, newline_at};
use crate::text::{is_blank, is_white_space, trimmed};

verus! {

/// A page starts at the character that was asked for, or at the end where nothing is left there.
pub proof fn a_page_starts_where_it_was_asked_for(bytes: Seq<u8>, offset: int)
    requires
        valid_utf8(bytes),
        0 <= offset,
    ensures
        ({
            let start = page_start(bytes, offset);
            &&& 0 <= start <= offset
            &&& offset >= bytes.len() ==> start == bytes.len()
            &&& is_char_boundary(bytes, start)
            &&& forall|j: int| start < j <= offset && j <= bytes.len() ==> !is_char_boundary(bytes, j)
        }),
{
    is_char_boundary_start_end_of_seq(bytes);
    lemma_boundary_before(
        bytes,
        if offset <= bytes.len() {
            offset
        } else {
            bytes.len() as int
        },
    );
}

/// A page holds as many whole characters as fit: it is no longer than was asked for, unless it is
/// one single character, and no further character would have fitted.
pub proof fn a_page_is_as_long_as_was_asked_for(bytes: Seq<u8>, start: int, max_bytes: int)
    requires
        valid_utf8(bytes),
        0 <= start <= bytes.len(),
        is_char_boundary(bytes, start),
        0 <= max_bytes,
    ensures
        ({
            let end = page_end(bytes, start, max_bytes);
            &&& start <= end <= bytes.len()
            &&& is_char_boundary(bytes, end)
            &&& end - start <= max_bytes || forall|j: int|
                start < j < end ==> !is_char_boundary(bytes, j)
            &&& forall|j: int|
                end < j <= start + max_bytes && j <= bytes.len() ==> !is_char_boundary(bytes, j)
        }),
{
    is_char_boundary_start_end_of_seq(bytes);
    let limit = if start + max_bytes <= bytes.len() {
        start + max_bytes
    } else {
        bytes.len() as int
    };
    lemma_boundary_before(bytes, limit);
    if start < bytes.len() {
        lemma_boundary_after(bytes, start + 1);
        lemma_next_boundary(bytes, start + 1);
    }
}

proof fn lemma_next_boundary(bytes: Seq<u8>, i: int)
    requires
        0 <= i <= bytes.len(),
    ensures
        forall|j: int| i <= j < boundary_after(bytes, i) ==> !is_char_boundary(bytes, j),
    decreases bytes.len() - i,
{
    if i < bytes.len() && !is_char_boundary(bytes, i) {
        lemma_next_boundary(bytes, i + 1);
    }
}

/// The tail of a text is its end: all of it where it is short, and otherwise at least as much as was
/// asked for, from the start of a character, with no whole character too many.
pub proof fn a_tail_is_the_end(text: Seq<char>, max_bytes: int)
    requires
        0 <= max_bytes,
    ensures
        ({
            let bytes = encode_utf8(text);
            let tail = tail_bytes(text, max_bytes);
            let start = bytes.len() - tail.len();
            &&& tail.len() <= bytes.len()
            &&& tail == bytes.subrange(start, bytes.len() as int)
            &&& is_char_boundary(bytes, start)
            &&& bytes.len() <= max_bytes ==> start == 0
            &&& bytes.len() > max_bytes ==> tail.len() >= max_bytes && forall|j: int|
                start < j <= bytes.len() - max_bytes ==> !is_char_boundary(bytes, j)
        }),
{
    let bytes = encode_utf8(text);
    encode_utf8_valid_utf8(text);
    is_char_boundary_start_end_of_seq(bytes);
    if bytes.len() > max_bytes {
        lemma_boundary_before(bytes, bytes.len() - max_bytes);
    } else {
        assert(bytes.subrange(0, bytes.len() as int) =~= bytes);
    }
}

/// The complete records of a capture are what stands up to the last newline within the limit: they
/// are the start of the capture, they end with a newline, and no newline within the limit stands
/// behind them.
pub proof fn records_end_at_the_last_newline(bytes: Seq<u8>, limit: Option<u64>)
    ensures
        ({
            let records = records_of(bytes, limit);
            let bound = if limit is Some && limit->Some_0 < bytes.len() {
                limit->Some_0 as int
            } else {
                bytes.len() as int
            };
            &&& records.len() <= bound
            &&& records == bytes.take(records.len() as int)
            &&& records.len() > 0 ==> records[records.len() - 1] == 10u8
            &&& forall|i: int| records.len() <= i < bound ==> #[trigger] bytes[i] != 10u8
        }),
{
    let bound = if limit is Some && limit->Some_0 < bytes.len() {
        limit->Some_0 as int
    } else {
        bytes.len() as int
    };
    let considered = bytes.take(bound);
    assert(bytes.take(bytes.len() as int) =~= bytes);
    lemma_records_len(considered);
    let n = records_len(considered);
    assert(records_of(bytes, limit) =~= considered.take(n));
    assert(considered.take(n) =~= bytes.take(n));
    assert forall|i: int| n <= i < bound implies #[trigger] bytes[i] != 10u8 by {
        assert(considered[i] == bytes[i]);
    }
}

/// Whether a text is one line, without the newline that ends it.
pub open spec fn is_one_line(text: Seq<char>) -> bool {
    forall|i: int| 0 <= i < text.len() ==> #[trigger] text[i] != '\n'
}

proof fn lemma_first_newline(line: Seq<char>, rest: Seq<char>)
    requires
        is_one_line(line),
    ensures
        newline_at(line) == line.len(),
        newline_at(line.push('\n') + rest) == line.len(),
    decreases line.len(),
{
    let whole = line.push('\n') + rest;
    if line.len() > 0 {
        assert(line[0] != '\n');
        assert(whole[0] == line[0]);
        let less = line.drop_first();
        assert forall|i: int| 0 <= i < less.len() implies #[trigger] less[i] != '\n' by {
            assert(less[i] == line[i + 1]);
        }
        assert(whole.drop_first() =~= less.push('\n') + rest);
        lemma_first_newline(less, rest);
    } else {
        assert(whole[0] == '\n');
    }
}

/// Every line that a newline ends is read, without the white space around it, and a blank one is
/// not; what no newline ends yet is not read at all.
pub proof fn every_complete_line_is_read(line: Seq<char>, rest: Seq<char>)
    requires
        is_one_line(line),
    ensures
        complete_lines_of(line) == Seq::<Seq<char>>::empty(),
        complete_lines_of(line.push('\n') + rest) == if is_blank(line) {
            complete_lines_of(rest)
        } else {
            seq![trimmed(line)] + complete_lines_of(rest)
        },
{
    lemma_first_newline(line, rest);
    let whole = line.push('\n') + rest;
    assert(whole.take(line.len() as int) =~= line);
    assert(whole.skip(line.len() as int + 1) =~= rest);
    if is_blank(line) {
        only_white_space_is_cut_from_the_ends(line);
        let (lo, hi) = choose|lo: int, hi: int|
            {
                &&& 0 <= lo <= hi <= line.len()
                &&& trimmed(line) == #[trigger] line.subrange(lo, hi)
                &&& is_blank(line.take(lo))
                &&& is_blank(line.skip(hi))
                &&& lo < hi ==> !is_white_space(line[lo]) && !is_white_space(line[hi - 1])
            };
        assert(lo == hi);
    } else {
        lemma_not_blank(line);
    }
}

/// The lines of a text are what stands between its newlines, and a carriage return in front of a
/// newline belongs to it.
pub proof fn every_line_is_a_line(line: Seq<char>, rest: Seq<char>)
    requires
        is_one_line(line),
    ensures
        lines_of(line) == if line.len() == 0 {
            Seq::empty()
        } else {
            seq![line]
        },
        lines_of(line.push('\n') + rest) == seq![
            if line.len() > 0 && line[line.len() - 1] == '\r' {
                line.take(line.len() - 1)
            } else {
                line
            },
        ] + lines_of(rest),
{
    lemma_first_newline(line, rest);
    let whole = line.push('\n') + rest;
    assert(whole.take(line.len() as int) =~= line);
    assert(whole.skip(line.len() as int + 1) =~= rest);
    if line.len() > 0 {
        assert(line.take(line.len() - 1) =~= line.drop_last());
    }
}

/// The headline of a text is its first line that says anything, whatever blank lines stand before
/// it.
pub proof fn the_headline_is_the_first_line_that_says_anything(line: Seq<char>, rest: Seq<char>)
    requires
        is_one_line(line),
    ensures
        first_said(line) == trimmed(line),
        first_said(line.push('\n') + rest) == if is_blank(line) {
            first_said(rest)
        } else {
            trimmed(line)
        },
{
    lemma_first_newline(line, rest);
    let whole = line.push('\n') + rest;
    assert(whole.take(line.len() as int) =~= line);
    assert(whole.skip(line.len() as int + 1) =~= rest);
    assert(line.take(line.len() as int) =~= line);
    if is_blank(line) {
        only_white_space_is_cut_from_the_ends(line);
        let (lo, hi) = choose|lo: int, hi: int|
            {
                &&& 0 <= lo <= hi <= line.len()
                &&& trimmed(line) == #[trigger] line.subrange(lo, hi)
                &&& is_blank(line.take(lo))
                &&& is_blank(line.skip(hi))
                &&& lo < hi ==> !is_white_space(line[lo]) && !is_white_space(line[hi - 1])
            };
        assert(lo == hi);
    } else {
        lemma_not_blank(line);
    }
}

} // verus!
