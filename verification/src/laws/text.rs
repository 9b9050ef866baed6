//! What the handling of text keeps and what it drops.

use vstd::prelude::*;

use crate::text::{
    decimal, is_blank, is_white_space, joined, lemma_word_len, lowercase, one_line, padded_to,
    trimmed, trimmed_end, trimmed_start, uppercase, word_len, words,
};

verus! {

/// Whether a text is another one without the white space behind its last visible character.
pub open spec fn is_body_of(part: Seq<char>, text: Seq<char>) -> bool {
    &&& part.len() <= text.len()
    &&& part == text.take(part.len() as int)
    &&& forall|i: int| part.len() <= i < text.len() ==> is_white_space(#[trigger] text[i])
    &&& part.len() > 0 ==> !is_white_space(part[part.len() - 1])
}

/// Cutting the end off a text cuts white space and nothing else, and all of it.
pub proof fn only_white_space_is_cut_from_the_end(text: Seq<char>)
    ensures
        is_body_of(trimmed_end(text), text),
        forall|part: Seq<char>| #[trigger] is_body_of(part, text) ==> part == trimmed_end(text),
    decreases text.len(),
{
    if text.len() > 0 && is_white_space(text.last()) {
        only_white_space_is_cut_from_the_end(text.drop_last());
        let part = trimmed_end(text);
        assert(text.drop_last().take(part.len() as int) =~= text.take(part.len() as int));
        assert forall|i: int| part.len() <= i < text.len() implies is_white_space(
            #[trigger] text[i],
        ) by {
            if i < text.len() - 1 {
                assert(text.drop_last()[i] == text[i]);
            }
        }
    } else {
        assert(text.take(text.len() as int) =~= text);
    }
    assert forall|part: Seq<char>| #[trigger] is_body_of(part, text) implies part == trimmed_end(
        text,
    ) by {
        let own = trimmed_end(text);
        if part.len() > own.len() {
            assert(part[part.len() - 1] == text[part.len() - 1]);
        } else if own.len() > part.len() {
            assert(own[own.len() - 1] == text[own.len() - 1]);
        }
    }
}

/// Cutting both ends off a text leaves what stands from its first visible character to its last.
pub proof fn only_white_space_is_cut_from_the_ends(text: Seq<char>)
    ensures
        exists|lo: int, hi: int|
            {
                &&& 0 <= lo <= hi <= text.len()
                &&& trimmed(text) == #[trigger] text.subrange(lo, hi)
                &&& is_blank(text.take(lo))
                &&& is_blank(text.skip(hi))
                &&& lo < hi ==> !is_white_space(text[lo]) && !is_white_space(text[hi - 1])
            },
{
    let lo = text.len() - trimmed_start(text).len();
    lemma_start(text);
    only_white_space_is_cut_from_the_end(trimmed_start(text));
    let rest = trimmed_start(text);
    let hi = lo + trimmed_end(rest).len();
    assert(trimmed(text) =~= text.subrange(lo, hi));
    assert forall|i: int| 0 <= i < text.skip(hi).len() implies is_white_space(
        #[trigger] text.skip(hi)[i],
    ) by {
        assert(rest[hi - lo + i] == text[hi + i]);
    }
    if lo < hi {
        assert(text[lo] == rest[0]);
        assert(text[hi - 1] == trimmed_end(rest)[hi - lo - 1]);
    }
}

proof fn lemma_start(text: Seq<char>)
    ensures
        trimmed_start(text).len() <= text.len(),
        trimmed_start(text) == text.skip(text.len() - trimmed_start(text).len()),
        is_blank(text.take(text.len() - trimmed_start(text).len())),
        trimmed_start(text).len() > 0 ==> !is_white_space(trimmed_start(text)[0]),
    decreases text.len(),
{
    if text.len() > 0 && is_white_space(text[0]) {
        let rest = text.drop_first();
        lemma_start(rest);
        let n = text.len() - trimmed_start(text).len();
        assert(rest.skip(n - 1) =~= text.skip(n));
        assert forall|i: int| 0 <= i < n implies is_white_space(#[trigger] text.take(n)[i]) by {
            if i > 0 {
                assert(rest.take(n - 1)[i - 1] == text[i]);
            }
        }
    } else {
        assert(text.skip(0) =~= text);
    }
}

/// The visible characters of a text.
pub open spec fn visible(text: Seq<char>) -> Seq<char> {
    text.filter(|c: char| !is_white_space(c))
}

/// A text on one line keeps every visible character, in order, and holds no line break: the only
/// white space in it is the space.
pub proof fn one_line_keeps_what_is_visible(text: Seq<char>)
    ensures
        visible(one_line(text)) == visible(text),
        forall|i: int|
            0 <= i < one_line(text).len() && is_white_space(#[trigger] one_line(text)[i])
                ==> one_line(text)[i] == ' ',
    decreases text.len(),
{
    lemma_words(text);
    lemma_joined_visible(words(text));
}

/// The visible characters of some words in a row.
spec fn run(parts: Seq<Seq<char>>) -> Seq<char>
    decreases parts.len(),
{
    if parts.len() == 0 {
        Seq::empty()
    } else {
        run(parts.drop_last()) + parts.last()
    }
}

/// Whether every part is a word.
spec fn all_words(parts: Seq<Seq<char>>) -> bool {
    forall|i: int| 0 <= i < parts.len() ==> is_word(#[trigger] parts[i])
}

spec fn is_word(part: Seq<char>) -> bool {
    part.len() > 0 && forall|j: int| 0 <= j < part.len() ==> !is_white_space(#[trigger] part[j])
}

proof fn lemma_run_append(a: Seq<Seq<char>>, b: Seq<Seq<char>>)
    ensures
        run(a + b) == run(a) + run(b),
    decreases b.len(),
{
    if b.len() == 0 {
        assert(a + b =~= a);
        assert(run(a) + run(b) =~= run(a));
    } else {
        assert((a + b).drop_last() =~= a + b.drop_last());
        lemma_run_append(a, b.drop_last());
        assert(run(a + b) =~= run(a) + run(b));
    }
}

proof fn lemma_visible_append(a: Seq<char>, b: Seq<char>)
    ensures
        visible(a + b) == visible(a) + visible(b),
    decreases b.len(),
{
    reveal(Seq::filter);
    if b.len() == 0 {
        assert(a + b =~= a);
        assert(visible(a) + visible(b) =~= visible(a));
    } else {
        assert((a + b).drop_last() =~= a + b.drop_last());
        lemma_visible_append(a, b.drop_last());
        assert(visible(a + b) =~= visible(a) + visible(b));
    }
}

proof fn lemma_visible_white(c: char)
    requires
        is_white_space(c),
    ensures
        visible(seq![c]) == Seq::<char>::empty(),
{
    reveal(Seq::filter);
    assert(seq![c].drop_last() =~= Seq::empty());
    assert(visible(seq![c].drop_last()) =~= Seq::empty());
}

proof fn lemma_visible_word(part: Seq<char>)
    requires
        forall|j: int| 0 <= j < part.len() ==> !is_white_space(#[trigger] part[j]),
    ensures
        visible(part) == part,
    decreases part.len(),
{
    reveal(Seq::filter);
    if part.len() > 0 {
        lemma_visible_word(part.drop_last());
        assert(visible(part) =~= part);
    }
}

proof fn lemma_words(text: Seq<char>)
    ensures
        all_words(words(text)),
        run(words(text)) == visible(text),
        words(text).len() == 0 <==> is_blank(text),
    decreases text.len(),
{
    reveal(Seq::filter);
    if text.len() == 0 {
        assert(visible(text) =~= Seq::empty());
    } else if is_white_space(text[0]) {
        let rest = text.drop_first();
        lemma_words(rest);
        assert(text =~= seq![text[0]] + rest);
        lemma_visible_append(seq![text[0]], rest);
        lemma_visible_white(text[0]);
        assert(visible(text) =~= visible(rest));
        if is_blank(rest) {
            assert forall|i: int| 0 <= i < text.len() implies is_white_space(#[trigger] text[i]) by {
                if i > 0 {
                    assert(rest[i - 1] == text[i]);
                }
            }
        } else {
            let i = choose|i: int| 0 <= i < rest.len() && !is_white_space(rest[i]);
            assert(text[i + 1] == rest[i]);
        }
    } else {
        lemma_word_len(text);
        let n = word_len(text);
        let rest = text.skip(n);
        lemma_words(rest);
        lemma_word_is_visible(text);
        let first = text.take(n);
        assert(text =~= first + rest);
        lemma_visible_append(first, rest);
        lemma_visible_word(first);
        lemma_run_append(seq![first], words(rest));
        assert(seq![first].drop_last() =~= Seq::<Seq<char>>::empty());
        assert(run(seq![first].drop_last()) =~= Seq::empty());
        assert(run(seq![first]) =~= first);
        assert(!is_blank(text)) by {
            assert(!is_white_space(text[0]));
        }
        assert forall|i: int| 0 <= i < words(text).len() implies is_word(
            #[trigger] words(text)[i],
        ) by {
            if i > 0 {
                assert(words(text)[i] == words(rest)[i - 1]);
            }
        }
    }
}

proof fn lemma_word_is_visible(text: Seq<char>)
    ensures
        0 <= word_len(text) <= text.len(),
        forall|j: int| 0 <= j < word_len(text) ==> !is_white_space(#[trigger] text[j]),
        word_len(text) < text.len() ==> is_white_space(text[word_len(text)]),
    decreases text.len(),
{
    if text.len() > 0 && !is_white_space(text[0]) {
        let rest = text.drop_first();
        lemma_word_is_visible(rest);
        assert forall|j: int| 0 <= j < word_len(text) implies !is_white_space(
            #[trigger] text[j],
        ) by {
            if j > 0 {
                assert(rest[j - 1] == text[j]);
            }
        }
    }
}

proof fn lemma_joined_visible(parts: Seq<Seq<char>>)
    requires
        all_words(parts),
    ensures
        visible(joined(parts, " "@)) == run(parts),
        forall|i: int|
            0 <= i < joined(parts, " "@).len() && is_white_space(#[trigger] joined(parts, " "@)[i])
                ==> joined(parts, " "@)[i] == ' ',
    decreases parts.len(),
{
    reveal(Seq::filter);
    reveal_strlit(" ");
    if parts.len() == 0 {
        assert(visible(joined(parts, " "@)) =~= Seq::empty());
    } else {
        let last = parts.last();
        assert(is_word(parts[parts.len() - 1]));
        lemma_visible_word(last);
        assert(all_words(parts.drop_last())) by {
            assert forall|i: int| 0 <= i < parts.drop_last().len() implies is_word(
                #[trigger] parts.drop_last()[i],
            ) by {
                assert(parts[i] == parts.drop_last()[i]);
            }
        }
        lemma_joined_visible(parts.drop_last());
        if parts.len() == 1 {
            assert(run(parts) =~= last);
        } else {
            let before = joined(parts.drop_last(), " "@);
            lemma_visible_append(before, " "@);
            lemma_visible_append(before + " "@, last);
            assert(" "@ =~= seq![' ']);
            lemma_visible_white(' ');
            assert(visible(joined(parts, " "@)) =~= run(parts));
        }
    }
}

/// Two texts with white space between them read on one line as each does, with one space between
/// them: no two words run together.
pub proof fn words_stay_apart(a: Seq<char>, white: char, b: Seq<char>)
    requires
        is_white_space(white),
    ensures
        one_line(a.push(white) + b) == if is_blank(a) {
            one_line(b)
        } else if is_blank(b) {
            one_line(a)
        } else {
            one_line(a) + seq![' '] + one_line(b)
        },
{
    lemma_words_apart(a, white, b);
    lemma_words(a);
    lemma_words(b);
    reveal_strlit(" ");
    assert(" "@ =~= seq![' ']);
    if is_blank(a) {
        assert(words(a) + words(b) =~= words(b));
    } else if is_blank(b) {
        assert(words(a) + words(b) =~= words(a));
    } else {
        lemma_joined_append(words(a), words(b));
    }
}

proof fn lemma_words_apart(a: Seq<char>, white: char, b: Seq<char>)
    requires
        is_white_space(white),
    ensures
        words(a.push(white) + b) == words(a) + words(b),
    decreases a.len(),
{
    let whole = a.push(white) + b;
    if a.len() == 0 {
        assert(whole.drop_first() =~= b);
        assert(words(a) + words(b) =~= words(b));
    } else if is_white_space(a[0]) {
        assert(whole.drop_first() =~= a.drop_first().push(white) + b);
        lemma_words_apart(a.drop_first(), white, b);
    } else {
        lemma_word_len(a);
        lemma_word_is_visible(a);
        lemma_word_is_visible(whole);
        let n = word_len(a);
        let m = word_len(whole);
        if m < n {
            assert(whole[m] == a[m]);
        }
        if m > n {
            assert(whole[n] == a.push(white)[n]);
            assert(is_white_space(whole[n]));
        }
        assert(m == n);
        assert(whole.take(n) =~= a.take(n));
        assert(whole.skip(n) =~= a.skip(n).push(white) + b);
        lemma_words_apart(a.skip(n), white, b);
        assert(words(whole) =~= words(a) + words(b));
    }
}

proof fn lemma_joined_append(a: Seq<Seq<char>>, b: Seq<Seq<char>>)
    requires
        a.len() > 0,
        b.len() > 0,
    ensures
        joined(a + b, " "@) == joined(a, " "@) + " "@ + joined(b, " "@),
    decreases b.len(),
{
    assert((a + b).drop_last() =~= a + b.drop_last());
    if b.len() == 1 {
        assert(a + b.drop_last() =~= a);
    } else {
        lemma_joined_append(a, b.drop_last());
        assert(joined(a + b, " "@) =~= joined(a, " "@) + " "@ + joined(b, " "@));
    }
}

/// What a row of digits stands for.
pub open spec fn value(digits: Seq<char>) -> int
    decreases digits.len(),
{
    if digits.len() == 0 {
        0
    } else {
        value(digits.drop_last()) * 10 + (digits.last() as int - '0' as int)
    }
}

/// A number reads back as it was written: as digits and nothing else, with no zero in front.
pub proof fn a_number_reads_back(n: nat)
    ensures
        value(decimal(n)) == n,
        decimal(n).len() > 0,
        decimal(n).len() > 1 ==> decimal(n)[0] != '0',
        decimal(n)[0] == '0' ==> n == 0,
        forall|i: int| 0 <= i < decimal(n).len() ==> '0' <= #[trigger] decimal(n)[i] <= '9',
    decreases n,
{
    if n < 10 {
        assert(decimal(n).drop_last() =~= Seq::empty());
        assert(value(decimal(n).drop_last()) == 0);
    } else {
        a_number_reads_back(n / 10);
        assert(decimal(n).drop_last() =~= decimal(n / 10));
    }
}

/// Padding adds spaces behind a text, as many as it takes and no more.
pub proof fn padding_only_adds_spaces(text: Seq<char>, width: nat)
    ensures
        padded_to(text, width).len() == if text.len() < width {
            width
        } else {
            text.len()
        },
        padded_to(text, width).take(text.len() as int) == text,
        forall|i: int|
            text.len() <= i < padded_to(text, width).len() ==> #[trigger] padded_to(text, width)[i]
                == ' ',
    decreases width - text.len(),
{
    if text.len() < width {
        let next = text.push(' ');
        padding_only_adds_spaces(next, width);
        assert(next.take(text.len() as int) =~= text);
        assert(padded_to(text, width).take(text.len() as int) =~= padded_to(text, width).take(
            next.len() as int,
        ).take(text.len() as int));
        assert(padded_to(text, width)[text.len() as int] == padded_to(text, width).take(
            next.len() as int,
        )[text.len() as int]);
    } else {
        assert(text.take(text.len() as int) =~= text);
    }
}

/// Spaces, tabs and line breaks are white, and nothing that is printed in ASCII is.
pub proof fn what_is_white(c: char)
    ensures
        c == ' ' || c == '\t' || c == '\n' || c == '\r' ==> is_white_space(c),
        '!' <= c <= '~' ==> !is_white_space(c),
{
}

/// A text is blank exactly where nothing of it is visible.
pub proof fn a_blank_text_shows_nothing(text: Seq<char>)
    ensures
        is_blank(text) <==> visible(text).len() == 0,
        is_blank(text) <==> trimmed(text).len() == 0,
    decreases text.len(),
{
    lemma_visible_or_blank(text);
    only_white_space_is_cut_from_the_ends(text);
    let (lo, hi) = choose|lo: int, hi: int|
        {
            &&& 0 <= lo <= hi <= text.len()
            &&& trimmed(text) == #[trigger] text.subrange(lo, hi)
            &&& is_blank(text.take(lo))
            &&& is_blank(text.skip(hi))
            &&& lo < hi ==> !is_white_space(text[lo]) && !is_white_space(text[hi - 1])
        };
    if lo == hi {
        assert forall|i: int| 0 <= i < text.len() implies is_white_space(#[trigger] text[i]) by {
            if i < lo {
                assert(text.take(lo)[i] == text[i]);
            } else {
                assert(text.skip(hi)[i - hi] == text[i]);
            }
        }
    }
}

proof fn lemma_visible_or_blank(text: Seq<char>)
    ensures
        is_blank(text) <==> visible(text).len() == 0,
    decreases text.len(),
{
    reveal(Seq::filter);
    if text.len() > 0 {
        let init = text.drop_last();
        lemma_visible_or_blank(init);
        if is_blank(text) {
            assert forall|i: int| 0 <= i < init.len() implies is_white_space(#[trigger] init[i]) by {
                assert(init[i] == text[i]);
            }
            assert(is_white_space(text[text.len() - 1]));
        } else if is_white_space(text.last()) {
            let i = choose|i: int| 0 <= i < text.len() && !is_white_space(#[trigger] text[i]);
            assert(init[i] == text[i]);
        }
    }
}

/// Making a text small changes its ASCII capitals and nothing else, and making it capital undoes
/// that.
pub proof fn only_letters_change_case(text: Seq<char>)
    ensures
        lowercase(text).len() == text.len(),
        uppercase(text).len() == text.len(),
        forall|i: int|
            0 <= i < text.len() ==> #[trigger] lowercase(text)[i] as int == text[i] as int + (
            if 'A' <= text[i] <= 'Z' {
                32int
            } else {
                0
            }),
        forall|i: int|
            0 <= i < text.len() ==> #[trigger] uppercase(text)[i] as int == text[i] as int - (
            if 'a' <= text[i] <= 'z' {
                32int
            } else {
                0
            }),
{
}

} // verus!
