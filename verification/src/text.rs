//! Text as the rest of the crate needs it: sequences of characters with exact meanings.
//!
//! Every function here is stated over the characters of a string, so the modules above can say
//! what they produce without speaking of bytes or buffers.

use vstd::prelude::*;
use vstd::string::*;

verus! {

/// `String::push` appends one character.
pub assume_specification[ String::push ](s: &mut String, c: char)
    ensures
        final(s)@ == old(s)@.push(c),
;

/// The characters of each string of a list.
pub open spec fn texts(list: Seq<String>) -> Seq<Seq<char>> {
    list.map_values(|s: String| s@)
}

/// Appending a string to a list appends its characters to the list of texts.
pub proof fn lemma_texts_push(list: Seq<String>, s: String)
    ensures
        texts(list.push(s)) == texts(list).push(s@),
{
    assert(texts(list.push(s)) =~= texts(list).push(s@));
}

/// Whether a list of strings holds a given text.
pub open spec fn listed(list: Seq<String>, name: Seq<char>) -> bool {
    exists|i: int| 0 <= i < list.len() && #[trigger] list[i]@ == name
}

/// The characters of a string that may be absent.
pub open spec fn text_of(s: Option<String>) -> Option<Seq<char>> {
    match s {
        Some(s) => Some(s@),
        None => None,
    }
}

/// A copy of a list of texts.
pub fn copied(list: &Vec<String>) -> (r: Vec<String>)
    ensures
        texts(r@) == texts(list@),
{
    let mut out: Vec<String> = Vec::new();
    let mut i: usize = 0;
    assert(texts(out@) =~= texts(list@).take(0));
    while i < list.len()
        invariant
            i <= list.len(),
            texts(out@) == texts(list@).take(i as int),
        decreases list.len() - i,
    {
        let item = list[i].clone();
        proof {
            lemma_texts_push(out@, item);
            assert(texts(list@).take(i + 1) =~= texts(list@).take(i as int).push(item@));
        }
        out.push(item);
        i = i + 1;
    }
    assert(texts(list@).take(i as int) =~= texts(list@));
    out
}

/// Whether two strings hold the same characters.
pub fn same(a: &str, b: &str) -> (r: bool)
    ensures
        r == (a@ == b@),
{
    a.to_owned() == b.to_owned()
}

/// Whether a list of strings holds a given text.
pub fn list_holds(list: &Vec<String>, name: &str) -> (r: bool)
    ensures
        r == listed(list@, name@),
{
    let mut i: usize = 0;
    while i < list.len()
        invariant
            i <= list.len(),
            forall|j: int| 0 <= j < i ==> (#[trigger] list@[j])@ != name@,
        decreases list.len() - i,
    {
        if same(list[i].as_str(), name) {
            assert(list@[i as int]@ == name@);
            return true;
        }
        i = i + 1;
    }
    false
}

/// The characters of a string, one by one.
pub fn chars_of(s: &str) -> (r: Vec<char>)
    ensures
        r@ == s@,
{
    let mut out: Vec<char> = Vec::new();
    for c in it: s.chars()
        invariant
            out@ == s@.take(it.index()),
            it.seq() == s@,
    {
        out.push(c);
    }
    out
}

/// The string made of the characters from `from` up to, not including, `to`.
pub fn text_between(chars: &Vec<char>, from: usize, to: usize) -> (r: String)
    requires
        from <= to <= chars.len(),
    ensures
        r@ == chars@.subrange(from as int, to as int),
{
    let mut out = String::new();
    let mut i: usize = from;
    while i < to
        invariant
            from <= i <= to <= chars.len(),
            out@ == chars@.subrange(from as int, i as int),
        decreases to - i,
    {
        out.push(chars[i]);
        i = i + 1;
        assert(chars@.subrange(from as int, i as int) =~= chars@.subrange(
            from as int,
            i - 1,
        ).push(chars@[i - 1]));
    }
    out
}

/// Whether a character has the Unicode `White_Space` property.
pub open spec fn is_white_space(c: char) -> bool {
    let u = c as int;
    ||| 0x9 <= u <= 0xd
    ||| u == 0x20
    ||| u == 0x85
    ||| u == 0xa0
    ||| u == 0x1680
    ||| 0x2000 <= u <= 0x200a
    ||| u == 0x2028
    ||| u == 0x2029
    ||| u == 0x202f
    ||| u == 0x205f
    ||| u == 0x3000
}

/// Whether a character has the Unicode `White_Space` property.
pub fn white_space(c: char) -> (r: bool)
    ensures
        r == is_white_space(c),
{
    let u: u32 = c as u32;
    (0x9 <= u && u <= 0xd) || u == 0x20 || u == 0x85 || u == 0xa0 || u == 0x1680 || (0x2000 <= u
        && u <= 0x200a) || u == 0x2028 || u == 0x2029 || u == 0x202f || u == 0x205f || u == 0x3000
}

/// Whether a text holds nothing but white space.
pub open spec fn is_blank(s: Seq<char>) -> bool {
    forall|i: int| 0 <= i < s.len() ==> is_white_space(#[trigger] s[i])
}

/// Whether a text holds nothing but white space.
pub fn blank(s: &str) -> (r: bool)
    ensures
        r == is_blank(s@),
{
    let chars = chars_of(s);
    let mut i: usize = 0;
    while i < chars.len()
        invariant
            i <= chars.len(),
            chars@ == s@,
            forall|j: int| 0 <= j < i ==> is_white_space(#[trigger] s@[j]),
        decreases chars.len() - i,
    {
        if !white_space(chars[i]) {
            assert(!is_white_space(s@[i as int]));
            return false;
        }
        i = i + 1;
    }
    true
}

/// A text without the white space at its start.
pub open spec fn trimmed_start(s: Seq<char>) -> Seq<char>
    decreases s.len(),
{
    if s.len() > 0 && is_white_space(s[0]) {
        trimmed_start(s.drop_first())
    } else {
        s
    }
}

/// A text without the white space at its end.
pub open spec fn trimmed_end(s: Seq<char>) -> Seq<char>
    decreases s.len(),
{
    if s.len() > 0 && is_white_space(s.last()) {
        trimmed_end(s.drop_last())
    } else {
        s
    }
}

/// A text without the white space at either end.
pub open spec fn trimmed(s: Seq<char>) -> Seq<char> {
    trimmed_end(trimmed_start(s))
}

fn start_of(chars: &Vec<char>) -> (r: usize)
    ensures
        r <= chars.len(),
        chars@.skip(r as int) == trimmed_start(chars@),
{
    let mut lo: usize = 0;
    assert(chars@.skip(0) =~= chars@);
    while lo < chars.len() && white_space(chars[lo])
        invariant
            lo <= chars.len(),
            trimmed_start(chars@.skip(lo as int)) == trimmed_start(chars@),
        decreases chars.len() - lo,
    {
        assert(chars@.skip(lo as int).drop_first() =~= chars@.skip(lo + 1));
        lo = lo + 1;
    }
    lo
}

fn end_of(chars: &Vec<char>, lo: usize) -> (r: usize)
    requires
        lo <= chars.len(),
    ensures
        lo <= r <= chars.len(),
        chars@.subrange(lo as int, r as int) == trimmed_end(chars@.skip(lo as int)),
{
    let mut hi: usize = chars.len();
    assert(chars@.subrange(lo as int, hi as int) =~= chars@.skip(lo as int));
    while hi > lo && white_space(chars[hi - 1])
        invariant
            lo <= hi <= chars.len(),
            trimmed_end(chars@.subrange(lo as int, hi as int)) == trimmed_end(
                chars@.skip(lo as int),
            ),
        decreases hi,
    {
        assert(chars@.subrange(lo as int, hi as int).drop_last() =~= chars@.subrange(
            lo as int,
            hi - 1,
        ));
        hi = hi - 1;
    }
    hi
}

/// A text without the white space at either end.
pub fn trim(s: &str) -> (r: String)
    ensures
        r@ == trimmed(s@),
{
    let chars = chars_of(s);
    let lo: usize = start_of(&chars);
    let hi: usize = end_of(&chars, lo);
    text_between(&chars, lo, hi)
}

/// A text without the white space at its end.
pub fn trim_end(s: &str) -> (r: String)
    ensures
        r@ == trimmed_end(s@),
{
    let chars = chars_of(s);
    assert(chars@.skip(0) =~= chars@);
    let hi: usize = end_of(&chars, 0);
    text_between(&chars, 0, hi)
}

/// Whether `needle` stands in `text` at position `i`.
pub open spec fn occurs_at(text: Seq<char>, needle: Seq<char>, i: int) -> bool {
    &&& 0 <= i
    &&& i + needle.len() <= text.len()
    &&& text.subrange(i, i + needle.len()) == needle
}

/// Whether `needle` stands somewhere in `text`.
pub open spec fn occurs(text: Seq<char>, needle: Seq<char>) -> bool {
    exists|i: int| occurs_at(text, needle, i)
}

fn matches_at(text: &Vec<char>, needle: &Vec<char>, at: usize) -> (r: bool)
    requires
        at <= text.len(),
    ensures
        r == occurs_at(text@, needle@, at as int),
{
    if needle.len() > text.len() - at {
        return false;
    }
    let mut i: usize = 0;
    while i < needle.len()
        invariant
            i <= needle.len(),
            at + needle.len() <= text.len(),
            forall|j: int| 0 <= j < i ==> text@[at + j] == #[trigger] needle@[j],
        decreases needle.len() - i,
    {
        if text[at + i] != needle[i] {
            assert(text@.subrange(at as int, at + needle.len())[i as int] != needle@[i as int]);
            return false;
        }
        i = i + 1;
    }
    assert(text@.subrange(at as int, at + needle.len()) =~= needle@);
    true
}

/// Whether `needle` stands somewhere in `text`.
pub fn contains(text: &str, needle: &str) -> (r: bool)
    ensures
        r == occurs(text@, needle@),
{
    let t = chars_of(text);
    let n = chars_of(needle);
    let mut i: usize = 0;
    while i <= t.len()
        invariant
            i <= t.len() + 1,
            t@ == text@,
            n@ == needle@,
            forall|j: int| 0 <= j < i ==> !occurs_at(text@, needle@, j),
        decreases t.len() + 1 - i,
    {
        if matches_at(&t, &n, i) {
            return true;
        }
        if i == t.len() {
            return false;
        }
        i = i + 1;
    }
    false
}

/// Whether a character is a letter or a digit in any script, as Unicode has it.
pub uninterp spec fn is_alphanumeric(c: char) -> bool;

/// `char::is_alphanumeric` depends on its character alone: it answers by the Unicode properties
/// `Alphabetic` and the numeric categories.
pub assume_specification[ char::is_alphanumeric ](c: char) -> (r: bool)
    ensures
        r == is_alphanumeric(c),
;

/// Whether `needle` stands in `text` with no letter or digit directly before or after it.
pub open spec fn occurs_as_word(text: Seq<char>, needle: Seq<char>) -> bool {
    exists|i: int| #[trigger] occurs_at(text, needle, i) && word_bounded(text, needle, i)
}

/// Whether the occurrence at `i` has no letter or digit directly before or after it.
pub open spec fn word_bounded(text: Seq<char>, needle: Seq<char>, i: int) -> bool {
    &&& i > 0 ==> !is_alphanumeric(text[i - 1])
    &&& i + needle.len() < text.len() ==> !is_alphanumeric(text[i + needle.len()])
}

fn lower(c: char) -> (r: char)
    ensures
        r == ascii_lower(c),
{
    let u: u32 = c as u32;
    if 65 <= u && u <= 90 {
        (u as u8 + 32) as char
    } else {
        c
    }
}

/// An ASCII capital as its small letter; every other character as it is.
pub open spec fn ascii_lower(c: char) -> char {
    if 65 <= c as int <= 90 {
        (c as u8 + 32) as char
    } else {
        c
    }
}

/// A text with its ASCII capitals made small.
pub open spec fn lowercase(s: Seq<char>) -> Seq<char> {
    s.map_values(|c: char| ascii_lower(c))
}

/// A text with its ASCII capitals made small.
pub fn to_lowercase(s: &str) -> (r: String)
    ensures
        r@ == lowercase(s@),
{
    let chars = chars_of(s);
    let mut out = String::new();
    let mut i: usize = 0;
    while i < chars.len()
        invariant
            i <= chars.len(),
            chars@ == s@,
            out@ == lowercase(s@.take(i as int)),
        decreases chars.len() - i,
    {
        out.push(lower(chars[i]));
        i = i + 1;
        assert(lowercase(s@.take(i as int)) =~= lowercase(s@.take(i - 1)).push(
            ascii_lower(s@[i - 1]),
        ));
    }
    assert(s@.take(s@.len() as int) =~= s@);
    out
}

/// An ASCII small letter as its capital; every other character as it is.
pub fn upper(c: char) -> (r: char)
    ensures
        r == ascii_upper(c),
{
    let u: u32 = c as u32;
    if 97 <= u && u <= 122 {
        (u as u8 - 32) as char
    } else {
        c
    }
}

/// An ASCII small letter as its capital; every other character as it is.
pub open spec fn ascii_upper(c: char) -> char {
    if 97 <= c as int <= 122 {
        (c as u8 - 32) as char
    } else {
        c
    }
}

/// A text with its ASCII small letters made capitals.
pub open spec fn uppercase(s: Seq<char>) -> Seq<char> {
    s.map_values(|c: char| ascii_upper(c))
}

/// A text with its ASCII small letters made capitals.
pub fn to_uppercase(s: &str) -> (r: String)
    ensures
        r@ == uppercase(s@),
{
    let chars = chars_of(s);
    let mut out = String::new();
    let mut i: usize = 0;
    while i < chars.len()
        invariant
            i <= chars.len(),
            chars@ == s@,
            out@ == uppercase(s@.take(i as int)),
        decreases chars.len() - i,
    {
        out.push(upper(chars[i]));
        i = i + 1;
        assert(uppercase(s@.take(i as int)) =~= uppercase(s@.take(i - 1)).push(
            ascii_upper(s@[i - 1]),
        ));
    }
    assert(s@.take(s@.len() as int) =~= s@);
    out
}

/// A name as a title has it: the first letter is a capital.
pub open spec fn capital(name: Seq<char>) -> Seq<char> {
    if name.len() == 0 {
        name
    } else {
        seq![ascii_upper(name[0])] + name.skip(1)
    }
}

/// A name as a title has it: the first letter is a capital.
pub fn capitalised(name: &str) -> (r: String)
    ensures
        r@ == capital(name@),
{
    let chars = chars_of(name);
    if chars.len() == 0 {
        return name.to_owned();
    }
    let mut out = String::new();
    out.push(upper(chars[0]));
    let rest = text_between(&chars, 1, chars.len());
    assert(rest@ =~= name@.skip(1));
    out.append(rest.as_str());
    assert(out@ =~= capital(name@));
    out
}

/// Whether a text holds a character.
pub fn holds_char(s: &str, c: char) -> (r: bool)
    ensures
        r == s@.contains(c),
{
    let chars = chars_of(s);
    let mut i: usize = 0;
    while i < chars.len()
        invariant
            i <= chars.len(),
            chars@ == s@,
            forall|j: int| 0 <= j < i ==> #[trigger] s@[j] != c,
        decreases chars.len() - i,
    {
        if chars[i] == c {
            assert(s@[i as int] == c);
            return true;
        }
        i = i + 1;
    }
    false
}

/// Whether `needle` stands in `text` with no letter or digit directly before or after it.
pub fn has_word(text: &str, needle: &str) -> (r: bool)
    ensures
        r == occurs_as_word(text@, needle@),
{
    let t = chars_of(text);
    let n = chars_of(needle);
    let mut i: usize = 0;
    while i <= t.len()
        invariant
            i <= t.len() + 1,
            t@ == text@,
            n@ == needle@,
            forall|j: int| 0 <= j < i ==> !(occurs_at(text@, needle@, j) && word_bounded(
                text@,
                needle@,
                j,
            )),
        decreases t.len() + 1 - i,
    {
        if matches_at(&t, &n, i) {
            let before = i > 0 && t[i - 1].is_alphanumeric();
            let after = i + n.len() < t.len() && t[i + n.len()].is_alphanumeric();
            if !before && !after {
                assert(word_bounded(text@, needle@, i as int));
                return true;
            }
        }
        if i == t.len() {
            return false;
        }
        i = i + 1;
    }
    false
}

/// The maximal runs of characters that are not white space, in order.
pub open spec fn words(s: Seq<char>) -> Seq<Seq<char>>
    decreases s.len(),
{
    if s.len() == 0 {
        Seq::empty()
    } else if is_white_space(s[0]) {
        words(s.drop_first())
    } else {
        proof {
            lemma_word_len(s);
        }
        seq![s.take(word_len(s))] + words(s.skip(word_len(s)))
    }
}

/// How many characters stand before the first white space.
pub open spec fn word_len(s: Seq<char>) -> int
    decreases s.len(),
{
    if s.len() == 0 || is_white_space(s[0]) {
        0
    } else {
        1 + word_len(s.drop_first())
    }
}

/// A word is no longer than its text, and not empty where the text starts with it.
pub proof fn lemma_word_len(s: Seq<char>)
    ensures
        0 <= word_len(s) <= s.len(),
        s.len() > 0 && !is_white_space(s[0]) ==> word_len(s) > 0,
    decreases s.len(),
{
    if s.len() > 0 && !is_white_space(s[0]) {
        lemma_word_len(s.drop_first());
    }
}

/// The texts of a list, one after the other, with `between` between each two.
pub open spec fn joined(parts: Seq<Seq<char>>, between: Seq<char>) -> Seq<char>
    decreases parts.len(),
{
    if parts.len() == 0 {
        Seq::empty()
    } else if parts.len() == 1 {
        parts[0]
    } else {
        joined(parts.drop_last(), between) + between + parts.last()
    }
}

/// The texts of a list, one after the other, with `between` between each two.
pub fn join(parts: &Vec<String>, between: &str) -> (r: String)
    ensures
        r@ == joined(texts(parts@), between@),
{
    let mut out = String::new();
    let mut i: usize = 0;
    while i < parts.len()
        invariant
            i <= parts.len(),
            out@ == joined(texts(parts@).take(i as int), between@),
        decreases parts.len() - i,
    {
        if i > 0 {
            out.append(between);
        }
        out.append(parts[i].as_str());
        i = i + 1;
        assert(texts(parts@).take(i as int).drop_last() =~= texts(parts@).take(i - 1));
    }
    assert(texts(parts@).take(i as int) =~= texts(parts@));
    out
}

/// A text on one line: its words with single spaces between them.
pub open spec fn one_line(s: Seq<char>) -> Seq<char> {
    joined(words(s), " "@)
}

fn word_end(chars: &Vec<char>, from: usize) -> (r: usize)
    requires
        from <= chars.len(),
    ensures
        from <= r <= chars.len(),
        r - from == word_len(chars@.skip(from as int)),
{
    let mut i: usize = from;
    while i < chars.len() && !white_space(chars[i])
        invariant
            from <= i <= chars.len(),
            word_len(chars@.skip(from as int)) == (i - from) + word_len(chars@.skip(i as int)),
        decreases chars.len() - i,
    {
        assert(chars@.skip(i as int).drop_first() =~= chars@.skip(i + 1));
        i = i + 1;
    }
    i
}

/// The maximal runs of characters that are not white space, in order.
pub fn split_words(s: &str) -> (r: Vec<String>)
    ensures
        texts(r@) == words(s@),
{
    let chars = chars_of(s);
    let mut out: Vec<String> = Vec::new();
    let mut i: usize = 0;
    assert(chars@.skip(0) =~= chars@);
    assert(texts(out@) =~= Seq::empty());
    assert(texts(out@) + words(s@) =~= words(s@));
    loop
        invariant_except_break
            i <= chars.len(),
            chars@ == s@,
            texts(out@) + words(chars@.skip(i as int)) == words(s@),
        ensures
            texts(out@) == words(s@),
        decreases chars.len() - i,
    {
        let mut lo: usize = i;
        while lo < chars.len() && white_space(chars[lo])
            invariant
                i <= lo <= chars.len(),
                words(chars@.skip(lo as int)) == words(chars@.skip(i as int)),
            decreases chars.len() - lo,
        {
            assert(chars@.skip(lo as int).drop_first() =~= chars@.skip(lo + 1));
            lo = lo + 1;
        }
        let ghost rest = chars@.skip(lo as int);
        if lo == chars.len() {
            assert(words(chars@.skip(i as int)) =~= Seq::empty());
            assert(texts(out@) + words(chars@.skip(i as int)) =~= texts(out@));
            break;
        }
        let hi: usize = word_end(&chars, lo);
        proof {
            lemma_word_len(rest);
            assert(rest.skip(word_len(rest)) =~= chars@.skip(hi as int));
            assert(rest.take(word_len(rest)) =~= chars@.subrange(lo as int, hi as int));
        }
        let word = text_between(&chars, lo, hi);
        let ghost before = texts(out@);
        proof {
            lemma_texts_push(out@, word);
        }
        out.push(word);
        assert(before + (seq![word@] + words(chars@.skip(hi as int))) =~= texts(out@) + words(
            chars@.skip(hi as int),
        ));
        i = hi;
    }
    out
}

/// A text on one line: its words with single spaces between them.
pub fn single_line(s: &str) -> (r: String)
    ensures
        r@ == one_line(s@),
{
    join(&split_words(s), " ")
}

/// The digits of a number in base ten, without leading zeros.
pub open spec fn decimal(n: nat) -> Seq<char>
    decreases n,
{
    if n < 10 {
        seq![(48 + n) as char]
    } else {
        decimal(n / 10).push((48 + n % 10) as char)
    }
}

/// The digits of a number in base ten, without leading zeros.
pub fn number(n: u64) -> (r: String)
    ensures
        r@ == decimal(n as nat),
    decreases n,
{
    let digit: u8 = (n % 10) as u8;
    let mut out = if n < 10 {
        String::new()
    } else {
        number(n / 10)
    };
    out.push((48 + digit) as char);
    out
}

/// Whether a text starts with another.
pub fn begins_with(text: &str, start: &str) -> (r: bool)
    ensures
        r == start@.is_prefix_of(text@),
{
    let whole = chars_of(text);
    let part = chars_of(start);
    if part.len() > whole.len() {
        return false;
    }
    let mut i: usize = 0;
    while i < part.len()
        invariant
            i <= part.len() <= whole.len(),
            whole@ == text@,
            part@ == start@,
            forall|j: int| 0 <= j < i ==> whole@[j] == part@[j],
        decreases part.len() - i,
    {
        if whole[i] != part[i] {
            assert(text@.subrange(0, start@.len() as int)[i as int] != start@[i as int]);
            return false;
        }
        i = i + 1;
    }
    assert(start@ =~= text@.subrange(0, start@.len() as int));
    true
}

/// Whether a text ends with another.
pub fn ends_with(text: &str, end: &str) -> (r: bool)
    ensures
        r == end@.is_suffix_of(text@),
{
    let whole = chars_of(text);
    let part = chars_of(end);
    if part.len() > whole.len() {
        return false;
    }
    let at: usize = whole.len() - part.len();
    let ghost tail = text@.subrange(text@.len() - end@.len(), text@.len() as int);
    let mut i: usize = 0;
    while i < part.len()
        invariant
            i <= part.len() <= whole.len(),
            at == whole.len() - part.len(),
            whole@ == text@,
            part@ == end@,
            tail == text@.subrange(text@.len() - end@.len(), text@.len() as int),
            forall|j: int| 0 <= j < i ==> tail[j] == part@[j],
        decreases part.len() - i,
    {
        assert(tail[i as int] == whole@[at + i]);
        if whole[at + i] != part[i] {
            return false;
        }
        i = i + 1;
    }
    assert(end@ =~= tail);
    true
}

/// The characters of a text that may be absent.
pub open spec fn str_of(s: Option<&str>) -> Option<Seq<char>> {
    match s {
        Some(s) => Some(s@),
        None => None,
    }
}

/// A number with its sign, in base ten.
pub open spec fn signed(n: int) -> Seq<char> {
    if n < 0 {
        "-"@ + decimal((-n) as nat)
    } else {
        decimal(n as nat)
    }
}

/// A number with its sign, in base ten.
pub fn signed_number(n: i64) -> (r: String)
    ensures
        r@ == signed(n as int),
{
    if n < 0 {
        let mut out = "-".to_owned();
        let below: u64 = (-(n + 1)) as u64;
        out.append(number(below + 1).as_str());
        out
    } else {
        number(n as u64)
    }
}

/// A text with spaces behind it up to a width.
pub open spec fn padded_to(s: Seq<char>, width: nat) -> Seq<char>
    decreases width - s.len(),
{
    if s.len() >= width {
        s
    } else {
        padded_to(s.push(' '), width)
    }
}

/// A text with spaces behind it up to a width.
pub fn pad_to(s: &str, width: usize) -> (r: String)
    ensures
        r@ == padded_to(s@, width as nat),
{
    let mut out = s.to_owned();
    let mut len: usize = chars_of(s).len();
    while len < width
        invariant
            len == out@.len(),
            padded_to(out@, width as nat) == padded_to(s@, width as nat),
        decreases width - len,
    {
        out.push(' ');
        len = len + 1;
    }
    out
}

/// A text cut to a number of characters, with a mark where something was cut off.
pub open spec fn clipped(s: Seq<char>, max: nat) -> Seq<char> {
    if s.len() <= max {
        s
    } else {
        s.take(max as int) + "…"@
    }
}

/// A text cut to a number of characters, with a mark where something was cut off.
pub fn clip(s: &str, max: usize) -> (r: String)
    ensures
        r@ == clipped(s@, max as nat),
{
    let chars = chars_of(s);
    if chars.len() <= max {
        s.to_owned()
    } else {
        assert(chars@.subrange(0, max as int) =~= s@.take(max as int));
        let mut out = text_between(&chars, 0, max);
        out.append("…");
        out
    }
}

/// A text in double quotes, with what a quoted text cannot hold written as escapes.
pub uninterp spec fn debug_quoted(s: Seq<char>) -> Seq<char>;

/// A text in double quotes.
///
/// Formats it with `{:?}`, which is `<str as core::fmt::Debug>::fmt`.
/// What comes out depends on the text alone.
#[verifier::external_body]
pub(crate) fn quoted(s: &str) -> (r: String)
    ensures
        r@ == debug_quoted(s@),
{
    format!("{s:?}")
}

} // verus!
