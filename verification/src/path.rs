//! Paths as text, with the meaning each platform gives them.
//!
//! A Unix path is divided by `/` and starts at the root where it starts with one.
//! A Windows path may begin with a prefix, such as a drive or a share, is divided by `\` and by
//! `/`, and starts at the root of what the prefix names.
//! Behind the prefix `\\?\` it is taken as written: only `\` divides it, and `.` is a name.

use vstd::prelude::*;
use vstd::string::*;

use crate::config::Platform;
use crate::text::{
    ascii_upper, chars_of, join, joined, lemma_texts_push, same, text_between, text_of, texts,
    upper,
};

verus! {

/// One entry of a directory.
#[derive(Debug, PartialEq, Eq)]
pub struct DirEntry {
    /// Its name.
    pub name: String,
    /// Whether it is a directory.
    pub is_dir: bool,
}

/// How the text of a path is divided into steps.
#[derive(Debug, Clone, Copy, PartialEq, Eq, Structural)]
pub enum Style {
    /// By `/`, and `.` names nothing.
    Unix,
    /// By `\` and by `/`, and `.` names nothing.
    Windows,
    /// By `\` alone, and `.` is a name.
    Verbatim,
}

/// What a Windows path begins with.
#[derive(Debug, Clone, Copy, PartialEq, Eq, Structural)]
pub enum PrefixKind {
    /// No prefix, as in every Unix path.
    Nothing,
    /// A drive, as in `C:`.
    Disk,
    /// A share of a server, as in `\\server\share`.
    Unc,
    /// A device, as in `\\.\COM1`.
    Device,
    /// A name taken as written, as in `\\?\name`.
    Verbatim,
    /// A share taken as written, as in `\\?\UNC\server\share`.
    VerbatimUnc,
    /// A drive taken as written, as in `\\?\C:`.
    VerbatimDisk,
}

/// Whether a character divides a path.
pub open spec fn separates(style: Style, c: char) -> bool {
    match style {
        Style::Unix => c == '/',
        Style::Windows => c == '/' || c == '\\',
        Style::Verbatim => c == '\\',
    }
}

fn is_separator(style: Style, c: char) -> (r: bool)
    ensures
        r == separates(style, c),
{
    match style {
        Style::Unix => c == '/',
        Style::Windows => c == '/' || c == '\\',
        Style::Verbatim => c == '\\',
    }
}

/// How many characters stand before the first separator.
pub open spec fn segment_len(style: Style, path: Seq<char>) -> int
    decreases path.len(),
{
    if path.len() == 0 || separates(style, path[0]) {
        0
    } else {
        1 + segment_len(style, path.drop_first())
    }
}

/// The first separator stands within a path or directly behind it.
pub proof fn lemma_segment_len(style: Style, path: Seq<char>)
    ensures
        0 <= segment_len(style, path) <= path.len(),
        segment_len(style, path) < path.len() ==> separates(
            style,
            path[segment_len(style, path)],
        ),
        forall|i: int|
            0 <= i < segment_len(style, path) ==> !separates(style, #[trigger] path[i]),
    decreases path.len(),
{
    if path.len() > 0 && !separates(style, path[0]) {
        let rest = path.drop_first();
        lemma_segment_len(style, rest);
        assert forall|i: int| 0 <= i < segment_len(style, path) implies !separates(
            style,
            #[trigger] path[i],
        ) by {
            if i > 0 {
                assert(rest[i - 1] == path[i]);
            }
        }
    }
}

/// Where the first separator stands is where none stands before it.
pub proof fn lemma_segment_len_is(style: Style, path: Seq<char>, n: int)
    requires
        0 <= n <= path.len(),
        n < path.len() ==> separates(style, path[n]),
        forall|i: int| 0 <= i < n ==> !separates(style, #[trigger] path[i]),
    ensures
        segment_len(style, path) == n,
{
    lemma_segment_len(style, path);
    let m = segment_len(style, path);
    if m < n {
        assert(!separates(style, path[m]));
    } else if n < m {
        assert(!separates(style, path[n]));
    }
}

fn count_segment(style: Style, chars: &Vec<char>, from: usize) -> (r: usize)
    requires
        from <= chars.len(),
    ensures
        r == segment_len(style, chars@.skip(from as int)),
        from + r <= chars.len(),
{
    let mut n: usize = from;
    while n < chars.len() && !is_separator(style, chars[n])
        invariant
            from <= n <= chars.len(),
            segment_len(style, chars@.skip(from as int)) == (n - from) + segment_len(
                style,
                chars@.skip(n as int),
            ),
        decreases chars.len() - n,
    {
        assert(chars@.skip(n as int).drop_first() =~= chars@.skip(n + 1));
        n = n + 1;
    }
    n - from
}

/// Whether a path has two names at its start, with a separator between them.
pub open spec fn names_two(style: Style, path: Seq<char>) -> bool {
    let first = segment_len(style, path);
    0 < first < path.len() && segment_len(style, path.skip(first + 1)) > 0
}

/// How many characters the first two names of a path take up, or the first alone where there is no
/// second.
pub open spec fn two_names_len(style: Style, path: Seq<char>) -> int {
    let first = segment_len(style, path);
    if first < path.len() && segment_len(style, path.skip(first + 1)) > 0 {
        first + 1 + segment_len(style, path.skip(first + 1))
    } else {
        first
    }
}

/// Whether a character can name a drive.
pub open spec fn names_drive(c: char) -> bool {
    'a' <= c <= 'z' || 'A' <= c <= 'Z'
}

/// Whether a path is to be taken as written.
pub open spec fn marked_verbatim(path: Seq<char>) -> bool {
    path.len() >= 4 && path[0] == '\\' && path[1] == '\\' && path[2] == '?' && path[3] == '\\'
}

/// What a path begins with.
pub open spec fn prefix_kind(platform: Platform, path: Seq<char>) -> PrefixKind {
    if platform == Platform::Unix || path.len() < 2 {
        PrefixKind::Nothing
    } else if !(separates(Style::Windows, path[0]) && separates(Style::Windows, path[1])) {
        if names_drive(path[0]) && path[1] == ':' {
            PrefixKind::Disk
        } else {
            PrefixKind::Nothing
        }
    } else if marked_verbatim(path) {
        if path.len() >= 8 && path[4] == 'U' && path[5] == 'N' && path[6] == 'C' && separates(
            Style::Windows,
            path[7],
        ) {
            PrefixKind::VerbatimUnc
        } else if path.len() >= 6 && names_drive(path[4]) && path[5] == ':' && (path.len() == 6
            || separates(Style::Windows, path[6])) {
            PrefixKind::VerbatimDisk
        } else {
            PrefixKind::Verbatim
        }
    } else if path.len() >= 4 && path[2] == '.' && separates(Style::Windows, path[3]) {
        PrefixKind::Device
    } else if names_two(Style::Windows, path.skip(2)) {
        PrefixKind::Unc
    } else {
        PrefixKind::Nothing
    }
}

/// How many characters a path begins with before its steps.
pub open spec fn prefix_len(platform: Platform, path: Seq<char>) -> int {
    match prefix_kind(platform, path) {
        PrefixKind::Nothing => 0,
        PrefixKind::Disk => 2,
        PrefixKind::Unc => 2 + two_names_len(Style::Windows, path.skip(2)),
        PrefixKind::Device => 4 + segment_len(Style::Windows, path.skip(4)),
        PrefixKind::Verbatim => 4 + segment_len(Style::Verbatim, path.skip(4)),
        PrefixKind::VerbatimUnc => 8 + two_names_len(Style::Verbatim, path.skip(8)),
        PrefixKind::VerbatimDisk => 6,
    }
}

/// What a path begins with stands within it.
pub proof fn lemma_prefix_len(platform: Platform, path: Seq<char>)
    ensures
        0 <= prefix_len(platform, path) <= path.len(),
        prefix_kind(platform, path) is Nothing <==> prefix_len(platform, path) == 0,
{
    lemma_two_names_len(Style::Windows, path.skip(2));
    lemma_segment_len(Style::Windows, path.skip(4));
    lemma_segment_len(Style::Verbatim, path.skip(4));
    lemma_two_names_len(Style::Verbatim, path.skip(8));
}

proof fn lemma_two_names_len(style: Style, path: Seq<char>)
    ensures
        0 <= two_names_len(style, path) <= path.len(),
{
    lemma_segment_len(style, path);
    let first = segment_len(style, path);
    if first < path.len() {
        lemma_segment_len(style, path.skip(first + 1));
    }
}

/// What a path begins with, and how many characters that takes up.
fn prefix(platform: Platform, chars: &Vec<char>) -> (r: (PrefixKind, usize))
    ensures
        r.0 == prefix_kind(platform, chars@),
        r.1 == prefix_len(platform, chars@),
        r.1 <= chars.len(),
{
    proof {
        lemma_prefix_len(platform, chars@);
    }
    let unix = match platform {
        Platform::Unix => true,
        Platform::Windows => false,
    };
    if unix || chars.len() < 2 {
        return (PrefixKind::Nothing, 0);
    }
    if !(is_separator(Style::Windows, chars[0]) && is_separator(Style::Windows, chars[1])) {
        return if is_drive(chars[0]) && chars[1] == ':' {
            (PrefixKind::Disk, 2)
        } else {
            (PrefixKind::Nothing, 0)
        };
    }
    if chars.len() >= 4 && chars[0] == '\\' && chars[1] == '\\' && chars[2] == '?' && chars[3]
        == '\\' {
        if chars.len() >= 8 && chars[4] == 'U' && chars[5] == 'N' && chars[6] == 'C'
            && is_separator(Style::Windows, chars[7]) {
            let n: usize = count_two_names(Style::Verbatim, chars, 8);
            return (PrefixKind::VerbatimUnc, 8 + n);
        }
        if chars.len() >= 6 && is_drive(chars[4]) && chars[5] == ':' && (chars.len() == 6
            || is_separator(Style::Windows, chars[6])) {
            return (PrefixKind::VerbatimDisk, 6);
        }
        let n: usize = count_segment(Style::Verbatim, chars, 4);
        return (PrefixKind::Verbatim, 4 + n);
    }
    if chars.len() >= 4 && chars[2] == '.' && is_separator(Style::Windows, chars[3]) {
        let n: usize = count_segment(Style::Windows, chars, 4);
        return (PrefixKind::Device, 4 + n);
    }
    let first: usize = count_segment(Style::Windows, chars, 2);
    if first > 0 && 2 + first < chars.len() {
        assert(chars@.skip(2).skip(first + 1) =~= chars@.skip(2 + first + 1));
        if count_segment(Style::Windows, chars, 2 + first + 1) > 0 {
            let n: usize = count_two_names(Style::Windows, chars, 2);
            return (PrefixKind::Unc, 2 + n);
        }
    }
    (PrefixKind::Nothing, 0)
}

fn is_drive(c: char) -> (r: bool)
    ensures
        r == names_drive(c),
{
    ('a' <= c && c <= 'z') || ('A' <= c && c <= 'Z')
}

fn count_two_names(style: Style, chars: &Vec<char>, from: usize) -> (r: usize)
    requires
        from <= chars.len(),
    ensures
        r == two_names_len(style, chars@.skip(from as int)),
        from + r <= chars.len(),
{
    let first: usize = count_segment(style, chars, from);
    if from + first < chars.len() {
        assert(chars@.skip(from as int).skip(first + 1) =~= chars@.skip(from + first + 1));
        let second: usize = count_segment(style, chars, from + first + 1);
        if second > 0 {
            return first + 1 + second;
        }
    }
    first
}

/// How a path that begins with no prefix is divided.
pub open spec fn usual_style(platform: Platform) -> Style {
    match platform {
        Platform::Unix => Style::Unix,
        Platform::Windows => Style::Windows,
    }
}

fn usual(platform: Platform) -> (r: Style)
    ensures
        r == usual_style(platform),
{
    match platform {
        Platform::Unix => Style::Unix,
        Platform::Windows => Style::Windows,
    }
}

/// How a path is divided.
pub open spec fn style_of(platform: Platform, path: Seq<char>) -> Style {
    match prefix_kind(platform, path) {
        PrefixKind::Verbatim
        | PrefixKind::VerbatimUnc
        | PrefixKind::VerbatimDisk => Style::Verbatim,
        _ => usual_style(platform),
    }
}

fn style(platform: Platform, kind: PrefixKind) -> (r: Style)
    ensures
        forall|path: Seq<char>|
            #![trigger style_of(platform, path)]
            prefix_kind(platform, path) == kind ==> r == style_of(platform, path),
{
    match kind {
        PrefixKind::Verbatim
        | PrefixKind::VerbatimUnc
        | PrefixKind::VerbatimDisk => Style::Verbatim,
        _ => usual(platform),
    }
}

/// A path without what it begins with.
pub open spec fn body_of(platform: Platform, path: Seq<char>) -> Seq<char> {
    path.skip(prefix_len(platform, path))
}

/// Whether the text of a path has a separator where its steps begin.
pub open spec fn shows_root(platform: Platform, path: Seq<char>) -> bool {
    let body = body_of(platform, path);
    body.len() > 0 && separates(usual_style(platform), body[0])
}

/// The text of the steps of a path, behind its prefix and its root.
pub open spec fn steps_text(platform: Platform, path: Seq<char>) -> Seq<char> {
    if shows_root(platform, path) {
        body_of(platform, path).drop_first()
    } else {
        body_of(platform, path)
    }
}

/// Whether a path starts at the root: a Unix path that shows it, and a Windows path that begins
/// with a drive and shows the root of that drive, or begins with anything else that has a root of
/// its own.
pub open spec fn absolute(platform: Platform, path: Seq<char>) -> bool {
    match platform {
        Platform::Unix => shows_root(platform, path),
        Platform::Windows => match prefix_kind(platform, path) {
            PrefixKind::Nothing => false,
            PrefixKind::Disk => shows_root(platform, path),
            _ => true,
        },
    }
}

/// Whether a path starts at the root.
pub fn is_absolute(platform: Platform, path: &str) -> (r: bool)
    ensures
        r == absolute(platform, path@),
{
    let chars = chars_of(path);
    let begin = prefix(platform, &chars);
    let kind = begin.0;
    let n: usize = begin.1;
    let shown = n < chars.len() && is_separator(usual(platform), chars[n]);
    match platform {
        Platform::Unix => shown,
        Platform::Windows => match kind {
            PrefixKind::Nothing => false,
            PrefixKind::Disk => shown,
            _ => true,
        },
    }
}

/// The parts of a path between its separators that name something: not empty and not `.`, which is
/// a name only where a path is taken as written.
pub open spec fn segments_of(style: Style, path: Seq<char>) -> Seq<Seq<char>>
    decreases path.len(),
{
    if path.len() == 0 {
        Seq::empty()
    } else {
        proof {
            lemma_segment_len(style, path);
        }
        let n = segment_len(style, path);
        let first = path.take(n);
        let rest = if n < path.len() {
            segments_of(style, path.skip(n + 1))
        } else {
            Seq::empty()
        };
        if first.len() == 0 || first == "."@ && style != Style::Verbatim {
            rest
        } else {
            seq![first] + rest
        }
    }
}

/// The segments of the end of a path.
fn segments(style: Style, chars: &Vec<char>, from: usize) -> (r: Vec<String>)
    requires
        from <= chars.len(),
    ensures
        texts(r@) == segments_of(style, chars@.skip(from as int)),
{
    let mut out: Vec<String> = Vec::new();
    let verbatim = match style {
        Style::Verbatim => true,
        _ => false,
    };
    let ghost path = chars@.skip(from as int);
    let mut start: usize = from;
    assert(texts(out@) + segments_of(style, path) =~= segments_of(style, path));
    while start < chars.len()
        invariant
            from <= start <= chars.len(),
            verbatim == (style == Style::Verbatim),
            texts(out@) + segments_of(style, chars@.skip(start as int)) == segments_of(style, path),
        decreases chars.len() - start,
    {
        let ghost rest = chars@.skip(start as int);
        let n: usize = count_segment(style, chars, start);
        let end: usize = start + n;
        let segment = text_between(chars, start, end);
        let next: usize = if end < chars.len() {
            end + 1
        } else {
            end
        };
        let ghost tail = segments_of(style, chars@.skip(next as int));
        proof {
            assert(rest.take(end - start) =~= segment@);
            if end < chars.len() {
                assert(rest.skip(end - start + 1) =~= chars@.skip(end + 1));
            } else {
                assert(chars@.skip(next as int) =~= Seq::empty());
            }
        }
        let ghost had = texts(out@);
        if segment.as_str().is_empty() || (!verbatim && same(segment.as_str(), ".")) {
            assert(segments_of(style, rest) =~= tail);
        } else {
            assert(segments_of(style, rest) =~= seq![segment@] + tail);
            proof {
                lemma_texts_push(out@, segment);
                assert(had.push(segment@) + tail =~= had + (seq![segment@] + tail));
            }
            out.push(segment);
        }
        start = next;
    }
    proof {
        assert(chars@.skip(start as int) =~= Seq::empty());
        assert(texts(out@) + Seq::<Seq<char>>::empty() =~= texts(out@));
    }
    out
}

/// The step that is the root.
pub open spec fn root_step(platform: Platform) -> Seq<char> {
    match platform {
        Platform::Unix => "/"@,
        Platform::Windows => "\\"@,
    }
}

fn root(platform: Platform) -> (r: &'static str)
    ensures
        r@ == root_step(platform),
{
    match platform {
        Platform::Unix => "/",
        Platform::Windows => "\\",
    }
}

/// What a path begins with, in one spelling: a drive as a capital letter, a device with `\`, and a
/// share with `/`, so that it is never taken for a path that is taken as written.
pub open spec fn prefix_step(platform: Platform, path: Seq<char>) -> Seq<char> {
    let text = path.take(prefix_len(platform, path));
    match prefix_kind(platform, path) {
        PrefixKind::Nothing | PrefixKind::Verbatim => text,
        PrefixKind::Disk => text.update(0, ascii_upper(text[0])),
        PrefixKind::VerbatimDisk => text.update(4, ascii_upper(text[4])),
        PrefixKind::VerbatimUnc => text.update(7, '\\'),
        PrefixKind::Unc => text.map_values(|c: char| slashed(c)),
        PrefixKind::Device => text.map_values(|c: char| backslashed(c)),
    }
}

/// A separator spelled as `\`.
pub open spec fn backslashed(c: char) -> char {
    if c == '/' {
        '\\'
    } else {
        c
    }
}

/// A separator spelled as `/`.
pub open spec fn slashed(c: char) -> char {
    if c == '\\' {
        '/'
    } else {
        c
    }
}

fn prefix_text(platform: Platform, chars: &Vec<char>, kind: PrefixKind, n: usize) -> (r: String)
    requires
        kind == prefix_kind(platform, chars@),
        n == prefix_len(platform, chars@),
        n <= chars.len(),
    ensures
        r@ == prefix_step(platform, chars@),
{
    proof {
        lemma_two_names_len(Style::Verbatim, chars@.skip(8));
    }
    let raised: usize = match kind {
        PrefixKind::Disk => 0,
        PrefixKind::VerbatimDisk => 4,
        _ => n,
    };
    let shared = match kind {
        PrefixKind::Unc => true,
        _ => false,
    };
    let device = match kind {
        PrefixKind::Device => true,
        _ => false,
    };
    let marked = match kind {
        PrefixKind::VerbatimUnc => true,
        _ => false,
    };
    let ghost text = chars@.take(n as int);
    let ghost whole = prefix_step(platform, chars@);
    let mut spelt: Vec<char> = Vec::new();
    let mut i: usize = 0;
    while i < n
        invariant
            i <= n <= chars.len(),
            text == chars@.take(n as int),
            whole.len() == n,
            !(shared && marked) && !(device && marked) && !(shared && device),
            spelt@ == whole.take(i as int),
            forall|j: int|
                0 <= j < n ==> #[trigger] whole[j] == (if j == raised {
                    ascii_upper(text[j])
                } else if shared {
                    slashed(text[j])
                } else if device {
                    backslashed(text[j])
                } else if marked && j == 7 {
                    '\\'
                } else {
                    text[j]
                }),
        decreases n - i,
    {
        let c = if i == raised {
            upper(chars[i])
        } else if shared && chars[i] == '\\' {
            '/'
        } else if device && chars[i] == '/' {
            '\\'
        } else if marked && i == 7 {
            '\\'
        } else {
            chars[i]
        };
        assert(whole[i as int] == c);
        spelt.push(c);
        assert(spelt@ =~= whole.take(i + 1));
        i = i + 1;
    }
    assert(spelt@ =~= whole);
    let r = text_between(&spelt, 0, spelt.len());
    assert(r@ =~= whole);
    r
}

/// What a path takes before its segments: its prefix, the root where it starts there, or the place
/// it starts from where it says so.
pub open spec fn head_of(platform: Platform, path: Seq<char>) -> Seq<Seq<char>> {
    let kind = prefix_kind(platform, path);
    let body = body_of(platform, path);
    let by = style_of(platform, path);
    (if kind is Nothing {
        Seq::<Seq<char>>::empty()
    } else {
        seq![prefix_step(platform, path)]
    }) + (if shows_root(platform, path) || kind is Unc || kind is Device {
        seq![root_step(platform)]
    } else if by != Style::Verbatim && body.take(segment_len(by, body)) == "."@ {
        seq!["."@]
    } else {
        Seq::<Seq<char>>::empty()
    })
}

/// The steps a path takes: its prefix, the root where it starts there, the place it starts from
/// where it says so, then each of its segments.
///
/// Two paths with the same steps are the same path.
pub open spec fn components_of(platform: Platform, path: Seq<char>) -> Seq<Seq<char>> {
    head_of(platform, path) + segments_of(style_of(platform, path), steps_text(platform, path))
}

/// The steps a path takes.
pub fn components(platform: Platform, path: &str) -> (r: Vec<String>)
    ensures
        texts(r@) == components_of(platform, path@),
{
    let chars = chars_of(path);
    let begin = prefix(platform, &chars);
    let kind = begin.0;
    let n: usize = begin.1;
    let by = style(platform, kind);
    assert(style_of(platform, path@) == by);
    let mut out: Vec<String> = Vec::new();
    let ghost body = body_of(platform, path@);
    let begins = match kind {
        PrefixKind::Nothing => false,
        _ => true,
    };
    let rooted = match kind {
        PrefixKind::Unc | PrefixKind::Device => true,
        _ => false,
    };
    let verbatim = match by {
        Style::Verbatim => true,
        _ => false,
    };
    if begins {
        out.push(prefix_text(platform, &chars, kind, n));
        assert(texts(out@) =~= seq![prefix_step(platform, path@)]);
    }
    let ghost front = texts(out@);
    assert(front =~= if kind is Nothing {
        Seq::<Seq<char>>::empty()
    } else {
        seq![prefix_step(platform, path@)]
    });
    let shown = n < chars.len() && is_separator(usual(platform), chars[n]);
    if rooted || shown {
        let step = root(platform).to_owned();
        proof {
            lemma_texts_push(out@, step);
        }
        out.push(step);
        assert(texts(out@) =~= front + seq![root_step(platform)]);
    } else if !verbatim {
        let m: usize = count_segment(by, &chars, n);
        let first = text_between(&chars, n, n + m);
        assert(body.take(segment_len(by, body)) =~= first@);
        if same(first.as_str(), ".") {
            proof {
                lemma_texts_push(out@, first);
            }
            out.push(first);
            assert(texts(out@) =~= front + seq!["."@]);
        }
    }
    assert(texts(out@) =~= head_of(platform, path@));
    let start: usize = if shown {
        n + 1
    } else {
        n
    };
    assert(chars@.skip(start as int) =~= steps_text(platform, path@));
    let mut rest = segments(by, &chars, start);
    let ghost had = out@;
    let ghost more = rest@;
    out.append(&mut rest);
    assert(texts(had + more) =~= texts(had) + texts(more));
    out
}

/// The steps after one more is taken: a parent undoes the last step that names something.
pub open spec fn step_taken(steps: Seq<Seq<char>>, step: Seq<char>) -> Seq<Seq<char>> {
    if step != ".."@ {
        steps.push(step)
    } else if steps.len() > 0 && steps.last() != "."@ && steps.last() != ".."@ {
        steps.drop_last()
    } else {
        steps
    }
}

/// The steps after all of a second list are taken.
pub open spec fn steps_taken(from: Seq<Seq<char>>, steps: Seq<Seq<char>>) -> Seq<Seq<char>>
    decreases steps.len(),
{
    if steps.len() == 0 {
        from
    } else {
        step_taken(steps_taken(from, steps.drop_last()), steps.last())
    }
}

/// A path below one that is taken as written: every `.` and `..` of the second is carried out,
/// since neither would mean anything in the result.
pub open spec fn joined_verbatim(base: Seq<char>, part: Seq<char>) -> Seq<char> {
    let n = prefix_len(Platform::Windows, base);
    let afresh = shows_root(Platform::Windows, part);
    let from = if afresh {
        Seq::<Seq<char>>::empty()
    } else {
        segments_of(Style::Verbatim, steps_text(Platform::Windows, base))
    };
    let steps = steps_taken(from, segments_of(Style::Windows, part));
    base.take(n) + (if afresh || shows_root(Platform::Windows, base) || steps.len() > 0 {
        "\\"@
    } else {
        Seq::<char>::empty()
    }) + joined(steps, "\\"@)
}

/// A path below another.
///
/// On Unix, with a separator between the two where there is none, and without the first where the
/// second starts at the root itself.
/// On Windows a second path with a prefix stands alone, one that shows a root keeps the prefix of
/// the first, and a bare drive gets no separator, since what follows it is relative to the place
/// last visited there.
pub open spec fn joined_path(platform: Platform, base: Seq<char>, part: Seq<char>) -> Seq<char> {
    match platform {
        Platform::Unix => if absolute(platform, part) || base.len() == 0 {
            part
        } else if base.last() == '/' {
            base + part
        } else {
            base + "/"@ + part
        },
        Platform::Windows => if !(prefix_kind(platform, part) is Nothing) {
            part
        } else if style_of(platform, base) == Style::Verbatim && part.len() > 0 {
            joined_verbatim(base, part)
        } else if shows_root(platform, part) {
            base.take(prefix_len(platform, base)) + part
        } else if base.len() == 0 || separates(Style::Windows, base.last()) || (prefix_kind(
            platform,
            base,
        ) is Disk && base.len() == 2) {
            base + part
        } else {
            base + "\\"@ + part
        },
    }
}

/// A path below another.
pub fn join_path(platform: Platform, base: &str, part: &str) -> (r: String)
    ensures
        r@ == joined_path(platform, base@, part@),
{
    match platform {
        Platform::Unix => {
            let chars = chars_of(base);
            if is_absolute(platform, part) || chars.len() == 0 {
                part.to_owned()
            } else {
                let mut out = base.to_owned();
                if chars[chars.len() - 1] != '/' {
                    out.append("/");
                }
                out.append(part);
                out
            }
        },
        Platform::Windows => join_windows(base, part),
    }
}

fn join_windows(base: &str, part: &str) -> (r: String)
    ensures
        r@ == joined_path(Platform::Windows, base@, part@),
{
    let below = chars_of(part);
    let second = prefix(Platform::Windows, &below);
    match second.0 {
        PrefixKind::Nothing => {},
        _ => return part.to_owned(),
    }
    let chars = chars_of(base);
    let begin = prefix(Platform::Windows, &chars);
    let kind = begin.0;
    let n: usize = begin.1;
    let by = style(Platform::Windows, kind);
    assert(style_of(Platform::Windows, base@) == by);
    let verbatim = match by {
        Style::Verbatim => true,
        _ => false,
    };
    let afresh = below.len() > 0 && is_separator(Style::Windows, below[0]);
    assert(body_of(Platform::Windows, part@) =~= part@);
    assert(afresh == shows_root(Platform::Windows, part@));
    if verbatim && below.len() > 0 {
        return join_verbatim(&chars, &below, n, afresh);
    }
    let disk = match kind {
        PrefixKind::Disk => true,
        _ => false,
    };
    if afresh {
        let mut out = text_between(&chars, 0, n);
        assert(out@ =~= base@.take(n as int));
        out.append(part);
        return out;
    }
    let mut out = base.to_owned();
    if !(chars.len() == 0 || is_separator(Style::Windows, chars[chars.len() - 1]) || (disk
        && chars.len() == 2)) {
        out.append("\\");
    }
    out.append(part);
    out
}

fn join_verbatim(base: &Vec<char>, part: &Vec<char>, n: usize, afresh: bool) -> (r: String)
    requires
        n == prefix_len(Platform::Windows, base@),
        n <= base.len(),
        style_of(Platform::Windows, base@) == Style::Verbatim,
        afresh == shows_root(Platform::Windows, part@),
    ensures
        r@ == joined_verbatim(base@, part@),
{
    let shown = n < base.len() && is_separator(Style::Windows, base[n]);
    let mut steps: Vec<String> = Vec::new();
    if !afresh {
        let start: usize = if shown {
            n + 1
        } else {
            n
        };
        assert(base@.skip(start as int) =~= steps_text(Platform::Windows, base@));
        steps = segments(Style::Verbatim, base, start);
    }
    let ghost from = texts(steps@);
    assert(afresh ==> from =~= Seq::empty());
    let more = segments(Style::Windows, part, 0);
    assert(part@.skip(0) =~= part@);
    let ghost all = texts(more@);
    let mut i: usize = 0;
    while i < more.len()
        invariant
            i <= more.len(),
            all == texts(more@),
            texts(steps@) == steps_taken(from, all.take(i as int)),
        decreases more.len() - i,
    {
        let ghost had = texts(steps@);
        assert(all.take(i + 1).drop_last() =~= all.take(i as int));
        assert(all.take(i + 1).last() == more@[i as int]@);
        if same(more[i].as_str(), "..") {
            let last: usize = steps.len();
            if last > 0 {
                assert(had.last() == steps@[last - 1]@);
                if !same(steps[last - 1].as_str(), ".") && !same(steps[last - 1].as_str(), "..") {
                    steps.truncate(last - 1);
                    assert(texts(steps@) =~= had.drop_last());
                }
            }
        } else {
            let step = more[i].as_str().to_owned();
            proof {
                lemma_texts_push(steps@, step);
            }
            steps.push(step);
        }
        i = i + 1;
    }
    assert(all.take(all.len() as int) =~= all);
    let mut out = text_between(base, 0, n);
    assert(out@ =~= base@.take(n as int));
    if afresh || shown || steps.len() > 0 {
        out.append("\\");
    } else {
        assert(out@ + Seq::<char>::empty() =~= out@);
    }
    out.append(join(&steps, "\\").as_str());
    out
}

/// Whether one list of texts is the start of another.
pub fn list_starts_with(list: &Vec<String>, start: &Vec<String>) -> (r: bool)
    ensures
        r == texts(start@).is_prefix_of(texts(list@)),
{
    if start.len() > list.len() {
        return false;
    }
    let mut i: usize = 0;
    while i < start.len()
        invariant
            i <= start.len() <= list.len(),
            forall|j: int| 0 <= j < i ==> (#[trigger] texts(start@)[j]) == texts(list@)[j],
        decreases start.len() - i,
    {
        assert(texts(start@)[i as int] == start@[i as int]@);
        assert(texts(list@)[i as int] == list@[i as int]@);
        if !same(start[i].as_str(), list[i].as_str()) {
            return false;
        }
        i = i + 1;
    }
    assert(texts(start@) =~= texts(list@).subrange(0, start@.len() as int));
    true
}

/// Whether a path lies at or below another, step by step.
pub open spec fn lies_under(platform: Platform, path: Seq<char>, base: Seq<char>) -> bool {
    components_of(platform, base).is_prefix_of(components_of(platform, path))
}

/// Whether a path lies at or below another, step by step.
pub fn starts_with(platform: Platform, path: &str, base: &str) -> (r: bool)
    ensures
        r == lies_under(platform, path@, base@),
{
    list_starts_with(&components(platform, path), &components(platform, base))
}

/// Whether two paths take the same steps.
pub fn same_path(platform: Platform, a: &str, b: &str) -> (r: bool)
    ensures
        r == (components_of(platform, a@) == components_of(platform, b@)),
{
    let x = components(platform, a);
    let y = components(platform, b);
    if x.len() != y.len() {
        assert(texts(x@).len() != texts(y@).len());
        return false;
    }
    let r = list_starts_with(&x, &y);
    proof {
        if r {
            assert(texts(x@) =~= texts(y@));
        } else {
            assert(texts(y@).is_prefix_of(texts(y@)));
        }
    }
    r
}

/// Whether a path climbs to a parent somewhere on its way.
pub open spec fn climbs(platform: Platform, path: Seq<char>) -> bool {
    exists|i: int|
        0 <= i < components_of(platform, path).len() && #[trigger] components_of(platform, path)[i]
            == ".."@
}

/// Whether a path climbs to a parent somewhere on its way.
pub fn has_parent_step(platform: Platform, path: &str) -> (r: bool)
    ensures
        r == climbs(platform, path@),
{
    let steps = components(platform, path);
    let mut i: usize = 0;
    while i < steps.len()
        invariant
            i <= steps.len(),
            texts(steps@) == components_of(platform, path@),
            forall|j: int| 0 <= j < i ==> #[trigger] components_of(platform, path@)[j] != ".."@,
        decreases steps.len() - i,
    {
        assert(components_of(platform, path@)[i as int] == steps@[i as int]@);
        if same(steps[i].as_str(), "..") {
            return true;
        }
        i = i + 1;
    }
    false
}

/// A relative path without what it starts with that names nothing: separators and `.`.
pub open spec fn without_leading(by: Style, path: Seq<char>) -> Seq<char>
    decreases path.len(),
{
    if path.len() > 0 && separates(by, path[0]) {
        without_leading(by, path.drop_first())
    } else if path == "."@ {
        Seq::empty()
    } else if path.len() > 1 && path[0] == '.' && separates(by, path[1]) {
        without_leading(by, path.skip(2))
    } else {
        path
    }
}

/// A relative path without what it ends with that names nothing: separators, and a `.` behind one.
pub open spec fn without_trailing(by: Style, path: Seq<char>) -> Seq<char>
    decreases path.len(),
{
    if path.len() > 0 && separates(by, path.last()) {
        without_trailing(by, path.drop_last())
    } else if path.len() > 1 && path.last() == '.' && separates(by, path[path.len() - 2]) {
        without_trailing(by, path.take(path.len() - 2))
    } else {
        path
    }
}

/// Whether the first step of a path is a leading `~`.
pub open spec fn starts_at_home(by: Style, path: Seq<char>) -> bool {
    path.len() > 0 && path[0] == '~' && (path.len() == 1 || separates(by, path[1]))
}

/// A path with a leading `~` put in place of a home directory.
pub open spec fn expanded(
    platform: Platform,
    path: Seq<char>,
    home: Option<Seq<char>>,
) -> Seq<char> {
    let by = usual_style(platform);
    match home {
        Some(home) if starts_at_home(by, path) => joined_path(
            platform,
            home,
            without_trailing(by, without_leading(by, path.drop_first())),
        ),
        _ => path,
    }
}

/// Expand a leading `~` against `home`.
///
/// A config file is written by a person, and a person writes `~/.codex-personal`.
/// Only a leading `~/` is expanded: `~other` means another user's home to a shell, and agentmux has
/// no business guessing at that.
pub fn expand_tilde(platform: Platform, path: &str, home: Option<&str>) -> (r: String)
    ensures
        r@ == expanded(
            platform,
            path@,
            match home {
                Some(h) => Some(h@),
                None => None,
            },
        ),
{
    let home = match home {
        Some(home) => home,
        None => return path.to_owned(),
    };
    let by = usual(platform);
    let chars = chars_of(path);
    if !(chars.len() > 0 && chars[0] == '~' && (chars.len() == 1 || is_separator(by, chars[1]))) {
        return path.to_owned();
    }
    let ghost tail = path@.drop_first();
    let mut lo: usize = 1;
    assert(chars@.skip(1) =~= tail);
    loop
        invariant_except_break
            1 <= lo <= chars.len(),
            chars@ == path@,
            without_leading(by, chars@.skip(lo as int)) == without_leading(by, tail),
        ensures
            1 <= lo <= chars.len(),
            chars@ == path@,
            chars@.skip(lo as int) == without_leading(by, tail),
        decreases chars.len() - lo,
    {
        let ghost rest = chars@.skip(lo as int);
        proof {
            reveal_strlit(".");
        }
        if lo < chars.len() && is_separator(by, chars[lo]) {
            assert(rest.drop_first() =~= chars@.skip(lo + 1));
            lo = lo + 1;
        } else if lo < chars.len() && chars[lo] == '.' && lo + 1 == chars.len() {
            assert(rest =~= "."@);
            assert(chars@.skip(chars.len() as int) =~= Seq::empty());
            lo = chars.len();
            break;
        } else if chars.len() - lo > 1 && chars[lo] == '.' && is_separator(by, chars[lo + 1]) {
            assert(rest.skip(2) =~= chars@.skip(lo + 2));
            assert(rest.len() > 1);
            lo = lo + 2;
        } else {
            assert(rest != "."@) by {
                if rest == "."@ {
                    assert(rest[0] == '.');
                    assert(rest.len() == 1);
                }
            }
            break;
        }
    }
    let ghost inner = without_leading(by, tail);
    let mut hi: usize = chars.len();
    assert(chars@.subrange(lo as int, hi as int) =~= inner);
    loop
        invariant_except_break
            1 <= lo <= hi <= chars.len(),
            chars@ == path@,
            without_trailing(by, chars@.subrange(lo as int, hi as int)) == without_trailing(
                by,
                inner,
            ),
        ensures
            1 <= lo <= hi <= chars.len(),
            chars@ == path@,
            chars@.subrange(lo as int, hi as int) == without_trailing(by, inner),
        decreases hi,
    {
        let ghost part = chars@.subrange(lo as int, hi as int);
        if lo < hi && is_separator(by, chars[hi - 1]) {
            assert(part.drop_last() =~= chars@.subrange(lo as int, hi - 1));
            hi = hi - 1;
        } else if hi - lo > 1 && chars[hi - 1] == '.' && is_separator(by, chars[hi - 2]) {
            assert(part.take(part.len() - 2) =~= chars@.subrange(lo as int, hi - 2));
            hi = hi - 2;
        } else {
            break;
        }
    }
    let rest = text_between(&chars, lo, hi);
    join_path(platform, home, rest.as_str())
}

/// Where the last separator of a path stands.
pub open spec fn last_separator(by: Style, path: Seq<char>) -> int
    decreases path.len(),
{
    if path.len() == 0 {
        -1
    } else if separates(by, path.last()) {
        path.len() - 1
    } else {
        last_separator(by, path.drop_last())
    }
}

/// The directory a path lies in, for a path with one separator between two steps and none at its
/// end; the root lies in none.
pub open spec fn parent_of(platform: Platform, path: Seq<char>) -> Option<Seq<char>> {
    let text = steps_text(platform, path);
    let start = path.len() - text.len();
    let last = last_separator(style_of(platform, path), text);
    if text.len() == 0 {
        None
    } else if last < 0 {
        Some(path.take(start))
    } else {
        Some(path.take(start + last))
    }
}

/// The last separator stands within the path.
pub proof fn lemma_last_separator(by: Style, path: Seq<char>)
    ensures
        -1 <= last_separator(by, path) < path.len(),
        last_separator(by, path) >= 0 ==> separates(by, path[last_separator(by, path)]),
    decreases path.len(),
{
    if path.len() > 0 && !separates(by, path.last()) {
        lemma_last_separator(by, path.drop_last());
    }
}

/// A path and every directory above it, up to the root.
pub open spec fn ancestors_of(platform: Platform, path: Seq<char>) -> Seq<Seq<char>>
    decreases path.len(),
{
    proof {
        lemma_parent_is_shorter(platform, path);
    }
    match parent_of(platform, path) {
        Some(parent) => seq![path] + ancestors_of(platform, parent),
        None => seq![path],
    }
}

fn parent(platform: Platform, path: &str) -> (r: Option<String>)
    ensures
        text_of(r) == parent_of(platform, path@),
{
    let chars = chars_of(path);
    let begin = prefix(platform, &chars);
    let n: usize = begin.1;
    let by = style(platform, begin.0);
    let start: usize = if n < chars.len() && is_separator(usual(platform), chars[n]) {
        n + 1
    } else {
        n
    };
    let ghost text = steps_text(platform, path@);
    proof {
        assert(style_of(platform, path@) == by);
        assert(text =~= path@.skip(start as int));
        lemma_last_separator(by, text);
    }
    if start == chars.len() {
        return None;
    }
    let mut end: usize = chars.len();
    assert(text.take(end - start) =~= text);
    while end > start && !is_separator(by, chars[end - 1])
        invariant
            start <= end <= chars.len(),
            text == chars@.skip(start as int),
            last_separator(by, text) == last_separator(by, text.take(end - start)),
        decreases end,
    {
        assert(text.take(end - start).drop_last() =~= text.take(end - start - 1));
        end = end - 1;
    }
    assert(last_separator(by, text) == end - start - 1) by {
        if end > start {
            assert(separates(by, text.take(end - start).last()));
        }
    }
    let keep: usize = if end == start {
        start
    } else {
        end - 1
    };
    let above = text_between(&chars, 0, keep);
    assert(path@.take(keep as int) =~= above@);
    Some(above)
}

/// A path and every directory above it, up to the root.
pub fn ancestors(platform: Platform, path: &str) -> (r: Vec<String>)
    ensures
        texts(r@) == ancestors_of(platform, path@),
{
    let mut out: Vec<String> = Vec::new();
    let mut current = path.to_owned();
    assert(texts(out@) + ancestors_of(platform, path@) =~= ancestors_of(platform, path@));
    loop
        invariant_except_break
            texts(out@) + ancestors_of(platform, current@) == ancestors_of(platform, path@),
        ensures
            texts(out@) == ancestors_of(platform, path@),
        decreases current@.len(),
    {
        let ghost had = texts(out@);
        let ghost here = current@;
        let above = parent(platform, current.as_str());
        proof {
            lemma_texts_push(out@, current);
            lemma_parent_is_shorter(platform, here);
        }
        out.push(current);
        match above {
            Some(above) => {
                assert(had + (seq![here] + ancestors_of(platform, above@)) =~= had.push(here)
                    + ancestors_of(platform, above@));
                current = above;
            },
            None => {
                assert(had + seq![here] =~= had.push(here));
                break;
            },
        }
    }
    out
}

/// The directory a path lies in has a shorter path.
pub proof fn lemma_parent_is_shorter(platform: Platform, path: Seq<char>)
    ensures
        parent_of(platform, path) matches Some(parent) ==> parent.len() < path.len(),
{
    lemma_prefix_len(platform, path);
    lemma_last_separator(style_of(platform, path), steps_text(platform, path));
}

proof fn lemma_segments_step(by: Style, path: Seq<char>)
    requires
        path.len() > 0,
    ensures
        segments_of(by, path) == (if segment_len(by, path) == 0 || (path.take(segment_len(by, path))
            == "."@ && by != Style::Verbatim) {
            Seq::<Seq<char>>::empty()
        } else {
            seq![path.take(segment_len(by, path))]
        }) + (if segment_len(by, path) < path.len() {
            segments_of(by, path.skip(segment_len(by, path) + 1))
        } else {
            Seq::<Seq<char>>::empty()
        }),
{
    lemma_segment_len(by, path);
    assert(Seq::<Seq<char>>::empty() + segments_of(by, path.skip(segment_len(by, path) + 1))
        =~= segments_of(by, path.skip(segment_len(by, path) + 1)));
}

/// The segments of a path that ends with a separator come before those of what follows it.
pub proof fn lemma_segments_concat(by: Style, a: Seq<char>, b: Seq<char>)
    requires
        a.len() > 0,
        separates(by, a.last()),
    ensures
        segments_of(by, a + b) == segments_of(by, a) + segments_of(by, b),
    decreases a.len(),
{
    lemma_segment_len(by, a);
    let n = segment_len(by, a);
    assert(n < a.len()) by {
        if n >= a.len() {
            assert(!separates(by, a[a.len() - 1]));
        }
    }
    lemma_segment_len_is(by, a + b, n);
    lemma_segments_step(by, a);
    lemma_segments_step(by, a + b);
    assert((a + b).take(n) =~= a.take(n));
    assert((a + b).skip(n + 1) =~= a.skip(n + 1) + b);
    let rest = a.skip(n + 1);
    if rest.len() == 0 {
        assert(rest + b =~= b);
        assert(segments_of(by, rest) =~= Seq::empty());
        assert(segments_of(by, a + b) =~= segments_of(by, a) + segments_of(by, b));
    } else {
        assert(rest.last() == a.last());
        lemma_segments_concat(by, rest, b);
        assert(segments_of(by, a + b) =~= segments_of(by, a) + segments_of(by, b));
    }
}

/// A separator at the start of a text adds no step.
proof fn lemma_segments_leading(by: Style, path: Seq<char>)
    requires
        path.len() > 0,
        separates(by, path[0]),
    ensures
        segments_of(by, path.drop_first()) == segments_of(by, path),
{
    lemma_segments_step(by, path);
    assert(path.skip(1) =~= path.drop_first());
    if path.len() == 1 {
        assert(path.drop_first() =~= Seq::empty());
    }
    assert(Seq::<Seq<char>>::empty() + segments_of(by, path.drop_first()) =~= segments_of(
        by,
        path.drop_first(),
    ));
}

/// A separator at the end of a path adds no step.
pub proof fn lemma_segments_separator(by: Style, a: Seq<char>, c: char)
    requires
        separates(by, c),
    ensures
        segments_of(by, a.push(c)) == segments_of(by, a),
    decreases a.len(),
{
    let b = a.push(c);
    if a.len() == 0 {
        lemma_segments_step(by, b);
        assert(b.skip(1) =~= Seq::empty());
        assert(segments_of(by, b) =~= Seq::empty());
    } else {
        lemma_segment_len(by, a);
        let n = segment_len(by, a);
        assert forall|i: int| 0 <= i < n implies !separates(by, #[trigger] b[i]) by {
            assert(b[i] == a[i]);
        }
        lemma_segment_len_is(by, b, n);
        lemma_segments_step(by, a);
        lemma_segments_step(by, b);
        assert(b.take(n) =~= a.take(n));
        if n < a.len() {
            assert(b.skip(n + 1) =~= a.skip(n + 1).push(c));
            lemma_segments_separator(by, a.skip(n + 1), c);
        } else {
            assert(b.skip(n + 1) =~= Seq::empty());
        }
    }
}

/// Whether a text is a single step on every platform: a name without a separator or a colon that is
/// neither empty nor `.` nor `..`.
pub open spec fn plain(part: Seq<char>) -> bool {
    &&& part.len() > 0
    &&& part != "."@
    &&& part != ".."@
    &&& forall|i: int|
        0 <= i < part.len() ==> #[trigger] part[i] != '/' && part[i] != '\\' && part[i] != ':'
}

/// A single step is a path of that step.
pub proof fn lemma_plain_segment(by: Style, part: Seq<char>)
    requires
        plain(part),
    ensures
        segments_of(by, part) == seq![part],
{
    lemma_segment_len_is(by, part, part.len() as int);
    lemma_segments_step(by, part);
    assert(part.take(part.len() as int) =~= part);
    assert(segments_of(by, part) =~= seq![part]);
}

/// Whether each step of a list can stand between two separators of a path taken as written.
pub open spec fn can_be_written(steps: Seq<Seq<char>>) -> bool {
    forall|i: int| 0 <= i < steps.len() ==> #[trigger] written_step(steps[i])
}

/// Whether a step can stand between two separators of a path taken as written.
pub open spec fn written_step(step: Seq<char>) -> bool {
    step.len() > 0 && forall|j: int| 0 <= j < step.len() ==> #[trigger] step[j] != '\\'
}

proof fn lemma_segments_written(path: Seq<char>)
    ensures
        can_be_written(segments_of(Style::Verbatim, path)),
    decreases path.len(),
{
    if path.len() > 0 {
        let by = Style::Verbatim;
        lemma_segment_len(by, path);
        lemma_segments_step(by, path);
        let n = segment_len(by, path);
        let first = path.take(n);
        assert forall|j: int| 0 <= j < first.len() implies #[trigger] first[j] != '\\' by {
            assert(!separates(by, path[j]));
        }
        assert(n > 0 ==> written_step(first));
        if n < path.len() {
            lemma_segments_written(path.skip(n + 1));
        }
    }
}

proof fn lemma_written_back(steps: Seq<Seq<char>>)
    requires
        steps.len() > 0,
        can_be_written(steps),
    ensures
        segments_of(Style::Verbatim, "\\"@ + joined(steps, "\\"@)) == steps,
    decreases steps.len(),
{
    reveal_strlit("\\");
    let by = Style::Verbatim;
    let bar = "\\"@;
    let last = steps.last();
    assert(written_step(steps[steps.len() - 1]));
    lemma_segment_len_is(by, last, last.len() as int);
    lemma_segments_step(by, last);
    assert(last.take(last.len() as int) =~= last);
    assert(segments_of(by, last) =~= seq![last]);
    let front = if steps.len() == 1 {
        bar
    } else {
        bar + joined(steps.drop_last(), bar) + bar
    };
    assert(bar + joined(steps, bar) =~= front + last);
    lemma_segments_concat(by, front, last);
    let before = front.drop_last();
    assert(front =~= before.push('\\'));
    lemma_segments_separator(by, before, '\\');
    if steps.len() == 1 {
        assert(before =~= Seq::empty());
        assert(segments_of(by, bar + joined(steps, bar)) =~= steps);
    } else {
        assert(before =~= bar + joined(steps.drop_last(), bar));
        let init = steps.drop_last();
        assert forall|i: int| 0 <= i < init.len() implies #[trigger] written_step(init[i]) by {
            assert(written_step(steps[i]));
        }
        lemma_written_back(init);
        assert(segments_of(by, bar + joined(steps, bar)) =~= steps);
    }
}

/// Whether the prefix of a path names something whole: a share has a server and a name, and a
/// device or a name taken as written is not empty.
pub open spec fn whole_prefix(platform: Platform, path: Seq<char>) -> bool {
    match prefix_kind(platform, path) {
        PrefixKind::Device => prefix_len(platform, path) > 4,
        PrefixKind::Verbatim => prefix_len(platform, path) > 4 && path != "\\\\?\\UNC"@,
        PrefixKind::VerbatimUnc => names_two(Style::Verbatim, path.skip(8)),
        _ => true,
    }
}

/// Whether a path begins with two separators that are no prefix.
///
/// A step behind such a path can make a share of it, so that it is no longer a step.
pub open spec fn half_a_share(platform: Platform, path: Seq<char>) -> bool {
    platform == Platform::Windows && prefix_kind(platform, path) is Nothing && path.len() >= 2
        && separates(Style::Windows, path[0]) && separates(Style::Windows, path[1])
}

/// Whether what a path begins with stays what it is when a step is put behind it.
///
/// Every Unix path is such a path, and so is every path that Windows itself hands out.
pub open spec fn firm(platform: Platform, path: Seq<char>) -> bool {
    whole_prefix(platform, path) && !half_a_share(platform, path)
}

proof fn lemma_prefix_kept(path: Seq<char>, rest: Seq<char>)
    requires
        !(prefix_kind(Platform::Windows, path) is Nothing),
        whole_prefix(Platform::Windows, path),
        rest.len() > 0,
        separates(style_of(Platform::Windows, path), rest[0]),
    ensures
        ({
            let n = prefix_len(Platform::Windows, path);
            let whole = path.take(n) + rest;
            &&& prefix_kind(Platform::Windows, whole) == prefix_kind(Platform::Windows, path)
            &&& prefix_len(Platform::Windows, whole) == n
            &&& prefix_step(Platform::Windows, whole) == prefix_step(Platform::Windows, path)
            &&& body_of(Platform::Windows, whole) == rest
            &&& whole_prefix(Platform::Windows, whole)
        }),
{
    reveal_strlit("\\\\?\\UNC");
    let w = Platform::Windows;
    lemma_prefix_len(w, path);
    let n = prefix_len(w, path);
    let whole = path.take(n) + rest;
    assert forall|i: int| 0 <= i < n implies #[trigger] whole[i] == path[i] by {}
    assert(whole[n] == rest[0]);
    match prefix_kind(w, path) {
        PrefixKind::Nothing => {},
        PrefixKind::Disk => {},
        PrefixKind::VerbatimDisk => {},
        PrefixKind::Verbatim => {
            lemma_name_kept(Style::Verbatim, path, rest, 4, n);
            lemma_segment_len(Style::Verbatim, path.skip(4));
            if n < path.len() {
                assert(path.skip(4)[n - 4] == path[n]);
            }
            if n == 7 && path[4] == 'U' && path[5] == 'N' && path[6] == 'C' {
                if path.len() == 7 {
                    assert(path =~= "\\\\?\\UNC"@);
                } else {
                    assert(path.skip(7)[0] == path[7]);
                }
            }
            if n == 6 && path.len() > 6 {
                assert(path.skip(6)[0] == path[6]);
            }
        },
        PrefixKind::Device => {
            lemma_name_kept(Style::Windows, path, rest, 4, n);
        },
        PrefixKind::Unc => {
            lemma_two_kept(Style::Windows, path, rest, 2, n);
        },
        PrefixKind::VerbatimUnc => {
            lemma_two_kept(Style::Verbatim, path, rest, 8, n);
        },
    }
    assert(prefix_kind(w, whole) == prefix_kind(w, path));
    assert(prefix_len(w, whole) == n);
    assert(whole.take(n) =~= path.take(n));
    assert(whole.skip(n) =~= rest);
    assert(whole.len() > 7 || whole != "\\\\?\\UNC"@ || prefix_kind(w, whole) is Disk) by {
        if whole == "\\\\?\\UNC"@ {
            assert(whole.len() == 7);
            assert(n < 7);
            assert(whole[0] == '\\' && whole[1] == '\\' && whole[2] == '?' && whole[3] == '\\');
            assert(whole[n] == '/' || whole[n] == '\\');
            assert(whole[4] == 'U' && whole[5] == 'N' && whole[6] == 'C');
        }
    }
}

proof fn lemma_name_kept(by: Style, path: Seq<char>, rest: Seq<char>, from: int, n: int)
    requires
        0 <= from <= n <= path.len(),
        n == from + segment_len(by, path.skip(from)),
        rest.len() > 0,
        separates(by, rest[0]),
    ensures
        segment_len(by, (path.take(n) + rest).skip(from)) == n - from,
{
    let whole = path.take(n) + rest;
    let tail = path.skip(from);
    lemma_segment_len(by, tail);
    assert forall|i: int| 0 <= i < n - from implies !separates(
        by,
        #[trigger] whole.skip(from)[i],
    ) by {
        assert(whole.skip(from)[i] == tail[i]);
    }
    assert(whole.skip(from)[n - from] == rest[0]);
    lemma_segment_len_is(by, whole.skip(from), n - from);
}

proof fn lemma_two_kept(by: Style, path: Seq<char>, rest: Seq<char>, from: int, n: int)
    requires
        0 <= from <= n <= path.len(),
        names_two(by, path.skip(from)),
        n == from + two_names_len(by, path.skip(from)),
        rest.len() > 0,
        separates(by, rest[0]),
    ensures
        names_two(by, (path.take(n) + rest).skip(from)),
        two_names_len(by, (path.take(n) + rest).skip(from)) == n - from,
        n > from + 2,
{
    let whole = path.take(n) + rest;
    let tail = path.skip(from);
    lemma_segment_len(by, tail);
    let first = segment_len(by, tail);
    let second = tail.skip(first + 1);
    assert(second =~= path.skip(from + first + 1));
    lemma_segment_len(by, second);
    let new = whole.skip(from);
    assert forall|i: int| 0 <= i < first implies !separates(by, #[trigger] new[i]) by {
        assert(new[i] == tail[i]);
    }
    assert(new[first] == tail[first]);
    lemma_segment_len_is(by, new, first);
    lemma_name_kept(by, path, rest, from + first + 1, n);
    assert(new.skip(first + 1) =~= whole.skip(from + first + 1));
}

/// The root that a step behind a path makes visible.
pub open spec fn opened(platform: Platform, path: Seq<char>) -> Seq<Seq<char>> {
    if style_of(platform, path) == Style::Verbatim && body_of(platform, path).len() == 0 {
        components_of(platform, path).push(root_step(platform))
    } else {
        components_of(platform, path)
    }
}

/// The steps of a single step below a path are those of the path and then that step.
pub proof fn lemma_join_components(platform: Platform, base: Seq<char>, part: Seq<char>)
    requires
        firm(platform, base),
        plain(part),
    ensures
        firm(platform, joined_path(platform, base, part)),
        body_of(platform, joined_path(platform, base, part)).len() > 0,
        components_of(platform, joined_path(platform, base, part)) == opened(platform, base).push(
            part,
        ),
{
    if style_of(platform, base) == Style::Verbatim {
        lemma_join_verbatim(base, part);
    } else {
        lemma_join_usual(platform, base, part);
    }
}

proof fn lemma_join_verbatim(base: Seq<char>, part: Seq<char>)
    requires
        firm(Platform::Windows, base),
        style_of(Platform::Windows, base) == Style::Verbatim,
        plain(part),
    ensures
        firm(Platform::Windows, joined_path(Platform::Windows, base, part)),
        body_of(Platform::Windows, joined_path(Platform::Windows, base, part)).len() > 0,
        components_of(Platform::Windows, joined_path(Platform::Windows, base, part)) == opened(
            Platform::Windows,
            base,
        ).push(part),
{
    reveal_strlit("\\");
    let platform = Platform::Windows;
    let by = Style::Verbatim;
    let whole = joined_path(platform, base, part);
    let n = prefix_len(platform, base);
    lemma_prefix_len(platform, base);
    lemma_plain_segment(by, part);
    lemma_plain_segment(Style::Windows, part);
    lemma_plain_prefix(platform, part);
    let steps = segments_of(by, steps_text(platform, base));
    lemma_segments_written(steps_text(platform, base));
    assert(seq![part].drop_last() =~= Seq::<Seq<char>>::empty());
    assert(steps_taken(steps, Seq::<Seq<char>>::empty()) == steps);
    assert(steps_taken(steps, seq![part]) == steps.push(part));
    let all = steps.push(part);
    assert forall|i: int| 0 <= i < all.len() implies #[trigger] written_step(all[i]) by {
        if i < steps.len() {
            assert(written_step(steps[i]));
        }
    }
    lemma_written_back(all);
    let rest = "\\"@ + joined(all, "\\"@);
    assert(whole =~= base.take(n) + rest);
    lemma_prefix_kept(base, rest);
    assert(rest[0] == '\\');
    lemma_segments_leading(by, rest);
    lemma_verbatim_body(base);
    if body_of(platform, base).len() == 0 {
        assert(steps =~= Seq::empty());
    }
    assert(components_of(platform, whole) =~= opened(platform, base).push(part));
}

proof fn lemma_verbatim_body(base: Seq<char>)
    requires
        style_of(Platform::Windows, base) == Style::Verbatim,
    ensures
        body_of(Platform::Windows, base).len() == 0 || shows_root(Platform::Windows, base),
{
    let w = Platform::Windows;
    lemma_prefix_len(w, base);
    let n = prefix_len(w, base);
    if n < base.len() {
        assert(body_of(w, base)[0] == base[n]);
        let name = base.skip(4);
        lemma_segment_len(Style::Verbatim, name);
        let share = base.skip(8);
        lemma_segment_len(Style::Verbatim, share);
        let second = share.skip(segment_len(Style::Verbatim, share) + 1);
        lemma_segment_len(Style::Verbatim, second);
        match prefix_kind(w, base) {
            PrefixKind::Verbatim => {
                assert(name[n - 4] == base[n]);
            },
            PrefixKind::VerbatimUnc => {
                assert(share[n - 8] == base[n]);
                if two_names_len(Style::Verbatim, share) > segment_len(Style::Verbatim, share) {
                    assert(second[segment_len(Style::Verbatim, second)] == base[n]);
                }
            },
            _ => {},
        }
    }
}

/// What a step is put behind: the text of a path, with a separator at its end where it needs one.
spec fn made_ready(platform: Platform, base: Seq<char>) -> Seq<char> {
    if base.len() == 0 || separates(usual_style(platform), base.last()) || (prefix_kind(
        platform,
        base,
    ) is Disk && base.len() == 2) {
        body_of(platform, base)
    } else {
        body_of(platform, base).push(
            match platform {
                Platform::Unix => '/',
                Platform::Windows => '\\',
            },
        )
    }
}

proof fn lemma_made_ready(platform: Platform, base: Seq<char>, part: Seq<char>)
    requires
        firm(platform, base),
        style_of(platform, base) != Style::Verbatim,
        plain(part),
    ensures
        joined_path(platform, base, part) == base.take(prefix_len(platform, base)) + (made_ready(
            platform,
            base,
        ) + part),
        made_ready(platform, base).len() == 0 ==> body_of(platform, base).len() == 0
            && !(prefix_kind(platform, base) is Unc) && !(prefix_kind(platform, base) is Device),
        made_ready(platform, base).len() > 0 ==> separates(
            usual_style(platform),
            made_ready(platform, base).last(),
        ),
        body_of(platform, base).len() > 0 ==> made_ready(platform, base).len() > 0 && made_ready(
            platform,
            base,
        )[0] == body_of(platform, base)[0],
        prefix_kind(platform, base) is Unc || prefix_kind(platform, base) is Device ==> made_ready(
            platform,
            base,
        ).len() > 0 && separates(usual_style(platform), made_ready(platform, base)[0]),
{
    reveal_strlit("/");
    reveal_strlit("\\");
    let n = prefix_len(platform, base);
    let body = body_of(platform, base);
    lemma_prefix_len(platform, base);
    lemma_plain_prefix(platform, part);
    if prefix_kind(platform, base) is Unc || prefix_kind(platform, base) is Device {
        lemma_last_of_prefix(base);
    }
    assert(base =~= base.take(n) + body);
    if body.len() > 0 {
        assert(body.last() == base.last());
    }
    assert(joined_path(platform, base, part) =~= base.take(n) + (made_ready(platform, base)
        + part));
}

proof fn lemma_prefix_stays(platform: Platform, base: Seq<char>, part: Seq<char>)
    requires
        firm(platform, base),
        style_of(platform, base) != Style::Verbatim,
        plain(part),
    ensures
        ({
            let whole = joined_path(platform, base, part);
            &&& prefix_kind(platform, whole) == prefix_kind(platform, base)
            &&& prefix_len(platform, whole) == prefix_len(platform, base)
            &&& prefix_step(platform, whole) == prefix_step(platform, base)
            &&& body_of(platform, whole) == made_ready(platform, base) + part
            &&& firm(platform, whole)
        }),
{
    let kind = prefix_kind(platform, base);
    let whole = joined_path(platform, base, part);
    let n = prefix_len(platform, base);
    let front = made_ready(platform, base);
    let rest = front + part;
    lemma_prefix_len(platform, base);
    lemma_made_ready(platform, base, part);
    if kind is Unc || kind is Device {
        lemma_prefix_kept(base, rest);
    } else {
        assert(part[0] != '/' && part[0] != '\\' && part[0] != ':');
        if kind is Nothing {
            assert(whole =~= rest);
            assert(body_of(platform, base) =~= base);
            if base.len() >= 2 {
                assert(whole[0] == base[0] && whole[1] == base[1]);
            } else if base.len() == 1 {
                assert(whole[0] == base[0]);
                assert(whole[1] == part[0] || whole[1] == front[1]);
            } else {
                assert(whole =~= part);
                lemma_plain_prefix(platform, part);
            }
        } else {
            assert(whole[0] == base[0] && whole[1] == base[1]);
        }
        assert(prefix_kind(platform, whole) == kind);
        assert(whole.take(n) =~= base.take(n));
        assert(whole.skip(n) =~= rest);
    }
}

proof fn lemma_head_stays(platform: Platform, base: Seq<char>, part: Seq<char>)
    requires
        firm(platform, base),
        style_of(platform, base) != Style::Verbatim,
        plain(part),
    ensures
        head_of(platform, joined_path(platform, base, part)) == head_of(platform, base),
{
    reveal_strlit(".");
    let by = usual_style(platform);
    let kind = prefix_kind(platform, base);
    let body = body_of(platform, base);
    let front = made_ready(platform, base);
    let rest = front + part;
    lemma_made_ready(platform, base, part);
    lemma_prefix_stays(platform, base, part);
    if !shows_root(platform, base) && !(kind is Unc) && !(kind is Device) {
        assert(part[0] != '/' && part[0] != '\\');
        let first = segment_len(by, body);
        lemma_segment_len(by, body);
        if body.len() > 0 {
            assert(rest[0] == body[0]);
            assert forall|i: int| 0 <= i < first implies !separates(by, #[trigger] rest[i]) by {
                assert(rest[i] == body[i]);
            }
            if first < body.len() {
                assert(rest[first] == body[first]);
            } else {
                assert(!separates(by, body[body.len() - 1]));
                assert(rest[first] == front.last());
            }
            lemma_segment_len_is(by, rest, first);
            assert(rest.take(first) =~= body.take(first));
        } else {
            assert(front.len() == 0);
            assert(rest =~= part);
            lemma_segment_len_is(by, part, part.len() as int);
            assert(part.take(part.len() as int) =~= part);
            assert(body.take(first).len() == 0);
        }
    } else if body.len() > 0 {
        assert(rest[0] == body[0]);
    }
}

proof fn lemma_join_usual(platform: Platform, base: Seq<char>, part: Seq<char>)
    requires
        firm(platform, base),
        style_of(platform, base) != Style::Verbatim,
        plain(part),
    ensures
        firm(platform, joined_path(platform, base, part)),
        body_of(platform, joined_path(platform, base, part)).len() > 0,
        components_of(platform, joined_path(platform, base, part)) == components_of(
            platform,
            base,
        ).push(part),
{
    let by = usual_style(platform);
    let whole = joined_path(platform, base, part);
    let body = body_of(platform, base);
    let front = made_ready(platform, base);
    let rest = front + part;
    lemma_made_ready(platform, base, part);
    lemma_prefix_stays(platform, base, part);
    lemma_head_stays(platform, base, part);
    lemma_plain_segment(by, part);
    assert(segments_of(by, rest) == segments_of(by, body) + seq![part]) by {
        if front.len() == 0 {
            assert(rest =~= part);
            assert(segments_of(by, body) + seq![part] =~= seq![part]);
        } else {
            lemma_segments_concat(by, front, part);
            if front != body {
                lemma_segments_separator(by, body, front.last());
            }
        }
    }
    if shows_root(platform, whole) {
        lemma_segments_leading(by, rest);
    }
    if shows_root(platform, base) {
        lemma_segments_leading(by, body);
    }
    assert(components_of(platform, whole) =~= components_of(platform, base).push(part));
}

proof fn lemma_plain_prefix(platform: Platform, part: Seq<char>)
    requires
        plain(part),
    ensures
        prefix_kind(platform, part) is Nothing,
        !shows_root(platform, part),
        !absolute(platform, part),
{
    assert(part[0] != '/' && part[0] != '\\');
    if part.len() > 1 {
        assert(part[1] != ':');
    }
    assert(part.skip(0) =~= part);
}

proof fn lemma_last_of_prefix(base: Seq<char>)
    requires
        whole_prefix(Platform::Windows, base),
        prefix_kind(Platform::Windows, base) is Unc || prefix_kind(
            Platform::Windows,
            base,
        ) is Device,
    ensures
        base.len() > 2,
        body_of(Platform::Windows, base).len() == 0 ==> !separates(Style::Windows, base.last()),
        body_of(Platform::Windows, base).len() == 0 || shows_root(Platform::Windows, base),
{
    let w = Platform::Windows;
    lemma_prefix_len(w, base);
    let by = Style::Windows;
    let n = prefix_len(w, base);
    let tail = if prefix_kind(w, base) is Device {
        base.skip(4)
    } else {
        base.skip(2)
    };
    lemma_segment_len(by, tail);
    let name = if prefix_kind(w, base) is Device {
        tail
    } else {
        tail.skip(segment_len(by, tail) + 1)
    };
    lemma_segment_len(by, name);
    let last = segment_len(by, name);
    assert(n == base.len() - name.len() + last);
    if n == base.len() {
        assert(!separates(by, name[last - 1]));
        assert(name.last() == base.last());
    } else {
        assert(name[last] == base[n]);
        assert(body_of(w, base)[0] == base[n]);
    }
}

/// A path that starts at the root and lies under a firm one is firm too: both begin alike.
pub proof fn lemma_firm_below(platform: Platform, path: Seq<char>, base: Seq<char>)
    requires
        absolute(platform, path),
        absolute(platform, base),
        lies_under(platform, path, base),
        firm(platform, base),
    ensures
        firm(platform, path),
{
    if platform == Platform::Windows {
        let w = platform;
        let x = components_of(w, path);
        let y = components_of(w, base);
        assert(x[0] == prefix_step(w, path));
        assert(y[0] == prefix_step(w, base));
        assert(x[0] == y[0]) by {
            assert(y =~= x.subrange(0, y.len() as int));
        }
        let step = prefix_step(w, path);
        lemma_step_tells(path, step);
        lemma_step_tells(base, step);
    }
}

/// How much of a share taken as written its first name takes up.
spec fn server_len(step: Seq<char>) -> int {
    segment_len(Style::Verbatim, step.skip(8))
}

proof fn lemma_step_tells(path: Seq<char>, step: Seq<char>)
    requires
        step == prefix_step(Platform::Windows, path),
        !(prefix_kind(Platform::Windows, path) is Nothing),
    ensures
        prefix_len(Platform::Windows, path) == step.len(),
        whole_prefix(Platform::Windows, path) == {
            if step.len() >= 4 && step[0] == '\\' && step[2] == '.' {
                step.len() > 4
            } else if step.len() >= 8 && step[0] == '\\' && step[2] == '?' && step[7] == '\\' {
                0 < server_len(step) < step.len() - 8
            } else if step.len() >= 4 && step[0] == '\\' && step[2] == '?' {
                step.len() > 4 && step != "\\\\?\\UNC"@
            } else {
                true
            }
        },
{
    reveal_strlit("\\\\?\\UNC");
    let w = Platform::Windows;
    lemma_prefix_len(w, path);
    let n = prefix_len(w, path);
    let text = path.take(n);
    let v = Style::Verbatim;
    match prefix_kind(w, path) {
        PrefixKind::Verbatim => {
            let name = path.skip(4);
            lemma_segment_len(v, name);
            assert(step =~= text);
            if n >= 8 {
                assert(!separates(v, name[3]));
                assert(step[7] == name[3]);
            }
            if path == "\\\\?\\UNC"@ {
                lemma_segment_len_is(v, name, 3);
                assert(step =~= path);
            }
            if step == "\\\\?\\UNC"@ && path.len() > 7 {
                assert(path[4] == step[4] && path[5] == step[5] && path[6] == step[6]);
                assert(name[3] == path[7]);
            }
            if step == "\\\\?\\UNC"@ && path.len() == 7 {
                assert(path =~= step);
            }
        },
        PrefixKind::VerbatimUnc => {
            let share = path.skip(8);
            lemma_segment_len(v, share);
            let first = segment_len(v, share);
            let held = step.skip(8);
            lemma_two_names_len(v, share);
            assert forall|i: int| 0 <= i < n - 8 implies held[i] == share[i] by {}
            if first < share.len() {
                lemma_segment_len(v, share.skip(first + 1));
            }
            if two_names_len(v, share) > first {
                lemma_segment_len_is(v, held, first);
            } else {
                lemma_segment_len_is(v, held, first);
                assert(first == n - 8);
            }
        },
        PrefixKind::VerbatimDisk => {
            assert(step[5] == ':');
            assert(step.len() == 6);
        },
        PrefixKind::Unc => {
            lemma_two_names_len(Style::Windows, path.skip(2));
            assert(step[0] == '/');
        },
        PrefixKind::Device => {
            lemma_segment_len(Style::Windows, path.skip(4));
        },
        _ => {},
    }
}

/// A single step below a path lies under it.
pub proof fn lemma_join_lies_under(platform: Platform, base: Seq<char>, part: Seq<char>)
    requires
        firm(platform, base),
        plain(part),
    ensures
        firm(platform, joined_path(platform, base, part)),
        lies_under(platform, joined_path(platform, base, part), base),
{
    lemma_join_components(platform, base, part);
    let steps = components_of(platform, base);
    assert(steps =~= opened(platform, base).push(part).subrange(0, steps.len() as int));
}

/// What lies under a path that lies under another lies under that one too.
pub proof fn lemma_lies_under_transitive(
    platform: Platform,
    a: Seq<char>,
    b: Seq<char>,
    c: Seq<char>,
)
    requires
        lies_under(platform, a, b),
        lies_under(platform, b, c),
    ensures
        lies_under(platform, a, c),
{
    let x = components_of(platform, a);
    let z = components_of(platform, c);
    assert(z =~= x.subrange(0, z.len() as int));
}

} // verus!
