//! Text as sequences of characters: what the pane reads out of a string and
//! how it writes one back, the few facts about characters it needs, and the
//! handful of walks every other module shares.

use vstd::prelude::*;

verus! {

/// Whether `c` has the Unicode `White_Space` property, which is what
/// `char::is_whitespace` answers: the ASCII tab to carriage return, the space,
/// the next line, the no-break spaces, the typographic spaces and the line and
/// paragraph separators.
pub open spec fn white_space(c: char) -> bool {
    let v = c as u32;
    (0x9 <= v && v <= 0xD) || v == 0x20 || v == 0x85 || v == 0xA0 || v == 0x1680 || (0x2000 <= v
        && v <= 0x200A) || v == 0x2028 || v == 0x2029 || v == 0x202F || v == 0x205F || v == 0x3000
}

/// Whether `c` is in the Unicode `Cc` category, which is what `char::is_control`
/// answers: the C0 controls, delete, and the C1 controls.
pub open spec fn control_char(c: char) -> bool {
    let v = c as u32;
    v <= 0x1F || (0x7F <= v && v <= 0x9F)
}

/// The columns a terminal gives `text`, by the Unicode width tables.
pub uninterp spec fn span_width(text: Seq<char>) -> usize;

/// The characters of `text`, in order.
pub(crate) fn chars_of(text: &str) -> (chars: Vec<char>)
    ensures
        chars@ == text@,
{
    broadcast use vstd::string::axiom_spec_iter;
    let mut out: Vec<char> = Vec::new();
    for c in it: text.chars()
        invariant
            out@ == it.seq().take(it.index() as int),
    {
        out.push(c);
    }
    assert(out@ =~= text@);
    out
}

/// A string holding exactly `chars`.
///
/// `String::from_iter` over the characters: the string's view is the sequence
/// it was built from.
#[verifier::external_body]
pub(crate) fn string_of(chars: &[char]) -> (text: String)
    ensures
        text@ == chars@,
{
    String::from_iter(chars)
}

/// Whether `c` has the `White_Space` property.
pub fn is_white(c: char) -> (r: bool)
    ensures
        r == white_space(c),
{
    let v = c as u32;
    (0x9 <= v && v <= 0xD) || v == 0x20 || v == 0x85 || v == 0xA0 || v == 0x1680 || (0x2000 <= v
        && v <= 0x200A) || v == 0x2028 || v == 0x2029 || v == 0x202F || v == 0x205F || v == 0x3000
}

/// Whether `c` is in the `Cc` category.
pub fn is_control(c: char) -> (r: bool)
    ensures
        r == control_char(c),
{
    let v = c as u32;
    v <= 0x1F || (0x7F <= v && v <= 0x9F)
}

/// The columns `text` takes, as `ratatui`'s `Span::width` measures it, which is
/// `unicode-width`'s width of the string. Named rather than stated: the tables
/// are the outside crate's. Its documented rules give no character more than
/// three columns and every sequence they treat as one a width of at most two,
/// so a text is never wider than three columns a character; that bound is the
/// one thing claimed of the number itself.
#[verifier::external_body]
pub(crate) fn width_of(text: &str) -> (r: usize)
    ensures
        r == span_width(text@),
        r <= 3 * text@.len(),
{
    ratatui::text::Span::raw(text).width()
}

/// How Rust's `Debug` spells a string: quoted, its specials escaped.
pub uninterp spec fn debug_spelling(s: Seq<char>) -> Seq<char>;

/// `text` as `format!("{:?}")` writes it.
///
/// `Debug` for `str` is std's: the contract claims only that the same
/// characters give the same spelling.
#[verifier::external_body]
pub(crate) fn debug_of(text: &str) -> (r: String)
    ensures
        r@ == debug_spelling(text@),
{
    format!("{:?}", text)
}

/// ASCII upper case folded to lower case, everything else kept.
pub open spec fn lower_char(c: char) -> char {
    if 'A' <= c && c <= 'Z' {
        ((c as u32) + 32) as char
    } else {
        c
    }
}

/// `text` with its ASCII letters folded to lower case.
pub open spec fn lower(text: Seq<char>) -> Seq<char> {
    text.map_values(|c: char| lower_char(c))
}

/// One character, folded to lower case where it is an ASCII capital.
pub fn lower_one(c: char) -> (r: char)
    ensures
        r == lower_char(c),
{
    if 'A' <= c && c <= 'Z' {
        let code = (c as u32) + 32;
        assert(0x61 <= code <= 0x7a);
        let r = char_from_ascii(code as u8);
        r
    } else {
        c
    }
}

/// The character an ASCII byte names.
pub(crate) fn char_from_ascii(b: u8) -> (c: char)
    requires
        b < 128,
    ensures
        c as u32 == b as u32,
        c == (b as u32) as char,
{
    b as char
}

/// `text`, folded to lower case the way `to_ascii_lowercase` does.
pub fn lowered(text: &[char]) -> (r: Vec<char>)
    ensures
        r@ == lower(text@),
{
    let mut out: Vec<char> = Vec::new();
    let mut i: usize = 0;
    while i < text.len()
        invariant
            i <= text@.len(),
            out@ =~= lower(text@.subrange(0, i as int)),
        decreases text@.len() - i,
    {
        out.push(lower_one(text[i]));
        i += 1;
        assert(lower(text@.subrange(0, i as int)) =~= lower(text@.subrange(0, i - 1)).push(
            lower_char(text@[i - 1]),
        ));
    }
    assert(text@.subrange(0, text@.len() as int) =~= text@);
    out
}

/// How many characters lead `text` before one that is not white space.
pub open spec fn lead_white(text: Seq<char>) -> nat
    decreases text.len(),
{
    if text.len() == 0 || !white_space(text[0]) {
        0
    } else {
        1 + lead_white(text.drop_first())
    }
}

/// How many characters close `text` after its last one that is not white space.
pub open spec fn tail_white(text: Seq<char>) -> nat
    decreases text.len(),
{
    if text.len() == 0 || !white_space(text.last()) {
        0
    } else {
        1 + tail_white(text.drop_last())
    }
}

/// `text` without the white space it opens with.
pub open spec fn trim_start(text: Seq<char>) -> Seq<char> {
    text.subrange(lead_white(text) as int, text.len() as int)
}

/// `text` without the white space it closes with.
pub open spec fn trim_end(text: Seq<char>) -> Seq<char> {
    text.subrange(0, text.len() - tail_white(text))
}

/// `text` without white space at either end, as `str::trim` leaves it.
pub open spec fn trim(text: Seq<char>) -> Seq<char> {
    trim_end(trim_start(text))
}

proof fn lemma_lead_white_bound(text: Seq<char>)
    ensures
        lead_white(text) <= text.len(),
    decreases text.len(),
{
    if text.len() > 0 && white_space(text[0]) {
        lemma_lead_white_bound(text.drop_first());
    }
}

proof fn lemma_tail_white_bound(text: Seq<char>)
    ensures
        tail_white(text) <= text.len(),
    decreases text.len(),
{
    if text.len() > 0 && white_space(text.last()) {
        lemma_tail_white_bound(text.drop_last());
    }
}

/// Counting from `from`, the white space that opens `text[from..]`.
proof fn lemma_lead_white_step(text: Seq<char>, from: int)
    requires
        0 <= from < text.len(),
        white_space(text[from]),
    ensures
        lead_white(text.subrange(from, text.len() as int)) == 1 + lead_white(
            text.subrange(from + 1, text.len() as int),
        ),
{
    assert(text.subrange(from, text.len() as int).drop_first() =~= text.subrange(
        from + 1,
        text.len() as int,
    ));
}

/// Counting to `to`, the white space that closes `text[..to]`.
proof fn lemma_tail_white_step(text: Seq<char>, to: int)
    requires
        0 < to <= text.len(),
        white_space(text[to - 1]),
    ensures
        tail_white(text.subrange(0, to)) == 1 + tail_white(text.subrange(0, to - 1)),
{
    assert(text.subrange(0, to).drop_last() =~= text.subrange(0, to - 1));
}

/// Where `text` stops being white space at its start.
pub fn lead_of(text: &[char]) -> (r: usize)
    ensures
        r == lead_white(text@),
        r <= text@.len(),
{
    let mut i: usize = 0;
    assert(text@.subrange(0, text@.len() as int) =~= text@);
    while i < text.len() && is_white(text[i])
        invariant
            i <= text@.len(),
            lead_white(text@) == i + lead_white(text@.subrange(i as int, text@.len() as int)),
        decreases text@.len() - i,
    {
        proof {
            lemma_lead_white_step(text@, i as int);
        }
        i += 1;
    }
    proof {
        assert(lead_white(text@.subrange(i as int, text@.len() as int)) == 0);
    }
    assert(text@.subrange(0, text@.len() as int) =~= text@);
    i
}

/// Where `text` starts being white space at its end.
pub fn end_of(text: &[char]) -> (r: usize)
    ensures
        r == text@.len() - tail_white(text@),
        r <= text@.len(),
{
    let mut i: usize = text.len();
    assert(text@.subrange(0, text@.len() as int) =~= text@);
    while i > 0 && is_white(text[i - 1])
        invariant
            i <= text@.len(),
            tail_white(text@) == (text@.len() - i) + tail_white(text@.subrange(0, i as int)),
        decreases i,
    {
        proof {
            lemma_tail_white_step(text@, i as int);
        }
        i -= 1;
    }
    i
}

/// `text` with the white space at both of its ends left off.
pub fn trimmed(text: &[char]) -> (r: Vec<char>)
    ensures
        r@ == trim(text@),
{
    let start = lead_of(text);
    let rest = slice_of(text, start, text.len());
    let end = end_of(rest.as_slice());
    slice_of(rest.as_slice(), 0, end)
}

/// `text[from..to]`, copied.
pub fn slice_of(text: &[char], from: usize, to: usize) -> (r: Vec<char>)
    requires
        from <= to <= text@.len(),
    ensures
        r@ == text@.subrange(from as int, to as int),
{
    let mut out: Vec<char> = Vec::new();
    let mut i = from;
    while i < to
        invariant
            from <= i <= to <= text@.len(),
            out@ =~= text@.subrange(from as int, i as int),
        decreases to - i,
    {
        out.push(text[i]);
        i += 1;
    }
    out
}

/// Whether two runs of characters are the same.
pub fn same(a: &[char], b: &[char]) -> (r: bool)
    ensures
        r == (a@ == b@),
{
    if a.len() != b.len() {
        return false;
    }
    let mut i: usize = 0;
    while i < a.len()
        invariant
            i <= a@.len(),
            a@.len() == b@.len(),
            forall|j: int| 0 <= j < i ==> a@[j] == b@[j],
        decreases a@.len() - i,
    {
        if a[i] != b[i] {
            return false;
        }
        i += 1;
    }
    assert(a@ =~= b@);
    true
}

/// Whether `a` spells exactly `word`.
pub fn is_word(a: &[char], word: &str) -> (r: bool)
    ensures
        r == (a@ == word@),
{
    let b = chars_of(word);
    same(a, b.as_slice())
}

/// Whether `text` opens with `head`.
pub open spec fn starts_with(text: Seq<char>, head: Seq<char>) -> bool {
    head.len() <= text.len() && text.subrange(0, head.len() as int) == head
}

/// Whether `needle` appears anywhere in `text`.
pub open spec fn contains(text: Seq<char>, needle: Seq<char>) -> bool {
    exists|at: int|
        0 <= at && at + needle.len() <= text.len() && #[trigger] text.subrange(
            at,
            at + needle.len(),
        ) == needle
}

/// Whether `text` has `needle` at `at`.
fn matches_at(text: &[char], needle: &[char], at: usize) -> (r: bool)
    requires
        at + needle.len() <= text.len(),
    ensures
        r == (text@.subrange(at as int, at + needle@.len()) == needle@),
{
    let mut i: usize = 0;
    while i < needle.len()
        invariant
            i <= needle@.len(),
            at + needle.len() <= text.len(),
            forall|j: int| 0 <= j < i ==> text@[at + j] == needle@[j],
        decreases needle@.len() - i,
    {
        if text[at + i] != needle[i] {
            assert(text@.subrange(at as int, at + needle@.len())[i as int] != needle@[i as int]);
            return false;
        }
        i += 1;
    }
    assert(text@.subrange(at as int, at + needle@.len()) =~= needle@);
    true
}

/// Whether `text` opens with `head`.
pub fn opens_with(text: &[char], head: &[char]) -> (r: bool)
    ensures
        r == starts_with(text@, head@),
{
    if head.len() > text.len() {
        return false;
    }
    matches_at(text, head, 0)
}

/// Whether `needle` appears anywhere in `text`.
pub fn holds(text: &[char], needle: &[char]) -> (r: bool)
    ensures
        r == contains(text@, needle@),
{
    if needle.len() > text.len() {
        return false;
    }
    let last = text.len() - needle.len();
    let mut at: usize = 0;
    while at < last
        invariant
            last + needle.len() == text.len(),
            at <= last,
            forall|k: int|
                0 <= k < at ==> #[trigger] text@.subrange(k, k + needle@.len()) != needle@,
        decreases last - at,
    {
        if matches_at(text, needle, at) {
            return true;
        }
        at += 1;
    }
    matches_at(text, needle, last)
}

/// Whether `needle` appears anywhere in `text`, spelled as a word.
pub fn holds_word(text: &[char], needle: &str) -> (r: bool)
    ensures
        r == contains(text@, needle@),
{
    let n = chars_of(needle);
    holds(text, n.as_slice())
}

/// Whether `text` opens with `head`, spelled as a word.
pub fn opens_with_word(text: &[char], head: &str) -> (r: bool)
    ensures
        r == starts_with(text@, head@),
{
    let h = chars_of(head);
    opens_with(text, h.as_slice())
}

/// The decimal digits that spell `n`, with no leading zero but for zero itself.
pub open spec fn decimal(n: nat) -> Seq<char>
    decreases n,
{
    if n < 10 {
        seq![(48 + n) as char]
    } else {
        decimal(n / 10).push((48 + n % 10) as char)
    }
}

/// `n` in decimal.
pub fn decimal_of(n: u64) -> (r: Vec<char>)
    ensures
        r@ == decimal(n as nat),
    decreases n,
{
    if n < 10 {
        let mut out: Vec<char> = Vec::new();
        out.push(char_from_ascii((48 + n) as u8));
        out
    } else {
        let mut out = decimal_of(n / 10);
        out.push(char_from_ascii((48 + n % 10) as u8));
        out
    }
}

/// `more` appended to `out`.
pub fn push_all(out: &mut Vec<char>, more: &[char])
    ensures
        final(out)@ == old(out)@ + more@,
{
    let mut i: usize = 0;
    while i < more.len()
        invariant
            i <= more@.len(),
            out@ == old(out)@ + more@.take(i as int),
        decreases more@.len() - i,
    {
        out.push(more[i]);
        i += 1;
        assert(old(out)@ + more@.take(i as int) =~= (old(out)@ + more@.take(i - 1)).push(
            more@[i - 1],
        ));
    }
    assert(more@.take(more@.len() as int) =~= more@);
}

/// The characters of `word` appended to `out`.
pub fn push_str(out: &mut Vec<char>, word: &str)
    ensures
        final(out)@ == old(out)@ + word@,
{
    let chars = chars_of(word);
    push_all(out, chars.as_slice());
}

/// Whether two strings spell the same characters.
pub fn same_str(a: &str, b: &str) -> (r: bool)
    ensures
        r == (a@ == b@),
{
    let x = chars_of(a);
    let y = chars_of(b);
    same(x.as_slice(), y.as_slice())
}

} // verus!
