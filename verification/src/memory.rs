//! This process's own resident set size, read out of what the kernel reports
//! about it. Reading the report is the shell's; this is what is read.

use vstd::prelude::*;
use crate::glyphs::{all_digits, digits_value, lemma_digits_grow, unsigned_part};
use crate::quote::{line_chars, text_lines};
use crate::text::{chars_of, is_white, lead_white, opens_with_word, slice_of, starts_with, white_space};

verus! {

/// A decimal `u64` the way the standard library reads one: an optional `+`,
/// then digits whose value fits.
pub open spec fn parsed_u64(text: Seq<char>) -> Option<u64> {
    let digits = unsigned_part(text);
    if digits.len() == 0 || !all_digits(digits) {
        None
    } else if digits_value(digits) > u64::MAX {
        None
    } else {
        Some(digits_value(digits) as u64)
    }
}

/// Parse a decimal `u64` the way the standard library does.
pub fn parse_u64(text: &[char]) -> (r: Option<u64>)
    ensures
        r == parsed_u64(text@),
{
    let start: usize = if text.len() > 0 && text[0] == '+' {
        1
    } else {
        0
    };
    let ghost digits = unsigned_part(text@);
    assert(digits =~= text@.subrange(start as int, text@.len() as int));
    if start == text.len() {
        return None;
    }
    let mut value: u128 = 0;
    let mut i = start;
    while i < text.len()
        invariant
            start <= i <= text@.len(),
            digits =~= text@.subrange(start as int, text@.len() as int),
            digits == unsigned_part(text@),
            forall|j: int| start <= j < i ==> '0' <= #[trigger] text@[j] <= '9',
            value == digits_value(text@.subrange(start as int, i as int)),
            value <= u64::MAX,
        decreases text@.len() - i,
    {
        let c = text[i];
        if !('0' <= c && c <= '9') {
            assert(!('0' <= digits[i - start] <= '9'));
            assert(!all_digits(digits));
            return None;
        }
        let d = (c as u32 - '0' as u32) as u128;
        assert(text@.subrange(start as int, i + 1).drop_last() =~= text@.subrange(
            start as int,
            i as int,
        ));
        let next = value * 10 + d;
        if next > u64::MAX as u128 {
            proof {
                lemma_digits_grow(text@.subrange(start as int, i + 1), digits);
                assert(digits_value(text@.subrange(start as int, i + 1)) == next);
            }
            return None;
        }
        value = next;
        i += 1;
    }
    assert(text@.subrange(start as int, text@.len() as int) =~= digits);
    Some(value as u64)
}

/// The `n`th run of non-blank characters in `text`, counting from nothing.
pub open spec fn word_at(text: Seq<char>, n: nat) -> Option<Seq<char>>
    decreases n,
{
    let rest = text.skip(lead_white(text) as int);
    if lead_white(text) >= text.len() || rest.len() == 0 {
        None
    } else {
        let end = word_end(rest, 0);
        if n == 0 {
            Some(rest.take(end))
        } else if end <= 0 {
            None
        } else {
            word_at(rest.skip(end), (n - 1) as nat)
        }
    }
}

/// Where the run of non-blank characters from `at` ends.
pub open spec fn word_end(text: Seq<char>, at: int) -> int
    decreases text.len() - at,
{
    if at < 0 || at >= text.len() || white_space(text[at]) {
        if at < 0 { 0 } else if at > text.len() { text.len() as int } else { at }
    } else {
        word_end(text, at + 1)
    }
}

/// The resident set size a process status report states: the value on its
/// first `VmRSS:` line, which the kernel gives in kibibytes, in bytes; nothing
/// where there is no such line, its value is not a number, or the bytes are
/// past what a `u64` holds.
pub open spec fn resident_in(status: Seq<char>) -> Option<u64> {
    let lines = text_lines(status);
    match first_rss(lines, 0) {
        None => None,
        Some(at) => match word_at(lines[at], 1) {
            None => None,
            Some(word) => match parsed_u64(word) {
                None => None,
                Some(kib) => if kib * 1024 > u64::MAX {
                    None
                } else {
                    Some((kib * 1024) as u64)
                },
            },
        },
    }
}

/// The first of `lines` from `from` on that opens with `VmRSS:`.
pub open spec fn first_rss(lines: Seq<Seq<char>>, from: int) -> Option<int>
    decreases lines.len() - from,
{
    if from < 0 || from >= lines.len() {
        None
    } else if starts_with(lines[from], "VmRSS:"@) {
        Some(from)
    } else {
        first_rss(lines, from + 1)
    }
}

/// Where the run of non-blank characters from `at` ends.
fn word_end_of(text: &[char], at: usize) -> (r: usize)
    requires
        at <= text@.len(),
    ensures
        r == word_end(text@, at as int),
        at <= r <= text@.len(),
{
    let mut i = at;
    while i < text.len() && !is_white(text[i])
        invariant
            at <= i <= text@.len(),
            word_end(text@, at as int) == word_end(text@, i as int),
        decreases text@.len() - i,
    {
        i += 1;
    }
    i
}

/// The `n`th run of non-blank characters in `text`.
pub fn nth_word(text: &[char], n: usize) -> (r: Option<Vec<char>>)
    ensures
        match r {
            Some(w) => word_at(text@, n as nat) == Some(w@),
            None => word_at(text@, n as nat) is None,
        },
    decreases n,
{
    let lead = crate::text::lead_of(text);
    if lead >= text.len() {
        return None;
    }
    let rest = slice_of(text, lead, text.len());
    assert(rest@ =~= text@.skip(lead as int));
    let end = word_end_of(rest.as_slice(), 0);
    if n == 0 {
        let w = slice_of(rest.as_slice(), 0, end);
        assert(w@ =~= rest@.take(end as int));
        return Some(w);
    }
    if end == 0 {
        return None;
    }
    let tail = slice_of(rest.as_slice(), end, rest.len());
    assert(tail@ =~= rest@.skip(end as int));
    nth_word(tail.as_slice(), n - 1)
}

/// The resident set size a process status report states, in bytes.
pub fn resident_of(status: &str) -> (r: Option<u64>)
    ensures
        r == resident_in(status@),
{
    let chars = chars_of(status);
    let lines = line_chars(chars.as_slice());
    let ghost all = lines.deep_view();
    let mut i: usize = 0;
    while i < lines.len()
        invariant
            i <= lines@.len(),
            all == lines.deep_view(),
            all =~= text_lines(status@),
            first_rss(all, 0) == first_rss(all, i as int),
        decreases lines@.len() - i,
    {
        assert(all[i as int] =~= lines@[i as int]@);
        if opens_with_word(lines[i].as_slice(), "VmRSS:") {
            let word = match nth_word(lines[i].as_slice(), 1) {
                Some(w) => w,
                None => {
                    return None;
                },
            };
            let kib = match parse_u64(word.as_slice()) {
                Some(k) => k,
                None => {
                    return None;
                },
            };
            if kib > u64::MAX / 1024 {
                return None;
            }
            return Some(kib * 1024);
        }
        i += 1;
    }
    None
}

} // verus!
