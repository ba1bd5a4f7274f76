//! The clipboard write, as the escape the terminal answers.
//!
//! OSC 52 carries the text base64 encoded between delimiters that cannot
//! appear in the payload, so the alphabet is the standard one rather than the
//! URL-safe one. Inside `tmux` the escape is discarded by default, so a pane
//! there hands the text to tmux and keeps the escape as the fallback.

use vstd::prelude::*;
use crate::text::{char_from_ascii, string_of};
use vstd::string::StringSliceAdditionalSpecFns;

verus! {

/// The character a six-bit value stands for in the standard alphabet.
pub open spec fn sextet_char(v: int) -> char {
    if v < 26 {
        (65 + v) as char
    } else if v < 52 {
        (97 + (v - 26)) as char
    } else if v < 62 {
        (48 + (v - 52)) as char
    } else if v == 62 {
        '+'
    } else {
        '/'
    }
}

/// The four characters one group of one to three bytes becomes: the bytes are
/// read as one 24-bit number, padded with zero bits, cut into four sextets, and
/// the sextets a short group has no bits for are `=`.
pub open spec fn group(bytes: Seq<u8>) -> Seq<char> {
    let a = bytes[0] as int;
    let b = if bytes.len() > 1 {
        bytes[1] as int
    } else {
        0
    };
    let c = if bytes.len() > 2 {
        bytes[2] as int
    } else {
        0
    };
    seq![
        sextet_char(a / 4),
        sextet_char((a % 4) * 16 + b / 16),
        if bytes.len() > 1 {
            sextet_char((b % 16) * 4 + c / 64)
        } else {
            '='
        },
        if bytes.len() > 2 {
            sextet_char(c % 64)
        } else {
            '='
        },
    ]
}

/// `bytes`, base64 encoded: each group of three bytes from the front, the last
/// one possibly short.
pub open spec fn base64(bytes: Seq<u8>) -> Seq<char>
    decreases bytes.len(),
{
    if bytes.len() == 0 {
        Seq::empty()
    } else if bytes.len() <= 3 {
        group(bytes)
    } else {
        group(bytes.take(3)) + base64(bytes.skip(3))
    }
}

/// How many characters `n` bytes encode to: four for every group begun.
pub open spec fn encoded_len(n: nat) -> nat {
    ((n + 2) / 3 * 4) as nat
}

/// The escape that opens an OSC 52 write to the clipboard selection.
pub open spec fn osc52_open() -> Seq<char> {
    seq!['\x1b', ']', '5', '2', ';', 'c', ';']
}

/// The string terminator that closes it.
pub open spec fn osc52_close() -> Seq<char> {
    seq!['\x1b', '\\']
}

/// The OSC 52 sequence that puts the text with these bytes on the clipboard.
pub open spec fn osc52(bytes: Seq<u8>) -> Seq<char> {
    osc52_open() + base64(bytes) + osc52_close()
}

/// Encoding the bytes up to a group boundary, then one more group, is encoding
/// the bytes up to that group's end.
proof fn lemma_base64_extends(s: Seq<u8>, i: nat, e: nat)
    requires
        i % 3 == 0,
        i < e <= s.len(),
        e <= i + 3,
    ensures
        base64(s.subrange(0, e as int)) =~= base64(s.subrange(0, i as int)) + group(
            s.subrange(i as int, e as int),
        ),
    decreases i,
{
    if i == 0 {
        assert(s.subrange(0, 0) =~= Seq::<u8>::empty());
    } else {
        let t = s.skip(3);
        lemma_base64_extends(t, (i - 3) as nat, (e - 3) as nat);
        assert(s.subrange(0, e as int).take(3) =~= s.subrange(0, 3));
        assert(s.subrange(0, e as int).skip(3) =~= t.subrange(0, e - 3));
        assert(t.subrange((i - 3) as int, (e - 3) as int) =~= s.subrange(i as int, e as int));
        if i == 3 {
            assert(t.subrange(0, 0) =~= Seq::<u8>::empty());
            assert(s.subrange(0, 3).len() == 3);
        } else {
            assert(s.subrange(0, i as int).take(3) =~= s.subrange(0, 3));
            assert(s.subrange(0, i as int).skip(3) =~= t.subrange(0, i - 3));
        }
    }
}

/// What `base64` gives is four characters for every group begun.
pub proof fn law_every_group_begun_is_four_characters(bytes: Seq<u8>)
    ensures
        base64(bytes).len() == encoded_len(bytes.len()),
    decreases bytes.len(),
{
    if bytes.len() > 3 {
        law_every_group_begun_is_four_characters(bytes.skip(3));
    }
}

/// The six-bit value a character of the standard alphabet stands for.
pub open spec fn sextet_value(c: char) -> int {
    if 'A' <= c && c <= 'Z' {
        c as int - 65
    } else if 'a' <= c && c <= 'z' {
        c as int - 97 + 26
    } else if '0' <= c && c <= '9' {
        c as int - 48 + 52
    } else if c == '+' {
        62
    } else {
        63
    }
}

/// The one to three bytes four characters stand for, `=` marking the
/// sextets a short group has no bits for.
pub open spec fn ungroup(q: Seq<char>) -> Seq<u8> {
    let v0 = sextet_value(q[0]);
    let v1 = sextet_value(q[1]);
    let v2 = sextet_value(q[2]);
    let v3 = sextet_value(q[3]);
    let x = (v0 * 4 + v1 / 16) as u8;
    let y = ((v1 % 16) * 16 + v2 / 4) as u8;
    let z = ((v2 % 4) * 64 + v3) as u8;
    if q[2] == '=' {
        seq![x]
    } else if q[3] == '=' {
        seq![x, y]
    } else {
        seq![x, y, z]
    }
}

/// Standard base64 decoding: each four characters from the front.
pub open spec fn unbase64(text: Seq<char>) -> Seq<u8>
    decreases text.len(),
{
    if text.len() < 4 {
        Seq::empty()
    } else {
        ungroup(text.take(4)) + unbase64(text.skip(4))
    }
}

/// Each sextet's character reads back as the sextet, and is never `=`.
proof fn lemma_sextet_reads_back(v: int)
    requires
        0 <= v < 64,
    ensures
        sextet_value(sextet_char(v)) == v,
        sextet_char(v) != '=',
{
    if v < 26 {
        assert(((65 + v) as char) as int == 65 + v);
    } else if v < 52 {
        assert(((97 + (v - 26)) as char) as int == 97 + (v - 26));
    } else if v < 62 {
        assert(((48 + (v - 52)) as char) as int == 48 + (v - 52));
    }
}

/// One group reads back as its bytes.
proof fn lemma_group_reads_back(bytes: Seq<u8>)
    requires
        1 <= bytes.len() <= 3,
    ensures
        ungroup(group(bytes)) =~= bytes,
{
    let a = bytes[0] as int;
    let b = if bytes.len() > 1 { bytes[1] as int } else { 0 };
    let c = if bytes.len() > 2 { bytes[2] as int } else { 0 };
    lemma_sextet_reads_back(a / 4);
    lemma_sextet_reads_back((a % 4) * 16 + b / 16);
    lemma_sextet_reads_back((b % 16) * 4 + c / 64);
    lemma_sextet_reads_back(c % 64);
    let q = group(bytes);
    assert((a / 4) * 4 + ((a % 4) * 16 + b / 16) / 16 == a);
    assert((((a % 4) * 16 + b / 16) % 16) * 16 + ((b % 16) * 4 + c / 64) / 4 == b);
    assert((((b % 16) * 4 + c / 64) % 4) * 64 + c % 64 == c);
    assert(ungroup(q)[0] == bytes[0]);
    if bytes.len() > 1 {
        assert(ungroup(q)[1] == bytes[1]);
    }
    if bytes.len() > 2 {
        assert(ungroup(q)[2] == bytes[2]);
    }
}

/// Decoding what `base64` gives gives back the bytes: it is bytes, not
/// characters, that are encoded, and nothing is lost.
pub proof fn law_decoding_gives_back_the_bytes(bytes: Seq<u8>)
    ensures
        unbase64(base64(bytes)) =~= bytes,
    decreases bytes.len(),
{
    if bytes.len() == 0 {
    } else if bytes.len() <= 3 {
        lemma_group_reads_back(bytes);
        let q = group(bytes);
        assert(base64(bytes) == q);
        assert(q.take(4) =~= q);
        assert(q.skip(4) =~= Seq::<char>::empty());
        assert(unbase64(q.skip(4)) =~= Seq::<u8>::empty());
        assert(unbase64(q) == ungroup(q.take(4)) + unbase64(q.skip(4)));
    } else {
        law_decoding_gives_back_the_bytes(bytes.skip(3));
        lemma_group_reads_back(bytes.take(3));
        let q = group(bytes.take(3));
        let whole = q + base64(bytes.skip(3));
        assert(whole.take(4) =~= q);
        assert(whole.skip(4) =~= base64(bytes.skip(3)));
        assert(base64(bytes) == whole);
        assert(unbase64(whole) == ungroup(whole.take(4)) + unbase64(whole.skip(4)));
        assert(bytes.take(3) + bytes.skip(3) =~= bytes);
    }
}

/// The character for the sextet `v`.
fn sextet(v: u32) -> (c: char)
    requires
        v < 64,
    ensures
        c == sextet_char(v as int),
{
    if v < 26 {
        char_from_ascii((65 + v) as u8)
    } else if v < 52 {
        char_from_ascii((97 + (v - 26)) as u8)
    } else if v < 62 {
        char_from_ascii((48 + (v - 52)) as u8)
    } else if v == 62 {
        '+'
    } else {
        '/'
    }
}

/// The group of `bytes` from `i` to `end`, encoded, appended to `out`.
fn push_group(out: &mut Vec<char>, bytes: &[u8], i: usize, end: usize)
    requires
        i < end <= bytes@.len(),
        end <= i + 3,
    ensures
        final(out)@ == old(out)@ + group(bytes@.subrange(i as int, end as int)),
{
    let a = bytes[i] as u32;
    let b: u32 = if end - i > 1 {
        bytes[i + 1] as u32
    } else {
        0
    };
    let c: u32 = if end - i > 2 {
        bytes[i + 2] as u32
    } else {
        0
    };
    let ghost g = bytes@.subrange(i as int, end as int);
    let ghost before = out@;
    out.push(sextet(a / 4));
    out.push(sextet((a % 4) * 16 + b / 16));
    if end - i > 1 {
        out.push(sextet((b % 16) * 4 + c / 64));
    } else {
        out.push('=');
    }
    if end - i > 2 {
        out.push(sextet(c % 64));
    } else {
        out.push('=');
    }
    assert(out@ =~= before + group(g));
}

/// `bytes` encoded, appended to `out`.
fn push_base64(out: &mut Vec<char>, bytes: &[u8])
    ensures
        final(out)@ == old(out)@ + base64(bytes@),
{
    let ghost start = out@;
    let mut i: usize = 0;
    assert(bytes@.subrange(0, 0) =~= Seq::<u8>::empty());
    assert(start + Seq::<char>::empty() =~= start);
    while i < bytes.len()
        invariant
            i <= bytes@.len(),
            i % 3 == 0 || i == bytes@.len(),
            out@ =~= start + base64(bytes@.subrange(0, i as int)),
        decreases bytes@.len() - i,
    {
        let end: usize = if bytes.len() - i >= 3 {
            i + 3
        } else {
            bytes.len()
        };
        push_group(out, bytes, i, end);
        proof {
            lemma_base64_extends(bytes@, i as nat, end as nat);
        }
        i = end;
    }
    assert(bytes@.subrange(0, bytes@.len() as int) =~= bytes@);
}

/// `text`, base64 encoded: its UTF-8 bytes in groups of three, each group four
/// characters of the standard alphabet, padded with `=`.
pub fn encode(text: &str) -> (r: String)
    ensures
        r@ == base64(text.spec_bytes()),
{
    let mut out: Vec<char> = Vec::new();
    push_base64(&mut out, text.as_bytes());
    assert(Seq::<char>::empty() + base64(text.spec_bytes()) =~= base64(text.spec_bytes()));
    string_of(&out)
}

/// The OSC 52 sequence that puts `text` on the terminal's clipboard.
///
/// **There is no reply**, so nothing downstream can learn whether this worked.
/// A caller telling the reader anything may only say what was sent.
pub fn copy(text: &str) -> (r: String)
    ensures
        r@ == osc52(text.spec_bytes()),
{
    let mut out: Vec<char> = vec!['\x1b', ']', '5', '2', ';', 'c', ';'];
    assert(out@ =~= osc52_open());
    push_base64(&mut out, text.as_bytes());
    out.push('\x1b');
    out.push('\\');
    assert(out@ =~= osc52(text.spec_bytes()));
    string_of(&out)
}

/// Which way a copy reaches the clipboard.
///
/// Two, because inside `tmux` the escape above is discarded. `set-clipboard` has
/// defaulted to `external` since tmux 2.6, and `external` lets tmux set the
/// terminal's clipboard while forbidding the applications inside it from doing
/// so. Handing the text to tmux makes tmux the one setting it.
#[derive(Debug, Clone, Copy, PartialEq, Eq, Structural)]
pub enum Route {
    /// Straight to the terminal, as OSC 52.
    Escape,
    /// Through tmux, which passes it on.
    Tmux,
}

/// The route a pane takes, given what `$TMUX` holds.
///
/// Every tmux pane carries it, and nothing else sets it. An empty value is not a
/// pane: the variable survives being cleared by an intermediate shell that way.
pub fn route(tmux: Option<&str>) -> (r: Route)
    ensures
        r == (match tmux {
            Some(value) if value@.len() > 0 => Route::Tmux,
            _ => Route::Escape,
        }),
{
    match tmux {
        Some(value) => {
            if value.is_empty() {
                Route::Escape
            } else {
                Route::Tmux
            }
        },
        None => Route::Escape,
    }
}

/// Whether the escape is still owed after the tmux route was tried: always,
/// unless the route was tmux and tmux carried the text.
pub fn owes_escape(route: Route, tmux_carried: bool) -> (r: bool)
    ensures
        r == !(route == Route::Tmux && tmux_carried),
{
    !(route == Route::Tmux && tmux_carried)
}

/// The error a carrier reports, carried through unread.
#[verifier::external_type_specification]
#[verifier::external_body]
pub struct ExIoError(std::io::Error);

/// What a carrier was handed: text for tmux, or a sequence for the terminal.
pub enum Handed {
    /// Text handed to tmux's buffer.
    Tmux(Seq<char>),
    /// A sequence written to the terminal.
    Terminal(Seq<char>),
}

/// One attempt at carrying text: what was handed, and what the carrier answered.
pub struct Call {
    /// What the carrier was handed.
    pub handed: Handed,
    /// What it answered.
    pub answer: Result<(), std::io::Error>,
}

/// Every attempt a carrier was asked to make, in order.
pub type CallLog = Seq<Call>;

/// What a route needs of the world, so a test can drive both without a terminal
/// and without tmux. A carrier answers for every attempt it is asked to make:
/// its `calls` are those attempts, each with what it answered, in order, and
/// each method adds its own attempt and nothing else.
pub trait Carrier {
    /// Every attempt this carrier was asked to make, with its answer, in order.
    spec fn calls(&self) -> CallLog;

    /// Hand `text` to tmux, and report what tmux made of it: an error where
    /// tmux is absent, refuses the flag, or exits non-zero.
    fn to_tmux(&mut self, text: &str) -> (r: std::io::Result<()>)
        ensures
            final(self).calls() == old(self).calls().push(Call { handed: Handed::Tmux(text@), answer: r }),
    ;

    /// Put `sequence` on the wire: an error where the write or the flush fails.
    fn to_terminal(&mut self, sequence: &str) -> (r: std::io::Result<()>)
        ensures
            final(self).calls() == old(self).calls().push(Call { handed: Handed::Terminal(sequence@), answer: r }),
    ;
}

/// What putting `text` on the clipboard by `route` asks of a carrier whose
/// calls were `before`, and what it answers: by tmux, tmux is handed the text
/// first, and where tmux carried it that is all, and success; otherwise, and
/// by the escape, the terminal is handed `sequence`, and its answer is the
/// answer.
pub open spec fn put_went(
    before: CallLog,
    after: CallLog,
    text: Seq<char>,
    sequence: Seq<char>,
    route: Route,
    r: Result<(), std::io::Error>,
) -> bool {
    let escaped = Call { handed: Handed::Terminal(sequence), answer: r };
    if route == Route::Tmux {
        &&& after.len() > before.len()
        &&& after.take(before.len() as int) == before
        &&& after[before.len() as int].handed == Handed::Tmux(text)
        &&& if after[before.len() as int].answer is Ok {
            after.len() == before.len() + 1 && r == Ok::<(), std::io::Error>(())
        } else {
            after.len() == before.len() + 2 && after[before.len() + 1int] == escaped
        }
    } else {
        after == before.push(escaped)
    }
}

/// Put `text` on the clipboard the way `route` says, and fall back to the escape
/// where that way could not carry it.
///
/// The fallback is not caution. `-w` arrived in tmux 3.2, so an older tmux
/// refuses outright, and the escape is what a reader had before this route
/// existed. The error, where neither route carried the text, is the escape's,
/// since that is the one every pane has.
pub fn put<C: Carrier>(carrier: &mut C, text: &str, route: Route) -> (r: std::io::Result<()>)
    ensures
        put_went(old(carrier).calls(), final(carrier).calls(), text@, osc52(text.spec_bytes()), route, r),
{
    let ghost before = carrier.calls();
    let tried = route == Route::Tmux;
    let carried = if tried {
        carrier.to_tmux(text).is_ok()
    } else {
        false
    };
    proof {
        if tried {
            assert(carrier.calls().take(before.len() as int) =~= before);
        }
    }
    if !owes_escape(route, carried) {
        return Ok(());
    }
    let ghost middle = carrier.calls();
    let sequence = copy(text);
    let r = carrier.to_terminal(sequence.as_str());
    proof {
        if tried {
            assert(carrier.calls().take(before.len() as int) =~= before);
            assert(carrier.calls()[before.len() as int] == middle[before.len() as int]);
        }
    }
    r
}

/// Whether `c` is one of the characters base64 writes: a letter, a digit,
/// `+`, `/` or the `=` of padding.
pub open spec fn in_alphabet(c: char) -> bool {
    ('A' <= c && c <= 'Z') || ('a' <= c && c <= 'z') || ('0' <= c && c <= '9') || c == '+' || c == '/'
        || c == '='
}

/// The payload is written in the alphabet alone, so neither the escape that
/// frames it nor a backslash can appear inside it: the delimiters cannot be
/// forged by the text.
pub proof fn law_the_payload_cannot_hold_a_delimiter(bytes: Seq<u8>)
    ensures
        forall|i: int| 0 <= i < base64(bytes).len() ==> in_alphabet(#[trigger] base64(bytes)[i]),
        forall|i: int|
            0 <= i < base64(bytes).len() ==> #[trigger] base64(bytes)[i] != '\x1b' && base64(bytes)[i] != '\\'
                && base64(bytes)[i] != '\x07',
    decreases bytes.len(),
{
    if bytes.len() > 0 {
        let first = if bytes.len() <= 3 {
            bytes
        } else {
            bytes.take(3)
        };
        let g = group(first);
        assert forall|k: int| 0 <= k < 4 implies in_alphabet(#[trigger] g[k]) by {
            let a = first[0] as int;
            assert(0 <= a / 4 < 64);
            assert(0 <= (a % 4) * 16 + 15 < 64);
        }
        if bytes.len() > 3 {
            law_the_payload_cannot_hold_a_delimiter(bytes.skip(3));
            let all = base64(bytes);
            assert forall|i: int| 0 <= i < all.len() implies in_alphabet(#[trigger] all[i]) by {
                if i < 4 {
                    assert(all[i] == g[i]);
                } else {
                    assert(all[i] == base64(bytes.skip(3))[i - 4]);
                }
            }
        }
    }
}

} // verus!
