//! What of an agent's answer is code, and how a quoted line is cut.
//!
//! An answer is free text an agent wrote with no schema, so the only code found
//! here is code the agent declared: a fenced block, and a run between backticks.
//! An indented block is words, that being the shape a continued list item also
//! has, and colouring prose as code reads worse than colouring nothing.

use vstd::prelude::*;
use crate::text::{chars_of, push_all, slice_of, string_of, trim, trimmed};
use crate::config::{first_at, first_index, lemma_first_at_bound};
use crate::printable::{as_counts, break_chars, lemma_breaks_inside, lemma_prefix_bytes, spec_breaks, walk_fits};
use crate::render::{indent, indent_of};

verus! {

/// The fewest backticks that open a fence.
pub const FENCE: usize = 3;

/// `text` cut at every line feed, the line feeds dropped: one more line than
/// there are line feeds.
pub open spec fn split_lines(text: Seq<char>) -> Seq<Seq<char>>
    decreases text.len(),
{
    if text.len() == 0 {
        seq![Seq::empty()]
    } else {
        let before = split_lines(text.drop_last());
        if text.last() == '\n' {
            before.push(Seq::empty())
        } else {
            before.update(before.len() - 1, before.last().push(text.last()))
        }
    }
}

/// `line` without the carriage return it may end with.
pub open spec fn strip_cr(line: Seq<char>) -> Seq<char> {
    if line.len() > 0 && line.last() == '\r' {
        line.drop_last()
    } else {
        line
    }
}

/// `text`'s lines, each without the carriage return a store round-trip keeps.
pub open spec fn text_lines(text: Seq<char>) -> Seq<Seq<char>> {
    split_lines(text).map_values(|line: Seq<char>| strip_cr(line))
}

pub proof fn lemma_split_lines_nonempty(text: Seq<char>)
    ensures
        split_lines(text).len() >= 1,
    decreases text.len(),
{
    if text.len() > 0 {
        lemma_split_lines_nonempty(text.drop_last());
    }
}

/// The lines of `text` as runs of characters.
pub(crate) fn line_chars(text: &[char]) -> (r: Vec<Vec<char>>)
    ensures
        r.deep_view() =~= text_lines(text@),
{
    let mut out: Vec<Vec<char>> = Vec::new();
    let mut cur: Vec<char> = Vec::new();
    let mut i: usize = 0;
    assert(text@.subrange(0, 0) =~= Seq::<char>::empty());
    while i < text.len()
        invariant
            i <= text@.len(),
            split_lines(text@.subrange(0, i as int)).len() == out@.len() + 1,
            forall|k: int|
                0 <= k < out@.len() ==> #[trigger] out@[k]@ == strip_cr(
                    split_lines(text@.subrange(0, i as int))[k],
                ),
            cur@ == split_lines(text@.subrange(0, i as int)).last(),
        decreases text@.len() - i,
    {
        let c = text[i];
        let ghost before = split_lines(text@.subrange(0, i as int));
        assert(text@.subrange(0, i + 1).drop_last() =~= text@.subrange(0, i as int));
        if c == '\n' {
            let line = without_cr(cur.as_slice());
            out.push(line);
            cur = Vec::new();
        } else {
            cur.push(c);
        }
        i += 1;
        proof {
            let after = split_lines(text@.subrange(0, i as int));
            assert forall|k: int| 0 <= k < out@.len() implies #[trigger] out@[k]@ == strip_cr(
                after[k],
            ) by {
                if k < before.len() - 1 {
                    assert(after[k] == before[k]);
                }
            }
        }
    }
    assert(text@.subrange(0, text@.len() as int) =~= text@);
    let last = without_cr(cur.as_slice());
    out.push(last);
    proof {
        let all = split_lines(text@);
        assert forall|k: int| 0 <= k < out@.len() implies #[trigger] out@[k]@ == strip_cr(all[k]) by {
        }
        assert(out.deep_view() =~= text_lines(text@)) by {
            assert forall|k: int| 0 <= k < out@.len() implies out.deep_view()[k] == text_lines(
                text@,
            )[k] by {
                assert(out.deep_view()[k] == out@[k]@);
            }
        }
    }
    out
}

/// `line` without a closing carriage return.
fn without_cr(line: &[char]) -> (r: Vec<char>)
    ensures
        r@ == strip_cr(line@),
{
    if line.len() > 0 && line[line.len() - 1] == '\r' {
        crate::text::slice_of(line, 0, line.len() - 1)
    } else {
        crate::text::slice_of(line, 0, line.len())
    }
}

/// `text`'s lines, each without the carriage return a store round-trip keeps.
///
/// An agent writes over a pipe rather than into a file, so its line endings
/// are its own platform's, and one left on the end draws as the unprintable
/// mark at the end of every line it wrote.
pub fn lines_of(text: &str) -> (r: Vec<String>)
    ensures
        r@.len() == text_lines(text@).len(),
        forall|k: int| 0 <= k < r@.len() ==> #[trigger] r@[k]@ == text_lines(text@)[k],
{
    let chars = chars_of(text);
    let lines = line_chars(chars.as_slice());
    let mut out: Vec<String> = Vec::new();
    let mut k: usize = 0;
    while k < lines.len()
        invariant
            k <= lines@.len(),
            lines.deep_view() =~= text_lines(text@),
            out@.len() == k,
            forall|j: int| 0 <= j < k ==> #[trigger] out@[j]@ == text_lines(text@)[j],
        decreases lines@.len() - k,
    {
        assert(lines.deep_view()[k as int] == lines@[k as int]@);
        out.push(string_of(lines[k].as_slice()));
        k += 1;
    }
    out
}

/// How many backticks `s` opens with.
pub open spec fn lead_ticks(s: Seq<char>) -> nat
    decreases s.len(),
{
    if s.len() == 0 || s[0] != '`' {
        0
    } else {
        1 + lead_ticks(s.drop_first())
    }
}

/// Whether `s` holds a backtick anywhere.
pub open spec fn has_tick(s: Seq<char>) -> bool {
    exists|i: int| 0 <= i < s.len() && #[trigger] s[i] == '`'
}

/// How many backticks a fence opens with and what it names after them, or
/// `None` where `line` is not one.
///
/// A name holding a backtick names nothing, which is what keeps a fence that
/// opens and closes on one line from asking for a language spelled with the
/// fence that closed it.
pub open spec fn fence_of(line: Seq<char>) -> Option<(nat, Seq<char>)> {
    let trimmed = trim(line);
    let ticks = lead_ticks(trimmed);
    let named = trim(trimmed.subrange(ticks as int, trimmed.len() as int));
    let named = if has_tick(named) {
        Seq::empty()
    } else {
        named
    };
    if ticks >= FENCE {
        Some((ticks, named))
    } else {
        None
    }
}


/// Whether `s` holds a backtick.
fn holds_tick(s: &[char]) -> (r: bool)
    ensures
        r == has_tick(s@),
{
    let mut i: usize = 0;
    while i < s.len()
        invariant
            i <= s@.len(),
            forall|j: int| 0 <= j < i ==> s@[j] != '`',
        decreases s@.len() - i,
    {
        if s[i] == '`' {
            return true;
        }
        i += 1;
    }
    false
}

/// The fence `line` is, if it is one: its backticks and the name after them.
fn fence(line: &[char]) -> (r: Option<(usize, Vec<char>)>)
    ensures
        match r {
            Some((ticks, named)) => fence_of(line@) == Some((ticks as nat, named@)),
            None => fence_of(line@) is None,
        },
{
    let t = trimmed(line);
    let mut ticks: usize = 0;
    assert(t@.subrange(0, t@.len() as int) =~= t@);
    while ticks < t.len() && t[ticks] == '`'
        invariant
            ticks <= t@.len(),
            lead_ticks(t@) == ticks + lead_ticks(t@.subrange(ticks as int, t@.len() as int)),
        decreases t@.len() - ticks,
    {
        assert(t@.subrange(ticks as int, t@.len() as int).drop_first() =~= t@.subrange(
            ticks + 1,
            t@.len() as int,
        ));
        ticks += 1;
    }
    assert(lead_ticks(t@.subrange(ticks as int, t@.len() as int)) == 0);
    if ticks < FENCE {
        return None;
    }
    let rest = crate::text::slice_of(t.as_slice(), ticks, t.len());
    let named = trimmed(rest.as_slice());
    if holds_tick(named.as_slice()) {
        Some((ticks, Vec::new()))
    } else {
        Some((ticks, named))
    }
}

/// One stretch of an answer, as the characters it holds.
pub enum ChunkView {
    /// Words, newlines and all.
    Prose(Seq<char>),
    /// A fenced block, its fences dropped.
    Code { token: Option<Seq<char>>, lines: Seq<Seq<char>> },
}

/// One stretch of an answer: what the agent wrote as words, or what it fenced.
#[derive(Debug, Clone)]
pub enum Chunk {
    /// Words, newlines and all, to be broken the way prose is.
    Prose(String),
    /// A fenced block, its fences dropped.
    Code {
        /// What the opening fence called the language, where it called it one.
        token: Option<String>,
        /// The block's lines, in order.
        lines: Vec<String>,
    },
}

/// The characters of an optional string.
pub open spec fn opt_view(s: Option<String>) -> Option<Seq<char>> {
    match s {
        Some(t) => Some(t@),
        None => None,
    }
}

/// The characters of each string, in order.
pub open spec fn strings_view(lines: Seq<String>) -> Seq<Seq<char>> {
    lines.map_values(|l: String| l@)
}

impl View for Chunk {
    type V = ChunkView;

    open spec fn view(&self) -> ChunkView {
        match self {
            Chunk::Prose(text) => ChunkView::Prose(text@),
            Chunk::Code { token, lines } => ChunkView::Code {
                token: opt_view(*token),
                lines: strings_view(lines@),
            },
        }
    }
}

/// `lines` joined with line feeds between them.
pub open spec fn join_lines(lines: Seq<Seq<char>>) -> Seq<char>
    decreases lines.len(),
{
    if lines.len() == 0 {
        Seq::empty()
    } else if lines.len() == 1 {
        lines[0]
    } else {
        join_lines(lines.drop_last()) + seq!['\n'] + lines.last()
    }
}

/// Where the walk over an answer's lines stands: the chunks closed so far, the
/// prose lines waiting, and the block open, if one is.
pub struct Walk {
    pub out: Seq<ChunkView>,
    pub prose: Seq<Seq<char>>,
    pub token: Option<Seq<char>>,
    pub lines: Seq<Seq<char>>,
    pub fenced: bool,
    pub opened: nat,
}

/// The walk before any line.
pub open spec fn walk_start() -> Walk {
    Walk {
        out: Seq::empty(),
        prose: Seq::empty(),
        token: None,
        lines: Seq::empty(),
        fenced: false,
        opened: FENCE as nat,
    }
}

/// One line more. Inside a block, a fence at least as long as the one that
/// opened it closes the block, which is what lets a block of four quote a block
/// of three whole, and any other line is the block's. Outside, a fence closes
/// the prose before it and opens a block, and any other line is prose.
pub open spec fn walk_step(w: Walk, line: Seq<char>) -> Walk {
    let marker = fence_of(line);
    let closes = match marker {
        Some((ticks, _)) => ticks >= w.opened,
        None => false,
    };
    if w.fenced {
        if closes {
            Walk {
                out: w.out.push(ChunkView::Code { token: w.token, lines: w.lines }),
                token: None,
                lines: Seq::empty(),
                fenced: false,
                ..w
            }
        } else {
            Walk { lines: w.lines.push(line), ..w }
        }
    } else {
        match marker {
            Some((ticks, named)) => Walk {
                out: if w.prose.len() > 0 {
                    w.out.push(ChunkView::Prose(join_lines(w.prose)))
                } else {
                    w.out
                },
                prose: Seq::empty(),
                token: if named.len() > 0 {
                    Some(named)
                } else {
                    None
                },
                opened: ticks,
                fenced: true,
                ..w
            },
            None => Walk { prose: w.prose.push(line), ..w },
        }
    }
}

/// The walk over all of `lines`.
pub open spec fn walk(lines: Seq<Seq<char>>) -> Walk
    decreases lines.len(),
{
    if lines.len() == 0 {
        walk_start()
    } else {
        walk_step(walk(lines.drop_last()), lines.last())
    }
}

/// The chunks a finished walk holds: a block left open runs to the end, and
/// waiting prose is the last chunk.
pub open spec fn walk_end(w: Walk) -> Seq<ChunkView> {
    if w.fenced {
        w.out.push(ChunkView::Code { token: w.token, lines: w.lines })
    } else if w.prose.len() > 0 {
        w.out.push(ChunkView::Prose(join_lines(w.prose)))
    } else {
        w.out
    }
}

/// The chunks of a reply.
pub open spec fn reply_chunks(reply: Seq<char>) -> Seq<ChunkView> {
    if has_fence(reply) {
        fenced_chunks(reply)
    } else {
        seq![ChunkView::Prose(reply)]
    }
}

/// Whether some line of `reply` is a fence.
pub open spec fn has_fence(reply: Seq<char>) -> bool {
    exists|k: int| 0 <= k < text_lines(reply).len() && fence_of(#[trigger] text_lines(reply)[k]) is Some
}

/// The chunks the walk over `reply`'s lines gives, where it holds a fence.
pub open spec fn fenced_chunks(reply: Seq<char>) -> Seq<ChunkView> {
    walk_end(walk(text_lines(reply)))
}

/// The chunks' characters, in order.
pub open spec fn chunks_view(chunks: Seq<Chunk>) -> Seq<ChunkView> {
    chunks.map_values(|c: Chunk| c@)
}

/// The characters of an optional run of characters.
pub open spec fn opt_chars(s: Option<Vec<char>>) -> Option<Seq<char>> {
    match s {
        Some(t) => Some(t@),
        None => None,
    }
}

/// A run of characters is its own deep view.
proof fn lemma_chars_deep(line: Vec<char>)
    ensures
        line.deep_view() == line@,
{
    assert(line.deep_view() =~= line@);
}

/// `lines` joined with line feeds between them, as a string.
fn join(lines: &[Vec<char>]) -> (r: String)
    ensures
        r@ == join_lines(lines.deep_view()),
{
    let mut out: Vec<char> = Vec::new();
    let mut k: usize = 0;
    while k < lines.len()
        invariant
            k <= lines@.len(),
            out@ == join_lines(lines.deep_view().take(k as int)),
        decreases lines@.len() - k,
    {
        if k > 0 {
            out.push('\n');
        }
        let line = &lines[k];
        let mut j: usize = 0;
        let ghost base = out@;
        while j < line.len()
            invariant
                j <= line@.len(),
                out@ == base + line@.take(j as int),
            decreases line@.len() - j,
        {
            out.push(line[j]);
            j += 1;
        }
        proof {
            let all = lines.deep_view();
            assert(all.take(k + 1).drop_last() =~= all.take(k as int));
            assert(all[k as int] == lines@[k as int]@);
            assert(line@.take(line@.len() as int) =~= line@);
            if k == 0 {
                assert(all.take(0) =~= Seq::<Seq<char>>::empty());
                assert(base =~= Seq::<char>::empty());
            }
        }
        k += 1;
    }
    assert(lines.deep_view().take(lines@.len() as int) =~= lines.deep_view());
    string_of(out.as_slice())
}

/// Each run of characters as a string.
fn strings(lines: &[Vec<char>]) -> (r: Vec<String>)
    ensures
        strings_view(r@) =~= lines.deep_view(),
{
    let mut out: Vec<String> = Vec::new();
    let mut k: usize = 0;
    while k < lines.len()
        invariant
            k <= lines@.len(),
            strings_view(out@) =~= lines.deep_view().take(k as int),
        decreases lines@.len() - k,
    {
        let ghost before = out@;
        let text = string_of(lines[k].as_slice());
        out.push(text);
        proof {
            lemma_chars_deep(lines@[k as int]);
            assert(text@ == lines@[k as int]@);
            assert(lines.deep_view()[k as int] == lines@[k as int]@);
            assert(strings_view(out@) =~= strings_view(before).push(text@));
            assert(lines.deep_view().take(k + 1) =~= lines.deep_view().take(k as int).push(
                lines.deep_view()[k as int],
            ));
        }
        k += 1;
    }
    assert(lines.deep_view().take(lines@.len() as int) =~= lines.deep_view());
    out
}

/// The block made of `token` and `lines`.
fn code_chunk(token: Option<Vec<char>>, lines: &[Vec<char>]) -> (c: Chunk)
    ensures
        c@ == (ChunkView::Code { token: opt_chars(token), lines: lines.deep_view() }),
{
    let t = match token {
        Some(name) => Some(string_of(name.as_slice())),
        None => None,
    };
    Chunk::Code { token: t, lines: strings(lines) }
}

/// `reply` split into what the agent wrote as words and what it fenced.
///
/// A fence left open runs to the end. A reply with no fence is one
/// [`Chunk::Prose`] holding it exactly, so an answer that quoted nothing is
/// broken by the rule it always was.
pub fn chunks(reply: &str) -> (r: Vec<Chunk>)
    ensures
        chunks_view(r@) == reply_chunks(reply@),
{
    if !holds_fence(reply) {
        let mut out: Vec<Chunk> = Vec::new();
        out.push(Chunk::Prose(reply.to_owned()));
        assert(chunks_view(out@) =~= seq![ChunkView::Prose(reply@)]);
        return out;
    }
    fenced(reply)
}

/// Whether some line of `reply` is a fence.
fn holds_fence(reply: &str) -> (r: bool)
    ensures
        r == has_fence(reply@),
{
    let chars = chars_of(reply);
    let all = line_chars(chars.as_slice());
    let ghost every = all.deep_view();
    let mut i: usize = 0;
    while i < all.len()
        invariant
            i <= all@.len(),
            every == all.deep_view(),
            every =~= text_lines(reply@),
            forall|k: int| 0 <= k < i ==> fence_of(#[trigger] every[k]) is None,
        decreases all@.len() - i,
    {
        let marker = fence(all[i].as_slice());
        assert(every[i as int] == all@[i as int]@);
        if marker.is_some() {
            assert(fence_of(text_lines(reply@)[i as int]) is Some);
            return true;
        }
        i += 1;
    }
    assert forall|k: int| 0 <= k < text_lines(reply@).len() implies fence_of(#[trigger] text_lines(reply@)[k]) is None by {
        assert(every[k] == text_lines(reply@)[k]);
    }
    false
}

/// The walk over `reply`'s lines: prose gathered, blocks closed by a fence at
/// least as long as the one that opened them, a block left open run to the end.
fn fenced(reply: &str) -> (r: Vec<Chunk>)
    ensures
        chunks_view(r@) == fenced_chunks(reply@),
{
    let chars = chars_of(reply);
    let all = line_chars(chars.as_slice());
    let ghost every = all.deep_view();
    let mut out: Vec<Chunk> = Vec::new();
    let mut prose: Vec<Vec<char>> = Vec::new();
    let mut token: Option<Vec<char>> = None;
    let mut lines: Vec<Vec<char>> = Vec::new();
    let mut fenced = false;
    let mut opened: usize = FENCE;
    let mut i: usize = 0;
    assert(every.take(0) =~= Seq::<Seq<char>>::empty());
    assert(chunks_view(out@) =~= Seq::<ChunkView>::empty());
    assert(prose.deep_view() =~= Seq::<Seq<char>>::empty());
    assert(lines.deep_view() =~= Seq::<Seq<char>>::empty());
    while i < all.len()
        invariant
            i <= all@.len(),
            every == all.deep_view(),
            every =~= text_lines(reply@),
            ({
                let w = walk(every.take(i as int));
                &&& chunks_view(out@) == w.out
                &&& prose.deep_view() == w.prose
                &&& opt_chars(token) == w.token
                &&& lines.deep_view() == w.lines
                &&& fenced == w.fenced
                &&& opened == w.opened
            }),
        decreases all@.len() - i,
    {
        let line = &all[i];
        let ghost w = walk(every.take(i as int));
        proof {
            assert(every.take(i + 1).drop_last() =~= every.take(i as int));
            assert(every.take(i + 1).last() == every[i as int]);
            assert(every[i as int] == line@);
        }
        let marker = fence(line.as_slice());
        let closes = match &marker {
            Some((ticks, _)) => *ticks >= opened,
            None => false,
        };
        if fenced {
            if closes {
                let mut done_lines: Vec<Vec<char>> = Vec::new();
                std::mem::swap(&mut done_lines, &mut lines);
                let mut done_token: Option<Vec<char>> = None;
                std::mem::swap(&mut done_token, &mut token);
                let c = code_chunk(done_token, done_lines.as_slice());
                out.push(c);
                fenced = false;
                assert(chunks_view(out@) =~= w.out.push(
                    ChunkView::Code { token: w.token, lines: w.lines },
                ));
                assert(lines.deep_view() =~= Seq::<Seq<char>>::empty());
            } else {
                let copy = crate::text::slice_of(line.as_slice(), 0, line.len());
                proof {
                    lemma_chars_deep(copy);
                    assert(copy@ =~= line@);
                }
                lines.push(copy);
                assert(lines.deep_view() =~= w.lines.push(line@));
            }
        } else {
            match marker {
                Some((ticks, named)) => {
                    if prose.len() > 0 {
                        let text = join(prose.as_slice());
                        out.push(Chunk::Prose(text));
                        assert(chunks_view(out@) =~= w.out.push(
                            ChunkView::Prose(join_lines(w.prose)),
                        ));
                        prose = Vec::new();
                    }
                    assert(prose.deep_view() =~= Seq::<Seq<char>>::empty());
                    token = if named.len() > 0 {
                        Some(named)
                    } else {
                        None
                    };
                    opened = ticks;
                    fenced = true;
                },
                None => {
                    let copy = crate::text::slice_of(line.as_slice(), 0, line.len());
                    proof {
                        lemma_chars_deep(copy);
                        assert(copy@ =~= line@);
                    }
                    prose.push(copy);
                    assert(prose.deep_view() =~= w.prose.push(line@));
                },
            }
        }
        i += 1;
    }
    assert(every.take(all@.len() as int) =~= every);
    let ghost w = walk(every);
    if fenced {
        let c = code_chunk(token, lines.as_slice());
        out.push(c);
        assert(chunks_view(out@) =~= walk_end(w));
    } else if prose.len() > 0 {
        let text = join(prose.as_slice());
        out.push(Chunk::Prose(text));
        assert(chunks_view(out@) =~= walk_end(w));
    }
    out
}




/// A reply with no fence is one prose chunk holding it exactly, carriage
/// returns and all, so an answer that quoted nothing is broken by the rule it
/// always was.
pub proof fn law_fenceless_reply_is_one_prose(reply: Seq<char>)
    requires
        forall|k: int|
            0 <= k < text_lines(reply).len() ==> fence_of(#[trigger] text_lines(reply)[k]) is None,
    ensures
        reply_chunks(reply) == seq![ChunkView::Prose(reply)],
{
}

/// What a grammar called a run of code: the class where no grammar spoke, or
/// the grammar's own class by its number in the grammar's table.
#[derive(Debug, Clone, Copy, PartialEq, Eq, Structural)]
pub enum Class {
    /// No grammar spoke for this run.
    Plain,
    /// The grammar's class with this number.
    Tagged(u16),
}

/// A run of a note row's text and the ink it takes.
#[derive(Debug, Clone, Copy, PartialEq, Eq, Structural)]
pub struct Run {
    /// Bytes this run covers.
    pub len: usize,
    /// `None` is the row's own voice; `Some` is quoted code, in the class a
    /// grammar gave it or [`Class::Plain`] where none did.
    pub class: Option<Class>,
}

/// A run of bytes a grammar classed within one line of code.
#[derive(Debug, Clone, Copy, PartialEq, Eq, Structural)]
pub struct Span {
    /// Bytes this span covers.
    pub len: usize,
    /// What the grammar called them.
    pub class: Class,
}

/// A run of bytes within one line, which a wrapped row has to clip and re-base.
///
/// Two vocabularies for one walk: a [`Span`] is what a grammar said about a
/// line of the diff, and a [`Run`] is that plus the answer's own voice, which no
/// span can say. The walk itself is the same either way.
pub trait Sliced: Copy + Sized {
    /// The bytes this run covers, as a number.
    spec fn extent(&self) -> nat;

    /// The same run over `n` bytes instead.
    spec fn over(&self, n: nat) -> Self;

    /// A run resized to a length a `usize` holds covers that length.
    proof fn lemma_over_extent(&self, n: nat)
        requires
            n <= usize::MAX,
        ensures
            self.over(n).extent() == n,
    ;

    /// Bytes this run covers.
    fn bytes(self) -> (r: usize)
        ensures
            r == self.extent(),
    ;

    /// The same run over `bytes` bytes instead.
    fn resized(self, bytes: usize) -> (r: Self)
        ensures
            r == self.over(bytes as nat),
    ;
}

impl Sliced for Run {
    open spec fn extent(&self) -> nat {
        self.len as nat
    }

    open spec fn over(&self, n: nat) -> Self {
        Run { len: n as usize, class: self.class }
    }

    proof fn lemma_over_extent(&self, n: nat) {
    }

    fn bytes(self) -> (r: usize) {
        self.len
    }

    fn resized(self, bytes: usize) -> (r: Self) {
        Run { len: bytes, class: self.class }
    }
}

impl Sliced for Span {
    open spec fn extent(&self) -> nat {
        self.len as nat
    }

    open spec fn over(&self, n: nat) -> Self {
        Span { len: n as usize, class: self.class }
    }

    proof fn lemma_over_extent(&self, n: nat) {
    }

    fn bytes(self) -> (r: usize) {
        self.len
    }

    fn resized(self, bytes: usize) -> (r: Self) {
        Span { len: bytes, class: self.class }
    }
}

/// The bytes all of `runs` cover.
pub open spec fn total<T: Sliced>(runs: Seq<T>) -> nat
    decreases runs.len(),
{
    if runs.len() == 0 {
        0
    } else {
        runs[0].extent() + total(runs.drop_first())
    }
}

/// The larger of two numbers.
pub open spec fn max_of(a: int, b: int) -> int {
    if a >= b {
        a
    } else {
        b
    }
}

/// The smaller of two numbers.
pub open spec fn min_of(a: int, b: int) -> int {
    if a <= b {
        a
    } else {
        b
    }
}

/// `runs`, laid end to end from byte `at`, clipped to the bytes from `start` to
/// `end`: each run that overlaps them, in order, resized to the overlap.
pub open spec fn clipped<T: Sliced>(runs: Seq<T>, at: int, start: int, end: int) -> Seq<T>
    decreases runs.len(),
{
    if runs.len() == 0 || at >= end {
        Seq::empty()
    } else {
        let run = runs[0];
        let from = max_of(at, start);
        let to = min_of(at + run.extent(), end);
        let head = if to > from {
            seq![run.over((to - from) as nat)]
        } else {
            Seq::empty()
        };
        head + clipped(runs.drop_first(), at + run.extent(), start, end)
    }
}

/// How many bytes two ranges share.
pub open spec fn overlap(a_start: int, a_end: int, b_start: int, b_end: int) -> int {
    max_of(0, min_of(a_end, b_end) - max_of(a_start, b_start))
}

proof fn lemma_total_push<T: Sliced>(head: Seq<T>, rest: Seq<T>)
    ensures
        total(head + rest) == total(head) + total(rest),
    decreases head.len(),
{
    if head.len() > 0 {
        assert((head + rest).drop_first() =~= head.drop_first() + rest);
        lemma_total_push(head.drop_first(), rest);
    }
}

/// Clipping a line's runs to a piece of it keeps exactly the bytes the piece
/// shares with the line: nothing of the piece is lost and nothing outside it
/// comes along.
pub proof fn law_clipped_runs_cover_the_overlap<T: Sliced>(
    runs: Seq<T>,
    at: int,
    start: int,
    end: int,
)
    requires
        0 <= at,
        at + total(runs) <= usize::MAX,
    ensures
        total(clipped(runs, at, start, end)) == overlap(at, at + total(runs), start, end),
    decreases runs.len(),
{
    if runs.len() > 0 && at < end {
        let run = runs[0];
        let from = max_of(at, start);
        let to = min_of(at + run.extent(), end);
        law_clipped_runs_cover_the_overlap(runs.drop_first(), at + run.extent(), start, end);
        let head = if to > from {
            seq![run.over((to - from) as nat)]
        } else {
            Seq::<T>::empty()
        };
        lemma_total_push(head, clipped(runs.drop_first(), at + run.extent(), start, end));
        if to > from {
            run.lemma_over_extent((to - from) as nat);
            assert(head.drop_first() =~= Seq::<T>::empty());
            assert(total(head.drop_first()) == 0);
            assert(head[0] == run.over((to - from) as nat));
            assert(total(head) == to - from);
        } else {
            assert(total(head) == 0);
        }
        assert(total(runs) == run.extent() + total(runs.drop_first()));
    }
}

/// `runs` clipped to the byte range `piece` and re-based onto it.
pub fn rebase<T: Sliced>(runs: &[T], piece: &std::ops::Range<usize>) -> (r: Vec<T>)
    requires
        total(runs@) <= usize::MAX,
    ensures
        r@ == clipped(runs@, 0, piece.start as int, piece.end as int),
{
    let mut out: Vec<T> = Vec::new();
    let mut at: usize = 0;
    let mut i: usize = 0;
    let ghost whole = clipped(runs@, 0, piece.start as int, piece.end as int);
    assert(runs@.skip(0) =~= runs@);
    assert(out@ + whole =~= whole);
    while i < runs.len() && at < piece.end
        invariant
            i <= runs@.len(),
            at + total(runs@.skip(i as int)) == total(runs@),
            total(runs@) <= usize::MAX,
            whole == clipped(runs@, 0, piece.start as int, piece.end as int),
            out@ + clipped(runs@.skip(i as int), at as int, piece.start as int, piece.end as int)
                == whole,
        decreases runs@.len() - i,
    {
        let run = runs[i];
        let ghost rest = runs@.skip(i as int);
        let ghost before = out@;
        assert(rest[0] == run);
        assert(rest.drop_first() =~= runs@.skip(i + 1));
        let n = run.bytes();
        let from = if at >= piece.start {
            at
        } else {
            piece.start
        };
        let to = if at + n <= piece.end {
            at + n
        } else {
            piece.end
        };
        let ghost tail = clipped(runs@.skip(i + 1), at + n, piece.start as int, piece.end as int);
        if to > from {
            let piece_run = run.resized(to - from);
            out.push(piece_run);
            assert(out@ + tail =~= before + (seq![run.over((to - from) as nat)] + tail));
        } else {
            assert(Seq::<T>::empty() + tail =~= tail);
        }
        at = at + n;
        i += 1;
    }
    proof {
        if i < runs@.len() {
            assert(at >= piece.end);
        } else {
            assert(runs@.skip(i as int) =~= Seq::<T>::empty());
        }
        assert(out@ + Seq::<T>::empty() =~= out@);
    }
    out
}

/// Text that ends at a line feed, or is empty, ends with an empty line, which
/// whatever follows takes over: the lines of the two together are the first's
/// less that empty line, then the second's.
pub proof fn lemma_split_after_feed(a: Seq<char>, b: Seq<char>)
    requires
        a.len() == 0 || a.last() == '\n',
    ensures
        split_lines(a + b) == split_lines(a).drop_last() + split_lines(b),
    decreases b.len(),
{
    if b.len() == 0 {
        assert(a + b =~= a);
        if a.len() == 0 {
            assert(split_lines(a).drop_last() + split_lines(b) =~= split_lines(a));
        } else {
            assert(split_lines(a).drop_last() + split_lines(b) =~= split_lines(a));
        }
    } else {
        let b1 = b.drop_last();
        let c = b.last();
        lemma_split_after_feed(a, b1);
        lemma_split_lines_nonempty(b1);
        assert((a + b).drop_last() =~= a + b1);
        assert((a + b).last() == c);
        let x = split_lines(a).drop_last();
        let y = split_lines(b1);
        if c == '\n' {
            assert((x + y).push(Seq::empty()) =~= x + y.push(Seq::empty()));
        } else {
            assert((x + y).update((x + y).len() - 1, (x + y).last().push(c)) =~= x + y.update(
                y.len() - 1,
                y.last().push(c),
            ));
        }
    }
}

/// The same, for the lines with their carriage returns dropped.
pub proof fn lemma_lines_after_feed(a: Seq<char>, b: Seq<char>)
    requires
        a.len() == 0 || a.last() == '\n',
    ensures
        text_lines(a + b) == text_lines(a).drop_last() + text_lines(b),
{
    lemma_split_after_feed(a, b);
    lemma_split_lines_nonempty(a);
    assert(text_lines(a + b) =~= text_lines(a).drop_last() + text_lines(b));
}

/// Bytes `c` takes in UTF-8.
pub open spec fn char_bytes(c: char) -> nat {
    if (c as u32) < 0x80 {
        1
    } else if (c as u32) < 0x800 {
        2
    } else if (c as u32) < 0x10000 {
        3
    } else {
        4
    }
}

/// Bytes `s` takes in UTF-8.
pub open spec fn utf8_len(s: Seq<char>) -> nat
    decreases s.len(),
{
    if s.len() == 0 {
        0
    } else {
        utf8_len(s.drop_last()) + char_bytes(s.last())
    }
}

/// Two runs of characters take the bytes each takes.
pub proof fn lemma_utf8_len_concat(a: Seq<char>, b: Seq<char>)
    ensures
        utf8_len(a + b) == utf8_len(a) + utf8_len(b),
    decreases b.len(),
{
    if b.len() == 0 {
        assert(a + b =~= a);
    } else {
        assert((a + b).drop_last() =~= a + b.drop_last());
        lemma_utf8_len_concat(a, b.drop_last());
    }
}

/// What [`utf8_len`] counts is the length of the UTF-8 encoding.
pub proof fn lemma_utf8_len_is_encoding(s: Seq<char>)
    ensures
        utf8_len(s) == vstd::utf8::encode_utf8(s).len(),
    decreases s.len(),
{
    if s.len() > 0 {
        lemma_utf8_len_is_encoding(s.drop_first());
        let c = s[0];
        assert(seq![c] + s.drop_first() =~= s);
        lemma_utf8_len_concat(seq![c], s.drop_first());
        assert(seq![c].drop_last() =~= Seq::<char>::empty());
        assert(seq![c].last() == c);
        assert(utf8_len(Seq::<char>::empty()) == 0);
        assert(utf8_len(seq![c]) == char_bytes(c));
        vstd::utf8::char_is_scalar(c);
        assert(vstd::utf8::encode_scalar(c as u32).len() == char_bytes(c));
    }
}

/// Bytes one character takes.
fn char_bytes_of(c: char) -> (r: usize)
    ensures
        r == char_bytes(c),
{
    let v = c as u32;
    if v < 0x80 {
        1
    } else if v < 0x800 {
        2
    } else if v < 0x10000 {
        3
    } else {
        4
    }
}

/// Bytes a run of characters takes in UTF-8.
pub fn utf8_count(s: &[char]) -> (r: usize)
    requires
        utf8_len(s@) <= usize::MAX,
    ensures
        r == utf8_len(s@),
{
    let mut n: usize = 0;
    let mut i: usize = 0;
    while i < s.len()
        invariant
            i <= s@.len(),
            n == utf8_len(s@.take(i as int)),
            utf8_len(s@) <= usize::MAX,
        decreases s@.len() - i,
    {
        proof {
            assert(s@.take(i as int + 1).drop_last() =~= s@.take(i as int));
            assert(s@.take(i as int + 1) + s@.skip(i as int + 1) =~= s@);
            lemma_utf8_len_concat(s@.take(i as int + 1), s@.skip(i as int + 1));
        }
        n = n + char_bytes_of(s[i]);
        i += 1;
    }
    assert(s@.take(s@.len() as int) =~= s@);
    n
}

/// `runs` with `len` bytes of `class` after them, folded into the last run
/// where the two agree, and nothing added for no bytes.
pub open spec fn pushed(runs: Seq<Run>, len: nat, class: Option<Class>) -> Seq<Run> {
    if len == 0 {
        runs
    } else if runs.len() > 0 && runs.last().class == class {
        runs.drop_last().push(Run { len: (runs.last().len + len) as usize, class })
    } else {
        runs.push(Run { len: len as usize, class })
    }
}

/// The bytes all of `runs` cover, one more run at a time.
pub proof fn lemma_total_last<T: Sliced>(runs: Seq<T>)
    requires
        runs.len() > 0,
    ensures
        total(runs) == total(runs.drop_last()) + runs.last().extent(),
{
    let one = seq![runs.last()];
    assert(runs.drop_last() + one =~= runs);
    lemma_total_push(runs.drop_last(), one);
    assert(one.drop_first() =~= Seq::<T>::empty());
    assert(total(Seq::<T>::empty()) == 0);
    assert(total(one) == one[0].extent() + total(one.drop_first()));
    assert(one[0] == runs.last());
}

/// Pushing covers the bytes pushed more.
pub proof fn lemma_pushed_total(runs: Seq<Run>, len: nat, class: Option<Class>)
    requires
        total(runs) + len <= usize::MAX,
    ensures
        total(pushed(runs, len, class)) == total(runs) + len,
{
    if len > 0 {
        if runs.len() > 0 && runs.last().class == class {
            let p = pushed(runs, len, class);
            lemma_total_last(runs);
            lemma_total_last(p);
            assert(p.drop_last() =~= runs.drop_last());
        } else {
            let p = pushed(runs, len, class);
            lemma_total_last(p);
            assert(p.drop_last() =~= runs);
        }
    }
}

/// Whether `runs` are folded: none empty, and no two neighbours of one class.
pub open spec fn folded(runs: Seq<Run>) -> bool {
    &&& forall|i: int| 0 <= i < runs.len() ==> #[trigger] runs[i].len > 0
    &&& forall|i: int| 0 <= i < runs.len() - 1 ==> #[trigger] runs[i].class != runs[i + 1].class
}

/// Pushing onto folded runs leaves them folded.
pub proof fn lemma_pushed_folded(runs: Seq<Run>, len: nat, class: Option<Class>)
    requires
        folded(runs),
        total(runs) + len <= usize::MAX,
    ensures
        folded(pushed(runs, len, class)),
{
    let p = pushed(runs, len, class);
    if len > 0 {
        if runs.len() > 0 && runs.last().class == class {
            assert forall|i: int| 0 <= i < p.len() - 1 implies #[trigger] p[i].class != p[i + 1].class by {
                assert(p[i] == runs[i]);
                if i + 1 < p.len() - 1 {
                    assert(p[i + 1] == runs[i + 1]);
                } else {
                    assert(runs[i].class != runs[i + 1].class);
                }
            }
            lemma_total_last(runs);
        } else {
            assert forall|i: int| 0 <= i < p.len() - 1 implies #[trigger] p[i].class != p[i + 1].class by {
                assert(p[i] == runs[i]);
                if i + 1 < p.len() - 1 {
                    assert(p[i + 1] == runs[i + 1]);
                }
            }
        }
    }
}

/// Append `len` bytes of `class`, merging into the run before it when they agree.
pub fn push(runs: &mut Vec<Run>, len: usize, class: Option<Class>)
    requires
        total(old(runs)@) + len <= usize::MAX,
    ensures
        final(runs)@ == pushed(old(runs)@, len as nat, class),
{
    if len == 0 {
        return;
    }
    let n = runs.len();
    if n > 0 && runs[n - 1].class == class {
        proof {
            lemma_total_last(runs@);
        }
        let last = runs[n - 1];
        runs.set(n - 1, Run { len: last.len + len, class });
        assert(runs@ =~= pushed(old(runs)@, len as nat, class));
    } else {
        runs.push(Run { len, class });
    }
}

/// `runs` with adjacent runs of one class folded together, as a clip can leave
/// them.
pub open spec fn merged_runs(runs: Seq<Run>) -> Seq<Run>
    decreases runs.len(),
{
    if runs.len() == 0 {
        Seq::empty()
    } else {
        pushed(merged_runs(runs.drop_last()), runs.last().len as nat, runs.last().class)
    }
}

/// Merging keeps every byte and leaves the runs folded.
pub proof fn law_merged_runs_keep_their_bytes(runs: Seq<Run>)
    requires
        total(runs) <= usize::MAX,
    ensures
        total(merged_runs(runs)) == total(runs),
        folded(merged_runs(runs)),
    decreases runs.len(),
{
    if runs.len() > 0 {
        lemma_total_last(runs);
        law_merged_runs_keep_their_bytes(runs.drop_last());
        lemma_pushed_total(merged_runs(runs.drop_last()), runs.last().len as nat, runs.last().class);
        lemma_pushed_folded(merged_runs(runs.drop_last()), runs.last().len as nat, runs.last().class);
    }
}

/// `runs` with adjacent runs of one class folded together.
pub fn merged(runs: Vec<Run>) -> (r: Vec<Run>)
    requires
        total(runs@) <= usize::MAX,
    ensures
        r@ == merged_runs(runs@),
{
    let mut out: Vec<Run> = Vec::new();
    let mut i: usize = 0;
    while i < runs.len()
        invariant
            i <= runs@.len(),
            out@ == merged_runs(runs@.take(i as int)),
            total(runs@) <= usize::MAX,
        decreases runs@.len() - i,
    {
        proof {
            let t = runs@.take(i as int + 1);
            assert(t.drop_last() =~= runs@.take(i as int));
            assert(t + runs@.skip(i as int + 1) =~= runs@);
            lemma_total_push(t, runs@.skip(i as int + 1));
            lemma_total_last(t);
            law_merged_runs_keep_their_bytes(runs@.take(i as int));
            lemma_total_push(runs@.take(i as int), seq![runs@[i as int]]);
        }
        let run = runs[i];
        push(&mut out, run.len, run.class);
        i += 1;
    }
    assert(runs@.take(runs@.len() as int) =~= runs@);
    out
}

/// One run per span over a line of `len` bytes, from byte `at`: each span cut
/// to what is left of the line, and the rest of the line plain.
pub open spec fn runs_walk(spans: Seq<Span>, len: nat, at: nat, out: Seq<Run>) -> Seq<Run>
    decreases spans.len(),
{
    if spans.len() == 0 {
        pushed(out, (len - at) as nat, Some(Class::Plain))
    } else {
        let left = (len - at) as nat;
        let take = if (spans[0].len as nat) < left {
            spans[0].len as nat
        } else {
            left
        };
        let next = pushed(out, take, Some(spans[0].class));
        if at + take == len {
            next
        } else {
            runs_walk(spans.drop_first(), len, at + take, next)
        }
    }
}

/// The runs a line's spans give, and the whole line plain where none came.
pub open spec fn runs_of_spans(spans: Seq<Span>, len: nat) -> Seq<Run> {
    runs_walk(spans, len, 0, Seq::empty())
}

/// The runs a walk gives cover the line exactly.
pub proof fn lemma_runs_walk_total(spans: Seq<Span>, len: nat, at: nat, out: Seq<Run>)
    requires
        at <= len <= usize::MAX,
        total(out) == at,
    ensures
        total(runs_walk(spans, len, at, out)) == len,
    decreases spans.len(),
{
    if spans.len() == 0 {
        lemma_pushed_total(out, (len - at) as nat, Some(Class::Plain));
    } else {
        let left = (len - at) as nat;
        let take = if (spans[0].len as nat) < left {
            spans[0].len as nat
        } else {
            left
        };
        lemma_pushed_total(out, take, Some(spans[0].class));
        let next = pushed(out, take, Some(spans[0].class));
        if at + take != len {
            lemma_runs_walk_total(spans.drop_first(), len, at + take, next);
        }
    }
}

/// A line's runs cover it exactly, whatever its spans said.
pub proof fn law_a_lines_runs_cover_it(spans: Seq<Span>, len: nat)
    requires
        len <= usize::MAX,
    ensures
        total(runs_of_spans(spans, len)) == len,
{
    lemma_runs_walk_total(spans, len, 0, Seq::empty());
}

/// One run per span, and the whole line plain where the highlighter gave none.
pub fn runs_of(spans: &[Span], len: usize) -> (r: Vec<Run>)
    ensures
        r@ == runs_of_spans(spans@, len as nat),
{
    let mut out: Vec<Run> = Vec::new();
    let mut at: usize = 0;
    let mut i: usize = 0;
    assert(spans@.skip(0) =~= spans@);
    while i < spans.len()
        invariant_except_break
            at == len ==> i == 0,
        invariant
            i <= spans@.len(),
            at <= len,
            total(out@) == at,
            runs_walk(spans@, len as nat, 0, Seq::empty()) == (if at == len && i > 0 {
                out@
            } else {
                runs_walk(spans@.skip(i as int), len as nat, at as nat, out@)
            }),
        ensures
            (at == len && i > 0) || i == spans@.len(),
            i <= spans@.len(),
            at <= len,
            total(out@) == at,
            runs_walk(spans@, len as nat, 0, Seq::empty()) == (if at == len && i > 0 {
                out@
            } else {
                runs_walk(spans@.skip(i as int), len as nat, at as nat, out@)
            }),
        decreases spans@.len() - i,
    {
        let span = spans[i];
        let left = len - at;
        let take = if span.len < left {
            span.len
        } else {
            left
        };
        proof {
            lemma_pushed_total(out@, take as nat, Some(span.class));
            assert(spans@.skip(i as int)[0] == span);
            assert(spans@.skip(i as int).drop_first() =~= spans@.skip(i as int + 1));
        }
        push(&mut out, take, Some(span.class));
        at = at + take;
        i += 1;
        if at == len {
            break;
        }
    }
    if at == len && i > 0 {
        return out;
    }
    proof {
        assert(spans@.skip(i as int) =~= Seq::<Span>::empty());
        lemma_pushed_total(out@, (len - at) as nat, Some(Class::Plain));
    }
    push(&mut out, len - at, Some(Class::Plain));
    out
}

/// A paragraph's backticked pairs unwrapped from `rest` on: what is written
/// out so far, its runs, and what is left once no pair remains.
pub open spec fn inline_walk(rest: Seq<char>, out: Seq<char>, runs: Seq<Run>) -> (Seq<char>, Seq<Run>, Seq<char>)
    decreases rest.len(),
{
    let open = first_at(rest, '`');
    if open < 0 {
        (out, runs, rest)
    } else {
        let after = rest.skip(open + 1);
        let close = first_at(after, '`');
        if close < 0 {
            (out, runs, rest)
        } else {
            proof {
                lemma_first_at_bound(rest, '`');
                lemma_first_at_bound(after, '`');
            }
            let before = rest.take(open);
            let code = after.take(close);
            inline_walk(
                after.skip(close + 1),
                out + before + code,
                pushed(pushed(runs, utf8_len(before), None), utf8_len(code), Some(Class::Plain)),
            )
        }
    }
}

/// A paragraph with its backticked runs unwrapped, and where they landed: the
/// words in the paragraph's own voice, each pair's inside as plain code. A
/// paragraph with no pair in it comes back whole, with no runs at all.
pub open spec fn inline_of(paragraph: Seq<char>) -> (Seq<char>, Seq<Run>) {
    let (out, runs, rest) = inline_walk(paragraph, Seq::empty(), Seq::empty());
    if runs.len() == 0 {
        (paragraph, Seq::empty())
    } else {
        (out + rest, pushed(runs, utf8_len(rest), None))
    }
}

/// What one pair costs a paragraph: the run before it, the two backticks, and
/// its inside.
proof fn lemma_pair_bytes(rest: Seq<char>, open: int, close: int)
    requires
        0 <= open < rest.len(),
        0 <= close < rest.len() - open - 1,
    ensures
        utf8_len(rest) == utf8_len(rest.take(open)) + char_bytes(rest[open]) + utf8_len(
            rest.skip(open + 1).take(close),
        ) + char_bytes(rest[open + 1 + close]) + utf8_len(rest.skip(open + 1).skip(close + 1)),
{
    let after = rest.skip(open + 1);
    let a = rest.take(open);
    let b = after.take(close);
    let c = after.skip(close + 1);
    let t1 = seq![rest[open]];
    let t2 = seq![after[close]];
    assert(rest =~= a + t1 + b + t2 + c);
    lemma_utf8_len_concat(a + t1 + b + t2, c);
    lemma_utf8_len_concat(a + t1 + b, t2);
    lemma_utf8_len_concat(a + t1, b);
    lemma_utf8_len_concat(a, t1);
    assert(t1.drop_last() =~= Seq::<char>::empty());
    assert(t2.drop_last() =~= Seq::<char>::empty());
    assert(utf8_len(Seq::<char>::empty()) == 0);
    assert(t1.last() == rest[open]);
    assert(t2.last() == after[close]);
}

/// `paragraph` with its backticked runs unwrapped, and where they landed.
///
/// A run takes no grammar, a backticked word being as often a path or a flag as
/// it is code, and an unclosed backtick is a character the agent wrote.
pub fn inline(paragraph: &str) -> (r: (String, Vec<Run>))
    requires
        utf8_len(paragraph@) <= usize::MAX,
    ensures
        r.0@ == inline_of(paragraph@).0,
        r.1@ == inline_of(paragraph@).1,
{
    let chars = chars_of(paragraph);
    let mut rest: Vec<char> = chars;
    let mut out: Vec<char> = Vec::new();
    let mut runs: Vec<Run> = Vec::new();
    loop
        invariant
            inline_walk(paragraph@, Seq::empty(), Seq::empty()) == inline_walk(rest@, out@, runs@),
            total(runs@) == utf8_len(out@),
            utf8_len(out@) + utf8_len(rest@) <= utf8_len(paragraph@),
            utf8_len(paragraph@) <= usize::MAX,
        ensures
            inline_walk(paragraph@, Seq::empty(), Seq::empty()) == (out@, runs@, rest@),
            total(runs@) == utf8_len(out@),
            utf8_len(out@) + utf8_len(rest@) <= utf8_len(paragraph@),
            utf8_len(paragraph@) <= usize::MAX,
        decreases rest@.len(),
    {
        let open = match first_index(rest.as_slice(), '`') {
            Some(open) => open,
            None => {
                break;
            },
        };
        let after = slice_of(rest.as_slice(), open + 1, rest.len());
        let close = match first_index(after.as_slice(), '`') {
            Some(close) => close,
            None => {
                break;
            },
        };
        let before = slice_of(rest.as_slice(), 0, open);
        let code = slice_of(after.as_slice(), 0, close);
        let tail = slice_of(after.as_slice(), close + 1, after.len());
        proof {
            lemma_first_at_bound(rest@, '`');
            lemma_first_at_bound(after@, '`');
            assert(after@ =~= rest@.skip(open + 1));
            assert(before@ =~= rest@.take(open as int));
            lemma_pair_bytes(rest@, open as int, close as int);
            lemma_utf8_len_concat(out@, before@);
            lemma_utf8_len_concat(out@ + before@, code@);
            lemma_pushed_total(runs@, utf8_len(before@), None);
            lemma_pushed_total(pushed(runs@, utf8_len(before@), None), utf8_len(code@), Some(Class::Plain));
        }
        let nb = utf8_count(before.as_slice());
        let nc = utf8_count(code.as_slice());
        push(&mut runs, nb, None);
        push(&mut runs, nc, Some(Class::Plain));
        push_all(&mut out, before.as_slice());
        push_all(&mut out, code.as_slice());
        rest = tail;
    }
    if runs.len() == 0 {
        return (paragraph.to_owned(), Vec::new());
    }
    proof {
        lemma_utf8_len_concat(out@, rest@);
        lemma_pushed_total(runs@, utf8_len(rest@), None);
    }
    let n = utf8_count(rest.as_slice());
    push(&mut runs, n, None);
    push_all(&mut out, rest.as_slice());
    (string_of(out.as_slice()), runs)
}

/// Unwrapping pairs keeps the runs covering what is written out, and never
/// writes more than the paragraph had.
pub proof fn lemma_inline_walk_covers(rest: Seq<char>, out: Seq<char>, runs: Seq<Run>, limit: nat)
    requires
        total(runs) == utf8_len(out),
        utf8_len(out) + utf8_len(rest) <= limit <= usize::MAX,
    ensures
        total(inline_walk(rest, out, runs).1) == utf8_len(inline_walk(rest, out, runs).0),
        utf8_len(inline_walk(rest, out, runs).0) + utf8_len(inline_walk(rest, out, runs).2) <= limit,
    decreases rest.len(),
{
    let open = first_at(rest, '`');
    lemma_first_at_bound(rest, '`');
    if open >= 0 {
        let after = rest.skip(open + 1);
        let close = first_at(after, '`');
        lemma_first_at_bound(after, '`');
        if close >= 0 {
            let before = rest.take(open);
            let code = after.take(close);
            lemma_pair_bytes(rest, open, close);
            assert(rest[open + 1 + close] == after[close]);
            lemma_utf8_len_concat(out, before);
            lemma_utf8_len_concat(out + before, code);
            lemma_pushed_total(runs, utf8_len(before), None);
            lemma_pushed_total(pushed(runs, utf8_len(before), None), utf8_len(code), Some(Class::Plain));
            lemma_inline_walk_covers(
                after.skip(close + 1),
                out + before + code,
                pushed(pushed(runs, utf8_len(before), None), utf8_len(code), Some(Class::Plain)),
                limit,
            );
        }
    }
}

/// An unwrapped paragraph's runs cover its text exactly, and a paragraph that
/// comes back with no runs comes back as it was.
pub proof fn law_inline_runs_cover_the_text(paragraph: Seq<char>)
    requires
        utf8_len(paragraph) <= usize::MAX,
    ensures
        inline_of(paragraph).1.len() > 0 ==> total(inline_of(paragraph).1) == utf8_len(inline_of(paragraph).0),
        inline_of(paragraph).1.len() == 0 ==> inline_of(paragraph).0 == paragraph,
{
    assert(total(Seq::<Run>::empty()) == 0);
    assert(utf8_len(Seq::<char>::empty()) == 0);
    assert(Seq::<char>::empty() + paragraph =~= paragraph);
    lemma_utf8_len_concat(Seq::<char>::empty(), paragraph);
    lemma_inline_walk_covers(paragraph, Seq::empty(), Seq::empty(), utf8_len(paragraph));
    let (out, runs, rest) = inline_walk(paragraph, Seq::empty(), Seq::empty());
    if runs.len() > 0 {
        lemma_utf8_len_concat(out, rest);
        lemma_pushed_total(runs, utf8_len(rest), None);
    }
}


/// One display row of a quoted block: its bytes, what each run of them means,
/// and the columns a continuation stands in by.
#[derive(Debug, Clone, PartialEq, Eq)]
pub struct CodeRow {
    /// This row's piece of the line.
    pub text: String,
    /// What each run of `text` means, covering it exactly.
    pub runs: Vec<Run>,
    /// Columns of leading blank before the text, so nested code keeps its block
    /// shape. Zero on the row a line starts on.
    pub indent: usize,
}

/// A display row as values.
pub struct RowView {
    pub text: Seq<char>,
    pub runs: Seq<Run>,
    pub indent: usize,
}

impl View for CodeRow {
    type V = RowView;

    open spec fn view(&self) -> RowView {
        RowView { text: self.text@, runs: self.runs@, indent: self.indent }
    }
}

/// The row of `line` from character `a` to character `b`, with the line's
/// `runs` clipped to its bytes and re-based onto it, standing in by `shift`
/// unless it is where the line starts.
pub open spec fn row_at(line: Seq<char>, runs: Seq<Run>, a: nat, b: nat, shift: usize) -> RowView {
    RowView {
        text: line.subrange(a as int, b as int),
        runs: merged_runs(
            clipped(runs, 0, utf8_len(line.take(a as int)) as int, utf8_len(line.take(b as int)) as int),
        ),
        indent: if a > 0 {
            shift
        } else {
            0
        },
    }
}

/// A line's rows at most `room` columns wide, with `spans` from the grammar
/// covering it: the whole line where there is no room to break into, and
/// otherwise one row from each break to the next.
pub open spec fn line_rows(line: Seq<char>, spans: Seq<Span>, room: usize) -> Seq<RowView> {
    let runs = runs_of_spans(spans, utf8_len(line));
    if room == 0 {
        seq![RowView { text: line, runs, indent: 0 }]
    } else {
        let cuts = spec_breaks(line, room, utf8_len(line));
        let starts = seq![0nat] + cuts;
        let ends = cuts.push(line.len());
        Seq::new(starts.len(), |j: int| row_at(line, runs, starts[j], ends[j], indent(line, room) as usize))
    }
}

/// The spans of line `i`, none where the grammar gave none.
pub open spec fn spans_for(spans: Seq<Seq<Span>>, i: int) -> Seq<Span> {
    if 0 <= i < spans.len() {
        spans[i]
    } else {
        Seq::empty()
    }
}

/// A quoted block's lines as rows, line after line.
pub open spec fn block_rows(lines: Seq<Seq<char>>, spans: Seq<Seq<Span>>, room: usize) -> Seq<RowView>
    decreases lines.len(),
{
    if lines.len() == 0 {
        Seq::empty()
    } else {
        block_rows(lines.drop_last(), spans, room) + line_rows(lines.last(), spans_for(spans, lines.len() - 1), room)
    }
}

/// Rows as values.
pub open spec fn row_views(rows: Seq<CodeRow>) -> Seq<RowView> {
    rows.map_values(|row: CodeRow| row@)
}

/// Whether every sum the rows of `line` are built from fits a `usize`.
pub open spec fn line_fits(line: Seq<char>, room: usize) -> bool {
    utf8_len(line) <= usize::MAX && (room > 0 ==> walk_fits(line, room))
}

/// `line`'s rows, pushed after what `out` holds.
fn push_line_rows(line: &str, spans: &[Span], room: usize, out: &mut Vec<CodeRow>)
    requires
        line_fits(line@, room),
    ensures
        row_views(final(out)@) == row_views(old(out)@) + line_rows(line@, spans@, room),
{
    proof {
        lemma_utf8_len_is_encoding(line@);
    }
    let len = line.len();
    assert(len == utf8_len(line@));
    let runs = runs_of(spans, len);
    proof {
        law_a_lines_runs_cover_it(spans@, len as nat);
    }
    if room == 0 {
        let text = line.to_owned();
        out.push(CodeRow { text, runs, indent: 0 });
        assert(row_views(out@) =~= row_views(old(out)@) + line_rows(line@, spans@, room));
        return;
    }
    let cs = chars_of(line);
    let cuts = break_chars(line, room, len);
    let shift = indent_of(line, room);
    let ghost ks = spec_breaks(line@, room, len as nat);
    let ghost want = line_rows(line@, spans@, room);
    proof {
        lemma_breaks_inside(line@, room, len as nat);
    }
    let mut j: usize = 0;
    while j <= cuts.len()
        invariant
            j <= cuts@.len() + 1,
            cuts@ == as_counts(ks),
            cs@ == line@,
            room > 0,
            len == utf8_len(line@),
            utf8_len(line@) <= usize::MAX,
            total(runs@) == len,
            runs@ == runs_of_spans(spans@, len as nat),
            shift == indent(line@, room),
            ks == spec_breaks(line@, room, len as nat),
            want == line_rows(line@, spans@, room),
            forall|a: int| 0 <= a < ks.len() ==> 0 < #[trigger] ks[a] < cs@.len(),
            forall|a: int, b: int| 0 <= a < b < ks.len() ==> #[trigger] ks[a] < #[trigger] ks[b],
            ks.len() == 0 || ks.len() < cs@.len(),
            row_views(out@) == row_views(old(out)@) + want.take(j as int),
        decreases cuts@.len() + 1 - j,
    {
        let a: usize = if j == 0 {
            0
        } else {
            cuts[j - 1]
        };
        let b: usize = if j < cuts.len() {
            cuts[j]
        } else {
            cs.len()
        };
        proof {
            if j > 0 && j < cuts.len() {
                assert(ks[j - 1] < ks[j as int]);
            }
            if j > 0 {
                assert(a == ks[j - 1]);
            }
            if j < cuts.len() {
                assert(cuts@[j as int] == ks[j as int] as usize);
                assert(b == ks[j as int]);
            }
        }
        assert(a <= b);
        let piece = &cs.as_slice()[a..b];
        let text = string_of(piece);
        proof {
            lemma_prefix_bytes(cs@, a as int);
            lemma_prefix_bytes(cs@, b as int);
        }
        let before = &cs.as_slice()[0..a];
        assert(before@ =~= cs@.take(a as int));
        let through = &cs.as_slice()[0..b];
        assert(through@ =~= cs@.take(b as int));
        let from_byte = utf8_count(before);
        let to_byte = utf8_count(through);
        let span = from_byte..to_byte;
        let clipped_runs = rebase(runs.as_slice(), &span);
        proof {
            law_clipped_runs_cover_the_overlap(runs@, 0, from_byte as int, to_byte as int);
        }
        let row_runs = merged(clipped_runs);
        let indent = if a > 0 {
            shift
        } else {
            0
        };
        let row = CodeRow { text, runs: row_runs, indent };
        proof {
            let starts = seq![0nat] + ks;
            let ends = ks.push(cs@.len());
            assert(starts[j as int] == a);
            assert(ends[j as int] == b);
            assert(row@ == row_at(line@, runs@, a as nat, b as nat, shift));
            assert(want[j as int] == row@);
        }
        let ghost prev = out@;
        let ghost seen = row@;
        out.push(row);
        proof {
            assert(row_views(out@) =~= row_views(prev).push(seen));
            assert(want.take(j + 1) =~= want.take(j as int).push(want[j as int]));
        }
        j = j + 1;
    }
    assert(want.take(j as int) =~= want);
}

/// A quoted block's lines as rows of at most `room` columns, with `spans` from
/// the grammar covering each line.
pub fn code_rows(lines: &[String], spans: &[Vec<Span>], room: usize) -> (r: Vec<CodeRow>)
    requires
        forall|i: int| 0 <= i < lines@.len() ==> line_fits(#[trigger] lines@[i]@, room),
    ensures
        row_views(r@) == block_rows(
            lines@.map_values(|l: String| l@),
            spans@.map_values(|v: Vec<Span>| v@),
            room,
        ),
{
    let ghost line_views = lines@.map_values(|l: String| l@);
    let ghost span_views = spans@.map_values(|v: Vec<Span>| v@);
    let mut out: Vec<CodeRow> = Vec::new();
    let none: Vec<Span> = Vec::new();
    let mut at: usize = 0;
    while at < lines.len()
        invariant
            at <= lines@.len(),
            none@.len() == 0,
            line_views == lines@.map_values(|l: String| l@),
            span_views == spans@.map_values(|v: Vec<Span>| v@),
            forall|i: int| 0 <= i < lines@.len() ==> line_fits(#[trigger] lines@[i]@, room),
            row_views(out@) == block_rows(line_views.take(at as int), span_views, room),
        decreases lines@.len() - at,
    {
        let line = &lines[at];
        assert(line_fits(lines@[at as int]@, room));
        let here: &[Span] = if at < spans.len() {
            spans[at].as_slice()
        } else {
            none.as_slice()
        };
        assert(here@ == spans_for(span_views, at as int));
        push_line_rows(line.as_str(), here, room, &mut out);
        proof {
            let next = line_views.take(at + 1);
            assert(next.drop_last() =~= line_views.take(at as int));
            assert(next.last() == line@);
        }
        at = at + 1;
    }
    assert(line_views.take(at as int) =~= line_views);
    out
}

/// Texts laid end to end.
pub open spec fn joined_texts(rows: Seq<RowView>) -> Seq<char>
    decreases rows.len(),
{
    if rows.len() == 0 {
        Seq::empty()
    } else {
        joined_texts(rows.drop_last()) + rows.last().text
    }
}

/// The rows from the first `m` bounds of a line laid end to end are the
/// line up to the `m`-th end.
proof fn lemma_rows_rejoin(
    line: Seq<char>,
    runs: Seq<Run>,
    ks: Seq<nat>,
    shift: usize,
    m: int,
)
    requires
        0 <= m <= ks.len() + 1,
        forall|a: int| 0 <= a < ks.len() ==> 0 < #[trigger] ks[a] < line.len(),
        forall|a: int, b: int| 0 <= a < b < ks.len() ==> #[trigger] ks[a] < #[trigger] ks[b],
    ensures
        ({
            let starts = seq![0nat] + ks;
            let ends = ks.push(line.len());
            let rows = Seq::new(starts.len(), |j: int| row_at(line, runs, starts[j], ends[j], shift));
            joined_texts(rows.take(m)) == line.take(if m == 0 {
                0
            } else {
                ends[m - 1] as int
            })
        }),
    decreases m,
{
    let starts = seq![0nat] + ks;
    let ends = ks.push(line.len());
    let rows = Seq::new(starts.len(), |j: int| row_at(line, runs, starts[j], ends[j], shift));
    if m == 0 {
        assert(rows.take(0) =~= Seq::<RowView>::empty());
        assert(line.take(0) =~= Seq::<char>::empty());
    } else {
        lemma_rows_rejoin(line, runs, ks, shift, m - 1);
        assert(rows.take(m).drop_last() =~= rows.take(m - 1));
        let from = starts[m - 1] as int;
        let to = ends[m - 1] as int;
        assert(from == (if m - 1 == 0 {
            0
        } else {
            ends[m - 2] as int
        }));
        if m - 1 > 0 && m - 1 < ks.len() {
            assert(ks[m - 2] < ks[m - 1]);
        }
        assert(from <= to <= line.len());
        assert(rows.take(m).last() == rows[m - 1]);
        assert(line.take(from) + line.subrange(from, to) =~= line.take(to));
    }
}

/// A line's rows laid end to end give the line back: nothing is dropped at a
/// break and nothing is repeated.
pub proof fn law_a_lines_rows_rejoin_it(line: Seq<char>, spans: Seq<Span>, room: usize)
    requires
        line_fits(line, room),
    ensures
        joined_texts(line_rows(line, spans, room)) == line,
{
    let rows = line_rows(line, spans, room);
    if room == 0 {
        assert(rows.drop_last() =~= Seq::<RowView>::empty());
        assert(joined_texts(rows.drop_last()) == Seq::<char>::empty());
        assert(rows.last().text == line);
        assert(Seq::<char>::empty() + line =~= line);
    } else {
        let ks = spec_breaks(line, room, utf8_len(line));
        lemma_breaks_inside(line, room, utf8_len(line));
        let runs = runs_of_spans(spans, utf8_len(line));
        lemma_rows_rejoin(line, runs, ks, indent(line, room) as usize, ks.len() + 1 as int);
        assert(rows.take(ks.len() + 1 as int) =~= rows);
        assert(line.take(line.len() as int) =~= line);
    }
}

/// Every row's runs cover its text exactly, byte for byte.
pub proof fn law_each_rows_runs_cover_its_text(line: Seq<char>, spans: Seq<Span>, room: usize, j: int)
    requires
        line_fits(line, room),
        0 <= j < line_rows(line, spans, room).len(),
    ensures
        total(line_rows(line, spans, room)[j].runs) == utf8_len(line_rows(line, spans, room)[j].text),
{
    let rows = line_rows(line, spans, room);
    let len = utf8_len(line);
    let runs = runs_of_spans(spans, len);
    law_a_lines_runs_cover_it(spans, len);
    if room > 0 {
        let ks = spec_breaks(line, room, len);
        lemma_breaks_inside(line, room, len);
        let starts = seq![0nat] + ks;
        let ends = ks.push(line.len());
        let a = starts[j] as int;
        let b = ends[j] as int;
        if j > 0 && j < ks.len() {
            assert(ks[j - 1] < ks[j]);
        }
        assert(0 <= a <= b <= line.len());
        lemma_prefix_bytes(line, a);
        lemma_prefix_bytes(line, b);
        let from = utf8_len(line.take(a));
        let to = utf8_len(line.take(b));
        assert(line.take(b) =~= line.take(a) + line.subrange(a, b));
        lemma_utf8_len_concat(line.take(a), line.subrange(a, b));
        law_clipped_runs_cover_the_overlap(runs, 0, from as int, to as int);
        law_merged_runs_keep_their_bytes(clipped(runs, 0, from as int, to as int));
    } else {
        law_merged_runs_keep_their_bytes(runs);
    }
}
} // verus!
