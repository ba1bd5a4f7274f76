//! A line of file content made safe for terminal cells, and where it has to
//! break to fit a row.
//!
//! One walk does both: it expands tabs to their stops, draws control
//! characters as a dot, drops the emoji presentation selector, charges each
//! character the columns it takes, and stops at the row's edge or after as
//! many characters as the row could possibly show.

use vstd::prelude::*;
use crate::input::sat_sub;
use crate::quote::{utf8_count, utf8_len, lemma_utf8_len_concat};
use crate::render::{indent, indent_of, TAB_STOP};
use crate::text::{chars_of, control_char, is_control, span_width, string_of, width_of};

verus! {

/// Characters a row may examine per column it has, so a line of zero-width
/// characters still ends.
pub const CHARS_PER_COLUMN: usize = 4;

/// What a control character is drawn as.
pub const UNPRINTABLE: char = '\u{b7}';

/// The emoji presentation selector, which is dropped rather than drawn.
pub const PRESENTATION: char = '\u{fe0f}';

/// Where a walk stands between two characters: the column it reached, the
/// grapheme being measured (where it began and what it has cost), how many
/// characters still fitted the row, how many were examined, and what was
/// written.
pub struct Pace {
    pub column: nat,
    pub cluster: nat,
    pub cluster_width: nat,
    pub fitted: nat,
    pub examined: nat,
    pub out: Seq<char>,
}

/// `n` blanks.
pub open spec fn blanks(n: nat) -> Seq<char> {
    Seq::new(n, |i: int| ' ')
}

/// What the character at `i` does to the walk.
pub open spec fn stepped(cs: Seq<char>, i: int, p: Pace, room: nat) -> Pace {
    let c = cs[i];
    let q = Pace { examined: p.examined + 1, ..p };
    let moved = if c == PRESENTATION {
        q
    } else if c == '\t' {
        let stop = (TAB_STOP - p.column % (TAB_STOP as nat)) as nat;
        Pace { column: p.column + stop, out: p.out + blanks(stop), ..q }
    } else if control_char(c) {
        Pace { column: p.column + 1, out: p.out.push(UNPRINTABLE), ..q }
    } else if (c as u32) < 0x80 {
        Pace { column: p.column + 1, out: p.out.push(c), cluster: i as nat, cluster_width: 1, ..q }
    } else {
        let width = span_width(seq![c]) as nat;
        if width == 0 && p.cluster_width > 0 {
            let joined = span_width(cs.subrange(p.cluster as int, i + 1)) as nat;
            Pace {
                column: p.column + (if joined >= p.cluster_width {
                    (joined - p.cluster_width) as nat
                } else {
                    0nat
                }),
                out: p.out.push(c),
                cluster_width: joined,
                ..q
            }
        } else {
            Pace { column: p.column + width, out: p.out.push(c), cluster: i as nat, cluster_width: width, ..q }
        }
    };
    if moved.column <= room {
        Pace { fitted: (i + 1) as nat, ..moved }
    } else {
        moved
    }
}

/// The walk from character `i`: where it stands when the characters run out,
/// and whether it stopped early, at the row's edge or at the bound on
/// characters examined.
pub open spec fn walk_from(cs: Seq<char>, i: int, p: Pace, room: nat, limit: nat) -> (Pace, bool)
    decreases cs.len() - i,
{
    if i >= cs.len() || i < 0 {
        (p, false)
    } else if p.column >= room || p.examined >= limit {
        (p, true)
    } else {
        walk_from(cs, i + 1, stepped(cs, i, p, room), room, limit)
    }
}

/// Characters a row of `room` columns may examine: four a column and a tab
/// stop, pulled into `usize`.
pub open spec fn walk_limit(room: usize) -> nat {
    let four = if room * CHARS_PER_COLUMN <= usize::MAX {
        room * CHARS_PER_COLUMN
    } else {
        usize::MAX as int
    };
    (if four + TAB_STOP <= usize::MAX {
        four + TAB_STOP
    } else {
        usize::MAX as int
    }) as nat
}

/// The whole walk of `cs` from `column`, writing after `out`.
pub open spec fn walked(cs: Seq<char>, column: usize, room: usize, out: Seq<char>) -> (Pace, bool) {
    walk_from(
        cs,
        0,
        Pace { column: column as nat, cluster: 0, cluster_width: 0, fitted: 0, examined: 0, out },
        room as nat,
        walk_limit(room),
    )
}

/// Whether every sum the walk forms fits a `usize`: the widest a character
/// can be charged is a tab stop or three columns a character of the line.
pub open spec fn walk_fits(cs: Seq<char>, room: usize) -> bool {
    room + 3 * cs.len() + TAB_STOP <= usize::MAX
}

/// One run of a line, made safe for the screen and stopped at the pane's edge.
#[derive(Debug, Clone)]
pub struct Printed {
    /// What is drawn.
    pub text: String,
    /// Source characters examined to produce it.
    pub examined: u64,
    /// Whether the source had more to give than the room allowed.
    pub clipped: bool,
    /// Byte offset after the last character that left the walk inside the
    /// room, or the source's length where the source ran out first.
    pub at: usize,
    /// Columns the walk reached.
    pub column: usize,
}

/// What a walk of `cs` reports: the drawn text where one was asked for, and
/// the byte offset the row fits up to.
pub open spec fn reported(r: Printed, cs: Seq<char>, column: usize, room: usize, out: Option<Seq<char>>) -> bool {
    let (p, stopped) = walked(cs, column, room, out.unwrap_or(Seq::empty()));
    &&& r.examined == p.examined
    &&& r.column == p.column
    &&& r.clipped == (stopped || p.column > room)
    &&& r.at == (if stopped {
        utf8_len(cs.take(p.fitted as int))
    } else {
        utf8_len(cs)
    })
    &&& r.text@ == (if out is Some {
        p.out
    } else {
        Seq::<char>::empty()
    })
}

/// What a walk writes after: the text it was handed, where it was handed one.
pub open spec fn written_before(out: Option<Vec<char>>) -> Seq<char> {
    match out {
        Some(v) => v@,
        None => Seq::empty(),
    }
}

/// The walk over characters; `fitted` comes back as a character count.
fn walk_chars(cs: &[char], column: &mut usize, room: usize, out: Option<Vec<char>>) -> (r: (
    Vec<char>,
    u64,
    bool,
    usize,
))
    requires
        walk_fits(cs@, room),
    ensures
        ({
            let (p, stopped) = walked(cs@, *old(column), room, written_before(out));
            &&& r.1 == p.examined
            &&& *final(column) == p.column
            &&& r.2 == stopped
            &&& r.3 == p.fitted
            &&& p.fitted <= cs@.len()
            &&& (out is Some ==> r.0@ == p.out)
        }),
{
    let emitting = out.is_some();
    let ghost start = written_before(out);
    let mut buf: Vec<char> = match out {
        Some(v) => v,
        None => Vec::new(),
    };
    let ghost init = Pace { column: *column as nat, cluster: 0, cluster_width: 0, fitted: 0, examined: 0, out: start };
    let limit: u64 = if room <= usize::MAX / CHARS_PER_COLUMN {
        let four = room * CHARS_PER_COLUMN;
        if four <= usize::MAX - TAB_STOP {
            (four + TAB_STOP) as u64
        } else {
            usize::MAX as u64
        }
    } else {
        usize::MAX as u64
    };
    proof {
        if room <= usize::MAX / CHARS_PER_COLUMN {
            assert(room * CHARS_PER_COLUMN <= usize::MAX) by (nonlinear_arith)
                requires
                    room <= usize::MAX / 4,
            ;
        } else {
            assert(room * CHARS_PER_COLUMN > usize::MAX) by (nonlinear_arith)
                requires
                    room > usize::MAX / 4,
            ;
        }
    }
    assert(limit == walk_limit(room));
    let mut examined: u64 = 0;
    let mut cluster: usize = 0;
    let mut cluster_width: usize = 0;
    let mut fitted: usize = 0;
    let mut i: usize = 0;
    let ghost mut out_ghost: Seq<char> = start;
    while i < cs.len()
        invariant_except_break
            i <= cs@.len(),
            fitted <= i,
            cluster <= i,
            examined <= i,
            walk_fits(cs@, room),
            limit == walk_limit(room),
            emitting == (out is Some),
            emitting ==> buf@ == out_ghost,
            cluster_width <= 3 * cs@.len(),
            walk_from(
                cs@,
                i as int,
                Pace {
                    column: *column as nat,
                    cluster: cluster as nat,
                    cluster_width: cluster_width as nat,
                    fitted: fitted as nat,
                    examined: examined as nat,
                    out: out_ghost,
                },
                room as nat,
                limit as nat,
            ) == walk_from(cs@, 0, init, room as nat, limit as nat),
            init == (Pace { column: *old(column) as nat, cluster: 0, cluster_width: 0, fitted: 0, examined: 0, out: start }),
        ensures
            fitted <= cs@.len(),
            emitting ==> buf@ == out_ghost,
            walk_from(cs@, 0, init, room as nat, limit as nat) == ((
                Pace {
                    column: *column as nat,
                    cluster: cluster as nat,
                    cluster_width: cluster_width as nat,
                    fitted: fitted as nat,
                    examined: examined as nat,
                    out: out_ghost,
                },
                i < cs@.len(),
            )),
        decreases cs@.len() - i,
    {
        if *column >= room || examined >= limit {
            break;
        }
        let ghost before = Pace {
            column: *column as nat,
            cluster: cluster as nat,
            cluster_width: cluster_width as nat,
            fitted: fitted as nat,
            examined: examined as nat,
            out: out_ghost,
        };
        let c = cs[i];
        examined = examined + 1;
        if c == PRESENTATION {
        } else if c == '\t' {
            let stop = TAB_STOP - *column % TAB_STOP;
            let mut k: usize = 0;
            let ghost blank_from = out_ghost;
            while k < stop
                invariant
                    k <= stop,
                    emitting ==> buf@ == blank_from + blanks(k as nat),
                decreases stop - k,
            {
                if emitting {
                    buf.push(' ');
                }
                proof {
                    assert(blanks(k as nat).push(' ') =~= blanks((k + 1) as nat));
                }
                k = k + 1;
            }
            proof {
                out_ghost = blank_from + blanks(stop as nat);
            }
            *column = *column + stop;
        } else if is_control(c) {
            if emitting {
                buf.push(UNPRINTABLE);
            }
            proof {
                out_ghost = out_ghost.push(UNPRINTABLE);
            }
            *column = *column + 1;
        } else if (c as u32) < 0x80 {
            if emitting {
                buf.push(c);
            }
            proof {
                out_ghost = out_ghost.push(c);
            }
            *column = *column + 1;
            cluster = i;
            cluster_width = 1;
        } else {
            if emitting {
                buf.push(c);
            }
            proof {
                out_ghost = out_ghost.push(c);
            }
            let mut one: Vec<char> = Vec::new();
            one.push(c);
            let single = string_of(one.as_slice());
            assert(one@ =~= seq![c]);
            assert(single@ == seq![c]);
            let width = width_of(single.as_str());
            if width == 0 && cluster_width > 0 {
                let piece = string_of(&cs[cluster..i + 1]);
                let joined = width_of(piece.as_str());
                *column = *column + joined.saturating_sub(cluster_width);
                cluster_width = joined;
            } else {
                *column = *column + width;
                cluster = i;
                cluster_width = width;
            }
        }
        if *column <= room {
            fitted = i + 1;
        }
        proof {
            let after = Pace {
                column: *column as nat,
                cluster: cluster as nat,
                cluster_width: cluster_width as nat,
                fitted: fitted as nat,
                examined: examined as nat,
                out: out_ghost,
            };
            assert(stepped(cs@, i as int, before, room as nat) == after);
        }
        i = i + 1;
    }
    (buf, examined, i < cs.len(), fitted)
}


/// Every character takes at least a byte.
proof fn lemma_bytes_at_least(s: Seq<char>)
    ensures
        utf8_len(s) >= s.len(),
    decreases s.len(),
{
    if s.len() > 0 {
        lemma_bytes_at_least(s.drop_last());
    }
}

/// A prefix of `k` characters takes the bytes before the rest's: some where
/// it holds any character, and fewer than the whole where it leaves any.
pub proof fn lemma_prefix_bytes(cs: Seq<char>, k: int)
    requires
        0 <= k <= cs.len(),
    ensures
        utf8_len(cs.take(k)) + utf8_len(cs.skip(k)) == utf8_len(cs),
        k > 0 ==> utf8_len(cs.take(k)) > 0,
        k < cs.len() ==> utf8_len(cs.take(k)) < utf8_len(cs),
{
    assert(cs.take(k) + cs.skip(k) =~= cs);
    lemma_utf8_len_concat(cs.take(k), cs.skip(k));
    lemma_bytes_at_least(cs.take(k));
    lemma_bytes_at_least(cs.skip(k));
}

/// `text` walked from `column`, written after `out` where a string is asked
/// for, stopped at `room` columns: [`printable`] and [`split_at`] as one walk.
pub fn walk_printable(text: &str, column: &mut usize, room: usize, out: Option<String>) -> (r: Printed)
    requires
        utf8_len(text@) <= usize::MAX,
        walk_fits(text@, room),
    ensures
        reported(
            r,
            text@,
            *old(column),
            room,
            match out {
                Some(s) => Some(s@),
                None => None,
            },
        ),
        *final(column) == r.column,
{
    let cs = chars_of(text);
    let emitting = out.is_some();
    let start: Option<Vec<char>> = match out {
        Some(s) => Some(chars_of(s.as_str())),
        None => None,
    };
    let (buf, examined, stopped, fitted) = walk_chars(cs.as_slice(), column, room, start);
    proof {
        lemma_prefix_bytes(cs@, fitted as int);
    }
    let at = if stopped {
        let kept = &cs.as_slice()[0..fitted];
        assert(kept@ =~= cs@.take(fitted as int));
        utf8_count(kept)
    } else {
        utf8_count(cs.as_slice())
    };
    let clipped = stopped || *column > room;
    let drawn = if emitting {
        string_of(buf.as_slice())
    } else {
        String::new()
    };
    Printed { text: drawn, examined, clipped, at, column: *column }
}

/// One line of file content made safe to write into terminal cells, from
/// `column`, stopped at `room` columns.
pub fn printable(text: &str, column: &mut usize, room: usize) -> (r: Printed)
    requires
        utf8_len(text@) <= usize::MAX,
        walk_fits(text@, room),
    ensures
        reported(r, text@, *old(column), room, Some(Seq::<char>::empty())),
        *final(column) == r.column,
{
    let out = String::new();
    walk_printable(text, column, room, Some(out))
}

/// Where a walk of `cs` from column zero has to break to fit `room` columns,
/// as a count of characters, or `None` where it fits: the walk stopped at the
/// row's edge with some but not all of the characters fitted.
pub open spec fn spec_split(cs: Seq<char>, room: usize) -> Option<nat> {
    let (p, stopped) = walked(cs, 0, room, Seq::empty());
    if stopped && p.column >= room && 0 < p.fitted < cs.len() {
        Some(p.fitted)
    } else {
        None
    }
}

/// [`spec_split`] over characters.
fn split_chars(cs: &[char], room: usize) -> (r: Option<usize>)
    requires
        walk_fits(cs@, room),
    ensures
        r == (match spec_split(cs@, room) {
            Some(k) => Some(k as usize),
            None => None::<usize>,
        }),
{
    let mut column: usize = 0;
    let (_, _, stopped, fitted) = walk_chars(cs, &mut column, room, None);
    if stopped && column >= room && fitted > 0 && fitted < cs.len() {
        Some(fitted)
    } else {
        None
    }
}

/// Where a line has to break to fit `room` columns, as a byte offset, or
/// `None` when it fits.
pub fn split_at(text: &str, room: usize) -> (r: Option<usize>)
    requires
        utf8_len(text@) <= usize::MAX,
        walk_fits(text@, room),
    ensures
        r == (match spec_split(text@, room) {
            Some(k) => Some(utf8_len(text@.take(k as int)) as usize),
            None => None::<usize>,
        }),
{
    let cs = chars_of(text);
    match split_chars(cs.as_slice(), room) {
        Some(k) => {
            proof {
                lemma_prefix_bytes(cs@, k as int);
            }
            let kept = &cs.as_slice()[0..k];
            assert(kept@ =~= cs@.take(k as int));
            Some(utf8_count(kept))
        },
        None => None,
    }
}

/// Columns every row after a line's first has: the room less the line's own
/// indent, and at least one.
pub open spec fn tail_room(cs: Seq<char>, room: usize) -> usize {
    let t = sat_sub(room as int, indent(cs, room) as int);
    (if t >= 1 {
        t
    } else {
        1
    }) as usize
}

/// The breaks from character `k` on, at most `left` of them, each row after
/// the first fitting `tail` columns.
pub open spec fn cuts_from(cs: Seq<char>, k: nat, tail: usize, left: nat) -> Seq<nat>
    decreases left,
{
    if left == 0 {
        Seq::empty()
    } else {
        seq![k] + match spec_split(cs.skip(k as int), tail) {
            Some(n) => cuts_from(cs, k + n, tail, (left - 1) as nat),
            None => Seq::empty(),
        }
    }
}

/// Every character offset a line breaks at, in order, at most `limit` of them.
pub open spec fn spec_breaks(cs: Seq<char>, room: usize, limit: nat) -> Seq<nat> {
    match spec_split(cs, room) {
        None => Seq::empty(),
        Some(k) => cuts_from(cs, k, tail_room(cs, room), limit),
    }
}

/// Character offsets into `cs` as byte offsets.
pub open spec fn byte_offsets(cs: Seq<char>, ks: Seq<nat>) -> Seq<usize> {
    ks.map_values(|k: nat| utf8_len(cs.take(k as int)) as usize)
}

/// No row of zero columns ever asks for a break.
proof fn lemma_no_room_no_split(cs: Seq<char>)
    ensures
        spec_split(cs, 0) is None,
{
}

/// Character offsets as `usize`.
pub open spec fn as_counts(ks: Seq<nat>) -> Seq<usize> {
    ks.map_values(|k: nat| k as usize)
}

/// The breaks from a character strictly inside a line are strictly inside it
/// and strictly increasing, the first of them where the walk began.
pub proof fn lemma_cuts_inside(cs: Seq<char>, k: nat, tail: usize, left: nat)
    requires
        0 < k < cs.len(),
    ensures
        ({
            let ks = cuts_from(cs, k, tail, left);
            &&& left > 0 ==> ks.len() > 0 && ks[0] == k
            &&& forall|a: int| 0 <= a < ks.len() ==> 0 < #[trigger] ks[a] < cs.len() && ks[a] >= k + a
            &&& forall|a: int, b: int| 0 <= a < b < ks.len() ==> #[trigger] ks[a] < #[trigger] ks[b]
        }),
    decreases left,
{
    if left > 0 {
        let ks = cuts_from(cs, k, tail, left);
        match spec_split(cs.skip(k as int), tail) {
            Some(n) => {
                let rest = cuts_from(cs, k + n, tail, (left - 1) as nat);
                lemma_cuts_inside(cs, k + n, tail, (left - 1) as nat);
                assert(ks == seq![k] + rest);
                assert forall|a: int| 0 <= a < rest.len() implies k < #[trigger] rest[a] by {
                    if a > 0 {
                        assert(rest[0] < rest[a]);
                    }
                }
                assert forall|a: int| 0 <= a < ks.len() implies 0 < #[trigger] ks[a] < cs.len() && ks[a] >= k + a by {
                    if a > 0 {
                        assert(ks[a] == rest[a - 1]);
                    }
                }
                assert forall|a: int, b: int| 0 <= a < b < ks.len() implies #[trigger] ks[a] < #[trigger] ks[b] by {
                    assert(ks[b] == rest[b - 1]);
                    if a > 0 {
                        assert(ks[a] == rest[a - 1]);
                    }
                }
            },
            None => {
                assert(ks =~= seq![k]);
            },
        }
    }
}

/// The breaks of a line are strictly inside it and strictly increasing.
pub proof fn lemma_breaks_inside(cs: Seq<char>, room: usize, limit: nat)
    ensures
        ({
            let ks = spec_breaks(cs, room, limit);
            &&& ks.len() == 0 || ks.len() < cs.len()
            &&& forall|a: int| 0 <= a < ks.len() ==> 0 < #[trigger] ks[a] < cs.len()
            &&& forall|a: int, b: int| 0 <= a < b < ks.len() ==> #[trigger] ks[a] < #[trigger] ks[b]
        }),
{
    if let Some(k) = spec_split(cs, room) {
        let ks = cuts_from(cs, k, tail_room(cs, room), limit);
        lemma_cuts_inside(cs, k, tail_room(cs, room), limit);
        if ks.len() > 0 {
            assert(ks[ks.len() - 1] >= k + ks.len() - 1);
        }
    }
}

/// Every character offset a line breaks at, in order, to fit `room` columns
/// a row, at most `limit` of them.
pub fn break_chars(text: &str, room: usize, limit: usize) -> (r: Vec<usize>)
    requires
        walk_fits(text@, room),
    ensures
        r@ == as_counts(spec_breaks(text@, room, limit as nat)),
{
    let cs = chars_of(text);
    let mut cuts: Vec<usize> = Vec::new();
    let first = split_chars(cs.as_slice(), room);
    let mut at: usize = match first {
        Some(k) => k,
        None => {
            assert(as_counts(Seq::<nat>::empty()) =~= Seq::<usize>::empty());
            return cuts;
        },
    };
    proof {
        lemma_no_room_no_split(cs@);
    }
    let shift = indent_of(text, room);
    let t = room.saturating_sub(shift);
    let tail: usize = if t > 1 {
        t
    } else {
        1
    };
    assert(tail == tail_room(text@, room));
    let ghost whole = as_counts(spec_breaks(text@, room, limit as nat));
    while cuts.len() < limit
        invariant_except_break
            0 < at < cs@.len(),
            cuts@.len() <= limit,
            cuts@ + as_counts(cuts_from(text@, at as nat, tail, (limit - cuts@.len()) as nat)) == whole,
        invariant
            cs@ == text@,
            walk_fits(text@, room),
            1 <= tail <= room,
            tail == tail_room(text@, room),
            whole == as_counts(spec_breaks(text@, room, limit as nat)),
        ensures
            cuts@ == whole,
        decreases limit - cuts@.len(),
    {
        let ghost left = (limit - cuts@.len()) as nat;
        let ghost rest = cuts_from(text@, at as nat, tail, left);
        let rest_slice = &cs.as_slice()[at..cs.len()];
        assert(rest_slice@ =~= cs@.skip(at as int));
        let next = split_chars(rest_slice, tail);
        proof {
            let tailing = match spec_split(cs@.skip(at as int), tail) {
                Some(n) => cuts_from(text@, at as nat + n, tail, (left - 1) as nat),
                None => Seq::<nat>::empty(),
            };
            assert(rest == seq![at as nat] + tailing);
            assert(as_counts(rest) =~= seq![at] + as_counts(tailing));
        }
        cuts.push(at);
        match next {
            Some(n) => {
                at = at + n;
                assert(cuts@ + as_counts(cuts_from(text@, at as nat, tail, (limit - cuts@.len()) as nat)) =~= whole);
            },
            None => {
                assert(cuts@ =~= whole);
                break;
            },
        }
    }
    cuts
}

/// Every byte offset a line breaks at, in order, to fit `room` columns a row,
/// at most `limit` of them.
pub fn breaks_of(text: &str, room: usize, limit: usize) -> (r: Vec<usize>)
    requires
        utf8_len(text@) <= usize::MAX,
        walk_fits(text@, room),
    ensures
        r@ == byte_offsets(text@, spec_breaks(text@, room, limit as nat)),
{
    let cs = chars_of(text);
    let ks = break_chars(text, room, limit);
    let ghost spec_ks = spec_breaks(text@, room, limit as nat);
    proof {
        lemma_breaks_inside(text@, room, limit as nat);
    }
    let mut out: Vec<usize> = Vec::new();
    let mut j: usize = 0;
    while j < ks.len()
        invariant
            j <= ks@.len(),
            ks@ == as_counts(spec_ks),
            cs@ == text@,
            utf8_len(text@) <= usize::MAX,
            spec_ks == spec_breaks(text@, room, limit as nat),
            forall|a: int| 0 <= a < spec_ks.len() ==> 0 < #[trigger] spec_ks[a] < cs@.len(),
            out@ == byte_offsets(text@, spec_ks.take(j as int)),
        decreases ks@.len() - j,
    {
        let k = ks[j];
        assert(k == spec_ks[j as int]);
        proof {
            lemma_prefix_bytes(cs@, k as int);
        }
        let kept = &cs.as_slice()[0..k];
        assert(kept@ =~= cs@.take(k as int));
        out.push(utf8_count(kept));
        j = j + 1;
        assert(out@ =~= byte_offsets(text@, spec_ks.take(j as int)));
    }
    assert(spec_ks.take(j as int) =~= spec_ks);
    out
}


/// What marks the loss where the head of a text was cut.
pub const ELIDED: char = '\u{2026}';

/// Where the kept tail of `cs` begins, walking back from character `end`
/// with `kept` columns kept so far: each character is kept while the tail
/// still fits `budget`.
pub open spec fn kept_from(cs: Seq<char>, budget: nat, end: int, kept: nat) -> int
    decreases end,
{
    if end <= 0 {
        0
    } else {
        let w = span_width(seq![cs[end - 1]]) as nat;
        if kept + w > budget {
            end
        } else {
            kept_from(cs, budget, end - 1, kept + w)
        }
    }
}

/// `text` where it fits `room` columns, and otherwise its longest tail that
/// fits a column less, after the mark.
pub open spec fn elided(cs: Seq<char>, room: usize) -> Seq<char> {
    if span_width(cs) <= room {
        cs
    } else if room == 0 {
        Seq::empty()
    } else {
        seq![ELIDED] + cs.skip(kept_from(cs, (room - 1) as nat, cs.len() as int, 0))
    }
}

/// Keep the tail of `text`, marking the loss, when it will not fit: walked
/// backwards one character at a time, each measured alone.
pub fn elide_head(text: &str, room: usize) -> (r: String)
    ensures
        r@ == elided(text@, room),
{
    if width_of(text) <= room {
        return text.to_owned();
    }
    if room == 0 {
        return String::new();
    }
    let cs = chars_of(text);
    let budget = room - 1;
    let mut start: usize = cs.len();
    let mut kept_width: usize = 0;
    while start > 0
        invariant
            start <= cs@.len(),
            cs@ == text@,
            kept_width <= budget,
            budget == room - 1,
            kept_from(cs@, budget as nat, start as int, kept_width as nat) == kept_from(
                cs@,
                budget as nat,
                cs@.len() as int,
                0,
            ),
        ensures
            start <= cs@.len(),
            cs@ == text@,
            kept_from(cs@, budget as nat, cs@.len() as int, 0) == start,
        decreases start,
    {
        let c = cs[start - 1];
        let mut one: Vec<char> = Vec::new();
        one.push(c);
        assert(one@ =~= seq![cs@[start - 1]]);
        let single = string_of(one.as_slice());
        let w = width_of(single.as_str());
        if w > budget - kept_width {
            assert(kept_from(cs@, budget as nat, start as int, kept_width as nat) == start);
            break;
        }
        kept_width = kept_width + w;
        start = start - 1;
    }
    let mut out: Vec<char> = Vec::new();
    out.push(ELIDED);
    let tail = &cs.as_slice()[start..cs.len()];
    assert(tail@ =~= cs@.skip(start as int));
    crate::text::push_all(&mut out, tail);
    assert(out@ =~= seq![ELIDED] + cs@.skip(start as int));
    string_of(out.as_slice())
}

/// `cs` with each tab expanded to the blanks that reach its stop, from
/// `column`: a line feed starts the column over, and every other character
/// advances it by the columns it takes alone.
pub open spec fn detab_from(cs: Seq<char>, column: nat) -> Seq<char>
    decreases cs.len(),
{
    if cs.len() == 0 {
        Seq::empty()
    } else {
        let c = cs[0];
        if c == '\t' {
            let stop = (TAB_STOP - column % (TAB_STOP as nat)) as nat;
            blanks(stop) + detab_from(cs.drop_first(), column + stop)
        } else if c == '\n' {
            seq![c] + detab_from(cs.drop_first(), 0)
        } else {
            seq![c] + detab_from(cs.drop_first(), column + span_width(seq![c]) as nat)
        }
    }
}

/// `text` as written, where it holds no tab, and otherwise with its tabs
/// expanded from the start of the text.
pub open spec fn spec_detabbed(cs: Seq<char>) -> Seq<char> {
    if cs.contains('\t') {
        detab_from(cs, 0)
    } else {
        cs
    }
}

/// A note's text with its tabs expanded, so the width it is measured at and
/// the columns it is drawn in agree. Only the column's place among the tab
/// stops is kept as the walk goes, since nothing else of it is read.
pub fn detabbed(text: &str) -> (r: String)
    ensures
        r@ == spec_detabbed(text@),
{
    let cs = chars_of(text);
    let mut has_tab = false;
    let mut k: usize = 0;
    while k < cs.len()
        invariant
            k <= cs@.len(),
            has_tab == cs@.take(k as int).contains('\t'),
        decreases cs@.len() - k,
    {
        if cs[k] == '\t' {
            has_tab = true;
        }
        proof {
            assert(cs@.take(k + 1) =~= cs@.take(k as int).push(cs@[k as int]));
            if has_tab && cs@[k as int] == '\t' {
                assert(cs@.take(k + 1)[k as int] == '\t');
            }
        }
        k = k + 1;
    }
    assert(cs@.take(k as int) =~= cs@);
    if !has_tab {
        return text.to_owned();
    }
    let mut out: Vec<char> = Vec::new();
    let mut stop_at: usize = 0;
    let mut i: usize = 0;
    let ghost mut column: nat = 0;
    while i < cs.len()
        invariant
            i <= cs@.len(),
            stop_at < TAB_STOP,
            stop_at == column % (TAB_STOP as nat),
            out@ + detab_from(cs@.skip(i as int), column) == detab_from(cs@, 0),
        decreases cs@.len() - i,
    {
        let c = cs[i];
        let ghost rest = cs@.skip(i as int);
        assert(rest[0] == c);
        assert(rest.drop_first() =~= cs@.skip(i + 1));
        if c == '\t' {
            let stop = TAB_STOP - stop_at;
            let mut n: usize = 0;
            let ghost before = out@;
            while n < stop
                invariant
                    n <= stop,
                    out@ == before + blanks(n as nat),
                decreases stop - n,
            {
                out.push(' ');
                assert(blanks(n as nat).push(' ') =~= blanks((n + 1) as nat));
                n = n + 1;
            }
            proof {
                assert(before + (blanks(stop as nat) + detab_from(cs@.skip(i + 1), column + stop as nat)) =~= out@
                    + detab_from(cs@.skip(i + 1), column + stop as nat));
                column = column + stop as nat;
            }
            stop_at = 0;
        } else if c == '\n' {
            out.push(c);
            proof {
                column = 0;
            }
            stop_at = 0;
        } else {
            out.push(c);
            let mut one: Vec<char> = Vec::new();
            one.push(c);
            assert(one@ =~= seq![c]);
            let single = string_of(one.as_slice());
            let w = width_of(single.as_str());
            proof {
                assert(((column + w as nat) % 4) == ((stop_at + w % 4) % 4)) by (nonlinear_arith)
                    requires
                        stop_at == column % 4,
                ;
                column = column + w as nat;
            }
            stop_at = (stop_at + w % TAB_STOP) % TAB_STOP;
        }
        i = i + 1;
    }
    proof {
        assert(cs@.skip(i as int) =~= Seq::<char>::empty());
        assert(out@ + Seq::<char>::empty() =~= out@);
    }
    string_of(out.as_slice())
}
} // verus!
