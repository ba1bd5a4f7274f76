//! Where the diff's viewport stands, and how a scroll, a page or a drag on its
//! bar moves it.
//!
//! The rows each file takes are measured by walking the diff, which is the
//! repository's work: the functions here take those counts as they were
//! measured, one per changed file, and decide where the viewport lands.

use vstd::prelude::*;
use crate::input::{sat_sub, TRACK_SCALE};
use crate::shell::scaled;

verus! {

/// A row of one changed file, which is where the viewport's top stands.
///
/// The row may run past the file's last one: a scroll down overruns, and the
/// walk that collects the screen resolves it into the files below.
#[derive(Debug, Clone, Copy, PartialEq, Eq, Structural)]
pub struct Position {
    /// The changed file, by its index in the frame.
    pub file: usize,
    /// The row inside it.
    pub row: usize,
}

/// The top of the first file.
pub open spec fn top() -> Position {
    Position { file: 0, row: 0 }
}

/// Walking back `left` rows from `row` of `file`: what this file can absorb is
/// absorbed, and the rest comes out of the files above, each entered one past
/// its last row.
pub open spec fn back(rows: Seq<usize>, file: usize, row: usize, left: usize) -> Position
    decreases file,
{
    if left <= row {
        Position { file, row: (row - left) as usize }
    } else if file == 0 {
        top()
    } else {
        back(rows, (file - 1) as usize, rows[file - 1], (left - row) as usize)
    }
}

/// The smaller of two counts.
pub open spec fn least(a: int, b: int) -> int {
    if a <= b {
        a
    } else {
        b
    }
}

/// Where scrolling up `n` rows from `p` lands, with `rows` the rows each file
/// takes: under a pin only the pinned file's rows, and otherwise back across
/// the files, from a file index clamped to the files there are.
pub open spec fn spec_up(p: Position, single: bool, n: usize, rows: Seq<usize>) -> Position {
    if single {
        Position { file: p.file, row: sat_sub(p.row as int, n as int) as usize }
    } else if rows.len() == 0 {
        top()
    } else {
        back(rows, least(p.file as int, rows.len() - 1) as usize, p.row, n)
    }
}

/// The size of a negative count, which `isize::MIN` has too.
pub open spec fn magnitude(rows: isize) -> usize {
    (-(rows as int)) as usize
}

/// Where a scroll of `rows` lands: down is a row further in, which the walk
/// resolves later; up is the walk back.
pub open spec fn spec_scroll(p: Position, single: bool, rows: isize, file_rows: Seq<usize>) -> Position {
    if rows == 0 {
        p
    } else if rows > 0 {
        Position {
            file: p.file,
            row: if p.row + rows <= usize::MAX {
                (p.row + rows) as usize
            } else {
                usize::MAX
            },
        }
    } else {
        spec_up(p, single, magnitude(rows), file_rows)
    }
}

/// `a * b`, pulled into `isize`'s range.
pub open spec fn sat_mul(a: isize, b: isize) -> isize {
    if a * b > isize::MAX {
        isize::MAX
    } else if a * b < isize::MIN {
        isize::MIN
    } else {
        (a * b) as isize
    }
}

/// One step of `rows` rows, at least one, as a signed count.
pub open spec fn step_of(rows: usize) -> isize {
    if rows <= 1 {
        1
    } else if rows <= isize::MAX {
        rows as isize
    } else {
        isize::MAX
    }
}

/// Rows of the diff one screenful holds: what the last frame showed, where it
/// showed any, clamped by the pane the step is taken in.
pub open spec fn spec_screenful(shown: usize, height: usize) -> usize {
    if shown > 0 {
        least(shown as int, height as int) as usize
    } else {
        height
    }
}

/// The row a drag at `at` on a bar over `total` rows asks for: the whole
/// travel's end when wrapped lines put the drag past the track, and otherwise
/// the drag's fraction of the travel, which stops a screenful short.
pub open spec fn spec_dragged_to(wrap: bool, shown: usize, at: u32, total: usize, height: usize) -> usize {
    if wrap && at >= TRACK_SCALE {
        total
    } else {
        let count = sat_sub(total as int, spec_screenful(shown, height) as int);
        if count == 0 {
            0
        } else {
            ((at as int * count) / (TRACK_SCALE as int)) as usize
        }
    }
}

/// Rows of the first `k` files.
pub open spec fn above(blocks: Seq<usize>, k: int) -> int
    decreases k,
{
    if k <= 0 {
        0
    } else {
        above(blocks, k - 1) + blocks[k - 1]
    }
}

/// The walk from file `i`, with `seen` rows above it: the first file whose
/// rows reach past `target`, or the last file.
pub open spec fn land_from(blocks: Seq<usize>, i: int, seen: int, target: int) -> Position
    decreases blocks.len() - i,
{
    if i + 1 >= blocks.len() || seen + blocks[i] > target {
        Position { file: i as usize, row: sat_sub(target, seen) as usize }
    } else {
        land_from(blocks, i + 1, seen + blocks[i], target)
    }
}

/// Whether the drag's fraction of its travel can be taken in 64 bits, which
/// is where the product is formed.
pub open spec fn drag_fits(wrap: bool, shown: usize, at: u32, total: usize, height: usize) -> bool {
    (wrap && at >= TRACK_SCALE) || at as int * sat_sub(total as int, spec_screenful(shown, height) as int)
        <= u64::MAX
}

/// The file and row a row `target` of the whole diff falls in; a target past
/// the last row lands past the last file's.
pub open spec fn spec_landing(target: usize, blocks: Seq<usize>) -> Position {
    if blocks.len() == 0 {
        top()
    } else {
        land_from(blocks, 0, 0, target as int)
    }
}

/// The file a pin stands on, resolved against the files that exist: clamped
/// rather than refused, since the changed set moves under an open pane.
pub fn pinned_file(single: bool, position: Position, files: usize) -> (r: Option<usize>)
    ensures
        r == (if single && files > 0 {
            Some(least(position.file as int, files - 1) as usize)
        } else {
            None::<usize>
        }),
{
    if single && files > 0 {
        Some(if position.file < files - 1 {
            position.file
        } else {
            files - 1
        })
    } else {
        None
    }
}

/// Rows of the diff one screenful holds, which is not `height` when lines wrap:
/// read off the last frame, so turning wrap off cannot grow a step under a
/// screen that held less.
pub fn screenful(shown: usize, height: usize) -> (r: usize)
    ensures
        r == spec_screenful(shown, height),
{
    if shown > 0 {
        if shown < height {
            shown
        } else {
            height
        }
    } else {
        height
    }
}

/// The row a drag on the diff's bar at `at` asks for, of `total` rows.
pub fn dragged_to(wrap: bool, shown: usize, at: u32, total: usize, height: usize) -> (r: usize)
    requires
        at <= TRACK_SCALE,
        drag_fits(wrap, shown, at, total, height),
    ensures
        r == spec_dragged_to(wrap, shown, at, total, height),
        r <= total,
{
    if wrap && at >= TRACK_SCALE {
        return total;
    }
    let room = screenful(shown, height);
    let count = total.saturating_sub(room);
    assert((at as int * count as int) / (TRACK_SCALE as int) <= count) by (nonlinear_arith)
        requires
            at <= 65536,
            count >= 0,
    ;
    scaled(at, count)
}

/// Scroll up `n` rows from `position`, with `rows` the rows each changed file
/// takes. Pinned, the row only comes down to the file's top. Otherwise the
/// file index is first clamped to the files there are, since the walk back
/// reaches the frame before anything else has clamped it.
pub fn up(position: Position, single: bool, n: usize, rows: &[usize]) -> (r: Position)
    ensures
        r == spec_up(position, single, n, rows@),
{
    if single {
        return Position { file: position.file, row: position.row.saturating_sub(n) };
    }
    let files = rows.len();
    if files == 0 {
        return Position { file: 0, row: 0 };
    }
    let start = if position.file < files - 1 {
        position.file
    } else {
        files - 1
    };
    assert(spec_up(position, single, n, rows@) == back(rows@, start, position.row, n));
    let mut file = start;
    let mut row = position.row;
    let mut left = n;
    loop
        invariant
            files == rows@.len(),
            file < files,
            back(rows@, file, row, left) == back(rows@, start, position.row, n),
            spec_up(position, single, n, rows@) == back(rows@, start, position.row, n),
        decreases file,
    {
        if left <= row {
            assert(back(rows@, file, row, left) == Position { file, row: (row - left) as usize });
            return Position { file, row: row - left };
        }
        if file == 0 {
            assert(back(rows@, file, row, left) == top());
            return Position { file: 0, row: 0 };
        }
        assert(back(rows@, file, row, left) == back(rows@, (file - 1) as usize, rows@[file - 1], (left - row) as usize));
        left = left - row;
        file = file - 1;
        row = rows[file];
    }
}

/// Scroll by `rows`: down moves the row further in and leaves the walk to
/// resolve it; up walks back across the files. The two directions are not
/// symmetrical, and that is deliberate.
pub fn scroll(position: Position, single: bool, rows: isize, file_rows: &[usize]) -> (r: Position)
    ensures
        r == spec_scroll(position, single, rows, file_rows@),
{
    if rows == 0 {
        position
    } else if rows > 0 {
        Position { file: position.file, row: position.row.saturating_add(rows as usize) }
    } else {
        let inner: isize = -(rows + 1);
        let n: usize = (inner as usize) + 1;
        up(position, single, n, file_rows)
    }
}

/// Move `count` steps of `rows` rows each, at least one row a step, for the
/// actions measured in screens rather than rows.
pub fn step_by(position: Position, single: bool, count: isize, rows: usize, file_rows: &[usize]) -> (r: Position)
    ensures
        r == spec_scroll(position, single, sat_mul(count, step_of(rows)), file_rows@),
{
    let whole: usize = if rows > 1 {
        rows
    } else {
        1
    };
    let step: isize = if whole <= isize::MAX as usize {
        whole as isize
    } else {
        isize::MAX
    };
    assert((count as int) * (step as int) <= 0x4000_0000_0000_0000_0000_0000_0000_0000) by (nonlinear_arith)
        requires
            -0x8000_0000_0000_0000 <= count <= 0x7fff_ffff_ffff_ffff,
            1 <= step <= 0x7fff_ffff_ffff_ffff,
    ;
    assert((count as int) * (step as int) >= -0x4000_0000_0000_0000_0000_0000_0000_0000) by (nonlinear_arith)
        requires
            -0x8000_0000_0000_0000 <= count <= 0x7fff_ffff_ffff_ffff,
            1 <= step <= 0x7fff_ffff_ffff_ffff,
    ;
    let product: i128 = (count as i128) * (step as i128);
    assert(step == step_of(rows));
    let steps: isize = if product > isize::MAX as i128 {
        isize::MAX
    } else if product < isize::MIN as i128 {
        isize::MIN
    } else {
        product as isize
    };
    scroll(position, single, steps, file_rows)
}

/// The file and row that row `target` of the whole diff falls in, with
/// `blocks` the rows each file's block takes, walked from the first file.
pub fn landing(target: usize, blocks: &[usize]) -> (r: Position)
    ensures
        r == spec_landing(target, blocks@),
{
    let files = blocks.len();
    if files == 0 {
        return Position { file: 0, row: 0 };
    }
    let mut seen: usize = 0;
    let mut file: usize = 0;
    loop
        invariant
            files == blocks@.len(),
            file < files,
            seen <= target,
            land_from(blocks@, file as int, seen as int, target as int) == land_from(
                blocks@,
                0,
                0,
                target as int,
            ),
        decreases files - file,
    {
        let rows = blocks[file];
        if file + 1 >= files || rows > target - seen {
            return Position { file, row: target - seen };
        }
        seen = seen + rows;
        file = file + 1;
    }
}

/// Resolve a drag on the diff's bar at `at` into a position. Pinned to
/// `pinned`, the drag moves inside that file, whose rows `total` then counts;
/// otherwise `total` counts the whole diff and the drag's row is found in the
/// file it falls inside, by `blocks`.
pub fn diff_to(
    pinned: Option<usize>,
    wrap: bool,
    shown: usize,
    at: u32,
    height: usize,
    total: usize,
    blocks: &[usize],
) -> (r: Position)
    requires
        at <= TRACK_SCALE,
        drag_fits(wrap, shown, at, total, height),
    ensures
        r == (match pinned {
            Some(file) => Position { file, row: spec_dragged_to(wrap, shown, at, total, height) },
            None => spec_landing(spec_dragged_to(wrap, shown, at, total, height), blocks@),
        }),
{
    let target = dragged_to(wrap, shown, at, total, height);
    match pinned {
        Some(file) => Position { file, row: target },
        None => landing(target, blocks),
    }
}

/// Where the top key lands: the first file's heading, or the pinned file's
/// own heading under a pin.
pub fn top_of(single: bool, position: Position) -> (r: Position)
    ensures
        r == (Position { file: if single { position.file } else { 0 }, row: 0 }),
{
    Position {
        file: if single {
            position.file
        } else {
            0
        },
        row: 0,
    }
}

/// Where the bottom key lands: pinned, the pinned file's resting row, a
/// screen's `height` short of its `span` rows; otherwise the last file's top,
/// rather than the whole diff's last row, which would mean measuring every
/// file.
pub fn bottom_of(pinned: Option<usize>, span: usize, height: usize, files: usize) -> (r: Position)
    ensures
        r == (match pinned {
            Some(file) => Position { file, row: sat_sub(span as int, height as int) as usize },
            None => Position { file: sat_sub(files as int, 1) as usize, row: 0 },
        }),
{
    match pinned {
        Some(file) => Position { file, row: span.saturating_sub(height) },
        None => Position { file: files.saturating_sub(1), row: 0 },
    }
}

/// The file a step of `step` files from `file` reaches, where there is one.
pub fn file_step(file: usize, step: isize, files: usize) -> (r: Option<usize>)
    ensures
        r == (if 0 <= file + step < files {
            Some((file + step) as usize)
        } else {
            None::<usize>
        }),
{
    if step >= 0 {
        let ahead = step as usize;
        if ahead < files && file < files - ahead {
            Some(file + ahead)
        } else {
            None
        }
    } else {
        let inner: isize = -(step + 1);
        let behind: usize = (inner as usize) + 1;
        if behind <= file && file - behind < files {
            Some(file - behind)
        } else {
            None
        }
    }
}

/// The list's window moved toward `to`, no further than `bound`, its own
/// ceiling: the new top, and whether the list still follows the diff, which
/// it stops doing only where the window moved.
pub fn browse(list_top: usize, follows: bool, to: usize, bound: usize) -> (r: (usize, bool))
    ensures
        r.0 == least(to as int, bound as int),
        r.1 == (follows && r.0 == list_top),
{
    let moved = if to < bound {
        to
    } else {
        bound
    };
    if moved != list_top {
        (moved, false)
    } else {
        (list_top, follows)
    }
}

/// Walking back composes: what `back` reaches after `a` rows and then `b`
/// more is what it reaches after `a + b`, and it never walks below the file
/// it started in.
proof fn lemma_back_composes(rows: Seq<usize>, file: usize, row: usize, a: usize, b: usize)
    requires
        file < rows.len(),
        a + b <= usize::MAX,
    ensures
        back(rows, file, row, a).file <= file,
        back(
            rows,
            back(rows, file, row, a).file,
            back(rows, file, row, a).row,
            b,
        ) == back(rows, file, row, (a + b) as usize),
    decreases file,
{
    let ab = (a + b) as usize;
    if a <= row {
        let q = Position { file, row: (row - a) as usize };
        assert(back(rows, file, row, a) == q);
        if b <= q.row {
            assert(ab <= row);
        } else if file == 0 {
            assert(ab > row);
        } else {
            assert(ab > row);
            assert((b - q.row) as usize == (ab - row) as usize);
        }
    } else if file == 0 {
        assert(back(rows, file, row, a) == top());
        assert(back(rows, 0, 0, b) == top());
    } else {
        let f = (file - 1) as usize;
        lemma_back_composes(rows, f, rows[f as int], (a - row) as usize, b);
        assert(((a - row) as usize + b) as usize == (ab - row) as usize);
    }
}

/// Scrolling up `a` rows and then `b` more lands where scrolling up `a + b`
/// rows at once does, pinned or not.
pub proof fn law_scrolling_up_adds_up(p: Position, single: bool, a: usize, b: usize, rows: Seq<usize>)
    requires
        a + b <= usize::MAX,
    ensures
        spec_up(spec_up(p, single, a, rows), single, b, rows) == spec_up(p, single, (a + b) as usize, rows),
{
    if !single && rows.len() > 0 {
        let start = least(p.file as int, rows.len() - 1) as usize;
        lemma_back_composes(rows, start, p.row, a, b);
    }
}

/// A scroll down of `n` rows and then up of `n` rows stands where it started,
/// for a position on one of the files there are, where the row does not
/// saturate on the way down.
pub proof fn law_down_then_up_returns(p: Position, single: bool, n: isize, rows: Seq<usize>)
    requires
        n > 0,
        p.row + n <= usize::MAX,
        single || p.file < rows.len(),
    ensures
        spec_scroll(spec_scroll(p, single, n, rows), single, -n as isize, rows) == p,
{
    let q = spec_scroll(p, single, n, rows);
    assert(magnitude(-n as isize) == n);
    if !single {
        assert(least(q.file as int, rows.len() - 1) == p.file);
    }
}

/// Rows of the files up to `k` grow one file at a time.
proof fn lemma_above_step(blocks: Seq<usize>, k: int)
    requires
        0 <= k,
    ensures
        above(blocks, k + 1) == above(blocks, k) + blocks[k],
{
}

/// The walk from file `i`, with the rows above it seen, lands on a file at or
/// after `i`, at the row that adds up to the target; inside that file unless
/// it is the last.
proof fn lemma_land_from(blocks: Seq<usize>, i: int, target: int)
    requires
        0 <= i < blocks.len(),
        blocks.len() <= usize::MAX,
        0 <= above(blocks, i) <= target,
        target <= usize::MAX,
    ensures
        ({
            let q = land_from(blocks, i, above(blocks, i), target);
            &&& i <= q.file < blocks.len()
            &&& above(blocks, q.file as int) + q.row == target
            &&& (q.file < blocks.len() - 1 ==> q.row < blocks[q.file as int])
        }),
    decreases blocks.len() - i,
{
    lemma_above_step(blocks, i);
    if i + 1 >= blocks.len() || above(blocks, i) + blocks[i] > target {
        assert(land_from(blocks, i, above(blocks, i), target) == Position {
            file: i as usize,
            row: (target - above(blocks, i)) as usize,
        });
    } else {
        lemma_land_from(blocks, i + 1, target);
    }
}

/// A drag lands on the row of the diff it asked for: the rows of the files
/// above the landing's file and the landing's row add up to the target, and
/// the row is inside its file unless the target runs past the last one.
pub proof fn law_a_drag_lands_on_its_row(target: usize, blocks: Seq<usize>)
    requires
        0 < blocks.len() <= usize::MAX,
    ensures
        ({
            let q = spec_landing(target, blocks);
            &&& q.file < blocks.len()
            &&& above(blocks, q.file as int) + q.row == target
            &&& (q.file < blocks.len() - 1 ==> q.row < blocks[q.file as int])
        }),
{
    assert(above(blocks, 0) == 0);
    lemma_land_from(blocks, 0, target as int);
}

} // verus!
