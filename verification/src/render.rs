//! The pane's layout arithmetic: margins, rails, bars, the glance columns a file
//! row affords, how the body divides between its regions, and the words the
//! chrome spells. Drawing itself is the terminal's business and lives outside.

use vstd::prelude::*;
use crate::glyphs::Glyphs;
use crate::shell::Voice;
use crate::text::{chars_of, decimal, decimal_of, push_all, push_str, string_of};

verus! {

/// A rectangle of cells: its top-left corner and its size.
#[derive(Debug, Clone, Copy, PartialEq, Eq, Structural)]
pub struct Rect {
    pub x: u16,
    pub y: u16,
    pub width: u16,
    pub height: u16,
}

/// `a - b` in `u16`, stopping at zero.
pub open spec fn sub16(a: u16, b: u16) -> u16 {
    if a >= b {
        (a - b) as u16
    } else {
        0
    }
}

/// `a - b` in `usize`, stopping at zero.
pub open spec fn subz(a: usize, b: usize) -> usize {
    if a >= b {
        (a - b) as usize
    } else {
        0
    }
}

/// Columns a tab advances to the next multiple of.
pub const TAB_STOP: usize = 4;

/// Rules between the status word and the corner it rides in from.
pub const WORD_INSET: usize = 3;

/// Columns a path keeps before any glance element is allowed to exist.
pub const MIN_PATH_WIDTH: usize = 12;

/// Columns the kind letter and its gap take at the head of every file row.
pub const KIND_WIDTH: usize = 2;

/// The narrowest a file row can be and still name its own file.
pub const ROW_FLOOR: usize = KIND_WIDTH + MIN_PATH_WIDTH;

/// Columns a content row spends on the sigil and the blank after it.
pub const SIGIL_WIDTH: usize = 2;

/// Rows of air the body opens with, under the header.
pub const LEAD_ROWS: usize = 1;

/// The smallest body a second footer line may leave behind.
pub const MIN_BODY: u16 = 2;

/// The deepest pinned file list drawn below the rung above it.
pub const LIST_SETTLED: usize = 6;

/// Rows of pane the list is owed one row of map for, above [`LIST_SETTLED`].
pub const LIST_SHARE: usize = 4;

/// Columns the caret glyph itself occupies.
pub const CARET_WIDTH: usize = 1;

/// Columns a scrollbar costs the region it is drawn beside: the bar and the
/// blank before it.
pub const BAR_WIDTH: usize = 2;

/// The narrowest region that can afford a scrollbar.
pub const BAR_FLOOR: usize = BAR_WIDTH + ROW_FLOOR;

/// Rows a stepped bar spends on buttons: one at each end.
pub const STEP_ROWS: u16 = 2;

/// The shortest track that can still express more than one position.
pub const MIN_TRACK: u16 = 2;

/// The shortest region whose bar carries step buttons.
pub const STEP_FLOOR: u16 = STEP_ROWS + MIN_TRACK;

/// The pane width from which the pinned list may become a left rail beside the
/// diff rather than a strip above it.
pub const RAIL_FROM: u16 = 139;

/// Path columns the rail keeps beside a settled glance cluster.
pub const RAIL_PATH: usize = MIN_PATH_WIDTH * 2;

/// The share of a wide pane the rail takes, above [`RAIL_FLOOR`].
pub const RAIL_SHARE: u16 = 3;

/// Columns one half of the counts cell occupies, whatever that half says.
pub const COUNT_CELL: usize = 5;

/// The share of a row the glance elements may take, above the settled ladder.
pub const GLANCE_NUMER: usize = 2;

/// The denominator of [`GLANCE_NUMER`]'s share.
pub const GLANCE_DENOM: usize = 5;

/// The narrowest the text column may get before line numbers are dropped.
pub const MIN_TEXT_WIDTH: usize = 24;

/// Buckets of a file's heat map, top of the file to its end.
pub const HEAT_BUCKETS: usize = 16;

/// Buckets of a path's write history, oldest first.
pub const HISTORY_BUCKETS: usize = 24;

/// How many source buckets each sparkline rung folds into one, narrowest
/// grouping first.
pub const SPARK_GROUPS: [usize; 3] = [1, 2, 3];

/// How many buckets a sparkline may show, widest rung first; the last rung
/// draws none. Each is [`HISTORY_BUCKETS`] over a grouping.
pub const SPARK_RUNGS: [usize; 4] = [24, 12, 8, 0];

/// How many slices the heat strip may show, widest rung first; each divides
/// [`HEAT_BUCKETS`].
pub const HEAT_RUNGS: [usize; 4] = [16, 8, 4, 0];

/// The note mark's slot, widest rung first.
pub const MARK_RUNGS: [usize; 2] = [1, 0];

/// The pulse's slot, widest rung first: the dot is one column.
pub const PULSE_RUNGS: [usize; 2] = [1, 0];

/// Columns before a content row's first character of line, gutter included.
pub fn line_origin(gutter: usize) -> (r: usize)
    requires
        gutter + 1 + SIGIL_WIDTH <= usize::MAX,
    ensures
        r == (if gutter == 0 {
            SIGIL_WIDTH
        } else {
            (gutter + 1 + SIGIL_WIDTH) as usize
        }),
{
    if gutter == 0 {
        SIGIL_WIDTH
    } else {
        gutter + 1 + SIGIL_WIDTH
    }
}

/// Rows of list a pane this tall is generous enough to afford.
pub fn deep_of(height: u16) -> (r: usize)
    ensures
        r == height / 4,
{
    height as usize / LIST_SHARE
}

/// Rows the pinned file list may take on a pane this tall, before the rule:
/// a quarter of the pane, and never fewer than [`LIST_SETTLED`].
pub fn list_cap(height: u16) -> (r: usize)
    ensures
        r == (if height / 4 > LIST_SETTLED {
            (height / 4) as usize
        } else {
            LIST_SETTLED
        }),
{
    let deep = deep_of(height);
    if deep > LIST_SETTLED {
        deep
    } else {
        LIST_SETTLED
    }
}

/// The margin a pane this wide keeps, both sides together: four columns from
/// eighty, three from seventy-nine down to forty-four, two at forty-four, one
/// at forty-three, and none below.
pub open spec fn margin(pane: u16) -> u16 {
    if pane >= 80 {
        4
    } else if pane >= 79 {
        3
    } else if pane >= 44 {
        2
    } else if pane >= 43 {
        1
    } else {
        0
    }
}

/// The rungs of the margin ladder, widest pane first: from which width each
/// margin applies.
pub open spec fn margin_rung(rung: int) -> (u16, u16) {
    if rung == 0 {
        (80, 4)
    } else if rung == 1 {
        (79, 3)
    } else if rung == 2 {
        (44, 2)
    } else {
        (43, 1)
    }
}

/// The rung of the margin ladder at `rung`.
fn margin_rung_at(rung: usize) -> (r: (u16, u16))
    requires
        rung < 4,
    ensures
        r == margin_rung(rung as int),
{
    match rung {
        0 => (80, 4),
        1 => (79, 3),
        2 => (44, 2),
        _ => (43, 1),
    }
}

/// The margin a pane this wide takes, both sides together: the first rung of
/// the ladder it reaches, or nothing under every rung.
pub fn margin_of(pane: u16) -> (r: u16)
    ensures
        r == margin(pane),
{
    let mut rung: usize = 0;
    while rung < 4
        invariant
            rung <= 4,
            forall|j: int| 0 <= j < rung ==> pane < #[trigger] margin_rung(j).0,
        decreases 4 - rung,
    {
        let (from, cells) = margin_rung_at(rung);
        if pane >= from {
            assert(rung >= 1 ==> pane < margin_rung(0).0);
            assert(rung >= 2 ==> pane < margin_rung(1).0);
            assert(rung >= 3 ==> pane < margin_rung(2).0);
            return cells;
        }
        rung += 1;
    }
    assert(pane < margin_rung(0).0);
    assert(pane < margin_rung(1).0);
    assert(pane < margin_rung(2).0);
    assert(pane < margin_rung(3).0);
    0
}

/// The blank columns a pane keeps on its left and on its right: the odd column
/// goes to the left.
pub open spec fn margins(pane: u16) -> (u16, u16) {
    (((margin(pane) + 1) / 2) as u16, (margin(pane) / 2) as u16)
}

/// The blank columns the pane keeps on its left and on its right.
pub fn margins_of(pane: u16) -> (r: (u16, u16))
    ensures
        r == margins(pane),
{
    let total = margin_of(pane);
    ((total + 1) / 2, total / 2)
}

/// The column a pane this wide begins drawing text at.
pub open spec fn inset(pane: u16) -> u16 {
    margins(pane).0
}

/// The column a pane this wide begins drawing text at.
pub fn inset_of(pane: u16) -> (r: u16)
    ensures
        r == inset(pane),
{
    margins_of(pane).0
}

/// The two margins add up to the whole margin, whatever the pane.
pub proof fn law_margins_share_the_margin(pane: u16)
    ensures
        margins(pane).0 + margins(pane).1 == margin(pane),
        margins(pane).0 >= margins(pane).1,
{
}

/// Columns the caret takes off the pinned list's own row: whatever of it the
/// inset does not already hold.
pub open spec fn caret_gutter(pane: u16) -> usize {
    subz(CARET_WIDTH, inset(pane) as usize)
}

/// Columns the caret takes off the pinned list's own row.
pub fn caret_gutter_of(pane: u16) -> (r: usize)
    ensures
        r == caret_gutter(pane),
{
    let inset = inset_of(pane) as usize;
    if CARET_WIDTH >= inset {
        CARET_WIDTH - inset
    } else {
        0
    }
}

/// The width a region's glance columns are planned against: the region less a
/// bar's reserve, the pane's inset and the caret's gutter.
pub open spec fn planning(available: u16, pane: u16, caret: u16) -> u16 {
    sub16(sub16(sub16(available, BAR_WIDTH as u16), inset(pane)), caret)
}

/// The width a region's glance columns are planned against.
pub fn planning_width(available: u16, pane: u16, caret: u16) -> (r: u16)
    ensures
        r == planning(available, pane, caret),
{
    let a = if available >= BAR_WIDTH as u16 {
        available - BAR_WIDTH as u16
    } else {
        0
    };
    let inset = inset_of(pane);
    let b = if a >= inset {
        a - inset
    } else {
        0
    };
    if b >= caret {
        b - caret
    } else {
        0
    }
}

/// Whether a region this wide, on a pane this wide, can afford the caret.
pub fn affords_caret(available: u16, pane: u16) -> (r: bool)
    ensures
        r == (planning(available, pane, caret_gutter(pane) as u16) as usize >= ROW_FLOOR),
{
    let gutter = caret_gutter_of(pane);
    planning_width(available, pane, gutter as u16) as usize >= ROW_FLOOR
}

/// Whether a pane of `width` can afford a scrollbar at all.
pub fn affords_bar(width: u16) -> (r: bool)
    ensures
        r == (width as usize >= BAR_FLOOR),
{
    width as usize >= BAR_FLOOR
}

/// Columns something of `width` costs on the right-hand side of a row: itself
/// and the blank before it, or nothing for nothing.
pub open spec fn reserve(width: nat) -> nat {
    if width == 0 {
        0
    } else {
        width + 1
    }
}

/// Columns something of `width` costs on the right-hand side of a row.
pub fn reserved(width: usize) -> (r: usize)
    requires
        width < usize::MAX,
    ensures
        r == reserve(width as nat),
{
    if width == 0 {
        0
    } else {
        width + 1
    }
}

/// Whether a pane this wide draws the list as a rail beside the diff.
pub fn affords_rail(pane: u16) -> (r: bool)
    ensures
        r == (pane >= RAIL_FROM),
{
    pane >= RAIL_FROM
}

/// Columns a whole counts cell of `cell`-wide halves occupies, its blank
/// included.
pub open spec fn counts_cells(cell: nat) -> nat {
    if cell == 0 {
        0
    } else {
        cell * 2 + 1
    }
}

/// Columns a whole counts cell of `cell`-wide halves occupies.
pub fn counts_width(cell: usize) -> (r: usize)
    requires
        cell * 2 + 1 <= usize::MAX,
    ensures
        r == counts_cells(cell as nat),
{
    if cell == 0 {
        0
    } else {
        cell * 2 + 1
    }
}

/// Columns `buckets` of sparkline occupy at a glyph rung: the rung's density
/// to a cell, a part-filled last cell counted whole.
pub open spec fn spark_span(buckets: nat, glyphs: Glyphs) -> nat {
    ((buckets + glyphs.spec_density() - 1) / (glyphs.spec_density() as int)) as nat
}

/// Columns `buckets` of sparkline occupy at this rung.
pub fn spark_cells(buckets: usize, glyphs: Glyphs) -> (r: usize)
    requires
        buckets <= HISTORY_BUCKETS,
    ensures
        r == spark_span(buckets as nat, glyphs),
{
    let density = glyphs.density();
    (buckets + density - 1) / density
}

/// Where each glance element sits on every file row of one region.
#[derive(Debug, Clone, Copy, PartialEq, Eq, Structural)]
pub struct Columns {
    /// Columns each half of the counts cell occupies, or zero where the pair
    /// does not fit at all.
    pub cell: usize,
    /// Columns the note mark is reserved on every row, or zero when none fits.
    pub mark: usize,
    /// Columns the pulse is reserved on every row, or zero when none fits.
    pub pulse: usize,
    /// Heat buckets drawn on every row.
    pub heat: usize,
    /// Sparkline buckets drawn on every row.
    pub spark: usize,
}

/// Columns a layout needs at a glyph rung, every gap included.
pub open spec fn columns_width(c: Columns, glyphs: Glyphs) -> nat {
    reserve(counts_cells(c.cell as nat)) + reserve(c.mark as nat) + reserve(c.pulse as nat)
        + reserve(c.heat as nat) + reserve(spark_span(c.spark as nat, glyphs))
}

/// Whether a layout's slots are the ones the ladder is built from.
pub open spec fn small_columns(c: Columns) -> bool {
    c.cell <= COUNT_CELL && c.mark <= 1 && c.pulse <= 1 && c.heat <= HEAT_BUCKETS && c.spark
        <= HISTORY_BUCKETS
}

impl Columns {
    /// A row with no room for anything but its path.
    pub open spec fn nothing() -> Columns {
        Columns { cell: 0, mark: 0, pulse: 0, heat: 0, spark: 0 }
    }

    /// Written in the order the slots are prioritised, which is not the order
    /// they are drawn in.
    pub fn new(cell: usize, mark: usize, pulse: usize, heat: usize, spark: usize) -> (r: Self)
        ensures
            r == (Columns { cell, mark, pulse, heat, spark }),
    {
        Columns { cell, mark, pulse, heat, spark }
    }

    /// Columns this layout needs, every gap included.
    pub fn width(&self, glyphs: Glyphs) -> (r: usize)
        requires
            small_columns(*self),
        ensures
            r == columns_width(*self, glyphs),
    {
        reserved(counts_width(self.cell)) + reserved(self.mark) + reserved(self.pulse) + reserved(
            self.heat,
        ) + reserved(spark_cells(self.spark, glyphs))
    }
}

/// Every shape a file row's right-hand side may take, widest first.
pub open spec fn row_layout(i: int) -> Columns {
    if i == 0 {
        Columns { cell: COUNT_CELL, mark: 1, pulse: 1, heat: 16, spark: 24 }
    } else if i == 1 {
        Columns { cell: COUNT_CELL, mark: 1, pulse: 1, heat: 16, spark: 12 }
    } else if i == 2 {
        settled()
    } else if i == 3 {
        Columns { cell: COUNT_CELL, mark: 1, pulse: 1, heat: 8, spark: 8 }
    } else if i == 4 {
        Columns { cell: COUNT_CELL, mark: 1, pulse: 1, heat: 4, spark: 8 }
    } else if i == 5 {
        Columns { cell: COUNT_CELL, mark: 1, pulse: 1, heat: 4, spark: 0 }
    } else if i == 6 {
        Columns { cell: COUNT_CELL, mark: 1, pulse: 1, heat: 0, spark: 0 }
    } else if i == 7 {
        Columns { cell: COUNT_CELL, mark: 1, pulse: 0, heat: 0, spark: 0 }
    } else if i == 8 {
        Columns { cell: COUNT_CELL, mark: 0, pulse: 0, heat: 0, spark: 0 }
    } else {
        Columns::nothing()
    }
}

/// How many shapes the ladder has.
pub const ROW_LAYOUTS: usize = 10;

/// The widest layout below the rung above it: the counts, the mark, the pulse,
/// half the heat strip and half the sparkline.
pub open spec fn settled() -> Columns {
    Columns {
        cell: COUNT_CELL,
        mark: MARK_RUNGS[0],
        pulse: PULSE_RUNGS[0],
        heat: HEAT_RUNGS[1],
        spark: SPARK_RUNGS[1],
    }
}

/// The widest layout below the rung above it.
pub fn settled_layout() -> (r: Columns)
    ensures
        r == settled(),
{
    Columns::new(COUNT_CELL, MARK_RUNGS[0], PULSE_RUNGS[0], HEAT_RUNGS[1], SPARK_RUNGS[1])
}

/// The shape at `i` of the ladder.
pub fn row_layout_at(i: usize) -> (r: Columns)
    requires
        i < ROW_LAYOUTS,
    ensures
        r == row_layout(i as int),
        small_columns(r),
{
    match i {
        0 => Columns::new(COUNT_CELL, 1, 1, 16, 24),
        1 => Columns::new(COUNT_CELL, 1, 1, 16, 12),
        2 => settled_layout(),
        3 => Columns::new(COUNT_CELL, 1, 1, 8, 8),
        4 => Columns::new(COUNT_CELL, 1, 1, 4, 8),
        5 => Columns::new(COUNT_CELL, 1, 1, 4, 0),
        6 => Columns::new(COUNT_CELL, 1, 1, 0, 0),
        7 => Columns::new(COUNT_CELL, 1, 0, 0, 0),
        8 => Columns::new(COUNT_CELL, 0, 0, 0, 0),
        _ => Columns::new(0, 0, 0, 0, 0),
    }
}

/// [`settled`]'s own width, at the glyph rung where it is widest.
pub const SETTLED_CELLS: usize = 38;

/// The narrowest rail worth drawing: a bar's reserve, the inset of the pane the
/// rail arrives at, a kind letter, [`RAIL_PATH`] columns of path and the
/// settled cluster.
pub const RAIL_FLOOR: u16 = 68;

/// The rail's floor is the sum it is written as, and the settled cluster is
/// widest at the block rung.
pub proof fn law_rail_floor_is_the_settled_cluster_and_a_path(glyphs: Glyphs)
    ensures
        SETTLED_CELLS == columns_width(settled(), Glyphs::Block),
        columns_width(settled(), glyphs) <= SETTLED_CELLS,
        RAIL_FLOOR as int == BAR_WIDTH + inset(RAIL_FROM) + KIND_WIDTH + RAIL_PATH + SETTLED_CELLS,
        planning(RAIL_FLOOR, RAIL_FROM, 0) as int == KIND_WIDTH + RAIL_PATH + SETTLED_CELLS,
        rail(RAIL_FROM) == RAIL_FLOOR,
        planning((RAIL_FROM - RAIL_FLOOR) as u16, RAIL_FROM, 0) >= SETTLED_CELLS + MIN_PATH_WIDTH,
        BAR_WIDTH == reserve(1),
{
}

/// Columns the rail takes on a pane it is drawn on: a third of the pane, and
/// never less than [`RAIL_FLOOR`].
pub open spec fn rail(pane: u16) -> u16 {
    if pane / RAIL_SHARE > RAIL_FLOOR {
        (pane / RAIL_SHARE) as u16
    } else {
        RAIL_FLOOR
    }
}

/// Columns the rail takes on a pane it is drawn on.
pub fn rail_of(pane: u16) -> (r: u16)
    ensures
        r == rail(pane),
{
    let share = pane / RAIL_SHARE;
    if share > RAIL_FLOOR {
        share
    } else {
        RAIL_FLOOR
    }
}

/// Columns the glance elements may spend on a row this wide, above the settled
/// ladder: two fifths of it.
pub fn generous_of(width: u16) -> (r: usize)
    ensures
        r == width * GLANCE_NUMER / (GLANCE_DENOM as int),
{
    width as usize * GLANCE_NUMER / GLANCE_DENOM
}

/// The budget a region `width` wide gives its glance columns: what is left
/// once a path is paid for, and no more than its generous share, that share
/// floored at the settled cluster.
pub open spec fn glance_budget(width: u16, glyphs: Glyphs) -> nat {
    let survival = subz(width as usize, ROW_FLOOR) as nat;
    let share = width * GLANCE_NUMER / (GLANCE_DENOM as int);
    let generous = if share >= columns_width(settled(), glyphs) {
        share as nat
    } else {
        columns_width(settled(), glyphs)
    };
    if survival <= generous {
        survival
    } else {
        generous
    }
}

/// The first layout at or after `from` on the ladder that fits `budget`.
pub open spec fn first_fitting(from: int, budget: nat, glyphs: Glyphs) -> Columns
    decreases ROW_LAYOUTS - from,
{
    if from >= ROW_LAYOUTS {
        Columns::nothing()
    } else if columns_width(row_layout(from), glyphs) <= budget {
        row_layout(from)
    } else {
        first_fitting(from + 1, budget, glyphs)
    }
}

impl Columns {
    /// The widest layout a region `width` columns wide both fits and deserves:
    /// the first rung of the ladder within its budget.
    pub fn plan(width: u16, glyphs: Glyphs) -> (r: Self)
        ensures
            r == first_fitting(0, glance_budget(width, glyphs), glyphs),
    {
        let survival = if width as usize >= ROW_FLOOR {
            width as usize - ROW_FLOOR
        } else {
            0
        };
        let share = generous_of(width);
        let floor = settled_layout().width(glyphs);
        let generous = if share >= floor {
            share
        } else {
            floor
        };
        let budget = if survival <= generous {
            survival
        } else {
            generous
        };
        let mut i: usize = 0;
        while i < ROW_LAYOUTS
            invariant
                i <= ROW_LAYOUTS,
                budget == glance_budget(width, glyphs),
                first_fitting(0, budget as nat, glyphs) == first_fitting(i as int, budget as nat, glyphs),
            decreases ROW_LAYOUTS - i,
        {
            let layout = row_layout_at(i);
            if layout.width(glyphs) <= budget {
                return layout;
            }
            i += 1;
        }
        Columns::new(0, 0, 0, 0, 0)
    }
}

/// The ladder is widest first at every glyph rung, and its last rung is
/// nothing at all, so a plan is always the widest layout that fits.
pub proof fn law_row_layouts_narrow_down_the_ladder(i: int, glyphs: Glyphs)
    requires
        0 <= i < ROW_LAYOUTS - 1,
    ensures
        columns_width(row_layout(i + 1), glyphs) < columns_width(row_layout(i), glyphs),
        columns_width(row_layout(ROW_LAYOUTS - 1), glyphs) == 0,
{
}

/// Whether a region showing `span` of `of` has anywhere to scroll.
pub fn scrollable(span: u64, of: u64) -> (r: bool)
    ensures
        r == (of != 0 && span < of),
{
    of != 0 && span < of
}

/// What a region's scrollbar is, before anything is drawn.
#[derive(Debug, Clone, Copy, PartialEq, Eq, Structural)]
pub enum Bar {
    /// No column at all: the region shows everything it holds, or the pane
    /// cannot afford one.
    Absent,
    /// Track and thumb, from the region's first row to its last.
    Bare,
    /// A step button at each end, with the track between them.
    Stepped,
}

impl Bar {
    /// Whether a column is taken for this at all.
    pub fn drawn(self) -> (r: bool)
        ensures
            r == !(self is Absent),
    {
        !matches!(self, Bar::Absent)
    }

    /// The `(top, rows)` of a region that carry track rather than a button.
    pub fn track(self, top: u16, rows: u16) -> (r: (u16, u16))
        ensures
            r == (match self {
                Bar::Stepped => (
                    crate::input::sat_add16(top, 1) as u16,
                    sub16(rows, STEP_ROWS),
                ),
                _ => (top, rows),
            }),
    {
        match self {
            Bar::Stepped => (
                crate::input::add16(top, 1),
                if rows >= STEP_ROWS {
                    rows - STEP_ROWS
                } else {
                    0
                },
            ),
            _ => (top, rows),
        }
    }
}

/// Decide a region's bar from what it holds and what the pane can afford:
/// none where the pane cannot afford one, the region is too short for a track
/// or shows everything; buttons from [`STEP_FLOOR`] rows.
pub fn bar_for(wide: bool, rows: u16, span: u64, of: u64) -> (r: Bar)
    ensures
        r == (if !(wide && rows >= MIN_TRACK && of != 0 && span < of) {
            Bar::Absent
        } else if rows >= STEP_FLOOR {
            Bar::Stepped
        } else {
            Bar::Bare
        }),
{
    if !(wide && rows >= MIN_TRACK && scrollable(span, of)) {
        return Bar::Absent;
    }
    if rows >= STEP_FLOOR {
        Bar::Stepped
    } else {
        Bar::Bare
    }
}

/// The column a region's scrollbar is drawn in: its own right edge.
pub fn bar_column(rect: Rect) -> (r: u16)
    ensures
        r == sub16(crate::input::sat_add16(rect.x, rect.width) as u16, 1),
{
    let right = crate::input::add16(rect.x, rect.width);
    if right >= 1 {
        right - 1
    } else {
        0
    }
}

/// How the body divides between the regions of the pane.
#[derive(Debug, Clone, Copy, PartialEq, Eq, Structural)]
pub struct Body {
    /// Blank rows between the header and whatever the body opens with.
    pub lead: usize,
    /// Rows the pinned file list takes, zero when there is no room for one.
    pub list: usize,
    /// Whether the rule under the list is drawn, which is exactly when there is
    /// a list to put it under.
    pub rule: bool,
    /// Rows left for the diff.
    pub diff: usize,
    /// Whether the list is a left rail beside the diff rather than a strip
    /// above it.
    pub rail: bool,
    /// Whether the body is the list alone, with no diff region at all.
    pub overview: bool,
    /// Columns the diff's content is laid out against.
    pub diff_width: usize,
    /// Pages the gestures sheet takes on this pane, `Some(0)` on a pane too small
    /// to draw one, and `None` when nothing measured it.
    pub sheet_pages: Option<usize>,
    /// Rows the config menu's window has on this pane, `Some(0)` on a pane too
    /// small to draw one, and `None` when nothing measured it.
    pub menu_rows: Option<usize>,
}

impl Body {
    /// Whether the body's rows add up within a `usize`, and a strip's rule is
    /// drawn exactly when it has a list.
    pub open spec fn wf(self) -> bool {
        &&& self.spec_rows() <= usize::MAX
        &&& (!self.rail && !self.overview ==> self.rule == (self.list > 0))
    }

    /// Every row the body holds, across every region it has: beside a rail the
    /// list shares the diff's rows.
    pub open spec fn spec_rows(self) -> int {
        if self.rail {
            self.lead + self.diff
        } else {
            self.lead + self.list + (if self.rule {
                1int
            } else {
                0
            }) + self.diff
        }
    }

    /// The layout of a pane with no room for a list: all diff, no rule.
    pub fn diff_only(rows: usize) -> (r: Self)
        ensures
            r == (Body {
                lead: 0,
                list: 0,
                rule: false,
                diff: rows,
                rail: false,
                overview: false,
                diff_width: 0,
                sheet_pages: None,
                menu_rows: None,
            }),
    {
        Body {
            lead: 0,
            list: 0,
            rule: false,
            diff: rows,
            diff_width: 0,
            rail: false,
            overview: false,
            sheet_pages: None,
            menu_rows: None,
        }
    }

    /// The same body as the list alone, with no diff region under it: all of it
    /// the list's but the lead, where there is more than the lead.
    pub fn alone(body: usize) -> (r: Self)
        ensures
            r.wf(),
            r.spec_rows() == body,
            body <= LEAD_ROWS ==> r == Body::diff_only_spec(body),
            body > LEAD_ROWS ==> r == (Body {
                lead: LEAD_ROWS,
                list: (body - LEAD_ROWS) as usize,
                rule: false,
                diff: 0,
                rail: false,
                overview: true,
                diff_width: 0,
                sheet_pages: None,
                menu_rows: None,
            }),
    {
        if body <= LEAD_ROWS {
            return Self::diff_only(body);
        }
        Body {
            lead: LEAD_ROWS,
            list: body - LEAD_ROWS,
            rule: false,
            diff: 0,
            diff_width: 0,
            rail: false,
            overview: true,
            sheet_pages: None,
            menu_rows: None,
        }
    }

    /// The body of a pane with no room for a list.
    pub open spec fn diff_only_spec(rows: usize) -> Body {
        Body {
            lead: 0,
            list: 0,
            rule: false,
            diff: rows,
            rail: false,
            overview: false,
            diff_width: 0,
            sheet_pages: None,
            menu_rows: None,
        }
    }

    /// The same body laid out as a rail beside the diff rather than a strip
    /// above it, where a list would have been drawn at all.
    pub fn beside(body: usize, list_rows: usize) -> (r: Self)
        ensures
            r.wf(),
            r.spec_rows() == body,
            body <= LEAD_ROWS + MIN_BODY + 1 ==> r == Body::diff_only_spec(body),
            body > LEAD_ROWS + MIN_BODY + 1 ==> r == (Body {
                lead: LEAD_ROWS,
                list: (if list_rows < body - LEAD_ROWS {
                    list_rows as int
                } else {
                    body - LEAD_ROWS
                }) as usize,
                rule: false,
                diff: (body - LEAD_ROWS) as usize,
                rail: true,
                overview: false,
                diff_width: 0,
                sheet_pages: None,
                menu_rows: None,
            }),
    {
        if body <= LEAD_ROWS + MIN_BODY as usize + 1 {
            return Self::diff_only(body);
        }
        let rows = body - LEAD_ROWS;
        Body {
            lead: LEAD_ROWS,
            list: if list_rows < rows {
                list_rows
            } else {
                rows
            },
            rule: false,
            diff: rows,
            diff_width: 0,
            rail: true,
            overview: false,
            sheet_pages: None,
            menu_rows: None,
        }
    }

    /// Split the rows of a pane between its regions, once the header and a
    /// footer `footer_rows` tall are paid for. The list alone where an overview
    /// was asked for and there are files; a rail where one was asked for, the
    /// pane affords it and there are files; otherwise a strip above the diff,
    /// as deep as the list wants, the pane's cap allows and the diff can spare
    /// once its own floor, the lead and the rule are paid.
    pub fn split_rows(
        area: Rect,
        footer_rows: u16,
        files: usize,
        list_rows: usize,
        overview: bool,
        rail: bool,
    ) -> (r: Self)
        ensures
            r.wf(),
            r.spec_rows() == subz(area.height as usize, (1 + footer_rows) as usize),
    {
        let body = if area.height as usize >= 1 + footer_rows as usize {
            area.height as usize - (1 + footer_rows as usize)
        } else {
            0
        };
        if overview && files > 0 {
            return Self::alone(body);
        }
        if rail && affords_rail(area.width) && files > 0 {
            return Self::beside(body, list_rows);
        }
        let floor = LEAD_ROWS + MIN_BODY as usize + 1;
        let affordable = if body >= floor {
            body - floor
        } else {
            0
        };
        let cap = list_cap(area.height);
        let mut list = list_rows;
        if cap < list {
            list = cap;
        }
        if affordable < list {
            list = affordable;
        }
        if list == 0 {
            return Self::diff_only(body);
        }
        let after = body - LEAD_ROWS - list - 1;
        Body {
            lead: LEAD_ROWS,
            list,
            rule: true,
            diff: after,
            diff_width: 0,
            rail: false,
            overview: false,
            sheet_pages: None,
            menu_rows: None,
        }
    }

    /// Every row the body holds, across every region it has.
    pub fn rows(&self) -> (r: usize)
        requires
            self.wf(),
        ensures
            r == self.spec_rows(),
    {
        if self.rail {
            return self.lead + self.diff;
        }
        self.lead + self.list + (if self.rule {
            1
        } else {
            0
        }) + self.diff
    }

    /// The body once the view has said how many entries it holds: the list no
    /// deeper than that, the lead and the rule going with it, and the diff
    /// taking what the list gave back. An overview is left alone, and beside a
    /// rail there is nothing to give back.
    pub open spec fn clamped(self, have: usize) -> Body {
        if self.overview {
            self
        } else if self.rail {
            if have == 0 {
                Body {
                    sheet_pages: self.sheet_pages,
                    menu_rows: self.menu_rows,
                    ..Body::diff_only_spec(self.spec_rows() as usize)
                }
            } else {
                Body { list: if self.list < have { self.list } else { have }, ..self }
            }
        } else {
            let list = if self.list < have {
                self.list
            } else {
                have
            };
            let lead = if list > 0 {
                self.lead
            } else {
                0
            };
            let rule = list > 0;
            Body {
                lead,
                list,
                rule,
                diff: (self.spec_rows() - (lead + list + (if rule {
                    1int
                } else {
                    0
                }))) as usize,
                diff_width: self.diff_width,
                rail: false,
                overview: false,
                sheet_pages: self.sheet_pages,
                menu_rows: self.menu_rows,
            }
        }
    }

    /// Re-divide the body once the view has said how many entries it holds,
    /// without changing how many rows the body has.
    pub fn clamped_to(self, have: usize) -> (r: Self)
        requires
            self.wf(),
        ensures
            r == self.clamped(have),
    {
        if self.overview {
            return self;
        }
        if self.rail {
            if have == 0 {
                let rows = self.rows();
                let base = Self::diff_only(rows);
                return Body { sheet_pages: self.sheet_pages, menu_rows: self.menu_rows, ..base };
            }
            return Body {
                list: if self.list < have {
                    self.list
                } else {
                    have
                },
                ..self
            };
        }
        let list = if self.list < have {
            self.list
        } else {
            have
        };
        let lead = if list > 0 {
            self.lead
        } else {
            0
        };
        let rule = list > 0;
        let rows = self.rows();
        Body {
            lead,
            list,
            rule,
            diff: rows - (lead + list + if rule {
                1
            } else {
                0
            }),
            diff_width: self.diff_width,
            rail: false,
            overview: false,
            sheet_pages: self.sheet_pages,
            menu_rows: self.menu_rows,
        }
    }
}

/// Clamping a body to what the view holds re-divides its rows and never changes
/// how many there are; the list it leaves is no deeper than what it holds, and
/// the body stays well formed.
pub proof fn law_clamping_keeps_the_rows(body: Body, have: usize)
    requires
        body.wf(),
    ensures
        body.clamped(have).spec_rows() == body.spec_rows(),
        body.clamped(have).wf(),
        !body.overview ==> body.clamped(have).list <= have,
{
}

/// What one paint cost, in the term that decides whether it followed the pane.
#[derive(Debug, Clone, Copy, PartialEq, Eq, Structural)]
pub struct PaintStats {
    /// Rows of file content drawn.
    pub rows: u64,
    /// Source characters examined to draw them.
    pub examined: u64,
}

impl PaintStats {
    /// Nothing drawn yet.
    pub fn zero() -> (r: Self)
        ensures
            r.rows == 0 && r.examined == 0,
    {
        PaintStats { rows: 0, examined: 0 }
    }

    /// Two paints summed, so a run of frames is one figure rather than two
    /// hand-summed ones.
    pub fn add_assign(&mut self, other: Self)
        requires
            old(self).rows + other.rows <= u64::MAX,
            old(self).examined + other.examined <= u64::MAX,
        ensures
            final(self).rows == old(self).rows + other.rows,
            final(self).examined == old(self).examined + other.examined,
    {
        self.rows = self.rows + other.rows;
        self.examined = self.examined + other.examined;
    }
}

/// What the monitor is doing.
#[derive(Debug, Clone, Copy, PartialEq, Eq, Structural)]
pub enum Mode {
    /// The watch is live, so the screen follows the working tree.
    Watching,
    /// The watch never armed, or it ended, so this is a still picture.
    Lost,
}

impl Mode {
    /// The word the header draws, on the right, alone.
    pub fn word(self) -> (r: &'static str)
        ensures
            r@ == (match self {
                Mode::Watching => "watching"@,
                Mode::Lost => "not watching"@,
            }),
    {
        match self {
            Mode::Watching => "watching",
            Mode::Lost => "not watching",
        }
    }
}

/// How many notes the reader has and how many of them are adrift, which the
/// footer counts beside the position.
#[derive(Debug, Clone, Copy, PartialEq, Eq, Structural)]
pub struct NoteCount {
    /// Every note the pane draws.
    pub total: usize,
    /// Those whose file is not in the diff, drawn nowhere.
    pub adrift: usize,
}

/// What joins two facts drawn on one line.
pub const FACT_SEPARATOR: &'static str = " · ";

/// What separates two facts drawn beside each other on the status bar.
pub const CELL_GAP: &'static str = "  ";

/// Shown on the footer while the viewport is moving itself.
pub const FOLLOWING: &'static str = "follow ▶";

/// The footer's count of the notes: nothing without any, then `1 note`,
/// `2 notes`, and `2 notes · 1 adrift` once a file has left the diff.
pub open spec fn count_text(notes: nat, adrift: nat) -> Seq<char> {
    if notes == 0 {
        Seq::empty()
    } else {
        let counted = if notes == 1 {
            "1 note"@
        } else {
            decimal(notes) + " notes"@
        };
        if adrift == 0 {
            counted
        } else {
            counted + FACT_SEPARATOR@ + decimal(adrift) + " adrift"@
        }
    }
}

/// The footer's count of the notes.
pub fn count_cell(notes: usize, adrift: usize) -> (r: String)
    ensures
        r@ == count_text(notes as nat, adrift as nat),
{
    let mut out: Vec<char> = Vec::new();
    if notes == 0 {
        return string_of(out.as_slice());
    }
    if notes == 1 {
        push_str(&mut out, "1 note");
    } else {
        let digits = decimal_of(notes as u64);
        push_all(&mut out, digits.as_slice());
        push_str(&mut out, " notes");
    }
    if adrift != 0 {
        push_str(&mut out, FACT_SEPARATOR);
        let digits = decimal_of(adrift as u64);
        push_all(&mut out, digits.as_slice());
        push_str(&mut out, " adrift");
    }
    string_of(out.as_slice())
}

/// `N/M`, or nothing at all when there is no diff to be positioned within; the
/// position past the last file stops at the largest number there is.
pub open spec fn position_text(file: usize, files: usize) -> Seq<char> {
    if files == 0 {
        Seq::empty()
    } else {
        let shown = if file == usize::MAX {
            usize::MAX as nat
        } else {
            (file + 1) as nat
        };
        decimal(shown) + seq!['/'] + decimal(files as nat)
    }
}

/// `N/M`, or nothing at all when there is no diff to be positioned within.
pub fn position_of(file: usize, files: usize) -> (r: String)
    ensures
        r@ == position_text(file, files),
{
    let mut out: Vec<char> = Vec::new();
    if files == 0 {
        return string_of(out.as_slice());
    }
    let shown = if file == usize::MAX {
        file
    } else {
        file + 1
    };
    let digits = decimal_of(shown as u64);
    push_all(&mut out, digits.as_slice());
    out.push('/');
    let count = decimal_of(files as u64);
    push_all(&mut out, count.as_slice());
    string_of(out.as_slice())
}

/// The position's own ladder, widest rung first and an empty rung last: the
/// follow marker and the position, the marker alone, or the position alone.
#[verifier::opaque]
pub open spec fn position_ladder(following: bool, position: Seq<char>) -> Seq<Seq<char>> {
    let lead = if following && position.len() > 0 {
        seq![FOLLOWING@ + CELL_GAP@ + position, FOLLOWING@]
    } else if following {
        seq![FOLLOWING@]
    } else if position.len() > 0 {
        seq![position]
    } else {
        Seq::empty()
    };
    lead.push(Seq::empty())
}

/// The characters of each string, in order.
pub open spec fn strings(v: Seq<String>) -> Seq<Seq<char>> {
    v.map_values(|s: String| s@)
}

/// The position's own ladder, widest rung first and an empty rung last.
pub fn position_rungs(following: bool, position: &str) -> (r: Vec<String>)
    ensures
        strings(r@) == position_ladder(following, position@),
        r@.len() >= 1,
{
    let mut rungs: Vec<String> = Vec::new();
    let empty = position.is_empty();
    if following && !empty {
        let mut both: Vec<char> = Vec::new();
        push_str(&mut both, FOLLOWING);
        push_str(&mut both, CELL_GAP);
        push_str(&mut both, position);
        rungs.push(string_of(both.as_slice()));
        rungs.push(string_of(chars_of(FOLLOWING).as_slice()));
    } else if following {
        rungs.push(string_of(chars_of(FOLLOWING).as_slice()));
    } else if !empty {
        rungs.push(string_of(chars_of(position).as_slice()));
    }
    rungs.push(string_of(Vec::<char>::new().as_slice()));
    assert(strings(rungs@) =~= position_ladder(following, position@)) by {
        reveal(position_ladder);
    }
    rungs
}

/// The state's ladder, widest rung first: the notes count before the position
/// and the follow marker, and the first fact a narrowing footer gives up.
#[verifier::opaque]
pub open spec fn state_ladder(following: bool, position: Seq<char>, notes: NoteCount) -> Seq<Seq<char>> {
    let rungs = position_ladder(following, position);
    let counted = count_text(notes.total as nat, notes.adrift as nat);
    if counted.len() == 0 {
        rungs
    } else {
        let widest = if rungs[0].len() == 0 {
            counted
        } else {
            counted + CELL_GAP@ + rungs[0]
        };
        seq![widest] + rungs
    }
}

/// The state's ladder, widest rung first.
pub fn state_rungs(following: bool, position: &str, notes: NoteCount) -> (r: Vec<String>)
    ensures
        strings(r@) == state_ladder(following, position@, notes),
{
    reveal(state_ladder);
    let rungs = position_rungs(following, position);
    let counted = count_cell(notes.total, notes.adrift);
    if counted.as_str().is_empty() {
        return rungs;
    }
    let ghost ladder = position_ladder(following, position@);
    assert(strings(rungs@)[0] == rungs@[0]@);
    let first = rungs[0].as_str();
    let mut widest: Vec<char> = chars_of(counted.as_str());
    if !first.is_empty() {
        push_str(&mut widest, CELL_GAP);
        push_str(&mut widest, first);
    }
    let mut out: Vec<String> = Vec::new();
    out.push(string_of(widest.as_slice()));
    let mut i: usize = 0;
    while i < rungs.len()
        invariant
            i <= rungs@.len(),
            out@.len() == i + 1,
            out@[0]@ == widest@,
            forall|j: int| 0 <= j < i ==> #[trigger] out@[j + 1]@ == rungs@[j]@,
        decreases rungs@.len() - i,
    {
        out.push(rungs[i].clone());
        i += 1;
    }
    assert forall|j: int| 0 <= j < rungs@.len() implies rungs@[j]@ == ladder[j] by {
        assert(strings(rungs@)[j] == rungs@[j]@);
    }
    assert(widest@ == (if ladder[0].len() == 0 {
        count_text(notes.total as nat, notes.adrift as nat)
    } else {
        count_text(notes.total as nat, notes.adrift as nat) + CELL_GAP@ + ladder[0]
    }));
    assert(strings(out@) =~= state_ladder(following, position@, notes)) by {
        assert forall|j: int| 0 <= j < out@.len() implies strings(out@)[j] == state_ladder(
            following,
            position@,
            notes,
        )[j] by {
            if j > 0 {
                assert(out@[(j - 1) + 1]@ == rungs@[j - 1]@);
            }
        }
    }
    out
}

/// The facts about the tree, in the order a narrowing header gives them up:
/// how many files changed, how many are binary, how many are hidden, and how
/// many are staged where the staged run is on. Nothing at all where nothing
/// changed and nothing is hidden.
pub open spec fn facts_text(files: usize, binary: usize, hidden: usize, staged: Option<usize>) -> Seq<Seq<char>> {
    if files == 0 && hidden == 0 {
        Seq::empty()
    } else {
        let a = seq![decimal(files as nat) + " changed"@];
        let b = if binary > 0 {
            a.push(decimal(binary as nat) + " binary"@)
        } else {
            a
        };
        let c = if hidden > 0 {
            b.push(decimal(hidden as nat) + " hidden"@)
        } else {
            b
        };
        match staged {
            Some(n) => c.push(decimal(n as nat) + " staged"@),
            None => c,
        }
    }
}

/// `n` followed by `word`, as a string.
fn counted(n: usize, word: &str) -> (r: String)
    ensures
        r@ == decimal(n as nat) + word@,
{
    let mut out = decimal_of(n as u64);
    push_str(&mut out, word);
    string_of(out.as_slice())
}

/// The facts about the tree, in the order a narrowing header gives them up.
pub fn facts_of(files: usize, binary: usize, hidden: usize, staged: Option<usize>) -> (r: Vec<String>)
    ensures
        strings(r@) == facts_text(files, binary, hidden, staged),
{
    let mut facts: Vec<String> = Vec::new();
    if files == 0 && hidden == 0 {
        assert(strings(facts@) =~= facts_text(files, binary, hidden, staged));
        return facts;
    }
    facts.push(counted(files, " changed"));
    if binary > 0 {
        facts.push(counted(binary, " binary"));
    }
    if hidden > 0 {
        facts.push(counted(hidden, " hidden"));
    }
    match staged {
        Some(n) => facts.push(counted(n, " staged")),
        None => {},
    }
    assert(strings(facts@) =~= facts_text(files, binary, hidden, staged));
    facts
}

/// Columns the memory readout gets, whatever it says.
pub const MEMORY_CELL: usize = 6;

/// A mebibyte, in bytes.
pub const MIB: u64 = 1048576;

/// `s` right-aligned in `width` columns of blanks.
pub open spec fn right_aligned(s: Seq<char>, width: nat) -> Seq<char> {
    Seq::new((if s.len() < width {
        width - s.len()
    } else {
        0
    }) as nat, |i: int| ' ') + s
}

/// The token the memory readout draws: whole mebibytes, or `>1GiB` past 999 of
/// them, where the figure is no longer the interesting part.
pub open spec fn memory_token(bytes: u64) -> Seq<char> {
    if bytes / MIB > 999 {
        ">1GiB"@
    } else {
        decimal((bytes / MIB) as nat) + "MiB"@
    }
}

/// Resident set size, right-aligned in [`MEMORY_CELL`] columns.
pub fn memory_cell(bytes: u64) -> (r: String)
    ensures
        r@ == right_aligned(memory_token(bytes), MEMORY_CELL as nat),
{
    let mib = bytes / MIB;
    let mut token: Vec<char> = Vec::new();
    if mib > 999 {
        push_str(&mut token, ">1GiB");
    } else {
        let digits = decimal_of(mib);
        push_all(&mut token, digits.as_slice());
        push_str(&mut token, "MiB");
    }
    let mut out: Vec<char> = Vec::new();
    let pad: usize = if token.len() < MEMORY_CELL {
        MEMORY_CELL - token.len()
    } else {
        0
    };
    let mut i: usize = 0;
    while i < pad
        invariant
            i <= pad,
            out@ =~= Seq::new(i as nat, |k: int| ' '),
        decreases pad - i,
    {
        out.push(' ');
        i += 1;
    }
    push_all(&mut out, token.as_slice());
    assert(out@ =~= right_aligned(memory_token(bytes), MEMORY_CELL as nat));
    string_of(out.as_slice())
}

/// How busy one thing is, against whatever the caller measures it against.
#[derive(Debug, Clone, Copy, PartialEq, Eq, Structural)]
pub enum Band {
    /// Below a third of the busiest slice.
    Low,
    /// A third or more of it.
    Warm,
    /// Two thirds or more of it.
    Hot,
}

/// Which band `total` falls in against `busiest`.
pub open spec fn band(total: u32, busiest: u32) -> Band {
    if total * 3 >= busiest * 2 {
        Band::Hot
    } else if total * 3 >= busiest {
        Band::Warm
    } else {
        Band::Low
    }
}

impl Band {
    /// Which band `total` falls in, against the `busiest` the caller chose.
    pub fn of(total: u32, busiest: u32) -> (r: Self)
        ensures
            r == band(total, busiest),
    {
        let total = total as u64;
        let busiest = busiest as u64;
        if total * 3 >= busiest * 2 {
            Band::Hot
        } else if total * 3 >= busiest {
            Band::Warm
        } else {
            Band::Low
        }
    }
}

/// What one drawn slice of the heat strip means.
#[derive(Debug, Clone, Copy, PartialEq, Eq, Structural)]
pub enum Heat {
    /// Nothing changed in this slice.
    Cool,
    /// Additions only.
    Added(Band),
    /// Removals only.
    Removed(Band),
    /// Both.
    Mixed(Band),
}

/// Which level of `levels` a count reaches against `scale`: none for nothing,
/// at least the first for anything, and the count's share of the levels
/// rounded up otherwise.
pub open spec fn level(total: u32, scale: u32, levels: usize) -> nat {
    if scale == 0 || total == 0 || levels == 0 {
        0
    } else {
        let scaled = (total * levels + scale - 1) / (scale as int);
        if scaled < 1 {
            1
        } else if scaled > levels {
            levels as nat
        } else {
            scaled as nat
        }
    }
}

/// Which level of `levels` a count reaches, against the busiest count on screen.
pub fn level_to(total: u32, scale: u32, levels: usize) -> (r: usize)
    requires
        levels <= u32::MAX,
    ensures
        r == level(total, scale, levels),
        r <= levels,
{
    if scale == 0 || total == 0 || levels == 0 {
        return 0;
    }
    assert(total as int * levels as int <= 0xFFFF_FFFF * 0xFFFF_FFFF) by (nonlinear_arith)
        requires
            total <= 0xFFFF_FFFF,
            levels <= 0xFFFF_FFFF,
    ;
    let product = total as u64 * levels as u64;
    let scaled = (product + scale as u64 - 1) / scale as u64;
    if scaled < 1 {
        1
    } else if scaled > levels as u64 {
        levels
    } else {
        scaled as usize
    }
}

/// A count reaches the first level at least, and a busier count reaches a
/// level no lower.
pub proof fn law_levels_rise_with_the_count(a: u32, b: u32, scale: u32, levels: usize)
    requires
        a <= b,
    ensures
        level(a, scale, levels) <= level(b, scale, levels),
        scale > 0 && a > 0 && levels > 0 ==> level(a, scale, levels) >= 1,
{
    if scale > 0 && a > 0 && levels > 0 {
        assert((a * levels + scale - 1) / (scale as int) <= (b * levels + scale - 1) / (
        scale as int)) by (nonlinear_arith)
            requires
                a <= b,
                scale > 0,
                levels > 0,
        ;
    }
}

/// Columns a content row has for its text, once the gutter and the sigil are
/// paid.
pub fn content_width(gutter: usize, width: usize) -> (r: usize)
    requires
        gutter + 1 + SIGIL_WIDTH <= usize::MAX,
    ensures
        r == subz(width, (if gutter == 0 {
            SIGIL_WIDTH
        } else {
            (gutter + 1 + SIGIL_WIDTH) as usize
        })),
{
    let origin = line_origin(gutter);
    if width >= origin {
        width - origin
    } else {
        0
    }
}

/// One side of a hunk header, in git's own shorthand: the start alone for a
/// one-line side, the start and the count otherwise.
pub open spec fn span_text(start: u32, lines: u32) -> Seq<char> {
    if lines == 1 {
        decimal(start as nat)
    } else {
        decimal(start as nat) + seq![','] + decimal(lines as nat)
    }
}

/// One side of a hunk header, in git's own shorthand.
pub fn span(start: u32, lines: u32) -> (r: String)
    ensures
        r@ == span_text(start, lines),
{
    let mut out = decimal_of(start as u64);
    if lines != 1 {
        out.push(',');
        let count = decimal_of(lines as u64);
        push_all(&mut out, count.as_slice());
    }
    string_of(out.as_slice())
}

/// Columns the blanks a line opens with reach, a tab advancing to its stop.
pub open spec fn lead_columns(text: Seq<char>, column: nat) -> nat
    decreases text.len(),
{
    if text.len() == 0 {
        column
    } else if text[0] == '\t' {
        lead_columns(text.drop_first(), (column + TAB_STOP - (column as int) % (TAB_STOP as int)) as nat)
    } else if text[0] == ' ' {
        lead_columns(text.drop_first(), column + 1)
    } else {
        column
    }
}

/// Columns a wrapped line's continuation stands in by, so a block keeps its
/// shape: the line's own indent, never more than half the content.
pub open spec fn indent(text: Seq<char>, content: usize) -> nat {
    let lead = lead_columns(text, 0);
    if lead <= content / 2 {
        lead
    } else {
        (content / 2) as nat
    }
}

proof fn lemma_lead_columns_bound(text: Seq<char>, column: nat)
    ensures
        lead_columns(text, column) <= column + TAB_STOP * text.len(),
        lead_columns(text, column) >= column,
    decreases text.len(),
{
    if text.len() > 0 {
        if text[0] == '\t' {
            lemma_lead_columns_bound(text.drop_first(), (column + TAB_STOP - (column as int) % (TAB_STOP as int)) as nat);
        } else if text[0] == ' ' {
            lemma_lead_columns_bound(text.drop_first(), column + 1);
        }
    }
}

/// Columns a wrapped line's continuation stands in by.
pub fn indent_of(text: &str, content: usize) -> (r: usize)
    ensures
        r == indent(text@, content),
{
    let chars = chars_of(text);
    let half = content / 2;
    let mut column: usize = 0;
    let mut i: usize = 0;
    assert(chars@.skip(0) =~= chars@);
    while i < chars.len()
        invariant
            i <= chars@.len(),
            column <= half + TAB_STOP,
            half == content / 2,
            chars@ == text@,
            lead_columns(text@, 0) == lead_columns(chars@.skip(i as int), column as nat),
        ensures
            lead_columns(text@, 0) == column as nat,
            column <= half + TAB_STOP,
            half == content / 2,
        decreases chars@.len() - i,
    {
        let c = chars[i];
        let ghost rest = chars@.skip(i as int);
        assert(rest.drop_first() =~= chars@.skip(i + 1));
        assert(rest[0] == c);
        if c != '\t' && c != ' ' {
            assert(lead_columns(rest, column as nat) == column);
            break;
        }
        if column > half {
            proof {
                lemma_lead_columns_bound(rest, column as nat);
            }
            return half;
        }
        if c == '\t' {
            column = column + (TAB_STOP - column % TAB_STOP);
        } else {
            column = column + 1;
        }
        i += 1;
        if i == chars.len() {
            assert(chars@.skip(i as int) =~= Seq::<char>::empty());
        }
    }
    if column <= half {
        column
    } else {
        half
    }
}

/// A run of rules as wide as the word inset.
pub const RULE: char = '─';

/// What the enclosure's bottom edge carries at its far end: the status word
/// between two blanks, set in from the corner by the rules after it.
pub open spec fn word_tail_text(word: Seq<char>) -> Seq<char> {
    seq![' '] + word + seq![' ', RULE, RULE, RULE]
}

/// What the enclosure's bottom edge carries at its far end.
pub fn word_tail(word: &str) -> (r: String)
    ensures
        r@ == word_tail_text(word@),
{
    let mut tail: Vec<char> = Vec::new();
    tail.push(' ');
    push_str(&mut tail, word);
    tail.push(' ');
    let mut i: usize = 0;
    while i < WORD_INSET
        invariant
            i <= WORD_INSET,
            tail@ =~= seq![' '] + word@ + seq![' '] + Seq::new(i as nat, |k: int| RULE),
        decreases WORD_INSET - i,
    {
        tail.push(RULE);
        i += 1;
    }
    assert(tail@ =~= word_tail_text(word@));
    string_of(tail.as_slice())
}

/// What the enclosure's bottom edge needs: its two corners and the tail the
/// drawer writes, measured the way the terminal measures it.
pub fn edge_width(word: &str) -> (r: usize)
    ensures
        r == 2 + crate::text::span_width(word_tail_text(word@)) || (2 + crate::text::span_width(
            word_tail_text(word@),
        ) > usize::MAX && r == usize::MAX),
{
    let tail = word_tail(word);
    let w = crate::text::width_of(tail.as_str());
    if w <= usize::MAX - 2 {
        2 + w
    } else {
        usize::MAX
    }
}

/// The first rung of `ladder` whose width the terminal gives no more than
/// `room` columns, counting from `from`.
pub open spec fn first_fit(ladder: Seq<Seq<char>>, room: usize, from: int) -> Option<int>
    decreases ladder.len() - from,
{
    if from < 0 || from >= ladder.len() {
        None
    } else if crate::text::span_width(ladder[from]) <= room {
        Some(from)
    } else {
        first_fit(ladder, room, from + 1)
    }
}

/// The widest rung that fits, by its place in the ladder, or `None` when none
/// does.
pub fn fitting(ladder: &Vec<String>, room: usize) -> (r: Option<usize>)
    ensures
        match r {
            Some(i) => first_fit(strings(ladder@), room, 0) == Some(i as int) && i < ladder@.len(),
            None => first_fit(strings(ladder@), room, 0) is None,
        },
{
    let mut i: usize = 0;
    while i < ladder.len()
        invariant
            i <= ladder@.len(),
            first_fit(strings(ladder@), room, 0) == first_fit(strings(ladder@), room, i as int),
        decreases ladder@.len() - i,
    {
        assert(strings(ladder@)[i as int] == ladder@[i as int]@);
        if crate::text::width_of(ladder[i].as_str()) <= room {
            return Some(i);
        }
        i += 1;
    }
    None
}

/// The widest rung of `ladder` that fits in `room`, or nothing.
pub fn widest_fitting(ladder: &Vec<String>, room: usize) -> (r: String)
    ensures
        r@ == widest_text(strings(ladder@), room),
{
    match fitting(ladder, room) {
        Some(i) => {
            assert(strings(ladder@)[i as int] == ladder@[i as int]@);
            ladder[i].clone()
        },
        None => string_of(Vec::<char>::new().as_slice()),
    }
}

/// The widest rung of `ladder` that fits, or its last rung when none does.
pub fn widest_fitting_or_last(ladder: &Vec<String>, room: usize) -> (r: String)
    ensures
        r@ == (match first_fit(strings(ladder@), room, 0) {
            Some(i) => strings(ladder@)[i],
            None => if ladder@.len() > 0 {
                strings(ladder@).last()
            } else {
                Seq::empty()
            },
        }),
{
    match fitting(ladder, room) {
        Some(i) => {
            assert(strings(ladder@)[i as int] == ladder@[i as int]@);
            ladder[i].clone()
        },
        None => {
            if ladder.len() > 0 {
                assert(strings(ladder@).last() == ladder@[ladder@.len() - 1]@);
                ladder[ladder.len() - 1].clone()
            } else {
                string_of(Vec::<char>::new().as_slice())
            }
        },
    }
}


/// `a + b`, stopping at the largest `usize`.
pub open spec fn plus(a: nat, b: nat) -> nat {
    if a + b > usize::MAX {
        usize::MAX as nat
    } else {
        a + b
    }
}

/// `a + b`, stopping at the largest `usize`.
pub fn plus_of(a: usize, b: usize) -> (r: usize)
    ensures
        r == plus(a as nat, b as nat),
{
    if a > usize::MAX - b {
        usize::MAX
    } else {
        a + b
    }
}

/// One row of the gestures sheet: what to press, and what it does, each at two
/// spellings, the wide one first.
#[derive(Debug, Clone, Copy)]
pub struct Gesture {
    /// The keys cell. Aliases live inside it rather than in rows of their own.
    pub keys: [&'static str; 2],
    /// What the gesture does.
    pub verb: [&'static str; 2],
}

/// Rows of the keyboard half.
pub const KEYBOARD_ROWS: usize = 19;

/// Rows of the mouse half.
pub const MOUSE_ROWS: usize = 11;

/// Gestures the whole sheet holds, which is what the page counter counts against.
pub const SHEET_TOTAL: usize = KEYBOARD_ROWS + MOUSE_ROWS;

/// The keyboard half, in the order a reader reads it, which is not the order
/// the ladder drops it in.
pub fn keyboard() -> (r: Vec<Gesture>)
    ensures
        r@ == keyboard_rows(),
        r@.len() == KEYBOARD_ROWS,
{
    vec![
        Gesture { keys: ["j  k  ↓  ↑", "j  k  ↓  ↑"], verb: ["scroll a row", "scroll a row"] },
        Gesture { keys: ["Space  PgDn  PgUp", "Space  PgDn"], verb: ["page", "page"] },
        Gesture { keys: ["d  u", "d  u"], verb: ["half a page", "half a page"] },
        Gesture {
            keys: ["g  Home  /  G  End", "g  /  G"],
            verb: ["first / last changed file", "first / last file"],
        },
        Gesture {
            keys: ["n  →  /  p  ←", "n  /  p"],
            verb: ["next / previous changed file", "next / prev file"],
        },
        Gesture {
            keys: ["1  to  6", "1  to  6"],
            verb: ["jump to that row of the list", "jump to a list row"],
        },
        Gesture {
            keys: ["J  K  Shift+↑  Shift+↓", "J  K"],
            verb: ["scroll the pinned file list", "scroll the list"],
        },
        Gesture { keys: ["f", "f"], verb: ["follow the newest change", "follow the newest"] },
        Gesture { keys: ["r", "r"], verb: ["show or hide the left rail", "the left rail"] },
        Gesture { keys: ["s", "s"], verb: ["one file, or the whole diff", "one file only"] },
        Gesture { keys: ["o", "o"], verb: ["the file list alone, no diff", "the list alone"] },
        Gesture { keys: ["a", "a"], verb: ["show or hide staged changes", "staged changes"] },
        Gesture { keys: ["b", "b"], verb: ["stand at the branch point", "branch point"] },
        Gesture { keys: ["w", "w"], verb: ["wrap a long line, or clip it", "wrap long lines"] },
        Gesture { keys: ["c", "c"], verb: ["show or hide the note rows", "the note rows"] },
        Gesture {
            keys: ["Enter  Esc", "Enter  Esc"],
            verb: ["send the note, or cancel", "send the note"],
        },
        Gesture { keys: ["m  Esc", "m  Esc"], verb: ["the config menu", "config menu"] },
        Gesture { keys: ["?  Esc", "?  Esc"], verb: ["this sheet", "this sheet"] },
        Gesture { keys: ["q  Ctrl+C  Ctrl+D", "q"], verb: ["quit", "quit"] },
    ]
}

/// The mouse half, which is the first thing the width ladder drops.
pub fn mouse() -> (r: Vec<Gesture>)
    ensures
        r@ == mouse_rows(),
        r@.len() == MOUSE_ROWS,
{
    vec![
        Gesture { keys: ["wheel", "wheel"], verb: ["scroll what you point at", "what you point at"] },
        Gesture {
            keys: ["drag a scrollbar", "drag a bar"],
            verb: ["move that region", "move that region"],
        },
        Gesture { keys: ["click a track", "click a track"], verb: ["send that region there", "send it there"] },
        Gesture {
            keys: ["click  ▲ ▼", "click  ▲ ▼"],
            verb: ["one row, and repeats held", "a row, held repeats"],
        },
        Gesture {
            keys: ["click a listed file", "click a file"],
            verb: ["jump the diff to it", "jump the diff to it"],
        },
        Gesture { keys: ["drag the diff", "drag the diff"], verb: ["copy those rows", "copy rows"] },
        Gesture { keys: ["click a line number", "click number"], verb: ["open a note there", "open a note"] },
        Gesture { keys: ["click a note's side", "click a note"], verb: ["take it back", "take it back"] },
        Gesture { keys: ["click  ✕", "click  ✕"], verb: ["close the sheet", "close the sheet"] },
        Gesture { keys: ["just point", "just point"], verb: ["it marks itself", "it marks itself"] },
        Gesture {
            keys: ["Shift+drag", "Shift+drag"],
            verb: ["the terminal selects text", "select text"],
        },
    ]
}

/// The order the width ladder gives keyboard rows up, first to go, as places
/// in the keyboard half: `q` first, which the hint bar names at every rung,
/// and `a`, `f` and `?` last, which nothing else on the screen teaches.
pub const DROP_ORDER: [usize; 19] = [18, 15, 0, 1, 2, 3, 4, 5, 6, 14, 8, 9, 10, 13, 12, 16, 11, 7, 17];

/// Keyboard rows the ladder may never drop.
pub const SHEET_KEEP: usize = 3;

/// The drop order gives every keyboard row up exactly once: it names only rows
/// of the table and never the same row twice, so a rung's row count and the
/// rows it draws cannot come apart.
pub proof fn law_drop_order_is_a_permutation()
    ensures
        forall|i: int| 0 <= i < KEYBOARD_ROWS ==> DROP_ORDER[i] < KEYBOARD_ROWS,
        forall|i: int, j: int|
            0 <= i < j < KEYBOARD_ROWS ==> DROP_ORDER[i] != DROP_ORDER[j],
        forall|row: int| 0 <= row < KEYBOARD_ROWS ==> #[trigger] dropped(row, KEYBOARD_ROWS as int),
{
    assert forall|row: int| 0 <= row < KEYBOARD_ROWS implies #[trigger] dropped(row, KEYBOARD_ROWS as int) by {
        if row == 18 { assert(DROP_ORDER[0] == row); }
        else if row == 15 { assert(DROP_ORDER[1] == row); }
        else if row == 0 { assert(DROP_ORDER[2] == row); }
        else if row == 1 { assert(DROP_ORDER[3] == row); }
        else if row == 2 { assert(DROP_ORDER[4] == row); }
        else if row == 3 { assert(DROP_ORDER[5] == row); }
        else if row == 4 { assert(DROP_ORDER[6] == row); }
        else if row == 5 { assert(DROP_ORDER[7] == row); }
        else if row == 6 { assert(DROP_ORDER[8] == row); }
        else if row == 14 { assert(DROP_ORDER[9] == row); }
        else if row == 8 { assert(DROP_ORDER[10] == row); }
        else if row == 9 { assert(DROP_ORDER[11] == row); }
        else if row == 10 { assert(DROP_ORDER[12] == row); }
        else if row == 13 { assert(DROP_ORDER[13] == row); }
        else if row == 12 { assert(DROP_ORDER[14] == row); }
        else if row == 16 { assert(DROP_ORDER[15] == row); }
        else if row == 11 { assert(DROP_ORDER[16] == row); }
        else if row == 7 { assert(DROP_ORDER[17] == row); }
        else { assert(DROP_ORDER[18] == row); }
    }
}

/// Whether the keyboard row `row` is among the first `from` rows the ladder
/// gives up.
pub open spec fn dropped(row: int, from: int) -> bool {
    exists|j: int| 0 <= j < from && j < KEYBOARD_ROWS && #[trigger] DROP_ORDER[j] == row
}

/// The rows of `rows` from place `at` on that a rung with `from` dropped still
/// draws, in display order.
pub open spec fn kept_from(rows: Seq<Gesture>, at: int, from: int) -> Seq<Gesture>
    decreases rows.len() - at,
{
    if at < 0 || at >= rows.len() {
        Seq::empty()
    } else if dropped(at, from) {
        kept_from(rows, at + 1, from)
    } else {
        seq![rows[at]] + kept_from(rows, at + 1, from)
    }
}

/// Whether the ladder's first `from` steps give up the row at `row`.
fn is_dropped(row: usize, from: usize) -> (r: bool)
    ensures
        r == dropped(row as int, from as int),
{
    let mut j: usize = 0;
    while j < from && j < KEYBOARD_ROWS
        invariant
            j <= KEYBOARD_ROWS,
            forall|k: int| 0 <= k < j ==> DROP_ORDER[k] != row,
        decreases KEYBOARD_ROWS - j,
    {
        if DROP_ORDER[j] == row {
            return true;
        }
        j += 1;
    }
    false
}

/// The keyboard rows a rung with `from` dropped still draws, in display order.
pub fn kept_keyboard(from: usize) -> (r: Vec<Gesture>)
    ensures
        r@ == kept_from(keyboard_rows(), 0, from as int),
{
    let all = keyboard();
    let mut out: Vec<Gesture> = Vec::new();
    let mut at: usize = all.len();
    while at > 0
        invariant
            at <= all@.len(),
            all@ == keyboard_rows(),
            out@ == kept_from(all@, at as int, from as int),
        decreases at,
    {
        at -= 1;
        if !is_dropped(at, from) {
            let mut next: Vec<Gesture> = Vec::new();
            next.push(all[at]);
            let mut k: usize = 0;
            while k < out.len()
                invariant
                    k <= out@.len(),
                    next@ == seq![all@[at as int]] + out@.take(k as int),
                decreases out@.len() - k,
            {
                next.push(out[k]);
                k += 1;
                assert(seq![all@[at as int]] + out@.take(k as int) =~= (seq![all@[at as int]]
                    + out@.take(k - 1)).push(out@[k - 1]));
            }
            assert(out@.take(out@.len() as int) =~= out@);
            out = next;
        }
    }
    out
}

/// The keyboard half, as the sheet holds it.
pub open spec fn keyboard_rows() -> Seq<Gesture> {
    seq![
        Gesture { keys: ["j  k  ↓  ↑", "j  k  ↓  ↑"], verb: ["scroll a row", "scroll a row"] },
        Gesture { keys: ["Space  PgDn  PgUp", "Space  PgDn"], verb: ["page", "page"] },
        Gesture { keys: ["d  u", "d  u"], verb: ["half a page", "half a page"] },
        Gesture {
            keys: ["g  Home  /  G  End", "g  /  G"],
            verb: ["first / last changed file", "first / last file"],
        },
        Gesture {
            keys: ["n  →  /  p  ←", "n  /  p"],
            verb: ["next / previous changed file", "next / prev file"],
        },
        Gesture {
            keys: ["1  to  6", "1  to  6"],
            verb: ["jump to that row of the list", "jump to a list row"],
        },
        Gesture {
            keys: ["J  K  Shift+↑  Shift+↓", "J  K"],
            verb: ["scroll the pinned file list", "scroll the list"],
        },
        Gesture { keys: ["f", "f"], verb: ["follow the newest change", "follow the newest"] },
        Gesture { keys: ["r", "r"], verb: ["show or hide the left rail", "the left rail"] },
        Gesture { keys: ["s", "s"], verb: ["one file, or the whole diff", "one file only"] },
        Gesture { keys: ["o", "o"], verb: ["the file list alone, no diff", "the list alone"] },
        Gesture { keys: ["a", "a"], verb: ["show or hide staged changes", "staged changes"] },
        Gesture { keys: ["b", "b"], verb: ["stand at the branch point", "branch point"] },
        Gesture { keys: ["w", "w"], verb: ["wrap a long line, or clip it", "wrap long lines"] },
        Gesture { keys: ["c", "c"], verb: ["show or hide the note rows", "the note rows"] },
        Gesture {
            keys: ["Enter  Esc", "Enter  Esc"],
            verb: ["send the note, or cancel", "send the note"],
        },
        Gesture { keys: ["m  Esc", "m  Esc"], verb: ["the config menu", "config menu"] },
        Gesture { keys: ["?  Esc", "?  Esc"], verb: ["this sheet", "this sheet"] },
        Gesture { keys: ["q  Ctrl+C  Ctrl+D", "q"], verb: ["quit", "quit"] },
    ]
}

/// The mouse half, as the sheet holds it.
pub open spec fn mouse_rows() -> Seq<Gesture> {
    seq![
        Gesture { keys: ["wheel", "wheel"], verb: ["scroll what you point at", "what you point at"] },
        Gesture {
            keys: ["drag a scrollbar", "drag a bar"],
            verb: ["move that region", "move that region"],
        },
        Gesture { keys: ["click a track", "click a track"], verb: ["send that region there", "send it there"] },
        Gesture {
            keys: ["click  ▲ ▼", "click  ▲ ▼"],
            verb: ["one row, and repeats held", "a row, held repeats"],
        },
        Gesture {
            keys: ["click a listed file", "click a file"],
            verb: ["jump the diff to it", "jump the diff to it"],
        },
        Gesture { keys: ["drag the diff", "drag the diff"], verb: ["copy those rows", "copy rows"] },
        Gesture { keys: ["click a line number", "click number"], verb: ["open a note there", "open a note"] },
        Gesture { keys: ["click a note's side", "click a note"], verb: ["take it back", "take it back"] },
        Gesture { keys: ["click  ✕", "click  ✕"], verb: ["close the sheet", "close the sheet"] },
        Gesture { keys: ["just point", "just point"], verb: ["it marks itself", "it marks itself"] },
        Gesture {
            keys: ["Shift+drag", "Shift+drag"],
            verb: ["the terminal selects text", "select text"],
        },
    ]
}

/// The larger of two numbers.
pub open spec fn larger(a: nat, b: nat) -> nat {
    if a >= b {
        a
    } else {
        b
    }
}

/// The widest keys cell, or the widest verb, over `rows` at one spelling, as
/// the terminal measures them.
pub open spec fn widest(rows: Seq<Gesture>, level: int, keys: bool) -> nat
    decreases rows.len(),
{
    if rows.len() == 0 {
        0
    } else {
        let cell = if keys {
            rows.last().keys[level]
        } else {
            rows.last().verb[level]
        };
        larger(widest(rows.drop_last(), level, keys), crate::text::span_width(cell@) as nat)
    }
}

/// The widest keys cell and the widest verb over a group, at one spelling.
pub fn fields_of(rows: &[Gesture], level: usize) -> (r: (usize, usize))
    requires
        level < 2,
    ensures
        r.0 == widest(rows@, level as int, true),
        r.1 == widest(rows@, level as int, false),
{
    let mut keys: usize = 0;
    let mut verb: usize = 0;
    let mut i: usize = 0;
    assert(rows@.take(0) =~= Seq::<Gesture>::empty());
    while i < rows.len()
        invariant
            i <= rows@.len(),
            level < 2,
            keys == widest(rows@.take(i as int), level as int, true),
            verb == widest(rows@.take(i as int), level as int, false),
        decreases rows@.len() - i,
    {
        let row = rows[i];
        let k = crate::text::width_of(row.keys[level]);
        let v = crate::text::width_of(row.verb[level]);
        assert(rows@.take(i + 1).drop_last() =~= rows@.take(i as int));
        assert(rows@.take(i + 1).last() == row);
        if k > keys {
            keys = k;
        }
        if v > verb {
            verb = v;
        }
        i += 1;
    }
    assert(rows@.take(rows@.len() as int) =~= rows@);
    (keys, verb)
}

/// Blank columns between a keys cell and its verb, and between one group's
/// block and the next.
pub const SHEET_GAP: usize = 2;

/// Columns a group's own block occupies: its keys field, a gap, its verb field,
/// and the gap that follows it.
pub open spec fn span_of(keys: nat, verb: nat) -> nat {
    plus(plus(plus(keys, SHEET_GAP as nat), verb), SHEET_GAP as nat)
}

/// Columns a group's own block occupies.
pub fn sheet_span(keys: usize, verb: usize) -> (r: usize)
    ensures
        r == span_of(keys as nat, verb as nat),
{
    plus_of(plus_of(plus_of(keys, SHEET_GAP), verb), SHEET_GAP)
}

/// What the sheet's own title bar spells, corner excluded.
pub const SHEET_TITLE: &'static str = "─ gestures ";

/// The page counter the title bar carries: which gestures a page draws, and
/// how many the tables hold.
pub open spec fn counter_text(first: nat, last: nat) -> Seq<char> {
    if first == last {
        seq![' '] + decimal(first) + " of "@ + decimal(SHEET_TOTAL as nat) + seq![' ']
    } else {
        seq![' '] + decimal(first) + seq!['-'] + decimal(last) + " of "@ + decimal(
            SHEET_TOTAL as nat,
        ) + seq![' ']
    }
}

/// The page counter the title bar carries.
pub fn sheet_counter(first: usize, last: usize) -> (r: String)
    ensures
        r@ == counter_text(first as nat, last as nat),
{
    let mut out: Vec<char> = Vec::new();
    out.push(' ');
    let a = decimal_of(first as u64);
    push_all(&mut out, a.as_slice());
    if first != last {
        out.push('-');
        let b = decimal_of(last as u64);
        push_all(&mut out, b.as_slice());
    }
    push_str(&mut out, " of ");
    let total = decimal_of(SHEET_TOTAL as u64);
    push_all(&mut out, total.as_slice());
    out.push(' ');
    string_of(out.as_slice())
}

/// The widest counter a page starting at `first` can carry, for last gestures
/// from `last` on.
pub open spec fn counters_from(first: nat, last: nat) -> nat
    decreases SHEET_TOTAL + 1 - last,
{
    if last > SHEET_TOTAL {
        0
    } else {
        larger(
            crate::text::span_width(counter_text(first, last)) as nat,
            counters_from(first, last + 1),
        )
    }
}

/// The widest counter any page from `first` on can carry.
pub open spec fn counters_over(first: nat) -> nat
    decreases SHEET_TOTAL + 1 - first,
{
    if first > SHEET_TOTAL {
        0
    } else {
        larger(counters_from(first, first), counters_over(first + 1))
    }
}

/// The widest the page counter can ever be, which every rung's width charges.
pub fn counter_floor() -> (r: usize)
    ensures
        r == counters_over(1),
{
    let mut best: usize = 0;
    let mut first: usize = SHEET_TOTAL + 1;
    while first > 1
        invariant
            1 <= first <= SHEET_TOTAL + 1,
            best == counters_over(first as nat),
        decreases first,
    {
        first -= 1;
        let mut row: usize = 0;
        let mut last: usize = SHEET_TOTAL + 1;
        while last > first
            invariant
                first <= last <= SHEET_TOTAL + 1,
                row == counters_from(first as nat, last as nat),
            decreases last,
        {
            last -= 1;
            let w = crate::text::width_of(sheet_counter(first, last).as_str());
            if w > row {
                row = w;
            }
        }
        if row > best {
            best = row;
        }
    }
    best
}

/// The floor every rung's width takes, so a narrow table cannot draw a
/// truncated heading: the title, the widest counter, and six columns of frame.
pub open spec fn floor_of(total: nat) -> nat {
    larger(
        total,
        plus(
            plus(crate::text::span_width(SHEET_TITLE@) as nat, counters_over(1)),
            6,
        ),
    )
}

/// The floor every rung's width takes.
pub fn sheet_floor(total: usize) -> (r: usize)
    ensures
        r == floor_of(total as nat),
        r >= 6,
{
    let title = crate::text::width_of(SHEET_TITLE);
    let least = plus_of(plus_of(title, counter_floor()), 6);
    if total >= least {
        total
    } else {
        least
    }
}

/// The keyboard and mouse fields a one-column rung needs: the kept keyboard
/// rows', widened by the mouse group's where it is drawn.
pub open spec fn column_fields(level: int, from: int, mouse: bool) -> (nat, nat) {
    let kept = kept_from(keyboard_rows(), 0, from);
    let keys = widest(kept, level, true);
    let verb = widest(kept, level, false);
    if mouse {
        (
            larger(keys, widest(mouse_rows(), level, true)),
            larger(verb, widest(mouse_rows(), level, false)),
        )
    } else {
        (keys, verb)
    }
}

/// The three widths a one-column rung needs: keys field, verb field, and the
/// whole sheet, which is a border, a blank, the keys, two of gap, the verb, a
/// blank and a border, floored at the title bar.
pub fn sheet_fields(level: usize, from: usize, mouse: bool) -> (r: (usize, usize, usize))
    requires
        level < 2,
    ensures
        r.2 >= 6,
        (r.0 as nat, r.1 as nat) == column_fields(level as int, from as int, mouse),
        r.2 == floor_of(plus(plus(plus(r.0 as nat, SHEET_GAP as nat), r.1 as nat), 4)),
{
    let kept = kept_keyboard(from);
    let (mut keys, mut verb) = fields_of(kept.as_slice(), level);
    if mouse {
        let group = self::mouse();
        let (mk, mv) = fields_of(group.as_slice(), level);
        if mk > keys {
            keys = mk;
        }
        if mv > verb {
            verb = mv;
        }
    }
    let total = sheet_floor(plus_of(plus_of(plus_of(keys, SHEET_GAP), verb), 4));
    (keys, verb, total)
}

/// Columns a sheet `total` wide leaves for text `at` columns in from its frame.
pub fn sheet_room(total: usize, at: usize) -> (r: usize)
    ensures
        r == subz(total, plus(at as nat, 2) as usize),
{
    let edge = plus_of(at, 2);
    if total >= edge {
        total - edge
    } else {
        0
    }
}

/// Rows what the sheet says the pane is costs a one-column rung: the line and
/// a blank under it.
pub const PURPOSE_ROWS: usize = 2;

/// Whether a page of `capacity` rows may spend [`PURPOSE_ROWS`] of them saying
/// what the pane is, given the `bare` rows its gestures need: only where
/// nothing has been given up, and the whole table and the line both fit.
pub fn purpose_fits(from: usize, mouse: bool, bare: usize, capacity: usize) -> (r: bool)
    ensures
        r == (from == 0 && mouse && bare + PURPOSE_ROWS <= capacity),
{
    from == 0 && mouse && bare <= usize::MAX - PURPOSE_ROWS && bare + PURPOSE_ROWS <= capacity
}

/// One group of gestures, placed: where its block starts inside the sheet, and
/// the two fields its rows are drawn in.
#[derive(Debug, Clone, Copy, PartialEq, Eq, Structural)]
pub struct Group {
    /// Columns in from the sheet's left edge where this group's block begins.
    /// The keys cells start one further in.
    pub at: usize,
    /// The keys field's width.
    pub keys: usize,
    /// The verb field's width.
    pub verb: usize,
    /// Blank columns between this group's keys cells and its verbs.
    pub gap: usize,
}

impl Group {
    /// The screen column this group's keys cells start in.
    pub fn keys_at(self, left: u16) -> (r: u16)
        requires
            left + self.at + 1 <= u16::MAX,
        ensures
            r == left + self.at + 1,
    {
        left + self.at as u16 + 1
    }

    /// The screen column this group's verb cells start in.
    pub fn verb_at(self, left: u16) -> (r: u16)
        requires
            left + self.at + 1 + self.keys + self.gap <= u16::MAX,
        ensures
            r == left + self.at + 1 + self.keys + self.gap,
    {
        self.keys_at(left) + self.keys as u16 + self.gap as u16
    }
}

/// What the keyboard group's heading spells, and it is drawn only on the
/// two-column rung.
pub const SHEET_KEYBOARD_LABEL: &'static str = " keyboard ";

/// The two-column rung's groups and the whole sheet's width: the keyboard group
/// against the frame, the mouse group after its block or its heading, whichever
/// reaches further, and a blank and a border after the mouse group's block.
pub open spec fn beside_of(level: int) -> (Group, Group, nat) {
    let kb_keys = widest(keyboard_rows(), level, true);
    let kb_verb = widest(keyboard_rows(), level, false);
    let ms_keys = widest(mouse_rows(), level, true);
    let ms_verb = widest(mouse_rows(), level, false);
    let keyboard = Group { at: 1, keys: kb_keys as usize, verb: kb_verb as usize, gap: SHEET_GAP };
    let mouse_at = larger(
        plus(1, span_of(kb_keys, kb_verb)),
        plus(1, crate::text::span_width(SHEET_KEYBOARD_LABEL@) as nat),
    );
    let mouse = Group { at: mouse_at as usize, keys: ms_keys as usize, verb: ms_verb as usize, gap: SHEET_GAP };
    (keyboard, mouse, floor_of(plus(plus(mouse_at, span_of(ms_keys, ms_verb)), 1)))
}

/// The two-column rung's groups and the whole sheet's width.
pub fn sheet_beside(level: usize) -> (r: (Group, Group, usize))
    requires
        level < 2,
    ensures
        r.2 >= 6,
        (r.0, r.1, r.2 as nat) == beside_of(level as int),
{
    let kb = keyboard();
    let ms = mouse();
    let (kb_keys, kb_verb) = fields_of(kb.as_slice(), level);
    let (ms_keys, ms_verb) = fields_of(ms.as_slice(), level);
    let keyboard = Group { at: 1, keys: kb_keys, verb: kb_verb, gap: SHEET_GAP };
    let by_block = plus_of(1, sheet_span(kb_keys, kb_verb));
    let by_label = plus_of(1, crate::text::width_of(SHEET_KEYBOARD_LABEL));
    let mouse_at = if by_block >= by_label {
        by_block
    } else {
        by_label
    };
    let mouse = Group { at: mouse_at, keys: ms_keys, verb: ms_verb, gap: SHEET_GAP };
    let total = sheet_floor(plus_of(plus_of(mouse_at, sheet_span(ms_keys, ms_verb)), 1));
    (keyboard, mouse, total)
}

/// Rows the two-column rung draws, frame excluded: what the pane is, the heading
/// under it, and the taller column.
pub fn sheet_beside_rows(purpose: bool) -> (r: usize)
    ensures
        r == (if purpose {
            1int
        } else {
            0
        }) + 1 + KEYBOARD_ROWS,
{
    (if purpose {
        1
    } else {
        0
    }) + 1 + if KEYBOARD_ROWS >= MOUSE_ROWS {
        KEYBOARD_ROWS
    } else {
        MOUSE_ROWS
    }
}

/// Which rows a [`Section`] heads.
#[derive(Debug, Clone, Copy, PartialEq, Eq, Structural)]
pub enum Rows {
    /// The keyboard rows from `from` up to `to`.
    Keyboard { from: usize, to: usize },
    /// The whole of the mouse half.
    Mouse,
}

/// The rows a run names, as the sheet holds them.
pub open spec fn rows_of(rows: Rows) -> Seq<Gesture> {
    match rows {
        Rows::Keyboard { from, to } => keyboard_rows().subrange(from as int, to as int),
        Rows::Mouse => mouse_rows(),
    }
}

impl Rows {
    /// The rows themselves.
    pub fn rows(self) -> (r: Vec<Gesture>)
        requires
            self matches Rows::Keyboard { from, to } ==> from <= to <= KEYBOARD_ROWS,
        ensures
            r@ == rows_of(self),
    {
        match self {
            Rows::Keyboard { from, to } => {
                let all = keyboard();
                let mut out: Vec<Gesture> = Vec::new();
                let mut i = from;
                while i < to
                    invariant
                        from <= i <= to <= KEYBOARD_ROWS,
                        all@.len() == KEYBOARD_ROWS,
                        out@ =~= all@.subrange(from as int, i as int),
                    decreases to - i,
                {
                    out.push(all[i]);
                    i += 1;
                }
                out
            },
            Rows::Mouse => self::mouse(),
        }
    }
}

/// One labelled run of the sheet's table, which the roomy rung draws as a
/// section and every other rung draws unlabelled.
#[derive(Debug, Clone, Copy)]
pub struct Section {
    /// What the heading spells.
    pub label: &'static str,
    /// The rows under it.
    pub rows: Rows,
}

/// How many sections the sheet has.
pub const SECTION_COUNT: usize = 6;

/// The rows each section heads, in the order the roomy rung draws them.
pub open spec fn section_rows(i: int) -> Rows {
    if i == 0 {
        Rows::Keyboard { from: 0, to: 3 }
    } else if i == 1 {
        Rows::Keyboard { from: 3, to: 7 }
    } else if i == 2 {
        Rows::Keyboard { from: 7, to: 14 }
    } else if i == 3 {
        Rows::Keyboard { from: 14, to: 16 }
    } else if i == 4 {
        Rows::Mouse
    } else {
        Rows::Keyboard { from: 16, to: 19 }
    }
}

/// The reader's own sections, in the order the roomy rung draws them.
pub fn sections() -> (r: Vec<Section>)
    ensures
        r@.len() == SECTION_COUNT,
        forall|i: int| 0 <= i < SECTION_COUNT ==> #[trigger] r@[i].rows == section_rows(i),
        forall|i: int| 0 <= i < SECTION_COUNT ==> #[trigger] r@[i].label == section_label(i),
{
    vec![
        Section { label: "moving", rows: Rows::Keyboard { from: 0, to: 3 } },
        Section { label: "files", rows: Rows::Keyboard { from: 3, to: 7 } },
        Section { label: "view", rows: Rows::Keyboard { from: 7, to: 14 } },
        Section { label: "notes", rows: Rows::Keyboard { from: 14, to: 16 } },
        Section { label: "mouse", rows: Rows::Mouse },
        Section { label: "leaving", rows: Rows::Keyboard { from: 16, to: 19 } },
    ]
}

/// Whether section `i` heads the keyboard row `row`.
pub open spec fn heads(i: int, row: int) -> bool {
    section_rows(i) matches Rows::Keyboard { from, to } && from <= row < to
}

/// Whether some section heads the keyboard row `row`.
pub open spec fn headed(row: int) -> bool {
    exists|i: int| 0 <= i < SECTION_COUNT && #[trigger] heads(i, row)
}

/// The sections draw every keyboard row exactly once, each run non-empty and
/// inside the table, and name the mouse half exactly once, so the roomy rung
/// draws every gesture the ladder promises and none twice.
pub proof fn law_sections_tile_the_table()
    ensures
        forall|row: int| 0 <= row < KEYBOARD_ROWS ==> #[trigger] headed(row),
        forall|i: int, j: int, row: int|
            0 <= i < j < SECTION_COUNT && #[trigger] heads(i, row) ==> !#[trigger] heads(j, row),
        forall|i: int|
            0 <= i < SECTION_COUNT ==> (#[trigger] section_rows(i) matches Rows::Keyboard { from, to } ==> from < to <= KEYBOARD_ROWS),
        section_rows(4) is Mouse,
        forall|i: int| 0 <= i < SECTION_COUNT && i != 4 ==> !(#[trigger] section_rows(i) is Mouse),
{
    assert forall|row: int| 0 <= row < KEYBOARD_ROWS implies #[trigger] headed(row) by {
        if row < 3 {
            assert(heads(0, row));
        } else if row < 7 {
            assert(heads(1, row));
        } else if row < 14 {
            assert(heads(2, row));
        } else if row < 16 {
            assert(heads(3, row));
        } else {
            assert(heads(5, row));
        }
    }
}

/// Every row the sections head, in the order the roomy rung draws them.
pub open spec fn sectioned() -> Seq<Gesture> {
    rows_of(section_rows(0)) + rows_of(section_rows(1)) + rows_of(section_rows(2)) + rows_of(
        section_rows(3),
    ) + rows_of(section_rows(4)) + rows_of(section_rows(5))
}

/// Blank columns between the roomy rung's frame and its keys cells.
pub const ROOMY_INSET: usize = 4;

/// Blank columns between the roomy rung's frame and its section headings.
pub const ROOMY_HEADING_INSET: usize = 2;

/// Blank columns between a roomy row's keys cell and its verb.
pub const ROOMY_GAP: usize = 8;

/// The widest of the section headings, each with its inset and the frame.
pub open spec fn headings_from(i: int) -> nat
    decreases SECTION_COUNT - i,
{
    if i < 0 || i >= SECTION_COUNT {
        0
    } else {
        larger(
            plus(plus(ROOMY_HEADING_INSET as nat, crate::text::span_width(section_label(i)@) as nat), 2),
            headings_from(i + 1),
        )
    }
}

/// What each section's heading spells.
pub open spec fn section_label(i: int) -> &'static str {
    if i == 0 {
        "moving"
    } else if i == 1 {
        "files"
    } else if i == 2 {
        "view"
    } else if i == 3 {
        "notes"
    } else if i == 4 {
        "mouse"
    } else {
        "leaving"
    }
}

/// The roomy rung's one placed group and the whole sheet's width: the inset,
/// the fields over every section, the wide gap, the inset again and the frame,
/// wide enough for every heading, and floored at the title bar.
pub open spec fn roomy_of() -> (Group, nat) {
    let keys = widest(sectioned(), 0, true);
    let verb = widest(sectioned(), 0, false);
    let group = Group { at: ROOMY_INSET, keys: keys as usize, verb: verb as usize, gap: ROOMY_GAP };
    let blocks = plus(plus(plus(plus(plus(ROOMY_INSET as nat, keys), ROOMY_GAP as nat), verb), ROOMY_INSET as nat), 2);
    (group, floor_of(larger(blocks, headings_from(0))))
}

/// The roomy rung's one placed group and the whole sheet's width.
pub fn sheet_roomy() -> (r: (Group, usize))
    ensures
        r.1 >= 6,
        (r.0, r.1 as nat) == roomy_of(),
{
    let parts = sections();
    let mut all: Vec<Gesture> = Vec::new();
    let mut i: usize = 0;
    assert(Seq::<Gesture>::empty() =~= all@);
    while i < SECTION_COUNT
        invariant
            i <= SECTION_COUNT,
            parts@.len() == SECTION_COUNT,
            forall|k: int| 0 <= k < SECTION_COUNT ==> #[trigger] parts@[k].rows == section_rows(k),
            all@ =~= (if i == 0 {
                Seq::empty()
            } else if i == 1 {
                rows_of(section_rows(0))
            } else if i == 2 {
                rows_of(section_rows(0)) + rows_of(section_rows(1))
            } else if i == 3 {
                rows_of(section_rows(0)) + rows_of(section_rows(1)) + rows_of(section_rows(2))
            } else if i == 4 {
                rows_of(section_rows(0)) + rows_of(section_rows(1)) + rows_of(section_rows(2))
                    + rows_of(section_rows(3))
            } else if i == 5 {
                rows_of(section_rows(0)) + rows_of(section_rows(1)) + rows_of(section_rows(2))
                    + rows_of(section_rows(3)) + rows_of(section_rows(4))
            } else {
                sectioned()
            }),
        decreases SECTION_COUNT - i,
    {
        assert(parts@[i as int].rows == section_rows(i as int));
        let run = parts[i].rows.rows();
        let ghost before = all@;
        let mut k: usize = 0;
        while k < run.len()
            invariant
                k <= run@.len(),
                all@ =~= before + run@.take(k as int),
            decreases run@.len() - k,
        {
            all.push(run[k]);
            k += 1;
            assert(before + run@.take(k as int) =~= (before + run@.take(k - 1)).push(run@[k - 1]));
        }
        assert(run@.take(run@.len() as int) =~= run@);
        i += 1;
    }
    let (keys, verb) = fields_of(all.as_slice(), 0);
    let group = Group { at: ROOMY_INSET, keys, verb, gap: ROOMY_GAP };
    let mut total = plus_of(
        plus_of(plus_of(plus_of(plus_of(group.at, group.keys), group.gap), group.verb), ROOMY_INSET),
        2,
    );
    let mut heading: usize = 0;
    let mut j: usize = SECTION_COUNT;
    while j > 0
        invariant
            j <= SECTION_COUNT,
            parts@.len() == SECTION_COUNT,
            forall|k: int| 0 <= k < SECTION_COUNT ==> #[trigger] parts@[k].label == section_label(k),
            heading == headings_from(j as int),
        decreases j,
    {
        j -= 1;
        let w = plus_of(plus_of(ROOMY_HEADING_INSET, crate::text::width_of(parts[j].label)), 2);
        if w > heading {
            heading = w;
        }
    }
    if heading > total {
        total = heading;
    }
    (group, sheet_floor(total))
}

/// What the sheet says the pane is, above the gestures, widest spelling first.
pub const SHEET_PURPOSE: [&'static str; 2] = [
    "working tree's diff, live · it follows on its own",
    "working tree's diff, live",
];

/// Rows a one-column rung draws, frame excluded: what the pane is and the blank
/// under it where it says so, the keyboard rows it kept, and the mouse group's
/// heading and rows where it keeps them.
pub open spec fn column_rows(from: int, mouse: bool, purpose: bool) -> int {
    (if purpose {
        PURPOSE_ROWS as int
    } else {
        0
    }) + kept_from(keyboard_rows(), 0, from).len() + (if mouse {
        1 + MOUSE_ROWS
    } else {
        0int
    })
}

/// Rows a one-column rung draws, frame excluded.
pub fn sheet_rows(from: usize, mouse: bool, purpose: bool) -> (r: usize)
    ensures
        r == column_rows(from as int, mouse, purpose),
{
    let kept = kept_keyboard(from);
    proof {
        lemma_kept_bound(keyboard_rows(), 0, from as int);
    }
    (if purpose {
        PURPOSE_ROWS
    } else {
        0
    }) + kept.len() + if mouse {
        1 + MOUSE_ROWS
    } else {
        0
    }
}

/// The rows kept are no more than the rows there are.
proof fn lemma_kept_bound(rows: Seq<Gesture>, at: int, from: int)
    requires
        0 <= at <= rows.len(),
    ensures
        kept_from(rows, at, from).len() <= rows.len() - at,
    decreases rows.len() - at,
{
    if at < rows.len() {
        lemma_kept_bound(rows, at + 1, from);
    }
}

/// Rows the roomy rung draws, frame excluded: the line, then every section's
/// heading, its rows, and the blank after them.
pub fn sheet_roomy_rows() -> (r: usize)
    ensures
        r == 1 + KEYBOARD_ROWS + MOUSE_ROWS + 2 * SECTION_COUNT,
{
    let parts = sections();
    let mut total: usize = 1;
    let mut i: usize = 0;
    while i < SECTION_COUNT
        invariant
            i <= SECTION_COUNT,
            parts@.len() == SECTION_COUNT,
            forall|k: int| 0 <= k < SECTION_COUNT ==> #[trigger] parts@[k].rows == section_rows(k),
            total == 1 + (if i == 0 {
                0int
            } else if i == 1 {
                5
            } else if i == 2 {
                11
            } else if i == 3 {
                20
            } else if i == 4 {
                24
            } else if i == 5 {
                37
            } else {
                42
            }),
        decreases SECTION_COUNT - i,
    {
        assert(parts@[i as int].rows == section_rows(i as int));
        let run = parts[i].rows.rows();
        total = total + run.len() + 2;
        i += 1;
    }
    total
}

/// The footer's left-hand side when there is nothing wrong, widest rung first.
pub const HINT_RUNGS: [&'static str; 5] = [
    "q quit · f follow · m config · ? keys",
    "q quit · f follow · ? keys",
    "f follow · ? keys",
    "f follow",
    "",
];

/// The hint rungs' characters, widest first.
#[verifier::opaque]
pub open spec fn hint_ladder() -> Seq<Seq<char>> {
    seq![HINT_RUNGS[0]@, HINT_RUNGS[1]@, HINT_RUNGS[2]@, HINT_RUNGS[3]@, HINT_RUNGS[4]@]
}

/// The hint rungs as strings.
pub fn hint_rungs() -> (r: Vec<String>)
    ensures
        strings(r@) == hint_ladder(),
{
    let mut out: Vec<String> = Vec::new();
    out.push(string_of(chars_of(HINT_RUNGS[0]).as_slice()));
    out.push(string_of(chars_of(HINT_RUNGS[1]).as_slice()));
    out.push(string_of(chars_of(HINT_RUNGS[2]).as_slice()));
    out.push(string_of(chars_of(HINT_RUNGS[3]).as_slice()));
    out.push(string_of(chars_of(HINT_RUNGS[4]).as_slice()));
    assert(strings(out@) =~= hint_ladder()) by {
        reveal(hint_ladder);
    }
    out
}

/// The widest rung of a ladder that fits `room`, or nothing.
pub open spec fn widest_text(ladder: Seq<Seq<char>>, room: usize) -> Seq<char> {
    match first_fit(ladder, room, 0) {
        Some(i) => ladder[i],
        None => Seq::empty(),
    }
}

/// The columns a state of `state` columns costs the line: itself and the gap
/// that keeps it off the hints, or nothing for no state.
pub open spec fn gapped(state: nat) -> nat {
    if state == 0 {
        0
    } else {
        plus(state, 2)
    }
}

/// What the footer will draw, and how many rows it needs.
#[derive(Debug, Clone)]
pub struct Footer {
    /// One, or two when a single line cannot hold both halves. Zero on a screen
    /// with no room for a footer at all.
    pub rows: u16,
    /// Columns the state may take on its line.
    pub reserved: usize,
    /// The hints rung, or the notice.
    pub left: String,
    /// Whether `left` is a notice, which is what decides its colour.
    pub voice: Option<Voice>,
    /// Whether a rule is drawn above the footer's text.
    pub rule: bool,
    /// The readouts, already narrowed to what is left after the hints and the
    /// state have taken theirs.
    pub diagnostics: String,
}

/// The footer a pane plans, as numbers and characters: its rows, its state's
/// columns, what its left side says, in which voice, whether a rule stands
/// over it, and what readouts fit in what is left.
pub struct FooterPlan {
    pub rows: u16,
    pub reserved: usize,
    pub left: Seq<char>,
    pub voice: Option<Voice>,
    pub rule: bool,
    pub diagnostics: Seq<char>,
}

/// Decide the footer's shape from the pane, the state and the file count.
///
/// The room is the pane less its margins. The state is measured at the last
/// file's position, the widest the count can produce, and without the notes
/// count when deciding whether the footer grows: a second line is worth taking
/// only where the hint bar's baseline rung and the position cannot share one,
/// there is a position to move, and a body is still worth showing. The rule
/// over the footer is charged against the same floor. A notice takes the left
/// side in its voice; otherwise the widest hints that fit. The readouts come
/// last, out of whatever is left over.
pub open spec fn footer_plan(
    width: u16,
    height: u16,
    files: usize,
    following: bool,
    notes: NoteCount,
    notice: Option<Seq<char>>,
    voice: Option<Voice>,
    readouts: Seq<Seq<char>>,
) -> FooterPlan {
    let room_all = sub16(sub16(width, margins(width).0), margins(width).1) as usize;
    if height < 2 {
        FooterPlan {
            rows: 0,
            reserved: 0,
            left: Seq::empty(),
            voice: None,
            rule: false,
            diagnostics: Seq::empty(),
        }
    } else {
        let widest = position_text(subz(files, 1), files);
        let bare = crate::text::span_width(
            widest_text(position_ladder(following, widest), room_all),
        ) as nat;
        let reserved = crate::text::span_width(
            widest_text(state_ladder(following, widest, notes), room_all),
        );
        let taken = gapped(reserved as nat);
        let grows = plus(crate::text::span_width(HINT_RUNGS[1]@) as nat, gapped(bare)) > room_all
            && bare > 0 && height >= 3 + MIN_BODY;
        let rows: u16 = if grows {
            2
        } else {
            1
        };
        let rule = height >= 1 + rows + 1 + MIN_BODY;
        let room = if grows {
            room_all
        } else {
            subz(room_all, taken as usize)
        };
        let hints = widest_text(hint_ladder(), room);
        let occupied = plus(
            plus(taken, 2),
            if grows {
                0
            } else {
                crate::text::span_width(hints) as nat
            },
        );
        FooterPlan {
            rows,
            reserved,
            left: match notice {
                Some(n) => n,
                None => hints,
            },
            voice: match notice {
                Some(_) => voice,
                None => None,
            },
            rule,
            diagnostics: widest_text(readouts, subz(room_all, occupied as usize)),
        }
    }
}

/// The columns a string of this ladder's widest fitting rung takes.
fn fitting_width(ladder: &Vec<String>, room: usize) -> (r: usize)
    ensures
        r == crate::text::span_width(widest_text(strings(ladder@), room)),
{
    let rung = widest_fitting(ladder, room);
    crate::text::width_of(rung.as_str())
}

/// The columns the position alone and the whole state take at their widest
/// fitting rungs, measured at the last file's position.
fn measure_state(width: usize, files: usize, following: bool, notes: NoteCount) -> (r: (usize, usize))
    ensures
        r.0 == crate::text::span_width(
            widest_text(position_ladder(following, position_text(subz(files, 1), files)), width),
        ),
        r.1 == crate::text::span_width(
            widest_text(state_ladder(following, position_text(subz(files, 1), files), notes), width),
        ),
{
    let last = if files >= 1 {
        files - 1
    } else {
        0
    };
    let widest = position_of(last, files);
    let bare = fitting_width(&position_rungs(following, widest.as_str()), width);
    let reserved = fitting_width(&state_rungs(following, widest.as_str(), notes), width);
    (bare, reserved)
}

impl Footer {
    /// Rows the footer takes off the pane, its rule included.
    pub fn height(&self) -> (r: u16)
        requires
            self.rows <= 2,
        ensures
            r == self.rows + (if self.rule {
                1int
            } else {
                0
            }),
    {
        self.rows + if self.rule {
            1
        } else {
            0
        }
    }

    /// The plan's numbers and characters.
    pub open spec fn plan_of(&self) -> FooterPlan {
        FooterPlan {
            rows: self.rows,
            reserved: self.reserved,
            left: self.left@,
            voice: self.voice,
            rule: self.rule,
            diagnostics: self.diagnostics@,
        }
    }

    /// Decide the footer's shape from the width, the state, and the file count.
    pub fn plan(
        area: Rect,
        files: usize,
        following: bool,
        notes: NoteCount,
        notice: Option<String>,
        voice: Option<Voice>,
        readouts: &Vec<String>,
    ) -> (r: Self)
        ensures
            r.plan_of() == footer_plan(
                area.width,
                area.height,
                files,
                following,
                notes,
                match notice {
                    Some(n) => Some(n@),
                    None => None,
                },
                voice,
                strings(readouts@),
            ),
            r.rows <= 2,
    {
        let (leading, trailing) = margins_of(area.width);
        let inner = if area.width >= leading {
            area.width - leading
        } else {
            0
        };
        let width = (if inner >= trailing {
            inner - trailing
        } else {
            0
        }) as usize;
        if area.height < 2 {
            return Footer {
                rows: 0,
                reserved: 0,
                left: string_of(Vec::<char>::new().as_slice()),
                voice: None,
                rule: false,
                diagnostics: string_of(Vec::<char>::new().as_slice()),
            };
        }
        let (bare, reserved) = measure_state(width, files, following, notes);
        let taken = if reserved == 0 {
            0
        } else {
            plus_of(reserved, 2)
        };
        let bare_gap = if bare == 0 {
            0
        } else {
            plus_of(bare, 2)
        };
        let baseline = crate::text::width_of(HINT_RUNGS[1]);
        let grows = plus_of(baseline, bare_gap) > width && bare > 0 && area.height >= 3
            + MIN_BODY;
        let rows: u16 = if grows {
            2
        } else {
            1
        };
        let rule = area.height >= 1 + rows + 1 + MIN_BODY;
        let room = if grows {
            width
        } else if width >= taken {
            width - taken
        } else {
            0
        };
        let hints = widest_fitting(&hint_rungs(), room);
        let occupied = plus_of(
            plus_of(taken, 2),
            if grows {
                0
            } else {
                crate::text::width_of(hints.as_str())
            },
        );
        let diagnostics = widest_fitting(
            readouts,
            if width >= occupied {
                width - occupied
            } else {
                0
            },
        );
        let (left, spoken) = match notice {
            Some(n) => (n, voice),
            None => (hints, None),
        };
        Footer { rows, reserved, left, voice: spoken, rule, diagnostics }
    }
}

/// What one rung of the churn ladder divides by: ones, thousands, millions,
/// billions.
pub open spec fn churn_per(rung: nat) -> nat {
    if rung == 0 {
        1
    } else if rung == 1 {
        1000
    } else if rung == 2 {
        1000000
    } else {
        1000000000
    }
}

/// What one rung of the churn ladder writes after its figure.
pub open spec fn churn_unit(rung: nat) -> Seq<char> {
    if rung == 0 {
        Seq::empty()
    } else if rung == 1 {
        seq!['k']
    } else if rung == 2 {
        seq!['M']
    } else {
        seq!['G']
    }
}

/// One half of a counts cell from rung `rung` of the ladder on: the sigil and
/// the first figure with its unit that fits the cell, a unit the count is
/// smaller than never taken; the sigil and a nine past the last rung.
pub open spec fn churn_from(sigil: char, lines: u32, rung: nat) -> Seq<char>
    decreases 4 - rung,
{
    if rung >= 4 {
        seq![sigil, '9']
    } else {
        let scaled = lines as nat / churn_per(rung);
        let text = decimal(scaled) + churn_unit(rung);
        if scaled == 0 && churn_per(rung) > 1 {
            churn_from(sigil, lines, rung + 1)
        } else if text.len() <= (COUNT_CELL - 1) as nat {
            seq![sigil] + text
        } else {
            churn_from(sigil, lines, rung + 1)
        }
    }
}

/// One half of a file row's counts cell, right-aligned by its caller into
/// [`COUNT_CELL`].
pub open spec fn churn_text(sigil: char, lines: u32) -> Seq<char> {
    churn_from(sigil, lines, 0)
}

/// What a rung divides by, as a number.
fn churn_per_at(rung: usize) -> (r: u32)
    requires
        rung < 4,
    ensures
        r == churn_per(rung as nat),
{
    match rung {
        0 => 1,
        1 => 1000,
        2 => 1000000,
        _ => 1000000000,
    }
}

/// One half of a file row's counts cell.
pub fn churn_of(sigil: char, lines: u32) -> (r: String)
    ensures
        r@ == churn_text(sigil, lines),
{
    let mut rung: usize = 0;
    while rung < 4
        invariant
            rung <= 4,
            churn_text(sigil, lines) == churn_from(sigil, lines, rung as nat),
        decreases 4 - rung,
    {
        let per = churn_per_at(rung);
        let scaled = lines / per;
        if !(scaled == 0 && per > 1) {
            let mut text = decimal_of(scaled as u64);
            if rung == 1 {
                text.push('k');
            } else if rung == 2 {
                text.push('M');
            } else if rung == 3 {
                text.push('G');
            }
            assert(text@ =~= decimal(scaled as nat) + churn_unit(rung as nat));
            if text.len() <= COUNT_CELL - 1 {
                let mut out: Vec<char> = Vec::new();
                out.push(sigil);
                push_all(&mut out, text.as_slice());
                assert(out@ =~= seq![sigil] + text@);
                return string_of(out.as_slice());
            }
        }
        rung += 1;
    }
    let out: Vec<char> = vec![sigil, '9'];
    string_of(out.as_slice())
}

/// Ten to the `k`.
pub open spec fn ten_to(k: nat) -> nat
    decreases k,
{
    if k == 0 {
        1
    } else {
        10 * ten_to((k - 1) as nat)
    }
}

/// A number takes at most `k` digits exactly when it is under ten to the `k`.
pub proof fn lemma_decimal_digits(n: nat, k: nat)
    requires
        k >= 1,
    ensures
        (decimal(n).len() <= k) == (n < ten_to(k)),
    decreases n,
{
    if n >= 10 {
        if k >= 2 {
            lemma_decimal_digits(n / 10, (k - 1) as nat);
            let p = ten_to((k - 1) as nat);
            lemma_ten_to_positive((k - 1) as nat);
            assert((n / 10 < p) == (n < 10 * p)) by (nonlinear_arith)
                requires
                    n >= 10,
                    p >= 1,
            ;
        } else {
            lemma_decimal_nonempty(n / 10);
            assert(ten_to(1) == 10) by {
                assert(ten_to(0) == 1);
            }
        }
    } else {
        lemma_ten_to_positive((k - 1) as nat);
        assert(ten_to(k) >= 10);
    }
}

/// Ten to any power is at least one.
pub proof fn lemma_ten_to_positive(k: nat)
    ensures
        ten_to(k) >= 1,
    decreases k,
{
    if k > 0 {
        lemma_ten_to_positive((k - 1) as nat);
    }
}

/// Every number takes a digit at least.
pub proof fn lemma_decimal_nonempty(n: nat)
    ensures
        decimal(n).len() >= 1,
    decreases n,
{
    if n >= 10 {
        lemma_decimal_nonempty(n / 10);
    }
}

/// Whatever the count, the ladder finds a figure that fits the cell: the
/// half is its sigil and at most four characters, never the last resort.
#[verifier::spinoff_prover]
pub proof fn law_every_count_fits_its_cell(sigil: char, lines: u32)
    ensures
        churn_text(sigil, lines).len() <= COUNT_CELL,
        churn_text(sigil, lines)[0] == sigil,
        churn_text(sigil, lines) != seq![sigil, '9'] || lines == 9,
{
    let n = lines as nat;
    assert(ten_to(4) == 10000) by {
        reveal_with_fuel(ten_to, 5);
    }
    lemma_decimal_digits(n, 4);
    lemma_decimal_digits(n / 1000, 3);
    lemma_decimal_digits(n / 1000000, 3);
    lemma_decimal_digits(n / 1000000000, 3);
    assert(ten_to(3) == 1000) by {
        reveal_with_fuel(ten_to, 4);
    }
    if n < 10000 {
        assert(churn_text(sigil, lines) == seq![sigil] + decimal(n));
    } else if n < 1000000 {
        assert(n / 1000 >= 10);
        assert(churn_from(sigil, lines, 0) == churn_from(sigil, lines, 1));
        assert((decimal(n / 1000) + seq!['k']).len() <= 4);
    } else if n < 1000000000 {
        assert(n / 1000 >= 1000);
        assert(n / 1000000 >= 1);
        assert(churn_from(sigil, lines, 0) == churn_from(sigil, lines, 1));
        assert(churn_from(sigil, lines, 1) == churn_from(sigil, lines, 2));
    } else {
        assert(n / 1000 >= 1000);
        assert(n / 1000000 >= 1000);
        assert(n / 1000000000 >= 1);
        assert(n / 1000000000 < 1000);
        assert(churn_from(sigil, lines, 0) == churn_from(sigil, lines, 1));
        assert(churn_from(sigil, lines, 1) == churn_from(sigil, lines, 2));
        assert(churn_from(sigil, lines, 2) == churn_from(sigil, lines, 3));
    }
    if churn_text(sigil, lines) == seq![sigil, '9'] {
        if n < 10000 {
            lemma_decimal_nonempty(n);
            assert(decimal(n) =~= seq!['9']);
            assert(n < 10) by {
                if n >= 10 {
                    lemma_decimal_nonempty(n / 10);
                }
            }
        }
    }
}

/// The columns of `area` a glyph may use, given a pane's margins: in by the
/// left margin, and narrower by both.
pub fn text_within(area: Rect, margins: (u16, u16)) -> (r: Rect)
    ensures
        r == (Rect {
            x: crate::input::sat_add16(area.x, margins.0) as u16,
            width: sub16(sub16(area.width, margins.0), margins.1),
            ..area
        }),
{
    let width = if area.width >= margins.0 {
        area.width - margins.0
    } else {
        0
    };
    let width = if width >= margins.1 {
        width - margins.1
    } else {
        0
    };
    Rect { x: crate::input::add16(area.x, margins.0), width, ..area }
}

impl Bar {
    /// `at` less the column this bar takes, when it takes one.
    pub fn narrows(self, at: Rect) -> (r: Rect)
        ensures
            r == (if self is Absent {
                at
            } else {
                Rect { width: sub16(at.width, BAR_WIDTH as u16), ..at }
            }),
    {
        if !self.drawn() {
            return at;
        }
        Rect {
            width: if at.width >= BAR_WIDTH as u16 {
                at.width - BAR_WIDTH as u16
            } else {
                0
            },
            ..at
        }
    }
}

/// The diagnostics ladder, widest rung first: the frame time and the memory,
/// the frame time alone, and nothing; memory without a frame time draws
/// nothing, which is the first paint.
pub open spec fn diagnostic_ladder(frame: Option<Seq<char>>, memory: Option<u64>) -> Seq<Seq<char>> {
    let lead = match (frame, memory) {
        (Some(f), Some(m)) => seq![f + CELL_GAP@ + right_aligned(memory_token(m), MEMORY_CELL as nat), f],
        (Some(f), None) => seq![f],
        (None, _) => Seq::empty(),
    };
    lead.push(Seq::empty())
}

/// The diagnostics ladder, widest rung first, given the frame time's own cell.
pub fn diagnostic_rungs(frame: Option<String>, memory: Option<u64>) -> (r: Vec<String>)
    ensures
        strings(r@) == diagnostic_ladder(opt_text(frame), memory),
{
    let mut rungs: Vec<String> = Vec::new();
    match frame {
        Some(f) => match memory {
            Some(m) => {
                let cell = memory_cell(m);
                let mut both: Vec<char> = Vec::new();
                push_str(&mut both, f.as_str());
                push_str(&mut both, CELL_GAP);
                push_str(&mut both, cell.as_str());
                rungs.push(string_of(both.as_slice()));
                rungs.push(f);
            },
            None => {
                rungs.push(f);
            },
        },
        None => {},
    }
    let empty: Vec<char> = Vec::new();
    rungs.push(string_of(empty.as_slice()));
    assert(strings(rungs@) =~= diagnostic_ladder(opt_text(frame), memory));
    rungs
}

/// The characters of an optional string.
pub open spec fn opt_text(s: Option<String>) -> Option<Seq<char>> {
    match s {
        Some(t) => Some(t@),
        None => None,
    }
}


/// One bucket of a drawn sparkline: what it says, before how it looks.
#[derive(Debug, Clone, Copy, PartialEq, Eq, Structural)]
pub enum Bucket {
    /// Nothing was written in this cell's slice of the window.
    Empty,
    /// Written: the glyph the rung spells it with, its band, and its stop of
    /// the eight-stop ramp.
    Written(char, Band, u8),
}

/// `a + b`, stopping at the largest `u32`.
pub open spec fn sat_add32(a: u32, b: u32) -> u32 {
    if a + b <= u32::MAX {
        (a + b) as u32
    } else {
        u32::MAX
    }
}

/// The counts of `s` added up from the left, stopping at the largest `u32`.
pub open spec fn sat_sum(s: Seq<u32>) -> u32
    decreases s.len(),
{
    if s.len() == 0 {
        0
    } else {
        sat_add32(sat_sum(s.drop_last()), s.last())
    }
}

/// The writes of the `at`-th group of `group` buckets of the window.
pub open spec fn group_sum(buckets: Seq<u32>, group: int, at: int) -> u32 {
    let from = at * group;
    let to = if (at + 1) * group <= buckets.len() {
        (at + 1) * group
    } else {
        buckets.len() as int
    };
    sat_sum(buckets.subrange(from, to))
}

/// The larger of two counts.
pub open spec fn larger32(a: u32, b: u32) -> u32 {
    if a >= b {
        a
    } else {
        b
    }
}

/// What drawn cell `cell` of a path's window says at `rung` buckets: the
/// buckets the cell carries are the rung's groups from `cell` times the
/// rung's density, the busier of a pair deciding the band and the ramp stop,
/// each its own height.
pub open spec fn spark_cell(buckets: Seq<u32>, rung: usize, yardstick: u32, glyphs: Glyphs, cell: int) -> Bucket {
    let d = glyphs.spec_density() as int;
    let group = HISTORY_BUCKETS as int / rung as int;
    let at = cell * d;
    if at >= rung {
        Bucket::Empty
    } else {
        let left = group_sum(buckets, group, at);
        let right = if d > 1 && at + 1 < rung {
            group_sum(buckets, group, at + 1)
        } else {
            0u32
        };
        let busiest = larger32(left, right);
        if busiest == 0 {
            Bucket::Empty
        } else {
            let top = level(busiest, yardstick, 8);
            Bucket::Written(
                glyphs.spec_glyph(
                    level(left, yardstick, glyphs.spec_levels()) as usize,
                    level(right, yardstick, glyphs.spec_levels()) as usize,
                ),
                band(busiest, yardstick),
                (if top >= 1 {
                    top - 1
                } else {
                    0
                }) as u8,
            )
        }
    }
}

/// A path's window at `rung` buckets, packed into the cells they are drawn
/// in: nothing for a rung of none or one wider than the window, or where
/// nothing on screen was written.
pub open spec fn spark(buckets: Seq<u32>, rung: usize, yardstick: u32, glyphs: Glyphs) -> Seq<Bucket> {
    if rung == 0 || rung > HISTORY_BUCKETS || yardstick == 0 {
        Seq::new(HISTORY_BUCKETS as nat, |c: int| Bucket::Empty)
    } else {
        Seq::new(HISTORY_BUCKETS as nat, |c: int| spark_cell(buckets, rung, yardstick, glyphs, c))
    }
}

/// The writes of `buckets` from `from` to `to`, added up from the left.
fn sum_of(buckets: &[u32], from: usize, to: usize) -> (r: u32)
    requires
        from <= to <= buckets@.len(),
    ensures
        r == sat_sum(buckets@.subrange(from as int, to as int)),
{
    let mut total: u32 = 0;
    let mut i = from;
    while i < to
        invariant
            from <= i <= to,
            to <= buckets@.len(),
            total == sat_sum(buckets@.subrange(from as int, i as int)),
        decreases to - i,
    {
        assert(buckets@.subrange(from as int, i + 1).drop_last() =~= buckets@.subrange(from as int, i as int));
        total = total.saturating_add(buckets[i]);
        i = i + 1;
    }
    total
}

/// A path's window, re-projected onto `rung` buckets and packed into the
/// cells those buckets are drawn in. `yardstick` is what the screen's scale
/// gives a bucket of this rung, the busiest figure every height is measured
/// against.
pub fn spark_of(buckets: &[u32], rung: usize, yardstick: u32, glyphs: Glyphs) -> (r: Vec<Bucket>)
    requires
        buckets@.len() == HISTORY_BUCKETS,
    ensures
        r@ == spark(buckets@, rung, yardstick, glyphs),
{
    let mut drawn: Vec<Bucket> = Vec::new();
    let mut k: usize = 0;
    while k < HISTORY_BUCKETS
        invariant
            k <= HISTORY_BUCKETS,
            drawn@ == Seq::new(k as nat, |c: int| Bucket::Empty),
        decreases HISTORY_BUCKETS - k,
    {
        drawn.push(Bucket::Empty);
        k = k + 1;
        assert(drawn@ =~= Seq::new(k as nat, |c: int| Bucket::Empty));
    }
    if rung == 0 {
        return drawn;
    }
    let group = HISTORY_BUCKETS / rung;
    proof {
        assert(rung * group <= HISTORY_BUCKETS) by (nonlinear_arith)
            requires
                rung >= 1,
                group == 24usize / rung,
        ;
        assert(rung > HISTORY_BUCKETS ==> group == 0) by (nonlinear_arith)
            requires
                rung >= 1,
                group == 24usize / rung,
        ;
        assert(rung <= HISTORY_BUCKETS ==> group >= 1) by (nonlinear_arith)
            requires
                rung >= 1,
                group == 24usize / rung,
        ;
    }
    if group == 0 {
        return drawn;
    }
    if yardstick == 0 {
        return drawn;
    }
    let d = glyphs.density();
    let levels = glyphs.levels();
    let ghost want = spark(buckets@, rung, yardstick, glyphs);
    let mut out: Vec<Bucket> = Vec::new();
    let mut cell: usize = 0;
    while cell < HISTORY_BUCKETS
        invariant
            cell <= HISTORY_BUCKETS,
            1 <= rung <= HISTORY_BUCKETS,
            yardstick > 0,
            group == HISTORY_BUCKETS / rung,
            rung * group <= HISTORY_BUCKETS,
            d == glyphs.spec_density(),
            1 <= d <= 2,
            levels == glyphs.spec_levels(),
            levels <= 8,
            buckets@.len() == HISTORY_BUCKETS,
            want == spark(buckets@, rung, yardstick, glyphs),
            out@ == want.take(cell as int),
        decreases HISTORY_BUCKETS - cell,
    {
        let at = cell * d;
        let b = if at >= rung {
            Bucket::Empty
        } else {
            assert(at * group + group <= rung * group) by (nonlinear_arith)
                requires
                    at < rung,
                    group >= 0,
            ;
            let left = sum_of(buckets, at * group, at * group + group);
            let right = if d > 1 && at + 1 < rung {
                assert((at + 1) * group + group <= rung * group) by (nonlinear_arith)
                    requires
                        at + 1 < rung,
                        group >= 0,
                ;
                sum_of(buckets, (at + 1) * group, (at + 1) * group + group)
            } else {
                0
            };
            let busiest = if left >= right {
                left
            } else {
                right
            };
            if busiest == 0 {
                Bucket::Empty
            } else {
                let top = level_to(busiest, yardstick, 8);
                let stop: u8 = if top >= 1 {
                    (top - 1) as u8
                } else {
                    0
                };
                Bucket::Written(
                    glyphs.glyph(level_to(left, yardstick, levels), level_to(right, yardstick, levels)),
                    Band::of(busiest, yardstick),
                    stop,
                )
            }
        };
        proof {
            assert((at + 1) * group == at * group + group) by (nonlinear_arith);
            assert((at + 2) * group == (at + 1) * group + group) by (nonlinear_arith);
            assert(b == spark_cell(buckets@, rung, yardstick, glyphs, cell as int));
        }
        out.push(b);
        cell = cell + 1;
        assert(out@ =~= want.take(cell as int));
    }
    assert(out@ =~= want);
    out
}

/// A cell that carries a write is drawn written, never as the empty track,
/// its written side at least one level high and its ramp stop one of eight.
pub proof fn law_a_write_is_never_drawn_empty(
    buckets: Seq<u32>,
    rung: usize,
    yardstick: u32,
    glyphs: Glyphs,
    cell: int,
)
    requires
        1 <= rung <= HISTORY_BUCKETS,
        yardstick > 0,
        0 <= cell < HISTORY_BUCKETS,
        cell * glyphs.spec_density() < rung,
        group_sum(buckets, HISTORY_BUCKETS as int / rung as int, cell * glyphs.spec_density()) > 0,
    ensures
        spark(buckets, rung, yardstick, glyphs)[cell] matches Bucket::Written(_, _, stop) && stop < 8,
        level(
            group_sum(buckets, HISTORY_BUCKETS as int / rung as int, cell * glyphs.spec_density()),
            yardstick,
            glyphs.spec_levels(),
        ) >= 1,
{
    let left = group_sum(buckets, HISTORY_BUCKETS as int / rung as int, cell * glyphs.spec_density());
    law_levels_rise_with_the_count(left, left, yardstick, glyphs.spec_levels());
    assert(glyphs.spec_levels() > 0);
    let d = glyphs.spec_density() as int;
    let at = cell * d;
    let right = if d > 1 && at + 1 < rung {
        group_sum(buckets, HISTORY_BUCKETS as int / rung as int, at + 1)
    } else {
        0u32
    };
    let busiest = larger32(left, right);
    assert(level(busiest, yardstick, 8) <= 8);
}

/// `a + b` in `u16`, stopping at the largest.
pub open spec fn add16(a: u16, b: u16) -> u16 {
    if a + b <= u16::MAX {
        (a + b) as u16
    } else {
        u16::MAX
    }
}

/// The three places a body puts things: the file list, the rule under it,
/// and the diff.
#[derive(Debug, Clone, Copy, PartialEq, Eq, Structural)]
pub struct Areas {
    /// Where the list is drawn; zero rows when it is not.
    pub list: Rect,
    /// The rule between the two regions; zero rows when it is not drawn.
    pub rule: Rect,
    /// Everything left for the diff.
    pub diff: Rect,
}

impl Areas {
    /// Whether each region, list then diff, is wide enough for a scrollbar.
    pub fn bars(&self) -> (r: (bool, bool))
        ensures
            r == (self.list.width as usize >= BAR_FLOOR, self.diff.width as usize >= BAR_FLOOR),
    {
        (affords_bar(self.list.width), affords_bar(self.diff.width))
    }
}

/// Where each part of `body` sits inside `area`: under the header's row and
/// the lead blank; beside a rail the list and the diff share those rows and
/// split the columns, and otherwise the list, the rule and the diff stack.
pub open spec fn areas_of(body: Body, area: Rect) -> Areas {
    let top = add16(area.y, 1);
    let under_lead = add16(top, body.lead as u16);
    if body.rail {
        let columns = rail(area.width);
        let list = Rect {
            y: under_lead,
            height: body.list as u16,
            width: if columns <= area.width {
                columns
            } else {
                area.width
            },
            ..area
        };
        Areas {
            list,
            rule: Rect { x: area.x, y: under_lead, width: 0, height: 0 },
            diff: Rect {
                x: add16(area.x, list.width),
                y: under_lead,
                width: sub16(area.width, list.width),
                height: body.diff as u16,
            },
        }
    } else {
        let list = Rect { y: under_lead, height: body.list as u16, ..area };
        let rule = Rect {
            y: add16(list.y, list.height),
            height: if body.rule {
                1
            } else {
                0
            },
            ..area
        };
        Areas { list, rule, diff: Rect { y: add16(rule.y, rule.height), height: body.diff as u16, ..area } }
    }
}

impl Body {
    /// Where each part of this body sits inside `area`. The two shapes are
    /// exclusive: a rail has no rule between regions side by side, and no
    /// list beside a diff it does not have.
    pub fn areas(&self, area: Rect) -> (r: Areas)
        requires
            !(self.rail && self.rule),
            !(self.rail && self.overview),
        ensures
            r == areas_of(*self, area),
    {
        let top = area.y.saturating_add(1);
        let under_lead = top.saturating_add(self.lead as u16);
        if self.rail {
            let columns = rail_of(area.width);
            let list = Rect {
                x: area.x,
                y: under_lead,
                height: self.list as u16,
                width: if columns < area.width {
                    columns
                } else {
                    area.width
                },
            };
            let diff = Rect {
                x: area.x.saturating_add(list.width),
                y: under_lead,
                width: area.width.saturating_sub(list.width),
                height: self.diff as u16,
            };
            return Areas { list, rule: Rect { x: area.x, y: under_lead, width: 0, height: 0 }, diff };
        }
        let list = Rect { x: area.x, y: under_lead, width: area.width, height: self.list as u16 };
        let rule = Rect {
            x: area.x,
            y: list.y.saturating_add(list.height),
            width: area.width,
            height: if self.rule {
                1
            } else {
                0
            },
        };
        let diff = Rect {
            x: area.x,
            y: rule.y.saturating_add(rule.height),
            width: area.width,
            height: self.diff as u16,
        };
        Areas { list, rule, diff }
    }
}

/// The regions tile the body without a gap or an overlap: stacked, the rule
/// starts where the list ends and the diff where the rule ends; beside a
/// rail, the diff starts where the list's columns end and the two take the
/// pane's width between them. Where no row count runs off the `u16` grid.
pub proof fn law_the_regions_tile_the_body(body: Body, area: Rect)
    requires
        area.y + 1 + body.lead + body.list + 1 + body.diff <= u16::MAX,
        area.x + area.width <= u16::MAX,
    ensures
        ({
            let a = areas_of(body, area);
            &&& !body.rail ==> a.rule.y == a.list.y + a.list.height && a.diff.y == a.rule.y + a.rule.height
                && a.list.y == area.y + 1 + body.lead
            &&& body.rail ==> a.diff.x == a.list.x + a.list.width && a.list.width + a.diff.width
                == area.width && a.list.y == a.diff.y
        }),
{
}

/// Rows the sheet's frame takes, top and bottom.
pub const SHEET_FRAME: usize = 2;

/// Rungs the sheet is offered at, widest first: the roomy one, the one
/// column offered with its line and without, the two-column one at either
/// spelling with and without, and every paged row set.
pub const SHEET_RUNGS: usize = 25;

/// One page of a one-column rung: what it draws, and where in the stream.
#[derive(Debug, Clone, Copy, PartialEq, Eq, Structural)]
pub struct Column {
    /// How many keyboard rows have been given up.
    pub from: usize,
    /// Whether the mouse group is drawn below the keyboard group.
    pub mouse: bool,
    /// Whether the purpose line heads the stream.
    pub purpose: bool,
    /// The single column both groups share, so their rows stay a table.
    pub group: Group,
    /// Lines of the stream this page starts after.
    pub skip: usize,
    /// Lines this page draws, which on the last page is fewer than the box has
    /// rows.
    pub take: usize,
}

/// Roomy, one column or two, with each group's fields and placement.
#[derive(Debug, Clone, Copy, PartialEq, Eq, Structural)]
pub enum Shape {
    /// One column, some keyboard rows given up, the mouse group below or gone.
    Column(Column),
    /// One column, every row drawn, the sections headed and air around them.
    Roomy { group: Group },
    /// Two columns, every row drawn, each group placed by the layout.
    Beside { keyboard: Group, mouse: Group, purpose: bool },
}

/// What one rung would cost and what it would draw, before it is known to fit.
#[derive(Debug, Clone, Copy, PartialEq, Eq, Structural)]
pub struct Fit {
    /// Which spelling this rung takes.
    pub level: usize,
    /// The whole sheet's width at this rung.
    pub total: usize,
    /// Rows it draws, frame excluded.
    pub rows: usize,
    /// What the drawer will be told to draw.
    pub shape: Shape,
    /// How many pages `?` walks through before it closes.
    pub pages: usize,
}

/// Where the gestures sheet is drawn and what it draws.
#[derive(Debug, Clone, Copy, PartialEq, Eq)]
pub struct SheetPlan {
    /// The whole sheet, frame included.
    pub area: Rect,
    /// Which spelling every cell takes: 0 wide, 1 tight.
    pub level: usize,
    /// Roomy, one column or two.
    pub shape: Shape,
    /// The close control's cell.
    pub close: (u16, u16),
    /// How many pages `?` walks through on this pane before it closes.
    pub pages: usize,
}

/// The smaller of two counts.
pub open spec fn fewer(a: nat, b: nat) -> nat {
    if a <= b {
        a
    } else {
        b
    }
}

/// Pages `lines` take at `capacity` lines a page: at least one.
pub open spec fn pages_for(lines: nat, capacity: usize) -> nat {
    let c = if capacity >= 1 {
        capacity as nat
    } else {
        1
    };
    let p = lines / c + (if lines % c != 0 {
        1nat
    } else {
        0
    });
    if p >= 1 {
        p
    } else {
        1
    }
}

/// The roomy rung.
pub open spec fn roomy_fit_of() -> Fit {
    let (group, total) = roomy_of();
    Fit {
        level: 0,
        total: total as usize,
        rows: (1 + KEYBOARD_ROWS + MOUSE_ROWS + 2 * SECTION_COUNT) as usize,
        shape: Shape::Roomy { group },
        pages: 1,
    }
}

/// One column at spelling `level`, `capacity` rows of it at a time, showing
/// page `page` (the last where it has fewer), with `from` keyboard rows given
/// up and the mouse group below or gone; the line offered where `offer` says.
pub open spec fn paged_fit_of(level: usize, from: usize, mouse: bool, page: usize, capacity: usize, offer: bool) -> Fit {
    let (keys, verb) = column_fields(level as int, from as int, mouse);
    let total = floor_of(plus(plus(plus(keys, SHEET_GAP as nat), verb), 4));
    let bare = column_rows(from as int, mouse, false);
    let purpose = offer && (from == 0 && mouse && bare + PURPOSE_ROWS <= capacity);
    let lines = (if purpose {
        column_rows(from as int, mouse, true)
    } else {
        bare
    }) as nat;
    let pages = pages_for(lines, capacity);
    let shown = fewer(page as nat, (pages - 1) as nat);
    let skip = shown * capacity;
    Fit {
        level,
        total: total as usize,
        rows: fewer(capacity as nat, lines) as usize,
        shape: Shape::Column(
            Column {
                from,
                mouse,
                purpose,
                group: Group { at: 1, keys: keys as usize, verb: verb as usize, gap: SHEET_GAP },
                skip: skip as usize,
                take: fewer(capacity as nat, (lines - skip) as nat) as usize,
            },
        ),
        pages: pages as usize,
    }
}

/// The two-column rung at spelling `level`, with the line or without.
pub open spec fn beside_fit_of(level: usize, purpose: bool) -> Fit {
    let (keyboard, mouse, total) = beside_of(level as int);
    Fit {
        level,
        total: total as usize,
        rows: ((if purpose {
            1int
        } else {
            0
        }) + 1 + KEYBOARD_ROWS) as usize,
        shape: Shape::Beside { keyboard, mouse, purpose },
        pages: 1,
    }
}

/// Rung `i` of the sheet's ladder.
pub open spec fn rung_fit(i: int, level: usize, page: usize, capacity: usize) -> Fit {
    if i == 0 {
        roomy_fit_of()
    } else if i <= 2 {
        paged_fit_of(level, 0, true, 0, usize::MAX, i == 1)
    } else if i <= 6 {
        beside_fit_of(((i - 3) / 2) as usize, (i - 3) % 2 == 0)
    } else if i == 7 {
        paged_fit_of(level, 0, true, page, capacity, true)
    } else {
        paged_fit_of(level, (i - 8) as usize, false, page, capacity, true)
    }
}

/// Whether a rung fits `room` columns and `body` rows.
pub open spec fn fits_in(f: Fit, room: u16, body: u16) -> bool {
    f.total <= room && f.rows + SHEET_FRAME <= body
}

/// The first rung from `i` that fits.
pub open spec fn first_rung(i: int, level: usize, page: usize, capacity: usize, room: u16, body: u16) -> Option<int>
    decreases SHEET_RUNGS - i,
{
    if i >= SHEET_RUNGS || i < 0 {
        None
    } else if fits_in(rung_fit(i, level, page, capacity), room, body) {
        Some(i)
    } else {
        first_rung(i + 1, level, page, capacity, room, body)
    }
}

/// Where the gestures sheet goes on `area` with a footer of `footer_rows` and
/// these margins, showing `page`: the first rung of its ladder that fits
/// between the margins and between the header and the footer, centred there;
/// none on a pane too short for the fewest rows a page keeps, or where no
/// rung fits.
pub open spec fn sheet_plan_of(area: Rect, footer_rows: u16, margins: (u16, u16), page: usize) -> Option<SheetPlan> {
    let body = sub16(area.height, (1 + footer_rows) as u16);
    let room = sub16(area.width, (margins.0 + margins.1) as u16);
    let level: usize = if floor_of(plus(plus(plus(column_fields(0, 0, true).0, SHEET_GAP as nat), column_fields(0, 0, true).1), 4)) > room {
        1
    } else {
        0
    };
    let capacity = subz(body as usize, SHEET_FRAME);
    if capacity < SHEET_KEEP {
        None
    } else {
        match first_rung(0, level, page, capacity, room, body) {
            None => None,
            Some(i) => {
                let f = rung_fit(i, level, page, capacity);
                let width = f.total as u16;
                let height = (f.rows + SHEET_FRAME) as u16;
                let left = (area.x + margins.0 + (room - width) / 2) as u16;
                let top = (area.y + 1 + (body - height) / 2) as u16;
                Some(
                    SheetPlan {
                        area: Rect { x: left, y: top, width, height },
                        level: f.level,
                        shape: f.shape,
                        close: ((left + width - 3) as u16, top),
                        pages: f.pages,
                    },
                )
            },
        }
    }
}

/// A page short of the last starts inside the stream: the lines before it
/// are fewer than the stream's.
proof fn lemma_page_inside(lines: nat, capacity: usize, shown: nat)
    requires
        shown <= pages_for(lines, capacity) - 1,
    ensures
        shown * capacity <= lines,
        shown > 0 ==> shown * capacity < lines,
{
    if capacity >= 1 && shown >= 1 {
        let c = capacity as nat;
        let q = lines / c;
        let r = lines % c;
        assert(lines == c * q + r) by (nonlinear_arith)
            requires
                c >= 1,
                q == lines / c,
                r == lines % c,
        ;
        assert(r < c) by (nonlinear_arith)
            requires
                c >= 1,
                r == lines % c,
        ;
        if r != 0 {
            assert(shown <= q);
            assert(shown * c <= q * c) by (nonlinear_arith)
                requires
                    shown <= q,
            ;
            assert(q * c < lines) by (nonlinear_arith)
                requires
                    lines == c * q + r,
                    r > 0,
            ;
        } else {
            assert(shown <= q - 1);
            assert(shown * c <= (q - 1) * c) by (nonlinear_arith)
                requires
                    shown <= q - 1,
                    q >= 1,
            ;
            assert((q - 1) * c < lines) by (nonlinear_arith)
                requires
                    lines == c * q + r,
                    r == 0,
                    c >= 1,
                    q >= 1,
            ;
        }
    }
}

/// Pages `lines` take at `capacity` lines a page.
fn page_count(lines: usize, capacity: usize) -> (r: usize)
    ensures
        r == pages_for(lines as nat, capacity),
        r >= 1,
{
    let c: usize = if capacity >= 1 {
        capacity
    } else {
        1
    };
    let whole = lines / c;
    proof {
        if lines % c != 0 {
            assert(whole < usize::MAX) by (nonlinear_arith)
                requires
                    whole == lines / c,
                    lines % c != 0,
                    c >= 1,
            ;
        }
    }
    let pages_raw = if lines % c != 0 {
        whole + 1
    } else {
        whole
    };
    if pages_raw >= 1 {
        pages_raw
    } else {
        1
    }
}

/// The roomy rung: one column, every row drawn, headed and with air around it.
pub fn roomy_fit() -> (r: Fit)
    ensures
        r == roomy_fit_of(),
        r.total >= 6,
{
    let (group, total) = sheet_roomy();
    Fit { level: 0, total, rows: sheet_roomy_rows(), shape: Shape::Roomy { group }, pages: 1 }
}

/// One column, `capacity` rows of it at a time, showing page `page`.
#[verifier::rlimit(40)]
pub fn paged_fit(level: usize, from: usize, mouse: bool, page: usize, capacity: usize, offer: bool) -> (r: Fit)
    requires
        level < 2,
    ensures
        r == paged_fit_of(level, from, mouse, page, capacity, offer),
        r.total >= 6,
{
    let (keys, verb, total) = sheet_fields(level, from, mouse);
    let bare = sheet_rows(from, mouse, false);
    let purpose = offer && purpose_fits(from, mouse, bare, capacity);
    let lines = if purpose {
        sheet_rows(from, mouse, true)
    } else {
        bare
    };
    let pages = page_count(lines, capacity);
    let shown = if page < pages - 1 {
        page
    } else {
        pages - 1
    };
    proof {
        lemma_page_inside(lines as nat, capacity, shown as nat);
    }
    let skip = shown * capacity;
    let left = lines - skip;
    Fit {
        level,
        total,
        rows: if capacity < lines {
            capacity
        } else {
            lines
        },
        shape: Shape::Column(
            Column {
                from,
                mouse,
                purpose,
                group: Group { at: 1, keys, verb, gap: SHEET_GAP },
                skip,
                take: if capacity < left {
                    capacity
                } else {
                    left
                },
            },
        ),
        pages,
    }
}

/// One column at a spelling the pane picked, every row on one page.
pub fn column_fit(level: usize, from: usize, mouse: bool, offer: bool) -> (r: Fit)
    requires
        level < 2,
    ensures
        r == paged_fit_of(level, from, mouse, 0, usize::MAX, offer),
        r.total >= 6,
{
    paged_fit(level, from, mouse, 0, usize::MAX, offer)
}

/// Two columns, keyboard beside mouse, every row drawn.
pub fn beside_fit(level: usize, placed: (Group, Group, usize), purpose: bool) -> (r: Fit)
    ensures
        r == (Fit {
            level,
            total: placed.2,
            rows: ((if purpose {
                1int
            } else {
                0
            }) + 1 + KEYBOARD_ROWS) as usize,
            shape: Shape::Beside { keyboard: placed.0, mouse: placed.1, purpose },
            pages: 1,
        }),
{
    let (keyboard, mouse, total) = placed;
    Fit { level, total, rows: sheet_beside_rows(purpose), shape: Shape::Beside { keyboard, mouse, purpose }, pages: 1 }
}

/// Rung `i` of the sheet's ladder, built.
fn rung_at(i: usize, level: usize, page: usize, capacity: usize) -> (r: Fit)
    requires
        i < SHEET_RUNGS,
        level < 2,
    ensures
        r == rung_fit(i as int, level, page, capacity),
        r.total >= 6,
{
    if i == 0 {
        roomy_fit()
    } else if i <= 2 {
        column_fit(level, 0, true, i == 1)
    } else if i <= 6 {
        let spelling = (i - 3) / 2;
        let placed = sheet_beside(spelling);

        let f = beside_fit(spelling, placed, (i - 3) % 2 == 0);
        assert(f == beside_fit_of(spelling, (i - 3) % 2 == 0));
        f
    } else if i == 7 {
        paged_fit(level, 0, true, page, capacity, true)
    } else {
        paged_fit(level, i - 8, false, page, capacity, true)
    }
}

/// Where the gestures sheet goes, or `None` on a pane that cannot hold one.
/// The pane lies on the terminal's grid, and the footer and margins leave a
/// row and a column to count.
pub fn sheet_plan(area: Rect, footer_rows: u16, margins: (u16, u16), page: usize) -> (r: Option<SheetPlan>)
    requires
        area.x + area.width <= u16::MAX,
        area.y + area.height <= u16::MAX,
        footer_rows < u16::MAX,
        margins.0 + margins.1 <= u16::MAX,
    ensures
        r == sheet_plan_of(area, footer_rows, margins, page),
{
    let body = area.height.saturating_sub(1 + footer_rows);
    let room = area.width.saturating_sub(margins.0 + margins.1);
    let widest = sheet_fields(0, 0, true).2;
    let level: usize = if widest > room as usize {
        1
    } else {
        0
    };
    let capacity = (body as usize).saturating_sub(SHEET_FRAME);
    if capacity < SHEET_KEEP {
        return None;
    }
    let ghost want = sheet_plan_of(area, footer_rows, margins, page);
    let mut i: usize = 0;
    while i < SHEET_RUNGS
        invariant
            i <= SHEET_RUNGS,
            level < 2,
            body == sub16(area.height, (1 + footer_rows) as u16),
            room == sub16(area.width, (margins.0 + margins.1) as u16),
            capacity == subz(body as usize, SHEET_FRAME),
            capacity >= SHEET_KEEP,
            area.x + area.width <= u16::MAX,
            area.y + area.height <= u16::MAX,
            margins.0 + margins.1 <= u16::MAX,
            want == sheet_plan_of(area, footer_rows, margins, page),
            first_rung(i as int, level, page, capacity, room, body) == first_rung(0, level, page, capacity, room, body),
            want == (match first_rung(0, level, page, capacity, room, body) {
                None => None,
                Some(k) => {
                    let f = rung_fit(k, level, page, capacity);
                    let width = f.total as u16;
                    let height = (f.rows + SHEET_FRAME) as u16;
                    let left = (area.x + margins.0 + (room - width) / 2) as u16;
                    let top = (area.y + 1 + (body - height) / 2) as u16;
                    Some(
                        SheetPlan {
                            area: Rect { x: left, y: top, width, height },
                            level: f.level,
                            shape: f.shape,
                            close: ((left + width - 3) as u16, top),
                            pages: f.pages,
                        },
                    )
                },
            }),
        decreases SHEET_RUNGS - i,
    {
        let fit = rung_at(i, level, page, capacity);
        if fit.total <= room as usize && fit.rows <= usize::MAX - SHEET_FRAME && fit.rows + SHEET_FRAME <= body as usize {
            assert(first_rung(i as int, level, page, capacity, room, body) == Some(i as int));
            let width = fit.total as u16;
            let height = (fit.rows + SHEET_FRAME) as u16;
            let left = area.x + margins.0 + (room - width) / 2;
            let top = area.y + 1 + (body - height) / 2;
            return Some(
                SheetPlan {
                    area: Rect { x: left, y: top, width, height },
                    level: fit.level,
                    shape: fit.shape,
                    close: (left + width - 3, top),
                    pages: fit.pages,
                },
            );
        }
        i = i + 1;
    }
    None
}

/// How many pages `?` walks through on this pane before the sheet closes,
/// and zero on a pane that draws none.
pub fn sheet_pages_of(area: Rect, footer_rows: u16, margins: (u16, u16)) -> (r: usize)
    requires
        area.x + area.width <= u16::MAX,
        area.y + area.height <= u16::MAX,
        footer_rows < u16::MAX,
        margins.0 + margins.1 <= u16::MAX,
    ensures
        r == (match sheet_plan_of(area, footer_rows, margins, 0) {
            Some(plan) => plan.pages,
            None => 0,
        }),
{
    match sheet_plan(area, footer_rows, margins, 0) {
        Some(plan) => plan.pages,
        None => 0,
    }
}

/// The rung the ladder settles on fits.
proof fn lemma_first_rung_fits(i: int, level: usize, page: usize, capacity: usize, room: u16, body: u16)
    ensures
        first_rung(i, level, page, capacity, room, body) matches Some(k) ==> 0 <= k < SHEET_RUNGS && fits_in(
            rung_fit(k, level, page, capacity),
            room,
            body,
        ),
    decreases SHEET_RUNGS - i,
{
    if 0 <= i < SHEET_RUNGS && !fits_in(rung_fit(i, level, page, capacity), room, body) {
        lemma_first_rung_fits(i + 1, level, page, capacity, room, body);
    }
}

/// Every heading's span is a count a `usize` holds.
proof fn lemma_headings_bounded(i: int)
    ensures
        headings_from(i) <= usize::MAX,
    decreases SECTION_COUNT - i,
{
    if 0 <= i < SECTION_COUNT {
        lemma_headings_bounded(i + 1);
    }
}

/// The title bar's floor lifts a width a `usize` holds to at least six
/// columns, and keeps it one a `usize` holds.
proof fn lemma_floor_bounds(total: nat)
    requires
        total <= usize::MAX,
    ensures
        6 <= floor_of(total) <= usize::MAX,
{
}

/// Every rung of the ladder is at least six columns wide.
proof fn lemma_rung_wide(i: int, level: usize, page: usize, capacity: usize)
    requires
        0 <= i < SHEET_RUNGS,
    ensures
        rung_fit(i, level, page, capacity).total >= 6,
{
    if i == 0 {
        lemma_headings_bounded(0);
        let keys = widest(sectioned(), 0, true);
        let verb = widest(sectioned(), 0, false);
        let blocks = plus(plus(plus(plus(plus(ROOMY_INSET as nat, keys), ROOMY_GAP as nat), verb), ROOMY_INSET as nat), 2);
        lemma_floor_bounds(larger(blocks, headings_from(0)));
    } else if i <= 6 && i >= 3 {
        let level = (i - 3) / 2;
        let kb_keys = widest(keyboard_rows(), level, true);
        let kb_verb = widest(keyboard_rows(), level, false);
        let ms_keys = widest(mouse_rows(), level, true);
        let ms_verb = widest(mouse_rows(), level, false);
        let mouse_at = larger(
            plus(1, span_of(kb_keys, kb_verb)),
            plus(1, crate::text::span_width(SHEET_KEYBOARD_LABEL@) as nat),
        );
        lemma_floor_bounds(plus(plus(mouse_at, span_of(ms_keys, ms_verb)), 1));
    } else {
        let from: usize = if i <= 7 {
            0
        } else {
            (i - 8) as usize
        };
        let mouse = i <= 7;
        let (keys, verb) = column_fields(level as int, from as int, mouse);
        lemma_floor_bounds(plus(plus(plus(keys, SHEET_GAP as nat), verb), 4));
    }
}

/// The sheet is drawn on the pane it was planned for: between the margins,
/// under the header's row and above the footer.
pub proof fn law_the_sheet_stays_between_the_margins(area: Rect, footer_rows: u16, margins: (u16, u16), page: usize)
    requires
        area.x + area.width <= u16::MAX,
        area.y + area.height <= u16::MAX,
        footer_rows < u16::MAX,
        margins.0 + margins.1 <= u16::MAX,
    ensures
        sheet_plan_of(area, footer_rows, margins, page) matches Some(plan) ==> {
            &&& plan.area.x >= area.x + margins.0
            &&& plan.area.x + plan.area.width <= area.x + margins.0 + sub16(area.width, (margins.0 + margins.1) as u16)
            &&& plan.area.y >= area.y + 1
            &&& plan.area.y + plan.area.height <= area.y + 1 + sub16(area.height, (1 + footer_rows) as u16)
        },
{
    let body = sub16(area.height, (1 + footer_rows) as u16);
    let room = sub16(area.width, (margins.0 + margins.1) as u16);
    let level: usize = if floor_of(plus(plus(plus(column_fields(0, 0, true).0, SHEET_GAP as nat), column_fields(0, 0, true).1), 4)) > room {
        1
    } else {
        0
    };
    let capacity = subz(body as usize, SHEET_FRAME);
    lemma_first_rung_fits(0, level, page, capacity, room, body);
    if capacity >= SHEET_KEEP {
        if let Some(k) = first_rung(0, level, page, capacity, room, body) {
            let f = rung_fit(k, level, page, capacity);
            lemma_rung_wide(k, level, page, capacity);
            let width = f.total as u16;
            let height = (f.rows + SHEET_FRAME) as u16;
            assert(width == f.total);
            assert(height == f.rows + SHEET_FRAME);
            assert(room > 0 ==> room == area.width - (margins.0 + margins.1));
            assert(body > 0 ==> body == area.height - (1 + footer_rows));
            let left = area.x + margins.0 + (room - width) / 2;
            let top = area.y + 1 + (body - height) / 2;
            assert(left + width <= area.x + margins.0 + room);
            assert(top + height <= area.y + 1 + body);
            assert((left as u16) == left);
            assert((top as u16) == top);
        }
    }
}

/// What the config menu's title bar spells, corner excluded.
pub const MENU_TITLE: &'static str = "\u{2500} config menu ";

/// The widest label any row of the menu draws, which sets the label field.
pub const MENU_LABEL: usize = 24;

/// Columns between the widest label and the state cell at the tight rung.
pub const MENU_GAP: usize = 2;

/// The gap the roomy rung wants, which is what buys the wider inset.
pub const MENU_AIR: usize = 6;

/// The widest the box ever gets.
pub const MENU_WIDEST: usize = 52;

/// Where a row's label starts from the box's own left edge, and the gap that
/// rung wants beside the state cell, widest first.
pub const MENU_INSETS: [(usize, usize); 2] = [(5, MENU_AIR), (4, MENU_GAP)];

/// Settings the menu lists.
pub const MENU_SETTINGS: usize = 10;

/// What one rung costs: the inset at both ends, the widest label, its gap and
/// the state cell.
pub open spec fn menu_span(rung: (usize, usize)) -> int {
    rung.0 * 2 + MENU_LABEL + rung.1 + crate::menu::STATE_WIDTH
}

/// The narrowest box that can carry a row at all.
pub open spec fn menu_floor() -> int {
    menu_span(MENU_INSETS[1])
}

/// `1-6 of 10`: the rows a window shows, in the sheet's own words.
pub open spec fn menu_counter_text(top: nat, rows: nat) -> Seq<char> {
    decimal(top + 1) + seq!['-'] + decimal(top + rows) + " of "@ + decimal(MENU_SETTINGS as nat) + seq![' ']
}

/// The counter a window of `rows` from `top` carries.
pub fn menu_counter(top: usize, rows: usize) -> (r: String)
    requires
        top + rows <= u64::MAX,
        top + 1 <= u64::MAX,
    ensures
        r@ == menu_counter_text(top as nat, rows as nat),
{
    let mut out: Vec<char> = Vec::new();
    let a = decimal_of((top as u64) + 1);
    push_all(&mut out, a.as_slice());
    out.push('-');
    let b = decimal_of((top as u64) + (rows as u64));
    push_all(&mut out, b.as_slice());
    push_str(&mut out, " of ");
    let total = decimal_of(MENU_SETTINGS as u64);
    push_all(&mut out, total.as_slice());
    out.push(' ');
    string_of(out.as_slice())
}

/// Where the config menu is drawn and how its rows are laid out inside it.
#[derive(Debug, PartialEq, Eq)]
pub struct MenuPlan {
    /// The whole box, frame included.
    pub area: Rect,
    /// Columns in from the frame where a label starts.
    pub inset: usize,
    /// Rows of names it draws.
    pub rows: usize,
    /// The counter its title bar carries, where it cannot draw them all.
    pub counter: Option<String>,
    /// The close control's cell.
    pub close: (u16, u16),
}

/// A menu plan as values.
pub struct MenuPlanView {
    pub area: Rect,
    pub inset: usize,
    pub rows: usize,
    pub counter: Option<Seq<char>>,
    pub close: (u16, u16),
}

impl View for MenuPlan {
    type V = MenuPlanView;

    open spec fn view(&self) -> MenuPlanView {
        MenuPlanView {
            area: self.area,
            inset: self.inset,
            rows: self.rows,
            counter: match self.counter {
                Some(c) => Some(c@),
                None => None,
            },
            close: self.close,
        }
    }
}

/// Where the config menu goes on `area` with a footer of `footer_rows`, its
/// window starting at `top`: as wide as the pane allows up to its widest and
/// no narrower than its title needs, centred between the margins and in the
/// body; none on a pane too narrow for a row or too short for one.
pub open spec fn menu_plan_of(area: Rect, footer_rows: u16, margins: (u16, u16), top: usize) -> Option<MenuPlanView> {
    let body = sub16(area.height, (1 + footer_rows) as u16);
    let room = sub16(area.width, (margins.0 + margins.1) as u16) as int;
    let capacity = subz(body as usize, crate::menu::MENU_FRAME);
    if room < menu_floor() || capacity == 0 {
        None
    } else {
        let rows = fewer(capacity as nat, MENU_SETTINGS as nat) as usize;
        let counter = if rows < MENU_SETTINGS {
            Some(menu_counter_text(top as nat, rows as nat))
        } else {
            None
        };
        let titled = crate::text::span_width(MENU_TITLE@) + (match counter {
            Some(c) => crate::text::span_width(c) as int,
            None => 0,
        }) + 5;
        let clamped = if room < MENU_WIDEST {
            room
        } else {
            MENU_WIDEST as int
        };
        let total = if clamped >= titled {
            clamped
        } else {
            titled
        };
        if total > room {
            None
        } else {
            let inset = if menu_span(MENU_INSETS[0]) <= total {
                MENU_INSETS[0].0
            } else {
                MENU_INSETS[1].0
            };
            let width = total as u16;
            let height = (rows + crate::menu::MENU_FRAME) as u16;
            let left = (area.x + margins.0 + (room - width) / 2) as u16;
            let top_row = (area.y + 1 + (body - height) / 2) as u16;
            Some(
                MenuPlanView {
                    area: Rect { x: left, y: top_row, width, height },
                    inset,
                    rows,
                    counter,
                    close: ((left + width - 3) as u16, top_row),
                },
            )
        }
    }
}

/// Where the config menu goes, or `None` on a pane that cannot hold one. The
/// pane lies on the terminal's grid, and the footer and margins leave a row
/// and a column to count.
pub fn menu_plan(area: Rect, footer_rows: u16, margins: (u16, u16), top: usize) -> (r: Option<MenuPlan>)
    requires
        area.x + area.width <= u16::MAX,
        area.y + area.height <= u16::MAX,
        footer_rows < u16::MAX,
        margins.0 + margins.1 <= u16::MAX,
        top + MENU_SETTINGS <= u64::MAX,
    ensures
        r matches Some(plan) ==> menu_plan_of(area, footer_rows, margins, top) == Some(plan@),
        r is None ==> menu_plan_of(area, footer_rows, margins, top) is None,
{
    let body = area.height.saturating_sub(1 + footer_rows);
    let room16 = area.width.saturating_sub(margins.0 + margins.1);
    let room = room16 as usize;
    if room < MENU_INSETS[1].0 * 2 + MENU_LABEL + MENU_INSETS[1].1 + crate::menu::STATE_WIDTH {
        return None;
    }
    let capacity = (body as usize).saturating_sub(crate::menu::MENU_FRAME);
    if capacity == 0 {
        return None;
    }
    let rows = if capacity < MENU_SETTINGS {
        capacity
    } else {
        MENU_SETTINGS
    };
    let counter = if rows < MENU_SETTINGS {
        Some(menu_counter(top, rows))
    } else {
        None
    };
    let title = crate::text::width_of(MENU_TITLE);
    let counted = match &counter {
        Some(c) => crate::text::width_of(c.as_str()),
        None => 0,
    };
    if title > room || counted > room {
        return None;
    }
    let titled = title + counted + 5;
    let clamped = if room < MENU_WIDEST {
        room
    } else {
        MENU_WIDEST
    };
    let total = if clamped >= titled {
        clamped
    } else {
        titled
    };
    if total > room {
        return None;
    }
    let inset = if MENU_INSETS[0].0 * 2 + MENU_LABEL + MENU_INSETS[0].1 + crate::menu::STATE_WIDTH <= total {
        MENU_INSETS[0].0
    } else {
        MENU_INSETS[1].0
    };
    let width = total as u16;
    let height = (rows + crate::menu::MENU_FRAME) as u16;
    let left = area.x + margins.0 + (room16 - width) / 2;
    let top_row = area.y + 1 + (body - height) / 2;
    let plan = MenuPlan {
        area: Rect { x: left, y: top_row, width, height },
        inset,
        rows,
        counter,
        close: (left + width - 3, top_row),
    };
    Some(plan)
}

/// The plan for one open menu on this pane: planned once to learn how many
/// rows the window has, then again from the window that keeps the caret
/// drawn, so the counter speaks of the window rather than the caret.
pub open spec fn menu_drawn_of(area: Rect, footer_rows: u16, margins: (u16, u16), caret: crate::menu::Caret) -> Option<MenuPlanView> {
    match menu_plan_of(area, footer_rows, margins, 0) {
        None => None,
        Some(first) => menu_plan_of(
            area,
            footer_rows,
            margins,
            crate::menu::spec_window(
                caret.at as int,
                caret.top as int,
                first.rows as int,
                crate::menu::ROW_COUNT as int,
            ) as usize,
        ),
    }
}

/// The plan for one open menu on this pane, or `None` where it draws none.
/// Every caller comes through here, so the drawn box, the region a pointer is
/// told about and the cell an effect runs over are one derivation.
pub fn menu_drawn(area: Rect, footer_rows: u16, margins: (u16, u16), menu: crate::menu::Menu) -> (r: Option<MenuPlan>)
    requires
        area.x + area.width <= u16::MAX,
        area.y + area.height <= u16::MAX,
        footer_rows < u16::MAX,
        margins.0 + margins.1 <= u16::MAX,
        menu.caret.at < crate::menu::ROW_COUNT,
    ensures
        r matches Some(plan) ==> menu_drawn_of(area, footer_rows, margins, menu.caret) == Some(plan@),
        r is None ==> menu_drawn_of(area, footer_rows, margins, menu.caret) is None,
{
    let rows = match menu_plan(area, footer_rows, margins, 0) {
        Some(plan) => plan.rows,
        None => {
            return None;
        },
    };
    let top = menu.caret.window(rows);
    proof {
        crate::menu::law_the_window_draws_the_caret(
            menu.caret.at as int,
            menu.caret.top as int,
            rows as int,
            crate::menu::ROW_COUNT as int,
        );
    }
    assert(top <= crate::menu::ROW_COUNT);
    menu_plan(area, footer_rows, margins, top)
}

/// How many rows the config menu's window has on this pane, and zero where it
/// draws none.
pub fn menu_rows_of(area: Rect, footer_rows: u16, margins: (u16, u16), menu: crate::menu::Menu) -> (r: usize)
    requires
        area.x + area.width <= u16::MAX,
        area.y + area.height <= u16::MAX,
        footer_rows < u16::MAX,
        margins.0 + margins.1 <= u16::MAX,
        menu.caret.at < crate::menu::ROW_COUNT,
    ensures
        r == (match menu_drawn_of(area, footer_rows, margins, menu.caret) {
            Some(plan) => plan.rows,
            None => 0,
        }),
{
    match menu_drawn(area, footer_rows, margins, menu) {
        Some(plan) => plan.rows,
        None => 0,
    }
}

impl MenuPlan {
    /// What a pointer needs to know about it.
    pub fn target(&self) -> (r: crate::input::Sheet)
        ensures
            r == (crate::input::Sheet {
                left: self.area.x,
                top: self.area.y,
                width: self.area.width,
                height: self.area.height,
                close: crate::input::Cell { column: self.close.0, row: self.close.1 },
            }),
    {
        crate::input::Sheet {
            left: self.area.x,
            top: self.area.y,
            width: self.area.width,
            height: self.area.height,
            close: crate::input::Cell { column: self.close.0, row: self.close.1 },
        }
    }

    /// The state cell of the row `offset` rows down the drawn window: it ends
    /// `inset` columns from the right edge where a label begins `inset` from the
    /// left, so the two margins stay equal however wide the box is.
    pub fn state_cell(&self, offset: usize) -> (r: Rect)
        requires
            self.area.x + self.area.width <= u16::MAX,
            self.inset + crate::menu::STATE_WIDTH <= self.area.width,
            self.area.y + 2 + (if offset <= u16::MAX {
                offset as int
            } else {
                0
            }) <= u16::MAX,
        ensures
            r == (Rect {
                x: (self.area.x + self.area.width - (self.inset + crate::menu::STATE_WIDTH)) as u16,
                y: (self.area.y + 2 + (if offset <= u16::MAX {
                    offset as int
                } else {
                    0
                })) as u16,
                width: crate::menu::STATE_WIDTH as u16,
                height: 1,
            }),
    {
        let inset = (self.inset + crate::menu::STATE_WIDTH) as u16;
        let down: u16 = if offset <= u16::MAX as usize {
            offset as u16
        } else {
            0
        };
        Rect {
            x: self.area.x + self.area.width - inset,
            y: self.area.y + 2 + down,
            width: crate::menu::STATE_WIDTH as u16,
            height: 1,
        }
    }
}

/// The menu is drawn on the pane it was planned for: between the margins,
/// under the header's row and above the footer, whatever its window.
pub proof fn law_the_menu_stays_between_the_margins(area: Rect, footer_rows: u16, margins: (u16, u16), top: usize)
    requires
        area.x + area.width <= u16::MAX,
        area.y + area.height <= u16::MAX,
        footer_rows < u16::MAX,
        margins.0 + margins.1 <= u16::MAX,
    ensures
        menu_plan_of(area, footer_rows, margins, top) matches Some(plan) ==> {
            &&& plan.area.x >= area.x + margins.0
            &&& plan.area.x + plan.area.width <= area.x + margins.0 + sub16(area.width, (margins.0 + margins.1) as u16)
            &&& plan.area.y >= area.y + 1
            &&& plan.area.y + plan.area.height <= area.y + 1 + sub16(area.height, (1 + footer_rows) as u16)
            &&& plan.rows >= 1
        },
{
}

/// The cells `width` columns of text take at the right edge of `area`, or
/// none where the text is empty or wider than the area.
pub fn flush_right(area: Rect, width: usize) -> (r: Option<Rect>)
    requires
        area.x + area.width <= u16::MAX,
    ensures
        r == (if 1 <= width <= area.width {
            Some(Rect { x: (area.x + area.width - width) as u16, y: area.y, width: width as u16, height: 1 })
        } else {
            None::<Rect>
        }),
{
    if width >= 1 && width <= area.width as usize {
        let w = width as u16;
        Some(Rect { x: area.x + area.width - w, y: area.y, width: w, height: 1 })
    } else {
        None
    }
}

/// Where a row's glyphs go inside `region`: inset from the left by the
/// pane's inset, across the width the region is planned against, the bar's
/// reserve charged whether a bar is drawn or not.
pub fn content_span(region: Rect, pane: Rect) -> (r: Rect)
    ensures
        r == (Rect {
            x: add16(region.x, inset(pane.width)),
            width: planning(region.width, pane.width, 0),
            ..region
        }),
{
    let inset = inset_of(pane.width);
    let x = if region.x <= u16::MAX - inset {
        region.x + inset
    } else {
        u16::MAX
    };
    Rect { x, y: region.y, width: planning_width(region.width, pane.width, 0), height: region.height }
}

/// The columns between the chrome's right edge and the one a file row's
/// counts cell ends at, read off the planning width so the two cannot drift.
pub fn counts_edge(pane: u16, trailing: u16) -> (r: usize)
    ensures
        r == sub16(sub16(pane, trailing), add16(planning(pane, pane, 0), inset(pane))),
{
    let planned = planning_width(pane, pane, 0);
    let inset = inset_of(pane);
    let rows = if planned <= u16::MAX - inset {
        planned + inset
    } else {
        u16::MAX
    };
    pane.saturating_sub(trailing).saturating_sub(rows) as usize
}

/// `right` narrowed past a slot `width` columns wide, drawn or not: itself
/// and the blank before it, or nothing for nothing, taken as a count of
/// columns on the `u16` grid.
pub fn past(right: &mut Rect, width: usize)
    requires
        width < usize::MAX,
    ensures
        *final(right) == (Rect { width: sub16(old(right).width, reserve(width as nat) as u16), ..*old(right) }),
{
    let cost: usize = if width == 0 {
        0
    } else {
        width + 1
    };
    right.width = right.width.saturating_sub(cost as u16);
}

impl SheetPlan {
    /// What a pointer needs to know about it.
    pub fn target(&self) -> (r: crate::input::Sheet)
        ensures
            r == (crate::input::Sheet {
                left: self.area.x,
                top: self.area.y,
                width: self.area.width,
                height: self.area.height,
                close: crate::input::Cell { column: self.close.0, row: self.close.1 },
            }),
    {
        crate::input::Sheet {
            left: self.area.x,
            top: self.area.y,
            width: self.area.width,
            height: self.area.height,
            close: crate::input::Cell { column: self.close.0, row: self.close.1 },
        }
    }
}

/// Which lines of a one-column rung's stream are gestures, in the order it
/// draws them: the line and the blank after it where the page says what the
/// pane is, then the kept keyboard rows, then the mouse heading and its rows.
pub open spec fn column_line_rows(from: usize, mouse: bool, purpose: bool) -> Seq<bool> {
    (if purpose {
        seq![false, false]
    } else {
        Seq::empty()
    }) + Seq::new(kept_from(keyboard_rows(), 0, from as int).len(), |i: int| true) + (if mouse {
        seq![false] + Seq::new(MOUSE_ROWS as nat, |i: int| true)
    } else {
        Seq::empty()
    })
}

/// How many of `flags` are set.
pub open spec fn count_set(flags: Seq<bool>) -> nat
    decreases flags.len(),
{
    if flags.len() == 0 {
        0
    } else {
        count_set(flags.drop_last()) + (if flags.last() {
            1nat
        } else {
            0
        })
    }
}

/// The ordinals of the gestures a page draws, or `None` when it draws them
/// all: the gestures before it, and the ones it draws.
pub open spec fn spec_shown_of(page: Column) -> Option<(usize, usize)> {
    let lines = column_line_rows(page.from, page.mouse, page.purpose);
    let before = count_set(lines.take(fewer(page.skip as nat, lines.len()) as int));
    let rest = lines.skip(fewer(page.skip as nat, lines.len()) as int);
    let count = count_set(rest.take(fewer(page.take as nat, rest.len()) as int));
    if count < SHEET_TOTAL {
        Some(((before + 1) as usize, (before + count) as usize))
    } else {
        None
    }
}

/// Flags counted from `lo` up to `hi`.
fn count_between(flags: &Vec<bool>, lo: usize, hi: usize) -> (r: usize)
    requires
        lo <= hi <= flags@.len(),
    ensures
        r == count_set(flags@.subrange(lo as int, hi as int)),
        r <= hi - lo,
{
    let mut n: usize = 0;
    let mut i = lo;
    while i < hi
        invariant
            lo <= i <= hi,
            hi <= flags@.len(),
            n == count_set(flags@.subrange(lo as int, i as int)),
            n <= i - lo,
        decreases hi - i,
    {
        assert(flags@.subrange(lo as int, i + 1).drop_last() =~= flags@.subrange(lo as int, i as int));
        if flags[i] {
            n = n + 1;
        }
        i = i + 1;
    }
    n
}

/// Which lines of a one-column rung's stream are gestures.
fn line_rows_of(from: usize, mouse: bool, purpose: bool) -> (r: Vec<bool>)
    ensures
        r@ == column_line_rows(from, mouse, purpose),
        r@.len() <= 2 + KEYBOARD_ROWS + 1 + MOUSE_ROWS,
{
    let kept = kept_keyboard(from);
    proof {
        lemma_kept_bound(keyboard_rows(), 0, from as int);
    }
    let mut flags: Vec<bool> = Vec::new();
    if purpose {
        flags.push(false);
        flags.push(false);
    }
    let ghost lead = flags@;
    let mut k: usize = 0;
    while k < kept.len()
        invariant
            k <= kept@.len(),
            flags@ == lead + Seq::new(k as nat, |i: int| true),
            lead.len() <= 2,
        decreases kept@.len() - k,
    {
        flags.push(true);
        k = k + 1;
        assert(flags@ =~= lead + Seq::new(k as nat, |i: int| true));
    }
    if mouse {
        flags.push(false);
        let ghost head = flags@;
        let mut m: usize = 0;
        while m < MOUSE_ROWS
            invariant
                m <= MOUSE_ROWS,
                flags@ == head + Seq::new(m as nat, |i: int| true),
            decreases MOUSE_ROWS - m,
        {
            flags.push(true);
            m = m + 1;
            assert(flags@ =~= head + Seq::new(m as nat, |i: int| true));
        }
    }
    assert(flags@ =~= column_line_rows(from, mouse, purpose));
    flags
}

/// The ordinals of the gestures a page draws, or `None` when it draws them all.
pub fn shown_of(page: Column) -> (r: Option<(usize, usize)>)
    ensures
        r == spec_shown_of(page),
{
    let flags = line_rows_of(page.from, page.mouse, page.purpose);
    let ghost lines = column_line_rows(page.from, page.mouse, page.purpose);
    assert(flags@ =~= lines);
    let total = flags.len();
    let skip = if page.skip < total {
        page.skip
    } else {
        total
    };
    let left = total - skip;
    let take = if page.take < left {
        page.take
    } else {
        left
    };
    let before = count_between(&flags, 0, skip);
    let count = count_between(&flags, skip, skip + take);
    assert(flags@.subrange(0, skip as int) =~= lines.take(skip as int));
    assert(flags@.subrange(skip as int, (skip + take) as int) =~= lines.skip(skip as int).take(take as int));
    if count < SHEET_TOTAL {
        Some((before + 1, before + count))
    } else {
        None
    }
}

impl Shape {
    /// The ordinals the page counter draws, or `None` when this shape draws
    /// every gesture the tables hold: the two whole-table rungs never count.
    pub fn shown(self) -> (r: Option<(usize, usize)>)
        ensures
            r == (match self {
                Shape::Column(page) => spec_shown_of(page),
                _ => None::<(usize, usize)>,
            }),
    {
        match self {
            Shape::Column(page) => shown_of(page),
            Shape::Roomy { .. } | Shape::Beside { .. } => None,
        }
    }
}
} // verus!
