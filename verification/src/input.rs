//! Terminal events to intentions, as a pure function.
//!
//! Times are nanoseconds: an instant is counted from whatever origin the
//! caller's clock has, and a duration is the difference of two of them.

use vstd::prelude::*;

use crate::event::{Button, Event, KeyCode, KeyEvent, KeyKind, Modifiers, MouseEvent, MouseKind};

verus! {

/// Rows a wheel notch moves.
pub const WHEEL_ROWS: isize = 3;

/// How long a step button is held before it begins repeating, in nanoseconds.
pub const STEP_DELAY: u64 = 500_000_000;

/// How long between repeats once one has begun, in nanoseconds.
pub const STEP_REPEAT: u64 = 50_000_000;

/// Resolution a drag reports its position at.
pub const TRACK_SCALE: u32 = 65536;

/// `a + b` for a `u16` sum that stops at the type's ceiling.
pub open spec fn sat_add16(a: u16, b: u16) -> int {
    if a + b > u16::MAX {
        u16::MAX as int
    } else {
        a + b
    }
}

/// `a - b`, or zero below it.
pub open spec fn sat_sub(a: int, b: int) -> int {
    if a >= b {
        a - b
    } else {
        0
    }
}

/// `a + b` in `u16`, stopping at the ceiling.
pub fn add16(a: u16, b: u16) -> (r: u16)
    ensures
        r == sat_add16(a, b),
{
    if a as u32 + b as u32 > u16::MAX as u32 {
        u16::MAX
    } else {
        a + b
    }
}

/// Whether `row` falls in the span `(top, rows)`.
pub open spec fn spec_within(row: u16, span: Track) -> bool {
    span.rows > 0 && row >= span.top && row < sat_add16(span.top, span.rows)
}

/// A cell of the pane.
#[derive(Debug, Clone, Copy, PartialEq, Eq, Default, Structural)]
pub struct Cell {
    /// Its column.
    pub column: u16,
    /// Its row.
    pub row: u16,
}

/// A run of rows: the first, and how many.
#[derive(Debug, Clone, Copy, PartialEq, Eq, Default, Structural)]
pub struct Track {
    /// The first row.
    pub top: u16,
    /// How many rows.
    pub rows: u16,
}

/// A span of rows on the screen, and the part of it a scrollbar's thumb can
/// occupy.
#[derive(Debug, Clone, Copy, PartialEq, Eq, Default, Structural)]
pub struct Region {
    /// First row of the region, absolute within the pane.
    pub top: u16,
    /// How many rows it has.
    pub rows: u16,
    /// First column of the region, absolute within the pane.
    pub left: u16,
    /// How many columns it has.
    pub width: u16,
    /// First row of its bar's track, and how many rows that is.
    pub track: Track,
    /// The column this region's bar is drawn in, when it has one.
    pub bar: Option<u16>,
    /// Where the line-number gutter begins and how wide it is; nothing for a
    /// region with no lines.
    pub gutter: Gutter,
    /// Columns a content row has for its text, gutter included.
    pub text: u16,
}

/// A line-number gutter: its first column, and how many columns it takes.
#[derive(Debug, Clone, Copy, PartialEq, Eq, Default, Structural)]
pub struct Gutter {
    /// First column.
    pub left: u16,
    /// Columns taken.
    pub columns: u16,
}

impl Region {
    /// Whether `row` falls inside this region.
    pub open spec fn spec_contains(self, row: u16) -> bool {
        spec_within(row, Track { top: self.top, rows: self.rows })
    }

    /// Whether `column`, `row` is a cell of this region's bar.
    pub open spec fn spec_on_bar(self, column: u16, row: u16) -> bool {
        self.bar == Some(column) && self.spec_contains(row)
    }

    /// Whether `column`, `row` falls inside this region.
    pub open spec fn spec_covers(self, column: u16, row: u16) -> bool {
        self.spec_contains(row) && self.width > 0 && column >= self.left && column
            < sat_add16(self.left, self.width)
    }

    /// The step button under `row`: before the track, after it, or neither.
    pub open spec fn spec_button(self, row: u16) -> Option<isize> {
        if !self.spec_contains(row) {
            None
        } else if row < self.track.top {
            Some(-1isize)
        } else if row >= self.track.top + self.track.rows {
            Some(1isize)
        } else {
            None
        }
    }

    /// How far down the track `row` is, over [`TRACK_SCALE`].
    pub open spec fn spec_along(self, row: u16) -> Option<u32> {
        if !spec_within(row, self.track) {
            None
        } else if self.track.rows == 1 {
            Some(0u32)
        } else {
            Some((((row - self.track.top) * TRACK_SCALE) / (self.track.rows - 1)) as u32)
        }
    }

    /// The last row of the track, stopping at the ceiling.
    pub open spec fn spec_track_last(self) -> u16 {
        (sat_add16(self.track.top, self.track.rows) - 1) as u16
    }

    /// `row` pulled onto the track.
    pub open spec fn spec_onto_track(self, row: u16) -> u16 {
        if row < self.track.top {
            self.track.top
        } else if row > self.spec_track_last() {
            self.spec_track_last()
        } else {
            row
        }
    }

    /// The same fraction, with a row off the track pulled to the end it is past.
    pub open spec fn spec_along_clamped(self, row: u16) -> u32 {
        if self.track.rows == 0 {
            0
        } else {
            match self.spec_along(self.spec_onto_track(row)) {
                Some(at) => at,
                None => 0,
            }
        }
    }

    /// `row` pulled into this region.
    pub open spec fn spec_clamped_row(self, row: u16) -> u16 {
        let last = sat_add16(self.top, sat_sub(self.rows as int, 1) as u16) as u16;
        if row < self.top {
            self.top
        } else if row > last {
            if last >= self.top { last } else { self.top }
        } else {
            row
        }
    }

    /// A region with no scrollbar buttons, whose track is the whole of it.
    pub fn bare(top: u16, rows: u16, left: u16, width: u16, bar: Option<u16>) -> (r: Self)
        ensures
            r == (Region {
                top,
                rows,
                left,
                width,
                track: Track { top, rows },
                bar,
                gutter: Gutter { left: 0, columns: 0 },
                text: 0,
            }),
    {
        Self {
            top,
            rows,
            left,
            width,
            track: Track { top, rows },
            bar,
            gutter: Gutter { left: 0, columns: 0 },
            text: 0,
        }
    }

    /// Whether `row` falls inside this region.
    fn contains(self, row: u16) -> (r: bool)
        ensures
            r == self.spec_contains(row),
    {
        Self::within(row, Track { top: self.top, rows: self.rows })
    }

    /// Whether `column`, `row` is a cell of this region's scrollbar.
    fn on_bar(self, column: u16, row: u16) -> (r: bool)
        ensures
            r == self.spec_on_bar(column, row),
    {
        self.bar == Some(column) && self.contains(row)
    }

    /// Whether `column`, `row` falls inside this region.
    pub fn covers(self, column: u16, row: u16) -> (r: bool)
        ensures
            r == self.spec_covers(column, row),
    {
        self.contains(row) && self.width > 0 && column >= self.left && column < add16(
            self.left,
            self.width,
        )
    }

    /// The same test against a bare `(top, rows)` span, for the track.
    fn within(row: u16, span: Track) -> (r: bool)
        ensures
            r == spec_within(row, span),
    {
        let (top, rows) = (span.top, span.rows);
        rows > 0 && row >= top && row < add16(top, rows)
    }

    /// `-1` on this region's leading step button, `1` on its trailing one, and
    /// `None` both between them and outside the region.
    fn button(self, row: u16) -> (r: Option<isize>)
        ensures
            r == self.spec_button(row),
    {
        if !self.contains(row) {
            return None;
        }
        let (track_top, track_rows) = (self.track.top, self.track.rows);
        if row < track_top {
            Some(-1)
        } else if row as u32 >= track_top as u32 + track_rows as u32 {
            Some(1)
        } else {
            None
        }
    }

    /// `row` pulled into this region, for a drag that has left it.
    fn clamped_row(self, row: u16) -> (r: u16)
        ensures
            r == self.spec_clamped_row(row),
    {
        let less = if self.rows > 0 { self.rows - 1 } else { 0 };
        let last = add16(self.top, less);
        if row < self.top {
            self.top
        } else if row > last {
            if last >= self.top { last } else { self.top }
        } else {
            row
        }
    }

    /// How far down this bar's track `row` sits, as a fraction over
    /// [`TRACK_SCALE`], or `None` when it is not on the track.
    fn along(self, row: u16) -> (r: Option<u32>)
        ensures
            r == self.spec_along(row),
            r matches Some(at) ==> at <= TRACK_SCALE,
    {
        let (top, rows) = (self.track.top, self.track.rows);
        if !Self::within(row, self.track) {
            return None;
        }
        // Divided by the last row's index, not by the row count.
        let travel = (rows - 1) as u32;
        if travel == 0 {
            return Some(0);
        }
        let offset = (row - top) as u32;
        assert(offset <= travel);
        assert(offset * 65536 <= travel * 65536) by (nonlinear_arith)
            requires
                offset <= travel,
        ;
        assert(travel * 65536 <= 65535 * 65536) by (nonlinear_arith)
            requires
                travel <= 65535,
        ;
        let r = (offset * TRACK_SCALE) / travel;
        assert((offset * 65536) / (travel as int) <= 65536) by (nonlinear_arith)
            requires
                offset <= travel,
                travel > 0,
        ;
        Some(r)
    }

    /// The same, with a row outside the track pulled to whichever end it is past.
    fn along_clamped(self, row: u16) -> (r: u32)
        ensures
            r == self.spec_along_clamped(row),
            r <= TRACK_SCALE,
    {
        let (top, rows) = (self.track.top, self.track.rows);
        if rows == 0 {
            return 0;
        }
        let last = add16(top, rows) - 1;
        let onto = if row < top {
            top
        } else if row > last {
            last
        } else {
            row
        };
        match self.along(onto) {
            Some(at) => at,
            None => 0,
        }
    }
}

/// Where the gestures sheet is, so a pointer can be told it is over one.
#[derive(Debug, Clone, Copy, PartialEq, Eq, Structural)]
pub struct Sheet {
    /// Left column, inclusive.
    pub left: u16,
    /// Top row, inclusive.
    pub top: u16,
    /// Columns the sheet occupies.
    pub width: u16,
    /// Rows the sheet occupies.
    pub height: u16,
    /// The close control's own cell.
    pub close: Cell,
}

/// Rows an overlay's frame and the air inside it cost, top and bottom: two
/// border rows and one blank row at each end.
pub const OVERLAY_FRAME: usize = 4;

impl Sheet {
    /// Whether this cell is the sheet's.
    pub open spec fn spec_covers(self, column: u16, row: u16) -> bool {
        column >= self.left && column < sat_add16(self.left, self.width) && row >= self.top
            && row < sat_add16(self.top, self.height)
    }

    /// The drawn row a screen row falls on, counted from the window's top.
    pub open spec fn spec_row_at(self, row: u16) -> Option<u16> {
        let first = sat_add16(self.top, 2);
        let rows = sat_sub(self.height as int, OVERLAY_FRAME as int);
        if row >= first && row - first < rows {
            Some((row - first) as u16)
        } else {
            None
        }
    }

    /// Whether this cell is the sheet's, control included.
    pub fn covers(self, column: u16, row: u16) -> (r: bool)
        ensures
            r == self.spec_covers(column, row),
    {
        column >= self.left && column < add16(self.left, self.width) && row >= self.top && row
            < add16(self.top, self.height)
    }

    /// The drawn row a screen row falls on, counted from the top of the window:
    /// the frame and its air take two rows at each end.
    pub fn row_at(self, row: u16) -> (r: Option<u16>)
        ensures
            r == self.spec_row_at(row),
    {
        let first = add16(self.top, 2);
        let rows: usize = if (self.height as usize) >= OVERLAY_FRAME {
            self.height as usize - OVERLAY_FRAME
        } else {
            0
        };
        if row < first {
            return None;
        }
        let offset = row - first;
        if (offset as usize) < rows {
            Some(offset)
        } else {
            None
        }
    }
}

/// Where the screen's regions are, so a pointer can be told what it is over.
#[derive(Debug, Clone, Copy, PartialEq, Eq, Default, Structural)]
pub struct Regions {
    /// The pinned file list. Zero rows means there is no region and every
    /// gesture belongs to the diff.
    pub list: Region,
    /// The diff region.
    pub diff: Region,
    /// The gestures sheet, when it is drawn.
    pub sheet: Option<Sheet>,
}

impl Regions {
    /// Whether the sheet is drawn over this cell.
    pub open spec fn spec_under_sheet(self, column: u16, row: u16) -> bool {
        match self.sheet {
            Some(sheet) => sheet.spec_covers(column, row),
            None => false,
        }
    }

    /// The step under a pointer.
    pub open spec fn spec_step_at(self, column: u16, row: u16) -> Option<Action> {
        if self.spec_under_sheet(column, row) {
            None
        } else if self.list.bar == Some(column) && self.list.spec_button(row).is_some() {
            Some(Action::ScrollList(self.list.spec_button(row).unwrap()))
        } else if self.diff.bar == Some(column) {
            match self.diff.spec_button(row) {
                Some(by) => Some(Action::Scroll(by)),
                None => None,
            }
        } else {
            None
        }
    }

    /// Whether a press here begins a selection.
    pub open spec fn spec_selectable(self, column: u16, row: u16) -> bool {
        self.sheet.is_none() && self.diff.spec_covers(column, row) && !self.diff.spec_on_bar(
            column,
            row,
        )
    }

    /// The bar a press takes hold of.
    pub open spec fn spec_grab_at(self, column: u16, row: u16) -> Option<Grabbed> {
        if self.spec_under_sheet(column, row) {
            None
        } else if self.list.bar == Some(column) && self.list.spec_along(row).is_some() {
            Some(Grabbed::List)
        } else if self.diff.bar == Some(column) && self.diff.spec_along(row).is_some() {
            Some(Grabbed::Diff)
        } else {
            None
        }
    }

    /// What the pointer is over, for the hover mark.
    pub open spec fn spec_hover_at(self, column: u16, row: u16) -> Option<Hovered> {
        if self.spec_under_sheet(column, row) {
            if column == self.sheet.unwrap().close.column && row == self.sheet.unwrap().close.row {
                Some(Hovered::Button(column, row))
            } else {
                None
            }
        } else if self.list.spec_on_bar(column, row) || self.diff.spec_on_bar(column, row) {
            if self.spec_step_at(column, row).is_some() {
                Some(Hovered::Button(column, row))
            } else if self.list.spec_on_bar(column, row) && self.list.spec_along(row).is_some() {
                Some(Hovered::Track(Grabbed::List))
            } else if self.diff.spec_on_bar(column, row) && self.diff.spec_along(row).is_some() {
                Some(Hovered::Track(Grabbed::Diff))
            } else {
                None
            }
        } else if self.list.spec_covers(column, row) {
            Some(Hovered::Row(row))
        } else {
            None
        }
    }

    /// Whether the sheet is drawn over `column`, `row`.
    fn under_sheet(self, column: u16, row: u16) -> (r: bool)
        ensures
            r == self.spec_under_sheet(column, row),
    {
        match self.sheet {
            Some(sheet) => sheet.covers(column, row),
            None => false,
        }
    }

    /// Whether `column`, `row` is inside the pinned list.
    fn over_list(self, column: u16, row: u16) -> (r: bool)
        ensures
            r == self.list.spec_covers(column, row),
    {
        self.list.covers(column, row)
    }

    /// The step a pointer at `column`, `row` is over, whatever it is doing there.
    pub fn step_at(self, column: u16, row: u16) -> (r: Option<Action>)
        ensures
            r == self.spec_step_at(column, row),
    {
        // Before the columns, because the sheet is drawn over them.
        if self.under_sheet(column, row) {
            return None;
        }
        if self.list.bar == Some(column) {
            if let Some(rows) = self.list.button(row) {
                return Some(Action::ScrollList(rows));
            }
        }
        if self.diff.bar == Some(column) {
            return match self.diff.button(row) {
                Some(by) => Some(Action::Scroll(by)),
                None => None,
            };
        }
        None
    }

    /// Whether a press at `column`, `row` begins a selection: a row of the diff
    /// itself, off its bar, and not under the sheet drawn over it.
    fn selectable(self, column: u16, row: u16) -> (r: bool)
        ensures
            r == self.spec_selectable(column, row),
    {
        self.sheet.is_none() && self.diff.covers(column, row) && !self.diff.on_bar(column, row)
    }

    /// The bar a press at `column`, `row` takes hold of, or `None` off them.
    pub fn grab_at(self, column: u16, row: u16) -> (r: Option<Grabbed>)
        ensures
            r == self.spec_grab_at(column, row),
    {
        if self.under_sheet(column, row) {
            return None;
        }
        if self.list.bar == Some(column) && self.list.along(row).is_some() {
            return Some(Grabbed::List);
        }
        if self.diff.bar == Some(column) && self.diff.along(row).is_some() {
            Some(Grabbed::Diff)
        } else {
            None
        }
    }

    /// What a pointer at `column`, `row` is over, for the hover mark.
    pub fn hover_at(self, column: u16, row: u16) -> (r: Option<Hovered>)
        ensures
            r == self.spec_hover_at(column, row),
    {
        // The sheet first, because it is drawn over everything.
        if let Some(sheet) = self.sheet {
            if sheet.covers(column, row) {
                return if column == sheet.close.column && row == sheet.close.row {
                    Some(Hovered::Button(column, row))
                } else {
                    None
                };
            }
        }
        // The bar's column before the region it is drawn inside.
        let on_list_bar = self.list.on_bar(column, row);
        let on_diff_bar = self.diff.on_bar(column, row);
        if on_list_bar || on_diff_bar {
            if self.step_at(column, row).is_some() {
                return Some(Hovered::Button(column, row));
            }
            if on_list_bar && self.list.along(row).is_some() {
                return Some(Hovered::Track(Grabbed::List));
            }
            return if on_diff_bar && self.diff.along(row).is_some() {
                Some(Hovered::Track(Grabbed::Diff))
            } else {
                None
            };
        }
        if self.over_list(column, row) {
            Some(Hovered::Row(row))
        } else {
            None
        }
    }
}

/// Rows of the diff a drag is washing. Screen rows and not row indices: the
/// span is re-resolved against every frame.
#[derive(Debug, Clone, Copy, PartialEq, Eq, Structural)]
pub struct Selection {
    /// The screen row the press landed on.
    pub anchor: u16,
    /// The screen row the drag has reached.
    pub head: u16,
}

impl Selection {
    /// The row the press landed on.
    pub open spec fn spec_anchor(self) -> u16 {
        self.anchor
    }

    /// The row the drag has reached.
    pub open spec fn spec_head(self) -> u16 {
        self.head
    }

    /// The rows it covers, topmost first.
    pub open spec fn spec_rows(self) -> (u16, u16) {
        if self.anchor <= self.head {
            (self.anchor, self.head)
        } else {
            (self.head, self.anchor)
        }
    }

    /// A selection of the one row a press landed on.
    pub fn at(row: u16) -> (r: Self)
        ensures
            r.spec_anchor() == row,
            r.spec_head() == row,
    {
        Self { anchor: row, head: row }
    }

    /// The same press, dragged to `row`.
    pub fn dragged_to(self, row: u16) -> (r: Self)
        ensures
            r.spec_anchor() == self.spec_anchor(),
            r.spec_head() == row,
    {
        Self { head: row, ..self }
    }

    /// The rows it covers, topmost first and inclusive, so a drag up covers what
    /// the same drag down would.
    pub fn rows(self) -> (r: (u16, u16))
        ensures
            r == self.spec_rows(),
            r.0 <= r.1,
    {
        if self.anchor <= self.head {
            (self.anchor, self.head)
        } else {
            (self.head, self.anchor)
        }
    }

    /// The same span as offsets from `top`, which the collected rows are indexed by.
    pub fn offsets(self, top: u16) -> (r: (usize, usize))
        ensures
            r.0 == sat_sub(self.spec_rows().0 as int, top as int),
            r.1 == sat_sub(self.spec_rows().1 as int, top as int),
            r.0 <= r.1,
    {
        let (from, to) = self.rows();
        let a: usize = if from >= top { (from - top) as usize } else { 0 };
        let b: usize = if to >= top { (to - top) as usize } else { 0 };
        (a, b)
    }
}

/// A drag run over the same rows either way covers the same rows.
pub proof fn law_a_drag_covers_the_same_rows_either_way(a: u16, b: u16)
    ensures
        (Selection { anchor: a, head: b }).spec_rows() == (Selection {
            anchor: b,
            head: a,
        }).spec_rows(),
{
}

/// Whether `event` is the primary button coming up.
pub open spec fn spec_ends_a_drag(event: Event) -> bool {
    event matches Event::Mouse(m) && m.kind == MouseKind::Up(Button::Left)
}

/// Whether `event` is the button coming up, which is a drag ending and the moment
/// what it washed reaches the clipboard.
pub fn ends_a_drag(event: &Event) -> (r: bool)
    ensures
        r == spec_ends_a_drag(*event),
{
    match event {
        Event::Mouse(mouse) => mouse.kind == MouseKind::Up(Button::Left),
        _ => false,
    }
}

/// The selection an event leaves behind, given the one before it.
pub open spec fn spec_selection_after(event: Event, regions: Regions, was: Option<Selection>) -> Option<
    Selection,
> {
    if spec_ends_a_drag(event) {
        None
    } else {
        match event {
            Event::Mouse(m) => match m.kind {
                MouseKind::Down(Button::Left) => if regions.spec_selectable(m.column, m.row) {
                    Some(Selection { anchor: m.row, head: m.row })
                } else {
                    None
                },
                MouseKind::Drag(Button::Left) => match was {
                    Some(had) => Some(
                        Selection { anchor: had.anchor, head: regions.diff.spec_clamped_row(m.row) },
                    ),
                    None => None,
                },
                _ => was,
            },
            _ => was,
        }
    }
}

/// The selection after `event`, given the one before it. The button coming up
/// ends one, which is the whole gesture.
pub fn selection_after(event: &Event, regions: Regions, was: Option<Selection>) -> (r: Option<
    Selection,
>)
    ensures
        r == spec_selection_after(*event, regions, was),
{
    if ends_a_drag(event) {
        return None;
    }
    let mouse = match event {
        Event::Mouse(mouse) => mouse,
        // Focus clears no wash.
        _ => return was,
    };
    match mouse.kind {
        MouseKind::Down(Button::Left) => if regions.selectable(mouse.column, mouse.row) {
            Some(Selection::at(mouse.row))
        } else {
            None
        },
        // Clamped, so a drag out of the region reaches its edge.
        MouseKind::Drag(Button::Left) => match was {
            Some(had) => Some(had.dragged_to(regions.diff.clamped_row(mouse.row))),
            None => None,
        },
        _ => was,
    }
}

/// What the pointer is resting on, when it is on something a click acts on.
#[derive(Debug, Clone, Copy, PartialEq, Eq, Structural)]
pub enum Hovered {
    /// A one-cell control, by the cell it is drawn on.
    Button(u16, u16),
    /// A bar, by the region it belongs to.
    Track(Grabbed),
    /// A listed file, by the screen row it is drawn on.
    Row(u16),
}

/// The hover mark an event leaves behind.
pub open spec fn spec_hover_after(event: Event, regions: Regions, was: Option<Hovered>) -> Option<
    Hovered,
> {
    match event {
        Event::Mouse(m) => if m.kind is Drag {
            None
        } else {
            regions.spec_hover_at(m.column, m.row)
        },
        Event::FocusLost => None,
        _ => was,
    }
}

/// The mark after `event`, given the one before it.
pub fn hover_after(event: &Event, regions: Regions, was: Option<Hovered>) -> (r: Option<Hovered>)
    ensures
        r == spec_hover_after(*event, regions, was),
{
    match event {
        Event::Mouse(mouse) => match mouse.kind {
            // A drag is not a hover.
            MouseKind::Drag(_) => None,
            _ => regions.hover_at(mouse.column, mouse.row),
        },
        Event::FocusLost => None,
        _ => was,
    }
}

/// A screen-anchored mark after a paint: it survives only where nothing moved.
pub fn repainted<T>(was: Option<T>, before: Regions, after: Regions) -> (r: Option<T>)
    ensures
        r == (if before == after {
            was
        } else {
            None
        }),
{
    if before == after {
        was
    } else {
        None
    }
}

/// Which of the two scrollable regions a mark belongs to.
#[derive(Debug, Clone, Copy, PartialEq, Eq, Structural)]
pub enum Grabbed {
    /// The pinned list's bar.
    List,
    /// The diff's bar.
    Diff,
}

impl Grabbed {
    /// The region a mark on this bar belongs to.
    pub open spec fn spec_region(self, regions: Regions) -> Region {
        match self {
            Grabbed::List => regions.list,
            Grabbed::Diff => regions.diff,
        }
    }

    /// Whether `event` ends the grip: anything but a drag of the primary button.
    pub fn ends(event: &Event) -> (r: bool)
        ensures
            r == !(*event matches Event::Mouse(m) && m.kind == MouseKind::Drag(Button::Left)),
    {
        match event {
            Event::Mouse(mouse) => mouse.kind != MouseKind::Drag(Button::Left),
            _ => true,
        }
    }

    /// The region this drag is moving.
    fn region(self, regions: Regions) -> (r: Region)
        ensures
            r == self.spec_region(regions),
    {
        match self {
            Self::List => regions.list,
            Self::Diff => regions.diff,
        }
    }
}

/// What a drag under way makes of an event.
pub open spec fn spec_drag_action(event: Event, regions: Regions, on: Grabbed) -> Option<Action> {
    match event {
        Event::Mouse(m) => if m.kind == MouseKind::Drag(Button::Left) {
            let at = on.spec_region(regions).spec_along_clamped(m.row);
            Some(
                match on {
                    Grabbed::List => Action::ListTo(at),
                    Grabbed::Diff => Action::DiffTo(at),
                },
            )
        } else {
            None
        },
        _ => None,
    }
}

/// What a drag already under way makes of `event`, ignoring the column.
pub fn drag_action(event: &Event, regions: Regions, on: Grabbed) -> (r: Option<Action>)
    ensures
        r == spec_drag_action(*event, regions, on),
{
    let mouse = match event {
        Event::Mouse(mouse) => mouse,
        _ => return None,
    };
    if mouse.kind != MouseKind::Drag(Button::Left) {
        return None;
    }
    let at = on.region(regions).along_clamped(mouse.row);
    Some(
        match on {
            Grabbed::List => Action::ListTo(at),
            Grabbed::Diff => Action::DiffTo(at),
        },
    )
}

/// The sign of `by`.
pub open spec fn spec_signum(by: isize) -> isize {
    if by > 0 {
        1isize
    } else if by < 0 {
        -1isize
    } else {
        0isize
    }
}

/// The sign of `by`, as `-1`, `0` or `1`.
pub fn signum(by: isize) -> (r: isize)
    ensures
        r == spec_signum(by),
{
    if by > 0 {
        1
    } else if by < 0 {
        -1
    } else {
        0
    }
}

/// Which bar an action moves, and which way, before asking whether it has rows.
pub open spec fn spec_scroll_way(action: Action) -> Option<(Grabbed, isize)> {
    match action {
        Action::Scroll(by) => Some((Grabbed::Diff, spec_signum(by))),
        Action::Page(by) => Some((Grabbed::Diff, spec_signum(by))),
        Action::HalfPage(by) => Some((Grabbed::Diff, spec_signum(by))),
        Action::File(by) => Some((Grabbed::Diff, spec_signum(by))),
        Action::Top => Some((Grabbed::Diff, -1isize)),
        Action::Bottom => Some((Grabbed::Diff, 1isize)),
        Action::ScrollList(by) => Some((Grabbed::List, spec_signum(by))),
        _ => None,
    }
}

/// Which bar an action scrolls, and which way, or `None` where it scrolls
/// neither.
pub fn scroll_mark(action: Action, regions: Regions) -> (r: Option<(Grabbed, isize)>)
    ensures
        r == (match spec_scroll_way(action) {
            Some((whose, way)) => if way != 0 && whose.spec_region(regions).rows > 0 {
                Some((whose, way))
            } else {
                None
            },
            None => None,
        }),
{
    let (whose, way) = match action {
        Action::Scroll(by) => (Grabbed::Diff, signum(by)),
        Action::Page(by) => (Grabbed::Diff, signum(by)),
        Action::HalfPage(by) => (Grabbed::Diff, signum(by)),
        Action::File(by) => (Grabbed::Diff, signum(by)),
        Action::Top => (Grabbed::Diff, -1),
        Action::Bottom => (Grabbed::Diff, 1),
        Action::ScrollList(by) => (Grabbed::List, signum(by)),
        // A jump moves the diff to somewhere rather than by something, and a
        // drag on either bar already lights its own thumb.
        _ => return None,
    };
    if way != 0 && whose.region(regions).rows > 0 {
        Some((whose, way))
    } else {
        None
    }
}

/// Whether a scroll's direction mark has outlived its burst.
pub fn settled(linger: Option<u64>, now: u64) -> (r: bool)
    ensures
        r == (linger matches Some(until) && now >= until),
{
    match linger {
        Some(until) => now >= until,
        None => false,
    }
}

/// Every deadline the loop owns. Named: they fold to a minimum, so a value in
/// the wrong slot is invisible to a test that arms one clock.
#[derive(Debug, Clone, Copy, Default, PartialEq, Eq)]
pub struct Deadlines {
    /// A held button's next repeat.
    pub held: Option<Held>,
    /// When the scroll direction's mark stops being true.
    pub linger: Option<u64>,
    /// When the footer's notice stops being true.
    pub notice: Option<u64>,
    /// When the churn window next has to age, as a wait rather than an instant.
    pub ageing: Option<u64>,
}

/// The smaller of two optional waits, where either is a wait at all.
pub open spec fn spec_sooner(a: Option<u64>, b: Option<u64>) -> Option<u64> {
    match (a, b) {
        (Some(x), Some(y)) => Some(if x <= y { x } else { y }),
        (Some(x), None) => Some(x),
        (None, y) => y,
    }
}

/// Time left until `until`, and none where it has passed.
pub open spec fn spec_until(until: u64, now: u64) -> u64 {
    sat_sub(until as int, now as int) as u64
}

/// How long the loop may block, by the deadlines.
pub open spec fn spec_patience(due: Deadlines, now: u64) -> Option<u64> {
    spec_sooner(
        spec_sooner(
            match due.held {
                Some(h) => Some(spec_until(h.due, now)),
                None => None,
            },
            match due.linger {
                Some(u) => Some(spec_until(u, now)),
                None => None,
            },
        ),
        spec_sooner(
            match due.notice {
                Some(u) => Some(spec_until(u, now)),
                None => None,
            },
            due.ageing,
        ),
    )
}

/// The smaller of two optional waits.
fn sooner(a: Option<u64>, b: Option<u64>) -> (r: Option<u64>)
    ensures
        r == spec_sooner(a, b),
{
    match (a, b) {
        (Some(x), Some(y)) => Some(if x <= y { x } else { y }),
        (Some(x), None) => Some(x),
        (None, y) => y,
    }
}

/// Time from `now` until `until`, zero once it has passed.
fn remaining(until: u64, now: u64) -> (r: u64)
    ensures
        r == spec_until(until, now),
{
    if until >= now {
        until - now
    } else {
        0
    }
}

/// How long the loop may block before some clock here has to act.
pub fn patience(due: Deadlines, now: u64) -> (r: Option<u64>)
    ensures
        r == spec_patience(due, now),
        r.is_none() <==> (due.held.is_none() && due.linger.is_none() && due.notice.is_none()
            && due.ageing.is_none()),
{
    let held = Held::wait(due.held, now);
    let linger = match due.linger {
        Some(u) => Some(remaining(u, now)),
        None => None,
    };
    let notice = match due.notice {
        Some(u) => Some(remaining(u, now)),
        None => None,
    };
    sooner(sooner(held, linger), sooner(notice, due.ageing))
}

/// What a held mouse button is repeating, and when its next step is due.
#[derive(Debug, Clone, Copy, PartialEq, Eq, Structural)]
pub struct Held {
    /// One step in the direction pressed.
    pub step: Action,
    /// The column and row the press landed on.
    pub at: Cell,
    /// When the next repeat falls due.
    pub due: u64,
}

/// The steps a hold fires at `now`: the one due, plus every whole interval since.
pub open spec fn spec_steps(due: u64, now: u64) -> int {
    1 + (now - due) / (STEP_REPEAT as int)
}

/// A count of steps as the `isize` an action carries, held at its ceiling.
pub open spec fn spec_step_count(steps: int) -> isize {
    if steps > isize::MAX {
        isize::MAX
    } else {
        steps as isize
    }
}

/// What a hold does at `now`: nothing before it is due; once due, its step
/// scaled by every interval elapsed, and the hold next due one interval on
/// from each of them.
pub open spec fn spec_fire(h: Held, now: u64) -> Option<(Action, Held)> {
    if now < h.due {
        None
    } else {
        Some(
            (
                h.step.spec_repeated(spec_step_count(spec_steps(h.due, now))),
                Held { due: (h.due + STEP_REPEAT * spec_steps(h.due, now)) as u64, ..h },
            ),
        )
    }
}

/// A hold that fires at `now` is next due after `now` and no more than one
/// repeat interval after it: the wait it then asks for is positive and at
/// most one interval, so no instant fires twice and none is skipped.
pub proof fn law_no_instant_fires_twice(due: u64, now: u64)
    requires
        due <= now,
    ensures
        now < due + STEP_REPEAT * spec_steps(due, now),
        due + STEP_REPEAT * spec_steps(due, now) <= now + STEP_REPEAT,
        due + STEP_REPEAT * spec_steps(due, now) <= u64::MAX ==> 0 < spec_until(
            (due + STEP_REPEAT * spec_steps(due, now)) as u64,
            now,
        ) <= STEP_REPEAT,
{
    let late = now - due;
    let extra = late / (STEP_REPEAT as int);
    assert(STEP_REPEAT * extra <= late < STEP_REPEAT * (extra + 1)) by (nonlinear_arith)
        requires
            late >= 0,
            extra == late / 50_000_000int,
            STEP_REPEAT == 50_000_000,
    ;
    assert(STEP_REPEAT * spec_steps(due, now) == STEP_REPEAT * (extra + 1));
}

/// A hold fires exactly when the wait it asks for is over, at least one step
/// at a time, and leaves a hold that waits again, positively and at most one
/// interval, on the same cell: no instant fires twice.
pub proof fn law_a_hold_fires_once_its_wait_is_over(h: Held, now: u64)
    requires
        now + STEP_REPEAT <= u64::MAX,
    ensures
        spec_fire(h, now) is None <==> spec_until(h.due, now) != 0,
        spec_fire(h, now) matches Some((a, next)) ==> {
            &&& spec_steps(h.due, now) >= 1
            &&& spec_step_count(spec_steps(h.due, now)) >= 1
            &&& a == h.step.spec_repeated(spec_step_count(spec_steps(h.due, now)))
            &&& next.step == h.step
            &&& next.at == h.at
            &&& 0 < spec_until(next.due, now) <= STEP_REPEAT
            &&& spec_fire(next, now) is None
        },
{
    if now >= h.due {
        law_no_instant_fires_twice(h.due, now);
        let late = now - h.due;
        assert((late / (STEP_REPEAT as int)) >= 0) by (nonlinear_arith)
            requires
                late >= 0,
                STEP_REPEAT == 50_000_000,
        ;
    }
}

impl Held {
    /// The step this hold repeats.
    pub open spec fn spec_step(self) -> Action {
        self.step
    }

    /// When the next step is due.
    pub open spec fn spec_due(self) -> u64 {
        self.due
    }

    /// Where the press landed.
    pub open spec fn spec_at(self) -> Cell {
        self.at
    }

    /// Arm a repeat from a press that produced `step` at `at`.
    pub fn new(step: Action, at: Cell, now: u64) -> (r: Self)
        requires
            now + STEP_DELAY <= u64::MAX,
        ensures
            r.spec_step() == step,
            r.spec_at() == at,
            r.spec_due() == now + STEP_DELAY,
    {
        Self { step, at, due: now + STEP_DELAY }
    }

    /// The cell this hold began on, so the paint can draw that button pressed.
    pub fn at(self) -> (r: Cell)
        ensures
            r == self.spec_at(),
    {
        self.at
    }

    /// How long the loop may block before this has to act, or `None` when
    /// nothing is held.
    pub fn wait(held: Option<Self>, now: u64) -> (r: Option<u64>)
        ensures
            r == (match held {
                Some(h) => Some(spec_until(h.due, now)),
                None => None,
            }),
    {
        match held {
            Some(h) => Some(remaining(h.due, now)),
            None => None,
        }
    }

    /// The step now due, scaled by how many intervals have actually elapsed, and
    /// the state to carry forward.
    pub fn fire(self, now: u64) -> (r: Option<(Action, Self)>)
        requires
            now + STEP_REPEAT <= u64::MAX,
        ensures
            r == spec_fire(self, now),
            now < self.spec_due() ==> r.is_none(),
            now >= self.spec_due() ==> (r matches Some((action, next)) && action
                == self.spec_step().spec_repeated(
                spec_step_count(spec_steps(self.spec_due(), now)),
            ) && next.spec_step() == self.spec_step() && next.spec_at() == self.spec_at()
                && next.spec_due() == self.spec_due() + STEP_REPEAT * spec_steps(
                self.spec_due(),
                now,
            ) && next.spec_due() > now),
    {
        if now < self.due {
            return None;
        }
        let late = now - self.due;
        let extra = late / STEP_REPEAT;
        let steps = 1 + extra;
        assert(STEP_REPEAT * extra <= late) by (nonlinear_arith)
            requires
                extra == late / 50_000_000u64,
        ;
        assert(late < STEP_REPEAT * steps) by (nonlinear_arith)
            requires
                extra == late / 50_000_000u64,
                steps == 1 + extra,
        ;
        let advance = STEP_REPEAT * steps;
        let count: isize = if steps > isize::MAX as u64 {
            isize::MAX
        } else {
            steps as isize
        };
        Some((self.step.repeated(count), Self { due: self.due + advance, ..self }))
    }

    /// Whether `event` ends the hold.
    pub fn ends(self, event: &Event, regions: Regions) -> (r: bool)
        ensures
            r == (match *event {
                Event::Key(key) => key.kind != KeyKind::Release,
                Event::Mouse(m) => match m.kind {
                    MouseKind::Up(_) => true,
                    MouseKind::Moved => true,
                    MouseKind::Drag(_) => (m.column != self.spec_at().column || m.row != self.spec_at().row)
                        && regions.spec_step_at(m.column, m.row) != Some(self.spec_step()),
                    _ => false,
                },
                Event::FocusLost => true,
                _ => false,
            }),
    {
        match event {
            Event::Key(key) => key.kind != KeyKind::Release,
            Event::Mouse(mouse) => match mouse.kind {
                MouseKind::Up(_) => true,
                MouseKind::Moved => true,
                MouseKind::Drag(_) => {
                    let off = mouse.column != self.at.column || mouse.row != self.at.row;
                    let stepped = match regions.step_at(mouse.column, mouse.row) {
                        Some(step) => step == self.step,
                        None => false,
                    };
                    off && !stepped
                },
                _ => false,
            },
            // A window that lost focus has ended the gesture.
            Event::FocusLost => true,
            _ => false,
        }
    }
}

/// What the reader asked the shell to do.
#[derive(Debug, Clone, Copy, PartialEq, Eq, Structural)]
pub enum Action {
    /// Leave.
    Quit,
    /// Move the viewport by this many rows, negative for up.
    Scroll(isize),
    /// Move the pinned file list's window by this many rows, negative for up.
    ScrollList(isize),
    /// Move the viewport by whole screens, negative for up.
    Page(isize),
    /// Move the viewport by half screens, negative for up.
    HalfPage(isize),
    /// Move the viewport by this many changed files, negative for back.
    File(isize),
    /// Go to the first changed file.
    Top,
    /// Go to the last changed file.
    Bottom,
    /// Engage follow mode, or disengage it.
    ToggleFollow,
    /// Draw the masthead, or stop drawing it.
    ToggleMasthead,
    /// Put the pinned list beside the diff as a left rail, or back above it.
    ToggleRail,
    /// Pin the diff to the file the viewport is inside, or unpin it.
    ToggleSingle,
    /// Draw the file list alone, or the diff under it again.
    ToggleOverview,
    /// Show the staged run beside the unstaged one, or stop showing it.
    ToggleStaged,
    /// Wrap a content line too wide for the pane onto the row below, or clip it.
    ToggleWrap,
    /// Draw the rows of the reader's notes, or stop drawing them.
    ToggleNotes,
    /// Draw a file-type icon before every listed path, or stop.
    ToggleIcons,
    /// Make every listed path a link to its file, or stop.
    ToggleLinks,
    /// Write what the reader flips back into their file, or stop.
    TogglePersist,
    /// Put every setting back to the shipped pane.
    MenuReset,
    /// Draw the gestures sheet, advance it a page, or stop drawing it.
    ToggleSheet,
    /// Stop drawing the gestures sheet, whatever page it is on.
    CloseSheet,
    /// Leave the frontmost thing: the gestures sheet if one is up, and the
    /// program if none is. `Esc`.
    Escape,
    /// Put the pinned list's window at this fraction of the changed set.
    ListTo(u32),
    /// Put the diff at the file this many rows down the pinned list.
    ListRow(u16),
    /// Put the diff at this fraction of its total height.
    DiffTo(u32),
    /// Draw again with no state change, which is what a resize needs.
    Redraw,
}

/// `by * times`, held at whichever end of `isize` it passes.
pub open spec fn spec_sat_mul(by: isize, times: isize) -> isize {
    if by * times > isize::MAX {
        isize::MAX
    } else if by * times < isize::MIN {
        isize::MIN
    } else {
        (by * times) as isize
    }
}

/// `by * times`, saturating at the ends of `isize`.
pub fn sat_mul(by: isize, times: isize) -> (r: isize)
    ensures
        r == spec_sat_mul(by, times),
{
    match by.checked_mul(times) {
        Some(r) => r,
        None => if (by < 0) == (times < 0) {
            assert(by * times > isize::MAX) by (nonlinear_arith)
                requires
                    (by < 0) == (times < 0),
                    by * times > isize::MAX || by * times < isize::MIN,
            ;
            isize::MAX
        } else {
            assert(by * times < isize::MIN) by (nonlinear_arith)
                requires
                    (by < 0) != (times < 0),
                    by * times > isize::MAX || by * times < isize::MIN,
            ;
            isize::MIN
        },
    }
}

impl Action {
    /// This action performed `times` over.
    pub open spec fn spec_repeated(self, times: isize) -> Action {
        match self {
            Action::Scroll(by) => Action::Scroll(spec_sat_mul(by, times)),
            Action::ScrollList(by) => Action::ScrollList(spec_sat_mul(by, times)),
            _ => self,
        }
    }

    /// Whether this is the reader moving the diff's viewport themselves.
    pub open spec fn spec_is_manual_scroll(self) -> bool {
        match self {
            Action::Scroll(_) | Action::Page(_) | Action::HalfPage(_) | Action::File(_)
            | Action::Top | Action::Bottom | Action::DiffTo(_) | Action::ListRow(_) => true,
            _ => false,
        }
    }

    /// Whether applying this needs to know how tall the body is.
    pub open spec fn spec_needs_height(self) -> bool {
        match self {
            Action::Page(_) | Action::HalfPage(_) | Action::DiffTo(_) | Action::Bottom => true,
            _ => false,
        }
    }

    /// This action performed `times` over, as a single action where that is
    /// possible.
    pub fn repeated(self, times: isize) -> (r: Self)
        ensures
            r == self.spec_repeated(times),
    {
        match self {
            // Relative row counts, so `n` steps *is* one action with `n` in it.
            Self::Scroll(by) => Self::Scroll(sat_mul(by, times)),
            Self::ScrollList(by) => Self::ScrollList(sat_mul(by, times)),
            // Everything else repeats as itself: folding a page count would be
            // correct arithmetic and the wrong feel, and the absolute moves have
            // nothing to fold at all.
            _ => self,
        }
    }

    /// Whether this is the reader moving the viewport themselves.
    pub fn is_manual_scroll(self) -> (r: bool)
        ensures
            r == self.spec_is_manual_scroll(),
    {
        match self {
            // `File` moves the *diff*, and disengages even at an end where it
            // moves nothing: follow yields to a reader's intent.
            Self::Scroll(_) | Self::Page(_) | Self::HalfPage(_) | Self::File(_) | Self::Top
            | Self::Bottom => true,
            // A click on a row, or a drag on the diff's bar, moves the diff.
            Self::DiffTo(_) | Self::ListRow(_) => true,
            // A resize, a toggle or the sheet expresses no intent about what the
            // diff should show, and the list's own bar moves the map.
            _ => false,
        }
    }

    /// Whether applying this needs to know how tall the body is.
    pub fn needs_height(self) -> (r: bool)
        ensures
            r == self.spec_needs_height(),
    {
        match self {
            // A page steps by a screenful, and a drag on the diff's bar maps the
            // track onto everything but the last screenful.
            Self::Page(_) | Self::HalfPage(_) | Self::DiffTo(_) | Self::Bottom => true,
            // `File` is measured in files and never in rows, and a toggle changes
            // the height rather than needing it.
            _ => false,
        }
    }
}

/// The list row a digit names, counting from zero where a reader counts from one.
pub open spec fn spec_row_of(digit: char) -> u16 {
    ((digit as u32) - ('1' as u32)) as u16
}

/// Whether `c` is one of the six digits that address the list's window.
pub open spec fn spec_list_digit(c: char) -> bool {
    '1' <= c && c <= '6'
}

/// What one key means, where it means anything.
pub open spec fn spec_key_action(key: KeyEvent) -> Option<Action> {
    if key.kind == KeyKind::Release {
        None
    } else if key.modifiers.control {
        match key.code {
            KeyCode::Char('c') | KeyCode::Char('d') => Some(Action::Quit),
            _ => None,
        }
    } else if key.modifiers.shift && key.code == KeyCode::Down {
        Some(Action::ScrollList(1isize))
    } else if key.modifiers.shift && key.code == KeyCode::Up {
        Some(Action::ScrollList(-1isize))
    } else {
        match key.code {
            KeyCode::Char(c) => if spec_list_digit(c) {
                Some(Action::ListRow(spec_row_of(c)))
            } else {
                spec_letter_action(c)
            },
            KeyCode::Esc => Some(Action::Escape),
            KeyCode::Down => Some(Action::Scroll(1isize)),
            KeyCode::Up => Some(Action::Scroll(-1isize)),
            KeyCode::PageDown => Some(Action::Page(1isize)),
            KeyCode::PageUp => Some(Action::Page(-1isize)),
            KeyCode::Home => Some(Action::Top),
            KeyCode::End => Some(Action::Bottom),
            KeyCode::Right => Some(Action::File(1isize)),
            KeyCode::Left => Some(Action::File(-1isize)),
            _ => None,
        }
    }
}

/// What a character key means on its own.
pub open spec fn spec_letter_action(c: char) -> Option<Action> {
    if c == 'q' {
        Some(Action::Quit)
    } else if c == 'j' {
        Some(Action::Scroll(1isize))
    } else if c == 'k' {
        Some(Action::Scroll(-1isize))
    } else if c == 'J' {
        Some(Action::ScrollList(1isize))
    } else if c == 'K' {
        Some(Action::ScrollList(-1isize))
    } else if c == ' ' {
        Some(Action::Page(1isize))
    } else if c == 'd' {
        Some(Action::HalfPage(1isize))
    } else if c == 'u' {
        Some(Action::HalfPage(-1isize))
    } else if c == 'g' {
        Some(Action::Top)
    } else if c == 'G' {
        Some(Action::Bottom)
    } else if c == 'n' {
        Some(Action::File(1isize))
    } else if c == 'p' {
        Some(Action::File(-1isize))
    } else if c == 'f' {
        Some(Action::ToggleFollow)
    } else if c == 'm' {
        Some(Action::ToggleMasthead)
    } else if c == 'r' {
        Some(Action::ToggleRail)
    } else if c == 's' {
        Some(Action::ToggleSingle)
    } else if c == 'a' {
        Some(Action::ToggleStaged)
    } else if c == 'w' {
        Some(Action::ToggleWrap)
    } else if c == '?' {
        Some(Action::ToggleSheet)
    } else {
        None
    }
}

/// What a character key means on its own.
fn letter_action(c: char) -> (r: Option<Action>)
    ensures
        r == spec_letter_action(c),
{
    match c {
        'q' => Some(Action::Quit),
        'j' => Some(Action::Scroll(1)),
        'k' => Some(Action::Scroll(-1)),
        // Shift is the modifier because `Ctrl-J` is LF and Alt is taken.
        'J' => Some(Action::ScrollList(1)),
        'K' => Some(Action::ScrollList(-1)),
        ' ' => Some(Action::Page(1)),
        // `less`'s own half-page pair.
        'd' => Some(Action::HalfPage(1)),
        'u' => Some(Action::HalfPage(-1)),
        'g' => Some(Action::Top),
        'G' => Some(Action::Bottom),
        // The file granularity, with the arrows as aliases.
        'n' => Some(Action::File(1)),
        'p' => Some(Action::File(-1)),
        'f' => Some(Action::ToggleFollow),
        'm' => Some(Action::ToggleMasthead),
        'r' => Some(Action::ToggleRail),
        's' => Some(Action::ToggleSingle),
        'a' => Some(Action::ToggleStaged),
        'w' => Some(Action::ToggleWrap),
        // `?` and nothing else.
        '?' => Some(Action::ToggleSheet),
        _ => None,
    }
}

/// The list row a digit names, counting from zero where a reader counts from one.
fn row_of(digit: char) -> (r: u16)
    requires
        spec_list_digit(digit),
    ensures
        r == spec_row_of(digit),
{
    ((digit as u32) - ('1' as u32)) as u16
}

/// It takes the key and nothing else, and that is what makes "not a mode"
/// structural rather than a claim.
fn key_action(key: &KeyEvent) -> (r: Option<Action>)
    ensures
        r == spec_key_action(*key),
{
    // Windows reports press *and* release; acting on both would double every
    // keystroke on one platform and not the other.
    if key.kind == KeyKind::Release {
        return None;
    }
    if key.modifiers.control {
        return match key.code {
            // Ctrl-C is handled here rather than by a signal handler.
            KeyCode::Char('c') | KeyCode::Char('d') => Some(Action::Quit),
            _ => None,
        };
    }
    // Before the plain arrow arms, or `Shift-↓` falls through to a diff scroll.
    if key.modifiers.shift {
        match key.code {
            KeyCode::Down => return Some(Action::ScrollList(1)),
            KeyCode::Up => return Some(Action::ScrollList(-1)),
            _ => {},
        }
    }
    match key.code {
        KeyCode::Char(c) => if '1' <= c && c <= '6' {
            // The digits address the drawn window, and there are six of them.
            Some(Action::ListRow(row_of(c)))
        } else {
            letter_action(c)
        },
        KeyCode::Esc => Some(Action::Escape),
        KeyCode::Down => Some(Action::Scroll(1)),
        KeyCode::Up => Some(Action::Scroll(-1)),
        KeyCode::PageDown => Some(Action::Page(1)),
        KeyCode::PageUp => Some(Action::Page(-1)),
        KeyCode::Home => Some(Action::Top),
        KeyCode::End => Some(Action::Bottom),
        KeyCode::Right => Some(Action::File(1)),
        KeyCode::Left => Some(Action::File(-1)),
        _ => None,
    }
}

/// What one pointer event means.
pub open spec fn spec_mouse_action(mouse: MouseEvent, regions: Regions) -> Option<Action> {
    let (column, row) = (mouse.column, mouse.row);
    if regions.spec_under_sheet(column, row) {
        if mouse.kind == MouseKind::Down(Button::Left) && column == regions.sheet.unwrap().close.column && row == regions.sheet.unwrap().close.row {
            Some(Action::CloseSheet)
        } else {
            None
        }
    } else if (regions.list.spec_on_bar(column, row) || regions.diff.spec_on_bar(column, row))
        && (mouse.kind == MouseKind::Down(Button::Left) || mouse.kind == MouseKind::Drag(
        Button::Left,
    )) {
        if mouse.kind == MouseKind::Down(Button::Left) && regions.spec_step_at(
            column,
            row,
        ).is_some() {
            regions.spec_step_at(column, row)
        } else if regions.list.bar == Some(column) && regions.list.spec_along(row).is_some() {
            Some(Action::ListTo(regions.list.spec_along(row).unwrap()))
        } else if regions.diff.bar == Some(column) && regions.diff.spec_along(row).is_some() {
            Some(Action::DiffTo(regions.diff.spec_along(row).unwrap()))
        } else {
            None
        }
    } else {
        let over_list = regions.list.spec_covers(column, row);
        match mouse.kind {
            MouseKind::ScrollDown => if over_list {
                Some(Action::ScrollList(1isize))
            } else {
                Some(Action::Scroll(WHEEL_ROWS))
            },
            MouseKind::ScrollUp => if over_list {
                Some(Action::ScrollList(-1isize))
            } else {
                Some(Action::Scroll((-WHEEL_ROWS) as isize))
            },
            MouseKind::Down(Button::Left) => if over_list {
                Some(Action::ListRow((row - regions.list.top) as u16))
            } else {
                None
            },
            _ => None,
        }
    }
}

/// What a pointer event means, given where everything is.
fn mouse_action(mouse: &MouseEvent, regions: Regions) -> (r: Option<Action>)
    ensures
        r == spec_mouse_action(*mouse, regions),
{
    let (column, row) = (mouse.column, mouse.row);
    // The sheet is checked before everything, because it is drawn over
    // everything: the close control dismisses, and anything else does nothing.
    if let Some(sheet) = regions.sheet {
        if sheet.covers(column, row) {
            return if mouse.kind == MouseKind::Down(Button::Left) && column == sheet.close.column
                && row == sheet.close.row {
                Some(Action::CloseSheet)
            } else {
                None
            };
        }
    }
    // The bar before the region it sits in: the same column is inside whichever
    // region drew it, so testing the region first would turn every drag into a
    // wheel.
    let on_bar = regions.list.on_bar(column, row) || regions.diff.on_bar(column, row);
    let pressed = mouse.kind == MouseKind::Down(Button::Left);
    let dragged = mouse.kind == MouseKind::Drag(Button::Left);
    if on_bar && (pressed || dragged) {
        // A step button answers a press and not a drag.
        if pressed {
            let step = regions.step_at(column, row);
            if step.is_some() {
                return step;
            }
        }
        // The track, not the region, so a stepped bar seeks from the rows its
        // thumb actually occupies.
        if regions.list.bar == Some(column) {
            if let Some(at) = regions.list.along(row) {
                return Some(Action::ListTo(at));
            }
        }
        if regions.diff.bar == Some(column) {
            if let Some(at) = regions.diff.along(row) {
                return Some(Action::DiffTo(at));
            }
        }
        return None;
    }
    let over_list = regions.over_list(column, row);
    match mouse.kind {
        // The wheel scrolls whatever it is over.
        MouseKind::ScrollDown => if over_list {
            Some(Action::ScrollList(1))
        } else {
            Some(Action::Scroll(WHEEL_ROWS))
        },
        MouseKind::ScrollUp => if over_list {
            Some(Action::ScrollList(-1))
        } else {
            Some(Action::Scroll(-WHEEL_ROWS))
        },
        // A click on a listed file sends the diff to it, as an offset into the
        // window; the app owns where the window is.
        MouseKind::Down(Button::Left) => if over_list {
            Some(Action::ListRow(row - regions.list.top))
        } else {
            None
        },
        // Horizontal wheels exist and lines do not pan.
        _ => None,
    }
}

/// What one terminal event means.
pub open spec fn spec_action_for(event: Event, regions: Regions) -> Option<Action> {
    match event {
        Event::Key(key) => spec_key_action(key),
        Event::Mouse(mouse) => spec_mouse_action(mouse, regions),
        Event::Resize(_, _) => Some(Action::Redraw),
        _ => None,
    }
}

/// The intention behind one terminal event, or `None` if there was not one.
pub fn action_for(event: &Event, regions: Regions) -> (r: Option<Action>)
    ensures
        r == spec_action_for(*event, regions),
{
    match event {
        Event::Key(key) => key_action(key),
        Event::Mouse(mouse) => mouse_action(mouse, regions),
        // A resize changes what fits, so the frame has to be rebuilt.
        Event::Resize(_, _) => Some(Action::Redraw),
        _ => None,
    }
}

/// Every press of a step button on a bar that has one moves its own region one
/// row, toward the end the button is drawn at.
pub proof fn law_a_step_moves_its_region_one_row(regions: Regions, column: u16, row: u16)
    requires
        regions.spec_step_at(column, row).is_some(),
    ensures
        regions.spec_step_at(column, row) matches Some(a) && (a == Action::Scroll(-1isize) || a
            == Action::Scroll(1) || a == Action::ScrollList(-1isize) || a == Action::ScrollList(1)),
{
}

/// A press that lands on the gestures sheet reaches nothing under it: it closes
/// the sheet on the close cell and does nothing anywhere else.
pub proof fn law_the_sheet_swallows_presses(mouse: MouseEvent, regions: Regions)
    requires
        regions.spec_under_sheet(mouse.column, mouse.row),
    ensures
        spec_mouse_action(mouse, regions) is None || spec_mouse_action(mouse, regions) == Some(
            Action::CloseSheet,
        ),
        regions.spec_grab_at(mouse.column, mouse.row) is None,
        regions.spec_step_at(mouse.column, mouse.row) is None,
        !regions.spec_selectable(mouse.column, mouse.row),
{
}

/// A region's bar being scrolled by the keys, and which way.
#[derive(Debug, Clone, Copy, PartialEq, Eq, Structural)]
pub struct Scrolling {
    /// Whose bar.
    pub region: Grabbed,
    /// Which way: negative is up.
    pub by: isize,
}

/// What the pointer is doing this frame, as one value.
#[derive(Debug, Clone, Copy, PartialEq, Eq, Structural)]
pub struct Pointing {
    /// The cell a step button is being held down on.
    pub pressed: Option<Cell>,
    /// Which region's bar is being dragged.
    pub gripped: Option<Grabbed>,
    /// What the pointer is resting on, when it is on something a click acts on.
    pub hovered: Option<Hovered>,
    /// Which bar the keys are scrolling, and which way.
    pub scrolling: Option<Scrolling>,
    /// The rows a drag has selected, when any are.
    pub selected: Option<Selection>,
}

impl Default for Pointing {
    /// Nothing pressed, gripped, hovered, scrolled or selected.
    fn default() -> (r: Self)
        ensures
            r == (Pointing { pressed: None, gripped: None, hovered: None, scrolling: None, selected: None }),
    {
        Pointing { pressed: None, gripped: None, hovered: None, scrolling: None, selected: None }
    }
}

/// The key `code` pressed with `m` held, as an event.
pub open spec fn key_event(code: KeyCode, m: Modifiers, kind: KeyKind) -> Event {
    Event::Key(KeyEvent { code, modifiers: m, kind })
}

/// The letters are the arrows and the paging keys by other names: `j` is
/// the down arrow and moves the diff one row down, `k` the up arrow and one
/// row up, `n` and `p` the right and left arrows a file on and back, `g`
/// and `G` Home and End.
pub proof fn law_the_letters_are_the_arrows(m: Modifiers, kind: KeyKind, regions: Regions)
    requires
        kind != KeyKind::Release,
        !m.control,
        !m.shift,
    ensures
        spec_action_for(key_event(KeyCode::Char('j'), m, kind), regions) == spec_action_for(
            key_event(KeyCode::Down, m, kind),
            regions,
        ),
        spec_action_for(key_event(KeyCode::Down, m, kind), regions) == Some(Action::Scroll(1isize)),
        spec_action_for(key_event(KeyCode::Char('k'), m, kind), regions) == spec_action_for(
            key_event(KeyCode::Up, m, kind),
            regions,
        ),
        spec_action_for(key_event(KeyCode::Up, m, kind), regions) == Some(Action::Scroll(-1isize)),
        spec_action_for(key_event(KeyCode::Char('n'), m, kind), regions) == spec_action_for(
            key_event(KeyCode::Right, m, kind),
            regions,
        ),
        spec_action_for(key_event(KeyCode::Right, m, kind), regions) == Some(Action::File(1isize)),
        spec_action_for(key_event(KeyCode::Char('p'), m, kind), regions) == spec_action_for(
            key_event(KeyCode::Left, m, kind),
            regions,
        ),
        spec_action_for(key_event(KeyCode::Left, m, kind), regions) == Some(Action::File(-1isize)),
        spec_action_for(key_event(KeyCode::Char('g'), m, kind), regions) == spec_action_for(
            key_event(KeyCode::Home, m, kind),
            regions,
        ),
        spec_action_for(key_event(KeyCode::Home, m, kind), regions) == Some(Action::Top),
        spec_action_for(key_event(KeyCode::Char('G'), m, kind), regions) == spec_action_for(
            key_event(KeyCode::End, m, kind),
            regions,
        ),
        spec_action_for(key_event(KeyCode::End, m, kind), regions) == Some(Action::Bottom),
{
}

/// A left drag carries on the selection it continues: the press's row stays
/// its anchor, and its head is the row the pointer reached, wherever that is
/// within the diff. With no selection to continue, a drag starts none.
pub proof fn law_a_drag_extends_the_selection(regions: Regions, had: Option<Selection>, column: u16, row: u16)
    ensures
        ({
            let drag = Event::Mouse(MouseEvent { kind: MouseKind::Drag(Button::Left), column, row });
            let after = spec_selection_after(drag, regions, had);
            &&& had is None ==> after is None
            &&& had matches Some(h) ==> (after matches Some(s) && s.anchor == h.anchor && regions.diff.top
                <= s.head && (regions.diff.top <= row < regions.diff.top + regions.diff.rows ==> s.head
                == row))
        }),
{
}

/// Pressing on a row of the diff and dragging to another selects from the
/// one to the other: the rows between are the selection's, in either order.
pub proof fn law_press_then_drag_selects_between(regions: Regions, column: u16, from: u16, to_column: u16, to: u16)
    requires
        regions.spec_selectable(column, from),
        regions.diff.top <= to < regions.diff.top + regions.diff.rows,
    ensures
        ({
            let press = Event::Mouse(MouseEvent { kind: MouseKind::Down(Button::Left), column, row: from });
            let drag = Event::Mouse(MouseEvent { kind: MouseKind::Drag(Button::Left), column: to_column, row: to });
            spec_selection_after(drag, regions, spec_selection_after(press, regions, None)) == Some(
                Selection { anchor: from, head: to },
            )
        }),
{
}

/// The rest of the keyboard's vocabulary, each key against its pair: `J`
/// and `K` are Shift with the arrows and scroll the list, the space bar is
/// Page Down, `d` and `u` move half a page down and up, `q` leaves and
/// Escape puts away; a key let go means nothing, and Control means nothing
/// but Control-C and Control-D, which both leave.
pub proof fn law_the_keys_pair_up(m: Modifiers, kind: KeyKind, regions: Regions)
    requires
        kind != KeyKind::Release,
        !m.control,
        !m.shift,
    ensures
        spec_action_for(key_event(KeyCode::Char('J'), m, kind), regions) == spec_action_for(
            key_event(KeyCode::Down, Modifiers { shift: true, ..m }, kind),
            regions,
        ),
        spec_action_for(key_event(KeyCode::Char('J'), m, kind), regions) == Some(Action::ScrollList(1isize)),
        spec_action_for(key_event(KeyCode::Char('K'), m, kind), regions) == spec_action_for(
            key_event(KeyCode::Up, Modifiers { shift: true, ..m }, kind),
            regions,
        ),
        spec_action_for(key_event(KeyCode::Char('K'), m, kind), regions) == Some(Action::ScrollList(-1isize)),
        spec_action_for(key_event(KeyCode::Char(' '), m, kind), regions) == spec_action_for(
            key_event(KeyCode::PageDown, m, kind),
            regions,
        ),
        spec_action_for(key_event(KeyCode::PageDown, m, kind), regions) == Some(Action::Page(1isize)),
        spec_action_for(key_event(KeyCode::PageUp, m, kind), regions) == Some(Action::Page(-1isize)),
        spec_action_for(key_event(KeyCode::Char('d'), m, kind), regions) == Some(Action::HalfPage(1isize)),
        spec_action_for(key_event(KeyCode::Char('u'), m, kind), regions) == Some(Action::HalfPage(-1isize)),
        spec_action_for(key_event(KeyCode::Char('q'), m, kind), regions) == Some(Action::Quit),
        spec_action_for(key_event(KeyCode::Char('c'), Modifiers { control: true, ..m }, kind), regions)
            == Some(Action::Quit),
        spec_action_for(key_event(KeyCode::Char('d'), Modifiers { control: true, ..m }, kind), regions)
            == Some(Action::Quit),
        spec_action_for(key_event(KeyCode::Char('j'), Modifiers { control: true, ..m }, kind), regions)
            is None,
        spec_action_for(key_event(KeyCode::Esc, m, kind), regions) == Some(Action::Escape),
        forall|code: KeyCode|
            spec_action_for(#[trigger] key_event(code, m, KeyKind::Release), regions) is None,
{
}

} // verus!
