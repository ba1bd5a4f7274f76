//! The places the pane can stand, drawn as a list behind the header's token.

use vstd::prelude::*;

use crate::event::{Button, Event, KeyCode, KeyEvent, KeyKind, MouseEvent, MouseKind};
use crate::input::{sat_add16, sat_sub, Sheet};
use crate::menu::spec_window;

verus! {

/// One drawn row of the list.
#[derive(Debug, Clone, Copy, PartialEq, Eq, Structural)]
pub enum Row {
    /// The live pane, which is the working tree against the index.
    Current,
    /// The branch point, named by the branch rather than by an id.
    Point,
    /// A commit, by its index into the history walked so far.
    Commit(usize),
}

/// What the two named rows draw beside themselves.
#[derive(Debug, Clone, Copy, Default, PartialEq, Eq, Structural)]
pub struct Facts {
    /// Changes the run holds.
    pub files: usize,
    /// Lines its working-tree side adds.
    pub added: u32,
    /// Lines its other side loses.
    pub removed: u32,
}

/// The history the shell has walked, and what the named rows say. A commit
/// is whatever the repository hands back for one, carried and never read.
#[derive(Debug, Clone, Default, PartialEq, Eq)]
pub struct Places<L> {
    /// The commits walked so far, newest first.
    pub commits: Vec<L>,
    /// Whether there is history behind the last of them.
    pub more: bool,
    /// What the live pane holds.
    pub current: Option<Facts>,
    /// What everything since the branch point holds, and what to call it.
    /// `None` on a branch with no point to measure from, where the row is not
    /// drawn.
    pub point: Option<(String, Option<Facts>)>,
}

impl<L> Places<L> {
    /// How many rows the list draws.
    pub open spec fn spec_len(&self) -> int {
        1 + (if self.point.is_some() {
            1int
        } else {
            0int
        }) + self.commits@.len()
    }

    /// The row drawn `at` rows down the list.
    pub open spec fn spec_row(&self, at: int) -> Row {
        let named = if self.point.is_some() {
            2int
        } else {
            1int
        };
        if at == 0 {
            Row::Current
        } else if at == 1 && self.point.is_some() {
            Row::Point
        } else {
            Row::Commit((at - named) as usize)
        }
    }

    /// Every row the list draws, top to bottom.
    pub fn rows(&self) -> (r: Vec<Row>)
        requires
            self.commits@.len() + 2 <= usize::MAX,
        ensures
            r@.len() == self.spec_len(),
            forall|i: int| 0 <= i < r@.len() ==> r@[i] == self.spec_row(i),
    {
        let mut out: Vec<Row> = Vec::new();
        out.push(Row::Current);
        if self.point.is_some() {
            out.push(Row::Point);
        }
        let named = out.len();
        let mut at: usize = 0;
        while at < self.commits.len()
            invariant
                at <= self.commits@.len(),
                named == (if self.point.is_some() {
                    2int
                } else {
                    1int
                }),
                out@.len() == named + at,
                forall|i: int| 0 <= i < out@.len() ==> out@[i] == self.spec_row(i),
            decreases self.commits@.len() - at,
        {
            out.push(Row::Commit(at));
            at += 1;
        }
        out
    }

    /// How many rows there are, without building them.
    pub fn len(&self) -> (r: usize)
        requires
            self.commits@.len() + 2 <= usize::MAX,
        ensures
            r == self.spec_len(),
    {
        1 + if self.point.is_some() {
            1
        } else {
            0
        } + self.commits.len()
    }

    /// Whether there is nothing to draw, which never happens: `current` is
    /// always a row.
    pub fn is_empty(&self) -> (r: bool)
        requires
            self.commits@.len() + 2 <= usize::MAX,
        ensures
            !r,
    {
        self.len() == 0
    }

    /// The standing `row` names, or `None` for the two named rows, which only
    /// the repository can resolve.
    pub fn commit_at(&self, row: Row) -> (r: Option<&L>)
        ensures
            r == (match row {
                Row::Commit(at) => if at < self.commits@.len() {
                    Some(&self.commits@[at as int])
                } else {
                    None
                },
                _ => None,
            }),
    {
        match row {
            Row::Commit(at) => if at < self.commits.len() {
                Some(&self.commits[at])
            } else {
                None
            },
            Row::Current | Row::Point => None,
        }
    }
}

/// Whether the caret has come close enough to the end of the walk to extend it:
/// one row of margin, which is all a caret moving a row at a time needs.
pub fn wants_more<L>(caret: Caret, places: &Places<L>) -> (r: bool)
    requires
        places.commits@.len() + 2 <= usize::MAX,
    ensures
        r == (places.more && caret.at + 2 >= places.spec_len()),
{
    places.more && caret.at as u128 + 2 >= places.len() as u128
}

/// Where the reader is inside the list.
#[derive(Debug, Clone, Copy, Default, PartialEq, Eq, Structural)]
pub struct Caret {
    /// The row it is on.
    pub at: usize,
    /// The first row the window shows.
    pub top: usize,
}

impl Caret {
    /// The window's first row, clamped so the caret is always drawn.
    pub fn window(self, rows: usize, of: usize) -> (r: usize)
        ensures
            r == spec_window(self.at as int, self.top as int, rows as int, of as int),
            0 < rows < of && self.at < of ==> r <= self.at < r + rows,
    {
        if rows == 0 || rows >= of {
            return 0;
        }
        let top = if self.top < of - rows {
            self.top
        } else {
            of - rows
        };
        if self.at < top {
            self.at
        } else if self.at >= top + rows {
            self.at - rows + 1
        } else {
            top
        }
    }

    /// Where `by` rows from here lands. Every row is selectable, so this is a
    /// clamped step; the ends clamp rather than wrap.
    pub fn stepped(self, by: isize, of: usize) -> (r: usize)
        ensures
            r == (if by >= 0 {
                let last = sat_sub(of as int, 1);
                let moved = self.at + by;
                let moved = if moved > usize::MAX {
                    usize::MAX as int
                } else {
                    moved
                };
                if moved < last {
                    moved
                } else {
                    last
                }
            } else {
                sat_sub(self.at as int, -(by as int))
            }),
    {
        let last = if of > 0 {
            of - 1
        } else {
            0
        };
        if by >= 0 {
            let up = by as usize;
            let moved = if self.at > usize::MAX - up {
                usize::MAX
            } else {
                self.at + up
            };
            if moved < last {
                moved
            } else {
                last
            }
        } else {
            let down: u128 = (-(by as i128)) as u128;
            if (self.at as u128) > down {
                (self.at as u128 - down) as usize
            } else {
                0
            }
        }
    }
}

/// The list as one frame draws it.
#[derive(Debug, Clone, PartialEq, Eq)]
pub struct Positions<L> {
    /// Where the reader is inside it.
    pub caret: Caret,
    /// What the rows say.
    pub places: Places<L>,
}

/// What one terminal event means while the list is open.
#[derive(Debug, Clone, Copy, PartialEq, Eq, Structural)]
pub enum PositionsRoute {
    /// Move the caret by this many rows, negative for up.
    Move(isize),
    /// Stand where the caret is.
    Pick,
    /// Stand where the row this many rows down the drawn window is.
    Row(u16),
    /// Put the list away and do nothing else with the event.
    Close,
    /// The list's own, and it means nothing.
    Inert,
    /// Not the list's to answer.
    Through,
}

/// Rows the frame and the air inside it cost, top and bottom.
pub const POSITIONS_FRAME: usize = 4;

/// The drawn row a screen row falls on, counted from the window's top.
pub open spec fn spec_row_at(over: Sheet, row: u16) -> Option<u16> {
    let first = sat_add16(over.top, 2);
    let rows = sat_sub(over.height as int, POSITIONS_FRAME as int);
    if row >= first && row - first < rows {
        Some((row - first) as u16)
    } else {
        None
    }
}

/// The drawn row a screen row falls on, counted from the top of the window.
pub fn row_at(over: Sheet, row: u16) -> (r: Option<u16>)
    ensures
        r == spec_row_at(over, row),
{
    over.row_at(row)
}

/// What a key means while the list is open.
pub open spec fn spec_key_route(key: KeyEvent, drawn: bool) -> PositionsRoute {
    if key.kind == KeyKind::Release {
        PositionsRoute::Inert
    } else if key.modifiers.shift || key.modifiers.control {
        PositionsRoute::Through
    } else if key.code == KeyCode::Esc {
        PositionsRoute::Close
    } else if !drawn {
        PositionsRoute::Through
    } else {
        match key.code {
            KeyCode::Down => PositionsRoute::Move(1),
            KeyCode::Up => PositionsRoute::Move(-1isize),
            KeyCode::Char(' ') | KeyCode::Enter => PositionsRoute::Pick,
            _ => PositionsRoute::Through,
        }
    }
}

/// What a pointer event means while the list is drawn over `over`.
pub open spec fn spec_mouse_route(mouse: MouseEvent, over: Option<Sheet>) -> PositionsRoute {
    match over {
        None => PositionsRoute::Through,
        Some(over) => {
            let inside = over.spec_covers(mouse.column, mouse.row);
            match mouse.kind {
                MouseKind::Down(b) => if b == Button::Left && inside {
                    if mouse.column == over.close.column && mouse.row == over.close.row {
                        PositionsRoute::Close
                    } else {
                        match spec_row_at(over, mouse.row) {
                            Some(row) => PositionsRoute::Row(row),
                            None => PositionsRoute::Inert,
                        }
                    }
                } else if !inside {
                    PositionsRoute::Close
                } else {
                    PositionsRoute::Through
                },
                _ => PositionsRoute::Through,
            }
        },
    }
}

/// Where an event goes while the list is drawn over `over`.
pub open spec fn spec_positions_route(event: Event, over: Option<Sheet>) -> PositionsRoute {
    match event {
        Event::Key(key) => spec_key_route(key, over.is_some()),
        Event::Mouse(mouse) => spec_mouse_route(mouse, over),
        _ => PositionsRoute::Through,
    }
}

/// Where `event` goes while the list is drawn over `over`. A press outside it
/// closes it.
pub fn positions_route(event: &Event, over: Option<Sheet>) -> (r: PositionsRoute)
    ensures
        r == spec_positions_route(*event, over),
{
    match event {
        Event::Key(key) => key_route(key, over.is_some()),
        Event::Mouse(mouse) => mouse_route(mouse, over),
        _ => PositionsRoute::Through,
    }
}

/// The four keys the mode owns, and everything else passing through.
fn key_route(key: &KeyEvent, drawn: bool) -> (r: PositionsRoute)
    ensures
        r == spec_key_route(*key, drawn),
{
    if key.kind == KeyKind::Release {
        return PositionsRoute::Inert;
    }
    // Shift-arrows scroll the pinned list, and that keeps working.
    if key.modifiers.shift || key.modifiers.control {
        return PositionsRoute::Through;
    }
    if key.code == KeyCode::Esc {
        return PositionsRoute::Close;
    }
    if !drawn {
        return PositionsRoute::Through;
    }
    match key.code {
        KeyCode::Down => PositionsRoute::Move(1),
        KeyCode::Up => PositionsRoute::Move(-1),
        KeyCode::Char(' ') | KeyCode::Enter => PositionsRoute::Pick,
        _ => PositionsRoute::Through,
    }
}

/// A press inside the box is the box's; anywhere else closes it.
fn mouse_route(mouse: &MouseEvent, over: Option<Sheet>) -> (r: PositionsRoute)
    ensures
        r == spec_mouse_route(*mouse, over),
{
    let over = match over {
        Some(over) => over,
        None => return PositionsRoute::Through,
    };
    let inside = over.covers(mouse.column, mouse.row);
    match mouse.kind {
        MouseKind::Down(b) => if b == Button::Left && inside {
            if mouse.column == over.close.column && mouse.row == over.close.row {
                return PositionsRoute::Close;
            }
            match row_at(over, mouse.row) {
                Some(row) => PositionsRoute::Row(row),
                None => PositionsRoute::Inert,
            }
        } else if !inside {
            PositionsRoute::Close
        } else {
            PositionsRoute::Through
        },
        _ => PositionsRoute::Through,
    }
}

} // verus!
