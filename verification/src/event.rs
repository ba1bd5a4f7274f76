//! The terminal events the pane answers, held as plain values.
//!
//! Only what the decisions read is kept: which key, which modifiers, which
//! button and where. Whoever owns the terminal turns its own events into these.

use vstd::prelude::*;

verus! {

/// Which key a key event names.
#[derive(Debug, Clone, Copy, PartialEq, Eq, Structural)]
pub enum KeyCode {
    /// A character key.
    Char(char),
    /// Escape.
    Esc,
    /// Return.
    Enter,
    /// Arrow up.
    Up,
    /// Arrow down.
    Down,
    /// Arrow left.
    Left,
    /// Arrow right.
    Right,
    /// Page up.
    PageUp,
    /// Page down.
    PageDown,
    /// Home.
    Home,
    /// End.
    End,
    /// Backspace.
    Backspace,
    /// Any key nothing here binds.
    Other,
}

/// Which modifiers were held, of the ones any decision looks at.
#[derive(Debug, Clone, Copy, PartialEq, Eq, Structural)]
pub struct Modifiers {
    /// Shift.
    pub shift: bool,
    /// Control.
    pub control: bool,
    /// Alt, or Option.
    pub alt: bool,
}

impl Modifiers {
    /// No modifier at all.
    pub fn none() -> (m: Self)
        ensures
            !m.shift && !m.control && !m.alt,
    {
        Modifiers { shift: false, control: false, alt: false }
    }
}

/// Whether a key went down, repeated, or came up.
#[derive(Debug, Clone, Copy, PartialEq, Eq, Structural)]
pub enum KeyKind {
    /// Pressed.
    Press,
    /// Held, repeating.
    Repeat,
    /// Released, which only some platforms report.
    Release,
}

/// A key event.
#[derive(Debug, Clone, Copy, PartialEq, Eq, Structural)]
pub struct KeyEvent {
    /// The key.
    pub code: KeyCode,
    /// What was held with it.
    pub modifiers: Modifiers,
    /// Press, repeat or release.
    pub kind: KeyKind,
}

/// A mouse button.
#[derive(Debug, Clone, Copy, PartialEq, Eq, Structural)]
pub enum Button {
    /// The primary button.
    Left,
    /// The secondary button.
    Right,
    /// The wheel's button.
    Middle,
}

/// What a mouse event did.
#[derive(Debug, Clone, Copy, PartialEq, Eq, Structural)]
pub enum MouseKind {
    /// A button went down.
    Down(Button),
    /// A button came up.
    Up(Button),
    /// The pointer moved with a button down.
    Drag(Button),
    /// The pointer moved with nothing down.
    Moved,
    /// The wheel turned toward the reader.
    ScrollDown,
    /// The wheel turned away.
    ScrollUp,
    /// A horizontal wheel, left.
    ScrollLeft,
    /// A horizontal wheel, right.
    ScrollRight,
}

/// A mouse event, at a cell of the pane.
#[derive(Debug, Clone, Copy, PartialEq, Eq, Structural)]
pub struct MouseEvent {
    /// What happened.
    pub kind: MouseKind,
    /// The cell's column.
    pub column: u16,
    /// The cell's row.
    pub row: u16,
}

/// One terminal event.
#[derive(Debug, Clone, Copy, PartialEq, Eq, Structural)]
pub enum Event {
    /// The window took focus.
    FocusGained,
    /// The window lost focus.
    FocusLost,
    /// A key.
    Key(KeyEvent),
    /// The pointer.
    Mouse(MouseEvent),
    /// Text was pasted; what it said is the box's business.
    Paste,
    /// The pane took a new size, columns then rows.
    Resize(u16, u16),
}

} // verus!
