//! The pane's own settings, drawn where a reader can see them.

use vstd::prelude::*;

use crate::event::{Button, Event, KeyCode, KeyEvent, KeyKind, MouseEvent, MouseKind};
use crate::input::{Action, Sheet};

verus! {

/// One toggle the menu draws.
///
/// Each variant carries both the label and the action that flips it, so the row
/// a reader clicks and the key they could press instead cannot come apart.
#[derive(Debug, Clone, Copy, PartialEq, Eq, Structural)]
pub enum Setting {
    /// `f`.
    Follow,
    /// `r`.
    Rail,
    /// `s`.
    Single,
    /// `o`.
    Overview,
    /// `a`.
    Staged,
    /// `w`.
    Wrap,
    /// `c`.
    Notes,
    /// No key; the config file alone.
    Icons,
    /// No key either.
    Links,
    /// Write what the reader flips back into the file.
    Persist,
}

/// Every toggle, in the order the menu draws them.
pub const SETTINGS: [Setting; 10] = [
    Setting::Follow,
    Setting::Rail,
    Setting::Single,
    Setting::Overview,
    Setting::Staged,
    Setting::Wrap,
    Setting::Notes,
    Setting::Icons,
    Setting::Links,
    Setting::Persist,
];

/// What the state cell spells when a setting is on.
pub const ON: &'static str = "on";

/// And when it is off.
pub const OFF: &'static str = "off";

/// Columns the state cell always takes, whichever word is in it.
pub const STATE_WIDTH: usize = 3;

/// Rows the menu's frame and the air inside it cost, top and bottom.
pub const MENU_FRAME: usize = 4;

impl Setting {
    /// The action that flips it.
    pub open spec fn spec_action(self) -> Action {
        match self {
            Setting::Follow => Action::ToggleFollow,
            Setting::Rail => Action::ToggleRail,
            Setting::Single => Action::ToggleSingle,
            Setting::Overview => Action::ToggleOverview,
            Setting::Staged => Action::ToggleStaged,
            Setting::Wrap => Action::ToggleWrap,
            Setting::Notes => Action::ToggleNotes,
            Setting::Icons => Action::ToggleIcons,
            Setting::Links => Action::ToggleLinks,
            Setting::Persist => Action::TogglePersist,
        }
    }

    /// Where it stands in `settings`.
    pub open spec fn spec_of(self, settings: Settings) -> bool {
        match self {
            Setting::Follow => settings.follow,
            Setting::Rail => settings.rail,
            Setting::Single => settings.single,
            Setting::Overview => settings.overview,
            Setting::Staged => settings.staged,
            Setting::Wrap => settings.wrap,
            Setting::Notes => settings.notes,
            Setting::Icons => settings.icons,
            Setting::Links => settings.links,
            Setting::Persist => settings.persist,
        }
    }

    /// What the row spells.
    pub fn label(self) -> (r: &'static str)
        ensures
            r@ == (match self {
                Setting::Follow => "follow the newest change"@,
                Setting::Rail => "left rail"@,
                Setting::Single => "one file only"@,
                Setting::Overview => "the file list alone"@,
                Setting::Staged => "staged changes"@,
                Setting::Wrap => "wrap long lines"@,
                Setting::Notes => "the note rows"@,
                Setting::Icons => "file icons"@,
                Setting::Links => "path links"@,
                Setting::Persist => "remember between runs"@,
            }),
    {
        match self {
            Self::Follow => "follow the newest change",
            Self::Rail => "left rail",
            Self::Single => "one file only",
            Self::Overview => "the file list alone",
            Self::Staged => "staged changes",
            Self::Wrap => "wrap long lines",
            Self::Notes => "the note rows",
            Self::Icons => "file icons",
            Self::Links => "path links",
            Self::Persist => "remember between runs",
        }
    }

    /// The action that flips it, which is the same action its key sends.
    pub fn action(self) -> (r: Action)
        ensures
            r == self.spec_action(),
    {
        match self {
            Self::Follow => Action::ToggleFollow,
            Self::Rail => Action::ToggleRail,
            Self::Single => Action::ToggleSingle,
            Self::Overview => Action::ToggleOverview,
            Self::Staged => Action::ToggleStaged,
            Self::Wrap => Action::ToggleWrap,
            Self::Notes => Action::ToggleNotes,
            Self::Icons => Action::ToggleIcons,
            Self::Links => Action::ToggleLinks,
            Self::Persist => Action::TogglePersist,
        }
    }

    /// Where it stands right now.
    pub fn of(self, settings: Settings) -> (r: bool)
        ensures
            r == self.spec_of(settings),
    {
        match self {
            Self::Follow => settings.follow,
            Self::Rail => settings.rail,
            Self::Single => settings.single,
            Self::Overview => settings.overview,
            Self::Staged => settings.staged,
            Self::Wrap => settings.wrap,
            Self::Notes => settings.notes,
            Self::Icons => settings.icons,
            Self::Links => settings.links,
            Self::Persist => settings.persist,
        }
    }
}

/// No two settings are flipped by one action, so a row and a key cannot be
/// confused for another row's.
pub proof fn law_no_two_settings_share_an_action(a: Setting, b: Setting)
    requires
        a != b,
    ensures
        a.spec_action() != b.spec_action(),
{
}

/// Every toggle the pane has, as it stands.
#[derive(Debug, Clone, Copy, Default, PartialEq, Eq, Structural)]
pub struct Settings {
    /// Whether the viewport is moving itself to what just changed.
    pub follow: bool,
    /// Whether the pinned list is beside the diff.
    pub rail: bool,
    /// Whether the diff is pinned to one file.
    pub single: bool,
    /// Whether the file list is drawn alone.
    pub overview: bool,
    /// Whether the staged run is drawn beside the unstaged one.
    pub staged: bool,
    /// Whether a long content line continues on the row below.
    pub wrap: bool,
    /// Whether the reader's notes draw their rows.
    pub notes: bool,
    /// Whether a listed path carries a file-type icon.
    pub icons: bool,
    /// Whether a listed path is an OSC 8 hyperlink.
    pub links: bool,
    /// Whether a flip is written back into the reader's own file.
    pub persist: bool,
}

/// One drawn row of the menu, in the order it draws them.
#[derive(Debug, Clone, Copy, PartialEq, Eq, Structural)]
pub enum Row {
    /// A toggle, with its state beside it.
    Toggle(Setting),
    /// Air. Drawn blank and skipped.
    Gap,
    /// The rule that separates what the pane is from what is kept.
    Rule,
    /// The one row that throws something away.
    Reset,
}

/// How many rows the menu draws.
pub const ROW_COUNT: usize = 14;

/// Row `at` of the menu, top to bottom.
pub open spec fn spec_row(at: int) -> Row {
    if at == 0 {
        Row::Toggle(Setting::Follow)
    } else if at == 1 {
        Row::Toggle(Setting::Rail)
    } else if at == 2 {
        Row::Toggle(Setting::Single)
    } else if at == 3 {
        Row::Toggle(Setting::Overview)
    } else if at == 4 {
        Row::Toggle(Setting::Staged)
    } else if at == 5 {
        Row::Toggle(Setting::Wrap)
    } else if at == 6 {
        Row::Toggle(Setting::Notes)
    } else if at == 7 {
        Row::Toggle(Setting::Icons)
    } else if at == 8 {
        Row::Toggle(Setting::Links)
    } else if at == 9 || at == 11 {
        Row::Gap
    } else if at == 10 {
        Row::Rule
    } else if at == 12 {
        Row::Toggle(Setting::Persist)
    } else {
        Row::Reset
    }
}

/// Row `at` of the menu, top to bottom: the toggles, air and a rule around the
/// remembering, then the reset.
pub fn row(at: usize) -> (r: Row)
    requires
        at < ROW_COUNT,
    ensures
        r == spec_row(at as int),
{
    match at {
        0 => Row::Toggle(Setting::Follow),
        1 => Row::Toggle(Setting::Rail),
        2 => Row::Toggle(Setting::Single),
        3 => Row::Toggle(Setting::Overview),
        4 => Row::Toggle(Setting::Staged),
        5 => Row::Toggle(Setting::Wrap),
        6 => Row::Toggle(Setting::Notes),
        7 => Row::Toggle(Setting::Icons),
        8 => Row::Toggle(Setting::Links),
        9 | 11 => Row::Gap,
        10 => Row::Rule,
        12 => Row::Toggle(Setting::Persist),
        _ => Row::Reset,
    }
}

/// What the reset row spells.
pub const RESET: &'static str = "reset to defaults";

impl Row {
    /// Whether the caret may land here.
    pub open spec fn spec_selectable(self) -> bool {
        self is Toggle || self is Reset
    }

    /// Whether the caret may land here.
    pub fn selectable(self) -> (r: bool)
        ensures
            r == self.spec_selectable(),
    {
        matches!(self, Self::Toggle(_) | Self::Reset)
    }
}

/// Whether row `at` of the menu may carry the caret.
pub open spec fn spec_selectable_at(at: int) -> bool {
    0 <= at < ROW_COUNT && spec_row(at).spec_selectable()
}

/// The first selectable row at or after `from`.
pub open spec fn spec_next_from(from: int) -> Option<int>
    decreases ROW_COUNT - from,
{
    if from < 0 || from >= ROW_COUNT {
        None
    } else if spec_selectable_at(from) {
        Some(from)
    } else {
        spec_next_from(from + 1)
    }
}

/// The last selectable row before `before`.
pub open spec fn spec_back_from(before: int) -> Option<int>
    decreases before,
{
    if before <= 0 || before > ROW_COUNT {
        None
    } else if spec_selectable_at(before - 1) {
        Some(before - 1)
    } else {
        spec_back_from(before - 1)
    }
}

/// Where one step from `at` lands, and `at` itself where there is nowhere to go.
pub open spec fn spec_step(at: int, down: bool) -> int {
    let found = if down {
        spec_next_from(at + 1)
    } else {
        spec_back_from(at)
    };
    match found {
        Some(landed) => landed,
        None => at,
    }
}

/// Where `steps` steps from `at` land.
pub open spec fn spec_steps(at: int, steps: nat, down: bool) -> int
    decreases steps,
{
    if steps == 0 {
        at
    } else {
        spec_steps(spec_step(at, down), (steps - 1) as nat, down)
    }
}

/// Where the reader is inside the menu, which is all that survives between frames.
#[derive(Debug, Clone, Copy, Default, PartialEq, Eq, Structural)]
pub struct Caret {
    /// The row it is on, as an index into the menu's rows.
    pub at: usize,
    /// The first row the window shows.
    pub top: usize,
}

/// The menu as one frame draws it.
#[derive(Debug, Clone, Copy, PartialEq, Eq, Structural)]
pub struct Menu {
    /// Where the reader is inside it.
    pub caret: Caret,
    /// What the rows say.
    pub settings: Settings,
}

/// The first row of a window of `rows` over `of` rows that keeps row `at` drawn,
/// moving as little as it can from `top`.
pub open spec fn spec_window(at: int, top: int, rows: int, of: int) -> int {
    if rows == 0 || rows >= of {
        0
    } else {
        let top = if top < of - rows {
            top
        } else {
            of - rows
        };
        if at < top {
            at
        } else if at >= top + rows {
            at + 1 - rows
        } else {
            top
        }
    }
}

/// A window that still draws the caret.
pub proof fn law_the_window_draws_the_caret(at: int, top: int, rows: int, of: int)
    requires
        0 <= at < of,
        0 <= top,
        0 < rows < of,
    ensures
        spec_window(at, top, rows, of) <= at < spec_window(at, top, rows, of) + rows,
        0 <= spec_window(at, top, rows, of) <= of - rows,
{
}

impl Caret {
    /// The window's first row, clamped so the caret is always drawn.
    pub fn window(self, rows: usize) -> (r: usize)
        requires
            self.at < ROW_COUNT,
        ensures
            r == spec_window(self.at as int, self.top as int, rows as int, ROW_COUNT as int),
            0 < rows < ROW_COUNT ==> r <= self.at < r + rows,
    {
        if rows == 0 || rows >= ROW_COUNT {
            return 0;
        }
        let top = if self.top < ROW_COUNT - rows {
            self.top
        } else {
            ROW_COUNT - rows
        };
        if self.at < top {
            self.at
        } else if self.at >= top + rows {
            self.at + 1 - rows
        } else {
            top
        }
    }

    /// Where `by` rows from here lands, skipping the rows a caret may not sit
    /// on; the ends clamp rather than wrap.
    pub fn stepped(self, by: isize) -> (r: usize)
        requires
            self.at < ROW_COUNT,
        ensures
            r == spec_steps(self.at as int, abs_of(by), by > 0),
            r < ROW_COUNT,
            spec_selectable_at(self.at as int) ==> spec_selectable_at(r as int),
    {
        let down = by > 0;
        let total: usize = unsigned_abs(by);
        let mut at = self.at;
        let mut left = total;
        while left > 0
            invariant
                at < ROW_COUNT,
                left <= total,
                spec_steps(self.at as int, abs_of(by), down) == spec_steps(
                    at as int,
                    left as nat,
                    down,
                ),
                total == abs_of(by),
                spec_selectable_at(self.at as int) ==> spec_selectable_at(at as int),
        ensures
            at < ROW_COUNT,
            spec_steps(self.at as int, abs_of(by), down) == at as int,
            spec_selectable_at(self.at as int) ==> spec_selectable_at(at as int),
            decreases left,
        {
            let landed = if down {
                next_from(at + 1)
            } else {
                back_from(at)
            };
            proof {
                if down {
                    assert(spec_step(at as int, down) == match landed {
                        Some(l) => l as int,
                        None => at as int,
                    });
                } else {
                    assert(spec_step(at as int, down) == match landed {
                        Some(l) => l as int,
                        None => at as int,
                    });
                }
                assert(spec_steps(at as int, left as nat, down) == spec_steps(
                    spec_step(at as int, down),
                    (left - 1) as nat,
                    down,
                ));
            }
            match landed {
                Some(row) => {
                    at = row;
                },
                None => {
                    proof {
                        lemma_stuck(at as int, left as nat, down);
                    }
                    break ;
                },
            }
            left = left - 1;
        }
        at
    }
}

/// Steps from a row with nowhere to go land where they started.
proof fn lemma_stuck(at: int, steps: nat, down: bool)
    requires
        spec_step(at, down) == at,
    ensures
        spec_steps(at, steps, down) == at,
    decreases steps,
{
    if steps > 0 {
        lemma_stuck(at, (steps - 1) as nat, down);
    }
}

/// The magnitude of `by`.
pub open spec fn abs_of(by: isize) -> nat {
    if by < 0 {
        (-by) as nat
    } else {
        by as nat
    }
}

/// The magnitude of `by`, as an unsigned count.
fn unsigned_abs(by: isize) -> (r: usize)
    ensures
        r == abs_of(by),
{
    if by < 0 {
        if by == isize::MIN {
            (isize::MAX as usize) + 1
        } else {
            (-by) as usize
        }
    } else {
        by as usize
    }
}

/// The first selectable row at or after `from`.
fn next_from(from: usize) -> (r: Option<usize>)
    requires
        from <= ROW_COUNT,
    ensures
        r matches Some(i) ==> spec_next_from(from as int) == Some(i as int),
        r is None ==> spec_next_from(from as int) is None,
        r matches Some(i) ==> i < ROW_COUNT && spec_selectable_at(i as int),
{
    let mut i = from;
    while i < ROW_COUNT
        invariant
            from <= i <= ROW_COUNT,
            spec_next_from(from as int) == spec_next_from(i as int),
        decreases ROW_COUNT - i,
    {
        if row(i).selectable() {
            return Some(i);
        }
        i += 1;
    }
    None
}

/// The last selectable row before `before`.
fn back_from(before: usize) -> (r: Option<usize>)
    requires
        before <= ROW_COUNT,
    ensures
        r matches Some(i) ==> spec_back_from(before as int) == Some(i as int),
        r is None ==> spec_back_from(before as int) is None,
        r matches Some(i) ==> i < ROW_COUNT && spec_selectable_at(i as int),
{
    let mut i = before;
    while i > 0
        invariant
            i <= before <= ROW_COUNT,
            spec_back_from(before as int) == spec_back_from(i as int),
        decreases i,
    {
        if row(i - 1).selectable() {
            return Some(i - 1);
        }
        i -= 1;
    }
    None
}

/// What one terminal event means while the menu is open.
#[derive(Debug, Clone, Copy, PartialEq, Eq, Structural)]
pub enum MenuRoute {
    /// Move the caret by this many rows, negative for up.
    Move(isize),
    /// Flip the row the caret is on.
    Flip,
    /// Flip the row this many rows down the drawn window.
    Row(u16),
    /// Put the menu away and do nothing else with the event.
    Close,
    /// The menu's own, and it means nothing: a press on its frame, a key's
    /// release.
    Inert,
    /// Not the menu's to answer.
    Through,
}

/// What a key means while an overlay is open: Esc closes, the bare arrows move,
/// Space and Enter choose, and everything else passes through.
pub open spec fn spec_key_route(key: KeyEvent, drawn: bool) -> MenuRoute {
    if key.kind == KeyKind::Release {
        MenuRoute::Inert
    } else if key.modifiers.shift || key.modifiers.control {
        MenuRoute::Through
    } else if key.code == KeyCode::Esc {
        MenuRoute::Close
    } else if !drawn {
        MenuRoute::Through
    } else {
        match key.code {
            KeyCode::Down => MenuRoute::Move(1),
            KeyCode::Up => MenuRoute::Move(-1isize),
            KeyCode::Char(' ') | KeyCode::Enter => MenuRoute::Flip,
            _ => MenuRoute::Through,
        }
    }
}

/// What a pointer event means while an overlay is drawn over `over`.
pub open spec fn spec_mouse_route(mouse: MouseEvent, over: Option<Sheet>) -> MenuRoute {
    match over {
        None => MenuRoute::Through,
        Some(over) => {
            let inside = over.spec_covers(mouse.column, mouse.row);
            match mouse.kind {
                MouseKind::Down(b) => if b == Button::Left && inside {
                    if mouse.column == over.close.column && mouse.row == over.close.row {
                        MenuRoute::Close
                    } else {
                        match over.spec_row_at(mouse.row) {
                            Some(row) => MenuRoute::Row(row),
                            None => MenuRoute::Inert,
                        }
                    }
                } else if !inside {
                    MenuRoute::Close
                } else {
                    MenuRoute::Through
                },
                _ => MenuRoute::Through,
            }
        },
    }
}

/// Where an event goes while the menu is drawn over `over`.
pub open spec fn spec_menu_route(event: Event, over: Option<Sheet>) -> MenuRoute {
    match event {
        Event::Key(key) => spec_key_route(key, over.is_some()),
        Event::Mouse(mouse) => spec_mouse_route(mouse, over),
        _ => MenuRoute::Through,
    }
}

/// Where `event` goes while the menu is drawn over `over`. A press outside it
/// closes it: it is an overlay over cells that are already drawn.
pub fn menu_route(event: &Event, over: Option<Sheet>) -> (r: MenuRoute)
    ensures
        r == spec_menu_route(*event, over),
{
    match event {
        Event::Key(key) => key_route(key, over.is_some()),
        Event::Mouse(mouse) => mouse_route(mouse, over),
        _ => MenuRoute::Through,
    }
}

/// The four keys the mode owns, and everything else passing through. `Esc`
/// closes either way, so the state cannot be stuck.
fn key_route(key: &KeyEvent, drawn: bool) -> (r: MenuRoute)
    ensures
        r == spec_key_route(*key, drawn),
{
    if key.kind == KeyKind::Release {
        return MenuRoute::Inert;
    }
    // The mode owns the bare arrows and not the modified ones.
    if key.modifiers.shift || key.modifiers.control {
        return MenuRoute::Through;
    }
    if key.code == KeyCode::Esc {
        return MenuRoute::Close;
    }
    if !drawn {
        return MenuRoute::Through;
    }
    match key.code {
        KeyCode::Down => MenuRoute::Move(1),
        KeyCode::Up => MenuRoute::Move(-1),
        KeyCode::Char(' ') | KeyCode::Enter => MenuRoute::Flip,
        _ => MenuRoute::Through,
    }
}

/// A press inside the box is the box's; anywhere else closes it.
fn mouse_route(mouse: &MouseEvent, over: Option<Sheet>) -> (r: MenuRoute)
    ensures
        r == spec_mouse_route(*mouse, over),
{
    let over = match over {
        Some(over) => over,
        None => return MenuRoute::Through,
    };
    let inside = over.covers(mouse.column, mouse.row);
    match mouse.kind {
        MouseKind::Down(b) => if b == Button::Left && inside {
            if mouse.column == over.close.column && mouse.row == over.close.row {
                return MenuRoute::Close;
            }
            match over.row_at(mouse.row) {
                Some(row) => MenuRoute::Row(row),
                None => MenuRoute::Inert,
            }
        } else if !inside {
            MenuRoute::Close
        } else {
            MenuRoute::Through
        },
        // The wheel passes through, so the diff still scrolls behind it.
        _ => MenuRoute::Through,
    }
}

} // verus!
