//! The pane's toggles and the three overlays that can cover its body.
//!
//! A key, a menu row or a list row lands here first. What it does to the
//! settings and to the overlays is decided here; what it asks of the diff, the
//! working tree or the repository comes back as a [`Step`] for the shell, which
//! holds those.

use vstd::prelude::*;
use crate::config::{shipped, Defaults};
use crate::input::{sat_sub, Action};
use crate::menu::{spec_selectable_at, spec_steps, spec_window, abs_of, Caret, MenuRoute, Settings, ROW_COUNT};
use crate::positions::PositionsRoute;
use crate::shell::{flip_of, flips};

verus! {

/// The settings and the overlays, which is what a key can change without the
/// shell.
#[derive(Debug, Clone, Copy, PartialEq, Eq, Structural)]
pub struct Panel {
    /// Every toggle, as it stands.
    pub settings: Settings,
    /// The gestures sheet's page, while it is drawn.
    pub sheet: Option<usize>,
    /// Pages the sheet has on the pane last drawn for.
    pub sheet_pages: usize,
    /// The config menu's caret, while the menu is drawn.
    pub menu: Option<Caret>,
    /// Rows the menu's window has on this pane.
    pub menu_rows: usize,
    /// The position list's caret, while the list is drawn.
    pub positions: Option<crate::positions::Caret>,
    /// Rows the position list's window has on this pane.
    pub positions_rows: usize,
    /// Whether the list's caret is still owed the row the pane stands on.
    pub caret_owed: bool,
}

/// What the position list holds on this frame, which the shell walks.
#[derive(Debug, Clone, Copy, PartialEq, Eq, Structural)]
pub struct Listing {
    /// Rows it has, under the reading the list is titled with.
    pub rows: usize,
    /// The row the pane is standing on, where the list holds it.
    pub standing: Option<usize>,
}

/// What the shell still owes a key once the panel has answered it.
#[derive(Debug, Clone, Copy, PartialEq, Eq, Structural)]
pub enum Step {
    /// Leave the program.
    Quit,
    /// Nothing more: draw again.
    Drawn,
    /// Follow mode was flipped: engaged, the shell jumps to the newest change;
    /// disengaged, it settles a landing it owed.
    Follow(bool),
    /// The staged run was flipped: the shell walks the frame again, and flips
    /// it back where the walk fails.
    Walk,
    /// The list row at this index was picked: the shell resolves where it asks
    /// the pane to stand, and closes the list where it does.
    Pick(usize),
    /// Not the overlay's: the event goes on to the keys.
    Through,
    /// The diff's, the list's window or the repository's to answer.
    Elsewhere(Action),
}

impl Panel {
    /// The menu caret sits on one of the menu's rows.
    pub open spec fn wf(self) -> bool {
        self.menu matches Some(c) ==> c.at < ROW_COUNT
    }

    /// How many overlays are drawn.
    pub open spec fn overlays(self) -> nat {
        (if self.sheet is Some {
            1nat
        } else {
            0nat
        }) + (if self.menu is Some {
            1nat
        } else {
            0nat
        }) + (if self.positions is Some {
            1nat
        } else {
            0nat
        })
    }
}

/// Whether `a` is a key that flips one of the settings.
pub open spec fn flips_setting(a: Action) -> bool {
    a is ToggleFollow || a is ToggleRail || a is ToggleSingle || a is ToggleOverview || a is ToggleStaged
        || a is ToggleWrap || a is ToggleNotes || a is ToggleIcons || a is ToggleLinks || a is TogglePersist
}

/// `s` with the setting `a` flips flipped.
pub open spec fn flipped(s: Settings, a: Action) -> Settings {
    match a {
        Action::ToggleFollow => Settings { follow: !s.follow, ..s },
        Action::ToggleRail => Settings { rail: !s.rail, ..s },
        Action::ToggleSingle => Settings { single: !s.single, ..s },
        Action::ToggleOverview => Settings { overview: !s.overview, ..s },
        Action::ToggleStaged => Settings { staged: !s.staged, ..s },
        Action::ToggleWrap => Settings { wrap: !s.wrap, ..s },
        Action::ToggleNotes => Settings { notes: !s.notes, ..s },
        Action::ToggleIcons => Settings { icons: !s.icons, ..s },
        Action::ToggleLinks => Settings { links: !s.links, ..s },
        Action::TogglePersist => Settings { persist: !s.persist, ..s },
        _ => s,
    }
}

/// The settings a config's toggles give.
pub open spec fn settings_of(d: Defaults) -> Settings {
    Settings {
        follow: d.follow,
        rail: d.rail,
        single: d.single,
        overview: d.overview,
        staged: d.staged,
        wrap: d.wrap,
        notes: d.notes,
        icons: d.icons,
        links: d.links,
        persist: d.persist,
    }
}

/// What a setting's key, or the reset, does: the setting flipped, the staged
/// run walked again, following jumped or settled; the reset puts every setting
/// back to the shipped pane, the staged run through its own walk.
pub open spec fn spec_flip(p: Panel, a: Action) -> (Panel, Step) {
    if a is MenuReset {
        let back = settings_of(shipped());
        (Panel { settings: back, ..p }, if p.settings.staged {
            Step::Walk
        } else {
            Step::Drawn
        })
    } else {
        let s = flipped(p.settings, a);
        (Panel { settings: s, ..p }, if a is ToggleFollow {
            Step::Follow(s.follow)
        } else if a is ToggleStaged {
            Step::Walk
        } else {
            Step::Drawn
        })
    }
}

/// The sheet's next page, or none past its last.
pub open spec fn next_page(sheet: Option<usize>, pages: usize) -> Option<usize> {
    match sheet {
        None => Some(0usize),
        Some(page) => if page + 1 < pages {
            Some((page + 1) as usize)
        } else {
            None
        },
    }
}

/// What a key does to the panel, and what it leaves the shell.
///
/// A key that moves the diff by hand stops following first. `Esc` puts away
/// the menu, else the sheet, else leaves. The sheet pages on and then away,
/// and opening it puts the other two overlays away.
pub open spec fn spec_apply(p: Panel, a: Action) -> (Panel, Step) {
    let p = if a.spec_is_manual_scroll() {
        Panel { settings: Settings { follow: false, ..p.settings }, ..p }
    } else {
        p
    };
    match a {
        Action::Quit => (p, Step::Quit),
        Action::Escape => if p.menu is Some {
            (Panel { menu: None, ..p }, Step::Drawn)
        } else if p.sheet is Some {
            (Panel { sheet: None, ..p }, Step::Drawn)
        } else {
            (p, Step::Quit)
        },
        Action::Redraw => (p, Step::Drawn),
        Action::ToggleSheet => (
            Panel { menu: None, positions: None, sheet: next_page(p.sheet, p.sheet_pages), ..p },
            Step::Drawn,
        ),
        Action::CloseSheet => (Panel { sheet: None, ..p }, Step::Drawn),
        _ => if flips_setting(a) || a is MenuReset {
            spec_flip(p, a)
        } else {
            (p, Step::Elsewhere(a))
        },
    }
}

/// The menu with its window moved to keep its caret drawn.
pub open spec fn settle_menu(p: Panel) -> Panel {
    match p.menu {
        Some(c) => Panel {
            menu: Some(
                Caret {
                    at: c.at,
                    top: spec_window(c.at as int, c.top as int, p.menu_rows as int, ROW_COUNT as int) as usize,
                },
            ),
            ..p
        },
        None => p,
    }
}

/// The menu row at `offset` down its drawn window, where that row is drawn and
/// a caret may sit on it.
pub open spec fn menu_row_at(p: Panel, offset: u16) -> Option<usize> {
    match p.menu {
        None => None,
        Some(c) => {
            let top = spec_window(c.at as int, c.top as int, p.menu_rows as int, ROW_COUNT as int);
            if offset < p.menu_rows && top + offset < ROW_COUNT && spec_selectable_at(top + offset) {
                Some((top + offset) as usize)
            } else {
                None
            }
        },
    }
}

/// The menu's row flipped, where it flips something.
pub open spec fn spec_flip_row(p: Panel, at: int) -> (Panel, Step) {
    match flip_of(at) {
        Some(a) => spec_flip(p, a),
        None => (p, Step::Drawn),
    }
}

/// What an event the menu answers does: the caret moves and its window follows,
/// the row under it or under the pointer flips, or the menu goes away.
pub open spec fn spec_menu_route(p: Panel, route: MenuRoute) -> (Panel, Step) {
    match route {
        MenuRoute::Move(by) => match p.menu {
            Some(c) => (
                settle_menu(
                    Panel {
                        menu: Some(Caret { at: spec_steps(c.at as int, abs_of(by), by > 0) as usize, ..c }),
                        ..p
                    },
                ),
                Step::Drawn,
            ),
            None => (p, Step::Drawn),
        },
        MenuRoute::Flip => match p.menu {
            Some(c) => spec_flip_row(p, c.at as int),
            None => (p, Step::Drawn),
        },
        MenuRoute::Row(offset) => match menu_row_at(p, offset) {
            Some(at) => {
                let moved = settle_menu(Panel { menu: Some(Caret { at, ..p.menu->0 }), ..p });
                spec_flip_row(moved, at as int)
            },
            None => (p, Step::Drawn),
        },
        MenuRoute::Close => (Panel { menu: None, ..p }, Step::Drawn),
        MenuRoute::Inert => (p, Step::Drawn),
        MenuRoute::Through => (p, Step::Through),
    }
}

/// The menu opened on its first row, or put away; either way the other two
/// overlays go.
pub open spec fn spec_toggle_menu(p: Panel) -> Panel {
    Panel {
        sheet: None,
        positions: None,
        menu: if p.menu is None {
            Some(Caret { at: 0, top: 0 })
        } else {
            None
        },
        ..p
    }
}

/// The list with its caret on one of its rows and its window keeping it drawn.
pub open spec fn settle_positions(p: Panel, of: usize) -> Panel {
    match p.positions {
        Some(c) => {
            let last = sat_sub(of as int, 1);
            let at = if c.at < last {
                c.at as int
            } else {
                last
            };
            Panel {
                positions: Some(
                    crate::positions::Caret {
                        at: at as usize,
                        top: spec_window(at, c.top as int, p.positions_rows as int, of as int) as usize,
                    },
                ),
                ..p
            }
        },
        None => p,
    }
}

/// The list opened on the row the pane stands on, or put away; either way the
/// other two overlays go, and the caret is owed its row while the list is up.
pub open spec fn spec_toggle_positions(p: Panel, l: Listing) -> Panel {
    let opened = Panel {
        sheet: None,
        menu: None,
        positions: if p.positions is None {
            Some(
                crate::positions::Caret {
                    at: match l.standing {
                        Some(at) => at,
                        None => 0,
                    },
                    top: 0,
                },
            )
        } else {
            None
        },
        caret_owed: p.positions is None,
        ..p
    };
    settle_positions(opened, l.rows)
}

/// The list row at `offset` down its drawn window, where there is one.
pub open spec fn positions_row_at(p: Panel, offset: u16, of: usize) -> Option<usize> {
    match p.positions {
        None => None,
        Some(c) => {
            let top = spec_window(c.at as int, c.top as int, p.positions_rows as int, of as int);
            if offset < p.positions_rows && top + offset < of {
                Some((top + offset) as usize)
            } else {
                None
            }
        },
    }
}

/// Where a list caret `by` rows from `at` lands, the ends clamping.
pub open spec fn positions_step(at: usize, by: isize, of: usize) -> int {
    if by >= 0 {
        let last = sat_sub(of as int, 1);
        let moved = at + by;
        let moved = if moved > usize::MAX {
            usize::MAX as int
        } else {
            moved
        };
        if moved < last {
            moved
        } else {
            last
        }
    } else {
        sat_sub(at as int, -(by as int))
    }
}

/// What an event the list answers does: the caret moves, is no longer owed a
/// row, and its window follows; a pick hands the caret's row to the shell, a
/// row under the pointer takes the caret and is picked; or the list goes away.
pub open spec fn spec_positions_route(p: Panel, route: PositionsRoute, l: Listing) -> (Panel, Step) {
    match route {
        PositionsRoute::Move(by) => {
            let unowed = Panel { caret_owed: false, ..p };
            match p.positions {
                Some(c) => (
                    settle_positions(
                        Panel {
                            positions: Some(
                                crate::positions::Caret { at: positions_step(c.at, by, l.rows) as usize, ..c },
                            ),
                            ..unowed
                        },
                        l.rows,
                    ),
                    Step::Drawn,
                ),
                None => (settle_positions(unowed, l.rows), Step::Drawn),
            }
        },
        PositionsRoute::Pick => match p.positions {
            Some(c) => (p, Step::Pick(c.at)),
            None => (p, Step::Drawn),
        },
        PositionsRoute::Row(offset) => match positions_row_at(p, offset, l.rows) {
            Some(at) => {
                let moved = settle_positions(
                    Panel { positions: Some(crate::positions::Caret { at, ..p.positions->0 }), ..p },
                    l.rows,
                );
                (moved, Step::Pick(moved.positions->0.at))
            },
            None => (p, Step::Drawn),
        },
        PositionsRoute::Close => (Panel { positions: None, ..p }, Step::Drawn),
        PositionsRoute::Inert => (p, Step::Drawn),
        PositionsRoute::Through => (p, Step::Through),
    }
}

impl Panel {
    /// A setting's key, or the reset.
    fn flip(&mut self, a: Action) -> (r: Step)
        requires
            flips_setting(a) || a is MenuReset,
        ensures
            (*final(self), r) == spec_flip(*old(self), a),
    {
        let s = self.settings;
        match a {
            Action::MenuReset => {
                let was = s.staged;
                self.settings = Settings {
                    follow: true,
                    rail: false,
                    single: false,
                    overview: false,
                    staged: false,
                    wrap: false,
                    notes: true,
                    icons: false,
                    links: true,
                    persist: false,
                };
                if was {
                    Step::Walk
                } else {
                    Step::Drawn
                }
            },
            Action::ToggleFollow => {
                self.settings = Settings { follow: !s.follow, ..s };
                Step::Follow(!s.follow)
            },
            Action::ToggleRail => {
                self.settings = Settings { rail: !s.rail, ..s };
                Step::Drawn
            },
            Action::ToggleSingle => {
                self.settings = Settings { single: !s.single, ..s };
                Step::Drawn
            },
            Action::ToggleOverview => {
                self.settings = Settings { overview: !s.overview, ..s };
                Step::Drawn
            },
            Action::ToggleStaged => {
                self.settings = Settings { staged: !s.staged, ..s };
                Step::Walk
            },
            Action::ToggleWrap => {
                self.settings = Settings { wrap: !s.wrap, ..s };
                Step::Drawn
            },
            Action::ToggleNotes => {
                self.settings = Settings { notes: !s.notes, ..s };
                Step::Drawn
            },
            Action::ToggleIcons => {
                self.settings = Settings { icons: !s.icons, ..s };
                Step::Drawn
            },
            Action::ToggleLinks => {
                self.settings = Settings { links: !s.links, ..s };
                Step::Drawn
            },
            _ => {
                self.settings = Settings { persist: !s.persist, ..s };
                Step::Drawn
            },
        }
    }

    /// What the header counts of the staged run: its files, even none, where
    /// the reader asked for it and the pane reads the live tree; nothing
    /// where the run is not walked, so no count names a run not drawn.
    pub fn staged_shown(&self, live: bool, staged_files: usize) -> (r: Option<usize>)
        ensures
            r == (if self.settings.staged && live {
                Some(staged_files)
            } else {
                None
            }),
    {
        if self.settings.staged && live {
            Some(staged_files)
        } else {
            None
        }
    }

    /// Whether the header says the pane is following: only while it reads
    /// the live tree, where following reaches anything. The flag itself is
    /// kept, so the word returns as it was when the reading goes back.
    pub fn following_shown(&self, live: bool) -> (r: bool)
        ensures
            r == (self.settings.follow && live),
    {
        self.settings.follow && live
    }

    /// The staged run flipped back after the walk it asked for failed: the
    /// previous frame is still the one drawn, so the setting goes back with
    /// it, and the shell puts the viewport back where the reader was.
    pub fn walk_failed(&mut self)
        ensures
            *final(self) == (Panel {
                settings: (Settings { staged: !old(self).settings.staged, ..old(self).settings }),
                ..*old(self)
            }),
    {
        self.settings.staged = !self.settings.staged;
    }

    /// What a key does to the panel, and what it leaves the shell.
    #[verifier::rlimit(40)]
    pub fn apply(&mut self, a: Action) -> (r: Step)
        ensures
            (*final(self), r) == spec_apply(*old(self), a),
    {
        if a.is_manual_scroll() {
            self.settings.follow = false;
        }
        match a {
            Action::Quit => Step::Quit,
            Action::Escape => {
                if self.menu.is_some() {
                    self.menu = None;
                    Step::Drawn
                } else if self.sheet.is_some() {
                    self.sheet = None;
                    Step::Drawn
                } else {
                    Step::Quit
                }
            },
            Action::Redraw => Step::Drawn,
            Action::ToggleSheet => {
                self.menu = None;
                self.positions = None;
                self.sheet = match self.sheet {
                    None => Some(0),
                    Some(page) => if page < usize::MAX && page + 1 < self.sheet_pages {
                        Some(page + 1)
                    } else {
                        None
                    },
                };
                Step::Drawn
            },
            Action::CloseSheet => {
                self.sheet = None;
                Step::Drawn
            },
            Action::ToggleFollow | Action::ToggleRail | Action::ToggleSingle | Action::ToggleOverview
            | Action::ToggleStaged | Action::ToggleWrap | Action::ToggleNotes | Action::ToggleIcons
            | Action::ToggleLinks | Action::TogglePersist | Action::MenuReset => self.flip(a),
            _ => Step::Elsewhere(a),
        }
    }

    /// The menu's window moved to keep its caret drawn.
    fn settle_menu(&mut self)
        requires
            old(self).wf(),
        ensures
            *final(self) == settle_menu(*old(self)),
    {
        match self.menu {
            Some(c) => {
                self.menu = Some(Caret { at: c.at, top: c.window(self.menu_rows) });
            },
            None => {},
        }
    }

    /// The menu row at `offset` down its drawn window.
    fn menu_at(&self, offset: u16) -> (r: Option<usize>)
        requires
            self.wf(),
        ensures
            r == menu_row_at(*self, offset),
    {
        match self.menu {
            None => None,
            Some(c) => {
                let top = c.window(self.menu_rows);
                let off = offset as usize;
                if off < self.menu_rows && top < ROW_COUNT && off < ROW_COUNT - top && crate::menu::row(
                    top + off,
                ).selectable() {
                    Some(top + off)
                } else {
                    None
                }
            },
        }
    }

    /// What an event the menu answers does.
    pub fn menu_route(&mut self, route: MenuRoute) -> (r: Step)
        requires
            old(self).wf(),
        ensures
            (*final(self), r) == spec_menu_route(*old(self), route),
            final(self).wf(),
    {
        match route {
            MenuRoute::Move(by) => {
                match self.menu {
                    Some(c) => {
                        self.menu = Some(Caret { at: c.stepped(by), ..c });
                        self.settle_menu();
                    },
                    None => {},
                }
                Step::Drawn
            },
            MenuRoute::Flip => match self.menu {
                Some(c) => match flips(c.at) {
                    Some(a) => self.flip(a),
                    None => Step::Drawn,
                },
                None => Step::Drawn,
            },
            MenuRoute::Row(offset) => match self.menu_at(offset) {
                Some(at) => {
                    let c = self.menu.unwrap();
                    self.menu = Some(Caret { at, ..c });
                    self.settle_menu();
                    match flips(at) {
                        Some(a) => self.flip(a),
                        None => Step::Drawn,
                    }
                },
                None => Step::Drawn,
            },
            MenuRoute::Close => {
                self.menu = None;
                Step::Drawn
            },
            MenuRoute::Inert => Step::Drawn,
            MenuRoute::Through => Step::Through,
        }
    }

    /// Open the menu on its first row, or put it away.
    pub fn toggle_menu(&mut self)
        ensures
            *final(self) == spec_toggle_menu(*old(self)),
            final(self).wf(),
    {
        self.sheet = None;
        self.positions = None;
        self.menu = match self.menu {
            None => Some(Caret { at: 0, top: 0 }),
            Some(_) => None,
        };
    }

    /// The list's caret on one of its rows, its window keeping it drawn.
    fn settle_positions(&mut self, of: usize)
        ensures
            *final(self) == settle_positions(*old(self), of),
    {
        match self.positions {
            Some(c) => {
                let last = if of > 0 {
                    of - 1
                } else {
                    0
                };
                let at = if c.at < last {
                    c.at
                } else {
                    last
                };
                let moved = crate::positions::Caret { at, top: c.top };
                self.positions = Some(crate::positions::Caret { at, top: moved.window(self.positions_rows, of) });
            },
            None => {},
        }
    }

    /// Open the list on the row the pane stands on, or put it away.
    pub fn toggle_positions(&mut self, listing: Listing)
        ensures
            *final(self) == spec_toggle_positions(*old(self), listing),
    {
        self.sheet = None;
        self.menu = None;
        self.positions = match self.positions {
            None => Some(
                crate::positions::Caret {
                    at: match listing.standing {
                        Some(at) => at,
                        None => 0,
                    },
                    top: 0,
                },
            ),
            Some(_) => None,
        };
        self.caret_owed = self.positions.is_some();
        self.settle_positions(listing.rows);
    }

    /// The list row at `offset` down its drawn window.
    fn positions_at(&self, offset: u16, of: usize) -> (r: Option<usize>)
        ensures
            r == positions_row_at(*self, offset, of),
    {
        match self.positions {
            None => None,
            Some(c) => {
                let top = c.window(self.positions_rows, of);
                let off = offset as usize;
                if off < self.positions_rows && top < of && off < of - top {
                    Some(top + off)
                } else {
                    None
                }
            },
        }
    }

    /// What an event the list answers does.
    pub fn positions_route(&mut self, route: PositionsRoute, listing: Listing) -> (r: Step)
        ensures
            (*final(self), r) == spec_positions_route(*old(self), route, listing),
    {
        match route {
            PositionsRoute::Move(by) => {
                self.caret_owed = false;
                match self.positions {
                    Some(c) => {
                        self.positions = Some(
                            crate::positions::Caret { at: c.stepped(by, listing.rows), ..c },
                        );
                    },
                    None => {},
                }
                self.settle_positions(listing.rows);
                Step::Drawn
            },
            PositionsRoute::Pick => match self.positions {
                Some(c) => Step::Pick(c.at),
                None => Step::Drawn,
            },
            PositionsRoute::Row(offset) => match self.positions_at(offset, listing.rows) {
                Some(at) => {
                    let c = self.positions.unwrap();
                    self.positions = Some(crate::positions::Caret { at, ..c });
                    self.settle_positions(listing.rows);
                    Step::Pick(self.positions.unwrap().at)
                },
                None => Step::Drawn,
            },
            PositionsRoute::Close => {
                self.positions = None;
                Step::Drawn
            },
            PositionsRoute::Inert => Step::Drawn,
            PositionsRoute::Through => Step::Through,
        }
    }

    /// The shell stood where the picked row asked: the list goes away and owes
    /// its caret nothing.
    pub fn picked(&mut self)
        ensures
            *final(self) == (Panel { positions: None, caret_owed: false, ..*old(self) }),
    {
        self.positions = None;
        self.caret_owed = false;
    }
}

/// One overlay at a time: whatever a key, the menu or the list does to a pane
/// with at most one overlay up leaves at most one up, and opening the menu or
/// the list puts the other two away.
pub proof fn law_one_overlay_at_a_time(p: Panel, a: Action, m: MenuRoute, r: PositionsRoute, l: Listing)
    requires
        p.overlays() <= 1,
    ensures
        spec_apply(p, a).0.overlays() <= 1,
        spec_menu_route(p, m).0.overlays() <= 1,
        spec_positions_route(p, r, l).0.overlays() <= 1,
        spec_toggle_menu(p).overlays() <= 1,
        spec_toggle_positions(p, l).overlays() <= 1,
        spec_toggle_menu(p).menu is Some ==> spec_toggle_menu(p).overlays() == 1,
        spec_toggle_positions(p, l).positions is Some ==> spec_toggle_positions(p, l).overlays() == 1,
        spec_apply(p, Action::ToggleSheet).0.sheet is Some ==> spec_apply(p, Action::ToggleSheet).0.overlays()
            == 1,
{
}

/// A setting's key pressed twice leaves every setting as it was.
pub proof fn law_a_setting_flipped_twice_is_unchanged(p: Panel, a: Action)
    requires
        flips_setting(a),
    ensures
        spec_apply(spec_apply(p, a).0, a).0.settings == p.settings,
{
    let once = spec_apply(p, a).0;
    lemma_apply_is_flip(p, a);
    lemma_apply_is_flip(once, a);
    assert(once.settings == flipped(p.settings, a));
    assert(flipped(flipped(p.settings, a), a) == p.settings);
}

/// A setting's key does what its flip does.
pub proof fn lemma_apply_is_flip(p: Panel, a: Action)
    requires
        flips_setting(a),
    ensures
        spec_apply(p, a) == spec_flip(p, a),
{
    match a {
        Action::ToggleFollow => {},
        Action::ToggleRail => {},
        Action::ToggleSingle => {},
        Action::ToggleOverview => {},
        Action::ToggleStaged => {},
        Action::ToggleWrap => {},
        Action::ToggleNotes => {},
        Action::ToggleIcons => {},
        Action::ToggleLinks => {},
        _ => {},
    }
}

/// The menu's reset is the shipped config, every toggle of it; the staged run
/// gets there through its own walk, which is owed exactly where it was on.
pub proof fn law_the_reset_is_the_shipped_config(p: Panel)
    ensures
        spec_apply(p, Action::MenuReset).0.settings == settings_of(shipped()),
        (spec_apply(p, Action::MenuReset).1 == Step::Walk) == p.settings.staged,
        flip_of((ROW_COUNT - 1) as int) == Some(Action::MenuReset),
{
}

/// `Esc` never leaves while the menu or the sheet is up: it puts the frontmost
/// of them away, and leaves only when neither is.
pub proof fn law_escape_puts_away_before_it_leaves(p: Panel)
    ensures
        (p.menu is Some || p.sheet is Some) ==> spec_apply(p, Action::Escape).1 == Step::Drawn && spec_apply(
            p,
            Action::Escape,
        ).0.overlays() + 1 == p.overlays(),
        (p.menu is None && p.sheet is None) ==> spec_apply(p, Action::Escape) == (p, Step::Quit),
{
}

/// The row a reader flips in the menu and the key they could press instead
/// cannot come apart.
pub proof fn law_a_menu_row_is_its_key(p: Panel, a: Action)
    requires
        p.menu matches Some(c) && flip_of(c.at as int) == Some(a),
    ensures
        spec_menu_route(p, MenuRoute::Flip) == spec_apply(p, a),
{
}

/// A key that moves the diff by hand stops the pane following.
pub proof fn law_a_hand_on_the_diff_stops_following(p: Panel, a: Action)
    requires
        a.spec_is_manual_scroll(),
    ensures
        !spec_apply(p, a).0.settings.follow,
        spec_apply(p, a).1 == Step::Elsewhere(a),
{
}

/// Flipping the staged run and then failing the walk leaves the panel as it
/// was: a row reading `on` over a run the pane is not drawing cannot arise.
pub proof fn law_a_failed_walk_leaves_the_panel_as_it_was(p: Panel)
    ensures
        spec_apply(p, Action::ToggleStaged).1 == Step::Walk,
        ({
            let q = spec_apply(p, Action::ToggleStaged).0;
            Panel { settings: Settings { staged: !q.settings.staged, ..q.settings }, ..q } == p
        }),
{
}


} // verus!
