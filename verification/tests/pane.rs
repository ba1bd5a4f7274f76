use vigia::input::Action;
use vigia::menu::{Caret, MenuRoute, Settings};
use vigia::pane::{Listing, Panel, Step};
use vigia::positions::PositionsRoute;

fn shipped() -> Settings {
    Settings {
        follow: true,
        rail: false,
        single: false,
        overview: false,
        staged: false,
        wrap: false,
        notes: true,
        icons: false,
        links: true,
        persist: false,
    }
}

fn panel() -> Panel {
    Panel {
        settings: shipped(),
        sheet: None,
        sheet_pages: 2,
        menu: None,
        menu_rows: 20,
        positions: None,
        positions_rows: 3,
        caret_owed: false,
    }
}

#[test]
fn a_setting_key_flips_it_and_twice_puts_it_back() {
    let mut p = panel();
    assert_eq!(p.apply(Action::ToggleWrap), Step::Drawn);
    assert!(p.settings.wrap);
    assert_eq!(p.apply(Action::ToggleWrap), Step::Drawn);
    assert_eq!(p.settings, shipped());
    assert_eq!(p.apply(Action::ToggleFollow), Step::Follow(false));
    assert_eq!(p.apply(Action::ToggleFollow), Step::Follow(true));
    assert_eq!(p.apply(Action::ToggleStaged), Step::Walk);
    assert!(p.settings.staged);
}

#[test]
fn the_sheet_pages_on_and_then_away_and_puts_the_others_away() {
    let mut p = panel();
    p.toggle_menu();
    assert!(p.menu.is_some());
    p.apply(Action::ToggleSheet);
    assert_eq!(p.sheet, Some(0));
    assert!(p.menu.is_none());
    p.apply(Action::ToggleSheet);
    assert_eq!(p.sheet, Some(1));
    p.apply(Action::ToggleSheet);
    assert_eq!(p.sheet, None);
}

#[test]
fn escape_puts_away_the_menu_then_the_sheet_then_leaves() {
    let mut p = panel();
    p.apply(Action::ToggleSheet);
    assert_eq!(p.apply(Action::Escape), Step::Drawn);
    assert!(p.sheet.is_none());
    p.toggle_menu();
    assert_eq!(p.apply(Action::Escape), Step::Drawn);
    assert!(p.menu.is_none());
    assert_eq!(p.apply(Action::Escape), Step::Quit);
    assert_eq!(p.apply(Action::Quit), Step::Quit);
}

#[test]
fn the_reset_is_the_shipped_pane_and_walks_only_a_staged_run() {
    let mut p = panel();
    p.settings = Settings { follow: false, rail: true, persist: true, ..shipped() };
    assert_eq!(p.apply(Action::MenuReset), Step::Drawn);
    assert_eq!(p.settings, shipped());
    p.settings.staged = true;
    assert_eq!(p.apply(Action::MenuReset), Step::Walk);
    assert_eq!(p.settings, shipped());
}

#[test]
fn a_hand_on_the_diff_stops_following_and_goes_to_the_shell() {
    let mut p = panel();
    assert_eq!(p.apply(Action::Scroll(3)), Step::Elsewhere(Action::Scroll(3)));
    assert!(!p.settings.follow);
    let mut q = panel();
    assert_eq!(q.apply(Action::ScrollList(3)), Step::Elsewhere(Action::ScrollList(3)));
    assert!(q.settings.follow, "the list's own window is not the diff");
}

#[test]
fn a_menu_row_flips_what_its_key_flips() {
    let mut p = panel();
    p.toggle_menu();
    assert_eq!(p.menu, Some(Caret { at: 0, top: 0 }));
    assert_eq!(p.menu_route(MenuRoute::Move(1)), Step::Drawn);
    assert_eq!(p.menu.unwrap().at, 1);
    assert_eq!(p.menu_route(MenuRoute::Flip), Step::Drawn);
    assert!(p.settings.rail);
    // The caret skips the gap and the rule between the links and remembering.
    assert_eq!(p.menu_route(MenuRoute::Move(8)), Step::Drawn);
    assert_eq!(p.menu.unwrap().at, 12);
    assert_eq!(p.menu_route(MenuRoute::Row(13)), Step::Drawn);
    assert_eq!(p.settings, shipped(), "the reset row, clicked");
    assert_eq!(p.menu_route(MenuRoute::Row(9)), Step::Drawn);
    assert_eq!(p.menu_route(MenuRoute::Through), Step::Through);
    assert_eq!(p.menu_route(MenuRoute::Close), Step::Drawn);
    assert!(p.menu.is_none());
}

#[test]
fn the_list_opens_on_the_standing_row_and_a_pick_goes_to_the_shell() {
    let mut p = panel();
    p.apply(Action::ToggleSheet);
    let listing = Listing { rows: 6, standing: Some(4) };
    p.toggle_positions(listing);
    assert!(p.sheet.is_none());
    let caret = p.positions.unwrap();
    assert_eq!(caret.at, 4);
    assert!(caret.top <= 4 && 4 < caret.top + 3, "the window draws the caret");
    assert!(p.caret_owed);
    assert_eq!(p.positions_route(PositionsRoute::Move(-2), listing), Step::Drawn);
    assert_eq!(p.positions.unwrap().at, 2);
    assert!(!p.caret_owed);
    assert_eq!(p.positions_route(PositionsRoute::Move(40), listing), Step::Drawn);
    assert_eq!(p.positions.unwrap().at, 5);
    assert_eq!(p.positions_route(PositionsRoute::Pick, listing), Step::Pick(5));
    let top = p.positions.unwrap().top;
    assert_eq!(p.positions_route(PositionsRoute::Row(0), listing), Step::Pick(top));
    assert_eq!(p.positions_route(PositionsRoute::Row(3), listing), Step::Drawn);
    p.picked();
    assert!(p.positions.is_none());
}

#[test]
fn a_list_with_no_standing_row_opens_on_its_first() {
    let mut p = panel();
    p.toggle_positions(Listing { rows: 0, standing: None });
    assert_eq!(p.positions.unwrap().at, 0);
    p.toggle_positions(Listing { rows: 0, standing: None });
    assert!(p.positions.is_none());
    assert!(!p.caret_owed);
}

#[test]
fn a_failed_walk_puts_the_staged_run_back() {
    let mut p = panel();
    let before = p.settings.staged;
    assert_eq!(p.apply(Action::ToggleStaged), Step::Walk);
    assert_eq!(p.settings.staged, !before);
    p.walk_failed();
    assert_eq!(p.settings.staged, before);
    assert_eq!(p.settings, panel().settings);
}

#[test]
fn the_header_counts_the_staged_run_only_on_the_live_tree() {
    let mut p = panel();
    assert_eq!(p.staged_shown(true, 3), None);
    p.apply(Action::ToggleStaged);
    assert_eq!(p.staged_shown(true, 0), Some(0));
    assert_eq!(p.staged_shown(false, 3), None);
    assert_eq!(p.following_shown(true), p.settings.follow);
    assert!(!p.following_shown(false));
}
