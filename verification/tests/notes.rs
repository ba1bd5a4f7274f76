use vigia::notes::{Alerts, Change, Ledger, Note, Status};
use vigia::shell::{LEAVING, RESOLVED_DEPARTURE};

fn note(id: &str, status: Status, reply: Option<&str>) -> Note {
    Note {
        id: String::from(id),
        path: String::from("src/a.rs"),
        line: 3,
        body: String::from("why?"),
        status,
        reply: reply.map(String::from),
    }
}

fn said(changes: &[Change]) -> Vec<String> {
    changes
        .iter()
        .map(|c| {
            let kind = match c {
                Change::Written(_) => "written",
                Change::Seen(_) => "seen",
                Change::Replied(_) => "replied",
                Change::Resolved(_) => "resolved",
                Change::Swept(_) => "swept",
                Change::Left(_) => "left",
            };
            format!("{kind} {}", c.id())
        })
        .collect()
}

fn ids(notes: &[Note]) -> Vec<String> {
    notes.iter().map(|n| n.id.clone()).collect()
}

#[test]
fn a_resolve_leaves_holding_its_line_and_is_never_drawn_twice() {
    let mut ledger = Ledger::new();
    let first = ledger.reload(vec![note("a", Status::Open, None), note("b", Status::Resolved, None)], 0);
    assert_eq!(said(&first), vec!["resolved b"]);
    assert_eq!(ids(&ledger.drawn()), vec!["a", "b"]);
    assert_eq!(ledger.ends_in(), Some(RESOLVED_DEPARTURE - LEAVING));

    // Listed again while leaving: not brought back.
    let again = ledger.reload(vec![note("a", Status::Seen, None), note("b", Status::Resolved, None)], 10);
    assert_eq!(said(&again), vec!["seen a"]);
    assert_eq!(ids(&ledger.drawn()), vec!["a", "b"]);

    // The beat runs: the sweep is armed, the rows stay.
    let beat = ledger.settle(RESOLVED_DEPARTURE - LEAVING);
    assert_eq!(beat.sweeping, vec!["b"]);
    assert!(beat.prune.is_empty());
    assert!(!beat.changed);
    assert_eq!(ledger.ends_in(), Some(RESOLVED_DEPARTURE));

    // The departure ends: the rows go and the file is the caller's to remove.
    let gone = ledger.settle(RESOLVED_DEPARTURE);
    assert!(gone.changed);
    assert_eq!(gone.prune, vec!["b"]);
    assert!(gone.sweeping.is_empty());
    assert_eq!(ids(&ledger.drawn()), vec!["a"]);
    assert_eq!(ledger.ends_in(), None);

    // The store still lists it, because the removal failed: still not back.
    let after = ledger.reload(vec![note("a", Status::Seen, None), note("b", Status::Resolved, None)], 20);
    assert!(said(&after).is_empty());
    assert_eq!(ids(&ledger.drawn()), vec!["a"]);
}

#[test]
fn a_reply_and_a_withdrawal_are_what_moved() {
    let mut ledger = Ledger::new();
    ledger.reload(vec![note("a", Status::Seen, None)], 0);
    let replied = ledger.reload(vec![note("a", Status::Seen, Some("done"))], 1);
    assert_eq!(said(&replied), vec!["replied a"]);
    let same = ledger.reload(vec![note("a", Status::Seen, Some("done"))], 2);
    assert!(said(&same).is_empty());
    let left = ledger.reload(vec![], 3);
    assert_eq!(said(&left), vec!["left a"]);
    assert_eq!(ids(&ledger.drawn()), vec!["a"]);
    assert_eq!(ledger.ends_in(), Some(3 + LEAVING));
    let settled = ledger.settle(3 + LEAVING);
    assert!(settled.changed);
    assert!(settled.prune.is_empty(), "only a resolve hands its file over");
    assert!(ledger.drawn().is_empty());
}

use vigia::event::{Button, Event, KeyCode, KeyEvent, KeyKind, Modifiers, MouseEvent, MouseKind};
use vigia::notes::{box_route, BoxRoute};
use vigia::render::Rect;

fn key(code: KeyCode, alt: bool, kind: KeyKind) -> Event {
    Event::Key(KeyEvent { code, modifiers: Modifiers { shift: false, control: false, alt }, kind })
}

fn press(column: u16, row: u16) -> Event {
    Event::Mouse(MouseEvent { kind: MouseKind::Down(Button::Left), column, row })
}

#[test]
fn every_key_is_the_boxs_and_a_press_outside_closes_it() {
    let over = Some(Rect { x: 10, y: 5, width: 20, height: 4 });
    assert_eq!(box_route(&key(KeyCode::Enter, false, KeyKind::Press), over), BoxRoute::Send);
    let newline = KeyEvent { code: KeyCode::Enter, modifiers: Modifiers { shift: false, control: false, alt: true }, kind: KeyKind::Press };
    assert_eq!(box_route(&Event::Key(newline), over), BoxRoute::Edit(newline));
    assert_eq!(box_route(&key(KeyCode::Esc, false, KeyKind::Press), over), BoxRoute::Cancel);
    assert_eq!(box_route(&key(KeyCode::Char('q'), false, KeyKind::Release), over), BoxRoute::Inert);
    assert_eq!(box_route(&Event::Paste, over), BoxRoute::Paste);
    assert_eq!(box_route(&press(10, 5), over), BoxRoute::Inert);
    assert_eq!(box_route(&press(29, 8), over), BoxRoute::Inert);
    assert_eq!(box_route(&press(30, 8), over), BoxRoute::Cancel);
    assert_eq!(box_route(&press(12, 4), over), BoxRoute::Cancel);
    assert_eq!(box_route(&press(12, 6), None), BoxRoute::Cancel);
    let wheel = Event::Mouse(MouseEvent { kind: MouseKind::ScrollDown, column: 12, row: 6 });
    assert_eq!(box_route(&wheel, over), BoxRoute::Through);
    assert_eq!(box_route(&Event::Resize(80, 24), over), BoxRoute::Through);
}

fn skip(name: &str, why: &str) -> (String, String) {
    (name.to_owned(), why.to_owned())
}

#[test]
fn an_alert_is_said_when_the_skipped_files_change_and_not_again() {
    let mut alerts = Alerts::default();
    assert_eq!(alerts.of(Ok(vec![])), None);
    let said = alerts.of(Ok(vec![skip("b.json", "not JSON"), skip("a.json", "no id")]));
    assert_eq!(said.as_deref(), Some("skipped the note file a.json and 1 more: no id"));
    // The same files in another order are not news.
    assert_eq!(alerts.of(Ok(vec![skip("a.json", "no id"), skip("b.json", "not JSON")])), None);
    let said = alerts.of(Ok(vec![skip("b.json", "not JSON")]));
    assert_eq!(said.as_deref(), Some("skipped the note file b.json: not JSON"));
    // A store that reads whole again is not news either.
    assert_eq!(alerts.of(Ok(vec![])), None);
    assert_eq!(alerts.of(Ok(vec![])), None);
}

#[test]
fn a_store_that_cannot_be_read_is_said_once() {
    let mut alerts = Alerts::default();
    let said = alerts.of(Err("permission denied".to_owned()));
    assert_eq!(said.as_deref(), Some("could not read the notes: permission denied"));
    assert_eq!(alerts.of(Err("permission denied".to_owned())), None);
    assert_eq!(alerts.of(Err("gone".to_owned())).as_deref(), Some("could not read the notes: gone"));
    // Reading again clears the failure, so the same failure after is news.
    assert_eq!(alerts.of(Ok(vec![])), None);
    assert_eq!(
        alerts.of(Err("gone".to_owned())).as_deref(),
        Some("could not read the notes: gone")
    );
}

#[test]
fn the_first_file_named_is_the_one_that_sorts_first() {
    let mut alerts = Alerts::default();
    let said = alerts.of(Ok(vec![skip("c", "z"), skip("a", "y"), skip("a", "x"), skip("b", "w")]));
    assert_eq!(said.as_deref(), Some("skipped the note file a and 3 more: x"));
}
