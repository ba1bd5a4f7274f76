use vigia::input::{Action, Cell, Held, STEP_DELAY, STEP_REPEAT};

#[test]
fn a_hold_fires_once_per_instant_and_waits_again() {
    let at = Cell { column: 3, row: 4 };
    let h = Held::new(Action::Scroll(1), at, 1_000);
    let due = 1_000 + STEP_DELAY;
    assert_eq!(Held::wait(Some(h), due - 1), Some(1));
    assert!(h.fire(due - 1).is_none());
    // Two and a half intervals late: three steps at once.
    let now = due + 2 * STEP_REPEAT + STEP_REPEAT / 2;
    let (action, next) = h.fire(now).expect("due");
    assert_eq!(action, Action::Scroll(3));
    assert_eq!(next.at(), at);
    assert_eq!(Held::wait(Some(next), now), Some(STEP_REPEAT / 2));
    assert!(next.fire(now).is_none());
    // Exactly on time: one step, and a whole interval to wait.
    let (action, next) = h.fire(due).expect("due");
    assert_eq!(action, Action::Scroll(1));
    assert_eq!(Held::wait(Some(next), due), Some(STEP_REPEAT));
}
