use vigia::scroll::{
    bottom_of, browse, diff_to, dragged_to, file_step, landing, pinned_file, screenful, scroll, step_by, top_of, up,
    Position,
};
use vigia::shell::scaled;

fn at(file: usize, row: usize) -> Position {
    Position { file, row }
}

const ROWS: [usize; 3] = [5, 3, 4];

#[test]
fn scrolling_up_walks_back_across_the_files_above() {
    assert_eq!(up(at(2, 1), false, 3, &ROWS), at(1, 1));
    assert_eq!(up(at(2, 1), false, 1, &ROWS), at(2, 0));
    assert_eq!(up(at(2, 1), false, 2, &ROWS), at(1, 2));
    assert_eq!(up(at(2, 1), false, 100, &ROWS), at(0, 0));
}

#[test]
fn a_pinned_scroll_up_stops_at_the_files_top() {
    assert_eq!(up(at(2, 1), true, 3, &ROWS), at(2, 0));
    assert_eq!(up(at(2, 9), true, 3, &ROWS), at(2, 6));
}

#[test]
fn a_stale_file_index_is_clamped_before_the_walk() {
    assert_eq!(up(at(7, 2), false, 1, &ROWS), at(2, 1));
    assert_eq!(up(at(7, 2), false, 0, &[]), at(0, 0));
}

#[test]
fn two_scrolls_up_land_where_one_of_their_sum_does() {
    for a in 0..15 {
        for b in 0..15 {
            assert_eq!(
                up(up(at(2, 3), false, a, &ROWS), false, b, &ROWS),
                up(at(2, 3), false, a + b, &ROWS)
            );
        }
    }
}

#[test]
fn down_then_up_by_the_same_rows_returns() {
    let down = scroll(at(2, 1), false, 4, &ROWS);
    assert_eq!(down, at(2, 5));
    assert_eq!(scroll(down, false, -4, &ROWS), at(2, 1));
    assert_eq!(scroll(at(2, 1), false, 0, &ROWS), at(2, 1));
    assert_eq!(scroll(at(2, 1), false, isize::MIN, &ROWS), at(0, 0));
    assert_eq!(scroll(at(0, usize::MAX - 1), false, 5, &ROWS), at(0, usize::MAX));
}

#[test]
fn a_step_is_at_least_one_row() {
    assert_eq!(step_by(at(2, 1), false, -1, 10, &ROWS), at(0, 0));
    assert_eq!(step_by(at(2, 1), false, 2, 0, &ROWS), at(2, 3));
    assert_eq!(step_by(at(2, 1), false, isize::MAX, 10, &ROWS), at(2, 1 + isize::MAX as usize));
}

#[test]
fn a_screenful_is_what_the_last_frame_showed_inside_the_pane() {
    assert_eq!(screenful(0, 20), 20);
    assert_eq!(screenful(15, 20), 15);
    assert_eq!(screenful(30, 20), 20);
}

#[test]
fn a_drag_takes_its_fraction_of_the_travel() {
    assert_eq!(dragged_to(false, 0, 32768, 100, 20), 40);
    assert_eq!(dragged_to(false, 0, 65536, 100, 20), 80);
    assert_eq!(dragged_to(true, 0, 65536, 100, 20), 100);
    assert_eq!(dragged_to(false, 0, 65536, 10, 20), 0);
    assert_eq!(scaled(65536, 10), 10);
}

#[test]
fn a_row_of_the_diff_lands_in_the_file_it_falls_inside() {
    assert_eq!(landing(0, &ROWS), at(0, 0));
    assert_eq!(landing(4, &ROWS), at(0, 4));
    assert_eq!(landing(5, &ROWS), at(1, 0));
    assert_eq!(landing(7, &ROWS), at(1, 2));
    assert_eq!(landing(8, &ROWS), at(2, 0));
    assert_eq!(landing(20, &ROWS), at(2, 12));
    assert_eq!(landing(3, &[]), at(0, 0));
}

#[test]
fn a_drag_pinned_moves_inside_its_file() {
    assert_eq!(diff_to(Some(1), false, 0, 32768, 20, 100, &[]), at(1, 40));
    assert_eq!(diff_to(None, false, 0, 65536, 2, 14, &ROWS), at(2, 4));
    assert_eq!(diff_to(None, false, 0, 0, 2, 14, &ROWS), at(0, 0));
}

#[test]
fn a_pin_is_clamped_to_the_files_there_are() {
    assert_eq!(pinned_file(true, at(5, 0), 3), Some(2));
    assert_eq!(pinned_file(true, at(1, 0), 3), Some(1));
    assert_eq!(pinned_file(false, at(1, 0), 3), None);
    assert_eq!(pinned_file(true, at(1, 0), 0), None);
}

#[test]
fn the_top_and_bottom_keys_land_on_headings() {
    assert_eq!(top_of(true, at(2, 7)), at(2, 0));
    assert_eq!(top_of(false, at(2, 7)), at(0, 0));
    assert_eq!(bottom_of(Some(1), 50, 20, 3), at(1, 30));
    assert_eq!(bottom_of(Some(1), 10, 20, 3), at(1, 0));
    assert_eq!(bottom_of(None, 50, 20, 3), at(2, 0));
    assert_eq!(bottom_of(None, 50, 20, 0), at(0, 0));
}

#[test]
fn a_file_step_reaches_only_files_there_are() {
    assert_eq!(file_step(1, 1, 3), Some(2));
    assert_eq!(file_step(2, 1, 3), None);
    assert_eq!(file_step(0, -1, 3), None);
    assert_eq!(file_step(2, -2, 3), Some(0));
    assert_eq!(file_step(usize::MAX, 1, 3), None);
    assert_eq!(file_step(0, isize::MIN, 3), None);
}

#[test]
fn the_list_window_stops_following_only_where_it_moved() {
    assert_eq!(browse(4, true, 10, 6), (6, false));
    assert_eq!(browse(6, true, 9, 6), (6, true));
    assert_eq!(browse(2, true, 1, 6), (1, false));
}
