use vigia::glyphs::Glyphs;
use vigia::render::{
    margins_of, sheet_pages_of, sheet_plan, Shape, Rect, fields_of, inset_of, keyboard, margin_of, mouse, planning_width, purpose_fits, sections,
    settled_layout, sheet_beside, sheet_fields, sheet_room, sheet_roomy, sheet_rows,
    widest_fitting_or_last, BAR_WIDTH, DROP_ORDER, KIND_WIDTH, PURPOSE_ROWS, RAIL_FLOOR,
    RAIL_FROM, RAIL_PATH, ROOMY_GAP, ROOMY_HEADING_INSET, ROOMY_INSET, SETTLED_CELLS,
    SHEET_KEEP, SHEET_PURPOSE,
};

fn width_of(text: &str) -> usize {
    ratatui::text::Span::raw(text).width()
}

/// The rail's floor is the sum it is written as, checked against a computed
/// glance cluster rather than against its own expansion.
#[test]
fn the_rails_floor_is_the_settled_cluster_and_a_path() {
    let settled = settled_layout();
    assert_eq!(
        SETTLED_CELLS,
        settled.width(Glyphs::Block),
        "the settled cluster's width is written out as {SETTLED_CELLS} and computes to {}",
        settled.width(Glyphs::Block)
    );
    for glyphs in [Glyphs::Block, Glyphs::Braille, Glyphs::Octant] {
        assert!(
            settled.width(glyphs) <= SETTLED_CELLS,
            "{glyphs:?} draws the settled cluster in {} columns",
            settled.width(glyphs)
        );
    }
    assert_eq!(
        RAIL_FLOOR as usize,
        BAR_WIDTH
            + inset_of(RAIL_FROM) as usize
            + KIND_WIDTH
            + RAIL_PATH
            + settled.width(Glyphs::Block),
        "the rail's floor is no longer a bar's reserve, the pane's inset, a kind letter, \
         {RAIL_PATH} columns of path and the settled cluster"
    );
    assert_eq!(
        planning_width(RAIL_FLOOR, RAIL_FROM, 0) as usize,
        KIND_WIDTH + RAIL_PATH + settled.width(Glyphs::Block),
        "the narrowest rail no longer plans a row of exactly what its floor was built from"
    );
}

#[test]
fn the_last_rows_to_go_are_the_unguessable_three() {
    let table = keyboard();
    let kept: Vec<&str> = DROP_ORDER[DROP_ORDER.len() - SHEET_KEEP..]
        .iter()
        .map(|&i| table[i].keys[0])
        .collect();
    assert_eq!(
        kept,
        vec!["a", "f", "?  Esc"],
        "the rows the ladder keeps longest are not the three the ruling names"
    );
}

#[test]
fn the_first_row_to_go_is_the_one_the_hint_bar_already_names() {
    assert_eq!(
        keyboard()[DROP_ORDER[0]].keys[0],
        "q  Ctrl+C  Ctrl+D",
        "the first row the ladder gives up is not `q`"
    );
}

#[test]
fn the_drop_order_is_not_the_display_order() {
    let display: Vec<usize> = (0..keyboard().len()).collect();
    assert_ne!(
        DROP_ORDER.to_vec(),
        display,
        "DROP_ORDER has become the display order"
    );
}

#[test]
fn the_roomy_rungs_reach_over_the_mouse_group_is_slack_rather_than_a_rung() {
    let (kb_keys, kb_verb) = fields_of(&keyboard(), 0);
    let (ms_keys, ms_verb) = fields_of(&mouse(), 0);
    assert!(
        ms_keys < kb_keys && ms_verb < kb_verb,
        "the mouse group has caught the keyboard group at the wide spelling \
         ({ms_keys}/{ms_verb} against {kb_keys}/{kb_verb})"
    );
    let mut all = Vec::new();
    for section in sections() {
        all.extend(section.rows.rows());
    }
    let (keys, verb) = fields_of(&all, 0);
    let block = ROOMY_INSET + keys + ROOMY_GAP + verb + ROOMY_INSET + 2;
    for section in sections() {
        let heading = ROOMY_HEADING_INSET + width_of(section.label) + 2;
        assert!(
            heading < block,
            "the section label {:?} needs {heading} columns against the table's {block}",
            section.label
        );
    }
}

#[test]
fn no_section_label_hides_inside_a_cell_or_another_label() {
    let all: Vec<_> = keyboard().into_iter().chain(mouse()).collect();
    for section in sections() {
        for row in all.iter() {
            for cell in row.keys.iter().chain(row.verb.iter()) {
                assert!(
                    !cell.contains(section.label),
                    "the label {:?} hides inside the cell {cell:?}",
                    section.label
                );
            }
        }
    }
    for (i, a) in sections().iter().enumerate() {
        for (j, b) in sections().iter().enumerate() {
            assert!(
                i == j || !b.label.contains(a.label),
                "the label {:?} hides inside the label {:?}",
                a.label,
                b.label
            );
        }
    }
}

#[test]
fn the_rows_given_up_last_are_the_view_toggles_under_the_standing_one() {
    const EXPECTED: [&str; 5] = ["s", "o", "w", "b", "m  Esc"];
    let table = keyboard();
    let outside: Vec<&str> = DROP_ORDER[DROP_ORDER.len() - SHEET_KEEP - EXPECTED.len()..]
        .iter()
        .take(EXPECTED.len())
        .map(|&row| table[row].keys[0])
        .collect();
    assert_eq!(outside, EXPECTED, "the rows given up before the keep-set are {outside:?}");
}

#[test]
fn the_whole_table_in_one_column_fits_i6s_forty_columns() {
    let (keys, verb, total) = sheet_fields(1, 0, true);
    assert_eq!(
        (keys, verb),
        (13, 19),
        "the tight fields are not what the ruling measured"
    );
    assert!(
        total <= 40,
        "the whole table in one column is {total} columns at the tight spelling"
    );
    assert_eq!(total, 38, "the tight one-column sheet is not the 38 the ruling states");
    assert_eq!(
        margin_of(40),
        0,
        "a forty column pane has stopped having forty columns of room"
    );
}

#[test]
fn every_rung_that_carries_the_line_has_the_columns_for_it() {
    let mut rooms = Vec::new();
    for level in [0, 1] {
        for mouse in [true, false] {
            rooms.push(sheet_room(sheet_fields(level, 0, mouse).2, 1));
        }
        rooms.push(sheet_room(sheet_beside(level).2, 1));
    }
    rooms.push(sheet_room(sheet_roomy().1, ROOMY_INSET));
    let ladder: Vec<String> = SHEET_PURPOSE.iter().map(|s| s.to_string()).collect();
    for room in rooms {
        let spelling = widest_fitting_or_last(&ladder, room);
        assert!(
            width_of(&spelling) <= room,
            "a rung with {room} columns of room would draw {spelling:?}, which is {} wide",
            width_of(&spelling)
        );
    }
}

#[test]
fn a_rung_that_has_given_up_a_gesture_refuses_the_line() {
    for from in 1..=keyboard().len() - SHEET_KEEP {
        for mouse in [true, false] {
            assert!(
                !purpose_fits(from, mouse, sheet_rows(from, mouse, false), usize::MAX),
                "a rung {from} rows into DROP_ORDER accepted the line"
            );
        }
    }
    let mouseless = sheet_rows(0, false, false);
    assert!(
        !purpose_fits(0, false, mouseless, usize::MAX),
        "a rung that gave up the whole mouse group accepted the line"
    );
    let whole = sheet_rows(0, true, false);
    assert!(
        purpose_fits(0, true, whole, whole + PURPOSE_ROWS),
        "a page with room for the whole table and the line refused the line"
    );
    assert!(
        !purpose_fits(0, true, whole, whole + PURPOSE_ROWS - 1),
        "a page one row short of the whole table and the line took the line anyway"
    );
}

#[test]
fn a_one_column_rung_counts_its_lines() {
    assert_eq!(sheet_rows(0, true, true), 2 + 19 + 1 + 11);
    assert_eq!(sheet_rows(0, false, false), 19);
    assert_eq!(sheet_rows(5, false, false), 14);
    assert_eq!(sheet_rows(99, false, false), 0);
}

#[test]
fn a_short_pane_pages_the_one_column_sheet_and_a_page_past_the_last_shows_the_last() {
    let area = Rect { x: 0, y: 0, width: 120, height: 10 };
    let margins = margins_of(120);
    let lines = sheet_rows(0, true, false);
    let pages = (lines + 5) / 6;
    let plan = sheet_plan(area, 1, margins, 2).expect("a ten-row pane draws a paged sheet");
    assert_eq!(plan.pages, pages);
    assert_eq!(plan.area.height, 8);
    match plan.shape {
        Shape::Column(c) => {
            assert!(c.mouse && !c.purpose);
            assert_eq!((c.from, c.skip, c.take), (0, 12, 6));
        }
        _ => panic!("a ten-row pane drew something other than one column"),
    }
    let last = sheet_plan(area, 1, margins, 99).expect("the last page is drawn");
    match last.shape {
        Shape::Column(c) => assert_eq!((c.skip, c.take), ((pages - 1) * 6, lines - (pages - 1) * 6)),
        _ => panic!("the last page is not one column"),
    }
    assert_eq!(sheet_pages_of(area, 1, margins), pages);
    assert!(sheet_plan(Rect { x: 0, y: 0, width: 120, height: 6 }, 1, margins, 0).is_none());
}

#[test]
fn a_tall_wide_pane_draws_the_roomy_sheet_centred_between_the_margins() {
    let area = Rect { x: 0, y: 0, width: 200, height: 80 };
    let margins = margins_of(200);
    let plan = sheet_plan(area, 1, margins, 0).expect("a large pane draws the sheet");
    assert!(matches!(plan.shape, Shape::Roomy { .. }));
    assert_eq!(plan.pages, 1);
    let room = 200 - margins.0 - margins.1;
    assert_eq!(plan.area.x, margins.0 + (room - plan.area.width) / 2);
    assert_eq!(plan.close, (plan.area.x + plan.area.width - 3, plan.area.y));
    assert!(plan.area.y >= 1 && plan.area.y + plan.area.height <= 79);
}
