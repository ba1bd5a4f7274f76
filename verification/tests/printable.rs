use vigia::printable::{breaks_of, detabbed, elide_head, printable, split_at, walk_printable};
use vigia::quote::{code_rows, Class, CodeRow, Run, Span};

#[test]
fn a_tab_reaches_its_stop_and_a_control_character_is_a_dot() {
    let mut column = 0;
    let p = printable("a\tb", &mut column, 80);
    assert_eq!(p.text, "a   b");
    assert_eq!((p.examined, p.clipped, p.at, p.column, column), (3, false, 3, 5, 5));
    let mut column = 0;
    let p = printable("\u{1}x", &mut column, 80);
    assert_eq!(p.text, "\u{b7}x");
    assert_eq!(p.column, 2);
}

#[test]
fn the_walk_stops_at_the_rows_edge() {
    let mut column = 0;
    let p = printable("abcdef", &mut column, 3);
    assert_eq!(p.text, "abc");
    assert_eq!((p.examined, p.clipped, p.at, p.column), (3, true, 3, 3));
}

#[test]
fn a_wide_character_that_straddles_the_edge_clips_the_row() {
    let mut column = 0;
    let p = printable("ab\u{65e5}", &mut column, 3);
    assert_eq!(p.text, "ab\u{65e5}");
    assert_eq!((p.examined, p.clipped, p.at, p.column), (3, true, 5, 4));
}

#[test]
fn the_presentation_selector_is_dropped_and_a_combining_mark_costs_nothing() {
    let mut column = 0;
    let p = printable("a\u{fe0f}b", &mut column, 10);
    assert_eq!(p.text, "ab");
    assert_eq!((p.examined, p.column), (3, 2));
    let mut column = 0;
    let p = printable("e\u{301}x", &mut column, 10);
    assert_eq!(p.text, "e\u{301}x");
    assert_eq!(p.column, 2);
}

#[test]
fn a_line_of_zero_width_characters_still_ends() {
    let line = "\u{200b}".repeat(20);
    let mut column = 0;
    let p = printable(&line, &mut column, 1);
    assert_eq!(p.text, "\u{200b}".repeat(8));
    assert_eq!((p.examined, p.clipped, p.at, p.column), (8, true, 24, 0));
}

#[test]
fn a_walk_asked_for_no_text_writes_none() {
    let mut column = 2;
    let p = walk_printable("abc", &mut column, 80, None);
    assert_eq!(p.text, "");
    assert_eq!((p.column, column), (5, 5));
    let mut column = 0;
    let p = walk_printable("bc", &mut column, 80, Some(String::from("a")));
    assert_eq!(p.text, "abc");
}

#[test]
fn a_line_breaks_where_the_walk_left_the_room() {
    assert_eq!(split_at("abcdef", 3), Some(3));
    assert_eq!(split_at("abc", 3), None);
    assert_eq!(split_at("ab\u{65e5}x", 3), Some(2));
    assert_eq!(split_at("abc", 0), None);
}

#[test]
fn every_break_of_a_line_in_order_and_continuations_lose_the_indent() {
    assert_eq!(breaks_of("abcdefgh", 3, 8), vec![3, 6]);
    assert_eq!(breaks_of("  abcdefgh", 6, 10), vec![6]);
    assert_eq!(breaks_of("abcdef", 3, 0), Vec::<usize>::new());
    assert_eq!(breaks_of("abc", 0, 5), Vec::<usize>::new());
    assert_eq!(breaks_of("\u{65e5}\u{672c}\u{8a9e}\u{65e5}", 4, 12), vec![6]);
}

#[test]
fn a_head_that_does_not_fit_is_cut_and_marked() {
    assert_eq!(elide_head("src/main.rs", 6), "\u{2026}in.rs");
    assert_eq!(elide_head("main.rs", 7), "main.rs");
    assert_eq!(elide_head("main.rs", 0), "");
    assert_eq!(elide_head("\u{65e5}\u{672c}\u{8a9e}", 4), "\u{2026}\u{8a9e}");
}

fn run(len: usize, class: Class) -> Run {
    Run { len, class: Some(class) }
}

#[test]
fn a_long_line_becomes_rows_whose_runs_cover_them() {
    let lines = vec![String::from("abcdefgh")];
    let spans = vec![vec![Span { len: 3, class: Class::Tagged(1) }]];
    let rows = code_rows(&lines, &spans, 3);
    assert_eq!(
        rows,
        vec![
            CodeRow { text: String::from("abc"), runs: vec![run(3, Class::Tagged(1))], indent: 0 },
            CodeRow { text: String::from("def"), runs: vec![run(3, Class::Plain)], indent: 0 },
            CodeRow { text: String::from("gh"), runs: vec![run(2, Class::Plain)], indent: 0 },
        ]
    );
}

#[test]
fn a_continuation_stands_in_by_the_lines_indent() {
    let lines = vec![String::from("  abcdefgh"), String::from("x")];
    let rows = code_rows(&lines, &[], 6);
    assert_eq!(
        rows,
        vec![
            CodeRow { text: String::from("  abcd"), runs: vec![run(6, Class::Plain)], indent: 0 },
            CodeRow { text: String::from("efgh"), runs: vec![run(4, Class::Plain)], indent: 2 },
            CodeRow { text: String::from("x"), runs: vec![run(1, Class::Plain)], indent: 0 },
        ]
    );
}

#[test]
fn no_room_keeps_the_line_whole() {
    let lines = vec![String::from("abcdefgh")];
    let rows = code_rows(&lines, &[], 0);
    assert_eq!(rows, vec![CodeRow { text: String::from("abcdefgh"), runs: vec![run(8, Class::Plain)], indent: 0 }]);
}

#[test]
fn tabs_expand_to_their_stops_and_a_line_feed_starts_over() {
    assert_eq!(detabbed("a\tb"), "a   b");
    assert_eq!(detabbed("\tx\n\ty"), "    x\n    y");
    assert_eq!(detabbed("\u{65e5}\tz"), "\u{65e5}  z");
    assert_eq!(detabbed("no tabs"), "no tabs");
}
