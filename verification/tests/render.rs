use vigia::menu::{Caret, Menu, Settings, SETTINGS};
use vigia::glyphs::Glyphs;
use vigia::render::{
    bar_for, Body, flush_right, content_span, counts_edge, past, shown_of, Shape, Column, Group, planning_width, BAR_WIDTH, menu_drawn, menu_plan, menu_rows_of, MENU_LABEL, spark_of, Bucket, churn_of, diagnostic_rungs, text_within, Rect, content_width, count_cell, deep_of, facts_of, indent_of, inset_of, level_to, list_cap,
    margin_of, margins_of, memory_cell, position_of, scrollable, span, word_tail, Band, Bar, LIST_SETTLED,
    MIB,
};

#[test]
fn the_margin_narrows_down_its_ladder() {
    assert_eq!(margin_of(200), 4);
    assert_eq!(margin_of(80), 4);
    assert_eq!(margin_of(79), 3);
    assert_eq!(margin_of(78), 2);
    assert_eq!(margin_of(44), 2);
    assert_eq!(margin_of(43), 1);
    assert_eq!(margin_of(42), 0);
    assert_eq!(margin_of(0), 0);
}

#[test]
fn the_two_margins_share_the_margin_and_the_odd_column_goes_left() {
    for pane in [0u16, 43, 44, 79, 80, 300] {
        let (left, right) = margins_of(pane);
        assert_eq!(left + right, margin_of(pane));
        assert!(left >= right);
        assert_eq!(inset_of(pane), left);
    }
    assert_eq!(margins_of(79), (2, 1));
    assert_eq!(margins_of(43), (1, 0));
}

#[test]
fn the_list_takes_a_quarter_and_never_fewer_than_its_floor() {
    assert_eq!(deep_of(40), 10);
    assert_eq!(list_cap(40), 10);
    assert_eq!(list_cap(12), LIST_SETTLED);
    assert_eq!(list_cap(0), LIST_SETTLED);
}

#[test]
fn a_bar_takes_a_column_only_where_there_is_somewhere_to_scroll() {
    assert!(scrollable(10, 20));
    assert!(!scrollable(20, 20));
    assert!(!scrollable(0, 0));
    assert_eq!(bar_for(true, 10, 5, 50), Bar::Stepped);
    assert_eq!(bar_for(true, 3, 5, 50), Bar::Bare);
    assert_eq!(bar_for(true, 1, 5, 50), Bar::Absent);
    assert_eq!(bar_for(false, 10, 5, 50), Bar::Absent);
    assert_eq!(bar_for(true, 10, 50, 50), Bar::Absent);
    assert!(Bar::Stepped.drawn());
    assert!(!Bar::Absent.drawn());
    assert_eq!(Bar::Stepped.track(4, 10), (5, 8));
    assert_eq!(Bar::Bare.track(4, 10), (4, 10));
    assert_eq!(Bar::Stepped.track(u16::MAX, 1), (u16::MAX, 0));
}

#[test]
fn the_note_count_reads_as_the_footer_words_it() {
    assert_eq!(count_cell(0, 3), "");
    assert_eq!(count_cell(1, 0), "1 note");
    assert_eq!(count_cell(2, 0), "2 notes");
    assert_eq!(count_cell(12, 1), "12 notes · 1 adrift");
}

#[test]
fn the_position_counts_from_one_and_stops_at_the_largest_number() {
    assert_eq!(position_of(0, 0), "");
    assert_eq!(position_of(0, 7), "1/7");
    assert_eq!(position_of(6, 7), "7/7");
    assert_eq!(position_of(usize::MAX, 3), format!("{}/3", usize::MAX));
}

#[test]
fn the_facts_are_listed_in_the_order_a_header_gives_them_up() {
    assert!(facts_of(0, 0, 0, Some(2)).is_empty());
    assert_eq!(facts_of(3, 0, 0, None), vec!["3 changed"]);
    assert_eq!(facts_of(3, 1, 2, Some(4)), vec!["3 changed", "1 binary", "2 hidden", "4 staged"]);
    assert_eq!(facts_of(0, 0, 1, None), vec!["0 changed", "1 hidden"]);
}

#[test]
fn memory_is_whole_mebibytes_right_aligned_until_a_gibibyte() {
    assert_eq!(memory_cell(0), "  0MiB");
    assert_eq!(memory_cell(12 * MIB + 5), " 12MiB");
    assert_eq!(memory_cell(999 * MIB), "999MiB");
    assert_eq!(memory_cell(1000 * MIB), " >1GiB");
    assert_eq!(memory_cell(u64::MAX), " >1GiB");
}

#[test]
fn busyness_falls_in_thirds_of_the_busiest() {
    assert_eq!(Band::of(0, 9), Band::Low);
    assert_eq!(Band::of(2, 9), Band::Low);
    assert_eq!(Band::of(3, 9), Band::Warm);
    assert_eq!(Band::of(6, 9), Band::Hot);
    assert_eq!(Band::of(u32::MAX, u32::MAX), Band::Hot);
    assert_eq!(Band::of(0, 0), Band::Hot);
}

#[test]
fn a_level_rounds_up_and_rises_with_the_count() {
    assert_eq!(level_to(0, 10, 8), 0);
    assert_eq!(level_to(1, 0, 8), 0);
    assert_eq!(level_to(1, 100, 8), 1);
    assert_eq!(level_to(50, 100, 8), 4);
    assert_eq!(level_to(51, 100, 8), 5);
    assert_eq!(level_to(100, 100, 8), 8);
    assert_eq!(level_to(500, 100, 8), 8);
    let mut last = 0;
    for total in 0..=120u32 {
        let now = level_to(total, 100, 8);
        assert!(now >= last);
        last = now;
    }
}

#[test]
fn content_width_pays_the_gutter_and_the_sigil() {
    assert_eq!(content_width(0, 80), 78);
    assert_eq!(content_width(4, 80), 73);
    assert_eq!(content_width(4, 3), 0);
}

#[test]
fn a_hunk_side_is_git_shorthand() {
    assert_eq!(span(12, 1), "12");
    assert_eq!(span(12, 0), "12,0");
    assert_eq!(span(3, 40), "3,40");
}

#[test]
fn a_continuation_keeps_the_lines_indent_but_never_past_half() {
    assert_eq!(indent_of("    x", 40), 4);
    assert_eq!(indent_of("\tx", 40), 4);
    assert_eq!(indent_of("  \tx", 40), 4);
    assert_eq!(indent_of("x", 40), 0);
    assert_eq!(indent_of("                    x", 10), 5);
    assert_eq!(indent_of("   ", 40), 3);
}

#[test]
fn the_word_tail_sits_between_blanks_before_the_rules() {
    assert_eq!(word_tail("sent"), " sent ───");
}

#[test]
fn churn_abbreviates_only_what_will_not_fit() {
    assert_eq!(churn_of('+', 0), "+0");
    assert_eq!(churn_of('+', 250), "+250");
    assert_eq!(churn_of('-', 9999), "-9999");
    assert_eq!(churn_of('+', 10_000), "+10k");
    assert_eq!(churn_of('+', 999_999), "+999k");
    assert_eq!(churn_of('+', 1_000_000), "+1M");
    assert_eq!(churn_of('+', 999_999_999), "+999M");
    assert_eq!(churn_of('+', u32::MAX), "+4G");
    for lines in [0u32, 7, 12_345, 7_654_321, 3_000_000_000] {
        assert!(churn_of('+', lines).chars().count() <= 5, "{lines}");
    }
}

#[test]
fn an_unknown_depth_or_glyph_rung_names_the_variable_and_the_choices() {
    let depth = vigia::colour::DepthError { value: String::from("millions") };
    assert_eq!(depth.message(), "VIGIA_COLOR: \"millions\" is not one of auto, never, 16, 256, truecolor");
    let glyphs = vigia::glyphs::GlyphsError { value: String::from("x") };
    assert_eq!(glyphs.message(), "VIGIA_GLYPHS: \"x\" is not one of auto, block, braille, octant");
}

#[test]
fn text_keeps_inside_the_margins_and_a_bar_takes_its_column() {
    let area = Rect { x: 0, y: 2, width: 80, height: 10 };
    assert_eq!(text_within(area, (2, 2)), Rect { x: 2, y: 2, width: 76, height: 10 });
    assert_eq!(text_within(Rect { x: 0, y: 0, width: 3, height: 1 }, (2, 2)), Rect { x: 2, y: 0, width: 0, height: 1 });
    assert_eq!(Bar::Bare.narrows(area), Rect { width: 78, ..area });
    assert_eq!(Bar::Absent.narrows(area), area);
    assert_eq!(diagnostic_rungs(Some(String::from("4ms")), Some(3 * MIB)), vec!["4ms    3MiB", "4ms", ""]);
    assert_eq!(diagnostic_rungs(Some(String::from("4ms")), None), vec!["4ms", ""]);
    assert_eq!(diagnostic_rungs(None, Some(3 * MIB)), vec![""]);
}

#[test]
fn a_sparkline_packs_its_rung_into_cells_the_busier_of_a_pair_deciding() {
    let mut window = [0u32; 24];
    window[23] = 5;
    let drawn = spark_of(&window, 24, 5, Glyphs::Block);
    assert_eq!(drawn.len(), 24);
    assert!(drawn[..23].iter().all(|b| *b == Bucket::Empty));
    assert_eq!(drawn[23], Bucket::Written(Glyphs::Block.glyph(8, 0), Band::Hot, 7));

    let ones = [1u32; 24];
    let drawn = spark_of(&ones, 12, 4, Glyphs::Braille);
    for cell in 0..6 {
        assert_eq!(drawn[cell], Bucket::Written(Glyphs::Braille.glyph(2, 2), Band::Warm, 3));
    }
    assert!(drawn[6..].iter().all(|b| *b == Bucket::Empty));

    assert!(spark_of(&ones, 0, 4, Glyphs::Block).iter().all(|b| *b == Bucket::Empty));
    assert!(spark_of(&ones, 25, 4, Glyphs::Block).iter().all(|b| *b == Bucket::Empty));
    assert!(spark_of(&ones, 24, 0, Glyphs::Block).iter().all(|b| *b == Bucket::Empty));
}

fn body_of(lead: usize, list: usize, rule: bool, diff: usize, rail: bool) -> Body {
    Body { lead, list, rule, diff, rail, overview: false, diff_width: 80, sheet_pages: None, menu_rows: None }
}

#[test]
fn a_stacked_body_puts_the_rule_under_the_list_and_the_diff_under_the_rule() {
    let area = Rect { x: 0, y: 0, width: 80, height: 20 };
    let areas = body_of(1, 3, true, 10, false).areas(area);
    assert_eq!(areas.list, Rect { x: 0, y: 2, width: 80, height: 3 });
    assert_eq!(areas.rule, Rect { x: 0, y: 5, width: 80, height: 1 });
    assert_eq!(areas.diff, Rect { x: 0, y: 6, width: 80, height: 10 });
    assert_eq!(areas.bars(), (true, true));
}

#[test]
fn a_rail_shares_the_rows_and_splits_the_columns() {
    let area = Rect { x: 4, y: 1, width: 90, height: 20 };
    let areas = body_of(0, 12, false, 12, true).areas(area);
    assert_eq!(areas.list, Rect { x: 4, y: 2, width: 68, height: 12 });
    assert_eq!(areas.rule, Rect { x: 4, y: 2, width: 0, height: 0 });
    assert_eq!(areas.diff, Rect { x: 72, y: 2, width: 22, height: 12 });
    let wide = body_of(0, 12, false, 12, true).areas(Rect { x: 0, y: 0, width: 240, height: 20 });
    assert_eq!((wide.list.width, wide.diff.x, wide.diff.width), (80, 80, 160));
    let narrow = body_of(0, 12, false, 12, true).areas(Rect { x: 0, y: 0, width: 3, height: 20 });
    assert_eq!(narrow.list.width, 3);
    assert_eq!(narrow.diff.width, 0);
    assert_eq!(narrow.bars(), (false, false));
}

#[test]
fn the_menu_is_as_wide_as_it_may_be_and_centred_in_the_body() {
    let m = margins_of(80);
    let room = 80 - m.0 - m.1;
    let plan = menu_plan(Rect { x: 0, y: 0, width: 80, height: 30 }, 1, m, 0).expect("a roomy pane draws the menu");
    assert_eq!(plan.area, Rect { x: m.0 + (room - 52) / 2, y: 8, width: 52, height: 14 });
    assert_eq!((plan.inset, plan.rows, plan.counter.clone()), (5, 10, None));
    assert_eq!(plan.close, (plan.area.x + 49, 8));
    assert_eq!(plan.state_cell(3), Rect { x: plan.area.x + 52 - 8, y: 13, width: 3, height: 1 });
}

#[test]
fn a_short_menu_counts_its_window_and_a_narrow_one_takes_the_tight_inset() {
    let short = menu_plan(Rect { x: 0, y: 0, width: 80, height: 8 }, 1, margins_of(80), 0).expect("two rows are a menu");
    assert_eq!((short.rows, short.counter.clone()), (2, Some(String::from("1-2 of 10 "))));
    assert_eq!((short.area.y, short.area.height), (1, 6));
    let narrow = menu_plan(Rect { x: 0, y: 0, width: 38, height: 30 }, 1, (0, 0), 0).expect("thirty-eight columns hold a row");
    assert_eq!((narrow.area.x, narrow.area.width, narrow.inset), (0, 38, 4));
    assert!(menu_plan(Rect { x: 0, y: 0, width: 36, height: 30 }, 1, (0, 0), 0).is_none());
    assert!(menu_plan(Rect { x: 0, y: 0, width: 80, height: 6 }, 1, margins_of(80), 0).is_none());
}

#[test]
fn the_menus_window_follows_the_caret_and_its_label_field_fits_the_widest_label() {
    let menu = Menu { caret: Caret { at: 5, top: 0 }, settings: Settings::default() };
    let area = Rect { x: 0, y: 0, width: 80, height: 8 };
    assert_eq!(menu_rows_of(area, 1, margins_of(80), menu), 2);
    let drawn = menu_drawn(area, 1, margins_of(80), menu).expect("the menu is drawn");
    assert_eq!(drawn.counter, Some(String::from("5-6 of 10 ")));
    assert_eq!(SETTINGS.iter().map(|s| s.label().len()).max(), Some(MENU_LABEL));
}

#[test]
fn text_flush_right_takes_the_last_cells_or_none() {
    let row = Rect { x: 0, y: 3, width: 20, height: 1 };
    assert_eq!(flush_right(row, 5), Some(Rect { x: 15, y: 3, width: 5, height: 1 }));
    assert_eq!(flush_right(row, 0), None);
    assert_eq!(flush_right(row, 21), None);
    assert_eq!(flush_right(row, 20), Some(Rect { x: 0, y: 3, width: 20, height: 1 }));
}

#[test]
fn a_rows_glyphs_start_at_the_inset_and_the_counts_end_before_the_bar() {
    let region = Rect { x: 0, y: 2, width: 80, height: 10 };
    let pane = Rect { x: 0, y: 0, width: 80, height: 24 };
    assert_eq!(
        content_span(region, pane),
        Rect { x: inset_of(80), y: 2, width: planning_width(80, 80, 0), height: 10 }
    );
    assert_eq!(counts_edge(120, 0), BAR_WIDTH);
    assert_eq!(counts_edge(80, 3), 0);
}

#[test]
fn a_slot_costs_its_columns_and_the_blank_before_it() {
    let mut right = Rect { x: 0, y: 0, width: 30, height: 1 };
    past(&mut right, 4);
    assert_eq!(right.width, 25);
    past(&mut right, 0);
    assert_eq!(right.width, 25);
    past(&mut right, 40);
    assert_eq!(right.width, 0);
}

#[test]
fn a_page_counts_the_gestures_it_draws_and_the_whole_table_counts_none() {
    let group = Group { at: 1, keys: 10, verb: 10, gap: 2 };
    let page = |skip: usize, take: usize, purpose: bool| Column { from: 0, mouse: true, purpose, group, skip, take };
    assert_eq!(shown_of(page(6, 6, false)), Some((7, 12)));
    assert_eq!(shown_of(page(12, 6, false)), Some((13, 18)));
    assert_eq!(shown_of(page(18, 6, false)), Some((19, 23)));
    assert_eq!(shown_of(page(0, 6, true)), Some((1, 4)));
    assert_eq!(shown_of(page(0, 31, false)), None);
    assert_eq!(Shape::Column(page(6, 6, false)).shown(), Some((7, 12)));
    assert_eq!(Shape::Roomy { group }.shown(), None);
}

#[test]
fn a_list_alone_or_beside_carries_no_side_fields() {
    let alone = vigia::render::Body::alone(30);
    assert!(alone.overview);
    assert_eq!((alone.lead, alone.list, alone.diff), (1, 29, 0));
    assert_eq!(alone.diff_width, 0);
    assert_eq!(alone.sheet_pages, None);
    assert_eq!(alone.menu_rows, None);
    let beside = vigia::render::Body::beside(30, 12);
    assert!(beside.rail);
    assert_eq!((beside.lead, beside.list, beside.diff), (1, 12, 29));
    assert_eq!(beside.diff_width, 0);
    assert_eq!(beside.sheet_pages, None);
    assert_eq!(beside.menu_rows, None);
}
