use vigia::input::Action;
use vigia::shell::{
    duration_for, effect_interval, flips, linger_for, request_for, scaled, worth_warming, Request, Sending,
    Voice, ARRIVED_LINGER, MILLI, NOTICE_LINGER,
};

fn args(words: &[&str]) -> Vec<Vec<u8>> {
    words.iter().map(|w| w.as_bytes().to_vec()).collect()
}

#[test]
fn no_argument_watches_and_one_path_watches() {
    assert_eq!(request_for(&args(&[])), Request::Watch);
    assert_eq!(request_for(&args(&["src/main.rs"])), Request::Watch);
    assert_eq!(request_for(&args(&["mcpx"])), Request::Watch);
}

#[test]
fn the_version_has_two_spellings() {
    assert_eq!(request_for(&args(&["--version"])), Request::Version);
    assert_eq!(request_for(&args(&["-V"])), Request::Version);
    assert_eq!(request_for(&args(&["-v"])), Request::NoSuchOption);
    assert_eq!(request_for(&args(&["--help"])), Request::NoSuchOption);
}

#[test]
fn the_server_and_its_two_words() {
    assert_eq!(request_for(&args(&["mcp"])), Request::Mcp);
    assert_eq!(request_for(&args(&["mcp", "register"])), Request::McpRegister);
    assert_eq!(request_for(&args(&["mcp", "pending"])), Request::McpPending);
    assert_eq!(request_for(&args(&["mcp", "serve"])), Request::NoSuchWord);
    assert_eq!(request_for(&args(&["a", "b"])), Request::TooManyArguments);
    assert_eq!(request_for(&args(&["mcp", "pending", "x"])), Request::TooManyArguments);
}

#[test]
fn an_argument_that_is_not_text_is_still_a_path() {
    let odd = vec![vec![0xff, 0xfe, b'x']];
    assert_eq!(request_for(&odd), Request::Watch);
}

#[test]
fn an_announcement_outlasts_a_receipt() {
    assert_eq!(linger_for(Voice::Said), NOTICE_LINGER);
    assert_eq!(linger_for(Voice::Alert), NOTICE_LINGER);
    assert_eq!(linger_for(Voice::Arrived), ARRIVED_LINGER);
    assert!(linger_for(Voice::Said) < linger_for(Voice::Arrived));
    for voice in [Voice::Said, Voice::Arrived, Voice::Alert] {
        assert!(2 * duration_for(voice) < linger_for(voice), "{voice:?}");
    }
    assert_eq!(duration_for(Voice::Said), 550 * MILLI);
    assert_eq!(duration_for(Voice::Arrived), 750 * MILLI);
    assert_eq!(duration_for(Voice::Alert), 450 * MILLI);
}

#[test]
fn effects_wait_for_the_last_paint_only_while_they_run() {
    assert_eq!(effect_interval(true, 12 * MILLI), 12 * MILLI);
    assert_eq!(effect_interval(false, 12 * MILLI), 0);
}

#[test]
fn a_demand_is_warmed_when_new_or_written() {
    let a = vec![String::from("a.rs"), String::from("b.rs")];
    let b = vec![String::from("a.rs")];
    assert!(!worth_warming(&[], &b, true));
    assert!(!worth_warming(&a, &a, false));
    assert!(worth_warming(&a, &a, true));
    assert!(worth_warming(&a, &b, false));
}

#[test]
fn the_footer_counts_the_lines_it_sends() {
    let one = Sending::lines(&[String::from("only")]);
    assert_eq!(one.text, "only");
    assert_eq!(one.said, "1 line");
    let three = Sending::lines(&[String::from("a"), String::new(), String::from("c")]);
    assert_eq!(three.text, "a\n\nc");
    assert_eq!(three.said, "3 lines");
}

#[test]
fn a_drag_never_reaches_the_count() {
    assert_eq!(scaled(0, 10), 0);
    assert_eq!(scaled(32768, 10), 5);
    assert_eq!(scaled(65535, 10), 9);
    assert_eq!(scaled(65535, 0), 0);
    assert_eq!(scaled(65535, 65536), 65535);
}

#[test]
fn the_menu_rows_flip_their_own_toggle() {
    assert_eq!(flips(0), Some(Action::ToggleFollow));
    assert_eq!(flips(8), Some(Action::ToggleLinks));
    assert_eq!(flips(9), None);
    assert_eq!(flips(10), None);
    assert_eq!(flips(12), Some(Action::TogglePersist));
    assert_eq!(flips(13), Some(Action::MenuReset));
    assert_eq!(flips(14), None);
}

#[test]
fn a_relative_worktree_root_is_named_by_the_folder_it_resolves_to() {
    assert_eq!(vigia::shell::short_name(None, Some("vigia".to_owned()), ".".to_owned()), "vigia");
    assert_eq!(vigia::shell::short_name(Some("tree".to_owned()), Some("other".to_owned()), "/src/tree".to_owned()), "tree");
    assert_eq!(vigia::shell::short_name(None, None, "/".to_owned()), "/");
}

#[test]
fn a_directory_weighs_nothing_and_a_gone_file_weighs_zero() {
    assert_eq!(vigia::shell::weigh(vigia::shell::Found::Directory), None);
    assert_eq!(vigia::shell::weigh(vigia::shell::Found::File(42)), Some(42));
    assert_eq!(vigia::shell::weigh(vigia::shell::Found::Missing), Some(0));
    assert_eq!(vigia::shell::weigh(vigia::shell::Found::Unreadable), None);
}

#[test]
fn the_first_frame_is_plain_and_the_second_colours() {
    let p = vigia::shell::Paint::Never;
    assert!(!p.highlights());
    assert!(!p.owes_repaint());
    let p = p.painted();
    assert_eq!(p, vigia::shell::Paint::Plain);
    assert!(p.owes_repaint());
    assert!(p.highlights());
    let p = p.painted();
    assert_eq!(p, vigia::shell::Paint::Coloured);
    assert!(!p.owes_repaint());
    assert_eq!(p.painted(), vigia::shell::Paint::Coloured);
}
