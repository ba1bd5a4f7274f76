use vigia::config::{parse, rewrite, Config, ConfigError};

fn chars(s: &str) -> Vec<char> {
    s.chars().collect()
}

fn shipped_toggles(c: &Config) -> [bool; 10] {
    [
        c.follow, c.rail, c.single, c.overview, c.staged, c.wrap, c.notes, c.icons, c.links, c.persist,
    ]
}

#[test]
fn an_empty_file_is_the_shipped_pane() {
    let c = parse("", None).expect("an empty file parses");
    let d = Config::default();
    assert_eq!(shipped_toggles(&c), shipped_toggles(&d));
    assert_eq!(shipped_toggles(&c), [true, false, false, false, false, false, true, false, true, false]);
    assert_eq!(c.hide, None);
}

#[test]
fn blank_lines_and_comments_say_nothing() {
    let c = parse("\n   \n# follow = off\n\t# rail = on\n", None).expect("parses");
    assert_eq!(shipped_toggles(&c), shipped_toggles(&Config::default()));
}

#[test]
fn values_are_read_around_white_space_and_a_trailing_comment() {
    let c = parse("  follow   =   off   # quiet\r\nrail=on\nhide = ^target/ # build output\n", None).expect("parses");
    assert!(!c.follow);
    assert!(c.rail);
    assert_eq!(c.hide.as_deref(), Some("^target/"));
}

#[test]
fn a_hash_inside_a_value_is_not_a_comment() {
    let c = parse("hide = a#b\n", None).expect("parses");
    assert_eq!(c.hide.as_deref(), Some("a#b"));
}

#[test]
fn the_byte_order_mark_is_not_part_of_the_first_key() {
    let c = parse("\u{FEFF}wrap = on\n", None).expect("a marked file parses");
    assert!(c.wrap);
}

#[test]
fn an_unknown_key_names_its_line() {
    match parse("follow = on\ncolour = on\n", None) {
        Err(ConfigError::UnknownKey { line, key }) => {
            assert_eq!(line, 2);
            assert_eq!(key, "colour");
        },
        other => panic!("expected an unknown key, got {other:?}"),
    }
}

#[test]
fn a_value_other_than_on_or_off_is_refused() {
    match parse("rail = yes\n", None) {
        Err(ConfigError::UnknownValue { line, key, value }) => {
            assert_eq!(line, 1);
            assert_eq!(key, "rail");
            assert_eq!(value, "yes");
        },
        other => panic!("expected an unknown value, got {other:?}"),
    }
}

#[test]
fn a_key_with_only_a_comment_after_it_has_no_value() {
    match parse("\nwrap = # later\n", None) {
        Err(ConfigError::MissingValue { line }) => assert_eq!(line, 2),
        other => panic!("expected a missing value, got {other:?}"),
    }
}

#[test]
fn a_line_without_an_equals_sign_is_refused_with_its_text() {
    match parse("follow on\n", None) {
        Err(ConfigError::MissingSeparator { line, text }) => {
            assert_eq!(line, 1);
            assert_eq!(text, "follow on");
        },
        other => panic!("expected a missing separator, got {other:?}"),
    }
}

#[test]
fn a_key_set_twice_names_both_lines() {
    match parse("icons = on\n\nicons = off\n", None) {
        Err(ConfigError::RepeatedKey { line, key, first }) => {
            assert_eq!(line, 3);
            assert_eq!(key, "icons");
            assert_eq!(first, 1);
        },
        other => panic!("expected a repeated key, got {other:?}"),
    }
}

#[test]
fn the_first_fault_is_the_one_reported() {
    match parse("nope\ncolour = on\n", None) {
        Err(ConfigError::MissingSeparator { line, .. }) => assert_eq!(line, 1),
        other => panic!("expected the first line's fault, got {other:?}"),
    }
}

#[test]
fn set_and_toggle_agree_and_refuse_an_unknown_key() {
    let mut c = Config::default();
    assert!(c.set(&chars("staged"), true));
    assert!(c.staged);
    assert!(c.toggle(&chars("staged")));
    assert!(!c.set(&chars("hide"), true));
    assert!(!c.toggle(&chars("nothing")));
}

#[test]
fn a_rewrite_replaces_only_the_value_and_keeps_the_comment() {
    let mut c = Config::default();
    c.follow = false;
    let source = "follow   = on  # keep me\nrail = off\n# a note\nsingle = off\noverview = off\nstaged = off\nwrap = off\nnotes = on\nicons = off\nlinks = on\npersist = off\n";
    let out = rewrite(source, &c);
    assert_eq!(
        out,
        "follow   = off # keep me\nrail = off\n# a note\nsingle = off\noverview = off\nstaged = off\nwrap = off\nnotes = on\nicons = off\nlinks = on\npersist = off\n"
    );
}

#[test]
fn a_rewrite_appends_the_keys_a_file_lacks_with_its_own_ending() {
    let c = Config::default();
    let out = rewrite("# mine\r\nwrap = on\r\n", &c);
    assert_eq!(
        out,
        "# mine\r\nwrap = off\r\nfollow = on\r\nrail = off\r\nsingle = off\r\noverview = off\r\nstaged = off\r\nnotes = on\r\nicons = off\r\nlinks = on\r\npersist = off\r\n"
    );
}

#[test]
fn a_last_line_without_an_ending_is_ended_before_the_appended_ones() {
    let c = Config::default();
    let out = rewrite("hide = x", &c);
    assert!(out.starts_with("hide = x\nfollow = on\n"));
    assert!(out.ends_with("persist = off\n"));
}

#[test]
fn a_rewrite_keeps_the_mark_and_the_pattern() {
    let mut c = Config::default();
    c.hide = Some(String::from("ignored"));
    let out = rewrite("\u{FEFF}hide = ^a\n", &c);
    assert!(out.starts_with("\u{FEFF}hide = ^a\n"));
    let back = parse(&out, None).expect("the rewritten file parses");
    assert_eq!(back.hide.as_deref(), Some("^a"));
}

#[test]
fn a_saved_file_reads_back_as_the_pane_and_its_own_pattern() {
    let sources = [
        "",
        "follow = off\n",
        "  rail=on   # side\r\n\r\nhide = x\r\n",
        "# only a comment",
        "wrap = on\nicons = on\nlinks = off",
        "\u{FEFF}persist = on\n",
    ];
    let mut pane = Config::default();
    pane.follow = false;
    pane.rail = true;
    pane.overview = true;
    pane.links = false;
    pane.persist = true;
    for source in sources {
        let file = parse(source, None).expect("each source parses");
        let back = parse(&rewrite(source, &pane), None).expect("the rewritten file parses");
        assert_eq!(shipped_toggles(&back), shipped_toggles(&pane), "{source:?}");
        assert_eq!(back.hide, file.hide, "{source:?}");
    }
}

#[test]
fn one_unended_line_closing_on_a_carriage_return_joins_what_is_appended() {
    let pane = Config::default();
    let out = rewrite("wrap = on\r", &pane);
    assert!(out.starts_with("wrap = off\r"));
    assert!(!out.contains('\n'));
    assert!(parse(&out, None).is_err());
}

#[test]
fn each_refusal_says_its_line_and_what_is_wrong() {
    let unknown = ConfigError::UnknownKey { line: 2, key: String::from("colour") };
    assert_eq!(
        unknown.message(),
        "line 2: \"colour\" is not a view setting. There are 11: follow, rail, single, overview, staged, wrap, notes, icons, links, persist, hide"
    );
    let value = ConfigError::UnknownValue { line: 3, key: String::from("rail"), value: String::from("yes") };
    assert_eq!(value.message(), "line 3: rail is \"yes\", which is neither `on` nor `off`");
    assert_eq!(
        ConfigError::MissingValue { line: 4 }.message(),
        "line 4: this key has nothing after its `=`. Write `on` or `off`"
    );
    assert_eq!(
        ConfigError::MissingSeparator { line: 5, text: String::from("follow on") }.message(),
        "line 5: \"follow on\" has no `=` in it"
    );
    assert_eq!(
        ConfigError::RepeatedKey { line: 9, key: String::from("wrap"), first: 1 }.message(),
        "line 9: wrap was already set on line 1. Remove one of them rather than leaving which one wins to the reader"
    );
    assert_eq!(
        ConfigError::BadPattern { line: 6, why: String::from("unclosed group") }.message(),
        "line 6: hide is not a pattern: unclosed group"
    );
    assert_eq!(
        ConfigError::Unreadable { path: String::from("/c"), why: String::from("denied") }.message(),
        "/c: denied"
    );
    assert_eq!(
        ConfigError::Unwritable { path: String::from("/c"), why: String::from("denied") }.message(),
        "denied: /c"
    );
}

#[test]
fn a_quoted_value_is_quoted_as_debug_quotes_it() {
    let odd = ConfigError::MissingSeparator { line: 1, text: String::from("a\"b\tc") };
    assert_eq!(odd.message(), format!("line 1: {:?} has no `=` in it", "a\"b\tc"));
}

#[test]
fn a_pattern_the_engine_refuses_is_refused_at_its_line_before_a_later_fault() {
    let source = "follow = on\nhide = (unclosed\ncolour = on\n";
    assert_eq!(vigia::config::pattern(source), Some(String::from("(unclosed")));
    match parse(source, Some(String::from("unclosed group"))) {
        Err(ConfigError::BadPattern { line, why }) => {
            assert_eq!(line, 2);
            assert_eq!(why, "unclosed group");
        }
        other => panic!("expected the pattern refused, got {other:?}"),
    }
    assert!(matches!(parse(source, None), Err(ConfigError::UnknownKey { line: 3, .. })));
    let admitted = parse("hide = ^target/\n", None).expect("an admitted pattern parses");
    assert_eq!(admitted.hide.as_deref(), Some("^target/"));
    assert!(matches!(parse("rail = on\n", Some(String::from("unused"))), Ok(_)));
    assert!(matches!(parse("wrap = yes\nhide = x\n", Some(String::from("bad"))), Err(ConfigError::UnknownValue { line: 1, .. })));
    assert_eq!(vigia::config::pattern("# hide = a\nrail = on\n"), None);
}
