use vigia::quote::{chunks, lines_of, merged, push, rebase, runs_of, utf8_count, Chunk, Class, Run, Span};

fn prose(c: &Chunk) -> Option<&str> {
    match c {
        Chunk::Prose(t) => Some(t.as_str()),
        Chunk::Code { .. } => None,
    }
}

fn code(c: &Chunk) -> Option<(Option<&str>, Vec<&str>)> {
    match c {
        Chunk::Code { token, lines } => Some((token.as_deref(), lines.iter().map(|l| l.as_str()).collect())),
        Chunk::Prose(_) => None,
    }
}

#[test]
fn lines_drop_one_carriage_return_each() {
    assert_eq!(lines_of("a\r\nb\r\r\nc"), vec!["a", "b\r", "c"]);
    assert_eq!(lines_of(""), vec![""]);
    assert_eq!(lines_of("x\n"), vec!["x", ""]);
}

#[test]
fn a_reply_without_a_fence_is_one_prose_chunk_holding_it_exactly() {
    let got = chunks("one\ntwo\n");
    assert_eq!(got.len(), 1);
    assert_eq!(prose(&got[0]), Some("one\ntwo\n"));
}

#[test]
fn a_fenceless_reply_keeps_its_carriage_returns() {
    let got = chunks("a\r\nb");
    assert_eq!(got.len(), 1);
    assert_eq!(prose(&got[0]), Some("a\r\nb"));
    let got = chunks("");
    assert_eq!(got.len(), 1);
    assert_eq!(prose(&got[0]), Some(""));
}

#[test]
fn a_fence_splits_prose_from_code_and_names_its_language() {
    let got = chunks("before\n```rust\nfn x() {}\n  y\n```\nafter");
    assert_eq!(got.len(), 3);
    assert_eq!(prose(&got[0]), Some("before"));
    assert_eq!(code(&got[1]), Some((Some("rust"), vec!["fn x() {}", "  y"])));
    assert_eq!(prose(&got[2]), Some("after"));
}

#[test]
fn a_fence_left_open_runs_to_the_end() {
    let got = chunks("```\na\nb");
    assert_eq!(got.len(), 1);
    assert_eq!(code(&got[0]), Some((None, vec!["a", "b"])));
}

#[test]
fn a_block_of_four_quotes_a_block_of_three_whole() {
    let got = chunks("````md\n```\ninner\n```\n````");
    assert_eq!(got.len(), 1);
    assert_eq!(code(&got[0]), Some((Some("md"), vec!["```", "inner", "```"])));
}

#[test]
fn a_name_holding_a_backtick_names_nothing() {
    let got = chunks("```a`b\nx\n```");
    assert_eq!(code(&got[0]), Some((None, vec!["x"])));
}

#[test]
fn runs_are_clipped_to_the_piece_and_rebased_onto_it() {
    let runs = [
        Run { len: 3, class: None },
        Run { len: 4, class: Some(Class::Plain) },
        Run { len: 5, class: Some(Class::Tagged(2)) },
    ];
    let got = rebase(&runs, &(2..9));
    assert_eq!(
        got,
        vec![
            Run { len: 1, class: None },
            Run { len: 4, class: Some(Class::Plain) },
            Run { len: 2, class: Some(Class::Tagged(2)) },
        ]
    );
    let total: usize = got.iter().map(|r| r.len).sum();
    assert_eq!(total, 7, "the clipped runs cover the piece exactly");
}

#[test]
fn a_piece_past_every_run_keeps_none() {
    let spans = [Span { len: 2, class: Class::Plain }];
    assert!(rebase(&spans, &(5..8)).is_empty());
    assert!(rebase(&spans, &(1..1)).is_empty());
}

#[test]
fn a_backticked_pair_is_unwrapped_into_a_plain_run() {
    let (text, runs) = vigia::quote::inline("run `cargo test` now");
    assert_eq!(text, "run cargo test now");
    assert_eq!(
        runs,
        vec![
            Run { len: 4, class: None },
            Run { len: 10, class: Some(Class::Plain) },
            Run { len: 4, class: None },
        ]
    );
    let total: usize = runs.iter().map(|r| r.len).sum();
    assert_eq!(total, text.len(), "the runs cover the text");
}

#[test]
fn a_paragraph_with_no_pair_comes_back_whole_with_no_runs() {
    assert_eq!(vigia::quote::inline("no pairs here"), (String::from("no pairs here"), vec![]));
    assert_eq!(vigia::quote::inline("an `unclosed tick"), (String::from("an `unclosed tick"), vec![]));
    assert_eq!(vigia::quote::inline("``x"), (String::from("``x"), vec![]));
}

#[test]
fn runs_count_bytes_rather_than_characters() {
    let (text, runs) = vigia::quote::inline("`é` and `日本`");
    assert_eq!(text, "é and 日本");
    assert_eq!(
        runs,
        vec![
            Run { len: 2, class: Some(Class::Plain) },
            Run { len: 5, class: None },
            Run { len: 6, class: Some(Class::Plain) },
        ]
    );
    assert_eq!(utf8_count(&"日本é!".chars().collect::<Vec<char>>()), "日本é!".len());
}

#[test]
fn a_lines_runs_follow_its_spans_and_end_plain() {
    let spans = [Span { len: 3, class: Class::Tagged(1) }, Span { len: 10, class: Class::Tagged(2) }];
    assert_eq!(
        runs_of(&spans, 5),
        vec![Run { len: 3, class: Some(Class::Tagged(1)) }, Run { len: 2, class: Some(Class::Tagged(2)) }]
    );
    assert_eq!(runs_of(&[], 4), vec![Run { len: 4, class: Some(Class::Plain) }]);
    assert_eq!(runs_of(&[Span { len: 2, class: Class::Plain }], 5), vec![Run { len: 5, class: Some(Class::Plain) }]);
    assert!(runs_of(&spans, 0).is_empty());
}

#[test]
fn neighbours_of_one_class_fold_and_empty_runs_go() {
    let runs = vec![
        Run { len: 1, class: None },
        Run { len: 0, class: Some(Class::Plain) },
        Run { len: 2, class: None },
        Run { len: 4, class: Some(Class::Tagged(3)) },
    ];
    assert_eq!(merged(runs), vec![Run { len: 3, class: None }, Run { len: 4, class: Some(Class::Tagged(3)) }]);
    let mut out = vec![Run { len: 2, class: None }];
    push(&mut out, 0, Some(Class::Plain));
    push(&mut out, 3, None);
    assert_eq!(out, vec![Run { len: 5, class: None }]);
}
