use vigia::notes::{Note, Status};
use vigia::post::{content, content_with, post_each, word, Posted};

fn note() -> Note {
    Note {
        id: String::from("n1"),
        path: String::from("src/a.rs"),
        line: 12,
        body: String::from("why?"),
        status: Status::Open,
        reply: None,
    }
}

#[test]
fn the_agent_reads_the_anchor_the_words_the_lines_and_the_id() {
    let context = vec![(11, String::from("a")), (12, String::from("b")), (9, String::from("c"))];
    assert_eq!(
        content(&note(), &context),
        "vigia note on src/a.rs:12\n\nwhy?\n\n  11 | a\n> 12 | b\n   9 | c\n\nResolve it with the vigia MCP server: resolve(id: \"n1\", note: \"<one line saying what you did>\").\n"
    );
}

#[test]
fn a_note_with_no_context_has_no_block_of_lines() {
    assert_eq!(
        content(&note(), &[]),
        "vigia note on src/a.rs:12\n\nwhy?\n\nResolve it with the vigia MCP server: resolve(id: \"n1\", note: \"<one line saying what you did>\").\n"
    );
}

#[test]
fn the_id_is_quoted_as_debug_quotes_it() {
    let mut n = note();
    n.id = String::from("a\"b");
    let text = content(&n, &[]);
    assert!(text.contains("resolve(id: \"a\\\"b\", note:"));
    assert_eq!(content_with(&n, &[], "X"), "vigia note on src/a.rs:12\n\nwhy?\n\nResolve it with the vigia MCP server: resolve(id: X, note: \"<one line saying what you did>\").\n");
}

#[test]
fn the_footer_says_sent_and_noted_and_nothing_without_a_hook() {
    assert_eq!(word(Posted::Unregistered), None);
    assert_eq!(word(Posted::Sent), Some("sent"));
    assert_eq!(word(Posted::Failed), Some("noted"));
}

#[test]
fn a_post_is_sent_where_one_session_took_it_and_noted_otherwise() {
    assert_eq!(post_each(None), Posted::Failed);
    assert_eq!(post_each(Some(&[])), Posted::Unregistered);
    assert_eq!(post_each(Some(&[false, true, false])), Posted::Sent);
    assert_eq!(post_each(Some(&[false, false])), Posted::Failed);
    assert_eq!(post_each(Some(&[true])), Posted::Sent);
}
