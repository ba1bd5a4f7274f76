use vigia::clipboard::{copy, encode, owes_escape, put, route, CallLog, Carrier, Route};

/// The vectors are the ones the widely used terminal crate's own clipboard
/// command writes, so this asserts agreement with an independent encoder.
#[test]
fn the_sequence_is_the_one_crossterm_would_have_written() {
    assert_eq!(copy("foo"), "\x1b]52;c;Zm9v\x1b\\");
}

/// The two remainders, which are where a hand-rolled encoder goes wrong.
#[test]
fn both_padding_lengths_are_right() {
    for (text, want) in [
        ("", ""),
        ("f", "Zg=="),
        ("fo", "Zm8="),
        ("foo", "Zm9v"),
        ("foob", "Zm9vYg=="),
        ("fooba", "Zm9vYmE="),
        ("foobar", "Zm9vYmFy"),
    ] {
        assert_eq!(encode(text), want, "{text:?} encoded wrong");
    }
}

const ALPHABET: &[u8; 64] = b"ABCDEFGHIJKLMNOPQRSTUVWXYZabcdefghijklmnopqrstuvwxyz0123456789+/";

fn decode(text: &str) -> Vec<u8> {
    let bits: Vec<u32> = text
        .bytes()
        .filter(|b| *b != b'=')
        .map(|b| ALPHABET.iter().position(|a| *a == b).expect("in alphabet") as u32)
        .collect();
    let mut out = Vec::new();
    for chunk in bits.chunks(4) {
        let mut packed = 0u32;
        for (i, six) in chunk.iter().enumerate() {
            packed |= six << (18 - 6 * i);
        }
        for i in 0..chunk.len() - 1 {
            out.push(((packed >> (16 - 8 * i)) & 0xff) as u8);
        }
    }
    out
}

/// A path is not ASCII in general, and the encoder walks bytes rather than
/// characters.
#[test]
fn a_multibyte_path_survives_the_round_trip() {
    for text in ["src/café.rs", "日本語/ファイル.rs", "a/b\u{200b}c.rs"] {
        let encoded = encode(text);
        assert!(
            encoded.is_ascii(),
            "{text:?} encoded to something the escape cannot carry"
        );
        assert_eq!(decode(&encoded), text.as_bytes(), "{text:?} did not survive");
    }
}

#[test]
fn every_group_of_three_bytes_is_four_characters() {
    for n in 0..20 {
        let text = "x".repeat(n);
        assert_eq!(encode(&text).len(), (n + 2) / 3 * 4);
    }
}

#[test]
fn a_pane_inside_tmux_routes_through_it_and_an_empty_value_is_no_pane() {
    assert_eq!(route(Some("/tmp/tmux-1000/default,123,0")), Route::Tmux);
    assert_eq!(route(Some("")), Route::Escape);
    assert_eq!(route(None), Route::Escape);
}

#[test]
fn the_escape_is_owed_unless_tmux_carried_it() {
    assert!(!owes_escape(Route::Tmux, true));
    assert!(owes_escape(Route::Tmux, false));
    assert!(owes_escape(Route::Escape, true));
    assert!(owes_escape(Route::Escape, false));
}

struct Fake {
    tmux_ok: bool,
    tmux: Vec<String>,
    terminal: Vec<String>,
}

impl Carrier for Fake {
    fn calls(&self) -> CallLog {
        unreachable!("the record of calls is a specification and is never read at run time")
    }

    fn to_tmux(&mut self, text: &str) -> std::io::Result<()> {
        self.tmux.push(text.to_owned());
        if self.tmux_ok {
            Ok(())
        } else {
            Err(std::io::Error::other("unknown flag -w"))
        }
    }

    fn to_terminal(&mut self, sequence: &str) -> std::io::Result<()> {
        self.terminal.push(sequence.to_owned());
        Ok(())
    }
}

#[test]
fn an_old_tmux_falls_back_to_the_escape_and_a_new_one_does_not() {
    let mut old = Fake { tmux_ok: false, tmux: vec![], terminal: vec![] };
    put(&mut old, "foo", Route::Tmux).expect("the escape carried it");
    assert_eq!(old.tmux, vec!["foo".to_owned()]);
    assert_eq!(old.terminal, vec![copy("foo")]);

    let mut new = Fake { tmux_ok: true, tmux: vec![], terminal: vec![] };
    put(&mut new, "foo", Route::Tmux).expect("tmux carried it");
    assert!(new.terminal.is_empty());

    let mut plain = Fake { tmux_ok: true, tmux: vec![], terminal: vec![] };
    put(&mut plain, "foo", Route::Escape).expect("the escape carried it");
    assert!(plain.tmux.is_empty());
    assert_eq!(plain.terminal, vec![copy("foo")]);
}

#[test]
fn the_payload_never_holds_a_delimiter_whatever_the_text() {
    for text in ["a\x1b\x07\\b", "\x1b]52;c;\x1b\\", "plain", "日本\u{7f}"] {
        let sequence = vigia::clipboard::copy(text);
        let inner = &sequence[7..sequence.len() - 2];
        assert!(
            inner.chars().all(|c| c.is_ascii_alphanumeric() || "+/=".contains(c)),
            "{text:?} leaked into the payload"
        );
    }
}
