use vigia::env::Environment;
use vigia::glyphs::Glyphs;

#[test]
fn detection_never_lands_on_octants() {
    let cases = [
        Environment::empty().with("TERM_PROGRAM", "ghostty").with("TERM_PROGRAM_VERSION", "1.2.0"),
        Environment::empty().with("TERM", "xterm-kitty").with("KITTY_VERSION", "0.40.0"),
        Environment::empty().with("VTE_VERSION", "7800").with("TERM", "xterm-256color"),
        Environment::empty().with("VIGIA_GLYPHS", "auto").with("TERM", "xterm-ghostty"),
    ];
    for env in cases {
        for windows in [false, true] {
            let got = Glyphs::from_env(windows, &env).expect("detection always decides");
            assert_ne!(got, Glyphs::Octant);
        }
    }
    let env = Environment::empty().with("TERM", "xterm-kitty");
    assert_eq!(Glyphs::from_env(false, &env), Ok(Glyphs::Braille));
}

#[test]
fn octants_are_had_by_asking_for_them() {
    let env = Environment::empty().with("VIGIA_GLYPHS", "octant");
    assert_eq!(Glyphs::from_env(false, &env), Ok(Glyphs::Octant));
    let env = Environment::empty().with("VIGIA_GLYPHS", "OCTANT ").with("TERM", "dumb");
    assert_eq!(Glyphs::from_env(true, &env), Ok(Glyphs::Octant));
}

#[test]
fn a_dumb_terminal_gets_blocks_and_an_unknown_word_is_refused() {
    let env = Environment::empty().with("TERM", "dumb").with("TERM_PROGRAM", "ghostty");
    assert_eq!(Glyphs::from_env(false, &env), Ok(Glyphs::Block));
    let env = Environment::empty().with("VIGIA_GLYPHS", "sextant");
    let err = Glyphs::from_env(false, &env).unwrap_err();
    assert_eq!(err.value, "sextant");
}

#[test]
fn a_braille_cell_lights_the_dots_of_its_two_columns() {
    assert_eq!(Glyphs::Braille.glyph(0, 0), '⣀');
    assert_eq!(Glyphs::Braille.glyph(3, 3), '⣿');
    assert_eq!(Glyphs::Braille.glyph(1, 0), '⣄');
    assert_eq!(Glyphs::Braille.glyph(0, 1), '⣠');
    assert_eq!(Glyphs::Braille.glyph(2, 0), '⣆');
}
