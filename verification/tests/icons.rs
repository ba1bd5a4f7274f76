use vigia::icons::{icon_of, GENERIC, GIT};

#[test]
fn a_known_extension_names_its_glyph_and_an_unknown_one_the_generic() {
    assert_eq!(icon_of("src/render/frame.rs"), '\u{e7a8}');
    assert_eq!(icon_of("docs/THEME.md"), '\u{f48a}');
    assert_eq!(icon_of(".gitignore"), '\u{e702}');
    assert_eq!(icon_of("assets/blob.bin"), GENERIC);
    assert_eq!(icon_of("no-extension"), GENERIC);
    // A file named like an extension has none.
    assert_eq!(icon_of("src/rs"), GENERIC);
    assert_eq!(icon_of("SRC/MAIN.RS"), '\u{e7a8}', "case folds");
}

#[test]
fn the_git_mark_reads_the_name_and_not_the_directory() {
    assert_eq!(icon_of("repo/.GitAttributes"), GIT);
    assert_eq!(icon_of(".git/config"), GENERIC);
    assert_eq!(icon_of(".gi"), GENERIC);
}

#[test]
fn a_dotfile_and_the_parent_directory_have_no_extension() {
    assert_eq!(icon_of(".bashrc"), GENERIC);
    assert_eq!(icon_of(".."), GENERIC);
    assert_eq!(icon_of("dir/"), GENERIC);
    assert_eq!(icon_of("archive.tar.json"), '\u{e60b}');
    assert_eq!(icon_of("trailing."), GENERIC);
}

#[test]
fn every_family_of_the_table_is_reached() {
    assert_eq!(icon_of("a.mjs"), '\u{e74e}');
    assert_eq!(icon_of("a.tsx"), '\u{e628}');
    assert_eq!(icon_of("a.py"), '\u{e73c}');
    assert_eq!(icon_of("a.rb"), '\u{e739}');
    assert_eq!(icon_of("a.java"), '\u{e738}');
    assert_eq!(icon_of("a.fish"), '\u{f489}');
    assert_eq!(icon_of("a.markdown"), '\u{f48a}');
    assert_eq!(icon_of("Cargo.lock"), '\u{e60b}');
    assert_eq!(icon_of("a.YML"), '\u{e615}');
    assert_eq!(icon_of("a.markdowns"), GENERIC);
}
