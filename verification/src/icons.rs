//! Which Nerd Font glyph names a file's type, when a reader has asked for one.

use vstd::prelude::*;
use crate::text::{chars_of, is_word, lower, lowered, slice_of};

verus! {

/// The mark for a file the table has no entry for.
pub const GENERIC: char = '\u{f016}';

/// The mark for the files git keeps beside a tree: `.gitignore` and its kin.
pub const GIT: char = '\u{e702}';

/// Where the last `c` in `s` stands, or -1 where there is none.
pub open spec fn last_at(s: Seq<char>, c: char) -> int
    decreases s.len(),
{
    if s.len() == 0 {
        -1
    } else if s.last() == c {
        s.len() - 1
    } else {
        last_at(s.drop_last(), c)
    }
}

/// The last segment of `path`: what follows its last `/`, or all of it.
pub open spec fn file_name(path: Seq<char>) -> Seq<char> {
    path.subrange(last_at(path, '/') + 1, path.len() as int)
}

/// The extension of a file name the way `Path::extension` reads it: what
/// follows the last `.`, where that dot is not the name's first character and
/// the name is not `..`.
pub open spec fn extension(name: Seq<char>) -> Option<Seq<char>> {
    if name == seq!['.', '.'] {
        None
    } else if last_at(name, '.') <= 0 {
        None
    } else {
        Some(name.subrange(last_at(name, '.') + 1, name.len() as int))
    }
}

/// Whether a name opens with `.git`, in any case.
pub open spec fn git_named(name: Seq<char>) -> bool {
    name.len() >= 4 && lower(name.subrange(0, 4)) == ".git"@
}

/// The glyph a lower-case extension names, or the generic mark.
pub open spec fn glyph_for(ext: Seq<char>) -> char {
    if ext == "rs"@ {
        '\u{e7a8}'
    } else if ext == "js"@ || ext == "mjs"@ || ext == "cjs"@ {
        '\u{e74e}'
    } else if ext == "ts"@ || ext == "tsx"@ || ext == "jsx"@ {
        '\u{e628}'
    } else if ext == "py"@ {
        '\u{e73c}'
    } else if ext == "rb"@ {
        '\u{e739}'
    } else if ext == "java"@ {
        '\u{e738}'
    } else if ext == "sh"@ || ext == "bash"@ || ext == "zsh"@ || ext == "fish"@ {
        '\u{f489}'
    } else if ext == "md"@ || ext == "markdown"@ {
        '\u{f48a}'
    } else if ext == "json"@ || ext == "lock"@ {
        '\u{e60b}'
    } else if ext == "toml"@ || ext == "yaml"@ || ext == "yml"@ || ext == "ini"@ || ext
        == "conf"@ {
        '\u{e615}'
    } else {
        GENERIC
    }
}

/// The glyph for a path: the git mark for a name opening with `.git`, else the
/// table's entry for its extension, folded to lower case, else the generic mark.
pub open spec fn icon(path: Seq<char>) -> char {
    let name = file_name(path);
    if git_named(name) {
        GIT
    } else {
        match extension(name) {
            None => GENERIC,
            Some(ext) => glyph_for(lower(ext)),
        }
    }
}

/// Where the last `c` in `s` stands.
fn last_index(s: &[char], c: char) -> (r: Option<usize>)
    ensures
        match r {
            Some(i) => i == last_at(s@, c) && i < s@.len(),
            None => last_at(s@, c) == -1,
        },
{
    let mut i: usize = s.len();
    assert(s@.subrange(0, s@.len() as int) =~= s@);
    while i > 0
        invariant
            i <= s@.len(),
            last_at(s@, c) == last_at(s@.subrange(0, i as int), c),
        decreases i,
    {
        if s[i - 1] == c {
            return Some(i - 1);
        }
        assert(s@.subrange(0, i as int).drop_last() =~= s@.subrange(0, i - 1));
        i -= 1;
    }
    None
}

/// The extension of `name`, read the way `Path::extension` reads it.
fn extension_of(name: &[char]) -> (r: Option<Vec<char>>)
    ensures
        match r {
            Some(e) => extension(name@) == Some(e@),
            None => extension(name@) is None,
        },
{
    if name.len() == 2 && name[0] == '.' && name[1] == '.' {
        assert(name@ =~= seq!['.', '.']);
        return None;
    }
    assert(name@ != seq!['.', '.']);
    match last_index(name, '.') {
        None => None,
        Some(0) => None,
        Some(dot) => Some(slice_of(name, dot + 1, name.len())),
    }
}

/// The glyph a lower-case extension names.
fn glyph(ext: &[char]) -> (c: char)
    ensures
        c == glyph_for(ext@),
{
    if is_word(ext, "rs") {
        '\u{e7a8}'
    } else if is_word(ext, "js") || is_word(ext, "mjs") || is_word(ext, "cjs") {
        '\u{e74e}'
    } else if is_word(ext, "ts") || is_word(ext, "tsx") || is_word(ext, "jsx") {
        '\u{e628}'
    } else if is_word(ext, "py") {
        '\u{e73c}'
    } else if is_word(ext, "rb") {
        '\u{e739}'
    } else if is_word(ext, "java") {
        '\u{e738}'
    } else if is_word(ext, "sh") || is_word(ext, "bash") || is_word(ext, "zsh") || is_word(
        ext,
        "fish",
    ) {
        '\u{f489}'
    } else if is_word(ext, "md") || is_word(ext, "markdown") {
        '\u{f48a}'
    } else if is_word(ext, "json") || is_word(ext, "lock") {
        '\u{e60b}'
    } else if is_word(ext, "toml") || is_word(ext, "yaml") || is_word(ext, "yml") || is_word(
        ext,
        "ini",
    ) || is_word(ext, "conf") {
        '\u{e615}'
    } else {
        GENERIC
    }
}

/// The glyph for `path`, by its extension or well-known name.
pub fn icon_of(path: &str) -> (c: char)
    ensures
        c == icon(path@),
{
    let chars = chars_of(path);
    let start: usize = match last_index(chars.as_slice(), '/') {
        Some(i) => {
            assert(i < chars.len());
            i + 1
        },
        None => 0,
    };
    let name = slice_of(chars.as_slice(), start, chars.len());
    assert(name@ =~= file_name(path@));
    if name.len() >= 4 {
        let head = slice_of(name.as_slice(), 0, 4);
        let folded = lowered(head.as_slice());
        if is_word(folded.as_slice(), ".git") {
            return GIT;
        }
    }
    match extension_of(name.as_slice()) {
        None => GENERIC,
        Some(ext) => {
            let folded = lowered(ext.as_slice());
            glyph(folded.as_slice())
        },
    }
}

} // verus!
