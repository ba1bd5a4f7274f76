//! What the pane starts as, before anybody presses anything.
//!
//! A config is a list of `key = on` lines and nothing else. Reading one refuses
//! anything it does not understand, naming the line; writing one back replaces
//! only the values this pane owns and leaves the reader's layout alone.

use vstd::prelude::*;
use crate::text::{
    chars_of, decimal, is_white, is_word, lead_of, lead_white, slice_of, string_of, tail_white, trim, trim_end,
    trim_start, trimmed, white_space,
};
use crate::quote::{
    lemma_lines_after_feed, lemma_split_lines_nonempty, line_chars, split_lines, strip_cr, text_lines,
};

verus! {

/// Where the view defaults are read from, under the reader's home directory.
pub const CONFIG_FILE: &'static str = ".config/vigia/config";

/// Every toggle this file accepts, in the order the gestures sheet lists them.
pub const KEYS: [&'static str; 10] = [
    "follow",
    "rail",
    "single",
    "overview",
    "staged",
    "wrap",
    "notes",
    "icons",
    "links",
    "persist",
];

/// Every setting that takes a value rather than `on` or `off`.
pub const VALUES: [&'static str; 1] = ["hide"];

/// The state a pane starts in.
#[derive(Debug, Clone)]
pub struct Config {
    /// Move the viewport to what just changed. `f`.
    pub follow: bool,
    /// Ask for the pinned list beside the diff. `r`.
    pub rail: bool,
    /// Pin the diff to one file. `s`.
    pub single: bool,
    /// Draw the file list alone, with no diff under it. `o`.
    pub overview: bool,
    /// Draw the staged run beside the unstaged one. `a`.
    pub staged: bool,
    /// Wrap a content line too wide for the pane onto the row below. `w`.
    pub wrap: bool,
    /// Draw the rows of the reader's notes under their lines. `c`.
    pub notes: bool,
    /// Draw a file-type icon before every listed path. No gesture; config only.
    pub icons: bool,
    /// Wrap every listed path in an OSC 8 hyperlink to its file. Config only.
    pub links: bool,
    /// Write what the reader flips back into this file.
    pub persist: bool,
    /// The pattern of paths to keep out of the pane, as the file spells it. No
    /// gesture: a pattern is a decision about a repository rather than a moment.
    pub hide: Option<String>,
}

/// A config's settings, the pattern as its characters.
pub struct Defaults {
    pub follow: bool,
    pub rail: bool,
    pub single: bool,
    pub overview: bool,
    pub staged: bool,
    pub wrap: bool,
    pub notes: bool,
    pub icons: bool,
    pub links: bool,
    pub persist: bool,
    pub hide: Option<Seq<char>>,
}

impl View for Config {
    type V = Defaults;

    open spec fn view(&self) -> Defaults {
        Defaults {
            follow: self.follow,
            rail: self.rail,
            single: self.single,
            overview: self.overview,
            staged: self.staged,
            wrap: self.wrap,
            notes: self.notes,
            icons: self.icons,
            links: self.links,
            persist: self.persist,
            hide: match self.hide {
                Some(p) => Some(p@),
                None => None,
            },
        }
    }
}

/// Every toggle off but follow, the notes and the links, which is the shipped pane.
pub open spec fn shipped() -> Defaults {
    Defaults {
        follow: true,
        rail: false,
        single: false,
        overview: false,
        staged: false,
        wrap: false,
        notes: true,
        icons: false,
        links: true,
        persist: false,
        hide: None,
    }
}

impl Default for Config {
    fn default() -> (r: Self)
        ensures
            r@ == shipped(),
    {
        Config {
            follow: true,
            rail: false,
            single: false,
            overview: false,
            staged: false,
            wrap: false,
            notes: true,
            icons: false,
            links: true,
            persist: false,
            hide: None,
        }
    }
}

/// Whether `key` names one of the toggles.
pub open spec fn is_toggle(key: Seq<char>) -> bool {
    key == "follow"@ || key == "rail"@ || key == "single"@ || key == "overview"@ || key
        == "staged"@ || key == "wrap"@ || key == "notes"@ || key == "icons"@ || key == "links"@
        || key == "persist"@
}

/// Whether `key` names a valued setting.
pub open spec fn is_valued(key: Seq<char>) -> bool {
    key == "hide"@
}

/// `c` with the toggle `key` set to `on`.
#[verifier::opaque]
pub open spec fn with_toggle(c: Defaults, key: Seq<char>, on: bool) -> Defaults {
    if key == "follow"@ {
        Defaults { follow: on, ..c }
    } else if key == "rail"@ {
        Defaults { rail: on, ..c }
    } else if key == "single"@ {
        Defaults { single: on, ..c }
    } else if key == "overview"@ {
        Defaults { overview: on, ..c }
    } else if key == "staged"@ {
        Defaults { staged: on, ..c }
    } else if key == "wrap"@ {
        Defaults { wrap: on, ..c }
    } else if key == "notes"@ {
        Defaults { notes: on, ..c }
    } else if key == "icons"@ {
        Defaults { icons: on, ..c }
    } else if key == "links"@ {
        Defaults { links: on, ..c }
    } else if key == "persist"@ {
        Defaults { persist: on, ..c }
    } else {
        c
    }
}

/// Setting a toggle changes that toggle's field and no other.
pub proof fn lemma_with_toggle(c: Defaults, key: Seq<char>, on: bool)
    ensures
        with_toggle(c, key, on).follow == (if key == "follow"@ { on } else { c.follow }),
        with_toggle(c, key, on).rail == (if key == "rail"@ { on } else { c.rail }),
        with_toggle(c, key, on).single == (if key == "single"@ { on } else { c.single }),
        with_toggle(c, key, on).overview == (if key == "overview"@ { on } else { c.overview }),
        with_toggle(c, key, on).staged == (if key == "staged"@ { on } else { c.staged }),
        with_toggle(c, key, on).wrap == (if key == "wrap"@ { on } else { c.wrap }),
        with_toggle(c, key, on).notes == (if key == "notes"@ { on } else { c.notes }),
        with_toggle(c, key, on).icons == (if key == "icons"@ { on } else { c.icons }),
        with_toggle(c, key, on).links == (if key == "links"@ { on } else { c.links }),
        with_toggle(c, key, on).persist == (if key == "persist"@ { on } else { c.persist }),
        with_toggle(c, key, on).hide == c.hide,
{
    reveal(with_toggle);
    lemma_names_distinct();
}

/// Where the toggle `key` stands in `c`; off for anything that is not a toggle.
pub open spec fn toggle_of(c: Defaults, key: Seq<char>) -> bool {
    if key == "follow"@ {
        c.follow
    } else if key == "rail"@ {
        c.rail
    } else if key == "single"@ {
        c.single
    } else if key == "overview"@ {
        c.overview
    } else if key == "staged"@ {
        c.staged
    } else if key == "wrap"@ {
        c.wrap
    } else if key == "notes"@ {
        c.notes
    } else if key == "icons"@ {
        c.icons
    } else if key == "links"@ {
        c.links
    } else if key == "persist"@ {
        c.persist
    } else {
        false
    }
}

impl Config {
    /// Set `key`, where it is one of [`KEYS`], and say whether it was.
    pub fn set(&mut self, key: &[char], on: bool) -> (r: bool)
        ensures
            r == is_toggle(key@),
            final(self)@ == with_toggle(old(self)@, key@, on),
    {
        reveal(with_toggle);
        if is_word(key, "follow") {
            self.follow = on;
        } else if is_word(key, "rail") {
            self.rail = on;
        } else if is_word(key, "single") {
            self.single = on;
        } else if is_word(key, "overview") {
            self.overview = on;
        } else if is_word(key, "staged") {
            self.staged = on;
        } else if is_word(key, "wrap") {
            self.wrap = on;
        } else if is_word(key, "notes") {
            self.notes = on;
        } else if is_word(key, "icons") {
            self.icons = on;
        } else if is_word(key, "links") {
            self.links = on;
        } else if is_word(key, "persist") {
            self.persist = on;
        } else {
            return false;
        }
        true
    }

    /// Where the toggle `key` stands; off for anything that is not one.
    pub fn toggle(&self, key: &[char]) -> (r: bool)
        ensures
            r == toggle_of(self@, key@),
    {
        if is_word(key, "follow") {
            self.follow
        } else if is_word(key, "rail") {
            self.rail
        } else if is_word(key, "single") {
            self.single
        } else if is_word(key, "overview") {
            self.overview
        } else if is_word(key, "staged") {
            self.staged
        } else if is_word(key, "wrap") {
            self.wrap
        } else if is_word(key, "notes") {
            self.notes
        } else if is_word(key, "icons") {
            self.icons
        } else if is_word(key, "links") {
            self.links
        } else if is_word(key, "persist") {
            self.persist
        } else {
            false
        }
    }
}

/// What is wrong with a config file, and which line it is on.
#[derive(Debug, Clone)]
pub enum ConfigError {
    /// The file could not be written, which is only ever reached on the reader's
    /// own gesture with `persist` on.
    Unwritable { path: String, why: String },
    /// The file exists and could not be read.
    Unreadable { path: String, why: String },
    /// A key this file does not have. Lines are 1-based, as an editor counts.
    UnknownKey { line: usize, key: String },
    /// A `hide` value that is not a regular expression, in the engine's words.
    BadPattern { line: usize, why: String },
    /// A value that is neither `on` nor `off`.
    UnknownValue { line: usize, key: String, value: String },
    /// A key with nothing after its `=`, or nothing but a comment.
    MissingValue { line: usize },
    /// A line that is not a comment and has no `=` in it.
    MissingSeparator { line: usize, text: String },
    /// The same key twice; `first` is where it was set before.
    RepeatedKey { line: usize, key: String, first: usize },
}

/// A config error, its strings as characters.
pub enum Fault {
    Unwritable { path: Seq<char>, why: Seq<char> },
    Unreadable { path: Seq<char>, why: Seq<char> },
    UnknownKey { line: usize, key: Seq<char> },
    BadPattern { line: usize, why: Seq<char> },
    UnknownValue { line: usize, key: Seq<char>, value: Seq<char> },
    MissingValue { line: usize },
    MissingSeparator { line: usize, text: Seq<char> },
    RepeatedKey { line: usize, key: Seq<char>, first: usize },
}

impl View for ConfigError {
    type V = Fault;

    open spec fn view(&self) -> Fault {
        match self {
            ConfigError::Unwritable { path, why } => Fault::Unwritable { path: path@, why: why@ },
            ConfigError::Unreadable { path, why } => Fault::Unreadable { path: path@, why: why@ },
            ConfigError::UnknownKey { line, key } => Fault::UnknownKey { line: *line, key: key@ },
            ConfigError::BadPattern { line, why } => Fault::BadPattern { line: *line, why: why@ },
            ConfigError::UnknownValue { line, key, value } => Fault::UnknownValue {
                line: *line,
                key: key@,
                value: value@,
            },
            ConfigError::MissingValue { line } => Fault::MissingValue { line: *line },
            ConfigError::MissingSeparator { line, text } => Fault::MissingSeparator {
                line: *line,
                text: text@,
            },
            ConfigError::RepeatedKey { line, key, first } => Fault::RepeatedKey {
                line: *line,
                key: key@,
                first: *first,
            },
        }
    }
}

/// Every setting's name, the toggles then the valued one, as a refusal lists
/// them.
pub open spec fn setting_names() -> Seq<Seq<char>> {
    (KEYS@ + VALUES@).map_values(|k: &'static str| k@)
}

/// `names` with a comma and a blank between each two.
pub open spec fn listed(names: Seq<Seq<char>>) -> Seq<char>
    decreases names.len(),
{
    if names.len() == 0 {
        Seq::empty()
    } else if names.len() == 1 {
        names[0]
    } else {
        listed(names.drop_last()) + ", "@ + names.last()
    }
}

/// The value a refusal quotes, where it quotes one: an unknown key, an unknown
/// value, or a line with no `=`.
pub open spec fn quoted_part(f: Fault) -> Seq<char> {
    match f {
        Fault::UnknownKey { key, .. } => key,
        Fault::UnknownValue { value, .. } => value,
        Fault::MissingSeparator { text, .. } => text,
        _ => Seq::empty(),
    }
}

/// What a refusal says, given how its quoted value is quoted: the line and
/// what is wrong on it, or the path and why it could not be read or written.
pub open spec fn fault_message(f: Fault, quoted: Seq<char>) -> Seq<char> {
    match f {
        Fault::Unreadable { path, why } => path + ": "@ + why,
        Fault::Unwritable { path, why } => why + ": "@ + path,
        Fault::UnknownKey { line, .. } => "line "@ + decimal(line as nat) + ": "@ + quoted
            + " is not a view setting. There are "@ + decimal(setting_names().len()) + ": "@ + listed(
            setting_names(),
        ),
        Fault::BadPattern { line, why } => "line "@ + decimal(line as nat) + ": hide is not a pattern: "@ + why,
        Fault::UnknownValue { line, key, .. } => "line "@ + decimal(line as nat) + ": "@ + key + " is "@
            + quoted + ", which is neither `on` nor `off`"@,
        Fault::MissingValue { line } => "line "@ + decimal(line as nat)
            + ": this key has nothing after its `=`. Write `on` or `off`"@,
        Fault::MissingSeparator { line, .. } => "line "@ + decimal(line as nat) + ": "@ + quoted
            + " has no `=` in it"@,
        Fault::RepeatedKey { line, key, first } => "line "@ + decimal(line as nat) + ": "@ + key
            + " was already set on line "@ + decimal(first as nat)
            + ". Remove one of them rather than leaving which one wins to the reader"@,
    }
}

/// Every setting's name, a comma and a blank between each two.
fn push_setting_names(out: &mut Vec<char>)
    ensures
        final(out)@ == old(out)@ + listed(setting_names()),
{
    let ghost names = setting_names();
    let ghost start = out@;
    let count = KEYS.len() + VALUES.len();
    let mut i: usize = 0;
    while i < count
        invariant
            count == 11,
            names == setting_names(),
            names.len() == 11,
            i <= 11,
            out@ == start + listed(names.take(i as int)),
        decreases 11 - i,
    {
        let name = if i < KEYS.len() {
            KEYS[i]
        } else {
            VALUES[i - KEYS.len()]
        };
        assert(name@ == names[i as int]);
        if i > 0 {
            crate::text::push_str(out, ", ");
        }
        crate::text::push_str(out, name);
        proof {
            let t = names.take(i as int + 1);
            assert(t.drop_last() =~= names.take(i as int));
            assert(t.last() == names[i as int]);
            if i == 0 {
                assert(names.take(0) =~= Seq::<Seq<char>>::empty());
                assert(t.len() == 1);
            }
        }
        i += 1;
    }
    assert(names.take(11) =~= names);
}

impl ConfigError {
    /// What the footer says of it, given how `Debug` quotes the value it quotes.
    pub fn message_with(&self, quoted: &str) -> (r: String)
        ensures
            r@ == fault_message(self@, quoted@),
    {
        let mut out: Vec<char> = Vec::new();
        match self {
            ConfigError::Unreadable { path, why } => {
                crate::text::push_str(&mut out, path.as_str());
                crate::text::push_str(&mut out, ": ");
                crate::text::push_str(&mut out, why.as_str());
            },
            ConfigError::Unwritable { path, why } => {
                crate::text::push_str(&mut out, why.as_str());
                crate::text::push_str(&mut out, ": ");
                crate::text::push_str(&mut out, path.as_str());
            },
            ConfigError::UnknownKey { line, .. } => {
                crate::text::push_str(&mut out, "line ");
                let digits = crate::text::decimal_of(*line as u64);
                crate::text::push_all(&mut out, digits.as_slice());
                crate::text::push_str(&mut out, ": ");
                crate::text::push_str(&mut out, quoted);
                crate::text::push_str(&mut out, " is not a view setting. There are ");
                let count = crate::text::decimal_of((KEYS.len() + VALUES.len()) as u64);
                crate::text::push_all(&mut out, count.as_slice());
                crate::text::push_str(&mut out, ": ");
                push_setting_names(&mut out);
            },
            ConfigError::BadPattern { line, why } => {
                crate::text::push_str(&mut out, "line ");
                let digits = crate::text::decimal_of(*line as u64);
                crate::text::push_all(&mut out, digits.as_slice());
                crate::text::push_str(&mut out, ": hide is not a pattern: ");
                crate::text::push_str(&mut out, why.as_str());
            },
            ConfigError::UnknownValue { line, key, .. } => {
                crate::text::push_str(&mut out, "line ");
                let digits = crate::text::decimal_of(*line as u64);
                crate::text::push_all(&mut out, digits.as_slice());
                crate::text::push_str(&mut out, ": ");
                crate::text::push_str(&mut out, key.as_str());
                crate::text::push_str(&mut out, " is ");
                crate::text::push_str(&mut out, quoted);
                crate::text::push_str(&mut out, ", which is neither `on` nor `off`");
            },
            ConfigError::MissingValue { line } => {
                crate::text::push_str(&mut out, "line ");
                let digits = crate::text::decimal_of(*line as u64);
                crate::text::push_all(&mut out, digits.as_slice());
                crate::text::push_str(&mut out, ": this key has nothing after its `=`. Write `on` or `off`");
            },
            ConfigError::MissingSeparator { line, .. } => {
                crate::text::push_str(&mut out, "line ");
                let digits = crate::text::decimal_of(*line as u64);
                crate::text::push_all(&mut out, digits.as_slice());
                crate::text::push_str(&mut out, ": ");
                crate::text::push_str(&mut out, quoted);
                crate::text::push_str(&mut out, " has no `=` in it");
            },
            ConfigError::RepeatedKey { line, key, first } => {
                crate::text::push_str(&mut out, "line ");
                let digits = crate::text::decimal_of(*line as u64);
                crate::text::push_all(&mut out, digits.as_slice());
                crate::text::push_str(&mut out, ": ");
                crate::text::push_str(&mut out, key.as_str());
                crate::text::push_str(&mut out, " was already set on line ");
                let was = crate::text::decimal_of(*first as u64);
                crate::text::push_all(&mut out, was.as_slice());
                crate::text::push_str(
                    &mut out,
                    ". Remove one of them rather than leaving which one wins to the reader",
                );
            },
        }
        assert(out@ =~= fault_message(self@, quoted@));
        string_of(out.as_slice())
    }

    /// What the footer says of it: the line and what is wrong on it, any value
    /// it quotes as `Debug` quotes it.
    pub fn message(&self) -> (r: String)
        ensures
            r@ == fault_message(self@, crate::text::debug_spelling(quoted_part(self@))),
    {
        let quoted = match self {
            ConfigError::UnknownKey { key, .. } => crate::text::debug_of(key.as_str()),
            ConfigError::UnknownValue { value, .. } => crate::text::debug_of(value.as_str()),
            ConfigError::MissingSeparator { text, .. } => crate::text::debug_of(text.as_str()),
            _ => crate::text::debug_of(""),
        };
        proof {
            reveal_strlit("");
        }
        self.message_with(quoted.as_str())
    }
}

/// Where the first `c` in `s` stands, or -1 where there is none.
pub open spec fn first_at(s: Seq<char>, c: char) -> int
    decreases s.len(),
{
    if s.len() == 0 {
        -1
    } else if s[0] == c {
        0
    } else if first_at(s.drop_first(), c) < 0 {
        -1
    } else {
        first_at(s.drop_first(), c) + 1
    }
}

pub proof fn lemma_first_at_bound(s: Seq<char>, c: char)
    ensures
        -1 <= first_at(s, c) < s.len(),
        first_at(s, c) >= 0 ==> s[first_at(s, c)] == c,
        forall|j: int| 0 <= j < first_at(s, c) ==> s[j] != c,
        first_at(s, c) < 0 ==> forall|j: int| 0 <= j < s.len() ==> s[j] != c,
    decreases s.len(),
{
    if s.len() > 0 && s[0] != c {
        let t = s.drop_first();
        lemma_first_at_bound(t, c);
        assert forall|j: int| 1 <= j < s.len() implies s[j] == t[j - 1] by {}
    }
}

/// Where the first `c` in `s` stands.
pub fn first_index(s: &[char], c: char) -> (r: Option<usize>)
    ensures
        match r {
            Some(i) => i == first_at(s@, c) && i < s@.len(),
            None => first_at(s@, c) == -1,
        },
{
    let mut i: usize = 0;
    proof {
        lemma_first_at_bound(s@, c);
    }
    while i < s.len()
        invariant
            i <= s@.len(),
            forall|j: int| 0 <= j < i ==> s@[j] != c,
            -1 <= first_at(s@, c) < s@.len(),
            first_at(s@, c) >= 0 ==> s@[first_at(s@, c)] == c,
            forall|j: int| 0 <= j < first_at(s@, c) ==> s@[j] != c,
            first_at(s@, c) < 0 ==> forall|j: int| 0 <= j < s@.len() ==> s@[j] != c,
        decreases s@.len() - i,
    {
        if s[i] == c {
            return Some(i);
        }
        i += 1;
    }
    None
}

/// Where a comment opens in what follows a key's `=`: the first `#` at the
/// start of it or after white space, or -1 where there is none.
pub open spec fn comment_from(s: Seq<char>, i: int) -> int
    decreases s.len() - i,
{
    if i < 0 || i >= s.len() {
        -1
    } else if s[i] == '#' && (i == 0 || white_space(s[i - 1])) {
        i
    } else {
        comment_from(s, i + 1)
    }
}

/// Everything after a key's `=` that is not a comment, trimmed.
pub open spec fn value_text(after: Seq<char>) -> Seq<char> {
    let at = comment_from(after, 0);
    if at >= 0 {
        trim(after.take(at))
    } else {
        trim(after)
    }
}

/// The comment a value carries, from its `#` to the line's end.
pub open spec fn comment_text(after: Seq<char>) -> Option<Seq<char>> {
    let at = comment_from(after, 0);
    if at >= 0 {
        Some(after.skip(at))
    } else {
        None
    }
}

pub(crate) proof fn lemma_comment_from_bound(s: Seq<char>, i: int)
    requires
        0 <= i,
    ensures
        comment_from(s, i) == -1 || (i <= comment_from(s, i) < s.len()),
    decreases s.len() - i,
{
    if i < s.len() && !(s[i] == '#' && (i == 0 || white_space(s[i - 1]))) {
        lemma_comment_from_bound(s, i + 1);
    }
}

/// Where a comment opens in `after`.
fn comment_index(after: &[char]) -> (r: Option<usize>)
    ensures
        match r {
            Some(at) => at == comment_from(after@, 0) && at < after@.len(),
            None => comment_from(after@, 0) == -1,
        },
{
    let mut i: usize = 0;
    let mut opens = true;
    proof {
        lemma_comment_from_bound(after@, 0);
    }
    while i < after.len()
        invariant
            i <= after@.len(),
            comment_from(after@, 0) == comment_from(after@, i as int),
            opens == (i == 0 || white_space(after@[i - 1])),
        decreases after@.len() - i,
    {
        let c = after[i];
        if c == '#' && opens {
            return Some(i);
        }
        opens = is_white(c);
        i += 1;
    }
    None
}

/// Everything after a key's `=` that is not a comment, trimmed.
pub fn value_of(after: &[char]) -> (r: Vec<char>)
    ensures
        r@ == value_text(after@),
{
    match comment_index(after) {
        Some(at) => {
            let head = slice_of(after, 0, at);
            assert(head@ =~= after@.take(at as int));
            trimmed(head.as_slice())
        },
        None => trimmed(after),
    }
}

/// The comment a value carries, from its `#` to the line's end.
pub fn comment_in(after: &[char]) -> (r: Option<Vec<char>>)
    ensures
        match r {
            Some(c) => comment_text(after@) == Some(c@),
            None => comment_text(after@) is None,
        },
{
    match comment_index(after) {
        Some(at) => {
            let tail = slice_of(after, at, after.len());
            assert(tail@ =~= after@.skip(at as int));
            Some(tail)
        },
        None => None,
    }
}

/// Where a read stands: the settings so far, and each key with the line it was
/// set on.
pub struct Reading {
    pub config: Defaults,
    pub seen: Seq<(Seq<char>, usize)>,
}

/// The line `key` was first set on, if it was.
pub open spec fn seen_on(seen: Seq<(Seq<char>, usize)>, key: Seq<char>) -> Option<usize>
    decreases seen.len(),
{
    if seen.len() == 0 {
        None
    } else if seen[0].0 == key {
        Some(seen[0].1)
    } else {
        seen_on(seen.drop_first(), key)
    }
}

/// One line more of a config, numbered `line` from one.
///
/// A blank line or one opening with `#` says nothing. Otherwise the line needs
/// an `=`; the key before it is judged first, then whether it repeats, then the
/// value: nothing, the pattern, or `on` or `off`.
pub open spec fn read_line(r: Reading, line: usize, raw: Seq<char>) -> Result<Reading, Fault> {
    let text = trim(raw);
    let eq = first_at(text, '=');
    if text.len() == 0 || text[0] == '#' {
        Ok(r)
    } else if eq < 0 {
        Err(Fault::MissingSeparator { line, text })
    } else {
        let key = trim(text.take(eq));
        let value = value_text(text.skip(eq + 1));
        if !is_toggle(key) && !is_valued(key) {
            Err(Fault::UnknownKey { line, key })
        } else if seen_on(r.seen, key) is Some {
            Err(Fault::RepeatedKey { line, key, first: seen_on(r.seen, key)->0 })
        } else if value.len() == 0 {
            Err(Fault::MissingValue { line })
        } else if is_valued(key) {
            Ok(Reading { config: Defaults { hide: Some(value), ..r.config }, seen: r.seen.push((key, line)) })
        } else if value == "on"@ {
            Ok(Reading { config: with_toggle(r.config, key, true), seen: r.seen.push((key, line)) })
        } else if value == "off"@ {
            Ok(Reading { config: with_toggle(r.config, key, false), seen: r.seen.push((key, line)) })
        } else {
            Err(Fault::UnknownValue { line, key, value })
        }
    }
}

/// The read over all of `lines`, stopping at the first refusal.
pub open spec fn read_lines(lines: Seq<Seq<char>>) -> Result<Reading, Fault>
    decreases lines.len(),
{
    if lines.len() == 0 {
        Ok(Reading { config: shipped(), seen: Seq::empty() })
    } else {
        match read_lines(lines.drop_last()) {
            Ok(r) => read_line(r, lines.len() as usize, lines.last()),
            Err(e) => Err(e),
        }
    }
}

/// `source` without the byte order mark it may open with.
pub open spec fn without_mark(source: Seq<char>) -> Seq<char> {
    if source.len() > 0 && source[0] == '\u{FEFF}' {
        source.drop_first()
    } else {
        source
    }
}

/// What a config file says, or the first thing wrong with it.
pub open spec fn config_of(source: Seq<char>) -> Result<Defaults, Fault> {
    match read_lines(text_lines(without_mark(source))) {
        Ok(r) => Ok(r.config),
        Err(e) => Err(e),
    }
}

/// Whether line `raw`, read after `r`, is the `hide` line the read would take.
pub open spec fn takes_pattern(r: Reading, raw: Seq<char>) -> bool {
    let text = trim(raw);
    let eq = first_at(text, '=');
    &&& !(text.len() == 0 || text[0] == '#')
    &&& eq >= 0
    &&& is_valued(trim(text.take(eq)))
    &&& seen_on(r.seen, trim(text.take(eq))) is None
    &&& value_text(text.skip(eq + 1)).len() > 0
}

/// One line more of a config, with the pattern engine's `refusal` of the
/// file's `hide` pattern: where the line is the `hide` line the read takes and
/// the engine refused its pattern, the line is refused with the engine's words.
pub open spec fn read_line_with(r: Reading, line: usize, raw: Seq<char>, refusal: Option<Seq<char>>) -> Result<
    Reading,
    Fault,
> {
    match refusal {
        Some(why) => if takes_pattern(r, raw) {
            Err(Fault::BadPattern { line, why })
        } else {
            read_line(r, line, raw)
        },
        None => read_line(r, line, raw),
    }
}

/// The read over all of `lines` with the engine's verdict on the pattern.
pub open spec fn read_lines_with(lines: Seq<Seq<char>>, refusal: Option<Seq<char>>) -> Result<Reading, Fault>
    decreases lines.len(),
{
    if lines.len() == 0 {
        Ok(Reading { config: shipped(), seen: Seq::empty() })
    } else {
        match read_lines_with(lines.drop_last(), refusal) {
            Ok(r) => read_line_with(r, lines.len() as usize, lines.last(), refusal),
            Err(e) => Err(e),
        }
    }
}

/// What a config file says, or the first thing wrong with it, the pattern
/// engine having refused the file's `hide` pattern with `refusal`, or not.
pub open spec fn config_judged(source: Seq<char>, refusal: Option<Seq<char>>) -> Result<Defaults, Fault> {
    match read_lines_with(text_lines(without_mark(source)), refusal) {
        Ok(r) => Ok(r.config),
        Err(e) => Err(e),
    }
}

/// The engine's refusal, as characters.
pub open spec fn refusal_text(refusal: Option<String>) -> Option<Seq<char>> {
    match refusal {
        Some(why) => Some(why@),
        None => None,
    }
}

/// With the pattern admitted, the read is the plain read.
proof fn lemma_admitted_lines(lines: Seq<Seq<char>>)
    ensures
        read_lines_with(lines, None) == read_lines(lines),
    decreases lines.len(),
{
    if lines.len() > 0 {
        lemma_admitted_lines(lines.drop_last());
    }
}

/// A file whose pattern the engine admitted reads as the plain read says.
pub proof fn law_an_admitted_pattern_reads_plainly(source: Seq<char>)
    ensures
        config_judged(source, None) == config_of(source),
{
    lemma_admitted_lines(text_lines(without_mark(source)));
}

/// The `hide` pattern of the first line keyed `hide`, among `lines`, which is
/// the one pattern a read of them can take.
pub open spec fn first_pattern(lines: Seq<Seq<char>>) -> Option<Seq<char>>
    decreases lines.len(),
{
    if lines.len() == 0 {
        None
    } else {
        let text = trim(lines[0]);
        let eq = first_at(text, '=');
        if !(text.len() == 0 || text[0] == '#') && eq >= 0 && is_valued(trim(text.take(eq))) {
            Some(value_text(text.skip(eq + 1)))
        } else {
            first_pattern(lines.drop_first())
        }
    }
}

/// The pattern a config file gives `hide`, for the engine to judge.
pub open spec fn pattern_of(source: Seq<char>) -> Option<Seq<char>> {
    first_pattern(text_lines(without_mark(source)))
}

/// Whether `key` names a toggle, and whether it names the valued setting.
fn judge_key(key: &[char]) -> (r: (bool, bool))
    ensures
        r.0 == is_toggle(key@),
        r.1 == is_valued(key@),
{
    let toggle = is_word(key, "follow") || is_word(key, "rail") || is_word(key, "single")
        || is_word(key, "overview") || is_word(key, "staged") || is_word(key, "wrap") || is_word(
        key,
        "notes",
    ) || is_word(key, "icons") || is_word(key, "links") || is_word(key, "persist");
    (toggle, is_word(key, "hide"))
}

/// The line `key` was first set on, if it was.
fn seen_line(seen: &Vec<(Vec<char>, usize)>, key: &[char]) -> (r: Option<usize>)
    ensures
        r == seen_on(seen.deep_view(), key@),
{
    let mut i: usize = 0;
    assert(seen.deep_view().skip(0) =~= seen.deep_view());
    while i < seen.len()
        invariant
            i <= seen@.len(),
            seen_on(seen.deep_view(), key@) == seen_on(seen.deep_view().skip(i as int), key@),
        decreases seen@.len() - i,
    {
        let ghost rest = seen.deep_view().skip(i as int);
        assert(rest.drop_first() =~= seen.deep_view().skip(i + 1));
        assert(rest[0] == seen.deep_view()[i as int]);
        let (name, at) = &seen[i];
        assert(seen.deep_view()[i as int].0 == name.deep_view());
        proof {
            assert(name.deep_view() =~= name@);
        }
        if crate::text::same(name.as_slice(), key) {
            return Some(*at);
        }
        i += 1;
    }
    assert(seen.deep_view().skip(i as int) =~= Seq::<(Seq<char>, usize)>::empty());
    None
}

/// The run of characters as a string.
fn text_of(chars: &[char]) -> (r: String)
    ensures
        r@ == chars@,
{
    string_of(chars)
}

/// One line more of a config: `config` and `seen` take what the line sets, or
/// the line's refusal comes back.
fn read_one(
    config: &mut Config,
    seen: &mut Vec<(Vec<char>, usize)>,
    line: usize,
    raw: &[char],
    refusal: &Option<String>,
) -> (r: Result<(), ConfigError>)
    ensures
        match read_line_with(
            Reading { config: old(config)@, seen: old(seen).deep_view() },
            line,
            raw@,
            refusal_text(*refusal),
        ) {
            Ok(rd) => r is Ok && final(config)@ == rd.config && final(seen).deep_view() == rd.seen,
            Err(e) => match r {
                Err(x) => x@ == e,
                Ok(_) => false,
            },
        },
{
    let text = trimmed(raw);
    if text.len() == 0 || text[0] == '#' {
        return Ok(());
    }
    let eq = match first_index(text.as_slice(), '=') {
        Some(eq) => eq,
        None => {
            return Err(ConfigError::MissingSeparator { line, text: text_of(text.as_slice()) });
        },
    };
    let head = slice_of(text.as_slice(), 0, eq);
    assert(head@ =~= text@.take(eq as int));
    let key = trimmed(head.as_slice());
    let after = slice_of(text.as_slice(), eq + 1, text.len());
    assert(after@ =~= text@.skip(eq + 1));
    let (toggle, valued) = judge_key(key.as_slice());
    if !toggle && !valued {
        return Err(ConfigError::UnknownKey { line, key: text_of(key.as_slice()) });
    }
    match seen_line(seen, key.as_slice()) {
        Some(first) => {
            return Err(ConfigError::RepeatedKey { line, key: text_of(key.as_slice()), first });
        },
        None => {},
    }
    let value = value_of(after.as_slice());
    if value.len() == 0 {
        return Err(ConfigError::MissingValue { line });
    }
    proof {
        lemma_key_deep(key);
    }
    if valued {
        match refusal {
            Some(why) => {
                return Err(ConfigError::BadPattern { line, why: why.clone() });
            },
            None => {},
        }
        config.hide = Some(text_of(value.as_slice()));
        seen.push((key, line));
        assert(seen.deep_view() =~= old(seen).deep_view().push((key@, line)));
        return Ok(());
    }
    let on = if is_word(value.as_slice(), "on") {
        true
    } else if is_word(value.as_slice(), "off") {
        false
    } else {
        return Err(
            ConfigError::UnknownValue {
                line,
                key: text_of(key.as_slice()),
                value: text_of(value.as_slice()),
            },
        );
    };
    config.set(key.as_slice(), on);
    proof {
        reveal(with_toggle);
    }
    seen.push((key, line));
    assert(seen.deep_view() =~= old(seen).deep_view().push((key@, line)));
    Ok(())
}

/// A run of characters is its own deep view.
pub(crate) proof fn lemma_key_deep(key: Vec<char>)
    ensures
        key.deep_view() == key@,
{
    assert(key.deep_view() =~= key@);
}

/// `source` without a byte order mark it opens with.
fn unmarked(source: &[char]) -> (r: Vec<char>)
    ensures
        r@ == without_mark(source@),
{
    if source.len() > 0 && source[0] == '\u{FEFF}' {
        let r = slice_of(source, 1, source.len());
        assert(r@ =~= source@.drop_first());
        r
    } else {
        let r = slice_of(source, 0, source.len());
        assert(r@ =~= source@);
        r
    }
}

/// Parse a config, which is a list of `key = on` lines and nothing else.
///
/// ```text
/// # the pane I want
/// rail     = on    # from 134 columns
/// single   = off
/// staged   = on    # both runs, every session
/// ```
///
/// An unknown key is refused rather than ignored: a silently dropped key is a
/// setting that does nothing. A repeated key, and a value that is nothing but a
/// comment, are refused too. A byte order mark is stripped: U+FEFF is `Cf`
/// rather than `White_Space`, so it would survive every trim and land inside the
/// first key. The `hide` pattern is the pattern engine's to judge: `refusal`
/// is what the engine said of [`pattern`]'s answer for this file, where it
/// refused it, and the `hide` line is then refused with the engine's words.
pub fn parse(source: &str, refusal: Option<String>) -> (r: Result<Config, ConfigError>)
    ensures
        match config_judged(source@, refusal_text(refusal)) {
            Ok(c) => match r {
                Ok(config) => config@ == c,
                Err(_) => false,
            },
            Err(e) => match r {
                Err(x) => x@ == e,
                Ok(_) => false,
            },
        },
{
    let chars = chars_of(source);
    let body = unmarked(chars.as_slice());
    let lines = line_chars(body.as_slice());
    let ghost all = lines.deep_view();
    let mut config = Config::default();
    let mut seen: Vec<(Vec<char>, usize)> = Vec::new();
    let mut i: usize = 0;
    assert(all.take(0) =~= Seq::<Seq<char>>::empty());
    assert(seen.deep_view() =~= Seq::<(Seq<char>, usize)>::empty());
    while i < lines.len()
        invariant
            i <= lines@.len(),
            all == lines.deep_view(),
            all =~= text_lines(without_mark(source@)),
            read_lines_with(all.take(i as int), refusal_text(refusal)) == Ok::<Reading, Fault>(
                Reading { config: config@, seen: seen.deep_view() },
            ),
        decreases lines@.len() - i,
    {
        proof {
            assert(all.take(i + 1).drop_last() =~= all.take(i as int));
            assert(all.take(i + 1).last() == all[i as int]);
            assert(all[i as int] == lines@[i as int].deep_view());
            lemma_key_deep(lines@[i as int]);
        }
        let outcome = read_one(&mut config, &mut seen, i + 1, lines[i].as_slice(), &refusal);
        match outcome {
            Err(e) => {
                proof {
                    lemma_read_stops_with(all, (i + 1) as nat, refusal_text(refusal));
                    assert(all.take(all.len() as int) =~= all);
                }
                return Err(e);
            },
            Ok(()) => {},
        }
        i += 1;
    }
    assert(all.take(all.len() as int) =~= all);
    Ok(config)
}

/// A judged read that refused a line refuses the whole file, with that refusal.
proof fn lemma_read_stops_with(lines: Seq<Seq<char>>, n: nat, refusal: Option<Seq<char>>)
    requires
        n <= lines.len(),
        read_lines_with(lines.take(n as int), refusal) is Err,
    ensures
        read_lines_with(lines, refusal) == read_lines_with(lines.take(n as int), refusal),
    decreases lines.len() - n,
{
    if n < lines.len() {
        assert(lines.take(n + 1 as int).drop_last() =~= lines.take(n as int));
        lemma_read_stops_with(lines, n + 1, refusal);
    } else {
        assert(lines.take(n as int) =~= lines);
    }
}

/// The pattern a config file gives `hide`, which is what the pattern engine is
/// asked to judge before the file is parsed: the value of its first line keyed
/// `hide`, the one line a read can take it from.
pub fn pattern(source: &str) -> (r: Option<String>)
    ensures
        refusal_text(r) == pattern_of(source@),
{
    let chars = chars_of(source);
    let body = unmarked(chars.as_slice());
    let lines = line_chars(body.as_slice());
    let ghost all = lines.deep_view();
    let mut i: usize = 0;
    assert(all.skip(0) =~= all);
    while i < lines.len()
        invariant
            i <= lines@.len(),
            all == lines.deep_view(),
            all =~= text_lines(without_mark(source@)),
            first_pattern(all) == first_pattern(all.skip(i as int)),
        decreases lines@.len() - i,
    {
        let ghost rest = all.skip(i as int);
        proof {
            assert(rest[0] == all[i as int]);
            assert(all[i as int] == lines@[i as int].deep_view());
            lemma_key_deep(lines@[i as int]);
            assert(rest.drop_first() =~= all.skip(i + 1));
        }
        let text = trimmed(lines[i].as_slice());
        if text.len() > 0 && text[0] != '#' {
            match first_index(text.as_slice(), '=') {
                Some(eq) => {
                    let head = slice_of(text.as_slice(), 0, eq);
                    assert(head@ =~= text@.take(eq as int));
                    let key = trimmed(head.as_slice());
                    let (_, valued) = judge_key(key.as_slice());
                    if valued {
                        let after = slice_of(text.as_slice(), eq + 1, text.len());
                        assert(after@ =~= text@.skip(eq + 1));
                        let value = value_of(after.as_slice());
                        return Some(text_of(value.as_slice()));
                    }
                },
                None => {},
            }
        }
        i += 1;
    }
    None
}


/// `text` cut after every line feed, each piece keeping its own, the last one
/// possibly without.
pub open spec fn pieces(text: Seq<char>) -> Seq<Seq<char>>
    decreases text.len(),
{
    if text.len() == 0 {
        Seq::empty()
    } else {
        let before = pieces(text.drop_last());
        let c = text.last();
        if before.len() == 0 || before.last().last() == '\n' {
            before.push(seq![c])
        } else {
            before.update(before.len() - 1, before.last().push(c))
        }
    }
}

/// `s` without the copies of `c` it ends with.
pub open spec fn strip_end(s: Seq<char>, c: char) -> Seq<char>
    decreases s.len(),
{
    if s.len() > 0 && s.last() == c {
        strip_end(s.drop_last(), c)
    } else {
        s
    }
}

/// A piece's line without its ending: the line feed, then the carriage
/// returns before it.
pub open spec fn raw_of(piece: Seq<char>) -> Seq<char> {
    strip_end(strip_end(piece, '\n'), '\r')
}

/// The key one line sets and where its `=` is, where it sets one this pane
/// owns and has not written yet.
pub open spec fn owned_key(raw: Seq<char>, written: Seq<Seq<char>>) -> Option<(Seq<char>, int)> {
    let text = trim_start(raw);
    let at = first_at(raw, '=');
    if text.len() == 0 || text[0] == '#' || at < 0 {
        None
    } else {
        let key = trim(raw.take(at));
        if is_toggle(key) && !written.contains(key) {
            Some((key, at))
        } else {
            None
        }
    }
}

/// What a key's value spells in `c`.
pub open spec fn word_of(c: Defaults, key: Seq<char>) -> Seq<char> {
    if toggle_of(c, key) {
        "on"@
    } else {
        "off"@
    }
}

/// An owned line with its value brought up to date: everything to the `=` as
/// the reader wrote it, one blank, the value, and the reader's comment.
pub open spec fn restated(raw: Seq<char>, key: Seq<char>, at: int, c: Defaults) -> Seq<char> {
    raw.take(at + 1) + seq![' '] + word_of(c, key) + match comment_text(raw.skip(at + 1)) {
        Some(said) => seq![' '] + trim_end(said),
        None => Seq::empty(),
    }
}

/// Where a rewrite stands: what it has written, the keys it has restated, and
/// the first line ending it met.
pub struct Rewriting {
    pub out: Seq<char>,
    pub written: Seq<Seq<char>>,
    pub ending: Option<Seq<char>>,
}

/// What one piece of the file becomes: an owned line restated, any other line
/// as it was, each with its own ending.
pub open spec fn piece_text(written: Seq<Seq<char>>, piece: Seq<char>, c: Defaults) -> Seq<char> {
    let raw = raw_of(piece);
    let tail = piece.skip(raw.len() as int);
    match owned_key(raw, written) {
        Some((key, at)) => restated(raw, key, at, c) + tail,
        None => raw + tail,
    }
}

/// The keys restated once one piece more is written.
pub open spec fn piece_written(written: Seq<Seq<char>>, piece: Seq<char>) -> Seq<Seq<char>> {
    match owned_key(raw_of(piece), written) {
        Some((key, _)) => written.push(key),
        None => written,
    }
}

/// The file's line ending once one piece more is read: the first there is.
pub open spec fn piece_ending(ending: Option<Seq<char>>, piece: Seq<char>) -> Option<Seq<char>> {
    let tail = piece.skip(raw_of(piece).len() as int);
    if tail.len() > 0 && ending is None {
        Some(tail)
    } else {
        ending
    }
}

/// One piece more of the file.
pub open spec fn rewrite_piece(w: Rewriting, piece: Seq<char>, c: Defaults) -> Rewriting {
    Rewriting {
        out: w.out + piece_text(w.written, piece, c),
        written: piece_written(w.written, piece),
        ending: piece_ending(w.ending, piece),
    }
}

/// The rewrite over all of `ps`.
pub open spec fn rewrite_pieces(ps: Seq<Seq<char>>, c: Defaults) -> Rewriting
    decreases ps.len(),
{
    if ps.len() == 0 {
        Rewriting { out: Seq::empty(), written: Seq::empty(), ending: None }
    } else {
        rewrite_piece(rewrite_pieces(ps.drop_last(), c), ps.last(), c)
    }
}

/// The toggles, in the order the file appends them.
pub open spec fn config_keys() -> Seq<Seq<char>> {
    seq![
        "follow"@,
        "rail"@,
        "single"@,
        "overview"@,
        "staged"@,
        "wrap"@,
        "notes"@,
        "icons"@,
        "links"@,
        "persist"@,
    ]
}

/// A `key = value` line for each of `keys` not written, each ended with `end`.
pub open spec fn missing_lines(
    keys: Seq<Seq<char>>,
    written: Seq<Seq<char>>,
    c: Defaults,
    end: Seq<char>,
) -> Seq<char>
    decreases keys.len(),
{
    if keys.len() == 0 {
        Seq::empty()
    } else {
        let rest = missing_lines(keys.drop_last(), written, c, end);
        let key = keys.last();
        if written.contains(key) {
            rest
        } else {
            rest + key + " = "@ + word_of(c, key) + end
        }
    }
}

/// Whether some of `keys` has not been written.
pub open spec fn any_missing(keys: Seq<Seq<char>>, written: Seq<Seq<char>>) -> bool {
    exists|i: int| 0 <= i < keys.len() && !written.contains(#[trigger] keys[i])
}

/// The reader's file with the lines this pane owns brought up to date.
pub open spec fn rewritten(source: Seq<char>, c: Defaults) -> Seq<char> {
    let mark = source.len() > 0 && source[0] == '\u{FEFF}';
    let body = without_mark(source);
    let w = rewrite_pieces(pieces(body), c);
    let head = if mark {
        seq!['\u{FEFF}'] + w.out
    } else {
        w.out
    };
    if !any_missing(config_keys(), w.written) {
        head
    } else {
        let end = match w.ending {
            Some(e) => e,
            None => seq!['\n'],
        };
        let gap = if body.len() > 0 && !(head.len() > 0 && head.last() == '\n') {
            end
        } else {
            Seq::empty()
        };
        head + gap + missing_lines(config_keys(), w.written, c, end)
    }
}

/// `text` cut after every line feed.
fn pieces_of(text: &[char]) -> (r: Vec<Vec<char>>)
    ensures
        r.deep_view() == pieces(text@),
{
    let mut done: Vec<Vec<char>> = Vec::new();
    let mut cur: Vec<char> = Vec::new();
    let mut i: usize = 0;
    assert(text@.take(0) =~= Seq::<char>::empty());
    assert(done.deep_view() + Seq::<Seq<char>>::empty() =~= Seq::<Seq<char>>::empty());
    while i < text.len()
        invariant
            i <= text@.len(),
            pieces(text@.take(i as int)) == done.deep_view() + (if cur@.len() > 0 {
                seq![cur@]
            } else {
                Seq::empty()
            }),
            cur@.len() > 0 ==> cur@.last() != '\n',
            done@.len() > 0 ==> done.deep_view().last().len() > 0 && done.deep_view().last().last()
                == '\n',
        decreases text@.len() - i,
    {
        let c = text[i];
        let ghost before = done.deep_view();
        let ghost was = cur@;
        let ghost sofar = pieces(text@.take(i as int));
        assert(text@.take(i + 1).drop_last() =~= text@.take(i as int));
        assert(text@.take(i + 1).last() == c);
        assert(pieces(text@.take(i + 1)) == (if sofar.len() == 0 || sofar.last().last() == '\n' {
            sofar.push(seq![c])
        } else {
            sofar.update(sofar.len() - 1, sofar.last().push(c))
        }));
        proof {
            if was.len() > 0 {
                assert(sofar =~= before.push(was));
                assert(sofar.update(sofar.len() - 1, sofar.last().push(c)) =~= before.push(
                    was.push(c),
                ));
            } else {
                assert(sofar =~= before);
                assert(was.push(c) =~= seq![c]);
                assert(done@.len() > 0 ==> before.len() > 0);
            }
        }
        cur.push(c);
        if c == '\n' {
            let piece = cur;
            proof {
                lemma_chars_deep_view(piece);
            }
            done.push(piece);
            cur = Vec::new();
            assert(done.deep_view() =~= before.push(was.push(c)));
            assert(pieces(text@.take(i + 1)) =~= done.deep_view() + Seq::<Seq<char>>::empty());
        } else {
            assert(pieces(text@.take(i + 1)) =~= done.deep_view() + seq![cur@]);
        }
        i += 1;
    }
    assert(text@.take(text@.len() as int) =~= text@);
    if cur.len() > 0 {
        let ghost before = done.deep_view();
        proof {
            lemma_chars_deep_view(cur);
        }
        done.push(cur);
        assert(done.deep_view() =~= before + seq![cur@]);
    } else {
        assert(done.deep_view() + Seq::<Seq<char>>::empty() =~= done.deep_view());
    }
    done
}

/// A run of characters is its own deep view.
pub(crate) proof fn lemma_chars_deep_view(v: Vec<char>)
    ensures
        v.deep_view() == v@,
{
    assert(v.deep_view() =~= v@);
}

/// How long `s[..len]` is once the copies of `c` it ends with are gone.
fn strip_len(s: &[char], len: usize, c: char) -> (r: usize)
    requires
        len <= s@.len(),
    ensures
        r <= len,
        s@.take(r as int) == strip_end(s@.take(len as int), c),
{
    let mut n = len;
    while n > 0 && s[n - 1] == c
        invariant
            n <= len <= s@.len(),
            strip_end(s@.take(len as int), c) == strip_end(s@.take(n as int), c),
        decreases n,
    {
        assert(s@.take(n as int).drop_last() =~= s@.take(n - 1));
        n -= 1;
    }
    n
}

/// Whether `key` has been written.
fn has_key(written: &Vec<Vec<char>>, key: &[char]) -> (r: bool)
    ensures
        r == written.deep_view().contains(key@),
{
    let mut i: usize = 0;
    while i < written.len()
        invariant
            i <= written@.len(),
            forall|j: int| 0 <= j < i ==> written.deep_view()[j] != key@,
        decreases written@.len() - i,
    {
        proof {
            lemma_chars_deep_view(written@[i as int]);
        }
        if crate::text::same(written[i].as_slice(), key) {
            assert(written.deep_view()[i as int] == key@);
            return true;
        }
        i += 1;
    }
    false
}

/// The key `raw` sets and where its `=` is, where this pane owns it and has
/// not written it yet.
fn owned_key_of(raw: &[char], written: &Vec<Vec<char>>) -> (r: Option<(Vec<char>, usize)>)
    ensures
        match r {
            Some((key, at)) => owned_key(raw@, written.deep_view()) == Some((key@, at as int)) && at
                < raw@.len(),
            None => owned_key(raw@, written.deep_view()) is None,
        },
{
    let lead = lead_of(raw);
    if lead == raw.len() || raw[lead] == '#' {
        return None;
    }
    let at = match first_index(raw, '=') {
        Some(at) => at,
        None => {
            return None;
        },
    };
    let head = slice_of(raw, 0, at);
    assert(head@ =~= raw@.take(at as int));
    let key = trimmed(head.as_slice());
    let (toggle, _) = judge_key(key.as_slice());
    if toggle && !has_key(written, key.as_slice()) {
        Some((key, at))
    } else {
        None
    }
}

/// Append `more` to `out`.
fn append(out: &mut Vec<char>, more: &[char])
    ensures
        final(out)@ == old(out)@ + more@,
{
    let mut i: usize = 0;
    while i < more.len()
        invariant
            i <= more@.len(),
            out@ == old(out)@ + more@.take(i as int),
        decreases more@.len() - i,
    {
        out.push(more[i]);
        i += 1;
        assert(old(out)@ + more@.take(i as int) =~= (old(out)@ + more@.take(i - 1)).push(
            more@[i - 1],
        ));
    }
    assert(more@.take(more@.len() as int) =~= more@);
}

/// What `key`'s value spells in `config`.
fn word_in(config: &Config, key: &[char]) -> (r: Vec<char>)
    ensures
        r@ == word_of(config@, key@),
{
    if config.toggle(key) {
        chars_of("on")
    } else {
        chars_of("off")
    }
}

/// The characters of an optional run of characters.
pub open spec fn opt_chars(s: Option<Vec<char>>) -> Option<Seq<char>> {
    match s {
        Some(t) => Some(t@),
        None => None,
    }
}

/// An owned line restated onto `out`.
fn restate(out: &mut Vec<char>, raw: &[char], key: &[char], at: usize, config: &Config)
    requires
        at < raw@.len(),
    ensures
        final(out)@ == old(out)@ + restated(raw@, key@, at as int, config@),
{
    assert(at < raw.len());
    let upto = slice_of(raw, 0, at + 1);
    append(out, upto.as_slice());
    out.push(' ');
    let word = word_in(config, key);
    append(out, word.as_slice());
    let after = slice_of(raw, at + 1, raw.len());
    assert(after@ =~= raw@.skip(at + 1));
    let ghost said_part: Seq<char> = match comment_text(raw@.skip(at + 1)) {
        Some(said) => seq![' '] + trim_end(said),
        None => Seq::empty(),
    };
    let ghost mid = out@;
    match comment_in(after.as_slice()) {
        Some(said) => {
            out.push(' ');
            let end = crate::text::end_of(said.as_slice());
            let kept = slice_of(said.as_slice(), 0, end);
            append(out, kept.as_slice());
            assert(out@ =~= mid + said_part);
        },
        None => {
            assert(out@ =~= mid + said_part);
        },
    }
    assert(out@ =~= old(out)@ + restated(raw@, key@, at as int, config@));
}

/// One piece more of the file, written to `out`, its key to `written` where it
/// restated one, and its ending to `ending` where none was met before.
fn rewrite_one(
    out: &mut Vec<char>,
    written: &mut Vec<Vec<char>>,
    ending: &mut Option<Vec<char>>,
    piece: &[char],
    config: &Config,
)
    ensures
        final(out)@ == old(out)@ + piece_text(old(written).deep_view(), piece@, config@),
        final(written).deep_view() == piece_written(old(written).deep_view(), piece@),
        opt_chars(*final(ending)) == piece_ending(opt_chars(*old(ending)), piece@),
{
    let feed = strip_len(piece, piece.len(), '\n');
    let len = strip_len(piece, feed, '\r');
    assert(piece@.take(piece@.len() as int) =~= piece@);
    let raw = slice_of(piece, 0, len);
    let tail = slice_of(piece, len, piece.len());
    assert(raw@ =~= piece@.take(len as int));
    assert(tail@ =~= piece@.skip(len as int));
    assert(raw@ == raw_of(piece@));
    if tail.len() > 0 && ending.is_none() {
        let first = slice_of(tail.as_slice(), 0, tail.len());
        assert(first@ =~= tail@);
        *ending = Some(first);
    }
    let ghost before = out@;
    match owned_key_of(raw.as_slice(), written) {
        Some((key, at)) => {
            restate(out, raw.as_slice(), key.as_slice(), at, config);
            append(out, tail.as_slice());
            assert(out@ =~= before + restated(raw@, key@, at as int, config@) + tail@);
            proof {
                lemma_chars_deep_view(key);
            }
            let ghost was = written.deep_view();
            written.push(key);
            assert(written.deep_view() =~= was.push(key@));
        },
        None => {
            append(out, raw.as_slice());
            append(out, tail.as_slice());
            assert(out@ =~= before + raw@ + tail@);
        },
    }
}

/// The toggle at `i` in the order the file appends them.
fn key_at(i: usize) -> (r: &'static str)
    requires
        i < 10,
    ensures
        r@ == config_keys()[i as int],
{
    match i {
        0 => "follow",
        1 => "rail",
        2 => "single",
        3 => "overview",
        4 => "staged",
        5 => "wrap",
        6 => "notes",
        7 => "icons",
        8 => "links",
        _ => "persist",
    }
}

/// Whether some toggle has not been written.
fn any_unwritten(written: &Vec<Vec<char>>) -> (r: bool)
    ensures
        r == any_missing(config_keys(), written.deep_view()),
{
    let mut i: usize = 0;
    while i < 10
        invariant
            i <= 10,
            config_keys().len() == 10,
            forall|j: int| 0 <= j < i ==> written.deep_view().contains(#[trigger] config_keys()[j]),
        decreases 10 - i,
    {
        let key = chars_of(key_at(i));
        if !has_key(written, key.as_slice()) {
            assert(!written.deep_view().contains(config_keys()[i as int]));
            return true;
        }
        i += 1;
    }
    false
}

/// A `key = value` line for each toggle not written, each ended with `end`.
fn missing_text(written: &Vec<Vec<char>>, config: &Config, end: &[char]) -> (r: Vec<char>)
    ensures
        r@ == missing_lines(config_keys(), written.deep_view(), config@, end@),
{
    let mut out: Vec<char> = Vec::new();
    let mut i: usize = 0;
    assert(config_keys().take(0) =~= Seq::<Seq<char>>::empty());
    while i < 10
        invariant
            i <= 10,
            config_keys().len() == 10,
            out@ == missing_lines(config_keys().take(i as int), written.deep_view(), config@, end@),
        decreases 10 - i,
    {
        let key = chars_of(key_at(i));
        assert(config_keys().take(i + 1).drop_last() =~= config_keys().take(i as int));
        assert(config_keys().take(i + 1).last() == config_keys()[i as int]);
        if !has_key(written, key.as_slice()) {
            let ghost before = out@;
            append(&mut out, key.as_slice());
            let sep = chars_of(" = ");
            append(&mut out, sep.as_slice());
            let word = word_in(config, key.as_slice());
            append(&mut out, word.as_slice());
            append(&mut out, end);
            assert(out@ =~= before + key@ + " = "@ + word_of(config@, key@) + end@);
        }
        i += 1;
    }
    assert(config_keys().take(10) =~= config_keys());
    out
}

/// The reader's file with the lines this pane owns brought up to date.
///
/// **Only the value is replaced, never the line.** A line carries the reader's
/// alignment before its `=`, their comment after the value and their own ending,
/// and rebuilding it would reformat the file on every flip while their editor put
/// it back on every save. Comments, blank lines, key order and `hide` survive, and
/// a key the file lacks is appended, so a hand-written file only grows at the end.
/// Appended lines take the file's first line ending, or a line feed where it has
/// none.
pub fn rewrite(source: &str, config: &Config) -> (r: String)
    ensures
        r@ == rewritten(source@, config@),
{
    let chars = chars_of(source);
    let mark = chars.len() > 0 && chars[0] == '\u{FEFF}';
    let body = unmarked(chars.as_slice());
    let ps = pieces_of(body.as_slice());
    let ghost all = ps.deep_view();
    let mut out: Vec<char> = Vec::new();
    if mark {
        out.push('\u{FEFF}');
    }
    let ghost start = out@;
    let mut written: Vec<Vec<char>> = Vec::new();
    let mut ending: Option<Vec<char>> = None;
    let mut k: usize = 0;
    assert(all.take(0) =~= Seq::<Seq<char>>::empty());
    assert(written.deep_view() =~= Seq::<Seq<char>>::empty());
    assert(start + Seq::<char>::empty() =~= start);
    while k < ps.len()
        invariant
            k <= ps@.len(),
            all == ps.deep_view(),
            all == pieces(without_mark(source@)),
            start == (if mark {
                seq!['\u{FEFF}']
            } else {
                Seq::<char>::empty()
            }),
            ({
                let w = rewrite_pieces(all.take(k as int), config@);
                &&& out@ == start + w.out
                &&& written.deep_view() == w.written
                &&& opt_chars(ending) == w.ending
            }),
        decreases ps@.len() - k,
    {
        proof {
            assert(all.take(k + 1).drop_last() =~= all.take(k as int));
            assert(all.take(k + 1).last() == all[k as int]);
            lemma_chars_deep_view(ps@[k as int]);
        }
        let ghost before = out@;
        rewrite_one(&mut out, &mut written, &mut ending, ps[k].as_slice(), config);
        assert(start + rewrite_pieces(all.take(k + 1), config@).out =~= out@);
        k += 1;
    }
    assert(all.take(ps@.len() as int) =~= all);
    let ghost w = rewrite_pieces(all, config@);
    let ghost head = out@;
    assert(head == (if mark {
        seq!['\u{FEFF}'] + w.out
    } else {
        w.out
    }));
    assert(body@ == without_mark(source@));
    assert(mark == (source@.len() > 0 && source@[0] == '\u{FEFF}'));
    if any_unwritten(&written) {
        let end = match ending {
            Some(e) => e,
            None => {
                let e = vec!['\n'];
                assert(e@ =~= seq!['\n']);
                e
            },
        };
        let ghost end_spec = match w.ending {
            Some(e) => e,
            None => seq!['\n'],
        };
        assert(end@ == end_spec);
        let ghost gap: Seq<char> = if body@.len() > 0 && !(head.len() > 0 && head.last() == '\n') {
            end_spec
        } else {
            Seq::empty()
        };
        if body.len() > 0 && !(out.len() > 0 && out[out.len() - 1] == '\n') {
            append(&mut out, end.as_slice());
        } else {
            assert(head + Seq::<char>::empty() =~= head);
        }
        assert(out@ == head + gap);
        let lines = missing_text(&written, config, end.as_slice());
        append(&mut out, lines.as_slice());
        assert(out@ == rewritten(source@, config@));
    } else {
        assert(out@ == rewritten(source@, config@));
    }
    string_of(out.as_slice())
}

/// Whether every character of `w` is white space.
pub open spec fn all_white(w: Seq<char>) -> bool {
    forall|i: int| 0 <= i < w.len() ==> white_space(#[trigger] w[i])
}

pub(crate) proof fn lemma_lead_white_bound(x: Seq<char>)
    ensures
        lead_white(x) <= x.len(),
        lead_white(x) < x.len() ==> !white_space(x[lead_white(x) as int]),
        forall|i: int| 0 <= i < lead_white(x) ==> white_space(#[trigger] x[i]),
    decreases x.len(),
{
    if x.len() > 0 && white_space(x[0]) {
        lemma_lead_white_bound(x.drop_first());
        assert forall|i: int| 0 <= i < lead_white(x) implies white_space(#[trigger] x[i]) by {
            if i > 0 {
                assert(x[i] == x.drop_first()[i - 1]);
            }
        }
    }
}

pub(crate) proof fn lemma_tail_white_bound(x: Seq<char>)
    ensures
        tail_white(x) <= x.len(),
        tail_white(x) < x.len() ==> !white_space(x[x.len() - 1 - tail_white(x)]),
        forall|i: int| x.len() - tail_white(x) <= i < x.len() ==> white_space(#[trigger] x[i]),
    decreases x.len(),
{
    if x.len() > 0 && white_space(x.last()) {
        lemma_tail_white_bound(x.drop_last());
        assert forall|i: int| x.len() - tail_white(x) <= i < x.len() implies white_space(
            #[trigger] x[i],
        ) by {
            if i < x.len() - 1 {
                assert(x[i] == x.drop_last()[i]);
            }
        }
    }
}

/// White space that follows a run of text is counted by its lead only where
/// the run is white all through.
pub(crate) proof fn lemma_lead_white_concat(x: Seq<char>, w: Seq<char>)
    requires
        all_white(w),
    ensures
        lead_white(x) < x.len() ==> lead_white(x + w) == lead_white(x),
        lead_white(x) == x.len() ==> lead_white(x + w) == x.len() + w.len(),
    decreases x.len(),
{
    lemma_lead_white_bound(x);
    if x.len() == 0 {
        assert(x + w =~= w);
        lemma_all_white_lead(w);
    } else if white_space(x[0]) {
        lemma_lead_white_concat(x.drop_first(), w);
        assert((x + w).drop_first() =~= x.drop_first() + w);
    }
}

pub(crate) proof fn lemma_all_white_lead(w: Seq<char>)
    requires
        all_white(w),
    ensures
        lead_white(w) == w.len(),
    decreases w.len(),
{
    if w.len() > 0 {
        lemma_all_white_lead(w.drop_first());
    }
}

/// White space appended to a run of text is all counted by its tail.
pub(crate) proof fn lemma_tail_white_concat(y: Seq<char>, w: Seq<char>)
    requires
        all_white(w),
    ensures
        tail_white(y + w) == w.len() + tail_white(y),
    decreases w.len(),
{
    if w.len() == 0 {
        assert(y + w =~= y);
    } else {
        lemma_tail_white_concat(y, w.drop_last());
        assert((y + w).drop_last() =~= y + w.drop_last());
    }
}

/// White space at the end of a line changes nothing a trim leaves.
pub(crate) proof fn lemma_trim_white_tail(x: Seq<char>, w: Seq<char>)
    requires
        all_white(w),
    ensures
        trim(x + w) == trim(x),
{
    lemma_lead_white_concat(x, w);
    lemma_lead_white_bound(x);
    let lead = lead_white(x);
    if lead < x.len() {
        let y = trim_start(x);
        assert(trim_start(x + w) =~= y + w);
        lemma_tail_white_concat(y, w);
        lemma_tail_white_bound(y);
        assert(trim_end(y + w) =~= trim_end(y));
    } else {
        assert(trim_start(x + w) =~= Seq::<char>::empty());
        assert(trim_start(x) =~= Seq::<char>::empty());
    }
}

/// Pieces laid end to end.
pub open spec fn join_all(ps: Seq<Seq<char>>) -> Seq<char>
    decreases ps.len(),
{
    if ps.len() == 0 {
        Seq::empty()
    } else {
        join_all(ps.drop_last()) + ps.last()
    }
}

/// Whether `s` holds no line feed.
pub open spec fn no_feed(s: Seq<char>) -> bool {
    forall|j: int| 0 <= j < s.len() ==> #[trigger] s[j] != '\n'
}

/// Whether a piece is one line and its ending: never empty, a line feed
/// nowhere but at its end, and one there unless it is the last.
pub open spec fn piece_shaped(p: Seq<char>, last: bool) -> bool {
    &&& p.len() > 0
    &&& no_feed(p.drop_last())
    &&& (!last ==> p.last() == '\n')
}

/// The pieces of a text lay end to end into it, each one line and its ending,
/// and the last ends at a line feed exactly where the text does.
pub(crate) proof fn lemma_pieces_shape(t: Seq<char>)
    ensures
        join_all(pieces(t)) == t,
        forall|i: int| 0 <= i < pieces(t).len() ==> piece_shaped(
            #[trigger] pieces(t)[i],
            i == pieces(t).len() - 1,
        ),
        t.len() > 0 ==> pieces(t).len() > 0 && (pieces(t).last().last() == '\n') == (t.last()
            == '\n'),
        t.len() == 0 ==> pieces(t).len() == 0,
    decreases t.len(),
{
    if t.len() > 0 {
        let t1 = t.drop_last();
        let c = t.last();
        lemma_pieces_shape(t1);
        let before = pieces(t1);
        if before.len() == 0 || before.last().last() == '\n' {
            assert(before.push(seq![c]).drop_last() =~= before);
            assert(join_all(before.push(seq![c])) =~= join_all(before) + seq![c]);
            assert(join_all(before) + seq![c] =~= t);
            assert forall|i: int| 0 <= i < pieces(t).len() implies piece_shaped(
                #[trigger] pieces(t)[i],
                i == pieces(t).len() - 1,
            ) by {
                if i < before.len() {
                    assert(pieces(t)[i] == before[i]);
                    assert(piece_shaped(before[i], i == before.len() - 1));
                } else {
                    assert(pieces(t)[i] =~= seq![c]);
                    assert(seq![c].drop_last() =~= Seq::<char>::empty());
                }
            }
        } else {
            let grown = before.last().push(c);
            let after = before.update(before.len() - 1, grown);
            assert(after.drop_last() =~= before.drop_last());
            assert(join_all(after) =~= join_all(before.drop_last()) + grown);
            assert(join_all(before) =~= join_all(before.drop_last()) + before.last());
            assert(join_all(before.drop_last()) + grown =~= join_all(before) + seq![c]);
            assert(join_all(before) + seq![c] =~= t);
            assert forall|i: int| 0 <= i < pieces(t).len() implies piece_shaped(
                #[trigger] pieces(t)[i],
                i == pieces(t).len() - 1,
            ) by {
                if i < before.len() - 1 {
                    assert(pieces(t)[i] == before[i]);
                    assert(piece_shaped(before[i], i == before.len() - 1));
                } else {
                    assert(piece_shaped(before[i], true));
                    assert(grown.drop_last() =~= before.last());
                    assert(before.last().last() != '\n');
                    assert(no_feed(before.last())) by {
                        assert forall|j: int| 0 <= j < before.last().len() implies #[trigger] before.last()[j] != '\n' by {
                            if j < before.last().len() - 1 {
                                assert(before.last()[j] == before.last().drop_last()[j]);
                            }
                        }
                    }
                }
            }
        }
    }
}

/// `s` once its trailing copies of `c` are gone is a prefix of it, what was
/// cut is all `c`, and it no longer ends with one.
pub(crate) proof fn lemma_strip_end(s: Seq<char>, c: char)
    ensures
        strip_end(s, c).len() <= s.len(),
        strip_end(s, c) == s.take(strip_end(s, c).len() as int),
        forall|j: int| strip_end(s, c).len() <= j < s.len() ==> #[trigger] s[j] == c,
        strip_end(s, c).len() == 0 || strip_end(s, c).last() != c,
    decreases s.len(),
{
    if s.len() > 0 && s.last() == c {
        lemma_strip_end(s.drop_last(), c);
        assert forall|j: int| strip_end(s, c).len() <= j < s.len() implies #[trigger] s[j] == c by {
            if j < s.len() - 1 {
                assert(s[j] == s.drop_last()[j]);
            }
        }
        assert(s.drop_last().take(strip_end(s, c).len() as int) =~= s.take(
            strip_end(s, c).len() as int,
        ));
    } else {
        assert(s.take(s.len() as int) =~= s);
    }
}

/// A run with no line feed is one line.
pub(crate) proof fn lemma_split_one_line(u: Seq<char>)
    requires
        no_feed(u),
    ensures
        split_lines(u) == seq![u],
    decreases u.len(),
{
    if u.len() == 0 {
        assert(u =~= Seq::<char>::empty());
    } else {
        let u1 = u.drop_last();
        assert(no_feed(u1)) by {
            assert forall|j: int| 0 <= j < u1.len() implies #[trigger] u1[j] != '\n' by {
                assert(u1[j] == u[j]);
            }
        }
        lemma_split_one_line(u1);
        assert(u[u.len() - 1] != '\n');
        assert(u1.push(u.last()) =~= u);
        assert(seq![u1].update(0, u1.push(u.last())) =~= seq![u]);
    }
}

/// The lines of one piece: its line with one carriage return dropped, and the
/// empty line a line feed opens after it.
pub(crate) proof fn lemma_piece_lines(x: Seq<char>, w: Seq<char>, feed: bool)
    requires
        no_feed(x),
        forall|j: int| 0 <= j < w.len() ==> #[trigger] w[j] == '\r',
    ensures
        text_lines(x + w + (if feed {
            seq!['\n']
        } else {
            Seq::empty()
        })) == (if feed {
            seq![strip_cr(x + w), Seq::empty()]
        } else {
            seq![strip_cr(x + w)]
        }),
{
    let u = x + w;
    assert(no_feed(u)) by {
        assert forall|j: int| 0 <= j < u.len() implies #[trigger] u[j] != '\n' by {
            if j < x.len() {
                assert(u[j] == x[j]);
            } else {
                assert(u[j] == w[j - x.len()]);
            }
        }
    }
    lemma_split_one_line(u);
    if feed {
        let v = u + seq!['\n'];
        assert(v.drop_last() =~= u);
        assert(split_lines(v) =~= seq![u, Seq::empty()]);
        assert(text_lines(v) =~= seq![strip_cr(u), Seq::empty()]);
    } else {
        assert(u + Seq::<char>::empty() =~= u);
        assert(text_lines(u) =~= seq![strip_cr(u)]);
    }
}

/// A line's carriage returns, once one is dropped and the line trimmed, leave
/// what the line trims to without them.
pub(crate) proof fn lemma_trim_cr(x: Seq<char>, w: Seq<char>)
    requires
        forall|j: int| 0 <= j < w.len() ==> #[trigger] w[j] == '\r',
        x.len() == 0 || x.last() != '\r',
    ensures
        trim(strip_cr(x + w)) == trim(x),
{
    let stripped = strip_cr(x + w);
    if w.len() > 0 {
        assert(stripped =~= x + w.drop_last());
        assert(all_white(w.drop_last())) by {
            assert forall|i: int| 0 <= i < w.drop_last().len() implies white_space(#[trigger] w.drop_last()[i]) by {
                assert(w.drop_last()[i] == w[i]);
            }
        }
        lemma_trim_white_tail(x, w.drop_last());
    } else {
        assert(x + w =~= x);
    }
}

/// The first `c` of `s` is at `k` where `s[k]` is one and nothing before is.
pub(crate) proof fn lemma_first_at_is(s: Seq<char>, c: char, k: int)
    requires
        0 <= k < s.len(),
        s[k] == c,
        forall|j: int| 0 <= j < k ==> #[trigger] s[j] != c,
    ensures
        first_at(s, c) == k,
    decreases k,
{
    if k > 0 {
        let t = s.drop_first();
        assert forall|j: int| 0 <= j < k - 1 implies #[trigger] t[j] != c by {
            assert(t[j] == s[j + 1]);
        }
        lemma_first_at_is(t, c, k - 1);
    }
}

/// The lead of white space is exactly the white run before the first
/// character that is not white.
pub(crate) proof fn lemma_lead_white_is(x: Seq<char>, lead: int)
    requires
        0 <= lead < x.len(),
        forall|i: int| 0 <= i < lead ==> white_space(#[trigger] x[i]),
        !white_space(x[lead]),
    ensures
        lead_white(x) == lead,
    decreases lead,
{
    if lead > 0 {
        let t = x.drop_first();
        assert forall|i: int| 0 <= i < lead - 1 implies white_space(#[trigger] t[i]) by {
            assert(t[i] == x[i + 1]);
        }
        lemma_lead_white_is(t, lead - 1);
    }
}

/// White space in front of a line changes nothing a trim leaves.
pub(crate) proof fn lemma_trim_white_head(w: Seq<char>, y: Seq<char>)
    requires
        all_white(w),
    ensures
        trim(w + y) == trim(y),
    decreases w.len(),
{
    if w.len() > 0 {
        let t = w.drop_first();
        assert(all_white(t)) by {
            assert forall|i: int| 0 <= i < t.len() implies white_space(#[trigger] t[i]) by {
                assert(t[i] == w[i + 1]);
            }
        }
        lemma_trim_white_head(t, y);
        assert((w + y).drop_first() =~= t + y);
        assert(white_space((w + y)[0]));
        assert(lead_white(w + y) == 1 + lead_white(t + y));
        lemma_lead_white_bound(t + y);
        assert(trim_start(w + y) =~= trim_start(t + y));
    } else {
        assert(w + y =~= y);
    }
}

/// Whether a comment opens at `j` of `s`: a `#` at its start or after white
/// space.
pub open spec fn opens_comment(s: Seq<char>, j: int) -> bool {
    s[j] == '#' && (j == 0 || white_space(s[j - 1]))
}

/// The comment of `s` opens at `k` where one opens there and none before it
/// from `i` on.
pub(crate) proof fn lemma_comment_at(s: Seq<char>, i: int, k: int)
    requires
        0 <= i <= k < s.len(),
        opens_comment(s, k),
        forall|j: int| i <= j < k ==> !#[trigger] opens_comment(s, j),
    ensures
        comment_from(s, i) == k,
    decreases k - i,
{
    if i < k {
        assert(!opens_comment(s, i));
        lemma_comment_at(s, i + 1, k);
    }
}

/// No comment opens in `s` from `i` on where none opens at any place there.
pub(crate) proof fn lemma_no_comment(s: Seq<char>, i: int)
    requires
        0 <= i,
        forall|j: int| i <= j < s.len() ==> !#[trigger] opens_comment(s, j),
    ensures
        comment_from(s, i) == -1,
    decreases s.len() - i,
{
    if i < s.len() {
        assert(!opens_comment(s, i));
        lemma_no_comment(s, i + 1);
    }
}

/// The spellings of the keys and the values, which are what a read compares
/// against.
pub(crate) proof fn lemma_spellings()
    ensures
        "on"@ == seq!['o', 'n'],
        "off"@ == seq!['o', 'f', 'f'],
        "follow"@ == seq!['f', 'o', 'l', 'l', 'o', 'w'],
        "rail"@ == seq!['r', 'a', 'i', 'l'],
        "single"@ == seq!['s', 'i', 'n', 'g', 'l', 'e'],
        "overview"@ == seq!['o', 'v', 'e', 'r', 'v', 'i', 'e', 'w'],
        "staged"@ == seq!['s', 't', 'a', 'g', 'e', 'd'],
        "wrap"@ == seq!['w', 'r', 'a', 'p'],
        "notes"@ == seq!['n', 'o', 't', 'e', 's'],
        "icons"@ == seq!['i', 'c', 'o', 'n', 's'],
        "links"@ == seq!['l', 'i', 'n', 'k', 's'],
        "persist"@ == seq!['p', 'e', 'r', 's', 'i', 's', 't'],
        "hide"@ == seq!['h', 'i', 'd', 'e'],
{
    reveal_strlit("on");
    reveal_strlit("off");
    reveal_strlit("follow");
    reveal_strlit("rail");
    reveal_strlit("single");
    reveal_strlit("overview");
    reveal_strlit("staged");
    reveal_strlit("wrap");
    reveal_strlit("notes");
    reveal_strlit("icons");
    reveal_strlit("links");
    reveal_strlit("persist");
    reveal_strlit("hide");
    assert("on"@ =~= seq!['o', 'n']);
    assert("off"@ =~= seq!['o', 'f', 'f']);
    assert("follow"@ =~= seq!['f', 'o', 'l', 'l', 'o', 'w']);
    assert("rail"@ =~= seq!['r', 'a', 'i', 'l']);
    assert("single"@ =~= seq!['s', 'i', 'n', 'g', 'l', 'e']);
    assert("overview"@ =~= seq!['o', 'v', 'e', 'r', 'v', 'i', 'e', 'w']);
    assert("staged"@ =~= seq!['s', 't', 'a', 'g', 'e', 'd']);
    assert("wrap"@ =~= seq!['w', 'r', 'a', 'p']);
    assert("notes"@ =~= seq!['n', 'o', 't', 'e', 's']);
    assert("icons"@ =~= seq!['i', 'c', 'o', 'n', 's']);
    assert("links"@ =~= seq!['l', 'i', 'n', 'k', 's']);
    assert("persist"@ =~= seq!['p', 'e', 'r', 's', 'i', 's', 't']);
    assert("hide"@ =~= seq!['h', 'i', 'd', 'e']);
}

/// Where a line's text lies once trimmed: from its lead of white space to its
/// tail of it.
pub(crate) proof fn lemma_trim_is(raw: Seq<char>)
    ensures
        lead_white(raw) <= raw.len(),
        trim_start(raw) == raw.skip(lead_white(raw) as int),
        trim(raw) == raw.subrange(
            lead_white(raw) as int,
            raw.len() - tail_white(raw.skip(lead_white(raw) as int)),
        ),
        tail_white(raw.skip(lead_white(raw) as int)) <= raw.len() - lead_white(raw),
        forall|i: int| 0 <= i < lead_white(raw) ==> white_space(#[trigger] raw[i]),
        forall|i: int|
            raw.len() - tail_white(raw.skip(lead_white(raw) as int)) <= i < raw.len() ==> white_space(
                #[trigger] raw[i],
            ),
{
    lemma_lead_white_bound(raw);
    let lead = lead_white(raw);
    let rest = raw.skip(lead as int);
    lemma_tail_white_bound(rest);
    assert(trim_start(raw) =~= rest);
    assert(trim(raw) =~= raw.subrange(lead as int, raw.len() - tail_white(rest)));
    assert forall|i: int| raw.len() - tail_white(rest) <= i < raw.len() implies white_space(
        #[trigger] raw[i],
    ) by {
        assert(raw[i] == rest[i - lead]);
    }
}

/// The key a line sets, as a read finds it: what comes before the trimmed
/// line's first `=`, trimmed.
pub open spec fn line_key(raw: Seq<char>) -> Seq<char> {
    trim(trim(raw).take(first_at(trim(raw), '=')))
}

/// Whether a read takes `raw` for a line that sets something: not blank, not a
/// comment, and with an `=`.
pub open spec fn sets_something(raw: Seq<char>) -> bool {
    trim(raw).len() > 0 && trim(raw)[0] != '#' && first_at(trim(raw), '=') >= 0
}

/// The line a rewrite owns is exactly a line a read takes for a toggle not
/// yet written, and the key the rewrite restates is the key the read sets.
pub(crate) proof fn lemma_owned_is_read(raw: Seq<char>, written: Seq<Seq<char>>)
    ensures
        (owned_key(raw, written) is Some) == (sets_something(raw) && is_toggle(line_key(raw))
            && !written.contains(line_key(raw))),
        owned_key(raw, written) matches Some((key, at)) ==> key == line_key(raw) && at == lead_white(raw)
            + first_at(trim(raw), '=') && 0 <= at < raw.len() && raw[at] == '=' && forall|j: int|
            0 <= j < at ==> #[trigger] raw[j] != '=',
{
    lemma_trim_is(raw);
    lemma_lead_white_bound(raw);
    lemma_first_at_bound(raw, '=');
    let lead = lead_white(raw);
    let text = trim(raw);
    let at = first_at(raw, '=');
    lemma_first_at_bound(text, '=');
    let eq = first_at(text, '=');
    let end = raw.len() - tail_white(raw.skip(lead as int));
    if text.len() > 0 {
        assert(trim_start(raw).len() > 0);
        assert(trim_start(raw)[0] == text[0]);
    } else {
        if trim_start(raw).len() > 0 {
            lemma_tail_white_bound(trim_start(raw));
            assert(trim_start(raw)[0] == raw[lead as int]);
            assert(!white_space(trim_start(raw)[0]));
            assert(false);
        }
    }
    if at >= 0 && text.len() > 0 {
        assert(!white_space(raw[at]));
        assert(lead <= at < end);
        assert(text[at - lead] == '=');
        assert forall|j: int| 0 <= j < at - lead implies #[trigger] text[j] != '=' by {
            assert(text[j] == raw[lead + j]);
        }
        lemma_first_at_is(text, '=', at - lead);
        let w = raw.take(lead as int);
        let y = raw.subrange(lead as int, at);
        assert(all_white(w));
        assert(raw.take(at) =~= w + y);
        lemma_trim_white_head(w, y);
        assert(text.take(eq) =~= y);
    }
    if eq >= 0 && text.len() > 0 {
        assert(raw[lead + eq] == '=');
        assert(at >= 0);
    }
}

/// A value is read as the word it spells, white space around it aside.
pub(crate) proof fn lemma_word_trims(word: Seq<char>)
    requires
        word == "on"@ || word == "off"@,
    ensures
        trim(seq![' '] + word) == word,
        trim(seq![' '] + word + seq![' ']) == word,
        forall|j: int| 0 <= j < word.len() ==> #[trigger] word[j] != '#' && !white_space(word[j]),
{
    lemma_spellings();
    assert(all_white(seq![' ']));
    lemma_trim_white_head(seq![' '], word);
    assert(seq![' '] + word + seq![' '] =~= seq![' '] + (word + seq![' ']));
    lemma_trim_white_head(seq![' '], word + seq![' ']);
    lemma_trim_white_tail(word, seq![' ']);
    assert(lead_white(word) == 0);
    assert(trim_start(word) =~= word);
    assert(tail_white(word) == 0);
    assert(trim(word) =~= word);
}

/// What a restated line's comment part is: a blank and the comment as the
/// reader wrote it, trailing white space aside, or nothing.
pub open spec fn said_part(raw: Seq<char>, at: int) -> Seq<char> {
    match comment_text(raw.skip(at + 1)) {
        Some(said) => seq![' '] + trim_end(said),
        None => Seq::empty(),
    }
}

/// A comment part is empty or a blank, then a `#`, then more, ending on
/// something that is not white.
pub(crate) proof fn lemma_said_part(raw: Seq<char>, at: int)
    requires
        0 <= at < raw.len(),
    ensures
        said_part(raw, at).len() > 0 ==> said_part(raw, at).len() >= 2 && said_part(raw, at)[0]
            == ' ' && said_part(raw, at)[1] == '#' && !white_space(said_part(raw, at).last()),
{
    let after = raw.skip(at + 1);
    if comment_from(after, 0) >= 0 {
        lemma_said_opens(after);
        let said = after.skip(comment_from(after, 0));
        lemma_tail_white_bound(said);
        assert(!white_space(said[0]));
        let kept = trim_end(said);
        assert(tail_white(said) < said.len());
        assert(kept.len() > 0);
        assert(kept[0] == '#');
        assert(kept.last() == said[said.len() - 1 - tail_white(said)]);
    }
}

/// The text a restated line trims to, and where its key and its value lie.
#[verifier::rlimit(30)]
pub(crate) proof fn lemma_restated_text(raw: Seq<char>, written: Seq<Seq<char>>, d: Defaults, key: Seq<char>, at: int)
    requires
        owned_key(raw, written) == Some((key, at)),
    ensures
        ({
            let text = trim(restated(raw, key, at, d));
            let lead = lead_white(raw) as int;
            &&& text.len() > 0
            &&& text[0] != '#'
            &&& first_at(text, '=') == at - lead
            &&& text.take(at - lead) == trim(raw).take(first_at(trim(raw), '='))
            &&& text.skip(at - lead + 1) == seq![' '] + word_of(d, key) + said_part(raw, at)
        }),
        key == line_key(raw),
{
    lemma_owned_is_read(raw, written);
    lemma_trim_is(raw);
    lemma_lead_white_bound(raw);
    lemma_said_part(raw, at);
    let lead = lead_white(raw) as int;
    let word = word_of(d, key);
    lemma_word_trims(word);
    let rr = restated(raw, key, at, d);
    assert(rr =~= raw.take(at + 1) + seq![' '] + word + said_part(raw, at));
    assert forall|i: int| 0 <= i < lead implies white_space(#[trigger] rr[i]) by {
        assert(rr[i] == raw[i]);
    }
    assert(rr[lead] == raw[lead]);
    lemma_lead_white_is(rr, lead);
    let text2 = rr.skip(lead);
    lemma_spellings();
    assert(word.len() > 0);
    if said_part(raw, at).len() > 0 {
        assert(rr.last() == said_part(raw, at).last());
    } else {
        assert(rr =~= raw.take(at + 1) + seq![' '] + word);
        assert(rr.last() == word[word.len() - 1]);
        assert(!white_space(word[word.len() - 1]));
    }
    assert(!white_space(rr.last()));
    assert(text2.last() == rr.last());
    assert(tail_white(text2) == 0);
    assert(trim(rr) =~= text2);
    assert(text2[at - lead] == '=');
    assert forall|j: int| 0 <= j < at - lead implies #[trigger] text2[j] != '=' by {
        assert(text2[j] == raw[lead + j]);
    }
    lemma_first_at_is(text2, '=', at - lead);
    assert(text2.take(at - lead) =~= trim(raw).take(first_at(trim(raw), '=')));
    assert(text2.skip(at - lead + 1) =~= seq![' '] + word + said_part(raw, at));
}

/// What follows a restated line's `=` is read as the word it wrote.
pub(crate) proof fn lemma_restated_value(raw: Seq<char>, at: int, word: Seq<char>)
    requires
        0 <= at < raw.len(),
        word == "on"@ || word == "off"@,
    ensures
        value_text(seq![' '] + word + said_part(raw, at)) == word,
{
    lemma_said_part(raw, at);
    lemma_word_trims(word);
    let said = said_part(raw, at);
    let tail2 = seq![' '] + word + said;
    if said.len() > 0 {
        let k: int = 1 + word.len() as int;
        assert(tail2[k] == ' ');
        assert(tail2[k + 1] == '#');
        assert(opens_comment(tail2, k + 1));
        assert forall|j: int| 0 <= j < k + 1 implies !#[trigger] opens_comment(tail2, j) by {
            if j == 0 {
            } else if j <= word.len() {
                assert(tail2[j] == word[j - 1]);
            } else {
                assert(tail2[j] == ' ');
            }
        }
        lemma_comment_at(tail2, 0, k + 1);
        assert(tail2.take(k + 1) =~= seq![' '] + word + seq![' ']);
    } else {
        assert(tail2 =~= seq![' '] + word);
        assert forall|j: int| 0 <= j < tail2.len() implies !#[trigger] opens_comment(tail2, j) by {
            if j > 0 {
                assert(tail2[j] == word[j - 1]);
            }
        }
        lemma_no_comment(tail2, 0);
    }
}

/// An owned line, restated, is read as its own key set to the value the
/// rewrite wrote.
pub(crate) proof fn lemma_restated_reads(
    raw: Seq<char>,
    written: Seq<Seq<char>>,
    d: Defaults,
    r: Reading,
    n: usize,
    key: Seq<char>,
    at: int,
)
    requires
        owned_key(raw, written) == Some((key, at)),
        seen_on(r.seen, key) is None,
    ensures
        read_line(r, n, restated(raw, key, at, d)) == Ok::<Reading, Fault>(
            Reading { config: with_toggle(r.config, key, toggle_of(d, key)), seen: r.seen.push((key, n)) },
        ),
        key == line_key(raw),
{
    lemma_owned_is_read(raw, written);
    lemma_restated_text(raw, written, d, key, at);
    lemma_restated_value(raw, at, word_of(d, key));
    lemma_spellings();
}

/// The comment a value carries opens with its `#`.
pub(crate) proof fn lemma_said_opens(after: Seq<char>)
    requires
        comment_from(after, 0) >= 0,
    ensures
        after.skip(comment_from(after, 0)).len() > 0,
        after.skip(comment_from(after, 0))[0] == '#',
{
    lemma_comment_from_opens(after, 0);
}

/// Where a comment opens, there is a `#` at the start or after white space.
pub(crate) proof fn lemma_comment_from_opens(s: Seq<char>, i: int)
    requires
        0 <= i,
        comment_from(s, i) >= 0,
    ensures
        i <= comment_from(s, i) < s.len(),
        opens_comment(s, comment_from(s, i)),
    decreases s.len() - i,
{
    if i < s.len() && !(s[i] == '#' && (i == 0 || white_space(s[i - 1]))) {
        lemma_comment_from_opens(s, i + 1);
    }
}

/// The settings' names are eleven different words.
pub(crate) proof fn lemma_names_distinct()
    ensures
        "follow"@ != "rail"@, "follow"@ != "single"@, "follow"@ != "overview"@,
        "follow"@ != "staged"@, "follow"@ != "wrap"@, "follow"@ != "notes"@,
        "follow"@ != "icons"@, "follow"@ != "links"@, "follow"@ != "persist"@,
        "rail"@ != "single"@, "rail"@ != "overview"@, "rail"@ != "staged"@, "rail"@ != "wrap"@,
        "rail"@ != "notes"@, "rail"@ != "icons"@, "rail"@ != "links"@, "rail"@ != "persist"@,
        "single"@ != "overview"@, "single"@ != "staged"@, "single"@ != "wrap"@,
        "single"@ != "notes"@, "single"@ != "icons"@, "single"@ != "links"@,
        "single"@ != "persist"@,
        "overview"@ != "staged"@, "overview"@ != "wrap"@, "overview"@ != "notes"@,
        "overview"@ != "icons"@, "overview"@ != "links"@, "overview"@ != "persist"@,
        "staged"@ != "wrap"@, "staged"@ != "notes"@, "staged"@ != "icons"@,
        "staged"@ != "links"@, "staged"@ != "persist"@,
        "wrap"@ != "notes"@, "wrap"@ != "icons"@, "wrap"@ != "links"@, "wrap"@ != "persist"@,
        "notes"@ != "icons"@, "notes"@ != "links"@, "notes"@ != "persist"@,
        "icons"@ != "links"@, "icons"@ != "persist"@,
        "links"@ != "persist"@,
        !is_toggle("hide"@),
        "on"@ != "off"@,
{
    lemma_spellings();
    assert("single"@[1] != "staged"@[1]);
    assert("rail"@[0] != "wrap"@[0]);
    assert("notes"@[0] != "icons"@[0]);
    assert("notes"@[0] != "links"@[0]);
    assert("icons"@[0] != "links"@[0]);
    assert("follow"@[0] != "single"@[0]);
    assert("follow"@[0] != "staged"@[0]);
    assert("hide"@[0] != "rail"@[0]);
    assert("hide"@[0] != "wrap"@[0]);
}

/// A setting recorded once more is found where it was found before, else at
/// the new record.
pub(crate) proof fn lemma_seen_on_push(seen: Seq<(Seq<char>, usize)>, k: Seq<char>, n: usize, key: Seq<char>)
    ensures
        seen_on(seen.push((k, n)), key) == (if seen_on(seen, key) is Some {
            seen_on(seen, key)
        } else if k == key {
            Some(n)
        } else {
            None
        }),
    decreases seen.len(),
{
    let p = seen.push((k, n));
    if seen.len() > 0 {
        lemma_seen_on_push(seen.drop_first(), k, n, key);
        assert(p.drop_first() =~= seen.drop_first().push((k, n)));
        assert(p[0] == seen[0]);
        if seen[0].0 == key {
            assert(seen_on(p, key) == Some(seen[0].1));
            assert(seen_on(seen, key) == Some(seen[0].1));
        } else {
            assert(seen_on(p, key) == seen_on(p.drop_first(), key));
            assert(seen_on(seen, key) == seen_on(seen.drop_first(), key));
        }
    } else {
        assert(p.drop_first() =~= Seq::<(Seq<char>, usize)>::empty());
        assert(p[0] == (k, n));
        assert(seen_on(seen, key) is None);
        if k == key {
            assert(seen_on(p, key) == Some(n));
        } else {
            assert(seen_on(p, key) == seen_on(p.drop_first(), key));
            assert(seen_on(p.drop_first(), key) is None);
        }
    }
}

/// The toggles a read has set, in the order it set them.
pub open spec fn toggles_seen(seen: Seq<(Seq<char>, usize)>) -> Seq<Seq<char>>
    decreases seen.len(),
{
    if seen.len() == 0 {
        Seq::empty()
    } else if is_toggle(seen.last().0) {
        toggles_seen(seen.drop_last()).push(seen.last().0)
    } else {
        toggles_seen(seen.drop_last())
    }
}

/// A toggle among those set was set.
pub(crate) proof fn lemma_toggles_seen_contains(seen: Seq<(Seq<char>, usize)>, k: Seq<char>)
    requires
        toggles_seen(seen).contains(k),
    ensures
        seen_on(seen, k) is Some,
    decreases seen.len(),
{
    let front = seen.drop_last();
    assert(front.push(seen.last()) =~= seen);
    lemma_seen_on_push(front, seen.last().0, seen.last().1, k);
    if is_toggle(seen.last().0) {
        if toggles_seen(front).contains(k) {
            lemma_toggles_seen_contains(front, k);
        } else {
            let i = choose|i: int| 0 <= i < toggles_seen(seen).len() && toggles_seen(seen)[i] == k;
            assert(i == toggles_seen(front).len());
        }
    } else {
        lemma_toggles_seen_contains(front, k);
    }
}

/// A read's settings once a rewrite has set each toggle the read met to the
/// value written: the toggles the file set take the written values, the rest
/// and the pattern stay as read.
pub open spec fn adopted(c: Defaults, seen: Seq<(Seq<char>, usize)>, d: Defaults) -> Defaults {
    Defaults {
        follow: if seen_on(seen, "follow"@) is Some { d.follow } else { c.follow },
        rail: if seen_on(seen, "rail"@) is Some { d.rail } else { c.rail },
        single: if seen_on(seen, "single"@) is Some { d.single } else { c.single },
        overview: if seen_on(seen, "overview"@) is Some { d.overview } else { c.overview },
        staged: if seen_on(seen, "staged"@) is Some { d.staged } else { c.staged },
        wrap: if seen_on(seen, "wrap"@) is Some { d.wrap } else { c.wrap },
        notes: if seen_on(seen, "notes"@) is Some { d.notes } else { c.notes },
        icons: if seen_on(seen, "icons"@) is Some { d.icons } else { c.icons },
        links: if seen_on(seen, "links"@) is Some { d.links } else { c.links },
        persist: if seen_on(seen, "persist"@) is Some { d.persist } else { c.persist },
        hide: c.hide,
    }
}

/// The reading a rewritten file gets so far, given the reading the file got
/// before the rewrite: the same records, the settings adopted.
pub open spec fn rewritten_reading(rb: Reading, d: Defaults) -> Reading {
    Reading { config: adopted(rb.config, rb.seen, d), seen: rb.seen }
}

/// Recording the pattern changes no toggle a rewrite adopts.
pub(crate) proof fn lemma_adopt_pattern(c: Defaults, seen: Seq<(Seq<char>, usize)>, d: Defaults, v: Seq<char>, n: usize)
    ensures
        adopted((Defaults { hide: Some(v), ..c }), seen.push(("hide"@, n)), d) == (Defaults {
            hide: Some(v),
            ..adopted(c, seen, d)
        }),
        toggles_seen(seen.push(("hide"@, n))) == toggles_seen(seen),
{
    lemma_spellings();
    lemma_names_distinct();
    lemma_seen_on_push(seen, "hide"@, n, "follow"@);
    lemma_seen_on_push(seen, "hide"@, n, "rail"@);
    lemma_seen_on_push(seen, "hide"@, n, "single"@);
    lemma_seen_on_push(seen, "hide"@, n, "overview"@);
    lemma_seen_on_push(seen, "hide"@, n, "staged"@);
    lemma_seen_on_push(seen, "hide"@, n, "wrap"@);
    lemma_seen_on_push(seen, "hide"@, n, "notes"@);
    lemma_seen_on_push(seen, "hide"@, n, "icons"@);
    lemma_seen_on_push(seen, "hide"@, n, "links"@);
    lemma_seen_on_push(seen, "hide"@, n, "persist"@);
    assert(seen.push(("hide"@, n)).drop_last() =~= seen);
    lemma_names_distinct();
}

/// Setting a toggle the rewrite adopts gives what the rewrite wrote, whatever
/// the file said before.
#[verifier::rlimit(30)]
pub(crate) proof fn lemma_adopt_toggle(
    c: Defaults,
    seen: Seq<(Seq<char>, usize)>,
    d: Defaults,
    key: Seq<char>,
    v: bool,
    n: usize,
)
    requires
        is_toggle(key),
    ensures
        adopted(with_toggle(c, key, v), seen.push((key, n)), d) == with_toggle(
            adopted(c, seen, d),
            key,
            toggle_of(d, key),
        ),
        toggles_seen(seen.push((key, n))) == toggles_seen(seen).push(key),
{
    let pushed = seen.push((key, n));
    lemma_names_distinct();
    lemma_with_toggle(c, key, v);
    lemma_with_toggle(adopted(c, seen, d), key, toggle_of(d, key));
    lemma_seen_on_push(seen, key, n, "follow"@);
    lemma_seen_on_push(seen, key, n, "rail"@);
    lemma_seen_on_push(seen, key, n, "single"@);
    lemma_seen_on_push(seen, key, n, "overview"@);
    lemma_seen_on_push(seen, key, n, "staged"@);
    lemma_seen_on_push(seen, key, n, "wrap"@);
    lemma_seen_on_push(seen, key, n, "notes"@);
    lemma_seen_on_push(seen, key, n, "icons"@);
    lemma_seen_on_push(seen, key, n, "links"@);
    lemma_seen_on_push(seen, key, n, "persist"@);
    assert(pushed.drop_last() =~= seen);
}

/// A piece of the file the pane does not own comes out as it went in.
proof fn lemma_unowned_piece_kept(written: Seq<Seq<char>>, piece: Seq<char>, c: Defaults)
    requires
        owned_key(raw_of(piece), written) is None,
    ensures
        piece_text(written, piece, c) == piece,
{
    let fed = strip_end(piece, '\n');
    lemma_strip_end(piece, '\n');
    lemma_strip_end(fed, '\r');
    let raw = raw_of(piece);
    assert(raw =~= piece.take(raw.len() as int));
    assert(raw + piece.skip(raw.len() as int) =~= piece);
}

/// What the first pieces come out as begins what all of them come out as.
proof fn lemma_out_grows(ps: Seq<Seq<char>>, c: Defaults, i: int)
    requires
        0 <= i <= ps.len(),
    ensures
        rewrite_pieces(ps.take(i), c).out.len() <= rewrite_pieces(ps, c).out.len(),
        rewrite_pieces(ps, c).out.take(rewrite_pieces(ps.take(i), c).out.len() as int) == rewrite_pieces(
            ps.take(i),
            c,
        ).out,
    decreases ps.len(),
{
    if i < ps.len() {
        lemma_out_grows(ps.drop_last(), c, i);
        assert(ps.drop_last().take(i) =~= ps.take(i));
        let before = rewrite_pieces(ps.drop_last(), c).out;
        let n = rewrite_pieces(ps.take(i), c).out.len() as int;
        assert(rewrite_pieces(ps, c).out.take(n) =~= before.take(n));
    } else {
        assert(ps.take(i) =~= ps);
        assert(rewrite_pieces(ps, c).out.take(rewrite_pieces(ps, c).out.len() as int) =~= rewrite_pieces(ps, c).out);
    }
}

/// The rewrite keeps every line the pane does not own as the file had it:
/// each comes out whole, line ending and all, right where what the lines
/// before it came out as ends, so the kept lines keep the file's order.
pub proof fn law_lines_it_does_not_own_are_kept_in_place(source: Seq<char>, c: Defaults, i: int)
    requires
        0 <= i < pieces(without_mark(source)).len(),
    ensures
        ({
            let ps = pieces(without_mark(source));
            let before = rewrite_pieces(ps.take(i), c);
            let at = (if source.len() > 0 && source[0] == '\u{FEFF}' {
                1int
            } else {
                0int
            }) + before.out.len();
            owned_key(raw_of(ps[i]), before.written) is None ==> rewritten(source, c).subrange(
                at,
                at + ps[i].len(),
            ) == ps[i]
        }),
{
    let ps = pieces(without_mark(source));
    let before = rewrite_pieces(ps.take(i), c);
    if owned_key(raw_of(ps[i]), before.written) is None {
        lemma_unowned_piece_kept(before.written, ps[i], c);
        assert(ps.take(i + 1).drop_last() =~= ps.take(i));
        assert(ps.take(i + 1).last() == ps[i]);
        let upto = rewrite_pieces(ps.take(i + 1), c).out;
        assert(upto == before.out + ps[i]);
        lemma_out_grows(ps, c, i + 1);
        let w = rewrite_pieces(ps, c);
        let mark = source.len() > 0 && source[0] == '\u{FEFF}';
        let head = if mark {
            seq!['\u{FEFF}'] + w.out
        } else {
            w.out
        };
        let m: int = if mark {
            1
        } else {
            0
        };
        let at = m + before.out.len();
        let whole = rewritten(source, c);
        assert(whole.take(head.len() as int) =~= head);
        assert forall|k: int| 0 <= k < ps[i].len() implies whole.subrange(at, at + ps[i].len())[k] == ps[i][k] by {
            assert(whole[at + k] == head[at + k]);
            assert(head[at + k] == w.out[before.out.len() + k]);
            assert(w.out[before.out.len() + k] == upto[before.out.len() + k]);
        }
        assert(whole.subrange(at, at + ps[i].len()) =~= ps[i]);
    }
}

} // verus!
