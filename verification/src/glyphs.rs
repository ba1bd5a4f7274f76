//! Which drawing glyphs this terminal's font can be asked for, and what the
//! sparkline becomes at each rung.
//!
//! No terminal reports its font's coverage, so this reads `TERM_PROGRAM` and
//! `TERM` against a table of what was probed by hand, and every rung above the
//! floor needs a positive answer: an over-claimed glyph paints tofu.
//!
//! No measured font carries the octant range, and the terminals that draw it
//! natively say nothing the environment can tell apart, so the octant rung is
//! reached only through the override and detection never returns it.

use vstd::prelude::*;

use crate::colour::spec_names;
use crate::colour::names;
use crate::env::{spec_override, override_of, Environment};
use crate::text::{chars_of, is_word, lower, lowered, opens_with_word, trim, trimmed};

verus! {

/// Environment variable that overrides detection outright.
pub const GLYPHS_VAR: &'static str = "VIGIA_GLYPHS";

/// A churn bucket's height, emptiest first.
pub const SPARK_RAMP: [char; 8] = ['▁', '▂', '▃', '▄', '▅', '▆', '▇', '█'];

/// A bucket nothing happened in.
pub const SPARK_TRACK: char = '_';

/// Rows of dots a 2x4 cell has.
pub const DENSE_ROWS: usize = 4;

/// The braille dots a row-major bit pattern lights: bits are read two to a
/// row, left then right, top row first, and the pattern's code point numbers
/// its dots down the left column, then down the right, the bottom row last.
pub open spec fn braille_dots(bits: u8) -> int {
    (bits & 1) as int + 8 * ((bits >> 1u8) & 1) as int + 2 * ((bits >> 2u8) & 1) as int + 16 * ((bits
        >> 3u8) & 1) as int + 4 * ((bits >> 4u8) & 1) as int + 32 * ((bits >> 5u8) & 1) as int + 64 * ((bits
        >> 6u8) & 1) as int + 128 * ((bits >> 7u8) & 1) as int
}

/// The braille pattern `ratatui` lists at `bits`, its table being ordered by
/// the dots' bit pattern rather than by code point.
pub open spec fn braille_at(bits: u8) -> char {
    (0x2800 + braille_dots(bits)) as char
}

/// The octant `ratatui` lists at `bits`, ordered the same way.
pub uninterp spec fn octant_at(bits: u8) -> char;

/// `ratatui::symbols::braille::BRAILLE[bits]`: the table lists the 256
/// braille patterns by row-major bit pattern, so the entry at `bits` is the
/// pattern lighting those dots.
#[verifier::external_body]
fn braille(bits: u8) -> (c: char)
    ensures
        c == braille_at(bits),
{
    ratatui::symbols::braille::BRAILLE[bits as usize]
}

/// `ratatui::symbols::pixel::OCTANTS[bits]`: the table's entry, named.
#[verifier::external_body]
fn octant(bits: u8) -> (c: char)
    ensures
        c == octant_at(bits),
{
    ratatui::symbols::pixel::OCTANTS[bits as usize]
}

/// Which glyphs the sparkline may be drawn from.
#[derive(Debug, Clone, Copy, PartialEq, Eq, Hash, Structural)]
pub enum Glyphs {
    /// The eighth-blocks, one bucket per cell at eight levels.
    Block,
    /// The braille patterns, two buckets per cell.
    Braille,
    /// The Unicode 16 octants, two buckets per cell, solid.
    Octant,
}

impl Default for Glyphs {
    fn default() -> (r: Self)
        ensures
            r == Glyphs::Block,
    {
        Glyphs::Block
    }
}

/// A [`GLYPHS_VAR`] this does not understand.
#[derive(Debug, Clone, PartialEq, Eq)]
pub struct GlyphsError {
    /// What was found in the variable.
    pub value: String,
}

impl GlyphsError {
    /// What the footer says of it, given how `Debug` quotes the value found.
    pub fn message_with(&self, quoted: &str) -> (r: String)
        ensures
            r@ == GLYPHS_VAR@ + ": "@ + quoted@ + " is not one of auto, block, braille, octant"@,
    {
        let mut out: Vec<char> = Vec::new();
        crate::text::push_str(&mut out, GLYPHS_VAR);
        crate::text::push_str(&mut out, ": ");
        crate::text::push_str(&mut out, quoted);
        crate::text::push_str(&mut out, " is not one of auto, block, braille, octant");
        crate::text::string_of(out.as_slice())
    }

    /// What the footer says of it: the variable, the value found as `Debug`
    /// quotes it, and the values there are.
    pub fn message(&self) -> (r: String)
        ensures
            r@ == GLYPHS_VAR@ + ": "@ + crate::text::debug_spelling(self.value@)
                + " is not one of auto, block, braille, octant"@,
    {
        let quoted = crate::text::debug_of(self.value.as_str());
        self.message_with(quoted.as_str())
    }
}

/// The eighth-block a level draws, lowest first.
pub open spec fn spark_ramp(level: int) -> char {
    if level == 1 {
        '▁'
    } else if level == 2 {
        '▂'
    } else if level == 3 {
        '▃'
    } else if level == 4 {
        '▄'
    } else if level == 5 {
        '▅'
    } else if level == 6 {
        '▆'
    } else if level == 7 {
        '▇'
    } else {
        '█'
    }
}

/// The left column of a dense cell at a level, emptiest first: the baseline,
/// then rows 2, 1 and 0.
pub open spec fn climb(level: int) -> u8 {
    if level <= 0 {
        0b0100_0000
    } else if level == 1 {
        0b0101_0000
    } else if level == 2 {
        0b0101_0100
    } else {
        0b0101_0101
    }
}

impl Glyphs {
    /// Buckets one drawn cell carries.
    pub open spec fn spec_density(self) -> usize {
        match self {
            Glyphs::Block => 1,
            _ => 2,
        }
    }

    /// Ramp levels a bucket may take, the baseline excluded.
    pub open spec fn spec_levels(self) -> usize {
        match self {
            Glyphs::Block => 8,
            _ => 3,
        }
    }

    /// One column of a dense cell.
    pub open spec fn spec_column(level: usize, col: u8) -> u8 {
        (climb(level as int) << col) as u8
    }

    /// The glyph a cell draws for the buckets at `left` and `right`.
    pub open spec fn spec_glyph(self, left: usize, right: usize) -> char {
        match self {
            Glyphs::Block => {
                let level = if left < 8 {
                    left
                } else {
                    8
                };
                if level == 0 {
                    SPARK_TRACK
                } else {
                    spark_ramp(level as int)
                }
            },
            Glyphs::Braille => braille_at(
                Self::spec_column(left, 0) | Self::spec_column(right, 1),
            ),
            Glyphs::Octant => octant_at(Self::spec_column(left, 0) | Self::spec_column(right, 1)),
        }
    }

    /// Buckets one drawn cell carries.
    pub fn density(self) -> (r: usize)
        ensures
            r == self.spec_density(),
            r >= 1,
    {
        match self {
            Self::Block => 1,
            Self::Braille | Self::Octant => 2,
        }
    }

    /// Ramp levels a bucket may take, the baseline excluded.
    pub fn levels(self) -> (r: usize)
        ensures
            r == self.spec_levels(),
    {
        match self {
            Self::Block => 8,
            Self::Braille | Self::Octant => DENSE_ROWS - 1,
        }
    }

    /// The glyph one cell draws, for the buckets at `left` and `right`. The
    /// block ramp has no rung for nothing happened, so the floor is a glyph of
    /// its own.
    pub fn glyph(self, left: usize, right: usize) -> (c: char)
        ensures
            c == self.spec_glyph(left, right),
    {
        match self {
            Self::Block => {
                let level = if left < 8 {
                    left
                } else {
                    8
                };
                if level == 0 {
                    SPARK_TRACK
                } else {
                    ramp(level)
                }
            },
            Self::Braille => braille(Self::column(left, 0) | Self::column(right, 1)),
            Self::Octant => octant(Self::column(left, 0) | Self::column(right, 1)),
        }
    }

    /// One column of a dense cell: the baseline, plus `level` rows climbing it.
    /// Clamped rather than trusted, since the caller scales against a peak and a
    /// peak is data.
    fn column(level: usize, col: u8) -> (r: u8)
        requires
            col < 2,
        ensures
            r == Self::spec_column(level, col),
    {
        let climbed: u8 = if level == 0 {
            0b0100_0000
        } else if level == 1 {
            0b0101_0000
        } else if level == 2 {
            0b0101_0100
        } else {
            0b0101_0101
        };
        assert(climbed << col <= 0xff) by (bit_vector)
            requires
                col < 2,
                climbed <= 0b0101_0101,
        ;
        climbed << col
    }

    /// Decide the rung from the environment.
    pub fn from_env(windows: bool, env: &Environment) -> (r: Result<Self, GlyphsError>)
        ensures
            r matches Ok(g) ==> spec_glyphs_from_env(windows, *env) == Ok::<Glyphs, Seq<char>>(g),
            r matches Err(e) ==> spec_glyphs_from_env(windows, *env) == Err::<Glyphs, Seq<char>>(
                e.value@,
            ),
    {
        if let Some((raw, value)) = override_of(env, GLYPHS_VAR) {
            let v = value.as_slice();
            if is_word(v, "block") {
                return Ok(Self::Block);
            }
            if is_word(v, "braille") {
                return Ok(Self::Braille);
            }
            if is_word(v, "octant") {
                return Ok(Self::Octant);
            }
            if !is_word(v, "auto") {
                return Err(GlyphsError { value: raw });
            }
        }
        Ok(glyphs_detected(windows, env))
    }
}

/// The eighth-block at `level`.
fn ramp(level: usize) -> (c: char)
    requires
        1 <= level <= 8,
    ensures
        c == spark_ramp(level as int),
{
    match level {
        1 => '▁',
        2 => '▂',
        3 => '▃',
        4 => '▄',
        5 => '▅',
        6 => '▆',
        7 => '▇',
        _ => '█',
    }
}


/// `text` without the one `+` it may open with.
pub open spec fn unsigned_part(text: Seq<char>) -> Seq<char> {
    if text.len() > 0 && text[0] == '+' {
        text.drop_first()
    } else {
        text
    }
}

/// Whether every character of `s` is an ASCII digit.
pub open spec fn all_digits(s: Seq<char>) -> bool {
    forall|i: int| 0 <= i < s.len() ==> is_digit(#[trigger] s[i])
}

/// Whether `c` is an ASCII digit.
pub open spec fn is_digit(c: char) -> bool {
    '0' <= c && c <= '9'
}

/// The number decimal digits spell.
pub open spec fn digits_value(digits: Seq<char>) -> nat
    decreases digits.len(),
{
    if digits.len() == 0 {
        0
    } else {
        digits_value(digits.drop_last()) * 10 + ((digits.last() as u32) - ('0' as u32)) as nat
    }
}


/// A number only grows as its digits go on.
pub proof fn lemma_digits_grow(prefix: Seq<char>, whole: Seq<char>)
    requires
        prefix.len() <= whole.len(),
        prefix =~= whole.subrange(0, prefix.len() as int),
    ensures
        digits_value(prefix) <= digits_value(whole),
    decreases whole.len(),
{
    if whole.len() > prefix.len() {
        assert(whole.drop_last().subrange(0, prefix.len() as int) =~= prefix);
        lemma_digits_grow(prefix, whole.drop_last());
    } else {
        assert(prefix =~= whole);
    }
}












/// What `TERM_PROGRAM` names, and whether that terminal's font has braille.
pub open spec fn spec_program_glyphs(program: Seq<char>) -> Option<Glyphs> {
    let p = lower(program);
    if p == "apple_terminal"@ || p == "ghostty"@ || p == "hyper"@ || p == "iterm.app"@ || p
        == "rio"@ || p == "tabby"@ || p == "vscode"@ || p == "warpterminal"@ || p == "wezterm"@ {
        Some(Glyphs::Braille)
    } else {
        None
    }
}

/// What `TERM_PROGRAM` names, and whether that terminal's font has braille.
fn program_glyphs(program: &[char]) -> (r: Option<Glyphs>)
    ensures
        r == spec_program_glyphs(program@),
{
    let p = lowered(program);
    let p = p.as_slice();
    if is_word(p, "apple_terminal") || is_word(p, "ghostty") || is_word(p, "hyper") || is_word(
        p,
        "iterm.app",
    ) || is_word(p, "rio") || is_word(p, "tabby") || is_word(p, "vscode") || is_word(
        p,
        "warpterminal",
    ) || is_word(p, "wezterm") {
        Some(Glyphs::Braille)
    } else {
        None
    }
}

/// Whether `term` names a terminal whose own entry promises braille.
pub open spec fn spec_braille_term(term: Seq<char>) -> bool {
    spec_names(term, "alacritty"@) || spec_names(term, "contour"@) || spec_names(term, "foot"@)
        || spec_names(term, "rio"@) || spec_names(term, "wezterm"@) || spec_names(
        term,
        "xterm-ghostty"@,
    ) || spec_names(term, "xterm-kitty"@)
}

/// The rung detection lands on, past the override.
pub open spec fn spec_glyphs_detected(windows: bool, env: Environment) -> Glyphs {
    let term = lower(
        match env.spec_lookup("TERM"@) {
            Some(t) => t,
            None => Seq::<char>::empty(),
        },
    );
    let named = match env.spec_lookup("TERM_PROGRAM"@) {
        Some(p) => spec_program_glyphs(trim(p)),
        None => None,
    };
    if term == "dumb"@ || term == "linux"@ {
        Glyphs::Block
    } else if named.is_some() {
        named.unwrap()
    } else if windows && env.spec_lookup("WT_SESSION"@).is_some() {
        Glyphs::Braille
    } else if spec_braille_term(term) {
        Glyphs::Braille
    } else if windows {
        Glyphs::Block
    } else {
        Glyphs::Braille
    }
}

/// The rung decided from the environment, or the override's raw value where it
/// is not a word this understands.
pub open spec fn spec_glyphs_from_env(windows: bool, env: Environment) -> Result<Glyphs, Seq<char>> {
    match spec_override(env, GLYPHS_VAR@) {
        Some((raw, word)) => if word == "block"@ {
            Ok(Glyphs::Block)
        } else if word == "braille"@ {
            Ok(Glyphs::Braille)
        } else if word == "octant"@ {
            Ok(Glyphs::Octant)
        } else if word == "auto"@ {
            Ok(spec_glyphs_detected(windows, env))
        } else {
            Err(raw)
        },
        None => Ok(spec_glyphs_detected(windows, env)),
    }
}

/// The rung detection lands on, past the override. `NO_COLOR` is not
/// consulted: a glyph is not colour.
fn glyphs_detected(windows: bool, env: &Environment) -> (r: Glyphs)
    ensures
        r == spec_glyphs_detected(windows, *env),
{
    let term = lowered(env.chars("TERM").as_slice());
    let t = term.as_slice();
    if is_word(t, "dumb") || is_word(t, "linux") {
        return Glyphs::Block;
    }
    let named = match env.lookup("TERM_PROGRAM") {
        Some(p) => program_glyphs(trimmed(chars_of(p.as_str()).as_slice()).as_slice()),
        None => None,
    };
    if let Some(glyphs) = named {
        return glyphs;
    }
    if windows && env.is_set("WT_SESSION") {
        return Glyphs::Braille;
    }
    if names(t, "alacritty") || names(t, "contour") || names(t, "foot") || names(t, "rio")
        || names(t, "wezterm") || names(t, "xterm-ghostty") || names(t, "xterm-kitty") {
        return Glyphs::Braille;
    }
    if windows {
        return Glyphs::Block;
    }
    Glyphs::Braille
}


/// Detection never lands on the octant rung: only the override reaches it,
/// by naming it.
pub proof fn law_detection_never_gives_octants(windows: bool, env: Environment)
    ensures
        spec_glyphs_detected(windows, env) != Glyphs::Octant,
        spec_glyphs_from_env(windows, env) == Ok::<Glyphs, Seq<char>>(Glyphs::Octant) ==> (spec_override(
            env,
            GLYPHS_VAR@,
        ) matches Some((raw, word)) && word == "octant"@),
{
}

/// An override word names its rung whatever else the environment says:
/// `block` gives blocks, `braille` braille and `octant` octants; `auto`
/// leaves it to detection, and any other word is refused with what the
/// variable held.
pub proof fn law_an_override_names_its_rung(windows: bool, env: Environment, raw: Seq<char>, word: Seq<char>)
    requires
        spec_override(env, GLYPHS_VAR@) == Some((raw, word)),
    ensures
        word == "block"@ ==> spec_glyphs_from_env(windows, env) == Ok::<Glyphs, Seq<char>>(Glyphs::Block),
        word == "braille"@ ==> spec_glyphs_from_env(windows, env) == Ok::<Glyphs, Seq<char>>(Glyphs::Braille),
        word == "octant"@ ==> spec_glyphs_from_env(windows, env) == Ok::<Glyphs, Seq<char>>(Glyphs::Octant),
        word == "auto"@ ==> spec_glyphs_from_env(windows, env) == Ok::<Glyphs, Seq<char>>(
            spec_glyphs_detected(windows, env),
        ),
        word != "block"@ && word != "braille"@ && word != "octant"@ && word != "auto"@ ==> spec_glyphs_from_env(
            windows,
            env,
        ) == Err::<Glyphs, Seq<char>>(raw),
{
    reveal_strlit("block");
    reveal_strlit("braille");
    reveal_strlit("octant");
    reveal_strlit("auto");
    assert("braille"@ != "block"@) by {
        assert("braille"@.len() != "block"@.len());
    }
    assert("octant"@ != "block"@) by {
        assert("octant"@.len() != "block"@.len());
    }
    assert("octant"@ != "braille"@) by {
        assert("octant"@.len() != "braille"@.len());
    }
    assert("auto"@.len() == 4);
    assert("auto"@ != "block"@ && "auto"@ != "braille"@ && "auto"@ != "octant"@);
}

/// Where the variable is unset or blank, detection alone decides.
pub proof fn law_no_override_leaves_it_to_detection(windows: bool, env: Environment)
    requires
        spec_override(env, GLYPHS_VAR@) is None,
    ensures
        spec_glyphs_from_env(windows, env) == Ok::<Glyphs, Seq<char>>(spec_glyphs_detected(windows, env)),
{
}

} // verus!
