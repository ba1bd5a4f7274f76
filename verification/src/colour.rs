//! How many colours this terminal has, and what a palette becomes when it has
//! fewer than the palette was written in.
//!
//! The rungs are ordered and each loses exactly one thing: below truecolour the
//! background is dropped, because the darkest cube levels turn a subtle wash
//! into a slab; below 256 the foreground is the nearest of the sixteen names;
//! at none nothing is coloured. Modifiers survive every rung.

use vstd::prelude::*;

use crate::env::{spec_override, override_of, Environment};
use crate::text::{chars_of, holds_word, is_word, lower, lowered, opens_with_word, trim, trimmed};

verus! {

/// Environment variable that overrides detection outright.
pub const DEPTH_VAR: &'static str = "VIGIA_COLOR";

/// How many distinct colours this terminal can be asked for.
#[derive(Debug, Clone, Copy, PartialEq, Eq, PartialOrd, Ord, Hash, Structural)]
pub enum Depth {
    /// Draw no colour at all. `NO_COLOR`, or `TERM=dumb`.
    Colourless,
    /// The sixteen named colours every terminal resolves. Backgrounds are
    /// dropped here.
    Ansi16,
    /// The xterm 256-colour palette: sixteen names, a 6x6x6 cube, 24 greys.
    Ansi256,
    /// 24-bit colour, which is what every built-in palette is authored in.
    Truecolor,
}

impl Default for Depth {
    fn default() -> (r: Self)
        ensures
            r == Depth::Ansi16,
    {
        Depth::Ansi16
    }
}

/// A `VIGIA_COLOR` this does not understand.
#[derive(Debug, Clone, PartialEq, Eq)]
pub struct DepthError {
    /// What was found in the variable.
    pub value: String,
}

impl DepthError {
    /// What the footer says of it, given how `Debug` quotes the value found.
    pub fn message_with(&self, quoted: &str) -> (r: String)
        ensures
            r@ == DEPTH_VAR@ + ": "@ + quoted@ + " is not one of auto, never, 16, 256, truecolor"@,
    {
        let mut out: Vec<char> = Vec::new();
        crate::text::push_str(&mut out, DEPTH_VAR);
        crate::text::push_str(&mut out, ": ");
        crate::text::push_str(&mut out, quoted);
        crate::text::push_str(&mut out, " is not one of auto, never, 16, 256, truecolor");
        crate::text::string_of(out.as_slice())
    }

    /// What the footer says of it: the variable, the value found as `Debug`
    /// quotes it, and the values there are.
    pub fn message(&self) -> (r: String)
        ensures
            r@ == DEPTH_VAR@ + ": "@ + crate::text::debug_spelling(self.value@)
                + " is not one of auto, never, 16, 256, truecolor"@,
    {
        let quoted = crate::text::debug_of(self.value.as_str());
        self.message_with(quoted.as_str())
    }
}

/// A colour as a palette names it, or as a terminal is asked for it.
#[derive(Debug, Clone, Copy, PartialEq, Eq, Structural)]
pub enum Colour {
    /// Whatever the terminal's default is.
    Reset,
    /// Named colour 0.
    Black,
    /// Named colour 1.
    Red,
    /// Named colour 2.
    Green,
    /// Named colour 3.
    Yellow,
    /// Named colour 4.
    Blue,
    /// Named colour 5.
    Magenta,
    /// Named colour 6.
    Cyan,
    /// Named colour 7.
    Gray,
    /// Named colour 8.
    DarkGray,
    /// Named colour 9.
    LightRed,
    /// Named colour 10.
    LightGreen,
    /// Named colour 11.
    LightYellow,
    /// Named colour 12.
    LightBlue,
    /// Named colour 13.
    LightMagenta,
    /// Named colour 14.
    LightCyan,
    /// Named colour 15.
    White,
    /// 24 bits.
    Rgb(u8, u8, u8),
    /// An index into the 256-colour palette.
    Indexed(u8),
}

/// What a cell is drawn in: its two colours, and the modifiers added and taken
/// away as bit sets.
#[derive(Debug, Clone, Copy, PartialEq, Eq, Structural)]
pub struct Style {
    /// The ink, or none to leave what is there.
    pub fg: Option<Colour>,
    /// The paper, or none to leave what is there.
    pub bg: Option<Colour>,
    /// Modifiers this style adds.
    pub add_modifier: u16,
    /// Modifiers this style removes.
    pub sub_modifier: u16,
}

/// Whether `term` is `name` or one of its variants.
pub open spec fn spec_names(term: Seq<char>, name: Seq<char>) -> bool {
    crate::text::starts_with(term, name) && (term.len() == name.len() || term[name.len() as int]
        == '-')
}

/// Whether `term` is `name` or one of its variants: `xterm-kitty` and
/// `xterm-kitty-direct` both name kitty.
pub fn names(term: &[char], name: &str) -> (r: bool)
    ensures
        r == spec_names(term@, name@),
{
    let n = chars_of(name);
    if !crate::text::opens_with(term, n.as_slice()) {
        return false;
    }
    term.len() == n.len() || term[n.len()] == '-'
}

/// What `TERM_PROGRAM` names, and what that terminal can draw.
pub open spec fn spec_program_depth(program: Seq<char>) -> Option<Depth> {
    let p = lower(program);
    if p == "apple_terminal"@ {
        Some(Depth::Ansi256)
    } else if p == "ghostty"@ || p == "hyper"@ || p == "iterm.app"@ || p == "rio"@ || p
        == "tabby"@ || p == "vscode"@ || p == "warpterminal"@ || p == "wezterm"@ {
        Some(Depth::Truecolor)
    } else {
        None
    }
}

/// What `TERM_PROGRAM` names, and what that terminal can draw. Lowercased,
/// because the values are brand names and vendors re-capitalise them.
pub fn program_depth(program: &[char]) -> (r: Option<Depth>)
    ensures
        r == spec_program_depth(program@),
{
    let p = lowered(program);
    let p = p.as_slice();
    if is_word(p, "apple_terminal") {
        Some(Depth::Ansi256)
    } else if is_word(p, "ghostty") || is_word(p, "hyper") || is_word(p, "iterm.app")
        || is_word(p, "rio") || is_word(p, "tabby") || is_word(p, "vscode") || is_word(
        p,
        "warpterminal",
    ) || is_word(p, "wezterm") {
        Some(Depth::Truecolor)
    } else {
        None
    }
}

/// Terminals whose own terminfo entry is the whole signal, since none of them
/// spells `256color` and all of them draw 24-bit.
pub const TRUECOLOR_TERMS: [&'static str; 7] = [
    "alacritty",
    "contour",
    "foot",
    "rio",
    "wezterm",
    "xterm-ghostty",
    "xterm-kitty",
];

/// Whether `term` names one of the terminals whose entry alone promises
/// 24-bit colour.
pub open spec fn spec_known_truecolor(term: Seq<char>) -> bool {
    spec_names(term, "alacritty"@) || spec_names(term, "contour"@) || spec_names(term, "foot"@)
        || spec_names(term, "rio"@) || spec_names(term, "wezterm"@) || spec_names(
        term,
        "xterm-ghostty"@,
    ) || spec_names(term, "xterm-kitty"@)
}

/// Whether `term` names one of [`TRUECOLOR_TERMS`].
fn known_truecolor(term: &[char]) -> (r: bool)
    ensures
        r == spec_known_truecolor(term@),
{
    names(term, "alacritty") || names(term, "contour") || names(term, "foot") || names(
        term,
        "rio",
    ) || names(term, "wezterm") || names(term, "xterm-ghostty") || names(term, "xterm-kitty")
}

/// What a `TERM` entry promises.
pub open spec fn spec_term_depth(term: Seq<char>) -> Option<Depth> {
    let term = lower(term);
    if crate::text::contains(term, "-direct"@) || crate::text::contains(term, "truecolor"@) {
        Some(Depth::Truecolor)
    } else if spec_known_truecolor(term) {
        Some(Depth::Truecolor)
    } else if crate::text::contains(term, "256color"@) {
        Some(Depth::Ansi256)
    } else {
        None
    }
}

/// What a `TERM` entry promises, or nothing when it promises neither rung.
/// `contains` rather than a suffix, for `xterm-direct2` and friends.
pub fn term_depth(term: &[char]) -> (r: Option<Depth>)
    ensures
        r == spec_term_depth(term@),
{
    let term = lowered(term);
    let term = term.as_slice();
    if holds_word(term, "-direct") || holds_word(term, "truecolor") {
        return Some(Depth::Truecolor);
    }
    if known_truecolor(term) {
        return Some(Depth::Truecolor);
    }
    if holds_word(term, "256color") {
        return Some(Depth::Ansi256);
    }
    None
}

/// What a variable holds, or nothing at all where it is unset.
pub open spec fn spec_value_or_empty(env: Environment, name: Seq<char>) -> Seq<char> {
    match env.spec_lookup(name) {
        Some(v) => v,
        None => Seq::<char>::empty(),
    }
}

/// The rung detection lands on, past the override.
pub open spec fn spec_detected(windows: bool, env: Environment) -> Depth {
    let term = lower(spec_value_or_empty(env, "TERM"@));
    let colorterm = lower(spec_value_or_empty(env, "COLORTERM"@));
    let named = match env.spec_lookup("TERM_PROGRAM"@) {
        Some(p) => spec_program_depth(trim(p)),
        None => None,
    };
    if env.spec_lookup("NO_COLOR"@).is_some() {
        Depth::Colourless
    } else if term == "dumb"@ {
        Depth::Colourless
    } else if colorterm == "truecolor"@ || colorterm == "24bit"@ {
        Depth::Truecolor
    } else if named.is_some() {
        named.unwrap()
    } else if windows && env.spec_lookup("WT_SESSION"@).is_some() {
        Depth::Truecolor
    } else if spec_term_depth(term).is_some() {
        spec_term_depth(term).unwrap()
    } else if windows {
        Depth::Truecolor
    } else {
        Depth::Ansi16
    }
}

/// The rung an override word asks for, or `None` for `auto` and for a word this
/// does not know.
pub open spec fn spec_depth_word(word: Seq<char>) -> Option<Depth> {
    if word == "never"@ || word == "none"@ || word == "0"@ {
        Some(Depth::Colourless)
    } else if word == "16"@ || word == "ansi"@ {
        Some(Depth::Ansi16)
    } else if word == "256"@ {
        Some(Depth::Ansi256)
    } else if word == "truecolor"@ || word == "truecolour"@ || word == "24bit"@ {
        Some(Depth::Truecolor)
    } else {
        None
    }
}

/// The depth decided from the environment, or the override's raw value where
/// it is not a word this understands.
pub open spec fn spec_from_env(windows: bool, env: Environment) -> Result<Depth, Seq<char>> {
    match spec_override(env, DEPTH_VAR@) {
        Some((raw, word)) => if spec_depth_word(word).is_some() {
            Ok(spec_depth_word(word).unwrap())
        } else if word == "auto"@ {
            Ok(spec_detected(windows, env))
        } else {
            Err(raw)
        },
        None => Ok(spec_detected(windows, env)),
    }
}

/// The rung an override word asks for.
fn depth_word(word: &[char]) -> (r: Option<Depth>)
    ensures
        r == spec_depth_word(word@),
{
    if is_word(word, "never") || is_word(word, "none") || is_word(word, "0") {
        Some(Depth::Colourless)
    } else if is_word(word, "16") || is_word(word, "ansi") {
        Some(Depth::Ansi16)
    } else if is_word(word, "256") {
        Some(Depth::Ansi256)
    } else if is_word(word, "truecolor") || is_word(word, "truecolour") || is_word(
        word,
        "24bit",
    ) {
        Some(Depth::Truecolor)
    } else {
        None
    }
}

impl Depth {
    /// Decide the depth from the environment.
    pub fn from_env(windows: bool, env: &Environment) -> (r: Result<Self, DepthError>)
        ensures
            r matches Ok(d) ==> spec_from_env(windows, *env) == Ok::<Depth, Seq<char>>(d),
            r matches Err(e) ==> spec_from_env(windows, *env) == Err::<Depth, Seq<char>>(e.value@),
    {
        // The override owns the set-but-empty rule.
        if let Some((raw, value)) = override_of(env, DEPTH_VAR) {
            if let Some(depth) = depth_word(value.as_slice()) {
                return Ok(depth);
            }
            if !is_word(value.as_slice(), "auto") {
                return Err(DepthError { value: raw });
            }
        }
        Ok(detected(windows, env))
    }

    /// The sixteen-colour rung's answer for a colour, the one below it.
    pub open spec fn spec_colour(self, colour: Colour) -> Colour {
        match self {
            Depth::Colourless => Colour::Reset,
            Depth::Truecolor => colour,
            Depth::Ansi256 => match colour {
                Colour::Rgb(r, g, b) => Colour::Indexed(spec_to_indexed(r, g, b)),
                other => other,
            },
            Depth::Ansi16 => match colour {
                Colour::Rgb(r, g, b) => spec_to_ansi16(r, g, b),
                Colour::Indexed(i) => if i < 16 {
                    Colour::Indexed(i)
                } else {
                    let (r, g, b) = spec_from_indexed(i);
                    spec_to_ansi16(r, g, b)
                },
                other => other,
            },
        }
    }

    /// One colour, at this depth.
    fn colour(self, colour: Colour) -> (r: Colour)
        ensures
            r == self.spec_colour(colour),
    {
        match self {
            Self::Colourless => Colour::Reset,
            Self::Truecolor => colour,
            Self::Ansi256 => match colour {
                Colour::Rgb(r, g, b) => Colour::Indexed(to_indexed(r, g, b)),
                other => other,
            },
            Self::Ansi16 => match colour {
                Colour::Rgb(r, g, b) => to_ansi16(r, g, b),
                // Below sixteen the indexed palette *is* the named one.
                Colour::Indexed(i) => if i < 16 {
                    Colour::Indexed(i)
                } else {
                    let (r, g, b) = from_indexed(i);
                    to_ansi16(r, g, b)
                },
                other => other,
            },
        }
    }

    /// `style`, in colours this depth can actually show: the ink mapped, the
    /// paper kept only at truecolour, every modifier kept.
    pub fn resolve(self, style: Style) -> (r: Style)
        ensures
            r.fg == (match style.fg {
                Some(c) => Some(self.spec_colour(c)),
                None => None,
            }),
            r.bg == (if self == Depth::Truecolor {
                style.bg
            } else {
                None
            }),
            r.add_modifier == style.add_modifier,
            r.sub_modifier == style.sub_modifier,
    {
        let fg = match style.fg {
            Some(c) => Some(self.colour(c)),
            None => None,
        };
        // Dropped rather than mapped to `Reset`: `None` leaves the reader's own
        // background, `Reset` is the terminal's default.
        let bg = match self {
            Self::Truecolor => style.bg,
            _ => None,
        };
        Style { fg, bg, ..style }
    }
}

/// The rung detection lands on, past the override.
fn detected(windows: bool, env: &Environment) -> (r: Depth)
    ensures
        r == spec_detected(windows, *env),
{
    // `NO_COLOR` has no valid values, so presence is the whole signal.
    if env.is_set("NO_COLOR") {
        return Depth::Colourless;
    }
    // Folded once, here: `TERM=DUMB` is a terminal saying it cannot draw.
    let term = lowered(env.chars("TERM").as_slice());
    if is_word(term.as_slice(), "dumb") {
        return Depth::Colourless;
    }
    let colorterm = lowered(env.chars("COLORTERM").as_slice());
    if is_word(colorterm.as_slice(), "truecolor") || is_word(colorterm.as_slice(), "24bit") {
        return Depth::Truecolor;
    }
    // Above `TERM`: a terminal that names itself is better evidence than a
    // variable describing a terminfo entry.
    let named = match env.lookup("TERM_PROGRAM") {
        Some(p) => program_depth(trimmed(chars_of(p.as_str()).as_slice()).as_slice()),
        None => None,
    };
    if let Some(depth) = named {
        return depth;
    }
    if windows && env.is_set("WT_SESSION") {
        return Depth::Truecolor;
    }
    if let Some(depth) = term_depth(term.as_slice()) {
        return depth;
    }
    if windows {
        // Truecolour, not 256: a subtle wash has nowhere to land in the cube.
        return Depth::Truecolor;
    }
    Depth::Ansi16
}

/// The six levels each axis of the xterm colour cube can take.
pub open spec fn cube(i: int) -> u8 {
    if i == 0 {
        0
    } else if i == 1 {
        95
    } else if i == 2 {
        135
    } else if i == 3 {
        175
    } else if i == 4 {
        215
    } else {
        255
    }
}

/// Level `i` of the cube's axis.
fn cube_level(i: usize) -> (r: u8)
    requires
        i < 6,
    ensures
        r == cube(i as int),
{
    match i {
        0 => 0,
        1 => 95,
        2 => 135,
        3 => 175,
        4 => 215,
        _ => 255,
    }
}

/// Below this chroma there is no hue worth preserving.
pub const ACHROMATIC: u8 = 32;

/// How far apart two channel values are.
pub open spec fn gap(a: int, b: int) -> int {
    if a >= b {
        a - b
    } else {
        b - a
    }
}

/// How far a colour is from grey.
pub open spec fn spec_chroma(r: u8, g: u8, b: u8) -> u8 {
    let max = if r >= g && r >= b {
        r
    } else if g >= b {
        g
    } else {
        b
    };
    let min = if r <= g && r <= b {
        r
    } else if g <= b {
        g
    } else {
        b
    };
    (max - min) as u8
}

/// How far a colour is from grey.
fn chroma(r: u8, g: u8, b: u8) -> (c: u8)
    ensures
        c == spec_chroma(r, g, b),
{
    let max = if r >= g && r >= b {
        r
    } else if g >= b {
        g
    } else {
        b
    };
    let min = if r <= g && r <= b {
        r
    } else if g <= b {
        g
    } else {
        b
    };
    max - min
}

/// The cube level nearest `v`: nothing is nearer, and every level before it is
/// further, so a tie goes to the darker.
pub open spec fn nearest_level(v: u8, i: int) -> bool {
    0 <= i < 6 && (forall|j: int| 0 <= j < 6 ==> gap(v as int, cube(i) as int) <= gap(
        v as int,
        cube(j) as int,
    )) && (forall|j: int| 0 <= j < i ==> gap(v as int, cube(i) as int) < gap(
        v as int,
        cube(j) as int,
    ))
}

/// The index of the cube level nearest `v`.
pub open spec fn spec_axis(v: u8) -> int {
    choose|i: int| nearest_level(v, i)
}

/// The index of the cube level nearest `v`, first on a tie.
fn axis(v: u8) -> (r: usize)
    ensures
        nearest_level(v, r as int),
        r == spec_axis(v),
{
    let mut best: usize = 0;
    let mut i: usize = 1;
    while i < 6
        invariant
            1 <= i <= 6,
            best < i,
            forall|j: int| 0 <= j < i ==> gap(v as int, cube(best as int) as int) <= gap(
                v as int,
                cube(j) as int,
            ),
            forall|j: int| 0 <= j < best ==> gap(v as int, cube(best as int) as int) < gap(
                v as int,
                cube(j) as int,
            ),
        decreases 6 - i,
    {
        let here = cube_level(i);
        let there = cube_level(best);
        let d_here = if v >= here {
            v - here
        } else {
            here - v
        };
        let d_best = if v >= there {
            v - there
        } else {
            there - v
        };
        if d_here < d_best {
            best = i;
        }
        i += 1;
    }
    proof {
        lemma_nearest_unique(v, best as int);
    }
    best
}

/// The nearest level is one level.
proof fn lemma_nearest_unique(v: u8, i: int)
    requires
        nearest_level(v, i),
    ensures
        spec_axis(v) == i,
{
    let k = spec_axis(v);
    assert(nearest_level(v, k));
    if k < i {
        assert(gap(v as int, cube(i) as int) < gap(v as int, cube(k) as int));
    } else if k > i {
        assert(gap(v as int, cube(k) as int) < gap(v as int, cube(i) as int));
    }
}

/// Squared distance between two colours.
pub open spec fn spec_distance(a: (u8, u8, u8), b: (u8, u8, u8)) -> u32 {
    (gap(a.0 as int, b.0 as int) * gap(a.0 as int, b.0 as int) + gap(a.1 as int, b.1 as int)
        * gap(a.1 as int, b.1 as int) + gap(a.2 as int, b.2 as int) * gap(
        a.2 as int,
        b.2 as int,
    )) as u32
}

/// One channel's squared difference.
fn square_gap(x: u8, y: u8) -> (r: u32)
    ensures
        r == gap(x as int, y as int) * gap(x as int, y as int),
        r <= 65025,
{
    let e: u32 = if x >= y {
        (x - y) as u32
    } else {
        (y - x) as u32
    };
    assert(e * e <= 255 * 255) by (nonlinear_arith)
        requires
            e <= 255,
    ;
    e * e
}

/// Squared distance between two colours.
fn distance(a: (u8, u8, u8), b: (u8, u8, u8)) -> (r: u32)
    ensures
        r == spec_distance(a, b),
{
    square_gap(a.0, b.0) + square_gap(a.1, b.1) + square_gap(a.2, b.2)
}

/// The grey ramp's step nearest a colour's mean channel.
pub open spec fn spec_grey_step(r: u8, g: u8, b: u8) -> int {
    let level = (r + g + b) / 3;
    let step = (if level >= 8 {
        level - 8
    } else {
        0
    } + 5) / 10;
    if step > 23 {
        23
    } else {
        step
    }
}

/// The nearest xterm palette index to a 24-bit colour: the cube, or the grey
/// ramp for a colour that is actually grey and nearer a grey than a cube entry.
pub open spec fn spec_to_indexed(r: u8, g: u8, b: u8) -> u8 {
    let (ri, gi, bi) = (spec_axis(r), spec_axis(g), spec_axis(b));
    let cube_index = 16 + 36 * ri + 6 * gi + bi;
    let cube_err = spec_distance((r, g, b), (cube(ri), cube(gi), cube(bi)));
    let step = spec_grey_step(r, g, b);
    let grey = (8 + 10 * step) as u8;
    let grey_err = spec_distance((r, g, b), (grey, grey, grey));
    if spec_chroma(r, g, b) >= ACHROMATIC {
        cube_index as u8
    } else if grey_err < cube_err {
        (232 + step) as u8
    } else {
        cube_index as u8
    }
}

/// Nearest xterm palette index to a 24-bit colour.
///
/// The ramp is only a candidate for something that is actually grey: a row wash
/// like `#1b3d29` is nearer a grey than a cube entry on raw distance, and drawn
/// grey it would be a tint that has lost the only thing it was for.
pub fn to_indexed(r: u8, g: u8, b: u8) -> (idx: u8)
    ensures
        idx == spec_to_indexed(r, g, b),
        idx >= 16,
{
    let (ri, gi, bi) = (axis(r), axis(g), axis(b));
    let cube_index = 16 + 36 * ri + 6 * gi + bi;
    let cube_err = distance((r, g, b), (cube_level(ri), cube_level(gi), cube_level(bi)));
    if chroma(r, g, b) >= ACHROMATIC {
        return cube_index as u8;
    }
    // The ramp runs 8, 18, ... 238, which is `8 + 10 * i` for 24 steps.
    let level = (r as u32 + g as u32 + b as u32) / 3;
    let step = ((if level >= 8 {
        level - 8
    } else {
        0
    }) + 5) / 10;
    let step = if step > 23 {
        23
    } else {
        step
    };
    let grey = (8 + 10 * step) as u8;
    let grey_err = distance((r, g, b), (grey, grey, grey));
    if grey_err < cube_err {
        (232 + step) as u8
    } else {
        cube_index as u8
    }
}

/// The RGB an xterm palette index stands for, for indices that have a fixed
/// one: the grey ramp, then the cube.
pub open spec fn spec_from_indexed(i: u8) -> (u8, u8, u8) {
    if i >= 232 {
        let grey = (8 + 10 * (i - 232)) as u8;
        (grey, grey, grey)
    } else {
        let k = i - 16;
        (cube(k / 36), cube((k / 6) % 6), cube(k % 6))
    }
}

/// The RGB an xterm palette index stands for, for indices that have a fixed one.
fn from_indexed(i: u8) -> (c: (u8, u8, u8))
    requires
        i >= 16,
    ensures
        c == spec_from_indexed(i),
{
    if i >= 232 {
        let grey = 8 + 10 * (i - 232);
        return (grey, grey, grey);
    }
    let k = i - 16;
    (cube_level((k / 36) as usize), cube_level(((k / 6) % 6) as usize), cube_level((k % 6) as usize))
}

/// The named colour a 24-bit one should be drawn as.
pub open spec fn spec_to_ansi16(r: u8, g: u8, b: u8) -> Colour {
    let max = if r >= g && r >= b {
        r
    } else if g >= b {
        g
    } else {
        b
    };
    let min = if r <= g && r <= b {
        r
    } else if g <= b {
        g
    } else {
        b
    };
    let chroma = spec_chroma(r, g, b);
    let luma = (2 * r + 5 * g + b) / 8;
    let cut = min + chroma / 3;
    let bright = max >= 0xc0;
    if chroma < ACHROMATIC {
        if luma <= 0x2f {
            Colour::Black
        } else if luma <= 0x7f {
            Colour::DarkGray
        } else if luma <= 0xcf {
            Colour::Gray
        } else {
            Colour::White
        }
    } else {
        let (hr, hg, hb) = (r > cut, g > cut, b > cut);
        if hr && !hg && !hb {
            if bright {
                Colour::LightRed
            } else {
                Colour::Red
            }
        } else if !hr && hg && !hb {
            if bright {
                Colour::LightGreen
            } else {
                Colour::Green
            }
        } else if !hr && !hg && hb {
            if bright {
                Colour::LightBlue
            } else {
                Colour::Blue
            }
        } else if hr && hg && !hb {
            if bright {
                Colour::LightYellow
            } else {
                Colour::Yellow
            }
        } else if hr && !hg && hb {
            if bright {
                Colour::LightMagenta
            } else {
                Colour::Magenta
            }
        } else if !hr && hg && hb {
            if bright {
                Colour::LightCyan
            } else {
                Colour::Cyan
            }
        } else {
            Colour::Gray
        }
    }
}

/// The named colour a 24-bit one should be drawn as. Green carries most of
/// perceived brightness and blue least; the 2/5/1 split only has to rank.
pub fn to_ansi16(r: u8, g: u8, b: u8) -> (c: Colour)
    ensures
        c == spec_to_ansi16(r, g, b),
{
    let max = if r >= g && r >= b {
        r
    } else if g >= b {
        g
    } else {
        b
    };
    let min = if r <= g && r <= b {
        r
    } else if g <= b {
        g
    } else {
        b
    };
    let chroma = chroma(r, g, b);
    let luma = (2 * r as u32 + 5 * g as u32 + b as u32) / 8;
    if chroma < ACHROMATIC {
        return if luma <= 0x2f {
            Colour::Black
        } else if luma <= 0x7f {
            Colour::DarkGray
        } else if luma <= 0xcf {
            Colour::Gray
        } else {
            Colour::White
        };
    }
    let cut = min + chroma / 3;
    let bright = max >= 0xc0;
    // At least one channel is above `cut` and at least one is not.
    match (r > cut, g > cut, b > cut) {
        (true, false, false) => if bright {
            Colour::LightRed
        } else {
            Colour::Red
        },
        (false, true, false) => if bright {
            Colour::LightGreen
        } else {
            Colour::Green
        },
        (false, false, true) => if bright {
            Colour::LightBlue
        } else {
            Colour::Blue
        },
        (true, true, false) => if bright {
            Colour::LightYellow
        } else {
            Colour::Yellow
        },
        (true, false, true) => if bright {
            Colour::LightMagenta
        } else {
            Colour::Magenta
        },
        (false, true, true) => if bright {
            Colour::LightCyan
        } else {
            Colour::Cyan
        },
        _ => Colour::Gray,
    }
}

/// A colour with chroma to speak of never quantises to the grey ramp, so two
/// washes of different hue cannot become one grey.
pub proof fn law_a_hue_keeps_the_cube(r: u8, g: u8, b: u8)
    requires
        spec_chroma(r, g, b) >= ACHROMATIC,
    ensures
        spec_to_indexed(r, g, b) < 232,
{
    assert(forall|v: u8| nearest_level(v, spec_axis(v))) by {
        assert forall|v: u8| nearest_level(v, spec_axis(v)) by {
            lemma_axis_exists(v);
        }
    }
}

/// Some cube level is nearest every channel value.
proof fn lemma_axis_exists(v: u8)
    ensures
        nearest_level(v, spec_axis(v)),
{
    let i: int = if v <= 47 {
        0
    } else if v <= 115 {
        1
    } else if v <= 155 {
        2
    } else if v <= 195 {
        3
    } else if v <= 235 {
        4
    } else {
        5
    };
    assert(nearest_level(v, i));
}

/// Which of red, green and blue a named colour is made of.
pub open spec fn primaries(c: Colour) -> (bool, bool, bool) {
    match c {
        Colour::Red | Colour::LightRed => (true, false, false),
        Colour::Green | Colour::LightGreen => (false, true, false),
        Colour::Blue | Colour::LightBlue => (false, false, true),
        Colour::Yellow | Colour::LightYellow => (true, true, false),
        Colour::Magenta | Colour::LightMagenta => (true, false, true),
        Colour::Cyan | Colour::LightCyan => (false, true, true),
        _ => (false, false, false),
    }
}

/// Whether a named colour is one of the bright eight's hues.
pub open spec fn is_light(c: Colour) -> bool {
    c is LightRed || c is LightGreen || c is LightBlue || c is LightYellow || c is LightMagenta
        || c is LightCyan
}

/// Whether a named colour is a grey: black, the two greys or white.
pub open spec fn is_grey(c: Colour) -> bool {
    c is Black || c is DarkGray || c is Gray || c is White
}

/// A colour brought down to the named sixteen keeps its hue: where its
/// channels spread at least the achromatic margin, the named colour is made
/// of exactly the channels standing above the lowest by more than a third of
/// the spread, a red alone red, red and green yellow, and so on; it is the
/// bright variant exactly when the highest channel reaches `0xc0`. A colour
/// spread less than that is a grey.
pub proof fn law_the_named_colour_keeps_the_hue(r: u8, g: u8, b: u8)
    ensures
        ({
            let hi = if r >= g && r >= b { r as int } else if g >= b { g as int } else { b as int };
            let lo = if r <= g && r <= b { r as int } else if g <= b { g as int } else { b as int };
            let cut = lo + (hi - lo) / 3;
            let c = spec_to_ansi16(r, g, b);
            &&& hi - lo < ACHROMATIC ==> is_grey(c)
            &&& hi - lo >= ACHROMATIC ==> primaries(c) == (r > cut, g > cut, b > cut) && is_light(c) == (hi
                >= 0xc0)
        }),
{
}

} // verus!
