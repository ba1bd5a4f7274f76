//! What the shell decides apart from its loop: what the argument list asks
//! for, how long a footer message holds, whether a warm is worth asking for,
//! what a copy of selected lines is called, what a menu row flips, what the
//! header calls the worktree, what a written path weighs, and when the
//! opening plain frame is repaid with a coloured one.
//!
//! Durations are nanoseconds, as everywhere the pane keeps time.

use vstd::prelude::*;
use crate::input::{Action, TRACK_SCALE};
use crate::menu::{row, spec_row, Row, ROW_COUNT};
use crate::text::{decimal, decimal_of, push_all, push_str, string_of};

verus! {

/// What a message on the footer is: its colour and how it arrives and leaves.
#[derive(Debug, Clone, Copy, PartialEq, Eq, Structural)]
pub enum Voice {
    /// An act of the reader's, answering.
    Said,
    /// Unasked-for, and nothing is wrong.
    Arrived,
    /// Something went wrong and the reader should know.
    Alert,
}

/// A millisecond, in nanoseconds.
pub const MILLI: u64 = 1_000_000;

/// What a changed file takes to arrive.
pub const ARRIVING: u64 = 250 * MILLI;

/// A receipt's arrival.
pub const SAID_ARRIVING: u64 = 550 * MILLI;

/// An announcement's arrival, its own rather than a changed file's.
pub const NOTICE_ARRIVING: u64 = 750 * MILLI;

/// How long a warning takes to gather.
pub const ALERT_ARRIVING: u64 = 450 * MILLI;

/// How often a running effect asks for a frame. The whole price of the effect.
pub const ARRIVING_FRAME: u64 = 16 * MILLI;

/// The whole of a receipt's or a warning's time on the footer, both
/// transitions included.
pub const NOTICE_LINGER: u64 = 4500 * MILLI;

/// The whole of an announcement's time on the footer: a minute, since it
/// arrives while the reader may be looking elsewhere.
pub const ARRIVED_LINGER: u64 = 60_000 * MILLI;

/// How long the box takes to arrive, and to leave on Esc.
pub const BOX_ARRIVING: u64 = ARRIVING;

/// How long a note's rows and the agent's line take to arrive.
pub const RESOLVE_ARRIVING: u64 = NOTICE_ARRIVING;

/// How long a note's rows take to leave, whichever way the note goes.
pub const LEAVING: u64 = NOTICE_ARRIVING;

/// The whole of a resolve's departure, after which the rows are dropped.
pub const RESOLVED_DEPARTURE: u64 = NOTICE_LINGER;

/// How long a resolve's line holds between arriving and leaving: what its
/// departure leaves once the arrival and the leaving are paid.
pub const RESOLVE_BEAT: u64 = RESOLVED_DEPARTURE - RESOLVE_ARRIVING - LEAVING;

/// How long the direction arrows stay lit after the last scroll.
pub const SCROLL_LINGER: u64 = 220 * MILLI;

/// How long a message in `voice` holds the footer, both transitions included:
/// an announcement a minute, anything else a notice's time.
pub fn linger_for(voice: Voice) -> (r: u64)
    ensures
        r == (match voice {
            Voice::Arrived => ARRIVED_LINGER,
            _ => NOTICE_LINGER,
        }),
{
    match voice {
        Voice::Said | Voice::Alert => NOTICE_LINGER,
        Voice::Arrived => ARRIVED_LINGER,
    }
}

/// How long a voice takes, arriving or leaving. One table: copies drift.
pub fn duration_for(voice: Voice) -> (r: u64)
    ensures
        r == (match voice {
            Voice::Said => SAID_ARRIVING,
            Voice::Arrived => NOTICE_ARRIVING,
            Voice::Alert => ALERT_ARRIVING,
        }),
{
    match voice {
        Voice::Said => SAID_ARRIVING,
        Voice::Arrived => NOTICE_ARRIVING,
        Voice::Alert => ALERT_ARRIVING,
    }
}

/// Every message outlasts its own arrival and its leaving by the same road, and
/// an announcement outlasts a receipt.
pub proof fn law_a_message_outlasts_its_transitions(voice: Voice)
    ensures
        ({
            let hold = match voice {
                Voice::Arrived => ARRIVED_LINGER,
                _ => NOTICE_LINGER,
            };
            let road = match voice {
                Voice::Said => SAID_ARRIVING,
                Voice::Arrived => NOTICE_ARRIVING,
                Voice::Alert => ALERT_ARRIVING,
            };
            2 * road < hold
        }),
        NOTICE_LINGER < ARRIVED_LINGER,
        RESOLVE_BEAT + RESOLVE_ARRIVING + LEAVING == RESOLVED_DEPARTURE,
{
}

/// How long to wait before the next paint while effects run: the time the last
/// paint took where an effect ran in it, since effects are timed by the frame
/// they are drawn in, and nothing otherwise.
pub fn effect_interval(ran: bool, since_paint: u64) -> (r: u64)
    ensures
        r == (if ran {
            since_paint
        } else {
            0
        }),
{
    if ran {
        since_paint
    } else {
        0
    }
}

/// Whether two lists of paths are the same, in order.
pub open spec fn same_paths(a: Seq<String>, b: Seq<String>) -> bool {
    a.len() == b.len() && forall|i: int| 0 <= i < a.len() ==> #[trigger] a[i]@ == b[i]@
}

/// Whether two lists of paths are the same, in order.
fn paths_equal(a: &[String], b: &[String]) -> (r: bool)
    ensures
        r == same_paths(a@, b@),
{
    if a.len() != b.len() {
        return false;
    }
    let mut i: usize = 0;
    while i < a.len()
        invariant
            i <= a@.len(),
            a@.len() == b@.len(),
            forall|j: int| 0 <= j < i ==> #[trigger] a@[j]@ == b@[j]@,
        decreases a@.len() - i,
    {
        if !crate::text::same_str(a[i].as_str(), b[i].as_str()) {
            return false;
        }
        i += 1;
    }
    true
}

/// Whether a demand is worth handing to a warmer: there is something wanted,
/// and either the tree has been written since or it is not what the last warm
/// was handed.
pub fn worth_warming(wanted: &[String], served: &[String], written: bool) -> (r: bool)
    ensures
        r == (wanted@.len() > 0 && (written || !same_paths(wanted@, served@))),
{
    wanted.len() > 0 && (written || !paths_equal(wanted, served))
}

/// What the header calls the worktree: the folder's own name, or, where the
/// path as given ends in none (`.` or `..`), the name of the folder it
/// resolves to, or failing both the path as given.
pub open spec fn spec_short_name(name: Option<Seq<char>>, resolved: Option<Seq<char>>, shown: Seq<char>) -> Seq<char> {
    match name {
        Some(n) => n,
        None => match resolved {
            Some(n) => n,
            None => shown,
        },
    }
}

/// The worktree's name for the header, from the last component of the path
/// as given, that of the path it resolves to, and the path as shown; the
/// shell reads those from the file system, the second only where the first
/// is missing.
pub fn short_name(name: Option<String>, resolved: Option<String>, shown: String) -> (r: String)
    ensures
        r@ == spec_short_name(
            match name {
                Some(n) => Some(n@),
                None => None,
            },
            match resolved {
                Some(n) => Some(n@),
                None => None,
            },
            shown@,
        ),
{
    match name {
        Some(n) => n,
        None => match resolved {
            Some(n) => n,
            None => shown,
        },
    }
}

/// How far a pane has got through its opening two frames: the first draws
/// plain so the screen arrives at once, and the second, owed straight after,
/// colours.
#[derive(Debug, Clone, Copy, PartialEq, Eq, Structural)]
pub enum Paint {
    /// Nothing drawn yet; the next frame draws plain.
    Never,
    /// The plain frame is on screen and a coloured one is owed.
    Plain,
    /// Every frame from here colours.
    Coloured,
}

/// The stage a frame leaves the pane at.
pub open spec fn spec_painted(p: Paint) -> Paint {
    match p {
        Paint::Never => Paint::Plain,
        _ => Paint::Coloured,
    }
}

impl Paint {
    /// Whether the frame about to be drawn colours its lines.
    pub fn highlights(self) -> (r: bool)
        ensures
            r == !(self is Never),
    {
        !matches!(self, Paint::Never)
    }

    /// Whether a coloured frame is owed for the plain one already on screen.
    pub fn owes_repaint(self) -> (r: bool)
        ensures
            r == (self is Plain),
    {
        matches!(self, Paint::Plain)
    }

    /// The stage once one more frame is on screen.
    pub fn painted(self) -> (r: Paint)
        ensures
            r == spec_painted(self),
    {
        match self {
            Paint::Never => Paint::Plain,
            Paint::Plain | Paint::Coloured => Paint::Coloured,
        }
    }
}

/// The stage a pane is at once `frames` frames are on screen, from none.
pub open spec fn painted_after(frames: nat) -> Paint
    decreases frames,
{
    if frames == 0 {
        Paint::Never
    } else {
        spec_painted(painted_after((frames - 1) as nat))
    }
}

/// A pane owes exactly one repaint in its life: after its first frame, and
/// after no other; every frame but the first colours.
pub proof fn law_exactly_one_repaint_is_owed(frames: nat)
    ensures
        (painted_after(frames) is Plain) <==> frames == 1,
        !(painted_after(frames) is Never) <==> frames >= 1,
    decreases frames,
{
    if frames > 1 {
        law_exactly_one_repaint_is_owed((frames - 1) as nat);
        assert(painted_after(frames) == spec_painted(painted_after((frames - 1) as nat)));
    } else if frames == 1 {
        assert(painted_after(0) == Paint::Never);
        assert(painted_after(1) == spec_painted(Paint::Never));
    }
}

/// The first frame is plain and owes a repaint; two frames in, whatever the
/// start, nothing is owed and every frame colours.
pub proof fn law_the_second_frame_pays_the_first(p: Paint)
    ensures
        spec_painted(Paint::Never) == Paint::Plain,
        spec_painted(spec_painted(p)) == Paint::Coloured,
        spec_painted(Paint::Coloured) == Paint::Coloured,
{
}

/// What the disk holds at a written path, as the shell found it.
#[derive(Debug, Clone, Copy, PartialEq, Eq, Structural)]
pub enum Found {
    /// A directory.
    Directory,
    /// Anything else, holding this many bytes.
    File(u64),
    /// Nothing: the path is gone.
    Missing,
    /// What is there could not be read.
    Unreadable,
}

/// What a written path weighs for the burst's record: nothing for a
/// directory, whose reported size differs by platform and is no write; zero
/// for a file that is gone, the largest edit a reader can make; and nothing
/// where the size could not be read.
pub fn weigh(found: Found) -> (r: Option<u64>)
    ensures
        r == match found {
            Found::Directory => None,
            Found::File(n) => Some(n),
            Found::Missing => Some(0u64),
            Found::Unreadable => None,
        },
{
    match found {
        Found::Directory => None,
        Found::File(n) => Some(n),
        Found::Missing => Some(0),
        Found::Unreadable => None,
    }
}

/// What the argument list is asking for.
#[derive(Debug, Clone, Copy, PartialEq, Eq, Structural)]
pub enum Request {
    /// Watch the argument as a path.
    Watch,
    /// Print the version and exit successfully.
    Version,
    /// Serve the notes store to the agent over stdio.
    Mcp,
    /// Record this agent session's socket, or clear it, from a hook.
    McpRegister,
    /// Say how many notes are open, for a hook to put in front of the agent.
    McpPending,
    /// An argument beginning with `-` that is not a version query.
    NoSuchOption,
    /// A second word after `mcp` that is neither of the server's own.
    NoSuchWord,
    /// More than one argument, when the surface is exactly one, or two after
    /// `mcp`.
    TooManyArguments,
}

/// The ASCII bytes of a word.
pub open spec fn bytes_of(word: Seq<char>) -> Seq<u8> {
    word.map_values(|c: char| c as u8)
}

/// What one argument, as its encoded bytes, asks for: the version for
/// `--version` or `-V`, the server for the bare word `mcp`, a refusal for
/// anything else opening with `-`, and otherwise a path to watch.
pub open spec fn one_request(arg: Seq<u8>) -> Request {
    if arg == bytes_of("--version"@) || arg == bytes_of("-V"@) {
        Request::Version
    } else if arg == bytes_of("mcp"@) {
        Request::Mcp
    } else if arg.len() > 0 && arg[0] == 45 {
        Request::NoSuchOption
    } else {
        Request::Watch
    }
}

/// What the argument list, each argument as its encoded bytes, asks for: the
/// pane for none, one argument's own request, the server's two words after
/// `mcp`, and a refusal for anything longer.
pub open spec fn request(args: Seq<Seq<u8>>) -> Request {
    if args.len() == 0 {
        Request::Watch
    } else if args.len() == 1 {
        one_request(args[0])
    } else if args.len() == 2 && args[0] == bytes_of("mcp"@) {
        if args[1] == bytes_of("register"@) {
            Request::McpRegister
        } else if args[1] == bytes_of("pending"@) {
            Request::McpPending
        } else {
            Request::NoSuchWord
        }
    } else {
        Request::TooManyArguments
    }
}

/// Whether `arg` is exactly the ASCII word `word`.
fn is_bytes(arg: &Vec<u8>, word: &str) -> (r: bool)
    ensures
        r == (arg@ == bytes_of(word@)),
{
    let chars = crate::text::chars_of(word);
    if arg.len() != chars.len() {
        return false;
    }
    let mut i: usize = 0;
    while i < arg.len()
        invariant
            i <= arg@.len(),
            arg@.len() == chars@.len(),
            chars@ == word@,
            forall|j: int| 0 <= j < i ==> arg@[j] == (chars@[j] as u8),
        decreases arg@.len() - i,
    {
        let c = chars[i];
        if arg[i] != c as u8 {
            assert(arg@[i as int] != bytes_of(word@)[i as int]);
            return false;
        }
        i += 1;
    }
    assert(arg@ =~= bytes_of(word@));
    true
}

/// What one argument asks for.
fn request_for_one(arg: &Vec<u8>) -> (r: Request)
    ensures
        r == one_request(arg@),
{
    if is_bytes(arg, "--version") || is_bytes(arg, "-V") {
        return Request::Version;
    }
    if is_bytes(arg, "mcp") {
        return Request::Mcp;
    }
    if arg.len() > 0 && arg[0] == 45 {
        Request::NoSuchOption
    } else {
        Request::Watch
    }
}

/// Classify the arguments the pane was given, each as its encoded bytes.
pub fn request_for(args: &[Vec<u8>]) -> (r: Request)
    ensures
        r == request(args@.map_values(|a: Vec<u8>| a@)),
{
    let ghost seen = args@.map_values(|a: Vec<u8>| a@);
    if args.len() == 0 {
        return Request::Watch;
    }
    if args.len() == 1 {
        return request_for_one(&args[0]);
    }
    if args.len() == 2 && is_bytes(&args[0], "mcp") {
        if is_bytes(&args[1], "register") {
            return Request::McpRegister;
        }
        if is_bytes(&args[1], "pending") {
            return Request::McpPending;
        }
        return Request::NoSuchWord;
    }
    Request::TooManyArguments
}

/// The bytes a gesture asked to send, and what the footer calls them.
#[derive(Debug, Clone)]
pub struct Sending {
    /// The bytes for the clipboard.
    pub text: String,
    /// What the footer names them.
    pub said: String,
}

/// What the footer calls `n` selected lines.
pub open spec fn lines_said(n: nat) -> Seq<char> {
    if n == 1 {
        "1 line"@
    } else {
        decimal(n) + " lines"@
    }
}

/// `lines` joined with line feeds between them.
pub open spec fn joined(lines: Seq<Seq<char>>) -> Seq<char>
    decreases lines.len(),
{
    if lines.len() == 0 {
        Seq::empty()
    } else if lines.len() == 1 {
        lines[0]
    } else {
        joined(lines.drop_last()) + seq!['\n'] + lines.last()
    }
}

impl Sending {
    /// Selected lines, named by how many. Lines and not rows: a wrapped line is
    /// several rows and one line, and the count names what was sent.
    pub fn lines(lines: &[String]) -> (r: Self)
        ensures
            r.said@ == lines_said(lines@.len()),
            r.text@ == joined(lines@.map_values(|l: String| l@)),
    {
        let mut said: Vec<char> = Vec::new();
        if lines.len() == 1 {
            push_str(&mut said, "1 line");
        } else {
            let count = decimal_of(lines.len() as u64);
            push_all(&mut said, count.as_slice());
            push_str(&mut said, " lines");
        }
        let ghost all = lines@.map_values(|l: String| l@);
        let mut text: Vec<char> = Vec::new();
        let mut k: usize = 0;
        assert(all.take(0) =~= Seq::<Seq<char>>::empty());
        while k < lines.len()
            invariant
                k <= lines@.len(),
                all == lines@.map_values(|l: String| l@),
                text@ == joined(all.take(k as int)),
            decreases lines@.len() - k,
        {
            let ghost before = text@;
            if k > 0 {
                text.push('\n');
            }
            push_str(&mut text, lines[k].as_str());
            proof {
                assert(all.take(k + 1).drop_last() =~= all.take(k as int));
                assert(all[k as int] == lines@[k as int]@);
                if k == 0 {
                    assert(before =~= Seq::<char>::empty());
                    assert(text@ =~= all[0]);
                }
            }
            k += 1;
        }
        assert(all.take(lines@.len() as int) =~= all);
        Sending { text: string_of(text.as_slice()), said: string_of(said.as_slice()) }
    }
}

/// A track fraction resolved against a count: the fraction of [`TRACK_SCALE`]
/// the drag stands at, of `count` rows. A drag at the track's end gives the
/// count itself, the end of the travel, and any drag short of it an index
/// inside it.
pub fn scaled(at: u32, count: usize) -> (r: usize)
    requires
        at as int * count as int <= u64::MAX,
        (at as int * count as int) / (TRACK_SCALE as int) <= usize::MAX,
    ensures
        r == (at as int * count as int) / (TRACK_SCALE as int),
        count == 0 ==> r == 0,
        at <= TRACK_SCALE ==> r <= count,
        at < TRACK_SCALE && count > 0 ==> r < count,
{
    if count == 0 {
        return 0;
    }
    let product = (at as u64) * (count as u64);
    let r = product / (TRACK_SCALE as u64);
    proof {
        let a = at as int;
        let c = count as int;
        if at <= TRACK_SCALE {
            assert(a * c <= 65536 * c) by (nonlinear_arith)
                requires
                    a <= 65536,
                    c >= 0,
            ;
            assert((a * c) / 65536 <= c) by (nonlinear_arith)
                requires
                    a * c <= 65536 * c,
                    c >= 0,
            ;
        }
        if at < TRACK_SCALE {
            assert(a * c < 65536 * c) by (nonlinear_arith)
                requires
                    a < 65536,
                    c > 0,
            ;
            assert((a * c) / 65536 < c) by (nonlinear_arith)
                requires
                    a * c < 65536 * c,
                    c > 0,
            ;
        }
    }
    r as usize
}

/// What pressing the menu row at `at` asks for: its toggle's own action, the
/// reset, or nothing where the caret cannot sit.
pub open spec fn flip_of(at: int) -> Option<Action> {
    if at < 0 || at >= ROW_COUNT {
        None
    } else {
        match spec_row(at) {
            Row::Toggle(setting) => Some(setting.spec_action()),
            Row::Reset => Some(Action::MenuReset),
            _ => None,
        }
    }
}

/// What pressing the menu row at `at` asks for.
pub fn flips(at: usize) -> (r: Option<Action>)
    ensures
        r == flip_of(at as int),
{
    if at >= ROW_COUNT {
        return None;
    }
    match row(at) {
        Row::Toggle(setting) => Some(setting.action()),
        Row::Reset => Some(Action::MenuReset),
        _ => None,
    }
}

} // verus!
