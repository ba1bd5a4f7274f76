//! What the pane keeps of the reader's notes apart from the store: whether the
//! box has room to open, what Enter did, what a reload found had moved, and
//! what the footer is told of a listing the store could not read whole.

use vstd::prelude::*;
use crate::input::Regions;
use crate::event::{Event, KeyCode, KeyKind, KeyEvent, MouseKind};
use crate::render::Rect;
use crate::shell::{LEAVING, RESOLVED_DEPARTURE};
use crate::text::same_str;

verus! {

/// Columns the note box's frame takes: its border on either side.
pub const BOX_FRAME: usize = 2;

/// Whether the diff leaves the box a column inside its frame: the text the
/// diff's rows have, less the gutter's, must be wider than the frame.
pub fn has_room(regions: Regions) -> (r: bool)
    ensures
        r == (if regions.diff.text >= regions.diff.gutter.columns {
            (regions.diff.text - regions.diff.gutter.columns) as int
        } else {
            0
        } > BOX_FRAME),
{
    let columns = regions.diff.gutter.columns;
    let text = if regions.diff.text >= columns {
        regions.diff.text - columns
    } else {
        0
    };
    text as usize > BOX_FRAME
}

/// What Enter did to the store.
#[derive(Debug, Clone)]
pub enum Committed {
    /// A note was written, under this id.
    Written(String),
    /// The note the box was over took the new text and is open again.
    Rewritten(String),
    /// The box was emptied over a note, which was withdrawn.
    Withdrawn(String),
    /// The box was empty over nothing, so nothing was written.
    Nothing,
}

/// What a reload of the store found had moved, each naming the note's id, for
/// the effect that draws it moving.
#[derive(Debug, Clone)]
pub enum Change {
    /// The reader pressed Enter, so the note's rows are new under its line.
    Written(String),
    /// The agent listed the note, so its word climbed from open to seen.
    Seen(String),
    /// The agent answered without closing the note.
    Replied(String),
    /// The agent resolved it: the agent's line arrives over the rows, which
    /// then hold it until it is swept.
    Resolved(String),
    /// A resolve's beat has run and its rows are going.
    Swept(String),
    /// It is leaving without the agent's line.
    Left(String),
}

impl Change {
    /// The id of the note that moved.
    pub fn id(&self) -> (r: &String)
        ensures
            r == (match self {
                Change::Written(id) => id,
                Change::Seen(id) => id,
                Change::Replied(id) => id,
                Change::Resolved(id) => id,
                Change::Swept(id) => id,
                Change::Left(id) => id,
            }),
    {
        match self {
            Change::Written(id) => id,
            Change::Seen(id) => id,
            Change::Replied(id) => id,
            Change::Resolved(id) => id,
            Change::Swept(id) => id,
            Change::Left(id) => id,
        }
    }
}

/// What one settle came to: whether the rows the next collect places moved, the
/// resolves whose beat has run, and the resolved notes whose departure has run
/// and whose files the caller now owns the removal of.
#[derive(Debug, Clone)]
pub struct Settled {
    /// A departure ended, so the drawn set is not what it was.
    pub changed: bool,
    /// Ids whose beat ended this turn, so the sweep over their rows is armed.
    pub sweeping: Vec<String>,
    /// Resolved ids whose files are to be removed, in the order they ended.
    pub prune: Vec<String>,
}

impl Default for Settled {
    /// Nothing moved.
    fn default() -> (r: Self)
        ensures
            !r.changed && r.sweeping@.len() == 0 && r.prune@.len() == 0,
    {
        Settled { changed: false, sweeping: Vec::new(), prune: Vec::new() }
    }
}

/// Where a note stands with the agent.
#[derive(Debug, Clone, Copy, PartialEq, Eq, Structural)]
pub enum Status {
    /// Written and not yet listed by the agent.
    Open,
    /// Listed by the agent.
    Seen,
    /// Resolved by the agent.
    Resolved,
}

/// A note as the pane holds it.
#[derive(Debug, Clone)]
pub struct Note {
    /// The note's id, which a resolve names.
    pub id: String,
    /// The path the note is anchored in.
    pub path: String,
    /// The line it is anchored on, counted from one.
    pub line: u32,
    /// What the reader wrote.
    pub body: String,
    /// Where it stands with the agent.
    pub status: Status,
    /// The agent's answer, where it has given one.
    pub reply: Option<String>,
}

/// A note, its strings as characters.
pub struct NoteView {
    pub id: Seq<char>,
    pub path: Seq<char>,
    pub line: u32,
    pub body: Seq<char>,
    pub status: Status,
    pub reply: Option<Seq<char>>,
}

/// The characters of an optional string.
pub open spec fn opt_chars(s: Option<String>) -> Option<Seq<char>> {
    match s {
        Some(t) => Some(t@),
        None => None,
    }
}

impl View for Note {
    type V = NoteView;

    open spec fn view(&self) -> NoteView {
        NoteView {
            id: self.id@,
            path: self.path@,
            line: self.line,
            body: self.body@,
            status: self.status,
            reply: opt_chars(self.reply),
        }
    }
}

/// A copy of `note`.
pub fn copy_note(note: &Note) -> (r: Note)
    ensures
        r@ == note@,
{
    Note {
        id: note.id.clone(),
        path: note.path.clone(),
        line: note.line,
        body: note.body.clone(),
        status: note.status,
        reply: match &note.reply {
            Some(text) => Some(text.clone()),
            None => None,
        },
    }
}

/// A move a reload or a settle found, its id as characters.
pub enum Moved {
    Written(Seq<char>),
    Seen(Seq<char>),
    Replied(Seq<char>),
    Resolved(Seq<char>),
    Swept(Seq<char>),
    Left(Seq<char>),
}

impl View for Change {
    type V = Moved;

    open spec fn view(&self) -> Moved {
        match self {
            Change::Written(id) => Moved::Written(id@),
            Change::Seen(id) => Moved::Seen(id@),
            Change::Replied(id) => Moved::Replied(id@),
            Change::Resolved(id) => Moved::Resolved(id@),
            Change::Swept(id) => Moved::Swept(id@),
            Change::Left(id) => Moved::Left(id@),
        }
    }
}

/// A note on its way off the screen: drawn as it was until `ends`, then
/// dropped; `holds` is when a resolve's beat arms the sweep, while one is owed.
#[derive(Debug)]
struct Departing {
    note: Note,
    holds: Option<u64>,
    ends: u64,
}

/// A departure, its note as characters.
pub struct Leaving {
    pub note: NoteView,
    pub holds: Option<u64>,
    pub ends: u64,
}

impl View for Departing {
    type V = Leaving;

    closed spec fn view(&self) -> Leaving {
        Leaving { note: self.note@, holds: self.holds, ends: self.ends }
    }
}

/// What the pane holds of the store: the notes as last listed, the ones
/// leaving, and the resolved ones already gone from the screen whose files have
/// not been removed yet, so nothing resolved is ever drawn twice.
#[derive(Debug)]
pub struct Ledger {
    listed: Vec<Note>,
    departing: Vec<Departing>,
    departed: Vec<String>,
}

/// A ledger, its notes and ids as characters.
pub struct LedgerView {
    pub listed: Seq<NoteView>,
    pub departing: Seq<Leaving>,
    pub departed: Seq<Seq<char>>,
}

impl View for Ledger {
    type V = LedgerView;

    closed spec fn view(&self) -> LedgerView {
        LedgerView {
            listed: self.listed@.map_values(|n: Note| n@),
            departing: self.departing@.map_values(|d: Departing| d@),
            departed: self.departed@.map_values(|id: String| id@),
        }
    }
}

/// Whether one of `notes` has the id `id`.
pub open spec fn has_id(notes: Seq<NoteView>, id: Seq<char>) -> bool {
    exists|i: int| 0 <= i < notes.len() && #[trigger] notes[i].id == id
}

/// Whether one of `departing` is the note with the id `id`.
pub open spec fn leaving_id(departing: Seq<Leaving>, id: Seq<char>) -> bool {
    exists|i: int| 0 <= i < departing.len() && #[trigger] departing[i].note.id == id
}

/// The ids the store still lists, of those the pane remembers as departed.
pub open spec fn still_listed(departed: Seq<Seq<char>>, notes: Seq<NoteView>) -> Seq<Seq<char>>
    decreases departed.len(),
{
    if departed.len() == 0 {
        Seq::empty()
    } else {
        let before = still_listed(departed.drop_last(), notes);
        if has_id(notes, departed.last()) {
            before.push(departed.last())
        } else {
            before
        }
    }
}

/// The first of `notes` with the id `id`.
pub open spec fn first_with(notes: Seq<NoteView>, id: Seq<char>) -> Option<NoteView>
    decreases notes.len(),
{
    if notes.len() == 0 {
        None
    } else if notes[0].id == id {
        Some(notes[0])
    } else {
        first_with(notes.drop_first(), id)
    }
}

/// Where a reload stands as it walks: the notes it keeps, the departures, and
/// the moves it has found.
pub struct Walked {
    pub listed: Seq<NoteView>,
    pub departing: Seq<Leaving>,
    pub changes: Seq<Moved>,
}

/// One note of a fresh listing: skipped where it is leaving or departed; a
/// resolve starts a departure that holds the agent's line; otherwise it is
/// kept, and seen or replied to where it was not before.
pub open spec fn take_note(w: Walked, note: NoteView, previous: Seq<NoteView>, departed: Seq<Seq<char>>, now: u64) -> Walked {
    if leaving_id(w.departing, note.id) || departed.contains(note.id) {
        w
    } else if note.status == Status::Resolved {
        Walked {
            changes: w.changes.push(Moved::Resolved(note.id)),
            departing: w.departing.push(
                Leaving {
                    note,
                    holds: Some((now + RESOLVED_DEPARTURE - LEAVING) as u64),
                    ends: (now + RESOLVED_DEPARTURE) as u64,
                },
            ),
            ..w
        }
    } else {
        let (seen, replied) = match first_with(previous, note.id) {
            Some(before) => (
                before.status == Status::Open && note.status == Status::Seen,
                note.reply is Some && before.reply != note.reply,
            ),
            None => (false, false),
        };
        let c1 = if seen {
            w.changes.push(Moved::Seen(note.id))
        } else {
            w.changes
        };
        let c2 = if replied {
            c1.push(Moved::Replied(note.id))
        } else {
            c1
        };
        Walked { listed: w.listed.push(note), changes: c2, ..w }
    }
}

/// A fresh listing, walked note by note.
pub open spec fn take_notes(w: Walked, notes: Seq<NoteView>, previous: Seq<NoteView>, departed: Seq<Seq<char>>, now: u64) -> Walked
    decreases notes.len(),
{
    if notes.len() == 0 {
        w
    } else {
        take_note(take_notes(w, notes.drop_last(), previous, departed, now), notes.last(), previous, departed, now)
    }
}

/// One note of the last listing: where it is neither kept nor leaving, it is
/// gone from the store, and it leaves without the agent's line.
pub open spec fn let_go(w: Walked, gone: NoteView, now: u64) -> Walked {
    if has_id(w.listed, gone.id) || leaving_id(w.departing, gone.id) {
        w
    } else {
        Walked {
            changes: w.changes.push(Moved::Left(gone.id)),
            departing: w.departing.push(Leaving { note: gone, holds: None, ends: (now + LEAVING) as u64 }),
            ..w
        }
    }
}

/// The last listing, walked note by note.
pub open spec fn let_go_all(w: Walked, previous: Seq<NoteView>, now: u64) -> Walked
    decreases previous.len(),
{
    if previous.len() == 0 {
        w
    } else {
        let_go(let_go_all(w, previous.drop_last(), now), previous.last(), now)
    }
}

/// What a reload makes of a ledger and a fresh listing: the departed ids the
/// store still lists, the listing walked, then the last listing.
pub open spec fn reloaded(l: LedgerView, notes: Seq<NoteView>, now: u64) -> (LedgerView, Seq<Moved>) {
    let departed = still_listed(l.departed, notes);
    let walked = take_notes(Walked { listed: Seq::empty(), departing: l.departing, changes: Seq::empty() }, notes, l.listed, departed, now);
    let done = let_go_all(walked, l.listed, now);
    (LedgerView { listed: done.listed, departing: done.departing, departed }, done.changes)
}

/// The notes of `notes`, as characters.
pub open spec fn notes_view(notes: Seq<Note>) -> Seq<NoteView> {
    notes.map_values(|n: Note| n@)
}

/// Whether two optional strings spell the same.
fn same_reply(a: &Option<String>, b: &Option<String>) -> (r: bool)
    ensures
        r == (opt_chars(*a) == opt_chars(*b)),
{
    match (a, b) {
        (Some(x), Some(y)) => same_str(x.as_str(), y.as_str()),
        (None, None) => true,
        _ => false,
    }
}

/// Whether one of `notes` has the id `id`.
fn listed_has(notes: &Vec<Note>, id: &str) -> (r: bool)
    ensures
        r == has_id(notes_view(notes@), id@),
{
    let mut i: usize = 0;
    while i < notes.len()
        invariant
            i <= notes@.len(),
            forall|j: int| 0 <= j < i ==> #[trigger] notes@[j].id@ != id@,
        decreases notes@.len() - i,
    {
        if same_str(notes[i].id.as_str(), id) {
            assert(notes_view(notes@)[i as int].id == id@);
            return true;
        }
        i += 1;
    }
    assert forall|j: int| 0 <= j < notes_view(notes@).len() implies #[trigger] notes_view(notes@)[j].id != id@ by {
        assert(notes_view(notes@)[j] == notes@[j]@);
    }
    false
}

/// The first of `notes` with the id `id`, by its index.
fn first_index_with(notes: &Vec<Note>, id: &str) -> (r: Option<usize>)
    ensures
        match r {
            Some(i) => i < notes@.len() && first_with(notes_view(notes@), id@) == Some(notes@[i as int]@),
            None => first_with(notes_view(notes@), id@) is None,
        },
{
    let ghost all = notes_view(notes@);
    let mut i: usize = 0;
    assert(all.skip(0) =~= all);
    while i < notes.len()
        invariant
            i <= notes@.len(),
            all == notes_view(notes@),
            first_with(all, id@) == first_with(all.skip(i as int), id@),
        decreases notes@.len() - i,
    {
        proof {
            assert(all.skip(i as int)[0] == notes@[i as int]@);
            assert(all.skip(i as int).drop_first() =~= all.skip(i as int + 1));
        }
        if same_str(notes[i].id.as_str(), id) {
            return Some(i);
        }
        i += 1;
    }
    assert(all.skip(i as int) =~= Seq::<NoteView>::empty());
    None
}

/// The departures of `departing`, as characters.
pub open spec fn leaving_view(departing: Seq<Departing>) -> Seq<Leaving> {
    departing.map_values(|d: Departing| d@)
}

/// Whether one of `departing` is the note with the id `id`.
fn is_departing(departing: &Vec<Departing>, id: &str) -> (r: bool)
    ensures
        r == leaving_id(leaving_view(departing@), id@),
{
    let mut i: usize = 0;
    while i < departing.len()
        invariant
            i <= departing@.len(),
            forall|j: int| 0 <= j < i ==> #[trigger] departing@[j]@.note.id != id@,
        decreases departing@.len() - i,
    {
        if same_str(departing[i].note.id.as_str(), id) {
            assert(leaving_view(departing@)[i as int].note.id == id@);
            return true;
        }
        i += 1;
    }
    assert forall|j: int| 0 <= j < leaving_view(departing@).len() implies #[trigger] leaving_view(departing@)[j].note.id
        != id@ by {
        assert(leaving_view(departing@)[j] == departing@[j]@);
    }
    false
}

/// The ids of `ids`, as characters.
pub open spec fn ids_view(ids: Seq<String>) -> Seq<Seq<char>> {
    ids.map_values(|id: String| id@)
}

/// Whether `ids` holds `id`.
fn holds_id(ids: &Vec<String>, id: &str) -> (r: bool)
    ensures
        r == ids_view(ids@).contains(id@),
{
    let mut i: usize = 0;
    while i < ids.len()
        invariant
            i <= ids@.len(),
            forall|j: int| 0 <= j < i ==> #[trigger] ids@[j]@ != id@,
        decreases ids@.len() - i,
    {
        if same_str(ids[i].as_str(), id) {
            assert(ids_view(ids@)[i as int] == id@);
            return true;
        }
        i += 1;
    }
    assert forall|j: int| 0 <= j < ids_view(ids@).len() implies ids_view(ids@)[j] != id@ by {
        assert(ids_view(ids@)[j] == ids@[j]@);
    }
    false
}

/// The moves of `changes`, as characters.
pub open spec fn moves_view(changes: Seq<Change>) -> Seq<Moved> {
    changes.map_values(|c: Change| c@)
}

impl Ledger {
    /// A ledger holding nothing.
    pub fn new() -> (r: Self)
        ensures
            r@ == (LedgerView { listed: Seq::empty(), departing: Seq::empty(), departed: Seq::empty() }),
    {
        let r = Ledger { listed: Vec::new(), departing: Vec::new(), departed: Vec::new() };
        assert(r@.listed =~= Seq::<NoteView>::empty());
        assert(r@.departing =~= Seq::<Leaving>::empty());
        assert(r@.departed =~= Seq::<Seq<char>>::empty());
        r
    }

    /// Take a fresh listing and answer what moved since the last one, starting
    /// a departure for every note that is leaving. A note already leaving is
    /// not brought back by a listing that still holds it.
    pub fn reload(&mut self, notes: Vec<Note>, now: u64) -> (r: Vec<Change>)
        requires
            now + RESOLVED_DEPARTURE <= u64::MAX,
        ensures
            final(self)@ == reloaded(old(self)@, notes_view(notes@), now).0,
            moves_view(r@) == reloaded(old(self)@, notes_view(notes@), now).1,
    {
        let ghost start = self@;
        let ghost all = notes_view(notes@);
        let mut previous: Vec<Note> = Vec::new();
        std::mem::swap(&mut previous, &mut self.listed);
        assert(notes_view(previous@) == start.listed);
        let mut departed: Vec<String> = Vec::new();
        let mut k: usize = 0;
        while k < self.departed.len()
            invariant
                k <= self.departed@.len(),
                ids_view(self.departed@) == start.departed,
                all == notes_view(notes@),
                ids_view(departed@) == still_listed(start.departed.take(k as int), all),
            decreases self.departed@.len() - k,
        {
            proof {
                assert(start.departed.take(k as int + 1).drop_last() =~= start.departed.take(k as int));
                assert(start.departed.take(k as int + 1).last() == self.departed@[k as int]@);
            }
            if listed_has(&notes, self.departed[k].as_str()) {
                departed.push(self.departed[k].clone());
                assert(ids_view(departed@) =~= still_listed(start.departed.take(k as int), all).push(
                    self.departed@[k as int]@,
                ));
            }
            k += 1;
        }
        assert(start.departed.take(k as int) =~= start.departed);
        self.departed = departed;
        let ghost kept = ids_view(self.departed@);
        assert(kept == still_listed(start.departed, all));
        let mut listed: Vec<Note> = Vec::new();
        let mut changes: Vec<Change> = Vec::new();
        let ghost w0 = Walked { listed: Seq::empty(), departing: start.departing, changes: Seq::empty() };
        let mut i: usize = 0;
        assert(notes_view(listed@) =~= Seq::<NoteView>::empty());
        assert(moves_view(changes@) =~= Seq::<Moved>::empty());
        while i < notes.len()
            invariant
                i <= notes@.len(),
                all == notes_view(notes@),
                kept == ids_view(self.departed@),
                notes_view(previous@) == start.listed,
                now + RESOLVED_DEPARTURE <= u64::MAX,
                ({
                    let w = take_notes(w0, all.take(i as int), start.listed, kept, now);
                    &&& notes_view(listed@) == w.listed
                    &&& leaving_view(self.departing@) == w.departing
                    &&& moves_view(changes@) == w.changes
                }),
            decreases notes@.len() - i,
        {
            let note = copy_note(&notes[i]);
            let ghost w = take_notes(w0, all.take(i as int), start.listed, kept, now);
            proof {
                assert(all.take(i as int + 1).drop_last() =~= all.take(i as int));
                assert(all.take(i as int + 1).last() == note@);
            }
            if is_departing(&self.departing, note.id.as_str()) || holds_id(&self.departed, note.id.as_str()) {
            } else if note.status == Status::Resolved {
                changes.push(Change::Resolved(note.id.clone()));
                let ends = now + RESOLVED_DEPARTURE;
                self.departing.push(Departing { note, holds: Some(ends - LEAVING), ends });
                assert(moves_view(changes@) =~= w.changes.push(Moved::Resolved(notes@[i as int]@.id)));
                assert(leaving_view(self.departing@) =~= w.departing.push(
                    Leaving {
                        note: notes@[i as int]@,
                        holds: Some((now + RESOLVED_DEPARTURE - LEAVING) as u64),
                        ends: (now + RESOLVED_DEPARTURE) as u64,
                    },
                ));
            } else {
                let (seen, replied) = match first_index_with(&previous, note.id.as_str()) {
                    Some(at) => (
                        previous[at].status == Status::Open && note.status == Status::Seen,
                        note.reply.is_some() && !same_reply(&previous[at].reply, &note.reply),
                    ),
                    None => (false, false),
                };
                let ghost c0 = moves_view(changes@);
                if seen {
                    changes.push(Change::Seen(note.id.clone()));
                    assert(moves_view(changes@) =~= c0.push(Moved::Seen(note@.id)));
                }
                let ghost c1 = moves_view(changes@);
                if replied {
                    changes.push(Change::Replied(note.id.clone()));
                    assert(moves_view(changes@) =~= c1.push(Moved::Replied(note@.id)));
                }
                let ghost before = notes_view(listed@);
                listed.push(note);
                assert(notes_view(listed@) =~= before.push(notes@[i as int]@));
            }
            i += 1;
        }
        assert(all.take(i as int) =~= all);
        let ghost w1 = take_notes(w0, all, start.listed, kept, now);
        let mut j: usize = 0;
        while j < previous.len()
            invariant
                j <= previous@.len(),
                notes_view(previous@) == start.listed,
                notes_view(listed@) == w1.listed,
                kept == ids_view(self.departed@),
                kept == still_listed(start.departed, all),
                now + RESOLVED_DEPARTURE <= u64::MAX,
                ({
                    let w = let_go_all(w1, start.listed.take(j as int), now);
                    &&& leaving_view(self.departing@) == w.departing
                    &&& moves_view(changes@) == w.changes
                    &&& w.listed == w1.listed
                }),
            decreases previous@.len() - j,
        {
            let ghost w = let_go_all(w1, start.listed.take(j as int), now);
            proof {
                assert(start.listed.take(j as int + 1).drop_last() =~= start.listed.take(j as int));
                assert(start.listed.take(j as int + 1).last() == previous@[j as int]@);
            }
            if listed_has(&listed, previous[j].id.as_str()) || is_departing(&self.departing, previous[j].id.as_str()) {
            } else {
                let gone = copy_note(&previous[j]);
                changes.push(Change::Left(gone.id.clone()));
                self.departing.push(Departing { note: gone, holds: None, ends: now + LEAVING });
                assert(moves_view(changes@) =~= w.changes.push(Moved::Left(previous@[j as int]@.id)));
                assert(leaving_view(self.departing@) =~= w.departing.push(
                    Leaving { note: previous@[j as int]@, holds: None, ends: (now + LEAVING) as u64 },
                ));
            }
            j += 1;
        }
        assert(start.listed.take(j as int) =~= start.listed);
        self.listed = listed;
        let ghost done = let_go_all(w1, start.listed, now);
        assert(self@.listed == notes_view(self.listed@));
        assert(self@.departing == leaving_view(self.departing@));
        assert(self@.departed == ids_view(self.departed@));
        assert(self@.listed == done.listed);
        assert(self@.departing == done.departing);
        assert(self@.departed == still_listed(start.departed, all));
        assert(moves_view(changes@) == done.changes);
        changes
    }
}

/// What dropping the ended departures leaves: those still going, the ids
/// remembered as departed, and the resolved ones whose files are to go.
pub struct Dropped {
    pub kept: Seq<Leaving>,
    pub departed: Seq<Seq<char>>,
    pub prune: Seq<Seq<char>>,
}

/// Every departure of `departing` that has ended by `now` dropped, in order; a
/// resolved one is remembered, once, and its file named for removal.
pub open spec fn drop_ended(departing: Seq<Leaving>, departed: Seq<Seq<char>>, now: u64) -> Dropped
    decreases departing.len(),
{
    if departing.len() == 0 {
        Dropped { kept: Seq::empty(), departed, prune: Seq::empty() }
    } else {
        let before = drop_ended(departing.drop_last(), departed, now);
        let gone = departing.last();
        if now < gone.ends {
            Dropped { kept: before.kept.push(gone), ..before }
        } else if gone.note.status == Status::Resolved {
            Dropped {
                departed: if before.departed.contains(gone.note.id) {
                    before.departed
                } else {
                    before.departed.push(gone.note.id)
                },
                prune: before.prune.push(gone.note.id),
                ..before
            }
        } else {
            before
        }
    }
}

/// Whether a departure's beat has run by `now`.
pub open spec fn beat_run(gone: Leaving, now: u64) -> bool {
    gone.holds matches Some(until) && now >= until
}

/// The departures with every beat that has run ended.
pub open spec fn beats_ended(kept: Seq<Leaving>, now: u64) -> Seq<Leaving> {
    kept.map_values(|gone: Leaving| if beat_run(gone, now) {
        Leaving { holds: None, ..gone }
    } else {
        gone
    })
}

/// The ids whose beat has run by `now`, in order.
pub open spec fn swept_ids(kept: Seq<Leaving>, now: u64) -> Seq<Seq<char>>
    decreases kept.len(),
{
    if kept.len() == 0 {
        Seq::empty()
    } else {
        let before = swept_ids(kept.drop_last(), now);
        if beat_run(kept.last(), now) {
            before.push(kept.last().note.id)
        } else {
            before
        }
    }
}

/// What one settle came to, its ids as characters.
pub struct SettledView {
    pub changed: bool,
    pub sweeping: Seq<Seq<char>>,
    pub prune: Seq<Seq<char>>,
}

impl View for Settled {
    type V = SettledView;

    open spec fn view(&self) -> SettledView {
        SettledView { changed: self.changed, sweeping: ids_view(self.sweeping@), prune: ids_view(self.prune@) }
    }
}

/// What a settle makes of a ledger: the ended departures dropped, then the
/// beats that have run ended, after the drop and not before it.
pub open spec fn settled(l: LedgerView, now: u64) -> (LedgerView, SettledView) {
    let dropped = drop_ended(l.departing, l.departed, now);
    (
        LedgerView { listed: l.listed, departing: beats_ended(dropped.kept, now), departed: dropped.departed },
        SettledView {
            changed: dropped.kept.len() != l.departing.len(),
            sweeping: swept_ids(dropped.kept, now),
            prune: dropped.prune,
        },
    )
}

/// When the next of `departing` changes on its own: its beat, else its end.
pub open spec fn earliest(departing: Seq<Leaving>) -> Option<u64>
    decreases departing.len(),
{
    if departing.len() == 0 {
        None
    } else {
        let here = match departing.last().holds {
            Some(until) => until,
            None => departing.last().ends,
        };
        match earliest(departing.drop_last()) {
            Some(e) => if e <= here {
                Some(e)
            } else {
                Some(here)
            },
            None => Some(here),
        }
    }
}

/// A copy of a departure.
fn copy_departing(d: &Departing) -> (r: Departing)
    ensures
        r@ == d@,
{
    Departing { note: copy_note(&d.note), holds: d.holds, ends: d.ends }
}

impl Ledger {
    /// End every beat that has run, drop every departure that has ended, and
    /// name the resolved ones whose files are now the caller's to remove. A
    /// resolved id is remembered either way, so a removal that fails costs the
    /// file rather than a second departure.
    pub fn settle(&mut self, now: u64) -> (r: Settled)
        ensures
            final(self)@ == settled(old(self)@, now).0,
            r@ == settled(old(self)@, now).1,
    {
        let ghost start = self@;
        let before = self.departing.len();
        let mut kept: Vec<Departing> = Vec::new();
        let mut prune: Vec<String> = Vec::new();
        let mut i: usize = 0;
        assert(leaving_view(kept@) =~= Seq::<Leaving>::empty());
        assert(ids_view(prune@) =~= Seq::<Seq<char>>::empty());
        while i < self.departing.len()
            invariant
                i <= self.departing@.len(),
                self@.listed == start.listed,
                leaving_view(self.departing@) == start.departing,
                ({
                    let d = drop_ended(start.departing.take(i as int), start.departed, now);
                    &&& leaving_view(kept@) == d.kept
                    &&& ids_view(self.departed@) == d.departed
                    &&& ids_view(prune@) == d.prune
                }),
            decreases self.departing@.len() - i,
        {
            let ghost d = drop_ended(start.departing.take(i as int), start.departed, now);
            proof {
                assert(start.departing.take(i as int + 1).drop_last() =~= start.departing.take(i as int));
                assert(start.departing.take(i as int + 1).last() == self.departing@[i as int]@);
            }
            let gone = copy_departing(&self.departing[i]);
            if now < gone.ends {
                kept.push(gone);
                assert(leaving_view(kept@) =~= d.kept.push(self.departing@[i as int]@));
            } else if gone.note.status == Status::Resolved {
                if !holds_id(&self.departed, gone.note.id.as_str()) {
                    self.departed.push(gone.note.id.clone());
                    assert(ids_view(self.departed@) =~= d.departed.push(gone.note.id@));
                }
                prune.push(gone.note.id.clone());
                assert(ids_view(prune@) =~= d.prune.push(gone.note.id@));
            }
            i += 1;
        }
        assert(start.departing.take(i as int) =~= start.departing);
        let ghost dropped = drop_ended(start.departing, start.departed, now);
        let mut sweeping: Vec<String> = Vec::new();
        let mut ended: Vec<Departing> = Vec::new();
        let mut k: usize = 0;
        assert(ids_view(sweeping@) =~= Seq::<Seq<char>>::empty());
        while k < kept.len()
            invariant
                k <= kept@.len(),
                leaving_view(kept@) == dropped.kept,
                leaving_view(ended@) == beats_ended(dropped.kept.take(k as int), now),
                ids_view(sweeping@) == swept_ids(dropped.kept.take(k as int), now),
            decreases kept@.len() - k,
        {
            proof {
                assert(dropped.kept.take(k as int + 1).drop_last() =~= dropped.kept.take(k as int));
                assert(dropped.kept.take(k as int + 1).last() == kept@[k as int]@);
            }
            let gone = copy_departing(&kept[k]);
            let ghost prior = leaving_view(ended@);
            let ghost g = kept@[k as int]@;
            let ghost t = dropped.kept.take(k as int + 1);
            let ghost next = if beat_run(g, now) {
                Leaving { holds: None, ..g }
            } else {
                g
            };
            proof {
                assert(t[k as int] == g);
                assert(beats_ended(t, now) =~= beats_ended(dropped.kept.take(k as int), now).push(next));
            }
            let run = match gone.holds {
                Some(until) => now >= until,
                None => false,
            };
            if run {
                sweeping.push(gone.note.id.clone());
                assert(ids_view(sweeping@) =~= swept_ids(dropped.kept.take(k as int), now).push(gone.note.id@));
                ended.push(Departing { holds: None, ..gone });
            } else {
                ended.push(gone);
            }
            assert(leaving_view(ended@) =~= prior.push(next));
            k += 1;
        }
        assert(dropped.kept.take(k as int) =~= dropped.kept);
        let changed = ended.len() != before;
        self.departing = ended;
        assert(self@.departing == leaving_view(self.departing@));
        assert(self@.departed == ids_view(self.departed@));
        Settled { changed, sweeping, prune }
    }

    /// When a beat next runs out or a departure next ends; nothing with
    /// nothing leaving, so an idle pane owns no clock for this.
    pub fn ends_in(&self) -> (r: Option<u64>)
        ensures
            r == earliest(self@.departing),
    {
        let mut best: Option<u64> = None;
        let mut i: usize = 0;
        while i < self.departing.len()
            invariant
                i <= self.departing@.len(),
                best == earliest(self@.departing.take(i as int)),
            decreases self.departing@.len() - i,
        {
            proof {
                assert(self@.departing.take(i as int + 1).drop_last() =~= self@.departing.take(i as int));
                assert(self@.departing.take(i as int + 1).last() == self.departing@[i as int]@);
            }
            let gone = &self.departing[i];
            let here = match gone.holds {
                Some(until) => until,
                None => gone.ends,
            };
            best = match best {
                Some(e) => if e <= here {
                    Some(e)
                } else {
                    Some(here)
                },
                None => Some(here),
            };
            i += 1;
        }
        assert(self@.departing.take(i as int) =~= self@.departing);
        best
    }

    /// Every note the next collect places: the ones listed and the ones still
    /// leaving, in that order.
    pub fn drawn(&self) -> (r: Vec<Note>)
        ensures
            notes_view(r@) == self@.listed + self@.departing.map_values(|gone: Leaving| gone.note),
    {
        let mut out: Vec<Note> = Vec::new();
        let mut i: usize = 0;
        while i < self.listed.len()
            invariant
                i <= self.listed@.len(),
                notes_view(out@) == self@.listed.take(i as int),
            decreases self.listed@.len() - i,
        {
            let ghost prior = notes_view(out@);
            out.push(copy_note(&self.listed[i]));
            assert(self@.listed[i as int] == self.listed@[i as int]@);
            assert(notes_view(out@) =~= prior.push(self.listed@[i as int]@));
            assert(self@.listed.take(i as int + 1) =~= self@.listed.take(i as int).push(self@.listed[i as int]));
            i += 1;
        }
        let mut j: usize = 0;
        while j < self.departing.len()
            invariant
                j <= self.departing@.len(),
                notes_view(out@) == self@.listed + self@.departing.take(j as int).map_values(|gone: Leaving| gone.note),
            decreases self.departing@.len() - j,
        {
            let ghost prior = notes_view(out@);
            out.push(copy_note(&self.departing[j].note));
            assert(self@.departing[j as int] == self.departing@[j as int]@);
            assert(notes_view(out@) =~= prior.push(self.departing@[j as int].note@));
            assert(self@.departing.take(j as int + 1).map_values(|gone: Leaving| gone.note) =~= self@.departing.take(
                j as int,
            ).map_values(|gone: Leaving| gone.note).push(self@.departing[j as int].note));
            assert(notes_view(out@) =~= self@.listed + self@.departing.take(j as int + 1).map_values(
                |gone: Leaving| gone.note,
            ));
            j += 1;
        }
        assert(self@.departing.take(j as int) =~= self@.departing);
        out
    }
}

/// Whether no two of `notes` share an id.
pub open spec fn distinct_ids(notes: Seq<NoteView>) -> bool {
    forall|i: int, j: int| 0 <= i < j < notes.len() ==> #[trigger] notes[i].id != #[trigger] notes[j].id
}

/// Whether every note of a walk's kept notes is neither leaving nor departed.
pub open spec fn kept_apart(w: Walked, departed: Seq<Seq<char>>) -> bool {
    forall|i: int|
        0 <= i < w.listed.len() ==> !leaving_id(w.departing, #[trigger] w.listed[i].id) && !departed.contains(
            w.listed[i].id,
        )
}

/// Walking a listing with no id twice keeps every kept note apart from the
/// departures, and keeps only notes the listing holds.
proof fn lemma_take_notes_apart(w0: Walked, notes: Seq<NoteView>, previous: Seq<NoteView>, departed: Seq<Seq<char>>, now: u64)
    requires
        w0.listed.len() == 0,
        distinct_ids(notes),
    ensures
        kept_apart(take_notes(w0, notes, previous, departed, now), departed),
        forall|i: int|
            0 <= i < take_notes(w0, notes, previous, departed, now).listed.len() ==> has_id(
                notes,
                #[trigger] take_notes(w0, notes, previous, departed, now).listed[i].id,
            ),
    decreases notes.len(),
{
    if notes.len() > 0 {
        let front = notes.drop_last();
        assert(distinct_ids(front)) by {
            assert forall|i: int, j: int| 0 <= i < j < front.len() implies #[trigger] front[i].id != #[trigger] front[j].id by {
                assert(front[i] == notes[i]);
                assert(front[j] == notes[j]);
            }
        }
        lemma_take_notes_apart(w0, front, previous, departed, now);
        let before = take_notes(w0, front, previous, departed, now);
        let note = notes.last();
        let w = take_notes(w0, notes, previous, departed, now);
        assert(w == take_note(before, note, previous, departed, now));
        assert forall|i: int| 0 <= i < before.listed.len() implies has_id(notes, #[trigger] before.listed[i].id) && before.listed[i].id != note.id by {
            let j = choose|j: int| 0 <= j < front.len() && #[trigger] front[j].id == before.listed[i].id;
            assert(notes[j] == front[j]);
            assert(notes[notes.len() - 1] == note);
            assert(j < notes.len() - 1);
        }
        if leaving_id(before.departing, note.id) || departed.contains(note.id) {
        } else if note.status == Status::Resolved {
            assert forall|i: int| 0 <= i < w.listed.len() implies !leaving_id(w.departing, #[trigger] w.listed[i].id) by {
                assert(w.listed[i] == before.listed[i]);
                if leaving_id(w.departing, w.listed[i].id) {
                    let k = choose|k: int| 0 <= k < w.departing.len() && #[trigger] w.departing[k].note.id == w.listed[i].id;
                    if k < before.departing.len() {
                        assert(w.departing[k] == before.departing[k]);
                    }
                }
            }
        } else {
            assert forall|i: int| 0 <= i < w.listed.len() implies !leaving_id(w.departing, #[trigger] w.listed[i].id)
                && !departed.contains(w.listed[i].id) && has_id(notes, w.listed[i].id) by {
                if i < before.listed.len() {
                    assert(w.listed[i] == before.listed[i]);
                } else {
                    assert(w.listed[i] == note);
                    assert(notes[notes.len() - 1] == note);
                }
            }
        }
    }
}

/// Letting the last listing go keeps every kept note apart from the
/// departures, and keeps the kept notes as they were.
proof fn lemma_let_go_apart(w0: Walked, previous: Seq<NoteView>, departed: Seq<Seq<char>>, now: u64)
    requires
        kept_apart(w0, departed),
    ensures
        kept_apart(let_go_all(w0, previous, now), departed),
        let_go_all(w0, previous, now).listed == w0.listed,
    decreases previous.len(),
{
    if previous.len() > 0 {
        lemma_let_go_apart(w0, previous.drop_last(), departed, now);
        let before = let_go_all(w0, previous.drop_last(), now);
        let gone = previous.last();
        let w = let_go_all(w0, previous, now);
        if !(has_id(before.listed, gone.id) || leaving_id(before.departing, gone.id)) {
            assert forall|i: int| 0 <= i < w.listed.len() implies !leaving_id(w.departing, #[trigger] w.listed[i].id) by {
                if leaving_id(w.departing, w.listed[i].id) {
                    let k = choose|k: int| 0 <= k < w.departing.len() && #[trigger] w.departing[k].note.id == w.listed[i].id;
                    if k < before.departing.len() {
                        assert(w.departing[k] == before.departing[k]);
                    } else {
                        assert(before.listed[i].id == gone.id);
                    }
                }
            }
        }
    }
}

/// No note is drawn twice: once a listing with no id twice is taken, no note
/// kept from it is also leaving, or among the resolved ones already gone.
pub proof fn law_a_listed_note_is_never_also_leaving(l: LedgerView, notes: Seq<NoteView>, now: u64)
    requires
        distinct_ids(notes),
    ensures
        forall|i: int|
            0 <= i < reloaded(l, notes, now).0.listed.len() ==> !leaving_id(
                reloaded(l, notes, now).0.departing,
                #[trigger] reloaded(l, notes, now).0.listed[i].id,
            ) && !reloaded(l, notes, now).0.departed.contains(reloaded(l, notes, now).0.listed[i].id),
{
    let departed = still_listed(l.departed, notes);
    let w0 = Walked { listed: Seq::empty(), departing: l.departing, changes: Seq::empty() };
    lemma_take_notes_apart(w0, notes, l.listed, departed, now);
    lemma_let_go_apart(take_notes(w0, notes, l.listed, departed, now), l.listed, departed, now);
}

/// Dropping the ended departures remembers every id it names for removal.
proof fn lemma_pruned_remembered(departing: Seq<Leaving>, departed: Seq<Seq<char>>, now: u64)
    ensures
        forall|i: int|
            0 <= i < drop_ended(departing, departed, now).prune.len() ==> drop_ended(departing, departed, now).departed.contains(
                #[trigger] drop_ended(departing, departed, now).prune[i],
            ),
        forall|id: Seq<char>| departed.contains(id) ==> #[trigger] drop_ended(departing, departed, now).departed.contains(id),
    decreases departing.len(),
{
    if departing.len() > 0 {
        lemma_pruned_remembered(departing.drop_last(), departed, now);
        let before = drop_ended(departing.drop_last(), departed, now);
        let d = drop_ended(departing, departed, now);
        let gone = departing.last();
        if !(now < gone.ends) && gone.note.status == Status::Resolved {
            assert forall|id: Seq<char>| before.departed.contains(id) implies #[trigger] d.departed.contains(id) by {
                if !before.departed.contains(gone.note.id) {
                    let k = choose|k: int| 0 <= k < before.departed.len() && before.departed[k] == id;
                    assert(d.departed[k] == id);
                }
            }
            assert forall|i: int| 0 <= i < d.prune.len() implies d.departed.contains(#[trigger] d.prune[i]) by {
                if i < before.prune.len() {
                    assert(d.prune[i] == before.prune[i]);
                } else if !before.departed.contains(gone.note.id) {
                    assert(d.departed[d.departed.len() - 1] == gone.note.id);
                }
            }
        }
    }
}

/// A settle remembers, as departed, every id whose file it hands over.
pub proof fn law_a_pruned_note_is_remembered(l: LedgerView, now: u64)
    ensures
        forall|i: int|
            0 <= i < settled(l, now).1.prune.len() ==> settled(l, now).0.departed.contains(
                #[trigger] settled(l, now).1.prune[i],
            ),
{
    lemma_pruned_remembered(l.departing, l.departed, now);
}

/// The ids a walk of a listing keeps, or resolves, are the listing's own and
/// were not departed.
proof fn lemma_walk_from_listing(w0: Walked, notes: Seq<NoteView>, previous: Seq<NoteView>, departed: Seq<Seq<char>>, now: u64)
    requires
        w0.listed.len() == 0,
        w0.changes.len() == 0,
    ensures
        forall|i: int|
            0 <= i < take_notes(w0, notes, previous, departed, now).listed.len() ==> has_id(
                notes,
                #[trigger] take_notes(w0, notes, previous, departed, now).listed[i].id,
            ) && !departed.contains(take_notes(w0, notes, previous, departed, now).listed[i].id),
        forall|i: int|
            0 <= i < take_notes(w0, notes, previous, departed, now).changes.len() ==> (#[trigger] take_notes(
                w0,
                notes,
                previous,
                departed,
                now,
            ).changes[i] matches Moved::Resolved(id) ==> has_id(notes, id) && !departed.contains(id)),
    decreases notes.len(),
{
    if notes.len() > 0 {
        let front = notes.drop_last();
        lemma_walk_from_listing(w0, front, previous, departed, now);
        let before = take_notes(w0, front, previous, departed, now);
        let note = notes.last();
        let w = take_notes(w0, notes, previous, departed, now);
        assert(notes[notes.len() - 1] == note);
        assert forall|i: int| 0 <= i < w.listed.len() implies has_id(notes, #[trigger] w.listed[i].id) && !departed.contains(
            w.listed[i].id,
        ) by {
            if i < before.listed.len() {
                assert(w.listed[i] == before.listed[i]);
                let j = choose|j: int| 0 <= j < front.len() && #[trigger] front[j].id == before.listed[i].id;
                assert(notes[j] == front[j]);
            }
        }
        assert forall|i: int| 0 <= i < w.changes.len() implies (#[trigger] w.changes[i] matches Moved::Resolved(id)
            ==> has_id(notes, id) && !departed.contains(id)) by {
            if i < before.changes.len() {
                assert(w.changes[i] == before.changes[i]);
                if let Moved::Resolved(id) = before.changes[i] {
                    let j = choose|j: int| 0 <= j < front.len() && #[trigger] front[j].id == id;
                    assert(notes[j] == front[j]);
                }
            }
        }
    }
}

/// Letting the last listing go resolves nothing and keeps nothing new.
proof fn lemma_let_go_only_leaves(w0: Walked, previous: Seq<NoteView>, now: u64)
    ensures
        let_go_all(w0, previous, now).listed == w0.listed,
        let_go_all(w0, previous, now).changes.len() >= w0.changes.len(),
        forall|i: int| 0 <= i < w0.changes.len() ==> #[trigger] let_go_all(w0, previous, now).changes[i] == w0.changes[i],
        forall|i: int|
            w0.changes.len() <= i < let_go_all(w0, previous, now).changes.len() ==> #[trigger] let_go_all(
                w0,
                previous,
                now,
            ).changes[i] is Left,
    decreases previous.len(),
{
    if previous.len() > 0 {
        lemma_let_go_only_leaves(w0, previous.drop_last(), now);
    }
}

/// Whether the departed ids the store still lists include `id`: exactly where
/// it was departed and the store lists it.
proof fn lemma_still_listed(departed: Seq<Seq<char>>, notes: Seq<NoteView>, id: Seq<char>)
    ensures
        still_listed(departed, notes).contains(id) == (departed.contains(id) && has_id(notes, id)),
    decreases departed.len(),
{
    if departed.len() > 0 {
        let front = departed.drop_last();
        lemma_still_listed(front, notes, id);
        let before = still_listed(front, notes);
        let now = still_listed(departed, notes);
        if departed.contains(id) && has_id(notes, id) {
            let k = choose|k: int| 0 <= k < departed.len() && departed[k] == id;
            if k < front.len() {
                assert(front[k] == id);
                let m = choose|m: int| 0 <= m < before.len() && before[m] == id;
                assert(now[m] == id);
            } else {
                assert(now[now.len() - 1] == id);
            }
        }
        if now.contains(id) {
            let m = choose|m: int| 0 <= m < now.len() && now[m] == id;
            if m < before.len() {
                assert(before[m] == id);
                let k = choose|k: int| 0 <= k < front.len() && front[k] == id;
                assert(departed[k] == id);
            } else {
                assert(departed[departed.len() - 1] == id);
            }
        }
    }
}

/// A resolved note whose departure has run is never drawn again, nor resolved
/// again, whatever the store still lists the next time it is read.
pub proof fn law_a_pruned_note_never_returns(l: LedgerView, settle_at: u64, notes: Seq<NoteView>, now: u64, id: Seq<char>)
    requires
        settled(l, settle_at).1.prune.contains(id),
    ensures
        !has_id(reloaded(settled(l, settle_at).0, notes, now).0.listed, id),
        !reloaded(settled(l, settle_at).0, notes, now).1.contains(Moved::Resolved(id)),
{
    let l1 = settled(l, settle_at).0;
    law_a_pruned_note_is_remembered(l, settle_at);
    let k = choose|k: int| 0 <= k < settled(l, settle_at).1.prune.len() && settled(l, settle_at).1.prune[k] == id;
    assert(l1.departed.contains(id));
    let departed = still_listed(l1.departed, notes);
    lemma_still_listed(l1.departed, notes, id);
    let w0 = Walked { listed: Seq::empty(), departing: l1.departing, changes: Seq::empty() };
    lemma_walk_from_listing(w0, notes, l1.listed, departed, now);
    let w1 = take_notes(w0, notes, l1.listed, departed, now);
    lemma_let_go_only_leaves(w1, l1.listed, now);
    let done = let_go_all(w1, l1.listed, now);
    if has_id(done.listed, id) {
        let i = choose|i: int| 0 <= i < done.listed.len() && #[trigger] done.listed[i].id == id;
        assert(w1.listed[i].id == id);
    }
    if done.changes.contains(Moved::Resolved(id)) {
        let i = choose|i: int| 0 <= i < done.changes.len() && done.changes[i] == Moved::Resolved(id);
        if i < w1.changes.len() {
            assert(w1.changes[i] == Moved::Resolved(id));
        } else {
            assert(done.changes[i] is Left);
        }
    }
}

/// Where an event goes while the note box is open.
#[derive(Debug, Clone, Copy, PartialEq, Eq, Structural)]
pub enum BoxRoute {
    /// Enter: write the note and close the box.
    Send,
    /// Esc, or a press outside the box: close it, write nothing, and do nothing
    /// else with the event.
    Cancel,
    /// A key for the editor, Alt+Enter's newline included.
    Edit(KeyEvent),
    /// Pasted text for the editor.
    Paste,
    /// A press inside the box, or a key's release: nothing.
    Inert,
    /// Not the box's to answer: the wheel, a resize, focus and the pointer
    /// moving, which the pane takes as it always does.
    Through,
}

/// Whether the cell at `column`, `row` is inside `over`.
pub open spec fn rect_holds(over: Rect, column: u16, row: u16) -> bool {
    over.x <= column < crate::input::sat_add16(over.x, over.width) && over.y <= row
        < crate::input::sat_add16(over.y, over.height)
}

/// Where `event` goes while the box is open over `over`, the cells it drew on
/// the last paint: every key is the box's, Enter sending and Esc cancelling;
/// a press outside it cancels; the rest passes through.
pub open spec fn spec_box_route(event: Event, over: Option<Rect>) -> BoxRoute {
    match event {
        Event::Key(key) => if key.kind == KeyKind::Release {
            BoxRoute::Inert
        } else if key.code == KeyCode::Enter && !key.modifiers.alt {
            BoxRoute::Send
        } else if key.code == KeyCode::Esc {
            BoxRoute::Cancel
        } else {
            BoxRoute::Edit(key)
        },
        Event::Paste => BoxRoute::Paste,
        Event::Mouse(mouse) => match mouse.kind {
            MouseKind::Down(_) => if over matches Some(r) && rect_holds(r, mouse.column, mouse.row) {
                BoxRoute::Inert
            } else {
                BoxRoute::Cancel
            },
            _ => BoxRoute::Through,
        },
        _ => BoxRoute::Through,
    }
}

/// Where `event` goes while the box is open over `over`.
pub fn box_route(event: &Event, over: Option<Rect>) -> (r: BoxRoute)
    ensures
        r == spec_box_route(*event, over),
{
    match event {
        Event::Key(key) => {
            if key.kind == KeyKind::Release {
                BoxRoute::Inert
            } else if key.code == KeyCode::Enter && !key.modifiers.alt {
                BoxRoute::Send
            } else if key.code == KeyCode::Esc {
                BoxRoute::Cancel
            } else {
                BoxRoute::Edit(*key)
            }
        },
        Event::Paste => BoxRoute::Paste,
        Event::Mouse(mouse) => match mouse.kind {
            MouseKind::Down(_) => {
                let inside = match over {
                    Some(r) => {
                        r.x <= mouse.column && mouse.column < crate::input::add16(r.x, r.width) && r.y <= mouse.row
                            && mouse.row < crate::input::add16(r.y, r.height)
                    },
                    None => false,
                };
                if inside {
                    BoxRoute::Inert
                } else {
                    BoxRoute::Cancel
                }
            },
            _ => BoxRoute::Through,
        },
        _ => BoxRoute::Through,
    }
}

/// A note file the store could not read, as values: the name the footer
/// gives the file, and why it was skipped.
pub open spec fn skip_view(e: (String, String)) -> (Seq<char>, Seq<char>) {
    (e.0@, e.1@)
}

/// The skipped files, as values.
pub open spec fn skips_view(v: Seq<(String, String)>) -> Seq<(Seq<char>, Seq<char>)> {
    Seq::new(v.len(), |i: int| skip_view(v[i]))
}

/// Whether `a` comes before `b`, character by character, a prefix first.
pub open spec fn text_before(a: Seq<char>, b: Seq<char>) -> bool
    decreases a.len(),
{
    if a.len() == 0 {
        b.len() > 0
    } else if b.len() == 0 {
        false
    } else if a[0] != b[0] {
        (a[0] as u32) < (b[0] as u32)
    } else {
        text_before(a.drop_first(), b.drop_first())
    }
}

/// Whether skip `x` sorts before skip `y`: by the file, then by why.
pub open spec fn skip_before(x: (Seq<char>, Seq<char>), y: (Seq<char>, Seq<char>)) -> bool {
    text_before(x.0, y.0) || (x.0 == y.0 && text_before(x.1, y.1))
}

/// What the footer says of a listing that skipped `skips`, `first` being
/// the one that sorts first: that file and why, and how many more.
pub open spec fn skipped_message(first: (Seq<char>, Seq<char>), count: nat) -> Seq<char> {
    if count <= 1 {
        "skipped the note file "@ + first.0 + ": "@ + first.1
    } else {
        "skipped the note file "@ + first.0 + " and "@ + crate::text::decimal((count - 1) as nat) + " more: "@
            + first.1
    }
}

/// What the last listing had to say for itself, so the footer's alert is
/// said when that changes and not on every wake the agent causes. The store's
/// note files lie in its one directory, so they order as their names do.
pub struct Alerts {
    /// The files the last listing skipped, each with why.
    pub skipped: Vec<(String, String)>,
    /// Why the store could not be read, where it could not.
    pub failed: Option<String>,
}

/// Whether `first` is a skip of `now` that none of `now` sorts before.
pub open spec fn is_first(now: Seq<(Seq<char>, Seq<char>)>, first: (Seq<char>, Seq<char>)) -> bool {
    now.contains(first) && forall|k: int| 0 <= k < now.len() ==> !skip_before(#[trigger] now[k], first)
}

/// Whether a listing left what is remembered of it as `skipped2` and
/// `failed2` and earned the alert `said`: where the store could not be
/// read, the sentence saying so, unless it was the last one said; where it
/// could, the first file it skipped and how many more, unless it skipped the
/// same files as the last listing, in any order, or none. A store that
/// reads whole again is not news.
pub open spec fn alerted(
    skipped: Seq<(Seq<char>, Seq<char>)>,
    failed: Option<Seq<char>>,
    listing: Result<Seq<(Seq<char>, Seq<char>)>, Seq<char>>,
    skipped2: Seq<(Seq<char>, Seq<char>)>,
    failed2: Option<Seq<char>>,
    said: Option<Seq<char>>,
) -> bool {
    match listing {
        Err(e) => {
            let told = "could not read the notes: "@ + e;
            &&& skipped2 == skipped
            &&& failed2 == Some(told)
            &&& said == (if failed == Some(told) {
                None
            } else {
                Some(told)
            })
        },
        Ok(now) => {
            &&& failed2 is None
            &&& if now.to_multiset() == skipped.to_multiset() {
                skipped2 == skipped && said is None
            } else if now.len() == 0 {
                skipped2 == now && said is None
            } else {
                skipped2 == now && exists|f: (Seq<char>, Seq<char>)|
                    is_first(now, f) && said == Some(skipped_message(f, now.len()))
            }
        },
    }
}

/// How many of `v` are `x`.
fn count_of(v: &Vec<(String, String)>, x: &(String, String)) -> (r: usize)
    ensures
        r == skips_view(v@).to_multiset().count(skip_view(*x)),
{
    broadcast use vstd::seq_lib::group_to_multiset_ensures, vstd::multiset::group_multiset_axioms;
    let mut n: usize = 0;
    let mut i: usize = 0;
    while i < v.len()
        invariant
            i <= v@.len(),
            n <= i,
            n == skips_view(v@).take(i as int).to_multiset().count(skip_view(*x)),
        decreases v@.len() - i,
    {
        let ghost before = skips_view(v@).take(i as int);
        let ghost e = skip_view(v@[i as int]);
        proof {
            assert(skips_view(v@).take(i + 1) =~= before.push(e));
            vstd::seq_lib::to_multiset_build(before, e);
        }
        if same_str(v[i].0.as_str(), x.0.as_str()) && same_str(v[i].1.as_str(), x.1.as_str()) {
            assert(e == skip_view(*x));
            n += 1;
        } else {
            assert(e != skip_view(*x));
        }
        i += 1;
    }
    assert(skips_view(v@).take(v@.len() as int) =~= skips_view(v@));
    n
}

/// Whether `a` and `b` hold the same skips, in any order.
fn same_skips(a: &Vec<(String, String)>, b: &Vec<(String, String)>) -> (r: bool)
    ensures
        r == (skips_view(a@).to_multiset() == skips_view(b@).to_multiset()),
{
    broadcast use vstd::seq_lib::group_to_multiset_ensures, vstd::multiset::group_multiset_axioms;
    let ghost ma = skips_view(a@).to_multiset();
    let ghost mb = skips_view(b@).to_multiset();
    let mut i: usize = 0;
    while i < a.len()
        invariant
            i <= a@.len(),
            ma == skips_view(a@).to_multiset(),
            mb == skips_view(b@).to_multiset(),
            forall|k: int| 0 <= k < i ==> ma.count(#[trigger] skips_view(a@)[k]) == mb.count(skips_view(a@)[k]),
        decreases a@.len() - i,
    {
        let x = &a[i];
        if count_of(a, x) != count_of(b, x) {
            assert(ma.count(skips_view(a@)[i as int]) != mb.count(skips_view(a@)[i as int]));
            return false;
        }
        i += 1;
    }
    let mut j: usize = 0;
    while j < b.len()
        invariant
            j <= b@.len(),
            ma == skips_view(a@).to_multiset(),
            mb == skips_view(b@).to_multiset(),
            forall|k: int| 0 <= k < a@.len() ==> ma.count(#[trigger] skips_view(a@)[k]) == mb.count(skips_view(a@)[k]),
            forall|k: int| 0 <= k < j ==> ma.count(#[trigger] skips_view(b@)[k]) == mb.count(skips_view(b@)[k]),
        decreases b@.len() - j,
    {
        let x = &b[j];
        if count_of(a, x) != count_of(b, x) {
            assert(ma.count(skips_view(b@)[j as int]) != mb.count(skips_view(b@)[j as int]));
            return false;
        }
        j += 1;
    }
    assert(ma =~= mb) by {
        assert forall|x: (Seq<char>, Seq<char>)| ma.count(x) == mb.count(x) by {
            if skips_view(a@).contains(x) {
                let k = choose|k: int| 0 <= k < skips_view(a@).len() && skips_view(a@)[k] == x;
                assert(ma.count(skips_view(a@)[k]) == mb.count(skips_view(a@)[k]));
            } else if skips_view(b@).contains(x) {
                let k = choose|k: int| 0 <= k < skips_view(b@).len() && skips_view(b@)[k] == x;
                assert(ma.count(skips_view(b@)[k]) == mb.count(skips_view(b@)[k]));
            } else {
                assert(ma.count(x) == 0);
                assert(mb.count(x) == 0);
            }
        }
    }
    true
}

/// Sorting before is transitive.
proof fn lemma_text_before_transitive(a: Seq<char>, b: Seq<char>, c: Seq<char>)
    requires
        text_before(a, b),
        text_before(b, c),
    ensures
        text_before(a, c),
    decreases a.len(),
{
    if a.len() > 0 && b.len() > 0 && c.len() > 0 && a[0] == b[0] && b[0] == c[0] {
        lemma_text_before_transitive(a.drop_first(), b.drop_first(), c.drop_first());
    }
}

/// Nothing sorts before itself.
proof fn lemma_text_before_irreflexive(a: Seq<char>)
    ensures
        !text_before(a, a),
    decreases a.len(),
{
    if a.len() > 0 {
        lemma_text_before_irreflexive(a.drop_first());
    }
}

/// Sorting one skip before another is transitive.
proof fn lemma_skip_before_transitive(x: (Seq<char>, Seq<char>), y: (Seq<char>, Seq<char>), z: (Seq<char>, Seq<char>))
    requires
        skip_before(x, y),
        skip_before(y, z),
    ensures
        skip_before(x, z),
{
    if text_before(x.0, y.0) && text_before(y.0, z.0) {
        lemma_text_before_transitive(x.0, y.0, z.0);
    } else if text_before(x.1, y.1) && text_before(y.1, z.1) && x.0 == y.0 && y.0 == z.0 {
        lemma_text_before_transitive(x.1, y.1, z.1);
    }
}

/// Whether `a` sorts before `b`.
fn text_is_before(a: &str, b: &str) -> (r: bool)
    ensures
        r == text_before(a@, b@),
{
    let x = crate::text::chars_of(a);
    let y = crate::text::chars_of(b);
    let mut i: usize = 0;
    assert(a@.skip(0) =~= a@);
    assert(b@.skip(0) =~= b@);
    while i < x.len() && i < y.len()
        invariant
            i <= x@.len(),
            i <= y@.len(),
            x@ == a@,
            y@ == b@,
            text_before(a@, b@) == text_before(a@.skip(i as int), b@.skip(i as int)),
        decreases x@.len() - i,
    {
        if x[i] != y[i] {
            return (x[i] as u32) < (y[i] as u32);
        }
        assert(a@.skip(i as int).drop_first() =~= a@.skip(i + 1));
        assert(b@.skip(i as int).drop_first() =~= b@.skip(i + 1));
        i += 1;
    }
    i == x.len() && i < y.len()
}

/// Whether skip `x` sorts before skip `y`.
fn skip_is_before(x: &(String, String), y: &(String, String)) -> (r: bool)
    ensures
        r == skip_before(skip_view(*x), skip_view(*y)),
{
    text_is_before(x.0.as_str(), y.0.as_str()) || (same_str(x.0.as_str(), y.0.as_str()) && text_is_before(
        x.1.as_str(),
        y.1.as_str(),
    ))
}

/// Where the skip that sorts first is: none sorts before it.
fn first_skip(v: &Vec<(String, String)>) -> (r: usize)
    requires
        v@.len() > 0,
    ensures
        r < v@.len(),
        forall|k: int| 0 <= k < v@.len() ==> !skip_before(#[trigger] skips_view(v@)[k], skips_view(v@)[r as int]),
{
    let mut m: usize = 0;
    let mut i: usize = 1;
    proof {
        lemma_text_before_irreflexive(v@[0].0@);
        lemma_text_before_irreflexive(v@[0].1@);
    }
    while i < v.len()
        invariant
            1 <= i <= v@.len(),
            m < i,
            forall|k: int| 0 <= k < i ==> !skip_before(#[trigger] skips_view(v@)[k], skips_view(v@)[m as int]),
        decreases v@.len() - i,
    {
        if skip_is_before(&v[i], &v[m]) {
            proof {
                let vs = skips_view(v@);
                assert forall|k: int| 0 <= k <= i implies !skip_before(#[trigger] vs[k], vs[i as int]) by {
                    if k == i {
                        lemma_text_before_irreflexive(vs[k].0);
                        lemma_text_before_irreflexive(vs[k].1);
                    } else if skip_before(vs[k], vs[i as int]) {
                        lemma_skip_before_transitive(vs[k], vs[i as int], vs[m as int]);
                    }
                }
            }
            m = i;
        }
        i += 1;
    }
    m
}

impl Default for Alerts {
    fn default() -> (r: Self)
        ensures
            r.skipped@.len() == 0,
            r.failed is None,
    {
        Alerts::new()
    }
}

impl Alerts {
    /// No listing yet: nothing skipped, nothing failed.
    pub fn new() -> (r: Self)
        ensures
            r.skipped@.len() == 0,
            r.failed is None,
    {
        Alerts { skipped: Vec::new(), failed: None }
    }

    /// The one footer alert `listing` earns, when it differs from the last:
    /// the first file skipped and how many more, or why the store could not
    /// be read. `None` when nothing changed, a store that reads whole again
    /// included: files that read again are not news. The listing is the
    /// files the store skipped, each named and with why, or the words of
    /// the store's refusal.
    pub fn of(&mut self, listing: Result<Vec<(String, String)>, String>) -> (r: Option<String>)
        ensures
            alerted(
                skips_view(old(self).skipped@),
                match old(self).failed {
                    Some(f) => Some(f@),
                    None => None,
                },
                match listing {
                    Ok(v) => Ok(skips_view(v@)),
                    Err(e) => Err(e@),
                },
                skips_view(final(self).skipped@),
                match final(self).failed {
                    Some(f) => Some(f@),
                    None => None,
                },
                match r {
                    Some(t) => Some(t@),
                    None => None,
                },
            ),
    {
        match listing {
            Err(e) => {
                let mut out: Vec<char> = Vec::new();
                crate::text::push_str(&mut out, "could not read the notes: ");
                crate::text::push_str(&mut out, e.as_str());
                let told = crate::text::string_of(out.as_slice());
                let again = match &self.failed {
                    Some(f) => same_str(f.as_str(), told.as_str()),
                    None => false,
                };
                if again {
                    None
                } else {
                    self.failed = Some(told.clone());
                    Some(told)
                }
            },
            Ok(now) => {
                self.failed = None;
                if same_skips(&now, &self.skipped) {
                    return None;
                }
                let n = now.len();
                if n == 0 {
                    self.skipped = now;
                    return None;
                }
                let m = first_skip(&now);
                let ghost first = skips_view(now@)[m as int];
                let mut out: Vec<char> = Vec::new();
                crate::text::push_str(&mut out, "skipped the note file ");
                crate::text::push_str(&mut out, now[m].0.as_str());
                if n > 1 {
                    crate::text::push_str(&mut out, " and ");
                    let more = crate::text::decimal_of((n - 1) as u64);
                    crate::text::push_all(&mut out, more.as_slice());
                    crate::text::push_str(&mut out, " more: ");
                } else {
                    crate::text::push_str(&mut out, ": ");
                }
                crate::text::push_str(&mut out, now[m].1.as_str());
                let message = crate::text::string_of(out.as_slice());
                proof {
                    assert(skips_view(now@).contains(first)) by {
                        assert(skips_view(now@)[m as int] == first);
                    }
                    assert(is_first(skips_view(now@), first));
                    assert(message@ =~= skipped_message(first, skips_view(now@).len()));
                }
                self.skipped = now;
                Some(message)
            },
        }
    }
}

} // verus!
