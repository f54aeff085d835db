use vstd::prelude::*;
use crate::ledger::{EventType, LedgerEvent, Payload};
use crate::models::{Note, Sprite, WipGroup};
use crate::table::{has_id, ids_below, insert_row, remove_row, replace_row, unique_ids};
use self::notes::reorder_rows;
use self::sprites::{insert_sprite, remove_sprite, replace_sprite, unique_sprites};

pub mod groups;
pub mod notes;
pub mod rewind;
pub mod sprites;

verus! {

/// Why a storage write was refused; the board is left as it was.
#[derive(Debug, Clone, Copy, PartialEq, Eq, Structural)]
pub enum PersistenceFault {
    /// An id counter has reached the largest `i64`.
    IdsExhausted,
    /// The next position in scope would pass the largest `i64`.
    PositionOverflow,
    /// A row with that id is already present.
    DuplicateId,
    /// The group referred to does not exist.
    MissingGroup,
    /// The group is still referred to by a note or a sprite.
    GroupInUse,
    /// A stored ledger does not have strictly increasing event ids.
    LedgerOutOfOrder,
}

#[derive(Debug, Clone, Copy, PartialEq, Eq, Structural)]
pub enum BoardError {
    /// The target id is absent.
    NotFound,
    PersistenceFailure(PersistenceFault),
}

/// The contents of the domain tables.
pub struct Tables {
    pub notes: Seq<Note>,
    pub groups: Seq<WipGroup>,
    pub sprites: Seq<Sprite>,
}

pub open spec fn empty_tables() -> Tables {
    Tables { notes: Seq::empty(), groups: Seq::empty(), sprites: Seq::empty() }
}

/// The domain tables together with the append-only ledger of every change
/// made to them.
#[derive(Debug, Clone)]
pub struct Board {
    notes: Vec<Note>,
    groups: Vec<WipGroup>,
    sprites: Vec<Sprite>,
    ledger: Vec<LedgerEvent>,
    next_note_id: i64,
    next_group_id: i64,
    next_event_id: i64,
}

/// The effect of one ledger event on the tables. An event of an unrecognised
/// kind, or whose payload is not the entity its kind names, changes nothing.
pub open spec fn apply_event(t: Tables, e: LedgerEvent) -> Tables {
    match e.payload {
        Payload::Note(n) => match e.kind {
            EventType::NoteCreated => Tables { notes: insert_row(t.notes, n), ..t },
            EventType::NoteUpdated => Tables { notes: replace_row(t.notes, n), ..t },
            EventType::NoteReordered => if has_id(t.notes, n.id) {
                Tables { notes: reorder_rows(t.notes, n.id, n.position), ..t }
            } else {
                t
            },
            EventType::NoteDeleted => Tables { notes: remove_row(t.notes, n.id), ..t },
            _ => t,
        },
        Payload::WipGroup(g) => match e.kind {
            EventType::WipGroupCreated => Tables { groups: insert_row(t.groups, g), ..t },
            EventType::WipGroupUpdated => Tables { groups: replace_row(t.groups, g), ..t },
            EventType::WipGroupDeleted => Tables { groups: remove_row(t.groups, g.id), ..t },
            _ => t,
        },
        Payload::Sprite(s) => match e.kind {
            EventType::SpriteCreated => Tables { sprites: insert_sprite(t.sprites, s), ..t },
            EventType::SpriteUpdated => Tables { sprites: replace_sprite(t.sprites, s), ..t },
            EventType::SpriteDeleted => Tables { sprites: remove_sprite(t.sprites, s.id@), ..t },
            _ => t,
        },
        Payload::Raw(_) => t,
    }
}

/// The tables reached from `t` by applying the events in order.
pub open spec fn replay_from(t: Tables, events: Seq<LedgerEvent>) -> Tables
    decreases events.len(),
{
    if events.len() == 0 {
        t
    } else {
        apply_event(replay_from(t, events.drop_last()), events.last())
    }
}

/// The tables that the ledger describes: its events applied to empty tables.
pub open spec fn replay(events: Seq<LedgerEvent>) -> Tables {
    replay_from(empty_tables(), events)
}

/// Ids strictly increase along the ledger and stay below `bound`.
pub open spec fn ledger_ordered(events: Seq<LedgerEvent>, bound: i64) -> bool {
    &&& forall|i: int, j: int|
        0 <= i < j < events.len() ==> #[trigger] events[i].id < #[trigger] events[j].id
    &&& forall|i: int| 0 <= i < events.len() ==> #[trigger] events[i].id < bound
}

/// Every note and group that the ledger mentions has an id below the counter.
pub open spec fn snapshots_below(events: Seq<LedgerEvent>, note_bound: i64, group_bound: i64) -> bool {
    forall|i: int|
        0 <= i < events.len() ==> match #[trigger] events[i].payload {
            Payload::Note(n) => n.id < note_bound,
            Payload::WipGroup(g) => g.id < group_bound,
            _ => true,
        }
}

/// Ids are unique in each table, and note and group ids stay below the
/// given bounds.
pub open spec fn tables_wf(t: Tables, note_bound: i64, group_bound: i64) -> bool {
    &&& unique_ids(t.notes)
    &&& ids_below(t.notes, note_bound)
    &&& unique_ids(t.groups)
    &&& ids_below(t.groups, group_bound)
    &&& unique_sprites(t.sprites)
}

impl Board {
    pub closed spec fn notes_view(&self) -> Seq<Note> {
        self.notes@
    }

    pub closed spec fn groups_view(&self) -> Seq<WipGroup> {
        self.groups@
    }

    pub closed spec fn sprites_view(&self) -> Seq<Sprite> {
        self.sprites@
    }

    pub closed spec fn ledger_view(&self) -> Seq<LedgerEvent> {
        self.ledger@
    }

    /// The id the next created note receives.
    pub closed spec fn note_counter(&self) -> i64 {
        self.next_note_id
    }

    /// The id the next created group receives.
    pub closed spec fn group_counter(&self) -> i64 {
        self.next_group_id
    }

    /// The id the next ledger event receives.
    pub closed spec fn event_counter(&self) -> i64 {
        self.next_event_id
    }

    pub open spec fn tables(&self) -> Tables {
        Tables { notes: self.notes_view(), groups: self.groups_view(), sprites: self.sprites_view() }
    }

    /// The tables hold exactly what replaying the ledger rebuilds.
    pub open spec fn in_sync(&self) -> bool {
        self.tables() == replay(self.ledger_view())
    }

    pub open spec fn wf(&self) -> bool {
        &&& tables_wf(self.tables(), self.note_counter(), self.group_counter())
        &&& ledger_ordered(self.ledger_view(), self.event_counter())
        &&& snapshots_below(self.ledger_view(), self.note_counter(), self.group_counter())
    }

    /// Everything of `self` but the tables and the ledger is as in `other`.
    pub open spec fn same_counters(&self, other: &Board) -> bool {
        &&& self.note_counter() == other.note_counter()
        &&& self.group_counter() == other.group_counter()
        &&& self.event_counter() == other.event_counter()
    }

    /// `after` is `self` with the tables replaced by `t` and one event of
    /// `kind` carrying `payload` appended to the ledger; `t` is exactly what
    /// applying that event to the old tables gives.
    pub open spec fn commits(
        &self,
        after: &Board,
        t: Tables,
        kind: EventType,
        payload: Payload,
        now: i64,
    ) -> bool {
        let e = LedgerEvent { id: self.event_counter(), timestamp: now, kind, payload };
        &&& after.tables() == t
        &&& t == apply_event(self.tables(), e)
        &&& after.ledger_view() == self.ledger_view().push(e)
        &&& after.event_counter() == self.event_counter() + 1
    }

    /// Empty tables and an empty ledger.
    pub fn new() -> (r: Board)
        ensures
            r.wf(),
            r.in_sync(),
            r.tables() == empty_tables(),
            r.ledger_view() == Seq::<LedgerEvent>::empty(),
            r.note_counter() == 1,
            r.group_counter() == 1,
            r.event_counter() == 1,
    {
        let r = Board {
            notes: Vec::new(),
            groups: Vec::new(),
            sprites: Vec::new(),
            ledger: Vec::new(),
            next_note_id: 1,
            next_group_id: 1,
            next_event_id: 1,
        };
        assert(r.tables() == empty_tables());
        r
    }

    /// The ledger, oldest event first.
    pub fn events(&self) -> (r: &Vec<LedgerEvent>)
        ensures
            r@ == self.ledger_view(),
    {
        &self.ledger
    }

    /// Appends an event to the ledger and returns its id. Callers make it the
    /// last step of a change, after every check has passed, so that the
    /// change and its record are kept or refused together.
    fn append_event(&mut self, kind: EventType, payload: Payload, now: i64) -> (r: i64)
        requires
            old(self).event_counter() < i64::MAX,
        ensures
            r == old(self).event_counter(),
            final(self).ledger_view() == old(self).ledger_view().push(
                LedgerEvent { id: r, timestamp: now, kind, payload },
            ),
            final(self).event_counter() == r + 1,
            final(self).tables() == old(self).tables(),
            final(self).note_counter() == old(self).note_counter(),
            final(self).group_counter() == old(self).group_counter(),
    {
        let id = self.next_event_id;
        self.ledger.push(LedgerEvent { id, timestamp: now, kind, payload });
        self.next_event_id = id + 1;
        id
    }
}

} // verus!

verus! {

pub proof fn lemma_replay_push(events: Seq<LedgerEvent>, e: LedgerEvent)
    ensures
        replay(events.push(e)) == apply_event(replay(events), e),
{
    assert(events.push(e).drop_last() =~= events);
}

/// Round trip: when each change to the tables, starting from empty ones, is
/// the effect of the event recorded with it (as every gateway operation
/// states in `commits`), replaying the recorded events rebuilds the tables
/// that the changes produced.
pub proof fn lemma_round_trip(states: Seq<Tables>, events: Seq<LedgerEvent>)
    requires
        states.len() == events.len() + 1,
        states[0] == empty_tables(),
        forall|i: int|
            0 <= i < events.len() ==> states[i + 1] == apply_event(states[i], #[trigger] events[i]),
    ensures
        replay(events) == states.last(),
    decreases events.len(),
{
    if events.len() > 0 {
        let n = events.len() - 1;
        let init = events.drop_last();
        let before = states.drop_last();
        assert forall|i: int| 0 <= i < init.len() implies before[i + 1] == apply_event(
            before[i],
            #[trigger] init[i],
        ) by {
            assert(states[i + 1] == apply_event(states[i], events[i]));
        }
        lemma_round_trip(before, init);
        assert(states[n + 1] == apply_event(states[n], events[n]));
    }
}

/// Appending an event with the next id and a snapshot below the counters
/// keeps the ledger ordered and its snapshots below the counters.
pub proof fn lemma_push_event(
    events: Seq<LedgerEvent>,
    e: LedgerEvent,
    bound: i64,
    note_bound: i64,
    group_bound: i64,
    new_note_bound: i64,
    new_group_bound: i64,
)
    requires
        ledger_ordered(events, bound),
        snapshots_below(events, note_bound, group_bound),
        e.id == bound,
        bound < i64::MAX,
        note_bound <= new_note_bound,
        group_bound <= new_group_bound,
        match e.payload {
            Payload::Note(n) => n.id < new_note_bound,
            Payload::WipGroup(g) => g.id < new_group_bound,
            _ => true,
        },
    ensures
        ledger_ordered(events.push(e), (bound + 1) as i64),
        snapshots_below(events.push(e), new_note_bound, new_group_bound),
{
    let all = events.push(e);
    assert forall|i: int| 0 <= i < all.len() implies match #[trigger] all[i].payload {
        Payload::Note(n) => n.id < new_note_bound,
        Payload::WipGroup(g) => g.id < new_group_bound,
        _ => true,
    } by {
        if i < events.len() {
            assert(all[i] == events[i]);
        }
    }
    assert forall|i: int, j: int| 0 <= i < j < all.len() implies #[trigger] all[i].id
        < #[trigger] all[j].id by {
        if j == events.len() {
            assert(all[i] == events[i]);
        } else {
            assert(all[i] == events[i] && all[j] == events[j]);
        }
    }
    assert forall|i: int| 0 <= i < all.len() implies #[trigger] all[i].id < bound + 1 by {
        if i < events.len() {
            assert(all[i] == events[i]);
        }
    }
}

} // verus!
