use vstd::prelude::*;
use crate::board::notes::shift_notes;
use crate::board::sprites::{
    find_sprite, lemma_push_fresh_sprite, lemma_remove_sprite, lemma_update_is_replace_sprite,
    replace_sprite, without_sprite,
};
use crate::board::{
    apply_event, empty_tables, replay, replay_from, snapshots_below, tables_wf, Board,
    BoardError, PersistenceFault, Tables,
};
use crate::ledger::{EventType, LedgerEvent, Payload};
use crate::models::{Note, Sprite, WipGroup};
use crate::table::{
    find_row, lemma_push_fresh, lemma_remove_row_below, lemma_update_is_replace, replace_row,
    unique_ids, without_row,
};

verus! {

/// Why replay passed over an event.
#[derive(Debug, Clone, Copy, PartialEq, Eq, Structural)]
pub enum SkipReason {
    /// The kind is not one this reader knows.
    UnrecognizedKind,
    /// The payload is not the entity that the kind names.
    DecodeFailure,
}

/// A warning of replay: the event `event_id` was not applied.
#[derive(Debug, Clone, Copy, PartialEq, Eq, Structural)]
pub struct SkippedEvent {
    pub event_id: i64,
    pub reason: SkipReason,
}

/// The payload is the entity that `kind` is about.
pub open spec fn payload_fits(kind: EventType, payload: Payload) -> bool {
    match payload {
        Payload::Note(_) => kind is NoteCreated || kind is NoteUpdated || kind is NoteReordered
            || kind is NoteDeleted,
        Payload::WipGroup(_) => kind is WipGroupCreated || kind is WipGroupUpdated
            || kind is WipGroupDeleted,
        Payload::Sprite(_) => kind is SpriteCreated || kind is SpriteUpdated || kind is SpriteDeleted,
        Payload::Raw(_) => false,
    }
}

/// Why replay passes over `e`, if it does.
pub open spec fn skip_reason(e: LedgerEvent) -> Option<SkipReason> {
    if e.kind is Unknown {
        Some(SkipReason::UnrecognizedKind)
    } else if !payload_fits(e.kind, e.payload) {
        Some(SkipReason::DecodeFailure)
    } else {
        None
    }
}

/// The warnings that replaying `events` reports, in ledger order.
pub open spec fn skipped_in(events: Seq<LedgerEvent>) -> Seq<SkippedEvent>
    decreases events.len(),
{
    if events.len() == 0 {
        Seq::empty()
    } else {
        let rest = skipped_in(events.drop_last());
        match skip_reason(events.last()) {
            Some(reason) => rest.push(SkippedEvent { event_id: events.last().id, reason }),
            None => rest,
        }
    }
}

/// Replay never stops at an event of an unrecognised kind: it passes over
/// it, reports it, and goes on with the events after it.
pub proof fn lemma_unrecognized_is_skipped(t: Tables, events: Seq<LedgerEvent>, e: LedgerEvent)
    requires
        e.kind is Unknown,
    ensures
        replay_from(t, events.push(e)) == replay_from(t, events),
        skipped_in(events.push(e)) == skipped_in(events).push(
            (SkippedEvent { event_id: e.id, reason: SkipReason::UnrecognizedKind }),
        ),
{
    assert(events.push(e).drop_last() =~= events);
}

pub open spec fn as_tables(notes: Seq<Note>, groups: Seq<WipGroup>, sprites: Seq<Sprite>) -> Tables {
    Tables { notes, groups, sprites }
}

/// Applies one event to the tables, as `apply_event` describes.
fn apply_one(
    notes: &mut Vec<Note>,
    groups: &mut Vec<WipGroup>,
    sprites: &mut Vec<Sprite>,
    e: &LedgerEvent,
    note_bound: Ghost<i64>,
    group_bound: Ghost<i64>,
) -> (r: Option<SkipReason>)
    requires
        tables_wf(
            as_tables(old(notes)@, old(groups)@, old(sprites)@),
            note_bound@,
            group_bound@,
        ),
        match e.payload {
            Payload::Note(n) => n.id < note_bound@,
            Payload::WipGroup(g) => g.id < group_bound@,
            _ => true,
        },
    ensures
        as_tables(final(notes)@, final(groups)@, final(sprites)@)
            == apply_event(
            as_tables(old(notes)@, old(groups)@, old(sprites)@),
            *e,
        ),
        tables_wf(
            as_tables(final(notes)@, final(groups)@, final(sprites)@),
            note_bound@,
            group_bound@,
        ),
        r == skip_reason(*e),
{
    match &e.payload {
        Payload::Note(n) => match &e.kind {
            EventType::NoteCreated => {
                if find_row(notes, n.id).is_none() {
                    proof {
                        lemma_push_fresh(notes@, *n, note_bound@);
                    }
                    notes.push(n.clone());
                }
                None
            },
            EventType::NoteUpdated => {
                match find_row(notes, n.id) {
                    Some(i) => {
                        proof {
                            lemma_update_is_replace(notes@, i as int, *n);
                        }
                        notes.set(i, n.clone());
                    },
                    None => {
                        assert(replace_row(notes@, *n) =~= notes@);
                    },
                }
                None
            },
            EventType::NoteReordered => {
                if let Some(i) = find_row(notes, n.id) {
                    let moved = shift_notes(notes, i, n.position);
                    *notes = moved;
                    assert(unique_ids(notes@));
                }
                None
            },
            EventType::NoteDeleted => {
                proof {
                    lemma_remove_row_below(notes@, n.id, note_bound@);
                }
                let kept = without_row(notes, n.id);
                *notes = kept;
                None
            },
            EventType::Unknown(_) => Some(SkipReason::UnrecognizedKind),
            _ => Some(SkipReason::DecodeFailure),
        },
        Payload::WipGroup(g) => match &e.kind {
            EventType::WipGroupCreated => {
                if find_row(groups, g.id).is_none() {
                    proof {
                        lemma_push_fresh(groups@, *g, group_bound@);
                    }
                    groups.push(g.clone());
                }
                None
            },
            EventType::WipGroupUpdated => {
                match find_row(groups, g.id) {
                    Some(i) => {
                        proof {
                            lemma_update_is_replace(groups@, i as int, *g);
                        }
                        groups.set(i, g.clone());
                    },
                    None => {
                        assert(replace_row(groups@, *g) =~= groups@);
                    },
                }
                None
            },
            EventType::WipGroupDeleted => {
                proof {
                    lemma_remove_row_below(groups@, g.id, group_bound@);
                }
                let kept = without_row(groups, g.id);
                *groups = kept;
                None
            },
            EventType::Unknown(_) => Some(SkipReason::UnrecognizedKind),
            _ => Some(SkipReason::DecodeFailure),
        },
        Payload::Sprite(s) => match &e.kind {
            EventType::SpriteCreated => {
                if find_sprite(sprites, &s.id).is_none() {
                    proof {
                        lemma_push_fresh_sprite(sprites@, *s);
                    }
                    sprites.push(s.clone());
                }
                None
            },
            EventType::SpriteUpdated => {
                match find_sprite(sprites, &s.id) {
                    Some(i) => {
                        proof {
                            lemma_update_is_replace_sprite(sprites@, i as int, *s);
                        }
                        sprites.set(i, s.clone());
                    },
                    None => {
                        assert(replace_sprite(sprites@, *s) =~= sprites@);
                    },
                }
                None
            },
            EventType::SpriteDeleted => {
                proof {
                    lemma_remove_sprite(sprites@, s.id@);
                }
                let kept = without_sprite(sprites, &s.id);
                *sprites = kept;
                None
            },
            EventType::Unknown(_) => Some(SkipReason::UnrecognizedKind),
            _ => Some(SkipReason::DecodeFailure),
        },
        Payload::Raw(_) => match &e.kind {
            EventType::Unknown(_) => Some(SkipReason::UnrecognizedKind),
            _ => Some(SkipReason::DecodeFailure),
        },
    }
}

/// Empties every domain table. The ledger and the id counters are kept, so
/// the ledger can still be replayed and no id is handed out twice.
pub fn truncate_tables(board: &mut Board)
    requires
        old(board).wf(),
    ensures
        final(board).wf(),
        final(board).tables() == empty_tables(),
        final(board).ledger_view() == old(board).ledger_view(),
        final(board).same_counters(old(board)),
{
    board.notes = Vec::new();
    board.groups = Vec::new();
    board.sprites = Vec::new();
    assert(board.tables() == empty_tables());
}

/// Applies every ledger event, oldest first, to the tables as they stand,
/// passing over (and reporting) those of an unrecognised kind or with a
/// payload that does not fit their kind.
pub fn replay_events(board: &mut Board) -> (r: Vec<SkippedEvent>)
    requires
        old(board).wf(),
    ensures
        final(board).wf(),
        final(board).tables() == replay_from(old(board).tables(), old(board).ledger_view()),
        final(board).ledger_view() == old(board).ledger_view(),
        final(board).same_counters(old(board)),
        r@ == skipped_in(old(board).ledger_view()),
{
    let ghost events = board.ledger@;
    let mut skipped: Vec<SkippedEvent> = Vec::new();
    let mut i: usize = 0;
    while i < board.ledger.len()
        invariant
            board.ledger@ == events,
            events == old(board).ledger@,
            board.same_counters(old(board)),
            old(board).wf(),
            i <= events.len(),
            board.wf(),
            board.tables() == replay_from(old(board).tables(), events.take(i as int)),
            skipped@ == skipped_in(events.take(i as int)),
        decreases events.len() - i,
    {
        assert(events.take(i + 1).drop_last() =~= events.take(i as int));
        assert(events.take(i + 1).last() == events[i as int]);
        let reason = apply_one(
            &mut board.notes,
            &mut board.groups,
            &mut board.sprites,
            &board.ledger[i],
            Ghost(board.next_note_id),
            Ghost(board.next_group_id),
        );
        if let Some(why) = reason {
            skipped.push(SkippedEvent { event_id: board.ledger[i].id, reason: why });
        }
        i = i + 1;
    }
    assert(events.take(events.len() as int) =~= events);
    skipped
}

/// Rebuilds the tables from the ledger alone: truncates them, then replays
/// every event. A board whose tables already matched its ledger comes out
/// with the very same tables.
pub fn rewind_state(board: &mut Board) -> (r: Vec<SkippedEvent>)
    requires
        old(board).wf(),
    ensures
        final(board).wf(),
        final(board).in_sync(),
        final(board).tables() == replay(old(board).ledger_view()),
        old(board).in_sync() ==> final(board).tables() == old(board).tables(),
        final(board).ledger_view() == old(board).ledger_view(),
        final(board).same_counters(old(board)),
        r@ == skipped_in(old(board).ledger_view()),
{
    truncate_tables(board);
    replay_events(board)
}

/// Ids strictly increase along the events.
pub open spec fn ids_increasing(events: Seq<LedgerEvent>) -> bool {
    forall|i: int, j: int| 0 <= i < j < events.len() ==> #[trigger] events[i].id < #[trigger] events[j].id
}

/// One past the highest note id that the events carry, or 1.
pub open spec fn note_id_floor(events: Seq<LedgerEvent>) -> int
    decreases events.len(),
{
    if events.len() == 0 {
        1
    } else {
        let rest = note_id_floor(events.drop_last());
        match events.last().payload {
            Payload::Note(n) => if rest < n.id + 1 {
                n.id + 1
            } else {
                rest
            },
            _ => rest,
        }
    }
}

/// One past the highest group id that the events carry, or 1.
pub open spec fn group_id_floor(events: Seq<LedgerEvent>) -> int
    decreases events.len(),
{
    if events.len() == 0 {
        1
    } else {
        let rest = group_id_floor(events.drop_last());
        match events.last().payload {
            Payload::WipGroup(g) => if rest < g.id + 1 {
                g.id + 1
            } else {
                rest
            },
            _ => rest,
        }
    }
}

/// One past the id of the last event, or 1.
pub open spec fn event_id_floor(events: Seq<LedgerEvent>) -> int {
    if events.len() == 0 {
        1
    } else {
        events.last().id + 1
    }
}

/// How `restore` fails on `events`, if it does.
pub open spec fn restore_failure(events: Seq<LedgerEvent>) -> Option<BoardError> {
    if !ids_increasing(events) {
        Some(BoardError::PersistenceFailure(PersistenceFault::LedgerOutOfOrder))
    } else if event_id_floor(events) > i64::MAX || note_id_floor(events) > i64::MAX
        || group_id_floor(events) > i64::MAX {
        Some(BoardError::PersistenceFailure(PersistenceFault::IdsExhausted))
    } else {
        None
    }
}

proof fn lemma_floors(events: Seq<LedgerEvent>)
    ensures
        note_id_floor(events) >= 1,
        group_id_floor(events) >= 1,
        snapshots_below(events, note_id_floor(events) as i64, group_id_floor(events) as i64)
            || note_id_floor(events) > i64::MAX || group_id_floor(events) > i64::MAX,
    decreases events.len(),
{
    if events.len() > 0 {
        let init = events.drop_last();
        lemma_floors(init);
        if note_id_floor(events) <= i64::MAX && group_id_floor(events) <= i64::MAX {
            assert forall|i: int| 0 <= i < events.len() implies match #[trigger] events[i].payload {
                Payload::Note(n) => n.id < note_id_floor(events) as i64,
                Payload::WipGroup(g) => g.id < group_id_floor(events) as i64,
                _ => true,
            } by {
                if i < init.len() {
                    assert(events[i] == init[i]);
                }
            }
        }
    }
}

impl Board {
    /// A board over a stored ledger: the ledger as given, counters one past
    /// every id it holds, and the tables that replaying it rebuilds.
    pub fn restore(events: Vec<LedgerEvent>) -> (r: Result<(Board, Vec<SkippedEvent>), BoardError>)
        ensures
            r is Err <==> restore_failure(events@) is Some,
            r matches Err(e) ==> Some(e) == restore_failure(events@),
            r matches Ok((b, skipped)) ==> {
                &&& b.wf()
                &&& b.in_sync()
                &&& b.ledger_view() == events@
                &&& b.tables() == replay(events@)
                &&& skipped@ == skipped_in(events@)
                &&& b.note_counter() == note_id_floor(events@)
                &&& b.group_counter() == group_id_floor(events@)
                &&& b.event_counter() == event_id_floor(events@)
            },
    {
        let mut i: usize = 1;
        while i < events.len()
            invariant
                1 <= i,
                i <= events@.len() || events@.len() == 0,
                forall|a: int, b: int| 0 <= a < b < i && b < events@.len() ==> #[trigger] events@[a].id < #[trigger] events@[b].id,
            decreases events@.len() - i,
        {
            if events[i].id <= events[i - 1].id {
                return Err(BoardError::PersistenceFailure(PersistenceFault::LedgerOutOfOrder));
            }
            i = i + 1;
        }
        let mut note_floor: i64 = 1;
        let mut group_floor: i64 = 1;
        let mut exhausted = false;
        let mut k: usize = 0;
        while k < events.len()
            invariant
                k <= events@.len(),
                exhausted ==> note_id_floor(events@.take(k as int)) > i64::MAX || group_id_floor(
                    events@.take(k as int),
                ) > i64::MAX,
                !exhausted ==> note_floor == note_id_floor(events@.take(k as int)) && group_floor
                    == group_id_floor(events@.take(k as int)),
            decreases events@.len() - k,
        {
            assert(events@.take(k + 1).drop_last() =~= events@.take(k as int));
            match &events[k].payload {
                Payload::Note(n) => {
                    if n.id == i64::MAX {
                        exhausted = true;
                    } else if note_floor < n.id + 1 {
                        note_floor = n.id + 1;
                    }
                },
                Payload::WipGroup(g) => {
                    if g.id == i64::MAX {
                        exhausted = true;
                    } else if group_floor < g.id + 1 {
                        group_floor = g.id + 1;
                    }
                },
                _ => {},
            }
            k = k + 1;
        }
        assert(events@.take(events@.len() as int) =~= events@);
        let n = events.len();
        if exhausted || (n > 0 && events[n - 1].id == i64::MAX) {
            return Err(BoardError::PersistenceFailure(PersistenceFault::IdsExhausted));
        }
        let next_event_id = if n == 0 {
            1
        } else {
            events[n - 1].id + 1
        };
        proof {
            lemma_floors(events@);
        }
        let mut board = Board {
            notes: Vec::new(),
            groups: Vec::new(),
            sprites: Vec::new(),
            ledger: events,
            next_note_id: note_floor,
            next_group_id: group_floor,
            next_event_id,
        };
        assert(board.tables() == empty_tables());
        let skipped = replay_events(&mut board);
        Ok((board, skipped))
    }
}

/// After the tables are emptied with the ledger kept, the tables that the
/// ledger describes, which a rewind rebuilds, are those from before.
pub proof fn lemma_history_survives_truncation(before: Board, after: Board)
    requires
        before.in_sync(),
        after.tables() == empty_tables(),
        after.ledger_view() == before.ledger_view(),
    ensures
        replay(after.ledger_view()) == before.tables(),
{
}

} // verus!
