use vstd::prelude::*;
use crate::board::{lemma_push_event, lemma_replay_push, Board, BoardError, PersistenceFault, Tables};
use crate::ledger::{EventType, Payload};
use crate::models::{CreateNote, Note, UpdateNote, DEFAULT_NOTE_COLOR, DEFAULT_NOTE_STATUS};
use crate::table::{
    by_position, find_row, has_id, highest_position, ids_below, lemma_remove_row,
    lemma_row_with_id, lemma_update_is_replace, position_after, remove_row, replace_row,
    row_with_id, sorted_by_position, top_position, unique_ids, without_row, Row,
};

verus! {

/// Where one row lands when the note `id`, now at `from` in `group`, moves
/// to `to`: the siblings between the two positions shift by one toward `from`.
pub open spec fn shifted(n: Note, id: i64, group: i64, from: i64, to: i64) -> Note {
    if n.id == id {
        Note { position: to, ..n }
    } else if n.wip_group_id == group && to < from && to <= n.position && n.position < from {
        Note { position: (n.position + 1) as i64, ..n }
    } else if n.wip_group_id == group && from < to && from < n.position && n.position <= to {
        Note { position: (n.position - 1) as i64, ..n }
    } else {
        n
    }
}

/// The notes after the note `id` moves to position `to` within its group.
pub open spec fn reorder_rows(notes: Seq<Note>, id: i64, to: i64) -> Seq<Note> {
    let moving = row_with_id(notes, id);
    Seq::new(
        notes.len(),
        |i: int| shifted(notes[i], id, moving.wip_group_id, moving.position, to),
    )
}

/// A requested position with negative values raised to 0.
pub open spec fn clamped(p: i64) -> i64 {
    if p < 0 {
        0
    } else {
        p
    }
}

/// How `reorder` fails on `b`, if it does.
pub open spec fn reorder_failure(b: Board, id: i64, new_position: i64) -> Option<BoardError> {
    if !has_id(b.notes_view(), id) {
        Some(BoardError::NotFound)
    } else if row_with_id(b.notes_view(), id).position != clamped(new_position) && b.event_counter()
        == i64::MAX {
        Some(BoardError::PersistenceFailure(PersistenceFault::IdsExhausted))
    } else {
        None
    }
}

/// The number of notes in group `g`.
pub open spec fn group_size(notes: Seq<Note>, g: i64) -> nat
    decreases notes.len(),
{
    if notes.len() == 0 {
        0
    } else {
        group_size(notes.drop_last(), g) + if notes.last().wip_group_id == g {
            1nat
        } else {
            0nat
        }
    }
}

/// The positions of the notes of group `g` are pairwise distinct and lie in
/// `[0, N)` for `N` notes: they are a dense permutation of `[0, N)`.
pub open spec fn dense_in_group(notes: Seq<Note>, g: i64) -> bool {
    &&& forall|i: int|
        0 <= i < notes.len() && #[trigger] notes[i].wip_group_id == g ==> 0 <= notes[i].position
            < group_size(notes, g)
    &&& forall|i: int, j: int|
        0 <= i < notes.len() && 0 <= j < notes.len() && i != j && #[trigger] notes[i].wip_group_id
            == g && #[trigger] notes[j].wip_group_id == g ==> notes[i].position != notes[j].position
}

pub proof fn lemma_group_size_same(a: Seq<Note>, b: Seq<Note>, g: i64)
    requires
        a.len() == b.len(),
        forall|i: int| 0 <= i < a.len() ==> #[trigger] a[i].wip_group_id == b[i].wip_group_id,
    ensures
        group_size(a, g) == group_size(b, g),
    decreases a.len(),
{
    if a.len() > 0 {
        assert forall|i: int| 0 <= i < a.len() - 1 implies #[trigger] a.drop_last()[i].wip_group_id
            == b.drop_last()[i].wip_group_id by {
            assert(a[i].wip_group_id == b[i].wip_group_id);
        }
        lemma_group_size_same(a.drop_last(), b.drop_last(), g);
        assert(a.last().wip_group_id == b.last().wip_group_id);
    }
}

/// A group whose positions are a dense permutation of `[0, N)` keeps that
/// shape when one of its notes moves to a target below `N`; the move changes
/// no note's group, so `N` stays what it was.
pub proof fn lemma_reorder_keeps_density(notes: Seq<Note>, id: i64, new_position: i64)
    requires
        unique_ids(notes),
        has_id(notes, id),
        dense_in_group(notes, row_with_id(notes, id).wip_group_id),
        clamped(new_position) < group_size(notes, row_with_id(notes, id).wip_group_id),
    ensures
        ({
            let g = row_with_id(notes, id).wip_group_id;
            let after = reorder_rows(notes, id, clamped(new_position));
            &&& group_size(after, g) == group_size(notes, g)
            &&& dense_in_group(after, g)
        }),
{
    let m = choose|i: int| 0 <= i < notes.len() && #[trigger] notes[i].row_id() == id;
    lemma_row_with_id(notes, m);
    let moving = notes[m];
    let g = moving.wip_group_id;
    let from = moving.position;
    let to = clamped(new_position);
    let after = reorder_rows(notes, id, to);
    assert forall|i: int| 0 <= i < notes.len() implies #[trigger] after[i].wip_group_id
        == notes[i].wip_group_id by {}
    lemma_group_size_same(after, notes, g);
    let n = group_size(notes, g);
    assert forall|i: int| 0 <= i < after.len() && #[trigger] after[i].wip_group_id == g implies 0
        <= after[i].position < n by {
        assert(notes[i].wip_group_id == g);
        if i != m {
            assert(notes[i].row_id() != notes[m].row_id());
            assert(notes[i].position != from);
        }
    }
    assert forall|i: int, j: int|
        0 <= i < after.len() && 0 <= j < after.len() && i != j && #[trigger] after[i].wip_group_id
            == g && #[trigger] after[j].wip_group_id == g implies after[i].position
            != after[j].position by {
        assert(notes[i].wip_group_id == g && notes[j].wip_group_id == g);
        assert(notes[i].position != notes[j].position);
        if i != m {
            assert(notes[i].row_id() != notes[m].row_id());
            assert(notes[i].position != from);
        }
        if j != m {
            assert(notes[j].row_id() != notes[m].row_id());
            assert(notes[j].position != from);
        }
    }
}

/// The notes of group `g`, in table order.
pub open spec fn notes_in_group(notes: Seq<Note>, g: i64) -> Seq<Note>
    decreases notes.len(),
{
    if notes.len() == 0 {
        notes
    } else {
        let rest = notes_in_group(notes.drop_last(), g);
        if notes.last().wip_group_id == g {
            rest.push(notes.last())
        } else {
            rest
        }
    }
}

/// How `create` fails on `b`, if it does.
pub open spec fn create_failure(b: Board, new_note: CreateNote) -> Option<BoardError> {
    if !has_id(b.groups_view(), new_note.wip_group_id) {
        Some(BoardError::PersistenceFailure(PersistenceFault::MissingGroup))
    } else if b.note_counter() == i64::MAX || b.event_counter() == i64::MAX {
        Some(BoardError::PersistenceFailure(PersistenceFault::IdsExhausted))
    } else if top_position(notes_in_group(b.notes_view(), new_note.wip_group_id)) == Some(
        i64::MAX,
    ) {
        Some(BoardError::PersistenceFailure(PersistenceFault::PositionOverflow))
    } else {
        None
    }
}

/// `n` is the note that `create` makes on `b`: the next id, the next
/// position of its group, the default color if none was given, the default
/// status, and `now` for both instants.
pub open spec fn is_created_note(n: Note, b: Board, new_note: CreateNote, now: i64) -> bool {
    &&& n.id == b.note_counter()
    &&& n.title == new_note.title
    &&& n.color@ == if new_note.color@.len() == 0 {
        DEFAULT_NOTE_COLOR@
    } else {
        new_note.color@
    }
    &&& n.wip_group_id == new_note.wip_group_id
    &&& n.position == position_after(top_position(notes_in_group(b.notes_view(), n.wip_group_id)))
    &&& n.status@ == DEFAULT_NOTE_STATUS@
    &&& n.created_at == now
    &&& n.updated_at == now
}

/// How `update` fails on `b`, if it does.
pub open spec fn update_failure(b: Board, id: i64, update_note: UpdateNote) -> Option<BoardError> {
    if !has_id(b.notes_view(), id) {
        Some(BoardError::NotFound)
    } else if update_note.wip_group_id matches Some(g) && !has_id(b.groups_view(), g) {
        Some(BoardError::PersistenceFailure(PersistenceFault::MissingGroup))
    } else if b.event_counter() == i64::MAX {
        Some(BoardError::PersistenceFailure(PersistenceFault::IdsExhausted))
    } else {
        None
    }
}

/// `n` with the supplied fields of `u` and `updated_at` set to `now`.
pub open spec fn updated_note(n: Note, u: UpdateNote, now: i64) -> Note {
    Note {
        id: n.id,
        title: match u.title {
            Some(t) => t,
            None => n.title,
        },
        color: match u.color {
            Some(c) => c,
            None => n.color,
        },
        wip_group_id: match u.wip_group_id {
            Some(g) => g,
            None => n.wip_group_id,
        },
        position: match u.position {
            Some(p) => p,
            None => n.position,
        },
        status: match u.status {
            Some(t) => t,
            None => n.status,
        },
        created_at: n.created_at,
        updated_at: now,
    }
}

/// How `delete` fails on `b`, if it does.
pub open spec fn delete_failure(b: Board, id: i64) -> Option<BoardError> {
    if !has_id(b.notes_view(), id) {
        Some(BoardError::NotFound)
    } else if b.event_counter() == i64::MAX {
        Some(BoardError::PersistenceFailure(PersistenceFault::IdsExhausted))
    } else {
        None
    }
}

/// A note left group `from` for group `to`.
#[derive(Debug, Clone, Copy, PartialEq, Eq, Structural)]
pub struct GroupMove {
    pub from: i64,
    pub to: i64,
}

/// The group change between two versions of a note, if there is one. An
/// update that reassigns a note is followed, once committed, by a
/// notification carrying both group ids.
pub fn reassignment(before: &Note, after: &Note) -> (r: Option<GroupMove>)
    ensures
        r == if before.wip_group_id != after.wip_group_id {
            Some((GroupMove { from: before.wip_group_id, to: after.wip_group_id }))
        } else {
            None
        },
{
    if before.wip_group_id != after.wip_group_id {
        Some(GroupMove { from: before.wip_group_id, to: after.wip_group_id })
    } else {
        None
    }
}

/// The notes after the note at `idx` moves to position `to` within its group.
pub fn shift_notes(notes: &Vec<Note>, idx: usize, to: i64) -> (r: Vec<Note>)
    requires
        unique_ids(notes@),
        idx < notes@.len(),
    ensures
        r@ == reorder_rows(notes@, notes@[idx as int].id, to),
        forall|k: int| 0 <= k < notes@.len() ==> #[trigger] r@[k].row_id() == notes@[k].row_id(),
{
    proof {
        lemma_row_with_id(notes@, idx as int);
    }
    let id = notes[idx].id;
    let from = notes[idx].position;
    let group = notes[idx].wip_group_id;
    let mut out: Vec<Note> = Vec::new();
    let mut i: usize = 0;
    while i < notes.len()
        invariant
            i <= notes@.len(),
            out@.len() == i,
            forall|k: int| 0 <= k < i ==> #[trigger] out@[k] == shifted(notes@[k], id, group, from, to),
        decreases notes@.len() - i,
    {
        let mut row = notes[i].clone();
        if row.id == id {
            row.position = to;
        } else if row.wip_group_id == group && to < from && to <= row.position && row.position < from {
            row.position = row.position + 1;
        } else if row.wip_group_id == group && from < to && from < row.position && row.position <= to {
            row.position = row.position - 1;
        }
        out.push(row);
        i = i + 1;
    }
    assert(out@ =~= reorder_rows(notes@, id, to));
    out
}

/// Copies of the notes of group `g`, in table order.
pub fn notes_of_group(notes: &Vec<Note>, g: i64) -> (r: Vec<Note>)
    ensures
        r@ == notes_in_group(notes@, g),
{
    let mut out: Vec<Note> = Vec::new();
    let mut i: usize = 0;
    while i < notes.len()
        invariant
            i <= notes@.len(),
            out@ == notes_in_group(notes@.take(i as int), g),
        decreases notes@.len() - i,
    {
        assert(notes@.take(i + 1).drop_last() =~= notes@.take(i as int));
        if notes[i].wip_group_id == g {
            out.push(notes[i].clone());
        }
        i = i + 1;
    }
    assert(notes@.take(notes@.len() as int) =~= notes@);
    out
}

impl Note {
    /// Creates a note at the end of its group (one past the group's highest
    /// position, or 1 in an empty group) and records a `NoteCreated` event
    /// carrying it.
    pub fn create(board: &mut Board, new_note: CreateNote, now: i64) -> (r: Result<Note, BoardError>)
        requires
            old(board).wf(),
        ensures
            final(board).wf(),
            old(board).in_sync() ==> final(board).in_sync(),
            r is Err <==> create_failure(*old(board), new_note) is Some,
            r matches Err(e) ==> Some(e) == create_failure(*old(board), new_note) && *final(board)
                == *old(board),
            r matches Ok(n) ==> {
                &&& is_created_note(n, *old(board), new_note, now)
                &&& old(board).commits(
                    final(board),
                    Tables { notes: old(board).notes_view().push(n), ..old(board).tables() },
                    EventType::NoteCreated,
                    Payload::Note(n),
                    now,
                )
                &&& final(board).note_counter() == old(board).note_counter() + 1
                &&& final(board).group_counter() == old(board).group_counter()
            },
    {
        if find_row(&board.groups, new_note.wip_group_id).is_none() {
            return Err(BoardError::PersistenceFailure(PersistenceFault::MissingGroup));
        }
        if board.next_note_id == i64::MAX || board.next_event_id == i64::MAX {
            return Err(BoardError::PersistenceFailure(PersistenceFault::IdsExhausted));
        }
        let siblings = notes_of_group(&board.notes, new_note.wip_group_id);
        let position = match highest_position(&siblings) {
            None => 1,
            Some(m) => {
                if m == i64::MAX {
                    return Err(BoardError::PersistenceFailure(PersistenceFault::PositionOverflow));
                }
                m + 1
            },
        };
        let color = if new_note.color.as_str().is_empty() {
            DEFAULT_NOTE_COLOR.to_owned()
        } else {
            new_note.color
        };
        let id = board.next_note_id;
        let note = Note {
            id,
            title: new_note.title,
            color,
            wip_group_id: new_note.wip_group_id,
            position,
            status: DEFAULT_NOTE_STATUS.to_owned(),
            created_at: now,
            updated_at: now,
        };
        assert(!has_id(board.notes@, id));
        let ghost before = board.notes@;
        board.notes.push(note.clone());
        board.next_note_id = id + 1;
        assert forall|a: int, b: int|
            0 <= a < board.notes@.len() && 0 <= b < board.notes@.len() && a != b implies #[trigger] board.notes@[a].row_id()
                != #[trigger] board.notes@[b].row_id() by {
            if a < before.len() && b < before.len() {
                assert(board.notes@[a] == before[a] && board.notes@[b] == before[b]);
            } else if a < before.len() {
                assert(board.notes@[a] == before[a]);
            } else {
                assert(board.notes@[b] == before[b]);
            }
        }
        assert forall|k: int| 0 <= k < board.notes@.len() implies #[trigger] board.notes@[k].row_id()
            < board.next_note_id by {
            if k < before.len() {
                assert(board.notes@[k] == before[k]);
            }
        }
        let ghost e_id = board.next_event_id;
        board.append_event(EventType::NoteCreated, Payload::Note(note.clone()), now);
        proof {
            lemma_push_event(
                old(board).ledger@,
                board.ledger@.last(),
                e_id,
                old(board).next_note_id,
                board.next_group_id,
                board.next_note_id,
                board.next_group_id,
            );
            assert(board.ledger@.drop_last() =~= old(board).ledger@);
            lemma_replay_push(old(board).ledger@, board.ledger@.last());
        }
        Ok(note)
    }

    /// Applies the supplied fields of `update_note` to the note `id`, sets its
    /// `updated_at` to `now`, and records a `NoteUpdated` event carrying the
    /// result.
    pub fn update(board: &mut Board, id: i64, update_note: UpdateNote, now: i64) -> (r: Result<
        Note,
        BoardError,
    >)
        requires
            old(board).wf(),
        ensures
            final(board).wf(),
            old(board).in_sync() ==> final(board).in_sync(),
            r is Err <==> update_failure(*old(board), id, update_note) is Some,
            r matches Err(e) ==> Some(e) == update_failure(*old(board), id, update_note)
                && *final(board) == *old(board),
            r matches Ok(n) ==> {
                &&& n == updated_note(row_with_id(old(board).notes_view(), id), update_note, now)
                &&& old(board).commits(
                    final(board),
                    Tables { notes: replace_row(old(board).notes_view(), n), ..old(board).tables() },
                    EventType::NoteUpdated,
                    Payload::Note(n),
                    now,
                )
                &&& final(board).note_counter() == old(board).note_counter()
                &&& final(board).group_counter() == old(board).group_counter()
            },
    {
        let idx = match find_row(&board.notes, id) {
            None => return Err(BoardError::NotFound),
            Some(i) => i,
        };
        proof {
            lemma_row_with_id(board.notes@, idx as int);
        }
        if let Some(g) = update_note.wip_group_id {
            if find_row(&board.groups, g).is_none() {
                return Err(BoardError::PersistenceFailure(PersistenceFault::MissingGroup));
            }
        }
        if board.next_event_id == i64::MAX {
            return Err(BoardError::PersistenceFailure(PersistenceFault::IdsExhausted));
        }
        let current = board.notes[idx].clone();
        let note = Note {
            id: current.id,
            title: match update_note.title {
                Some(t) => t,
                None => current.title,
            },
            color: match update_note.color {
                Some(c) => c,
                None => current.color,
            },
            wip_group_id: match update_note.wip_group_id {
                Some(g) => g,
                None => current.wip_group_id,
            },
            position: match update_note.position {
                Some(p) => p,
                None => current.position,
            },
            status: match update_note.status {
                Some(t) => t,
                None => current.status,
            },
            created_at: current.created_at,
            updated_at: now,
        };
        proof {
            lemma_update_is_replace(board.notes@, idx as int, note);
        }
        board.notes.set(idx, note.clone());
        let ghost e_id = board.next_event_id;
        board.append_event(EventType::NoteUpdated, Payload::Note(note.clone()), now);
        proof {
            lemma_push_event(
                old(board).ledger@,
                board.ledger@.last(),
                e_id,
                board.next_note_id,
                board.next_group_id,
                board.next_note_id,
                board.next_group_id,
            );
            assert(board.ledger@.drop_last() =~= old(board).ledger@);
            lemma_replay_push(old(board).ledger@, board.ledger@.last());
        }
        Ok(note)
    }

    /// Removes the note `id` and records a `NoteDeleted` event carrying the
    /// note as it was.
    pub fn delete(board: &mut Board, id: i64, now: i64) -> (r: Result<bool, BoardError>)
        requires
            old(board).wf(),
        ensures
            final(board).wf(),
            old(board).in_sync() ==> final(board).in_sync(),
            r is Err <==> delete_failure(*old(board), id) is Some,
            r matches Err(e) ==> Some(e) == delete_failure(*old(board), id) && *final(board)
                == *old(board),
            r matches Ok(done) ==> {
                &&& done
                &&& old(board).commits(
                    final(board),
                    Tables { notes: remove_row(old(board).notes_view(), id), ..old(board).tables() },
                    EventType::NoteDeleted,
                    Payload::Note(row_with_id(old(board).notes_view(), id)),
                    now,
                )
                &&& final(board).note_counter() == old(board).note_counter()
                &&& final(board).group_counter() == old(board).group_counter()
            },
    {
        let idx = match find_row(&board.notes, id) {
            None => return Err(BoardError::NotFound),
            Some(i) => i,
        };
        proof {
            lemma_row_with_id(board.notes@, idx as int);
        }
        if board.next_event_id == i64::MAX {
            return Err(BoardError::PersistenceFailure(PersistenceFault::IdsExhausted));
        }
        let deleted = board.notes[idx].clone();
        let ghost before = board.notes@;
        board.notes = without_row(&board.notes, id);
        proof {
            lemma_remove_row(before, id);
            assert forall|k: int| 0 <= k < board.notes@.len() implies #[trigger] board.notes@[k].row_id()
                < board.next_note_id by {
                let i = choose|i: int| 0 <= i < before.len() && #[trigger] remove_row(before, id)[k]
                    == before[i];
                assert(before[i].row_id() < board.next_note_id);
            }
        }
        let ghost e_id = board.next_event_id;
        board.append_event(EventType::NoteDeleted, Payload::Note(deleted), now);
        proof {
            lemma_push_event(
                old(board).ledger@,
                board.ledger@.last(),
                e_id,
                board.next_note_id,
                board.next_group_id,
                board.next_note_id,
                board.next_group_id,
            );
            assert(board.ledger@.drop_last() =~= old(board).ledger@);
            lemma_replay_push(old(board).ledger@, board.ledger@.last());
        }
        Ok(true)
    }

    /// The note `id`, if present.
    pub fn find_by_id(board: &Board, id: i64) -> (r: Option<Note>)
        requires
            board.wf(),
        ensures
            r == if has_id(board.notes_view(), id) {
                Some(row_with_id(board.notes_view(), id))
            } else {
                None
            },
    {
        match find_row(&board.notes, id) {
            None => None,
            Some(i) => {
                proof {
                    lemma_row_with_id(board.notes@, i as int);
                }
                Some(board.notes[i].clone())
            },
        }
    }

    /// Every note, ordered by position; equal positions keep table order.
    pub fn find_all(board: &Board) -> (r: Vec<Note>)
        ensures
            r@ == by_position(board.notes_view()),
    {
        sorted_by_position(&board.notes)
    }

    /// The notes of group `wip_group_id`, ordered by position; equal
    /// positions keep table order.
    pub fn find_by_wip_group_id(board: &Board, wip_group_id: i64) -> (r: Vec<Note>)
        ensures
            r@ == by_position(notes_in_group(board.notes_view(), wip_group_id)),
    {
        let members = notes_of_group(&board.notes, wip_group_id);
        sorted_by_position(&members)
    }

    /// Moves the note `id` to `new_position` (a negative target counts as 0)
    /// among the notes of its group. Siblings between the old and the new
    /// position shift by one to close the gap; the others keep their place.
    /// A move to the current position changes nothing and records nothing.
    pub fn reorder(board: &mut Board, id: i64, new_position: i64, now: i64) -> (r: Result<
        Note,
        BoardError,
    >)
        requires
            old(board).wf(),
        ensures
            final(board).wf(),
            old(board).in_sync() ==> final(board).in_sync(),
            r is Err <==> reorder_failure(*old(board), id, new_position) is Some,
            r matches Err(e) ==> Some(e) == reorder_failure(*old(board), id, new_position)
                && *final(board) == *old(board),
            r matches Ok(n) ==> {
                let from = row_with_id(old(board).notes_view(), id);
                let to = clamped(new_position);
                &&& n == Note { position: to, ..from }
                &&& from.position == to ==> *final(board) == *old(board)
                &&& dense_in_group(old(board).notes_view(), from.wip_group_id) && to < group_size(
                    old(board).notes_view(),
                    from.wip_group_id,
                ) ==> dense_in_group(final(board).notes_view(), from.wip_group_id)
                &&& from.position != to ==> {
                    &&& old(board).commits(
                        final(board),
                        Tables { notes: reorder_rows(old(board).notes_view(), id, to), ..old(board).tables() },
                        EventType::NoteReordered,
                        Payload::Note(n),
                        now,
                    )
                    &&& final(board).note_counter() == old(board).note_counter()
                    &&& final(board).group_counter() == old(board).group_counter()
                }
            },
    {
        let idx = match find_row(&board.notes, id) {
            None => return Err(BoardError::NotFound),
            Some(i) => i,
        };
        proof {
            lemma_row_with_id(board.notes@, idx as int);
        }
        let from = board.notes[idx].position;
        let group = board.notes[idx].wip_group_id;
        let to = if new_position < 0 {
            0
        } else {
            new_position
        };
        if to == from {
            return Ok(board.notes[idx].clone());
        }
        if board.next_event_id == i64::MAX {
            return Err(BoardError::PersistenceFailure(PersistenceFault::IdsExhausted));
        }
        let ghost before = board.notes@;
        board.notes = shift_notes(&board.notes, idx, to);
        assert(unique_ids(board.notes@));
        assert(ids_below(board.notes@, board.next_note_id));
        let moved = board.notes[idx].clone();
        let ghost e_id = board.next_event_id;
        board.append_event(EventType::NoteReordered, Payload::Note(moved.clone()), now);
        proof {
            if dense_in_group(before, group) && to < group_size(before, group) {
                lemma_reorder_keeps_density(before, id, new_position);
            }
            lemma_push_event(
                old(board).ledger@,
                board.ledger@.last(),
                e_id,
                board.next_note_id,
                board.next_group_id,
                board.next_note_id,
                board.next_group_id,
            );
            assert(board.ledger@.drop_last() =~= old(board).ledger@);
            lemma_replay_push(old(board).ledger@, board.ledger@.last());
        }
        Ok(moved)
    }
}

} // verus!
