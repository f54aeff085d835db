use vstd::prelude::*;
use crate::board::{lemma_push_event, lemma_replay_push, Board, BoardError, PersistenceFault, Tables};
use crate::ledger::{EventType, Payload};
use crate::models::{CreateWipGroup, Sprite, UpdateWipGroup, WipGroup, Note};
use crate::table::{
    by_position, find_row, has_id, highest_position, lemma_remove_row, lemma_row_with_id,
    lemma_update_is_replace, position_after, remove_row, replace_row, row_with_id,
    sorted_by_position, top_position, without_row, Row,
};

verus! {

/// Some note or sprite stands in group `id`.
pub open spec fn group_in_use(b: Board, id: i64) -> bool {
    ||| exists|i: int|
        0 <= i < b.notes_view().len() && #[trigger] b.notes_view()[i].wip_group_id == id
    ||| exists|i: int|
        0 <= i < b.sprites_view().len() && #[trigger] b.sprites_view()[i].wip_group_id == Some(id)
}

/// How `create` fails on `b`, if it does.
pub open spec fn create_failure(b: Board) -> Option<BoardError> {
    if b.group_counter() == i64::MAX || b.event_counter() == i64::MAX {
        Some(BoardError::PersistenceFailure(PersistenceFault::IdsExhausted))
    } else if top_position(b.groups_view()) == Some(i64::MAX) {
        Some(BoardError::PersistenceFailure(PersistenceFault::PositionOverflow))
    } else {
        None
    }
}

/// `g` is the group that `create` makes on `b`: the next id, one past the
/// highest position (1 on an empty table), and `now` for both instants.
pub open spec fn is_created_group(g: WipGroup, b: Board, new_group: CreateWipGroup, now: i64) -> bool {
    &&& g.id == b.group_counter()
    &&& g.name == new_group.name
    &&& g.position == position_after(top_position(b.groups_view()))
    &&& g.created_at == now
    &&& g.updated_at == now
}

/// How `update` fails on `b`, if it does.
pub open spec fn update_failure(b: Board, id: i64) -> Option<BoardError> {
    if !has_id(b.groups_view(), id) {
        Some(BoardError::NotFound)
    } else if b.event_counter() == i64::MAX {
        Some(BoardError::PersistenceFailure(PersistenceFault::IdsExhausted))
    } else {
        None
    }
}

/// `g` with the supplied fields of `u` and `updated_at` set to `now`.
pub open spec fn updated_group(g: WipGroup, u: UpdateWipGroup, now: i64) -> WipGroup {
    WipGroup {
        id: g.id,
        name: match u.name {
            Some(n) => n,
            None => g.name,
        },
        position: match u.position {
            Some(p) => p,
            None => g.position,
        },
        created_at: g.created_at,
        updated_at: now,
    }
}

/// How `delete` fails on `b`, if it does.
pub open spec fn delete_failure(b: Board, id: i64) -> Option<BoardError> {
    if !has_id(b.groups_view(), id) {
        Some(BoardError::NotFound)
    } else if group_in_use(b, id) {
        Some(BoardError::PersistenceFailure(PersistenceFault::GroupInUse))
    } else if b.event_counter() == i64::MAX {
        Some(BoardError::PersistenceFailure(PersistenceFault::IdsExhausted))
    } else {
        None
    }
}

fn any_note_in(notes: &Vec<Note>, g: i64) -> (r: bool)
    ensures
        r == exists|i: int| 0 <= i < notes@.len() && #[trigger] notes@[i].wip_group_id == g,
{
    let mut i: usize = 0;
    while i < notes.len()
        invariant
            i <= notes@.len(),
            forall|k: int| 0 <= k < i ==> #[trigger] notes@[k].wip_group_id != g,
        decreases notes@.len() - i,
    {
        if notes[i].wip_group_id == g {
            return true;
        }
        i = i + 1;
    }
    false
}

fn any_sprite_in(sprites: &Vec<Sprite>, g: i64) -> (r: bool)
    ensures
        r == exists|i: int|
            0 <= i < sprites@.len() && #[trigger] sprites@[i].wip_group_id == Some(g),
{
    let mut i: usize = 0;
    while i < sprites.len()
        invariant
            i <= sprites@.len(),
            forall|k: int| 0 <= k < i ==> #[trigger] sprites@[k].wip_group_id != Some(g),
        decreases sprites@.len() - i,
    {
        if let Some(h) = sprites[i].wip_group_id {
            if h == g {
                return true;
            }
        }
        i = i + 1;
    }
    false
}

impl WipGroup {
    /// Creates a group one past the highest position and records a
    /// `WipGroupCreated` event carrying it.
    pub fn create(board: &mut Board, new_wip_group: CreateWipGroup, now: i64) -> (r: Result<
        WipGroup,
        BoardError,
    >)
        requires
            old(board).wf(),
        ensures
            final(board).wf(),
            old(board).in_sync() ==> final(board).in_sync(),
            r is Err <==> create_failure(*old(board)) is Some,
            r matches Err(e) ==> Some(e) == create_failure(*old(board)) && *final(board)
                == *old(board),
            r matches Ok(g) ==> {
                &&& is_created_group(g, *old(board), new_wip_group, now)
                &&& old(board).commits(
                    final(board),
                    Tables { groups: old(board).groups_view().push(g), ..old(board).tables() },
                    EventType::WipGroupCreated,
                    Payload::WipGroup(g),
                    now,
                )
                &&& final(board).note_counter() == old(board).note_counter()
                &&& final(board).group_counter() == old(board).group_counter() + 1
            },
    {
        if board.next_group_id == i64::MAX || board.next_event_id == i64::MAX {
            return Err(BoardError::PersistenceFailure(PersistenceFault::IdsExhausted));
        }
        let position = match highest_position(&board.groups) {
            None => 1,
            Some(m) => {
                if m == i64::MAX {
                    return Err(BoardError::PersistenceFailure(PersistenceFault::PositionOverflow));
                }
                m + 1
            },
        };
        let id = board.next_group_id;
        let group = WipGroup {
            id,
            name: new_wip_group.name,
            position,
            created_at: now,
            updated_at: now,
        };
        assert(!has_id(board.groups@, id));
        let ghost before = board.groups@;
        board.groups.push(group.clone());
        board.next_group_id = id + 1;
        assert forall|a: int, b: int|
            0 <= a < board.groups@.len() && 0 <= b < board.groups@.len() && a != b implies #[trigger] board.groups@[a].row_id()
                != #[trigger] board.groups@[b].row_id() by {
            if a < before.len() && b < before.len() {
                assert(board.groups@[a] == before[a] && board.groups@[b] == before[b]);
            } else if a < before.len() {
                assert(board.groups@[a] == before[a]);
            } else {
                assert(board.groups@[b] == before[b]);
            }
        }
        assert forall|k: int| 0 <= k < board.groups@.len() implies #[trigger] board.groups@[k].row_id()
            < board.next_group_id by {
            if k < before.len() {
                assert(board.groups@[k] == before[k]);
            }
        }
        let ghost e_id = board.next_event_id;
        board.append_event(EventType::WipGroupCreated, Payload::WipGroup(group.clone()), now);
        proof {
            lemma_push_event(
                old(board).ledger@,
                board.ledger@.last(),
                e_id,
                board.next_note_id,
                old(board).next_group_id,
                board.next_note_id,
                board.next_group_id,
            );
            assert(board.ledger@.drop_last() =~= old(board).ledger@);
            lemma_replay_push(old(board).ledger@, board.ledger@.last());
        }
        Ok(group)
    }

    /// Applies the supplied fields of `update_wip_group` to the group `id`,
    /// sets its `updated_at` to `now`, and records a `WipGroupUpdated` event
    /// carrying the result.
    pub fn update(board: &mut Board, id: i64, update_wip_group: UpdateWipGroup, now: i64) -> (r:
        Result<WipGroup, BoardError>)
        requires
            old(board).wf(),
        ensures
            final(board).wf(),
            old(board).in_sync() ==> final(board).in_sync(),
            r is Err <==> update_failure(*old(board), id) is Some,
            r matches Err(e) ==> Some(e) == update_failure(*old(board), id) && *final(board)
                == *old(board),
            r matches Ok(g) ==> {
                &&& g == updated_group(
                    row_with_id(old(board).groups_view(), id),
                    update_wip_group,
                    now,
                )
                &&& old(board).commits(
                    final(board),
                    Tables { groups: replace_row(old(board).groups_view(), g), ..old(board).tables() },
                    EventType::WipGroupUpdated,
                    Payload::WipGroup(g),
                    now,
                )
                &&& final(board).note_counter() == old(board).note_counter()
                &&& final(board).group_counter() == old(board).group_counter()
            },
    {
        let idx = match find_row(&board.groups, id) {
            None => return Err(BoardError::NotFound),
            Some(i) => i,
        };
        proof {
            lemma_row_with_id(board.groups@, idx as int);
        }
        if board.next_event_id == i64::MAX {
            return Err(BoardError::PersistenceFailure(PersistenceFault::IdsExhausted));
        }
        let current = board.groups[idx].clone();
        let group = WipGroup {
            id: current.id,
            name: match update_wip_group.name {
                Some(n) => n,
                None => current.name,
            },
            position: match update_wip_group.position {
                Some(p) => p,
                None => current.position,
            },
            created_at: current.created_at,
            updated_at: now,
        };
        proof {
            lemma_update_is_replace(board.groups@, idx as int, group);
        }
        board.groups.set(idx, group.clone());
        let ghost e_id = board.next_event_id;
        board.append_event(EventType::WipGroupUpdated, Payload::WipGroup(group.clone()), now);
        proof {
            lemma_push_event(
                old(board).ledger@,
                board.ledger@.last(),
                e_id,
                board.next_note_id,
                board.next_group_id,
                board.next_note_id,
                board.next_group_id,
            );
            assert(board.ledger@.drop_last() =~= old(board).ledger@);
            lemma_replay_push(old(board).ledger@, board.ledger@.last());
        }
        Ok(group)
    }

    /// Removes the group `id`, which no note or sprite may still refer to,
    /// and records a `WipGroupDeleted` event carrying the group as it was.
    pub fn delete(board: &mut Board, id: i64, now: i64) -> (r: Result<bool, BoardError>)
        requires
            old(board).wf(),
        ensures
            final(board).wf(),
            old(board).in_sync() ==> final(board).in_sync(),
            r is Err <==> delete_failure(*old(board), id) is Some,
            r matches Err(e) ==> Some(e) == delete_failure(*old(board), id) && *final(board)
                == *old(board),
            r matches Ok(done) ==> {
                &&& done
                &&& old(board).commits(
                    final(board),
                    Tables { groups: remove_row(old(board).groups_view(), id), ..old(board).tables() },
                    EventType::WipGroupDeleted,
                    Payload::WipGroup(row_with_id(old(board).groups_view(), id)),
                    now,
                )
                &&& final(board).note_counter() == old(board).note_counter()
                &&& final(board).group_counter() == old(board).group_counter()
            },
    {
        let idx = match find_row(&board.groups, id) {
            None => return Err(BoardError::NotFound),
            Some(i) => i,
        };
        proof {
            lemma_row_with_id(board.groups@, idx as int);
        }
        if any_note_in(&board.notes, id) || any_sprite_in(&board.sprites, id) {
            return Err(BoardError::PersistenceFailure(PersistenceFault::GroupInUse));
        }
        if board.next_event_id == i64::MAX {
            return Err(BoardError::PersistenceFailure(PersistenceFault::IdsExhausted));
        }
        let deleted = board.groups[idx].clone();
        let ghost before = board.groups@;
        board.groups = without_row(&board.groups, id);
        proof {
            lemma_remove_row(before, id);
            assert forall|k: int| 0 <= k < board.groups@.len() implies #[trigger] board.groups@[k].row_id()
                < board.next_group_id by {
                let i = choose|i: int| 0 <= i < before.len() && #[trigger] remove_row(before, id)[k]
                    == before[i];
                assert(before[i].row_id() < board.next_group_id);
            }
        }
        let ghost e_id = board.next_event_id;
        board.append_event(EventType::WipGroupDeleted, Payload::WipGroup(deleted), now);
        proof {
            lemma_push_event(
                old(board).ledger@,
                board.ledger@.last(),
                e_id,
                board.next_note_id,
                board.next_group_id,
                board.next_note_id,
                board.next_group_id,
            );
            assert(board.ledger@.drop_last() =~= old(board).ledger@);
            lemma_replay_push(old(board).ledger@, board.ledger@.last());
        }
        Ok(true)
    }

    /// The group `id`, if present.
    pub fn find_by_id(board: &Board, id: i64) -> (r: Option<WipGroup>)
        requires
            board.wf(),
        ensures
            r == if has_id(board.groups_view(), id) {
                Some(row_with_id(board.groups_view(), id))
            } else {
                None
            },
    {
        match find_row(&board.groups, id) {
            None => None,
            Some(i) => {
                proof {
                    lemma_row_with_id(board.groups@, i as int);
                }
                Some(board.groups[i].clone())
            },
        }
    }

    /// Every group, ordered by position; equal positions keep table order.
    pub fn find_all(board: &Board) -> (r: Vec<WipGroup>)
        ensures
            r@ == by_position(board.groups_view()),
    {
        sorted_by_position(&board.groups)
    }
}

} // verus!
