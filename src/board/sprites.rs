use vstd::prelude::*;
use crate::board::{lemma_push_event, lemma_replay_push, Board, BoardError, PersistenceFault, Tables};
use crate::ledger::{EventType, Payload};
use crate::models::{CreateSprite, Sprite, DEFAULT_SPRITE_STATUS};
use crate::table::{find_row, has_id};

verus! {

pub open spec fn has_sprite(sprites: Seq<Sprite>, key: Seq<char>) -> bool {
    exists|i: int| 0 <= i < sprites.len() && #[trigger] sprites[i].id@ == key
}

pub open spec fn unique_sprites(sprites: Seq<Sprite>) -> bool {
    forall|i: int, j: int|
        0 <= i < sprites.len() && 0 <= j < sprites.len() && i != j ==> #[trigger] sprites[i].id@
            != #[trigger] sprites[j].id@
}

/// The sprite whose id reads `key`; meaningful where `has_sprite(sprites, key)`.
pub open spec fn sprite_with_id(sprites: Seq<Sprite>, key: Seq<char>) -> Sprite {
    sprites[choose|i: int| 0 <= i < sprites.len() && #[trigger] sprites[i].id@ == key]
}

/// Adds `s` at the end unless a sprite with its id is already present.
pub open spec fn insert_sprite(sprites: Seq<Sprite>, s: Sprite) -> Seq<Sprite> {
    if has_sprite(sprites, s.id@) {
        sprites
    } else {
        sprites.push(s)
    }
}

/// Puts `s` in place of every sprite that carries its id.
pub open spec fn replace_sprite(sprites: Seq<Sprite>, s: Sprite) -> Seq<Sprite> {
    Seq::new(sprites.len(), |i: int| if sprites[i].id@ == s.id@ { s } else { sprites[i] })
}

/// The sprites, in order, without those whose id reads `key`.
pub open spec fn remove_sprite(sprites: Seq<Sprite>, key: Seq<char>) -> Seq<Sprite>
    decreases sprites.len(),
{
    if sprites.len() == 0 {
        sprites
    } else {
        let rest = remove_sprite(sprites.drop_last(), key);
        if sprites.last().id@ == key {
            rest
        } else {
            rest.push(sprites.last())
        }
    }
}

/// The sprites, in order, that stand in group `group`.
pub open spec fn sprites_in_group(sprites: Seq<Sprite>, group: i64) -> Seq<Sprite>
    decreases sprites.len(),
{
    if sprites.len() == 0 {
        sprites
    } else {
        let rest = sprites_in_group(sprites.drop_last(), group);
        if sprites.last().wip_group_id == Some(group) {
            rest.push(sprites.last())
        } else {
            rest
        }
    }
}

pub proof fn lemma_sprite_with_id(sprites: Seq<Sprite>, i: int)
    requires
        unique_sprites(sprites),
        0 <= i < sprites.len(),
    ensures
        sprite_with_id(sprites, sprites[i].id@) == sprites[i],
{
    let key = sprites[i].id@;
    assert(sprites[i].id@ == key);
    let j = choose|j: int| 0 <= j < sprites.len() && #[trigger] sprites[j].id@ == key;
    assert(j == i);
}

pub proof fn lemma_update_is_replace_sprite(sprites: Seq<Sprite>, i: int, s: Sprite)
    requires
        unique_sprites(sprites),
        0 <= i < sprites.len(),
        sprites[i].id@ == s.id@,
    ensures
        sprites.update(i, s) == replace_sprite(sprites, s),
        unique_sprites(sprites.update(i, s)),
{
    assert(sprites.update(i, s) =~= replace_sprite(sprites, s));
}

pub proof fn lemma_remove_sprite(sprites: Seq<Sprite>, key: Seq<char>)
    ensures
        forall|j: int|
            0 <= j < remove_sprite(sprites, key).len() ==> exists|i: int|
                0 <= i < sprites.len() && #[trigger] remove_sprite(sprites, key)[j] == sprites[i],
        unique_sprites(sprites) ==> unique_sprites(remove_sprite(sprites, key)),
    decreases sprites.len(),
{
    if sprites.len() > 0 {
        let init = sprites.drop_last();
        lemma_remove_sprite(init, key);
        let rest = remove_sprite(init, key);
        if sprites.last().id@ != key {
            let out = rest.push(sprites.last());
            assert forall|j: int| 0 <= j < out.len() implies exists|i: int|
                0 <= i < sprites.len() && #[trigger] out[j] == sprites[i] by {
                if j == rest.len() {
                    assert(out[j] == sprites[sprites.len() - 1]);
                } else {
                    let i = choose|i: int| 0 <= i < init.len() && #[trigger] rest[j] == init[i];
                    assert(out[j] == sprites[i]);
                }
            }
            if unique_sprites(sprites) {
                assert forall|a: int, b: int|
                    0 <= a < out.len() && 0 <= b < out.len() && a != b implies #[trigger] out[a].id@
                        != #[trigger] out[b].id@ by {
                    if a == rest.len() || b == rest.len() {
                        let k = if a == rest.len() { b } else { a };
                        let i = choose|i: int| 0 <= i < init.len() && #[trigger] rest[k] == init[i];
                        assert(sprites[i] == init[i]);
                        assert(sprites[sprites.len() - 1].id@ != sprites[i].id@);
                    } else {
                        assert(unique_sprites(init));
                    }
                }
            }
        } else {
            if unique_sprites(sprites) {
                assert(unique_sprites(init));
            }
        }
    }
}

pub proof fn lemma_push_fresh_sprite(sprites: Seq<Sprite>, s: Sprite)
    requires
        unique_sprites(sprites),
        !has_sprite(sprites, s.id@),
    ensures
        unique_sprites(sprites.push(s)),
{
    let out = sprites.push(s);
    assert forall|a: int, b: int|
        0 <= a < out.len() && 0 <= b < out.len() && a != b implies #[trigger] out[a].id@
            != #[trigger] out[b].id@ by {
        if a < sprites.len() {
            assert(out[a] == sprites[a]);
        }
        if b < sprites.len() {
            assert(out[b] == sprites[b]);
        }
    }
}

/// The index of the sprite whose id reads as `key`.
pub fn find_sprite(sprites: &Vec<Sprite>, key: &String) -> (r: Option<usize>)
    ensures
        match r {
            Some(i) => i < sprites@.len() && sprites@[i as int].id@ == key@,
            None => !has_sprite(sprites@, key@),
        },
{
    let mut i: usize = 0;
    while i < sprites.len()
        invariant
            i <= sprites@.len(),
            forall|k: int| 0 <= k < i ==> #[trigger] sprites@[k].id@ != key@,
        decreases sprites@.len() - i,
    {
        if sprites[i].id == *key {
            return Some(i);
        }
        i = i + 1;
    }
    None
}

/// A copy of the sprites without the one whose id reads `key`.
pub fn without_sprite(sprites: &Vec<Sprite>, key: &String) -> (r: Vec<Sprite>)
    ensures
        r@ == remove_sprite(sprites@, key@),
{
    let mut out: Vec<Sprite> = Vec::new();
    let mut i: usize = 0;
    while i < sprites.len()
        invariant
            i <= sprites@.len(),
            out@ == remove_sprite(sprites@.take(i as int), key@),
        decreases sprites@.len() - i,
    {
        assert(sprites@.take(i + 1).drop_last() =~= sprites@.take(i as int));
        if sprites[i].id != *key {
            out.push(sprites[i].clone());
        }
        i = i + 1;
    }
    assert(sprites@.take(sprites@.len() as int) =~= sprites@);
    out
}

/// Copies of the sprites of group `g`, in table order.
pub fn sprites_of_group(sprites: &Vec<Sprite>, g: i64) -> (r: Vec<Sprite>)
    ensures
        r@ == sprites_in_group(sprites@, g),
{
    let mut out: Vec<Sprite> = Vec::new();
    let mut i: usize = 0;
    while i < sprites.len()
        invariant
            i <= sprites@.len(),
            out@ == sprites_in_group(sprites@.take(i as int), g),
        decreases sprites@.len() - i,
    {
        assert(sprites@.take(i + 1).drop_last() =~= sprites@.take(i as int));
        if sprites[i].wip_group_id == Some(g) {
            out.push(sprites[i].clone());
        }
        i = i + 1;
    }
    assert(sprites@.take(sprites@.len() as int) =~= sprites@);
    out
}

/// The sprites, in order, last seen before `cutoff` whose status is not
/// `status`.
pub open spec fn stale_rows(sprites: Seq<Sprite>, cutoff: i64, status: Seq<char>) -> Seq<Sprite>
    decreases sprites.len(),
{
    if sprites.len() == 0 {
        sprites
    } else {
        let rest = stale_rows(sprites.drop_last(), cutoff, status);
        let s = sprites.last();
        if s.last_seen < cutoff && s.status@ != status {
            rest.push(s)
        } else {
            rest
        }
    }
}

/// The ids of the sprites last seen before `cutoff` whose status is not yet
/// `status`: those an idle sweep marks with `status`.
pub fn stale_sprites(board: &Board, cutoff: i64, status: &str) -> (r: Vec<String>)
    ensures
        r@.len() == stale_rows(board.sprites_view(), cutoff, status@).len(),
        forall|i: int|
            0 <= i < r@.len() ==> #[trigger] r@[i] == stale_rows(board.sprites_view(), cutoff, status@)[i].id,
{
    let wanted = status.to_owned();
    let mut out: Vec<String> = Vec::new();
    let mut i: usize = 0;
    while i < board.sprites.len()
        invariant
            i <= board.sprites@.len(),
            wanted@ == status@,
            out@.len() == stale_rows(board.sprites@.take(i as int), cutoff, status@).len(),
            forall|k: int|
                0 <= k < out@.len() ==> #[trigger] out@[k] == stale_rows(
                    board.sprites@.take(i as int),
                    cutoff,
                    status@,
                )[k].id,
        decreases board.sprites@.len() - i,
    {
        assert(board.sprites@.take(i + 1).drop_last() =~= board.sprites@.take(i as int));
        let s = &board.sprites[i];
        if s.last_seen < cutoff && s.status != wanted {
            out.push(s.id.clone());
        }
        i = i + 1;
    }
    assert(board.sprites@.take(board.sprites@.len() as int) =~= board.sprites@);
    out
}

/// How `create` fails on `b`, if it does.
pub open spec fn create_failure(b: Board, new_sprite: CreateSprite) -> Option<BoardError> {
    if has_sprite(b.sprites_view(), new_sprite.id@) {
        Some(BoardError::PersistenceFailure(PersistenceFault::DuplicateId))
    } else if new_sprite.wip_group_id matches Some(g) && !has_id(b.groups_view(), g) {
        Some(BoardError::PersistenceFailure(PersistenceFault::MissingGroup))
    } else if b.event_counter() == i64::MAX {
        Some(BoardError::PersistenceFailure(PersistenceFault::IdsExhausted))
    } else {
        None
    }
}

/// `s` is the sprite that `create` makes: the given id, sigil and group,
/// the default status, and `now` for every instant.
pub open spec fn is_created_sprite(s: Sprite, new_sprite: CreateSprite, now: i64) -> bool {
    &&& s.id == new_sprite.id
    &&& s.sigil == new_sprite.sigil
    &&& s.status@ == DEFAULT_SPRITE_STATUS@
    &&& s.wip_group_id == new_sprite.wip_group_id
    &&& s.last_seen == now
    &&& s.created_at == now
    &&& s.updated_at == now
}

/// How a status or heartbeat update of the sprite `key` fails on `b`, if it does.
pub open spec fn touch_failure(b: Board, key: Seq<char>) -> Option<BoardError> {
    if !has_sprite(b.sprites_view(), key) {
        Some(BoardError::NotFound)
    } else if b.event_counter() == i64::MAX {
        Some(BoardError::PersistenceFailure(PersistenceFault::IdsExhausted))
    } else {
        None
    }
}

impl Board {
    /// Puts `s` in place of the sprite at `idx`, which carries the same id,
    /// and records a `SpriteUpdated` event carrying it.
    fn commit_sprite(&mut self, idx: usize, s: Sprite, now: i64)
        requires
            old(self).wf(),
            idx < old(self).sprites_view().len(),
            old(self).sprites_view()[idx as int].id@ == s.id@,
            old(self).event_counter() < i64::MAX,
        ensures
            final(self).wf(),
            old(self).in_sync() ==> final(self).in_sync(),
            old(self).commits(
                final(self),
                Tables { sprites: replace_sprite(old(self).sprites_view(), s), ..old(self).tables() },
                EventType::SpriteUpdated,
                Payload::Sprite(s),
                now,
            ),
            final(self).note_counter() == old(self).note_counter(),
            final(self).group_counter() == old(self).group_counter(),
    {
        proof {
            lemma_update_is_replace_sprite(self.sprites@, idx as int, s);
        }
        self.sprites.set(idx, s.clone());
        let ghost e_id = self.next_event_id;
        self.append_event(EventType::SpriteUpdated, Payload::Sprite(s), now);
        proof {
            lemma_push_event(
                old(self).ledger@,
                self.ledger@.last(),
                e_id,
                self.next_note_id,
                self.next_group_id,
                self.next_note_id,
                self.next_group_id,
            );
            assert(self.ledger@.drop_last() =~= old(self).ledger@);
            lemma_replay_push(old(self).ledger@, self.ledger@.last());
        }
    }
}

impl Sprite {
    /// Registers a sprite under the id its creator chose and records a
    /// `SpriteCreated` event carrying it.
    pub fn create(board: &mut Board, new_sprite: CreateSprite, now: i64) -> (r: Result<
        Sprite,
        BoardError,
    >)
        requires
            old(board).wf(),
        ensures
            final(board).wf(),
            old(board).in_sync() ==> final(board).in_sync(),
            r is Err <==> create_failure(*old(board), new_sprite) is Some,
            r matches Err(e) ==> Some(e) == create_failure(*old(board), new_sprite)
                && *final(board) == *old(board),
            r matches Ok(s) ==> {
                &&& is_created_sprite(s, new_sprite, now)
                &&& old(board).commits(
                    final(board),
                    Tables { sprites: old(board).sprites_view().push(s), ..old(board).tables() },
                    EventType::SpriteCreated,
                    Payload::Sprite(s),
                    now,
                )
                &&& final(board).note_counter() == old(board).note_counter()
                &&& final(board).group_counter() == old(board).group_counter()
            },
    {
        if find_sprite(&board.sprites, &new_sprite.id).is_some() {
            return Err(BoardError::PersistenceFailure(PersistenceFault::DuplicateId));
        }
        if let Some(g) = new_sprite.wip_group_id {
            if find_row(&board.groups, g).is_none() {
                return Err(BoardError::PersistenceFailure(PersistenceFault::MissingGroup));
            }
        }
        if board.next_event_id == i64::MAX {
            return Err(BoardError::PersistenceFailure(PersistenceFault::IdsExhausted));
        }
        let sprite = Sprite {
            id: new_sprite.id,
            sigil: new_sprite.sigil,
            status: DEFAULT_SPRITE_STATUS.to_owned(),
            wip_group_id: new_sprite.wip_group_id,
            last_seen: now,
            created_at: now,
            updated_at: now,
        };
        let ghost before = board.sprites@;
        board.sprites.push(sprite.clone());
        assert forall|a: int, b: int|
            0 <= a < board.sprites@.len() && 0 <= b < board.sprites@.len() && a != b implies #[trigger] board.sprites@[a].id@
                != #[trigger] board.sprites@[b].id@ by {
            if a < before.len() && b < before.len() {
                assert(board.sprites@[a] == before[a] && board.sprites@[b] == before[b]);
            } else if a < before.len() {
                assert(board.sprites@[a] == before[a]);
            } else {
                assert(board.sprites@[b] == before[b]);
            }
        }
        let ghost e_id = board.next_event_id;
        board.append_event(EventType::SpriteCreated, Payload::Sprite(sprite.clone()), now);
        proof {
            lemma_push_event(
                old(board).ledger@,
                board.ledger@.last(),
                e_id,
                board.next_note_id,
                board.next_group_id,
                board.next_note_id,
                board.next_group_id,
            );
            assert(board.ledger@.drop_last() =~= old(board).ledger@);
            lemma_replay_push(old(board).ledger@, board.ledger@.last());
        }
        Ok(sprite)
    }

    /// Sets the status of the sprite `id`, marks it seen at `now`, and records
    /// a `SpriteUpdated` event carrying the result.
    pub fn update_status(board: &mut Board, id: &str, status: String, now: i64) -> (r: Result<
        Sprite,
        BoardError,
    >)
        requires
            old(board).wf(),
        ensures
            final(board).wf(),
            old(board).in_sync() ==> final(board).in_sync(),
            r is Err <==> touch_failure(*old(board), id@) is Some,
            r matches Err(e) ==> Some(e) == touch_failure(*old(board), id@) && *final(board)
                == *old(board),
            r matches Ok(s) ==> {
                &&& s == Sprite {
                    status,
                    last_seen: now,
                    ..sprite_with_id(old(board).sprites_view(), id@)
                }
                &&& old(board).commits(
                    final(board),
                    Tables { sprites: replace_sprite(old(board).sprites_view(), s), ..old(board).tables() },
                    EventType::SpriteUpdated,
                    Payload::Sprite(s),
                    now,
                )
                &&& final(board).note_counter() == old(board).note_counter()
                &&& final(board).group_counter() == old(board).group_counter()
            },
    {
        let key = id.to_owned();
        let idx = match find_sprite(&board.sprites, &key) {
            None => return Err(BoardError::NotFound),
            Some(i) => i,
        };
        proof {
            lemma_sprite_with_id(board.sprites@, idx as int);
        }
        if board.next_event_id == i64::MAX {
            return Err(BoardError::PersistenceFailure(PersistenceFault::IdsExhausted));
        }
        let mut sprite = board.sprites[idx].clone();
        sprite.status = status;
        sprite.last_seen = now;
        board.commit_sprite(idx, sprite.clone(), now);
        Ok(sprite)
    }

    /// Marks the sprite `id` seen at `now` and records a `SpriteUpdated` event
    /// carrying the result.
    pub fn update_heartbeat(board: &mut Board, id: &str, now: i64) -> (r: Result<Sprite, BoardError>)
        requires
            old(board).wf(),
        ensures
            final(board).wf(),
            old(board).in_sync() ==> final(board).in_sync(),
            r is Err <==> touch_failure(*old(board), id@) is Some,
            r matches Err(e) ==> Some(e) == touch_failure(*old(board), id@) && *final(board)
                == *old(board),
            r matches Ok(s) ==> {
                &&& s == Sprite { last_seen: now, ..sprite_with_id(old(board).sprites_view(), id@) }
                &&& old(board).commits(
                    final(board),
                    Tables { sprites: replace_sprite(old(board).sprites_view(), s), ..old(board).tables() },
                    EventType::SpriteUpdated,
                    Payload::Sprite(s),
                    now,
                )
                &&& final(board).note_counter() == old(board).note_counter()
                &&& final(board).group_counter() == old(board).group_counter()
            },
    {
        let key = id.to_owned();
        let idx = match find_sprite(&board.sprites, &key) {
            None => return Err(BoardError::NotFound),
            Some(i) => i,
        };
        proof {
            lemma_sprite_with_id(board.sprites@, idx as int);
        }
        if board.next_event_id == i64::MAX {
            return Err(BoardError::PersistenceFailure(PersistenceFault::IdsExhausted));
        }
        let mut sprite = board.sprites[idx].clone();
        sprite.last_seen = now;
        board.commit_sprite(idx, sprite.clone(), now);
        Ok(sprite)
    }

    /// The sprite `id`, if present.
    pub fn find_by_id(board: &Board, id: &str) -> (r: Option<Sprite>)
        requires
            board.wf(),
        ensures
            r == if has_sprite(board.sprites_view(), id@) {
                Some(sprite_with_id(board.sprites_view(), id@))
            } else {
                None
            },
    {
        let key = id.to_owned();
        match find_sprite(&board.sprites, &key) {
            None => None,
            Some(i) => {
                proof {
                    lemma_sprite_with_id(board.sprites@, i as int);
                }
                Some(board.sprites[i].clone())
            },
        }
    }

    /// Every sprite, in table order.
    pub fn find_all(board: &Board) -> (r: Vec<Sprite>)
        ensures
            r@ == board.sprites_view(),
    {
        let mut out: Vec<Sprite> = Vec::new();
        let mut i: usize = 0;
        while i < board.sprites.len()
            invariant
                i <= board.sprites@.len(),
                out@ == board.sprites@.take(i as int),
            decreases board.sprites@.len() - i,
        {
            out.push(board.sprites[i].clone());
            i = i + 1;
            assert(out@ =~= board.sprites@.take(i as int));
        }
        assert(board.sprites@.take(board.sprites@.len() as int) =~= board.sprites@);
        out
    }

    /// The sprites of group `wip_group_id`, in table order.
    pub fn find_by_wip_group_id(board: &Board, wip_group_id: i64) -> (r: Vec<Sprite>)
        ensures
            r@ == sprites_in_group(board.sprites_view(), wip_group_id),
    {
        sprites_of_group(&board.sprites, wip_group_id)
    }
}

} // verus!
