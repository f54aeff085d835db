use kanban_ledger::board::notes::reassignment;
use kanban_ledger::board::sprites::stale_sprites;
use kanban_ledger::board::{Board, BoardError, PersistenceFault};
use kanban_ledger::ledger::{EventType, LedgerEvent, Payload};
use kanban_ledger::models::{
    CreateNote, CreateSprite, CreateWipGroup, Note, Sprite, UpdateNote, UpdateWipGroup, WipGroup,
    DEFAULT_NOTE_COLOR, DEFAULT_NOTE_STATUS, DEFAULT_SPRITE_STATUS,
};

fn group(board: &mut Board, name: &str, now: i64) -> WipGroup {
    WipGroup::create(board, CreateWipGroup { name: name.to_string() }, now).unwrap()
}

fn note(board: &mut Board, title: &str, group_id: i64, now: i64) -> Note {
    let input = CreateNote { title: title.to_string(), color: "#123456".to_string(), wip_group_id: group_id };
    Note::create(board, input, now).unwrap()
}

fn only_position(p: i64) -> UpdateNote {
    UpdateNote { title: None, color: None, wip_group_id: None, position: Some(p), status: None }
}

fn position_of(board: &Board, id: i64) -> i64 {
    Note::find_by_id(board, id).unwrap().position
}

#[test]
fn reorder_last_to_front_shifts_siblings() {
    let mut b = Board::new();
    let g = group(&mut b, "G", 10);
    let a = note(&mut b, "A", g.id, 11);
    let bb = note(&mut b, "B", g.id, 12);
    let c = note(&mut b, "C", g.id, 13);
    Note::update(&mut b, a.id, only_position(0), 14).unwrap();
    Note::update(&mut b, bb.id, only_position(1), 15).unwrap();
    Note::update(&mut b, c.id, only_position(2), 16).unwrap();
    let moved = Note::reorder(&mut b, c.id, 0, 17).unwrap();
    assert_eq!(moved.position, 0);
    assert_eq!(position_of(&b, a.id), 1);
    assert_eq!(position_of(&b, bb.id), 2);
    assert_eq!(position_of(&b, c.id), 0);
}

#[test]
fn reorder_front_to_back_and_negative_target() {
    let mut b = Board::new();
    let g = group(&mut b, "G", 10);
    let ids: Vec<i64> = (0..4).map(|i| note(&mut b, "n", g.id, 20 + i).id).collect();
    for (p, id) in ids.iter().enumerate() {
        Note::update(&mut b, *id, only_position(p as i64), 30).unwrap();
    }
    Note::reorder(&mut b, ids[0], 2, 40).unwrap();
    let got: Vec<i64> = ids.iter().map(|id| position_of(&b, *id)).collect();
    assert_eq!(got, vec![2, 0, 1, 3]);
    Note::reorder(&mut b, ids[3], -5, 41).unwrap();
    let got: Vec<i64> = ids.iter().map(|id| position_of(&b, *id)).collect();
    assert_eq!(got, vec![3, 1, 2, 0]);
    let mut sorted = got.clone();
    sorted.sort();
    assert_eq!(sorted, vec![0, 1, 2, 3]);
}

#[test]
fn reorder_leaves_other_groups_alone() {
    let mut b = Board::new();
    let g = group(&mut b, "G", 1);
    let h = group(&mut b, "H", 2);
    let a = note(&mut b, "A", g.id, 3);
    let c = note(&mut b, "C", g.id, 4);
    let other = note(&mut b, "X", h.id, 5);
    Note::reorder(&mut b, c.id, 1, 6).unwrap();
    assert_eq!(position_of(&b, a.id), 2);
    assert_eq!(position_of(&b, c.id), 1);
    assert_eq!(position_of(&b, other.id), 1);
}

#[test]
fn reorder_to_current_position_records_nothing() {
    let mut b = Board::new();
    let g = group(&mut b, "G", 1);
    let a = note(&mut b, "A", g.id, 2);
    let before = b.events().len();
    let same = Note::reorder(&mut b, a.id, a.position, 3).unwrap();
    assert_eq!(same, a);
    assert_eq!(b.events().len(), before);
    assert_eq!(Note::find_all(&b), vec![a]);
}

#[test]
fn reorder_beyond_end_becomes_maximum() {
    let mut b = Board::new();
    let g = group(&mut b, "G", 1);
    let a = note(&mut b, "A", g.id, 2);
    let c = note(&mut b, "C", g.id, 3);
    Note::reorder(&mut b, a.id, 10, 4).unwrap();
    assert_eq!(position_of(&b, a.id), 10);
    assert_eq!(position_of(&b, c.id), 1);
}

#[test]
fn reorder_missing_note_is_not_found() {
    let mut b = Board::new();
    assert_eq!(Note::reorder(&mut b, 7, 0, 1), Err(BoardError::NotFound));
    assert!(b.events().is_empty());
}

#[test]
fn groups_take_next_position() {
    let mut b = Board::new();
    let backlog = group(&mut b, "Backlog", 1);
    let doing = group(&mut b, "Doing", 2);
    assert_eq!(backlog.position, 1);
    assert_eq!(doing.position, 2);
    assert_eq!(backlog.name, "Backlog");
    assert_eq!((backlog.created_at, backlog.updated_at), (1, 1));
}

#[test]
fn notes_take_next_position_in_their_group() {
    let mut b = Board::new();
    let g = group(&mut b, "G", 1);
    let h = group(&mut b, "H", 2);
    let a = note(&mut b, "A", g.id, 3);
    let c = note(&mut b, "C", g.id, 4);
    let x = note(&mut b, "X", h.id, 5);
    assert_eq!((a.position, c.position, x.position), (1, 2, 1));
    Note::update(&mut b, c.id, only_position(9), 6).unwrap();
    assert_eq!(note(&mut b, "D", g.id, 7).position, 10);
}

#[test]
fn create_note_fills_defaults() {
    let mut b = Board::new();
    let g = group(&mut b, "G", 1);
    let input = CreateNote { title: "t".to_string(), color: String::new(), wip_group_id: g.id };
    let n = Note::create(&mut b, input, 42).unwrap();
    assert_eq!(n.color, DEFAULT_NOTE_COLOR);
    assert_eq!(n.status, DEFAULT_NOTE_STATUS);
    assert_eq!((n.created_at, n.updated_at), (42, 42));
    assert_eq!(n.id, 1);
}

#[test]
fn create_note_in_missing_group_fails() {
    let mut b = Board::new();
    let input = CreateNote { title: "t".to_string(), color: String::new(), wip_group_id: 3 };
    assert_eq!(
        Note::create(&mut b, input, 1),
        Err(BoardError::PersistenceFailure(PersistenceFault::MissingGroup))
    );
    assert!(b.events().is_empty());
}

#[test]
fn update_applies_only_supplied_fields() {
    let mut b = Board::new();
    let g = group(&mut b, "G", 1);
    let n = note(&mut b, "old", g.id, 2);
    let upd = UpdateNote {
        title: Some("new".to_string()),
        color: None,
        wip_group_id: None,
        position: None,
        status: Some("done".to_string()),
    };
    let m = Note::update(&mut b, n.id, upd, 9).unwrap();
    assert_eq!(m.title, "new");
    assert_eq!(m.status, "done");
    assert_eq!(m.color, n.color);
    assert_eq!(m.position, n.position);
    assert_eq!(m.created_at, 2);
    assert_eq!(m.updated_at, 9);
    assert_eq!(Note::find_by_id(&b, n.id), Some(m));
}

#[test]
fn update_missing_note_or_group_fails() {
    let mut b = Board::new();
    let g = group(&mut b, "G", 1);
    let n = note(&mut b, "A", g.id, 2);
    let len = b.events().len();
    assert_eq!(Note::update(&mut b, 99, only_position(1), 3), Err(BoardError::NotFound));
    let upd = UpdateNote { title: None, color: None, wip_group_id: Some(77), position: None, status: None };
    assert_eq!(
        Note::update(&mut b, n.id, upd, 3),
        Err(BoardError::PersistenceFailure(PersistenceFault::MissingGroup))
    );
    assert_eq!(b.events().len(), len);
}

#[test]
fn delete_missing_note_is_not_found() {
    let mut b = Board::new();
    let g = group(&mut b, "G", 1);
    let len = b.events().len();
    assert_eq!(Note::delete(&mut b, 12345, 2), Err(BoardError::NotFound));
    assert_eq!(b.events().len(), len);
    let _ = g;
}

#[test]
fn deleted_note_is_gone_for_good() {
    let mut b = Board::new();
    let g = group(&mut b, "G", 1);
    let n = note(&mut b, "A", g.id, 2);
    assert_eq!(Note::delete(&mut b, n.id, 3), Ok(true));
    assert_eq!(Note::find_by_id(&b, n.id), None);
    assert_eq!(Note::delete(&mut b, n.id, 4), Err(BoardError::NotFound));
    assert_eq!(Note::reorder(&mut b, n.id, 0, 4), Err(BoardError::NotFound));
    let again = note(&mut b, "B", g.id, 5);
    assert_ne!(again.id, n.id);
}

#[test]
fn each_mutation_appends_one_matching_event() {
    let mut b = Board::new();
    let g = group(&mut b, "G", 1);
    let n = note(&mut b, "A", g.id, 2);
    let m = Note::update(&mut b, n.id, only_position(5), 3).unwrap();
    let r = Note::reorder(&mut b, n.id, 0, 4).unwrap();
    assert_eq!(Note::delete(&mut b, n.id, 5), Ok(true));
    let g2 = WipGroup::update(&mut b, g.id, UpdateWipGroup { name: Some("H".to_string()), position: None }, 6).unwrap();
    let s = Sprite::create(&mut b, CreateSprite { id: "s1".to_string(), sigil: "@".to_string(), wip_group_id: Some(g.id) }, 7).unwrap();
    let s2 = Sprite::update_status(&mut b, "s1", "Busy".to_string(), 8).unwrap();
    let s3 = Sprite::update_heartbeat(&mut b, "s1", 9).unwrap();
    let ev = b.events();
    let expect = vec![
        (EventType::WipGroupCreated, Payload::WipGroup(g.clone())),
        (EventType::NoteCreated, Payload::Note(n.clone())),
        (EventType::NoteUpdated, Payload::Note(m)),
        (EventType::NoteReordered, Payload::Note(r.clone())),
        (EventType::NoteDeleted, Payload::Note(r)),
        (EventType::WipGroupUpdated, Payload::WipGroup(g2)),
        (EventType::SpriteCreated, Payload::Sprite(s)),
        (EventType::SpriteUpdated, Payload::Sprite(s2)),
        (EventType::SpriteUpdated, Payload::Sprite(s3)),
    ];
    assert_eq!(ev.len(), expect.len());
    for (i, (kind, payload)) in expect.into_iter().enumerate() {
        assert_eq!(ev[i].id, i as i64 + 1);
        assert_eq!(ev[i].timestamp, i as i64 + 1);
        assert_eq!(ev[i].kind, kind);
        assert_eq!(ev[i].payload, payload);
    }
}

#[test]
fn group_delete_requires_an_empty_group() {
    let mut b = Board::new();
    let g = group(&mut b, "G", 1);
    let n = note(&mut b, "A", g.id, 2);
    assert_eq!(
        WipGroup::delete(&mut b, g.id, 3),
        Err(BoardError::PersistenceFailure(PersistenceFault::GroupInUse))
    );
    Note::delete(&mut b, n.id, 4).unwrap();
    Sprite::create(&mut b, CreateSprite { id: "w".to_string(), sigil: "*".to_string(), wip_group_id: Some(g.id) }, 5).unwrap();
    assert_eq!(
        WipGroup::delete(&mut b, g.id, 6),
        Err(BoardError::PersistenceFailure(PersistenceFault::GroupInUse))
    );
    assert_eq!(WipGroup::delete(&mut b, 999, 6), Err(BoardError::NotFound));
}

#[test]
fn group_delete_and_update() {
    let mut b = Board::new();
    let g = group(&mut b, "G", 1);
    let h = group(&mut b, "H", 2);
    let moved = WipGroup::update(&mut b, h.id, UpdateWipGroup { name: None, position: Some(0) }, 3).unwrap();
    assert_eq!(moved.name, "H");
    assert_eq!(moved.position, 0);
    assert_eq!(moved.updated_at, 3);
    let all = WipGroup::find_all(&b);
    assert_eq!(all.iter().map(|x| x.id).collect::<Vec<_>>(), vec![h.id, g.id]);
    assert_eq!(WipGroup::delete(&mut b, g.id, 4), Ok(true));
    assert_eq!(WipGroup::find_by_id(&b, g.id), None);
    assert_eq!(
        WipGroup::update(&mut b, g.id, UpdateWipGroup { name: None, position: None }, 5),
        Err(BoardError::NotFound)
    );
}

#[test]
fn listing_orders_by_position() {
    let mut b = Board::new();
    let g = group(&mut b, "G", 1);
    let h = group(&mut b, "H", 2);
    let a = note(&mut b, "A", g.id, 3);
    let x = note(&mut b, "X", h.id, 4);
    let c = note(&mut b, "C", g.id, 5);
    Note::update(&mut b, a.id, only_position(7), 6).unwrap();
    let titles: Vec<String> = Note::find_by_wip_group_id(&b, g.id).into_iter().map(|n| n.title).collect();
    assert_eq!(titles, vec!["C".to_string(), "A".to_string()]);
    let all: Vec<i64> = Note::find_all(&b).into_iter().map(|n| n.id).collect();
    assert_eq!(all, vec![x.id, c.id, a.id]);
}

#[test]
fn sprites_lifecycle() {
    let mut b = Board::new();
    let g = group(&mut b, "G", 1);
    let s = Sprite::create(&mut b, CreateSprite { id: "01H".to_string(), sigil: "#".to_string(), wip_group_id: Some(g.id) }, 2).unwrap();
    assert_eq!(s.status, DEFAULT_SPRITE_STATUS);
    assert_eq!((s.last_seen, s.created_at, s.updated_at), (2, 2, 2));
    assert_eq!(
        Sprite::create(&mut b, CreateSprite { id: "01H".to_string(), sigil: "?".to_string(), wip_group_id: None }, 3),
        Err(BoardError::PersistenceFailure(PersistenceFault::DuplicateId))
    );
    assert_eq!(
        Sprite::create(&mut b, CreateSprite { id: "02".to_string(), sigil: "?".to_string(), wip_group_id: Some(50) }, 3),
        Err(BoardError::PersistenceFailure(PersistenceFault::MissingGroup))
    );
    Sprite::create(&mut b, CreateSprite { id: "03".to_string(), sigil: "%".to_string(), wip_group_id: None }, 4).unwrap();
    let busy = Sprite::update_status(&mut b, "01H", "Busy".to_string(), 5).unwrap();
    assert_eq!(busy.status, "Busy");
    assert_eq!(busy.last_seen, 5);
    assert_eq!(busy.updated_at, 2);
    let beat = Sprite::update_heartbeat(&mut b, "01H", 6).unwrap();
    assert_eq!(beat.last_seen, 6);
    assert_eq!(beat.status, "Busy");
    assert_eq!(Sprite::update_status(&mut b, "nope", "Idle".to_string(), 7), Err(BoardError::NotFound));
    assert_eq!(Sprite::update_heartbeat(&mut b, "nope", 7), Err(BoardError::NotFound));
    assert_eq!(Sprite::find_by_id(&b, "01H"), Some(beat));
    assert_eq!(Sprite::find_all(&b).len(), 2);
    let in_g: Vec<String> = Sprite::find_by_wip_group_id(&b, g.id).into_iter().map(|s| s.id).collect();
    assert_eq!(in_g, vec!["01H".to_string()]);
}

#[test]
fn reassignment_reports_group_change() {
    let mut b = Board::new();
    let g = group(&mut b, "G", 1);
    let h = group(&mut b, "H", 2);
    let n = note(&mut b, "A", g.id, 3);
    let upd = UpdateNote { title: None, color: None, wip_group_id: Some(h.id), position: None, status: None };
    let m = Note::update(&mut b, n.id, upd, 4).unwrap();
    let change = reassignment(&n, &m).unwrap();
    assert_eq!((change.from, change.to), (g.id, h.id));
    assert_eq!(reassignment(&m, &m), None);
}

#[test]
fn idle_sweep_selects_silent_sprites() {
    let mut b = Board::new();
    for (id, t) in [("a", 10), ("b", 20), ("c", 30)] {
        Sprite::create(&mut b, CreateSprite { id: id.to_string(), sigil: "*".to_string(), wip_group_id: None }, t).unwrap();
    }
    Sprite::update_status(&mut b, "a", "Busy".to_string(), 11).unwrap();
    Sprite::update_status(&mut b, "b", "Busy".to_string(), 21).unwrap();
    assert_eq!(stale_sprites(&b, 25, "Idle"), vec!["a".to_string(), "b".to_string()]);
    assert_eq!(stale_sprites(&b, 15, "Idle"), vec!["a".to_string()]);
    assert_eq!(stale_sprites(&b, 100, "Busy"), vec!["c".to_string()]);
    assert!(stale_sprites(&b, 5, "Idle").is_empty());
}

#[test]
fn positions_at_the_largest_value_refuse_a_successor() {
    let mut b = Board::new();
    let g = group(&mut b, "G", 1);
    WipGroup::update(&mut b, g.id, UpdateWipGroup { name: None, position: Some(i64::MAX) }, 2).unwrap();
    let len = b.events().len();
    assert_eq!(
        WipGroup::create(&mut b, CreateWipGroup { name: "H".to_string() }, 3),
        Err(BoardError::PersistenceFailure(PersistenceFault::PositionOverflow))
    );
    let n = note(&mut b, "A", g.id, 4);
    Note::update(&mut b, n.id, only_position(i64::MAX), 5).unwrap();
    let input = CreateNote { title: "B".to_string(), color: String::new(), wip_group_id: g.id };
    assert_eq!(
        Note::create(&mut b, input, 6),
        Err(BoardError::PersistenceFailure(PersistenceFault::PositionOverflow))
    );
    assert_eq!(b.events().len(), len + 2);
}

#[test]
fn exhausted_event_ids_refuse_every_change() {
    let g = WipGroup { id: 1, name: "G".to_string(), position: 1, created_at: 0, updated_at: 0 };
    let events = vec![LedgerEvent {
        id: i64::MAX - 1,
        timestamp: 0,
        kind: EventType::WipGroupCreated,
        payload: Payload::WipGroup(g),
    }];
    let (mut b, _) = Board::restore(events).unwrap();
    let exhausted = Err(BoardError::PersistenceFailure(PersistenceFault::IdsExhausted));
    assert_eq!(WipGroup::create(&mut b, CreateWipGroup { name: "H".to_string() }, 1), exhausted);
    assert_eq!(WipGroup::delete(&mut b, 1, 1), exhausted.map(|_: WipGroup| true));
    assert_eq!(b.events().len(), 1);
    assert_eq!(WipGroup::find_all(&b).len(), 1);
}
