use kanban_ledger::board::{Board, BoardError, PersistenceFault};
use kanban_ledger::ledger::{EventLog, EventType, LedgerEvent, Payload};
use kanban_ledger::models::{
    CreateNote, CreateSprite, CreateWipGroup, Note, Sprite, UpdateNote, WipGroup,
};
use kanban_ledger::rewind::{
    replay_events, rewind_state, truncate_tables, SkipReason, SkippedEvent,
};

fn busy_board() -> Board {
    let mut b = Board::new();
    let g = WipGroup::create(&mut b, CreateWipGroup { name: "Backlog".to_string() }, 1).unwrap();
    let h = WipGroup::create(&mut b, CreateWipGroup { name: "Doing".to_string() }, 2).unwrap();
    let mut ids = Vec::new();
    for i in 0..4 {
        let input = CreateNote { title: format!("n{}", i), color: String::new(), wip_group_id: g.id };
        ids.push(Note::create(&mut b, input, 3 + i).unwrap().id);
    }
    Note::reorder(&mut b, ids[3], 0, 10).unwrap();
    Note::reorder(&mut b, ids[0], 3, 11).unwrap();
    let upd = UpdateNote { title: Some("moved".to_string()), color: None, wip_group_id: Some(h.id), position: None, status: None };
    Note::update(&mut b, ids[1], upd, 12).unwrap();
    Note::delete(&mut b, ids[2], 13).unwrap();
    Sprite::create(&mut b, CreateSprite { id: "w1".to_string(), sigil: "@".to_string(), wip_group_id: Some(h.id) }, 14).unwrap();
    Sprite::update_status(&mut b, "w1", "Busy".to_string(), 15).unwrap();
    Sprite::update_heartbeat(&mut b, "w1", 16).unwrap();
    b
}

fn snapshot(b: &Board) -> (Vec<Note>, Vec<WipGroup>, Vec<Sprite>) {
    (Note::find_all(b), WipGroup::find_all(b), Sprite::find_all(b))
}

#[test]
fn rewind_reproduces_tables() {
    let mut b = busy_board();
    let before = snapshot(&b);
    let events = b.events().clone();
    let skipped = rewind_state(&mut b);
    assert!(skipped.is_empty());
    assert_eq!(snapshot(&b), before);
    assert_eq!(b.events(), &events);
}

#[test]
fn emergency_blow_empties_tables_and_keeps_ledger() {
    let mut b = busy_board();
    let before = snapshot(&b);
    let events = b.events().clone();
    truncate_tables(&mut b);
    assert!(Note::find_all(&b).is_empty());
    assert!(WipGroup::find_all(&b).is_empty());
    assert!(Sprite::find_all(&b).is_empty());
    assert_eq!(b.events(), &events);
    rewind_state(&mut b);
    assert_eq!(snapshot(&b), before);
}

#[test]
fn ids_are_not_reused_after_blow() {
    let mut b = busy_board();
    truncate_tables(&mut b);
    let g = WipGroup::create(&mut b, CreateWipGroup { name: "New".to_string() }, 20).unwrap();
    assert_eq!(g.id, 3);
    assert_eq!(g.position, 1);
    assert_eq!(b.events().last().unwrap().id, 14);
}

#[test]
fn replay_onto_live_tables_keeps_existing_rows() {
    let mut b = busy_board();
    let before = snapshot(&b);
    let skipped = replay_events(&mut b);
    assert!(skipped.is_empty());
    assert_eq!(snapshot(&b).1, before.1);
    assert_eq!(snapshot(&b).2, before.2);
}

#[test]
fn restore_rebuilds_from_stored_ledger() {
    let b = busy_board();
    let (restored, skipped) = Board::restore(b.events().clone()).unwrap();
    assert!(skipped.is_empty());
    assert_eq!(snapshot(&restored), snapshot(&b));
    let mut restored = restored;
    let g = WipGroup::create(&mut restored, CreateWipGroup { name: "Z".to_string() }, 30).unwrap();
    assert_eq!(g.id, 3);
    assert_eq!(restored.events().last().unwrap().id, 14);
}

#[test]
fn replay_skips_unrecognized_kind() {
    let b = busy_board();
    let mut events = b.events().clone();
    let last_id = events.last().unwrap().id;
    events.insert(
        3,
        LedgerEvent {
            id: 0,
            timestamp: 0,
            kind: EventType::Unknown("NOTE_ARCHIVED".to_string()),
            payload: Payload::Raw("{\"id\":1}".to_string()),
        },
    );
    for (i, e) in events.iter_mut().enumerate() {
        e.id = i as i64 + 1;
    }
    let (restored, skipped) = Board::restore(events).unwrap();
    assert_eq!(skipped, vec![SkippedEvent { event_id: 4, reason: SkipReason::UnrecognizedKind }]);
    assert_eq!(snapshot(&restored), snapshot(&b));
    assert_eq!(restored.events().len() as i64, last_id + 1);
}

#[test]
fn replay_skips_undecodable_payload() {
    let b = busy_board();
    let mut events = b.events().clone();
    let n = events.len() as i64;
    events.push(LedgerEvent {
        id: n + 1,
        timestamp: 99,
        kind: EventType::NoteDeleted,
        payload: Payload::Raw("not json".to_string()),
    });
    events.push(LedgerEvent {
        id: n + 2,
        timestamp: 99,
        kind: EventType::SpriteDeleted,
        payload: Payload::WipGroup(WipGroup::find_all(&b)[0].clone()),
    });
    let (restored, skipped) = Board::restore(events).unwrap();
    assert_eq!(
        skipped,
        vec![
            SkippedEvent { event_id: n + 1, reason: SkipReason::DecodeFailure },
            SkippedEvent { event_id: n + 2, reason: SkipReason::DecodeFailure },
        ]
    );
    assert_eq!(snapshot(&restored), snapshot(&b));
}

#[test]
fn restore_refuses_unordered_ledger() {
    let b = busy_board();
    let mut events = b.events().clone();
    events.swap(0, 1);
    assert_eq!(
        Board::restore(events).unwrap_err(),
        BoardError::PersistenceFailure(PersistenceFault::LedgerOutOfOrder)
    );
}

#[test]
fn restore_refuses_exhausted_ids() {
    let g = WipGroup { id: i64::MAX, name: "G".to_string(), position: 1, created_at: 0, updated_at: 0 };
    let events = vec![LedgerEvent { id: 1, timestamp: 0, kind: EventType::WipGroupCreated, payload: Payload::WipGroup(g) }];
    assert_eq!(
        Board::restore(events).unwrap_err(),
        BoardError::PersistenceFailure(PersistenceFault::IdsExhausted)
    );
}

#[test]
fn restore_of_empty_ledger_is_empty_board() {
    let (b, skipped) = Board::restore(Vec::new()).unwrap();
    assert!(skipped.is_empty());
    assert!(b.events().is_empty());
    assert!(Note::find_all(&b).is_empty());
}

#[test]
fn stored_tags_read_back() {
    let kinds = vec![
        EventType::NoteCreated,
        EventType::NoteUpdated,
        EventType::NoteReordered,
        EventType::NoteDeleted,
        EventType::WipGroupCreated,
        EventType::WipGroupUpdated,
        EventType::WipGroupDeleted,
        EventType::SpriteCreated,
        EventType::SpriteUpdated,
        EventType::SpriteDeleted,
    ];
    for k in kinds {
        assert_eq!(EventType::from_tag(&k.tag()), k);
    }
    assert_eq!(EventType::NoteCreated.tag(), "NOTE_CREATED");
    assert_eq!(EventType::WipGroupDeleted.tag(), "WIP_GROUP_DELETED");
    assert_eq!(EventType::from_tag("MOVE"), EventType::Unknown("MOVE".to_string()));
    assert_eq!(EventType::Unknown("MOVE".to_string()).tag(), "MOVE");
    let row = EventLog {
        id: 1,
        timestamp: "2024-01-01 00:00:00".to_string(),
        event_type: "SPRITE_UPDATED".to_string(),
        payload: "{}".to_string(),
    };
    assert_eq!(row.kind(), EventType::SpriteUpdated);
}
