use vstd::prelude::*;
use vstd::string::*;
use crate::models::{Note, Sprite, WipGroup};

verus! {

/// What a ledger event records: one tag per entity and operation, plus a
/// fallback that keeps tags written by a newer schema.
#[derive(Debug, Clone, PartialEq, Eq)]
pub enum EventType {
    NoteCreated,
    NoteUpdated,
    NoteReordered,
    NoteDeleted,
    WipGroupCreated,
    WipGroupUpdated,
    WipGroupDeleted,
    SpriteCreated,
    SpriteUpdated,
    SpriteDeleted,
    Unknown(String),
}

/// The snapshot an event carries: the affected entity after the operation
/// (before it, for a deletion), or the stored text when it could not be read
/// as the entity its kind names.
#[derive(Debug, Clone, PartialEq, Eq)]
pub enum Payload {
    Note(Note),
    WipGroup(WipGroup),
    Sprite(Sprite),
    Raw(String),
}

/// One entry of the ledger. `timestamp` is in seconds since the Unix epoch.
#[derive(Debug, Clone, PartialEq, Eq)]
pub struct LedgerEvent {
    pub id: i64,
    pub timestamp: i64,
    pub kind: EventType,
    pub payload: Payload,
}

/// A ledger row as it is stored: the kind as its tag and the payload as text.
#[derive(Debug, Clone, PartialEq, Eq)]
pub struct EventLog {
    pub id: i64,
    pub timestamp: String,
    pub event_type: String,
    pub payload: String,
}

impl EventType {
    /// The tag under which the kind is stored.
    pub open spec fn tag_view(self) -> Seq<char> {
        match self {
            EventType::NoteCreated => "NOTE_CREATED"@,
            EventType::NoteUpdated => "NOTE_UPDATED"@,
            EventType::NoteReordered => "NOTE_REORDERED"@,
            EventType::NoteDeleted => "NOTE_DELETED"@,
            EventType::WipGroupCreated => "WIP_GROUP_CREATED"@,
            EventType::WipGroupUpdated => "WIP_GROUP_UPDATED"@,
            EventType::WipGroupDeleted => "WIP_GROUP_DELETED"@,
            EventType::SpriteCreated => "SPRITE_CREATED"@,
            EventType::SpriteUpdated => "SPRITE_UPDATED"@,
            EventType::SpriteDeleted => "SPRITE_DELETED"@,
            EventType::Unknown(s) => s@,
        }
    }

    /// `k` is what reading the stored tag `t` gives.
    pub open spec fn read_as(t: Seq<char>, k: EventType) -> bool {
        &&& k.tag_view() == t
        &&& (k is Unknown <==> !is_known_tag(t))
    }

    /// Reads a stored tag; a tag outside the vocabulary is kept as `Unknown`.
    pub fn from_tag(t: &str) -> (r: EventType)
        ensures
            EventType::read_as(t@, r),
    {
        if same_text(t, "NOTE_CREATED") {
            EventType::NoteCreated
        } else if same_text(t, "NOTE_UPDATED") {
            EventType::NoteUpdated
        } else if same_text(t, "NOTE_REORDERED") {
            EventType::NoteReordered
        } else if same_text(t, "NOTE_DELETED") {
            EventType::NoteDeleted
        } else if same_text(t, "WIP_GROUP_CREATED") {
            EventType::WipGroupCreated
        } else if same_text(t, "WIP_GROUP_UPDATED") {
            EventType::WipGroupUpdated
        } else if same_text(t, "WIP_GROUP_DELETED") {
            EventType::WipGroupDeleted
        } else if same_text(t, "SPRITE_CREATED") {
            EventType::SpriteCreated
        } else if same_text(t, "SPRITE_UPDATED") {
            EventType::SpriteUpdated
        } else if same_text(t, "SPRITE_DELETED") {
            EventType::SpriteDeleted
        } else {
            EventType::Unknown(t.to_owned())
        }
    }

    /// The tag under which the kind is stored.
    pub fn tag(&self) -> (r: String)
        ensures
            r@ == self.tag_view(),
    {
        match self {
            EventType::NoteCreated => "NOTE_CREATED".to_owned(),
            EventType::NoteUpdated => "NOTE_UPDATED".to_owned(),
            EventType::NoteReordered => "NOTE_REORDERED".to_owned(),
            EventType::NoteDeleted => "NOTE_DELETED".to_owned(),
            EventType::WipGroupCreated => "WIP_GROUP_CREATED".to_owned(),
            EventType::WipGroupUpdated => "WIP_GROUP_UPDATED".to_owned(),
            EventType::WipGroupDeleted => "WIP_GROUP_DELETED".to_owned(),
            EventType::SpriteCreated => "SPRITE_CREATED".to_owned(),
            EventType::SpriteUpdated => "SPRITE_UPDATED".to_owned(),
            EventType::SpriteDeleted => "SPRITE_DELETED".to_owned(),
            EventType::Unknown(s) => s.clone(),
        }
    }
}

/// The tags of the recognised kinds.
pub open spec fn is_known_tag(t: Seq<char>) -> bool {
    ||| t == "NOTE_CREATED"@
    ||| t == "NOTE_UPDATED"@
    ||| t == "NOTE_REORDERED"@
    ||| t == "NOTE_DELETED"@
    ||| t == "WIP_GROUP_CREATED"@
    ||| t == "WIP_GROUP_UPDATED"@
    ||| t == "WIP_GROUP_DELETED"@
    ||| t == "SPRITE_CREATED"@
    ||| t == "SPRITE_UPDATED"@
    ||| t == "SPRITE_DELETED"@
}

impl EventLog {
    /// The kind that the stored tag names.
    pub fn kind(&self) -> (r: EventType)
        ensures
            EventType::read_as(self.event_type@, r),
    {
        EventType::from_tag(self.event_type.as_str())
    }
}

/// Character-wise equality of two strings.
pub(crate) fn same_text(a: &str, b: &str) -> (r: bool)
    ensures
        r == (a@ == b@),
{
    let n = a.unicode_len();
    if n != b.unicode_len() {
        return false;
    }
    let mut i: usize = 0;
    while i < n
        invariant
            n == a@.len(),
            n == b@.len(),
            i <= n,
            forall|k: int| 0 <= k < i ==> a@[k] == b@[k],
        decreases n - i,
    {
        if a.get_char(i) != b.get_char(i) {
            return false;
        }
        i = i + 1;
    }
    assert(a@ =~= b@);
    true
}

} // verus!
