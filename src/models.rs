use vstd::prelude::*;

verus! {

/// A card on the board. Instants (`created_at`, `updated_at`) are whole
/// seconds since the Unix epoch.
#[derive(Debug, PartialEq, Eq)]
pub struct Note {
    pub id: i64,
    pub title: String,
    pub color: String,
    pub wip_group_id: i64,
    pub position: i64,
    pub status: String,
    pub created_at: i64,
    pub updated_at: i64,
}

/// A column of the board; `position` orders the columns.
#[derive(Debug, PartialEq, Eq)]
pub struct WipGroup {
    pub id: i64,
    pub name: String,
    pub position: i64,
    pub created_at: i64,
    pub updated_at: i64,
}

/// A worker, identified by an opaque token chosen by its creator.
#[derive(Debug, PartialEq, Eq)]
pub struct Sprite {
    pub id: String,
    pub sigil: String,
    pub status: String,
    pub wip_group_id: Option<i64>,
    pub last_seen: i64,
    pub created_at: i64,
    pub updated_at: i64,
}

#[derive(Debug, Clone, PartialEq, Eq)]
pub struct CreateNote {
    pub title: String,
    pub color: String,
    pub wip_group_id: i64,
}

/// A partial update: each `None` leaves the field as it was.
#[derive(Debug, Clone, PartialEq, Eq)]
pub struct UpdateNote {
    pub title: Option<String>,
    pub color: Option<String>,
    pub wip_group_id: Option<i64>,
    pub position: Option<i64>,
    pub status: Option<String>,
}

#[derive(Debug, Clone, PartialEq, Eq)]
pub struct ReorderNote {
    pub new_position: i64,
}

#[derive(Debug, Clone, PartialEq, Eq)]
pub struct CreateWipGroup {
    pub name: String,
}

/// A partial update: each `None` leaves the field as it was.
#[derive(Debug, Clone, PartialEq, Eq)]
pub struct UpdateWipGroup {
    pub name: Option<String>,
    pub position: Option<i64>,
}

#[derive(Debug, Clone, PartialEq, Eq)]
pub struct CreateSprite {
    pub id: String,
    pub sigil: String,
    pub wip_group_id: Option<i64>,
}

#[derive(Debug, Clone, PartialEq, Eq)]
pub struct UpdateSpriteStatus {
    pub status: String,
}

impl Clone for Note {
    fn clone(&self) -> (r: Note)
        ensures
            r == *self,
    {
        Note {
            id: self.id,
            title: self.title.clone(),
            color: self.color.clone(),
            wip_group_id: self.wip_group_id,
            position: self.position,
            status: self.status.clone(),
            created_at: self.created_at,
            updated_at: self.updated_at,
        }
    }
}

impl Clone for WipGroup {
    fn clone(&self) -> (r: WipGroup)
        ensures
            r == *self,
    {
        WipGroup {
            id: self.id,
            name: self.name.clone(),
            position: self.position,
            created_at: self.created_at,
            updated_at: self.updated_at,
        }
    }
}

impl Clone for Sprite {
    fn clone(&self) -> (r: Sprite)
        ensures
            r == *self,
    {
        Sprite {
            id: self.id.clone(),
            sigil: self.sigil.clone(),
            status: self.status.clone(),
            wip_group_id: self.wip_group_id,
            last_seen: self.last_seen,
            created_at: self.created_at,
            updated_at: self.updated_at,
        }
    }
}

} // verus!

verus! {

/// The color a note receives when it is created with an empty one.
pub const DEFAULT_NOTE_COLOR: &'static str = "#fef08a";

/// The status a note receives when it is created.
pub const DEFAULT_NOTE_STATUS: &'static str = "todo";

/// The status a sprite receives when it is created.
pub const DEFAULT_SPRITE_STATUS: &'static str = "Idle";

} // verus!
