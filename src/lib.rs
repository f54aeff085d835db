//! A task board kept as an event-sourced store: domain tables (groups, notes,
//! sprites) beside an append-only ledger of every change, a gateway whose
//! operations change a table and record the change together, a reorder engine
//! that keeps positions within a group dense, and a replay engine that
//! rebuilds the tables from the ledger alone.
use vstd::prelude::*;

pub mod board;
pub mod ledger;
pub mod models;
pub mod render;
pub mod table;

pub use board::rewind;

verus! {
}
