//! The normalised store: its tables, the idempotent writes, the queries
//! and the retention sweep.

pub mod helper;
pub mod invariants;
pub mod laws;
pub mod read;
pub mod repeats;
pub mod round_trip;
pub mod schema;
pub mod scripts;
pub mod update;
