//! The write side of the store: idempotent upserts and the retention sweep.

pub mod cleanup;
pub mod reports;
pub mod span;
pub mod test;
