//! The read side of the store: the queries behind the endpoints.

pub mod reports;
pub mod scripts;
pub mod span;
pub mod test;
