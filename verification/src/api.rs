//! What the HTTP surface needs from the core: the error kinds, the query
//! parameters and the shapes of the answers.

pub mod errors;
pub mod grafana;
pub mod report;
pub mod script;
pub mod span;
pub mod test;
