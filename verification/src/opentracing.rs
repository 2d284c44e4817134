//! The OpenTracing / Zipkin v2 span model and the well-known tag names.

pub mod span;
pub mod tags;
