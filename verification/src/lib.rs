//! Distributed-tracing and test-result analytics core: span ingestion into a
//! normalised store, derivation of test results from finished traces, report
//! placement, retention, and the queries over all of them.

pub mod api;
pub mod config;
pub mod db;
pub mod engine;
pub mod opentracing;
pub mod seqs;
pub mod text;
