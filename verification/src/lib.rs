//! Verified core of a small social/event-graph service.
//!
//! The state of the service lives in a property graph of `Event`, `Keyword`
//! and `User` nodes joined by `HAS` and `REGISTERED_TO` edges.  This crate
//! models that graph as an explicit value, [`store::GraphStore`], and verifies
//! the data-access, orchestration and recommendation rules against it: every
//! repository operation states exactly which rows it returns or how it changes
//! the graph, and the cross-entity rules (existence checks before a
//! registration mutation, keyword-set similarity) are proved once and for all.
//! The unverified network adapter that replays these operations against a real
//! graph database lives outside the library.

pub mod strutil;

pub mod sequtil;

pub mod models;

pub mod store;

pub mod repo;

pub mod utils;

pub mod services;

pub mod laws;
