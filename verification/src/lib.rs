//! Relay of stream entries to a live client, and bounded range search.
//!
//! The library holds the decisions of three components, each written as a
//! step function from a state and an event to the next state and an action:
//! a tailer that follows one stream, a bridge that owns the client transport,
//! and a paginator that walks a time range in pages. The caller performs the
//! actions (store reads, queue pushes, transport sends) and reports back what
//! happened.

pub mod bridge;
pub mod entry;
pub mod search;
pub mod session;
pub mod store;
pub mod tail;
