//! A single-user task list: an ordered collection of tasks with optional
//! descriptions and due dates, filtered and sorted views, and a plain-text
//! store format whose load/save round-trip is proved.
//!
//! Nothing here guards the backing store against two processes racing over
//! it: the later save wins. That is a known limit of the single-user,
//! single-process design, not something the store format prevents.

pub mod manager;
pub mod store;
pub mod task;
