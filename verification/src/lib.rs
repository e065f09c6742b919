//! Core of a remote-tasked agent built around a block/page document store.
//!
//! The crate covers the pieces that decide and compute: the argument cursor,
//! the command model that turns free-text instructions into typed commands,
//! the byte chunking used to deliver results under the store's per-block
//! ceiling, and the planning and reporting logic of the concurrent port-scan
//! handler.  Network and operating-system work stays outside; the functions
//! here take plain values in and hand plain values back.

pub mod args;
pub mod cd;
pub mod channel;
pub mod command;
pub mod procs;
pub mod scan;
pub mod strutil;
