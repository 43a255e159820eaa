//! Multiplexes the live log streams of many dynamically-changing worker
//! processes (pods) into a single, color-coded, column-aligned output.
//!
//! The crate holds the verified core: color allocation with reuse, the
//! process registry with its derived display metrics, line filtering and
//! formatting, chronological merging of previously fetched log lines, and
//! the decisions of the discovery/refresh loop. Network access, terminal
//! output and task spawning live outside the library and hand it plain
//! values.

pub mod color;
pub mod error;
pub mod output;
pub mod registry;
pub mod settings;
pub mod supervisor;
pub mod logs;
pub mod matching;
pub mod text;

pub use error::Errors;
