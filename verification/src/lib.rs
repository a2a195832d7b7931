//! Structured reference notes for command-line applications.
//!
//! An [`entry::Entry`] holds one note: a name and five ordered text
//! sections. The crate defines the canonical textual form of an entry,
//! a total parser that turns edited text back into an entry or a typed
//! format error, and the state machine of the interactive viewer.

pub mod entry;
pub mod laws;
pub mod parser;
pub mod viewer;
