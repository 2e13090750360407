//! A small note-keeping library: an insertion-ordered store of text notes
//! keyed by decimal strings, grouped into named spaces, persisted as JSON.
//!
//! The store keeps its keys dense: after every deletion the remaining notes
//! are renumbered to `"1" .. "N"` in their surviving order.
//!
//! The pieces: [`store`] holds the ordered note store and its laws, [`codec`]
//! the note-file format with its round-trip proof, [`registry`] the
//! current-space pointer, [`command`] the dispatcher's argument parsing and
//! listing output, [`keys`] the decimal keys, and [`text`] the small text
//! helpers. All file and console work stays with the caller.

pub mod chars;
pub mod codec;
pub mod command;
pub mod keys;
pub mod registry;
pub mod store;
pub mod text;
