//! ngLog processing utilities.
//!
//! ngLog is a textual file format for recording gameplay events. Each line of
//! an ngLog file is one *event*: a timestamp, an optional event class, an
//! event ID, and zero or more event parameters, separated by ASCII TAB
//! characters. Logs exist in two on-disk variants: a plain-text local form,
//! and a "world" form whose bytes are obscured by a pairwise XOR transform.
//!
//! This crate parses both forms into an [`NgLog`] of [`NgEvent`] records and
//! serializes a log back to the canonical local text form. Every function is
//! specified and verified with Verus.

pub mod decoder;
pub mod errors;
pub mod event;
pub mod log;
pub mod text;

pub use event::NgEvent;
pub use log::NgLog;

pub use decoder::decode_world;
pub use errors::NgError;
