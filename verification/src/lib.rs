//! Codec between timed musical events and their textual tags.
//!
//! A stream is a sequence of tracks, a track a sequence of timed events.
//! Every event kind has one textual tag; a stream is written as records of a
//! delta time and a tag, and read back from such records. Reading is the exact
//! inverse of writing on the kinds that have a grammar, and drops every other
//! record.

pub mod decimal;
pub mod event;
mod grammar;
pub mod laws;
pub mod midi_processor;
pub mod mxl_json;
pub mod smf;
pub mod tag;
