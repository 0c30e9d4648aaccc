//! Audio fingerprint indexing and recognition engine.
//!
//! Songs are indexed as sets of landmark hashes, each seen at a time offset
//! within the song. A query clip is recognized by time-aligned histogram
//! voting: every hash collision between the clip and an indexed song votes for
//! the alignment delta it implies, and the song with the strongest single
//! alignment wins.

pub mod fingerprint;
pub mod votes;
pub mod store;
pub mod laws;
pub mod service;
