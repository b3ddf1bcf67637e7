//! Extracts the machine-readable configuration schema of a code
//! formatter from its human-oriented help text: option blocks are
//! segmented, parsed against a fixed record grammar, typed, and the
//! experimental run is reconciled against the stable run, yielding the
//! schema document's root node ready for serialization.
pub mod builder;
pub mod error;
pub mod header;
pub mod item;
pub mod laws;
pub mod text;
pub mod typ;
