//! Reads the extended attributes of a set of files and renders them as one
//! JSON array, one object per file.
//!
//! The library holds the pure core: value encoding under a selectable
//! policy, per-file collection with its two-tier error policy, and
//! incremental JSON framing. The surrounding binary does the attribute
//! store calls and the concurrent fan-out, and feeds their outcomes in.

pub mod collect;
pub mod emit;
pub mod encoding;
pub mod json;
pub mod laws;
pub mod model;
