//! Snapshot a crate's public surface, diff versions, classify breaks and
//! suggest downstream patches.

pub mod classify;
pub mod consumer;
pub mod diff;
pub mod integrity;
pub mod json;
pub mod producer;
pub mod ledger;
pub mod digest;
pub mod distance;
pub mod snapshot;
pub mod snapshot_file;
pub mod sorting;
pub mod suggest;
pub mod surface;
pub mod text;
pub mod usage;
