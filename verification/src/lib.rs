//! A verified core for a small read-only file server: it maps request paths
//! onto a serving root, builds sorted directory listings with human-readable
//! sizes and timestamps, and decides how each request is answered.
//!
//! Filesystem access, the HTTP transport and the HTML template are kept
//! outside this crate; they hand plain values in and take plain values back.

pub mod entry;
pub mod handler;
pub mod listing;
pub mod order;
pub mod paths;
pub mod size;
mod text;
mod time;

use vstd::prelude::*;

verus! {

} // verus!
