//! Detection and marking of byte-for-byte duplicate files.
//!
//! The library holds the logic of a duplicate-marking pipeline: discovery of
//! candidate files from a directory walk, grouping by size and creation time,
//! lazy content hashing, and the marking of true duplicates by the sentinel
//! extension `.duplicate`, with one log line per detected duplicate.  All
//! file-system traffic (walking, reading, renaming, appending to the log)
//! is performed by the caller, which feeds plain values in and carries the
//! decided actions out.

pub mod digest;
pub mod discover;
pub mod grouper;
pub mod marker;
pub mod paths;
pub mod record;

use vstd::prelude::*;

verus! {

} // verus!
