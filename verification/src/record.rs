//! The in-memory record of one discovered file, and the order the grouping
//! sort puts records in: by size, then by creation time.
use vstd::prelude::*;

use crate::paths::is_duplicate_path;

verus! {

/// A point in time as the file system reports it: whole seconds (possibly
/// before the epoch) and a nanosecond part.
#[derive(Clone, Copy, PartialEq, Eq, Structural, Debug)]
pub struct Timestamp {
    pub secs: i64,
    pub nanos: u32,
}

impl Timestamp {
    /// The sentinel value "unset": exactly zero.
    pub open spec fn zero_spec() -> Timestamp {
        Timestamp { secs: 0, nanos: 0 }
    }

    /// The zero timestamp, the sentinel for an unset modification time.
    pub fn zero() -> (t: Timestamp)
        ensures
            t == Timestamp::zero_spec(),
    {
        Timestamp { secs: 0, nanos: 0 }
    }
}

/// Order on timestamps: seconds first, nanoseconds as tie-break.
pub open spec fn ts_le(a: Timestamp, b: Timestamp) -> bool {
    a.secs < b.secs || (a.secs == b.secs && a.nanos <= b.nanos)
}

/// One discovered file: its path (which changes when it is marked), its
/// size, its derived creation time, and its lazily computed content hash
/// (the hex digest, cached once computed).
pub struct FileRecord {
    pub path: Vec<u8>,
    pub size: u64,
    pub created: Timestamp,
    pub hash: Option<Vec<u8>>,
}

/// The mathematical shadow of a [`FileRecord`].
pub ghost struct RecordModel {
    pub path: Seq<u8>,
    pub size: u64,
    pub created: Timestamp,
    pub hash: Option<Seq<u8>>,
}

impl View for FileRecord {
    type V = RecordModel;

    open spec fn view(&self) -> RecordModel {
        RecordModel {
            path: self.path@,
            size: self.size,
            created: self.created,
            hash: match self.hash {
                Some(h) => Some(h@),
                None => None,
            },
        }
    }
}

impl RecordModel {
    /// Whether the record currently counts as a duplicate; derived from the
    /// path alone, so it can never drift from the stored name.
    pub open spec fn is_dup(self) -> bool {
        is_duplicate_path(self.path)
    }
}

/// The grouping order on records: size ascending, then creation time
/// ascending.  Total, so a sort can rely on it.
pub open spec fn key_le(a: RecordModel, b: RecordModel) -> bool {
    a.size < b.size || (a.size == b.size && ts_le(a.created, b.created))
}

/// Size-then-creation-time comparison on live records.
pub fn record_le(a: &FileRecord, b: &FileRecord) -> (r: bool)
    ensures
        r == key_le(a@, b@),
{
    if a.size < b.size {
        true
    } else if a.size == b.size {
        a.created.secs < b.created.secs || (a.created.secs == b.created.secs && a.created.nanos
            <= b.created.nanos)
    } else {
        false
    }
}

/// The creation time the walker derives for a file: the native creation
/// timestamp where the platform reports one, the last-modification time
/// otherwise.
pub open spec fn derive_create_time_spec(created: Option<Timestamp>, modified: Timestamp) -> Timestamp {
    match created {
        Some(t) => t,
        None => modified,
    }
}

/// Derives a file's creation time from its metadata.
pub fn derive_create_time(created: Option<Timestamp>, modified: Timestamp) -> (t: Timestamp)
    ensures
        t == derive_create_time_spec(created, modified),
{
    match created {
        Some(t) => t,
        None => modified,
    }
}

} // verus!
