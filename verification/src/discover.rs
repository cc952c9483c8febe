//! The tree walker's decisions.  The caller walks the directory tree and
//! reports what it meets — a directory, a regular file with its metadata, or
//! a traversal error — and this module decides: prune or descend, record the
//! file or tally it as a pre-existing duplicate, repair a zero modification
//! time, skip a denied entry or abort.
use vstd::prelude::*;

use crate::paths::{is_duplicate, is_duplicate_path, valid_file_path};
use crate::record::{derive_create_time, derive_create_time_spec, FileRecord, Timestamp};

verus! {

/// Whether a name is hidden: it starts with a dot.
pub open spec fn is_hidden_name(name: Seq<u8>) -> bool {
    name.len() > 0 && name[0] == 46u8
}

/// What the walk does with a directory entry.
#[derive(PartialEq, Eq, Structural, Debug, Clone, Copy)]
pub enum DirAction {
    /// Walk into the directory.
    Descend,
    /// Skip the whole subtree.
    Prune,
}

/// What the walk does after a traversal error.
#[derive(PartialEq, Eq, Structural, Debug, Clone, Copy)]
pub enum ErrAction {
    /// Permission was denied: skip the entry and keep walking.
    SkipEntry,
    /// Any other traversal error is fatal.
    Abort,
}

/// What discovery decided for one regular file.
#[derive(PartialEq, Eq, Debug)]
pub struct FileOutcome {
    /// True when the file joined the discovered set; false when it already
    /// carried the sentinel extension and was only tallied.
    pub added: bool,
    /// When the file's modification time is exactly zero, the time it is to
    /// be repaired to (its derived creation time); otherwise nothing.
    pub repair: Option<Timestamp>,
}

/// A hidden directory below the root is pruned; the root itself and every
/// ordinary directory are descended into.
pub fn directory_action(name: &Vec<u8>, depth: usize) -> (a: DirAction)
    ensures
        a == DirAction::Prune <==> (is_hidden_name(name@) && depth > 0),
{
    if name.len() > 0 && name[0] == 46 && depth > 0 {
        DirAction::Prune
    } else {
        DirAction::Descend
    }
}

/// Permission denial is tolerated (the entry is skipped); every other
/// traversal error aborts the scan.
pub fn error_action(permission_denied: bool) -> (a: ErrAction)
    ensures
        a == ErrAction::SkipEntry <==> permission_denied,
{
    if permission_denied {
        ErrAction::SkipEntry
    } else {
        ErrAction::Abort
    }
}

/// The walker's accumulating state: the records discovered so far and the
/// tally of files that already carried the sentinel extension.
pub struct Discovery {
    records: Vec<FileRecord>,
    existing: u64,
}

impl Discovery {
    /// The records discovered so far, in the order they were met.
    pub closed spec fn records_spec(self) -> Seq<crate::record::RecordModel> {
        self.records@.map_values(|r: FileRecord| r@)
    }

    /// How many files already carried the sentinel extension.
    pub closed spec fn existing_spec(self) -> u64 {
        self.existing
    }

    /// Every record a discovery holds: a file path with no sentinel
    /// extension and no hash computed yet.
    pub open spec fn wf(self) -> bool {
        forall|i: int|
            0 <= i < self.records_spec().len() ==> {
                &&& valid_file_path(#[trigger] self.records_spec()[i].path)
                &&& !self.records_spec()[i].is_dup()
                &&& self.records_spec()[i].hash is None
            }
    }

    /// A fresh walk: nothing discovered, nothing tallied.
    pub fn new() -> (d: Discovery)
        ensures
            d.records_spec() =~= Seq::<crate::record::RecordModel>::empty(),
            d.existing_spec() == 0,
            d.wf(),
    {
        Discovery { records: Vec::new(), existing: 0 }
    }

    /// One regular file met during the walk, with the metadata read for it.
    ///
    /// A file whose path already carries the sentinel extension is tallied
    /// and left out of the discovered set; any other file joins it, with its
    /// creation time derived (native creation time if the platform has one,
    /// last-modification time otherwise) and no hash yet.  Independently, a
    /// modification time of exactly zero is reported for repair to the
    /// derived creation time.
    pub fn observe_file(
        &mut self,
        path: Vec<u8>,
        size: u64,
        created: Option<Timestamp>,
        modified: Timestamp,
    ) -> (out: FileOutcome)
        requires
            old(self).wf(),
            valid_file_path(path@),
            old(self).existing_spec() < u64::MAX,
        ensures
            final(self).wf(),
            out.repair == (if modified == Timestamp::zero_spec() {
                Some(derive_create_time_spec(created, modified))
            } else {
                Option::<Timestamp>::None
            }),
            out.added == !is_duplicate_path(path@),
            is_duplicate_path(path@) ==> {
                &&& final(self).records_spec() == old(self).records_spec()
                &&& final(self).existing_spec() == old(self).existing_spec() + 1
            },
            !is_duplicate_path(path@) ==> {
                &&& final(self).records_spec() =~= old(self).records_spec().push(
                    crate::record::RecordModel {
                        path: path@,
                        size: size,
                        created: derive_create_time_spec(created, modified),
                        hash: None,
                    },
                )
                &&& final(self).existing_spec() == old(self).existing_spec()
            },
    {
        let ghost p = path@;
        let ct = derive_create_time(created, modified);
        let repair = if modified == Timestamp::zero() {
            Some(ct)
        } else {
            None
        };
        if is_duplicate(&path) {
            self.existing = self.existing + 1;
            FileOutcome { added: false, repair }
        } else {
            let rec = FileRecord { path, size, created: ct, hash: None };
            self.records.push(rec);
            proof {
                let m = crate::record::RecordModel {
                    path: p,
                    size: size,
                    created: derive_create_time_spec(created, modified),
                    hash: None,
                };
                let olds = old(self).records_spec();
                let news = self.records_spec();
                assert(news =~= olds.push(m));
                assert forall|i: int| 0 <= i < news.len() implies {
                    &&& valid_file_path(#[trigger] news[i].path)
                    &&& !news[i].is_dup()
                    &&& news[i].hash is None
                } by {
                    if i < olds.len() {
                        assert(news[i] == olds[i]);
                        assert(valid_file_path(olds[i].path) && !olds[i].is_dup() && olds[i].hash
                            is None);
                    } else {
                        assert(news[i] == m);
                    }
                }
            }
            FileOutcome { added: true, repair }
        }
    }

    /// How many files the walk has discovered (pre-existing duplicates not
    /// counted).
    pub fn file_count(&self) -> (n: usize)
        ensures
            n == self.records_spec().len(),
    {
        self.records.len()
    }

    /// How many files already carried the sentinel extension.
    pub fn existing_count(&self) -> (n: u64)
        ensures
            n == self.existing_spec(),
    {
        self.existing
    }

    /// Hands the discovered records over for grouping and marking.
    pub fn into_records(self) -> (r: Vec<FileRecord>)
        ensures
            r@.map_values(|rec: FileRecord| rec@) == self.records_spec(),
    {
        self.records
    }
}

} // verus!
