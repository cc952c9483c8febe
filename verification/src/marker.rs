//! The duplicate marker: a single forward pass over the size-ordered
//! records, with a nested scan of each same-size run, lazy content hashing,
//! and the marking of true duplicates.
//!
//! The marker decides; the caller acts.  [`Marker::step`] advances until it
//! either needs the content of one file (to hash it), has marked a duplicate
//! (so the caller must rename the file and append the log line), or is done.
//! The caller answers a content request with [`Marker::supply_content`].
use vstd::prelude::*;

use crate::digest::{sha256_hex, sha256_hex_of};
use crate::discover::Discovery;
use crate::grouper::{
    lemma_same_multiset_same_members, models, order, sorted_by_key, sorted_by_size,
};
use crate::paths::{
    append_dup_suffix, bytes_eq, clone_bytes, dup_suffix_spec, is_duplicate,
    lemma_marked_path_is_duplicate, log_line, log_line_spec, valid_file_path,
};
use crate::record::{FileRecord, RecordModel};

verus! {

/// One appended record of a detected duplication: the duplicate's new path
/// and the path of the original it duplicates.
pub struct LogEntry {
    pub duplicate: Vec<u8>,
    pub original: Vec<u8>,
}

/// The mathematical shadow of a [`LogEntry`].
pub ghost struct LogEntryModel {
    pub duplicate: Seq<u8>,
    pub original: Seq<u8>,
}

impl View for LogEntry {
    type V = LogEntryModel;

    open spec fn view(&self) -> LogEntryModel {
        LogEntryModel { duplicate: self.duplicate@, original: self.original@ }
    }
}

/// What the caller must do next.
pub enum Action {
    /// Read the file of the record at `idx` and hand its bytes to
    /// [`Marker::supply_content`].
    NeedContent { idx: usize },
    /// The record at `idx` was just marked: rename its file from
    /// `renamed_from` to `renamed_to` (the sentinel extension appended) and
    /// append `line` to the log file beside it.
    Marked { idx: usize, renamed_from: Vec<u8>, renamed_to: Vec<u8>, line: Vec<u8> },
    /// The pass is complete.
    Done,
}

/// The marking pass over the ordered records.
pub struct Marker {
    images: Vec<FileRecord>,
    base: usize,
    cand: usize,
    pending: Option<usize>,
    found: usize,
    reclaimed: u128,
    log: Vec<LogEntry>,
    initial: Ghost<Seq<RecordModel>>,
    contents: Ghost<Map<int, Seq<u8>>>,
    wit: Ghost<Map<int, int>>,
    log_wit: Ghost<Seq<(int, int)>>,
}

impl Marker {
    /// The records as they now stand (paths change as files are marked).
    pub closed spec fn recs(self) -> Seq<RecordModel> {
        models(self.images@)
    }

    /// The records as they stood when the pass began.
    pub closed spec fn init(self) -> Seq<RecordModel> {
        self.initial@
    }

    /// The contents supplied so far, by record index.
    pub closed spec fn contents_map(self) -> Map<int, Seq<u8>> {
        self.contents@
    }

    /// The log entries appended so far, oldest first.
    pub closed spec fn log_spec(self) -> Seq<LogEntryModel> {
        self.log@.map_values(|e: LogEntry| e@)
    }

    /// The outstanding content request, if any.
    pub closed spec fn pending_spec(self) -> Option<usize> {
        self.pending
    }

    /// How many duplicates this pass has marked.
    pub closed spec fn found_spec(self) -> usize {
        self.found
    }

    /// The total size in bytes of the duplicates marked by this pass.
    pub closed spec fn reclaimed_spec(self) -> u128 {
        self.reclaimed
    }

    /// The outer scan's position.
    pub closed spec fn base_spec(self) -> int {
        self.base as int
    }

    /// The inner scan's position.
    pub closed spec fn cand_spec(self) -> int {
        self.cand as int
    }

    /// The pass has examined everything.
    pub open spec fn finished(self) -> bool {
        self.base_spec() >= self.recs().len()
    }

    /// The record at `j` was marked by this pass (it was clean when the pass
    /// began and carries the sentinel extension now).
    pub open spec fn marked(self, j: int) -> bool {
        self.recs()[j].is_dup() && !self.init()[j].is_dup()
    }

    /// Records `i` and `j` were both hashed, and their hashes differ.
    pub open spec fn differ(self, i: int, j: int) -> bool {
        &&& self.recs()[i].hash is Some
        &&& self.recs()[j].hash is Some
        &&& self.recs()[i].hash != self.recs()[j].hash
    }

    /// Record `i` is a surviving original that record `j` duplicates: it
    /// comes before `j`, is not itself marked, and has `j`'s size and hash.
    pub open spec fn original_of(self, i: int, j: int) -> bool {
        &&& 0 <= i < j < self.recs().len()
        &&& i <= self.base_spec()
        &&& !self.recs()[i].is_dup()
        &&& self.recs()[i].size == self.recs()[j].size
        &&& self.recs()[i].hash is Some
        &&& self.recs()[i].hash == self.recs()[j].hash
    }

    /// Log entry `e` records that `j` (now marked) duplicates `i`.
    pub open spec fn log_entry_ok(self, e: int, i: int, j: int) -> bool {
        &&& self.original_of(i, j)
        &&& self.marked(j)
        &&& self.log_spec()[e].duplicate == self.recs()[j].path
        &&& self.log_spec()[e].original == self.recs()[i].path
    }

    /// The marker's invariant; established by [`Marker::new`] and preserved
    /// by every call.
    pub closed spec fn inv(self) -> bool {
        let v = self.recs();
        let i0 = self.init();
        let n = v.len();
        let b = self.base_spec();
        let c = self.cand_spec();
        // shape
        &&& i0.len() == n
        &&& sorted_by_size(i0)
        // immutable parts of each record
        &&& forall|j: int| 0 <= j < n ==> (#[trigger] v[j]).size == i0[j].size
        &&& forall|j: int| 0 <= j < n ==> (#[trigger] v[j]).created == i0[j].created
        &&& forall|j: int|
            0 <= j < n ==> valid_file_path((#[trigger] i0[j]).path) && i0[j].hash is None
        // a record that began as a duplicate is never touched
        &&& forall|j: int|
            0 <= j < n && (#[trigger] i0[j]).is_dup() ==> v[j].path == i0[j].path && v[j].hash
                is None
        // any other record keeps its path until marked, then carries the suffix
        &&& forall|j: int|
            0 <= j < n && !(#[trigger] i0[j]).is_dup() ==> ((v[j].path == i0[j].path
                && !v[j].is_dup()) || (v[j].path == i0[j].path + dup_suffix_spec()
                && v[j].is_dup()))
        // every computed hash is the digest of the supplied content
        &&& forall|j: int|
            0 <= j < n && (#[trigger] v[j]).hash is Some ==> self.contents_map().contains_key(j)
                && v[j].hash == Some(sha256_hex_of(self.contents_map()[j]))
        // scan positions
        &&& b <= n
        &&& (b < n ==> b < c <= n)
        // an outstanding request points into the live comparison
        &&& match self.pending_spec() {
            Some(i) => {
                &&& b < n
                &&& !v[b].is_dup()
                &&& c < n
                &&& v[c].size == v[b].size
                &&& !v[c].is_dup()
                &&& ((i == b && v[b].hash is None) || (i == c && v[b].hash is Some && v[c].hash
                    is None))
            },
            None => true,
        }
        // every pair in a fully scanned run was compared and differs
        &&& forall|i: int, j: int|
            0 <= i < b && i < j < n && !v[i].is_dup() && !v[j].is_dup() && (#[trigger] v[i]).size
                == (#[trigger] v[j]).size ==> self.differ(i, j)
        // the live run was compared up to the inner position
        &&& (b < n && !v[b].is_dup() ==> forall|j: int|
            b < j < c && !(#[trigger] v[j]).is_dup() && v[j].size == v[b].size ==> self.differ(
                b,
                j,
            ))
        // every marked record has a recorded surviving original
        &&& forall|j: int|
            0 <= j < n && #[trigger] self.marked(j) ==> self.wit@.contains_key(j)
                && self.original_of(self.wit@[j], j)
        // the log records exactly the marks, each with its recorded witness
        &&& self.found == self.log_spec().len()
        &&& self.log_wit@.len() == self.log_spec().len()
        &&& forall|e: int|
            0 <= e < self.log_spec().len() ==> #[trigger] self.log_entry_ok(
                e,
                self.log_wit@[e].0,
                self.log_wit@[e].1,
            )
        // the reclaimed total stays far from overflow
        &&& self.reclaimed as int <= self.log_spec().len() * (u64::MAX as int)
    }

    /// Begins a marking pass over records ordered by size (the grouper's
    /// order), none yet hashed, each naming a file.
    pub fn new(records: Vec<FileRecord>) -> (m: Marker)
        requires
            sorted_by_size(models(records@)),
            forall|j: int|
                0 <= j < records@.len() ==> (#[trigger] models(records@)[j]).hash is None,
            forall|j: int|
                0 <= j < records@.len() ==> valid_file_path(
                    (#[trigger] models(records@)[j]).path,
                ),
        ensures
            m.inv(),
            m.recs() == models(records@),
            m.init() == models(records@),
            m.pending_spec() is None,
            m.log_spec() =~= Seq::<LogEntryModel>::empty(),
            m.found_spec() == 0,
            m.reclaimed_spec() == 0,
            m.contents_map() =~= Map::<int, Seq<u8>>::empty(),
    {
        let ghost start = models(records@);
        let m = Marker {
            images: records,
            base: 0,
            cand: 1,
            pending: None,
            found: 0,
            reclaimed: 0,
            log: Vec::new(),
            initial: Ghost(start),
            contents: Ghost(Map::empty()),
            wit: Ghost(Map::empty()),
            log_wit: Ghost(Seq::empty()),
        };
        proof {
            assert(m.log_spec() =~= Seq::<LogEntryModel>::empty());
            if m.recs().len() > 0 {
                assert(m.cand_spec() == 1);
            }
        }
        m
    }

    /// Groups a finished discovery's records — size ascending, creation
    /// time as tie-break — and begins the marking pass over them.
    pub fn begin(d: Discovery) -> (m: Marker)
        requires
            d.wf(),
        ensures
            m.inv(),
            m.pending_spec() is None,
            m.found_spec() == 0,
            m.reclaimed_spec() == 0,
            m.log_spec().len() == 0,
            m.init() == m.recs(),
            sorted_by_key(m.recs()),
            m.recs().to_multiset() == d.records_spec().to_multiset(),
            m.recs().len() == d.records_spec().len(),
    {
        let ghost a = d.records_spec();
        let records = order(d.into_records());
        proof {
            let b = models(records@);
            assert forall|j: int|
                0 <= j < b.len() implies ((#[trigger] b[j]).hash is None && valid_file_path(
                b[j].path,
            )) by {
                lemma_same_multiset_same_members(a, b, j);
                let i = choose|i: int| 0 <= i < a.len() && a[i] == b[j];
                assert(valid_file_path(a[i].path) && a[i].hash is None);
            }
        }
        Marker::new(records)
    }

    /// Answers an outstanding content request: the bytes of the file at
    /// `idx`.  The marker hashes them (at most once per record) and caches
    /// the digest.
    pub fn supply_content(&mut self, idx: usize, content: &Vec<u8>)
        requires
            old(self).inv(),
            old(self).pending_spec() == Some(idx),
        ensures
            final(self).inv(),
            final(self).pending_spec() is None,
            idx < old(self).recs().len(),
            old(self).recs()[idx as int].hash is None,
            final(self).recs() == old(self).recs().update(
                idx as int,
                RecordModel {
                    path: old(self).recs()[idx as int].path,
                    size: old(self).recs()[idx as int].size,
                    created: old(self).recs()[idx as int].created,
                    hash: Some(sha256_hex_of(content@)),
                },
            ),
            final(self).contents_map() == old(self).contents_map().insert(idx as int, content@),
            final(self).init() == old(self).init(),
            final(self).log_spec() == old(self).log_spec(),
            final(self).found_spec() == old(self).found_spec(),
            final(self).reclaimed_spec() == old(self).reclaimed_spec(),
            final(self).base_spec() == old(self).base_spec(),
            final(self).cand_spec() == old(self).cand_spec(),
    {
        proof {
            assert(idx < self.recs().len());
        }
        let h = sha256_hex(content);
        self.images[idx].hash = Some(h);
        self.pending = None;
        proof {
            self.contents@ = old(self).contents@.insert(idx as int, content@);
            let v0 = old(self).recs();
            let v = self.recs();
            let n = v.len() as int;
            let b = self.base_spec();
            let c = self.cand_spec();
            let m = RecordModel {
                path: v0[idx as int].path,
                size: v0[idx as int].size,
                created: v0[idx as int].created,
                hash: Some(sha256_hex_of(content@)),
            };
            assert(v =~= v0.update(idx as int, m));
            assert(forall|j: int| 0 <= j < n && j != idx ==> v[j] == v0[j]);
            assert(v[idx as int] == m);
            // the request targeted an unhashed, clean record
            assert(v0[idx as int].hash is None);
            assert(!v0[idx as int].is_dup());
            assert(!self.init()[idx as int].is_dup());
            // every computed hash still matches its supplied content
            assert forall|j: int|
                0 <= j < n && (#[trigger] v[j]).hash is Some implies self.contents_map().contains_key(
                j,
            ) && v[j].hash == Some(sha256_hex_of(self.contents_map()[j])) by {
                if j != idx {
                    assert(v0[j].hash is Some);
                    assert(old(self).contents_map().contains_key(j));
                    assert(self.contents_map()[j] == old(self).contents_map()[j]);
                } else {
                    assert(self.contents_map()[j] == content@);
                }
            }
            // scanned pairs still differ: none of them could involve the
            // newly hashed record, whose hash was still missing
            assert forall|i: int, j: int|
                0 <= i < b && i < j < n && !v[i].is_dup() && !v[j].is_dup() && (#[trigger] v[i]).size
                    == (#[trigger] v[j]).size implies self.differ(i, j) by {
                assert(!v0[i].is_dup() && !v0[j].is_dup());
                assert(v0[i].size == v0[j].size);
                assert(old(self).differ(i, j));
                assert(i != idx && j != idx);
            }
            // likewise for the live run
            if b < n && !v[b].is_dup() {
                assert forall|j: int|
                    b < j < c && !(#[trigger] v[j]).is_dup() && v[j].size == v[b].size implies self.differ(
                    b,
                    j,
                ) by {
                    assert(!v0[b].is_dup() && !v0[j].is_dup());
                    assert(old(self).differ(b, j));
                    assert(b != idx && j != idx);
                }
            }
            // marked records keep their recorded witnesses: a witness is
            // hashed and clean, so it is not the record just hashed
            assert forall|j: int| 0 <= j < n && #[trigger] self.marked(j) implies self.wit@.contains_key(
                j,
            ) && self.original_of(self.wit@[j], j) by {
                assert(old(self).marked(j));
                let i = self.wit@[j];
                assert(old(self).original_of(i, j));
                assert(i != idx && j != idx);
            }
            // the log's recorded witnesses survive for the same reason
            assert forall|e: int| 0 <= e < self.log_spec().len() implies #[trigger] self.log_entry_ok(
                e,
                self.log_wit@[e].0,
                self.log_wit@[e].1,
            ) by {
                let i = self.log_wit@[e].0;
                let j = self.log_wit@[e].1;
                assert(old(self).log_entry_ok(e, i, j));
                assert(i != idx && j != idx);
            }
        }
    }

    /// The current records' sizes are ascending (they equal the initial,
    /// sorted sizes).
    proof fn lemma_sizes_sorted(self)
        requires
            self.inv(),
        ensures
            forall|i: int, j: int|
                0 <= i < j < self.recs().len() ==> (#[trigger] self.recs()[i]).size
                    <= (#[trigger] self.recs()[j]).size,
    {
        assert forall|i: int, j: int|
            0 <= i < j < self.recs().len() implies (#[trigger] self.recs()[i]).size
            <= (#[trigger] self.recs()[j]).size by {
            assert(self.init()[i].size <= self.init()[j].size);
        }
    }

    /// Moving the outer scan one record forward preserves the invariant,
    /// provided the record left behind was a duplicate or had its whole
    /// same-size run compared.
    proof fn lemma_advance_base(pre: Marker, post: Marker)
        requires
            pre.inv(),
            pre.pending_spec() is None,
            post.pending_spec() is None,
            post.recs() == pre.recs(),
            post.init() == pre.init(),
            post.contents@ == pre.contents@,
            post.log@ == pre.log@,
            post.wit@ == pre.wit@,
            post.log_wit@ == pre.log_wit@,
            post.found == pre.found,
            post.reclaimed == pre.reclaimed,
            0 <= pre.base_spec() < pre.recs().len(),
            post.base_spec() == pre.base_spec() + 1,
            post.base_spec() < post.recs().len() ==> post.cand_spec() == post.base_spec() + 1,
            pre.recs()[pre.base_spec()].is_dup() || forall|j: int|
                pre.base_spec() < j < pre.recs().len() && (#[trigger] pre.recs()[j]).size
                    == pre.recs()[pre.base_spec()].size && !pre.recs()[j].is_dup()
                    ==> pre.differ(pre.base_spec(), j),
        ensures
            post.inv(),
    {
        let v = post.recs();
        let n = v.len() as int;
        let b0 = pre.base_spec();
        let b = post.base_spec();
        assert(post.log_spec() == pre.log_spec());
        // newly covered outer pairs: those whose left side is the record
        // just left behind
        assert forall|i: int, j: int|
            0 <= i < b && i < j < n && !v[i].is_dup() && !v[j].is_dup() && (#[trigger] v[i]).size
                == (#[trigger] v[j]).size implies post.differ(i, j) by {
            if i < b0 {
                assert(pre.differ(i, j));
            } else {
                assert(i == b0);
                assert(!pre.recs()[b0].is_dup());
                assert(pre.differ(b0, j));
            }
        }
        if b < n && !v[b].is_dup() {
            assert forall|j: int|
                b < j < post.cand_spec() && !(#[trigger] v[j]).is_dup() && v[j].size == v[b].size
                    implies post.differ(b, j) by {
                assert(false);
            }
        }
        // witnesses survive: the outer position only grew
        assert forall|j: int| 0 <= j < n && #[trigger] post.marked(j) implies post.wit@.contains_key(
            j,
        ) && post.original_of(post.wit@[j], j) by {
            assert(pre.marked(j));
            assert(pre.original_of(pre.wit@[j], j));
        }
        assert forall|e: int| 0 <= e < post.log_spec().len() implies #[trigger] post.log_entry_ok(
            e,
            post.log_wit@[e].0,
            post.log_wit@[e].1,
        ) by {
            assert(pre.log_entry_ok(e, pre.log_wit@[e].0, pre.log_wit@[e].1));
        }
    }

    /// Moving the inner scan one record forward preserves the invariant,
    /// provided the record passed over was a duplicate or differs from the
    /// base by hash.
    proof fn lemma_advance_cand(pre: Marker, post: Marker)
        requires
            pre.inv(),
            pre.pending_spec() is None,
            post.pending_spec() is None,
            post.recs() == pre.recs(),
            post.init() == pre.init(),
            post.contents@ == pre.contents@,
            post.log@ == pre.log@,
            post.wit@ == pre.wit@,
            post.log_wit@ == pre.log_wit@,
            post.found == pre.found,
            post.reclaimed == pre.reclaimed,
            0 <= pre.base_spec() < pre.recs().len(),
            pre.base_spec() < pre.cand_spec() < pre.recs().len(),
            post.base_spec() == pre.base_spec(),
            post.cand_spec() == pre.cand_spec() + 1,
            pre.recs()[pre.cand_spec()].is_dup() || pre.differ(pre.base_spec(), pre.cand_spec()),
        ensures
            post.inv(),
    {
        let v = post.recs();
        let n = v.len() as int;
        let b = post.base_spec();
        let c0 = pre.cand_spec();
        assert(post.log_spec() == pre.log_spec());
        if b < n && !v[b].is_dup() {
            assert forall|j: int|
                b < j < post.cand_spec() && !(#[trigger] v[j]).is_dup() && v[j].size == v[b].size
                    implies post.differ(b, j) by {
                if j < c0 {
                    assert(pre.differ(b, j));
                } else {
                    assert(j == c0);
                    assert(pre.differ(b, c0));
                }
            }
        }
        assert forall|j: int| 0 <= j < n && #[trigger] post.marked(j) implies post.wit@.contains_key(
            j,
        ) && post.original_of(post.wit@[j], j) by {
            assert(pre.marked(j));
            assert(pre.original_of(pre.wit@[j], j));
        }
        assert forall|e: int| 0 <= e < post.log_spec().len() implies #[trigger] post.log_entry_ok(
            e,
            post.log_wit@[e].0,
            post.log_wit@[e].1,
        ) by {
            assert(pre.log_entry_ok(e, pre.log_wit@[e].0, pre.log_wit@[e].1));
        }
    }

    /// Marking the inner record — appending the suffix to its path, logging
    /// it against the base, and stepping the inner scan — preserves the
    /// invariant.
    proof fn lemma_mark(pre: Marker, post: Marker)
        requires
            pre.inv(),
            pre.pending_spec() is None,
            post.pending_spec() is None,
            0 <= pre.base_spec() < pre.cand_spec() < pre.recs().len(),
            !pre.recs()[pre.base_spec()].is_dup(),
            !pre.recs()[pre.cand_spec()].is_dup(),
            pre.recs()[pre.base_spec()].size == pre.recs()[pre.cand_spec()].size,
            pre.recs()[pre.base_spec()].hash is Some,
            pre.recs()[pre.base_spec()].hash == pre.recs()[pre.cand_spec()].hash,
            post.recs() == pre.recs().update(
                pre.cand_spec(),
                RecordModel {
                    path: pre.recs()[pre.cand_spec()].path + dup_suffix_spec(),
                    size: pre.recs()[pre.cand_spec()].size,
                    created: pre.recs()[pre.cand_spec()].created,
                    hash: pre.recs()[pre.cand_spec()].hash,
                },
            ),
            post.init() == pre.init(),
            post.contents@ == pre.contents@,
            post.base_spec() == pre.base_spec(),
            post.cand_spec() == pre.cand_spec() + 1,
            post.log_spec() == pre.log_spec().push(
                LogEntryModel {
                    duplicate: pre.recs()[pre.cand_spec()].path + dup_suffix_spec(),
                    original: pre.recs()[pre.base_spec()].path,
                },
            ),
            post.wit@ == pre.wit@.insert(pre.cand_spec(), pre.base_spec()),
            post.log_wit@ == pre.log_wit@.push((pre.base_spec(), pre.cand_spec())),
            post.found == post.log_spec().len(),
            post.reclaimed == pre.reclaimed + pre.recs()[pre.cand_spec()].size,
        ensures
            post.inv(),
            post.marked(pre.cand_spec()),
    {
        let v0 = pre.recs();
        let v = post.recs();
        let i0 = pre.init();
        let n = v.len() as int;
        let b = pre.base_spec();
        let c = pre.cand_spec();
        assert(forall|j: int| 0 <= j < n && j != c ==> v[j] == v0[j]);
        // the marked record began clean, so its stored path was its initial
        // one, and the suffix makes it a well-formed duplicate path
        assert(!i0[c].is_dup());
        assert(v0[c].path == i0[c].path);
        lemma_marked_path_is_duplicate(i0[c].path);
        assert(v[c].is_dup());
        assert(post.marked(c));
        // per-record clauses
        assert forall|j: int|
            0 <= j < n && !(#[trigger] i0[j]).is_dup() implies ((v[j].path == i0[j].path
            && !v[j].is_dup()) || (v[j].path == i0[j].path + dup_suffix_spec() && v[j].is_dup())) by {
            if j != c {
                assert(v[j] == v0[j]);
            }
        }
        assert forall|j: int|
            0 <= j < n && (#[trigger] v[j]).hash is Some implies post.contents_map().contains_key(j)
            && v[j].hash == Some(sha256_hex_of(post.contents_map()[j])) by {
            assert(v[j].hash == v0[j].hash);
        }
        // scanned pairs: the dup set only grew, hashes are untouched
        assert forall|i: int, j: int|
            0 <= i < b && i < j < n && !v[i].is_dup() && !v[j].is_dup() && (#[trigger] v[i]).size
                == (#[trigger] v[j]).size implies post.differ(i, j) by {
            assert(i != c && j != c || v[c].is_dup());
            if i != c && j != c {
                assert(pre.differ(i, j));
            }
        }
        // the live run: the new inner frontier includes the just-marked
        // record, which the guard now excludes
        assert forall|j: int|
            b < j < post.cand_spec() && !(#[trigger] v[j]).is_dup() && v[j].size == v[b].size
                implies post.differ(b, j) by {
            assert(j != c);
            assert(v[j] == v0[j]);
            assert(pre.differ(b, j));
        }
        // witnesses
        assert forall|j: int| 0 <= j < n && #[trigger] post.marked(j) implies post.wit@.contains_key(
            j,
        ) && post.original_of(post.wit@[j], j) by {
            if j == c {
                assert(post.wit@[c] == b);
                assert(!v[b].is_dup());
                assert(v[b].size == v[c].size);
            } else {
                assert(v[j] == v0[j]);
                assert(pre.marked(j));
                assert(pre.original_of(pre.wit@[j], j));
                assert(post.wit@[j] == pre.wit@[j]);
                assert(pre.wit@[j] <= b);
                assert(pre.wit@[j] != c);
            }
        }
        // log entries
        assert forall|e: int| 0 <= e < post.log_spec().len() implies #[trigger] post.log_entry_ok(
            e,
            post.log_wit@[e].0,
            post.log_wit@[e].1,
        ) by {
            if e < pre.log_spec().len() {
                let i = pre.log_wit@[e].0;
                let j = pre.log_wit@[e].1;
                assert(pre.log_entry_ok(e, i, j));
                assert(post.log_spec()[e] == pre.log_spec()[e]);
                assert(post.log_wit@[e] == pre.log_wit@[e]);
                assert(j != c);
                assert(i <= b);
                assert(i != c);
                assert(v[i] == v0[i] && v[j] == v0[j]);
            } else {
                assert(e == pre.log_spec().len());
                assert(post.log_wit@[e] == (b, c));
                assert(post.log_spec()[e] == LogEntryModel {
                    duplicate: v0[c].path + dup_suffix_spec(),
                    original: v0[b].path,
                });
                assert(v[c].path == v0[c].path + dup_suffix_spec());
                assert(v[b] == v0[b]);
            }
        }
        // the reclaimed total keeps its bound
        assert(pre.found == pre.log_spec().len());
        assert(pre.reclaimed as int <= pre.log_spec().len() * (u64::MAX as int));
        assert(v0[c].size as int <= u64::MAX as int);
        assert(post.log_spec().len() == pre.log_spec().len() + 1);
        assert((pre.log_spec().len() + 1) * (u64::MAX as int) == pre.log_spec().len() * (
        u64::MAX as int) + (u64::MAX as int)) by (nonlinear_arith);
    }

    /// Recording an outstanding content request — and changing nothing else
    /// — preserves the invariant, provided the request points into the live
    /// comparison.
    proof fn lemma_set_pending(pre: Marker, post: Marker)
        requires
            pre.inv(),
            post.images@ == pre.images@,
            post.initial@ == pre.initial@,
            post.contents@ == pre.contents@,
            post.log@ == pre.log@,
            post.wit@ == pre.wit@,
            post.log_wit@ == pre.log_wit@,
            post.found == pre.found,
            post.reclaimed == pre.reclaimed,
            post.base == pre.base,
            post.cand == pre.cand,
            match post.pending_spec() {
                Some(i) => {
                    let v = pre.recs();
                    let b = pre.base_spec();
                    let c = pre.cand_spec();
                    &&& b < v.len()
                    &&& !v[b].is_dup()
                    &&& c < v.len()
                    &&& v[c].size == v[b].size
                    &&& !v[c].is_dup()
                    &&& ((i == b && v[b].hash is None) || (i == c && v[b].hash is Some && v[c].hash
                        is None))
                },
                None => true,
            },
        ensures
            post.inv(),
    {
        let v = post.recs();
        let n = v.len() as int;
        assert(v == pre.recs());
        assert(post.log_spec() == pre.log_spec());
        assert forall|j: int| 0 <= j < n && #[trigger] post.marked(j) implies post.wit@.contains_key(
            j,
        ) && post.original_of(post.wit@[j], j) by {
            assert(pre.marked(j));
            assert(pre.original_of(pre.wit@[j], j));
        }
        assert forall|e: int| 0 <= e < post.log_spec().len() implies #[trigger] post.log_entry_ok(
            e,
            post.log_wit@[e].0,
            post.log_wit@[e].1,
        ) by {
            assert(pre.log_entry_ok(e, pre.log_wit@[e].0, pre.log_wit@[e].1));
        }
    }

    /// Advances the pass until the caller is needed: to read one file's
    /// content, to carry a recorded mark out on disk, or — when everything
    /// has been examined — not at all.
    pub fn step(&mut self) -> (a: Action)
        requires
            old(self).inv(),
            old(self).pending_spec() is None,
        ensures
            final(self).inv(),
            final(self).init() == old(self).init(),
            final(self).recs().len() == old(self).recs().len(),
            old(self).finished() ==> a is Done,
            match a {
                Action::Done => {
                    &&& final(self).finished()
                    &&& final(self).recs() == old(self).recs()
                    &&& final(self).contents_map() == old(self).contents_map()
                    &&& final(self).log_spec() == old(self).log_spec()
                    &&& final(self).found_spec() == old(self).found_spec()
                    &&& final(self).reclaimed_spec() == old(self).reclaimed_spec()
                    &&& final(self).pending_spec() is None
                },
                Action::NeedContent { idx } => {
                    &&& final(self).recs() == old(self).recs()
                    &&& final(self).contents_map() == old(self).contents_map()
                    &&& final(self).log_spec() == old(self).log_spec()
                    &&& final(self).found_spec() == old(self).found_spec()
                    &&& final(self).reclaimed_spec() == old(self).reclaimed_spec()
                    &&& final(self).pending_spec() == Some(idx)
                    &&& idx < final(self).recs().len()
                    &&& final(self).recs()[idx as int].hash is None
                    &&& !final(self).recs()[idx as int].is_dup()
                    &&& ({
                        let fb = final(self).base_spec();
                        let fv = final(self).recs();
                        idx == fb || (fb < idx && fv[idx as int].size == fv[fb].size)
                    })
                },
                Action::Marked { idx, renamed_from, renamed_to, line } => {
                    let b = final(self).base_spec();
                    let v0 = old(self).recs();
                    &&& 0 <= b < idx < v0.len()
                    &&& !v0[b].is_dup()
                    &&& !v0[idx as int].is_dup()
                    &&& v0[b].size == v0[idx as int].size
                    &&& v0[b].hash is Some
                    &&& v0[b].hash == v0[idx as int].hash
                    &&& renamed_from@ == v0[idx as int].path
                    &&& renamed_to@ == v0[idx as int].path + dup_suffix_spec()
                    &&& final(self).recs() == v0.update(
                        idx as int,
                        RecordModel {
                            path: v0[idx as int].path + dup_suffix_spec(),
                            size: v0[idx as int].size,
                            created: v0[idx as int].created,
                            hash: v0[idx as int].hash,
                        },
                    )
                    &&& final(self).marked(idx as int)
                    &&& line@ == log_line_spec(renamed_to@, v0[b].path)
                    &&& final(self).log_spec() == old(self).log_spec().push(
                        LogEntryModel { duplicate: renamed_to@, original: v0[b].path },
                    )
                    &&& final(self).found_spec() == old(self).found_spec() + 1
                    &&& final(self).reclaimed_spec() == old(self).reclaimed_spec() + v0[
                        idx as int
                    ].size
                    &&& final(self).contents_map() == old(self).contents_map()
                    &&& final(self).pending_spec() is None
                },
            },
    {
        loop
            invariant
                self.inv(),
                self.pending_spec() is None,
                self.recs() == old(self).recs(),
                self.init() == old(self).init(),
                self.contents_map() == old(self).contents_map(),
                self.log_spec() == old(self).log_spec(),
                self.found_spec() == old(self).found_spec(),
                self.reclaimed_spec() == old(self).reclaimed_spec(),
                old(self).finished() ==> self.finished(),
            decreases self.recs().len() - self.base_spec(), self.recs().len() + 1 - self.cand_spec(),
        {
            let ghost pre = *self;
            let n = self.images.len();
            if self.base >= n {
                return Action::Done;
            }
            let b = self.base;
            if is_duplicate(&self.images[b].path) {
                self.base = b + 1;
                if self.base < n {
                    self.cand = self.base + 1;
                }
                proof {
                    Marker::lemma_advance_base(pre, *self);
                }
                continue;
            }
            let c = self.cand;
            if c >= n || self.images[c].size != self.images[b].size {
                proof {
                    // the whole same-size run of the base lies before the
                    // inner position: sizes are sorted
                    pre.lemma_sizes_sorted();
                    let v = pre.recs();
                    assert forall|j: int|
                        pre.base_spec() < j < v.len() && (#[trigger] v[j]).size == v[pre.base_spec()].size
                            && !v[j].is_dup() implies pre.differ(pre.base_spec(), j) by {
                        if j >= pre.cand_spec() {
                            assert(v[pre.cand_spec()].size <= v[j].size);
                            assert(v[pre.base_spec()].size <= v[pre.cand_spec()].size);
                            assert(false);
                        }
                    }
                }
                self.base = b + 1;
                if self.base < n {
                    self.cand = self.base + 1;
                }
                proof {
                    Marker::lemma_advance_base(pre, *self);
                }
                continue;
            }
            if is_duplicate(&self.images[c].path) {
                self.cand = c + 1;
                proof {
                    Marker::lemma_advance_cand(pre, *self);
                }
                continue;
            }
            if self.images[b].hash.is_none() {
                self.pending = Some(b);
                proof {
                    let v = self.recs();
                    let n_ = v.len() as int;
                    assert(v == pre.recs());
                    assert(self.base_spec() < n_);
                    assert(!v[self.base_spec()].is_dup());
                    assert(self.cand_spec() < n_);
                    assert(v[self.cand_spec()].size == v[self.base_spec()].size);
                    assert(!v[self.cand_spec()].is_dup());
                    assert(v[self.base_spec()].hash is None);
                    Marker::lemma_set_pending(pre, *self);
                }
                return Action::NeedContent { idx: b };
            }
            if self.images[c].hash.is_none() {
                self.pending = Some(c);
                proof {
                    let v = self.recs();
                    let n_ = v.len() as int;
                    assert(v == pre.recs());
                    assert(self.base_spec() < n_);
                    assert(!v[self.base_spec()].is_dup());
                    assert(self.cand_spec() < n_);
                    assert(v[self.cand_spec()].size == v[self.base_spec()].size);
                    assert(!v[self.cand_spec()].is_dup());
                    assert(v[self.base_spec()].hash is Some);
                    assert(v[self.cand_spec()].hash is None);
                    Marker::lemma_set_pending(pre, *self);
                }
                return Action::NeedContent { idx: c };
            }
            let equal = match (&self.images[b].hash, &self.images[c].hash) {
                (Some(hb), Some(hc)) => bytes_eq(hb, hc),
                _ => false,
            };
            if !equal {
                self.cand = c + 1;
                proof {
                    assert(pre.differ(pre.base_spec(), pre.cand_spec()));
                    Marker::lemma_advance_cand(pre, *self);
                }
                continue;
            }
            // a true duplicate: mark it, log it, count it
            let from = clone_bytes(&self.images[c].path);
            let to = append_dup_suffix(&from);
            let stored = clone_bytes(&to);
            self.images[c].path = stored;
            let orig = clone_bytes(&self.images[b].path);
            let line = log_line(&to, &orig);
            let dup_path = clone_bytes(&to);
            self.log.push(LogEntry { duplicate: dup_path, original: orig });
            let count = self.log.len();
            self.found = count;
            let sz = self.images[c].size;
            proof {
                assert(self.log_spec() =~= pre.log_spec().push(
                    LogEntryModel { duplicate: to@, original: pre.recs()[b as int].path },
                ));
                assert(pre.reclaimed as int <= pre.log_spec().len() * (u64::MAX as int));
                assert(pre.log_spec().len() as int <= usize::MAX as int);
                assert(usize::MAX as int <= u64::MAX as int);
                assert(pre.log_spec().len() * (u64::MAX as int) <= (u64::MAX as int) * (
                u64::MAX as int));
                assert((pre.reclaimed as int) + (sz as int) < (u128::MAX as int));
            }
            self.reclaimed = self.reclaimed + (sz as u128);
            self.cand = c + 1;
            proof {
                self.wit@ = pre.wit@.insert(c as int, b as int);
                self.log_wit@ = pre.log_wit@.push((b as int, c as int));
                assert(self.recs() =~= pre.recs().update(
                    c as int,
                    RecordModel {
                        path: pre.recs()[c as int].path + dup_suffix_spec(),
                        size: pre.recs()[c as int].size,
                        created: pre.recs()[c as int].created,
                        hash: pre.recs()[c as int].hash,
                    },
                ));
                Marker::lemma_mark(pre, *self);
            }
            return Action::Marked { idx: c, renamed_from: from, renamed_to: to, line };
        }
    }

    /// How many records the pass is over.
    pub fn len(&self) -> (n: usize)
        ensures
            n == self.recs().len(),
    {
        self.images.len()
    }

    /// How many duplicates this pass has marked so far.
    pub fn duplicate_count(&self) -> (n: usize)
        ensures
            n == self.found_spec(),
    {
        self.found
    }

    /// The total size in bytes of the duplicates marked so far.
    pub fn reclaimed_bytes(&self) -> (n: u128)
        ensures
            n == self.reclaimed_spec(),
    {
        self.reclaimed
    }

    /// The current path of the record at `i`.
    pub fn path_of(&self, i: usize) -> (p: Vec<u8>)
        requires
            i < self.recs().len(),
        ensures
            p@ == self.recs()[i as int].path,
    {
        clone_bytes(&self.images[i].path)
    }

    /// Whether the record at `i` currently carries the sentinel extension.
    pub fn is_marked(&self, i: usize) -> (r: bool)
        requires
            i < self.recs().len(),
        ensures
            r == self.recs()[i as int].is_dup(),
    {
        is_duplicate(&self.images[i].path)
    }

    /// The cached content digest of the record at `i`, if one was computed.
    pub fn hash_of(&self, i: usize) -> (h: Option<Vec<u8>>)
        requires
            i < self.recs().len(),
        ensures
            match h {
                Some(d) => self.recs()[i as int].hash == Some(d@),
                None => self.recs()[i as int].hash is None,
            },
    {
        match &self.images[i].hash {
            Some(d) => Some(clone_bytes(d)),
            None => None,
        }
    }

    /// How many log entries the pass has appended.
    pub fn log_count(&self) -> (n: usize)
        ensures
            n == self.log_spec().len(),
    {
        self.log.len()
    }

    /// The log entry at `e`: the duplicate's new path and the original's.
    pub fn log_entry(&self, e: usize) -> (r: (Vec<u8>, Vec<u8>))
        requires
            e < self.log_spec().len(),
        ensures
            r.0@ == self.log_spec()[e as int].duplicate,
            r.1@ == self.log_spec()[e as int].original,
    {
        let entry = &self.log[e];
        (clone_bytes(&entry.duplicate), clone_bytes(&entry.original))
    }
}

/// Two clean survivors of a finished pass never have the same size and the
/// same content: their digests were both computed and differ.  Of two files
/// with identical content and size, at most one comes out unmarked,
/// whatever order they went in.
pub proof fn theorem_no_identical_pair_survives(m: Marker, i: int, j: int)
    requires
        m.inv(),
        m.finished(),
        0 <= i < j < m.recs().len(),
        m.recs()[i].size == m.recs()[j].size,
        !m.recs()[i].is_dup(),
        !m.recs()[j].is_dup(),
    ensures
        m.recs()[i].hash is Some,
        m.recs()[j].hash is Some,
        m.recs()[i].hash != m.recs()[j].hash,
        m.contents_map().contains_key(i),
        m.contents_map().contains_key(j),
        sha256_hex_of(m.contents_map()[i]) != sha256_hex_of(m.contents_map()[j]),
{
    assert(m.differ(i, j));
}

/// Every record this pass marked duplicates a surviving original: an
/// earlier record, still clean, of the same size and with the same digest.
/// In each group of identical files, one keeps its name.
pub proof fn theorem_marked_has_original(m: Marker, j: int)
    requires
        m.inv(),
        0 <= j < m.recs().len(),
        m.marked(j),
    ensures
        exists|i: int| #[trigger] m.original_of(i, j),
{
    assert(m.original_of(m.wit@[j], j));
}

/// Every log entry pairs a marked duplicate with its surviving original,
/// and the two have equal sizes and equal digests: records of differing
/// size are never logged against each other.
pub proof fn theorem_log_entry_witnessed(m: Marker, e: int)
    requires
        m.inv(),
        0 <= e < m.log_spec().len(),
    ensures
        exists|i: int, j: int| #[trigger] m.log_entry_ok(e, i, j),
{
    assert(m.log_entry_ok(e, m.log_wit@[e].0, m.log_wit@[e].1));
}

/// A record that already carried the sentinel extension when the pass began
/// is never touched: its path stays as it was and its content is never
/// hashed.
pub proof fn theorem_preexisting_duplicate_untouched(m: Marker, j: int)
    requires
        m.inv(),
        0 <= j < m.recs().len(),
        m.init()[j].is_dup(),
    ensures
        m.recs()[j].path == m.init()[j].path,
        m.recs()[j].hash is None,
        !m.marked(j),
{
}

/// A finished pass over records without same-size digest twins marked
/// nothing: no record gained the sentinel extension, no path changed, and
/// the log stayed empty.  Since a first pass leaves no twins behind (see
/// [`theorem_no_identical_pair_survives`]) and marked files are excluded
/// from discovery, running the pipeline again changes nothing.
pub proof fn theorem_clean_pass_changes_nothing(m: Marker)
    requires
        m.inv(),
        m.finished(),
        forall|i: int, j: int|
            0 <= i < j < m.recs().len() && (#[trigger] m.recs()[i]).size
                == (#[trigger] m.recs()[j]).size ==> !(m.recs()[i].hash is Some && m.recs()[i].hash
                == m.recs()[j].hash),
    ensures
        m.log_spec().len() == 0,
        m.found_spec() == 0,
        forall|j: int| 0 <= j < m.recs().len() ==> !(#[trigger] m.marked(j)),
        forall|j: int|
            0 <= j < m.recs().len() ==> (#[trigger] m.recs()[j]).path == m.init()[j].path,
{
    assert forall|j: int| 0 <= j < m.recs().len() implies !(#[trigger] m.marked(j)) by {
        if m.marked(j) {
            let i = m.wit@[j];
            assert(m.original_of(i, j));
            assert(m.recs()[i].size == m.recs()[j].size);
            assert(m.recs()[i].hash is Some && m.recs()[i].hash == m.recs()[j].hash);
        }
    }
    if m.log_spec().len() > 0 {
        assert(m.log_entry_ok(0, m.log_wit@[0].0, m.log_wit@[0].1));
        assert(m.marked(m.log_wit@[0].1));
    }
    assert forall|j: int|
        0 <= j < m.recs().len() implies (#[trigger] m.recs()[j]).path == m.init()[j].path by {
        if !m.init()[j].is_dup() {
            assert(!m.marked(j));
        }
    }
}

} // verus!
