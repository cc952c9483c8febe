//! Pure logic on file paths, modelled as byte strings: the sentinel
//! extension that marks a file as a duplicate, and the location of the
//! per-directory log file.
//!
//! A path separator is the byte `/` (47); the dot of an extension is `.` (46).
use vstd::prelude::*;

verus! {

/// The sentinel extension `.duplicate` as bytes, dot included.
pub open spec fn dup_suffix_spec() -> Seq<u8> {
    seq![46u8, 100u8, 117u8, 112u8, 108u8, 105u8, 99u8, 97u8, 116u8, 101u8]
}

/// The file name of the per-directory duplicate log, `duplicates.log`, as bytes.
pub open spec fn logfile_name_spec() -> Seq<u8> {
    seq![
        100u8, 117u8, 112u8, 108u8, 105u8, 99u8, 97u8, 116u8, 101u8, 115u8, 46u8, 108u8, 111u8,
        103u8,
    ]
}

/// The text ` is duplicate of ` that joins the two paths of a log line.
pub open spec fn log_sep_spec() -> Seq<u8> {
    seq![
        32u8, 105u8, 115u8, 32u8, 100u8, 117u8, 112u8, 108u8, 105u8, 99u8, 97u8, 116u8, 101u8,
        32u8, 111u8, 102u8, 32u8,
    ]
}

/// A path that can name a regular file: non-empty, with a non-empty final
/// component (it does not end in a separator).
pub open spec fn valid_file_path(p: Seq<u8>) -> bool {
    p.len() > 0 && p[p.len() - 1] != 47u8
}

/// Whether a path carries the sentinel extension: its file name ends in
/// `.duplicate` and has at least one character before that dot.  A file name
/// that is exactly `.duplicate` is a hidden file without an extension, so it
/// does not count.
pub open spec fn is_duplicate_path(p: Seq<u8>) -> bool {
    &&& p.len() >= 11
    &&& p.subrange(p.len() - 10, p.len() as int) == dup_suffix_spec()
    &&& p[p.len() - 11] != 47u8
}

/// The index just past the last separator of `p`, or 0 if `p` has none;
/// everything from this index on is the file name.
pub open spec fn dir_prefix_len(p: Seq<u8>) -> int
    decreases p.len(),
{
    if p.len() == 0 {
        0
    } else if p[p.len() - 1] == 47u8 {
        p.len() as int
    } else {
        dir_prefix_len(p.take(p.len() - 1))
    }
}

/// The path of the duplicate log co-located with a file: the file name is
/// replaced by `duplicates.log`.
pub open spec fn logfile_path_spec(p: Seq<u8>) -> Seq<u8> {
    p.take(dir_prefix_len(p)) + logfile_name_spec()
}

/// The line recorded for one detected duplicate (without the final newline).
pub open spec fn log_line_spec(duplicate: Seq<u8>, original: Seq<u8>) -> Seq<u8> {
    duplicate + log_sep_spec() + original
}

/// The bytes of the sentinel extension `.duplicate`.
pub fn dup_suffix() -> (v: Vec<u8>)
    ensures
        v@ == dup_suffix_spec(),
{
    let mut v: Vec<u8> = Vec::new();
    v.push(46);
    v.push(100);
    v.push(117);
    v.push(112);
    v.push(108);
    v.push(105);
    v.push(99);
    v.push(97);
    v.push(116);
    v.push(101);
    proof {
        assert(v@ =~= dup_suffix_spec());
    }
    v
}

/// The bytes of the log file name `duplicates.log`.
pub fn logfile_name() -> (v: Vec<u8>)
    ensures
        v@ == logfile_name_spec(),
{
    let mut v: Vec<u8> = Vec::new();
    v.push(100);
    v.push(117);
    v.push(112);
    v.push(108);
    v.push(105);
    v.push(99);
    v.push(97);
    v.push(116);
    v.push(101);
    v.push(115);
    v.push(46);
    v.push(108);
    v.push(111);
    v.push(103);
    proof {
        assert(v@ =~= logfile_name_spec());
    }
    v
}

/// The bytes of the separator text ` is duplicate of `.
pub fn log_sep() -> (v: Vec<u8>)
    ensures
        v@ == log_sep_spec(),
{
    let mut v: Vec<u8> = Vec::new();
    v.push(32);
    v.push(105);
    v.push(115);
    v.push(32);
    v.push(100);
    v.push(117);
    v.push(112);
    v.push(108);
    v.push(105);
    v.push(99);
    v.push(97);
    v.push(116);
    v.push(101);
    v.push(32);
    v.push(111);
    v.push(102);
    v.push(32);
    proof {
        assert(v@ =~= log_sep_spec());
    }
    v
}

/// Appends all of `src` to `dst`.
pub fn push_bytes(dst: &mut Vec<u8>, src: &Vec<u8>)
    ensures
        final(dst)@ == old(dst)@ + src@,
{
    let ghost orig = dst@;
    let mut i: usize = 0;
    while i < src.len()
        invariant
            i <= src.len(),
            dst@ == orig + src@.subrange(0, i as int),
        decreases src.len() - i,
    {
        dst.push(src[i]);
        proof {
            assert(orig + src@.subrange(0, i as int) + seq![src@[i as int]] =~= orig
                + src@.subrange(0, i + 1));
        }
        i += 1;
    }
    proof {
        assert(src@.subrange(0, src@.len() as int) =~= src@);
    }
}

/// A copy of a byte string.
pub fn clone_bytes(src: &Vec<u8>) -> (r: Vec<u8>)
    ensures
        r@ == src@,
{
    let mut r: Vec<u8> = Vec::new();
    push_bytes(&mut r, src);
    proof {
        assert(Seq::<u8>::empty() + src@ =~= src@);
    }
    r
}

/// Whether two byte strings are equal.
pub fn bytes_eq(a: &Vec<u8>, b: &Vec<u8>) -> (r: bool)
    ensures
        r == (a@ == b@),
{
    if a.len() != b.len() {
        return false;
    }
    let mut i: usize = 0;
    while i < a.len()
        invariant
            i <= a@.len(),
            a@.len() == b@.len(),
            forall|k: int| 0 <= k < i ==> a@[k] == b@[k],
        decreases a@.len() - i,
    {
        if a[i] != b[i] {
            return false;
        }
        i += 1;
    }
    proof {
        assert(a@ =~= b@);
    }
    true
}

/// Whether the path (as stored) currently carries the sentinel extension.
pub fn is_duplicate(p: &Vec<u8>) -> (r: bool)
    ensures
        r == is_duplicate_path(p@),
{
    let n = p.len();
    if n < 11 {
        return false;
    }
    let suf = dup_suffix();
    let mut i: usize = 0;
    while i < 10
        invariant
            i <= 10,
            n == p@.len(),
            n >= 11,
            suf@ == dup_suffix_spec(),
            forall|k: int| 0 <= k < i ==> p@[n - 10 + k] == dup_suffix_spec()[k],
        decreases 10 - i,
    {
        if p[n - 10 + i] != suf[i] {
            proof {
                assert(p@.subrange(n - 10, n as int)[i as int] == p@[n - 10 + i]);
            }
            return false;
        }
        i += 1;
    }
    proof {
        assert(p@.subrange(n - 10, n as int) =~= dup_suffix_spec());
    }
    p[n - 11] != 47
}

/// The path with the sentinel extension appended.
pub fn append_dup_suffix(p: &Vec<u8>) -> (r: Vec<u8>)
    ensures
        r@ == p@ + dup_suffix_spec(),
{
    let mut r = clone_bytes(p);
    let suf = dup_suffix();
    push_bytes(&mut r, &suf);
    r
}

/// Appending the sentinel extension to a path that names a file yields a path
/// that carries the extension and still names a file.
pub proof fn lemma_marked_path_is_duplicate(p: Seq<u8>)
    requires
        valid_file_path(p),
    ensures
        is_duplicate_path(p + dup_suffix_spec()),
        valid_file_path(p + dup_suffix_spec()),
        (p + dup_suffix_spec()).len() == p.len() + 10,
{
    let q = p + dup_suffix_spec();
    assert(q.subrange(q.len() - 10, q.len() as int) =~= dup_suffix_spec());
    assert(q[q.len() - 11] == p[p.len() - 1]);
}

/// `dir_prefix_len` is pinned down by a separator-free tail: if nothing at or
/// after `k` is a separator and `k` is 0 or sits just past one, then `k` is
/// the directory prefix length.
pub proof fn lemma_dir_prefix_len_at(p: Seq<u8>, k: int)
    requires
        0 <= k <= p.len(),
        forall|j: int| k <= j < p.len() ==> p[j] != 47u8,
        k == 0 || p[k - 1] == 47u8,
    ensures
        dir_prefix_len(p) == k,
    decreases p.len(),
{
    if p.len() == k {
    } else {
        assert(p[p.len() - 1] != 47u8);
        let q = p.take(p.len() - 1);
        assert(forall|j: int| k <= j < q.len() ==> q[j] == p[j]);
        if k > 0 {
            assert(q[k - 1] == p[k - 1]);
        }
        lemma_dir_prefix_len_at(q, k);
    }
}

/// The path of the log file that sits beside a duplicate: its directory
/// prefix followed by `duplicates.log`.
pub fn logfile_path(dup: &Vec<u8>) -> (r: Vec<u8>)
    ensures
        r@ == logfile_path_spec(dup@),
{
    let n = dup.len();
    let mut k: usize = n;
    while k > 0 && dup[k - 1] != 47
        invariant
            k <= n,
            n == dup@.len(),
            forall|j: int| k <= j < n ==> dup@[j] != 47u8,
        decreases k,
    {
        k -= 1;
    }
    proof {
        lemma_dir_prefix_len_at(dup@, k as int);
    }
    let mut r: Vec<u8> = Vec::new();
    let mut i: usize = 0;
    while i < k
        invariant
            i <= k,
            k <= dup@.len(),
            r@ == dup@.subrange(0, i as int),
        decreases k - i,
    {
        r.push(dup[i]);
        proof {
            assert(dup@.subrange(0, i as int) + seq![dup@[i as int]] =~= dup@.subrange(
                0,
                i + 1,
            ));
        }
        i += 1;
    }
    let name = logfile_name();
    push_bytes(&mut r, &name);
    proof {
        assert(dup@.subrange(0, k as int) =~= dup@.take(k as int));
    }
    r
}

/// The log line recorded for one duplicate: the duplicate's (renamed) path,
/// the words ` is duplicate of `, then the original's path.
pub fn log_line(duplicate: &Vec<u8>, original: &Vec<u8>) -> (r: Vec<u8>)
    ensures
        r@ == log_line_spec(duplicate@, original@),
{
    let mut r = clone_bytes(duplicate);
    let sep = log_sep();
    push_bytes(&mut r, &sep);
    push_bytes(&mut r, original);
    r
}

} // verus!
