use dupmark::discover::Discovery;
use dupmark::grouper::order;
use dupmark::marker::{Action, Marker};
use dupmark::record::{FileRecord, Timestamp};
use sha2::{Digest, Sha256};

fn p(s: &str) -> Vec<u8> {
    s.as_bytes().to_vec()
}

fn ts(secs: i64) -> Timestamp {
    Timestamp { secs, nanos: 0 }
}

/// Runs a marking pass, answering content requests from `lookup`, and
/// returns the renames carried out as `(from, to, line)` triples.
fn run(m: &mut Marker, lookup: &dyn Fn(&[u8]) -> Vec<u8>) -> Vec<(Vec<u8>, Vec<u8>, Vec<u8>)> {
    let mut renames = Vec::new();
    loop {
        match m.step() {
            Action::NeedContent { idx } => {
                let path = m.path_of(idx);
                let content = lookup(&path);
                m.supply_content(idx, &content);
            }
            Action::Marked { renamed_from, renamed_to, line, .. } => {
                renames.push((renamed_from, renamed_to, line));
            }
            Action::Done => return renames,
        }
    }
}

#[test]
fn three_files_one_duplicate() {
    let mut d = Discovery::new();
    assert!(d.observe_file(p("/r/a.txt"), 1, Some(ts(1)), ts(10)).added);
    assert!(d.observe_file(p("/r/b.txt"), 1, Some(ts(2)), ts(10)).added);
    assert!(d.observe_file(p("/r/c.txt"), 1, Some(ts(3)), ts(10)).added);
    assert_eq!(d.file_count(), 3);
    let mut m = Marker::begin(d);
    let renames = run(&mut m, &|path: &[u8]| {
        if path == b"/r/c.txt" { b"Y".to_vec() } else { b"X".to_vec() }
    });
    // exactly one rename: b.txt, the later of the two identical files
    assert_eq!(renames.len(), 1);
    assert_eq!(renames[0].0, p("/r/b.txt"));
    assert_eq!(renames[0].1, p("/r/b.txt.duplicate"));
    assert_eq!(renames[0].2, p("/r/b.txt.duplicate is duplicate of /r/a.txt"));
    // summary: one duplicate, one byte reclaimed
    assert_eq!(m.duplicate_count(), 1);
    assert_eq!(m.reclaimed_bytes(), 1u128);
    // the log references the renamed file and its original
    assert_eq!(m.log_count(), 1);
    let (dup, orig) = m.log_entry(0);
    assert_eq!(dup, p("/r/b.txt.duplicate"));
    assert_eq!(orig, p("/r/a.txt"));
    // a.txt and c.txt are untouched
    assert_eq!(m.path_of(0), p("/r/a.txt"));
    assert!(!m.is_marked(0));
    assert_eq!(m.path_of(2), p("/r/c.txt"));
    assert!(!m.is_marked(2));
    assert!(m.is_marked(1));
}

#[test]
fn empty_root_yields_nothing() {
    let d = Discovery::new();
    assert_eq!(d.file_count(), 0);
    assert_eq!(d.existing_count(), 0);
    let mut m = Marker::begin(d);
    let renames = run(&mut m, &|_: &[u8]| Vec::new());
    assert!(renames.is_empty());
    assert_eq!(m.duplicate_count(), 0);
    assert_eq!(m.reclaimed_bytes(), 0u128);
    // no entries, so no log file would ever be opened
    assert_eq!(m.log_count(), 0);
}

#[test]
fn differing_sizes_never_hashed() {
    let mut d = Discovery::new();
    d.observe_file(p("/r/a.bin"), 1, Some(ts(1)), ts(10));
    d.observe_file(p("/r/b.bin"), 2, Some(ts(2)), ts(10));
    d.observe_file(p("/r/c.bin"), 3, Some(ts(3)), ts(10));
    let mut m = Marker::begin(d);
    // no same-size pair: the pass must finish without a single content request
    loop {
        match m.step() {
            Action::NeedContent { .. } => panic!("content requested for files of unique size"),
            Action::Marked { .. } => panic!("marked without a same-size twin"),
            Action::Done => break,
        }
    }
    assert_eq!(m.duplicate_count(), 0);
    for i in 0..m.len() {
        assert!(m.hash_of(i).is_none());
    }
}

#[test]
fn preexisting_duplicate_never_rehashed_or_renamed() {
    // a record that already carries the sentinel extension sits between two
    // identical files of the same size
    let recs = vec![
        FileRecord { path: p("/r/a.txt"), size: 1, created: ts(1), hash: None },
        FileRecord { path: p("/r/old.txt.duplicate"), size: 1, created: ts(2), hash: None },
        FileRecord { path: p("/r/b.txt"), size: 1, created: ts(3), hash: None },
    ];
    let mut m = Marker::new(recs);
    let mut asked = Vec::new();
    loop {
        match m.step() {
            Action::NeedContent { idx } => {
                asked.push(m.path_of(idx));
                let content = b"X".to_vec();
                m.supply_content(idx, &content);
            }
            Action::Marked { .. } => {}
            Action::Done => break,
        }
    }
    // no file's content is ever requested twice: the digest is cached
    for (k, a) in asked.iter().enumerate() {
        assert!(!asked[..k].contains(a));
    }
    // the sentinel-bearing record was neither hashed nor renamed
    assert!(!asked.contains(&p("/r/old.txt.duplicate")));
    assert_eq!(m.path_of(1), p("/r/old.txt.duplicate"));
    assert!(m.hash_of(1).is_none());
    // the identical pair around it was still found
    assert_eq!(m.duplicate_count(), 1);
    assert_eq!(m.path_of(2), p("/r/b.txt.duplicate"));
}

#[test]
fn second_run_changes_nothing() {
    // first run: as in the three-file scenario
    let mut d = Discovery::new();
    d.observe_file(p("/r/a.txt"), 1, Some(ts(1)), ts(10));
    d.observe_file(p("/r/b.txt"), 1, Some(ts(2)), ts(10));
    d.observe_file(p("/r/c.txt"), 1, Some(ts(3)), ts(10));
    let mut m = Marker::begin(d);
    let lookup = |path: &[u8]| -> Vec<u8> {
        if path == b"/r/c.txt" { b"Y".to_vec() } else { b"X".to_vec() }
    };
    let renames = run(&mut m, &lookup);
    assert_eq!(renames.len(), 1);
    // second run over the directory as the first run left it: the marked
    // file is excluded at discovery, the rest rediscovered unchanged
    let mut d2 = Discovery::new();
    for i in 0..m.len() {
        let out = d2.observe_file(m.path_of(i), 1, Some(ts(1 + i as i64)), ts(10));
        assert_eq!(out.added, !m.is_marked(i));
    }
    assert_eq!(d2.file_count(), 2);
    assert_eq!(d2.existing_count(), 1);
    let mut m2 = Marker::new(order(d2.into_records()));
    let renames2 = run(&mut m2, &lookup);
    // no additional renames and no additional log entries
    assert!(renames2.is_empty());
    assert_eq!(m2.duplicate_count(), 0);
    assert_eq!(m2.log_count(), 0);
}

#[test]
fn identical_files_found_regardless_of_order() {
    // the identical pair arrives separated and in descending size order
    let mut d = Discovery::new();
    d.observe_file(p("/r/big.bin"), 9, Some(ts(1)), ts(10));
    d.observe_file(p("/r/two.bin"), 4, Some(ts(5)), ts(10));
    d.observe_file(p("/r/mid.bin"), 7, Some(ts(2)), ts(10));
    d.observe_file(p("/r/one.bin"), 4, Some(ts(3)), ts(10));
    let mut m = Marker::begin(d);
    let renames = run(&mut m, &|path: &[u8]| {
        if path == b"/r/one.bin" || path == b"/r/two.bin" {
            b"same".to_vec()
        } else {
            path.to_vec()
        }
    });
    // the sort puts one.bin (earlier creation) before two.bin
    assert_eq!(renames.len(), 1);
    assert_eq!(renames[0].0, p("/r/two.bin"));
    assert_eq!(renames[0].1, p("/r/two.bin.duplicate"));
    assert_eq!(m.reclaimed_bytes(), 4u128);
}

#[test]
fn grouping_sort_orders_by_size_then_creation() {
    let recs = vec![
        FileRecord { path: p("/r/d.bin"), size: 5, created: ts(1), hash: None },
        FileRecord { path: p("/r/a.bin"), size: 2, created: ts(9), hash: None },
        FileRecord { path: p("/r/c.bin"), size: 5, created: ts(0), hash: None },
        FileRecord { path: p("/r/b.bin"), size: 2, created: Timestamp { secs: 9, nanos: 7 }, hash: None },
    ];
    let sorted = order(recs);
    let paths: Vec<Vec<u8>> = sorted.iter().map(|r| r.path.clone()).collect();
    assert_eq!(paths, vec![p("/r/a.bin"), p("/r/b.bin"), p("/r/c.bin"), p("/r/d.bin")]);
    let sizes: Vec<u64> = sorted.iter().map(|r| r.size).collect();
    assert_eq!(sizes, vec![2, 2, 5, 5]);
}

#[test]
fn content_digest_is_real_sha256() {
    // two empty files: the empty-content digests match, so one is marked
    let mut d = Discovery::new();
    d.observe_file(p("/r/e1"), 0, Some(ts(1)), ts(10));
    d.observe_file(p("/r/e2"), 0, Some(ts(2)), ts(10));
    let mut m = Marker::begin(d);
    let renames = run(&mut m, &|_: &[u8]| Vec::new());
    assert_eq!(renames.len(), 1);
    // the cached digest is the well-known SHA-256 of the empty string
    let cached = m.hash_of(0).expect("base file was hashed");
    assert_eq!(
        cached,
        b"e3b0c44298fc1c149afbf4c8996fb92427ae41e4649b934ca495991b7852b855".to_vec()
    );
}

#[test]
fn cached_digest_matches_library_digest() {
    let mut d = Discovery::new();
    d.observe_file(p("/r/x1"), 1, Some(ts(1)), ts(10));
    d.observe_file(p("/r/x2"), 1, Some(ts(2)), ts(10));
    let mut m = Marker::begin(d);
    run(&mut m, &|_: &[u8]| b"X".to_vec());
    let cached = m.hash_of(0).expect("base file was hashed");
    let expected = format!("{:x}", Sha256::digest(b"X")).into_bytes();
    assert_eq!(cached, expected);
}
