use dupmark::discover::{directory_action, error_action, DirAction, Discovery, ErrAction};
use dupmark::paths::{append_dup_suffix, dup_suffix, is_duplicate, log_line, logfile_path};
use dupmark::record::Timestamp;

fn p(s: &str) -> Vec<u8> {
    s.as_bytes().to_vec()
}

fn ts(secs: i64) -> Timestamp {
    Timestamp { secs, nanos: 0 }
}

#[test]
fn sentinel_suffix_bytes() {
    assert_eq!(dup_suffix(), p(".duplicate"));
}

#[test]
fn duplicate_extension_detected() {
    assert!(is_duplicate(&p("a.txt.duplicate")));
    assert!(is_duplicate(&p("/r/sub/photo.jpg.duplicate")));
    assert!(is_duplicate(&p("a.duplicate")));
    assert!(is_duplicate(&p("..duplicate")));
}

#[test]
fn duplicate_extension_rejected() {
    // a file named exactly `.duplicate` is hidden, with no extension
    assert!(!is_duplicate(&p(".duplicate")));
    assert!(!is_duplicate(&p("/x/.duplicate")));
    assert!(!is_duplicate(&p("a.txt")));
    assert!(!is_duplicate(&p("duplicate")));
    assert!(!is_duplicate(&p("")));
}

#[test]
fn appending_suffix_marks() {
    let marked = append_dup_suffix(&p("/r/b.txt"));
    assert_eq!(marked, p("/r/b.txt.duplicate"));
    assert!(is_duplicate(&marked));
}

#[test]
fn logfile_sits_beside_duplicate() {
    assert_eq!(logfile_path(&p("/a/b/c.txt.duplicate")), p("/a/b/duplicates.log"));
    assert_eq!(logfile_path(&p("c.duplicate")), p("duplicates.log"));
    assert_eq!(logfile_path(&p("/top.duplicate")), p("/duplicates.log"));
}

#[test]
fn log_line_format() {
    let line = log_line(&p("/r/b.txt.duplicate"), &p("/r/a.txt"));
    assert_eq!(line, p("/r/b.txt.duplicate is duplicate of /r/a.txt"));
}

#[test]
fn hidden_directories_pruned_below_root() {
    assert_eq!(directory_action(&p(".hidden"), 1), DirAction::Prune);
    assert_eq!(directory_action(&p(".git"), 3), DirAction::Prune);
    // the root itself is walked even when its name is hidden
    assert_eq!(directory_action(&p(".root"), 0), DirAction::Descend);
    assert_eq!(directory_action(&p("plain"), 2), DirAction::Descend);
    assert_eq!(directory_action(&p(""), 2), DirAction::Descend);
}

#[test]
fn permission_denied_skips_other_errors_abort() {
    assert_eq!(error_action(true), ErrAction::SkipEntry);
    assert_eq!(error_action(false), ErrAction::Abort);
}

#[test]
fn discovery_records_clean_files() {
    let mut d = Discovery::new();
    let out = d.observe_file(p("/r/a.txt"), 3, Some(ts(7)), ts(100));
    assert!(out.added);
    assert_eq!(out.repair, None);
    assert_eq!(d.file_count(), 1);
    assert_eq!(d.existing_count(), 0);
}

#[test]
fn discovery_excludes_preexisting_duplicates() {
    let mut d = Discovery::new();
    let out = d.observe_file(p("/r/x.jpg.duplicate"), 5, Some(ts(1)), ts(50));
    assert!(!out.added);
    assert_eq!(d.file_count(), 0);
    assert_eq!(d.existing_count(), 1);
    // a hidden file named exactly `.duplicate` carries no extension
    let out2 = d.observe_file(p("/r/.duplicate"), 5, Some(ts(2)), ts(50));
    assert!(out2.added);
    assert_eq!(d.file_count(), 1);
    assert_eq!(d.existing_count(), 1);
}

#[test]
fn zero_mtime_repaired_to_creation_time() {
    let mut d = Discovery::new();
    // native creation time known: repair to it
    let out = d.observe_file(p("/r/a.txt"), 1, Some(ts(42)), ts(0));
    assert_eq!(out.repair, Some(ts(42)));
    // no native creation time: the derived creation time is the (zero)
    // modification time itself
    let out2 = d.observe_file(p("/r/b.txt"), 1, None, ts(0));
    assert_eq!(out2.repair, Some(ts(0)));
    // a nanosecond makes the time non-zero
    let nz = Timestamp { secs: 0, nanos: 1 };
    let out3 = d.observe_file(p("/r/c.txt"), 1, Some(ts(9)), nz);
    assert_eq!(out3.repair, None);
    // an ordinary modification time is left alone
    let out4 = d.observe_file(p("/r/d.txt"), 1, None, ts(99));
    assert_eq!(out4.repair, None);
}

#[test]
fn creation_time_falls_back_to_modification() {
    let mut d = Discovery::new();
    // with no native creation time and mtime zero, the repair target shows
    // the fallback: the modification time
    let out = d.observe_file(p("/r/a.txt"), 1, None, ts(0));
    assert_eq!(out.repair, Some(ts(0)));
    let out2 = d.observe_file(p("/r/b.txt"), 1, Some(ts(5)), ts(0));
    assert_eq!(out2.repair, Some(ts(5)));
}
