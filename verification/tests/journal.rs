use modtoggler::journal::{mark_file_done, pending_files, FilePair};

fn pair(src: &str, dst: &str, done: bool) -> FilePair {
    FilePair { src: src.into(), dst: dst.into(), done }
}

#[test]
fn test_pending_files_filters_done() {
    let pairs = vec![pair("a", "b", false), pair("c", "d", true), pair("e", "f", false)];
    let pending = pending_files(&pairs);
    assert_eq!(pending.len(), 2);
    assert_eq!(pending[0].src, "a");
    assert_eq!(pending[1].src, "e");
}

#[test]
fn test_pending_files_all_done_returns_empty() {
    let pairs = vec![pair("a", "b", true)];
    let pending = pending_files(&pairs);
    assert!(pending.is_empty(), "All done — should return empty vec");
}

#[test]
fn test_incomplete_journal_detected() {
    let pairs = vec![
        pair("a.pak", "b.pak", true),
        pair("c.pak", "d.pak", false),
        pair("e.pak", "f.pak", false),
    ];
    let incomplete = pending_files(&pairs);
    assert_eq!(incomplete.len(), 2, "Should detect 2 incomplete file moves");
    let all_done = vec![pair("a.pak", "b.pak", true)];
    assert!(pending_files(&all_done).is_empty(), "All-done journal must not be flagged");
}

#[test]
fn recovery_resumes_after_the_moves_marked_done() {
    let mut files = vec![pair("a", "b", false), pair("c", "d", false), pair("e", "f", false)];
    mark_file_done(&mut files, 0);
    let pending = pending_files(&files);
    assert_eq!(pending.len(), 2);
    assert_eq!(pending[0].src, "c");
    mark_file_done(&mut files, 1);
    let pending = pending_files(&files);
    assert_eq!(pending.len(), 1);
    assert_eq!(*pending[0], pair("e", "f", false));
    mark_file_done(&mut files, 2);
    assert!(pending_files(&files).is_empty());
    assert!(files.iter().all(|f| f.done));
}
