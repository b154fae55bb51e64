use syner::client::{
    client_manifest, content_path, hundredths, step, Action, ClientManifestItem, DeleteMode, Event, ItemState,
    ReportThrottle, SyncProgress, REPORT_INTERVAL_MICROS,
};
use syner::digest::digest;
use syner::model::{ItemOp, ManifestItem};

fn item(local: &str, op: ItemOp, content: &[u8]) -> ClientManifestItem {
    ClientManifestItem {
        path: (local.to_string(), local.to_string(), local.to_string()),
        op,
        len: content.len() as u64,
        hash: digest(content),
    }
}

/// Runs one item against a simulated local file system: `local` is the
/// content of the file, if any, and `served` what the server sends.
fn run(it: &ClientManifestItem, mode: DeleteMode, local: &mut Option<Vec<u8>>, served: Option<&[u8]>) -> (ItemState, Vec<&'static str>) {
    let mut trace = Vec::new();
    let mut state = ItemState::Pending;
    let mut ev = match local {
        Some(c) => Event::Present(c.len() as u64),
        None => Event::Absent,
    };
    loop {
        let (next, action) = step(it, mode, state, &ev);
        state = next;
        ev = match action {
            Action::Stop => break,
            Action::HashLocal => {
                trace.push("hash");
                Event::Hashed(digest(local.as_ref().unwrap()))
            }
            Action::Download => {
                trace.push("download");
                match served {
                    Some(body) => {
                        *local = Some(body.to_vec());
                        Event::Done
                    }
                    None => Event::Failed,
                }
            }
            Action::RenameTo(_) => {
                trace.push("rename");
                Event::Done
            }
            Action::DeleteLocal => {
                trace.push("delete");
                *local = None;
                Event::Done
            }
        };
    }
    (state, trace)
}

#[test]
fn absent_file_is_downloaded_and_finishes() {
    let content = b"hello world";
    let it = ClientManifestItem {
        path: ("w/a/b.txt".to_string(), "a/b.txt".to_string(), "a/b.txt".to_string()),
        op: ItemOp::Sync,
        len: 11,
        hash: digest(content),
    };
    let mut local = None;
    let (state, trace) = run(&it, DeleteMode::Rename, &mut local, Some(content));
    assert_eq!(state, ItemState::Finish);
    assert_eq!(trace, vec!["download"]);
    assert_eq!(digest(local.as_ref().unwrap()), it.hash);
}

#[test]
fn second_run_is_noop() {
    let content = b"some content";
    let it = item("w/f", ItemOp::Sync, content);
    let mut local = None;
    assert_eq!(run(&it, DeleteMode::Rename, &mut local, Some(content)).0, ItemState::Finish);
    let (state, trace) = run(&it, DeleteMode::Rename, &mut local, Some(content));
    assert_eq!(state, ItemState::NoOp);
    assert_eq!(trace, vec!["hash"]);
}

#[test]
fn same_length_other_content_is_downloaded_again() {
    let content = b"abcdef";
    let it = item("w/f", ItemOp::Sync, content);
    let mut local = Some(b"abcxyz".to_vec());
    let (state, trace) = run(&it, DeleteMode::Rename, &mut local, Some(content));
    assert_eq!(state, ItemState::Finish);
    assert_eq!(trace, vec!["hash", "download"]);
    assert_eq!(digest(local.as_ref().unwrap()), it.hash);
}

#[test]
fn other_length_is_downloaded_without_hashing() {
    let content = b"abcdef";
    let it = item("w/f", ItemOp::Sync, content);
    let mut local = Some(b"abc".to_vec());
    let (state, trace) = run(&it, DeleteMode::Rename, &mut local, Some(content));
    assert_eq!(state, ItemState::Finish);
    assert_eq!(trace, vec!["download"]);
}

#[test]
fn remove_in_rename_mode_moves_file_aside() {
    let it = item("w/old.txt", ItemOp::Remove, b"");
    let (next, action) = step(&it, DeleteMode::Rename, ItemState::Pending, &Event::Present(5));
    assert_eq!(next, ItemState::Pending);
    match action {
        Action::RenameTo(p) => assert_eq!(p, "w/old.txt.del"),
        _ => panic!("expected a rename"),
    }
    let (done, _) = step(&it, DeleteMode::Rename, ItemState::Pending, &Event::Done);
    assert_eq!(done, ItemState::Finish);
}

#[test]
fn remove_in_delete_mode_unlinks() {
    let it = item("w/old.txt", ItemOp::Remove, b"");
    let mut local = Some(b"data".to_vec());
    let (state, trace) = run(&it, DeleteMode::Delete, &mut local, None);
    assert_eq!(state, ItemState::Finish);
    assert_eq!(trace, vec!["delete"]);
    assert!(local.is_none());
}

#[test]
fn remove_of_absent_file_is_noop() {
    let it = item("w/old.txt", ItemOp::Remove, b"");
    let mut local = None;
    let (state, trace) = run(&it, DeleteMode::Delete, &mut local, None);
    assert_eq!(state, ItemState::NoOp);
    assert!(trace.is_empty());
}

#[test]
fn failure_ends_in_error_and_stays() {
    let it = item("w/f", ItemOp::Sync, b"abc");
    let mut local = None;
    let (state, _) = run(&it, DeleteMode::Rename, &mut local, None);
    assert_eq!(state, ItemState::Error);
    let (again, action) = step(&it, DeleteMode::Rename, ItemState::Error, &Event::Done);
    assert_eq!(again, ItemState::Error);
    assert!(matches!(action, Action::Stop));
}

#[test]
fn unexpected_report_is_error() {
    let it = item("w/f", ItemOp::Sync, b"abc");
    let (s, _) = step(&it, DeleteMode::Rename, ItemState::Pending, &Event::Done);
    assert_eq!(s, ItemState::Error);
    let (s, _) = step(&it, DeleteMode::Rename, ItemState::Sync, &Event::Hashed(vec![]));
    assert_eq!(s, ItemState::Error);
}

#[test]
fn one_failure_among_ten_completes_run() {
    let mut progress = SyncProgress::new(10);
    assert_eq!(progress.done(), 0);
    assert_eq!(progress.percent(), 0);
    let mut states = Vec::new();
    for i in 0..10usize {
        let content = format!("file {i}");
        let it = item(&format!("w/{i}"), ItemOp::Sync, content.as_bytes());
        let mut local = None;
        let served = if i == 3 { None } else { Some(content.as_bytes()) };
        let (state, _) = run(&it, DeleteMode::Rename, &mut local, served);
        progress.set_state(i, state);
        states.push(state);
    }
    assert_eq!(states.iter().filter(|s| **s == ItemState::Finish).count(), 9);
    assert_eq!(progress.state(3), ItemState::Error);
    assert_eq!(progress.done(), 10);
    assert_eq!(progress.total(), 10);
    assert_eq!(progress.percent(), 10000);
}

#[test]
fn progress_counts_terminal_states_once() {
    let mut progress = SyncProgress::new(4);
    progress.set_state(0, ItemState::Hash);
    assert_eq!(progress.done(), 0);
    progress.set_state(0, ItemState::NoOp);
    progress.set_state(1, ItemState::Finish);
    progress.set_state(1, ItemState::Finish);
    assert_eq!(progress.done(), 2);
    assert_eq!(progress.percent(), 5000);
    progress.set_state(2, ItemState::Sync);
    assert_eq!(progress.percent(), 5000);
}

#[test]
fn empty_run_is_complete() {
    let progress = SyncProgress::new(0);
    assert_eq!(progress.percent(), 10000);
}

#[test]
fn hundredths_of_percent() {
    assert_eq!(hundredths(1, 3), 3333);
    assert_eq!(hundredths(2, 3), 6666);
    assert_eq!(hundredths(5, 3), 10000);
    assert_eq!(hundredths(0, 0), 10000);
    assert_eq!(hundredths(u64::MAX, u64::MAX), 10000);
}

#[test]
fn throttle_spaces_reports() {
    let mut t = ReportThrottle::new(1000);
    assert_eq!(t.interval, REPORT_INTERVAL_MICROS);
    assert!(!t.due(1000 + REPORT_INTERVAL_MICROS));
    assert!(t.due(1001 + REPORT_INTERVAL_MICROS));
    assert_eq!(t.last, 1001 + REPORT_INTERVAL_MICROS);
    assert!(!t.due(1002 + REPORT_INTERVAL_MICROS));
    assert!(!t.due(5));
}

#[test]
fn client_items_from_entries() {
    let entries = vec![
        ("a/b.txt".to_string(), ManifestItem { op: ItemOp::Sync, len: 3, hash: vec![1, 2] }),
        ("c".to_string(), ManifestItem { op: ItemOp::Remove, len: 0, hash: vec![] }),
    ];
    let items = client_manifest("work", entries);
    assert_eq!(items.len(), 2);
    assert_eq!(items[0].path, ("work/a/b.txt".to_string(), "a/b.txt".to_string(), "a/b.txt".to_string()));
    assert_eq!((items[0].op, items[0].len, items[0].hash.clone()), (ItemOp::Sync, 3, vec![1, 2]));
    assert_eq!(items[1].path.0, "work/c");
    assert_eq!(items[1].op, ItemOp::Remove);
}

#[test]
fn content_request_path() {
    assert_eq!(content_path("a/b.txt"), "content/a/b.txt");
}

#[test]
fn default_delete_mode_is_rename() {
    assert_eq!(DeleteMode::default(), DeleteMode::Rename);
}
