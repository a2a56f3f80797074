use transfer_plan::path::FilePath;
use transfer_plan::queue::{
    destination_is_unchanged, file_destination, mtime_close_enough, nested_destination, FileMeta,
    FileTime, QueueAddSummary, QueueCommand, QueueError, TransferItem, TransferQueue, WalkEntry,
};

fn path(text: &str) -> FilePath {
    FilePath::from_text(text)
}

fn text(p: &FilePath) -> String {
    String::from_utf8(p.as_bytes().clone()).unwrap()
}

fn meta(len: u64) -> FileMeta {
    FileMeta {
        len,
        is_file: true,
        modified: Some(FileTime { secs: 1000, nanos: 0 }),
    }
}

fn item(source: &str, size: u64) -> TransferItem {
    TransferItem {
        source: path(source),
        destination: path("/d"),
        size,
        cleanup_root: None,
    }
}

fn entry(p: &str, len: u64) -> WalkEntry {
    WalkEntry {
        path: path(p),
        is_file: true,
        meta: meta(len),
        destination_meta: None,
    }
}

fn sources(queue: &TransferQueue) -> Vec<String> {
    queue.snapshot_items().iter().map(|i| text(&i.source)).collect()
}

#[test]
fn a_new_queue_is_empty() {
    let queue = TransferQueue::new();
    assert!(queue.is_empty());
    assert_eq!((queue.len(), queue.total_size(), queue.revision()), (0, 0, 0));
    assert!(TransferQueue::default().is_empty());
}

#[test]
fn a_file_is_queued_under_its_name() {
    let mut queue = TransferQueue::new();
    let summary = queue
        .add_file_with_policy(path("/s/hello.txt"), &path("/dest"), meta(19), None, false)
        .unwrap();
    assert_eq!(
        summary,
        QueueAddSummary {
            queued_files: 1,
            skipped_files: 0
        }
    );
    assert_eq!((queue.len(), queue.total_size(), queue.revision()), (1, 19, 1));
    let got = queue.recv_timeout(0).unwrap();
    assert_eq!(text(&got.source), "/s/hello.txt");
    assert_eq!(text(&got.destination), "/dest/hello.txt");
    assert_eq!(got.size, 19);
    assert!(got.cleanup_root.is_none());
    assert!(queue.recv_timeout(0).is_none());
    assert_eq!((queue.len(), queue.total_size(), queue.revision()), (0, 0, 2));
}

#[test]
fn a_source_without_a_name_is_refused() {
    let mut queue = TransferQueue::new();
    let r = queue.add_file_with_policy(path("/s/.."), &path("/dest"), meta(1), None, false);
    assert_eq!(r, Err(QueueError::InvalidFileName));
    assert_eq!(QueueError::InvalidFileName.message(), "Invalid file name");
    let r = queue.add_directory_with_policy(&path("/"), &path("/dest"), &vec![], false);
    assert_eq!(r, Err(QueueError::InvalidDirectoryName));
    assert_eq!(QueueError::InvalidDirectoryName.message(), "Invalid directory name");
    assert_eq!(queue.revision(), 0);
}

#[test]
fn an_unchanged_file_is_skipped_in_update_mode_alone() {
    let mut queue = TransferQueue::new();
    let same = Some(meta(19));
    let r = queue.add_file_with_policy(path("/s/a"), &path("/d"), meta(19), same, true);
    assert_eq!(
        r,
        Ok(QueueAddSummary {
            queued_files: 0,
            skipped_files: 1
        })
    );
    assert!(queue.is_empty());
    let r = queue.add_file_with_policy(path("/s/a"), &path("/d"), meta(19), same, false);
    assert_eq!(
        r,
        Ok(QueueAddSummary {
            queued_files: 1,
            skipped_files: 0
        })
    );
    assert_eq!(queue.len(), 1);
}

#[test]
fn times_may_differ_by_two_seconds() {
    let at = |secs: i64, nanos: u32| FileTime { secs, nanos };
    assert!(mtime_close_enough(at(10, 0), at(12, 999_999_999)));
    assert!(!mtime_close_enough(at(10, 0), at(13, 0)));
    assert!(mtime_close_enough(at(13, 0), at(10, 1)));
    assert!(mtime_close_enough(at(-1, 0), at(1, 5)));
    assert!(!mtime_close_enough(at(i64::MIN, 0), at(i64::MAX, 0)));
}

#[test]
fn a_destination_is_unchanged_where_all_agrees() {
    let a = meta(5);
    assert!(destination_is_unchanged(&a, &Some(meta(5))));
    assert!(!destination_is_unchanged(&a, &None));
    assert!(!destination_is_unchanged(&a, &Some(meta(6))));
    assert!(!destination_is_unchanged(&a, &Some(FileMeta { is_file: false, ..meta(5) })));
    assert!(!destination_is_unchanged(&a, &Some(FileMeta { modified: None, ..meta(5) })));
    assert!(!destination_is_unchanged(&FileMeta { modified: None, ..a }, &Some(meta(5))));
}

#[test]
fn a_directory_is_queued_in_alphabetical_order() {
    let mut queue = TransferQueue::new();
    let mut entries = vec![
        entry("/s/docs/zeta.txt", 4),
        entry("/s/docs/nested/beta.txt", 4),
        entry("/s/docs/alpha.txt", 5),
    ];
    entries.push(WalkEntry {
        is_file: false,
        ..entry("/s/docs/nested", 0)
    });
    entries.push(WalkEntry {
        destination_meta: Some(meta(7)),
        ..entry("/s/docs/old.txt", 7)
    });
    let r = queue.add_directory_with_policy(&path("/s/docs"), &path("/d"), &entries, true);
    assert_eq!(
        r,
        Ok(QueueAddSummary {
            queued_files: 3,
            skipped_files: 1
        })
    );
    assert_eq!(
        sources(&queue),
        vec!["/s/docs/alpha.txt", "/s/docs/nested/beta.txt", "/s/docs/zeta.txt"]
    );
    assert_eq!((queue.len(), queue.total_size(), queue.revision()), (3, 13, 1));
    let items = queue.snapshot_items();
    assert_eq!(text(&items[1].destination), "/d/docs/nested/beta.txt");
    assert_eq!(text(items[1].cleanup_root.as_ref().unwrap()), "/s/docs");
}

#[test]
fn components_are_compared_before_letters() {
    let mut queue = TransferQueue::new();
    let entries = vec![entry("/s/d/a-b", 1), entry("/s/d/a/z", 1), entry("/s/d/a.txt", 1)];
    queue
        .add_directory_with_policy(&path("/s/d"), &path("/t"), &entries, false)
        .unwrap();
    assert_eq!(sources(&queue), vec!["/s/d/a/z", "/s/d/a-b", "/s/d/a.txt"]);
}

#[test]
fn a_file_outside_the_directory_is_refused() {
    let mut queue = TransferQueue::new();
    let entries = vec![entry("/s/d/a", 1), entry("/s/e/b", 1)];
    let r = queue.add_directory_with_policy(&path("/s/d"), &path("/t"), &entries, false);
    assert_eq!(r, Err(QueueError::OutsideDirectory));
    assert_eq!(QueueError::OutsideDirectory.message(), "prefix not found");
    assert!(queue.is_empty());
}

#[test]
fn an_empty_directory_changes_nothing() {
    let mut queue = TransferQueue::new();
    let r = queue.add_directory_with_policy(&path("/s/d"), &path("/t"), &vec![], false);
    assert_eq!(
        r,
        Ok(QueueAddSummary {
            queued_files: 0,
            skipped_files: 0
        })
    );
    assert_eq!(queue.revision(), 0);
}

#[test]
fn destinations_are_told_beforehand() {
    let p = file_destination(&path("/s/a.txt"), &path("/d")).unwrap();
    assert_eq!(text(&p), "/d/a.txt");
    let p = nested_destination(&path("/s/docs/x/y"), &path("/s/docs"), &path("/d")).unwrap();
    assert_eq!(text(&p), "/d/docs/x/y");
    let e = nested_destination(&path("/q"), &path("/s/docs"), &path("/d")).unwrap_err();
    assert_eq!(e, QueueError::OutsideDirectory);
    let e = nested_destination(&path("/q"), &path("/"), &path("/d")).unwrap_err();
    assert_eq!(e, QueueError::InvalidDirectoryName);
}

#[test]
fn items_leave_in_the_order_they_came() {
    let mut queue = TransferQueue::new();
    for name in ["/a", "/b", "/c"] {
        queue
            .add_file_with_policy(path(name), &path("/d"), meta(1), None, false)
            .unwrap();
    }
    assert_eq!(text(&queue.recv_timeout(0).unwrap().source), "/a");
    queue
        .add_file_with_policy(path("/e"), &path("/d"), meta(1), None, false)
        .unwrap();
    assert_eq!(text(&queue.recv_timeout(5).unwrap().source), "/b");
    assert_eq!(text(&queue.recv_timeout(5).unwrap().source), "/c");
    assert_eq!(text(&queue.recv_timeout(5).unwrap().source), "/e");
    assert!(queue.recv_timeout(5).is_none());
}

#[test]
fn a_snapshot_restores_the_queue() {
    let mut first = TransferQueue::new();
    first
        .add_file_with_policy(path("/a"), &path("/d"), meta(3), None, false)
        .unwrap();
    first
        .add_file_with_policy(path("/b"), &path("/d"), meta(4), None, false)
        .unwrap();
    let mut second = TransferQueue::new();
    second
        .add_file_with_policy(path("/old"), &path("/d"), meta(9), None, false)
        .unwrap();
    let before = second.revision();
    second.restore_items(first.snapshot_items());
    assert_eq!(sources(&second), vec!["/a", "/b"]);
    assert_eq!((second.len(), second.total_size()), (2, 7));
    assert_ne!(second.revision(), before);
    assert_eq!(text(&second.recv_timeout(0).unwrap().source), "/a");
    assert_eq!(text(&second.recv_timeout(0).unwrap().source), "/b");
    assert!(second.recv_timeout(0).is_none());
    second.restore_items(vec![]);
    assert!(second.is_empty());
    second.restore_items(vec![item("/x", 1)]);
    assert_eq!(second.len(), 1);
}

#[test]
fn commands_arrive() {
    let mut queue = TransferQueue::new();
    assert_eq!(queue.try_recv_command(), None);
    let sender = queue.get_sender();
    let other = queue.get_sender();
    sender.send(QueueCommand::Stop).unwrap();
    other.send(QueueCommand::Terminate).unwrap();
    assert_eq!(queue.try_recv_command(), Some(QueueCommand::Stop));
    assert_eq!(queue.try_recv_command(), Some(QueueCommand::Terminate));
    assert_eq!(queue.try_recv_command(), None);
}

#[test]
fn summaries_start_at_zero() {
    assert_eq!(
        QueueAddSummary::default(),
        QueueAddSummary {
            queued_files: 0,
            skipped_files: 0
        }
    );
}

#[test]
fn a_directory_is_queued_in_one_order() {
    let names = ["/s/d/b", "/s/d/a/z", "/s/d/a.txt", "/s/d/a"];
    let queued = |order: [usize; 4]| {
        let mut queue = TransferQueue::new();
        let entries: Vec<WalkEntry> = order.iter().map(|k| entry(names[*k], 1)).collect();
        queue
            .add_directory_with_policy(&path("/s/d"), &path("/dest"), &entries, false)
            .unwrap();
        sources(&queue)
    };
    let first = queued([0, 1, 2, 3]);
    assert_eq!(first, vec!["/s/d/a", "/s/d/a/z", "/s/d/a.txt", "/s/d/b"]);
    assert_eq!(queued([3, 2, 1, 0]), first);
    assert_eq!(queued([2, 0, 3, 1]), first);
}
