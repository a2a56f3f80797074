use transfer_plan::path::FilePath;
use transfer_plan::pool::{transfer_worker_pool, PoolEvent, PoolStep};
use transfer_plan::queue::{QueueCommand, TransferItem, TransferQueue};
use transfer_plan::stats::TransferStats;
use transfer_plan::worker::{PoolState, Report, Worker, WorkerEvent, WorkerStep};

fn item(destination: &str, size: u64) -> TransferItem {
    TransferItem {
        source: FilePath::from_text("/s/file"),
        destination: FilePath::from_text(destination),
        size,
        cleanup_root: Some(FilePath::from_text("/s")),
    }
}

#[test]
fn stats_count() {
    let mut stats = TransferStats::new();
    stats.add_bytes(10);
    stats.add_bytes(5);
    stats.inc_completed();
    stats.inc_completed();
    stats.inc_failed();
    assert_eq!(stats.get_stats(), (2, 1, 15));
    assert_eq!(TransferStats::default().get_stats(), (0, 0, 0));
}

#[test]
fn a_worker_sees_a_file_through() {
    let mut pool = PoolState::new(true, false);
    let mut w = Worker::new();
    assert_eq!(w.step(&mut pool, WorkerEvent::Start).step, WorkerStep::Poll);
    let turn = w.step(&mut pool, WorkerEvent::Received(item("/d/x", 10)));
    assert_eq!(turn.step, WorkerStep::PrepareParent);
    let turn = w.step(&mut pool, WorkerEvent::ParentReady);
    assert_eq!(turn.step, WorkerStep::LocateFilesystem);
    let turn = w.step(&mut pool, WorkerEvent::Located { fs_id: 3, now: 5 });
    assert_eq!(turn.step, WorkerStep::ProbeSpace);
    let probed = WorkerEvent::Probed {
        available: 1 << 30,
        now: 5,
    };
    assert_eq!(w.step(&mut pool, probed).step, WorkerStep::CopyFile);
    assert_eq!(pool.reservations.get(&3), Some(&10));
    assert_eq!(pool.sync_targets.len(), 1);
    let turn = w.step(&mut pool, WorkerEvent::Copied);
    assert_eq!(turn.step, WorkerStep::RemoveSource);
    assert!(pool.reservations.is_empty());
    assert_eq!(pool.stats.get_stats(), (1, 0, 10));
    let turn = w.step(&mut pool, WorkerEvent::Removed);
    assert_eq!((turn.step, turn.report), (WorkerStep::Poll, Report::Removed));
    assert_eq!(pool.cleanup_roots.len(), 1);

    // The second file into the same directory needs neither of the two looks.
    let turn = w.step(&mut pool, WorkerEvent::Received(item("/d/y", 10)));
    assert_eq!(turn.step, WorkerStep::LocateFilesystem);
    let turn = w.step(&mut pool, WorkerEvent::Located { fs_id: 3, now: 6 });
    assert_eq!(turn.step, WorkerStep::CopyFile);
    let turn = w.step(&mut pool, WorkerEvent::CopyFailed);
    assert_eq!((turn.step, turn.report), (WorkerStep::Poll, Report::CopyFailed));
    assert_eq!(pool.stats.get_stats(), (1, 1, 10));
    let turn = w.step(&mut pool, WorkerEvent::Idle { queue_empty: false });
    assert_eq!(turn.step, WorkerStep::Poll);
    let turn = w.step(&mut pool, WorkerEvent::Idle { queue_empty: true });
    assert_eq!((turn.step, turn.report), (WorkerStep::Exit, Report::Nothing));
}

#[test]
fn a_source_that_cannot_be_removed_is_reported() {
    let mut pool = PoolState::new(true, false);
    let mut w = Worker::new();
    w.step(&mut pool, WorkerEvent::Start);
    w.step(&mut pool, WorkerEvent::Received(item("/d/x", 1)));
    w.step(&mut pool, WorkerEvent::ParentReady);
    w.step(&mut pool, WorkerEvent::Located { fs_id: 3, now: 5 });
    let probed = WorkerEvent::Probed {
        available: 1 << 30,
        now: 5,
    };
    w.step(&mut pool, probed);
    w.step(&mut pool, WorkerEvent::Copied);
    let turn = w.step(&mut pool, WorkerEvent::RemoveFailed);
    assert_eq!((turn.step, turn.report), (WorkerStep::Poll, Report::RemoveFailed));
    assert_eq!(pool.cleanup_roots.len(), 0);
}

#[test]
fn the_first_reason_stays() {
    let mut pool = PoolState::new(false, false);
    let mut a = Worker::new();
    let mut b = Worker::new();
    a.step(&mut pool, WorkerEvent::Start);
    b.step(&mut pool, WorkerEvent::Start);
    a.step(&mut pool, WorkerEvent::Received(item("/d/x", 1)));
    b.step(&mut pool, WorkerEvent::Received(item("/d/y", 1)));
    let turn = a.step(&mut pool, WorkerEvent::ParentFailed("no directory".to_string()));
    assert_eq!((turn.step, turn.report), (WorkerStep::Exit, Report::Stopped));
    assert_eq!(turn.reason.as_deref(), Some("no directory"));
    assert_eq!(turn.command(), Some(QueueCommand::Stop));
    b.step(&mut pool, WorkerEvent::ParentReady);
    let turn = b.step(&mut pool, WorkerEvent::LocateFailed("no device".to_string()));
    assert_eq!(turn.reason.as_deref(), Some("no device"));
    assert_eq!(pool.stop_reason.as_deref(), Some("no directory"));
    assert!(pool.stop_requested);
    assert_eq!(pool.stats.get_stats(), (0, 2, 0));
}

#[test]
fn a_probe_that_fails_stops_the_transfer() {
    let mut pool = PoolState::new(false, false);
    let mut w = Worker::new();
    w.step(&mut pool, WorkerEvent::Start);
    w.step(&mut pool, WorkerEvent::Received(item("/d/x", 1)));
    w.step(&mut pool, WorkerEvent::ParentReady);
    w.step(&mut pool, WorkerEvent::Located { fs_id: 3, now: 5 });
    let turn = w.step(&mut pool, WorkerEvent::ProbeFailed("gone".to_string()));
    assert_eq!(turn.reason.as_deref(), Some("gone"));
    assert_eq!(turn.step, WorkerStep::Exit);
}

#[test]
fn a_destination_without_a_directory_stops_the_transfer() {
    let mut pool = PoolState::new(false, false);
    let mut w = Worker::new();
    w.step(&mut pool, WorkerEvent::Start);
    let turn = w.step(&mut pool, WorkerEvent::Received(item("/", 1)));
    assert_eq!(turn.reason.as_deref(), Some("Destination has no parent directory"));
    assert_eq!(pool.stats.get_stats(), (0, 1, 0));
}

#[test]
fn a_stop_lets_the_current_file_end() {
    let mut pool = PoolState::new(false, false);
    let mut w = Worker::new();
    w.step(&mut pool, WorkerEvent::Start);
    w.step(&mut pool, WorkerEvent::Received(item("/d/x", 1)));
    pool.stop_requested = true;
    w.step(&mut pool, WorkerEvent::ParentReady);
    w.step(&mut pool, WorkerEvent::Located { fs_id: 3, now: 5 });
    let probed = WorkerEvent::Probed {
        available: 1 << 30,
        now: 5,
    };
    assert_eq!(w.step(&mut pool, probed).step, WorkerStep::CopyFile);
    let turn = w.step(&mut pool, WorkerEvent::Copied);
    assert_eq!((turn.step, turn.report), (WorkerStep::Exit, Report::Complete));
    assert_eq!(turn.command(), None);
}

#[test]
fn a_worker_does_not_start_after_a_stop() {
    let mut pool = PoolState::new(false, true);
    let mut w = Worker::new();
    assert_eq!(w.step(&mut pool, WorkerEvent::Start).step, WorkerStep::Exit);
}

#[test]
fn a_command_to_stop_stops_all_transfers() {
    let mut queue = TransferQueue::new();
    queue.restore_items(vec![item("/d/x", 1), item("/d/y", 2)]);
    let sender = queue.get_sender();
    sender.send(QueueCommand::Terminate).unwrap();
    sender.send(QueueCommand::Stop).unwrap();

    let (mut run, mut pool, _) = transfer_worker_pool("none", false);
    let mut w = Worker::new();
    assert_eq!(w.step(&mut pool, WorkerEvent::Start).step, WorkerStep::Poll);
    assert!(pool.next_item(&mut queue).is_none());
    assert!(pool.stop_requested);
    let turn = w.step(&mut pool, WorkerEvent::Idle { queue_empty: false });
    assert_eq!(turn.step, WorkerStep::Exit);
    assert_eq!(run.step(PoolEvent::WorkersDone, &pool), PoolStep::EndMonitor);
    let done = PoolEvent::MonitorDone {
        stopped_by_user: false,
    };
    assert_eq!(run.step(done, &pool), PoolStep::Finish);
    let outcome = run.outcome(&pool);
    assert!(outcome.stopped_by_user);
    assert_eq!((outcome.files_completed, queue.len()), (0, 2));
}

#[test]
fn items_come_in_order_without_a_command() {
    let mut queue = TransferQueue::new();
    queue.restore_items(vec![item("/d/x", 1), item("/d/y", 2)]);
    let mut pool = PoolState::new(false, false);
    assert_eq!(pool.next_item(&mut queue).map(|i| i.size), Some(1));
    pool.note_command(Some(QueueCommand::Terminate));
    assert_eq!(pool.next_item(&mut queue).map(|i| i.size), Some(2));
    assert!(pool.next_item(&mut queue).is_none());
    assert!(!pool.stop_requested);
}

#[test]
fn a_look_waits_once_and_ends_with_an_empty_queue() {
    let mut queue = TransferQueue::new();
    queue.restore_items(vec![item("/d/x", 1)]);
    let mut pool = PoolState::new(false, false);
    let mut w = Worker::new();
    w.step(&mut pool, WorkerEvent::Start);
    let (turn, found) = w.poll(&mut pool, &mut queue, false).unwrap();
    assert_eq!((turn.step, found.map(|i| i.size)), (WorkerStep::PrepareParent, Some(1)));
    assert!(queue.is_empty());
    let mut other = Worker::new();
    other.step(&mut pool, WorkerEvent::Start);
    assert!(other.poll(&mut pool, &mut queue, false).is_none());
    let (turn, found) = other.poll(&mut pool, &mut queue, true).unwrap();
    assert_eq!((turn.step, found.is_none()), (WorkerStep::Exit, true));
}

#[test]
fn a_look_after_a_stop_takes_nothing() {
    let mut queue = TransferQueue::new();
    queue.restore_items(vec![item("/d/x", 1), item("/d/y", 2)]);
    let sender = queue.get_sender();
    sender.send(QueueCommand::Terminate).unwrap();
    sender.send(QueueCommand::Stop).unwrap();
    sender.send(QueueCommand::Terminate).unwrap();
    let mut pool = PoolState::new(false, false);
    let mut w = Worker::new();
    w.step(&mut pool, WorkerEvent::Start);
    let (turn, found) = w.poll(&mut pool, &mut queue, false).unwrap();
    assert_eq!((turn.step, found.is_none()), (WorkerStep::Exit, true));
    assert_eq!((pool.stop_requested, queue.len()), (true, 2));
    // Nothing is taken behind the command to stop.
    assert_eq!(queue.try_recv_command(), Some(QueueCommand::Terminate));
    assert_eq!(queue.try_recv_command(), None);
}

#[test]
fn a_transfer_accounts_for_its_queue() {
    let mut queue = TransferQueue::new();
    queue.restore_items(vec![item("/d/x", 1), item("/", 2), item("/d/z", 3)]);
    let (_, mut pool, _) = transfer_worker_pool("none", false);
    let mut a = Worker::new();
    let mut b = Worker::new();
    a.step(&mut pool, WorkerEvent::Start);
    b.step(&mut pool, WorkerEvent::Start);
    let (turn, _) = a.poll(&mut pool, &mut queue, false).unwrap();
    assert_eq!(turn.step, WorkerStep::PrepareParent);
    // A destination without a directory stops the transfer; the file that is at
    // work is finished, and the third stays queued.
    let (turn, _) = b.poll(&mut pool, &mut queue, false).unwrap();
    assert_eq!((turn.step, turn.report), (WorkerStep::Exit, Report::Stopped));
    a.step(&mut pool, WorkerEvent::ParentReady);
    a.step(&mut pool, WorkerEvent::Located { fs_id: 3, now: 5 });
    let probed = WorkerEvent::Probed {
        available: 1 << 30,
        now: 5,
    };
    a.step(&mut pool, probed);
    let turn = a.step(&mut pool, WorkerEvent::Copied);
    assert_eq!((turn.step, turn.report), (WorkerStep::Exit, Report::Complete));
    assert_eq!(pool.stats.get_stats(), (1, 1, 1));
    assert_eq!(queue.len(), 1);
    assert!(pool.stop_requested && pool.stop_reason.is_some());
    assert!(pool.reservations.is_empty());
}
