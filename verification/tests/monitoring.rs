use transfer_plan::cleanup::{remove_empty_source_directories, removal_order};
use transfer_plan::monitor::{progress_message, Monitor, MonitorStep, Sample};
use transfer_plan::path::FilePath;
use transfer_plan::pool::{
    deletes_sources, transfer_worker_pool, Ending, PoolEvent, PoolStep, TransferOutcome,
};
use transfer_plan::queue::{QueueCommand, TransferQueue};
use transfer_plan::stats::TransferStats;
use transfer_plan::worker::PoolState;

fn stats(completed: u64, failed: u64) -> TransferStats {
    TransferStats {
        bytes_transferred: 0,
        files_completed: completed,
        files_failed: failed,
    }
}

#[test]
fn a_look_adds_up() {
    let mut monitor = Monitor::new(5);
    let sample = monitor.look(300, 1000, &stats(2, 1), 1, true);
    assert_eq!(
        sample,
        Sample {
            transferred_bytes: 300,
            delta_bytes: 300,
            remaining_bytes: 700,
            remaining_files: 2,
            completed: 2
        }
    );
    let sample = monitor.look(1200, 1000, &stats(4, 1), 4, false);
    assert_eq!(
        sample,
        Sample {
            transferred_bytes: 1000,
            delta_bytes: 900,
            remaining_bytes: 0,
            remaining_files: 4,
            completed: 4
        }
    );
    assert_eq!((monitor.last_io_bytes, monitor.max_total_files), (300, 9));
    let sample = monitor.look(200, 1000, &stats(4, 1), 0, true);
    assert_eq!(sample.delta_bytes, 0);
    assert_eq!(monitor.max_total_files, 9);
}

fn pool(completed: u64, failed: u64) -> PoolState {
    let mut pool = PoolState::new(false, false);
    pool.stats = stats(completed, failed);
    pool
}

#[test]
fn commands_end_the_watch() {
    let mut monitor = Monitor::new(1);
    let mut pool = pool(0, 0);
    let step = monitor.decide(Some(QueueCommand::Terminate), false, &mut pool);
    assert_eq!(step, MonitorStep::End);
    assert!(!monitor.stopped_by_user && !pool.stop_requested);
    let step = monitor.decide(Some(QueueCommand::Stop), false, &mut pool);
    assert_eq!(step, MonitorStep::End);
    assert!(monitor.stopped_by_user && pool.stop_requested);
}

#[test]
fn a_watch_takes_one_command_at_a_time() {
    let mut queue = TransferQueue::new();
    let mut monitor = Monitor::new(1);
    let mut pool = pool(1, 0);
    assert_eq!(monitor.heed(&mut queue, &mut pool), MonitorStep::Settle);
    let sender = queue.get_sender();
    sender.send(QueueCommand::Stop).unwrap();
    sender.send(QueueCommand::Terminate).unwrap();
    assert_eq!(monitor.heed(&mut queue, &mut pool), MonitorStep::End);
    assert!(monitor.stopped_by_user && pool.stop_requested);
    assert_eq!(queue.try_recv_command(), Some(QueueCommand::Terminate));
    assert_eq!(queue.try_recv_command(), None);
}

#[test]
fn an_empty_queue_settles() {
    let mut monitor = Monitor::new(1);
    assert_eq!(monitor.decide(None, true, &mut pool(0, 0)), MonitorStep::Wait);
    assert_eq!(monitor.decide(None, false, &mut pool(1, 0)), MonitorStep::Wait);
    assert_eq!(monitor.decide(None, true, &mut pool(1, 0)), MonitorStep::Settle);
    assert_eq!(monitor.decide(None, true, &mut pool(0, 1)), MonitorStep::Settle);
    assert_eq!(monitor.settled(true), MonitorStep::End);
    assert_eq!(monitor.settled(false), MonitorStep::Wait);
}

#[test]
fn the_line_of_a_transfer() {
    let mut monitor = Monitor::new(5);
    let sample = monitor.look(1024, 3072, &stats(2, 1), 1, true);
    assert_eq!(
        progress_message(&sample, monitor.max_total_files, Some(75), "12.5"),
        "Files: 2/5 | Remaining: 2.00 KB (2 files) | Total remaining: 00:01:15 | Avg: 12.5 MB/s"
    );
    assert_eq!(
        progress_message(&sample, 5, None, "0.0"),
        "Files: 2/5 | Remaining: 2.00 KB (2 files) | Total remaining: estimating... | Avg: 0.0 MB/s"
    );
}

fn outcome(stopped_by_user: bool, reason: Option<&str>) -> TransferOutcome {
    TransferOutcome {
        stopped_by_user,
        files_completed: 3,
        files_failed: 1,
        stop_reason: reason.map(|r| r.to_string()),
    }
}

#[test]
fn endings_are_told() {
    let second = 1_000_000_000;
    let whole = outcome(false, None);
    assert_eq!(whole.ending(), Ending::Complete);
    assert_eq!(
        whole.ending_message("3", "1.5", 60 * second + 600_000_000, 1_500_000_000),
        "✓ Transfer complete! 3 succeeded, 1 failed | Avg: 1.5 MB/s | Total time: 00:01:02 (sync: 1s)"
    );
    let stopped = outcome(true, None);
    assert_eq!(stopped.ending(), Ending::StoppedByUser);
    assert_eq!(
        stopped.ending_message("3", "1.5", second, 0),
        "Stopped by user. 3 succeeded, 1 failed | Avg: 1.5 MB/s | Elapsed: 00:00:01 (sync: 0s)"
    );
    let broken = outcome(true, Some("disk full"));
    assert_eq!(broken.ending(), Ending::StoppedForReason);
    assert_eq!(
        broken.ending_message("3", "1.5", second, 0),
        "Stopped: disk full | 3 succeeded, 1 failed | Avg: 1.5 MB/s | Elapsed: 00:00:01 (sync: 0s)"
    );
}

#[test]
fn a_transfer_ends_in_order() {
    assert!(deletes_sources("delete"));
    assert!(!deletes_sources("none"));
    let (mut run, mut pool, step) = transfer_worker_pool("delete", false);
    assert_eq!(step, PoolStep::RunWorkers);
    pool.stats.inc_failed();
    assert_eq!(run.step(PoolEvent::WorkersDone, &pool), PoolStep::CleanUpRoots);
    assert_eq!(run.step(PoolEvent::CleanedUp, &pool), PoolStep::EndMonitor);
    let done = PoolEvent::MonitorDone {
        stopped_by_user: true,
    };
    assert_eq!(run.step(done, &pool), PoolStep::Sync);
    assert_eq!(run.step(PoolEvent::Synced, &pool), PoolStep::Finish);
    let outcome = run.outcome(&pool);
    assert!(outcome.stopped_by_user);
    assert_eq!((outcome.files_completed, outcome.files_failed), (0, 1));
}

#[test]
fn a_transfer_of_nothing_is_not_synchronised() {
    let (mut run, pool, _) = transfer_worker_pool("none", true);
    assert_eq!(run.step(PoolEvent::WorkersDone, &pool), PoolStep::EndMonitor);
    let done = PoolEvent::MonitorDone {
        stopped_by_user: false,
    };
    assert_eq!(run.step(done, &pool), PoolStep::Finish);
    assert!(run.outcome(&pool).stopped_by_user);
    let (mut run, pool, _) = transfer_worker_pool("none", false);
    assert_eq!(run.step(PoolEvent::WorkerPanicked, &pool), PoolStep::Fail);
}

#[test]
fn inner_directories_go_first() {
    let dirs: Vec<FilePath> = ["/s", "/s/a", "/s/a/b", "/s/c", "/s/a/b/d"]
        .iter()
        .map(|d| FilePath::from_text(d))
        .collect();
    let order: Vec<usize> = removal_order(&dirs).iter().map(|d| d.component_count()).collect();
    assert_eq!(order, vec![5, 4, 3, 3, 2]);
}

#[test]
fn directories_of_a_removed_file() {
    let above = |file: &str, root: Option<&str>| -> Vec<String> {
        let root = root.map(FilePath::from_text);
        remove_empty_source_directories(&FilePath::from_text(file), &root)
            .iter()
            .map(|d| String::from_utf8(d.as_bytes().clone()).unwrap())
            .collect()
    };
    assert_eq!(above("/s/a/b/file", Some("/s/a")), vec!["/s/a/b", "/s/a"]);
    assert_eq!(above("/s/file", Some("/s")), vec!["/s"]);
    assert_eq!(above("/s/file", Some("/t")), Vec::<String>::new());
    assert_eq!(above("/s/file", Some("/s/file")), Vec::<String>::new());
    assert_eq!(above("/s/file", None), Vec::<String>::new());
}
