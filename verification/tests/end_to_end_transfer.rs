//! Transfers from the queue to the outcome, on a file system in memory.

use std::collections::{BTreeMap, BTreeSet};
use transfer_plan::cleanup::removal_order;
use transfer_plan::copy::{
    copy_file_optimized, ensure_parent_directory, remember_parent, temp_destination_path,
    AttemptEvent, AttemptStep, CopyAttempt, CopyFailure, JobEvent, JobStep, Method,
};
use transfer_plan::path::FilePath;
use transfer_plan::pathset::PathSet;
use transfer_plan::pool::{transfer_worker_pool, PoolEvent, PoolStep, TransferOutcome};
use transfer_plan::progress::{Bar, ProgressReader, Tally};
use transfer_plan::queue::{FileMeta, TransferItem, TransferQueue, WalkEntry};
use transfer_plan::verify::verify_transfer;
use transfer_plan::worker::{PoolState, Report, Worker, WorkerEvent, WorkerStep};

struct Disk {
    files: BTreeMap<String, Vec<u8>>,
    dirs: BTreeSet<String>,
    free: u64,
    /// How often the next copies fail.
    broken: usize,
}

fn path(text: &str) -> FilePath {
    FilePath::from_text(text)
}

fn text(p: &FilePath) -> String {
    String::from_utf8(p.as_bytes().clone()).unwrap()
}

impl Disk {
    fn new() -> Disk {
        let mut disk = Disk {
            files: BTreeMap::new(),
            dirs: BTreeSet::new(),
            free: 1 << 40,
            broken: 0,
        };
        disk.dirs.insert("/source".to_string());
        disk.dirs.insert("/destination".to_string());
        disk
    }

    fn write(&mut self, p: &str, bytes: &[u8]) {
        self.files.insert(p.to_string(), bytes.to_vec());
    }

    fn has(&self, p: &str) -> bool {
        self.files.contains_key(p) || self.dirs.contains(p)
    }

    fn meta(&self, p: &str) -> FileMeta {
        FileMeta {
            len: self.files[p].len() as u64,
            is_file: true,
            modified: None,
        }
    }

    fn add_file(&self, queue: &mut TransferQueue, p: &str) {
        queue
            .add_file_with_policy(path(p), &path("/destination"), self.meta(p), None, false)
            .unwrap();
    }

    fn add_directory(&self, queue: &mut TransferQueue, dir: &str) {
        let mut entries: Vec<WalkEntry> = Vec::new();
        for p in self.files.keys() {
            if path(p).starts_with(&path(dir)) {
                entries.push(WalkEntry {
                    path: path(p),
                    is_file: true,
                    meta: self.meta(p),
                    destination_meta: None,
                });
            }
        }
        entries.reverse();
        queue
            .add_directory_with_policy(&path(dir), &path("/destination"), &entries, false)
            .unwrap();
    }

    fn attempt(
        &mut self,
        item: &TransferItem,
        method: Method,
        prepared: &mut PathSet,
        file: &mut Bar,
        tally: &mut Tally,
    ) -> Result<(), CopyFailure> {
        let need = ensure_parent_directory(&item.destination, prepared);
        let named = item.destination.file_name().is_some();
        let (mut attempt, mut step) = CopyAttempt::start(method, item.size, need, named);
        let temp = text(&temp_destination_path(&item.destination, 1).unwrap());
        let source = text(&item.source);
        let destination = text(&item.destination);
        loop {
            let event = match step {
                AttemptStep::PrepareParent => {
                    let parent = item.destination.parent().unwrap();
                    self.dirs.insert(text(&parent));
                    remember_parent(prepared, parent);
                    AttemptEvent::Done
                }
                AttemptStep::OpenSource => AttemptEvent::Done,
                AttemptStep::CreateTemp => {
                    self.write(&temp, b"");
                    AttemptEvent::Done
                }
                AttemptStep::SendRange(len) => {
                    let all = self.files[&source].clone();
                    let done = all.len() - attempt.remaining as usize;
                    let part = &all[done..done + len as usize];
                    self.files.get_mut(&temp).unwrap().extend_from_slice(part);
                    AttemptEvent::Sent(len)
                }
                AttemptStep::StreamAll => {
                    let all = self.files[&source].clone();
                    let mut reader = ProgressReader::new(0);
                    for chunk in all.chunks(1000) {
                        self.files.get_mut(&temp).unwrap().extend_from_slice(chunk);
                        reader.read(chunk.len(), 0, file, tally);
                    }
                    reader.flush_pending(0, file, tally);
                    if self.broken > 0 {
                        self.broken -= 1;
                        AttemptEvent::Failed
                    } else {
                        AttemptEvent::Done
                    }
                }
                AttemptStep::Rename => {
                    let bytes = self.files.remove(&temp).unwrap();
                    self.write(&destination, &bytes);
                    AttemptEvent::Done
                }
                AttemptStep::RemoveTemp => {
                    self.files.remove(&temp);
                    AttemptEvent::Done
                }
                AttemptStep::LookForDestination => AttemptEvent::Exists(false),
                AttemptStep::RemoveDestination => AttemptEvent::Failed,
                AttemptStep::Succeed => return Ok(()),
                AttemptStep::Fail(why) => return Err(why),
            };
            step = attempt.step(event, named, file, tally);
        }
    }

    fn copy(
        &mut self,
        item: &TransferItem,
        verify: bool,
        prepared: &mut PathSet,
        tally: &mut Tally,
    ) -> bool {
        let mut file = Bar::new(item.size);
        let (mut job, mut step) = copy_file_optimized(item.size, verify);
        loop {
            let event = match step {
                JobStep::Attempt(method) => {
                    match self.attempt(item, method, prepared, &mut file, tally) {
                        Ok(()) => JobEvent::Copied,
                        Err(why) => JobEvent::CopyFailed(why),
                    }
                }
                JobStep::FallBack => {
                    match self.attempt(item, Method::Stream, prepared, &mut file, tally) {
                        Ok(()) => JobEvent::Copied,
                        Err(why) => JobEvent::CopyFailed(why),
                    }
                }
                JobStep::Verify => {
                    let a = vec![self.files[&text(&item.source)].clone()];
                    let b = vec![self.files[&text(&item.destination)].clone()];
                    JobEvent::Verified(verify_transfer(&a, &b, item.size).unwrap())
                }
                JobStep::Wait(_) => JobEvent::Waited,
                JobStep::Complete => return true,
                JobStep::Fail(_) => return false,
            };
            step = job.step(event, &mut file, tally);
        }
    }

    /// The workers take turns, a file each.
    fn run(
        &mut self,
        queue: &mut TransferQueue,
        num_workers: usize,
        verify: bool,
        cleanup_mode: &str,
    ) -> (TransferOutcome, PoolState, Tally) {
        let (mut run, mut pool, first) = transfer_worker_pool(cleanup_mode, false);
        assert_eq!(first, PoolStep::RunWorkers);
        let mut tally = Tally {
            copied_bytes: 0,
            overall: Bar::new(queue.total_size()),
        };
        let mut prepared = PathSet::new();
        let mut workers: Vec<Worker> = Vec::new();
        let mut steps: Vec<WorkerStep> = Vec::new();
        let mut items: Vec<Option<TransferItem>> = Vec::new();
        for _ in 0..num_workers {
            let mut worker = Worker::new();
            steps.push(worker.step(&mut pool, WorkerEvent::Start).step);
            workers.push(worker);
            items.push(None);
        }
        while steps.iter().any(|s| *s != WorkerStep::Exit) {
            for k in 0..num_workers {
                let event = match steps[k] {
                    WorkerStep::Exit => continue,
                    WorkerStep::Poll => match pool.next_item(queue) {
                        Some(item) => {
                            items[k] = Some(item.clone());
                            WorkerEvent::Received(item)
                        }
                        None => WorkerEvent::Idle {
                            queue_empty: queue.is_empty(),
                        },
                    },
                    WorkerStep::PrepareParent => WorkerEvent::ParentReady,
                    WorkerStep::LocateFilesystem => WorkerEvent::Located { fs_id: 1, now: 0 },
                    WorkerStep::ProbeSpace => WorkerEvent::Probed {
                        available: self.free,
                        now: 0,
                    },
                    WorkerStep::CopyFile => {
                        let item = items[k].clone().unwrap();
                        if self.copy(&item, verify, &mut prepared, &mut tally) {
                            WorkerEvent::Copied
                        } else {
                            WorkerEvent::CopyFailed
                        }
                    }
                    WorkerStep::RemoveSource => {
                        let source = text(&items[k].as_ref().unwrap().source);
                        self.files.remove(&source);
                        WorkerEvent::Removed
                    }
                };
                let turn = workers[k].step(&mut pool, event);
                if turn.report == Report::Stopped {
                    assert!(turn.reason.is_some());
                }
                steps[k] = turn.step;
            }
        }
        let mut step = run.step(PoolEvent::WorkersDone, &pool);
        let mut synced = false;
        loop {
            let event = match step {
                PoolStep::CleanUpRoots => {
                    for root in pool.cleanup_roots.to_vec() {
                        let dirs: Vec<FilePath> = self
                            .dirs
                            .iter()
                            .map(|d| path(d))
                            .filter(|d| d.starts_with(&root))
                            .collect();
                        for dir in removal_order(&dirs) {
                            let name = text(&dir);
                            let inside = format!("{}/", name);
                            let full = self.files.keys().any(|f| f.starts_with(&inside))
                                || self.dirs.iter().any(|d| d.starts_with(&inside));
                            if !full {
                                self.dirs.remove(&name);
                            }
                        }
                    }
                    PoolEvent::CleanedUp
                }
                PoolStep::EndMonitor => PoolEvent::MonitorDone {
                    stopped_by_user: false,
                },
                PoolStep::Sync => {
                    synced = true;
                    PoolEvent::Synced
                }
                PoolStep::Finish => break,
                PoolStep::RunWorkers | PoolStep::Fail => unreachable!(),
            };
            step = run.step(event, &pool);
        }
        let outcome = run.outcome(&pool);
        assert_eq!(synced, outcome.files_completed + outcome.files_failed > 0);
        (outcome, pool, tally)
    }
}

#[test]
fn end_to_end_transfer_copies_files_and_keeps_sources() {
    let mut disk = Disk::new();
    disk.write("/source/hello.txt", b"hello transfer-plan");
    disk.dirs.insert("/source/album".to_string());
    disk.write("/source/album/photo.bin", &vec![7u8; 4096]);

    let mut queue = TransferQueue::new();
    disk.add_file(&mut queue, "/source/hello.txt");
    disk.add_directory(&mut queue, "/source/album");
    let (outcome, _, tally) = disk.run(&mut queue, 2, true, "none");

    assert!(!outcome.stopped_by_user);
    assert_eq!(outcome.files_failed, 0);
    assert_eq!(outcome.files_completed, 2);
    assert!(queue.is_empty());
    assert_eq!(disk.files["/destination/hello.txt"], b"hello transfer-plan");
    assert_eq!(disk.files["/destination/album/photo.bin"], vec![7u8; 4096]);
    assert!(disk.has("/source/hello.txt"));
    assert!(disk.has("/source/album/photo.bin"));
    assert_eq!(tally.copied_bytes, 19 + 4096);
}

#[test]
fn end_to_end_transfer_with_delete_cleanup_removes_sources() {
    let mut disk = Disk::new();
    disk.write("/source/delete_me.txt", b"delete after transfer");

    let mut queue = TransferQueue::new();
    disk.add_file(&mut queue, "/source/delete_me.txt");
    let (outcome, _, _) = disk.run(&mut queue, 1, false, "delete");

    assert!(!outcome.stopped_by_user);
    assert_eq!(outcome.files_failed, 0);
    assert_eq!(outcome.files_completed, 1);
    assert!(queue.is_empty());
    assert_eq!(disk.files["/destination/delete_me.txt"], b"delete after transfer");
    assert!(!disk.has("/source/delete_me.txt"));
}

#[test]
fn folder_transfer_is_alphabetical_and_removes_empty_source_folder() {
    let mut disk = Disk::new();
    disk.dirs.insert("/source/docs".to_string());
    disk.dirs.insert("/source/docs/nested".to_string());
    disk.write("/source/docs/zeta.txt", b"zeta");
    disk.write("/source/docs/alpha.txt", b"alpha");
    disk.write("/source/docs/nested/beta.txt", b"beta");

    let mut queue = TransferQueue::new();
    disk.add_directory(&mut queue, "/source/docs");
    let ordered: Vec<String> = queue
        .snapshot_items()
        .iter()
        .map(|item| {
            let inner = item.source.strip_prefix(&path("/source/docs"));
            text(&inner.expect("source must remain under root"))
        })
        .collect();
    assert_eq!(
        ordered,
        vec![
            "alpha.txt".to_string(),
            "nested/beta.txt".to_string(),
            "zeta.txt".to_string()
        ]
    );

    let (outcome, _, _) = disk.run(&mut queue, 1, false, "delete");
    assert!(!outcome.stopped_by_user);
    assert_eq!(outcome.files_failed, 0);
    assert_eq!(outcome.files_completed, 3);
    assert!(queue.is_empty());
    assert!(!disk.has("/source/docs"));
    assert_eq!(disk.files["/destination/docs/alpha.txt"], b"alpha");
    assert_eq!(disk.files["/destination/docs/nested/beta.txt"], b"beta");
    assert_eq!(disk.files["/destination/docs/zeta.txt"], b"zeta");
}

#[test]
fn a_large_file_goes_through_the_kernel() {
    let mut disk = Disk::new();
    let big: Vec<u8> = (0..5_000_000u32).map(|n| (n % 251) as u8).collect();
    disk.write("/source/big.bin", &big);
    let mut queue = TransferQueue::new();
    disk.add_file(&mut queue, "/source/big.bin");
    let (outcome, pool, tally) = disk.run(&mut queue, 1, true, "none");
    assert_eq!(outcome.files_completed, 1);
    assert_eq!(disk.files["/destination/big.bin"], big);
    assert_eq!(tally.copied_bytes, 5_000_000);
    assert!(pool.reservations.is_empty());
    let targets: Vec<String> = pool.sync_targets.iter().map(text).collect();
    assert_eq!(targets, vec!["/destination"]);
}

#[test]
fn failed_attempts_leave_no_trace() {
    let mut disk = Disk::new();
    disk.write("/source/a", &vec![1u8; 3000]);
    disk.broken = 3;
    let mut queue = TransferQueue::new();
    disk.add_file(&mut queue, "/source/a");
    let (outcome, _, tally) = disk.run(&mut queue, 1, false, "delete");
    assert_eq!((outcome.files_completed, outcome.files_failed), (1, 0));
    assert_eq!(tally.copied_bytes, 3000);
    assert_eq!(disk.files.len(), 1);

    disk.write("/source/b", &vec![2u8; 3000]);
    disk.broken = 4;
    disk.add_file(&mut queue, "/source/b");
    let (outcome, pool, tally) = disk.run(&mut queue, 1, false, "delete");
    assert_eq!((outcome.files_completed, outcome.files_failed), (0, 1));
    assert!(!outcome.stopped_by_user);
    assert_eq!(tally.copied_bytes, 0);
    assert!(disk.has("/source/b"));
    assert!(!disk.has("/destination/b"));
    assert!(disk.files.keys().all(|f| !f.contains(".part.")));
    assert!(pool.reservations.is_empty());
}

#[test]
fn a_full_drive_stops_the_transfer() {
    let mut disk = Disk::new();
    disk.free = 64 * 1024 * 1024 + 5;
    disk.write("/source/a", b"12345");
    disk.write("/source/b", b"123456");
    disk.write("/source/c", b"1");
    let mut queue = TransferQueue::new();
    for name in ["/source/a", "/source/b", "/source/c"] {
        disk.add_file(&mut queue, name);
    }
    let (outcome, pool, _) = disk.run(&mut queue, 1, false, "delete");
    assert!(outcome.stopped_by_user);
    assert_eq!((outcome.files_completed, outcome.files_failed), (1, 1));
    assert_eq!(
        outcome.stop_reason.unwrap(),
        "Low disk space on /destination: need 6 bytes (+64.00 MB safety), available 64.00 MB"
    );
    assert_eq!(queue.len(), 1);
    assert!(pool.stop_requested);
    assert!(disk.has("/source/b"));
    assert!(!disk.has("/source/a"));
}
