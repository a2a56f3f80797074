//! One worker of a transfer: it takes files from the queue and sees each
//! through, until the queue is empty or the transfer is stopped.

use crate::channel::feeds;
use crate::copy::PlaceError;
use crate::path::{parent_of, FilePath};
use crate::pathset::{holds, path_texts, with_path, PathSet};
use crate::queue::{
    advanced, path_view, ItemView, QueueCommand, QueueView, TransferItem, TransferQueue,
};
use crate::space::{
    amount, fits, low_space_message, low_space_text, probe_due, release_reserved_space, spent,
    unreserved, with_probe, with_reservation, without_reservation, ReservedSpace, SpaceProbe,
    SpaceProbeCache,
};
use crate::stats::TransferStats;
use crossbeam::channel::Sender;
use std::collections::HashMap;
use vstd::prelude::*;

verus! {

/// How long a worker waits for a file before it looks around.
pub const QUEUE_POLL_INTERVAL_MS: u64 = 50;

/// What the workers of a transfer share.
pub struct PoolState {
    pub stats: TransferStats,
    pub stop_requested: bool,
    /// Why the transfer stopped by itself, if it did.
    pub stop_reason: Option<String>,
    /// The directories that were written to, one for each file.
    pub sync_targets: Vec<FilePath>,
    pub reservations: HashMap<u64, u64>,
    /// The source directories from which files were removed.
    pub cleanup_roots: PathSet,
    /// Whether a source is removed after its transfer.
    pub delete_sources: bool,
}

/// The contents of a `PoolState`.
pub struct PoolView {
    pub stats: TransferStats,
    pub stop_requested: bool,
    pub stop_reason: Option<Seq<char>>,
    pub sync_targets: Seq<Seq<u8>>,
    pub reservations: Map<u64, u64>,
    pub cleanup_roots: Seq<Seq<u8>>,
    pub delete_sources: bool,
}

/// The contents of an optional string.
pub open spec fn text_view(s: Option<String>) -> Option<Seq<char>> {
    match s {
        Some(text) => Some(text@),
        None => None,
    }
}

impl View for PoolState {
    type V = PoolView;

    open spec fn view(&self) -> PoolView {
        PoolView {
            stats: self.stats,
            stop_requested: self.stop_requested,
            stop_reason: text_view(self.stop_reason),
            sync_targets: path_texts(self.sync_targets@),
            reservations: self.reservations@,
            cleanup_roots: self.cleanup_roots@,
            delete_sources: self.delete_sources,
        }
    }
}

impl PoolState {
    /// Whether the set of directories is one.
    pub open spec fn wf(&self) -> bool {
        self.cleanup_roots.wf()
    }

    /// The state before a transfer.
    pub fn new(delete_sources: bool, stop_requested: bool) -> (r: PoolState)
        ensures
            r.wf(),
            r@ == PoolView::started(delete_sources, stop_requested),
    {
        let r = PoolState {
            stats: TransferStats::new(),
            stop_requested,
            stop_reason: None,
            sync_targets: Vec::new(),
            reservations: HashMap::new(),
            cleanup_roots: PathSet::new(),
            delete_sources,
        };
        assert(r@.sync_targets =~= Seq::<Seq<u8>>::empty());
        r
    }

    /// Takes note of a command to the queue: one to stop stops all workers.
    pub fn note_command(&mut self, command: Option<QueueCommand>)
        requires
            old(self).wf(),
        ensures
            final(self).wf(),
            final(self)@ == old(self)@.noted(command),
            final(self)@.stop_requested == (old(self)@.stop_requested || command == Some(
                QueueCommand::Stop,
            )),
    {
        if let Some(QueueCommand::Stop) = command {
            self.stop_requested = true;
        }
    }

    /// Takes the commands that wait and notes each of them, until none waits or one
    /// to stop came. One to end a monitor is left over from an earlier transfer,
    /// and means nothing here.
    pub fn note_commands(&mut self, queue: &mut TransferQueue)
        requires
            old(self).wf(),
            old(queue).wf(),
        ensures
            final(self).wf(),
            final(queue).wf(),
            final(queue)@ == old(queue)@,
            commands_noted(old(self)@, old(queue).looks(), final(self)@, final(queue).looks()),
            forall|tx: Sender<QueueCommand>|
                feeds(tx, old(queue).commands()) ==> feeds(tx, final(queue).commands()),
    {
        let mut count: usize = 0;
        let ghost mut taken: Seq<Option<QueueCommand>> = Seq::empty();
        while !self.stop_requested && count < usize::MAX
            invariant_except_break
                !self.stop_requested ==> all_pass(taken),
                count == taken.len(),
            invariant
                self.wf(),
                queue.wf(),
                queue@ == old(queue)@,
                queue.looks() == old(queue).looks() + taken,
                self@ == old(self)@.noted_all(taken),
                old(self)@.stop_requested ==> taken.len() == 0,
                taken.len() > 0 ==> all_pass(taken.drop_last()),
                forall|tx: Sender<QueueCommand>|
                    feeds(tx, old(queue).commands()) ==> feeds(tx, queue.commands()),
            ensures
                self@.stop_requested || (taken.len() > 0 && taken.last() is None) || taken.len()
                    == usize::MAX,
            decreases usize::MAX - count,
        {
            let command = queue.try_recv_command();
            let ghost before = taken;
            proof {
                taken = taken.push(command);
                assert(taken.drop_last() =~= before);
                assert(queue.looks() =~= old(queue).looks() + taken);
            }
            self.note_command(command);
            count = count + 1;
            if command.is_none() {
                break ;
            }
        }
        assert(looked_since(old(queue).looks(), queue.looks()) =~= taken);
    }

    /// The next item for a worker, after the commands that wait: none once a stop
    /// is asked for, and the queue then keeps all its items.
    pub fn next_item(&mut self, queue: &mut TransferQueue) -> (r: Option<TransferItem>)
        requires
            old(self).wf(),
            old(queue).wf(),
        ensures
            final(self).wf(),
            final(queue).wf(),
            commands_noted(old(self)@, old(queue).looks(), final(self)@, final(queue).looks()),
            forall|tx: Sender<QueueCommand>|
                feeds(tx, old(queue).commands()) ==> feeds(tx, final(queue).commands()),
            if final(self)@.stop_requested {
                r is None && final(queue)@ == old(queue)@
            } else {
                &&& r is Some <==> old(queue)@.items.len() > 0
                &&& r matches Some(item) ==> item@ == old(queue)@.items[0]
                &&& final(queue)@ == advanced(old(queue)@)
            },
    {
        self.note_commands(queue);
        if self.stop_requested {
            return None;
        }
        queue.recv_timeout(0)
    }
}

/// What the looks for a command gave after those before.
pub open spec fn looked_since(
    before: Seq<Option<QueueCommand>>,
    after: Seq<Option<QueueCommand>>,
) -> Seq<Option<QueueCommand>> {
    after.skip(before.len() as int)
}

/// Whether each of some looks found a command, and none one to stop.
pub open spec fn all_pass(taken: Seq<Option<QueueCommand>>) -> bool {
    forall|i: int|
        0 <= i < taken.len() ==> #[trigger] taken[i] is Some && taken[i] != Some(
            QueueCommand::Stop,
        )
}

/// Whether commands were taken and what workers share is as before but for them:
/// each look that was made is noted, none is made after a stop, and they go on up
/// to a command to stop, or else until none waited.
pub open spec fn commands_noted(
    before: PoolView,
    looks_before: Seq<Option<QueueCommand>>,
    after: PoolView,
    looks_after: Seq<Option<QueueCommand>>,
) -> bool {
    let taken = looked_since(looks_before, looks_after);
    &&& looks_after == looks_before + taken
    &&& after == before.noted_all(taken)
    &&& before.stop_requested ==> taken.len() == 0
    &&& taken.len() > 0 ==> all_pass(taken.drop_last())
    &&& after.stop_requested || (taken.len() > 0 && taken.last() is None) || taken.len()
        == usize::MAX
}

impl PoolView {
    /// After a command: one to stop stops all workers.
    pub open spec fn noted(self, command: Option<QueueCommand>) -> PoolView {
        PoolView {
            stop_requested: self.stop_requested || command == Some(QueueCommand::Stop),
            ..self
        }
    }

    /// After some commands.
    pub open spec fn noted_all(self, taken: Seq<Option<QueueCommand>>) -> PoolView
        decreases taken.len(),
    {
        if taken.len() == 0 {
            self
        } else {
            self.noted_all(taken.drop_last()).noted(taken.last())
        }
    }

    /// The state before a transfer.
    pub open spec fn started(delete_sources: bool, stop_requested: bool) -> PoolView {
        PoolView {
            stats: TransferStats { bytes_transferred: 0, files_completed: 0, files_failed: 0 },
            stop_requested,
            stop_reason: None,
            sync_targets: Seq::empty(),
            reservations: Map::empty(),
            cleanup_roots: Seq::empty(),
            delete_sources,
        }
    }

    /// A failure that stops the whole transfer. The first reason stays.
    pub open spec fn stopped(self, reason: Seq<char>) -> PoolView {
        PoolView {
            stats: self.stats.plus_failed(),
            stop_requested: true,
            stop_reason: if self.stop_reason is None {
                Some(reason)
            } else {
                self.stop_reason
            },
            ..self
        }
    }

    /// A file is about to be written below a directory, in reserved space.
    pub open spec fn admitted(self, target: Seq<u8>, token: ReservedSpace) -> PoolView {
        PoolView {
            sync_targets: self.sync_targets.push(target),
            reservations: with_reservation(self.reservations, token),
            ..self
        }
    }

    /// A file was copied.
    pub open spec fn copied(self, token: ReservedSpace, size: u64) -> PoolView {
        PoolView {
            stats: self.stats.plus_bytes(size).plus_completed(),
            reservations: without_reservation(self.reservations, token),
            ..self
        }
    }

    /// A file could not be copied.
    pub open spec fn failed(self, token: ReservedSpace) -> PoolView {
        PoolView {
            stats: self.stats.plus_failed(),
            reservations: without_reservation(self.reservations, token),
            ..self
        }
    }

    /// A source was removed.
    pub open spec fn removed(self, root: Option<Seq<u8>>) -> PoolView {
        PoolView {
            cleanup_roots: match root {
                Some(dir) => with_path(self.cleanup_roots, dir),
                None => self.cleanup_roots,
            },
            ..self
        }
    }
}

/// Where a worker stands.
pub enum WorkerPhase {
    /// It waits for a file.
    Polling,
    /// The directory of the destination is created.
    Preparing(TransferItem),
    /// The file system of the destination is looked up.
    Locating(TransferItem),
    /// The free space there is asked for.
    Probing(TransferItem, u64),
    /// The file is copied.
    Copying(TransferItem, ReservedSpace),
    /// The source is removed.
    Removing(TransferItem),
    /// The worker is done.
    Over,
}

/// The contents of a `WorkerPhase`.
pub enum PhaseView {
    Polling,
    Preparing(ItemView),
    Locating(ItemView),
    Probing(ItemView, u64),
    Copying(ItemView, ReservedSpace),
    Removing(ItemView),
    Over,
}

impl View for WorkerPhase {
    type V = PhaseView;

    open spec fn view(&self) -> PhaseView {
        match *self {
            WorkerPhase::Polling => PhaseView::Polling,
            WorkerPhase::Preparing(item) => PhaseView::Preparing(item@),
            WorkerPhase::Locating(item) => PhaseView::Locating(item@),
            WorkerPhase::Probing(item, fs_id) => PhaseView::Probing(item@, fs_id),
            WorkerPhase::Copying(item, token) => PhaseView::Copying(item@, token),
            WorkerPhase::Removing(item) => PhaseView::Removing(item@),
            WorkerPhase::Over => PhaseView::Over,
        }
    }
}

/// A worker.
pub struct Worker {
    phase: WorkerPhase,
    /// The directories that the worker has created or found.
    prepared: PathSet,
    probes: SpaceProbeCache,
}

/// The contents of a `Worker`.
pub struct WorkerView {
    pub phase: PhaseView,
    pub prepared: Seq<Seq<u8>>,
    pub probes: Map<u64, SpaceProbe>,
}

impl View for Worker {
    type V = WorkerView;

    closed spec fn view(&self) -> WorkerView {
        WorkerView { phase: self.phase@, prepared: self.prepared@, probes: self.probes@ }
    }
}

/// What came of a step.
pub enum WorkerEvent {
    /// The worker starts.
    Start,
    /// A file came from the queue.
    Received(TransferItem),
    /// No file came in time.
    Idle {
        /// Whether the queue was empty then.
        queue_empty: bool,
    },
    ParentReady,
    ParentFailed(String),
    /// The destination is on this file system.
    Located {
        fs_id: u64,
        now: u64,
    },
    LocateFailed(String),
    /// So much is free there.
    Probed {
        available: u64,
        now: u64,
    },
    ProbeFailed(String),
    Copied,
    CopyFailed,
    Removed,
    RemoveFailed,
}

/// The contents of a `WorkerEvent`.
pub enum EventView {
    Start,
    Received(ItemView),
    Idle { queue_empty: bool },
    ParentReady,
    ParentFailed(Seq<char>),
    Located { fs_id: u64, now: u64 },
    LocateFailed(Seq<char>),
    Probed { available: u64, now: u64 },
    ProbeFailed(Seq<char>),
    Copied,
    CopyFailed,
    Removed,
    RemoveFailed,
}

impl View for WorkerEvent {
    type V = EventView;

    open spec fn view(&self) -> EventView {
        match *self {
            WorkerEvent::Start => EventView::Start,
            WorkerEvent::Received(item) => EventView::Received(item@),
            WorkerEvent::Idle { queue_empty } => EventView::Idle { queue_empty },
            WorkerEvent::ParentReady => EventView::ParentReady,
            WorkerEvent::ParentFailed(s) => EventView::ParentFailed(s@),
            WorkerEvent::Located { fs_id, now } => EventView::Located { fs_id, now },
            WorkerEvent::LocateFailed(s) => EventView::LocateFailed(s@),
            WorkerEvent::Probed { available, now } => EventView::Probed { available, now },
            WorkerEvent::ProbeFailed(s) => EventView::ProbeFailed(s@),
            WorkerEvent::Copied => EventView::Copied,
            WorkerEvent::CopyFailed => EventView::CopyFailed,
            WorkerEvent::Removed => EventView::Removed,
            WorkerEvent::RemoveFailed => EventView::RemoveFailed,
        }
    }
}

impl EventView {
    /// The file that came with an event.
    pub open spec fn item(self) -> Option<ItemView> {
        match self {
            EventView::Received(item) => Some(item),
            _ => None,
        }
    }

    /// What an event leaves of a queue.
    pub open spec fn leaves(self, queue: QueueView) -> QueueView {
        if self is Received {
            advanced(queue)
        } else {
            queue
        }
    }
}

/// The contents of an optional item.
pub open spec fn item_view(item: Option<TransferItem>) -> Option<ItemView> {
    match item {
        Some(i) => Some(i@),
        None => None,
    }
}

/// What a look for a file comes to: the next file of the queue while no stop is
/// asked for, and else an idle moment, which comes only after a wait or a stop.
pub open spec fn polled(pool: PoolView, queue: QueueView, waited: bool) -> Option<EventView> {
    if !pool.stop_requested && queue.items.len() > 0 {
        Some(EventView::Received(queue.items[0]))
    } else if waited || pool.stop_requested {
        Some(EventView::Idle { queue_empty: queue.items.len() == 0 })
    } else {
        None
    }
}

/// What a worker asks for.
#[derive(Debug, Clone, Copy, PartialEq, Eq, Structural)]
pub enum WorkerStep {
    /// Wait for a file.
    Poll,
    /// Create the directory of the destination.
    PrepareParent,
    /// Find the file system of that directory.
    LocateFilesystem,
    /// Find the free space of that directory.
    ProbeSpace,
    /// Copy the file.
    CopyFile,
    /// Remove the source.
    RemoveSource,
    /// The worker is done.
    Exit,
}

/// What is to be told of a file.
#[derive(Debug, Clone, Copy, PartialEq, Eq, Structural)]
pub enum Report {
    Nothing,
    /// It is transferred.
    Complete,
    /// It is transferred and its source removed.
    Removed,
    /// It is transferred, but its source could not be removed.
    RemoveFailed,
    /// It could not be copied.
    CopyFailed,
    /// It stopped the transfer.
    Stopped,
}

/// A step, and what is to be told before it. A file that stops the transfer
/// comes with the reason.
pub struct Turn {
    pub step: WorkerStep,
    pub report: Report,
    pub reason: Option<String>,
}

/// The contents of a `Turn`.
pub struct TurnView {
    pub step: WorkerStep,
    pub report: Report,
    pub reason: Option<Seq<char>>,
}

impl View for Turn {
    type V = TurnView;

    open spec fn view(&self) -> TurnView {
        TurnView { step: self.step, report: self.report, reason: text_view(self.reason) }
    }
}

impl TurnView {
    /// The command that is sent to the queue with a turn.
    pub open spec fn command(self) -> Option<QueueCommand> {
        if self.report is Stopped {
            Some(QueueCommand::Stop)
        } else {
            None
        }
    }
}

impl Turn {
    /// The command that is sent to the queue with this turn: the one to stop
    /// exactly where a file stopped the transfer.
    pub fn command(&self) -> (r: Option<QueueCommand>)
        ensures
            r == self@.command(),
            r == Some(QueueCommand::Stop) <==> self.report is Stopped,
            r is None <==> !(self.report is Stopped),
    {
        match self.report {
            Report::Stopped => Some(QueueCommand::Stop),
            _ => None,
        }
    }
}

/// A worker, what it shares, and its turn.
pub struct Outcome {
    pub worker: WorkerView,
    pub pool: PoolView,
    pub turn: TurnView,
}

/// A step without a report.
pub open spec fn silent(step: WorkerStep) -> TurnView {
    TurnView { step, report: Report::Nothing, reason: None }
}

impl WorkerView {
    pub open spec fn to(self, phase: PhaseView) -> WorkerView {
        WorkerView { phase, ..self }
    }

    /// A worker that is done with a file looks whether to go on.
    pub open spec fn around(self, pool: PoolView, report: Report) -> Outcome {
        Outcome {
            worker: self.to(
                if pool.stop_requested {
                    PhaseView::Over
                } else {
                    PhaseView::Polling
                },
            ),
            pool,
            turn: TurnView {
                step: if pool.stop_requested {
                    WorkerStep::Exit
                } else {
                    WorkerStep::Poll
                },
                report,
                reason: None,
            },
        }
    }

    /// A failure that stops the transfer.
    pub open spec fn stopping(self, pool: PoolView, reason: Seq<char>) -> Outcome {
        Outcome {
            worker: self.to(PhaseView::Over),
            pool: pool.stopped(reason),
            turn: TurnView {
                step: WorkerStep::Exit,
                report: Report::Stopped,
                reason: Some(reason),
            },
        }
    }

    /// A file from the queue: its directory comes first.
    pub open spec fn received(self, pool: PoolView, item: ItemView) -> Outcome {
        match parent_of(item.destination) {
            None => self.stopping(pool, PlaceError::NoParent.text()),
            Some(parent) => {
                let known = holds(self.prepared, parent);
                let worker = WorkerView { prepared: with_path(self.prepared, parent), ..self };
                if known {
                    Outcome {
                        worker: worker.to(PhaseView::Locating(item)),
                        pool,
                        turn: silent(WorkerStep::LocateFilesystem),
                    }
                } else {
                    Outcome {
                        worker: worker.to(PhaseView::Preparing(item)),
                        pool,
                        turn: silent(WorkerStep::PrepareParent),
                    }
                }
            },
        }
    }

    /// The free space is known: the file is admitted where it fits.
    pub open spec fn judged(self, pool: PoolView, item: ItemView, fs_id: u64) -> Outcome {
        let token = ReservedSpace { fs_id, bytes: item.size };
        let available = self.probes[fs_id].available;
        let taken = amount(pool.reservations, fs_id);
        let parent = parent_of(item.destination)->0;
        if fits(available, taken, item.size) {
            Outcome {
                worker: WorkerView {
                    phase: PhaseView::Copying(item, token),
                    probes: spent(self.probes, fs_id, item.size),
                    ..self
                },
                pool: pool.admitted(parent, token),
                turn: silent(WorkerStep::CopyFile),
            }
        } else {
            self.stopping(
                pool,
                low_space_text(parent, item.size, unreserved(available, taken)),
            )
        }
    }

    /// Whether an event answers what the worker asked for.
    pub open spec fn expects(self, event: EventView) -> bool {
        match self.phase {
            PhaseView::Polling => event is Start || event is Received || event is Idle,
            PhaseView::Preparing(_) => event is ParentReady || event is ParentFailed,
            PhaseView::Locating(_) => event is Located || event is LocateFailed,
            PhaseView::Probing(_, _) => event is Probed || event is ProbeFailed,
            PhaseView::Copying(_, _) => event is Copied || event is CopyFailed,
            PhaseView::Removing(_) => event is Removed || event is RemoveFailed,
            PhaseView::Over => false,
        }
    }

    /// A file that is past its first step has a directory.
    pub open spec fn wf(self) -> bool {
        match self.phase {
            PhaseView::Preparing(item) => parent_of(item.destination) is Some,
            PhaseView::Locating(item) => parent_of(item.destination) is Some,
            PhaseView::Probing(item, _) => parent_of(item.destination) is Some,
            PhaseView::Copying(item, token) => parent_of(item.destination) is Some && token.bytes
                == item.size,
            _ => true,
        }
    }

    /// The file of a worker was copied.
    pub open spec fn after_copy(
        self,
        pool: PoolView,
        item: ItemView,
        token: ReservedSpace,
    ) -> Outcome {
        let after = pool.copied(token, item.size);
        if pool.delete_sources {
            Outcome {
                worker: self.to(PhaseView::Removing(item)),
                pool: after,
                turn: silent(WorkerStep::RemoveSource),
            }
        } else {
            self.around(after, Report::Complete)
        }
    }

    /// The file system of a destination is known.
    pub open spec fn located(
        self,
        pool: PoolView,
        item: ItemView,
        fs_id: u64,
        now: u64,
    ) -> Outcome {
        if probe_due(self.probes, fs_id, item.size, now) {
            Outcome {
                worker: self.to(PhaseView::Probing(item, fs_id)),
                pool,
                turn: silent(WorkerStep::ProbeSpace),
            }
        } else {
            self.judged(pool, item, fs_id)
        }
    }

    /// The worker after an event, what it shares, and its turn.
    pub open spec fn next(self, pool: PoolView, event: EventView) -> Outcome {
        match event {
            EventView::Start => self.around(pool, Report::Nothing),
            EventView::Idle { queue_empty } => if queue_empty {
                Outcome {
                    worker: self.to(PhaseView::Over),
                    pool,
                    turn: silent(WorkerStep::Exit),
                }
            } else {
                self.around(pool, Report::Nothing)
            },
            EventView::Received(item) => self.received(pool, item),
            EventView::ParentReady => Outcome {
                worker: self.to(PhaseView::Locating(self.phase->Preparing_0)),
                pool,
                turn: silent(WorkerStep::LocateFilesystem),
            },
            EventView::Located { fs_id, now } => self.located(
                pool,
                self.phase->Locating_0,
                fs_id,
                now,
            ),
            EventView::Probed { available, now } => {
                let fs_id = self.phase->Probing_1;
                let worker = WorkerView {
                    probes: with_probe(self.probes, fs_id, available, now),
                    ..self
                };
                worker.judged(pool, self.phase->Probing_0, fs_id)
            },
            EventView::Copied => self.after_copy(
                pool,
                self.phase->Copying_0,
                self.phase->Copying_1,
            ),
            EventView::CopyFailed => self.around(
                pool.failed(self.phase->Copying_1),
                Report::CopyFailed,
            ),
            EventView::Removed => self.around(
                pool.removed(self.phase->Removing_0.cleanup_root),
                Report::Removed,
            ),
            EventView::RemoveFailed => self.around(pool, Report::RemoveFailed),
            EventView::ParentFailed(reason) => self.stopping(pool, reason),
            EventView::LocateFailed(reason) => self.stopping(pool, reason),
            EventView::ProbeFailed(reason) => self.stopping(pool, reason),
        }
    }
}

impl Worker {
    /// Whether the worker's directories are a set, and its file has one.
    pub closed spec fn wf(&self) -> bool {
        self.prepared.wf() && self@.wf()
    }

    /// A worker that has not begun.
    pub fn new() -> (r: Worker)
        ensures
            r.wf(),
            r@.phase == PhaseView::Polling,
            r@.prepared == Seq::<Seq<u8>>::empty(),
            r@.probes == Map::<u64, SpaceProbe>::empty(),
    {
        Worker {
            phase: WorkerPhase::Polling,
            prepared: PathSet::new(),
            probes: SpaceProbeCache::new(),
        }
    }

    fn look_around(&mut self, pool: &PoolState, report: Report) -> (turn: Turn)
        requires
            old(self).prepared.wf(),
        ensures
            final(self).wf(),
            old(self)@.around(pool@, report) == (Outcome {
                worker: final(self)@,
                pool: pool@,
                turn: turn@,
            }),
    {
        if pool.stop_requested {
            self.phase = WorkerPhase::Over;
            Turn { step: WorkerStep::Exit, report, reason: None }
        } else {
            self.phase = WorkerPhase::Polling;
            Turn { step: WorkerStep::Poll, report, reason: None }
        }
    }

    /// Ends the worker and stops the transfer.
    fn transfer_failure_stop(&mut self, pool: &mut PoolState, reason: String) -> (turn: Turn)
        requires
            old(self).prepared.wf(),
            old(pool).wf(),
        ensures
            final(self).wf(),
            final(pool).wf(),
            old(self)@.stopping(old(pool)@, reason@) == (Outcome {
                worker: final(self)@,
                pool: final(pool)@,
                turn: turn@,
            }),
    {
        pool.stats.inc_failed();
        if pool.stop_reason.is_none() {
            pool.stop_reason = Some(reason.clone());
        }
        pool.stop_requested = true;
        self.phase = WorkerPhase::Over;
        Turn { step: WorkerStep::Exit, report: Report::Stopped, reason: Some(reason) }
    }

    fn receive(&mut self, pool: &mut PoolState, item: TransferItem) -> (turn: Turn)
        requires
            old(self).prepared.wf(),
            old(pool).wf(),
        ensures
            final(self).wf(),
            final(pool).wf(),
            old(self)@.received(old(pool)@, item@) == (Outcome {
                worker: final(self)@,
                pool: final(pool)@,
                turn: turn@,
            }),
    {
        let parent = match item.destination.parent() {
            Some(parent) => parent,
            None => {
                return self.transfer_failure_stop(pool, PlaceError::NoParent.message());
            },
        };
        if self.prepared.insert(parent) {
            self.phase = WorkerPhase::Preparing(item);
            Turn { step: WorkerStep::PrepareParent, report: Report::Nothing, reason: None }
        } else {
            self.phase = WorkerPhase::Locating(item);
            Turn { step: WorkerStep::LocateFilesystem, report: Report::Nothing, reason: None }
        }
    }

    fn judge(&mut self, pool: &mut PoolState, item: TransferItem, fs_id: u64) -> (turn: Turn)
        requires
            old(self).prepared.wf(),
            old(pool).wf(),
            parent_of(item@.destination) is Some,
            old(self)@.probes.contains_key(fs_id),
        ensures
            final(self).wf(),
            final(pool).wf(),
            old(self)@.judged(old(pool)@, item@, fs_id) == (Outcome {
                worker: final(self)@,
                pool: final(pool)@,
                turn: turn@,
            }),
    {
        let parent = match item.destination.parent() {
            Some(parent) => parent,
            None => FilePath::from_bytes(Vec::new()),
        };
        match self.probes.reserve_destination_space(&mut pool.reservations, fs_id, item.size) {
            Ok(token) => {
                let ghost targets = path_texts(pool.sync_targets@);
                pool.sync_targets.push(parent);
                assert(path_texts(pool.sync_targets@) =~= targets.push(parent@));
                self.phase = WorkerPhase::Copying(item, token);
                Turn { step: WorkerStep::CopyFile, report: Report::Nothing, reason: None }
            },
            Err(free) => {
                let reason = low_space_message(&parent, item.size, free);
                self.transfer_failure_stop(pool, reason)
            },
        }
    }

    fn locate(&mut self, pool: &mut PoolState, item: TransferItem, fs_id: u64, now: u64) -> (turn:
        Turn)
        requires
            old(self).prepared.wf(),
            old(pool).wf(),
            parent_of(item@.destination) is Some,
        ensures
            final(self).wf(),
            final(pool).wf(),
            old(self)@.located(old(pool)@, item@, fs_id, now) == (Outcome {
                worker: final(self)@,
                pool: final(pool)@,
                turn: turn@,
            }),
    {
        if self.probes.should_refresh(fs_id, item.size, now) {
            self.phase = WorkerPhase::Probing(item, fs_id);
            Turn { step: WorkerStep::ProbeSpace, report: Report::Nothing, reason: None }
        } else {
            self.judge(pool, item, fs_id)
        }
    }

    /// Counts a copied file, and asks for the removal of its source where that
    /// is wanted.
    fn finish_successful_transfer(
        &mut self,
        pool: &mut PoolState,
        item: TransferItem,
        token: ReservedSpace,
    ) -> (turn: Turn)
        requires
            old(self).prepared.wf(),
            old(pool).wf(),
        ensures
            final(self).wf(),
            final(pool).wf(),
            old(self)@.after_copy(old(pool)@, item@, token) == (Outcome {
                worker: final(self)@,
                pool: final(pool)@,
                turn: turn@,
            }),
    {
        release_reserved_space(&mut pool.reservations, token);
        pool.stats.add_bytes(item.size);
        pool.stats.inc_completed();
        if pool.delete_sources {
            self.phase = WorkerPhase::Removing(item);
            Turn { step: WorkerStep::RemoveSource, report: Report::Nothing, reason: None }
        } else {
            self.look_around(pool, Report::Complete)
        }
    }

    fn give_up(&mut self, pool: &mut PoolState, token: ReservedSpace) -> (turn: Turn)
        requires
            old(self).prepared.wf(),
            old(pool).wf(),
        ensures
            final(self).wf(),
            final(pool).wf(),
            old(self)@.around(old(pool)@.failed(token), Report::CopyFailed) == (Outcome {
                worker: final(self)@,
                pool: final(pool)@,
                turn: turn@,
            }),
    {
        release_reserved_space(&mut pool.reservations, token);
        pool.stats.inc_failed();
        self.look_around(pool, Report::CopyFailed)
    }

    fn note_removal(&mut self, pool: &mut PoolState, root: Option<FilePath>) -> (turn: Turn)
        requires
            old(self).prepared.wf(),
            old(pool).wf(),
        ensures
            final(self).wf(),
            final(pool).wf(),
            old(self)@.around(old(pool)@.removed(path_view(root)), Report::Removed) == (Outcome {
                worker: final(self)@,
                pool: final(pool)@,
                turn: turn@,
            }),
    {
        if let Some(root) = root {
            let _ = pool.cleanup_roots.insert(root);
        }
        self.look_around(pool, Report::Removed)
    }

    /// The file that the worker is at.
    fn take_item(&mut self) -> (r: (Option<TransferItem>, u64, Option<ReservedSpace>))
        ensures
            final(self).prepared == old(self).prepared,
            final(self).probes == old(self).probes,
            final(self).phase is Over,
            match old(self).phase {
                WorkerPhase::Preparing(item) => r.0 == Some(item),
                WorkerPhase::Locating(item) => r.0 == Some(item),
                WorkerPhase::Probing(item, fs_id) => r.0 == Some(item) && r.1 == fs_id,
                WorkerPhase::Copying(item, token) => r.0 == Some(item) && r.2 == Some(token),
                WorkerPhase::Removing(item) => r.0 == Some(item),
                _ => r.0 is None,
            },
    {
        let mut phase = WorkerPhase::Over;
        std::mem::swap(&mut phase, &mut self.phase);
        match phase {
            WorkerPhase::Preparing(item) => (Some(item), 0, None),
            WorkerPhase::Locating(item) => (Some(item), 0, None),
            WorkerPhase::Probing(item, fs_id) => (Some(item), fs_id, None),
            WorkerPhase::Copying(item, token) => (Some(item), 0, Some(token)),
            WorkerPhase::Removing(item) => (Some(item), 0, None),
            WorkerPhase::Polling => (None, 0, None),
            WorkerPhase::Over => (None, 0, None),
        }
    }

    /// The directory of the file exists.
    fn on_parent_ready(&mut self, pool: &mut PoolState) -> (turn: Turn)
        requires
            old(self).wf(),
            old(pool).wf(),
            old(self)@.phase is Preparing,
        ensures
            final(self).wf(),
            final(pool).wf(),
            old(self)@.next(old(pool)@, EventView::ParentReady) == (Outcome {
                worker: final(self)@,
                pool: final(pool)@,
                turn: turn@,
            }),
    {
        let (current, _, _) = self.take_item();
        self.phase = WorkerPhase::Locating(current.unwrap());
        Turn { step: WorkerStep::LocateFilesystem, report: Report::Nothing, reason: None }
    }

    /// The file system of the file is known.
    fn on_located(&mut self, pool: &mut PoolState, located: u64, now: u64) -> (turn: Turn)
        requires
            old(self).wf(),
            old(pool).wf(),
            old(self)@.phase is Locating,
        ensures
            final(self).wf(),
            final(pool).wf(),
            old(self)@.next(old(pool)@, (EventView::Located { fs_id: located, now })) == (Outcome {
                worker: final(self)@,
                pool: final(pool)@,
                turn: turn@,
            }),
    {
        let (current, _, _) = self.take_item();
        self.locate(pool, current.unwrap(), located, now)
    }

    /// The free space for the file is known.
    fn on_probed(&mut self, pool: &mut PoolState, available: u64, now: u64) -> (turn: Turn)
        requires
            old(self).wf(),
            old(pool).wf(),
            old(self)@.phase is Probing,
        ensures
            final(self).wf(),
            final(pool).wf(),
            old(self)@.next(old(pool)@, (EventView::Probed { available, now })) == (Outcome {
                worker: final(self)@,
                pool: final(pool)@,
                turn: turn@,
            }),
    {
        let (current, fs_id, _) = self.take_item();
        self.probes.record(fs_id, available, now);
        self.judge(pool, current.unwrap(), fs_id)
    }

    /// The file was copied.
    fn on_copied(&mut self, pool: &mut PoolState) -> (turn: Turn)
        requires
            old(self).wf(),
            old(pool).wf(),
            old(self)@.phase is Copying,
        ensures
            final(self).wf(),
            final(pool).wf(),
            old(self)@.next(old(pool)@, EventView::Copied) == (Outcome {
                worker: final(self)@,
                pool: final(pool)@,
                turn: turn@,
            }),
    {
        let (current, _, token) = self.take_item();
        self.finish_successful_transfer(pool, current.unwrap(), token.unwrap())
    }

    /// The file could not be copied.
    fn on_copy_failed(&mut self, pool: &mut PoolState) -> (turn: Turn)
        requires
            old(self).wf(),
            old(pool).wf(),
            old(self)@.phase is Copying,
        ensures
            final(self).wf(),
            final(pool).wf(),
            old(self)@.next(old(pool)@, EventView::CopyFailed) == (Outcome {
                worker: final(self)@,
                pool: final(pool)@,
                turn: turn@,
            }),
    {
        let (_, _, token) = self.take_item();
        self.give_up(pool, token.unwrap())
    }

    /// The source of the file was removed.
    fn on_removed(&mut self, pool: &mut PoolState) -> (turn: Turn)
        requires
            old(self).wf(),
            old(pool).wf(),
            old(self)@.phase is Removing,
        ensures
            final(self).wf(),
            final(pool).wf(),
            old(self)@.next(old(pool)@, EventView::Removed) == (Outcome {
                worker: final(self)@,
                pool: final(pool)@,
                turn: turn@,
            }),
    {
        let (current, _, _) = self.take_item();
        self.note_removal(pool, current.unwrap().cleanup_root)
    }

    /// Takes note of what came of a step, and tells the next one.
    pub fn step(&mut self, pool: &mut PoolState, event: WorkerEvent) -> (turn: Turn)
        requires
            old(self).wf(),
            old(pool).wf(),
            old(self)@.expects(event@),
        ensures
            final(self).wf(),
            final(pool).wf(),
            old(self)@.next(old(pool)@, event@) == (Outcome {
                worker: final(self)@,
                pool: final(pool)@,
                turn: turn@,
            }),
    {
        match event {
            WorkerEvent::Start => self.look_around(pool, Report::Nothing),
            WorkerEvent::Idle { queue_empty } => {
                if queue_empty {
                    self.phase = WorkerPhase::Over;
                    Turn { step: WorkerStep::Exit, report: Report::Nothing, reason: None }
                } else {
                    self.look_around(pool, Report::Nothing)
                }
            },
            WorkerEvent::Received(item) => self.receive(pool, item),
            WorkerEvent::ParentReady => self.on_parent_ready(pool),
            WorkerEvent::Located { fs_id, now } => self.on_located(pool, fs_id, now),
            WorkerEvent::Probed { available, now } => self.on_probed(pool, available, now),
            WorkerEvent::Copied => self.on_copied(pool),
            WorkerEvent::CopyFailed => self.on_copy_failed(pool),
            WorkerEvent::Removed => self.on_removed(pool),
            WorkerEvent::RemoveFailed => self.look_around(pool, Report::RemoveFailed),
            WorkerEvent::ParentFailed(reason) => self.transfer_failure_stop(pool, reason),
            WorkerEvent::LocateFailed(reason) => self.transfer_failure_stop(pool, reason),
            WorkerEvent::ProbeFailed(reason) => self.transfer_failure_stop(pool, reason),
        }
    }

    /// A look for a file: its turn, and the file if there is one. Where no file
    /// waits and no stop is asked for, a worker that has not waited yet waits first.
    pub fn poll(
        &mut self,
        pool: &mut PoolState,
        queue: &mut TransferQueue,
        waited: bool,
    ) -> (r: Option<(Turn, Option<TransferItem>)>)
        requires
            old(self).wf(),
            old(pool).wf(),
            old(queue).wf(),
            old(self)@.phase is Polling,
        ensures
            final(self).wf(),
            final(pool).wf(),
            final(queue).wf(),
            ({
                let noted = old(pool)@.noted_all(
                    looked_since(old(queue).looks(), final(queue).looks()),
                );
                &&& commands_noted(old(pool)@, old(queue).looks(), noted, final(queue).looks())
                &&& match polled(noted, old(queue)@, waited) {
                    None => {
                        &&& r is None
                        &&& final(self)@ == old(self)@
                        &&& final(pool)@ == noted
                        &&& final(queue)@ == old(queue)@
                    },
                    Some(event) => {
                        &&& r matches Some((turn, item)) && item_view(item) == event.item()
                            && old(self)@.next(noted, event) == (Outcome {
                            worker: final(self)@,
                            pool: final(pool)@,
                            turn: turn@,
                        })
                        &&& final(queue)@ == event.leaves(old(queue)@)
                    },
                }
            }),
            forall|tx: Sender<QueueCommand>|
                feeds(tx, old(queue).commands()) ==> feeds(tx, final(queue).commands()),
    {
        match pool.next_item(queue) {
            Some(item) => {
                let turn = self.step(pool, WorkerEvent::Received(item.clone()));
                Some((turn, Some(item)))
            },
            None => {
                if !waited && !pool.stop_requested {
                    return None;
                }
                let queue_empty = queue.is_empty();
                let turn = self.step(pool, WorkerEvent::Idle { queue_empty });
                Some((turn, None))
            },
        }
    }
}

/// The files of a worker that are not counted yet.
pub open spec fn uncounted(phase: PhaseView) -> int {
    if phase is Preparing || phase is Locating || phase is Probing || phase is Copying {
        1
    } else {
        0
    }
}

/// The files of a transfer that are counted.
pub open spec fn files_counted(pool: PoolView) -> int {
    pool.stats.files_completed + pool.stats.files_failed
}

/// Every file that a worker takes is counted once, as completed or as failed,
/// whatever happens to it.
pub proof fn lemma_each_file_counted_once(worker: WorkerView, pool: PoolView, event: EventView)
    requires
        worker.expects(event),
        pool.stats.files_completed < u64::MAX,
        pool.stats.files_failed < u64::MAX,
    ensures
        ({
            let out = worker.next(pool, event);
            files_counted(out.pool) + uncounted(out.worker.phase) == files_counted(pool)
                + uncounted(worker.phase) + if event is Received {
                1int
            } else {
                0int
            }
        }),
{
}

/// What a worker holds of the space of a file system.
pub open spec fn held_by(phase: PhaseView, fs_id: u64) -> int {
    match phase {
        PhaseView::Copying(_, token) => if token.fs_id == fs_id {
            token.bytes as int
        } else {
            0
        },
        _ => 0,
    }
}

/// No reservation outlives its copy: besides what the worker itself holds, a
/// step changes no reservation, and a worker that is done holds none.
pub proof fn lemma_no_reservation_leaks(
    worker: WorkerView,
    pool: PoolView,
    event: EventView,
    fs_id: u64,
)
    requires
        worker.expects(event),
        amount(pool.reservations, fs_id) >= held_by(worker.phase, fs_id),
    ensures
        ({
            let out = worker.next(pool, event);
            &&& amount(out.pool.reservations, fs_id) - held_by(out.worker.phase, fs_id) == amount(
                pool.reservations,
                fs_id,
            ) - held_by(worker.phase, fs_id)
            &&& out.turn.step is Exit ==> held_by(out.worker.phase, fs_id) == 0
        }),
{
    match event {
        EventView::Located { fs_id: located, now } => {
            let item = worker.phase->Locating_0;
            let token = ReservedSpace { fs_id: located, bytes: item.size };
            if fits(
                worker.probes[located].available,
                amount(pool.reservations, located),
                item.size,
            ) {
                crate::space::lemma_admission_keeps_margin(
                    worker.probes[located].available,
                    pool.reservations,
                    token,
                );
            }
        },
        EventView::Probed { available, now } => {
            let item = worker.phase->Probing_0;
            let located = worker.phase->Probing_1;
            let token = ReservedSpace { fs_id: located, bytes: item.size };
            if fits(available, amount(pool.reservations, located), item.size) {
                crate::space::lemma_admission_keeps_margin(available, pool.reservations, token);
            }
        },
        _ => {},
    }
}

/// A source is removed only after its copy succeeded, and only where removal
/// was asked for.
pub proof fn lemma_source_removed_only_after_copy(
    worker: WorkerView,
    pool: PoolView,
    event: EventView,
)
    requires
        worker.expects(event),
    ensures
        ({
            let out = worker.next(pool, event);
            &&& out.turn.step is RemoveSource ==> event is Copied && worker.phase is Copying
                && pool.delete_sources
            &&& out.pool.delete_sources == pool.delete_sources
            &&& out.pool.cleanup_roots != pool.cleanup_roots ==> event is Removed
                && worker.phase is Removing
        }),
{
}

/// A stop is final: no step takes it back or changes its reason, and no worker
/// takes another file after it.
pub proof fn lemma_stop_is_final(worker: WorkerView, pool: PoolView, event: EventView)
    requires
        worker.expects(event),
    ensures
        ({
            let out = worker.next(pool, event);
            &&& pool.stop_requested ==> out.pool.stop_requested && !(out.turn.step is Poll)
            &&& pool.stop_reason is Some ==> out.pool.stop_reason == pool.stop_reason
            &&& out.turn.report is Stopped ==> out.pool.stop_requested && out.pool.stop_reason is Some
        }),
{
}

/// A file that stops the transfer sends the command to stop, and nothing else
/// sends a command.
pub proof fn lemma_stopping_sends_stop(worker: WorkerView, pool: PoolView, event: EventView)
    requires
        worker.expects(event),
    ensures
        ({
            let out = worker.next(pool, event);
            &&& out.turn.command() == Some(QueueCommand::Stop) <==> out.turn.report is Stopped
            &&& out.turn.command() is Some ==> out.pool == pool.stopped(out.turn.reason->0)
                && out.turn.step is Exit
        }),
{
}

/// A command to stop is final as well: it sets the stop, and no other command
/// takes it back.
pub proof fn lemma_stop_command_noted(pool: PoolView, command: Option<QueueCommand>)
    ensures
        pool.noted(Some(QueueCommand::Stop)).stop_requested,
        pool.stop_requested ==> pool.noted(command).stop_requested,
        pool.noted(command).stats == pool.stats,
        pool.noted(command).stop_reason == pool.stop_reason,
{
}

/// A stop among some commands is never missed: the stop is set exactly where it
/// was before, or one of them is one to stop.
pub proof fn lemma_stop_among_commands(pool: PoolView, taken: Seq<Option<QueueCommand>>)
    ensures
        pool.noted_all(taken).stop_requested == (pool.stop_requested || taken.contains(
            Some(QueueCommand::Stop),
        )),
        pool.noted_all(taken) == (PoolView {
            stop_requested: pool.noted_all(taken).stop_requested,
            ..pool
        }),
    decreases taken.len(),
{
    if taken.len() > 0 {
        let front = taken.drop_last();
        lemma_stop_among_commands(pool, front);
        if front.contains(Some(QueueCommand::Stop)) {
            let i = choose|i: int| 0 <= i < front.len() && front[i] == Some(QueueCommand::Stop);
            assert(taken[i] == Some(QueueCommand::Stop));
        }
        if taken.contains(Some(QueueCommand::Stop)) && taken.last() != Some(QueueCommand::Stop) {
            let i = choose|i: int| 0 <= i < taken.len() && taken[i] == Some(QueueCommand::Stop);
            assert(front[i] == Some(QueueCommand::Stop));
        }
        if taken.last() == Some(QueueCommand::Stop) {
            assert(taken[taken.len() - 1] == Some(QueueCommand::Stop));
        }
    }
}

/// No command is lost: whatever the looks before a file gave, the stop is set
/// exactly where it was before, or one of them found a command to stop; and
/// nothing else of what workers share changes.
pub proof fn lemma_no_command_lost(
    before: PoolView,
    looks_before: Seq<Option<QueueCommand>>,
    after: PoolView,
    looks_after: Seq<Option<QueueCommand>>,
)
    requires
        commands_noted(before, looks_before, after, looks_after),
    ensures
        after.stop_requested == (before.stop_requested || looked_since(
            looks_before,
            looks_after,
        ).contains(Some(QueueCommand::Stop))),
        after == (PoolView { stop_requested: after.stop_requested, ..before }),
{
    lemma_stop_among_commands(before, looked_since(looks_before, looks_after));
}

/// A file is copied only into reserved space, and its directory is then among
/// those to be synchronised.
pub proof fn lemma_copy_is_admitted(worker: WorkerView, pool: PoolView, event: EventView)
    requires
        worker.expects(event),
        worker.wf(),
    ensures
        ({
            let out = worker.next(pool, event);
            &&& out.worker.wf()
            &&& out.turn.step is CopyFile ==> {
                let item = out.worker.phase->Copying_0;
                let token = out.worker.phase->Copying_1;
                &&& out.worker.phase is Copying
                &&& token.bytes == item.size
                &&& out.pool.reservations == with_reservation(pool.reservations, token)
                &&& out.pool.sync_targets == pool.sync_targets.push(parent_of(item.destination)->0)
            }
        }),
{
}

/// A source is removed exactly where its copy succeeded and removal was asked for,
/// whatever the file is; then it is that file's source. What is told of a file
/// follows from what came of it and nothing else.
pub proof fn lemma_every_copied_source_is_removed(
    worker: WorkerView,
    pool: PoolView,
    event: EventView,
)
    requires
        worker.expects(event),
    ensures
        ({
            let out = worker.next(pool, event);
            &&& out.turn.step is RemoveSource <==> event is Copied && pool.delete_sources
            &&& out.turn.step is RemoveSource ==> out.worker.phase == PhaseView::Removing(
                worker.phase->Copying_0,
            )
            &&& out.worker.phase is Removing <==> out.turn.step is RemoveSource
            &&& out.turn.report is Complete <==> event is Copied && !pool.delete_sources
            &&& out.turn.report is Removed <==> event is Removed
            &&& out.turn.report is RemoveFailed <==> event is RemoveFailed
            &&& out.turn.report is CopyFailed <==> event is CopyFailed
        }),
{
}

/// What each event counts: a copied file with its size, a file that failed or
/// stopped the transfer, and nothing else.
pub proof fn lemma_what_is_counted(worker: WorkerView, pool: PoolView, event: EventView)
    requires
        worker.expects(event),
        pool.stats.files_completed < u64::MAX,
        pool.stats.files_failed < u64::MAX,
    ensures
        ({
            let out = worker.next(pool, event);
            &&& out.pool.stats.files_completed == pool.stats.files_completed + if event is Copied {
                1int
            } else {
                0int
            }
            &&& out.pool.stats.files_failed == pool.stats.files_failed + if event is CopyFailed
                || out.turn.report is Stopped {
                1int
            } else {
                0int
            }
            &&& !(event is Copied) ==> out.pool.stats.bytes_transferred
                == pool.stats.bytes_transferred
            &&& event is Copied && pool.stats.bytes_transferred + worker.phase->Copying_0.size
                <= u64::MAX ==> out.pool.stats.bytes_transferred == pool.stats.bytes_transferred
                + worker.phase->Copying_0.size
        }),
{
}

/// The file system that a file is judged on, when it is.
pub open spec fn judged_on(worker: WorkerView, event: EventView) -> Option<u64> {
    match event {
        EventView::Located { fs_id, now } => if probe_due(
            worker.probes,
            fs_id,
            worker.phase->Locating_0.size,
            now,
        ) {
            None
        } else {
            Some(fs_id)
        },
        EventView::Probed { .. } => Some(worker.phase->Probing_1),
        _ => None,
    }
}

/// What is free on the file system that a file is judged on: what was just found
/// there, or else what was found last.
pub open spec fn free_there(worker: WorkerView, event: EventView) -> u64 {
    match event {
        EventView::Probed { available, .. } => available,
        EventView::Located { fs_id, .. } => worker.probes[fs_id].available,
        _ => 0,
    }
}

/// The file of a worker.
pub open spec fn file_of(phase: PhaseView) -> Option<ItemView> {
    match phase {
        PhaseView::Preparing(item) => Some(item),
        PhaseView::Locating(item) => Some(item),
        PhaseView::Probing(item, _) => Some(item),
        PhaseView::Copying(item, _) => Some(item),
        PhaseView::Removing(item) => Some(item),
        _ => None,
    }
}

/// What stops a transfer: a directory that cannot be made, a file system that
/// cannot be found or asked, a destination without a directory, and a file for
/// which there is no room with 64 MiB to spare. A copy or a removal that fails does
/// not. The first reason stays, and it is the one that was given.
pub proof fn lemma_what_stops_a_transfer(worker: WorkerView, pool: PoolView, event: EventView)
    requires
        worker.expects(event),
    ensures
        ({
            let out = worker.next(pool, event);
            let size = match file_of(worker.phase) {
                Some(item) => item.size,
                None => 0,
            };
            let crowded = judged_on(worker, event) is Some && free_there(worker, event) - amount(
                pool.reservations,
                judged_on(worker, event)->0,
            ) < if size + 67_108_864 <= u64::MAX {
                size + 67_108_864
            } else {
                u64::MAX as int
            };
            &&& out.turn.report is Stopped <==> event is ParentFailed || event is LocateFailed
                || event is ProbeFailed || (event matches EventView::Received(item) && parent_of(
                item.destination,
            ) is None) || crowded
            &&& out.pool.stop_requested == (pool.stop_requested || out.turn.report is Stopped)
            &&& out.pool.stop_reason == if pool.stop_reason is Some {
                pool.stop_reason
            } else {
                out.turn.reason
            }
            &&& out.turn.reason is Some <==> out.turn.report is Stopped
            &&& event matches EventView::ParentFailed(why) ==> out.turn.reason == Some(why)
            &&& event matches EventView::LocateFailed(why) ==> out.turn.reason == Some(why)
            &&& event matches EventView::ProbeFailed(why) ==> out.turn.reason == Some(why)
            &&& out.turn.report is Stopped ==> out.turn.step is Exit
        }),
{
}

/// What a worker does next. It takes another file exactly where it is done with the
/// one before and no stop is asked for; it leaves where the queue is empty or a stop
/// is asked for or was caused; a directory is made once, a file system asked only
/// when that is due, and a file copied exactly where it has room.
pub proof fn lemma_what_a_worker_asks_for(worker: WorkerView, pool: PoolView, event: EventView)
    requires
        worker.expects(event),
    ensures
        ({
            let out = worker.next(pool, event);
            let free = event is Start || event == (EventView::Idle { queue_empty: false }) || event
                is CopyFailed || event is Removed || event is RemoveFailed || (event is Copied
                && !pool.delete_sources);
            let placed = event is Received && parent_of(event->Received_0.destination) is Some;
            let known = placed && holds(
                worker.prepared,
                parent_of(event->Received_0.destination)->0,
            );
            &&& out.turn.step is Poll <==> free && !pool.stop_requested
            &&& out.turn.step is Exit <==> (free && pool.stop_requested) || event == (
            EventView::Idle { queue_empty: true }) || out.turn.report is Stopped
            &&& out.turn.step is PrepareParent <==> placed && !known
            &&& out.turn.step is LocateFilesystem <==> event is ParentReady || known
            &&& out.turn.step is ProbeSpace <==> event is Located && judged_on(worker, event)
                is None
            &&& out.turn.step is CopyFile <==> judged_on(worker, event) is Some
                && !(out.turn.report is Stopped)
            &&& out.worker.phase is Polling <==> out.turn.step is Poll
            &&& out.worker.phase is Over <==> out.turn.step is Exit
            &&& out.worker.phase is Preparing <==> out.turn.step is PrepareParent
            &&& out.worker.phase is Locating <==> out.turn.step is LocateFilesystem
            &&& out.worker.phase is Probing <==> out.turn.step is ProbeSpace
            &&& out.worker.phase is Copying <==> out.turn.step is CopyFile
        }),
{
}

/// A worker stays with its file until it is done with it: the file that it works on
/// is the one that it took.
pub proof fn lemma_worker_keeps_its_file(worker: WorkerView, pool: PoolView, event: EventView)
    requires
        worker.expects(event),
    ensures
        ({
            let out = worker.next(pool, event);
            &&& file_of(out.worker.phase) is Some ==> file_of(out.worker.phase) == if event
                is Received {
                Some(event->Received_0)
            } else {
                file_of(worker.phase)
            }
            &&& out.worker.phase matches PhaseView::Copying(item, token) ==> token.bytes
                == item.size && Some(token.fs_id) == judged_on(worker, event)
            &&& out.worker.phase matches PhaseView::Probing(_, fs_id) ==> (event matches
                EventView::Located { fs_id: found, .. } && found == fs_id)
        }),
{
}

/// What workers share changes only as it should: space is reserved when a file is
/// admitted and given back when its copy is over, however it ended; its directory
/// is noted when it is admitted; and the directory that a file was queued with is
/// noted when its source is removed.
pub proof fn lemma_what_workers_share(worker: WorkerView, pool: PoolView, event: EventView)
    requires
        worker.expects(event),
    ensures
        ({
            let out = worker.next(pool, event);
            let over = event is Copied || event is CopyFailed;
            &&& out.turn.step is CopyFile ==> out.pool.reservations == with_reservation(
                pool.reservations,
                out.worker.phase->Copying_1,
            ) && out.pool.sync_targets == pool.sync_targets.push(
                parent_of(out.worker.phase->Copying_0.destination)->0,
            )
            &&& over ==> out.pool.reservations == without_reservation(
                pool.reservations,
                worker.phase->Copying_1,
            )
            &&& !(out.turn.step is CopyFile) && !over ==> out.pool.reservations
                == pool.reservations
            &&& !(out.turn.step is CopyFile) ==> out.pool.sync_targets == pool.sync_targets
            &&& event is Removed && worker.phase->Removing_0.cleanup_root is Some ==> holds(
                out.pool.cleanup_roots,
                worker.phase->Removing_0.cleanup_root->0,
            ) && pool.cleanup_roots.is_prefix_of(out.pool.cleanup_roots)
            &&& !(event is Removed && worker.phase->Removing_0.cleanup_root is Some)
                ==> out.pool.cleanup_roots == pool.cleanup_roots
            &&& out.pool.delete_sources == pool.delete_sources
        }),
{
    if event is Removed && worker.phase->Removing_0.cleanup_root is Some {
        let dir = worker.phase->Removing_0.cleanup_root->0;
        crate::mounts::lemma_taken_up_once(pool.cleanup_roots, dir, dir);
    }
}

/// What a worker knows: the directory of a file that it took, for the next one; and
/// what was found of the free space, less what it admitted.
pub proof fn lemma_what_a_worker_knows(worker: WorkerView, pool: PoolView, event: EventView)
    requires
        worker.expects(event),
    ensures
        ({
            let out = worker.next(pool, event);
            let placed = event is Received && parent_of(event->Received_0.destination) is Some;
            &&& placed ==> holds(
                out.worker.prepared,
                parent_of(event->Received_0.destination)->0,
            ) && worker.prepared.is_prefix_of(out.worker.prepared) && out.worker.prepared.len()
                <= worker.prepared.len() + 1
            &&& !placed ==> out.worker.prepared == worker.prepared
            &&& event matches EventView::Probed { available, now } ==> {
                let fs_id = worker.phase->Probing_1;
                &&& out.worker.probes.contains_key(fs_id)
                &&& out.worker.probes[fs_id].available == available
                &&& out.worker.probes[fs_id].last_probe == now
            }
            &&& !(event is Probed) && !(out.turn.step is CopyFile) ==> out.worker.probes
                == worker.probes
            &&& event is Located && out.turn.step is CopyFile ==> out.worker.probes == spent(
                worker.probes,
                event->Located_fs_id,
                worker.phase->Locating_0.size,
            )
        }),
{
    if event is Received && parent_of(event->Received_0.destination) is Some {
        let dir = parent_of(event->Received_0.destination)->0;
        crate::mounts::lemma_taken_up_once(worker.prepared, dir, dir);
    }
}

/// A transfer begins with nothing done, nothing reserved and no reason to stop, and
/// with the two answers that it was given.
pub proof fn lemma_how_a_transfer_begins(delete_sources: bool, stop_requested: bool, fs_id: u64)
    ensures
        ({
            let pool = PoolView::started(delete_sources, stop_requested);
            &&& pool.delete_sources == delete_sources
            &&& pool.stop_requested == stop_requested
            &&& pool.stop_reason is None
            &&& pool.stats.files_completed == 0
            &&& pool.stats.files_failed == 0
            &&& pool.stats.bytes_transferred == 0
            &&& amount(pool.reservations, fs_id) == 0
            &&& pool.sync_targets.len() == 0
            &&& pool.cleanup_roots.len() == 0
        }),
{
}

/// A look for a file gives the next one exactly while no stop is asked for and one
/// waits; a worker idles after a wait or a stop, and then knows whether the queue is
/// empty; and it waits first exactly where neither is so.
pub proof fn lemma_what_a_look_gives(pool: PoolView, queue: QueueView, waited: bool)
    ensures
        ({
            let next = !pool.stop_requested && queue.items.len() > 0;
            let look = polled(pool, queue, waited);
            &&& look is None <==> !next && !waited && !pool.stop_requested
            &&& look is Some && look->0 is Received <==> next
            &&& next ==> look == Some(EventView::Received(queue.items[0]))
            &&& look is Some && look->0 is Idle <==> !next && (waited || pool.stop_requested)
            &&& look matches Some(EventView::Idle { queue_empty }) ==> queue_empty == (
            queue.items.len() == 0)
        }),
{
}

/// Commands of which none is one to stop change nothing.
proof fn lemma_passing_commands(pool: PoolView, taken: Seq<Option<QueueCommand>>)
    requires
        forall|i: int| 0 <= i < taken.len() ==> #[trigger] taken[i] != Some(QueueCommand::Stop),
    ensures
        pool.noted_all(taken) == pool,
    decreases taken.len(),
{
    if taken.len() > 0 {
        let front = taken.drop_last();
        assert forall|i: int| 0 <= i < front.len() implies #[trigger] front[i] != Some(
            QueueCommand::Stop,
        ) by {
            assert(front[i] == taken[i]);
        }
        lemma_passing_commands(pool, front);
        assert(taken[taken.len() - 1] == taken.last());
    }
}

/// Of the commands that wait, each is taken up to one to stop, or until none waits;
/// one to stop is what stops the workers, and nothing else changes.
pub proof fn lemma_commands_are_heeded(
    before: PoolView,
    looks_before: Seq<Option<QueueCommand>>,
    after: PoolView,
    looks_after: Seq<Option<QueueCommand>>,
    i: int,
)
    requires
        commands_noted(before, looks_before, after, looks_after),
    ensures
        ({
            let taken = looks_after.skip(looks_before.len() as int);
            &&& looks_before.is_prefix_of(looks_after)
            &&& 0 <= i < taken.len() - 1 ==> taken[i] is Some && taken[i] != Some(
                QueueCommand::Stop,
            )
            &&& after.stop_requested <==> before.stop_requested || (taken.len() > 0
                && taken.last() == Some(QueueCommand::Stop))
            &&& !after.stop_requested && taken.len() < usize::MAX ==> taken.len() > 0
                && taken.last() is None
            &&& before.stop_requested ==> taken.len() == 0
            &&& after == (PoolView { stop_requested: after.stop_requested, ..before })
        }),
{
    let taken = looks_after.skip(looks_before.len() as int);
    if taken.len() > 0 {
        let front = taken.drop_last();
        if 0 <= i < front.len() {
            assert(front[i] == taken[i]);
        }
        lemma_passing_commands(before, front);
    }
}

} // verus!
