//! A transfer by several workers, from their start to the outcome.

use crate::format::{eta_text, format_eta};
use crate::queue::QueueCommand;
use crate::stats::TransferStats;
use crate::text::{decimal, decimal_text, same_text};
use crate::transfer::{
    all_over, files_queued, files_taken, lemma_stop_stops_all, lemma_transfer_accounts_for_all,
    none_begun, TransferState, TransferStep,
};
use crate::worker::{text_view, PoolState, PoolView};
use vstd::prelude::*;

verus! {

/// What came of a transfer.
#[derive(Debug)]
pub struct TransferOutcome {
    pub stopped_by_user: bool,
    pub files_completed: u64,
    pub files_failed: u64,
    pub stop_reason: Option<String>,
}

/// The contents of a `TransferOutcome`.
pub struct OutcomeView {
    pub stopped_by_user: bool,
    pub files_completed: u64,
    pub files_failed: u64,
    pub stop_reason: Option<Seq<char>>,
}

impl View for TransferOutcome {
    type V = OutcomeView;

    open spec fn view(&self) -> OutcomeView {
        OutcomeView {
            stopped_by_user: self.stopped_by_user,
            files_completed: self.files_completed,
            files_failed: self.files_failed,
            stop_reason: text_view(self.stop_reason),
        }
    }
}

/// The outcome that a transfer's state shows.
pub open spec fn outcome_of(pool: PoolView, stopped_from_monitor: bool) -> OutcomeView {
    OutcomeView {
        stopped_by_user: stopped_from_monitor || pool.stop_requested,
        files_completed: pool.stats.files_completed,
        files_failed: pool.stats.files_failed,
        stop_reason: pool.stop_reason,
    }
}

/// How a transfer ended.
#[derive(Debug, Clone, Copy, PartialEq, Eq, Structural)]
pub enum Ending {
    /// It stopped by itself, for a reason.
    StoppedForReason,
    /// It was stopped.
    StoppedByUser,
    /// It ran to its end.
    Complete,
}

/// How a transfer with an outcome ended.
pub open spec fn ending_of(outcome: OutcomeView) -> Ending {
    if outcome.stop_reason is Some {
        Ending::StoppedForReason
    } else if outcome.stopped_by_user {
        Ending::StoppedByUser
    } else {
        Ending::Complete
    }
}

impl TransferOutcome {
    /// How the transfer ended.
    pub fn ending(&self) -> (r: Ending)
        ensures
            r == ending_of(self@),
    {
        if self.stop_reason.is_some() {
            Ending::StoppedForReason
        } else if self.stopped_by_user {
            Ending::StoppedByUser
        } else {
            Ending::Complete
        }
    }
}

/// The whole seconds of a duration in nanoseconds.
pub open spec fn whole_seconds(nanos: nat) -> nat {
    nanos / 1_000_000_000
}

/// What is shown when a transfer is over. The time is that of the copies and of
/// bringing them to the devices together.
pub open spec fn ending_text(
    outcome: OutcomeView,
    completed: Seq<char>,
    average: Seq<char>,
    transfer_nanos: nat,
    sync_nanos: nat,
) -> Seq<char> {
    let head = match ending_of(outcome) {
        Ending::StoppedForReason => "Stopped: "@ + outcome.stop_reason->0 + " | "@,
        Ending::StoppedByUser => "Stopped by user. "@,
        Ending::Complete => "\u{2713} Transfer complete! "@,
    };
    let label = if ending_of(outcome) == Ending::Complete {
        " MB/s | Total time: "@
    } else {
        " MB/s | Elapsed: "@
    };
    head + completed + " succeeded, "@ + decimal(outcome.files_failed as nat) + " failed | Avg: "@
        + average + label + eta_text(whole_seconds(transfer_nanos + sync_nanos)) + " (sync: "@
        + decimal(whole_seconds(sync_nanos)) + "s)"@
}

impl TransferOutcome {
    /// What is shown when a transfer is over. `completed` is the number of
    /// completed files as it is to be shown, and `average` the speed.
    pub fn ending_message(
        &self,
        completed: &str,
        average: &str,
        transfer_nanos: u64,
        sync_nanos: u64,
    ) -> (r: String)
        ensures
            r@ == ending_text(
                self@,
                completed@,
                average@,
                transfer_nanos as nat,
                sync_nanos as nat,
            ),
    {
        let mut r = match &self.stop_reason {
            Some(reason) => {
                let mut head = "Stopped: ".to_owned();
                head.append(reason.as_str());
                head.append(" | ");
                head
            },
            None => {
                if self.stopped_by_user {
                    "Stopped by user. ".to_owned()
                } else {
                    "\u{2713} Transfer complete! ".to_owned()
                }
            },
        };
        r.append(completed);
        r.append(" succeeded, ");
        r.append(decimal_text(self.files_failed as u128).as_str());
        r.append(" failed | Avg: ");
        r.append(average);
        if self.stop_reason.is_none() && !self.stopped_by_user {
            r.append(" MB/s | Total time: ");
        } else {
            r.append(" MB/s | Elapsed: ");
        }
        let total = (transfer_nanos as u128 + sync_nanos as u128) / 1_000_000_000;
        assert(total <= u64::MAX);
        r.append(format_eta(total as u64).as_str());
        r.append(" (sync: ");
        r.append(decimal_text((sync_nanos / 1_000_000_000) as u128).as_str());
        r.append("s)");
        r
    }
}

/// The time that is shown includes that of bringing the copies to the devices.
pub proof fn lemma_time_includes_sync(transfer_nanos: nat, sync_nanos: nat)
    ensures
        whole_seconds(transfer_nanos + sync_nanos) >= whole_seconds(sync_nanos),
        whole_seconds(transfer_nanos + sync_nanos) >= whole_seconds(transfer_nanos),
        whole_seconds(transfer_nanos + sync_nanos) <= whole_seconds(transfer_nanos)
            + whole_seconds(sync_nanos) + 1,
{
}

/// Whether a cleanup mode has sources removed.
pub fn deletes_sources(cleanup_mode: &str) -> (r: bool)
    ensures
        r == (cleanup_mode@ == "delete"@),
{
    same_text(cleanup_mode, "delete")
}

/// Where a transfer stands.
#[derive(Debug, Clone, Copy, PartialEq, Eq, Structural)]
pub enum PoolPhase {
    /// The workers run.
    Running,
    /// Emptied source directories are removed.
    CleaningUp,
    /// The monitor is asked to end.
    EndingMonitor,
    /// What was written is brought to the devices.
    Syncing,
    Over,
}

/// A transfer by several workers.
#[derive(Debug, Clone, Copy, PartialEq, Eq, Structural)]
pub struct PoolRun {
    pub phase: PoolPhase,
    pub stopped_from_monitor: bool,
}

/// What a transfer asks for.
#[derive(Debug, Clone, Copy, PartialEq, Eq, Structural)]
pub enum PoolStep {
    /// Start the workers and the monitor, and wait for the workers.
    RunWorkers,
    /// Remove the source directories that are empty.
    CleanUpRoots,
    /// Send the monitor the command to end, and wait for it.
    EndMonitor,
    /// Bring what was written to the devices.
    Sync,
    /// The transfer has its outcome.
    Finish,
    /// A worker broke down.
    Fail,
}

/// What came of a step.
#[derive(Debug, Clone, Copy, PartialEq, Eq, Structural)]
pub enum PoolEvent {
    WorkersDone,
    WorkerPanicked,
    CleanedUp,
    MonitorDone {
        stopped_by_user: bool,
    },
    Synced,
}

/// Whether a transfer did anything.
pub open spec fn anything_done(stats: TransferStats) -> bool {
    stats.files_completed + stats.files_failed > 0
}

impl PoolRun {
    /// Whether an event answers what the transfer asked for.
    pub open spec fn expects(self, event: PoolEvent) -> bool {
        match self.phase {
            PoolPhase::Running => event is WorkersDone || event is WorkerPanicked,
            PoolPhase::CleaningUp => event is CleanedUp,
            PoolPhase::EndingMonitor => event is MonitorDone,
            PoolPhase::Syncing => event is Synced,
            PoolPhase::Over => false,
        }
    }

    /// The transfer after an event, and what it asks for next.
    pub open spec fn next(
        self,
        event: PoolEvent,
        delete_sources: bool,
        stats: TransferStats,
    ) -> (PoolRun, PoolStep) {
        match event {
            PoolEvent::WorkersDone => if delete_sources {
                (PoolRun { phase: PoolPhase::CleaningUp, ..self }, PoolStep::CleanUpRoots)
            } else {
                (PoolRun { phase: PoolPhase::EndingMonitor, ..self }, PoolStep::EndMonitor)
            },
            PoolEvent::WorkerPanicked => (
                PoolRun { phase: PoolPhase::Over, ..self },
                PoolStep::Fail,
            ),
            PoolEvent::CleanedUp => (
                PoolRun { phase: PoolPhase::EndingMonitor, ..self },
                PoolStep::EndMonitor,
            ),
            PoolEvent::MonitorDone { stopped_by_user } => if anything_done(stats) {
                (
                    PoolRun { phase: PoolPhase::Syncing, stopped_from_monitor: stopped_by_user },
                    PoolStep::Sync,
                )
            } else {
                (
                    PoolRun { phase: PoolPhase::Over, stopped_from_monitor: stopped_by_user },
                    PoolStep::Finish,
                )
            },
            PoolEvent::Synced => (PoolRun { phase: PoolPhase::Over, ..self }, PoolStep::Finish),
        }
    }

    /// Takes note of what came of a step, and tells the next one.
    pub fn step(&mut self, event: PoolEvent, pool: &PoolState) -> (s: PoolStep)
        requires
            old(self).expects(event),
        ensures
            (*final(self), s) == old(self).next(event, pool@.delete_sources, pool@.stats),
    {
        match event {
            PoolEvent::WorkersDone => {
                if pool.delete_sources {
                    self.phase = PoolPhase::CleaningUp;
                    PoolStep::CleanUpRoots
                } else {
                    self.phase = PoolPhase::EndingMonitor;
                    PoolStep::EndMonitor
                }
            },
            PoolEvent::WorkerPanicked => {
                self.phase = PoolPhase::Over;
                PoolStep::Fail
            },
            PoolEvent::CleanedUp => {
                self.phase = PoolPhase::EndingMonitor;
                PoolStep::EndMonitor
            },
            PoolEvent::MonitorDone { stopped_by_user } => {
                self.stopped_from_monitor = stopped_by_user;
                if pool.stats.files_completed > 0 || pool.stats.files_failed > 0 {
                    self.phase = PoolPhase::Syncing;
                    PoolStep::Sync
                } else {
                    self.phase = PoolPhase::Over;
                    PoolStep::Finish
                }
            },
            PoolEvent::Synced => {
                self.phase = PoolPhase::Over;
                PoolStep::Finish
            },
        }
    }

    /// The outcome of the transfer.
    pub fn outcome(&self, pool: &PoolState) -> (r: TransferOutcome)
        ensures
            r@ == outcome_of(pool@, self.stopped_from_monitor),
    {
        let stop_reason = match &pool.stop_reason {
            Some(reason) => Some(reason.clone()),
            None => None,
        };
        TransferOutcome {
            stopped_by_user: self.stopped_from_monitor || pool.stop_requested,
            files_completed: pool.stats.files_completed,
            files_failed: pool.stats.files_failed,
            stop_reason,
        }
    }
}

/// Starts a transfer.
pub fn transfer_worker_pool(cleanup_mode: &str, stop_requested: bool) -> (r: (
    PoolRun,
    PoolState,
    PoolStep,
))
    ensures
        r.0 == (PoolRun { phase: PoolPhase::Running, stopped_from_monitor: false }),
        r.1.wf(),
        r.1@ == PoolView::started(cleanup_mode@ == "delete"@, stop_requested),
        r.2 == PoolStep::RunWorkers,
{
    let pool = PoolState::new(deletes_sources(cleanup_mode), stop_requested);
    (
        PoolRun { phase: PoolPhase::Running, stopped_from_monitor: false },
        pool,
        PoolStep::RunWorkers,
    )
}

/// Source directories are removed only where sources are, and only when no
/// worker runs any more; and what was written is brought to the devices before
/// the transfer has its outcome.
pub proof fn lemma_pool_order(
    run: PoolRun,
    event: PoolEvent,
    delete_sources: bool,
    stats: TransferStats,
)
    requires
        run.expects(event),
    ensures
        ({
            let (after, step) = run.next(event, delete_sources, stats);
            &&& step is CleanUpRoots ==> delete_sources && event is WorkersDone
            &&& step is Sync ==> anything_done(stats) && event is MonitorDone
            &&& step is Finish && anything_done(stats) ==> event is Synced
            &&& after.phase is Over <==> step is Finish || step is Fail
        }),
{
}

/// A command to stop that comes before any worker has begun leaves all as it was:
/// no file is taken, completed or failed, the queue keeps what it holds, and the
/// outcome is that of a stop.
pub proof fn lemma_stop_command_stops_all(
    start: TransferState,
    delete_sources: bool,
    stop_requested: bool,
    steps: Seq<TransferStep>,
    stopped_from_monitor: bool,
)
    requires
        none_begun(start.workers),
        start.pool == PoolView::started(delete_sources, stop_requested),
        start.allows_all(seq![TransferStep::Command(Some(QueueCommand::Stop))] + steps),
    ensures
        ({
            let all = seq![TransferStep::Command(Some(QueueCommand::Stop))] + steps;
            let end = start.after_all(all);
            let outcome = outcome_of(end.pool, stopped_from_monitor);
            &&& files_taken(all).len() == 0
            &&& end.queue.items == start.queue.items + files_queued(all)
            &&& outcome.stopped_by_user
            &&& outcome.files_completed == 0
            &&& outcome.files_failed == 0
            &&& outcome.stop_reason is None
        }),
{
    let stop = TransferStep::Command(Some(QueueCommand::Stop));
    let all = seq![stop] + steps;
    assert(all.skip(1) =~= steps);
    let stopped = start.after(stop);
    lemma_stop_stops_all(stopped, steps);
    assert(stop.takes() + files_taken(steps) =~= files_taken(steps));
    assert(stop.queues() + files_queued(steps) =~= files_queued(steps));
}

/// How a whole transfer ended tells what became of its queue: where it ran to its
/// end the queue is empty, and every file that left the queue is completed or
/// failed in the outcome; one that stopped for a reason has a failed file.
pub proof fn lemma_outcome_accounts_for_all(
    start: TransferState,
    delete_sources: bool,
    stop_requested: bool,
    steps: Seq<TransferStep>,
    stopped_from_monitor: bool,
)
    requires
        start.workers.len() > 0,
        none_begun(start.workers),
        start.pool == PoolView::started(delete_sources, stop_requested),
        start.allows_all(steps),
        all_over(start.after_all(steps).workers),
        start.queue.items.len() + files_queued(steps).len() < u64::MAX,
    ensures
        ({
            let end = start.after_all(steps);
            let outcome = outcome_of(end.pool, stopped_from_monitor);
            &&& outcome.files_completed + outcome.files_failed == start.queue.items.len()
                + files_queued(steps).len() - end.queue.items.len()
            &&& ending_of(outcome) is Complete ==> end.queue.items.len() == 0
            &&& ending_of(outcome) is StoppedForReason ==> outcome.stopped_by_user
                && outcome.files_failed >= 1
        }),
{
    lemma_transfer_accounts_for_all(start, delete_sources, stop_requested, steps, 0);
}

/// What a transfer does when: source directories are cleaned up exactly after the
/// workers where sources are removed, the monitor ends after that, what was written
/// is brought to the devices exactly where any file was completed or failed, and a
/// worker that broke down fails the transfer.
pub proof fn lemma_pool_steps(
    run: PoolRun,
    event: PoolEvent,
    delete_sources: bool,
    stats: TransferStats,
)
    requires
        run.expects(event),
    ensures
        ({
            let (after, step) = run.next(event, delete_sources, stats);
            let worked = stats.files_completed > 0 || stats.files_failed > 0;
            &&& step is CleanUpRoots <==> event is WorkersDone && delete_sources
            &&& step is EndMonitor <==> (event is WorkersDone && !delete_sources) || event
                is CleanedUp
            &&& step is Sync <==> event is MonitorDone && worked
            &&& step is Finish <==> event is Synced || (event is MonitorDone && !worked)
            &&& step is Fail <==> event is WorkerPanicked
            &&& !(step is RunWorkers)
            &&& after.phase is CleaningUp <==> step is CleanUpRoots
            &&& after.phase is EndingMonitor <==> step is EndMonitor
            &&& after.phase is Syncing <==> step is Sync
            &&& after.stopped_from_monitor == match event {
                PoolEvent::MonitorDone { stopped_by_user } => stopped_by_user,
                _ => run.stopped_from_monitor,
            }
        }),
{
}

/// The outcome tells what was counted and why the transfer stopped, and that it was
/// stopped exactly where the monitor or a stop says so; it counts as complete
/// exactly where neither does and there is no reason.
pub proof fn lemma_outcome_tells(pool: PoolView, stopped_from_monitor: bool)
    ensures
        ({
            let outcome = outcome_of(pool, stopped_from_monitor);
            &&& outcome.files_completed == pool.stats.files_completed
            &&& outcome.files_failed == pool.stats.files_failed
            &&& outcome.stop_reason == pool.stop_reason
            &&& outcome.stopped_by_user <==> stopped_from_monitor || pool.stop_requested
            &&& ending_of(outcome) is Complete <==> pool.stop_reason is None
                && !pool.stop_requested && !stopped_from_monitor
            &&& ending_of(outcome) is StoppedForReason <==> pool.stop_reason is Some
            &&& ending_of(outcome) is StoppedByUser <==> pool.stop_reason is None && (
            pool.stop_requested || stopped_from_monitor)
        }),
{
}

/// What is shown at the end begins with how the transfer ended, with the reason
/// where there is one, and tells the numbers that it was given.
pub proof fn lemma_ending_is_shown(
    outcome: OutcomeView,
    completed: Seq<char>,
    average: Seq<char>,
    transfer_nanos: nat,
    sync_nanos: nat,
)
    ensures
        ({
            let text = ending_text(outcome, completed, average, transfer_nanos, sync_nanos);
            let head = if outcome.stop_reason is Some {
                "Stopped: "@ + outcome.stop_reason->0 + " | "@
            } else if outcome.stopped_by_user {
                "Stopped by user. "@
            } else {
                "\u{2713} Transfer complete! "@
            };
            let counts = completed + " succeeded, "@ + decimal(outcome.files_failed as nat)
                + " failed | Avg: "@ + average;
            let time = eta_text((transfer_nanos + sync_nanos) / 1_000_000_000) + " (sync: "@
                + decimal(sync_nanos / 1_000_000_000) + "s)"@;
            &&& (head + counts).is_prefix_of(text)
            &&& text.skip(text.len() - time.len()) == time
            &&& text == head + counts + if outcome.stop_reason is Some || outcome.stopped_by_user {
                " MB/s | Elapsed: "@
            } else {
                " MB/s | Total time: "@
            } + time
        }),
{
    let text = ending_text(outcome, completed, average, transfer_nanos, sync_nanos);
    let head = if outcome.stop_reason is Some {
        "Stopped: "@ + outcome.stop_reason->0 + " | "@
    } else if outcome.stopped_by_user {
        "Stopped by user. "@
    } else {
        "\u{2713} Transfer complete! "@
    };
    let counts = completed + " succeeded, "@ + decimal(outcome.files_failed as nat)
        + " failed | Avg: "@ + average;
    let label = if outcome.stop_reason is Some || outcome.stopped_by_user {
        " MB/s | Elapsed: "@
    } else {
        " MB/s | Total time: "@
    };
    let time = eta_text((transfer_nanos + sync_nanos) / 1_000_000_000) + " (sync: "@ + decimal(
        sync_nanos / 1_000_000_000,
    ) + "s)"@;
    assert(text =~= head + counts + label + time);
    assert((head + counts) =~= text.take((head + counts).len() as int));
    assert(text.skip(text.len() - time.len()) =~= time);
}

} // verus!
