//! Watching a transfer: what is shown of it, and when it is over.

use crate::channel::feeds;
use crate::format::{eta_text, format_eta, format_size, size_text};
use crate::progress::floor_difference;
use crate::queue::{QueueCommand, TransferQueue};
use crate::stats::TransferStats;
use crate::text::{decimal, decimal_text};
use crate::worker::PoolState;
use crossbeam::channel::Sender;
use vstd::prelude::*;

verus! {

/// How often a transfer is looked at.
pub const MONITOR_INTERVAL_MS: u64 = 1500;

/// How long an empty queue must stay empty before the transfer counts as over.
pub const QUEUE_SETTLE_MS: u64 = 500;

/// What is known of a transfer between two looks at it.
#[derive(Debug, Clone, Copy, PartialEq, Eq, Structural)]
pub struct Monitor {
    pub last_io_bytes: u64,
    pub max_total_files: u64,
    pub stopped_by_user: bool,
}

/// What one look at a transfer shows.
#[derive(Debug, Clone, Copy, PartialEq, Eq, Structural)]
pub struct Sample {
    /// The bytes copied, at most all.
    pub transferred_bytes: u64,
    /// The bytes copied since the last look.
    pub delta_bytes: u64,
    pub remaining_bytes: u64,
    pub remaining_files: u64,
    pub completed: u64,
}

/// What a monitor does next.
#[derive(Debug, Clone, Copy, PartialEq, Eq, Structural)]
pub enum MonitorStep {
    /// The transfer is over.
    End,
    /// Wait a moment and see whether the queue is still empty.
    Settle,
    /// Wait until the next look.
    Wait,
}

/// The smaller of two numbers.
pub open spec fn lesser(a: u64, b: u64) -> u64 {
    if a <= b {
        a
    } else {
        b
    }
}

impl Monitor {
    /// The files of a transfer as far as they are known.
    pub open spec fn files_known(self, stats: TransferStats, queued: nat) -> int {
        let found = stats.files_completed + stats.files_failed + queued;
        if found > self.max_total_files {
            found
        } else {
            self.max_total_files as int
        }
    }

    /// The monitor after a look. What was copied is remembered only where time
    /// has passed since the last look.
    pub open spec fn looked(
        self,
        io_bytes: u64,
        stats: TransferStats,
        queued: nat,
        time_passed: bool,
    ) -> Monitor {
        Monitor {
            last_io_bytes: if time_passed {
                io_bytes
            } else {
                self.last_io_bytes
            },
            max_total_files: self.files_known(stats, queued) as u64,
            stopped_by_user: self.stopped_by_user,
        }
    }

    /// What a look shows.
    pub open spec fn shows(
        self,
        io_bytes: u64,
        total_size: u64,
        stats: TransferStats,
        queued: nat,
    ) -> Sample {
        let transferred = lesser(io_bytes, total_size);
        let done = stats.files_completed + stats.files_failed;
        Sample {
            transferred_bytes: transferred,
            delta_bytes: floor_difference(io_bytes, self.last_io_bytes),
            remaining_bytes: floor_difference(total_size, transferred),
            remaining_files: (self.files_known(stats, queued) - done) as u64,
            completed: stats.files_completed,
        }
    }

    /// A monitor of a transfer that begins.
    pub fn new(initial_total_files: u64) -> (r: Monitor)
        ensures
            r.last_io_bytes == 0,
            r.max_total_files == initial_total_files,
            !r.stopped_by_user,
    {
        Monitor { last_io_bytes: 0, max_total_files: initial_total_files, stopped_by_user: false }
    }

    /// Looks at a transfer.
    pub fn look(
        &mut self,
        io_bytes: u64,
        total_size: u64,
        stats: &TransferStats,
        queued: usize,
        time_passed: bool,
    ) -> (r: Sample)
        requires
            stats.files_completed + stats.files_failed + queued <= u64::MAX,
        ensures
            *final(self) == old(self).looked(io_bytes, *stats, queued as nat, time_passed),
            r == old(self).shows(io_bytes, total_size, *stats, queued as nat),
    {
        let transferred_bytes = if io_bytes <= total_size {
            io_bytes
        } else {
            total_size
        };
        let delta_bytes = io_bytes.saturating_sub(self.last_io_bytes);
        if time_passed {
            self.last_io_bytes = io_bytes;
        }
        let done = stats.files_completed + stats.files_failed;
        let discovered_total = done + queued as u64;
        if discovered_total > self.max_total_files {
            self.max_total_files = discovered_total;
        }
        Sample {
            transferred_bytes,
            delta_bytes,
            remaining_bytes: total_size.saturating_sub(transferred_bytes),
            remaining_files: self.max_total_files.saturating_sub(done),
            completed: stats.files_completed,
        }
    }

    /// What follows a look: a command ends the watch, and an empty queue after
    /// some file may mean the end.
    pub open spec fn decided(
        self,
        command: Option<QueueCommand>,
        queue_empty: bool,
        stats: TransferStats,
    ) -> (Monitor, MonitorStep) {
        match command {
            Some(QueueCommand::Stop) => (
                Monitor { stopped_by_user: true, ..self },
                MonitorStep::End,
            ),
            Some(QueueCommand::Terminate) => (self, MonitorStep::End),
            None => (
                self,
                if queue_empty && stats.files_completed + stats.files_failed > 0 {
                    MonitorStep::Settle
                } else {
                    MonitorStep::Wait
                },
            ),
        }
    }

    /// Decides what follows a look. A command to stop is passed on to the workers.
    pub fn decide(
        &mut self,
        command: Option<QueueCommand>,
        queue_empty: bool,
        pool: &mut PoolState,
    ) -> (r: MonitorStep)
        requires
            old(pool).wf(),
        ensures
            final(pool).wf(),
            (*final(self), r) == old(self).decided(command, queue_empty, old(pool)@.stats),
            final(pool)@ == old(pool)@.noted(command),
    {
        pool.note_command(command);
        let stats = &pool.stats;
        match command {
            Some(QueueCommand::Stop) => {
                self.stopped_by_user = true;
                MonitorStep::End
            },
            Some(QueueCommand::Terminate) => MonitorStep::End,
            None => {
                if queue_empty && (stats.files_completed > 0 || stats.files_failed > 0) {
                    MonitorStep::Settle
                } else {
                    MonitorStep::Wait
                }
            },
        }
    }

    /// Takes the oldest command that waits, and decides what follows.
    pub fn heed(&mut self, queue: &mut TransferQueue, pool: &mut PoolState) -> (r: MonitorStep)
        requires
            old(queue).wf(),
            old(pool).wf(),
        ensures
            final(queue).wf(),
            final(pool).wf(),
            final(queue)@ == old(queue)@,
            final(queue).looks().len() == old(queue).looks().len() + 1,
            ({
                let command = final(queue).looks().last();
                &&& final(queue).looks() == old(queue).looks().push(command)
                &&& (*final(self), r) == old(self).decided(
                    command,
                    old(queue)@.items.len() == 0,
                    old(pool)@.stats,
                )
                &&& final(pool)@ == old(pool)@.noted(command)
            }),
            forall|tx: Sender<QueueCommand>|
                feeds(tx, old(queue).commands()) ==> feeds(tx, final(queue).commands()),
    {
        let command = queue.try_recv_command();
        let queue_empty = queue.is_empty();
        self.decide(command, queue_empty, pool)
    }

    /// Decides what follows the moment after which the queue was to be still
    /// empty.
    pub fn settled(&self, queue_empty: bool) -> (r: MonitorStep)
        ensures
            r == if queue_empty {
                MonitorStep::End
            } else {
                MonitorStep::Wait
            },
    {
        if queue_empty {
            MonitorStep::End
        } else {
            MonitorStep::Wait
        }
    }
}

/// The line that is shown of a transfer.
pub open spec fn progress_text(
    completed: u64,
    total_files: u64,
    remaining_bytes: u64,
    remaining_files: u64,
    seconds: Option<u64>,
    average: Seq<char>,
) -> Seq<char> {
    "Files: "@ + decimal(completed as nat) + "/"@ + decimal(total_files as nat) + " | Remaining: "@
        + size_text(remaining_bytes) + " ("@ + decimal(remaining_files as nat)
        + " files) | Total remaining: "@ + match seconds {
        Some(s) => eta_text(s as nat),
        None => "estimating..."@,
    } + " | Avg: "@ + average + " MB/s"@
}

/// The line that is shown of a transfer. The time is left open until a speed is
/// known.
pub fn progress_message(
    sample: &Sample,
    total_files: u64,
    seconds: Option<u64>,
    average: &str,
) -> (r: String)
    ensures
        r@ == progress_text(
            sample.completed,
            total_files,
            sample.remaining_bytes,
            sample.remaining_files,
            seconds,
            average@,
        ),
{
    let mut r = "Files: ".to_owned();
    r.append(decimal_text(sample.completed as u128).as_str());
    r.append("/");
    r.append(decimal_text(total_files as u128).as_str());
    r.append(" | Remaining: ");
    r.append(format_size(sample.remaining_bytes).as_str());
    r.append(" (");
    r.append(decimal_text(sample.remaining_files as u128).as_str());
    r.append(" files) | Total remaining: ");
    match seconds {
        Some(s) => {
            r.append(format_eta(s).as_str());
        },
        None => {
            r.append("estimating...");
        },
    }
    r.append(" | Avg: ");
    r.append(average);
    r.append(" MB/s");
    r
}

/// The number of files of a transfer never shrinks, covers all that are done or
/// wait, and is made up of those that are done and those that remain.
pub proof fn lemma_files_add_up(
    monitor: Monitor,
    io_bytes: u64,
    total_size: u64,
    stats: TransferStats,
    queued: nat,
    time_passed: bool,
)
    requires
        stats.files_completed + stats.files_failed + queued <= u64::MAX,
    ensures
        ({
            let after = monitor.looked(io_bytes, stats, queued, time_passed);
            let sample = monitor.shows(io_bytes, total_size, stats, queued);
            &&& after.max_total_files >= monitor.max_total_files
            &&& after.max_total_files >= stats.files_completed + stats.files_failed + queued
            &&& stats.files_completed + stats.files_failed + sample.remaining_files
                == after.max_total_files
            &&& sample.transferred_bytes + sample.remaining_bytes == total_size
        }),
{
}

/// A watch ends exactly with a command, and takes note of a stop; it lets an empty
/// queue settle once some file is done, and else goes on.
pub proof fn lemma_monitor_decides(
    monitor: Monitor,
    command: Option<QueueCommand>,
    queue_empty: bool,
    stats: TransferStats,
)
    ensures
        ({
            let (after, step) = monitor.decided(command, queue_empty, stats);
            let done = stats.files_completed > 0 || stats.files_failed > 0;
            &&& step is End <==> command is Some
            &&& step is Settle <==> command is None && queue_empty && done
            &&& step is Wait <==> command is None && !(queue_empty && done)
            &&& after.stopped_by_user <==> monitor.stopped_by_user || command == Some(
                QueueCommand::Stop,
            )
            &&& after.last_io_bytes == monitor.last_io_bytes
            &&& after.max_total_files == monitor.max_total_files
        }),
{
}

/// What a look shows: the bytes copied but never more than all, what came since the
/// last look, and what is left. The bytes are remembered exactly where time passed.
pub proof fn lemma_monitor_looks(
    monitor: Monitor,
    io_bytes: u64,
    total_size: u64,
    stats: TransferStats,
    queued: nat,
    time_passed: bool,
)
    requires
        stats.files_completed + stats.files_failed + queued <= u64::MAX,
    ensures
        ({
            let after = monitor.looked(io_bytes, stats, queued, time_passed);
            let sample = monitor.shows(io_bytes, total_size, stats, queued);
            let known = stats.files_completed + stats.files_failed + queued;
            &&& io_bytes <= total_size ==> sample.transferred_bytes == io_bytes
                && sample.remaining_bytes == total_size - io_bytes
            &&& io_bytes > total_size ==> sample.transferred_bytes == total_size
                && sample.remaining_bytes == 0
            &&& io_bytes >= monitor.last_io_bytes ==> sample.delta_bytes == io_bytes
                - monitor.last_io_bytes
            &&& io_bytes < monitor.last_io_bytes ==> sample.delta_bytes == 0
            &&& sample.completed == stats.files_completed
            &&& after.last_io_bytes == if time_passed {
                io_bytes
            } else {
                monitor.last_io_bytes
            }
            &&& known >= monitor.max_total_files ==> after.max_total_files == known
                && sample.remaining_files == queued
            &&& known < monitor.max_total_files ==> after.max_total_files
                == monitor.max_total_files
            &&& after.stopped_by_user == monitor.stopped_by_user
        }),
{
}

/// What is told while files are transferred: how many of them are done, what remains,
/// the time that takes where it is known, and the average speed.
pub proof fn lemma_progress_told(
    completed: u64,
    total_files: u64,
    remaining_bytes: u64,
    remaining_files: u64,
    seconds: u64,
    average: Seq<char>,
)
    ensures
        ({
            let front = "Files: "@ + decimal(completed as nat) + "/"@ + decimal(total_files as nat)
                + " | Remaining: "@ + size_text(remaining_bytes) + " ("@ + decimal(
                remaining_files as nat,
            ) + " files) | Total remaining: "@;
            &&& progress_text(
                completed,
                total_files,
                remaining_bytes,
                remaining_files,
                Some(seconds),
                average,
            ) == front + eta_text(seconds as nat) + " | Avg: "@ + average + " MB/s"@
            &&& progress_text(
                completed,
                total_files,
                remaining_bytes,
                remaining_files,
                None,
                average,
            ) == front + "estimating..."@ + " | Avg: "@ + average + " MB/s"@
        }),
{
}

} // verus!
