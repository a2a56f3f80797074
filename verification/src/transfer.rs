//! A whole transfer: several workers, what they share, and the queue that they
//! take their files from, in whatever way they take turns.

use crate::queue::{extended, ItemView, QueueCommand, QueueView};
use crate::space::amount;
use crate::worker::{
    files_counted, held_by, lemma_each_file_counted_once, lemma_no_reservation_leaks,
    lemma_stop_is_final, polled, uncounted, EventView, PoolView, WorkerView,
};
use vstd::prelude::*;

verus! {

/// Something that happens in a transfer.
pub enum TransferStep {
    /// A worker takes note of what came of its last step.
    Work {
        worker: int,
        event: EventView,
    },
    /// A command is noted.
    Command(Option<QueueCommand>),
    /// Files are queued while some worker is not done.
    Queueing(Seq<ItemView>),
}

/// A transfer at some moment.
pub struct TransferState {
    pub workers: Seq<WorkerView>,
    pub pool: PoolView,
    pub queue: QueueView,
}

impl TransferState {
    /// Whether an event can come: a file only while no stop is asked for, and then
    /// the next one of the queue, and an idle moment as the queue is.
    pub open spec fn tells(self, event: EventView) -> bool {
        match event {
            EventView::Received(item) => {
                &&& !self.pool.stop_requested
                &&& self.queue.items.len() > 0
                &&& item == self.queue.items[0]
            },
            EventView::Idle { queue_empty } => queue_empty == (self.queue.items.len() == 0),
            _ => true,
        }
    }

    /// Whether a step can follow.
    pub open spec fn allows(self, step: TransferStep) -> bool {
        match step {
            TransferStep::Work { worker, event } => {
                &&& 0 <= worker < self.workers.len()
                &&& self.workers[worker].expects(event)
                &&& self.tells(event)
            },
            TransferStep::Command(_) => true,
            TransferStep::Queueing(_) => !all_over(self.workers),
        }
    }

    /// The transfer after a step.
    pub open spec fn after(self, step: TransferStep) -> TransferState {
        match step {
            TransferStep::Work { worker, event } => {
                let out = self.workers[worker].next(self.pool, event);
                TransferState {
                    workers: self.workers.update(worker, out.worker),
                    pool: out.pool,
                    queue: event.leaves(self.queue),
                }
            },
            TransferStep::Command(command) => TransferState {
                pool: self.pool.noted(command),
                ..self
            },
            TransferStep::Queueing(batch) => TransferState {
                queue: extended(self.queue, batch),
                ..self
            },
        }
    }

    /// Whether some steps can follow each other.
    pub open spec fn allows_all(self, steps: Seq<TransferStep>) -> bool
        decreases steps.len(),
    {
        steps.len() == 0 || (self.allows(steps[0]) && self.after(steps[0]).allows_all(
            steps.skip(1),
        ))
    }

    /// The transfer after some steps.
    pub open spec fn after_all(self, steps: Seq<TransferStep>) -> TransferState
        decreases steps.len(),
    {
        if steps.len() == 0 {
            self
        } else {
            self.after(steps[0]).after_all(steps.skip(1))
        }
    }
}

impl TransferStep {
    /// The files that are taken from the queue in a step.
    pub open spec fn takes(self) -> Seq<ItemView> {
        match self {
            TransferStep::Work { worker: _, event: EventView::Received(item) } => seq![item],
            _ => Seq::empty(),
        }
    }

    /// The files that are queued in a step.
    pub open spec fn queues(self) -> Seq<ItemView> {
        match self {
            TransferStep::Queueing(batch) => batch,
            _ => Seq::empty(),
        }
    }
}

/// The files that the workers take in some steps, the first one first.
pub open spec fn files_taken(steps: Seq<TransferStep>) -> Seq<ItemView>
    decreases steps.len(),
{
    if steps.len() == 0 {
        Seq::empty()
    } else {
        steps[0].takes() + files_taken(steps.skip(1))
    }
}

/// The files that are queued in some steps, the first one first.
pub open spec fn files_queued(steps: Seq<TransferStep>) -> Seq<ItemView>
    decreases steps.len(),
{
    if steps.len() == 0 {
        Seq::empty()
    } else {
        steps[0].queues() + files_queued(steps.skip(1))
    }
}

/// The files of several workers that are not counted yet.
pub open spec fn all_uncounted(workers: Seq<WorkerView>) -> int
    decreases workers.len(),
{
    if workers.len() == 0 {
        0
    } else {
        all_uncounted(workers.drop_last()) + uncounted(workers.last().phase)
    }
}

/// What several workers hold of the space of a file system.
pub open spec fn all_held(workers: Seq<WorkerView>, fs_id: u64) -> int
    decreases workers.len(),
{
    if workers.len() == 0 {
        0
    } else {
        all_held(workers.drop_last(), fs_id) + held_by(workers.last().phase, fs_id)
    }
}

proof fn lemma_uncounted_update(workers: Seq<WorkerView>, k: int, worker: WorkerView)
    requires
        0 <= k < workers.len(),
    ensures
        all_uncounted(workers.update(k, worker)) == all_uncounted(workers) - uncounted(
            workers[k].phase,
        ) + uncounted(worker.phase),
    decreases workers.len(),
{
    let changed = workers.update(k, worker);
    if k == workers.len() - 1 {
        assert(changed.drop_last() =~= workers.drop_last());
    } else {
        lemma_uncounted_update(workers.drop_last(), k, worker);
        assert(changed.drop_last() =~= workers.drop_last().update(k, worker));
        assert(changed.last() == workers.last());
    }
}

proof fn lemma_uncounted_nonnegative(workers: Seq<WorkerView>)
    ensures
        all_uncounted(workers) >= 0,
    decreases workers.len(),
{
    if workers.len() > 0 {
        lemma_uncounted_nonnegative(workers.drop_last());
    }
}

proof fn lemma_held_update(workers: Seq<WorkerView>, k: int, worker: WorkerView, fs_id: u64)
    requires
        0 <= k < workers.len(),
    ensures
        all_held(workers.update(k, worker), fs_id) == all_held(workers, fs_id) - held_by(
            workers[k].phase,
            fs_id,
        ) + held_by(worker.phase, fs_id),
        held_by(workers[k].phase, fs_id) <= all_held(workers, fs_id),
    decreases workers.len(),
{
    let changed = workers.update(k, worker);
    lemma_held_nonnegative(workers.drop_last(), fs_id);
    if k == workers.len() - 1 {
        assert(changed.drop_last() =~= workers.drop_last());
    } else {
        lemma_held_update(workers.drop_last(), k, worker, fs_id);
        assert(changed.drop_last() =~= workers.drop_last().update(k, worker));
        assert(changed.last() == workers.last());
    }
}

proof fn lemma_held_nonnegative(workers: Seq<WorkerView>, fs_id: u64)
    ensures
        all_held(workers, fs_id) >= 0,
    decreases workers.len(),
{
    if workers.len() > 0 {
        lemma_held_nonnegative(workers.drop_last(), fs_id);
    }
}

/// Whether all workers are done.
pub open spec fn all_over(workers: Seq<WorkerView>) -> bool {
    forall|i: int| 0 <= i < workers.len() ==> (#[trigger] workers[i]).phase is Over
}

proof fn lemma_over_holds_nothing(workers: Seq<WorkerView>, fs_id: u64)
    requires
        all_over(workers),
    ensures
        all_uncounted(workers) == 0,
        all_held(workers, fs_id) == 0,
    decreases workers.len(),
{
    if workers.len() > 0 {
        let front = workers.drop_last();
        assert forall|i: int| 0 <= i < front.len() implies (#[trigger] front[i]).phase is Over by {
            assert(front[i] == workers[i]);
        }
        lemma_over_holds_nothing(front, fs_id);
        assert(workers[workers.len() - 1].phase is Over);
    }
}

/// Whether no worker has begun.
pub open spec fn none_begun(workers: Seq<WorkerView>) -> bool {
    forall|i: int| 0 <= i < workers.len() ==> (#[trigger] workers[i]).phase is Polling
}

proof fn lemma_begin_holds_nothing(workers: Seq<WorkerView>, fs_id: u64)
    requires
        none_begun(workers),
    ensures
        all_uncounted(workers) == 0,
        all_held(workers, fs_id) == 0,
    decreases workers.len(),
{
    if workers.len() > 0 {
        let front = workers.drop_last();
        assert forall|i: int| 0 <= i < front.len() implies (#[trigger] front[i]).phase is Polling by {
            assert(front[i] == workers[i]);
        }
        lemma_begin_holds_nothing(front, fs_id);
        assert(workers[workers.len() - 1].phase is Polling);
    }
}

/// Whether no worker has a file.
pub open spec fn none_at_work(workers: Seq<WorkerView>) -> bool {
    forall|i: int|
        0 <= i < workers.len() ==> (#[trigger] workers[i]).phase is Polling || workers[i].phase
            is Over
}

/// A worker's look for a file is a step that can follow the commands that it
/// noted, and leaves the queue as that step does.
pub proof fn lemma_poll_is_a_step(state: TransferState, worker: int, waited: bool)
    requires
        0 <= worker < state.workers.len(),
        state.workers[worker].phase is Polling,
    ensures
        polled(state.pool, state.queue, waited) matches Some(event) ==> {
            let step = TransferStep::Work { worker, event };
            let out = state.workers[worker].next(state.pool, event);
            &&& state.allows(step)
            &&& state.after(step) == (TransferState {
                workers: state.workers.update(worker, out.worker),
                pool: out.pool,
                queue: event.leaves(state.queue),
            })
        },
{
}

/// Whatever turns the workers take: the files that were taken, with those that are
/// left behind them, are those that waited with those that were queued behind
/// them, in their order.
pub proof fn lemma_files_come_in_order(state: TransferState, steps: Seq<TransferStep>)
    requires
        state.allows_all(steps),
    ensures
        files_taken(steps) + state.after_all(steps).queue.items == state.queue.items
            + files_queued(steps),
    decreases steps.len(),
{
    let left = state.after_all(steps).queue.items;
    if steps.len() == 0 {
        assert(files_taken(steps) + left =~= state.queue.items + files_queued(steps));
    } else {
        let next = state.after(steps[0]);
        let rest = steps.skip(1);
        lemma_files_come_in_order(next, rest);
        assert(steps[0].takes() + next.queue.items =~= state.queue.items + steps[0].queues());
        assert(files_taken(steps) + left =~= steps[0].takes() + (files_taken(rest) + left));
        assert(state.queue.items + files_queued(steps) =~= (state.queue.items
            + steps[0].queues()) + files_queued(rest));
        assert(steps[0].takes() + (next.queue.items + files_queued(rest)) =~= (steps[0].takes()
            + next.queue.items) + files_queued(rest));
    }
}

/// Whatever turns the workers take: the files that are counted, with those that
/// are at work, are the files that were taken.
pub proof fn lemma_counts_add_up(state: TransferState, steps: Seq<TransferStep>)
    requires
        state.allows_all(steps),
        files_counted(state.pool) + all_uncounted(state.workers) + files_taken(steps).len()
            < u64::MAX,
    ensures
        ({
            let end = state.after_all(steps);
            files_counted(end.pool) + all_uncounted(end.workers) == files_counted(state.pool)
                + all_uncounted(state.workers) + files_taken(steps).len()
        }),
    decreases steps.len(),
{
    if steps.len() > 0 {
        lemma_uncounted_nonnegative(state.workers);
        if let TransferStep::Work { worker, event } = steps[0] {
            let out = state.workers[worker].next(state.pool, event);
            lemma_each_file_counted_once(state.workers[worker], state.pool, event);
            lemma_uncounted_update(state.workers, worker, out.worker);
        }
        lemma_counts_add_up(state.after(steps[0]), steps.skip(1));
    }
}

/// Whatever turns the workers take: besides what the workers hold themselves,
/// nothing changes in the reservations.
pub proof fn lemma_reservations_add_up(
    state: TransferState,
    steps: Seq<TransferStep>,
    fs_id: u64,
)
    requires
        state.allows_all(steps),
        amount(state.pool.reservations, fs_id) >= all_held(state.workers, fs_id),
    ensures
        ({
            let end = state.after_all(steps);
            amount(end.pool.reservations, fs_id) - all_held(end.workers, fs_id) == amount(
                state.pool.reservations,
                fs_id,
            ) - all_held(state.workers, fs_id)
        }),
    decreases steps.len(),
{
    if steps.len() > 0 {
        if let TransferStep::Work { worker, event } = steps[0] {
            let out = state.workers[worker].next(state.pool, event);
            lemma_held_update(state.workers, worker, out.worker, fs_id);
            lemma_no_reservation_leaks(state.workers[worker], state.pool, event, fs_id);
        }
        lemma_reservations_add_up(state.after(steps[0]), steps.skip(1), fs_id);
    }
}

/// Whether a transfer whose workers are all done was stopped or has an empty
/// queue.
pub open spec fn ends_rightly(state: TransferState) -> bool {
    all_over(state.workers) ==> state.pool.stop_requested || state.queue.items.len() == 0
}

/// The last worker leaves only after a stop, or when the queue is empty.
pub proof fn lemma_last_worker_leaves_nothing(state: TransferState, steps: Seq<TransferStep>)
    requires
        state.allows_all(steps),
        ends_rightly(state),
    ensures
        ends_rightly(state.after_all(steps)),
    decreases steps.len(),
{
    if steps.len() > 0 {
        let next = state.after(steps[0]);
        if let TransferStep::Work { worker, event } = steps[0] {
            let out = state.workers[worker].next(state.pool, event);
            if all_over(next.workers) {
                assert(next.workers[worker] == out.worker);
            }
        }
        lemma_last_worker_leaves_nothing(next, steps.skip(1));
    }
}

/// Whether a reason to stop comes with a stop and a failed file.
pub open spec fn reason_is_told(pool: PoolView) -> bool {
    pool.stop_reason is Some ==> pool.stop_requested && pool.stats.files_failed >= 1
}

proof fn lemma_reason_stays_told(state: TransferState, steps: Seq<TransferStep>)
    requires
        state.allows_all(steps),
        reason_is_told(state.pool),
        files_counted(state.pool) + all_uncounted(state.workers) + files_taken(steps).len()
            < u64::MAX,
    ensures
        reason_is_told(state.after_all(steps).pool),
    decreases steps.len(),
{
    if steps.len() > 0 {
        lemma_uncounted_nonnegative(state.workers);
        if let TransferStep::Work { worker, event } = steps[0] {
            let out = state.workers[worker].next(state.pool, event);
            lemma_each_file_counted_once(state.workers[worker], state.pool, event);
            lemma_uncounted_update(state.workers, worker, out.worker);
        }
        lemma_reason_stays_told(state.after(steps[0]), steps.skip(1));
    }
}

/// A transfer accounts for all: when every worker is done, however they took
/// turns and whatever was commanded and queued meanwhile,
/// - the files completed and failed are just those that left the queue, and they
///   left it in its order,
/// - the queue is empty unless the transfer was stopped,
/// - a transfer that stopped for a reason was stopped, with a failed file, and
/// - no space is reserved any more.
pub proof fn lemma_transfer_accounts_for_all(
    start: TransferState,
    delete_sources: bool,
    stop_requested: bool,
    steps: Seq<TransferStep>,
    fs_id: u64,
)
    requires
        start.workers.len() > 0,
        none_begun(start.workers),
        start.pool == PoolView::started(delete_sources, stop_requested),
        start.allows_all(steps),
        all_over(start.after_all(steps).workers),
        start.queue.items.len() + files_queued(steps).len() < u64::MAX,
    ensures
        ({
            let end = start.after_all(steps);
            let all = start.queue.items + files_queued(steps);
            &&& end.pool.stats.files_completed + end.pool.stats.files_failed == all.len()
                - end.queue.items.len()
            &&& files_taken(steps) + end.queue.items == all
            &&& !end.pool.stop_requested ==> end.queue.items.len() == 0
            &&& end.pool.stop_reason is Some ==> end.pool.stop_requested
                && end.pool.stats.files_failed >= 1
            &&& amount(end.pool.reservations, fs_id) == 0
        }),
{
    let end = start.after_all(steps);
    lemma_begin_holds_nothing(start.workers, fs_id);
    lemma_over_holds_nothing(end.workers, fs_id);
    lemma_files_come_in_order(start, steps);
    assert((files_taken(steps) + end.queue.items).len() == (start.queue.items + files_queued(
        steps,
    )).len());
    lemma_counts_add_up(start, steps);
    lemma_reservations_add_up(start, steps, fs_id);
    assert(start.workers[0].phase is Polling);
    lemma_last_worker_leaves_nothing(start, steps);
    lemma_reason_stays_told(start, steps);
}

/// A stop stops all transfers: once it is asked for no worker takes another file,
/// whatever turns they take; the queue keeps what it holds; and where no worker
/// has a file nothing more is copied or counted.
pub proof fn lemma_stop_stops_all(state: TransferState, steps: Seq<TransferStep>)
    requires
        state.pool.stop_requested,
        state.allows_all(steps),
    ensures
        files_taken(steps).len() == 0,
        state.after_all(steps).pool.stop_requested,
        state.after_all(steps).queue.items == state.queue.items + files_queued(steps),
        none_at_work(state.workers) ==> state.after_all(steps).pool == state.pool,
    decreases steps.len(),
{
    lemma_files_come_in_order(state, steps);
    if steps.len() > 0 {
        let next = state.after(steps[0]);
        if let TransferStep::Work { worker, event } = steps[0] {
            let out = state.workers[worker].next(state.pool, event);
            lemma_stop_is_final(state.workers[worker], state.pool, event);
            if none_at_work(state.workers) {
                assert(state.workers[worker].phase is Polling);
                assert(out.pool == state.pool);
                assert(none_at_work(next.workers));
            }
        }
        lemma_stop_stops_all(next, steps.skip(1));
    }
    assert(files_taken(steps) =~= Seq::<ItemView>::empty());
    assert(files_taken(steps) + state.after_all(steps).queue.items =~= state.after_all(
        steps,
    ).queue.items);
}

} // verus!
