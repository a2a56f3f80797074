//! A session: from an interrupted queue or new mappings, batch by batch, to its
//! end.

use vstd::prelude::*;

verus! {

/// How long a moment of the wait for a device lasts.
pub const MOUNT_WAIT_MS: u64 = 500;

/// Where a session stands.
#[derive(Debug, Clone, Copy, PartialEq, Eq, Structural)]
pub enum SessionPhase {
    LoadingCheckpoint,
    AskingResume,
    Restoring,
    ClearingSaved,
    AskingOptions,
    AskingMappings,
    Enqueueing,
    StartingWatch,
    SavingInitial,
    Looking,
    WaitingForMount,
    Preflighting,
    SavingBefore,
    Transferring,
    SavingAfter {
        stopped: bool,
        for_reason: bool,
    },
    AskingMore,
    Adding,
    SavingAdded,
    Closing,
    Ending,
    Unmounting,
    AwaitingEnter,
    Over,
}

/// A session.
#[derive(Debug, Clone, Copy, PartialEq, Eq, Structural)]
pub struct Session {
    pub phase: SessionPhase,
    /// Whether it goes on with an interrupted queue.
    pub resumed: bool,
    /// Whether its files are queued when a device is mounted.
    pub waiting_for_mount: bool,
    /// Whether drives are unmounted at the end.
    pub should_unmount: bool,
    /// Whether a transfer stopped by itself.
    pub stopped_for_reason: bool,
}

/// What a session asks for.
#[derive(Debug, Clone, Copy, PartialEq, Eq, Structural)]
pub enum SessionStep {
    /// Look for an interrupted queue.
    LoadCheckpoint,
    /// Ask whether to go on with the interrupted queue.
    AskResume,
    /// Put the interrupted items in the queue.
    RestoreQueue,
    /// Remove the saved queue.
    ClearCheckpoint,
    /// Ask how the transfer is done.
    AskOptions,
    /// Ask what goes where.
    AskMappings,
    /// Queue the files of the mappings, if any destination exists.
    EnqueueMappings,
    /// Queue the files of the mappings when a device is mounted.
    WatchMounts,
    /// Save the queue.
    SaveCheckpoint,
    /// See what is queued, and whether a stop was asked for.
    LookAtQueue,
    /// Wait a moment for something to be queued.
    WaitForMount,
    /// Check the destinations.
    Preflight,
    /// Transfer what is queued.
    RunBatch,
    /// Ask whether to add files.
    AskMore,
    /// Add files.
    AddFiles,
    /// Unmount the drives.
    Unmount,
    /// Wait for the user.
    AwaitEnter,
    /// The session is over.
    Exit,
}

/// What a session tells before its next step.
#[derive(Debug, Clone, Copy, PartialEq, Eq, Structural)]
pub enum Notice {
    Nothing,
    /// An interrupted queue was found.
    FoundInterrupted,
    Resuming,
    SavedIgnored,
    /// No destination exists.
    NoDestination,
    /// Nothing is queued until a device is mounted.
    WaitingForMount,
    DeviceDetected,
    QueueEmpty,
    /// A batch is ready.
    Ready,
    /// A batch begins.
    Starting,
    /// A batch stopped by itself.
    TransferStopped,
    /// A batch was stopped with items left.
    Interrupted,
    /// A batch was stopped when all was done.
    StopAtEnd,
    BatchComplete,
    /// Files could not be added.
    AddFailed,
    /// The session was stopped; for a reason or by the user, with items left or
    /// without.
    Stopped {
        for_reason: bool,
        pending: bool,
    },
    AllComplete,
}

/// What came of a step.
#[derive(Debug, Clone, Copy, PartialEq, Eq, Structural)]
pub enum SessionEvent {
    Done,
    /// So many items of an interrupted queue were found.
    Found {
        pending: usize,
    },
    /// The answer to a question.
    Answer {
        yes: bool,
    },
    /// How the transfer is done.
    Options {
        unmount: bool,
    },
    /// Whether the mappings were queued.
    Enqueued {
        any_destination: bool,
    },
    /// So many items are queued, and whether a stop was asked for.
    Queue {
        items: usize,
        stop: bool,
    },
    /// What came of a batch.
    Batch {
        stopped: bool,
        for_reason: bool,
    },
    /// Whether files could be added.
    Added {
        ok: bool,
    },
}

impl Session {
    pub open spec fn to(self, phase: SessionPhase) -> Session {
        Session { phase, ..self }
    }

    /// A session that begins.
    pub open spec fn started() -> Session {
        Session {
            phase: SessionPhase::LoadingCheckpoint,
            resumed: false,
            waiting_for_mount: false,
            should_unmount: false,
            stopped_for_reason: false,
        }
    }

    /// A session that asks for something.
    pub open spec fn asks(self, phase: SessionPhase, notice: Notice, step: SessionStep) -> (
        Session,
        Notice,
        SessionStep,
    ) {
        (self.to(phase), notice, step)
    }

    /// Whether an event answers what the session asked for.
    pub open spec fn expects(self, event: SessionEvent) -> bool {
        match self.phase {
            SessionPhase::LoadingCheckpoint => event is Found,
            SessionPhase::AskingResume => event is Answer,
            SessionPhase::AskingOptions => event is Options,
            SessionPhase::Enqueueing => event is Enqueued,
            SessionPhase::Looking => event is Queue,
            SessionPhase::WaitingForMount => event is Queue,
            SessionPhase::Transferring => event is Batch,
            SessionPhase::SavingAfter { .. } => event is Queue,
            SessionPhase::AskingMore => event is Answer,
            SessionPhase::Adding => event is Added,
            SessionPhase::Closing => event is Queue,
            SessionPhase::Ending => event is Queue,
            SessionPhase::Over => false,
            _ => event is Done,
        }
    }

    /// A look at the queue between two batches.
    pub open spec fn looked(self, items: usize, stop: bool) -> (Session, Notice, SessionStep) {
        if stop {
            self.asks(SessionPhase::Closing, Notice::Nothing, SessionStep::LookAtQueue)
        } else if items > 0 {
            self.asks(SessionPhase::Preflighting, Notice::Ready, SessionStep::Preflight)
        } else if self.waiting_for_mount {
            self.asks(
                SessionPhase::WaitingForMount,
                Notice::WaitingForMount,
                SessionStep::WaitForMount,
            )
        } else {
            self.asks(SessionPhase::Closing, Notice::QueueEmpty, SessionStep::LookAtQueue)
        }
    }

    /// A moment of the wait for a device. It goes on while nothing is queued and no
    /// stop is asked for.
    pub open spec fn waited(self, items: usize, stop: bool) -> (Session, Notice, SessionStep) {
        if stop {
            self.asks(SessionPhase::Closing, Notice::Nothing, SessionStep::LookAtQueue)
        } else if items > 0 {
            (Session { waiting_for_mount: false, ..self }).asks(
                SessionPhase::Looking,
                Notice::DeviceDetected,
                SessionStep::LookAtQueue,
            )
        } else {
            self.asks(SessionPhase::WaitingForMount, Notice::Nothing, SessionStep::WaitForMount)
        }
    }

    /// The end of a batch.
    pub open spec fn batch_over(
        self,
        stopped: bool,
        for_reason: bool,
        items: usize,
        stop: bool,
    ) -> (Session, Notice, SessionStep) {
        if !stopped && !stop {
            self.asks(SessionPhase::AskingMore, Notice::BatchComplete, SessionStep::AskMore)
        } else if for_reason {
            (Session { stopped_for_reason: true, ..self }).asks(
                SessionPhase::Closing,
                Notice::TransferStopped,
                SessionStep::LookAtQueue,
            )
        } else if items > 0 {
            self.asks(SessionPhase::Closing, Notice::Interrupted, SessionStep::LookAtQueue)
        } else {
            self.asks(SessionPhase::Closing, Notice::StopAtEnd, SessionStep::LookAtQueue)
        }
    }

    /// The end of a session, when its queue is saved or cleared.
    pub open spec fn ended(self, items: usize, stop: bool) -> (Session, Notice, SessionStep) {
        if stop {
            self.asks(
                SessionPhase::Over,
                (Notice::Stopped { for_reason: self.stopped_for_reason, pending: items > 0 }),
                SessionStep::Exit,
            )
        } else if self.should_unmount {
            self.asks(SessionPhase::Unmounting, Notice::AllComplete, SessionStep::Unmount)
        } else {
            self.asks(SessionPhase::AwaitingEnter, Notice::AllComplete, SessionStep::AwaitEnter)
        }
    }

    /// The session after a step that can have only one outcome.
    pub open spec fn done(self) -> (Session, Notice, SessionStep) {
        match self.phase {
            SessionPhase::Restoring => (Session { resumed: true, ..self }).asks(
                SessionPhase::AskingOptions,
                Notice::Resuming,
                SessionStep::AskOptions,
            ),
            SessionPhase::ClearingSaved => self.asks(
                SessionPhase::AskingOptions,
                Notice::SavedIgnored,
                SessionStep::AskOptions,
            ),
            SessionPhase::AskingMappings => self.asks(
                SessionPhase::Enqueueing,
                Notice::Nothing,
                SessionStep::EnqueueMappings,
            ),
            SessionPhase::StartingWatch => self.asks(
                SessionPhase::SavingInitial,
                Notice::Nothing,
                SessionStep::SaveCheckpoint,
            ),
            SessionPhase::Preflighting => self.asks(
                SessionPhase::SavingBefore,
                Notice::Starting,
                SessionStep::SaveCheckpoint,
            ),
            SessionPhase::SavingBefore => self.asks(
                SessionPhase::Transferring,
                Notice::Nothing,
                SessionStep::RunBatch,
            ),
            SessionPhase::Unmounting => self.asks(
                SessionPhase::AwaitingEnter,
                Notice::Nothing,
                SessionStep::AwaitEnter,
            ),
            SessionPhase::AwaitingEnter => self.asks(
                SessionPhase::Over,
                Notice::Nothing,
                SessionStep::Exit,
            ),
            _ => self.asks(SessionPhase::Looking, Notice::Nothing, SessionStep::LookAtQueue),
        }
    }

    /// The session after an event, what it tells, and what it asks for next.
    pub open spec fn next(self, event: SessionEvent) -> (Session, Notice, SessionStep) {
        match event {
            SessionEvent::Found { pending } => if pending > 0 {
                self.asks(
                    SessionPhase::AskingResume,
                    Notice::FoundInterrupted,
                    SessionStep::AskResume,
                )
            } else {
                self.asks(SessionPhase::AskingOptions, Notice::Nothing, SessionStep::AskOptions)
            },
            SessionEvent::Answer { yes } => if self.phase == SessionPhase::AskingResume {
                if yes {
                    self.asks(SessionPhase::Restoring, Notice::Nothing, SessionStep::RestoreQueue)
                } else {
                    self.asks(
                        SessionPhase::ClearingSaved,
                        Notice::Nothing,
                        SessionStep::ClearCheckpoint,
                    )
                }
            } else if yes {
                self.asks(SessionPhase::Adding, Notice::Nothing, SessionStep::AddFiles)
            } else {
                self.asks(SessionPhase::Closing, Notice::Nothing, SessionStep::LookAtQueue)
            },
            SessionEvent::Options { unmount } => {
                let chosen = Session { should_unmount: unmount, ..self };
                if self.resumed {
                    chosen.asks(SessionPhase::Looking, Notice::Nothing, SessionStep::LookAtQueue)
                } else {
                    chosen.asks(
                        SessionPhase::AskingMappings,
                        Notice::Nothing,
                        SessionStep::AskMappings,
                    )
                }
            },
            SessionEvent::Enqueued { any_destination } => if any_destination {
                self.asks(SessionPhase::SavingInitial, Notice::Nothing, SessionStep::SaveCheckpoint)
            } else {
                (Session { waiting_for_mount: true, ..self }).asks(
                    SessionPhase::StartingWatch,
                    Notice::NoDestination,
                    SessionStep::WatchMounts,
                )
            },
            SessionEvent::Batch { stopped, for_reason } => self.asks(
                (SessionPhase::SavingAfter { stopped, for_reason }),
                Notice::Nothing,
                SessionStep::SaveCheckpoint,
            ),
            SessionEvent::Added { ok } => if ok {
                self.asks(SessionPhase::SavingAdded, Notice::Nothing, SessionStep::SaveCheckpoint)
            } else {
                self.asks(SessionPhase::Closing, Notice::AddFailed, SessionStep::LookAtQueue)
            },
            SessionEvent::Queue { items, stop } => match self.phase {
                SessionPhase::Looking => self.looked(items, stop),
                SessionPhase::WaitingForMount => self.waited(items, stop),
                SessionPhase::SavingAfter { stopped, for_reason } => self.batch_over(
                    stopped,
                    for_reason,
                    items,
                    stop,
                ),
                SessionPhase::Closing => self.asks(
                    SessionPhase::Ending,
                    Notice::Nothing,
                    if items == 0 {
                        SessionStep::ClearCheckpoint
                    } else {
                        SessionStep::SaveCheckpoint
                    },
                ),
                _ => self.ended(items, stop),
            },
            SessionEvent::Done => self.done(),
        }
    }

    fn go(&mut self, phase: SessionPhase, notice: Notice, step: SessionStep) -> (r: (
        Notice,
        SessionStep,
    ))
        ensures
            (*final(self), r.0, r.1) == old(self).asks(phase, notice, step),
    {
        self.phase = phase;
        (notice, step)
    }

    fn go_on(&mut self) -> (r: (Notice, SessionStep))
        ensures
            (*final(self), r.0, r.1) == old(self).done(),
    {
        match self.phase {
            SessionPhase::Restoring => {
                self.resumed = true;
                self.go(SessionPhase::AskingOptions, Notice::Resuming, SessionStep::AskOptions)
            },
            SessionPhase::ClearingSaved => self.go(
                SessionPhase::AskingOptions,
                Notice::SavedIgnored,
                SessionStep::AskOptions,
            ),
            SessionPhase::AskingMappings => self.go(
                SessionPhase::Enqueueing,
                Notice::Nothing,
                SessionStep::EnqueueMappings,
            ),
            SessionPhase::StartingWatch => self.go(
                SessionPhase::SavingInitial,
                Notice::Nothing,
                SessionStep::SaveCheckpoint,
            ),
            SessionPhase::Preflighting => self.go(
                SessionPhase::SavingBefore,
                Notice::Starting,
                SessionStep::SaveCheckpoint,
            ),
            SessionPhase::SavingBefore => self.go(
                SessionPhase::Transferring,
                Notice::Nothing,
                SessionStep::RunBatch,
            ),
            SessionPhase::Unmounting => self.go(
                SessionPhase::AwaitingEnter,
                Notice::Nothing,
                SessionStep::AwaitEnter,
            ),
            SessionPhase::AwaitingEnter => self.go(
                SessionPhase::Over,
                Notice::Nothing,
                SessionStep::Exit,
            ),
            _ => self.go(SessionPhase::Looking, Notice::Nothing, SessionStep::LookAtQueue),
        }
    }

    fn look(&mut self, items: usize, stop: bool) -> (r: (Notice, SessionStep))
        ensures
            (*final(self), r.0, r.1) == old(self).looked(items, stop),
    {
        if stop {
            self.go(SessionPhase::Closing, Notice::Nothing, SessionStep::LookAtQueue)
        } else if items > 0 {
            self.go(SessionPhase::Preflighting, Notice::Ready, SessionStep::Preflight)
        } else if self.waiting_for_mount {
            self.go(
                SessionPhase::WaitingForMount,
                Notice::WaitingForMount,
                SessionStep::WaitForMount,
            )
        } else {
            self.go(SessionPhase::Closing, Notice::QueueEmpty, SessionStep::LookAtQueue)
        }
    }

    fn end_wait(&mut self, items: usize, stop: bool) -> (r: (Notice, SessionStep))
        ensures
            (*final(self), r.0, r.1) == old(self).waited(items, stop),
    {
        if stop {
            self.go(SessionPhase::Closing, Notice::Nothing, SessionStep::LookAtQueue)
        } else if items > 0 {
            self.waiting_for_mount = false;
            self.go(SessionPhase::Looking, Notice::DeviceDetected, SessionStep::LookAtQueue)
        } else {
            self.go(SessionPhase::WaitingForMount, Notice::Nothing, SessionStep::WaitForMount)
        }
    }

    fn end_batch(&mut self, stopped: bool, for_reason: bool, items: usize, stop: bool) -> (r: (
        Notice,
        SessionStep,
    ))
        ensures
            (*final(self), r.0, r.1) == old(self).batch_over(stopped, for_reason, items, stop),
    {
        if !stopped && !stop {
            self.go(SessionPhase::AskingMore, Notice::BatchComplete, SessionStep::AskMore)
        } else if for_reason {
            self.stopped_for_reason = true;
            self.go(SessionPhase::Closing, Notice::TransferStopped, SessionStep::LookAtQueue)
        } else if items > 0 {
            self.go(SessionPhase::Closing, Notice::Interrupted, SessionStep::LookAtQueue)
        } else {
            self.go(SessionPhase::Closing, Notice::StopAtEnd, SessionStep::LookAtQueue)
        }
    }

    fn end(&mut self, items: usize, stop: bool) -> (r: (Notice, SessionStep))
        ensures
            (*final(self), r.0, r.1) == old(self).ended(items, stop),
    {
        if stop {
            let for_reason = self.stopped_for_reason;
            self.go(
                SessionPhase::Over,
                Notice::Stopped { for_reason, pending: items > 0 },
                SessionStep::Exit,
            )
        } else if self.should_unmount {
            self.go(SessionPhase::Unmounting, Notice::AllComplete, SessionStep::Unmount)
        } else {
            self.go(SessionPhase::AwaitingEnter, Notice::AllComplete, SessionStep::AwaitEnter)
        }
    }

    /// Takes note of what came of a step, and tells the next one.
    pub fn step(&mut self, event: SessionEvent) -> (r: (Notice, SessionStep))
        requires
            old(self).expects(event),
        ensures
            (*final(self), r.0, r.1) == old(self).next(event),
    {
        match event {
            SessionEvent::Found { pending } => {
                if pending > 0 {
                    self.go(
                        SessionPhase::AskingResume,
                        Notice::FoundInterrupted,
                        SessionStep::AskResume,
                    )
                } else {
                    self.go(SessionPhase::AskingOptions, Notice::Nothing, SessionStep::AskOptions)
                }
            },
            SessionEvent::Answer { yes } => match (self.phase, yes) {
                (SessionPhase::AskingResume, true) => self.go(
                    SessionPhase::Restoring,
                    Notice::Nothing,
                    SessionStep::RestoreQueue,
                ),
                (SessionPhase::AskingResume, false) => self.go(
                    SessionPhase::ClearingSaved,
                    Notice::Nothing,
                    SessionStep::ClearCheckpoint,
                ),
                (_, true) => self.go(SessionPhase::Adding, Notice::Nothing, SessionStep::AddFiles),
                (_, false) => self.go(
                    SessionPhase::Closing,
                    Notice::Nothing,
                    SessionStep::LookAtQueue,
                ),
            },
            SessionEvent::Options { unmount } => {
                self.should_unmount = unmount;
                if self.resumed {
                    self.go(SessionPhase::Looking, Notice::Nothing, SessionStep::LookAtQueue)
                } else {
                    self.go(SessionPhase::AskingMappings, Notice::Nothing, SessionStep::AskMappings)
                }
            },
            SessionEvent::Enqueued { any_destination } => {
                if any_destination {
                    self.go(
                        SessionPhase::SavingInitial,
                        Notice::Nothing,
                        SessionStep::SaveCheckpoint,
                    )
                } else {
                    self.waiting_for_mount = true;
                    self.go(
                        SessionPhase::StartingWatch,
                        Notice::NoDestination,
                        SessionStep::WatchMounts,
                    )
                }
            },
            SessionEvent::Batch { stopped, for_reason } => self.go(
                SessionPhase::SavingAfter { stopped, for_reason },
                Notice::Nothing,
                SessionStep::SaveCheckpoint,
            ),
            SessionEvent::Added { ok } => {
                if ok {
                    self.go(SessionPhase::SavingAdded, Notice::Nothing, SessionStep::SaveCheckpoint)
                } else {
                    self.go(SessionPhase::Closing, Notice::AddFailed, SessionStep::LookAtQueue)
                }
            },
            SessionEvent::Queue { items, stop } => match self.phase {
                SessionPhase::Looking => self.look(items, stop),
                SessionPhase::WaitingForMount => self.end_wait(items, stop),
                SessionPhase::SavingAfter { stopped, for_reason } => self.end_batch(
                    stopped,
                    for_reason,
                    items,
                    stop,
                ),
                SessionPhase::Closing => {
                    if items == 0 {
                        self.go(SessionPhase::Ending, Notice::Nothing, SessionStep::ClearCheckpoint)
                    } else {
                        self.go(SessionPhase::Ending, Notice::Nothing, SessionStep::SaveCheckpoint)
                    }
                },
                _ => self.end(items, stop),
            },
            SessionEvent::Done => self.go_on(),
        }
    }
}

/// Starts a session.
pub fn run() -> (r: (Session, SessionStep))
    ensures
        r.0 == Session::started(),
        r.1 == SessionStep::LoadCheckpoint,
{
    (
        Session {
            phase: SessionPhase::LoadingCheckpoint,
            resumed: false,
            waiting_for_mount: false,
            should_unmount: false,
            stopped_for_reason: false,
        },
        SessionStep::LoadCheckpoint,
    )
}

/// What is queued is never lost: every batch is saved before it runs and after
/// it, and a session closes by saving what is left, or by removing the saved
/// queue exactly where nothing is.
pub proof fn lemma_queue_always_saved(session: Session, event: SessionEvent)
    requires
        session.expects(event),
    ensures
        ({
            let (after, notice, step) = session.next(event);
            &&& step is RunBatch ==> session.phase is SavingBefore && event is Done
            &&& after.phase is SavingBefore ==> step is SaveCheckpoint
            &&& event is Batch ==> step is SaveCheckpoint
            &&& session.phase is Closing ==> match event {
                SessionEvent::Queue { items, stop } => step == if items == 0 {
                    SessionStep::ClearCheckpoint
                } else {
                    SessionStep::SaveCheckpoint
                },
                _ => false,
            }
            &&& step is Exit || step is Unmount ==> session.phase is Ending
                || session.phase is AwaitingEnter
            &&& step is ClearCheckpoint ==> session.phase is Closing || (session.phase
                is AskingResume && event == SessionEvent::Answer { yes: false })
        }),
{
}

/// Drives are unmounted only where that was chosen and nothing stopped the
/// session.
pub proof fn lemma_unmount_only_when_complete(session: Session, event: SessionEvent)
    requires
        session.expects(event),
    ensures
        ({
            let (after, notice, step) = session.next(event);
            &&& step is Unmount ==> session.should_unmount && notice is AllComplete && (event matches
                SessionEvent::Queue { items, stop } && !stop)
            &&& after.should_unmount != session.should_unmount ==> event is Options
        }),
{
}

/// A batch runs only after its destinations were checked, with something
/// queued and no stop asked for when that was last seen.
pub proof fn lemma_batch_is_checked(session: Session, event: SessionEvent)
    requires
        session.expects(event),
    ensures
        ({
            let (after, notice, step) = session.next(event);
            &&& after.phase is SavingBefore ==> session.phase is Preflighting
            &&& step is Preflight ==> session.phase is Looking && (event matches
                SessionEvent::Queue { items, stop } && items > 0 && !stop)
        }),
{
}

/// A wait for a device ends only with something queued or a stop, and a session
/// that waits for none never begins one.
pub proof fn lemma_wait_ends_rightly(session: Session, event: SessionEvent)
    requires
        session.expects(event),
    ensures
        ({
            let (after, notice, step) = session.next(event);
            &&& session.phase is WaitingForMount && !(step is WaitForMount) ==> (event matches
                SessionEvent::Queue { items, stop } && (items > 0 || stop))
            &&& step is WaitForMount ==> after.phase is WaitingForMount && (event matches
                SessionEvent::Queue { items, stop } && items == 0 && !stop)
            &&& step is WaitForMount && session.phase is Looking ==> session.waiting_for_mount
        }),
{
}

/// Whether a look found so many items, with a stop or without.
pub open spec fn saw(event: SessionEvent, some: bool, stop: bool) -> bool {
    event matches SessionEvent::Queue { items, stop: asked } && (items > 0) == some && asked
        == stop
}

/// Whether a stop was seen.
pub open spec fn saw_stop(event: SessionEvent) -> bool {
    event matches SessionEvent::Queue { items, stop } && stop
}

/// How a session begins and goes on to its first batch: an interrupted queue is
/// offered, restored exactly where the user wants it, and else dropped; then the
/// options, and without a restored queue the mappings, which are queued; and a
/// session whose destinations are all missing watches for a device.
pub proof fn lemma_session_opens(session: Session, event: SessionEvent)
    requires
        session.expects(event),
    ensures
        ({
            let (after, notice, step) = session.next(event);
            &&& step is AskResume <==> (event matches SessionEvent::Found { pending } && pending
                > 0)
            &&& step is RestoreQueue <==> session.phase is AskingResume && event == (
            SessionEvent::Answer { yes: true })
            &&& step is AskOptions <==> event == (SessionEvent::Found { pending: 0 })
                || session.phase is Restoring || session.phase is ClearingSaved
            &&& step is AskMappings <==> event is Options && !session.resumed
            &&& step is EnqueueMappings <==> session.phase is AskingMappings
            &&& step is WatchMounts <==> event == (SessionEvent::Enqueued {
                any_destination: false,
            })
            &&& !(step is LoadCheckpoint)
            &&& after.resumed <==> session.resumed || session.phase is Restoring
            &&& event is Options ==> after.should_unmount == event->Options_unmount
            &&& !(event is Options) ==> after.should_unmount == session.should_unmount
            &&& step is WatchMounts ==> after.waiting_for_mount
            &&& event is Found && step is AskResume ==> notice is FoundInterrupted
            &&& session.phase is Restoring ==> notice is Resuming
            &&& session.phase is ClearingSaved ==> notice is SavedIgnored
            &&& step is WatchMounts ==> notice is NoDestination
        }),
{
}

/// How batches follow each other: with something queued and no stop the
/// destinations are checked, the queue saved, and the batch run; after it the queue
/// is saved again; a batch that was not stopped is followed by the offer to add
/// files, and adding leads back to the queue.
pub proof fn lemma_session_runs_batches(session: Session, event: SessionEvent)
    requires
        session.expects(event),
    ensures
        ({
            let (after, notice, step) = session.next(event);
            &&& step is Preflight <==> session.phase is Looking && saw(event, true, false)
            &&& step is WaitForMount <==> saw(event, false, false) && (session.phase
                is WaitingForMount || (session.phase is Looking && session.waiting_for_mount))
            &&& step is RunBatch <==> session.phase is SavingBefore
            &&& step is SaveCheckpoint <==> event == (SessionEvent::Enqueued {
                any_destination: true,
            }) || session.phase is StartingWatch || session.phase is Preflighting || event is Batch
                || event == (SessionEvent::Added { ok: true }) || (session.phase is Closing && (
            event matches SessionEvent::Queue { items, .. } && items > 0))
            &&& step is AskMore <==> (session.phase matches SessionPhase::SavingAfter {
                stopped,
                ..
            } && !stopped && !saw_stop(event))
            &&& step is AddFiles <==> session.phase is AskingMore && event == (
            SessionEvent::Answer { yes: true })
            &&& after.waiting_for_mount == (event == (SessionEvent::Enqueued {
                any_destination: false,
            }) || (session.waiting_for_mount && !(session.phase is WaitingForMount && saw(
                event,
                true,
                false,
            ))))
            &&& after.phase is SavingBefore <==> session.phase is Preflighting
            &&& event matches SessionEvent::Batch { stopped, for_reason } ==> after.phase == (
            SessionPhase::SavingAfter { stopped, for_reason })
            &&& step is Preflight ==> notice is Ready
            &&& step is AskMore ==> notice is BatchComplete
            &&& session.phase is WaitingForMount && saw(event, true, false) ==> notice
                is DeviceDetected && after.phase is Looking
            &&& (session.phase is SavingInitial || session.phase is SavingAdded) ==> step
                is LookAtQueue && after.phase is Looking
        }),
{
}

/// How a session ends: it closes with a stop, an empty queue, a stopped batch, or no
/// more files; the saved queue is then cleared exactly where nothing is left; it
/// unmounts exactly where that was chosen and nothing stopped it; and what it tells
/// is whether it was stopped, why, and whether something is left.
pub proof fn lemma_session_closes(session: Session, event: SessionEvent)
    requires
        session.expects(event),
    ensures
        ({
            let (after, notice, step) = session.next(event);
            &&& after.phase is Closing <==> ((session.phase is Looking || session.phase
                is WaitingForMount) && saw_stop(event)) || (session.phase is Looking && saw(
                event,
                false,
                false,
            ) && !session.waiting_for_mount) || (session.phase matches
                SessionPhase::SavingAfter { stopped, .. } && (stopped || saw_stop(event))) || (
            session.phase is AskingMore && event == (SessionEvent::Answer { yes: false }))
                || event == (SessionEvent::Added { ok: false })
            &&& after.phase is Ending <==> session.phase is Closing
            &&& step is ClearCheckpoint <==> (session.phase is AskingResume && event == (
            SessionEvent::Answer { yes: false })) || (session.phase is Closing && (event matches
                SessionEvent::Queue { items, .. } && items == 0))
            &&& step is Unmount <==> session.phase is Ending && !saw_stop(event)
                && session.should_unmount
            &&& step is AwaitEnter <==> session.phase is Unmounting || (session.phase is Ending
                && !saw_stop(event) && !session.should_unmount)
            &&& step is Exit <==> session.phase is AwaitingEnter || (session.phase is Ending
                && saw_stop(event))
            &&& after.phase is Over <==> step is Exit
            &&& after.stopped_for_reason <==> session.stopped_for_reason || (session.phase matches
                SessionPhase::SavingAfter { stopped, for_reason } && for_reason && (stopped
                || saw_stop(event)))
            &&& notice is AllComplete <==> session.phase is Ending && !saw_stop(event)
            &&& notice is Stopped <==> session.phase is Ending && saw_stop(event)
            &&& notice matches Notice::Stopped { for_reason, pending } ==> for_reason
                == session.stopped_for_reason && (event matches SessionEvent::Queue { items, .. }
                && pending == (items > 0))
            &&& notice is TransferStopped <==> (session.phase matches SessionPhase::SavingAfter {
                stopped,
                for_reason,
            } && for_reason && (stopped || saw_stop(event)))
            &&& notice is Interrupted <==> (session.phase matches SessionPhase::SavingAfter {
                stopped,
                for_reason,
            } && !for_reason && (stopped || saw_stop(event)) && (event matches
                SessionEvent::Queue { items, .. } && items > 0))
            &&& notice is AddFailed <==> event == (SessionEvent::Added { ok: false })
        }),
{
}

} // verus!
