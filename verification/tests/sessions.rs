use transfer_plan::session::{run, Notice, Session, SessionEvent, SessionPhase, SessionStep};

fn go(session: &mut Session, event: SessionEvent, notice: Notice, step: SessionStep) {
    assert_eq!(session.step(event), (notice, step));
}

fn queue(items: usize, stop: bool) -> SessionEvent {
    SessionEvent::Queue { items, stop }
}

const DONE: SessionEvent = SessionEvent::Done;

fn begun(unmount: bool) -> Session {
    let (mut s, step) = run();
    assert_eq!(step, SessionStep::LoadCheckpoint);
    let found = SessionEvent::Found { pending: 0 };
    go(&mut s, found, Notice::Nothing, SessionStep::AskOptions);
    let options = SessionEvent::Options { unmount };
    go(&mut s, options, Notice::Nothing, SessionStep::AskMappings);
    go(&mut s, DONE, Notice::Nothing, SessionStep::EnqueueMappings);
    s
}

fn queued(unmount: bool) -> Session {
    let mut s = begun(unmount);
    let enqueued = SessionEvent::Enqueued {
        any_destination: true,
    };
    go(&mut s, enqueued, Notice::Nothing, SessionStep::SaveCheckpoint);
    go(&mut s, DONE, Notice::Nothing, SessionStep::LookAtQueue);
    s
}

fn transferred(s: &mut Session, stopped: bool, for_reason: bool) {
    go(s, queue(2, false), Notice::Ready, SessionStep::Preflight);
    go(s, DONE, Notice::Starting, SessionStep::SaveCheckpoint);
    go(s, DONE, Notice::Nothing, SessionStep::RunBatch);
    let batch = SessionEvent::Batch { stopped, for_reason };
    go(s, batch, Notice::Nothing, SessionStep::SaveCheckpoint);
}

#[test]
fn a_whole_session() {
    let mut s = queued(true);
    transferred(&mut s, false, false);
    go(&mut s, queue(0, false), Notice::BatchComplete, SessionStep::AskMore);
    let yes = SessionEvent::Answer { yes: true };
    go(&mut s, yes, Notice::Nothing, SessionStep::AddFiles);
    let added = SessionEvent::Added { ok: true };
    go(&mut s, added, Notice::Nothing, SessionStep::SaveCheckpoint);
    go(&mut s, DONE, Notice::Nothing, SessionStep::LookAtQueue);
    transferred(&mut s, false, false);
    go(&mut s, queue(0, false), Notice::BatchComplete, SessionStep::AskMore);
    let no = SessionEvent::Answer { yes: false };
    go(&mut s, no, Notice::Nothing, SessionStep::LookAtQueue);
    go(&mut s, queue(0, false), Notice::Nothing, SessionStep::ClearCheckpoint);
    go(&mut s, queue(0, false), Notice::AllComplete, SessionStep::Unmount);
    go(&mut s, DONE, Notice::Nothing, SessionStep::AwaitEnter);
    go(&mut s, DONE, Notice::Nothing, SessionStep::Exit);
    assert_eq!(s.phase, SessionPhase::Over);
}

#[test]
fn an_interrupted_session_goes_on() {
    let (mut s, _) = run();
    let found = SessionEvent::Found { pending: 3 };
    go(&mut s, found, Notice::FoundInterrupted, SessionStep::AskResume);
    let yes = SessionEvent::Answer { yes: true };
    go(&mut s, yes, Notice::Nothing, SessionStep::RestoreQueue);
    go(&mut s, DONE, Notice::Resuming, SessionStep::AskOptions);
    let options = SessionEvent::Options { unmount: false };
    go(&mut s, options, Notice::Nothing, SessionStep::LookAtQueue);
    go(&mut s, queue(3, false), Notice::Ready, SessionStep::Preflight);
}

#[test]
fn an_interrupted_session_can_be_dropped() {
    let (mut s, _) = run();
    let found = SessionEvent::Found { pending: 3 };
    go(&mut s, found, Notice::FoundInterrupted, SessionStep::AskResume);
    let no = SessionEvent::Answer { yes: false };
    go(&mut s, no, Notice::Nothing, SessionStep::ClearCheckpoint);
    go(&mut s, DONE, Notice::SavedIgnored, SessionStep::AskOptions);
    let options = SessionEvent::Options { unmount: false };
    go(&mut s, options, Notice::Nothing, SessionStep::AskMappings);
}

#[test]
fn a_session_waits_for_a_device() {
    let mut s = begun(false);
    let enqueued = SessionEvent::Enqueued {
        any_destination: false,
    };
    go(&mut s, enqueued, Notice::NoDestination, SessionStep::WatchMounts);
    go(&mut s, DONE, Notice::Nothing, SessionStep::SaveCheckpoint);
    go(&mut s, DONE, Notice::Nothing, SessionStep::LookAtQueue);
    go(&mut s, queue(0, false), Notice::WaitingForMount, SessionStep::WaitForMount);
    go(&mut s, queue(0, false), Notice::Nothing, SessionStep::WaitForMount);
    let mut stopped = s;
    go(&mut s, queue(2, false), Notice::DeviceDetected, SessionStep::LookAtQueue);
    assert!(!s.waiting_for_mount);
    transferred(&mut s, false, false);
    go(&mut stopped, queue(0, true), Notice::Nothing, SessionStep::LookAtQueue);
    go(&mut stopped, queue(0, true), Notice::Nothing, SessionStep::ClearCheckpoint);
    let notice = Notice::Stopped {
        for_reason: false,
        pending: false,
    };
    go(&mut stopped, queue(0, true), notice, SessionStep::Exit);
}

#[test]
fn a_stopped_batch_is_saved() {
    let mut s = queued(true);
    transferred(&mut s, true, false);
    go(&mut s, queue(1, true), Notice::Interrupted, SessionStep::LookAtQueue);
    go(&mut s, queue(1, true), Notice::Nothing, SessionStep::SaveCheckpoint);
    let notice = Notice::Stopped {
        for_reason: false,
        pending: true,
    };
    go(&mut s, queue(1, true), notice, SessionStep::Exit);

    let mut s = queued(true);
    transferred(&mut s, true, true);
    go(&mut s, queue(1, true), Notice::TransferStopped, SessionStep::LookAtQueue);
    go(&mut s, queue(1, true), Notice::Nothing, SessionStep::SaveCheckpoint);
    let notice = Notice::Stopped {
        for_reason: true,
        pending: true,
    };
    go(&mut s, queue(1, true), notice, SessionStep::Exit);

    let mut s = queued(false);
    transferred(&mut s, false, false);
    go(&mut s, queue(0, true), Notice::StopAtEnd, SessionStep::LookAtQueue);
}

#[test]
fn an_empty_queue_ends_the_session() {
    let mut s = queued(false);
    go(&mut s, queue(0, false), Notice::QueueEmpty, SessionStep::LookAtQueue);
    go(&mut s, queue(0, false), Notice::Nothing, SessionStep::ClearCheckpoint);
    go(&mut s, queue(0, false), Notice::AllComplete, SessionStep::AwaitEnter);
    let mut s = queued(false);
    go(&mut s, queue(5, true), Notice::Nothing, SessionStep::LookAtQueue);
}

#[test]
fn files_that_cannot_be_added_end_the_session() {
    let mut s = queued(false);
    transferred(&mut s, false, false);
    go(&mut s, queue(0, false), Notice::BatchComplete, SessionStep::AskMore);
    let yes = SessionEvent::Answer { yes: true };
    go(&mut s, yes, Notice::Nothing, SessionStep::AddFiles);
    let failed = SessionEvent::Added { ok: false };
    go(&mut s, failed, Notice::AddFailed, SessionStep::LookAtQueue);
}
