//! Unmounting a drive: by several means in turn, and with a way out where other
//! processes keep it busy.

use crate::path::{components, FilePath};
use crate::text::{
    begins, chars_of, decode_lossy, decode_strict, join_texts, joined_texts, string_of, strings,
    text_begins, trim, trimmed_text, utf8_lossy,
};
use crate::worker::text_view;
use vstd::prelude::*;
use vstd::utf8::{encode_utf8, valid_utf8};

verus! {

/// Where an attempt to unmount stands.
#[derive(Debug, Clone, Copy, PartialEq, Eq, Structural)]
pub enum UnmountPhase {
    Flushing,
    Checking,
    Finding,
    TryingUdisks,
    TryingUmount,
    Calling,
    Over,
}

/// An attempt to unmount a drive.
pub struct UnmountJob {
    phase: UnmountPhase,
    mount_point: FilePath,
    attempts: Vec<String>,
}

/// The contents of an `UnmountJob`.
pub struct UnmountView {
    pub phase: UnmountPhase,
    pub mount_point: Seq<u8>,
    /// What was tried, and why it failed.
    pub attempts: Seq<Seq<char>>,
}

impl View for UnmountJob {
    type V = UnmountView;

    closed spec fn view(&self) -> UnmountView {
        UnmountView {
            phase: self.phase,
            mount_point: self.mount_point@,
            attempts: strings(self.attempts@),
        }
    }
}

/// What an attempt asks for.
#[derive(Debug)]
pub enum UnmountStep {
    /// Bring all that was written to the devices.
    Flush,
    /// See whether the drive is mounted.
    CheckMounted,
    /// Find the device of the drive.
    FindDevice,
    /// Unmount the device with `udisksctl`.
    RunUdisks,
    /// Unmount the drive with `umount`.
    RunUmount,
    /// Let the kernel unmount the drive.
    CallUmount,
    /// The drive is unmounted.
    Succeed,
    /// The drive is not mounted.
    Skip,
    /// The drive cannot be unmounted.
    Fail(String),
}

/// The contents of an `UnmountStep`.
pub enum UnmountStepView {
    Flush,
    CheckMounted,
    FindDevice,
    RunUdisks,
    RunUmount,
    CallUmount,
    Succeed,
    Skip,
    Fail(Seq<char>),
}

impl View for UnmountStep {
    type V = UnmountStepView;

    open spec fn view(&self) -> UnmountStepView {
        match *self {
            UnmountStep::Flush => UnmountStepView::Flush,
            UnmountStep::CheckMounted => UnmountStepView::CheckMounted,
            UnmountStep::FindDevice => UnmountStepView::FindDevice,
            UnmountStep::RunUdisks => UnmountStepView::RunUdisks,
            UnmountStep::RunUmount => UnmountStepView::RunUmount,
            UnmountStep::CallUmount => UnmountStepView::CallUmount,
            UnmountStep::Succeed => UnmountStepView::Succeed,
            UnmountStep::Skip => UnmountStepView::Skip,
            UnmountStep::Fail(text) => UnmountStepView::Fail(text@),
        }
    }
}

/// What came of a step.
#[derive(Debug)]
pub enum UnmountEvent {
    Done,
    /// Whether the drive is mounted, or its device is known.
    Found(bool),
    /// The step failed, for this reason.
    Failed(String),
}

/// The contents of an `UnmountEvent`.
pub enum UnmountEventView {
    Done,
    Found(bool),
    Failed(Seq<char>),
}

impl View for UnmountEvent {
    type V = UnmountEventView;

    open spec fn view(&self) -> UnmountEventView {
        match *self {
            UnmountEvent::Done => UnmountEventView::Done,
            UnmountEvent::Found(yes) => UnmountEventView::Found(yes),
            UnmountEvent::Failed(why) => UnmountEventView::Failed(why@),
        }
    }
}

/// The message that a drive cannot be unmounted.
pub open spec fn unmount_failure(mount_point: Seq<u8>, attempts: Seq<Seq<char>>) -> Seq<char> {
    "Failed to unmount "@ + utf8_lossy(mount_point) + ". Attempts: "@ + joined_texts(
        attempts,
        " | "@,
    )
}

impl UnmountView {
    pub open spec fn to(self, phase: UnmountPhase) -> UnmountView {
        UnmountView { phase, ..self }
    }

    /// With one more attempt that failed.
    pub open spec fn tried(self, why: Seq<char>) -> UnmountView {
        UnmountView { attempts: self.attempts.push(why), ..self }
    }

    /// Whether an event answers what the attempt asked for.
    pub open spec fn expects(self, event: UnmountEventView) -> bool {
        match self.phase {
            UnmountPhase::Flushing => event is Done,
            UnmountPhase::Checking => event is Found,
            UnmountPhase::Finding => event is Found,
            UnmountPhase::Over => false,
            _ => event is Done || event is Failed,
        }
    }

    /// The attempt after an event, and what it asks for next.
    pub open spec fn next(self, event: UnmountEventView) -> (UnmountView, UnmountStepView) {
        match event {
            UnmountEventView::Done => if self.phase == UnmountPhase::Flushing {
                if valid_utf8(self.mount_point) {
                    (self.to(UnmountPhase::Checking), UnmountStepView::CheckMounted)
                } else {
                    (
                        self.to(UnmountPhase::Over),
                        UnmountStepView::Fail("Invalid mount point path"@),
                    )
                }
            } else {
                (self.to(UnmountPhase::Over), UnmountStepView::Succeed)
            },
            UnmountEventView::Found(yes) => if self.phase == UnmountPhase::Checking {
                if yes {
                    (self.to(UnmountPhase::Finding), UnmountStepView::FindDevice)
                } else {
                    (self.to(UnmountPhase::Over), UnmountStepView::Skip)
                }
            } else if yes {
                (self.to(UnmountPhase::TryingUdisks), UnmountStepView::RunUdisks)
            } else {
                (self.to(UnmountPhase::TryingUmount), UnmountStepView::RunUmount)
            },
            UnmountEventView::Failed(why) => {
                let more = self.tried(why);
                if self.phase == UnmountPhase::TryingUdisks {
                    (more.to(UnmountPhase::TryingUmount), UnmountStepView::RunUmount)
                } else if self.phase == UnmountPhase::TryingUmount {
                    (more.to(UnmountPhase::Calling), UnmountStepView::CallUmount)
                } else {
                    (
                        more.to(UnmountPhase::Over),
                        UnmountStepView::Fail(
                            unmount_failure(self.mount_point, more.attempts),
                        ),
                    )
                }
            },
        }
    }
}

impl UnmountJob {
    fn note_failure(&mut self, why: String)
        ensures
            final(self)@ == old(self)@.tried(why@),
    {
        let ghost before = strings(self.attempts@);
        self.attempts.push(why);
        assert(strings(self.attempts@) =~= before.push(why@));
    }

    /// Takes note of what came of a step, and tells the next one.
    pub fn step(&mut self, event: UnmountEvent) -> (s: UnmountStep)
        requires
            old(self)@.expects(event@),
        ensures
            (final(self)@, s@) == old(self)@.next(event@),
    {
        match event {
            UnmountEvent::Done => match self.phase {
                UnmountPhase::Flushing => {
                    if decode_strict(self.mount_point.as_bytes()).is_some() {
                        self.phase = UnmountPhase::Checking;
                        UnmountStep::CheckMounted
                    } else {
                        self.phase = UnmountPhase::Over;
                        UnmountStep::Fail("Invalid mount point path".to_owned())
                    }
                },
                _ => {
                    self.phase = UnmountPhase::Over;
                    UnmountStep::Succeed
                },
            },
            UnmountEvent::Found(yes) => match (self.phase, yes) {
                (UnmountPhase::Checking, true) => {
                    self.phase = UnmountPhase::Finding;
                    UnmountStep::FindDevice
                },
                (UnmountPhase::Checking, false) => {
                    self.phase = UnmountPhase::Over;
                    UnmountStep::Skip
                },
                (_, true) => {
                    self.phase = UnmountPhase::TryingUdisks;
                    UnmountStep::RunUdisks
                },
                (_, false) => {
                    self.phase = UnmountPhase::TryingUmount;
                    UnmountStep::RunUmount
                },
            },
            UnmountEvent::Failed(why) => {
                self.note_failure(why);
                match self.phase {
                    UnmountPhase::TryingUdisks => {
                        self.phase = UnmountPhase::TryingUmount;
                        UnmountStep::RunUmount
                    },
                    UnmountPhase::TryingUmount => {
                        self.phase = UnmountPhase::Calling;
                        UnmountStep::CallUmount
                    },
                    _ => {
                        self.phase = UnmountPhase::Over;
                        let mut text = "Failed to unmount ".to_owned();
                        text.append(decode_lossy(self.mount_point.as_bytes()).as_str());
                        text.append(". Attempts: ");
                        text.append(join_texts(&self.attempts, " | ").as_str());
                        UnmountStep::Fail(text)
                    },
                }
            },
        }
    }
}

/// Starts an attempt to unmount a drive.
pub fn unmount_drive(mount_point: &FilePath) -> (r: (UnmountJob, UnmountStep))
    ensures
        r.0@.phase == UnmountPhase::Flushing,
        r.0@.mount_point == mount_point@,
        r.0@.attempts == Seq::<Seq<char>>::empty(),
        r.1 == UnmountStep::Flush,
{
    let attempts: Vec<String> = Vec::new();
    assert(strings(attempts@) =~= Seq::<Seq<char>>::empty());
    (
        UnmountJob {
            phase: UnmountPhase::Flushing,
            mount_point: mount_point.clone(),
            attempts,
        },
        UnmountStep::Flush,
    )
}

/// How far an attempt to unmount is from its end.
pub open spec fn unmount_rank(phase: UnmountPhase) -> nat {
    match phase {
        UnmountPhase::Flushing => 6,
        UnmountPhase::Checking => 5,
        UnmountPhase::Finding => 4,
        UnmountPhase::TryingUdisks => 3,
        UnmountPhase::TryingUmount => 2,
        UnmountPhase::Calling => 1,
        UnmountPhase::Over => 0,
    }
}

/// An attempt tries each of its means at most once, the gentler ones first, and
/// gives up only after the last; what it then tells names every failure.
pub proof fn lemma_unmount_order(job: UnmountView, event: UnmountEventView)
    requires
        job.expects(event),
    ensures
        ({
            let (after, step) = job.next(event);
            &&& unmount_rank(after.phase) < unmount_rank(job.phase)
            &&& after.phase is Over <==> step is Succeed || step is Skip || step is Fail
            &&& step is Fail ==> job.phase is Calling || (job.phase is Flushing && !valid_utf8(
                job.mount_point,
            ))
            &&& after.attempts == match event {
                UnmountEventView::Failed(why) => job.attempts.push(why),
                _ => job.attempts,
            }
        }),
{
}

/// A program with its arguments.
pub open spec fn command_text(program: Seq<char>, args: Seq<Seq<char>>) -> Seq<char> {
    program + " "@ + joined_texts(args, " "@) + ": "@
}

/// What a program that failed says: what it wrote to its error output, or else
/// to its output, or else its status.
pub open spec fn command_details(stderr: Seq<u8>, stdout: Seq<u8>, status: Seq<char>) -> Seq<char> {
    let errors = trimmed_text(utf8_lossy(stderr));
    let output = trimmed_text(utf8_lossy(stdout));
    if errors.len() > 0 {
        errors
    } else if output.len() > 0 {
        output
    } else {
        "exit status "@ + status
    }
}

/// The message that a program could not be run.
pub fn command_error(program: &str, args: &Vec<String>, why: &str) -> (r: String)
    ensures
        r@ == command_text(program@, strings(args@)) + why@,
{
    let mut r = program.to_owned();
    r.append(" ");
    r.append(join_texts(args, " ").as_str());
    r.append(": ");
    r.append(why);
    r
}

/// The message that a program failed.
pub fn command_failure(
    program: &str,
    args: &Vec<String>,
    stderr: &Vec<u8>,
    stdout: &Vec<u8>,
    status: &str,
) -> (r: String)
    ensures
        r@ == command_text(program@, strings(args@)) + command_details(stderr@, stdout@, status@),
{
    let errors = trim(&chars_of(decode_lossy(stderr).as_str()));
    let output = trim(&chars_of(decode_lossy(stdout).as_str()));
    let details = if errors.len() > 0 {
        string_of(&errors)
    } else if output.len() > 0 {
        string_of(&output)
    } else {
        let mut text = "exit status ".to_owned();
        text.append(status);
        text
    };
    command_error(program, args, details.as_str())
}

/// A mounted file system, and what is mounted.
#[derive(Debug)]
pub struct MountRecord {
    pub mount_point: FilePath,
    pub source: Option<String>,
}

/// Whether a record gives the device at a place.
pub open spec fn gives_device(record: MountRecord, target: Seq<u8>) -> bool {
    &&& components(record.mount_point@) == components(target)
    &&& record.source is Some
    &&& begins(record.source->0@, "/dev/"@)
}

/// The device at a place: the first that a table gives.
pub open spec fn device_at(table: Seq<MountRecord>, target: Seq<u8>) -> Option<Seq<char>>
    decreases table.len(),
{
    if table.len() == 0 {
        None
    } else if gives_device(table[0], target) {
        Some(table[0].source->0@)
    } else {
        device_at(table.skip(1), target)
    }
}

/// The device at a place.
pub fn mount_source_for_target(table: &Vec<MountRecord>, target: &str) -> (r: Option<String>)
    ensures
        text_view(r) == device_at(table@, encode_utf8(target@)),
{
    let place = FilePath::from_text(target);
    let mut i: usize = 0;
    assert(table@.skip(0) =~= table@);
    while i < table.len()
        invariant
            i <= table@.len(),
            place@ == encode_utf8(target@),
            device_at(table@, place@) == device_at(table@.skip(i as int), place@),
        decreases table@.len() - i,
    {
        if table[i].mount_point.same_as(&place) {
            if let Some(source) = &table[i].source {
                if text_begins(source.as_str(), "/dev/") {
                    return Some(source.clone());
                }
            }
        }
        assert(table@.skip(i as int).skip(1) =~= table@.skip(i + 1));
        i = i + 1;
    }
    None
}

/// Where the safe unmounting of a drive stands.
#[derive(Debug, Clone, Copy, PartialEq, Eq, Structural)]
pub enum SafePhase {
    Unmounting,
    Detecting,
    Asking,
    Closing,
    Retrying,
    Over,
}

/// What the safe unmounting of a drive asks for.
#[derive(Debug, Clone, Copy, PartialEq, Eq, Structural)]
pub enum SafeStep {
    /// Unmount the drive.
    Unmount,
    /// Find the processes that keep it busy.
    DetectBusy,
    /// Ask whether to close them.
    AskToClose,
    /// Close them.
    CloseProcesses,
    /// Wait a moment, and unmount the drive again.
    Retry,
    /// The drive can be removed.
    Ejected,
    /// The user has to eject the drive.
    EjectManually,
}

/// What came of a step.
#[derive(Debug, Clone, Copy, PartialEq, Eq, Structural)]
pub enum SafeEvent {
    /// Whether the drive was unmounted.
    Unmounted(bool),
    /// So many processes keep it busy, as far as that can be told.
    Busy(usize),
    /// Whether they may be closed.
    Answer(bool),
    Closed,
}

impl SafePhase {
    /// Whether an event answers what was asked for.
    pub open spec fn expects(self, event: SafeEvent) -> bool {
        match self {
            SafePhase::Unmounting => event is Unmounted,
            SafePhase::Detecting => event is Busy,
            SafePhase::Asking => event is Answer,
            SafePhase::Closing => event is Closed,
            SafePhase::Retrying => event is Unmounted,
            SafePhase::Over => false,
        }
    }

    /// What follows an event.
    pub open spec fn next(self, event: SafeEvent) -> (SafePhase, SafeStep) {
        match event {
            SafeEvent::Unmounted(true) => (SafePhase::Over, SafeStep::Ejected),
            SafeEvent::Unmounted(false) => if self == SafePhase::Unmounting {
                (SafePhase::Detecting, SafeStep::DetectBusy)
            } else {
                (SafePhase::Over, SafeStep::EjectManually)
            },
            SafeEvent::Busy(n) => if n > 0 {
                (SafePhase::Asking, SafeStep::AskToClose)
            } else {
                (SafePhase::Over, SafeStep::EjectManually)
            },
            SafeEvent::Answer(true) => (SafePhase::Closing, SafeStep::CloseProcesses),
            SafeEvent::Answer(false) => (SafePhase::Over, SafeStep::EjectManually),
            SafeEvent::Closed => (SafePhase::Retrying, SafeStep::Retry),
        }
    }

    /// Takes note of what came of a step, and tells the next one.
    pub fn step(&mut self, event: SafeEvent) -> (s: SafeStep)
        requires
            old(self).expects(event),
        ensures
            (*final(self), s) == old(self).next(event),
    {
        let (phase, step) = match event {
            SafeEvent::Unmounted(true) => (SafePhase::Over, SafeStep::Ejected),
            SafeEvent::Unmounted(false) => match self {
                SafePhase::Unmounting => (SafePhase::Detecting, SafeStep::DetectBusy),
                _ => (SafePhase::Over, SafeStep::EjectManually),
            },
            SafeEvent::Busy(n) => {
                if n > 0 {
                    (SafePhase::Asking, SafeStep::AskToClose)
                } else {
                    (SafePhase::Over, SafeStep::EjectManually)
                }
            },
            SafeEvent::Answer(true) => (SafePhase::Closing, SafeStep::CloseProcesses),
            SafeEvent::Answer(false) => (SafePhase::Over, SafeStep::EjectManually),
            SafeEvent::Closed => (SafePhase::Retrying, SafeStep::Retry),
        };
        *self = phase;
        step
    }
}

/// Starts the safe unmounting of a drive.
pub fn safe_unmount() -> (r: (SafePhase, SafeStep))
    ensures
        r == (SafePhase::Unmounting, SafeStep::Unmount),
{
    (SafePhase::Unmounting, SafeStep::Unmount)
}

/// Processes are closed only where the user agreed, and a drive counts as
/// ejected only where it was unmounted; a refusal at any point is answered by
/// asking the user to eject the drive.
pub proof fn lemma_safe_unmount(phase: SafePhase, event: SafeEvent)
    requires
        phase.expects(event),
    ensures
        ({
            let (after, step) = phase.next(event);
            &&& step is CloseProcesses ==> phase is Asking && event == SafeEvent::Answer(true)
            &&& step is Ejected <==> event == SafeEvent::Unmounted(true)
            &&& step is EjectManually ==> event == SafeEvent::Unmounted(false) || event
                == SafeEvent::Busy(0) || event == SafeEvent::Answer(false)
            &&& after is Over <==> step is Ejected || step is EjectManually
        }),
{
}

/// The first means that succeeds ends the attempt, and nothing else counts as a
/// success; each further means is asked for only when the one before it failed,
/// and the first of them by whether the device is known.
pub proof fn lemma_first_success_ends(job: UnmountView, event: UnmountEventView)
    requires
        job.expects(event),
    ensures
        ({
            let (after, step) = job.next(event);
            let trying = job.phase is TryingUdisks || job.phase is TryingUmount || job.phase
                is Calling;
            &&& step is Succeed <==> trying && event is Done
            &&& step is RunUdisks <==> job.phase is Finding && event
                == UnmountEventView::Found(true)
            &&& step is RunUmount <==> (job.phase is Finding && event
                == UnmountEventView::Found(false)) || (job.phase is TryingUdisks
                && event is Failed)
            &&& step is CallUmount <==> job.phase is TryingUmount && event is Failed
            &&& (job.phase is Calling && event is Failed) ==> step is Fail
            &&& after.phase is TryingUdisks <==> step is RunUdisks
            &&& after.phase is TryingUmount <==> step is RunUmount
            &&& after.phase is Calling <==> step is CallUmount
        }),
{
}

/// A drive is left alone exactly where it is not mounted, which is looked at after
/// all that was written is on the devices; and the drive that is worked on stays
/// the same.
pub proof fn lemma_only_mounted_drives(job: UnmountView, event: UnmountEventView)
    requires
        job.expects(event),
    ensures
        ({
            let (after, step) = job.next(event);
            &&& step is Skip <==> job.phase is Checking && event == UnmountEventView::Found(false)
            &&& step is FindDevice <==> job.phase is Checking && event
                == UnmountEventView::Found(true)
            &&& step is CheckMounted <==> job.phase is Flushing && valid_utf8(job.mount_point)
            &&& step is Fail <==> (job.phase is Calling && event is Failed) || (job.phase
                is Flushing && !valid_utf8(job.mount_point))
            &&& !(step is Flush)
            &&& after.phase is Checking <==> step is CheckMounted
            &&& after.phase is Finding <==> step is FindDevice
            &&& after.mount_point == job.mount_point
        }),
{
}

/// Each answer on the way to a safe removal has just one consequence.
pub proof fn lemma_safe_answers(phase: SafePhase, event: SafeEvent)
    requires
        phase.expects(event),
    ensures
        ({
            let (after, step) = phase.next(event);
            &&& step is DetectBusy <==> phase is Unmounting && event == SafeEvent::Unmounted(
                false,
            )
            &&& step is AskToClose <==> (event matches SafeEvent::Busy(n) && n > 0)
            &&& step is CloseProcesses <==> event == SafeEvent::Answer(true)
            &&& step is Retry <==> event is Closed
            &&& step is EjectManually <==> (phase is Retrying && event == SafeEvent::Unmounted(
                false,
            )) || event == SafeEvent::Busy(0) || event == SafeEvent::Answer(false)
            &&& !(step is Unmount)
            &&& after is Detecting <==> step is DetectBusy
            &&& after is Asking <==> step is AskToClose
            &&& after is Closing <==> step is CloseProcesses
            &&& after is Retrying <==> step is Retry
        }),
{
}

/// The device at a place is that of a record about the place, and of no later one
/// than the first that names a device; there is none only where no record does.
pub proof fn lemma_device_of_first_record(table: Seq<MountRecord>, target: Seq<u8>, k: int)
    requires
        0 <= k < table.len(),
        components(table[k].mount_point@) == components(target),
        table[k].source is Some,
        begins(table[k].source->0@, "/dev/"@),
    ensures
        device_at(table, target) is Some,
        exists|i: int|
            0 <= i <= k && components((#[trigger] table[i]).mount_point@) == components(target)
                && table[i].source is Some && begins(table[i].source->0@, "/dev/"@) && device_at(
                table,
                target,
            ) == Some(table[i].source->0@),
    decreases table.len(),
{
    if gives_device(table[0], target) {
        assert(device_at(table, target) == Some(table[0].source->0@));
    } else {
        let rest = table.skip(1);
        assert(rest[k - 1] == table[k]);
        lemma_device_of_first_record(rest, target, k - 1);
        let i = choose|i: int|
            0 <= i <= k - 1 && components((#[trigger] rest[i]).mount_point@) == components(target)
                && rest[i].source is Some && begins(rest[i].source->0@, "/dev/"@) && device_at(
                rest,
                target,
            ) == Some(rest[i].source->0@);
        assert(table[i + 1] == rest[i]);
    }
}

/// What is found as the device at a place stands in a record about the place.
pub proof fn lemma_device_is_recorded(table: Seq<MountRecord>, target: Seq<u8>)
    ensures
        device_at(table, target) is Some ==> exists|i: int|
            0 <= i < table.len() && components((#[trigger] table[i]).mount_point@) == components(
                target,
            ) && table[i].source is Some && begins(table[i].source->0@, "/dev/"@) && device_at(
                table,
                target,
            ) == Some(table[i].source->0@),
    decreases table.len(),
{
    if table.len() > 0 {
        if gives_device(table[0], target) {
            assert(device_at(table, target) == Some(table[0].source->0@));
        } else if device_at(table, target) is Some {
            let rest = table.skip(1);
            lemma_device_is_recorded(rest, target);
            let i = choose|i: int|
                0 <= i < rest.len() && components((#[trigger] rest[i]).mount_point@) == components(
                    target,
                ) && rest[i].source is Some && begins(rest[i].source->0@, "/dev/"@) && device_at(
                    rest,
                    target,
                ) == Some(rest[i].source->0@);
            assert(table[i + 1] == rest[i]);
        }
    }
}

/// What is told of a command that failed: what it wrote as errors, or else as output,
/// without space around, or else its status.
pub proof fn lemma_command_details(stderr: Seq<u8>, stdout: Seq<u8>, status: Seq<char>)
    ensures
        trimmed_text(utf8_lossy(stderr)).len() > 0 ==> command_details(stderr, stdout, status)
            == trimmed_text(utf8_lossy(stderr)),
        trimmed_text(utf8_lossy(stderr)).len() == 0 && trimmed_text(utf8_lossy(stdout)).len() > 0
            ==> command_details(stderr, stdout, status) == trimmed_text(utf8_lossy(stdout)),
        trimmed_text(utf8_lossy(stderr)).len() == 0 && trimmed_text(utf8_lossy(stdout)).len() == 0
            ==> command_details(stderr, stdout, status) == "exit status "@ + status,
{
}

/// What is told of a drive that stays mounted: its place, and each attempt in order;
/// and what is told of a command begins with its line.
pub proof fn lemma_unmount_failure(
    mount_point: Seq<u8>,
    attempts: Seq<Seq<char>>,
    program: Seq<char>,
    args: Seq<Seq<char>>,
)
    ensures
        unmount_failure(mount_point, attempts) == "Failed to unmount "@ + utf8_lossy(mount_point)
            + ". Attempts: "@ + joined_texts(attempts, " | "@),
        command_text(program, args) == program + " "@ + joined_texts(args, " "@) + ": "@,
{
}

} // verus!
