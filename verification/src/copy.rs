//! Copying one file: in the kernel or through buffers, into a temporary file
//! that takes the place of the destination when it is complete, with retries.

use crate::fields::{last_field, lemma_last_field, lemma_last_field_unique};
use crate::path::{
    absolute, components, current_component, file_name_of, joined, lemma_joined_components,
    parent_of, root_component, FilePath, SLASH,
};
use crate::pathset::{holds, with_path, PathSet};
use crate::progress::{
    completed, count_bytes, counted, finish_with_overall_sync, rollback_file_attempt_progress,
    rolled_back, Bar, Tally,
};
use crate::text::{ascii_among, decimal, decimal_text, decode_lossy, is_digit, utf8_lossy};
use crate::verify::VERIFICATION_SIZE_LIMIT;
use vstd::prelude::*;
use vstd::utf8::{decode_utf8, encode_utf8, valid_utf8};

verus! {

/// The buffer for files of up to a megabyte.
pub const SMALL_BUFFER: usize = 65536;

/// The buffer for files of up to ten megabytes.
pub const MEDIUM_BUFFER: usize = 524288;

/// The buffer for files of up to a hundred megabytes.
pub const LARGE_BUFFER: usize = 2097152;

/// The buffer for larger files.
pub const XLARGE_BUFFER: usize = 8388608;

/// From this size on a file is first tried in the kernel.
pub const COPY_FILE_RANGE_THRESHOLD: u64 = 4194304;

/// How much the kernel is asked to copy at once.
pub const COPY_FILE_RANGE_CHUNK_SIZE: u64 = 134217728;

/// How many times a failed copy is tried again.
pub const MAX_RETRIES: usize = 3;

/// The time before the first retry; each further one waits twice as long.
pub const RETRY_BASE_DELAY_MS: u64 = 1000;

/// How many prepared directories are remembered.
pub const PREPARED_PARENT_DIR_CACHE_LIMIT: usize = 8192;

/// The buffer for a file of a given size.
pub open spec fn buffer_for(file_size: u64) -> usize {
    if file_size <= 1048576 {
        SMALL_BUFFER
    } else if file_size <= 10485760 {
        MEDIUM_BUFFER
    } else if file_size <= 104857600 {
        LARGE_BUFFER
    } else {
        XLARGE_BUFFER
    }
}

/// The buffer for a file of a given size.
pub fn optimal_buffer_size(file_size: u64) -> (r: usize)
    ensures
        r == buffer_for(file_size),
{
    if file_size <= 1_048_576 {
        SMALL_BUFFER
    } else if file_size <= 10_485_760 {
        MEDIUM_BUFFER
    } else if file_size <= 104_857_600 {
        LARGE_BUFFER
    } else {
        XLARGE_BUFFER
    }
}

/// Why a destination has no place for a temporary file.
#[derive(Debug, Clone, Copy, PartialEq, Eq, Structural)]
pub enum PlaceError {
    /// The destination stands in no directory.
    NoParent,
    /// The destination ends in no name.
    NoFileName,
}

impl PlaceError {
    /// The message of an error.
    pub open spec fn text(self) -> Seq<char> {
        match self {
            PlaceError::NoParent => "Destination has no parent directory"@,
            PlaceError::NoFileName => "Destination has no file name"@,
        }
    }

    /// The message of an error.
    pub fn message(&self) -> (r: String)
        ensures
            r@ == self.text(),
    {
        match self {
            PlaceError::NoParent => "Destination has no parent directory".to_owned(),
            PlaceError::NoFileName => "Destination has no file name".to_owned(),
        }
    }
}

/// The name of a temporary file for a file of the given name.
pub open spec fn temp_name(name: Seq<u8>, nonce: nat) -> Seq<u8> {
    encode_utf8("."@ + utf8_lossy(name) + ".part."@ + decimal(nonce))
}

/// The temporary file for a destination: hidden, next to it.
pub open spec fn temp_path(destination: Seq<u8>, nonce: nat) -> Result<Seq<u8>, PlaceError> {
    if parent_of(destination) is None {
        Err(PlaceError::NoParent)
    } else if file_name_of(destination) is None {
        Err(PlaceError::NoFileName)
    } else {
        Ok(joined(parent_of(destination)->0, temp_name(file_name_of(destination)->0, nonce)))
    }
}

/// Whether `p` is the file `name` in the directory of `destination`, and not
/// `destination` itself.
pub open spec fn beside(p: Seq<u8>, destination: Seq<u8>, name: Seq<u8>) -> bool {
    &&& components(p) == components(parent_of(destination)->0).push(name)
    &&& file_name_of(destination) != Some(name)
}

/// The temporary file for a destination. The nonce tells one attempt from
/// another. It stands in the directory of the destination under another name, so
/// that a rename can put it in its place.
pub fn temp_destination_path(destination: &FilePath, nonce: u128) -> (r: Result<
    FilePath,
    PlaceError,
>)
    ensures
        match r {
            Ok(p) => {
                &&& temp_path(destination@, nonce as nat) == Ok::<Seq<u8>, PlaceError>(p@)
                &&& beside(
                    p@,
                    destination@,
                    temp_name(file_name_of(destination@)->0, nonce as nat),
                )
            },
            Err(e) => temp_path(destination@, nonce as nat) == Err::<Seq<u8>, PlaceError>(e),
        },
{
    let parent = match destination.parent() {
        Some(parent) => parent,
        None => {
            return Err(PlaceError::NoParent);
        },
    };
    let name = match destination.file_name() {
        Some(name) => name,
        None => {
            return Err(PlaceError::NoFileName);
        },
    };
    let mut text = ".".to_owned();
    let shown = decode_lossy(&name);
    text.append(shown.as_str());
    text.append(".part.");
    text.append(decimal_text(nonce).as_str());
    proof {
        lemma_temp_next_to_destination(destination@, nonce as nat);
    }
    Ok(parent.join(&FilePath::from_text(text.as_str())))
}

/// A directory is remembered; a full memory starts again with it.
pub open spec fn remembered(prepared: Seq<Seq<u8>>, parent: Seq<u8>) -> Seq<Seq<u8>> {
    if prepared.len() >= PREPARED_PARENT_DIR_CACHE_LIMIT {
        seq![parent]
    } else {
        with_path(prepared, parent)
    }
}

/// Remembers that a directory exists.
pub fn remember_parent(prepared: &mut PathSet, parent: FilePath)
    requires
        old(prepared).wf(),
        old(prepared)@.len() <= PREPARED_PARENT_DIR_CACHE_LIMIT,
    ensures
        final(prepared).wf(),
        final(prepared)@.len() <= PREPARED_PARENT_DIR_CACHE_LIMIT,
        final(prepared)@ == remembered(old(prepared)@, parent@),
        holds(final(prepared)@, parent@),
{
    if prepared.len() >= PREPARED_PARENT_DIR_CACHE_LIMIT {
        prepared.clear();
        assert(!holds(prepared@, parent@));
    }
    let ghost before = prepared@;
    let _ = prepared.insert(parent);
    proof {
        crate::pathset::lemma_holds_push(before, parent@, parent@);
        if before.len() == 0 {
            assert(before.push(parent@) =~= seq![parent@]);
        }
    }
}

/// What has to be done for the directory of a destination.
#[derive(Debug, Clone, Copy, PartialEq, Eq, Structural)]
pub enum ParentNeed {
    /// The destination has none.
    Absent,
    /// It is known to exist.
    Prepared,
    /// It has to be created.
    Create,
}

/// What has to be done for the directory of a destination.
pub open spec fn parent_need(destination: Seq<u8>, prepared: Seq<Seq<u8>>) -> ParentNeed {
    match parent_of(destination) {
        None => ParentNeed::Absent,
        Some(parent) => if holds(prepared, parent) {
            ParentNeed::Prepared
        } else {
            ParentNeed::Create
        },
    }
}

/// What has to be done for the directory of a destination.
pub fn ensure_parent_directory(destination: &FilePath, prepared: &PathSet) -> (r: ParentNeed)
    ensures
        r == parent_need(destination@, prepared@),
{
    match destination.parent() {
        None => ParentNeed::Absent,
        Some(parent) => if prepared.contains(&parent) {
            ParentNeed::Prepared
        } else {
            ParentNeed::Create
        },
    }
}

/// How a file is copied.
#[derive(Debug, Clone, Copy, PartialEq, Eq, Structural)]
pub enum Method {
    /// In the kernel, range by range.
    Range,
    /// Through buffers.
    Stream,
}

/// Why an attempt at a file failed.
#[derive(Debug, Clone, Copy, PartialEq, Eq, Structural)]
pub enum CopyFailure {
    /// The destination has no place for a temporary file.
    Place(PlaceError),
    /// Its directory cannot be created.
    PrepareParent,
    /// The source cannot be opened.
    OpenSource,
    /// The temporary file cannot be created.
    CreateTemp,
    /// The kernel cannot copy between these files.
    ZeroCopyUnavailable,
    /// The kernel failed at a range.
    RangeError,
    /// The source ended too early.
    UnexpectedEof {
        /// The bytes that were still to come.
        remaining: u64,
    },
    /// Reading or writing failed.
    StreamError,
    /// The destination is in the way and cannot be removed.
    Replace,
    /// The temporary file cannot be moved to the destination.
    Move,
}

/// How the paths of an attempt, and the last error that it met, are written.
#[derive(Debug)]
pub struct AttemptWords {
    /// The directory of the destination.
    pub directory: String,
    pub source: String,
    /// The temporary file.
    pub temp: String,
    pub destination: String,
    pub error: String,
}

impl CopyFailure {
    /// The message of a failure.
    pub open spec fn text(self, words: AttemptWords) -> Seq<char> {
        match self {
            CopyFailure::Place(e) => e.text(),
            CopyFailure::PrepareParent => "Failed to create directory "@ + words.directory@,
            CopyFailure::OpenSource => "Failed to open source file "@ + words.source@,
            CopyFailure::CreateTemp => "Failed to create destination file "@ + words.temp@,
            CopyFailure::ZeroCopyUnavailable => "zero-copy unavailable"@,
            CopyFailure::RangeError => "copy_file_range error: "@ + words.error@,
            CopyFailure::UnexpectedEof { remaining } => "Unexpected EOF: "@ + decimal(
                remaining as nat,
            ) + " bytes remaining"@,
            CopyFailure::StreamError => words.error@,
            CopyFailure::Replace => "Failed to replace existing destination file "@
                + words.destination@,
            CopyFailure::Move => "Failed to atomically move "@ + words.temp@ + " to "@
                + words.destination@,
        }
    }

    /// The message of a failure.
    pub fn message(&self, words: &AttemptWords) -> (r: String)
        ensures
            r@ == self.text(*words),
    {
        match self {
            CopyFailure::Place(e) => e.message(),
            CopyFailure::PrepareParent => with_word(
                "Failed to create directory ",
                words.directory.as_str(),
            ),
            CopyFailure::OpenSource => with_word(
                "Failed to open source file ",
                words.source.as_str(),
            ),
            CopyFailure::CreateTemp => with_word(
                "Failed to create destination file ",
                words.temp.as_str(),
            ),
            CopyFailure::ZeroCopyUnavailable => "zero-copy unavailable".to_owned(),
            CopyFailure::RangeError => with_word("copy_file_range error: ", words.error.as_str()),
            CopyFailure::UnexpectedEof { remaining } => {
                let mut r = with_word(
                    "Unexpected EOF: ",
                    decimal_text(*remaining as u128).as_str(),
                );
                r.append(" bytes remaining");
                r
            },
            CopyFailure::StreamError => words.error.as_str().to_owned(),
            CopyFailure::Replace => with_word(
                "Failed to replace existing destination file ",
                words.destination.as_str(),
            ),
            CopyFailure::Move => {
                let mut r = with_word("Failed to atomically move ", words.temp.as_str());
                r.append(" to ");
                r.append(words.destination.as_str());
                r
            },
        }
    }
}

fn with_word(text: &str, word: &str) -> (r: String)
    ensures
        r@ == text@ + word@,
{
    let mut r = text.to_owned();
    r.append(word);
    r
}

/// Where an attempt stands.
#[derive(Debug, Clone, Copy, PartialEq, Eq, Structural)]
pub enum AttemptPhase {
    Preparing,
    Opening,
    Creating,
    Transferring,
    Renaming,
    Looking,
    Replacing,
    RenamingAgain,
    /// The temporary file is removed after this failure.
    Discarding(CopyFailure),
    Over,
}

/// An attempt at a file.
#[derive(Debug, Clone, Copy, PartialEq, Eq, Structural)]
pub struct CopyAttempt {
    pub method: Method,
    pub phase: AttemptPhase,
    /// What the kernel has still to copy.
    pub remaining: u64,
}

/// What an attempt asks for.
#[derive(Debug, Clone, Copy, PartialEq, Eq, Structural)]
pub enum AttemptStep {
    /// Create the directory of the destination.
    PrepareParent,
    /// Open the source.
    OpenSource,
    /// Create the temporary file.
    CreateTemp,
    /// Let the kernel copy up to so many bytes.
    SendRange(u64),
    /// Copy the source through buffers, and flush them.
    StreamAll,
    /// Move the temporary file to the destination.
    Rename,
    /// See whether the destination exists.
    LookForDestination,
    /// Remove the destination.
    RemoveDestination,
    /// Remove the temporary file.
    RemoveTemp,
    /// The copy is complete.
    Succeed,
    /// The attempt has failed.
    Fail(CopyFailure),
}

/// What came of a step.
#[derive(Debug, Clone, Copy, PartialEq, Eq, Structural)]
pub enum AttemptEvent {
    Done,
    Failed,
    /// The kernel copied so many bytes.
    Sent(u64),
    /// The kernel cannot copy between these files.
    Unsupported,
    /// Whether the destination exists.
    Exists(bool),
}

/// The next range for the kernel.
pub open spec fn range_len(remaining: u64) -> u64 {
    if remaining <= COPY_FILE_RANGE_CHUNK_SIZE {
        remaining
    } else {
        COPY_FILE_RANGE_CHUNK_SIZE
    }
}

impl CopyAttempt {
    pub open spec fn to(self, phase: AttemptPhase) -> CopyAttempt {
        CopyAttempt { method: self.method, phase, remaining: self.remaining }
    }

    /// An attempt that has just got its directory.
    pub open spec fn placed(self, named: bool) -> (CopyAttempt, AttemptStep) {
        if named {
            (self.to(AttemptPhase::Opening), AttemptStep::OpenSource)
        } else {
            (
                self.to(AttemptPhase::Over),
                AttemptStep::Fail(CopyFailure::Place(PlaceError::NoFileName)),
            )
        }
    }

    /// The start of an attempt.
    pub open spec fn started(
        method: Method,
        file_size: u64,
        need: ParentNeed,
        named: bool,
    ) -> (CopyAttempt, AttemptStep) {
        let fresh = CopyAttempt { method, phase: AttemptPhase::Preparing, remaining: file_size };
        match need {
            ParentNeed::Absent => (
                fresh.to(AttemptPhase::Over),
                AttemptStep::Fail(CopyFailure::Place(PlaceError::NoParent)),
            ),
            ParentNeed::Create => (fresh, AttemptStep::PrepareParent),
            ParentNeed::Prepared => fresh.placed(named),
        }
    }

    /// The next range, or the end of the transfer.
    pub open spec fn transferring(self) -> (CopyAttempt, AttemptStep) {
        match self.method {
            Method::Stream => (self.to(AttemptPhase::Transferring), AttemptStep::StreamAll),
            Method::Range => if self.remaining > 0 {
                (
                    self.to(AttemptPhase::Transferring),
                    AttemptStep::SendRange(range_len(self.remaining)),
                )
            } else {
                (self.to(AttemptPhase::Renaming), AttemptStep::Rename)
            },
        }
    }

    /// A failure that leaves a temporary file to remove.
    pub open spec fn discarding(self, why: CopyFailure) -> (CopyAttempt, AttemptStep) {
        (self.to(AttemptPhase::Discarding(why)), AttemptStep::RemoveTemp)
    }

    /// Whether an event answers what the attempt asked for.
    pub open spec fn expects(self, event: AttemptEvent) -> bool {
        match self.phase {
            AttemptPhase::Over => false,
            AttemptPhase::Looking => event is Exists,
            AttemptPhase::Discarding(_) => event is Done || event is Failed,
            AttemptPhase::Transferring => if self.method == Method::Range {
                match event {
                    AttemptEvent::Sent(n) => n <= range_len(self.remaining),
                    AttemptEvent::Failed => true,
                    AttemptEvent::Unsupported => true,
                    _ => false,
                }
            } else {
                event is Done || event is Failed
            },
            _ => event is Done || event is Failed,
        }
    }

    /// The attempt after an event, what it asks for next, and the bars.
    pub open spec fn next(
        self,
        event: AttemptEvent,
        named: bool,
        file: Bar,
        tally: Tally,
    ) -> (CopyAttempt, AttemptStep, Bar, Tally) {
        match self.phase {
            AttemptPhase::Preparing => {
                let (a, s) = if event is Done {
                    self.placed(named)
                } else {
                    (self.to(AttemptPhase::Over), AttemptStep::Fail(CopyFailure::PrepareParent))
                };
                (a, s, file, tally)
            },
            AttemptPhase::Opening => {
                let (a, s) = if event is Done {
                    (self.to(AttemptPhase::Creating), AttemptStep::CreateTemp)
                } else {
                    self.discarding(CopyFailure::OpenSource)
                };
                (a, s, file, tally)
            },
            AttemptPhase::Creating => {
                let (a, s) = if event is Done {
                    self.transferring()
                } else {
                    self.discarding(CopyFailure::CreateTemp)
                };
                (a, s, file, tally)
            },
            AttemptPhase::Transferring => match event {
                AttemptEvent::Sent(n) => if n == 0 {
                    let (a, s) = self.discarding(
                        (CopyFailure::UnexpectedEof { remaining: self.remaining }),
                    );
                    (a, s, file, tally)
                } else {
                    let left = CopyAttempt {
                        method: self.method,
                        phase: self.phase,
                        remaining: (self.remaining - n) as u64,
                    };
                    let (bar, sum) = counted(file, tally, n);
                    let (a, s) = left.transferring();
                    (a, s, bar, sum)
                },
                AttemptEvent::Unsupported => {
                    let (bar, sum) = rolled_back(file, tally);
                    let (a, s) = self.discarding(CopyFailure::ZeroCopyUnavailable);
                    (a, s, bar, sum)
                },
                AttemptEvent::Done => (
                    self.to(AttemptPhase::Renaming),
                    AttemptStep::Rename,
                    file,
                    tally,
                ),
                _ => {
                    let (a, s) = self.discarding(
                        if self.method == Method::Range {
                            CopyFailure::RangeError
                        } else {
                            CopyFailure::StreamError
                        },
                    );
                    (a, s, file, tally)
                },
            },
            AttemptPhase::Renaming => if event is Done {
                let (bar, sum) = completed(file, tally);
                (self.to(AttemptPhase::Over), AttemptStep::Succeed, bar, sum)
            } else {
                (self.to(AttemptPhase::Looking), AttemptStep::LookForDestination, file, tally)
            },
            AttemptPhase::Looking => {
                let (a, s) = if event == AttemptEvent::Exists(true) {
                    (self.to(AttemptPhase::Replacing), AttemptStep::RemoveDestination)
                } else {
                    self.discarding(CopyFailure::Move)
                };
                (a, s, file, tally)
            },
            AttemptPhase::Replacing => {
                let (a, s) = if event is Done {
                    (self.to(AttemptPhase::RenamingAgain), AttemptStep::Rename)
                } else {
                    self.discarding(CopyFailure::Replace)
                };
                (a, s, file, tally)
            },
            AttemptPhase::RenamingAgain => if event is Done {
                let (bar, sum) = completed(file, tally);
                (self.to(AttemptPhase::Over), AttemptStep::Succeed, bar, sum)
            } else {
                let (a, s) = self.discarding(CopyFailure::Move);
                (a, s, file, tally)
            },
            AttemptPhase::Discarding(why) => (
                self.to(AttemptPhase::Over),
                AttemptStep::Fail(why),
                file,
                tally,
            ),
            AttemptPhase::Over => (self, AttemptStep::Succeed, file, tally),
        }
    }

    fn place(&mut self, named: bool) -> (s: AttemptStep)
        ensures
            (*final(self), s) == old(self).placed(named),
    {
        if named {
            self.phase = AttemptPhase::Opening;
            AttemptStep::OpenSource
        } else {
            self.phase = AttemptPhase::Over;
            AttemptStep::Fail(CopyFailure::Place(PlaceError::NoFileName))
        }
    }

    /// Starts an attempt. `named` tells whether the destination ends in a name.
    pub fn start(method: Method, file_size: u64, need: ParentNeed, named: bool) -> (r: (
        CopyAttempt,
        AttemptStep,
    ))
        ensures
            r == CopyAttempt::started(method, file_size, need, named),
    {
        let mut attempt = CopyAttempt {
            method,
            phase: AttemptPhase::Preparing,
            remaining: file_size,
        };
        let step = match need {
            ParentNeed::Absent => {
                attempt.phase = AttemptPhase::Over;
                AttemptStep::Fail(CopyFailure::Place(PlaceError::NoParent))
            },
            ParentNeed::Create => AttemptStep::PrepareParent,
            ParentNeed::Prepared => attempt.place(named),
        };
        (attempt, step)
    }

    fn transfer(&mut self) -> (s: AttemptStep)
        ensures
            (*final(self), s) == old(self).transferring(),
    {
        match self.method {
            Method::Stream => {
                self.phase = AttemptPhase::Transferring;
                AttemptStep::StreamAll
            },
            Method::Range => {
                if self.remaining > 0 {
                    self.phase = AttemptPhase::Transferring;
                    if self.remaining <= COPY_FILE_RANGE_CHUNK_SIZE {
                        AttemptStep::SendRange(self.remaining)
                    } else {
                        AttemptStep::SendRange(COPY_FILE_RANGE_CHUNK_SIZE)
                    }
                } else {
                    self.phase = AttemptPhase::Renaming;
                    AttemptStep::Rename
                }
            },
        }
    }

    fn discard(&mut self, why: CopyFailure) -> (s: AttemptStep)
        ensures
            (*final(self), s) == old(self).discarding(why),
    {
        self.phase = AttemptPhase::Discarding(why);
        AttemptStep::RemoveTemp
    }

    fn succeed(&mut self, file: &mut Bar, tally: &mut Tally) -> (s: AttemptStep)
        ensures
            s == AttemptStep::Succeed,
            *final(self) == old(self).to(AttemptPhase::Over),
            (*final(file), *final(tally)) == completed(*old(file), *old(tally)),
    {
        self.phase = AttemptPhase::Over;
        finish_with_overall_sync(file, tally);
        AttemptStep::Succeed
    }

    /// Takes note of what came of a step, and tells the next one.
    pub fn step(
        &mut self,
        event: AttemptEvent,
        named: bool,
        file: &mut Bar,
        tally: &mut Tally,
    ) -> (s: AttemptStep)
        requires
            old(self).expects(event),
        ensures
            (*final(self), s, *final(file), *final(tally)) == old(self).next(
                event,
                named,
                *old(file),
                *old(tally),
            ),
    {
        let done = match event {
            AttemptEvent::Done => true,
            _ => false,
        };
        match self.phase {
            AttemptPhase::Preparing => {
                if done {
                    self.place(named)
                } else {
                    self.phase = AttemptPhase::Over;
                    AttemptStep::Fail(CopyFailure::PrepareParent)
                }
            },
            AttemptPhase::Opening => {
                if done {
                    self.phase = AttemptPhase::Creating;
                    AttemptStep::CreateTemp
                } else {
                    self.discard(CopyFailure::OpenSource)
                }
            },
            AttemptPhase::Creating => {
                if done {
                    self.transfer()
                } else {
                    self.discard(CopyFailure::CreateTemp)
                }
            },
            AttemptPhase::Transferring => match event {
                AttemptEvent::Sent(bytes) => {
                    if bytes == 0 {
                        let remaining = self.remaining;
                        return self.discard(CopyFailure::UnexpectedEof { remaining });
                    }
                    self.remaining = self.remaining - bytes;
                    count_bytes(file, tally, bytes);
                    self.transfer()
                },
                AttemptEvent::Unsupported => {
                    rollback_file_attempt_progress(file, tally);
                    self.discard(CopyFailure::ZeroCopyUnavailable)
                },
                AttemptEvent::Done => {
                    self.phase = AttemptPhase::Renaming;
                    AttemptStep::Rename
                },
                _ => match self.method {
                    Method::Range => self.discard(CopyFailure::RangeError),
                    Method::Stream => self.discard(CopyFailure::StreamError),
                },
            },
            AttemptPhase::Renaming => {
                if done {
                    self.succeed(file, tally)
                } else {
                    self.phase = AttemptPhase::Looking;
                    AttemptStep::LookForDestination
                }
            },
            AttemptPhase::Looking => match event {
                AttemptEvent::Exists(true) => {
                    self.phase = AttemptPhase::Replacing;
                    AttemptStep::RemoveDestination
                },
                _ => self.discard(CopyFailure::Move),
            },
            AttemptPhase::Replacing => {
                if done {
                    self.phase = AttemptPhase::RenamingAgain;
                    AttemptStep::Rename
                } else {
                    self.discard(CopyFailure::Replace)
                }
            },
            AttemptPhase::RenamingAgain => {
                if done {
                    self.succeed(file, tally)
                } else {
                    self.discard(CopyFailure::Move)
                }
            },
            AttemptPhase::Discarding(why) => {
                self.phase = AttemptPhase::Over;
                AttemptStep::Fail(why)
            },
            AttemptPhase::Over => AttemptStep::Succeed,
        }
    }
}

/// The bytes of a range copy: what its bar shows and what remains make the
/// size of the file.
pub open spec fn range_adds_up(a: CopyAttempt, file: Bar, file_size: u64) -> bool {
    a.method == Method::Range ==> file.position + a.remaining == file_size
}

/// Whether an attempt is past its transfer.
pub open spec fn past_transfer(phase: AttemptPhase) -> bool {
    phase is Renaming || phase is Looking || phase is Replacing || phase is RenamingAgain
}

/// Whether an attempt has nothing left to copy when it turns to the destination.
pub open spec fn complete_before_rename(a: CopyAttempt) -> bool {
    a.method == Method::Range && past_transfer(a.phase) ==> a.remaining == 0
}

/// The destination is left alone until the copy is complete: an attempt asks
/// for a rename, or for the removal of the destination, only when the kernel
/// has nothing left to copy, or the whole stream was written.
pub proof fn lemma_destination_last(
    a: CopyAttempt,
    event: AttemptEvent,
    named: bool,
    file: Bar,
    tally: Tally,
)
    requires
        a.expects(event),
        complete_before_rename(a),
    ensures
        ({
            let (b, step, _, _) = a.next(event, named, file, tally);
            &&& complete_before_rename(b)
            &&& step is Rename || step is RemoveDestination || step is Succeed ==> if b.method
                == Method::Range {
                b.remaining == 0
            } else {
                past_transfer(a.phase) || (a.phase is Transferring && event is Done)
            }
        }),
{
}

/// A failure leaves no temporary file behind: once one may exist, an attempt
/// fails only after it asked for the removal of that file.
pub proof fn lemma_temp_removed_on_failure(
    a: CopyAttempt,
    event: AttemptEvent,
    named: bool,
    file: Bar,
    tally: Tally,
)
    requires
        a.expects(event),
    ensures
        ({
            let (b, step, _, _) = a.next(event, named, file, tally);
            &&& step is Fail ==> a.phase is Preparing || a.phase is Discarding
            &&& b.phase is Discarding ==> step is RemoveTemp
        }),
{
}

/// What the kernel copied is what the bar shows, range by range.
pub proof fn lemma_range_adds_up(
    a: CopyAttempt,
    event: AttemptEvent,
    named: bool,
    file: Bar,
    tally: Tally,
    file_size: u64,
)
    requires
        a.expects(event),
        a.phase is Transferring,
        event is Sent,
        range_adds_up(a, file, file_size),
    ensures
        ({
            let (b, _, bar, _) = a.next(event, named, file, tally);
            range_adds_up(b, bar, file_size)
        }),
{
}

/// How far an attempt is from its end.
pub open spec fn attempt_rank(a: CopyAttempt) -> nat {
    match a.phase {
        AttemptPhase::Preparing => a.remaining as nat + 9,
        AttemptPhase::Opening => a.remaining as nat + 8,
        AttemptPhase::Creating => a.remaining as nat + 7,
        AttemptPhase::Transferring => a.remaining as nat + 6,
        AttemptPhase::Renaming => 5,
        AttemptPhase::Looking => 4,
        AttemptPhase::Replacing => 3,
        AttemptPhase::RenamingAgain => 2,
        AttemptPhase::Discarding(_) => 1,
        AttemptPhase::Over => 0,
    }
}

/// Every event brings an attempt nearer to its end, and it ends exactly with
/// success or failure.
pub proof fn lemma_attempt_ends(
    a: CopyAttempt,
    event: AttemptEvent,
    named: bool,
    file: Bar,
    tally: Tally,
)
    requires
        a.expects(event),
    ensures
        ({
            let (b, step, _, _) = a.next(event, named, file, tally);
            &&& attempt_rank(b) < attempt_rank(a)
            &&& b.phase is Over <==> step is Succeed || step is Fail
        }),
{
}

/// The time before a retry: the first waits a second, each further one twice as
/// long as the one before.
pub open spec fn backoff_ms(retry: nat) -> nat
    decreases retry,
{
    if retry <= 1 {
        RETRY_BASE_DELAY_MS as nat
    } else {
        2 * backoff_ms((retry - 1) as nat)
    }
}

/// The time before a retry.
pub fn retry_delay(retry: usize) -> (r: u64)
    requires
        1 <= retry <= MAX_RETRIES,
    ensures
        r == backoff_ms(retry as nat),
        r <= RETRY_BASE_DELAY_MS * 4,
{
    reveal_with_fuel(backoff_ms, 4);
    if retry == 1 {
        RETRY_BASE_DELAY_MS
    } else if retry == 2 {
        2 * RETRY_BASE_DELAY_MS
    } else {
        4 * RETRY_BASE_DELAY_MS
    }
}

/// Where the copying of a file stands.
#[derive(Debug, Clone, Copy, PartialEq, Eq, Structural)]
pub enum JobPhase {
    Attempting(Method),
    Verifying,
    Waiting,
    Over,
}

/// The copying of a file with its retries.
#[derive(Debug, Clone, Copy, PartialEq, Eq, Structural)]
pub struct CopyJob {
    /// The number of retries so far.
    pub attempt: usize,
    /// Whether the kernel is still tried first.
    pub use_copy_file_range: bool,
    /// Whether a copy is verified.
    pub can_verify: bool,
    pub phase: JobPhase,
}

/// Why the copying of a file failed.
#[derive(Debug, Clone, Copy, PartialEq, Eq, Structural)]
pub enum JobFailure {
    /// The last attempt failed.
    Copy(CopyFailure),
    /// The last copy differs from its source.
    Mismatch,
    /// The last copy could not be compared.
    VerifyError,
}

/// What the copying of a file asks for.
#[derive(Debug, Clone, Copy, PartialEq, Eq, Structural)]
pub enum JobStep {
    /// Make an attempt.
    Attempt(Method),
    /// The kernel cannot do it: make an attempt through buffers.
    FallBack,
    /// Compare the copy with its source.
    Verify,
    /// Wait so many milliseconds.
    Wait(u64),
    /// The file is copied.
    Complete,
    /// The file cannot be copied.
    Fail(JobFailure),
}

/// What came of a step.
#[derive(Debug, Clone, Copy, PartialEq, Eq, Structural)]
pub enum JobEvent {
    Copied,
    CopyFailed(CopyFailure),
    /// Whether the copy is as its source.
    Verified(bool),
    VerifyFailed,
    Waited,
}

impl JobFailure {
    /// The message of a copy that never came out right.
    pub open spec fn mismatch_text() -> Seq<char> {
        "Verification failed after "@ + decimal(MAX_RETRIES as nat) + " attempts"@
    }

    /// The message of a copy that never came out right.
    pub fn mismatch_message() -> (r: String)
        ensures
            r@ == JobFailure::mismatch_text(),
    {
        let mut r = "Verification failed after ".to_owned();
        r.append(decimal_text(MAX_RETRIES as u128).as_str());
        r.append(" attempts");
        r
    }
}

impl CopyJob {
    /// Whether no more retries were made than are allowed.
    pub open spec fn wf(&self) -> bool {
        &&& self.attempt <= MAX_RETRIES
        &&& self.phase is Waiting ==> self.attempt >= 1
        &&& self.phase == JobPhase::Attempting(Method::Range) ==> self.use_copy_file_range
    }

    pub open spec fn to(self, phase: JobPhase) -> CopyJob {
        CopyJob {
            attempt: self.attempt,
            use_copy_file_range: self.use_copy_file_range,
            can_verify: self.can_verify,
            phase,
        }
    }

    /// The method of the next attempt.
    pub open spec fn method(self) -> Method {
        if self.use_copy_file_range {
            Method::Range
        } else {
            Method::Stream
        }
    }

    /// The start of a job.
    pub open spec fn started(file_size: u64, verify: bool) -> CopyJob {
        let job = CopyJob {
            attempt: 0,
            use_copy_file_range: file_size >= COPY_FILE_RANGE_THRESHOLD,
            can_verify: verify && file_size <= VERIFICATION_SIZE_LIMIT,
            phase: JobPhase::Over,
        };
        job.to(JobPhase::Attempting(job.method()))
    }

    /// A copy that did not come out: another try, or the end.
    pub open spec fn retried(self, why: JobFailure) -> (CopyJob, JobStep) {
        if self.attempt == MAX_RETRIES {
            (self.to(JobPhase::Over), JobStep::Fail(why))
        } else {
            (
                CopyJob {
                    attempt: (self.attempt + 1) as usize,
                    use_copy_file_range: self.use_copy_file_range,
                    can_verify: self.can_verify,
                    phase: JobPhase::Waiting,
                },
                JobStep::Wait(backoff_ms((self.attempt + 1) as nat) as u64),
            )
        }
    }

    /// Whether an event answers what the job asked for.
    pub open spec fn expects(self, event: JobEvent) -> bool {
        match self.phase {
            JobPhase::Attempting(_) => event is Copied || event is CopyFailed,
            JobPhase::Verifying => event is Verified || event is VerifyFailed,
            JobPhase::Waiting => event is Waited,
            JobPhase::Over => false,
        }
    }

    /// The job after an event, what it asks for next, and the bars.
    pub open spec fn next(self, event: JobEvent, file: Bar, tally: Tally) -> (
        CopyJob,
        JobStep,
        Bar,
        Tally,
    ) {
        match event {
            JobEvent::Copied => if self.can_verify {
                (self.to(JobPhase::Verifying), JobStep::Verify, file, tally)
            } else {
                (self.to(JobPhase::Over), JobStep::Complete, file, tally)
            },
            JobEvent::CopyFailed(why) => if why == CopyFailure::ZeroCopyUnavailable && self.phase
                == JobPhase::Attempting(Method::Range) {
                (
                    CopyJob {
                        attempt: self.attempt,
                        use_copy_file_range: false,
                        can_verify: self.can_verify,
                        phase: JobPhase::Attempting(Method::Stream),
                    },
                    JobStep::FallBack,
                    file,
                    tally,
                )
            } else {
                let (bar, sum) = rolled_back(file, tally);
                let (job, step) = self.retried(JobFailure::Copy(why));
                (job, step, bar, sum)
            },
            JobEvent::Verified(true) => (
                self.to(JobPhase::Over),
                JobStep::Complete,
                file,
                tally,
            ),
            JobEvent::Verified(false) => {
                let (bar, sum) = rolled_back(file, tally);
                let (job, step) = self.retried(JobFailure::Mismatch);
                (job, step, bar, sum)
            },
            JobEvent::VerifyFailed => {
                let (bar, sum) = rolled_back(file, tally);
                let (job, step) = self.retried(JobFailure::VerifyError);
                (job, step, bar, sum)
            },
            JobEvent::Waited => (
                self.to(JobPhase::Attempting(self.method())),
                JobStep::Attempt(self.method()),
                file.at(0),
                tally,
            ),
        }
    }

    fn retry(&mut self, why: JobFailure, file: &mut Bar, tally: &mut Tally) -> (s: JobStep)
        requires
            old(self).attempt <= MAX_RETRIES,
        ensures
            (*final(self), s) == old(self).retried(why),
            (*final(file), *final(tally)) == rolled_back(*old(file), *old(tally)),
    {
        rollback_file_attempt_progress(file, tally);
        if self.attempt == MAX_RETRIES {
            self.phase = JobPhase::Over;
            return JobStep::Fail(why);
        }
        self.attempt = self.attempt + 1;
        self.phase = JobPhase::Waiting;
        JobStep::Wait(retry_delay(self.attempt))
    }

    /// Takes note of what came of a step, and tells the next one.
    pub fn step(&mut self, event: JobEvent, file: &mut Bar, tally: &mut Tally) -> (s: JobStep)
        requires
            old(self).wf(),
            old(self).expects(event),
        ensures
            final(self).wf(),
            (*final(self), s, *final(file), *final(tally)) == old(self).next(
                event,
                *old(file),
                *old(tally),
            ),
    {
        match event {
            JobEvent::Copied => {
                if self.can_verify {
                    self.phase = JobPhase::Verifying;
                    JobStep::Verify
                } else {
                    self.phase = JobPhase::Over;
                    JobStep::Complete
                }
            },
            JobEvent::CopyFailed(why) => match (self.phase, why) {
                (JobPhase::Attempting(Method::Range), CopyFailure::ZeroCopyUnavailable) => {
                    self.use_copy_file_range = false;
                    self.phase = JobPhase::Attempting(Method::Stream);
                    JobStep::FallBack
                },
                _ => self.retry(JobFailure::Copy(why), file, tally),
            },
            JobEvent::Verified(true) => {
                self.phase = JobPhase::Over;
                JobStep::Complete
            },
            JobEvent::Verified(false) => self.retry(JobFailure::Mismatch, file, tally),
            JobEvent::VerifyFailed => self.retry(JobFailure::VerifyError, file, tally),
            JobEvent::Waited => {
                file.reset();
                let method = if self.use_copy_file_range {
                    Method::Range
                } else {
                    Method::Stream
                };
                self.phase = JobPhase::Attempting(method);
                JobStep::Attempt(method)
            },
        }
    }
}

/// Starts the copying of a file: large ones first in the kernel, and with
/// verification where it is wanted and the file is not over its limit.
pub fn copy_file_optimized(file_size: u64, verify: bool) -> (r: (CopyJob, JobStep))
    ensures
        r.0 == CopyJob::started(file_size, verify),
        r.0.wf(),
        r.1 == JobStep::Attempt(r.0.method()),
{
    let use_copy_file_range = file_size >= COPY_FILE_RANGE_THRESHOLD;
    let method = if use_copy_file_range {
        Method::Range
    } else {
        Method::Stream
    };
    let job = CopyJob {
        attempt: 0,
        use_copy_file_range,
        can_verify: verify && file_size <= VERIFICATION_SIZE_LIMIT,
        phase: JobPhase::Attempting(method),
    };
    (job, JobStep::Attempt(method))
}

/// How far a job is from its end.
pub open spec fn job_rank(job: CopyJob) -> nat {
    let rounds = 4 * (MAX_RETRIES - job.attempt) as nat;
    match job.phase {
        JobPhase::Attempting(Method::Range) => rounds + 3,
        JobPhase::Attempting(Method::Stream) => rounds + 2,
        JobPhase::Verifying => rounds + 1,
        JobPhase::Waiting => rounds + 4,
        JobPhase::Over => 0,
    }
}

/// Every event brings a job nearer to its end, which is success or failure;
/// it never makes more attempts than the first one and its retries.
pub proof fn lemma_job_ends(job: CopyJob, event: JobEvent, file: Bar, tally: Tally)
    requires
        job.wf(),
        job.expects(event),
    ensures
        ({
            let (after, step, _, _) = job.next(event, file, tally);
            &&& after.wf()
            &&& job_rank(after) < job_rank(job)
            &&& after.phase is Over <==> step is Complete || step is Fail
            &&& step is Fail ==> job.attempt == MAX_RETRIES
            &&& step is Wait ==> after.attempt == job.attempt + 1
        }),
{
}

/// A file counts as copied only after an attempt succeeded, and where copies
/// are verified only after the copy was found to be as its source.
pub proof fn lemma_complete_only_when_copied(
    job: CopyJob,
    event: JobEvent,
    file: Bar,
    tally: Tally,
)
    requires
        job.wf(),
        job.expects(event),
        job.next(event, file, tally).1 is Complete,
    ensures
        job.can_verify ==> job.phase is Verifying && event == JobEvent::Verified(true),
        !job.can_verify ==> event is Copied || event == JobEvent::Verified(true),
{
}

/// Once the kernel turned out not to be able to copy a file it is not tried
/// again, and trying it costs no retry.
pub proof fn lemma_fallback_stays(job: CopyJob, event: JobEvent, file: Bar, tally: Tally)
    requires
        job.wf(),
        job.expects(event),
    ensures
        ({
            let (after, step, bar, sum) = job.next(event, file, tally);
            &&& !job.use_copy_file_range ==> !after.use_copy_file_range && step
                != JobStep::Attempt(Method::Range)
            &&& step is FallBack ==> after.attempt == job.attempt && !after.use_copy_file_range
                && bar == file && sum == tally
        }),
{
}

/// A job that tries again has taken its last attempt back: the file's bar is at
/// its start, and what the attempt had counted has left the count.
pub proof fn lemma_retry_takes_back(
    job: CopyJob,
    event: JobEvent,
    start: Tally,
    bytes: u64,
    length: u64,
)
    requires
        job.wf(),
        job.expects(event),
        start.copied_bytes + bytes <= u64::MAX,
    ensures
        ({
            let (file, tally) = counted((Bar { position: 0, length: Some(length) }), start, bytes);
            let (after, step, bar, sum) = job.next(event, file, tally);
            step is Wait || step is Fail ==> bar.position == 0 && sum.copied_bytes
                == start.copied_bytes
        }),
{
}

/// The bars of one file and its job agree: before an attempt nothing of the
/// file is counted, and after a complete one all of it.
pub open spec fn in_step(job: CopyJob, file: Bar, tally: Tally, before: u64, length: u64) -> bool {
    &&& file.length == Some(length)
    &&& match job.phase {
        JobPhase::Attempting(_) => file.position == 0 && tally.copied_bytes == before,
        JobPhase::Waiting => file.position == 0 && tally.copied_bytes == before,
        JobPhase::Verifying => file.position == length && tally.copied_bytes == before + length,
        JobPhase::Over => true,
    }
}

/// The bars when an event comes that was asked for: an attempt has counted some
/// bytes on its way, a complete one the whole file, and one that the kernel
/// could not make has taken its bytes back.
pub open spec fn bars_at(event: JobEvent, file: Bar, tally: Tally, bytes: u64) -> (Bar, Tally) {
    let (bar, sum) = counted(file, tally, bytes);
    match event {
        JobEvent::Copied => completed(bar, sum),
        JobEvent::CopyFailed(CopyFailure::ZeroCopyUnavailable) => rolled_back(bar, sum),
        JobEvent::CopyFailed(_) => (bar, sum),
        _ => (file, tally),
    }
}

/// The totals stay accurate, whatever goes wrong on the way: a job that
/// completes has counted exactly the length of its file, and one that fails
/// nothing, however many attempts were made and however far each of them came.
pub proof fn lemma_totals_accurate(
    job: CopyJob,
    event: JobEvent,
    file: Bar,
    tally: Tally,
    before: u64,
    length: u64,
    bytes: u64,
)
    requires
        job.wf(),
        job.expects(event),
        in_step(job, file, tally, before, length),
        before + length <= u64::MAX,
        before + bytes <= u64::MAX,
        event is Copied ==> bytes <= length,
    ensures
        ({
            let (bar, sum) = bars_at(event, file, tally, bytes);
            let (after, step, bar2, sum2) = job.next(event, bar, sum);
            &&& in_step(after, bar2, sum2, before, length)
            &&& step is Complete ==> sum2.copied_bytes == before + length && bar2.position == length
            &&& step is Fail ==> sum2.copied_bytes == before && bar2.position == 0
        }),
{
}

/// An event of a job, with the bytes that the attempt had counted by then.
pub struct JobTurn {
    pub event: JobEvent,
    pub bytes: u64,
}

/// A job and its bars after some turns, with what it asked for last.
pub open spec fn turns_end(
    job: CopyJob,
    last: JobStep,
    file: Bar,
    tally: Tally,
    turns: Seq<JobTurn>,
) -> (CopyJob, JobStep, Bar, Tally)
    decreases turns.len(),
{
    if turns.len() == 0 {
        (job, last, file, tally)
    } else {
        let (bar, sum) = bars_at(turns[0].event, file, tally, turns[0].bytes);
        let (after, step, bar2, sum2) = job.next(turns[0].event, bar, sum);
        turns_end(after, step, bar2, sum2, turns.skip(1))
    }
}

/// Whether a job expects each of some turns. A complete attempt has counted no
/// more than the length of the file, and no attempt more than 64 bits hold.
pub open spec fn turns_valid(
    job: CopyJob,
    file: Bar,
    tally: Tally,
    before: u64,
    length: u64,
    turns: Seq<JobTurn>,
) -> bool
    decreases turns.len(),
{
    if turns.len() == 0 {
        true
    } else {
        let (bar, sum) = bars_at(turns[0].event, file, tally, turns[0].bytes);
        let (after, step, bar2, sum2) = job.next(turns[0].event, bar, sum);
        &&& job.expects(turns[0].event)
        &&& before + turns[0].bytes <= u64::MAX
        &&& turns[0].event is Copied ==> turns[0].bytes <= length
        &&& turns_valid(after, bar2, sum2, before, length, turns.skip(1))
    }
}

proof fn lemma_turns_accurate(
    job: CopyJob,
    last: JobStep,
    file: Bar,
    tally: Tally,
    before: u64,
    length: u64,
    turns: Seq<JobTurn>,
)
    requires
        job.wf(),
        in_step(job, file, tally, before, length),
        before + length <= u64::MAX,
        turns_valid(job, file, tally, before, length, turns),
        last is Complete ==> tally.copied_bytes == before + length && file.position == length,
        last is Fail ==> tally.copied_bytes == before && file.position == 0,
    ensures
        ({
            let (_, end, bar, sum) = turns_end(job, last, file, tally, turns);
            &&& end is Complete ==> sum.copied_bytes == before + length && bar.position == length
            &&& end is Fail ==> sum.copied_bytes == before && bar.position == 0
        }),
    decreases turns.len(),
{
    if turns.len() > 0 {
        let event = turns[0].event;
        let bytes = turns[0].bytes;
        let (bar, sum) = bars_at(event, file, tally, bytes);
        let (after, step, bar2, sum2) = job.next(event, bar, sum);
        lemma_job_ends(job, event, bar, sum);
        lemma_totals_accurate(job, event, file, tally, before, length, bytes);
        lemma_turns_accurate(after, step, bar2, sum2, before, length, turns.skip(1));
    }
}

/// From the start of a file to its end, through whatever attempts: if it is
/// copied it has added exactly its size to the count, and if not, nothing.
pub proof fn lemma_file_totals_accurate(
    file_size: u64,
    verify: bool,
    tally: Tally,
    turns: Seq<JobTurn>,
)
    requires
        tally.copied_bytes + file_size <= u64::MAX,
        turns_valid(
            CopyJob::started(file_size, verify),
            (Bar { position: 0, length: Some(file_size) }),
            tally,
            tally.copied_bytes,
            file_size,
            turns,
        ),
    ensures
        ({
            let job = CopyJob::started(file_size, verify);
            let bar = Bar { position: 0, length: Some(file_size) };
            let (_, end, _, sum) = turns_end(
                job,
                JobStep::Attempt(job.method()),
                bar,
                tally,
                turns,
            );
            &&& end is Complete ==> sum.copied_bytes == tally.copied_bytes + file_size
            &&& end is Fail ==> sum.copied_bytes == tally.copied_bytes
        }),
{
    let job = CopyJob::started(file_size, verify);
    lemma_turns_accurate(
        job,
        JobStep::Attempt(job.method()),
        (Bar { position: 0, length: Some(file_size) }),
        tally,
        tally.copied_bytes,
        file_size,
        turns,
    );
}

/// The times that a job waits grow by a factor of two.
pub proof fn lemma_backoff_doubles(retry: nat)
    requires
        retry >= 1,
    ensures
        backoff_ms(1) == RETRY_BASE_DELAY_MS,
        backoff_ms(retry + 1) == 2 * backoff_ms(retry),
{
}

/// A job after some events, and the retries that it made on the way.
pub open spec fn job_run(job: CopyJob, events: Seq<JobEvent>, file: Bar, tally: Tally) -> (
    CopyJob,
    nat,
)
    decreases events.len(),
{
    if events.len() == 0 {
        (job, 0)
    } else {
        let (after, step, bar, sum) = job.next(events[0], file, tally);
        let (end, waits) = job_run(after, events.skip(1), bar, sum);
        (end, waits + if step is Wait {
            1nat
        } else {
            0nat
        })
    }
}

/// Whether a job expects each of some events in turn.
pub open spec fn job_trace(job: CopyJob, events: Seq<JobEvent>, file: Bar, tally: Tally) -> bool
    decreases events.len(),
{
    if events.len() == 0 {
        true
    } else {
        let (after, step, bar, sum) = job.next(events[0], file, tally);
        job.expects(events[0]) && job_trace(after, events.skip(1), bar, sum)
    }
}

/// However its attempts go, a job makes no more retries than are allowed, and
/// comes to its end within so many events.
pub proof fn lemma_retries_bounded(job: CopyJob, events: Seq<JobEvent>, file: Bar, tally: Tally)
    requires
        job.wf(),
        job_trace(job, events, file, tally),
    ensures
        job_run(job, events, file, tally).0.wf(),
        job_run(job, events, file, tally).1 == job_run(job, events, file, tally).0.attempt
            - job.attempt,
        job_run(job, events, file, tally).1 <= MAX_RETRIES,
        events.len() <= job_rank(job),
    decreases events.len(),
{
    if events.len() > 0 {
        let (after, step, bar, sum) = job.next(events[0], file, tally);
        lemma_job_ends(job, events[0], file, tally);
        lemma_retries_bounded(after, events.skip(1), bar, sum);
    }
}

/// Only a slash is encoded with a byte that is one.
proof fn lemma_encode_without_slash(s: Seq<char>)
    requires
        forall|i: int| 0 <= i < s.len() ==> (#[trigger] s[i] as u32) != 47,
    ensures
        encode_utf8(s).len() >= s.len(),
        forall|i: int| 0 <= i < encode_utf8(s).len() ==> encode_utf8(s)[i] != SLASH,
    decreases s.len(),
{
    if s.len() > 0 {
        let rest = s.drop_first();
        assert forall|i: int| 0 <= i < rest.len() implies (#[trigger] rest[i] as u32) != 47 by {
            assert(rest[i] == s[i + 1]);
        }
        lemma_encode_without_slash(rest);
        let c = s[0] as u32;
        vstd::utf8::char_is_scalar(s[0]);
        lemma_bytes_of_scalar(c);
        let first = vstd::utf8::encode_scalar(c);
        assert(encode_utf8(s) == first + encode_utf8(rest));
        assert forall|i: int| 0 <= i < encode_utf8(s).len() implies encode_utf8(s)[i] != SLASH by {
            if i < first.len() {
                assert(encode_utf8(s)[i] == first[i]);
            } else {
                assert(encode_utf8(s)[i] == encode_utf8(rest)[i - first.len()]);
            }
        }
    }
}

proof fn lemma_bytes_of_scalar(c: u32)
    requires
        c != 47,
    ensures
        vstd::utf8::encode_scalar(c).len() > 0,
        forall|i: int|
            0 <= i < vstd::utf8::encode_scalar(c).len() ==> vstd::utf8::encode_scalar(c)[i]
                != SLASH,
{
    assert(c <= 0x7F ==> (c & 0x7F) as u8 != 47) by (bit_vector)
        requires
            c != 47,
    ;
    assert((0xC0u8 | ((c >> 6) & 0x1F) as u8) != 47) by (bit_vector);
    assert((0xE0u8 | ((c >> 12) & 0x0F) as u8) != 47) by (bit_vector);
    assert((0xF0u8 | ((c >> 18) & 0x7) as u8) != 47) by (bit_vector);
    assert((0x80u8 | (c & 0x3F) as u8) != 47) by (bit_vector);
    assert((0x80u8 | ((c >> 6) & 0x3F) as u8) != 47) by (bit_vector);
    assert((0x80u8 | ((c >> 12) & 0x3F) as u8) != 47) by (bit_vector);
}

/// A component other than the root holds no slash.
pub proof fn lemma_component_without_slash(p: Seq<u8>, i: int)
    requires
        0 <= i < components(p).len(),
        components(p)[i] != root_component(),
    ensures
        components(p)[i].len() > 0,
        forall|j: int| 0 <= j < components(p)[i].len() ==> components(p)[i][j] != SLASH,
    decreases p.len(),
{
    lemma_last_field(p, SLASH);
    let start = last_field(p, SLASH);
    if start > 0 {
        let before = if start == 1 {
            seq![root_component()]
        } else {
            components(p.take(start - 1))
        };
        if i < before.len() {
            if start > 1 {
                lemma_component_without_slash(p.take(start - 1), i);
            }
        } else {
            assert(components(p)[i] == p.skip(start));
        }
    } else {
        assert(components(p)[i] == p);
    }
}

/// A name without a slash is a path of one component.
proof fn lemma_plain_name(name: Seq<u8>)
    requires
        name.len() > 0,
        forall|j: int| 0 <= j < name.len() ==> name[j] != SLASH,
    ensures
        components(name) == seq![name],
        !absolute(name),
{
    lemma_last_field_unique(name, SLASH, 0);
}

proof fn lemma_temp_next_to_destination(destination: Seq<u8>, nonce: nat)
    requires
        temp_path(destination, nonce) is Ok,
        ascii_among(utf8_lossy(file_name_of(destination)->0), file_name_of(destination)->0),
        valid_utf8(file_name_of(destination)->0) ==> utf8_lossy(file_name_of(destination)->0)
            == decode_utf8(file_name_of(destination)->0),
    ensures
        beside(
            temp_path(destination, nonce)->Ok_0,
            destination,
            temp_name(file_name_of(destination)->0, nonce),
        ),
{
    let name = file_name_of(destination)->0;
    let all = components(destination);
    lemma_component_without_slash(destination, all.len() - 1);
    reveal_strlit(".");
    reveal_strlit(".part.");
    let text = utf8_lossy(name);
    let digits = decimal(nonce);
    let chars = "."@ + text + ".part."@ + digits;
    lemma_decimal_plain(nonce);
    assert forall|i: int| 0 <= i < chars.len() implies (#[trigger] chars[i] as u32) != 47 by {
        if i == 0 {
            assert(chars[i] == "."@[0]);
        } else if i <= text.len() {
            assert(chars[i] == text[i - 1]);
            if (text[i - 1] as u32) == 47 {
                assert(name.contains(text[i - 1] as u32 as u8));
            }
        } else if i <= text.len() + 6 {
            assert(chars[i] == ".part."@[i - 1 - text.len()]);
        } else {
            assert(chars[i] == digits[i - 7 - text.len()]);
        }
    }
    let temp = temp_name(name, nonce);
    lemma_encode_without_slash(chars);
    vstd::utf8::encode_utf8_valid_utf8(chars);
    vstd::utf8::encode_utf8_decode_utf8(chars);
    if temp == name {
        assert(chars == text);
    }
    lemma_plain_name(temp);
    assert(temp != current_component());
    lemma_joined_components(parent_of(destination)->0, temp);
    assert(components(parent_of(destination)->0) + seq![temp] =~= components(
        parent_of(destination)->0,
    ).push(temp));
}

proof fn lemma_decimal_plain(n: nat)
    ensures
        forall|i: int| 0 <= i < decimal(n).len() ==> (#[trigger] decimal(n)[i] as u32) != 47,
{
    let s = decimal(n);
    assert forall|i: int| 0 <= i < s.len() implies (#[trigger] s[i] as u32) != 47 by {
        lemma_decimal_digits(n, i);
    }
}

proof fn lemma_decimal_digits(n: nat, i: int)
    requires
        0 <= i < decimal(n).len(),
    ensures
        is_digit(decimal(n)[i]),
    decreases n,
{
    if n >= 10 && i < decimal(n / 10).len() {
        lemma_decimal_digits(n / 10, i);
    }
}

/// Larger files get larger buffers: 64 KiB up to a megabyte, 512 KiB up to ten, two
/// megabytes up to a hundred, and eight beyond.
pub proof fn lemma_buffer_sizes(file_size: u64)
    ensures
        buffer_for(file_size) == 65_536 <==> file_size <= 1_048_576,
        buffer_for(file_size) == 524_288 <==> 1_048_576 < file_size <= 10_485_760,
        buffer_for(file_size) == 2_097_152 <==> 10_485_760 < file_size <= 104_857_600,
        buffer_for(file_size) == 8_388_608 <==> file_size > 104_857_600,
{
}

/// A destination has a place for a temporary file exactly where it stands in a
/// directory and ends in a name; a missing directory is told first.
pub proof fn lemma_who_has_a_temp(destination: Seq<u8>, nonce: nat)
    ensures
        temp_path(destination, nonce) is Ok <==> parent_of(destination) is Some && file_name_of(
            destination,
        ) is Some,
        temp_path(destination, nonce) == Err::<Seq<u8>, PlaceError>(PlaceError::NoParent)
            <==> parent_of(destination) is None,
        temp_path(destination, nonce) == Err::<Seq<u8>, PlaceError>(PlaceError::NoFileName)
            <==> parent_of(destination) is Some && file_name_of(destination) is None,
{
}

/// Attempts with different nonces have different temporary files.
pub proof fn lemma_temp_names_differ(name: Seq<u8>, n: nat, m: nat)
    requires
        n != m,
    ensures
        temp_name(name, n) != temp_name(name, m),
{
    let head = "."@ + utf8_lossy(name) + ".part."@;
    let (a, b) = (head + decimal(n), head + decimal(m));
    vstd::utf8::encode_utf8_decode_utf8(a);
    vstd::utf8::encode_utf8_decode_utf8(b);
    if temp_name(name, n) == temp_name(name, m) {
        assert(a == b);
        assert(a.skip(head.len() as int) =~= decimal(n));
        assert(b.skip(head.len() as int) =~= decimal(m));
        crate::text::lemma_decimal_number(n, n + m);
        crate::text::lemma_decimal_number(m, n + m);
    }
}

/// A directory is created exactly where there is one that is not known to exist;
/// one that is remembered is known from then on, with those before it until eight
/// thousand of them start again.
pub proof fn lemma_parent_needs(destination: Seq<u8>, prepared: Seq<Seq<u8>>, other: Seq<u8>)
    ensures
        parent_need(destination, prepared) is Absent <==> parent_of(destination) is None,
        parent_need(destination, prepared) is Prepared <==> parent_of(destination) is Some
            && holds(prepared, parent_of(destination)->0),
        parent_need(destination, prepared) is Create <==> parent_of(destination) is Some
            && !holds(prepared, parent_of(destination)->0),
        parent_of(destination) matches Some(parent) ==> parent_need(
            destination,
            remembered(prepared, parent),
        ) is Prepared,
        prepared.len() < 8192 && holds(prepared, other) ==> holds(
            remembered(prepared, destination),
            other,
        ),
        prepared.len() >= 8192 ==> remembered(prepared, destination).len() == 1,
{
    if let Some(parent) = parent_of(destination) {
        crate::mounts::lemma_taken_up_once(prepared, parent, parent);
        assert(seq![parent][0] == parent);
        assert(holds(seq![parent], parent));
    }
    crate::mounts::lemma_taken_up_once(prepared, other, destination);
}

/// How an attempt begins: it fails where the destination has no directory or, with
/// the directory there, no name; else the directory comes first, unless it is known.
pub proof fn lemma_attempt_begins(method: Method, file_size: u64, need: ParentNeed, named: bool)
    ensures
        ({
            let (a, step) = CopyAttempt::started(method, file_size, need, named);
            &&& a.method == method
            &&& a.remaining == file_size
            &&& step is PrepareParent <==> need is Create
            &&& step is OpenSource <==> need is Prepared && named
            &&& step == AttemptStep::Fail(CopyFailure::Place(PlaceError::NoParent)) <==> need
                is Absent
            &&& step == AttemptStep::Fail(CopyFailure::Place(PlaceError::NoFileName)) <==> need
                is Prepared && !named
            &&& a.phase is Preparing <==> step is PrepareParent
            &&& a.phase is Opening <==> step is OpenSource
            &&& a.phase is Over <==> step is Fail
        }),
{
}

/// What an attempt asks for, and when: each step follows the success of the one
/// before; the destination is removed only where the move to it failed and it
/// exists; and the copy is complete exactly when a move succeeded.
pub proof fn lemma_attempt_steps(
    a: CopyAttempt,
    event: AttemptEvent,
    named: bool,
    file: Bar,
    tally: Tally,
)
    requires
        a.expects(event),
    ensures
        ({
            let (b, step, _, _) = a.next(event, named, file, tally);
            let begun = a.phase is Creating && event is Done;
            let sent = a.phase is Transferring && event is Sent && event->Sent_0 > 0;
            let left = if sent {
                a.remaining - event->Sent_0
            } else {
                a.remaining as int
            };
            &&& step is OpenSource <==> a.phase is Preparing && event is Done && named
            &&& step is CreateTemp <==> a.phase is Opening && event is Done
            &&& step is StreamAll <==> begun && a.method is Stream
            &&& step is SendRange <==> a.method is Range && (begun || sent) && left > 0
            &&& step matches AttemptStep::SendRange(n) ==> n == if left <= 134_217_728 {
                left
            } else {
                134_217_728
            }
            &&& step is Rename <==> (a.method is Range && (begun || sent) && left == 0) || (a.phase
                is Transferring && event is Done) || (a.phase is Replacing && event is Done)
            &&& step is LookForDestination <==> a.phase is Renaming && event is Failed
            &&& step is RemoveDestination <==> a.phase is Looking && event
                == AttemptEvent::Exists(true)
            &&& step is Succeed <==> (a.phase is Renaming || a.phase is RenamingAgain) && event
                is Done
            &&& step is RemoveTemp <==> b.phase is Discarding
            &&& b.remaining == left
            &&& b.method == a.method
        }),
{
}

/// Why an attempt fails: what it tells at its end names the step that failed, and
/// with an early end of the source the bytes that were to come.
pub proof fn lemma_attempt_failures(
    a: CopyAttempt,
    event: AttemptEvent,
    named: bool,
    file: Bar,
    tally: Tally,
)
    requires
        a.expects(event),
    ensures
        ({
            let (b, step, _, _) = a.next(event, named, file, tally);
            let bad = event is Failed;
            &&& b.phase == AttemptPhase::Discarding(CopyFailure::OpenSource) <==> a.phase
                is Opening && bad
            &&& b.phase == AttemptPhase::Discarding(CopyFailure::CreateTemp) <==> a.phase
                is Creating && bad
            &&& b.phase == AttemptPhase::Discarding(CopyFailure::RangeError) <==> a.phase
                is Transferring && a.method is Range && bad
            &&& b.phase == AttemptPhase::Discarding(CopyFailure::StreamError) <==> a.phase
                is Transferring && a.method is Stream && bad
            &&& b.phase == AttemptPhase::Discarding(CopyFailure::ZeroCopyUnavailable) <==> a.phase
                is Transferring && event is Unsupported
            &&& b.phase == AttemptPhase::Discarding(
                (CopyFailure::UnexpectedEof { remaining: a.remaining }),
            ) <==> a.phase is Transferring && event == AttemptEvent::Sent(0)
            &&& b.phase == AttemptPhase::Discarding(CopyFailure::Replace) <==> a.phase
                is Replacing && bad
            &&& b.phase == AttemptPhase::Discarding(CopyFailure::Move) <==> (a.phase is Looking
                && event == AttemptEvent::Exists(false)) || (a.phase is RenamingAgain && bad)
            &&& a.phase matches AttemptPhase::Discarding(why) ==> step == AttemptStep::Fail(why)
            &&& step == AttemptStep::Fail(CopyFailure::PrepareParent) ==> (a.phase is Preparing
                && bad) || a.phase is Discarding
            &&& a.phase is Preparing && bad ==> step == AttemptStep::Fail(
                CopyFailure::PrepareParent,
            )
            &&& a.phase is Preparing && event is Done && !named ==> step == AttemptStep::Fail(
                CopyFailure::Place(PlaceError::NoFileName),
            )
        }),
{
}

/// What an attempt counts: each range with its length, a complete copy with the rest
/// of its length, nothing of one that the kernel cannot make, and else no change.
pub proof fn lemma_attempt_counts(
    a: CopyAttempt,
    event: AttemptEvent,
    named: bool,
    file: Bar,
    tally: Tally,
)
    requires
        a.expects(event),
    ensures
        ({
            let (_, step, bar, sum) = a.next(event, named, file, tally);
            let sent = a.phase is Transferring && event is Sent && event->Sent_0 > 0;
            let undone = a.phase is Transferring && event is Unsupported;
            &&& sent && tally.copied_bytes + event->Sent_0 <= u64::MAX ==> sum.copied_bytes
                == tally.copied_bytes + event->Sent_0
            &&& sent && file.position + event->Sent_0 <= u64::MAX ==> bar.position
                == file.position + event->Sent_0
            &&& undone && tally.copied_bytes >= file.position ==> bar.position == 0
                && sum.copied_bytes == tally.copied_bytes - file.position
            &&& step is Succeed && file.length is Some && file.position <= file.length->0
                && tally.copied_bytes + file.length->0 <= u64::MAX ==> bar.position
                == file.length->0 && sum.copied_bytes == tally.copied_bytes + (file.length->0
                - file.position)
            &&& !sent && !undone && !(step is Succeed) ==> bar == file && sum == tally
        }),
{
}

/// How a file's copying begins: in the kernel exactly from four megabytes on, and
/// with verification exactly where it is wanted and the file has up to ten.
pub proof fn lemma_job_begins(file_size: u64, verify: bool)
    ensures
        ({
            let job = CopyJob::started(file_size, verify);
            &&& job.attempt == 0
            &&& job.use_copy_file_range <==> file_size >= 4_194_304
            &&& job.can_verify <==> verify && file_size <= 10_485_760
            &&& job.phase == JobPhase::Attempting(
                if file_size >= 4_194_304 {
                    Method::Range
                } else {
                    Method::Stream
                },
            )
        }),
{
}

/// What follows each outcome of an attempt. A copy is verified exactly where that
/// is on, complete exactly when it is made and, with verification, found right; a
/// kernel that cannot copy is passed over at once; every other failure is tried
/// again after one, two and four seconds, and after the third retry it is final.
pub proof fn lemma_job_steps(job: CopyJob, event: JobEvent, file: Bar, tally: Tally)
    requires
        job.wf(),
        job.expects(event),
    ensures
        ({
            let (after, step, _, _) = job.next(event, file, tally);
            let passed_over = event == JobEvent::CopyFailed(CopyFailure::ZeroCopyUnavailable)
                && job.phase == JobPhase::Attempting(Method::Range);
            let failed = (event is CopyFailed && !passed_over) || event == JobEvent::Verified(
                false,
            ) || event is VerifyFailed;
            &&& step is Verify <==> event is Copied && job.can_verify
            &&& step is Complete <==> (event is Copied && !job.can_verify) || event
                == JobEvent::Verified(true)
            &&& step is FallBack <==> passed_over
            &&& step is Wait <==> failed && job.attempt < 3
            &&& step is Fail <==> failed && job.attempt == 3
            &&& step is Attempt <==> event is Waited
            &&& step matches JobStep::Attempt(method) ==> (method is Range
                <==> job.use_copy_file_range) && after.phase == JobPhase::Attempting(method)
            &&& step is Wait && job.attempt == 0 ==> step == JobStep::Wait(1000)
            &&& step is Wait && job.attempt == 1 ==> step == JobStep::Wait(2000)
            &&& step is Wait && job.attempt == 2 ==> step == JobStep::Wait(4000)
            &&& after.attempt == job.attempt + if step is Wait {
                1int
            } else {
                0int
            }
            &&& after.can_verify == job.can_verify
            &&& after.use_copy_file_range == (job.use_copy_file_range && !passed_over)
            &&& passed_over ==> after.phase == JobPhase::Attempting(Method::Stream)
            &&& after.phase is Verifying <==> step is Verify
            &&& after.phase is Waiting <==> step is Wait
        }),
{
    reveal_with_fuel(backoff_ms, 4);
}

/// Why a file's copying fails: for the reason of its last attempt.
pub proof fn lemma_job_failures(job: CopyJob, event: JobEvent, file: Bar, tally: Tally)
    requires
        job.wf(),
        job.expects(event),
        job.next(event, file, tally).1 is Fail,
    ensures
        job.next(event, file, tally).1 == JobStep::Fail(
            match event {
                JobEvent::CopyFailed(why) => JobFailure::Copy(why),
                JobEvent::Verified(_) => JobFailure::Mismatch,
                _ => JobFailure::VerifyError,
            },
        ),
{
}

/// What a file's copying takes back: all that its bar shows, whenever an attempt is
/// given up or a copy is wrong; and a new attempt begins at the start of the bar.
pub proof fn lemma_job_counts(job: CopyJob, event: JobEvent, file: Bar, tally: Tally)
    requires
        job.wf(),
        job.expects(event),
        file.position <= tally.copied_bytes,
    ensures
        ({
            let (_, step, bar, sum) = job.next(event, file, tally);
            let given_up = step is Wait || step is Fail;
            &&& given_up ==> bar.position == 0 && sum.copied_bytes == tally.copied_bytes
                - file.position
            &&& given_up && file.position > 0 ==> sum.overall.position == sum.copied_bytes
            &&& event is Waited ==> bar.position == 0 && sum == tally
            &&& !given_up && !(event is Waited) ==> bar == file && sum == tally
            &&& bar.length == file.length
        }),
{
}

/// A temporary file stands in the directory of its destination, and is not the
/// destination.
pub proof fn lemma_temp_stands_beside(p: Seq<u8>, destination: Seq<u8>, name: Seq<u8>)
    requires
        beside(p, destination, name),
    ensures
        components(p).len() == components(parent_of(destination)->0).len() + 1,
        components(p).last() == name,
        components(p).drop_last() == components(parent_of(destination)->0),
        file_name_of(destination) != Some(name),
{
    assert(components(p).drop_last() =~= components(parent_of(destination)->0));
}

/// What is told of an attempt that failed: each failure is told apart from the
/// others, with the path or the error that it came from.
pub proof fn lemma_failures_told(why: CopyFailure, words: AttemptWords)
    ensures
        why == CopyFailure::Place(PlaceError::NoParent) ==> why.text(words)
            == "Destination has no parent directory"@,
        why == CopyFailure::Place(PlaceError::NoFileName) ==> why.text(words)
            == "Destination has no file name"@,
        why is PrepareParent ==> why.text(words) == "Failed to create directory "@
            + words.directory@,
        why is OpenSource ==> why.text(words) == "Failed to open source file "@ + words.source@,
        why is CreateTemp ==> why.text(words) == "Failed to create destination file "@
            + words.temp@,
        why is ZeroCopyUnavailable ==> why.text(words) == "zero-copy unavailable"@,
        why is RangeError ==> why.text(words) == "copy_file_range error: "@ + words.error@,
        why is StreamError ==> why.text(words) == words.error@,
        why is Replace ==> why.text(words) == "Failed to replace existing destination file "@
            + words.destination@,
        why is Move ==> why.text(words) == "Failed to atomically move "@ + words.temp@ + " to "@
            + words.destination@,
        why matches CopyFailure::UnexpectedEof { remaining } ==> why.text(words)
            == "Unexpected EOF: "@ + decimal(remaining as nat) + " bytes remaining"@,
{
}

} // verus!
