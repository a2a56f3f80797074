//! How far the transfer of a file, and of all files, has come.

use vstd::prelude::*;

verus! {

/// After this many bytes the bars are brought up to date.
pub const PROGRESS_UPDATE_BYTES: u64 = 2097152;

/// After this many milliseconds the bars are brought up to date.
pub const PROGRESS_UPDATE_INTERVAL_MS: u64 = 250;

/// A progress bar: a position, and the length that it runs to if that is known.
#[derive(Debug, Clone, Copy, PartialEq, Eq, Structural)]
pub struct Bar {
    pub position: u64,
    pub length: Option<u64>,
}

/// The sum of two numbers, as far as 64 bits hold it.
pub open spec fn wrapped_sum(a: u64, b: u64) -> u64 {
    if a + b <= u64::MAX {
        (a + b) as u64
    } else {
        (a + b - 0x1_0000_0000_0000_0000) as u64
    }
}

/// The difference of two numbers, or zero.
pub open spec fn floor_difference(a: u64, b: u64) -> u64 {
    if a >= b {
        (a - b) as u64
    } else {
        0
    }
}

impl Bar {
    /// A bar that has not begun.
    pub fn new(length: u64) -> (r: Bar)
        ensures
            r.position == 0,
            r.length == Some(length),
    {
        Bar { position: 0, length: Some(length) }
    }

    /// The bar moved on.
    pub open spec fn moved(self, by: u64) -> Bar {
        Bar { position: wrapped_sum(self.position, by), length: self.length }
    }

    /// The bar at a position.
    pub open spec fn at(self, position: u64) -> Bar {
        Bar { position, length: self.length }
    }

    /// Moves the bar on.
    pub fn inc(&mut self, by: u64)
        ensures
            *final(self) == old(self).moved(by),
    {
        self.position = self.position.wrapping_add(by);
    }

    /// Moves the bar to a position.
    pub fn set_position(&mut self, position: u64)
        ensures
            *final(self) == old(self).at(position),
    {
        self.position = position;
    }

    /// Moves the bar back to its start.
    pub fn reset(&mut self)
        ensures
            *final(self) == old(self).at(0),
    {
        self.position = 0;
    }

    /// Moves the bar to its end.
    pub fn finish(&mut self)
        ensures
            *final(self) == old(self).finished(),
    {
        if let Some(length) = self.length {
            self.position = length;
        }
    }

    /// The bar at its end.
    pub open spec fn finished(self) -> Bar {
        match self.length {
            Some(length) => self.at(length),
            None => self,
        }
    }
}

/// Takes a number from a counter, which stops at zero.
pub fn atomic_saturating_sub(counter: &mut u64, value: u64)
    ensures
        *final(counter) == floor_difference(*old(counter), value),
{
    *counter = counter.saturating_sub(value);
}

/// What the transfers of all files share: the bytes copied so far, and the bar.
#[derive(Debug, Clone, Copy, PartialEq, Eq, Structural)]
pub struct Tally {
    pub copied_bytes: u64,
    pub overall: Bar,
}

/// Some bytes more in one file: its bar, the count and the common bar move on.
pub open spec fn counted(file: Bar, tally: Tally, bytes: u64) -> (Bar, Tally) {
    (
        file.moved(bytes),
        (Tally {
            copied_bytes: wrapped_sum(tally.copied_bytes, bytes),
            overall: tally.overall.moved(bytes),
        }),
    )
}

/// Counts some bytes more of a file.
pub fn count_bytes(file: &mut Bar, tally: &mut Tally, bytes: u64)
    ensures
        (*final(file), *final(tally)) == counted(*old(file), *old(tally), bytes),
{
    tally.copied_bytes = tally.copied_bytes.wrapping_add(bytes);
    file.inc(bytes);
    tally.overall.inc(bytes);
}

/// An attempt at a file taken back: what its bar shows leaves the count, the
/// common bar follows the count, and the file's bar starts again.
pub open spec fn rolled_back(file: Bar, tally: Tally) -> (Bar, Tally) {
    if file.position == 0 {
        (file, tally)
    } else {
        let left = floor_difference(tally.copied_bytes, file.position);
        (file.at(0), (Tally { copied_bytes: left, overall: tally.overall.at(left) }))
    }
}

/// Takes an attempt at a file back.
pub fn rollback_file_attempt_progress(file: &mut Bar, tally: &mut Tally)
    ensures
        (*final(file), *final(tally)) == rolled_back(*old(file), *old(tally)),
{
    let attempt_bytes = file.position;
    if attempt_bytes == 0 {
        return;
    }
    atomic_saturating_sub(&mut tally.copied_bytes, attempt_bytes);
    tally.overall.set_position(tally.copied_bytes);
    file.set_position(0);
}

/// A file completed: what its bar lacks is counted, and the bar is at its end.
pub open spec fn completed(file: Bar, tally: Tally) -> (Bar, Tally) {
    match file.length {
        None => (file, tally),
        Some(total) => {
            let (moved, sum) = counted(file, tally, floor_difference(total, file.position));
            (moved.finished(), sum)
        },
    }
}

/// Completes a file.
pub fn finish_with_overall_sync(file: &mut Bar, tally: &mut Tally)
    ensures
        (*final(file), *final(tally)) == completed(*old(file), *old(tally)),
{
    if let Some(total) = file.length {
        let remaining = total.saturating_sub(file.position);
        if remaining > 0 {
            count_bytes(file, tally, remaining);
        } else {
            assert(file.moved(0) == *file);
            assert(tally.overall.moved(0) == tally.overall);
        }
    }
    file.finish();
}

/// What stands between the reading of a file and its bars: the bytes that were
/// read and not yet counted, and when the bars were last brought up to date.
#[derive(Debug, Clone, Copy, PartialEq, Eq, Structural)]
pub struct ProgressReader {
    pub pending_bytes: u64,
    /// In nanoseconds of a clock that does not go back.
    pub last_flush: u64,
}

/// The reader and the bars after the pending bytes were counted.
pub open spec fn flushed(
    reader: ProgressReader,
    now: u64,
    file: Bar,
    tally: Tally,
) -> (ProgressReader, Bar, Tally) {
    if reader.pending_bytes == 0 {
        (reader, file, tally)
    } else {
        let (bar, sum) = counted(file, tally, reader.pending_bytes);
        ((ProgressReader { pending_bytes: 0, last_flush: now }), bar, sum)
    }
}

/// Whether the bars are due: enough bytes wait, or enough time has passed.
pub open spec fn flush_due(reader: ProgressReader, now: u64) -> bool {
    reader.pending_bytes >= PROGRESS_UPDATE_BYTES || floor_difference(now, reader.last_flush)
        >= PROGRESS_UPDATE_INTERVAL_MS * 1_000_000
}

/// The reader and the bars after `n` bytes were read; none means the end.
pub open spec fn read_on(
    reader: ProgressReader,
    n: u64,
    now: u64,
    file: Bar,
    tally: Tally,
) -> (ProgressReader, Bar, Tally) {
    let more = ProgressReader {
        pending_bytes: (reader.pending_bytes + n) as u64,
        last_flush: reader.last_flush,
    };
    if n == 0 || flush_due(more, now) {
        flushed(more, now, file, tally)
    } else {
        (more, file, tally)
    }
}

impl ProgressReader {
    /// Whether no more bytes wait than the bars may lag behind.
    pub open spec fn wf(&self) -> bool {
        self.pending_bytes < PROGRESS_UPDATE_BYTES
    }

    /// A reader at the start of a file.
    pub fn new(now: u64) -> (r: ProgressReader)
        ensures
            r.wf(),
            r.pending_bytes == 0,
            r.last_flush == now,
    {
        ProgressReader { pending_bytes: 0, last_flush: now }
    }

    /// Counts the pending bytes.
    pub fn flush_pending(&mut self, now: u64, file: &mut Bar, tally: &mut Tally)
        ensures
            (*final(self), *final(file), *final(tally)) == flushed(
                *old(self),
                now,
                *old(file),
                *old(tally),
            ),
            final(self).pending_bytes == 0,
    {
        if self.pending_bytes == 0 {
            return;
        }
        let bytes = self.pending_bytes;
        self.pending_bytes = 0;
        self.last_flush = now;
        count_bytes(file, tally, bytes);
    }

    /// Takes note that `n` bytes were read, and brings the bars up to date
    /// where that is due. A buffer holds at most `isize::MAX` bytes.
    pub fn read(&mut self, n: usize, now: u64, file: &mut Bar, tally: &mut Tally)
        requires
            old(self).wf(),
            n <= isize::MAX,
        ensures
            final(self).wf(),
            (*final(self), *final(file), *final(tally)) == read_on(
                *old(self),
                n as u64,
                now,
                *old(file),
                *old(tally),
            ),
    {
        if n == 0 {
            self.flush_pending(now, file, tally);
            return;
        }
        self.pending_bytes = self.pending_bytes + n as u64;
        let elapsed = now.saturating_sub(self.last_flush);
        if self.pending_bytes >= PROGRESS_UPDATE_BYTES || elapsed >= PROGRESS_UPDATE_INTERVAL_MS
            * 1_000_000 {
            self.flush_pending(now, file, tally);
        }
    }
}

/// What a file's bar and the count show besides the bytes that wait.
pub open spec fn accounted(reader: ProgressReader, file: Bar) -> nat {
    (file.position + reader.pending_bytes) as nat
}

/// Reading loses no byte: what was read is either counted or waits.
pub proof fn lemma_read_accounts(
    reader: ProgressReader,
    n: u64,
    now: u64,
    file: Bar,
    tally: Tally,
)
    requires
        accounted(reader, file) + n <= u64::MAX,
    ensures
        ({
            let (after, bar, sum) = read_on(reader, n, now, file, tally);
            &&& accounted(after, bar) == accounted(reader, file) + n
            &&& sum.copied_bytes == wrapped_sum(
                tally.copied_bytes,
                (bar.position - file.position) as u64,
            )
        }),
{
}

/// An attempt that is taken back leaves no trace: whatever it counted, the
/// count is as before it, and the file's bar starts again.
pub proof fn lemma_rollback_restores(file: Bar, tally: Tally, bytes: u64)
    requires
        file.position == 0,
        tally.copied_bytes + bytes <= u64::MAX,
    ensures
        ({
            let (bar, sum) = counted(file, tally, bytes);
            let (bar2, sum2) = rolled_back(bar, sum);
            &&& bar2 == file
            &&& sum2.copied_bytes == tally.copied_bytes
            &&& bytes > 0 ==> sum2.overall.position == tally.copied_bytes
            &&& bytes == 0 ==> sum2.overall == tally.overall
        }),
{
}

/// Counting in several steps is counting once: two steps are one of their sum.
pub proof fn lemma_counting_adds(file: Bar, tally: Tally, a: u64, b: u64)
    requires
        a + b <= u64::MAX,
    ensures
        ({
            let (bar, sum) = counted(file, tally, a);
            counted(bar, sum, b) == counted(file, tally, (a + b) as u64)
        }),
{
}

/// A completed file counts with exactly its length, whatever part of it was
/// counted on the way.
pub proof fn lemma_completion_counts_length(length: u64, tally: Tally, bytes: u64)
    requires
        bytes <= length,
        tally.copied_bytes + length <= u64::MAX,
    ensures
        ({
            let start = Bar { position: 0, length: Some(length) };
            let (bar, sum) = counted(start, tally, bytes);
            let (bar2, sum2) = completed(bar, sum);
            &&& bar2.position == length
            &&& sum2.copied_bytes == tally.copied_bytes + length
            &&& sum2.overall == tally.overall.moved(length)
        }),
{
}

/// A bar moves on by what is counted, to where it is set, and at its end to its
/// length if that is known; its length stays.
pub proof fn lemma_bar_moves(bar: Bar, by: u64)
    ensures
        bar.position + by <= u64::MAX ==> bar.moved(by).position == bar.position + by,
        bar.at(by).position == by,
        bar.length matches Some(length) ==> bar.finished().position == length,
        bar.length is None ==> bar.finished() == bar,
        bar.moved(by).length == bar.length,
        bar.at(by).length == bar.length,
        bar.finished().length == bar.length,
{
}

/// Counting moves the file's bar, the count and the common bar by the same bytes.
pub proof fn lemma_counting(file: Bar, tally: Tally, bytes: u64)
    requires
        file.position + bytes <= u64::MAX,
        tally.copied_bytes + bytes <= u64::MAX,
        tally.overall.position + bytes <= u64::MAX,
    ensures
        ({
            let (bar, sum) = counted(file, tally, bytes);
            &&& bar.position == file.position + bytes
            &&& sum.copied_bytes == tally.copied_bytes + bytes
            &&& sum.overall.position == tally.overall.position + bytes
            &&& bar.length == file.length
            &&& sum.overall.length == tally.overall.length
        }),
{
}

/// Taking an attempt back takes just what the file's bar shows from the count, which
/// stops at zero, and the common bar then shows the count.
pub proof fn lemma_taking_back(file: Bar, tally: Tally)
    ensures
        ({
            let (bar, sum) = rolled_back(file, tally);
            &&& bar.position == 0
            &&& tally.copied_bytes >= file.position ==> sum.copied_bytes == tally.copied_bytes
                - file.position
            &&& tally.copied_bytes < file.position ==> sum.copied_bytes == 0
            &&& file.position > 0 ==> sum.overall.position == sum.copied_bytes
            &&& file.position == 0 ==> sum == tally
            &&& bar.length == file.length
            &&& sum.overall.length == tally.overall.length
        }),
{
}

/// Completing a file counts what its bar lacks of its length and nothing more; a
/// file of unknown length is left as it is.
pub proof fn lemma_completing(file: Bar, tally: Tally)
    requires
        file.length is Some ==> tally.copied_bytes + file.length->0 <= u64::MAX,
    ensures
        ({
            let (bar, sum) = completed(file, tally);
            &&& file.length is None ==> bar == file && sum == tally
            &&& file.length matches Some(total) ==> {
                &&& bar.position == total
                &&& file.position <= total ==> sum.copied_bytes == tally.copied_bytes + (total
                    - file.position)
                &&& file.position > total ==> sum.copied_bytes == tally.copied_bytes
            }
        }),
{
}

/// The bars are brought up to date exactly at the end of a file, when two megabytes
/// wait, or after a quarter of a second; then nothing waits any more, and before
/// that the bars stand still.
pub proof fn lemma_when_bars_move(
    reader: ProgressReader,
    n: u64,
    now: u64,
    file: Bar,
    tally: Tally,
)
    requires
        reader.pending_bytes + n <= u64::MAX,
    ensures
        ({
            let (after, bar, sum) = read_on(reader, n, now, file, tally);
            let waits = reader.pending_bytes + n;
            let due = n == 0 || waits >= 2_097_152 || now - reader.last_flush >= 250_000_000;
            &&& due ==> after.pending_bytes == 0 && (bar, sum) == counted(file, tally, waits as u64)
            &&& due && waits > 0 ==> after.last_flush == now
            &&& !due ==> after.pending_bytes == waits && after.last_flush == reader.last_flush
                && bar == file && sum == tally
        }),
{
    if reader.pending_bytes + n == 0 {
        assert(counted(file, tally, 0) == (file, tally));
    }
}

} // verus!
