//! Counts of a transfer.

use crate::progress::wrapped_sum;
use vstd::prelude::*;

verus! {

/// What a transfer has done.
#[derive(Debug, Clone, Copy, PartialEq, Eq, Structural)]
pub struct TransferStats {
    pub bytes_transferred: u64,
    pub files_completed: u64,
    pub files_failed: u64,
}

impl TransferStats {
    /// The counts with some bytes more.
    pub open spec fn plus_bytes(self, bytes: u64) -> TransferStats {
        TransferStats {
            bytes_transferred: wrapped_sum(self.bytes_transferred, bytes),
            files_completed: self.files_completed,
            files_failed: self.files_failed,
        }
    }

    /// The counts with one completed file more.
    pub open spec fn plus_completed(self) -> TransferStats {
        TransferStats {
            bytes_transferred: self.bytes_transferred,
            files_completed: wrapped_sum(self.files_completed, 1),
            files_failed: self.files_failed,
        }
    }

    /// The counts with one failed file more.
    pub open spec fn plus_failed(self) -> TransferStats {
        TransferStats {
            bytes_transferred: self.bytes_transferred,
            files_completed: self.files_completed,
            files_failed: wrapped_sum(self.files_failed, 1),
        }
    }

    /// Nothing was done yet.
    pub fn new() -> (r: TransferStats)
        ensures
            r.bytes_transferred == 0,
            r.files_completed == 0,
            r.files_failed == 0,
    {
        TransferStats { bytes_transferred: 0, files_completed: 0, files_failed: 0 }
    }

    /// Counts transferred bytes.
    pub fn add_bytes(&mut self, bytes: u64)
        ensures
            *final(self) == old(self).plus_bytes(bytes),
    {
        self.bytes_transferred = self.bytes_transferred.wrapping_add(bytes);
    }

    /// Counts a completed file.
    pub fn inc_completed(&mut self)
        ensures
            *final(self) == old(self).plus_completed(),
    {
        self.files_completed = self.files_completed.wrapping_add(1);
    }

    /// Counts a failed file.
    pub fn inc_failed(&mut self)
        ensures
            *final(self) == old(self).plus_failed(),
    {
        self.files_failed = self.files_failed.wrapping_add(1);
    }

    /// The files completed, the files failed, and the bytes transferred.
    pub fn get_stats(&self) -> (r: (u64, u64, u64))
        ensures
            r == (self.files_completed, self.files_failed, self.bytes_transferred),
    {
        (self.files_completed, self.files_failed, self.bytes_transferred)
    }
}

impl Default for TransferStats {
    fn default() -> (r: TransferStats)
        ensures
            r.bytes_transferred == 0,
            r.files_completed == 0,
            r.files_failed == 0,
    {
        TransferStats::new()
    }
}

/// The three counts are kept apart: each call changes its own, and counting twice is
/// counting the sum. A count that passes the largest number begins again at zero.
pub proof fn lemma_counts_apart(stats: TransferStats, a: u64, b: u64)
    ensures
        stats.bytes_transferred + a <= u64::MAX ==> stats.plus_bytes(a).bytes_transferred
            == stats.bytes_transferred + a,
        stats.files_completed < u64::MAX ==> stats.plus_completed().files_completed
            == stats.files_completed + 1,
        stats.files_failed < u64::MAX ==> stats.plus_failed().files_failed == stats.files_failed
            + 1,
        stats.bytes_transferred + a > u64::MAX ==> stats.plus_bytes(a).bytes_transferred
            == stats.bytes_transferred + a - u64::MAX - 1,
        stats.files_completed == u64::MAX ==> stats.plus_completed().files_completed == 0,
        stats.files_failed == u64::MAX ==> stats.plus_failed().files_failed == 0,
        stats.plus_bytes(a).plus_bytes(b) == stats.plus_bytes(b).plus_bytes(a),
        stats.plus_bytes(a).files_completed == stats.files_completed,
        stats.plus_bytes(a).files_failed == stats.files_failed,
        stats.plus_completed().bytes_transferred == stats.bytes_transferred,
        stats.plus_completed().files_failed == stats.files_failed,
        stats.plus_failed().bytes_transferred == stats.bytes_transferred,
        stats.plus_failed().files_completed == stats.files_completed,
{
}

} // verus!
