//! Free space on destinations: what is known of it, and what running copies
//! have reserved.

use crate::format::{format_size, size_text};
use crate::path::FilePath;
use crate::progress::floor_difference;
use crate::text::{decode_lossy, utf8_lossy};
use std::collections::HashMap;
use vstd::prelude::*;

verus! {

/// Space that is always left free.
pub const LOW_SPACE_GUARD_MARGIN_BYTES: u64 = 67108864;

/// After so many bytes the free space is asked for again.
pub const SPACE_RECHECK_BYTES: u64 = 536870912;

/// After so many milliseconds the free space is asked for again.
pub const SPACE_RECHECK_INTERVAL_MS: u64 = 1500;

/// Space that a copy has reserved.
#[derive(Debug, Clone, Copy, PartialEq, Eq, Structural)]
pub struct ReservedSpace {
    pub fs_id: u64,
    pub bytes: u64,
}

/// What was found of the free space on a file system.
#[derive(Debug, Clone, Copy, PartialEq, Eq, Structural)]
pub struct SpaceProbe {
    pub available: u64,
    pub bytes_until_recheck: u64,
    /// In nanoseconds of a clock that does not go back.
    pub last_probe: u64,
}

/// The sum of two numbers, at most the largest of 64 bits.
pub open spec fn capped_sum(a: u64, b: u64) -> u64 {
    if a + b <= u64::MAX {
        (a + b) as u64
    } else {
        u64::MAX
    }
}

/// What is reserved on a file system.
pub open spec fn amount(reserved: Map<u64, u64>, fs_id: u64) -> u64 {
    if reserved.contains_key(fs_id) {
        reserved[fs_id]
    } else {
        0
    }
}

/// The reservations with one more.
pub open spec fn with_reservation(reserved: Map<u64, u64>, token: ReservedSpace) -> Map<u64, u64> {
    reserved.insert(token.fs_id, capped_sum(amount(reserved, token.fs_id), token.bytes))
}

/// The reservations without one. A file system on which nothing is left is
/// forgotten.
pub open spec fn without_reservation(reserved: Map<u64, u64>, token: ReservedSpace) -> Map<
    u64,
    u64,
> {
    let left = floor_difference(amount(reserved, token.fs_id), token.bytes);
    if left == 0 {
        reserved.remove(token.fs_id)
    } else {
        reserved.insert(token.fs_id, left)
    }
}

/// What is free besides the reservations.
pub open spec fn unreserved(available: u64, reserved: u64) -> u64 {
    floor_difference(available, reserved)
}

/// Whether a file may be copied: with the margin it fits into what is free.
pub open spec fn fits(available: u64, reserved: u64, bytes: u64) -> bool {
    unreserved(available, reserved) >= capped_sum(bytes, LOW_SPACE_GUARD_MARGIN_BYTES)
}

/// Whether the free space has to be asked for: nothing is known of it, the file
/// is larger than what may still be copied unasked, or it was long ago.
pub open spec fn probe_due(probes: Map<u64, SpaceProbe>, fs_id: u64, bytes: u64, now: u64) -> bool {
    ||| !probes.contains_key(fs_id)
    ||| probes[fs_id].bytes_until_recheck < bytes
    ||| floor_difference(now, probes[fs_id].last_probe) >= SPACE_RECHECK_INTERVAL_MS * 1_000_000
}

/// The probes after the free space was asked for.
pub open spec fn with_probe(
    probes: Map<u64, SpaceProbe>,
    fs_id: u64,
    available: u64,
    now: u64,
) -> Map<u64, SpaceProbe> {
    probes.insert(
        fs_id,
        (SpaceProbe { available, bytes_until_recheck: SPACE_RECHECK_BYTES, last_probe: now }),
    )
}

/// The probes after a file was admitted: less may be copied unasked.
pub open spec fn spent(probes: Map<u64, SpaceProbe>, fs_id: u64, bytes: u64) -> Map<
    u64,
    SpaceProbe,
> {
    let probe = probes[fs_id];
    probes.insert(
        fs_id,
        (SpaceProbe {
            available: probe.available,
            bytes_until_recheck: floor_difference(probe.bytes_until_recheck, bytes),
            last_probe: probe.last_probe,
        }),
    )
}

/// The message that a destination is short of space.
pub open spec fn low_space_text(parent: Seq<u8>, bytes: u64, free: u64) -> Seq<char> {
    "Low disk space on "@ + utf8_lossy(parent) + ": need "@ + size_text(bytes) + " (+"@
        + size_text(LOW_SPACE_GUARD_MARGIN_BYTES) + " safety), available "@ + size_text(free)
}

/// The message that a destination is short of space.
pub fn low_space_message(parent: &FilePath, bytes: u64, free: u64) -> (r: String)
    ensures
        r@ == low_space_text(parent@, bytes, free),
{
    let mut r = "Low disk space on ".to_owned();
    r.append(decode_lossy(parent.as_bytes()).as_str());
    r.append(": need ");
    r.append(format_size(bytes).as_str());
    r.append(" (+");
    r.append(format_size(LOW_SPACE_GUARD_MARGIN_BYTES).as_str());
    r.append(" safety), available ");
    r.append(format_size(free).as_str());
    r
}

/// What is reserved on a file system.
pub fn reserved_on(reservations: &HashMap<u64, u64>, fs_id: u64) -> (r: u64)
    ensures
        r == amount(reservations@, fs_id),
{
    broadcast use vstd::std_specs::hash::group_hash_axioms;

    match reservations.get(&fs_id) {
        Some(bytes) => *bytes,
        None => 0,
    }
}

/// What is known of the free space on destinations.
pub struct SpaceProbeCache {
    probes: HashMap<u64, SpaceProbe>,
}

impl View for SpaceProbeCache {
    type V = Map<u64, SpaceProbe>;

    closed spec fn view(&self) -> Map<u64, SpaceProbe> {
        self.probes@
    }
}

impl SpaceProbeCache {
    /// Nothing is known.
    pub fn new() -> (r: SpaceProbeCache)
        ensures
            r@ == Map::<u64, SpaceProbe>::empty(),
    {
        SpaceProbeCache { probes: HashMap::new() }
    }

    /// Whether the free space has to be asked for before a file is copied.
    pub fn should_refresh(&self, fs_id: u64, bytes: u64, now: u64) -> (r: bool)
        ensures
            r == probe_due(self@, fs_id, bytes, now),
    {
        broadcast use vstd::std_specs::hash::group_hash_axioms;

        match self.probes.get(&fs_id) {
            Some(probe) => {
                probe.bytes_until_recheck < bytes || now.saturating_sub(probe.last_probe)
                    >= SPACE_RECHECK_INTERVAL_MS * 1_000_000
            },
            None => true,
        }
    }

    /// Takes note of the free space.
    pub fn record(&mut self, fs_id: u64, available: u64, now: u64)
        ensures
            final(self)@ == with_probe(old(self)@, fs_id, available, now),
    {
        broadcast use vstd::std_specs::hash::group_hash_axioms;

        let _ = self.probes.insert(
            fs_id,
            SpaceProbe { available, bytes_until_recheck: SPACE_RECHECK_BYTES, last_probe: now },
        );
    }

    /// Reserves space for a file where it fits, and else tells what is free.
    pub fn reserve_destination_space(
        &mut self,
        reservations: &mut HashMap<u64, u64>,
        fs_id: u64,
        bytes: u64,
    ) -> (r: Result<ReservedSpace, u64>)
        requires
            old(self)@.contains_key(fs_id),
        ensures
            ({
                let available = old(self)@[fs_id].available;
                let taken = amount(old(reservations)@, fs_id);
                if fits(available, taken, bytes) {
                    &&& r == Ok::<ReservedSpace, u64>((ReservedSpace { fs_id, bytes }))
                    &&& final(reservations)@ == with_reservation(
                        old(reservations)@,
                        (ReservedSpace { fs_id, bytes }),
                    )
                    &&& final(self)@ == spent(old(self)@, fs_id, bytes)
                } else {
                    &&& r == Err::<ReservedSpace, u64>(unreserved(available, taken))
                    &&& final(reservations)@ == old(reservations)@
                    &&& final(self)@ == old(self)@
                }
            }),
    {
        broadcast use vstd::std_specs::hash::group_hash_axioms;

        let probe = match self.probes.get(&fs_id) {
            Some(probe) => *probe,
            None => {
                return Err(0);
            },
        };
        let reserved = reserved_on(reservations, fs_id);
        let required = bytes.saturating_add(LOW_SPACE_GUARD_MARGIN_BYTES);
        let effective_available = probe.available.saturating_sub(reserved);
        if effective_available < required {
            return Err(effective_available);
        }
        let _ = reservations.insert(fs_id, reserved.saturating_add(bytes));
        let _ = self.probes.insert(
            fs_id,
            SpaceProbe {
                available: probe.available,
                bytes_until_recheck: probe.bytes_until_recheck.saturating_sub(bytes),
                last_probe: probe.last_probe,
            },
        );
        Ok(ReservedSpace { fs_id, bytes })
    }
}

/// Gives reserved space back.
pub fn release_reserved_space(reservations: &mut HashMap<u64, u64>, token: ReservedSpace)
    ensures
        final(reservations)@ == without_reservation(old(reservations)@, token),
{
    broadcast use vstd::std_specs::hash::group_hash_axioms;

    let current = reserved_on(reservations, token.fs_id);
    let updated = current.saturating_sub(token.bytes);
    if updated == 0 {
        let _ = reservations.remove(&token.fs_id);
    } else {
        let _ = reservations.insert(token.fs_id, updated);
    }
}

/// Giving back undoes reserving: on every file system as much is reserved as
/// before, and the table is the same, unless it had an entry of zero there.
pub proof fn lemma_release_undoes_reserve(
    reserved: Map<u64, u64>,
    token: ReservedSpace,
    fs_id: u64,
)
    requires
        amount(reserved, token.fs_id) + token.bytes <= u64::MAX,
    ensures
        amount(without_reservation(with_reservation(reserved, token), token), fs_id) == amount(
            reserved,
            fs_id,
        ),
        !reserved.contains_key(token.fs_id) || reserved[token.fs_id] > 0 ==> without_reservation(
            with_reservation(reserved, token),
            token,
        ) == reserved,
{
    if !reserved.contains_key(token.fs_id) || reserved[token.fs_id] > 0 {
        assert(without_reservation(with_reservation(reserved, token), token) =~= reserved);
    }
}

/// The space of some reservations on a file system together.
pub open spec fn held(tokens: Seq<ReservedSpace>, fs_id: u64) -> nat
    decreases tokens.len(),
{
    if tokens.len() == 0 {
        0
    } else {
        held(tokens.drop_last(), fs_id) + if tokens.last().fs_id == fs_id {
            tokens.last().bytes as nat
        } else {
            0
        }
    }
}

/// Whether the table shows what the open reservations hold.
pub open spec fn balanced(reserved: Map<u64, u64>, tokens: Seq<ReservedSpace>) -> bool {
    forall|fs_id: u64| #[trigger] amount(reserved, fs_id) == held(tokens, fs_id)
}

proof fn lemma_held_remove(tokens: Seq<ReservedSpace>, k: int, fs_id: u64)
    requires
        0 <= k < tokens.len(),
    ensures
        held(tokens, fs_id) == held(tokens.remove(k), fs_id) + if tokens[k].fs_id == fs_id {
            tokens[k].bytes as nat
        } else {
            0
        },
    decreases tokens.len(),
{
    if k == tokens.len() - 1 {
        assert(tokens.remove(k) =~= tokens.drop_last());
    } else {
        lemma_held_remove(tokens.drop_last(), k, fs_id);
        assert(tokens.remove(k).drop_last() =~= tokens.drop_last().remove(k));
        assert(tokens.remove(k).last() == tokens.last());
        assert(tokens.drop_last()[k] == tokens[k]);
    }
}

/// The table always shows what the open reservations hold: reserving adds the
/// new one, and giving any of them back takes just that one away.
pub proof fn lemma_table_balanced(
    reserved: Map<u64, u64>,
    tokens: Seq<ReservedSpace>,
    token: ReservedSpace,
    k: int,
)
    requires
        balanced(reserved, tokens),
    ensures
        amount(reserved, token.fs_id) + token.bytes <= u64::MAX ==> balanced(
            with_reservation(reserved, token),
            tokens.push(token),
        ),
        0 <= k < tokens.len() ==> balanced(
            without_reservation(reserved, tokens[k]),
            tokens.remove(k),
        ),
{
    if amount(reserved, token.fs_id) + token.bytes <= u64::MAX {
        assert forall|fs_id: u64| #[trigger]
            amount(with_reservation(reserved, token), fs_id) == held(tokens.push(token), fs_id) by {
            assert(amount(reserved, fs_id) == held(tokens, fs_id));
            assert(tokens.push(token).drop_last() =~= tokens);
        }
    }
    if 0 <= k < tokens.len() {
        assert forall|fs_id: u64| #[trigger]
            amount(without_reservation(reserved, tokens[k]), fs_id) == held(
                tokens.remove(k),
                fs_id,
            ) by {
            assert(amount(reserved, fs_id) == held(tokens, fs_id));
            lemma_held_remove(tokens, k, fs_id);
        }
    }
}

/// A file that is admitted has its space: all reservations with it, and the
/// margin besides, fit into what was available; and reserving loses nothing to
/// the limits of 64 bits.
pub proof fn lemma_admission_keeps_margin(
    available: u64,
    reserved: Map<u64, u64>,
    token: ReservedSpace,
)
    requires
        fits(available, amount(reserved, token.fs_id), token.bytes),
    ensures
        amount(reserved, token.fs_id) + token.bytes <= u64::MAX,
        token.bytes + LOW_SPACE_GUARD_MARGIN_BYTES <= u64::MAX ==> amount(
            with_reservation(reserved, token),
            token.fs_id,
        ) + LOW_SPACE_GUARD_MARGIN_BYTES <= available,
{
}

/// A file is admitted exactly where what is free, without what is reserved, holds
/// it and 64 MiB besides. One that is so large that no number of 64 bits holds it
/// with the margin is held to the largest such number.
pub proof fn lemma_who_fits(available: u64, reserved: u64, bytes: u64)
    ensures
        bytes + 67_108_864 <= u64::MAX ==> (fits(available, reserved, bytes) <==> available
            - reserved >= bytes + 67_108_864),
        bytes + 67_108_864 > u64::MAX ==> (fits(available, reserved, bytes) <==> available
            - reserved >= u64::MAX),
        available >= reserved ==> unreserved(available, reserved) == available - reserved,
        available < reserved ==> unreserved(available, reserved) == 0,
{
}

/// The free space is asked for again exactly where it is not known, where the file
/// is larger than what may be copied unasked, or after a second and a half.
pub proof fn lemma_when_to_probe(probes: Map<u64, SpaceProbe>, fs_id: u64, bytes: u64, now: u64)
    ensures
        !probes.contains_key(fs_id) ==> probe_due(probes, fs_id, bytes, now),
        probes.contains_key(fs_id) ==> (probe_due(probes, fs_id, bytes, now) <==> bytes
            > probes[fs_id].bytes_until_recheck || now - probes[fs_id].last_probe
            >= 1_500_000_000),
{
}

/// After a probe 512 MiB may be copied unasked; each admitted file takes its size
/// from that, and nothing else of what is known changes, here or elsewhere.
pub proof fn lemma_probes(
    probes: Map<u64, SpaceProbe>,
    fs_id: u64,
    available: u64,
    now: u64,
    bytes: u64,
    other: u64,
)
    ensures
        ({
            let probed = with_probe(probes, fs_id, available, now);
            &&& probed.contains_key(fs_id)
            &&& probed[fs_id].available == available
            &&& probed[fs_id].last_probe == now
            &&& probed[fs_id].bytes_until_recheck == 536_870_912
            &&& bytes <= 536_870_912 ==> !probe_due(probed, fs_id, bytes, now)
            &&& bytes > 536_870_912 ==> probe_due(probed, fs_id, bytes, now)
            &&& other != fs_id ==> probed.contains_key(other) == probes.contains_key(other)
                && probed[other] == probes[other]
        }),
        probes.contains_key(fs_id) ==> {
            let less = spent(probes, fs_id, bytes);
            &&& less.contains_key(fs_id)
            &&& less[fs_id].available == probes[fs_id].available
            &&& less[fs_id].last_probe == probes[fs_id].last_probe
            &&& bytes <= probes[fs_id].bytes_until_recheck ==> less[fs_id].bytes_until_recheck
                == probes[fs_id].bytes_until_recheck - bytes
            &&& bytes > probes[fs_id].bytes_until_recheck ==> less[fs_id].bytes_until_recheck == 0
            &&& other != fs_id ==> less.contains_key(other) == probes.contains_key(other)
                && less[other] == probes[other]
        },
{
}

/// Reserving adds a file's size to its own file system, giving back takes it away,
/// and both leave all other file systems alone.
pub proof fn lemma_reservations(reserved: Map<u64, u64>, token: ReservedSpace, other: u64)
    ensures
        amount(reserved, token.fs_id) + token.bytes <= u64::MAX ==> amount(
            with_reservation(reserved, token),
            token.fs_id,
        ) == amount(reserved, token.fs_id) + token.bytes,
        token.bytes <= amount(reserved, token.fs_id) ==> amount(
            without_reservation(reserved, token),
            token.fs_id,
        ) == amount(reserved, token.fs_id) - token.bytes,
        token.bytes > amount(reserved, token.fs_id) ==> amount(
            without_reservation(reserved, token),
            token.fs_id,
        ) == 0,
        other != token.fs_id ==> amount(with_reservation(reserved, token), other) == amount(
            reserved,
            other,
        ) && amount(without_reservation(reserved, token), other) == amount(reserved, other),
        reserved.contains_key(other) ==> amount(reserved, other) == reserved[other],
        !reserved.contains_key(other) ==> amount(reserved, other) == 0,
{
}

/// What is told where room is low: the directory, what the file needs beside a margin
/// of 64 MiB, and what is free.
pub proof fn lemma_low_space_told(parent: Seq<u8>, bytes: u64, free: u64)
    ensures
        low_space_text(parent, bytes, free) == "Low disk space on "@ + utf8_lossy(parent)
            + ": need "@ + size_text(bytes) + " (+"@ + size_text(67108864) + " safety), available "@
            + size_text(free),
{
}

} // verus!
