//! Checks before a transfer: whether its destinations take files, and whether
//! they have room for them.

use crate::copy::PlaceError;
use crate::format::{format_size, size_text};
use crate::path::{components, file_name_of, parent_of, FilePath};
use crate::queue::{item_views, sum_sizes, ItemView, TransferItem};
use crate::space::capped_sum;
use crate::text::{decode_lossy, utf8_lossy};
use vstd::prelude::*;

verus! {

/// A directory and what is to be written into it.
#[derive(Debug)]
pub struct Demand {
    pub parent: FilePath,
    pub bytes: u64,
}

/// The contents of a `Demand`.
pub struct DemandView {
    pub parent: Seq<u8>,
    pub bytes: u64,
}

impl View for Demand {
    type V = DemandView;

    open spec fn view(&self) -> DemandView {
        DemandView { parent: self.parent@, bytes: self.bytes }
    }
}

/// The contents of a list of demands.
pub open spec fn demand_views(v: Seq<Demand>) -> Seq<DemandView> {
    v.map_values(|d: Demand| d@)
}

/// The position of a directory in a list, or the length of the list.
pub open spec fn position_of(list: Seq<DemandView>, parent: Seq<u8>) -> int
    decreases list.len(),
{
    if list.len() == 0 {
        0
    } else if components(list[0].parent) == components(parent) {
        0
    } else {
        1 + position_of(list.skip(1), parent)
    }
}

/// The demands with more to write into a directory.
pub open spec fn charged(list: Seq<DemandView>, parent: Seq<u8>, bytes: u64) -> Seq<DemandView> {
    let k = position_of(list, parent);
    if k < list.len() {
        list.update(
            k,
            (DemandView { parent: list[k].parent, bytes: (list[k].bytes + bytes) as u64 }),
        )
    } else {
        list.push((DemandView { parent, bytes }))
    }
}

/// All demands together.
pub open spec fn demanded(list: Seq<DemandView>) -> nat
    decreases list.len(),
{
    if list.len() == 0 {
        0
    } else {
        demanded(list.drop_last()) + list.last().bytes as nat
    }
}

proof fn lemma_position(list: Seq<DemandView>, parent: Seq<u8>)
    ensures
        0 <= position_of(list, parent) <= list.len(),
        position_of(list, parent) < list.len() ==> components(
            list[position_of(list, parent)].parent,
        ) == components(parent),
        forall|i: int|
            0 <= i < position_of(list, parent) ==> components(#[trigger] list[i].parent)
                != components(parent),
    decreases list.len(),
{
    if list.len() > 0 && components(list[0].parent) != components(parent) {
        lemma_position(list.skip(1), parent);
        assert forall|i: int| 0 <= i < position_of(list, parent) implies components(
            #[trigger] list[i].parent,
        ) != components(parent) by {
            if i > 0 {
                assert(list.skip(1)[i - 1] == list[i]);
            }
        }
    }
}

proof fn lemma_position_unique(list: Seq<DemandView>, parent: Seq<u8>, k: int)
    requires
        0 <= k <= list.len(),
        k < list.len() ==> components(list[k].parent) == components(parent),
        forall|i: int| 0 <= i < k ==> components(#[trigger] list[i].parent) != components(parent),
    ensures
        position_of(list, parent) == k,
{
    lemma_position(list, parent);
    let found = position_of(list, parent);
    if found < k {
        assert(components(list[found].parent) != components(parent));
    } else if k < found {
        assert(components(list[k].parent) != components(parent));
    }
}

proof fn lemma_demanded_update(list: Seq<DemandView>, k: int, d: DemandView)
    requires
        0 <= k < list.len(),
    ensures
        demanded(list.update(k, d)) == demanded(list) - list[k].bytes + d.bytes,
        list[k].bytes <= demanded(list),
    decreases list.len(),
{
    let changed = list.update(k, d);
    if k == list.len() - 1 {
        assert(changed.drop_last() =~= list.drop_last());
    } else {
        lemma_demanded_update(list.drop_last(), k, d);
        assert(changed.drop_last() =~= list.drop_last().update(k, d));
        assert(changed.last() == list.last());
    }
}

/// What is to be written is all charged to some directory: charging adds just
/// the bytes.
pub proof fn lemma_charging_adds(list: Seq<DemandView>, parent: Seq<u8>, bytes: u64)
    requires
        demanded(list) + bytes <= u64::MAX,
    ensures
        demanded(charged(list, parent, bytes)) == demanded(list) + bytes,
{
    lemma_position(list, parent);
    let k = position_of(list, parent);
    if k < list.len() {
        let d = DemandView { parent: list[k].parent, bytes: (list[k].bytes + bytes) as u64 };
        lemma_demanded_update(list, k, d);
    } else {
        let d = DemandView { parent, bytes };
        assert(list.push(d).drop_last() =~= list);
    }
}

/// A file system with the first directory that was looked at on it, what is to
/// be written there, and what is free.
#[derive(Debug)]
pub struct FsDemand {
    pub fs_id: u64,
    pub parent: FilePath,
    pub required: u64,
    pub available: u64,
}

/// The contents of an `FsDemand`.
pub struct FsView {
    pub fs_id: u64,
    pub parent: Seq<u8>,
    pub required: u64,
    pub available: u64,
}

impl View for FsDemand {
    type V = FsView;

    open spec fn view(&self) -> FsView {
        FsView {
            fs_id: self.fs_id,
            parent: self.parent@,
            required: self.required,
            available: self.available,
        }
    }
}

/// The contents of a list of file systems.
pub open spec fn fs_views(v: Seq<FsDemand>) -> Seq<FsView> {
    v.map_values(|d: FsDemand| d@)
}

/// The position of a file system in a list, or the length of the list.
pub open spec fn fs_position(list: Seq<FsView>, fs_id: u64) -> int
    decreases list.len(),
{
    if list.len() == 0 {
        0
    } else if list[0].fs_id == fs_id {
        0
    } else {
        1 + fs_position(list.skip(1), fs_id)
    }
}

proof fn lemma_fs_position(list: Seq<FsView>, fs_id: u64)
    ensures
        0 <= fs_position(list, fs_id) <= list.len(),
        fs_position(list, fs_id) < list.len() ==> list[fs_position(list, fs_id)].fs_id == fs_id,
        forall|i: int| 0 <= i < fs_position(list, fs_id) ==> (#[trigger] list[i]).fs_id != fs_id,
    decreases list.len(),
{
    if list.len() > 0 && list[0].fs_id != fs_id {
        lemma_fs_position(list.skip(1), fs_id);
        assert forall|i: int| 0 <= i < fs_position(list, fs_id) implies (#[trigger] list[i]).fs_id
            != fs_id by {
            if i > 0 {
                assert(list.skip(1)[i - 1] == list[i]);
            }
        }
    }
}

proof fn lemma_fs_position_unique(list: Seq<FsView>, fs_id: u64, k: int)
    requires
        0 <= k <= list.len(),
        k < list.len() ==> list[k].fs_id == fs_id,
        forall|i: int| 0 <= i < k ==> (#[trigger] list[i]).fs_id != fs_id,
    ensures
        fs_position(list, fs_id) == k,
{
    lemma_fs_position(list, fs_id);
    let found = fs_position(list, fs_id);
    if found < k {
        assert(list[found].fs_id != fs_id);
    } else if k < found {
        assert(list[k].fs_id != fs_id);
    }
}

/// The file systems with what is to be written into one more directory. What
/// is free on a file system is what the first look there found.
pub open spec fn fs_charged(
    list: Seq<FsView>,
    fs_id: u64,
    parent: Seq<u8>,
    bytes: u64,
    available: u64,
) -> Seq<FsView> {
    let k = fs_position(list, fs_id);
    if k < list.len() {
        list.update(
            k,
            (FsView { required: capped_sum(list[k].required, bytes), ..list[k] }),
        )
    } else {
        list.push((FsView { fs_id, parent, required: bytes, available }))
    }
}

/// Why a transfer cannot begin.
#[derive(Debug)]
pub enum PreflightError {
    /// A destination ends in no name.
    InvalidDestination(FilePath),
    /// A destination is a directory.
    IsDirectory(FilePath),
    /// A destination stands in no directory.
    NoParent,
    /// A file system has not enough room.
    InsufficientSpace {
        parent: FilePath,
        required: u64,
        available: u64,
    },
}

/// The contents of a `PreflightError`.
pub enum FaultView {
    InvalidDestination(Seq<u8>),
    IsDirectory(Seq<u8>),
    NoParent,
    InsufficientSpace { parent: Seq<u8>, required: u64, available: u64 },
}

impl View for PreflightError {
    type V = FaultView;

    open spec fn view(&self) -> FaultView {
        match *self {
            PreflightError::InvalidDestination(p) => FaultView::InvalidDestination(p@),
            PreflightError::IsDirectory(p) => FaultView::IsDirectory(p@),
            PreflightError::NoParent => FaultView::NoParent,
            PreflightError::InsufficientSpace { parent, required, available } =>
                FaultView::InsufficientSpace { parent: parent@, required, available },
        }
    }
}

/// What is wrong with a destination: it ends in no name, or is a directory, or
/// stands in none.
pub open spec fn fault_of(destination: Seq<u8>, is_directory: bool) -> Option<FaultView> {
    if file_name_of(destination) is None {
        Some(FaultView::InvalidDestination(destination))
    } else if is_directory {
        Some(FaultView::IsDirectory(destination))
    } else if parent_of(destination) is None {
        Some(FaultView::NoParent)
    } else {
        None
    }
}

impl PreflightError {
    /// The message of an error.
    pub open spec fn text(self) -> Seq<char> {
        match self {
            PreflightError::InvalidDestination(p) => "Invalid destination path: "@ + utf8_lossy(
                p@,
            ),
            PreflightError::IsDirectory(p) =>
                "Destination path points to a directory, expected a file path: "@ + utf8_lossy(p@),
            PreflightError::NoParent => PlaceError::NoParent.text(),
            PreflightError::InsufficientSpace { parent, required, available } =>
                "Insufficient free space on filesystem for "@ + utf8_lossy(parent@) + ": need "@
                    + size_text(required) + ", available "@ + size_text(available),
        }
    }

    /// The message of an error.
    pub fn message(&self) -> (r: String)
        ensures
            r@ == self.text(),
    {
        match self {
            PreflightError::InvalidDestination(p) => {
                let mut r = "Invalid destination path: ".to_owned();
                r.append(decode_lossy(p.as_bytes()).as_str());
                r
            },
            PreflightError::IsDirectory(p) => {
                let mut r =
                    "Destination path points to a directory, expected a file path: ".to_owned();
                r.append(decode_lossy(p.as_bytes()).as_str());
                r
            },
            PreflightError::NoParent => PlaceError::NoParent.message(),
            PreflightError::InsufficientSpace { parent, required, available } => {
                let mut r = "Insufficient free space on filesystem for ".to_owned();
                r.append(decode_lossy(parent.as_bytes()).as_str());
                r.append(": need ");
                r.append(format_size(*required).as_str());
                r.append(", available ");
                r.append(format_size(*available).as_str());
                r
            },
        }
    }
}

/// Checks of the destinations of some items.
pub struct Preflight {
    demands: Vec<Demand>,
    systems: Vec<FsDemand>,
}

/// The contents of a `Preflight`.
pub struct PreflightView {
    /// What is to be written into each directory, in the order in which they
    /// came up.
    pub demands: Seq<DemandView>,
    /// What is to be written on each file system that was looked at.
    pub systems: Seq<FsView>,
}

impl View for Preflight {
    type V = PreflightView;

    closed spec fn view(&self) -> PreflightView {
        PreflightView {
            demands: demand_views(self.demands@),
            systems: fs_views(self.systems@),
        }
    }
}

impl Preflight {
    /// Nothing was checked yet.
    pub fn new() -> (r: Preflight)
        ensures
            r@.demands == Seq::<DemandView>::empty(),
            r@.systems == Seq::<FsView>::empty(),
    {
        let r = Preflight { demands: Vec::new(), systems: Vec::new() };
        assert(r@.demands =~= Seq::<DemandView>::empty());
        assert(r@.systems =~= Seq::<FsView>::empty());
        r
    }

    /// Checks a destination, and tells the directory that must exist for it.
    pub fn check_destination(destination: &FilePath, is_directory: bool) -> (r: Result<
        FilePath,
        PreflightError,
    >)
        ensures
            match r {
                Ok(parent) => fault_of(destination@, is_directory) is None && parent_of(
                    destination@,
                ) == Some(parent@),
                Err(e) => fault_of(destination@, is_directory) == Some(e@),
            },
    {
        if destination.file_name().is_none() {
            return Err(PreflightError::InvalidDestination(destination.clone()));
        }
        if is_directory {
            return Err(PreflightError::IsDirectory(destination.clone()));
        }
        match destination.parent() {
            Some(parent) => Ok(parent),
            None => Err(PreflightError::NoParent),
        }
    }

    /// Charges a file to its directory.
    pub fn charge(&mut self, parent: FilePath, bytes: u64)
        requires
            demanded(old(self)@.demands) + bytes <= u64::MAX,
        ensures
            final(self)@.demands == charged(old(self)@.demands, parent@, bytes),
            final(self)@.systems == old(self)@.systems,
            demanded(final(self)@.demands) == demanded(old(self)@.demands) + bytes,
    {
        let ghost all = demand_views(self.demands@);
        proof {
            lemma_charging_adds(all, parent@, bytes);
        }
        let mut k: usize = 0;
        while k < self.demands.len()
            invariant
                *self == *old(self),
                k <= self.demands@.len(),
                all == demand_views(self.demands@),
                demanded(all) + bytes <= u64::MAX,
                all == old(self)@.demands,
                demanded(charged(all, parent@, bytes)) == demanded(all) + bytes,
                forall|i: int|
                    0 <= i < k ==> components(#[trigger] all[i].parent) != components(parent@),
            decreases self.demands@.len() - k,
        {
            assert(all[k as int] == self.demands@[k as int]@);
            if self.demands[k].parent.same_as(&parent) {
                proof {
                    lemma_position_unique(all, parent@, k as int);
                    lemma_demanded_update(all, k as int, all[k as int]);
                }
                let sum = self.demands[k].bytes + bytes;
                let same = self.demands[k].parent.clone();
                self.demands[k] = Demand { parent: same, bytes: sum };
                assert(demand_views(self.demands@) =~= charged(all, parent@, bytes));
                return;
            }
            k = k + 1;
        }
        proof {
            lemma_position_unique(all, parent@, k as int);
        }
        self.demands.push(Demand { parent, bytes });
        assert(demand_views(self.demands@) =~= charged(all, parent@, bytes));
    }

    /// How many directories there are.
    pub fn directories(&self) -> (r: usize)
        ensures
            r == self@.demands.len(),
    {
        assert(demand_views(self.demands@).len() == self.demands@.len());
        self.demands.len()
    }

    /// One of the directories.
    pub fn directory(&self, k: usize) -> (r: &FilePath)
        requires
            k < self@.demands.len(),
        ensures
            r@ == self@.demands[k as int].parent,
    {
        &self.demands[k].parent
    }

    /// Charges a directory to its file system, and checks that there is room.
    pub fn check_space(&mut self, k: usize, fs_id: u64, available: u64) -> (r: Result<
        (),
        PreflightError,
    >)
        requires
            k < old(self)@.demands.len(),
        ensures
            final(self)@.demands == old(self)@.demands,
            final(self)@.systems == fs_charged(
                old(self)@.systems,
                fs_id,
                old(self)@.demands[k as int].parent,
                old(self)@.demands[k as int].bytes,
                available,
            ),
            ({
                let system = final(self)@.systems[fs_position(old(self)@.systems, fs_id)];
                match r {
                    Ok(_) => system.required <= system.available,
                    Err(e) => {
                        &&& system.required > system.available
                        &&& e matches PreflightError::InsufficientSpace {
                            parent,
                            required,
                            available,
                        } && parent@ == system.parent && required == system.required && available
                            == system.available
                    },
                }
            }),
    {
        let ghost all = fs_views(self.systems@);
        let bytes = self.demands[k].bytes;
        let mut at: usize = 0;
        let mut found = false;
        while at < self.systems.len() && !found
            invariant
                *self == *old(self),
                at <= self.systems@.len(),
                all == fs_views(self.systems@),
                found ==> at < self.systems@.len() && all[at as int].fs_id == fs_id,
                forall|i: int| 0 <= i < at ==> (#[trigger] all[i]).fs_id != fs_id,
            decreases self.systems@.len() - at + if found {
                0int
            } else {
                1int
            },
        {
            assert(all[at as int] == self.systems@[at as int]@);
            if self.systems[at].fs_id == fs_id {
                found = true;
            } else {
                at = at + 1;
            }
        }
        proof {
            lemma_fs_position_unique(all, fs_id, at as int);
        }
        if found {
            let parent = self.systems[at].parent.clone();
            let free = self.systems[at].available;
            let required = self.systems[at].required.saturating_add(bytes);
            self.systems[at] = FsDemand { fs_id, parent, required, available: free };
        } else {
            let parent = self.demands[k].parent.clone();
            self.systems.push(FsDemand { fs_id, parent, required: bytes, available });
        }
        assert(fs_views(self.systems@) =~= fs_charged(
            all,
            fs_id,
            old(self)@.demands[k as int].parent,
            bytes,
            available,
        ));
        let system = &self.systems[at];
        assert(fs_views(self.systems@)[at as int] == system@);
        if system.available < system.required {
            return Err(
                PreflightError::InsufficientSpace {
                    parent: system.parent.clone(),
                    required: system.required,
                    available: system.available,
                },
            );
        }
        Ok(())
    }
}

/// Where the checks stand.
#[derive(Debug, Clone, Copy, PartialEq, Eq, Structural)]
pub enum PreflightPhase {
    /// A destination is looked at.
    Inspecting,
    /// The directory of a destination is created.
    Preparing,
    /// A directory is tried with a file.
    Probing,
    /// The free space of a directory is read.
    Measuring,
    Over,
}

/// What the checks ask for.
#[derive(Debug, Clone, Copy, PartialEq, Eq, Structural)]
pub enum PreflightStep {
    /// Look whether the destination is a directory.
    Inspect,
    /// Create the directory of the destination.
    Prepare,
    /// Try whether a file can be written into the directory.
    Probe,
    /// Read the file system of the directory, and what is free on it.
    Measure,
    /// The transfer can begin.
    Finish,
}

/// What came of a step.
#[derive(Debug, Clone, Copy, PartialEq, Eq, Structural)]
pub enum PreflightEvent {
    Inspected {
        is_directory: bool,
    },
    Prepared,
    Writable,
    Measured {
        fs_id: u64,
        available: u64,
    },
}

/// The checks before some items are transferred.
pub struct PreflightRun {
    items: Vec<TransferItem>,
    checks: Preflight,
    phase: PreflightPhase,
    at: usize,
}

/// The contents of a `PreflightRun`.
pub struct RunView {
    pub items: Seq<ItemView>,
    pub checks: PreflightView,
    pub phase: PreflightPhase,
    /// The number of the item, or of the directory, that is checked.
    pub at: int,
}

impl View for PreflightRun {
    type V = RunView;

    closed spec fn view(&self) -> RunView {
        RunView {
            items: item_views(self.items@),
            checks: self.checks@,
            phase: self.phase,
            at: self.at as int,
        }
    }
}

impl RunView {
    /// The checks of some items before the first.
    pub open spec fn started(items: Seq<ItemView>) -> RunView {
        RunView {
            items,
            checks: PreflightView { demands: Seq::empty(), systems: Seq::empty() },
            phase: if items.len() > 0 {
                PreflightPhase::Inspecting
            } else {
                PreflightPhase::Over
            },
            at: 0,
        }
    }

    pub open spec fn to(self, phase: PreflightPhase, at: int) -> RunView {
        RunView { phase, at, ..self }
    }

    /// What the checks ask for.
    pub open spec fn asks(self) -> PreflightStep {
        match self.phase {
            PreflightPhase::Inspecting => PreflightStep::Inspect,
            PreflightPhase::Preparing => PreflightStep::Prepare,
            PreflightPhase::Probing => PreflightStep::Probe,
            PreflightPhase::Measuring => PreflightStep::Measure,
            PreflightPhase::Over => PreflightStep::Finish,
        }
    }

    /// Whether an event answers what the checks ask for.
    pub open spec fn expects(self, event: PreflightEvent) -> bool {
        match self.phase {
            PreflightPhase::Inspecting => event is Inspected,
            PreflightPhase::Preparing => event is Prepared,
            PreflightPhase::Probing => event is Writable,
            PreflightPhase::Measuring => event is Measured,
            PreflightPhase::Over => false,
        }
    }

    /// Whether the item or directory that is checked is there, and the sizes fit.
    pub open spec fn wf(self) -> bool {
        match self.phase {
            PreflightPhase::Inspecting => 0 <= self.at < self.items.len() && demanded(
                self.checks.demands,
            ) + sum_sizes(self.items.skip(self.at)) <= u64::MAX,
            PreflightPhase::Preparing => 0 <= self.at < self.items.len() && demanded(
                self.checks.demands,
            ) + sum_sizes(self.items.skip(self.at)) <= u64::MAX && parent_of(
                self.items[self.at].destination,
            ) is Some,
            PreflightPhase::Probing => 0 <= self.at < self.checks.demands.len(),
            PreflightPhase::Measuring => 0 <= self.at < self.checks.demands.len(),
            PreflightPhase::Over => true,
        }
    }

    /// The directory of the item is there: what is to be written is charged to it,
    /// and the next item follows, or the first directory behind the last item.
    pub open spec fn prepared(self) -> RunView {
        let item = self.items[self.at];
        let after = RunView {
            checks: PreflightView {
                demands: charged(
                    self.checks.demands,
                    parent_of(item.destination)->0,
                    item.size,
                ),
                ..self.checks
            },
            ..self
        };
        if self.at + 1 < self.items.len() {
            after.to(PreflightPhase::Inspecting, self.at + 1)
        } else {
            after.to(PreflightPhase::Probing, 0)
        }
    }

    /// The file system of the directory is known, and what is free on it: what is
    /// to be written there must fit with all that came before.
    pub open spec fn measured(self, fs_id: u64, available: u64) -> (RunView, Option<FaultView>) {
        let demand = self.checks.demands[self.at];
        let systems = fs_charged(
            self.checks.systems,
            fs_id,
            demand.parent,
            demand.bytes,
            available,
        );
        let system = systems[fs_position(self.checks.systems, fs_id)];
        let after = RunView { checks: PreflightView { systems, ..self.checks }, ..self };
        if system.required > system.available {
            (
                after.to(PreflightPhase::Over, self.at),
                Some(
                    FaultView::InsufficientSpace {
                        parent: system.parent,
                        required: system.required,
                        available: system.available,
                    },
                ),
            )
        } else if self.at + 1 < self.checks.demands.len() {
            (after.to(PreflightPhase::Probing, self.at + 1), None)
        } else {
            (after.to(PreflightPhase::Over, self.at), None)
        }
    }

    /// The checks after an event, and what is wrong if something is.
    pub open spec fn next(self, event: PreflightEvent) -> (RunView, Option<FaultView>) {
        match event {
            PreflightEvent::Inspected { is_directory } => {
                let fault = fault_of(self.items[self.at].destination, is_directory);
                if fault is Some {
                    (self.to(PreflightPhase::Over, self.at), fault)
                } else {
                    (self.to(PreflightPhase::Preparing, self.at), None)
                }
            },
            PreflightEvent::Prepared => (self.prepared(), None),
            PreflightEvent::Writable => (self.to(PreflightPhase::Measuring, self.at), None),
            PreflightEvent::Measured { fs_id, available } => self.measured(fs_id, available),
        }
    }
}

proof fn lemma_charged_not_empty(list: Seq<DemandView>, parent: Seq<u8>, bytes: u64)
    ensures
        charged(list, parent, bytes).len() > 0,
        charged(list, parent, bytes).len() >= list.len(),
{
    lemma_position(list, parent);
}

/// Begins the checks before some items are transferred.
pub fn preflight_pending_destinations(items: Vec<TransferItem>) -> (r: (PreflightRun, PreflightStep))
    requires
        sum_sizes(item_views(items@)) <= u64::MAX,
    ensures
        r.0.wf(),
        r.0@ == RunView::started(item_views(items@)),
        r.1 == r.0@.asks(),
{
    let phase = if items.len() > 0 {
        PreflightPhase::Inspecting
    } else {
        PreflightPhase::Over
    };
    let checks = Preflight::new();
    let run = PreflightRun { items, checks, phase, at: 0 };
    proof {
        assert(item_views(items@).len() == items@.len());
        assert(item_views(items@).skip(0) =~= item_views(items@));
        assert(run@.checks.demands =~= Seq::<DemandView>::empty());
        assert(run@.checks.systems =~= Seq::<FsView>::empty());
    }
    let step = run.asks();
    (run, step)
}

impl PreflightRun {
    /// Whether the item or directory that is checked is there, and the sizes fit.
    pub closed spec fn wf(&self) -> bool {
        self@.wf()
    }

    /// What the checks ask for.
    fn asks(&self) -> (r: PreflightStep)
        ensures
            r == self@.asks(),
    {
        match self.phase {
            PreflightPhase::Inspecting => PreflightStep::Inspect,
            PreflightPhase::Preparing => PreflightStep::Prepare,
            PreflightPhase::Probing => PreflightStep::Probe,
            PreflightPhase::Measuring => PreflightStep::Measure,
            PreflightPhase::Over => PreflightStep::Finish,
        }
    }

    /// The destination that is checked.
    pub fn destination(&self) -> (r: &FilePath)
        requires
            self.wf(),
            self@.phase is Inspecting || self@.phase is Preparing,
        ensures
            r@ == self@.items[self@.at].destination,
    {
        assert(item_views(self.items@).len() == self.items@.len());
        &self.items[self.at].destination
    }

    /// The directory that is created or checked.
    pub fn directory(&self) -> (r: FilePath)
        requires
            self.wf(),
            self@.phase is Preparing || self@.phase is Probing || self@.phase is Measuring,
        ensures
            self@.phase is Preparing ==> parent_of(self@.items[self@.at].destination) == Some(r@),
            !(self@.phase is Preparing) ==> r@ == self@.checks.demands[self@.at].parent,
    {
        assert(item_views(self.items@).len() == self.items@.len());
        if let PreflightPhase::Preparing = self.phase {
            self.items[self.at].destination.parent().unwrap()
        } else {
            self.checks.directory(self.at).clone()
        }
    }

    fn prepared(&mut self)
        requires
            old(self).wf(),
            old(self)@.phase is Preparing,
        ensures
            final(self).wf(),
            final(self)@ == old(self)@.prepared(),
    {
        let ghost all = item_views(self.items@);
        let ghost rest = all.skip(self.at as int);
        let parent = self.directory();
        let bytes = self.items[self.at].size;
        proof {
            assert(all.len() == self.items@.len());
            assert(rest[0] == all[self.at as int]);
            assert(rest.skip(1) =~= all.skip(self.at + 1));
            crate::queue::lemma_sum_sizes_first(rest);
            lemma_charged_not_empty(self.checks@.demands, parent@, bytes);
        }
        self.checks.charge(parent, bytes);
        let count = self.items.len();
        if self.at + 1 < count {
            self.at = self.at + 1;
            self.phase = PreflightPhase::Inspecting;
        } else {
            self.at = 0;
            self.phase = PreflightPhase::Probing;
        }
    }

    fn measured(&mut self, fs_id: u64, available: u64) -> (r: Option<PreflightError>)
        requires
            old(self).wf(),
            old(self)@.phase is Measuring,
        ensures
            final(self).wf(),
            final(self)@ == old(self)@.measured(fs_id, available).0,
            match r {
                None => old(self)@.measured(fs_id, available).1 is None,
                Some(e) => old(self)@.measured(fs_id, available).1 == Some(e@),
            },
    {
        match self.checks.check_space(self.at, fs_id, available) {
            Err(e) => {
                self.phase = PreflightPhase::Over;
                Some(e)
            },
            Ok(_) => {
                let count = self.checks.directories();
                if self.at + 1 < count {
                    self.at = self.at + 1;
                    self.phase = PreflightPhase::Probing;
                } else {
                    self.phase = PreflightPhase::Over;
                }
                None
            },
        }
    }

    /// Takes note of what came of a step, and tells the next one, or what is wrong.
    pub fn step(&mut self, event: PreflightEvent) -> (r: Result<PreflightStep, PreflightError>)
        requires
            old(self).wf(),
            old(self)@.expects(event),
        ensures
            final(self).wf(),
            final(self)@ == old(self)@.next(event).0,
            match r {
                Ok(step) => old(self)@.next(event).1 is None && step == final(self)@.asks(),
                Err(e) => old(self)@.next(event).1 == Some(e@),
            },
    {
        match event {
            PreflightEvent::Inspected { is_directory } => {
                match Preflight::check_destination(self.destination(), is_directory) {
                    Err(e) => {
                        self.phase = PreflightPhase::Over;
                        return Err(e);
                    },
                    Ok(_) => {
                        self.phase = PreflightPhase::Preparing;
                    },
                }
            },
            PreflightEvent::Prepared => self.prepared(),
            PreflightEvent::Writable => {
                self.phase = PreflightPhase::Measuring;
            },
            PreflightEvent::Measured { fs_id, available } => {
                if let Some(e) = self.measured(fs_id, available) {
                    return Err(e);
                }
            },
        }
        Ok(self.asks())
    }
}

/// The checks take their order: a directory is created only for a destination that
/// can be one, directories are tried only behind the last item, and the transfer
/// can begin only when the last directory has room.
pub proof fn lemma_preflight_order(run: RunView, event: PreflightEvent)
    requires
        run.wf(),
        run.expects(event),
    ensures
        ({
            let (after, fault) = run.next(event);
            &&& fault is None && after.asks() is Prepare ==> (event matches
                PreflightEvent::Inspected { is_directory } && fault_of(
                run.items[run.at].destination,
                is_directory,
            ) is None)
            &&& run.phase is Preparing && after.asks() is Probe ==> run.at + 1 == run.items.len()
            &&& fault is None && after.asks() is Finish ==> event is Measured && run.at + 1
                == run.checks.demands.len()
            &&& event is Prepared ==> demanded(after.checks.demands) == demanded(
                run.checks.demands,
            ) + run.items[run.at].size
            &&& !(event is Prepared) ==> after.checks.demands == run.checks.demands
        }),
{
    if event is Prepared {
        let rest = run.items.skip(run.at);
        assert(rest[0] == run.items[run.at]);
        crate::queue::lemma_sum_sizes_first(rest);
        lemma_charging_adds(
            run.checks.demands,
            parent_of(run.items[run.at].destination)->0,
            run.items[run.at].size,
        );
    }
}

/// Whether each file system has room for what is to be written on it.
pub open spec fn all_have_room(systems: Seq<FsView>) -> bool {
    forall|i: int| 0 <= i < systems.len() ==> (#[trigger] systems[i]).required
        <= systems[i].available
}

/// As long as nothing is wrong, every file system that was looked at has room for
/// all that is to be written on it, and so when the transfer can begin.
pub proof fn lemma_checked_systems_have_room(run: RunView, event: PreflightEvent)
    requires
        run.wf(),
        run.expects(event),
        all_have_room(run.checks.systems),
    ensures
        run.next(event).1 is None ==> all_have_room(run.next(event).0.checks.systems),
        all_have_room(RunView::started(run.items).checks.systems),
{
    if let PreflightEvent::Measured { fs_id, available } = event {
        lemma_fs_position(run.checks.systems, fs_id);
        let after = run.next(event).0.checks.systems;
        if run.next(event).1 is None {
            assert forall|i: int| 0 <= i < after.len() implies (#[trigger] after[i]).required
                <= after[i].available by {
                if i != fs_position(run.checks.systems, fs_id) {
                    assert(after[i] == run.checks.systems[i]);
                }
            }
        }
    }
}

/// What a list of file systems shows for one of them.
pub open spec fn required_on(list: Seq<FsView>, fs_id: u64) -> nat {
    let k = fs_position(list, fs_id);
    if k < list.len() {
        list[k].required as nat
    } else {
        0
    }
}

/// All that is to be written on a file system is charged to it, and to no
/// other; so a directory that fits after those before it leaves all of them
/// room.
pub proof fn lemma_space_adds_up(
    list: Seq<FsView>,
    fs_id: u64,
    parent: Seq<u8>,
    bytes: u64,
    available: u64,
    other: u64,
)
    requires
        required_on(list, fs_id) + bytes <= u64::MAX,
    ensures
        required_on(fs_charged(list, fs_id, parent, bytes, available), other) == required_on(
            list,
            other,
        ) + if other == fs_id {
            bytes as nat
        } else {
            0
        },
{
    lemma_fs_position(list, fs_id);
    lemma_fs_position(list, other);
    let k = fs_position(list, fs_id);
    let after = fs_charged(list, fs_id, parent, bytes, available);
    let o = fs_position(list, other);
    if other == fs_id {
        assert forall|i: int| 0 <= i < k implies (#[trigger] after[i]).fs_id != fs_id by {
            assert(after[i] == list[i]);
        }
        lemma_fs_position_unique(after, fs_id, k);
    } else {
        let place = if o < list.len() {
            o
        } else {
            after.len() as int
        };
        assert forall|i: int| 0 <= i < place implies (#[trigger] after[i]).fs_id != other by {
            if i < list.len() {
                assert(list[i].fs_id != other);
            }
        }
        lemma_fs_position_unique(after, other, place);
    }
}

/// What is wrong with a destination: it has no name, or is a directory, or stands in
/// none, in this order; and nothing else is.
pub proof fn lemma_faults(destination: Seq<u8>, is_directory: bool)
    ensures
        ({
            let named = file_name_of(destination) is Some;
            let placed = parent_of(destination) is Some;
            let fault = fault_of(destination, is_directory);
            &&& fault is None <==> named && !is_directory && placed
            &&& !named ==> fault == Some(FaultView::InvalidDestination(destination))
            &&& named && is_directory ==> fault == Some(FaultView::IsDirectory(destination))
            &&& named && !is_directory && !placed ==> fault == Some(FaultView::NoParent)
        }),
{
}

/// What is to be written into a directory.
pub open spec fn demanded_in(list: Seq<DemandView>, parent: Seq<u8>) -> nat {
    let k = position_of(list, parent);
    if k < list.len() {
        list[k].bytes as nat
    } else {
        0
    }
}

/// A file is charged to its own directory with its size, and to no other.
pub proof fn lemma_charged_to_its_directory(
    list: Seq<DemandView>,
    parent: Seq<u8>,
    bytes: u64,
    other: Seq<u8>,
)
    requires
        demanded(list) + bytes <= u64::MAX,
    ensures
        demanded_in(charged(list, parent, bytes), parent) == demanded_in(list, parent) + bytes,
        components(other) != components(parent) ==> demanded_in(
            charged(list, parent, bytes),
            other,
        ) == demanded_in(list, other),
{
    lemma_position(list, parent);
    lemma_position(list, other);
    let k = position_of(list, parent);
    let after = charged(list, parent, bytes);
    if k < list.len() {
        lemma_demanded_update(list, k, list[k]);
    }
    assert forall|i: int| 0 <= i < k implies components(#[trigger] after[i].parent) != components(
        parent,
    ) by {
        assert(after[i] == list[i]);
    }
    lemma_position_unique(after, parent, k);
    if components(other) != components(parent) {
        let o = position_of(list, other);
        let place = if o < list.len() {
            o
        } else {
            after.len() as int
        };
        assert forall|i: int| 0 <= i < place implies components(#[trigger] after[i].parent)
            != components(other) by {
            if i < list.len() {
                assert(components(list[i].parent) != components(other));
            }
        }
        lemma_position_unique(after, other, place);
    }
}

/// A directory is refused exactly where what is to be written on its file system,
/// with what was charged to it before, is more than what the first look there found
/// free; and it is charged to its own file system alone.
pub proof fn lemma_room_decides(run: RunView, fs_id: u64, available: u64)
    requires
        run.wf(),
        run.phase is Measuring,
        required_on(run.checks.systems, fs_id) + run.checks.demands[run.at].bytes <= u64::MAX,
    ensures
        ({
            let (after, fault) = run.measured(fs_id, available);
            let k = fs_position(run.checks.systems, fs_id);
            let free = if k < run.checks.systems.len() {
                run.checks.systems[k].available
            } else {
                available
            };
            let required = required_on(run.checks.systems, fs_id)
                + run.checks.demands[run.at].bytes;
            &&& fault is Some <==> required > free
            &&& fault matches Some(f) ==> (f matches FaultView::InsufficientSpace {
                required: r,
                available: a,
                ..
            } && r == required && a == free)
            &&& required_on(after.checks.systems, fs_id) == required
            &&& after.phase is Over <==> fault is Some || run.at + 1 == run.checks.demands.len()
            &&& after.phase is Probing <==> fault is None && run.at + 1 < run.checks.demands.len()
            &&& after.phase is Probing ==> after.at == run.at + 1
        }),
{
    lemma_fs_position(run.checks.systems, fs_id);
    lemma_space_adds_up(
        run.checks.systems,
        fs_id,
        run.checks.demands[run.at].parent,
        run.checks.demands[run.at].bytes,
        available,
        fs_id,
    );
}

/// What the checks do next: each item is looked at and its directory made, in order;
/// then each directory is tried and measured, in order.
pub proof fn lemma_preflight_steps(run: RunView, event: PreflightEvent)
    requires
        run.wf(),
        run.expects(event),
    ensures
        ({
            let (after, fault) = run.next(event);
            &&& after.phase is Preparing <==> event is Inspected && fault is None
            &&& after.phase is Preparing ==> after.at == run.at
            &&& after.phase is Inspecting <==> event is Prepared && run.at + 1 < run.items.len()
            &&& after.phase is Inspecting ==> after.at == run.at + 1
            &&& event is Prepared && run.at + 1 == run.items.len() ==> after.phase is Probing
                && after.at == 0
            &&& after.phase is Measuring <==> event is Writable
            &&& after.phase is Measuring ==> after.at == run.at
            &&& fault is Some ==> event is Inspected || event is Measured
            &&& after.items == run.items
            &&& run.asks() is Inspect <==> run.phase is Inspecting
            &&& run.asks() is Prepare <==> run.phase is Preparing
            &&& run.asks() is Probe <==> run.phase is Probing
            &&& run.asks() is Measure <==> run.phase is Measuring
            &&& RunView::started(run.items).at == 0
            &&& RunView::started(run.items).phase is Over <==> run.items.len() == 0
        }),
{
}

/// What is told of a destination that cannot be used: which it is, and how much room
/// is needed and there.
pub proof fn lemma_faults_told(fault: PreflightError)
    ensures
        fault matches PreflightError::InvalidDestination(p) ==> fault.text()
            == "Invalid destination path: "@ + utf8_lossy(p@),
        fault matches PreflightError::IsDirectory(p) ==> fault.text()
            == "Destination path points to a directory, expected a file path: "@ + utf8_lossy(p@),
        fault is NoParent ==> fault.text() == "Destination has no parent directory"@,
        fault matches PreflightError::InsufficientSpace { parent, required, available }
            ==> fault.text() == "Insufficient free space on filesystem for "@ + utf8_lossy(parent@)
            + ": need "@ + size_text(required) + ", available "@ + size_text(available),
{
}

} // verus!
