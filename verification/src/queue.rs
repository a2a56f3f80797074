//! The queue of files to transfer.

use crate::channel::{
    clone_sender, command_channel, feeds, item_channel, looks_at, paired, recv_item_timeout,
    send_item, try_recv_item, try_recv_queued_command, waiting,
};
use crate::order::{
    lemma_path_le_total, lemma_path_le_transitive, path_le, paths_in_order, rearranges,
    sort_positions, Ranking,
};
use crate::path::{
    below, components, file_name_of, joined, lemma_components_nonempty, lemma_current_only_first,
    lemma_joined_components, lemma_stripped_components, stripped, FilePath,
};
use crossbeam::channel::{Receiver, Sender};
use std::collections::VecDeque;
use vstd::prelude::*;

verus! {

/// How many seconds two times of modification may differ and still count as
/// the same.
pub const UPDATE_MTIME_TOLERANCE_SECS: u64 = 2;

/// A file to transfer.
#[derive(Debug)]
pub struct TransferItem {
    pub source: FilePath,
    pub destination: FilePath,
    pub size: u64,
    /// The directory that the file was found in, if it was queued with one.
    pub cleanup_root: Option<FilePath>,
}

/// The contents of a `TransferItem`.
pub struct ItemView {
    pub source: Seq<u8>,
    pub destination: Seq<u8>,
    pub size: u64,
    pub cleanup_root: Option<Seq<u8>>,
}

/// The contents of an optional path.
pub open spec fn path_view(p: Option<FilePath>) -> Option<Seq<u8>> {
    match p {
        Some(path) => Some(path@),
        None => None,
    }
}

impl View for TransferItem {
    type V = ItemView;

    open spec fn view(&self) -> ItemView {
        ItemView {
            source: self.source@,
            destination: self.destination@,
            size: self.size,
            cleanup_root: path_view(self.cleanup_root),
        }
    }
}

/// A copy of an optional path.
pub fn clone_path(p: &Option<FilePath>) -> (r: Option<FilePath>)
    ensures
        path_view(r) == path_view(*p),
{
    match p {
        Some(path) => Some(path.clone()),
        None => None,
    }
}

impl Clone for TransferItem {
    fn clone(&self) -> (r: TransferItem)
        ensures
            r@ == self@,
    {
        TransferItem {
            source: self.source.clone(),
            destination: self.destination.clone(),
            size: self.size,
            cleanup_root: clone_path(&self.cleanup_root),
        }
    }
}

/// The contents of a list of items.
pub open spec fn item_views(items: Seq<TransferItem>) -> Seq<ItemView> {
    items.map_values(|item: TransferItem| item@)
}

/// A command to a transfer that runs.
#[derive(Debug, Clone, Copy, PartialEq, Eq, Structural)]
pub enum QueueCommand {
    /// Stop all transfers.
    Stop,
    /// The transfer is over: stop watching it.
    Terminate,
}

/// What came of adding files to a queue.
#[derive(Debug, Clone, Copy, PartialEq, Eq, Structural)]
pub struct QueueAddSummary {
    pub queued_files: usize,
    pub skipped_files: usize,
}

impl Default for QueueAddSummary {
    fn default() -> (r: QueueAddSummary)
        ensures
            r.queued_files == 0,
            r.skipped_files == 0,
    {
        QueueAddSummary { queued_files: 0, skipped_files: 0 }
    }
}

/// A point in time: seconds since the epoch, which may be negative, and
/// nanoseconds after that second.
#[derive(Debug, Clone, Copy, PartialEq, Eq, Structural)]
pub struct FileTime {
    pub secs: i64,
    pub nanos: u32,
}

/// What the file system knows of a file.
#[derive(Debug, Clone, Copy, PartialEq, Eq, Structural)]
pub struct FileMeta {
    pub len: u64,
    pub is_file: bool,
    /// When the file was last modified, where the system can tell.
    pub modified: Option<FileTime>,
}

/// A file or directory found below a directory.
#[derive(Debug)]
pub struct WalkEntry {
    pub path: FilePath,
    pub is_file: bool,
    pub meta: FileMeta,
    /// What stands at its destination, if anything does.
    pub destination_meta: Option<FileMeta>,
}

/// Why files cannot be queued.
#[derive(Debug, Clone, Copy, PartialEq, Eq, Structural)]
pub enum QueueError {
    /// The source of a file ends in no name.
    InvalidFileName,
    /// The source directory ends in no name.
    InvalidDirectoryName,
    /// A file does not stand below the directory it is queued with.
    OutsideDirectory,
    /// The source cannot be read.
    Unreadable,
}

impl QueueError {
    /// The message of an error.
    pub open spec fn text(self) -> Seq<char> {
        match self {
            QueueError::InvalidFileName => "Invalid file name"@,
            QueueError::InvalidDirectoryName => "Invalid directory name"@,
            QueueError::OutsideDirectory => "prefix not found"@,
            QueueError::Unreadable => "Failed to read the source"@,
        }
    }

    /// The message of an error.
    pub fn message(&self) -> (r: String)
        ensures
            r@ == self.text(),
    {
        match self {
            QueueError::InvalidFileName => "Invalid file name".to_owned(),
            QueueError::InvalidDirectoryName => "Invalid directory name".to_owned(),
            QueueError::OutsideDirectory => "prefix not found".to_owned(),
            QueueError::Unreadable => "Failed to read the source".to_owned(),
        }
    }
}

/// A point in time in nanoseconds.
pub open spec fn in_nanos(t: FileTime) -> int {
    t.secs * 1_000_000_000 + t.nanos
}

/// Whether two times differ by no more than whole seconds of the tolerance.
pub open spec fn close_enough(a: FileTime, b: FileTime) -> bool {
    let difference = if in_nanos(a) >= in_nanos(b) {
        in_nanos(a) - in_nanos(b)
    } else {
        in_nanos(b) - in_nanos(a)
    };
    difference / 1_000_000_000 <= UPDATE_MTIME_TOLERANCE_SECS
}

/// Whether two times of modification count as the same.
pub fn mtime_close_enough(src: FileTime, dst: FileTime) -> (r: bool)
    ensures
        r == close_enough(src, dst),
{
    let a: i128 = src.secs as i128 * 1_000_000_000 + src.nanos as i128;
    let b: i128 = dst.secs as i128 * 1_000_000_000 + dst.nanos as i128;
    let difference: i128 = if a >= b {
        a - b
    } else {
        b - a
    };
    difference / 1_000_000_000 <= UPDATE_MTIME_TOLERANCE_SECS as i128
}

/// Whether a destination already holds the source: a file of the same length,
/// modified at about the same time.
pub open spec fn unchanged(source: FileMeta, destination: Option<FileMeta>) -> bool {
    match destination {
        None => false,
        Some(dest) => {
            &&& dest.is_file
            &&& source.len == dest.len
            &&& source.modified is Some
            &&& dest.modified is Some
            &&& close_enough(source.modified->0, dest.modified->0)
        },
    }
}

/// Whether a destination already holds the source.
pub fn destination_is_unchanged(source_meta: &FileMeta, destination: &Option<FileMeta>) -> (r: bool)
    ensures
        r == unchanged(*source_meta, *destination),
{
    match destination {
        None => false,
        Some(dest) => {
            if !dest.is_file || source_meta.len != dest.len {
                return false;
            }
            match (source_meta.modified, dest.modified) {
                (Some(src), Some(dst)) => mtime_close_enough(src, dst),
                _ => false,
            }
        },
    }
}

/// The sizes of some items together.
pub open spec fn sum_sizes(items: Seq<ItemView>) -> nat
    decreases items.len(),
{
    if items.len() == 0 {
        0
    } else {
        sum_sizes(items.drop_last()) + items.last().size as nat
    }
}

proof fn lemma_sum_sizes_add(a: Seq<ItemView>, b: Seq<ItemView>)
    ensures
        sum_sizes(a + b) == sum_sizes(a) + sum_sizes(b),
    decreases b.len(),
{
    if b.len() == 0 {
        assert(a + b =~= a);
    } else {
        lemma_sum_sizes_add(a, b.drop_last());
        assert((a + b).drop_last() =~= a + b.drop_last());
    }
}

/// The sizes of some items are that of the first with those of the others.
pub proof fn lemma_sum_sizes_first(items: Seq<ItemView>)
    requires
        items.len() > 0,
    ensures
        sum_sizes(items) == items[0].size + sum_sizes(items.skip(1)),
{
    let first = items.take(1);
    assert(items =~= first + items.skip(1));
    lemma_sum_sizes_add(first, items.skip(1));
    assert(first.drop_last() =~= Seq::<ItemView>::empty());
    assert(sum_sizes(first.drop_last()) == 0);
}

/// Where a file goes in a directory: under its own name.
pub open spec fn file_target(source: Seq<u8>, root: Seq<u8>) -> Option<Seq<u8>> {
    match file_name_of(source) {
        Some(name) => Some(joined(root, name)),
        None => None,
    }
}

/// Where a file below a directory goes when the directory is transferred: to
/// the same place below the directory of that name at the destination.
pub open spec fn nested_target(
    path: Seq<u8>,
    directory: Seq<u8>,
    root: Seq<u8>,
) -> Option<Seq<u8>> {
    match (file_target(directory, root), stripped(path, directory)) {
        (Some(target), Some(rest)) => Some(joined(target, rest)),
        _ => None,
    }
}

/// Where a file goes in a directory.
pub fn file_destination(source: &FilePath, dest_root: &FilePath) -> (r: Result<
    FilePath,
    QueueError,
>)
    ensures
        match r {
            Ok(path) => file_target(source@, dest_root@) == Some(path@),
            Err(e) => file_name_of(source@) is None && e == QueueError::InvalidFileName,
        },
{
    match source.file_name() {
        Some(name) => Ok(dest_root.join(&FilePath::from_bytes(name))),
        None => Err(QueueError::InvalidFileName),
    }
}

/// Where a file below a directory goes when the directory is transferred.
pub fn nested_destination(path: &FilePath, directory: &FilePath, dest_root: &FilePath) -> (r:
    Result<FilePath, QueueError>)
    ensures
        match r {
            Ok(p) => nested_target(path@, directory@, dest_root@) == Some(p@),
            Err(QueueError::InvalidDirectoryName) => file_name_of(directory@) is None,
            Err(e) => file_name_of(directory@) is Some && stripped(path@, directory@) is None && e
                == QueueError::OutsideDirectory,
        },
{
    let target = match directory.file_name() {
        Some(name) => dest_root.join(&FilePath::from_bytes(name)),
        None => {
            return Err(QueueError::InvalidDirectoryName);
        },
    };
    match path.strip_prefix(directory) {
        Some(rest) => Ok(target.join(&rest)),
        None => Err(QueueError::OutsideDirectory),
    }
}

/// Whether an entry is queued: a file that its destination does not hold yet,
/// or any file where nothing is to be skipped.
pub open spec fn queues(entry: WalkEntry, update_mode: bool) -> bool {
    entry.is_file && !(update_mode && unchanged(entry.meta, entry.destination_meta))
}

/// Whether an entry is skipped because its destination holds it.
pub open spec fn skips(entry: WalkEntry, update_mode: bool) -> bool {
    entry.is_file && update_mode && unchanged(entry.meta, entry.destination_meta)
}

/// The item of a file below a directory.
pub open spec fn nested_item(entry: WalkEntry, directory: Seq<u8>, root: Seq<u8>) -> ItemView {
    ItemView {
        source: entry.path@,
        destination: nested_target(entry.path@, directory, root)->0,
        size: entry.meta.len,
        cleanup_root: Some(directory),
    }
}

/// The items of a directory, as its files were found.
pub open spec fn gathered(
    entries: Seq<WalkEntry>,
    directory: Seq<u8>,
    root: Seq<u8>,
    update_mode: bool,
) -> Seq<ItemView>
    decreases entries.len(),
{
    if entries.len() == 0 {
        Seq::empty()
    } else {
        let front = gathered(entries.drop_last(), directory, root, update_mode);
        if queues(entries.last(), update_mode) {
            front.push(nested_item(entries.last(), directory, root))
        } else {
            front
        }
    }
}

/// How many files of a directory are skipped.
pub open spec fn skipped_count(entries: Seq<WalkEntry>, update_mode: bool) -> nat
    decreases entries.len(),
{
    if entries.len() == 0 {
        0
    } else {
        skipped_count(entries.drop_last(), update_mode) + if skips(entries.last(), update_mode) {
            1nat
        } else {
            0nat
        }
    }
}

/// Whether every file among the entries stands below the directory.
pub open spec fn all_below(entries: Seq<WalkEntry>, directory: Seq<u8>) -> bool {
    forall|i: int|
        0 <= i < entries.len() && (#[trigger] entries[i]).is_file ==> stripped(
            entries[i].path@,
            directory,
        ) is Some
}

/// Whether items stand in the order of their sources.
pub open spec fn by_source(items: Seq<ItemView>) -> bool {
    forall|i: int, j: int|
        0 <= i <= j < items.len() ==> path_le(#[trigger] items[i].source, #[trigger] items[j].source)
}

/// The items at the positions of `order`.
pub open spec fn picked(items: Seq<ItemView>, order: Seq<usize>) -> Seq<ItemView> {
    Seq::new(order.len(), |k: int| items[order[k] as int])
}

/// Whether `sorted` holds the same items as `items`, in the order of their
/// sources.
pub open spec fn sorted_by_source(sorted: Seq<ItemView>, items: Seq<ItemView>) -> bool {
    &&& by_source(sorted)
    &&& exists|order: Seq<usize>|
        #[trigger] rearranges(order, items.len()) && sorted == picked(items, order)
}

struct BySource<'a> {
    items: &'a Vec<TransferItem>,
}

impl<'a> Ranking for BySource<'a> {
    closed spec fn may_precede(&self, i: int, j: int) -> bool {
        path_le(self.items@[i].source@, self.items@[j].source@)
    }

    closed spec fn positions(&self) -> nat {
        self.items@.len()
    }

    proof fn lemma_ordered(&self, i: int, j: int, k: int) {
        let a = self.items@[i].source@;
        let b = self.items@[j].source@;
        let c = self.items@[k].source@;
        lemma_path_le_total(a, b);
        if path_le(a, b) && path_le(b, c) {
            lemma_path_le_transitive(a, b, c);
        }
    }

    fn precedes(&self, i: usize, j: usize) -> (r: bool) {
        paths_in_order(&self.items[i].source, &self.items[j].source)
    }
}

/// The items in the order of their sources.
fn sort_by_source(items: &Vec<TransferItem>) -> (r: Vec<TransferItem>)
    ensures
        sorted_by_source(item_views(r@), item_views(items@)),
{
    let ranking = BySource { items };
    let order = sort_positions(items.len(), &ranking);
    let ghost views = item_views(items@);
    let mut r: Vec<TransferItem> = Vec::new();
    let mut k: usize = 0;
    while k < order.len()
        invariant
            k <= order@.len(),
            rearranges(order@, items@.len()),
            views == item_views(items@),
            item_views(r@) == picked(views, order@).take(k as int),
        decreases order@.len() - k,
    {
        let ghost before = item_views(r@);
        r.push(items[order[k]].clone());
        k = k + 1;
        assert(item_views(r@) =~= before.push(views[order@[k - 1] as int]));
        assert(picked(views, order@).take(k as int) =~= picked(views, order@).take(k - 1).push(
            views[order@[k - 1] as int],
        ));
    }
    proof {
        let sorted = item_views(r@);
        assert(views.len() == items@.len());
        assert(rearranges(order@, views.len()));
        assert(picked(views, order@).take(order@.len() as int) =~= picked(views, order@));
        assert(sorted == picked(views, order@));
        assert forall|i: int, j: int| 0 <= i <= j < sorted.len() implies path_le(
            #[trigger] sorted[i].source,
            #[trigger] sorted[j].source,
        ) by {
            assert(ranking.may_precede(order@[i] as int, order@[j] as int));
        }
    }
    r
}

/// What a queue holds.
pub struct QueueView {
    /// The items that wait, the next one first.
    pub items: Seq<ItemView>,
    /// A number that changes with every change of the items.
    pub revision: u64,
}

/// The number after `n`, with zero behind the last one.
pub open spec fn successor(n: u64) -> u64 {
    if n == u64::MAX {
        0
    } else {
        (n + 1) as u64
    }
}

/// The queue with a batch behind its items. An empty batch changes nothing.
pub open spec fn extended(q: QueueView, batch: Seq<ItemView>) -> QueueView {
    if batch.len() == 0 {
        q
    } else {
        QueueView { items: q.items + batch, revision: successor(q.revision) }
    }
}

/// The queue with other items in place of its own.
pub open spec fn restored(q: QueueView, items: Seq<ItemView>) -> QueueView {
    QueueView { items, revision: successor(q.revision) }
}

/// The queue after its next item was taken, if it had one.
pub open spec fn advanced(q: QueueView) -> QueueView {
    if q.items.len() == 0 {
        q
    } else {
        QueueView { items: q.items.skip(1), revision: successor(q.revision) }
    }
}

/// The queue after `n` items were taken.
pub open spec fn drained(q: QueueView, n: nat) -> QueueView
    decreases n,
{
    if n == 0 {
        q
    } else {
        drained(advanced(q), (n - 1) as nat)
    }
}

/// What adding a file does: it is queued behind the items that wait, or skipped
/// where `update_mode` asks for that and its destination holds it already.
pub open spec fn file_added(
    before: QueueView,
    source: Seq<u8>,
    dest_root: Seq<u8>,
    meta: FileMeta,
    destination_meta: Option<FileMeta>,
    update_mode: bool,
    r: Result<QueueAddSummary, QueueError>,
    after: QueueView,
) -> bool {
    match file_target(source, dest_root) {
        None => r == Err::<QueueAddSummary, QueueError>(QueueError::InvalidFileName) && after
            == before,
        Some(destination) => if update_mode && unchanged(meta, destination_meta) {
            &&& r == Ok::<QueueAddSummary, QueueError>(
                (QueueAddSummary { queued_files: 0, skipped_files: 1 }),
            )
            &&& after == before
        } else {
            &&& r == Ok::<QueueAddSummary, QueueError>(
                (QueueAddSummary { queued_files: 1, skipped_files: 0 }),
            )
            &&& after == extended(
                before,
                seq![(ItemView { source, destination, size: meta.len, cleanup_root: None })],
            )
        },
    }
}

/// What adding a directory does: the files below it are queued in alphabetical
/// order, without those that `update_mode` lets skip because their destinations
/// hold them. Where it fails nothing is queued.
pub open spec fn directory_added(
    before: QueueView,
    source: Seq<u8>,
    dest_root: Seq<u8>,
    entries: Seq<WalkEntry>,
    update_mode: bool,
    r: Result<QueueAddSummary, QueueError>,
    after: QueueView,
) -> bool {
    match r {
        Err(e) => {
            &&& after == before
            &&& e == if file_name_of(source) is None {
                QueueError::InvalidDirectoryName
            } else {
                QueueError::OutsideDirectory
            }
            &&& file_name_of(source) is None || !all_below(entries, source)
        },
        Ok(summary) => {
            let found = gathered(entries, source, dest_root, update_mode);
            &&& file_name_of(source) is Some
            &&& all_below(entries, source)
            &&& summary.queued_files == found.len()
            &&& summary.skipped_files == skipped_count(entries, update_mode)
            &&& exists|batch: Seq<ItemView>|
                #[trigger] sorted_by_source(batch, found) && after == extended(before, batch)
        },
    }
}

/// The files that wait to be transferred, in order, with their number and size.
pub struct TransferQueue {
    items_tx: Sender<TransferItem>,
    items_rx: Receiver<TransferItem>,
    snapshot_items: VecDeque<TransferItem>,
    total_size: u64,
    pending_items: usize,
    revision: u64,
    cmd_tx: Sender<QueueCommand>,
    cmd_rx: Receiver<QueueCommand>,
}

impl View for TransferQueue {
    type V = QueueView;

    closed spec fn view(&self) -> QueueView {
        QueueView { items: item_views(self.snapshot_items@), revision: self.revision }
    }
}

impl TransferQueue {
    /// Whether the counters and the channel agree with the list of items.
    pub closed spec fn wf(&self) -> bool {
        &&& paired(self.items_tx, self.items_rx)
        &&& item_views(waiting(self.items_rx)) == item_views(self.snapshot_items@)
        &&& self.pending_items == self.snapshot_items@.len()
        &&& self.total_size == sum_sizes(item_views(self.snapshot_items@)) % 0x1_0000_0000_0000_0000
        &&& feeds(self.cmd_tx, self.cmd_rx)
    }

    /// The end at which the queue's commands arrive.
    pub closed spec fn commands(&self) -> Receiver<QueueCommand> {
        self.cmd_rx
    }

    /// What the looks for a command gave so far, the first look first.
    pub open spec fn looks(&self) -> Seq<Option<QueueCommand>> {
        looks_at(self.commands())
    }

    /// A queue without items.
    pub fn new() -> (r: TransferQueue)
        ensures
            r.wf(),
            r@.items == Seq::<ItemView>::empty(),
            r@.revision == 0,
            r.looks() == Seq::<Option<QueueCommand>>::empty(),
    {
        let (items_tx, items_rx) = item_channel();
        let (cmd_tx, cmd_rx) = command_channel();
        let r = TransferQueue {
            items_tx,
            items_rx,
            snapshot_items: VecDeque::new(),
            total_size: 0,
            pending_items: 0,
            revision: 0,
            cmd_tx,
            cmd_rx,
        };
        assert(item_views(r.snapshot_items@) =~= Seq::<ItemView>::empty());
        assert(item_views(waiting(r.items_rx)) =~= Seq::<ItemView>::empty());
        r
    }

    /// An end at which commands to this queue can be sent.
    pub fn get_sender(&self) -> (r: Sender<QueueCommand>)
        requires
            self.wf(),
        ensures
            feeds(r, self.commands()),
    {
        clone_sender(&self.cmd_tx)
    }

    /// Takes the oldest command that was sent to this queue and not yet taken, just
    /// as it came. One look is made, so that no other command is taken with it.
    /// Which it is depends on those who hold a sending end.
    pub fn try_recv_command(&mut self) -> (r: Option<QueueCommand>)
        requires
            old(self).wf(),
        ensures
            final(self).wf(),
            final(self)@ == old(self)@,
            final(self).looks() == old(self).looks().push(r),
            forall|tx: Sender<QueueCommand>|
                feeds(tx, old(self).commands()) ==> feeds(tx, final(self).commands()),
    {
        try_recv_queued_command(&mut self.cmd_rx)
    }

    /// Puts items behind those that wait.
    fn enqueue_batch(&mut self, batch: Vec<TransferItem>, batch_size: u64)
        requires
            old(self).wf(),
            batch_size == sum_sizes(item_views(batch@)),
        ensures
            final(self).wf(),
            final(self)@ == extended(old(self)@, item_views(batch@)),
            final(self).commands() == old(self).commands(),
    {
        let ghost before = item_views(self.snapshot_items@);
        let ghost views = item_views(batch@);
        if batch.len() == 0 {
            return;
        }
        let mut i: usize = 0;
        assert(before + views.take(0) =~= before);
        while i < batch.len()
            invariant
                i <= batch@.len(),
                views == item_views(batch@),
                paired(self.items_tx, self.items_rx),
                item_views(self.snapshot_items@) == before + views.take(i as int),
                item_views(waiting(self.items_rx)) == before + views.take(i as int),
                self.pending_items == old(self).pending_items,
                self.total_size == old(self).total_size,
                self.revision == old(self).revision,
                self.cmd_tx == old(self).cmd_tx,
                self.cmd_rx == old(self).cmd_rx,
            decreases batch@.len() - i,
        {
            let ghost seen = before + views.take(i as int);
            let ghost snapshot = self.snapshot_items@;
            let ghost queue = waiting(self.items_rx);
            self.snapshot_items.push_back(batch[i].clone());
            let item = batch[i].clone();
            let _ = send_item(&mut self.items_tx, &mut self.items_rx, item);
            assert(item_views(self.snapshot_items@) =~= item_views(snapshot).push(views[i as int]));
            assert(item_views(waiting(self.items_rx)) =~= item_views(queue).push(views[i as int]));
            i = i + 1;
            assert(before + views.take(i as int) =~= seen.push(views[i - 1]));
        }
        assert(views.take(views.len() as int) =~= views);
        let total = self.snapshot_items.len();
        assert(item_views(self.snapshot_items@).len() == self.snapshot_items@.len());
        assert(before.len() == old(self).snapshot_items@.len());
        proof {
            lemma_sum_sizes_add(before, views);
            let a = sum_sizes(before) as int;
            let b = sum_sizes(views) as int;
            vstd::arithmetic::div_mod::lemma_add_mod_noop(a, b, 0x1_0000_0000_0000_0000);
            vstd::arithmetic::div_mod::lemma_small_mod(
                batch_size as nat,
                0x1_0000_0000_0000_0000nat,
            );
        }
        self.total_size = self.total_size.wrapping_add(batch_size);
        self.pending_items = total;
        self.revision = self.revision.wrapping_add(1);
    }

    /// Queues a file, or skips it where `update_mode` asks for that and its
    /// destination holds it already.
    pub fn add_file_with_policy(
        &mut self,
        source: FilePath,
        dest_root: &FilePath,
        meta: FileMeta,
        destination_meta: Option<FileMeta>,
        update_mode: bool,
    ) -> (r: Result<QueueAddSummary, QueueError>)
        requires
            old(self).wf(),
        ensures
            final(self).wf(),
            final(self).commands() == old(self).commands(),
            file_added(
                old(self)@,
                source@,
                dest_root@,
                meta,
                destination_meta,
                update_mode,
                r,
                final(self)@,
            ),
    {
        let destination = match file_destination(&source, dest_root) {
            Ok(destination) => destination,
            Err(e) => {
                return Err(e);
            },
        };
        if update_mode && destination_is_unchanged(&meta, &destination_meta) {
            return Ok(QueueAddSummary { queued_files: 0, skipped_files: 1 });
        }
        let item = TransferItem { source, destination, size: meta.len, cleanup_root: None };
        let ghost view = item@;
        let mut batch: Vec<TransferItem> = Vec::new();
        batch.push(item);
        proof {
            assert(item_views(batch@) =~= seq![view]);
            assert(seq![view].drop_last() =~= Seq::<ItemView>::empty());
            assert(sum_sizes(seq![view].drop_last()) == 0);
        }
        self.enqueue_batch(batch, meta.len);
        Ok(QueueAddSummary { queued_files: 1, skipped_files: 0 })
    }

    /// Queues the files below a directory in alphabetical order, without those
    /// that `update_mode` lets skip because their destinations hold them.
    pub fn add_directory_with_policy(
        &mut self,
        source: &FilePath,
        dest_root: &FilePath,
        entries: &Vec<WalkEntry>,
        update_mode: bool,
    ) -> (r: Result<QueueAddSummary, QueueError>)
        requires
            old(self).wf(),
            sum_sizes(gathered(entries@, source@, dest_root@, update_mode)) <= u64::MAX,
        ensures
            final(self).wf(),
            final(self).commands() == old(self).commands(),
            directory_added(
                old(self)@,
                source@,
                dest_root@,
                entries@,
                update_mode,
                r,
                final(self)@,
            ),
    {
        let dest_dir = match source.file_name() {
            Some(name) => dest_root.join(&FilePath::from_bytes(name)),
            None => {
                return Err(QueueError::InvalidDirectoryName);
            },
        };
        let mut batch: Vec<TransferItem> = Vec::new();
        let mut batch_size: u64 = 0;
        let mut skipped_files: usize = 0;
        let mut i: usize = 0;
        let ghost found = gathered(entries@, source@, dest_root@, update_mode);
        assert(item_views(batch@) =~= gathered(
            entries@.take(0),
            source@,
            dest_root@,
            update_mode,
        ));
        while i < entries.len()
            invariant
                i <= entries@.len(),
                *self == *old(self),
                self.wf(),
                file_name_of(source@) is Some,
                dest_dir@ == file_target(source@, dest_root@)->0,
                found == gathered(entries@, source@, dest_root@, update_mode),
                sum_sizes(found) <= u64::MAX,
                all_below(entries@.take(i as int), source@),
                item_views(batch@) == gathered(
                    entries@.take(i as int),
                    source@,
                    dest_root@,
                    update_mode,
                ),
                batch_size == sum_sizes(item_views(batch@)),
                skipped_files == skipped_count(entries@.take(i as int), update_mode),
                skipped_files <= i,
            decreases entries@.len() - i,
        {
            let entry = &entries[i];
            let ghost seen = entries@.take(i as int);
            let ghost longer = entries@.take(i + 1);
            assert(longer.drop_last() =~= seen);
            assert(longer.last() == *entry);
            proof {
                lemma_gathered_grows(entries@, source@, dest_root@, update_mode, i + 1);
            }
            if entry.is_file {
                let rest = match entry.path.strip_prefix(source) {
                    Some(rest) => rest,
                    None => {
                        assert(entries@[i as int].is_file);
                        return Err(QueueError::OutsideDirectory);
                    },
                };
                if update_mode && destination_is_unchanged(&entry.meta, &entry.destination_meta) {
                    skipped_files = skipped_files + 1;
                } else {
                    let item = TransferItem {
                        source: entry.path.clone(),
                        destination: dest_dir.join(&rest),
                        size: entry.meta.len,
                        cleanup_root: Some(source.clone()),
                    };
                    let ghost view = item@;
                    let ghost before = item_views(batch@);
                    assert(view == nested_item(*entry, source@, dest_root@));
                    assert(before.push(view).drop_last() =~= before);
                    batch_size = batch_size + entry.meta.len;
                    batch.push(item);
                    assert(item_views(batch@) =~= before.push(view));
                }
            }
            proof {
                assert forall|j: int|
                    0 <= j < longer.len() && (#[trigger] longer[j]).is_file implies stripped(
                    longer[j].path@,
                    source@,
                ) is Some by {
                    if j < seen.len() {
                        assert(seen[j].is_file);
                    }
                }
            }
            i = i + 1;
        }
        assert(entries@.take(entries@.len() as int) =~= entries@);
        let sorted = sort_by_source(&batch);
        proof {
            lemma_sorted_sum(item_views(sorted@), item_views(batch@));
            assert(item_views(sorted@).len() == sorted@.len());
            assert(item_views(batch@).len() == batch@.len());
        }
        let queued_files = batch.len();
        self.enqueue_batch(sorted, batch_size);
        Ok(QueueAddSummary { queued_files, skipped_files })
    }

    /// The items that wait, the next one first.
    pub fn snapshot_items(&self) -> (r: Vec<TransferItem>)
        ensures
            item_views(r@) == self@.items,
    {
        let mut r: Vec<TransferItem> = Vec::new();
        let mut i: usize = 0;
        let ghost views = item_views(self.snapshot_items@);
        while i < self.snapshot_items.len()
            invariant
                i <= self.snapshot_items@.len(),
                views == item_views(self.snapshot_items@),
                item_views(r@) == views.take(i as int),
            decreases self.snapshot_items@.len() - i,
        {
            let ghost before = item_views(r@);
            r.push(self.snapshot_items[i].clone());
            i = i + 1;
            assert(item_views(r@) =~= before.push(views[i - 1]));
            assert(views.take(i as int) =~= views.take(i - 1).push(views[i - 1]));
        }
        assert(views.take(views.len() as int) =~= views);
        r
    }

    /// Puts items in place of those that wait.
    pub fn restore_items(&mut self, items: Vec<TransferItem>)
        requires
            old(self).wf(),
            sum_sizes(item_views(items@)) <= u64::MAX,
        ensures
            final(self).wf(),
            final(self)@ == restored(old(self)@, item_views(items@)),
            final(self).commands() == old(self).commands(),
    {
        let mut drained = false;
        while !drained
            invariant
                paired(self.items_tx, self.items_rx),
                drained ==> waiting(self.items_rx).len() == 0,
                self.revision == old(self).revision,
                self.cmd_tx == old(self).cmd_tx,
                self.cmd_rx == old(self).cmd_rx,
            decreases waiting(self.items_rx).len() + if drained {
                0nat
            } else {
                1nat
            },
        {
            drained = try_recv_item(&mut self.items_tx, &mut self.items_rx).is_none();
        }
        let ghost views = item_views(items@);
        let mut total_size: u64 = 0;
        let mut snapshot: VecDeque<TransferItem> = VecDeque::new();
        let mut i: usize = 0;
        assert(item_views(snapshot@) =~= views.take(0));
        assert(item_views(waiting(self.items_rx)) =~= views.take(0));
        while i < items.len()
            invariant
                i <= items@.len(),
                views == item_views(items@),
                sum_sizes(views) <= u64::MAX,
                paired(self.items_tx, self.items_rx),
                item_views(snapshot@) == views.take(i as int),
                item_views(waiting(self.items_rx)) == views.take(i as int),
                total_size == sum_sizes(views.take(i as int)),
                self.revision == old(self).revision,
                self.cmd_tx == old(self).cmd_tx,
                self.cmd_rx == old(self).cmd_rx,
            decreases items@.len() - i,
        {
            let ghost queue = waiting(self.items_rx);
            let ghost before = snapshot@;
            let ghost longer = views.take(i + 1);
            proof {
                assert(longer =~= views.take(i as int).push(views[i as int]));
                assert(longer.drop_last() =~= views.take(i as int));
                assert(longer.last() == views[i as int]);
                lemma_sum_sizes_add(longer, views.skip(i + 1));
                assert(longer + views.skip(i + 1) =~= views);
                assert(views[i as int].size == items@[i as int].size);
            }
            total_size = total_size + items[i].size;
            snapshot.push_back(items[i].clone());
            let item = items[i].clone();
            let _ = send_item(&mut self.items_tx, &mut self.items_rx, item);
            assert(item_views(snapshot@) =~= item_views(before).push(views[i as int]));
            assert(item_views(waiting(self.items_rx)) =~= item_views(queue).push(views[i as int]));
            i = i + 1;
        }
        assert(views.take(views.len() as int) =~= views);
        let count = items.len();
        self.snapshot_items = snapshot;
        assert(item_views(self.snapshot_items@).len() == self.snapshot_items@.len());
        assert(views.len() == items@.len());
        self.total_size = total_size;
        self.pending_items = count;
        self.revision = self.revision.wrapping_add(1);
    }

    /// Takes the next item. Where there is none, the call ends after the time
    /// that it is given.
    pub fn recv_timeout(&mut self, timeout_ms: u64) -> (r: Option<TransferItem>)
        requires
            old(self).wf(),
        ensures
            final(self).wf(),
            final(self).commands() == old(self).commands(),
            final(self)@ == advanced(old(self)@),
            r is Some <==> old(self)@.items.len() > 0,
            r matches Some(item) ==> item@ == old(self)@.items[0],
    {
        let ghost queue = waiting(self.items_rx);
        let ghost before = self.snapshot_items@;
        assert(item_views(queue).len() == queue.len());
        assert(item_views(before).len() == before.len());
        let item = match recv_item_timeout(&mut self.items_tx, &mut self.items_rx, timeout_ms) {
            Some(item) => item,
            None => {
                return None;
            },
        };
        let _ = self.snapshot_items.pop_front();
        proof {
            let views = item_views(before);
            assert(item_views(queue)[0] == item@);
            assert(item_views(waiting(self.items_rx)) =~= item_views(queue).skip(1));
            assert(item_views(self.snapshot_items@) =~= views.skip(1));
            lemma_sum_sizes_first(views);
            lemma_wrapping_difference(sum_sizes(views), item.size, sum_sizes(views.skip(1)));
        }
        self.total_size = self.total_size.wrapping_sub(item.size);
        self.pending_items = self.pending_items.wrapping_sub(1);
        self.revision = self.revision.wrapping_add(1);
        Some(item)
    }

    /// How many items wait.
    pub fn len(&self) -> (r: usize)
        requires
            self.wf(),
        ensures
            r == self@.items.len(),
    {
        self.pending_items
    }

    /// Whether no item waits.
    pub fn is_empty(&self) -> (r: bool)
        requires
            self.wf(),
        ensures
            r == (self@.items.len() == 0),
    {
        self.len() == 0
    }

    /// The sizes of the items that wait together, as far as 64 bits hold it.
    pub fn total_size(&self) -> (r: u64)
        requires
            self.wf(),
        ensures
            r == sum_sizes(self@.items) % 0x1_0000_0000_0000_0000,
            sum_sizes(self@.items) <= u64::MAX ==> r == sum_sizes(self@.items),
    {
        self.total_size
    }

    /// A number that changes with every change of the items.
    pub fn revision(&self) -> (r: u64)
        ensures
            r == self@.revision,
    {
        self.revision
    }
}

impl Default for TransferQueue {
    fn default() -> (r: TransferQueue)
        ensures
            r.wf(),
            r@.items == Seq::<ItemView>::empty(),
            r@.revision == 0,
    {
        TransferQueue::new()
    }
}

proof fn lemma_wrapping_difference(whole: nat, size: u64, rest: nat)
    requires
        whole == size + rest,
    ensures
        ((whole % 0x1_0000_0000_0000_0000) as u64).wrapping_sub(size) == rest
            % 0x1_0000_0000_0000_0000,
{
}

proof fn lemma_gathered_grows(
    entries: Seq<WalkEntry>,
    directory: Seq<u8>,
    root: Seq<u8>,
    update_mode: bool,
    n: int,
)
    requires
        0 <= n <= entries.len(),
    ensures
        sum_sizes(gathered(entries.take(n), directory, root, update_mode)) <= sum_sizes(
            gathered(entries, directory, root, update_mode),
        ),
    decreases entries.len() - n,
{
    if n == entries.len() {
        assert(entries.take(n) =~= entries);
    } else {
        lemma_gathered_grows(entries, directory, root, update_mode, n + 1);
        let longer = entries.take(n + 1);
        assert(longer.drop_last() =~= entries.take(n));
        let front = gathered(entries.take(n), directory, root, update_mode);
        if queues(longer.last(), update_mode) {
            let item = nested_item(longer.last(), directory, root);
            assert(front.push(item).drop_last() =~= front);
        }
    }
}

proof fn lemma_sum_sizes_multiset(a: Seq<ItemView>, b: Seq<ItemView>)
    requires
        a.to_multiset() == b.to_multiset(),
    ensures
        sum_sizes(a) == sum_sizes(b),
    decreases a.len(),
{
    broadcast use vstd::seq_lib::group_to_multiset_ensures;

    assert(a.to_multiset().len() == a.len());
    assert(b.to_multiset().len() == b.len());
    if a.len() > 0 {
        let x = a[0];
        assert(a.contains(x));
        assert(b.to_multiset().contains(x));
        assert(b.contains(x));
        let k = choose|k: int| 0 <= k < b.len() && b[k] == x;
        let without = b.remove(k);
        assert(a.remove(0) =~= a.skip(1));
        assert(a.skip(1).to_multiset() =~= a.to_multiset().remove(x));
        assert(without.to_multiset() =~= b.to_multiset().remove(x));
        lemma_sum_sizes_multiset(a.skip(1), without);
        lemma_sum_sizes_first(a);
        let front = b.take(k);
        let back = b.skip(k + 1);
        assert(without =~= front + back);
        assert(b =~= front + b.skip(k));
        lemma_sum_sizes_add(front, back);
        lemma_sum_sizes_add(front, b.skip(k));
        lemma_sum_sizes_first(b.skip(k));
        assert(b.skip(k).skip(1) =~= back);
    }
}

proof fn lemma_picked_multiset(items: Seq<ItemView>, order: Seq<usize>)
    requires
        rearranges(order, items.len()),
    ensures
        picked(items, order).to_multiset() == items.to_multiset(),
    decreases items.len(),
{
    broadcast use vstd::seq_lib::group_to_multiset_ensures;

    if items.len() == 0 {
        assert(picked(items, order) =~= items);
    } else {
        let top = items.len() - 1;
        lemma_rearranges_covers(order, items.len(), top);
        let k = choose|k: int| 0 <= k < order.len() && order[k] == top;
        let rest = order.remove(k);
        assert forall|i: int| 0 <= i < rest.len() implies 0 <= #[trigger] rest[i] < top by {
            let source = if i < k {
                i
            } else {
                i + 1
            };
            assert(rest[i] == order[source]);
            assert(order[source] != order[k]);
        }
        assert(rest.no_duplicates()) by {
            assert forall|i: int, j: int| 0 <= i < rest.len() && 0 <= j < rest.len() && i
                != j implies rest[i] != rest[j] by {
                let a = if i < k {
                    i
                } else {
                    i + 1
                };
                let b = if j < k {
                    j
                } else {
                    j + 1
                };
                assert(rest[i] == order[a] && rest[j] == order[b]);
            }
        }
        assert(rearranges(rest, top as nat));
        lemma_picked_multiset(items.drop_last(), rest);
        let all = picked(items, order);
        assert(all.remove(k) =~= picked(items.drop_last(), rest)) by {
            assert forall|i: int| 0 <= i < rest.len() implies #[trigger] all.remove(k)[i]
                == picked(items.drop_last(), rest)[i] by {
                let source = if i < k {
                    i
                } else {
                    i + 1
                };
                assert(rest[i] == order[source]);
                assert(0 <= rest[i] < top);
            }
        }
        assert(all[k] == items.last());
        assert(all.remove(k).to_multiset() =~= all.to_multiset().remove(items.last()));
        assert(items.remove(top) =~= items.drop_last());
        assert(items.drop_last().to_multiset() =~= items.to_multiset().remove(items.last()));
        assert(all.contains(items.last()));
        assert(items.contains(items.last()));
        assert(all.to_multiset() =~= all.to_multiset().remove(items.last()).insert(items.last()));
        assert(items.to_multiset() =~= items.to_multiset().remove(items.last()).insert(
            items.last(),
        ));
    }
}

/// A rearrangement leaves out no position.
pub proof fn lemma_rearranges_covers(order: Seq<usize>, n: nat, value: int)
    requires
        rearranges(order, n),
        0 <= value < n,
    ensures
        exists|k: int| 0 <= k < order.len() && order[k] == value,
{
    let values = order.map_values(|p: usize| p as int);
    assert(values.no_duplicates());
    vstd::seq_lib::seq_to_set_is_finite(values);
    values.unique_seq_to_set();
    let all = vstd::set_lib::set_int_range(0, n as int);
    vstd::set_lib::lemma_int_range(0, n as int);
    assert(values.to_set().subset_of(all)) by {
        assert forall|v: int| values.to_set().contains(v) implies all.contains(v) by {
            assert(values.contains(v));
            let k = choose|k: int| 0 <= k < values.len() && values[k] == v;
            assert(0 <= order[k] < n);
        }
    }
    vstd::set_lib::lemma_subset_equality(values.to_set(), all);
    assert(all.contains(value));
    assert(values.contains(value));
    let k = choose|k: int| 0 <= k < values.len() && values[k] == value;
    assert(order[k] == value);
}

proof fn lemma_sorted_sum(sorted: Seq<ItemView>, items: Seq<ItemView>)
    requires
        sorted_by_source(sorted, items),
    ensures
        sum_sizes(sorted) == sum_sizes(items),
        sorted.len() == items.len(),
{
    let order = choose|order: Seq<usize>|
        #[trigger] rearranges(order, items.len()) && sorted == picked(items, order);
    lemma_picked_multiset(items, order);
    lemma_sum_sizes_multiset(sorted, items);
}

/// A directory's items are the files that were found, each once: sorting loses
/// and adds none, and keeps their sizes together.
pub proof fn lemma_sorting_keeps_items(sorted: Seq<ItemView>, items: Seq<ItemView>)
    requires
        sorted_by_source(sorted, items),
    ensures
        sorted.to_multiset() == items.to_multiset(),
        sum_sizes(sorted) == sum_sizes(items),
{
    let order = choose|order: Seq<usize>|
        #[trigger] rearranges(order, items.len()) && sorted == picked(items, order);
    lemma_picked_multiset(items, order);
    lemma_sum_sizes_multiset(sorted, items);
}

/// Whether no two items have the same source.
pub open spec fn sources_distinct(items: Seq<ItemView>) -> bool {
    forall|i: int, j: int|
        0 <= i < j < items.len() ==> components(#[trigger] items[i].source) != components(
            #[trigger] items[j].source,
        )
}

proof fn lemma_one_order(a: Seq<ItemView>, b: Seq<ItemView>)
    requires
        by_source(a),
        by_source(b),
        sources_distinct(a),
        a.to_multiset() == b.to_multiset(),
    ensures
        a == b,
    decreases a.len(),
{
    broadcast use vstd::seq_lib::group_to_multiset_ensures;

    assert(a.len() == a.to_multiset().len());
    assert(b.len() == b.to_multiset().len());
    if a.len() == 0 {
        assert(a =~= b);
    } else {
        let top = a.len() - 1;
        assert(a.contains(a[top]) && b.contains(b[top]));
        assert(b.to_multiset().count(a[top]) > 0);
        assert(a.to_multiset().count(b[top]) > 0);
        assert(b.contains(a[top]) && a.contains(b[top]));
        let i = choose|i: int| 0 <= i < a.len() && a[i] == b[top];
        let j = choose|j: int| 0 <= j < b.len() && b[j] == a[top];
        assert(path_le(a[i].source, a[top].source));
        assert(path_le(b[j].source, b[top].source));
        lemma_path_le_total(a[i].source, a[top].source);
        assert(i == top);
        assert(a.remove(top) =~= a.drop_last());
        assert(b.remove(top) =~= b.drop_last());
        assert(a.drop_last().to_multiset() =~= b.drop_last().to_multiset());
        lemma_one_order(a.drop_last(), b.drop_last());
        assert(a =~= a.drop_last().push(a[top]));
        assert(b =~= b.drop_last().push(b[top]));
    }
}

/// The order of a directory's items is fixed: the same files give the same
/// items in the same order, in whatever order they were found.
pub proof fn lemma_directory_order_fixed(
    found: Seq<ItemView>,
    found_again: Seq<ItemView>,
    sorted: Seq<ItemView>,
    sorted_again: Seq<ItemView>,
)
    requires
        sorted_by_source(sorted, found),
        sorted_by_source(sorted_again, found_again),
        found.to_multiset() == found_again.to_multiset(),
        sources_distinct(found),
    ensures
        sorted == sorted_again,
{
    lemma_sorting_keeps_items(sorted, found);
    lemma_sorting_keeps_items(sorted_again, found_again);
    let order = choose|order: Seq<usize>|
        #[trigger] rearranges(order, found.len()) && sorted == picked(found, order);
    assert forall|i: int, j: int| 0 <= i < j < sorted.len() implies components(
        #[trigger] sorted[i].source,
    ) != components(#[trigger] sorted[j].source) by {
        assert(order[i] != order[j]);
        if order[i] < order[j] {
            assert(components(found[order[i] as int].source) != components(
                found[order[j] as int].source,
            ));
        } else {
            assert(components(found[order[j] as int].source) != components(
                found[order[i] as int].source,
            ));
        }
    }
    lemma_one_order(sorted, sorted_again);
}

/// What a snapshot of one queue restores in another is the first queue's items.
pub proof fn lemma_snapshot_restores(saved: QueueView, other: QueueView)
    ensures
        restored(other, saved.items).items == saved.items,
        restored(other, saved.items).revision != other.revision,
{
}

/// Items leave in the order in which they came: after as many were taken as
/// waited, what was added later comes next.
pub proof fn lemma_first_in_first_out(q: QueueView, batch: Seq<ItemView>, n: nat)
    requires
        n <= q.items.len(),
    ensures
        drained(extended(q, batch), n).items == q.items.skip(n as int) + batch,
    decreases n,
{
    if n == 0 {
        assert(q.items.skip(0) =~= q.items);
        if batch.len() == 0 {
            assert(q.items + batch =~= q.items);
        }
    } else {
        let next = advanced(q);
        let items = extended(q, batch).items;
        if batch.len() == 0 {
            assert(q.items + batch =~= q.items);
        }
        assert(items =~= q.items + batch);
        assert(items.skip(1) =~= q.items.skip(1) + batch);
        lemma_drained_items(advanced(extended(q, batch)), extended(next, batch), (n - 1) as nat);
        if batch.len() == 0 {
            assert(q.items.skip(1) + batch =~= q.items.skip(1));
        }
        lemma_first_in_first_out(next, batch, (n - 1) as nat);
        assert(q.items.skip(1).skip(n - 1) =~= q.items.skip(n as int));
    }
}

proof fn lemma_drained_items(a: QueueView, b: QueueView, n: nat)
    requires
        a.items == b.items,
    ensures
        drained(a, n).items == drained(b, n).items,
    decreases n,
{
    if n > 0 {
        lemma_drained_items(advanced(a), advanced(b), (n - 1) as nat);
    }
}

/// Every change of the items changes the revision.
pub proof fn lemma_revision_changes(q: QueueView, batch: Seq<ItemView>)
    ensures
        extended(q, batch).items != q.items ==> extended(q, batch).revision != q.revision,
        restored(q, batch).revision != q.revision,
        advanced(q).items != q.items ==> advanced(q).revision != q.revision,
{
}

/// In update mode a file counts as held exactly where its destination is a file of
/// the same length whose time of modification differs from the source's by less
/// than three seconds, either way.
pub proof fn lemma_held_means_same_length_and_time(
    source: FileMeta,
    destination: Option<FileMeta>,
)
    ensures
        unchanged(source, destination) <==> {
            &&& destination is Some
            &&& destination->0.is_file
            &&& destination->0.len == source.len
            &&& source.modified is Some
            &&& destination->0.modified is Some
            &&& ({
                let a = source.modified->0;
                let b = destination->0.modified->0;
                let apart = (a.secs * 1_000_000_000 + a.nanos) - (b.secs * 1_000_000_000
                    + b.nanos);
                -3_000_000_000 < apart < 3_000_000_000
            })
        },
{
}

/// Adding a file queues it behind all others, or skips it where update mode is on
/// and its destination has its length and, within three seconds, its time of
/// modification; only a source without a name fails. What is queued has the
/// source's path and size, and goes under the source's name into the directory.
pub proof fn lemma_file_queued_unless_held(
    before: QueueView,
    source: Seq<u8>,
    dest_root: Seq<u8>,
    meta: FileMeta,
    destination_meta: Option<FileMeta>,
    update_mode: bool,
    r: Result<QueueAddSummary, QueueError>,
    after: QueueView,
)
    requires
        file_added(before, source, dest_root, meta, destination_meta, update_mode, r, after),
    ensures
        ({
            let held = update_mode && destination_meta is Some && destination_meta->0.is_file
                && destination_meta->0.len == meta.len && meta.modified is Some
                && destination_meta->0.modified is Some && ({
                let a = meta.modified->0;
                let b = destination_meta->0.modified->0;
                let apart = (a.secs * 1_000_000_000 + a.nanos) - (b.secs * 1_000_000_000
                    + b.nanos);
                -3_000_000_000 < apart < 3_000_000_000
            });
            let named = file_name_of(source) is Some;
            &&& r is Ok <==> named
            &&& !named ==> after == before && r == Err::<QueueAddSummary, QueueError>(
                QueueError::InvalidFileName,
            )
            &&& named && held ==> after == before && r->Ok_0.queued_files == 0
                && r->Ok_0.skipped_files == 1
            &&& named && !held ==> {
                let item = after.items.last();
                &&& r->Ok_0.queued_files == 1
                &&& r->Ok_0.skipped_files == 0
                &&& after.items == before.items.push(item)
                &&& after.revision != before.revision
                &&& item.source == source
                &&& item.size == meta.len
                &&& item.cleanup_root is None
                &&& components(item.destination) == components(dest_root).push(
                    components(source).last(),
                )
            }
        }),
{
    lemma_held_means_same_length_and_time(meta, destination_meta);
    if let Some(name) = file_name_of(source) {
        crate::path::lemma_who_has_a_name(source, dest_root, name);
        let item = ItemView {
            source,
            destination: joined(dest_root, name),
            size: meta.len,
            cleanup_root: None,
        };
        assert(before.items + seq![item] =~= before.items.push(item));
    }
}

/// The items of a directory are its files that are not held, each once and as they
/// were found; the files that are held are counted.
pub proof fn lemma_gathered_are_the_files(
    entries: Seq<WalkEntry>,
    directory: Seq<u8>,
    root: Seq<u8>,
    update_mode: bool,
)
    ensures
        ({
            let wanted = entries.filter(
                |e: WalkEntry| e.is_file && !(update_mode && unchanged(e.meta, e.destination_meta)),
            );
            let items = gathered(entries, directory, root, update_mode);
            &&& items.len() == wanted.len()
            &&& forall|k: int|
                0 <= k < items.len() ==> (#[trigger] items[k]).source == wanted[k].path@
                    && items[k].size == wanted[k].meta.len && items[k].cleanup_root == Some(
                    directory,
                ) && items[k].destination == nested_target(wanted[k].path@, directory, root)->0
            &&& skipped_count(entries, update_mode) == entries.filter(
                |e: WalkEntry| e.is_file && update_mode && unchanged(e.meta, e.destination_meta),
            ).len()
            &&& items.len() + skipped_count(entries, update_mode) == entries.filter(
                |e: WalkEntry| e.is_file,
            ).len()
        }),
    decreases entries.len(),
{
    reveal(Seq::filter);
    if entries.len() > 0 {
        let front = entries.drop_last();
        lemma_gathered_are_the_files(front, directory, root, update_mode);
        let wanted = |e: WalkEntry|
            e.is_file && !(update_mode && unchanged(e.meta, e.destination_meta));
        let items = gathered(entries, directory, root, update_mode);
        let all = entries.filter(wanted);
        let earlier = gathered(front, directory, root, update_mode);
        assert forall|k: int| 0 <= k < items.len() implies (#[trigger] items[k]).source
            == all[k].path@ && items[k].size == all[k].meta.len && items[k].cleanup_root == Some(
            directory,
        ) && items[k].destination == nested_target(all[k].path@, directory, root)->0 by {
            if k < earlier.len() {
                assert(items[k] == earlier[k]);
                assert(all[k] == front.filter(wanted)[k]);
            }
        }
    }
}

/// A file below a directory goes to the same place below the directory of that name
/// at the destination.
pub proof fn lemma_nested_place(path: Seq<u8>, directory: Seq<u8>, root: Seq<u8>)
    requires
        file_name_of(directory) is Some,
        below(path, directory),
    ensures
        nested_target(path, directory, root) is Some,
        components(nested_target(path, directory, root)->0) == components(root).push(
            components(directory).last(),
        ) + components(path).skip(components(directory).len() as int),
{
    let name = file_name_of(directory)->0;
    crate::path::lemma_who_has_a_name(directory, root, name);
    lemma_components_nonempty(directory);
    lemma_stripped_components(path, directory);
    let rest = stripped(path, directory)->0;
    let n = components(directory).len() as int;
    lemma_components_nonempty(rest);
    if rest.len() > 0 {
        lemma_current_only_first(path, n);
        assert(components(rest)[0] == components(path)[n]);
    }
    lemma_joined_components(joined(root, name), rest);
}

/// Adding a directory queues each of its files that is not held, once, in
/// alphabetical order behind all others, and skips the others; it fails, and queues
/// nothing, exactly where the directory has no name or a file is not below it.
pub proof fn lemma_directory_queues_each_file(
    before: QueueView,
    source: Seq<u8>,
    dest_root: Seq<u8>,
    entries: Seq<WalkEntry>,
    update_mode: bool,
    r: Result<QueueAddSummary, QueueError>,
    after: QueueView,
)
    requires
        directory_added(before, source, dest_root, entries, update_mode, r, after),
    ensures
        ({
            let sound = file_name_of(source) is Some && forall|i: int|
                0 <= i < entries.len() && (#[trigger] entries[i]).is_file ==> below(
                    entries[i].path@,
                    source,
                );
            let files = entries.filter(|e: WalkEntry| e.is_file);
            let wanted = entries.filter(
                |e: WalkEntry| e.is_file && !(update_mode && unchanged(e.meta, e.destination_meta)),
            );
            let batch = after.items.skip(before.items.len() as int);
            &&& r is Ok <==> sound
            &&& r is Err ==> after == before
            &&& r matches Ok(summary) ==> {
                &&& summary.queued_files == wanted.len()
                &&& summary.queued_files + summary.skipped_files == files.len()
                &&& after.items == before.items + batch
                &&& batch.len() == wanted.len()
                &&& by_source(batch)
                &&& batch.to_multiset() == wanted.map_values(
                    |e: WalkEntry| nested_item(e, source, dest_root),
                ).to_multiset()
            }
        }),
{
    lemma_gathered_are_the_files(entries, source, dest_root, update_mode);
    let wanted = entries.filter(
        |e: WalkEntry| e.is_file && !(update_mode && unchanged(e.meta, e.destination_meta)),
    );
    let found = gathered(entries, source, dest_root, update_mode);
    assert(found =~= wanted.map_values(|e: WalkEntry| nested_item(e, source, dest_root)));
    assert forall|i: int| 0 <= i < entries.len() && (#[trigger] entries[i]).is_file implies below(
        entries[i].path@,
        source,
    ) == (stripped(entries[i].path@, source) is Some) by {
        crate::path::lemma_below(entries[i].path@, source);
    }
    if r is Ok {
        let sorted = choose|batch: Seq<ItemView>| #[trigger]
            sorted_by_source(batch, found) && after == extended(before, batch);
        lemma_sorting_keeps_items(sorted, found);
        lemma_sorted_sum(sorted, found);
        if sorted.len() == 0 {
            assert(before.items + sorted =~= before.items);
        }
        assert(after.items =~= before.items + sorted);
        assert(after.items.skip(before.items.len() as int) =~= sorted);
    }
}

/// A queue takes items at its end and gives them from its beginning; other items in
/// place of its own are just those.
pub proof fn lemma_queue_ends(q: QueueView, batch: Seq<ItemView>)
    ensures
        extended(q, batch).items == q.items + batch,
        batch.len() == 0 ==> extended(q, batch) == q,
        restored(q, batch).items == batch,
        q.items.len() > 0 ==> q.items == seq![q.items[0]] + advanced(q).items,
        q.items.len() == 0 ==> advanced(q) == q,
{
    if batch.len() == 0 {
        assert(q.items + batch =~= q.items);
    }
    if q.items.len() > 0 {
        assert(q.items =~= seq![q.items[0]] + q.items.skip(1));
    }
}

/// The size of a queue is that of its items: nothing weighs nothing, and each item
/// adds its own size, wherever it stands.
pub proof fn lemma_sizes_add(a: Seq<ItemView>, item: ItemView, b: Seq<ItemView>)
    ensures
        sum_sizes(Seq::<ItemView>::empty()) == 0,
        sum_sizes(a.push(item) + b) == sum_sizes(a + b) + item.size,
{
    lemma_sum_sizes_add(a.push(item), b);
    lemma_sum_sizes_add(a, b);
    assert(a.push(item).drop_last() =~= a);
}

/// A file goes into the destination under its own name; without a name it goes
/// nowhere.
pub proof fn lemma_file_goes_below(source: Seq<u8>, root: Seq<u8>)
    ensures
        file_target(source, root) is Some <==> file_name_of(source) is Some,
        file_target(source, root) matches Some(target) ==> file_name_of(target) == file_name_of(
            source,
        ) && root.is_prefix_of(target) && components(target) == components(root).push(
            components(source).last(),
        ),
{
    if let Some(name) = file_name_of(source) {
        crate::path::lemma_who_has_a_name(source, root, name);
        crate::path::lemma_component_plain(source, components(source).len() - 1);
        crate::path::lemma_joining(root, name);
    }
}

/// What is told of a source that cannot be queued.
pub proof fn lemma_queue_errors_told(why: QueueError)
    ensures
        why is InvalidFileName ==> why.text() == "Invalid file name"@,
        why is InvalidDirectoryName ==> why.text() == "Invalid directory name"@,
        why is OutsideDirectory ==> why.text() == "prefix not found"@,
        why is Unreadable ==> why.text() == "Failed to read the source"@,
{
}

} // verus!
