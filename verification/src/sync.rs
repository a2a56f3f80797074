//! Bringing what was written to the device: each file system once.

use crate::fields::texts;
use crate::format::{eta_text, format_eta};
use crate::path::{lemma_parent_components, parent_of, FilePath};
use crate::pathset::path_texts;
use crate::text::{
    chars_of, decode_lossy, lines, number, parse_number, same_chars, split_lines, split_words,
    utf8_lossy, words,
};
use crate::worker::text_view;
use std::collections::HashSet;
use vstd::prelude::*;

verus! {

/// How often the progress of a synchronisation is looked at.
pub const SYNC_MONITOR_INTERVAL_MS: u64 = 300;

/// A path and the directories above it, the nearest first.
pub open spec fn ancestors(p: Seq<u8>) -> Seq<Seq<u8>>
    decreases p.len(),
{
    match parent_of(p) {
        None => seq![p],
        Some(parent) => {
            proof {
                lemma_parent_components(p);
            }
            seq![p] + ancestors(parent)
        },
    }
}

/// The places at which a path is looked for: itself, and where it does not
/// exist the directories above it, the nearest first.
pub fn sync_candidates(path: &FilePath) -> (r: Vec<FilePath>)
    ensures
        path_texts(r@) == ancestors(path@),
{
    let mut r: Vec<FilePath> = Vec::new();
    let mut current = path.clone();
    assert(path_texts(r@) =~= Seq::<Seq<u8>>::empty());
    loop
        invariant
            path_texts(r@) + ancestors(current@) == ancestors(path@),
        decreases current@.len(),
    {
        let ghost before = path_texts(r@);
        let parent = current.parent();
        let ghost here = current@;
        r.push(current);
        assert(path_texts(r@) =~= before.push(here));
        match parent {
            None => {
                assert(before + seq![here] =~= before.push(here));
                return r;
            },
            Some(parent) => {
                proof {
                    lemma_parent_components(here);
                    assert(before + (seq![here] + ancestors(parent@)) =~= before.push(here)
                        + ancestors(parent@));
                }
                current = parent;
            },
        }
    }
}

/// What came of opening a place.
#[derive(Debug, Clone, Copy, PartialEq, Eq, Structural)]
pub enum OpenReply {
    Opened,
    /// Nothing stands there.
    NotFound,
    /// It cannot be opened for another reason.
    Failed,
}

/// What follows the opening of a place.
#[derive(Debug, Clone, Copy, PartialEq, Eq, Structural)]
pub enum SearchStep {
    /// Try the place above.
    Try,
    /// The place that was opened stands for the path.
    Use,
    /// The error of the last place is that of the path.
    GiveUp,
    /// Neither the path nor any directory above it exists.
    Missing,
}

/// The search for the nearest place that exists at a path or above it.
pub struct TargetSearch {
    places: Vec<FilePath>,
    at: usize,
}

impl View for TargetSearch {
    type V = Seq<Seq<u8>>;

    /// The places that are left, the one to open first.
    closed spec fn view(&self) -> Seq<Seq<u8>> {
        path_texts(self.places@).skip(self.at as int)
    }
}

/// What follows the opening of the first of some places, and those that are left.
pub open spec fn searched(left: Seq<Seq<u8>>, reply: OpenReply) -> (Seq<Seq<u8>>, SearchStep) {
    match reply {
        OpenReply::Opened => (left, SearchStep::Use),
        OpenReply::Failed => (left, SearchStep::GiveUp),
        OpenReply::NotFound => if left.len() > 1 {
            (left.skip(1), SearchStep::Try)
        } else {
            (left, SearchStep::Missing)
        },
    }
}

impl TargetSearch {
    /// Whether a place is left.
    pub closed spec fn wf(&self) -> bool {
        self.at < self.places@.len()
    }

    /// The search for a path: it begins with the path itself.
    pub fn new(path: &FilePath) -> (r: TargetSearch)
        ensures
            r.wf(),
            r@ == ancestors(path@),
            r@.len() > 0,
    {
        let r = TargetSearch { places: sync_candidates(path), at: 0 };
        assert(path_texts(r.places@).len() == r.places@.len());
        assert(r@ =~= ancestors(path@));
        r
    }

    /// The place to open.
    pub fn place(&self) -> (r: &FilePath)
        requires
            self.wf(),
        ensures
            r@ == self@[0],
    {
        assert(path_texts(self.places@).len() == self.places@.len());
        &self.places[self.at]
    }

    /// Takes note of what came of opening the place, and tells what follows.
    pub fn opened(&mut self, reply: OpenReply) -> (r: SearchStep)
        requires
            old(self).wf(),
        ensures
            final(self).wf(),
            (final(self)@, r) == searched(old(self)@, reply),
    {
        assert(path_texts(self.places@).len() == self.places@.len());
        match reply {
            OpenReply::Opened => SearchStep::Use,
            OpenReply::Failed => SearchStep::GiveUp,
            OpenReply::NotFound => {
                let count = self.places.len();
                if self.at + 1 < count {
                    self.at = self.at + 1;
                    assert(self@ =~= old(self)@.skip(1));
                    SearchStep::Try
                } else {
                    SearchStep::Missing
                }
            },
        }
    }
}

/// The message where nothing exists at a path or above it.
pub fn missing_target_message(path: &FilePath) -> (r: String)
    ensures
        r@ == "No existing path found for sync target "@ + utf8_lossy(path@),
{
    let mut r = "No existing path found for sync target ".to_owned();
    r.append(decode_lossy(path.as_bytes()).as_str());
    r
}

/// What came of a path that was to be synchronised.
pub enum SyncReply {
    /// It cannot be opened.
    OpenFailed(String),
    /// Its file system cannot be told.
    MetadataFailed(String),
    /// It stands on this device.
    Device(u64),
}

/// The contents of a `SyncReply`.
pub enum ReplyView {
    OpenFailed(Seq<char>),
    MetadataFailed(Seq<char>),
    Device(u64),
}

impl View for SyncReply {
    type V = ReplyView;

    open spec fn view(&self) -> ReplyView {
        match *self {
            SyncReply::OpenFailed(s) => ReplyView::OpenFailed(s@),
            SyncReply::MetadataFailed(s) => ReplyView::MetadataFailed(s@),
            SyncReply::Device(id) => ReplyView::Device(id),
        }
    }
}

/// A synchronisation of several paths.
pub struct ScopedSync {
    devices: HashSet<u64>,
    synced_any: bool,
    first_error: Option<String>,
}

/// The contents of a `ScopedSync`.
#[verifier::ext_equal]
pub struct SyncView {
    /// The devices that were synchronised, or tried.
    pub devices: Set<u64>,
    pub synced_any: bool,
    pub first_error: Option<Seq<char>>,
}

/// A message on a path.
pub open spec fn path_message(what: Seq<char>, path: Seq<u8>, why: Seq<char>) -> Seq<char> {
    what + utf8_lossy(path) + ": "@ + why
}

fn message_on_path(what: &str, path: &FilePath, why: &String) -> (r: String)
    ensures
        r@ == path_message(what@, path@, why@),
{
    let mut r = what.to_owned();
    r.append(decode_lossy(path.as_bytes()).as_str());
    r.append(": ");
    r.append(why.as_str());
    r
}

impl SyncView {
    /// Nothing was tried yet.
    pub open spec fn started() -> SyncView {
        SyncView { devices: Set::empty(), synced_any: false, first_error: None }
    }

    /// An error was met. The first one stays.
    pub open spec fn with_error(self, text: Seq<char>) -> SyncView {
        SyncView {
            first_error: if self.first_error is None {
                Some(text)
            } else {
                self.first_error
            },
            ..self
        }
    }

    /// After the reply on a path; and whether its device is to be synchronised.
    pub open spec fn replied(self, path: Seq<u8>, reply: ReplyView) -> (SyncView, bool) {
        match reply {
            ReplyView::OpenFailed(why) => (
                self.with_error(path_message("Failed to open sync target "@, path, why)),
                false,
            ),
            ReplyView::MetadataFailed(why) => (
                self.with_error(
                    path_message("Failed to read metadata for sync target "@, path, why),
                ),
                false,
            ),
            ReplyView::Device(id) => (
                SyncView { devices: self.devices.insert(id), ..self },
                !self.devices.contains(id),
            ),
        }
    }

    /// After a device was synchronised, or failed to be.
    pub open spec fn synced(self, path: Seq<u8>, failure: Option<Seq<char>>) -> SyncView {
        match failure {
            None => SyncView { synced_any: true, ..self },
            Some(why) => self.with_error(path_message("syncfs failed for "@, path, why)),
        }
    }

    /// The error of a synchronisation: none where any device was synchronised,
    /// else the first that was met.
    pub open spec fn verdict(self) -> Option<Seq<char>> {
        if self.synced_any {
            None
        } else if self.first_error is Some {
            self.first_error
        } else {
            Some("No valid sync target found for scoped sync"@)
        }
    }
}

impl View for ScopedSync {
    type V = SyncView;

    closed spec fn view(&self) -> SyncView {
        SyncView {
            devices: self.devices@,
            synced_any: self.synced_any,
            first_error: text_view(self.first_error),
        }
    }
}

impl ScopedSync {
    /// A synchronisation that has not begun.
    pub fn new() -> (r: ScopedSync)
        ensures
            r@ == SyncView::started(),
    {
        broadcast use vstd::std_specs::hash::group_hash_axioms;

        let r = ScopedSync { devices: HashSet::new(), synced_any: false, first_error: None };
        assert(r@ =~= SyncView::started());
        r
    }

    fn note_error(&mut self, text: String)
        ensures
            final(self)@ == old(self)@.with_error(text@),
    {
        if self.first_error.is_none() {
            self.first_error = Some(text);
        }
    }

    /// Takes note of the reply on a path, and tells whether its device is to be
    /// synchronised.
    pub fn reply(&mut self, path: &FilePath, reply: SyncReply) -> (sync: bool)
        ensures
            (final(self)@, sync) == old(self)@.replied(path@, reply@),
    {
        broadcast use vstd::std_specs::hash::group_hash_axioms;

        match reply {
            SyncReply::OpenFailed(why) => {
                self.note_error(message_on_path("Failed to open sync target ", path, &why));
                false
            },
            SyncReply::MetadataFailed(why) => {
                self.note_error(
                    message_on_path("Failed to read metadata for sync target ", path, &why),
                );
                false
            },
            SyncReply::Device(id) => {
                let new = self.devices.insert(id);
                assert(self@ =~= old(self)@.replied(path@, reply@).0);
                new
            },
        }
    }

    /// Takes note that a device was synchronised, or why not.
    pub fn device_synced(&mut self, path: &FilePath, failure: Option<String>)
        ensures
            final(self)@ == old(self)@.synced(path@, text_view(failure)),
    {
        match failure {
            None => {
                self.synced_any = true;
            },
            Some(why) => {
                self.note_error(message_on_path("syncfs failed for ", path, &why));
            },
        }
    }

    /// Whether the synchronisation succeeded, or its error.
    pub fn finish(self) -> (r: Result<(), String>)
        ensures
            match r {
                Ok(_) => self@.verdict() is None,
                Err(e) => self@.verdict() == Some(e@),
            },
    {
        if self.synced_any {
            Ok(())
        } else {
            match self.first_error {
                Some(e) => Err(e),
                None => Err("No valid sync target found for scoped sync".to_owned()),
            }
        }
    }
}

/// All that happens to a path: the reply on it, and what its device answers if
/// it is synchronised.
pub struct PathFate {
    pub path: Seq<u8>,
    pub reply: ReplyView,
    pub failure: Option<Seq<char>>,
}

/// A synchronisation after all that happened to some paths.
pub open spec fn sync_run(fates: Seq<PathFate>) -> SyncView
    decreases fates.len(),
{
    if fates.len() == 0 {
        SyncView::started()
    } else {
        let fate = fates.last();
        let (view, sync) = sync_run(fates.drop_last()).replied(fate.path, fate.reply);
        if sync {
            view.synced(fate.path, fate.failure)
        } else {
            view
        }
    }
}

/// Whether path number `i` is the first on its device.
pub open spec fn first_on_device(fates: Seq<PathFate>, i: int) -> bool {
    &&& fates[i].reply is Device
    &&& forall|j: int|
        0 <= j < i ==> (#[trigger] fates[j]).reply != fates[i].reply
}

/// Whether some device was synchronised: the first path on it stood without
/// failure.
pub open spec fn some_device_synced(fates: Seq<PathFate>) -> bool {
    exists|i: int|
        0 <= i < fates.len() && #[trigger] first_on_device(fates, i) && fates[i].failure is None
}

/// A device is synchronised for the first of its paths alone, and a
/// synchronisation succeeds exactly where one of the devices did.
pub proof fn lemma_each_device_once(fates: Seq<PathFate>, id: u64)
    ensures
        sync_run(fates).devices.contains(id) <==> exists|i: int|
            0 <= i < fates.len() && (#[trigger] fates[i]).reply == ReplyView::Device(id),
        sync_run(fates).synced_any == some_device_synced(fates),
        sync_run(fates).verdict() is None <==> some_device_synced(fates),
    decreases fates.len(),
{
    if fates.len() > 0 {
        let front = fates.drop_last();
        let last = fates.len() - 1;
        lemma_each_device_once(front, id);
        let fate = fates.last();
        assert forall|i: int| 0 <= i < last implies first_on_device(fates, i) == first_on_device(
            front,
            i,
        ) by {
            assert(front[i] == fates[i]);
            if first_on_device(front, i) {
                assert forall|j: int| 0 <= j < i implies (#[trigger] fates[j]).reply
                    != fates[i].reply by {
                    assert(front[j] == fates[j]);
                }
            }
            if first_on_device(fates, i) {
                assert forall|j: int| 0 <= j < i implies (#[trigger] front[j]).reply
                    != front[i].reply by {
                    assert(front[j] == fates[j]);
                }
            }
        }
        if some_device_synced(front) {
            let i = choose|i: int|
                0 <= i < front.len() && #[trigger] first_on_device(front, i)
                    && front[i].failure is None;
            assert(first_on_device(fates, i));
        }
        if some_device_synced(fates) {
            let i = choose|i: int|
                0 <= i < fates.len() && #[trigger] first_on_device(fates, i)
                    && fates[i].failure is None;
            if i < last {
                assert(first_on_device(front, i));
                assert(front[i] == fates[i]);
            }
        }
        match fate.reply {
            ReplyView::Device(d) => {
                lemma_each_device_once(front, d);
                if sync_run(front).devices.contains(d) {
                    let i = choose|i: int|
                        0 <= i < front.len() && (#[trigger] front[i]).reply == ReplyView::Device(d);
                    assert(fates[i].reply == fates[last].reply);
                    assert(!first_on_device(fates, last));
                } else {
                    assert forall|j: int| 0 <= j < last implies (#[trigger] fates[j]).reply
                        != fates[last].reply by {
                        assert(front[j] == fates[j]);
                    }
                    assert(first_on_device(fates, last));
                }
            },
            _ => {
                assert(!first_on_device(fates, last));
            },
        }
        if exists|i: int| 0 <= i < front.len() && (#[trigger] front[i]).reply == ReplyView::Device(
            id,
        ) {
            let i = choose|i: int|
                0 <= i < front.len() && (#[trigger] front[i]).reply == ReplyView::Device(id);
            assert(fates[i].reply == ReplyView::Device(id));
        }
        if exists|i: int| 0 <= i < fates.len() && (#[trigger] fates[i]).reply == ReplyView::Device(
            id,
        ) {
            let i = choose|i: int|
                0 <= i < fates.len() && (#[trigger] fates[i]).reply == ReplyView::Device(id);
            if i < last {
                assert(front[i].reply == ReplyView::Device(id));
            }
        }
    }
}

/// The two numbers of a table of memory that tell what waits to be written.
pub struct Writeback {
    pub dirty_kb: Option<u64>,
    pub writeback_kb: Option<u64>,
}

/// The number of a line, which stands behind its key.
pub open spec fn line_number(line: Seq<char>) -> Option<u64> {
    let parts = words(line);
    if parts.len() < 2 {
        None
    } else {
        match number(parts[1], u64::MAX as nat) {
            Some(n) => Some(n as u64),
            None => None,
        }
    }
}

/// The two numbers after some lines, or none where a line has no number behind
/// its key. Of several lines with one key the last counts.
pub open spec fn scanned(table: Seq<Seq<char>>) -> Option<Writeback>
    decreases table.len(),
{
    if table.len() == 0 {
        Some(Writeback { dirty_kb: None, writeback_kb: None })
    } else {
        match (scanned(table.drop_last()), line_number(table.last())) {
            (Some(before), Some(value)) => {
                let key = words(table.last())[0];
                if key == "Dirty:"@ {
                    Some(Writeback { dirty_kb: Some(value), writeback_kb: before.writeback_kb })
                } else if key == "Writeback:"@ {
                    Some(Writeback { dirty_kb: before.dirty_kb, writeback_kb: Some(value) })
                } else {
                    Some(before)
                }
            },
            _ => None,
        }
    }
}

/// What waits to be written, in bytes.
pub open spec fn pending_bytes(content: Seq<char>) -> Option<nat> {
    match scanned(lines(content)) {
        None => None,
        Some(found) => Some(
            (found.dirty_kb.unwrap_or(0) as nat + found.writeback_kb.unwrap_or(0) as nat) * 1024,
        ),
    }
}

fn scan_line(line: &Vec<char>) -> (r: Option<(Vec<char>, u64)>)
    ensures
        match r {
            Some((key, value)) => line_number(line@) == Some(value) && key@ == words(line@)[0],
            None => line_number(line@) is None,
        },
{
    let parts = split_words(line);
    assert(texts(parts@).len() == parts@.len());
    if parts.len() < 2 {
        return None;
    }
    assert(parts@[1]@ == texts(parts@)[1]);
    assert(parts@[0]@ == texts(parts@)[0]);
    match parse_number(&parts[1], u64::MAX) {
        None => None,
        Some(value) => Some((parts[0].clone(), value)),
    }
}

proof fn lemma_scan_stops(table: Seq<Seq<char>>, n: int)
    requires
        0 <= n <= table.len(),
        scanned(table.take(n)) is None,
    ensures
        scanned(table) is None,
    decreases table.len() - n,
{
    if n < table.len() {
        assert(table.take(n + 1).drop_last() =~= table.take(n));
        lemma_scan_stops(table, n + 1);
    } else {
        assert(table.take(n) =~= table);
    }
}

/// What waits to be written, in bytes, from the system's table of memory.
pub fn pending_writeback_bytes(content: &str) -> (r: Option<u128>)
    ensures
        match r {
            Some(bytes) => pending_bytes(content@) == Some(bytes as nat),
            None => pending_bytes(content@) is None,
        },
{
    let table = split_lines(&chars_of(content));
    let ghost all = texts(table@);
    let dirty_key = chars_of("Dirty:");
    let writeback_key = chars_of("Writeback:");
    let mut dirty_kb: Option<u64> = None;
    let mut writeback_kb: Option<u64> = None;
    let mut i: usize = 0;
    while i < table.len()
        invariant
            i <= table@.len(),
            all == texts(table@),
            all == lines(content@),
            dirty_key@ == "Dirty:"@,
            writeback_key@ == "Writeback:"@,
            scanned(all.take(i as int)) == Some((Writeback { dirty_kb, writeback_kb })),
        decreases table@.len() - i,
    {
        let ghost longer = all.take(i + 1);
        assert(longer.drop_last() =~= all.take(i as int));
        assert(longer.last() == table@[i as int]@);
        match scan_line(&table[i]) {
            None => {
                proof {
                    lemma_scan_stops(all, i + 1);
                }
                return None;
            },
            Some((key, value)) => {
                if same_chars(&key, &dirty_key) {
                    dirty_kb = Some(value);
                } else if same_chars(&key, &writeback_key) {
                    writeback_kb = Some(value);
                }
            },
        }
        i = i + 1;
    }
    assert(all.take(all.len() as int) =~= all);
    let dirty = dirty_kb.unwrap_or(0);
    let writeback = writeback_kb.unwrap_or(0);
    Some((dirty as u128 + writeback as u128) * 1024)
}

/// How what was written is brought to the device.
pub fn sync_strategy_label() -> (r: String)
    ensures
        r@ == "syncfs (by device)"@,
{
    "syncfs (by device)".to_owned()
}

/// A look at a synchronisation that runs.
#[derive(Debug, Clone, Copy, PartialEq, Eq, Structural)]
pub enum SyncTick {
    /// So much still waits, and so much less than before.
    Remaining {
        current: u128,
        drained: u128,
    },
    /// What waits is not known.
    Unknown,
}

/// What the last look at a synchronisation saw, and the next one.
pub open spec fn ticked(last: Option<u128>, now: Option<u128>) -> (Option<u128>, SyncTick) {
    match (last, now) {
        (Some(previous), Some(current)) => (
            Some(current),
            (SyncTick::Remaining {
                current,
                drained: if previous >= current {
                    (previous - current) as u128
                } else {
                    0
                },
            }),
        ),
        _ => (last, SyncTick::Unknown),
    }
}

/// Looks at a synchronisation that runs.
pub fn tick(last: &mut Option<u128>, now: Option<u128>) -> (r: SyncTick)
    ensures
        (*final(last), r) == ticked(*old(last), now),
{
    match (*last, now) {
        (Some(previous), Some(current)) => {
            *last = Some(current);
            SyncTick::Remaining { current, drained: previous.saturating_sub(current) }
        },
        _ => SyncTick::Unknown,
    }
}

/// What is shown during a synchronisation.
pub open spec fn finalizing_text(known: bool, seconds: u64) -> Seq<char> {
    "Finalizing writes ("@ + "syncfs (by device)"@ + if known {
        ")... Remaining: "@
    } else {
        ")... Elapsed: "@
    } + eta_text(seconds as nat)
}

/// What is shown during a synchronisation: the time that remains where it is
/// known, else the time that has passed.
pub fn finalizing_message(known: bool, seconds: u64) -> (r: String)
    ensures
        r@ == finalizing_text(known, seconds),
{
    let mut r = "Finalizing writes (".to_owned();
    r.append(sync_strategy_label().as_str());
    if known {
        r.append(")... Remaining: ");
    } else {
        r.append(")... Elapsed: ");
    }
    r.append(format_eta(seconds).as_str());
    r
}

/// The places at which a path is looked for are the path itself and then each
/// directory above it, up to one that has none.
pub proof fn lemma_places_upward(p: Seq<u8>)
    ensures
        ({
            let list = ancestors(p);
            &&& list.len() > 0
            &&& list[0] == p
            &&& parent_of(list.last()) is None
            &&& forall|k: int|
                0 < k < list.len() ==> parent_of(list[k - 1]) == Some(#[trigger] list[k])
        }),
    decreases p.len(),
{
    if let Some(parent) = parent_of(p) {
        lemma_parent_components(p);
        lemma_places_upward(parent);
        let list = ancestors(p);
        let rest = ancestors(parent);
        assert forall|k: int| 0 < k < list.len() implies parent_of(list[k - 1]) == Some(
            #[trigger] list[k],
        ) by {
            assert(list[k] == rest[k - 1]);
            if k > 1 {
                assert(list[k - 1] == rest[k - 2]);
            }
        }
        assert(list.last() == rest.last());
    }
}

/// The first place that exists decides: it is used where it can be opened, and its
/// error is told where not; only a place that is missing leads on, and at the last
/// one nothing was found.
pub proof fn lemma_search_decides(left: Seq<Seq<u8>>, reply: OpenReply)
    requires
        left.len() > 0,
    ensures
        ({
            let (after, step) = searched(left, reply);
            &&& step is Use <==> reply is Opened
            &&& step is GiveUp <==> reply is Failed
            &&& step is Try <==> reply is NotFound && left.len() > 1
            &&& step is Missing <==> reply is NotFound && left.len() == 1
            &&& step is Try ==> left == seq![left[0]] + after
            &&& !(step is Try) ==> after == left
        }),
{
    assert(left =~= seq![left[0]] + left.skip(1));
}

/// A device is synchronised exactly where its path can be opened and told, and it
/// was not before; the first error stays and names its path; and a synchronisation
/// succeeds once one of the devices did.
pub proof fn lemma_sync_decides(
    sync: SyncView,
    path: Seq<u8>,
    reply: ReplyView,
    failure: Option<Seq<char>>,
)
    ensures
        ({
            let (after, go) = sync.replied(path, reply);
            let end = sync.synced(path, failure);
            &&& go <==> (reply matches ReplyView::Device(id) && !sync.devices.contains(id))
            &&& reply matches ReplyView::Device(id) ==> after.devices == sync.devices.insert(id)
                && after.first_error == sync.first_error
            &&& !(reply is Device) ==> after.devices == sync.devices && after.first_error is Some
            &&& after.synced_any == sync.synced_any
            &&& sync.first_error is Some ==> after.first_error == sync.first_error
                && end.first_error == sync.first_error
            &&& sync.first_error is None && reply is OpenFailed ==> after.first_error == Some(
                "Failed to open sync target "@ + utf8_lossy(path) + ": "@ + reply->OpenFailed_0,
            )
            &&& sync.first_error is None && reply is MetadataFailed ==> after.first_error == Some(
                "Failed to read metadata for sync target "@ + utf8_lossy(path) + ": "@
                    + reply->MetadataFailed_0,
            )
            &&& end.devices == sync.devices
            &&& end.synced_any <==> sync.synced_any || failure is None
            &&& sync.first_error is None ==> end.first_error == match failure {
                Some(why) => Some("syncfs failed for "@ + utf8_lossy(path) + ": "@ + why),
                None => None,
            }
        }),
        sync.verdict() is None <==> sync.synced_any,
        !sync.synced_any && sync.first_error is Some ==> sync.verdict() == sync.first_error,
        !sync.synced_any && sync.first_error is None ==> sync.verdict() == Some(
            "No valid sync target found for scoped sync"@,
        ),
{
}

/// What the table of memory says waits: it is known exactly where every line has a
/// number behind its key; and then each of the two kinds is the number of its last
/// line, if it has one.
pub proof fn lemma_memory_table(table: Seq<Seq<char>>, k: int)
    ensures
        scanned(table) is Some <==> forall|i: int|
            0 <= i < table.len() ==> line_number(#[trigger] table[i]) is Some,
        scanned(table) is Some && 0 <= k < table.len() && words(table[k])[0] == "Dirty:"@
            && (forall|i: int|
            k < i < table.len() ==> words(#[trigger] table[i])[0] != "Dirty:"@) ==> scanned(
            table,
        )->0.dirty_kb == line_number(table[k]),
        scanned(table) is Some && 0 <= k < table.len() && words(table[k])[0] == "Writeback:"@
            && (forall|i: int|
            k < i < table.len() ==> words(#[trigger] table[i])[0] != "Writeback:"@) ==> scanned(
            table,
        )->0.writeback_kb == line_number(table[k]),
        scanned(table) is Some && (forall|i: int|
            0 <= i < table.len() ==> words(#[trigger] table[i])[0] != "Dirty:"@) ==> scanned(
            table,
        )->0.dirty_kb is None,
        scanned(table) is Some && (forall|i: int|
            0 <= i < table.len() ==> words(#[trigger] table[i])[0] != "Writeback:"@) ==> scanned(
            table,
        )->0.writeback_kb is None,
    decreases table.len(),
{
    reveal_strlit("Dirty:");
    reveal_strlit("Writeback:");
    assert("Dirty:"@[0] != "Writeback:"@[0]);
    if table.len() > 0 {
        let front = table.drop_last();
        lemma_memory_table(front, k);
        assert forall|i: int| 0 <= i < front.len() implies #[trigger] front[i] == table[i] by {}
        let all = forall|i: int|
            0 <= i < table.len() ==> line_number(#[trigger] table[i]) is Some;
        if all {
            assert forall|i: int| 0 <= i < front.len() implies line_number(
                #[trigger] front[i],
            ) is Some by {
                assert(line_number(table[i]) is Some);
            }
            assert(line_number(table[table.len() - 1]) is Some);
        }
        if scanned(table) is Some {
            assert forall|i: int| 0 <= i < table.len() implies line_number(
                #[trigger] table[i],
            ) is Some by {
                if i < front.len() {
                    assert(line_number(front[i]) is Some);
                }
            }
            if (forall|i: int|
                0 <= i < table.len() ==> words(#[trigger] table[i])[0] != "Dirty:"@) {
                assert forall|i: int| 0 <= i < front.len() implies words(#[trigger] front[i])[0]
                    != "Dirty:"@ by {
                    assert(words(table[i])[0] != "Dirty:"@);
                }
                assert(words(table[table.len() - 1])[0] != "Dirty:"@);
            }
            if (forall|i: int|
                0 <= i < table.len() ==> words(#[trigger] table[i])[0] != "Writeback:"@) {
                assert forall|i: int| 0 <= i < front.len() implies words(#[trigger] front[i])[0]
                    != "Writeback:"@ by {
                    assert(words(table[i])[0] != "Writeback:"@);
                }
                assert(words(table[table.len() - 1])[0] != "Writeback:"@);
            }
            if 0 <= k < front.len() {
                assert(front[k] == table[k]);
                if (forall|i: int|
                    k < i < table.len() ==> words(#[trigger] table[i])[0] != "Dirty:"@) {
                    assert forall|i: int| k < i < front.len() implies words(
                        #[trigger] front[i],
                    )[0] != "Dirty:"@ by {
                        assert(words(table[i])[0] != "Dirty:"@);
                    }
                    assert(words(table[table.len() - 1])[0] != "Dirty:"@);
                }
                if (forall|i: int|
                    k < i < table.len() ==> words(#[trigger] table[i])[0] != "Writeback:"@) {
                    assert forall|i: int| k < i < front.len() implies words(
                        #[trigger] front[i],
                    )[0] != "Writeback:"@ by {
                        assert(words(table[i])[0] != "Writeback:"@);
                    }
                    assert(words(table[table.len() - 1])[0] != "Writeback:"@);
                }
            }
        }
    }
}

/// What waits is both kinds together, in bytes of which 1024 make a unit of the
/// table; and the number of a line is its second word.
pub proof fn lemma_pending_bytes(content: Seq<char>, line: Seq<char>)
    ensures
        pending_bytes(content) is Some <==> scanned(lines(content)) is Some,
        scanned(lines(content)) matches Some(found) ==> pending_bytes(content) == Some(
            ((match found.dirty_kb {
                Some(n) => n as nat,
                None => 0,
            } + match found.writeback_kb {
                Some(n) => n as nat,
                None => 0,
            }) * 1024) as nat,
        ),
        line_number(line) is Some <==> words(line).len() >= 2 && number(
            words(line)[1],
            0xffff_ffff_ffff_ffff,
        ) is Some,
        line_number(line) matches Some(n) ==> number(words(line)[1], 0xffff_ffff_ffff_ffff)
            == Some(n as nat),
{
}

/// A look at a synchronisation shows what waits exactly where that is known now and
/// was before, with what left since; then it is remembered.
pub proof fn lemma_ticks(last: Option<u128>, now: Option<u128>)
    ensures
        ({
            let (seen, tick) = ticked(last, now);
            &&& tick is Remaining <==> last is Some && now is Some
            &&& tick matches SyncTick::Remaining { current, drained } ==> Some(current) == now
                && seen == now && (last->0 >= current ==> drained == last->0 - current) && (last->0
                < current ==> drained == 0)
            &&& tick is Unknown ==> seen == last
        }),
{
}

/// While writes are completed, what is told is the time that remains where that is
/// known, and else the time that went by.
pub proof fn lemma_what_a_sync_tells(seconds: u64)
    ensures
        finalizing_text(true, seconds) == "Finalizing writes (syncfs (by device))... Remaining: "@
            + eta_text(seconds as nat),
        finalizing_text(false, seconds) == "Finalizing writes (syncfs (by device))... Elapsed: "@
            + eta_text(seconds as nat),
{
    reveal_strlit("Finalizing writes (");
    reveal_strlit("syncfs (by device)");
    reveal_strlit(")... Remaining: ");
    reveal_strlit(")... Elapsed: ");
    reveal_strlit("Finalizing writes (syncfs (by device))... Remaining: ");
    reveal_strlit("Finalizing writes (syncfs (by device))... Elapsed: ");
    assert("Finalizing writes ("@ + "syncfs (by device)"@ + ")... Remaining: "@
        =~= "Finalizing writes (syncfs (by device))... Remaining: "@);
    assert("Finalizing writes ("@ + "syncfs (by device)"@ + ")... Elapsed: "@
        =~= "Finalizing writes (syncfs (by device))... Elapsed: "@);
}

} // verus!
