//! Keeping the queue of an interrupted session.

use crate::queue::{item_views, restored, ItemView, QueueView, TransferItem, TransferQueue};
use vstd::prelude::*;

verus! {

/// What is done with the saved queue.
#[derive(Debug)]
pub enum SaveAction {
    /// It is as it was saved last.
    Unchanged,
    /// The queue is empty: the saved one is removed.
    Clear,
    /// These items are saved.
    Write(Vec<TransferItem>),
}

/// The contents of a `SaveAction`.
pub enum SaveView {
    Unchanged,
    Clear,
    Write(Seq<ItemView>),
}

impl View for SaveAction {
    type V = SaveView;

    open spec fn view(&self) -> SaveView {
        match *self {
            SaveAction::Unchanged => SaveView::Unchanged,
            SaveAction::Clear => SaveView::Clear,
            SaveAction::Write(items) => SaveView::Write(item_views(items@)),
        }
    }
}

/// What is done when a queue is saved whose revision was last saved as `last`.
pub open spec fn saving(queue: QueueView, last: u64) -> SaveView {
    if queue.revision == last {
        SaveView::Unchanged
    } else if queue.items.len() == 0 {
        SaveView::Clear
    } else {
        SaveView::Write(queue.items)
    }
}

/// What is done to save a queue.
pub fn save_queue_checkpoint(queue: &TransferQueue, last_saved_revision: u64) -> (r: SaveAction)
    ensures
        r@ == saving(queue@, last_saved_revision),
{
    if queue.revision() == last_saved_revision {
        return SaveAction::Unchanged;
    }
    let items = queue.snapshot_items();
    assert(item_views(items@).len() == items@.len());
    if items.len() == 0 {
        return SaveAction::Clear;
    }
    SaveAction::Write(items)
}

/// The revision that was last saved, when what saving asked for is done.
pub open spec fn revision_saved(action: SaveView, last: u64, revision: u64) -> u64 {
    if action is Unchanged {
        last
    } else {
        revision
    }
}

/// Takes note that what saving a queue asked for is done: the revision that was
/// last saved becomes the queue's.
pub fn note_saved(queue: &TransferQueue, action: &SaveAction, last_saved_revision: &mut u64)
    ensures
        *final(last_saved_revision) == revision_saved(
            action@,
            *old(last_saved_revision),
            queue@.revision,
        ),
        action@ == saving(queue@, *old(last_saved_revision)) ==> *final(last_saved_revision)
            == queue@.revision,
{
    match action {
        SaveAction::Unchanged => {},
        _ => {
            *last_saved_revision = queue.revision();
        },
    }
}

/// The saved items when what saving asked for is done, if there are any.
pub open spec fn file_saved(action: SaveView, before: Option<Seq<ItemView>>) -> Option<
    Seq<ItemView>,
> {
    match action {
        SaveView::Unchanged => before,
        SaveView::Clear => None,
        SaveView::Write(items) => Some(items),
    }
}

/// What was found of a saved queue.
#[derive(Debug)]
pub enum Saved {
    Missing,
    Unreadable,
    Malformed,
    Items(Vec<TransferItem>),
}

/// The contents of a `Saved`.
pub enum SavedView {
    Missing,
    Unreadable,
    Malformed,
    Items(Seq<ItemView>),
}

impl View for Saved {
    type V = SavedView;

    open spec fn view(&self) -> SavedView {
        match *self {
            Saved::Missing => SavedView::Missing,
            Saved::Unreadable => SavedView::Unreadable,
            Saved::Malformed => SavedView::Malformed,
            Saved::Items(items) => SavedView::Items(item_views(items@)),
        }
    }
}

/// What is done with it.
#[derive(Debug)]
pub enum LoadAction {
    /// There is nothing to resume.
    Nothing,
    /// There is nothing to resume, and what was saved is removed.
    Clear,
    /// These items can be resumed.
    Resume(Vec<TransferItem>),
}

/// The contents of a `LoadAction`.
pub enum LoadView {
    Nothing,
    Clear,
    Resume(Seq<ItemView>),
}

impl View for LoadAction {
    type V = LoadView;

    open spec fn view(&self) -> LoadView {
        match *self {
            LoadAction::Nothing => LoadView::Nothing,
            LoadAction::Clear => LoadView::Clear,
            LoadAction::Resume(items) => LoadView::Resume(item_views(items@)),
        }
    }
}

/// What is done with a saved queue: one that is unreadable stays, and one that
/// is malformed or empty is removed.
pub open spec fn loading(saved: SavedView) -> LoadView {
    match saved {
        SavedView::Missing => LoadView::Nothing,
        SavedView::Unreadable => LoadView::Nothing,
        SavedView::Malformed => LoadView::Clear,
        SavedView::Items(items) => if items.len() == 0 {
            LoadView::Clear
        } else {
            LoadView::Resume(items)
        },
    }
}

/// What a load finds of saved items.
pub open spec fn found(file: Option<Seq<ItemView>>) -> SavedView {
    match file {
        Some(items) => SavedView::Items(items),
        None => SavedView::Missing,
    }
}

/// What is done with a saved queue.
pub fn load_queue_checkpoint(saved: Saved) -> (r: LoadAction)
    ensures
        r@ == loading(saved@),
        saved matches Saved::Items(items) ==> items@.len() > 0 ==> r == LoadAction::Resume(items),
{
    match saved {
        Saved::Missing => LoadAction::Nothing,
        Saved::Unreadable => LoadAction::Nothing,
        Saved::Malformed => LoadAction::Clear,
        Saved::Items(items) => {
            assert(item_views(items@).len() == items@.len());
            if items.len() == 0 {
                LoadAction::Clear
            } else {
                LoadAction::Resume(items)
            }
        },
    }
}

/// An interrupted session can be resumed: what saving a queue writes, restored
/// in any other queue, is the items of the first; and a queue that was just
/// saved is not written again.
pub proof fn lemma_saved_queue_resumes(queue: QueueView, last: u64, other: QueueView)
    ensures
        saving(queue, last) matches SaveView::Write(items) ==> items.len() > 0 && restored(
            other,
            items,
        ).items == queue.items,
        queue.revision != last && queue.items.len() > 0 ==> saving(queue, last)
            == SaveView::Write(queue.items),
        saving(queue, queue.revision) is Unchanged,
{
}

/// A load gives back what a save kept: after a queue that has changed was saved,
/// its revision is the one last saved; its items are loaded in their order; and
/// where it had none no saved queue is left, and nothing is loaded.
pub proof fn lemma_load_after_save(
    queue: QueueView,
    last: u64,
    before: Option<Seq<ItemView>>,
)
    requires
        queue.revision != last,
    ensures
        ({
            let action = saving(queue, last);
            let file = file_saved(action, before);
            &&& revision_saved(action, last, queue.revision) == queue.revision
            &&& queue.items.len() > 0 ==> loading(found(file)) == LoadView::Resume(queue.items)
            &&& queue.items.len() == 0 ==> file is None && loading(found(file)) is Nothing
        }),
{
}

/// When a queue is written: exactly where it changed since it was last saved and
/// has items, and then all of them; where it changed and has none, what was saved
/// goes.
pub proof fn lemma_when_a_queue_is_saved(queue: QueueView, last: u64)
    ensures
        saving(queue, last) is Unchanged <==> queue.revision == last,
        saving(queue, last) is Clear <==> queue.revision != last && queue.items.len() == 0,
        saving(queue, last) is Write <==> queue.revision != last && queue.items.len() > 0,
        saving(queue, last) matches SaveView::Write(items) ==> items == queue.items,
{
}

/// What is resumed: exactly the items of a saved queue that has some. One that is
/// malformed or empty is removed, and one that cannot be read stays.
pub proof fn lemma_what_is_resumed(saved: SavedView)
    ensures
        loading(saved) is Resume <==> (saved matches SavedView::Items(items) && items.len() > 0),
        loading(saved) matches LoadView::Resume(items) ==> saved == SavedView::Items(items),
        loading(saved) is Clear <==> saved is Malformed || (saved matches SavedView::Items(items)
            && items.len() == 0),
        loading(saved) is Nothing <==> saved is Missing || saved is Unreadable,
{
}

} // verus!
