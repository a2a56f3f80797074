//! Putting mappings into a queue: at the start of a session, between two
//! batches, and when a device is mounted.

use crate::mounts::{mapping_views, MappingView, TransferMapping};
use crate::path::FilePath;
use crate::prompts::{
    judge_source, prompt_additional_source_path, resolved, PathFacts, Reading, SourceError,
    SourceInput, SourceVerdict,
};
use crate::queue::{
    directory_added, file_added, gathered, path_view, sum_sizes, FileMeta, QueueAddSummary,
    QueueError, QueueView, TransferQueue, WalkEntry,
};
use crate::text::{trimmed_text, utf8_lossy};
use crate::worker::text_view;
use vstd::prelude::*;

verus! {

/// What was found at the source of a mapping.
#[derive(Debug)]
pub enum SourceFacts {
    /// A file, and what stands at its destination.
    File {
        meta: FileMeta,
        destination_meta: Option<FileMeta>,
    },
    /// A directory, and what was found below it.
    Directory(Vec<WalkEntry>),
    /// Neither.
    Neither,
    /// It cannot be read.
    Unreadable,
}

/// What is known of a mapping before it is queued.
#[derive(Debug)]
pub struct MappingFacts {
    pub destination_exists: bool,
    pub source: SourceFacts,
}

/// Whether the files of a mapping have a size together that 64 bits hold.
pub open spec fn size_fits(mapping: MappingView, facts: SourceFacts, update_mode: bool) -> bool {
    match facts {
        SourceFacts::Directory(entries) => sum_sizes(
            gathered(entries@, mapping.source, mapping.destination, update_mode),
        ) <= u64::MAX,
        _ => true,
    }
}

/// What queueing a mapping does: a file is added as one and a directory as one,
/// what is neither adds nothing, and what cannot be read fails.
pub open spec fn mapping_added(
    before: QueueView,
    mapping: MappingView,
    facts: SourceFacts,
    update_mode: bool,
    r: Result<QueueAddSummary, QueueError>,
    after: QueueView,
) -> bool {
    match facts {
        SourceFacts::File { meta, destination_meta } => file_added(
            before,
            mapping.source,
            mapping.destination,
            meta,
            destination_meta,
            update_mode,
            r,
            after,
        ),
        SourceFacts::Directory(entries) => directory_added(
            before,
            mapping.source,
            mapping.destination,
            entries@,
            update_mode,
            r,
            after,
        ),
        SourceFacts::Neither => {
            &&& r == Ok::<QueueAddSummary, QueueError>(
                (QueueAddSummary { queued_files: 0, skipped_files: 0 }),
            )
            &&& after == before
        },
        SourceFacts::Unreadable => {
            &&& r == Err::<QueueAddSummary, QueueError>(QueueError::Unreadable)
            &&& after == before
        },
    }
}

/// Queues a mapping.
pub fn add_mapping(
    queue: &mut TransferQueue,
    mapping: &TransferMapping,
    facts: &SourceFacts,
    update_mode: bool,
) -> (r: Result<QueueAddSummary, QueueError>)
    requires
        old(queue).wf(),
        size_fits(mapping@, *facts, update_mode),
    ensures
        final(queue).wf(),
        final(queue).commands() == old(queue).commands(),
        mapping_added(old(queue)@, mapping@, *facts, update_mode, r, final(queue)@),
{
    match facts {
        SourceFacts::File { meta, destination_meta } => queue.add_file_with_policy(
            mapping.source.clone(),
            &mapping.destination,
            *meta,
            *destination_meta,
            update_mode,
        ),
        SourceFacts::Directory(entries) => queue.add_directory_with_policy(
            &mapping.source,
            &mapping.destination,
            entries,
            update_mode,
        ),
        SourceFacts::Neither => Ok(QueueAddSummary { queued_files: 0, skipped_files: 0 }),
        SourceFacts::Unreadable => Err(QueueError::Unreadable),
    }
}

/// Whether `states` are those of a queue while mappings are put into it one
/// after the other, with these results.
pub open spec fn chain_of(
    states: Seq<QueueView>,
    mappings: Seq<MappingView>,
    facts: Seq<SourceFacts>,
    update_mode: bool,
    results: Seq<Result<QueueAddSummary, QueueError>>,
) -> bool {
    &&& states.len() == results.len() + 1
    &&& results.len() <= mappings.len()
    &&& mappings.len() == facts.len()
    &&& forall|i: int|
        0 <= i < results.len() ==> mapping_added(
            states[i],
            mappings[i],
            facts[i],
            update_mode,
            #[trigger] results[i],
            states[i + 1],
        )
}

proof fn lemma_chain_grows(
    states: Seq<QueueView>,
    mappings: Seq<MappingView>,
    facts: Seq<SourceFacts>,
    update_mode: bool,
    results: Seq<Result<QueueAddSummary, QueueError>>,
    r: Result<QueueAddSummary, QueueError>,
    after: QueueView,
)
    requires
        chain_of(states, mappings, facts, update_mode, results),
        results.len() < mappings.len(),
        mapping_added(
            states.last(),
            mappings[results.len() as int],
            facts[results.len() as int],
            update_mode,
            r,
            after,
        ),
    ensures
        chain_of(states.push(after), mappings, facts, update_mode, results.push(r)),
{
    let longer = states.push(after);
    let more = results.push(r);
    assert forall|i: int| 0 <= i < more.len() implies mapping_added(
        longer[i],
        mappings[i],
        facts[i],
        update_mode,
        #[trigger] more[i],
        longer[i + 1],
    ) by {
        if i < results.len() {
            assert(more[i] == results[i]);
        }
    }
}

/// What was found at the sources of some mappings.
pub open spec fn sources_of(facts: Seq<MappingFacts>) -> Seq<SourceFacts> {
    facts.map_values(|f: MappingFacts| f.source)
}

/// Whether the destination of some mapping exists.
pub open spec fn any_destination(facts: Seq<MappingFacts>) -> bool {
    exists|i: int| 0 <= i < facts.len() && (#[trigger] facts[i]).destination_exists
}

fn any_destination_exists(facts: &Vec<MappingFacts>) -> (r: bool)
    ensures
        r == any_destination(facts@),
{
    let mut i: usize = 0;
    while i < facts.len()
        invariant
            i <= facts@.len(),
            forall|j: int| 0 <= j < i ==> !(#[trigger] facts@[j]).destination_exists,
        decreases facts@.len() - i,
    {
        if facts[i].destination_exists {
            return true;
        }
        i = i + 1;
    }
    false
}

/// The results so far, and the last one.
pub open spec fn all_ok(results: Seq<QueueAddSummary>) -> Seq<
    Result<QueueAddSummary, QueueError>,
> {
    results.map_values(|s: QueueAddSummary| Ok::<QueueAddSummary, QueueError>(s))
}

/// What came of queueing the mappings of a session: those that were queued, and
/// why the one behind them could not be, if there is one.
#[derive(Debug)]
pub struct InitialQueueing {
    pub summaries: Vec<QueueAddSummary>,
    pub failure: Option<QueueError>,
}

/// The results of mappings that were queued, with that of the one that could not
/// be.
pub open spec fn results_of(done: Seq<QueueAddSummary>, failure: Option<QueueError>) -> Seq<
    Result<QueueAddSummary, QueueError>,
> {
    match failure {
        None => all_ok(done),
        Some(e) => all_ok(done).push(Err(e)),
    }
}

/// Queues the mappings of a session one after the other, if the destination of
/// any of them exists. The first that cannot be queued ends it; those before it
/// stay queued.
pub fn enqueue_initial_mappings(
    queue: &mut TransferQueue,
    mappings: &Vec<TransferMapping>,
    facts: &Vec<MappingFacts>,
    update_mode: bool,
) -> (r: Option<InitialQueueing>)
    requires
        old(queue).wf(),
        mappings@.len() == facts@.len(),
        forall|i: int|
            0 <= i < mappings@.len() ==> size_fits(
                (#[trigger] mappings@[i])@,
                facts@[i].source,
                update_mode,
            ),
    ensures
        final(queue).wf(),
        final(queue).commands() == old(queue).commands(),
        match r {
            None => !any_destination(facts@) && final(queue)@ == old(queue)@,
            Some(run) => {
                &&& any_destination(facts@)
                &&& run.failure is None ==> run.summaries@.len() == mappings@.len()
                &&& exists|states: Seq<QueueView>|
                    {
                        &&& #[trigger] chain_of(
                            states,
                            mapping_views(mappings@),
                            sources_of(facts@),
                            update_mode,
                            results_of(run.summaries@, run.failure),
                        )
                        &&& states[0] == old(queue)@
                        &&& states.last() == final(queue)@
                    }
            },
        },
{
    if !any_destination_exists(facts) {
        return None;
    }
    let ghost views = mapping_views(mappings@);
    let ghost sources = sources_of(facts@);
    let mut summaries: Vec<QueueAddSummary> = Vec::new();
    let ghost mut states: Seq<QueueView> = seq![queue@];
    let mut i: usize = 0;
    assert(all_ok(summaries@) =~= Seq::<Result<QueueAddSummary, QueueError>>::empty());
    while i < mappings.len()
        invariant
            i <= mappings@.len(),
            mappings@.len() == facts@.len(),
            any_destination(facts@),
            queue.wf(),
            queue.commands() == old(queue).commands(),
            views == mapping_views(mappings@),
            sources == sources_of(facts@),
            summaries@.len() == i,
            chain_of(states, views, sources, update_mode, all_ok(summaries@)),
            states[0] == old(queue)@,
            states.last() == queue@,
            forall|i: int|
                0 <= i < mappings@.len() ==> size_fits(
                    (#[trigger] mappings@[i])@,
                    facts@[i].source,
                    update_mode,
                ),
        decreases mappings@.len() - i,
    {
        let ghost before = all_ok(summaries@);
        let result = add_mapping(queue, &mappings[i], &facts[i].source, update_mode);
        proof {
            assert(views[i as int] == mappings@[i as int]@);
            assert(sources[i as int] == facts@[i as int].source);
            lemma_chain_grows(states, views, sources, update_mode, before, result, queue@);
            states = states.push(queue@);
        }
        match result {
            Ok(summary) => {
                summaries.push(summary);
                assert(all_ok(summaries@) =~= before.push(Ok(summary)));
            },
            Err(e) => {
                let run = InitialQueueing { summaries, failure: Some(e) };
                assert(results_of(run.summaries@, run.failure) == before.push(result));
                assert(chain_of(
                    states,
                    views,
                    sources,
                    update_mode,
                    results_of(run.summaries@, run.failure),
                ));
                return Some(run);
            },
        }
        i = i + 1;
    }
    assert(chain_of(states, views, sources, update_mode, results_of(summaries@, None)));
    Some(InitialQueueing { summaries, failure: None })
}

/// Queues the mappings that a device takes up one after the other. One that
/// cannot be queued does not keep the others from being.
pub fn enqueue_for_mount(
    queue: &mut TransferQueue,
    mappings: &Vec<TransferMapping>,
    facts: &Vec<SourceFacts>,
    update_mode: bool,
) -> (r: Vec<Result<QueueAddSummary, QueueError>>)
    requires
        old(queue).wf(),
        mappings@.len() == facts@.len(),
        forall|i: int|
            0 <= i < mappings@.len() ==> size_fits(
                (#[trigger] mappings@[i])@,
                facts@[i],
                update_mode,
            ),
    ensures
        final(queue).wf(),
        final(queue).commands() == old(queue).commands(),
        r@.len() == mappings@.len(),
        exists|states: Seq<QueueView>|
            {
                &&& #[trigger] chain_of(
                    states,
                    mapping_views(mappings@),
                    facts@,
                    update_mode,
                    r@,
                )
                &&& states[0] == old(queue)@
                &&& states.last() == final(queue)@
            },
{
    let ghost views = mapping_views(mappings@);
    let mut r: Vec<Result<QueueAddSummary, QueueError>> = Vec::new();
    let ghost mut states: Seq<QueueView> = seq![queue@];
    let mut i: usize = 0;
    while i < mappings.len()
        invariant
            i <= mappings@.len(),
            mappings@.len() == facts@.len(),
            queue.wf(),
            queue.commands() == old(queue).commands(),
            views == mapping_views(mappings@),
            r@.len() == i,
            chain_of(states, views, facts@, update_mode, r@),
            states[0] == old(queue)@,
            states.last() == queue@,
            forall|i: int|
                0 <= i < mappings@.len() ==> size_fits(
                    (#[trigger] mappings@[i])@,
                    facts@[i],
                    update_mode,
                ),
        decreases mappings@.len() - i,
    {
        let ghost before = r@;
        let result = add_mapping(queue, &mappings[i], &facts[i], update_mode);
        proof {
            assert(views[i as int] == mappings@[i as int]@);
            lemma_chain_grows(states, views, facts@, update_mode, before, result, queue@);
            states = states.push(queue@);
        }
        r.push(result);
        i = i + 1;
    }
    r
}

/// Whether adding a source counts: something of it is queued.
pub open spec fn counts(r: Result<QueueAddSummary, QueueError>) -> bool {
    match r {
        Ok(summary) => summary.queued_files > 0,
        Err(_) => false,
    }
}

/// The adding of sources between two batches.
pub struct AddFlow {
    files_added: usize,
    pending: Option<FilePath>,
}

/// The contents of an `AddFlow`.
pub struct AddView {
    /// The sources of which something is queued.
    pub files_added: usize,
    /// The source that was accepted and has no destination yet.
    pub pending: Option<Seq<u8>>,
}

impl View for AddFlow {
    type V = AddView;

    closed spec fn view(&self) -> AddView {
        AddView { files_added: self.files_added, pending: path_view(self.pending) }
    }
}

/// What follows a source.
#[derive(Debug)]
pub enum AddStep {
    /// Ask for another source, since this one is not accepted.
    AskAgain(SourceError),
    /// Ask where this source goes.
    AskDestination(FilePath),
    /// There are no more sources.
    Finish,
}

/// The contents of an `AddStep`.
pub enum AddStepView {
    AskAgain(Seq<char>),
    AskDestination(Seq<u8>),
    Finish,
}

impl View for AddStep {
    type V = AddStepView;

    open spec fn view(&self) -> AddStepView {
        match *self {
            AddStep::AskAgain(e) => AddStepView::AskAgain(e.text()),
            AddStep::AskDestination(p) => AddStepView::AskDestination(p@),
            AddStep::Finish => AddStepView::Finish,
        }
    }
}

impl AddView {
    /// After the user wrote something for a source, and what follows: nothing, and
    /// the default itself, end the list, and a path that is not accepted is asked
    /// for again.
    pub open spec fn entered(
        self,
        reading: Reading,
        default_source: Seq<u8>,
        home: Option<Seq<char>>,
        facts: PathFacts,
    ) -> (AddView, AddStepView) {
        let waiting = AddView { pending: None, ..self };
        match reading {
            Reading::Closed => (waiting, AddStepView::Finish),
            Reading::Line(line) => {
                let trimmed = trimmed_text(line@);
                let path = resolved(trimmed, default_source, home);
                if trimmed.len() == 0 || trimmed == utf8_lossy(default_source) {
                    (waiting, AddStepView::Finish)
                } else if facts.acceptable() {
                    (AddView { pending: Some(path), ..self }, AddStepView::AskDestination(path))
                } else {
                    (waiting, AddStepView::AskAgain(facts.objection(path)))
                }
            },
        }
    }

    /// The accepted source with a destination.
    pub open spec fn mapping_to(self, destination: Seq<u8>) -> MappingView {
        MappingView { source: self.pending->0, destination }
    }
}

impl AddFlow {
    /// Nothing was added yet.
    pub fn new() -> (r: AddFlow)
        ensures
            r@ == (AddView { files_added: 0, pending: None }),
    {
        AddFlow { files_added: 0, pending: None }
    }

    /// How many sources there are of which something is queued.
    pub fn files_added(&self) -> (r: usize)
        ensures
            r == self@.files_added,
    {
        self.files_added
    }

    /// What follows what the user wrote for a source. `facts` are those of the
    /// path that it names, if it names one.
    pub fn source_entered(
        &mut self,
        reading: &Reading,
        default_source: &FilePath,
        home: &Option<String>,
        facts: &PathFacts,
    ) -> (r: AddStep)
        ensures
            (final(self)@, r@) == old(self)@.entered(
                *reading,
                default_source@,
                text_view(*home),
                *facts,
            ),
    {
        self.pending = None;
        match prompt_additional_source_path(reading, default_source, home) {
            SourceInput::Path(p) => match judge_source(p, facts) {
                SourceVerdict::Accepted(p) => {
                    self.pending = Some(p.clone());
                    AddStep::AskDestination(p)
                },
                SourceVerdict::Refused(e) => AddStep::AskAgain(e),
            },
            _ => AddStep::Finish,
        }
    }

    /// Queues the accepted source, and counts it where something of it is queued.
    pub fn add_more_files(
        &mut self,
        queue: &mut TransferQueue,
        destination: FilePath,
        facts: &SourceFacts,
        update_mode: bool,
    ) -> (r: Result<QueueAddSummary, QueueError>)
        requires
            old(queue).wf(),
            old(self)@.pending is Some,
            old(self)@.files_added < usize::MAX,
            size_fits(old(self)@.mapping_to(destination@), *facts, update_mode),
        ensures
            final(queue).wf(),
            final(queue).commands() == old(queue).commands(),
            mapping_added(
                old(queue)@,
                old(self)@.mapping_to(destination@),
                *facts,
                update_mode,
                r,
                final(queue)@,
            ),
            final(self)@.pending is None,
            final(self)@.files_added == old(self)@.files_added + if counts(r) {
                1int
            } else {
                0int
            },
    {
        let source = self.pending.take().unwrap();
        let mapping = TransferMapping { source, destination };
        let result = add_mapping(queue, &mapping, facts, update_mode);
        if let Ok(summary) = &result {
            if summary.queued_files > 0 {
                self.files_added = self.files_added + 1;
            }
        }
        result
    }
}

/// Only a source that existed when it was entered is added, and could be opened
/// if it is a file; any other path is asked for again.
pub proof fn lemma_added_source_existed(
    flow: AddView,
    reading: Reading,
    default_source: Seq<u8>,
    home: Option<Seq<char>>,
    facts: PathFacts,
)
    ensures
        ({
            let (after, step) = flow.entered(reading, default_source, home, facts);
            &&& after.files_added == flow.files_added
            &&& after.pending is Some <==> step is AskDestination
            &&& after.pending is Some ==> facts.exists && facts.acceptable()
            &&& step is AskAgain ==> !facts.acceptable() && reading is Line
        }),
{
}

/// Adding never disturbs what waits: whatever a mapping is, the items that
/// waited stay in front, in their order; and where nothing is queued nothing
/// changes.
pub proof fn lemma_adding_keeps_items(
    before: QueueView,
    mapping: MappingView,
    facts: SourceFacts,
    update_mode: bool,
    r: Result<QueueAddSummary, QueueError>,
    after: QueueView,
)
    requires
        mapping_added(before, mapping, facts, update_mode, r, after),
    ensures
        before.items.is_prefix_of(after.items),
        !counts(r) ==> after == before,
        counts(r) ==> after.revision != before.revision && after.items.len() == before.items.len()
            + r->Ok_0.queued_files,
{
    match facts {
        SourceFacts::Directory(entries) => {
            if r is Ok {
                let found = gathered(
                    entries@,
                    mapping.source,
                    mapping.destination,
                    update_mode,
                );
                let batch = choose|batch: Seq<crate::queue::ItemView>|
                    #[trigger] crate::queue::sorted_by_source(batch, found) && after
                        == crate::queue::extended(before, batch);
                crate::queue::lemma_sorting_keeps_items(batch, found);
                assert(before.items.is_prefix_of(after.items));
            }
        },
        _ => {},
    }
}

/// What follows a source that is to be added: a path that exists, and can be opened
/// if it is a file, is asked for its destination; nothing, the default itself, and
/// leaving end the adding.
pub proof fn lemma_add_steps(
    flow: AddView,
    reading: Reading,
    default_source: Seq<u8>,
    home: Option<Seq<char>>,
    facts: PathFacts,
)
    ensures
        ({
            let (after, step) = flow.entered(reading, default_source, home, facts);
            let named = reading is Line && trimmed_text(reading->Line_0@).len() > 0
                && trimmed_text(reading->Line_0@) != utf8_lossy(default_source);
            let good = facts.exists && (!facts.is_file || facts.open_error is None);
            &&& step is AskDestination <==> named && good
            &&& step is AskAgain <==> named && !good
            &&& step is Finish <==> !named
            &&& step matches AddStepView::AskDestination(p) ==> p == resolved(
                trimmed_text(reading->Line_0@),
                default_source,
                home,
            ) && after.pending == Some(p)
            &&& !(step is AskDestination) ==> after.pending is None
            &&& after.files_added == flow.files_added
        }),
{
}

/// What queueing a mapping does by what its source is: a file is added as a file and
/// a directory as a directory, from the mapping's source to its destination; what is
/// neither changes nothing, and what cannot be read fails and changes nothing.
pub proof fn lemma_mapping_by_kind(
    before: QueueView,
    mapping: MappingView,
    facts: SourceFacts,
    update_mode: bool,
    r: Result<QueueAddSummary, QueueError>,
    after: QueueView,
)
    requires
        mapping_added(before, mapping, facts, update_mode, r, after),
    ensures
        facts matches SourceFacts::File { meta, destination_meta } ==> file_added(
            before,
            mapping.source,
            mapping.destination,
            meta,
            destination_meta,
            update_mode,
            r,
            after,
        ),
        facts matches SourceFacts::Directory(entries) ==> directory_added(
            before,
            mapping.source,
            mapping.destination,
            entries@,
            update_mode,
            r,
            after,
        ),
        facts is Neither ==> after == before && r is Ok && r->Ok_0.queued_files == 0
            && r->Ok_0.skipped_files == 0,
        facts is Unreadable ==> after == before && r == Err::<QueueAddSummary, QueueError>(
            QueueError::Unreadable,
        ),
        counts(r) <==> r is Ok && r->Ok_0.queued_files > 0,
{
}

/// Every mapping is queued from where the one before it left the queue: none is left
/// out, and only the last may have failed.
pub proof fn lemma_mappings_in_turn(
    states: Seq<QueueView>,
    mappings: Seq<MappingView>,
    facts: Seq<SourceFacts>,
    update_mode: bool,
    done: Seq<QueueAddSummary>,
    failure: Option<QueueError>,
    i: int,
)
    requires
        chain_of(states, mappings, facts, update_mode, results_of(done, failure)),
    ensures
        0 <= i < done.len() ==> mapping_added(
            states[i],
            mappings[i],
            facts[i],
            update_mode,
            Ok(done[i]),
            states[i + 1],
        ),
        failure matches Some(e) ==> mapping_added(
            states[done.len() as int],
            mappings[done.len() as int],
            facts[done.len() as int],
            update_mode,
            Err(e),
            states[done.len() + 1int],
        ),
        states.len() == done.len() + 1 + if failure is Some {
            1int
        } else {
            0int
        },
{
    let results = results_of(done, failure);
    if 0 <= i < done.len() {
        assert(results[i] == Ok::<QueueAddSummary, QueueError>(done[i]));
    }
    if let Some(e) = failure {
        assert(results[done.len() as int] == Err::<QueueAddSummary, QueueError>(e));
    }
}

/// Mappings of a session are queued exactly where the destination of one of them
/// exists.
pub proof fn lemma_any_destination(facts: Seq<MappingFacts>, i: int)
    ensures
        0 <= i < facts.len() && facts[i].destination_exists ==> any_destination(facts),
        (forall|k: int| 0 <= k < facts.len() ==> !(#[trigger] facts[k]).destination_exists)
            ==> !any_destination(facts),
        sources_of(facts).len() == facts.len(),
        0 <= i < facts.len() ==> sources_of(facts)[i] == facts[i].source,
{
}

} // verus!
