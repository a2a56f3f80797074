//! What the user's answers mean.

use crate::config::text_path;
use crate::mounts::{mapping_views, MappingView, TransferMapping};
use crate::path::{absolute, joined, FilePath};
use crate::queue::{path_view, QueueAddSummary};
use crate::text::{
    chars_of, decimal, decimal_text, decode_lossy, lower_equals, lowered, number,
    parse_number, same_chars, string_of, trim, trimmed_text, utf8_lossy,
};
use crate::worker::text_view;
use vstd::prelude::*;

verus! {

/// The most workers that a transfer has.
pub const WORKER_LIMIT: usize = 8;

/// The workers that are suggested.
pub const SUGGESTED_WORKERS: usize = 2;

/// A text with the home directory in place of a tilde.
pub open spec fn expanded(s: Seq<char>, home: Option<Seq<char>>) -> Seq<char> {
    if s.len() > 0 && s[0] == '~' && (s.len() == 1 || s[1] == '/') && home is Some {
        home->0 + s.skip(1)
    } else {
        s
    }
}

/// A path with the home directory in place of a tilde:
/// `shellexpand::tilde_with_context`, as it is on Unix. It replaces a tilde that
/// stands alone or before a slash, where the home directory is known.
#[verifier::external_body]
pub(crate) fn expand_tilde(input: &str, home: &Option<String>) -> (r: String)
    ensures
        r@ == expanded(input@, text_view(*home)),
{
    shellexpand::tilde_with_context(input, || home.as_ref().map(|h| h.as_str())).into_owned()
}

/// A path that the user wrote: one that is not absolute stands below `base`.
pub open spec fn resolved(s: Seq<char>, base: Seq<u8>, home: Option<Seq<char>>) -> Seq<u8> {
    joined(base, text_path(expanded(s, home)))
}

/// A path that the user wrote.
pub fn resolve_user_path(input: &str, default_base: &FilePath, home: &Option<String>) -> (r:
    FilePath)
    ensures
        r@ == resolved(input@, default_base@, text_view(*home)),
        absolute(text_path(expanded(input@, text_view(*home)))) ==> r@ == text_path(
            expanded(input@, text_view(*home)),
        ),
{
    let path = FilePath::from_text(expand_tilde(input, home).as_str());
    if path.is_absolute() {
        path
    } else {
        default_base.join(&path)
    }
}

/// Whether an answer says yes, in English or in French.
pub open spec fn says_yes(s: Seq<char>) -> bool {
    let answer = lowered(trimmed_text(s));
    answer == "y"@ || answer == "yes"@ || answer == "o"@ || answer == "oui"@
}

/// Whether an answer says yes. No answer means the default.
pub fn answers_yes(line: &str, default_yes: bool) -> (r: bool)
    ensures
        r == if trimmed_text(line@).len() == 0 {
            default_yes
        } else {
            says_yes(line@)
        },
{
    let answer = trim(&chars_of(line));
    if answer.len() == 0 {
        return default_yes;
    }
    lower_equals(&answer, "y") || lower_equals(&answer, "yes") || lower_equals(&answer, "o")
        || lower_equals(&answer, "oui")
}

/// Whether an answer says yes. Where there is none it does not.
pub fn prompt_yes_no(response: &Option<String>) -> (r: bool)
    ensures
        r == match *response {
            Some(line) => says_yes(line@),
            None => false,
        },
{
    match response {
        Some(line) => {
            let answer = trim(&chars_of(line.as_str()));
            lower_equals(&answer, "y") || lower_equals(&answer, "yes") || lower_equals(
                &answer,
                "o",
            ) || lower_equals(&answer, "oui")
        },
        None => false,
    }
}

/// Whether an answer is the letter y.
pub open spec fn is_y(s: Seq<char>) -> bool {
    lowered(trimmed_text(s)) == "y"@
}

/// Whether an answer is the letter y.
pub fn answers_y(line: &str) -> (r: bool)
    ensures
        r == is_y(line@),
{
    lower_equals(&trim(&chars_of(line)), "y")
}

/// The answers to the questions on a transfer. Each may be missing.
pub struct OptionAnswers {
    pub workers: Option<String>,
    pub verify: Option<String>,
    pub update: Option<String>,
    pub unmount: Option<String>,
    pub cleanup: Option<String>,
}

/// How a transfer is done.
#[derive(Debug)]
pub struct TransferOptions {
    pub num_workers: usize,
    pub verify: bool,
    pub unmount: bool,
    pub cleanup_mode: String,
    pub update_mode: bool,
}

/// The most workers on a machine that runs `available` at once.
pub open spec fn most_workers(available: usize) -> usize {
    if available <= WORKER_LIMIT {
        available
    } else {
        WORKER_LIMIT
    }
}

/// The workers that are suggested there.
pub open spec fn suggested(available: usize) -> usize {
    if most_workers(available) <= SUGGESTED_WORKERS {
        most_workers(available)
    } else {
        SUGGESTED_WORKERS
    }
}

/// The workers that an answer asks for: a number within the bounds, or where it
/// is none the suggested ones.
pub open spec fn workers_chosen(answer: Option<Seq<char>>, available: usize) -> nat {
    match answer {
        None => suggested(available) as nat,
        Some(line) => match number(trimmed_text(line), usize::MAX as nat) {
            None => suggested(available) as nat,
            Some(n) => if n < 1 {
                1
            } else if n > most_workers(available) {
                most_workers(available) as nat
            } else {
                n
            },
        },
    }
}

/// Whether sources are removed: the second choice.
pub open spec fn cleanup_chosen(answer: Option<Seq<char>>) -> Seq<char> {
    match answer {
        Some(line) => if trimmed_text(line) == "2"@ {
            "delete"@
        } else {
            "none"@
        },
        None => "none"@,
    }
}

/// Whether an answer is the letter y.
pub open spec fn chosen_y(answer: Option<Seq<char>>) -> bool {
    match answer {
        Some(line) => is_y(line),
        None => false,
    }
}

/// Whether unchanged files are skipped: unless an answer says otherwise.
pub open spec fn update_chosen(answer: Option<Seq<char>>) -> bool {
    match answer {
        Some(line) => trimmed_text(line).len() == 0 || is_y(line),
        None => true,
    }
}

fn most_workers_of(available: usize) -> (r: usize)
    ensures
        r == most_workers(available),
{
    if available <= WORKER_LIMIT {
        available
    } else {
        WORKER_LIMIT
    }
}

fn suggested_of(available: usize) -> (r: usize)
    ensures
        r == suggested(available),
{
    let most = most_workers_of(available);
    if most <= SUGGESTED_WORKERS {
        most
    } else {
        SUGGESTED_WORKERS
    }
}

/// The question for the number of workers.
pub open spec fn workers_question_text(available: usize) -> Seq<char> {
    "Parallel workers (1-"@ + decimal(most_workers(available) as nat) + ") ["@ + decimal(
        suggested(available) as nat,
    ) + "]: "@
}

/// The question for the number of workers.
pub fn workers_question(available: usize) -> (r: String)
    ensures
        r@ == workers_question_text(available),
{
    let mut r = "Parallel workers (1-".to_owned();
    r.append(decimal_text(most_workers_of(available) as u128).as_str());
    r.append(") [");
    r.append(decimal_text(suggested_of(available) as u128).as_str());
    r.append("]: ");
    r
}

/// The number of workers that an answer asks for.
fn choose_workers(answer: &Option<String>, available: usize) -> (r: usize)
    requires
        available >= 1,
    ensures
        r == workers_chosen(text_view(*answer), available),
        1 <= r <= WORKER_LIMIT,
{
    let most = most_workers_of(available);
    match answer {
        None => suggested_of(available),
        Some(line) => match parse_number(&trim(&chars_of(line.as_str())), usize::MAX as u64) {
            None => suggested_of(available),
            Some(n) => {
                let wanted = n as usize;
                if wanted < 1 {
                    1
                } else if wanted > most {
                    most
                } else {
                    wanted
                }
            },
        },
    }
}

/// How a transfer is done by the user's answers, on a machine that runs
/// `available` workers at once.
pub fn get_transfer_options(answers: &OptionAnswers, available: usize) -> (r: TransferOptions)
    requires
        available >= 1,
    ensures
        r.num_workers == workers_chosen(text_view(answers.workers), available),
        1 <= r.num_workers <= WORKER_LIMIT,
        r.num_workers <= available,
        r.verify == chosen_y(text_view(answers.verify)),
        r.update_mode == update_chosen(text_view(answers.update)),
        r.unmount == chosen_y(text_view(answers.unmount)),
        r.cleanup_mode@ == cleanup_chosen(text_view(answers.cleanup)),
{
    let num_workers = choose_workers(&answers.workers, available);
    let verify = match &answers.verify {
        Some(line) => answers_y(line.as_str()),
        None => false,
    };
    let update_mode = match &answers.update {
        Some(line) => {
            let response = trim(&chars_of(line.as_str()));
            response.len() == 0 || lower_equals(&response, "y")
        },
        None => true,
    };
    let unmount = match &answers.unmount {
        Some(line) => answers_y(line.as_str()),
        None => false,
    };
    let cleanup_mode = match &answers.cleanup {
        Some(line) => {
            if same_chars(&trim(&chars_of(line.as_str())), &chars_of("2")) {
                "delete".to_owned()
            } else {
                "none".to_owned()
            }
        },
        None => "none".to_owned(),
    };
    TransferOptions { num_workers, verify, unmount, cleanup_mode, update_mode }
}

/// Yes or no.
pub open spec fn yes_no(b: bool) -> Seq<char> {
    if b {
        "Yes"@
    } else {
        "No"@
    }
}

fn yes_no_text(b: bool) -> (r: String)
    ensures
        r@ == yes_no(b),
{
    if b {
        "Yes".to_owned()
    } else {
        "No".to_owned()
    }
}

impl TransferOptions {
    /// The options in a line.
    pub open spec fn summary_text(self) -> Seq<char> {
        decimal(self.num_workers as nat) + " workers | Verify: "@ + yes_no(self.verify)
            + " | Update: "@ + yes_no(self.update_mode) + " | Unmount: "@ + yes_no(self.unmount)
            + " | Cleanup: "@ + self.cleanup_mode@
    }

    /// The options in a line.
    pub fn summary(&self) -> (r: String)
        ensures
            r@ == self.summary_text(),
    {
        let mut r = decimal_text(self.num_workers as u128);
        r.append(" workers | Verify: ");
        r.append(yes_no_text(self.verify).as_str());
        r.append(" | Update: ");
        r.append(yes_no_text(self.update_mode).as_str());
        r.append(" | Unmount: ");
        r.append(yes_no_text(self.unmount).as_str());
        r.append(" | Cleanup: ");
        r.append(self.cleanup_mode.as_str());
        r
    }
}

/// What was read from the user.
#[derive(Debug)]
pub enum Reading {
    Line(String),
    /// The user left the question.
    Closed,
}

/// What is done about a destination.
#[derive(Debug)]
pub enum DestinationChoice {
    /// The default is taken.
    Default,
    /// This path is taken, and created where it does not exist.
    Path(FilePath),
    /// The user left the question: the default is taken.
    Left,
}

/// Asks what a line says about a destination: nothing, or the default itself,
/// means the default.
pub fn prompt_destination_path(
    reading: &Reading,
    default_destination: &FilePath,
    home: &Option<String>,
) -> (r: DestinationChoice)
    ensures
        match *reading {
            Reading::Closed => r is Left,
            Reading::Line(line) => {
                let trimmed = trimmed_text(line@);
                if trimmed.len() == 0 || trimmed == utf8_lossy(default_destination@) {
                    r is Default
                } else {
                    r matches DestinationChoice::Path(p) && p@ == resolved(
                        trimmed,
                        default_destination@,
                        text_view(*home),
                    )
                }
            },
        },
{
    match reading {
        Reading::Closed => DestinationChoice::Left,
        Reading::Line(line) => {
            let trimmed = trim(&chars_of(line.as_str()));
            let default = chars_of(decode_lossy(default_destination.as_bytes()).as_str());
            if trimmed.len() == 0 || same_chars(&trimmed, &default) {
                return DestinationChoice::Default;
            }
            let text = string_of(&trimmed);
            DestinationChoice::Path(resolve_user_path(text.as_str(), default_destination, home))
        },
    }
}

/// What a line says about a source.
#[derive(Debug)]
pub enum SourceInput {
    /// Ask again.
    Retry,
    /// There are no more sources.
    Finish,
    /// This path, if it can be read.
    Path(FilePath),
    /// There is no source at all.
    Nothing,
}

/// Asks what a line says about the source of a mapping. The default itself is
/// no source: it ends the list, if there is one.
pub fn prompt_mapping_source_path(
    reading: &Reading,
    default_source: &FilePath,
    home: &Option<String>,
    has_existing_mappings: bool,
) -> (r: SourceInput)
    ensures
        match *reading {
            Reading::Closed => if has_existing_mappings {
                r is Finish
            } else {
                r is Nothing
            },
            Reading::Line(line) => {
                let trimmed = trimmed_text(line@);
                if trimmed == utf8_lossy(default_source@) {
                    if has_existing_mappings {
                        r is Finish
                    } else {
                        r is Retry
                    }
                } else {
                    r matches SourceInput::Path(p) && p@ == resolved(
                        trimmed,
                        default_source@,
                        text_view(*home),
                    )
                }
            },
        },
{
    match reading {
        Reading::Closed => {
            if has_existing_mappings {
                SourceInput::Finish
            } else {
                SourceInput::Nothing
            }
        },
        Reading::Line(line) => {
            let trimmed = trim(&chars_of(line.as_str()));
            let default = chars_of(decode_lossy(default_source.as_bytes()).as_str());
            if same_chars(&trimmed, &default) {
                if has_existing_mappings {
                    return SourceInput::Finish;
                }
                return SourceInput::Retry;
            }
            let text = string_of(&trimmed);
            SourceInput::Path(resolve_user_path(text.as_str(), default_source, home))
        },
    }
}

/// Asks what a line says about a source to add to a queue. No answer, and the
/// default itself, end the list.
pub fn prompt_additional_source_path(
    reading: &Reading,
    default_source: &FilePath,
    home: &Option<String>,
) -> (r: SourceInput)
    ensures
        match *reading {
            Reading::Closed => r is Finish,
            Reading::Line(line) => {
                let trimmed = trimmed_text(line@);
                if trimmed.len() == 0 || trimmed == utf8_lossy(default_source@) {
                    r is Finish
                } else {
                    r matches SourceInput::Path(p) && p@ == resolved(
                        trimmed,
                        default_source@,
                        text_view(*home),
                    )
                }
            },
        },
{
    match reading {
        Reading::Closed => SourceInput::Finish,
        Reading::Line(line) => {
            let trimmed = trim(&chars_of(line.as_str()));
            let default = chars_of(decode_lossy(default_source.as_bytes()).as_str());
            if trimmed.len() == 0 || same_chars(&trimmed, &default) {
                return SourceInput::Finish;
            }
            let text = string_of(&trimmed);
            SourceInput::Path(resolve_user_path(text.as_str(), default_source, home))
        },
    }
}

/// Why a source is not accepted.
#[derive(Debug)]
pub enum SourceError {
    Missing(FilePath),
    /// It cannot be opened, for this reason.
    Unreadable(String),
}

impl SourceError {
    /// The message of an error.
    pub open spec fn text(self) -> Seq<char> {
        match self {
            SourceError::Missing(p) => "Path does not exist: "@ + utf8_lossy(p@),
            SourceError::Unreadable(why) => "Cannot read file (permission denied): "@ + why@,
        }
    }

    /// The message of an error.
    pub fn message(&self) -> (r: String)
        ensures
            r@ == self.text(),
    {
        match self {
            SourceError::Missing(p) => {
                let mut r = "Path does not exist: ".to_owned();
                r.append(decode_lossy(p.as_bytes()).as_str());
                r
            },
            SourceError::Unreadable(why) => {
                let mut r = "Cannot read file (permission denied): ".to_owned();
                r.append(why.as_str());
                r
            },
        }
    }
}

/// Whether a source is accepted: it exists, and a file can be opened.
pub fn validate_source_path(
    source: &FilePath,
    exists: bool,
    is_file: bool,
    open_error: Option<String>,
) -> (r: Result<(), SourceError>)
    ensures
        match r {
            Ok(_) => exists && (!is_file || open_error is None),
            Err(SourceError::Missing(p)) => !exists && p@ == source@,
            Err(SourceError::Unreadable(why)) => exists && is_file && open_error == Some(why),
        },
{
    if !exists {
        return Err(SourceError::Missing(source.clone()));
    }
    if is_file {
        if let Some(why) = open_error {
            return Err(SourceError::Unreadable(why));
        }
    }
    Ok(())
}

/// What the file system says of a path.
#[derive(Debug)]
pub struct PathFacts {
    pub exists: bool,
    pub is_file: bool,
    /// Why it cannot be opened, where it is a file and cannot be.
    pub open_error: Option<String>,
}

impl PathFacts {
    /// Whether a source with these facts is accepted: it exists, and a file can
    /// be opened.
    pub open spec fn acceptable(self) -> bool {
        self.exists && (!self.is_file || self.open_error is None)
    }

    /// Why a source with these facts is not accepted.
    pub open spec fn objection(self, source: Seq<u8>) -> Seq<char> {
        if !self.exists {
            "Path does not exist: "@ + utf8_lossy(source)
        } else {
            "Cannot read file (permission denied): "@ + self.open_error->0@
        }
    }
}

/// What follows a source that the user named.
pub enum SourceVerdict {
    /// It is accepted.
    Accepted(FilePath),
    /// It is not, for this reason: ask again.
    Refused(SourceError),
}

/// Accepts a source that the user named, or tells why not.
pub fn judge_source(source: FilePath, facts: &PathFacts) -> (r: SourceVerdict)
    ensures
        match r {
            SourceVerdict::Accepted(p) => facts.acceptable() && p@ == source@,
            SourceVerdict::Refused(e) => !facts.acceptable() && e.text() == facts.objection(
                source@,
            ),
        },
{
    let open_error = match &facts.open_error {
        Some(why) => Some(why.clone()),
        None => None,
    };
    match validate_source_path(&source, facts.exists, facts.is_file, open_error) {
        Ok(_) => SourceVerdict::Accepted(source),
        Err(e) => SourceVerdict::Refused(e),
    }
}

/// What is done about a default folder.
#[derive(Debug)]
pub enum DefaultChoice {
    /// It was set before.
    Known(FilePath),
    /// It is set now.
    New(FilePath),
    /// The user left the question.
    Cancelled,
}

/// The folder that a line names, or where it is empty the suggested one.
pub open spec fn named_folder(
    line: Seq<char>,
    suggestion: Seq<char>,
    home: Option<Seq<char>>,
) -> Seq<u8> {
    if trimmed_text(line).len() == 0 {
        text_path(suggestion)
    } else {
        text_path(expanded(line, home))
    }
}

/// Asks what is done about a default folder: one that is set stays, and else
/// the line names it.
pub fn choose_default_folder(
    known: &Option<FilePath>,
    reading: &Reading,
    suggestion: &str,
    home: &Option<String>,
) -> (r: DefaultChoice)
    ensures
        match path_view(*known) {
            Some(folder) => r matches DefaultChoice::Known(p) && p@ == folder,
            None => match *reading {
                Reading::Closed => r is Cancelled,
                Reading::Line(line) => r matches DefaultChoice::New(p) && p@ == named_folder(
                    line@,
                    suggestion@,
                    text_view(*home),
                ),
            },
        },
{
    if let Some(folder) = known {
        return DefaultChoice::Known(folder.clone());
    }
    match reading {
        Reading::Closed => DefaultChoice::Cancelled,
        Reading::Line(line) => {
            if trim(&chars_of(line.as_str())).len() == 0 {
                DefaultChoice::New(FilePath::from_text(suggestion))
            } else {
                DefaultChoice::New(FilePath::from_text(expand_tilde(line.as_str(), home).as_str()))
            }
        },
    }
}

/// What is told of a file that was added.
#[derive(Debug, Clone, Copy, PartialEq, Eq, Structural)]
pub enum AddNotice {
    Queued,
    Skipped,
    Nothing,
}

/// What is told of a file that was added: that it is queued, or else that it
/// was skipped.
pub open spec fn file_told(summary: QueueAddSummary) -> AddNotice {
    if summary.queued_files > 0 {
        AddNotice::Queued
    } else if summary.skipped_files > 0 {
        AddNotice::Skipped
    } else {
        AddNotice::Nothing
    }
}

/// What is told of a file that was added.
pub fn file_notice(summary: &QueueAddSummary) -> (r: AddNotice)
    ensures
        r == file_told(*summary),
{
    if summary.queued_files > 0 {
        AddNotice::Queued
    } else if summary.skipped_files > 0 {
        AddNotice::Skipped
    } else {
        AddNotice::Nothing
    }
}

/// The mappings that the user makes.
pub struct MappingList {
    mappings: Vec<TransferMapping>,
    pending: Option<FilePath>,
}

/// The contents of a `MappingList`.
pub struct ListView {
    pub mappings: Seq<MappingView>,
    /// The source that was accepted and has no destination yet.
    pub pending: Option<Seq<u8>>,
}

impl View for MappingList {
    type V = ListView;

    closed spec fn view(&self) -> ListView {
        ListView { mappings: mapping_views(self.mappings@), pending: path_view(self.pending) }
    }
}

/// What follows a source.
#[derive(Debug)]
pub enum MappingStep {
    /// Ask for a source.
    AskSource,
    /// Ask for another source, since this one is not accepted.
    AskAgain(SourceError),
    /// Ask where this source goes.
    AskDestination(FilePath),
    /// The list is complete.
    Finish,
    /// There is nothing to transfer.
    NothingToTransfer,
}

/// The contents of a `MappingStep`.
pub enum MappingStepView {
    AskSource,
    AskAgain(Seq<char>),
    AskDestination(Seq<u8>),
    Finish,
    NothingToTransfer,
}

impl View for MappingStep {
    type V = MappingStepView;

    open spec fn view(&self) -> MappingStepView {
        match *self {
            MappingStep::AskSource => MappingStepView::AskSource,
            MappingStep::AskAgain(e) => MappingStepView::AskAgain(e.text()),
            MappingStep::AskDestination(p) => MappingStepView::AskDestination(p@),
            MappingStep::Finish => MappingStepView::Finish,
            MappingStep::NothingToTransfer => MappingStepView::NothingToTransfer,
        }
    }
}

impl ListView {
    /// A list without mappings.
    pub open spec fn started() -> ListView {
        ListView { mappings: Seq::empty(), pending: None }
    }

    /// The list after the user wrote something for a source, and what follows: a
    /// path that is not accepted is asked for again.
    pub open spec fn entered(
        self,
        reading: Reading,
        default_source: Seq<u8>,
        home: Option<Seq<char>>,
        facts: PathFacts,
    ) -> (ListView, MappingStepView) {
        let waiting = ListView { pending: None, ..self };
        match reading {
            Reading::Closed => if self.mappings.len() > 0 {
                (waiting, MappingStepView::Finish)
            } else {
                (waiting, MappingStepView::NothingToTransfer)
            },
            Reading::Line(line) => {
                let trimmed = trimmed_text(line@);
                let path = resolved(trimmed, default_source, home);
                if trimmed == utf8_lossy(default_source) {
                    if self.mappings.len() > 0 {
                        (waiting, MappingStepView::Finish)
                    } else {
                        (waiting, MappingStepView::AskSource)
                    }
                } else if facts.acceptable() {
                    (
                        ListView { pending: Some(path), ..self },
                        MappingStepView::AskDestination(path),
                    )
                } else {
                    (waiting, MappingStepView::AskAgain(facts.objection(path)))
                }
            },
        }
    }

    /// The list with the accepted source and where it goes.
    pub open spec fn with_destination(self, destination: Seq<u8>) -> ListView {
        ListView {
            mappings: self.mappings.push((MappingView { source: self.pending->0, destination })),
            pending: None,
        }
    }
}

impl MappingList {
    /// A list without mappings.
    pub fn new() -> (r: MappingList)
        ensures
            r@ == ListView::started(),
    {
        let r = MappingList { mappings: Vec::new(), pending: None };
        assert(r@.mappings =~= Seq::<MappingView>::empty());
        r
    }

    /// The number of the next mapping, counted from one.
    pub fn next_number(&self) -> (r: u128)
        ensures
            r == self@.mappings.len() + 1,
    {
        assert(mapping_views(self.mappings@).len() == self.mappings@.len());
        self.mappings.len() as u128 + 1
    }

    /// What follows what the user wrote for a source. `facts` are those of the
    /// path that it names, if it names one.
    pub fn source_entered(
        &mut self,
        reading: &Reading,
        default_source: &FilePath,
        home: &Option<String>,
        facts: &PathFacts,
    ) -> (r: MappingStep)
        ensures
            (final(self)@, r@) == old(self)@.entered(
                *reading,
                default_source@,
                text_view(*home),
                *facts,
            ),
    {
        assert(mapping_views(self.mappings@).len() == self.mappings@.len());
        let some = self.mappings.len() > 0;
        self.pending = None;
        match prompt_mapping_source_path(reading, default_source, home, some) {
            SourceInput::Retry => MappingStep::AskSource,
            SourceInput::Finish => MappingStep::Finish,
            SourceInput::Nothing => MappingStep::NothingToTransfer,
            SourceInput::Path(p) => match judge_source(p, facts) {
                SourceVerdict::Accepted(p) => {
                    self.pending = Some(p.clone());
                    MappingStep::AskDestination(p)
                },
                SourceVerdict::Refused(e) => MappingStep::AskAgain(e),
            },
        }
    }

    /// Adds the accepted source with its destination.
    pub fn add(&mut self, destination: FilePath)
        requires
            old(self)@.pending is Some,
        ensures
            final(self)@ == old(self)@.with_destination(destination@),
    {
        let ghost before = mapping_views(self.mappings@);
        let pending = self.pending.take();
        if let Some(source) = pending {
            self.mappings.push(TransferMapping { source, destination });
            assert(mapping_views(self.mappings@) =~= before.push(
                (MappingView { source: source@, destination: destination@ }),
            ));
        }
    }

    /// The mappings in the order in which they were made.
    pub fn finish(self) -> (r: Vec<TransferMapping>)
        ensures
            mapping_views(r@) == self@.mappings,
    {
        self.mappings
    }
}

/// One round of questions: what the user wrote for a source, what was known of
/// its path, and where it goes if it was accepted.
pub struct Round {
    pub reading: Reading,
    pub facts: PathFacts,
    pub destination: Seq<u8>,
}

/// A list after one more round.
pub open spec fn after_round(
    list: ListView,
    round: Round,
    default_source: Seq<u8>,
    home: Option<Seq<char>>,
) -> ListView {
    let (after, step) = list.entered(round.reading, default_source, home, round.facts);
    if step is AskDestination {
        after.with_destination(round.destination)
    } else {
        after
    }
}

/// A list after some rounds.
pub open spec fn list_made(
    rounds: Seq<Round>,
    default_source: Seq<u8>,
    home: Option<Seq<char>>,
) -> ListView
    decreases rounds.len(),
{
    if rounds.len() == 0 {
        ListView::started()
    } else {
        after_round(
            list_made(rounds.drop_last(), default_source, home),
            rounds.last(),
            default_source,
            home,
        )
    }
}

/// Whether a mapping was made in a round: its source is the path that the line
/// names, which was then accepted.
pub open spec fn made_in(
    mapping: MappingView,
    round: Round,
    default_source: Seq<u8>,
    home: Option<Seq<char>>,
) -> bool {
    &&& round.facts.acceptable()
    &&& round.facts.exists
    &&& round.reading matches Reading::Line(line) && mapping.source == resolved(
        trimmed_text(line@),
        default_source,
        home,
    )
    &&& mapping.destination == round.destination
}

/// The place of the mapping number `i` among the rounds.
pub open spec fn round_of(
    rounds: Seq<Round>,
    default_source: Seq<u8>,
    home: Option<Seq<char>>,
    i: int,
) -> int
    decreases rounds.len(),
{
    if rounds.len() == 0 {
        0
    } else if i < list_made(rounds.drop_last(), default_source, home).mappings.len() {
        round_of(rounds.drop_last(), default_source, home, i)
    } else {
        rounds.len() - 1
    }
}

/// Every listed source existed when it was entered, and could be opened if it
/// is a file: each mapping was made in a round of its own that says so.
pub proof fn lemma_listed_sources_existed(
    rounds: Seq<Round>,
    default_source: Seq<u8>,
    home: Option<Seq<char>>,
    i: int,
)
    requires
        0 <= i < list_made(rounds, default_source, home).mappings.len(),
    ensures
        0 <= round_of(rounds, default_source, home, i) < rounds.len(),
        made_in(
            list_made(rounds, default_source, home).mappings[i],
            rounds[round_of(rounds, default_source, home, i)],
            default_source,
            home,
        ),
    decreases rounds.len(),
{
    let front = rounds.drop_last();
    let before = list_made(front, default_source, home);
    if i < before.mappings.len() {
        lemma_listed_sources_existed(front, default_source, home, i);
        let k = round_of(front, default_source, home, i);
        assert(front[k] == rounds[k]);
    }
}

/// The mappings stand in the order in which they were entered.
pub proof fn lemma_listed_in_order(
    rounds: Seq<Round>,
    default_source: Seq<u8>,
    home: Option<Seq<char>>,
    i: int,
    j: int,
)
    requires
        0 <= i < j < list_made(rounds, default_source, home).mappings.len(),
    ensures
        round_of(rounds, default_source, home, i) < round_of(rounds, default_source, home, j),
    decreases rounds.len(),
{
    let front = rounds.drop_last();
    let before = list_made(front, default_source, home);
    if j < before.mappings.len() {
        lemma_listed_in_order(front, default_source, home, i, j);
    } else {
        lemma_listed_sources_existed(front, default_source, home, i);
    }
}

/// A list that ends is not empty.
pub proof fn lemma_finished_list_not_empty(
    list: ListView,
    reading: Reading,
    default_source: Seq<u8>,
    home: Option<Seq<char>>,
    facts: PathFacts,
)
    ensures
        ({
            let (after, step) = list.entered(reading, default_source, home, facts);
            &&& after.mappings == list.mappings
            &&& step is Finish ==> after.mappings.len() > 0
            &&& step is NothingToTransfer <==> reading is Closed && list.mappings.len() == 0
        }),
{
}

/// A tilde stands for the home directory exactly where it is alone or before a slash
/// at the beginning and the home directory is known; else a text stays as it is.
pub proof fn lemma_tilde(rest: Seq<char>, home: Seq<char>, other: Seq<char>)
    ensures
        rest.len() == 0 || rest[0] == '/' ==> expanded(seq!['~'] + rest, Some(home)) == home
            + rest,
        rest.len() > 0 && rest[0] != '/' ==> expanded(seq!['~'] + rest, Some(home)) == seq!['~']
            + rest,
        other.len() == 0 || other[0] != '~' ==> expanded(other, Some(home)) == other,
        expanded(other, None) == other,
{
    let text = seq!['~'] + rest;
    assert(text.skip(1) =~= rest);
    if rest.len() > 0 {
        assert(text[1] == rest[0]);
    }
}

/// A path that the user wrote is taken as it is where it is absolute, and else stands
/// below the base.
pub proof fn lemma_user_paths(s: Seq<char>, base: Seq<u8>, home: Option<Seq<char>>)
    ensures
        ({
            let written = text_path(expanded(s, home));
            &&& absolute(written) ==> resolved(s, base, home) == written
            &&& !absolute(written) ==> base.is_prefix_of(resolved(s, base, home))
                && resolved(s, base, home).skip(
                resolved(s, base, home).len() - written.len(),
            ) == written
        }),
{
    crate::path::lemma_joining(base, text_path(expanded(s, home)));
}

/// The number of workers: the one that was asked for where it is between one and the
/// most, which is eight or fewer on a smaller machine; the nearest of these where it
/// is not; and two, or fewer, where no number was given.
pub proof fn lemma_number_of_workers(line: Seq<char>, available: usize)
    requires
        available >= 1,
    ensures
        ({
            let most = if available < 8 {
                available as nat
            } else {
                8
            };
            let few = if available < 2 {
                1nat
            } else {
                2
            };
            &&& workers_chosen(None, available) == few
            &&& number(trimmed_text(line), usize::MAX as nat) is None ==> workers_chosen(
                Some(line),
                available,
            ) == few
            &&& number(trimmed_text(line), usize::MAX as nat) matches Some(n) ==> workers_chosen(
                Some(line),
                available,
            ) == if n == 0 {
                1
            } else if n <= most {
                n
            } else {
                most
            }
            &&& most_workers(available) == most
            &&& suggested(available) == few
        }),
{
}

/// What the other answers choose: verification and unmounting exactly with the
/// letter y, update mode also with no answer, and the removal of sources exactly
/// with the second choice.
pub proof fn lemma_answers_choose(line: Seq<char>)
    ensures
        ({
            let answer = trimmed_text(line);
            &&& chosen_y(Some(line)) <==> lowered(answer) == "y"@
            &&& !chosen_y(None)
            &&& update_chosen(Some(line)) <==> answer.len() == 0 || lowered(answer) == "y"@
            &&& update_chosen(None)
            &&& answer == "2"@ ==> cleanup_chosen(Some(line)) == "delete"@
            &&& answer != "2"@ ==> cleanup_chosen(Some(line)) == "none"@
            &&& cleanup_chosen(None) == "none"@
            &&& says_yes(line) <==> lowered(answer) == "y"@ || lowered(answer) == "yes"@
                || lowered(answer) == "o"@ || lowered(answer) == "oui"@
            &&& is_y(line) ==> says_yes(line)
        }),
{
}

/// What follows a source that the user entered: a path that exists, and can be
/// opened if it is a file, is asked for its destination; the default itself, or
/// leaving, ends a list that has a mapping.
pub proof fn lemma_source_steps(
    list: ListView,
    reading: Reading,
    default_source: Seq<u8>,
    home: Option<Seq<char>>,
    facts: PathFacts,
)
    ensures
        ({
            let (after, step) = list.entered(reading, default_source, home, facts);
            let named = reading is Line && trimmed_text(reading->Line_0@) != utf8_lossy(
                default_source,
            );
            let good = facts.exists && (!facts.is_file || facts.open_error is None);
            let some = list.mappings.len() > 0;
            &&& step is AskDestination <==> named && good
            &&& step is AskAgain <==> named && !good
            &&& step is Finish <==> !named && some
            &&& step is AskSource <==> reading is Line && !named && !some
            &&& step is NothingToTransfer <==> reading is Closed && !some
            &&& step matches MappingStepView::AskDestination(p) ==> p == resolved(
                trimmed_text(reading->Line_0@),
                default_source,
                home,
            ) && after.pending == Some(p)
            &&& !(step is AskDestination) ==> after.pending is None
            &&& after.mappings == list.mappings
        }),
{
}

/// A destination completes the mapping of the accepted source, behind the others.
pub proof fn lemma_mapping_completed(list: ListView, source: Seq<u8>, destination: Seq<u8>)
    requires
        list.pending == Some(source),
    ensures
        list.with_destination(destination).mappings == list.mappings.push(
            (MappingView { source, destination }),
        ),
        list.with_destination(destination).pending is None,
        ListView::started().mappings.len() == 0,
        ListView::started().pending is None,
{
}

/// A default folder is the line that names it, or the suggestion where that is
/// empty; and a file that was added is told as queued, or else as skipped.
pub proof fn lemma_told(
    line: Seq<char>,
    suggestion: Seq<char>,
    home: Option<Seq<char>>,
    summary: QueueAddSummary,
)
    ensures
        trimmed_text(line).len() == 0 ==> named_folder(line, suggestion, home) == text_path(
            suggestion,
        ),
        trimmed_text(line).len() > 0 ==> named_folder(line, suggestion, home) == text_path(
            expanded(line, home),
        ),
        file_told(summary) is Queued <==> summary.queued_files > 0,
        file_told(summary) is Skipped <==> summary.queued_files == 0 && summary.skipped_files > 0,
{
}

/// What is said of a source that is not accepted: that it does not exist, or else why
/// it cannot be read.
pub proof fn lemma_objections(facts: PathFacts, source: Seq<u8>)
    ensures
        facts.acceptable() <==> facts.exists && (!facts.is_file || facts.open_error is None),
        !facts.exists ==> facts.objection(source) == "Path does not exist: "@ + utf8_lossy(source),
        facts.exists && facts.is_file ==> (facts.open_error matches Some(why) ==> facts.objection(
            source,
        ) == "Cannot read file (permission denied): "@ + why@),
{
}

/// What is told of the options is what was chosen.
pub proof fn lemma_options_told(options: TransferOptions, available: usize)
    ensures
        options.summary_text() == decimal(options.num_workers as nat) + " workers | Verify: "@ + (
        if options.verify {
            "Yes"@
        } else {
            "No"@
        }) + " | Update: "@ + (if options.update_mode {
            "Yes"@
        } else {
            "No"@
        }) + " | Unmount: "@ + (if options.unmount {
            "Yes"@
        } else {
            "No"@
        }) + " | Cleanup: "@ + options.cleanup_mode@,
        workers_question_text(available) == "Parallel workers (1-"@ + decimal(
            if available < 8 {
                available as nat
            } else {
                8
            },
        ) + ") ["@ + decimal(
            if available < 2 {
                available as nat
            } else {
                2
            },
        ) + "]: "@,
{
}

/// What is told of a source that is refused.
pub proof fn lemma_refusals_told(why: SourceError)
    ensures
        why matches SourceError::Missing(p) ==> why.text() == "Path does not exist: "@ + utf8_lossy(
            p@,
        ),
        why matches SourceError::Unreadable(error) ==> why.text()
            == "Cannot read file (permission denied): "@ + error@,
{
}

} // verus!
