//! The user's defaults, and where they are kept.

use crate::path::{joined, FilePath};
use crate::pathset::{clone_paths, path_texts};
use crate::queue::path_view;
use crate::text::{decimal, decimal_text, decode_lossy, strings, utf8_lossy};
use vstd::prelude::*;
use vstd::utf8::encode_utf8;

verus! {

/// The user's defaults.
#[derive(Debug)]
pub struct UserConfig {
    pub version: u32,
    pub default_source_folder: Option<FilePath>,
    pub default_destination_folder: Option<FilePath>,
    pub default_unmount_drives: Vec<FilePath>,
}

/// The contents of a `UserConfig`.
#[verifier::ext_equal]
pub struct ConfigView {
    pub version: u32,
    pub source: Option<Seq<u8>>,
    pub destination: Option<Seq<u8>>,
    pub drives: Seq<Seq<u8>>,
}

impl View for UserConfig {
    type V = ConfigView;

    open spec fn view(&self) -> ConfigView {
        ConfigView {
            version: self.version,
            source: path_view(self.default_source_folder),
            destination: path_view(self.default_destination_folder),
            drives: path_texts(self.default_unmount_drives@),
        }
    }
}

/// A path that is written in a text.
pub open spec fn text_path(s: Seq<char>) -> Seq<u8> {
    encode_utf8(s)
}

/// The drives that are unmounted unless the user names others.
pub open spec fn usual_drives() -> Seq<Seq<u8>> {
    seq![text_path("/media/8To"@), text_path("/media/16To"@)]
}

/// The folder that files come from unless the user names another: the home
/// directory, or where none is known the current one.
pub open spec fn usual_source(home: Option<Seq<char>>) -> Seq<u8> {
    match home {
        Some(h) => text_path(h),
        None => text_path("."@),
    }
}

/// The drives that are unmounted unless the user names others.
pub fn default_unmount_drives() -> (r: Vec<FilePath>)
    ensures
        path_texts(r@) == usual_drives(),
{
    let mut r: Vec<FilePath> = Vec::new();
    r.push(FilePath::from_text("/media/8To"));
    r.push(FilePath::from_text("/media/16To"));
    assert(path_texts(r@) =~= usual_drives());
    r
}

/// The contents of an optional text.
pub open spec fn home_view(home: Option<String>) -> Option<Seq<char>> {
    match home {
        Some(h) => Some(h@),
        None => None,
    }
}

/// The folder that files come from unless the user names another.
pub fn default_source_folder(home: &Option<String>) -> (r: FilePath)
    ensures
        r@ == usual_source(home_view(*home)),
{
    match home {
        Some(h) => FilePath::from_text(h.as_str()),
        None => FilePath::from_text("."),
    }
}

/// The places where the defaults may be kept, the first that is looked at
/// first: the current directory, and below the home directory two more.
pub open spec fn config_places(home: Option<Seq<char>>) -> Seq<Seq<u8>> {
    let file = text_path("defaults.json"@);
    match home {
        None => seq![file],
        Some(h) => seq![
            file,
            joined(joined(text_path(h), text_path(".config/transfer-plan"@)), file),
            joined(joined(text_path(h), text_path(".config/usb-transfer"@)), file),
        ],
    }
}

/// The place where the defaults are saved.
pub fn config_path() -> (r: FilePath)
    ensures
        r@ == text_path("defaults.json"@),
{
    FilePath::from_text("defaults.json")
}

fn config_path_below(home: &String, directory: &str) -> (r: FilePath)
    ensures
        r@ == joined(
            joined(text_path(home@), text_path(directory@)),
            text_path("defaults.json"@),
        ),
{
    FilePath::from_text(home.as_str()).join(&FilePath::from_text(directory)).join(&config_path())
}

/// The places where the defaults may be kept.
pub fn config_paths(home: &Option<String>) -> (r: Vec<FilePath>)
    ensures
        path_texts(r@) == config_places(home_view(*home)),
{
    let mut r: Vec<FilePath> = Vec::new();
    r.push(config_path());
    if let Some(h) = home {
        r.push(config_path_below(h, ".config/transfer-plan"));
        r.push(config_path_below(h, ".config/usb-transfer"));
    }
    assert(path_texts(r@) =~= config_places(home_view(*home)));
    r
}

/// What came of looking for the defaults at a place.
#[derive(Debug, Clone, Copy, PartialEq, Eq, Structural)]
pub enum PlaceOutcome {
    Missing,
    Unreadable,
    Malformed,
    Found,
}

/// What follows.
#[derive(Debug, Clone, Copy, PartialEq, Eq, Structural)]
pub enum LoadStep {
    /// Look at the place of this number.
    Try(usize),
    /// Take what was found.
    Accept,
    /// Nothing was found: take the usual defaults, and save them.
    CreateDefault,
}

/// What follows a look at a place: the next one, until the defaults are found
/// or the places are over.
pub open spec fn after_place(outcome: PlaceOutcome, place: usize, places: nat) -> LoadStep {
    if outcome == PlaceOutcome::Found {
        LoadStep::Accept
    } else if place + 1 < places {
        LoadStep::Try((place + 1) as usize)
    } else {
        LoadStep::CreateDefault
    }
}

/// Decides what follows a look at a place.
pub fn load_step(outcome: PlaceOutcome, place: usize, places: usize) -> (r: LoadStep)
    requires
        place < places,
    ensures
        r == after_place(outcome, place, places as nat),
{
    match outcome {
        PlaceOutcome::Found => LoadStep::Accept,
        _ => {
            if place + 1 < places {
                LoadStep::Try(place + 1)
            } else {
                LoadStep::CreateDefault
            }
        },
    }
}

/// The place from which the defaults are taken when looking began at `place`.
pub open spec fn place_taken(outcomes: Seq<PlaceOutcome>, place: nat) -> Option<nat>
    decreases outcomes.len() - place,
{
    if place >= outcomes.len() {
        None
    } else {
        match after_place(outcomes[place as int], place as usize, outcomes.len()) {
            LoadStep::Accept => Some(place),
            LoadStep::Try(_) => place_taken(outcomes, place + 1),
            LoadStep::CreateDefault => None,
        }
    }
}

/// The defaults are taken from the first place that has them.
pub proof fn lemma_first_place_wins(outcomes: Seq<PlaceOutcome>, place: nat)
    requires
        outcomes.len() <= usize::MAX,
        place <= outcomes.len(),
    ensures
        match place_taken(outcomes, place) {
            Some(k) => {
                &&& place <= k < outcomes.len()
                &&& outcomes[k as int] == PlaceOutcome::Found
                &&& forall|i: int| place <= i < k ==> outcomes[i] != PlaceOutcome::Found
            },
            None => forall|i: int|
                place <= i < outcomes.len() ==> outcomes[i] != PlaceOutcome::Found,
        },
    decreases outcomes.len() - place,
{
    if place < outcomes.len() {
        lemma_first_place_wins(outcomes, place + 1);
    }
}

/// What is known of a folder.
#[derive(Debug, Clone, Copy, PartialEq, Eq, Structural)]
pub struct FolderFacts {
    pub exists: bool,
    pub is_dir: bool,
    /// Whether it can be used as it is meant to be: read, or written to.
    pub usable: bool,
}

/// A warning on a folder.
pub open spec fn warning_text(what: Seq<char>, folder: Seq<u8>) -> Seq<char> {
    what + utf8_lossy(folder)
}

fn warning(what: &str, folder: &FilePath) -> (r: String)
    ensures
        r@ == warning_text(what@, folder@),
{
    let mut r = what.to_owned();
    r.append(decode_lossy(folder.as_bytes()).as_str());
    r
}

/// The warnings on the folder that files come from.
pub open spec fn source_warnings(folder: Seq<u8>, facts: FolderFacts) -> Seq<Seq<char>> {
    if !facts.exists {
        seq![warning_text("Default source folder does not exist: "@, folder)]
    } else if !facts.is_dir {
        seq![warning_text("Default source path is not a directory: "@, folder)]
    } else if !facts.usable {
        seq![warning_text("Default source folder is not readable: "@, folder)]
    } else {
        Seq::empty()
    }
}

/// The warnings on the folder that files go to.
pub open spec fn destination_warnings(folder: Option<Seq<u8>>, facts: FolderFacts) -> Seq<
    Seq<char>,
> {
    match folder {
        None => Seq::empty(),
        Some(dest) => if !facts.exists {
            seq![warning_text("Default destination folder does not exist: "@, dest)]
        } else if !facts.is_dir {
            seq![warning_text("Default destination path is not a directory: "@, dest)]
        } else if !facts.usable {
            seq![warning_text("Default destination folder is not writable: "@, dest)]
        } else {
            Seq::empty()
        },
    }
}

/// The warnings on the drives: those that do not exist.
pub open spec fn drive_warnings(drives: Seq<Seq<u8>>, present: Seq<bool>) -> Seq<Seq<char>>
    decreases drives.len(),
{
    if drives.len() == 0 {
        Seq::empty()
    } else {
        let front = drive_warnings(drives.drop_last(), present);
        if present[drives.len() - 1] {
            front
        } else {
            front.push(
                warning_text("Unmount path not found (warning only): "@, drives.last()),
            )
        }
    }
}

impl UserConfig {
    /// The usual defaults.
    pub open spec fn usual(home: Option<Seq<char>>) -> ConfigView {
        ConfigView {
            version: 1,
            source: Some(usual_source(home)),
            destination: None,
            drives: usual_drives(),
        }
    }

    /// The usual defaults.
    pub fn with_home(home: &Option<String>) -> (r: UserConfig)
        ensures
            r@ == UserConfig::usual(home_view(*home)),
    {
        UserConfig {
            version: 1,
            default_source_folder: Some(default_source_folder(home)),
            default_destination_folder: None,
            default_unmount_drives: default_unmount_drives(),
        }
    }

    /// Changes the folder that files come from.
    pub fn set_default_source(&mut self, path: FilePath)
        ensures
            final(self)@ == (ConfigView { source: Some(path@), ..old(self)@ }),
    {
        self.default_source_folder = Some(path);
    }

    /// Changes the folder that files go to.
    pub fn set_default_destination(&mut self, path: FilePath)
        ensures
            final(self)@ == (ConfigView { destination: Some(path@), ..old(self)@ }),
    {
        self.default_destination_folder = Some(path);
    }

    /// The folder that files come from, or the current one.
    pub fn get_default_source(&self) -> (r: FilePath)
        ensures
            r@ == match self@.source {
                Some(folder) => folder,
                None => text_path("."@),
            },
    {
        match &self.default_source_folder {
            Some(folder) => folder.clone(),
            None => FilePath::from_text("."),
        }
    }

    /// The folder that files go to, or the usual place of a drive.
    pub fn get_default_destination(&self) -> (r: FilePath)
        ensures
            r@ == match self@.destination {
                Some(folder) => folder,
                None => text_path("/media/usb"@),
            },
    {
        match &self.default_destination_folder {
            Some(folder) => folder.clone(),
            None => FilePath::from_text("/media/usb"),
        }
    }

    /// The drives that are unmounted.
    pub fn get_default_unmount_drives(&self) -> (r: Vec<FilePath>)
        ensures
            path_texts(r@) == self@.drives,
    {
        clone_paths(&self.default_unmount_drives)
    }

    /// The warnings that a user gets at the start: on the two folders, and on
    /// the drives that do not exist.
    pub fn validate_startup(
        &self,
        source: FolderFacts,
        destination: FolderFacts,
        drives_present: &Vec<bool>,
    ) -> (r: Vec<String>)
        requires
            drives_present@.len() == self@.drives.len(),
        ensures
            strings(r@) == source_warnings(
                match self@.source {
                    Some(folder) => folder,
                    None => text_path("."@),
                },
                source,
            ) + destination_warnings(self@.destination, destination) + drive_warnings(
                self@.drives,
                drives_present@,
            ),
    {
        let mut r: Vec<String> = Vec::new();
        let folder = self.get_default_source();
        if !source.exists {
            r.push(warning("Default source folder does not exist: ", &folder));
        } else if !source.is_dir {
            r.push(warning("Default source path is not a directory: ", &folder));
        } else if !source.usable {
            r.push(warning("Default source folder is not readable: ", &folder));
        }
        let ghost first = source_warnings(folder@, source);
        assert(strings(r@) =~= first);
        if let Some(dest) = &self.default_destination_folder {
            if !destination.exists {
                r.push(warning("Default destination folder does not exist: ", dest));
            } else if !destination.is_dir {
                r.push(warning("Default destination path is not a directory: ", dest));
            } else if !destination.usable {
                r.push(warning("Default destination folder is not writable: ", dest));
            }
        }
        let ghost second = first + destination_warnings(self@.destination, destination);
        assert(strings(r@) =~= second);
        let ghost drives = self@.drives;
        let mut i: usize = 0;
        assert(second + drive_warnings(drives.take(0), drives_present@) =~= second);
        assert(drives.len() == self.default_unmount_drives@.len());
        while i < self.default_unmount_drives.len()
            invariant
                i <= self.default_unmount_drives@.len(),
                drives == path_texts(self.default_unmount_drives@),
                drives_present@.len() == drives.len(),
                strings(r@) == second + drive_warnings(drives.take(i as int), drives_present@),
            decreases self.default_unmount_drives@.len() - i,
        {
            let ghost before = strings(r@);
            let ghost longer = drives.take(i + 1);
            let ghost seen = drive_warnings(drives.take(i as int), drives_present@);
            assert(longer.drop_last() =~= drives.take(i as int));
            assert(longer.last() == self.default_unmount_drives@[i as int]@);
            if !drives_present[i] {
                let text = warning(
                    "Unmount path not found (warning only): ",
                    &self.default_unmount_drives[i],
                );
                r.push(text);
                assert(strings(r@) =~= before.push(text@));
                assert(second + seen.push(text@) =~= (second + seen).push(text@));
            }
            i = i + 1;
        }
        assert(drives.take(drives.len() as int) =~= drives);
        r
    }
}

/// The name of a file that is written for a moment to see whether a folder
/// takes files.
pub open spec fn probe_name(mark: Seq<char>, pid: u32, stamp: u128) -> Seq<u8> {
    encode_utf8(mark + decimal(pid as nat) + "-"@ + decimal(stamp as nat))
}

fn probe_path(folder: &FilePath, mark: &str, pid: u32, stamp: u128) -> (r: FilePath)
    ensures
        r@ == joined(folder@, probe_name(mark@, pid, stamp)),
{
    let mut name = mark.to_owned();
    name.append(decimal_text(pid as u128).as_str());
    name.append("-");
    name.append(decimal_text(stamp).as_str());
    folder.join(&FilePath::from_text(name.as_str()))
}

/// The file that is written for a moment to see whether the default destination
/// takes files.
pub fn write_check_path(folder: &FilePath, pid: u32, stamp: u128) -> (r: FilePath)
    ensures
        r@ == joined(folder@, probe_name(".transfer-plan-write-check-"@, pid, stamp)),
{
    probe_path(folder, ".transfer-plan-write-check-", pid, stamp)
}

/// The file that is written for a moment to see whether the folder of a
/// destination takes files.
pub fn preflight_probe_path(folder: &FilePath, pid: u32, nonce: u128) -> (r: FilePath)
    ensures
        r@ == joined(folder@, probe_name(".transferplan-preflight-"@, pid, nonce)),
{
    probe_path(folder, ".transferplan-preflight-", pid, nonce)
}

/// After a place without the defaults comes the next one, without leaving any out;
/// the usual defaults are made exactly behind the last.
pub proof fn lemma_next_place(outcome: PlaceOutcome, place: usize, places: nat)
    requires
        place < places <= usize::MAX,
    ensures
        after_place(outcome, place, places) is Accept <==> outcome is Found,
        after_place(outcome, place, places) is Try <==> !(outcome is Found) && place + 1 < places,
        after_place(outcome, place, places) matches LoadStep::Try(next) ==> next == place + 1,
        after_place(outcome, place, places) is CreateDefault <==> !(outcome is Found) && place + 1
            == places,
{
}

/// The defaults are looked for in the current directory first, and then below the
/// home directory where there is one.
pub proof fn lemma_where_defaults_are(home: Seq<char>)
    ensures
        config_places(None).len() == 1,
        config_places(Some(home)).len() == 3,
        config_places(None)[0] == encode_utf8("defaults.json"@),
        config_places(Some(home))[0] == encode_utf8("defaults.json"@),
        config_places(Some(home))[1] == joined(
            joined(encode_utf8(home), encode_utf8(".config/transfer-plan"@)),
            encode_utf8("defaults.json"@),
        ),
        config_places(Some(home))[2] == joined(
            joined(encode_utf8(home), encode_utf8(".config/usb-transfer"@)),
            encode_utf8("defaults.json"@),
        ),
{
}

/// The usual defaults: the home directory as the source, or the current one, no
/// destination, and two drives.
pub proof fn lemma_usual_defaults(home: Seq<char>)
    ensures
        UserConfig::usual(Some(home)).source == Some(encode_utf8(home)),
        UserConfig::usual(None).source == Some(encode_utf8("."@)),
        UserConfig::usual(Some(home)).version == 1,
        UserConfig::usual(None).version == 1,
        UserConfig::usual(Some(home)).destination is None,
        UserConfig::usual(None).destination is None,
        UserConfig::usual(Some(home)).drives == seq![
            encode_utf8("/media/8To"@),
            encode_utf8("/media/16To"@),
        ],
        UserConfig::usual(None).drives == UserConfig::usual(Some(home)).drives,
{
}

/// A folder gets a warning exactly where it is missing, no directory, or of no use,
/// and then one; no destination gets none.
pub proof fn lemma_folder_warnings(folder: Seq<u8>, facts: FolderFacts)
    ensures
        ({
            let good = facts.exists && facts.is_dir && facts.usable;
            let source = source_warnings(folder, facts);
            let destination = destination_warnings(Some(folder), facts);
            &&& source.len() == if good {
                0int
            } else {
                1int
            }
            &&& destination.len() == source.len()
            &&& destination_warnings(None, facts).len() == 0
            &&& !facts.exists ==> source[0] == "Default source folder does not exist: "@
                + utf8_lossy(folder) && destination[0]
                == "Default destination folder does not exist: "@ + utf8_lossy(folder)
            &&& facts.exists && !facts.is_dir ==> source[0]
                == "Default source path is not a directory: "@ + utf8_lossy(folder)
                && destination[0] == "Default destination path is not a directory: "@ + utf8_lossy(
                folder,
            )
            &&& facts.exists && facts.is_dir && !facts.usable ==> source[0]
                == "Default source folder is not readable: "@ + utf8_lossy(folder)
                && destination[0] == "Default destination folder is not writable: "@ + utf8_lossy(
                folder,
            )
        }),
{
}

/// Each drive that is missing gets a warning with its path, in the order of the
/// drives, and no other drive does.
pub proof fn lemma_drive_warnings(drives: Seq<Seq<u8>>, present: Seq<bool>, drive: Seq<u8>)
    requires
        present.len() > drives.len(),
    ensures
        drive_warnings(Seq::<Seq<u8>>::empty(), present).len() == 0,
        present[drives.len() as int] ==> drive_warnings(drives.push(drive), present)
            == drive_warnings(drives, present),
        !present[drives.len() as int] ==> drive_warnings(drives.push(drive), present)
            == drive_warnings(drives, present).push(
            "Unmount path not found (warning only): "@ + utf8_lossy(drive),
        ),
{
    assert(drives.push(drive).drop_last() =~= drives);
}

} // verus!
