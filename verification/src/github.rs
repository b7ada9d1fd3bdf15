//! Getting the dataset: the decisions between one piece of outside work and
//! the next. The caller does the work (asking the release service, looking
//! into the cache, downloading, unpacking, copying) and reports what came of
//! it; the job says what is to be done next.

use crate::names::{ends_with, is_named_dataset, is_suffix, names_dataset};
use vstd::prelude::*;

verus! {

/// The position of the first `true`, if there is one.
pub open spec fn first_true(flags: Seq<bool>) -> Option<usize>
    decreases flags.len(),
{
    if flags.len() == 0 {
        None
    } else {
        match first_true(flags.drop_last()) {
            Some(i) => Some(i),
            None => if flags.last() {
                Some((flags.len() - 1) as usize)
            } else {
                None
            },
        }
    }
}

/// `first_true` gives a position that holds `true` with none before it that
/// does, and gives nothing only where no position holds `true`.
pub proof fn lemma_first_true(flags: Seq<bool>)
    requires
        flags.len() <= usize::MAX,
    ensures
        match first_true(flags) {
            Some(i) => i < flags.len() && flags[i as int] && forall|j: int|
                0 <= j < i ==> !flags[j],
            None => forall|j: int| 0 <= j < flags.len() ==> !flags[j],
        },
    decreases flags.len(),
{
    if flags.len() > 0 {
        lemma_first_true(flags.drop_last());
        assert forall|j: int| 0 <= j < flags.len() - 1 implies flags[j] == flags.drop_last()[j] by {}
    }
}

/// The first `true` stands where a `true` stands with none before it.
pub proof fn lemma_first_true_at(flags: Seq<bool>, i: usize)
    requires
        i < flags.len() <= usize::MAX,
        flags[i as int],
        forall|j: int| 0 <= j < i ==> !flags[j],
    ensures
        first_true(flags) == Some(i),
{
    lemma_first_true(flags);
}

/// Whether a release file of this name can hold the dataset: an archive or a
/// database.
pub open spec fn suits(name: Seq<char>) -> bool {
    is_suffix(name, ".zip"@) || is_suffix(name, ".db"@)
}

/// Whether an archive entry of this name is a database.
pub open spec fn is_database(name: Seq<char>) -> bool {
    is_suffix(name, ".db"@)
}

/// For each name, whether it suits.
pub open spec fn suit_flags(names: Seq<String>) -> Seq<bool> {
    Seq::new(names.len(), |i: int| suits(names[i]@))
}

/// For each name, whether it is that of a database.
pub open spec fn database_flags(names: Seq<String>) -> Seq<bool> {
    Seq::new(names.len(), |i: int| is_database(names[i]@))
}

/// For each name, whether it is that of a database and speaks of the dataset.
pub open spec fn named_flags(names: Seq<String>) -> Seq<bool> {
    Seq::new(names.len(), |i: int| is_database(names[i]@) && names_dataset(names[i]@))
}

/// The release file to take: the first whose name suits.
pub open spec fn suitable_asset(names: Seq<String>) -> Option<usize> {
    first_true(suit_flags(names))
}

/// The archive entry to take.
#[derive(Clone, Copy, Debug, PartialEq, Eq)]
pub enum EntryChoice {
    /// The first database whose name speaks of the dataset.
    Named(usize),
    /// No database is named so: the first database.
    FirstDatabase(usize),
    /// The archive holds no database.
    Nothing,
}

/// The archive entry to take: the first database whose name speaks of the
/// dataset; where there is none, the first database.
pub open spec fn chosen_entry(names: Seq<String>) -> EntryChoice {
    match first_true(named_flags(names)) {
        Some(i) => EntryChoice::Named(i),
        None => match first_true(database_flags(names)) {
            Some(i) => EntryChoice::FirstDatabase(i),
            None => EntryChoice::Nothing,
        },
    }
}

/// Picks the release file to take, by the files' names.
pub fn pick_asset(names: &Vec<String>) -> (pick: Option<usize>)
    ensures
        pick == suitable_asset(names@),
        match pick {
            Some(i) => i < names.len() && suits(names[i as int]@) && forall|j: int|
                0 <= j < i ==> !suits(#[trigger] names[j]@),
            None => forall|j: int| 0 <= j < names.len() ==> !suits(#[trigger] names[j]@),
        },
{
    let mut i: usize = 0;
    while i < names.len()
        invariant
            i <= names.len(),
            forall|j: int| 0 <= j < i ==> !suits(#[trigger] names[j]@),
        decreases names.len() - i,
    {
        let name = names[i].as_str();
        if ends_with(name, ".zip") || ends_with(name, ".db") {
            proof {
                lemma_first_true_at(suit_flags(names@), i);
            }
            return Some(i);
        }
        i += 1;
    }
    proof {
        lemma_first_true(suit_flags(names@));
    }
    None
}

/// Picks the archive entry to take, by the entries' names.
pub fn pick_db_entry(names: &Vec<String>) -> (choice: EntryChoice)
    ensures
        choice == chosen_entry(names@),
        match choice {
            EntryChoice::Named(i) => i < names.len() && is_database(names[i as int]@)
                && names_dataset(names[i as int]@) && forall|j: int|
                0 <= j < i ==> !(is_database(#[trigger] names[j]@) && names_dataset(names[j]@)),
            EntryChoice::FirstDatabase(i) => i < names.len() && is_database(names[i as int]@)
                && (forall|j: int| 0 <= j < i ==> !is_database(#[trigger] names[j]@))
                && forall|j: int|
                0 <= j < names.len() ==> !(is_database(#[trigger] names[j]@) && names_dataset(
                    names[j]@,
                )),
            EntryChoice::Nothing => forall|j: int|
                0 <= j < names.len() ==> !is_database(#[trigger] names[j]@),
        },
{
    let mut candidate: Option<usize> = None;
    let mut i: usize = 0;
    while i < names.len()
        invariant
            i <= names.len(),
            forall|j: int|
                0 <= j < i ==> !(is_database(#[trigger] names[j]@) && names_dataset(names[j]@)),
            match candidate {
                Some(c) => c < i && is_database(names[c as int]@) && forall|j: int|
                    0 <= j < c ==> !is_database(#[trigger] names[j]@),
                None => forall|j: int| 0 <= j < i ==> !is_database(#[trigger] names[j]@),
            },
        decreases names.len() - i,
    {
        let name = names[i].as_str();
        if ends_with(name, ".db") {
            if is_named_dataset(name) {
                proof {
                    lemma_first_true_at(named_flags(names@), i);
                }
                return EntryChoice::Named(i);
            }
            if candidate.is_none() {
                candidate = Some(i);
            }
        }
        i += 1;
    }
    proof {
        lemma_first_true(named_flags(names@));
        lemma_first_true(database_flags(names@));
    }
    match candidate {
        Some(c) => {
            proof {
                lemma_first_true_at(database_flags(names@), c);
            }
            EntryChoice::FirstDatabase(c)
        },
        None => EntryChoice::Nothing,
    }
}

/// How far the job has come: what it waits to be told.
#[derive(Clone, Copy, Debug, PartialEq, Eq)]
pub enum Stage {
    /// The files of the latest release.
    AwaitingRelease,
    /// Whether the dataset stands at its place already.
    AwaitingTarget,
    /// Whether the cache holds the release file.
    AwaitingCache,
    /// That the release file is downloaded.
    AwaitingDownload,
    /// The entries of the archive.
    AwaitingEntries,
    /// That the database is copied to its place.
    AwaitingInstall,
    /// The dataset stands at its place.
    Done,
    /// The job was given up.
    Failed,
}

/// Why a job was given up.
#[derive(Clone, Copy, Debug, PartialEq, Eq)]
pub enum DatasetError {
    /// The release holds neither an archive nor a database.
    NoSuitableAsset,
    /// The archive holds no database.
    NoDatabaseInArchive,
    /// The job was told something that it did not wait for.
    OutOfTurn,
}

/// What the caller reports.
#[derive(Clone, Debug, PartialEq, Eq)]
pub enum Event {
    /// The names of the files of the latest release, in the release's order.
    Release(Vec<String>),
    /// Whether the dataset stands at its place.
    TargetChecked { exists: bool },
    /// Whether the cache holds the release file, and whether the file is a
    /// database by its extension.
    CacheChecked { present: bool, is_database: bool },
    /// The release file is downloaded into the cache.
    Downloaded,
    /// The names of the archive's entries, in the archive's order.
    Entries(Vec<String>),
    /// The database is copied to its place.
    Installed,
}

/// What the caller is to do next. A release file is named by its position
/// among the release's files, an archive entry by its position in the
/// archive.
#[derive(Clone, Copy, Debug, PartialEq, Eq)]
pub enum Action {
    /// Ask for the files of the latest release.
    QueryRelease,
    /// Settle the dataset's place (the one given, or else, in the cache, the
    /// name of the release file), make its directory, and see whether the
    /// dataset stands there.
    LocateTarget { asset: usize, in_cache: bool },
    /// See whether the cache holds the release file.
    LocateAsset { asset: usize },
    /// Download the release file into the cache.
    Download { asset: usize },
    /// Copy the cached release file, a database, to the dataset's place.
    InstallAsset { asset: usize },
    /// List the entries of the cached release file, an archive.
    ListArchive { asset: usize },
    /// Unpack the entry into the cache, unless it is there, and copy it to
    /// the dataset's place.
    InstallEntry { entry: usize },
    /// Hand out the dataset's place.
    Finish,
    /// Fail.
    GiveUp(DatasetError),
}

/// The job of making sure that the dataset is at hand.
#[derive(Clone, Copy, Debug, PartialEq, Eq)]
pub struct DatasetJob {
    pub stage: Stage,
    /// Whether the caller named the place where the dataset is to stand.
    pub target_given: bool,
    /// The release file that was picked.
    pub asset: usize,
    /// Whether the release file is a database rather than an archive.
    pub is_database: bool,
}

impl DatasetError {
    /// The error in words.
    pub open spec fn wording(self) -> Seq<char> {
        match self {
            DatasetError::NoSuitableAsset => {
                "No suitable asset (.zip or .db) found in latest release"@
            },
            DatasetError::NoDatabaseInArchive => "No .db file found inside zip"@,
            DatasetError::OutOfTurn => "The dataset job was told what it did not wait for"@,
        }
    }

    /// The error in words.
    pub fn message(self) -> (text: &'static str)
        ensures
            text@ == self.wording(),
    {
        match self {
            DatasetError::NoSuitableAsset => {
                "No suitable asset (.zip or .db) found in latest release"
            },
            DatasetError::NoDatabaseInArchive => "No .db file found inside zip",
            DatasetError::OutOfTurn => "The dataset job was told what it did not wait for",
        }
    }
}

impl DatasetJob {
    /// The job at another stage.
    pub open spec fn at(self, stage: Stage) -> DatasetJob {
        DatasetJob { stage, ..self }
    }

    /// The job as it begins.
    pub open spec fn begun(target_given: bool) -> DatasetJob {
        DatasetJob { stage: Stage::AwaitingRelease, target_given, asset: 0, is_database: false }
    }

    /// What follows once the release file is in the cache: a database is
    /// copied to its place, an archive is looked into.
    pub open spec fn with_asset_cached(self, is_database: bool) -> (DatasetJob, Action) {
        if is_database {
            (
                DatasetJob { stage: Stage::AwaitingInstall, is_database, ..self },
                Action::InstallAsset { asset: self.asset },
            )
        } else {
            (
                DatasetJob { stage: Stage::AwaitingEntries, is_database, ..self },
                Action::ListArchive { asset: self.asset },
            )
        }
    }

    /// The job after `event`, and what is to be done next.
    pub open spec fn step(self, event: Event) -> (DatasetJob, Action) {
        match (self.stage, event) {
            (Stage::AwaitingRelease, Event::Release(names)) => match suitable_asset(names@) {
                Some(asset) => (
                    DatasetJob { stage: Stage::AwaitingTarget, asset, ..self },
                    Action::LocateTarget { asset, in_cache: !self.target_given },
                ),
                None => (self.at(Stage::Failed), Action::GiveUp(DatasetError::NoSuitableAsset)),
            },
            (Stage::AwaitingTarget, Event::TargetChecked { exists }) => if exists {
                (self.at(Stage::Done), Action::Finish)
            } else {
                (self.at(Stage::AwaitingCache), Action::LocateAsset { asset: self.asset })
            },
            (Stage::AwaitingCache, Event::CacheChecked { present, is_database }) => if present {
                self.with_asset_cached(is_database)
            } else {
                (
                    DatasetJob { stage: Stage::AwaitingDownload, is_database, ..self },
                    Action::Download { asset: self.asset },
                )
            },
            (Stage::AwaitingDownload, Event::Downloaded) => self.with_asset_cached(
                self.is_database,
            ),
            (Stage::AwaitingEntries, Event::Entries(names)) => match chosen_entry(names@) {
                EntryChoice::Named(entry) => (
                    self.at(Stage::AwaitingInstall),
                    Action::InstallEntry { entry },
                ),
                EntryChoice::FirstDatabase(entry) => (
                    self.at(Stage::AwaitingInstall),
                    Action::InstallEntry { entry },
                ),
                EntryChoice::Nothing => (
                    self.at(Stage::Failed),
                    Action::GiveUp(DatasetError::NoDatabaseInArchive),
                ),
            },
            (Stage::AwaitingInstall, Event::Installed) => (self.at(Stage::Done), Action::Finish),
            _ => (self.at(Stage::Failed), Action::GiveUp(DatasetError::OutOfTurn)),
        }
    }

    /// Takes in what the caller reports and says what is to be done next.
    pub fn advance(self, event: &Event) -> (next: (DatasetJob, Action))
        ensures
            next == self.step(*event),
    {
        match (self.stage, event) {
            (Stage::AwaitingRelease, Event::Release(names)) => match pick_asset(names) {
                Some(asset) => (
                    DatasetJob {
                        stage: Stage::AwaitingTarget,
                        target_given: self.target_given,
                        asset,
                        is_database: self.is_database,
                    },
                    Action::LocateTarget { asset, in_cache: !self.target_given },
                ),
                None => (self.moved(Stage::Failed), Action::GiveUp(DatasetError::NoSuitableAsset)),
            },
            (Stage::AwaitingTarget, Event::TargetChecked { exists }) => if *exists {
                (self.moved(Stage::Done), Action::Finish)
            } else {
                (self.moved(Stage::AwaitingCache), Action::LocateAsset { asset: self.asset })
            },
            (Stage::AwaitingCache, Event::CacheChecked { present, is_database }) => if *present {
                self.asset_cached(*is_database)
            } else {
                (
                    DatasetJob {
                        stage: Stage::AwaitingDownload,
                        target_given: self.target_given,
                        asset: self.asset,
                        is_database: *is_database,
                    },
                    Action::Download { asset: self.asset },
                )
            },
            (Stage::AwaitingDownload, Event::Downloaded) => self.asset_cached(self.is_database),
            (Stage::AwaitingEntries, Event::Entries(names)) => match pick_db_entry(names) {
                EntryChoice::Named(entry) => (
                    self.moved(Stage::AwaitingInstall),
                    Action::InstallEntry { entry },
                ),
                EntryChoice::FirstDatabase(entry) => (
                    self.moved(Stage::AwaitingInstall),
                    Action::InstallEntry { entry },
                ),
                EntryChoice::Nothing => (
                    self.moved(Stage::Failed),
                    Action::GiveUp(DatasetError::NoDatabaseInArchive),
                ),
            },
            (Stage::AwaitingInstall, Event::Installed) => (self.moved(Stage::Done), Action::Finish),
            _ => (self.moved(Stage::Failed), Action::GiveUp(DatasetError::OutOfTurn)),
        }
    }

    /// The job at another stage.
    fn moved(self, stage: Stage) -> (job: DatasetJob)
        ensures
            job == self.at(stage),
    {
        DatasetJob {
            stage,
            target_given: self.target_given,
            asset: self.asset,
            is_database: self.is_database,
        }
    }

    /// What follows once the release file is in the cache.
    fn asset_cached(self, is_database: bool) -> (next: (DatasetJob, Action))
        ensures
            next == self.with_asset_cached(is_database),
    {
        let stage = if is_database {
            Stage::AwaitingInstall
        } else {
            Stage::AwaitingEntries
        };
        let job = DatasetJob {
            stage,
            target_given: self.target_given,
            asset: self.asset,
            is_database,
        };
        if is_database {
            (job, Action::InstallAsset { asset: self.asset })
        } else {
            (job, Action::ListArchive { asset: self.asset })
        }
    }
}

/// Begins the job of making sure that the dataset is at hand, at the place
/// that the caller names or, where `target_given` is not set, in the cache.
/// The first thing to do is to ask for the latest release.
pub fn ensure_c3e6_dataset(target_given: bool) -> (begun: (DatasetJob, Action))
    ensures
        begun == (DatasetJob::begun(target_given), Action::QueryRelease),
{
    (
        DatasetJob { stage: Stage::AwaitingRelease, target_given, asset: 0, is_database: false },
        Action::QueryRelease,
    )
}

/// Begins the job of making sure that the dataset is at hand in the cache.
pub fn ensure_c3e6_dataset_default() -> (begun: (DatasetJob, Action))
    ensures
        begun == (DatasetJob::begun(false), Action::QueryRelease),
{
    ensure_c3e6_dataset(false)
}

} // verus!
