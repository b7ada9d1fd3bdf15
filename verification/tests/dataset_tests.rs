use evefrontier_lib::github::{
    pick_asset, pick_db_entry, Action, DatasetError, DatasetJob, EntryChoice, Event, Stage,
};
use evefrontier_lib::names::{contains, ends_with, entry_file_name, is_named_dataset};
use evefrontier_lib::{ensure_c3e6_dataset, ensure_c3e6_dataset_default};

fn names(list: &[&str]) -> Vec<String> {
    list.iter().map(|n| n.to_string()).collect()
}

fn at(stage: Stage) -> DatasetJob {
    DatasetJob { stage, target_given: false, asset: 1, is_database: false }
}

#[test]
fn ends_with_compares_the_tail() {
    assert!(ends_with("static_data.db", ".db"));
    assert!(ends_with(".db", ".db"));
    assert!(ends_with("anything", ""));
    assert!(ends_with("", ""));
    assert!(!ends_with("db", ".db"));
    assert!(!ends_with("static_data.db.zip", ".db"));
    assert!(!ends_with("static_data.DB", ".db"));
    assert!(!ends_with("", ".db"));
    assert!(ends_with("d\u{e9}p\u{f4}t.db", ".db"));
}

#[test]
fn contains_finds_the_part_anywhere() {
    assert!(contains("c3e6", "c3e6"));
    assert!(contains("data/c3e6.db", "c3e6"));
    assert!(contains("xc3e6", "c3e6"));
    assert!(contains("c3c3e6", "c3e6"));
    assert!(contains("abc", ""));
    assert!(contains("", ""));
    assert!(!contains("c3e", "c3e6"));
    assert!(!contains("c3-e6", "c3e6"));
    assert!(!contains("", "c3e6"));
}

#[test]
fn dataset_name_is_known_in_any_case() {
    assert!(is_named_dataset("c3e6.db"));
    assert!(is_named_dataset("C3E6.db"));
    assert!(is_named_dataset("data/Static_C3e6_v2.db"));
    assert!(!is_named_dataset("static_data.db"));
    assert!(!is_named_dataset(""));
}

#[test]
fn entry_file_name_is_what_follows_the_last_slash() {
    assert_eq!(entry_file_name("data/sub/c3e6.db"), "c3e6.db");
    assert_eq!(entry_file_name("c3e6.db"), "c3e6.db");
    assert_eq!(entry_file_name("data/"), "");
    assert_eq!(entry_file_name("/c3e6.db"), "c3e6.db");
    assert_eq!(entry_file_name(""), "");
    assert_eq!(entry_file_name("d\u{e9}p\u{f4}t/\u{e9}toiles.db"), "\u{e9}toiles.db");
}

#[test]
fn pick_asset_takes_the_first_archive_or_database() {
    assert_eq!(pick_asset(&names(&["notes.txt", "data.zip", "data.db"])), Some(1));
    assert_eq!(pick_asset(&names(&["data.db", "data.zip"])), Some(0));
    assert_eq!(pick_asset(&names(&["notes.txt", "data.tar.gz"])), None);
    assert_eq!(pick_asset(&names(&[])), None);
}

#[test]
fn pick_db_entry_prefers_the_named_database() {
    let entries = names(&["readme.md", "other.db", "data/C3E6.db", "c3e6.db"]);
    assert_eq!(pick_db_entry(&entries), EntryChoice::Named(2));
}

#[test]
fn pick_db_entry_falls_back_on_the_first_database() {
    let entries = names(&["c3e6.txt", "b.db", "a.db"]);
    assert_eq!(pick_db_entry(&entries), EntryChoice::FirstDatabase(1));
}

#[test]
fn pick_db_entry_finds_nothing_without_a_database() {
    assert_eq!(pick_db_entry(&names(&["c3e6.zip", "readme.md"])), EntryChoice::Nothing);
    assert_eq!(pick_db_entry(&names(&[])), EntryChoice::Nothing);
}

#[test]
fn job_begins_by_asking_for_the_release() {
    let (job, action) = ensure_c3e6_dataset(true);
    assert_eq!(
        job,
        DatasetJob { stage: Stage::AwaitingRelease, target_given: true, asset: 0, is_database: false }
    );
    assert_eq!(action, Action::QueryRelease);
}

#[test]
fn default_job_keeps_the_dataset_in_the_cache() {
    let (job, action) = ensure_c3e6_dataset_default();
    assert_eq!(
        job,
        DatasetJob { stage: Stage::AwaitingRelease, target_given: false, asset: 0, is_database: false }
    );
    assert_eq!(action, Action::QueryRelease);
    assert_eq!((job, action), ensure_c3e6_dataset(false));
}

#[test]
fn job_stops_where_the_dataset_stands_already() {
    let (job, _) = ensure_c3e6_dataset_default();
    let (job, action) = job.advance(&Event::Release(names(&["notes.txt", "c3e6.zip"])));
    assert_eq!(job.stage, Stage::AwaitingTarget);
    assert_eq!(job.asset, 1);
    assert_eq!(action, Action::LocateTarget { asset: 1, in_cache: true });
    let (job, action) = job.advance(&Event::TargetChecked { exists: true });
    assert_eq!(job.stage, Stage::Done);
    assert_eq!(action, Action::Finish);
}

#[test]
fn job_with_a_given_place_does_not_look_in_the_cache_for_it() {
    let (job, _) = ensure_c3e6_dataset(true);
    let (_, action) = job.advance(&Event::Release(names(&["c3e6.db"])));
    assert_eq!(action, Action::LocateTarget { asset: 0, in_cache: false });
}

#[test]
fn job_downloads_and_unpacks_an_archive() {
    let (job, _) = ensure_c3e6_dataset_default();
    let (job, _) = job.advance(&Event::Release(names(&["c3e6.zip"])));
    let (job, action) = job.advance(&Event::TargetChecked { exists: false });
    assert_eq!(job.stage, Stage::AwaitingCache);
    assert_eq!(action, Action::LocateAsset { asset: 0 });
    let (job, action) = job.advance(&Event::CacheChecked { present: false, is_database: false });
    assert_eq!(job.stage, Stage::AwaitingDownload);
    assert_eq!(action, Action::Download { asset: 0 });
    let (job, action) = job.advance(&Event::Downloaded);
    assert_eq!(job.stage, Stage::AwaitingEntries);
    assert_eq!(action, Action::ListArchive { asset: 0 });
    let (job, action) = job.advance(&Event::Entries(names(&["readme.md", "data/c3e6.db"])));
    assert_eq!(job.stage, Stage::AwaitingInstall);
    assert_eq!(action, Action::InstallEntry { entry: 1 });
    let (job, action) = job.advance(&Event::Installed);
    assert_eq!(job.stage, Stage::Done);
    assert_eq!(action, Action::Finish);
}

#[test]
fn job_copies_a_downloaded_database() {
    let (job, _) = ensure_c3e6_dataset_default();
    let (job, _) = job.advance(&Event::Release(names(&["static.db"])));
    let (job, _) = job.advance(&Event::TargetChecked { exists: false });
    let (job, action) = job.advance(&Event::CacheChecked { present: false, is_database: true });
    assert_eq!(action, Action::Download { asset: 0 });
    assert!(job.is_database);
    let (job, action) = job.advance(&Event::Downloaded);
    assert_eq!(job.stage, Stage::AwaitingInstall);
    assert_eq!(action, Action::InstallAsset { asset: 0 });
    let (job, action) = job.advance(&Event::Installed);
    assert_eq!(job.stage, Stage::Done);
    assert_eq!(action, Action::Finish);
}

#[test]
fn job_uses_what_the_cache_holds() {
    let (job, action) =
        at(Stage::AwaitingCache).advance(&Event::CacheChecked { present: true, is_database: true });
    assert_eq!(job.stage, Stage::AwaitingInstall);
    assert_eq!(action, Action::InstallAsset { asset: 1 });
    let (job, action) =
        at(Stage::AwaitingCache).advance(&Event::CacheChecked { present: true, is_database: false });
    assert_eq!(job.stage, Stage::AwaitingEntries);
    assert_eq!(action, Action::ListArchive { asset: 1 });
}

#[test]
fn job_takes_the_first_database_of_an_archive_without_the_name() {
    let (job, action) =
        at(Stage::AwaitingEntries).advance(&Event::Entries(names(&["a.txt", "b.db", "c.db"])));
    assert_eq!(job.stage, Stage::AwaitingInstall);
    assert_eq!(action, Action::InstallEntry { entry: 1 });
}

#[test]
fn job_gives_up_without_a_suitable_asset() {
    let (job, _) = ensure_c3e6_dataset_default();
    let (job, action) = job.advance(&Event::Release(names(&["notes.txt"])));
    assert_eq!(job.stage, Stage::Failed);
    assert_eq!(action, Action::GiveUp(DatasetError::NoSuitableAsset));
}

#[test]
fn job_gives_up_on_an_archive_without_a_database() {
    let (job, action) = at(Stage::AwaitingEntries).advance(&Event::Entries(names(&["readme.md"])));
    assert_eq!(job.stage, Stage::Failed);
    assert_eq!(action, Action::GiveUp(DatasetError::NoDatabaseInArchive));
}

#[test]
fn job_gives_up_when_told_out_of_turn() {
    let (job, action) = at(Stage::AwaitingRelease).advance(&Event::Downloaded);
    assert_eq!(job.stage, Stage::Failed);
    assert_eq!(action, Action::GiveUp(DatasetError::OutOfTurn));
    let (_, action) = at(Stage::Done).advance(&Event::Installed);
    assert_eq!(action, Action::GiveUp(DatasetError::OutOfTurn));
    let (_, action) = at(Stage::Failed).advance(&Event::Release(names(&["c3e6.db"])));
    assert_eq!(action, Action::GiveUp(DatasetError::OutOfTurn));
}

#[test]
fn errors_are_worded() {
    assert_eq!(
        DatasetError::NoSuitableAsset.message(),
        "No suitable asset (.zip or .db) found in latest release"
    );
    assert_eq!(DatasetError::NoDatabaseInArchive.message(), "No .db file found inside zip");
    assert!(!DatasetError::OutOfTurn.message().is_empty());
}
