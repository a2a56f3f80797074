use transfer_plan::checkpoint::{
    load_queue_checkpoint, note_saved, save_queue_checkpoint, LoadAction, SaveAction, Saved,
};
use transfer_plan::config::{
    config_paths, load_step, preflight_probe_path, write_check_path, FolderFacts, LoadStep,
    PlaceOutcome, UserConfig,
};
use transfer_plan::path::FilePath;
use transfer_plan::preflight::{
    preflight_pending_destinations, Preflight, PreflightError, PreflightEvent, PreflightStep,
};
use transfer_plan::queue::{TransferItem, TransferQueue};

fn path(text: &str) -> FilePath {
    FilePath::from_text(text)
}

fn text(p: &FilePath) -> String {
    String::from_utf8(p.as_bytes().clone()).unwrap()
}

fn item(size: u64) -> TransferItem {
    TransferItem {
        source: path("/s/a"),
        destination: path("/d/a"),
        size,
        cleanup_root: None,
    }
}

#[test]
fn usual_settings() {
    let config = UserConfig::with_home(&Some("/home/u".to_string()));
    assert_eq!(config.version, 1);
    assert_eq!(text(&config.get_default_source()), "/home/u");
    assert_eq!(text(&config.get_default_destination()), "/media/usb");
    let drives: Vec<String> = config.get_default_unmount_drives().iter().map(text).collect();
    assert_eq!(drives, vec!["/media/8To", "/media/16To"]);
    let homeless = UserConfig::with_home(&None);
    assert_eq!(text(&homeless.get_default_source()), ".");
}

#[test]
fn settings_change() {
    let mut config = UserConfig::with_home(&None);
    config.set_default_source(path("/a"));
    config.set_default_destination(path("/b"));
    assert_eq!(text(&config.get_default_source()), "/a");
    assert_eq!(text(&config.get_default_destination()), "/b");
    config.default_source_folder = None;
    assert_eq!(text(&config.get_default_source()), ".");
}

#[test]
fn settings_are_looked_for_in_order() {
    let places: Vec<String> = config_paths(&Some("/home/u".to_string())).iter().map(text).collect();
    assert_eq!(
        places,
        vec![
            "defaults.json",
            "/home/u/.config/transfer-plan/defaults.json",
            "/home/u/.config/usb-transfer/defaults.json"
        ]
    );
    assert_eq!(config_paths(&None).len(), 1);
    assert_eq!(load_step(PlaceOutcome::Missing, 0, 3), LoadStep::Try(1));
    assert_eq!(load_step(PlaceOutcome::Malformed, 1, 3), LoadStep::Try(2));
    assert_eq!(load_step(PlaceOutcome::Unreadable, 2, 3), LoadStep::CreateDefault);
    assert_eq!(load_step(PlaceOutcome::Found, 1, 3), LoadStep::Accept);
}

fn facts(exists: bool, is_dir: bool, usable: bool) -> FolderFacts {
    FolderFacts {
        exists,
        is_dir,
        usable,
    }
}

#[test]
fn warnings_at_the_start() {
    let mut config = UserConfig::with_home(&Some("/home/u".to_string()));
    let good = facts(true, true, true);
    assert!(config.validate_startup(good, good, &vec![true, true]).is_empty());
    config.set_default_destination(path("/mnt"));
    assert_eq!(
        config.validate_startup(facts(false, false, false), facts(true, false, true), &vec![false, true]),
        vec![
            "Default source folder does not exist: /home/u",
            "Default destination path is not a directory: /mnt",
            "Unmount path not found (warning only): /media/8To"
        ]
    );
    assert_eq!(
        config.validate_startup(facts(true, false, false), facts(false, true, true), &vec![true, false]),
        vec![
            "Default source path is not a directory: /home/u",
            "Default destination folder does not exist: /mnt",
            "Unmount path not found (warning only): /media/16To"
        ]
    );
    assert_eq!(
        config.validate_startup(facts(true, true, false), facts(true, true, false), &vec![true, true]),
        vec![
            "Default source folder is not readable: /home/u",
            "Default destination folder is not writable: /mnt"
        ]
    );
}

#[test]
fn probes_have_names_of_their_own() {
    assert_eq!(
        text(&write_check_path(&path("/d"), 12, 345)),
        "/d/.transfer-plan-write-check-12-345"
    );
    assert_eq!(
        text(&preflight_probe_path(&path("/d/"), 12, 345)),
        "/d/.transferplan-preflight-12-345"
    );
}

#[test]
fn a_queue_is_saved_when_it_changed() {
    let mut queue = TransferQueue::new();
    assert!(matches!(save_queue_checkpoint(&queue, u64::MAX), SaveAction::Clear));
    assert!(matches!(save_queue_checkpoint(&queue, 0), SaveAction::Unchanged));
    queue.restore_items(vec![item(1), item(2)]);
    match save_queue_checkpoint(&queue, 0) {
        SaveAction::Write(items) => {
            let mut other = TransferQueue::new();
            match load_queue_checkpoint(Saved::Items(items)) {
                LoadAction::Resume(items) => other.restore_items(items),
                _ => unreachable!(),
            }
            assert_eq!((other.len(), other.total_size()), (2, 3));
        }
        _ => unreachable!(),
    }
    let saved = save_queue_checkpoint(&queue, queue.revision());
    assert!(matches!(saved, SaveAction::Unchanged));
}

#[test]
fn a_save_is_noted() {
    let mut queue = TransferQueue::new();
    queue.restore_items(vec![item(1)]);
    let mut last = u64::MAX;
    let action = save_queue_checkpoint(&queue, last);
    note_saved(&queue, &action, &mut last);
    assert_eq!(last, queue.revision());
    let action = save_queue_checkpoint(&queue, last);
    assert!(matches!(action, SaveAction::Unchanged));
    note_saved(&queue, &action, &mut last);
    assert_eq!(last, queue.revision());
    queue.recv_timeout(0);
    let action = save_queue_checkpoint(&queue, last);
    assert!(matches!(action, SaveAction::Clear));
    note_saved(&queue, &action, &mut last);
    assert_eq!(last, queue.revision());
}

#[test]
fn a_saved_queue_that_is_of_no_use_is_removed() {
    assert!(matches!(load_queue_checkpoint(Saved::Missing), LoadAction::Nothing));
    assert!(matches!(load_queue_checkpoint(Saved::Unreadable), LoadAction::Nothing));
    assert!(matches!(load_queue_checkpoint(Saved::Malformed), LoadAction::Clear));
    assert!(matches!(load_queue_checkpoint(Saved::Items(vec![])), LoadAction::Clear));
}

#[test]
fn destinations_are_checked() {
    let parent = Preflight::check_destination(&path("/d/a"), false).unwrap();
    assert_eq!(text(&parent), "/d");
    let e = Preflight::check_destination(&path("/d/.."), false).unwrap_err();
    assert_eq!(e.message(), "Invalid destination path: /d/..");
    let e = Preflight::check_destination(&path("/d/a"), true).unwrap_err();
    assert_eq!(
        e.message(),
        "Destination path points to a directory, expected a file path: /d/a"
    );
    assert_eq!(PreflightError::NoParent.message(), "Destination has no parent directory");
}

#[test]
fn room_is_counted_by_file_system() {
    let mut preflight = Preflight::new();
    preflight.charge(path("/d"), 100);
    preflight.charge(path("/e"), 50);
    preflight.charge(path("/d/"), 200);
    preflight.charge(path("/f"), 1);
    assert_eq!(preflight.directories(), 3);
    assert_eq!(text(preflight.directory(0)), "/d");
    assert_eq!(text(preflight.directory(2)), "/f");
    assert!(preflight.check_space(0, 7, 349).is_ok());
    assert!(preflight.check_space(2, 8, 1).is_ok());
    let e = preflight.check_space(1, 7, 1_000_000).unwrap_err();
    assert_eq!(
        e.message(),
        "Insufficient free space on filesystem for /d: need 350 bytes, available 349 bytes"
    );
}

fn pending(destination: &str, size: u64) -> TransferItem {
    TransferItem {
        source: path("/s/x"),
        destination: path(destination),
        size,
        cleanup_root: None,
    }
}

const INSPECTED: PreflightEvent = PreflightEvent::Inspected {
    is_directory: false,
};

#[test]
fn the_checks_before_a_batch_take_their_order() {
    let items = vec![pending("/d/a", 100), pending("/e/b", 50), pending("/d/c", 7)];
    let (mut run, mut step) = preflight_pending_destinations(items);
    for (destination, parent) in [("/d/a", "/d"), ("/e/b", "/e"), ("/d/c", "/d")] {
        assert_eq!(step, PreflightStep::Inspect);
        assert_eq!(text(run.destination()), destination);
        assert_eq!(run.step(INSPECTED).unwrap(), PreflightStep::Prepare);
        assert_eq!(text(&run.directory()), parent);
        step = run.step(PreflightEvent::Prepared).unwrap();
    }
    for (parent, fs_id, available) in [("/d", 1, 107), ("/e", 2, 50)] {
        assert_eq!(step, PreflightStep::Probe);
        assert_eq!(text(&run.directory()), parent);
        assert_eq!(run.step(PreflightEvent::Writable).unwrap(), PreflightStep::Measure);
        step = run.step(PreflightEvent::Measured { fs_id, available }).unwrap();
    }
    assert_eq!(step, PreflightStep::Finish);
    assert_eq!(preflight_pending_destinations(vec![]).1, PreflightStep::Finish);
}

#[test]
fn a_check_that_fails_ends_them() {
    let (mut run, _) = preflight_pending_destinations(vec![pending("/d/a", 1)]);
    let directory = PreflightEvent::Inspected { is_directory: true };
    let e = run.step(directory).unwrap_err();
    assert_eq!(
        e.message(),
        "Destination path points to a directory, expected a file path: /d/a"
    );
    let (mut run, _) = preflight_pending_destinations(vec![pending("/d/..", 1)]);
    let e = run.step(INSPECTED).unwrap_err();
    assert_eq!(e.message(), "Invalid destination path: /d/..");
    let (mut run, _) = preflight_pending_destinations(vec![pending("/d/a", 9), pending("/e/b", 2)]);
    for _ in 0..2 {
        run.step(INSPECTED).unwrap();
        run.step(PreflightEvent::Prepared).unwrap();
    }
    run.step(PreflightEvent::Writable).unwrap();
    let measured = |available: u64| PreflightEvent::Measured { fs_id: 3, available };
    assert_eq!(run.step(measured(10)).unwrap(), PreflightStep::Probe);
    run.step(PreflightEvent::Writable).unwrap();
    let e = run.step(measured(10)).unwrap_err();
    assert_eq!(
        e.message(),
        "Insufficient free space on filesystem for /d: need 11 bytes, available 10 bytes"
    );
}
