use transfer_plan::path::FilePath;
use transfer_plan::sync::{
    finalizing_message, missing_target_message, pending_writeback_bytes, sync_candidates,
    sync_strategy_label, tick, OpenReply, ScopedSync, SearchStep, SyncReply, SyncTick,
    TargetSearch,
};

fn path(text: &str) -> FilePath {
    FilePath::from_text(text)
}

#[test]
fn a_missing_path_is_looked_for_above() {
    let found: Vec<String> = sync_candidates(&path("/a/b/c"))
        .iter()
        .map(|p| String::from_utf8(p.as_bytes().clone()).unwrap())
        .collect();
    assert_eq!(found, vec!["/a/b/c", "/a/b", "/a", "/"]);
    let found: Vec<String> = sync_candidates(&path("x/y"))
        .iter()
        .map(|p| String::from_utf8(p.as_bytes().clone()).unwrap())
        .collect();
    assert_eq!(found, vec!["x/y", "x", ""]);
}

#[test]
fn each_device_is_synchronised_once() {
    let mut sync = ScopedSync::new();
    assert!(sync.reply(&path("/m/a"), SyncReply::Device(1)));
    sync.device_synced(&path("/m/a"), None);
    assert!(!sync.reply(&path("/m/b"), SyncReply::Device(1)));
    assert!(sync.reply(&path("/n"), SyncReply::Device(2)));
    sync.device_synced(&path("/n"), Some("io".to_string()));
    assert_eq!(sync.finish(), Ok(()));
}

#[test]
fn the_first_error_is_told_where_nothing_succeeded() {
    let mut sync = ScopedSync::new();
    assert!(!sync.reply(&path("/m/a"), SyncReply::OpenFailed("denied".to_string())));
    assert!(!sync.reply(&path("/m/b"), SyncReply::MetadataFailed("bad".to_string())));
    assert_eq!(
        sync.finish(),
        Err("Failed to open sync target /m/a: denied".to_string())
    );
    let mut sync = ScopedSync::new();
    assert!(!sync.reply(&path("/m/b"), SyncReply::MetadataFailed("bad".to_string())));
    assert_eq!(
        sync.finish(),
        Err("Failed to read metadata for sync target /m/b: bad".to_string())
    );
    let mut sync = ScopedSync::new();
    assert!(sync.reply(&path("/m"), SyncReply::Device(9)));
    sync.device_synced(&path("/m"), Some("io".to_string()));
    assert!(!sync.reply(&path("/m"), SyncReply::Device(9)));
    assert_eq!(sync.finish(), Err("syncfs failed for /m: io".to_string()));
    assert_eq!(
        ScopedSync::new().finish(),
        Err("No valid sync target found for scoped sync".to_string())
    );
}

#[test]
fn memory_tables_are_read() {
    let table = "MemTotal:       16308456 kB\nDirty:               120 kB\nWriteback:             8 kB\n";
    assert_eq!(pending_writeback_bytes(table), Some(128 * 1024));
    assert_eq!(pending_writeback_bytes("Cached: 5 kB\n"), Some(0));
    assert_eq!(pending_writeback_bytes(""), Some(0));
    assert_eq!(pending_writeback_bytes("Dirty: 1\nDirty: 2\n"), Some(2048));
    assert_eq!(pending_writeback_bytes("Dirty: 1\n\nWriteback: 2\n"), None);
    assert_eq!(pending_writeback_bytes("Dirty: x kB\n"), None);
    assert_eq!(pending_writeback_bytes("Dirty:\n"), None);
}

#[test]
fn looks_at_a_running_synchronisation() {
    let mut last = Some(1000);
    assert_eq!(
        tick(&mut last, Some(400)),
        SyncTick::Remaining {
            current: 400,
            drained: 600
        }
    );
    assert_eq!(
        tick(&mut last, Some(500)),
        SyncTick::Remaining {
            current: 500,
            drained: 0
        }
    );
    assert_eq!(tick(&mut last, None), SyncTick::Unknown);
    assert_eq!(last, Some(500));
    let mut never = None;
    assert_eq!(tick(&mut never, Some(1)), SyncTick::Unknown);
    assert_eq!(never, None);
}

#[test]
fn the_end_is_announced() {
    assert_eq!(sync_strategy_label(), "syncfs (by device)");
    assert_eq!(
        finalizing_message(true, 61),
        "Finalizing writes (syncfs (by device))... Remaining: 00:01:01"
    );
    assert_eq!(
        finalizing_message(false, 5),
        "Finalizing writes (syncfs (by device))... Elapsed: 00:00:05"
    );
}

#[test]
fn the_nearest_place_that_exists_is_opened() {
    let place = |search: &TargetSearch| String::from_utf8(search.place().as_bytes().clone()).unwrap();
    let mut search = TargetSearch::new(&path("/a/b"));
    assert_eq!(place(&search), "/a/b");
    assert_eq!(search.opened(OpenReply::NotFound), SearchStep::Try);
    assert_eq!(place(&search), "/a");
    assert_eq!(search.opened(OpenReply::Opened), SearchStep::Use);
    let mut search = TargetSearch::new(&path("/a"));
    assert_eq!(search.opened(OpenReply::Failed), SearchStep::GiveUp);
    assert_eq!(search.opened(OpenReply::NotFound), SearchStep::Try);
    assert_eq!(place(&search), "/");
    assert_eq!(search.opened(OpenReply::NotFound), SearchStep::Missing);
    assert_eq!(
        missing_target_message(&path("/a")),
        "No existing path found for sync target /a"
    );
}
