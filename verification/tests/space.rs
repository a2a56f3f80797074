use std::collections::HashMap;
use transfer_plan::path::FilePath;
use transfer_plan::space::{
    low_space_message, release_reserved_space, reserved_on, ReservedSpace, SpaceProbeCache,
    LOW_SPACE_GUARD_MARGIN_BYTES, SPACE_RECHECK_BYTES,
};

#[test]
fn space_is_reserved_and_given_back() {
    let mut cache = SpaceProbeCache::new();
    let mut table: HashMap<u64, u64> = HashMap::new();
    let margin = LOW_SPACE_GUARD_MARGIN_BYTES;
    cache.record(7, margin + 150, 0);
    let a = cache.reserve_destination_space(&mut table, 7, 100).unwrap();
    assert_eq!(a, ReservedSpace { fs_id: 7, bytes: 100 });
    assert_eq!(cache.reserve_destination_space(&mut table, 7, 51), Err(margin + 50));
    let b = cache.reserve_destination_space(&mut table, 7, 50).unwrap();
    assert_eq!(reserved_on(&table, 7), 150);
    release_reserved_space(&mut table, a);
    assert_eq!(reserved_on(&table, 7), 50);
    release_reserved_space(&mut table, b);
    assert_eq!(reserved_on(&table, 7), 0);
    assert!(table.is_empty());
}

#[test]
fn the_free_space_is_asked_for_again() {
    let mut cache = SpaceProbeCache::new();
    let mut table: HashMap<u64, u64> = HashMap::new();
    assert!(cache.should_refresh(1, 1, 0));
    cache.record(1, u64::MAX, 1_000);
    assert!(!cache.should_refresh(1, SPACE_RECHECK_BYTES, 1_000));
    assert!(cache.should_refresh(1, SPACE_RECHECK_BYTES + 1, 1_000));
    assert!(!cache.should_refresh(1, 1, 1_500_000_999));
    assert!(cache.should_refresh(1, 1, 1_500_001_000));
    assert!(cache.should_refresh(2, 1, 1_000));
    cache
        .reserve_destination_space(&mut table, 1, SPACE_RECHECK_BYTES - 1)
        .unwrap();
    assert!(!cache.should_refresh(1, 1, 1_000));
    assert!(cache.should_refresh(1, 2, 1_000));
}

#[test]
fn huge_files_never_fit_by_overflow() {
    let mut cache = SpaceProbeCache::new();
    let mut table: HashMap<u64, u64> = HashMap::new();
    cache.record(1, u64::MAX - 1, 0);
    let r = cache.reserve_destination_space(&mut table, 1, u64::MAX);
    assert_eq!(r, Err(u64::MAX - 1));
}

#[test]
fn the_message_names_the_sizes() {
    let text = low_space_message(&FilePath::from_text("/media/usb"), 2048, 1024);
    assert_eq!(
        text,
        "Low disk space on /media/usb: need 2.00 KB (+64.00 MB safety), available 1.00 KB"
    );
    let raw = FilePath::from_bytes(vec![b'/', 0xc3, 0x28]);
    assert!(low_space_message(&raw, 1, 1).starts_with("Low disk space on /\u{fffd}(: need 1 bytes"));
}
