use transfer_plan::progress::{
    atomic_saturating_sub, count_bytes, finish_with_overall_sync, rollback_file_attempt_progress,
    Bar, ProgressReader, Tally,
};

fn tally(copied_bytes: u64) -> Tally {
    Tally {
        copied_bytes,
        overall: Bar {
            position: copied_bytes,
            length: Some(1_000_000),
        },
    }
}

#[test]
fn a_counter_stops_at_zero() {
    let mut n = 5;
    atomic_saturating_sub(&mut n, 3);
    assert_eq!(n, 2);
    atomic_saturating_sub(&mut n, 3);
    assert_eq!(n, 0);
}

#[test]
fn an_attempt_is_taken_back() {
    let mut file = Bar::new(100);
    let mut all = tally(40);
    count_bytes(&mut file, &mut all, 30);
    assert_eq!((file.position, all.copied_bytes, all.overall.position), (30, 70, 70));
    rollback_file_attempt_progress(&mut file, &mut all);
    assert_eq!((file.position, all.copied_bytes, all.overall.position), (0, 40, 40));
}

#[test]
fn nothing_to_take_back_changes_nothing() {
    let mut file = Bar::new(100);
    let mut all = tally(40);
    all.overall.set_position(7);
    rollback_file_attempt_progress(&mut file, &mut all);
    assert_eq!(all.overall.position, 7);
}

#[test]
fn a_completed_file_counts_its_length() {
    let mut file = Bar::new(100);
    let mut all = tally(40);
    count_bytes(&mut file, &mut all, 30);
    finish_with_overall_sync(&mut file, &mut all);
    assert_eq!((file.position, all.copied_bytes, all.overall.position), (100, 140, 140));
}

#[test]
fn a_file_that_grew_overshoots() {
    let mut file = Bar::new(100);
    let mut all = tally(0);
    count_bytes(&mut file, &mut all, 120);
    finish_with_overall_sync(&mut file, &mut all);
    assert_eq!((file.position, all.copied_bytes), (100, 120));
}

#[test]
fn small_reads_wait() {
    let mut reader = ProgressReader::new(0);
    let mut file = Bar::new(10_000_000);
    let mut all = tally(0);
    reader.read(1000, 1_000_000, &mut file, &mut all);
    assert_eq!((reader.pending_bytes, file.position), (1000, 0));
    reader.read(1000, 250_000_000, &mut file, &mut all);
    assert_eq!((reader.pending_bytes, file.position), (0, 2000));
    assert_eq!(reader.last_flush, 250_000_000);
    reader.read(2_097_152, 250_000_001, &mut file, &mut all);
    assert_eq!((reader.pending_bytes, file.position), (0, 2_099_152));
    reader.read(5, 250_000_002, &mut file, &mut all);
    reader.read(0, 250_000_003, &mut file, &mut all);
    assert_eq!((reader.pending_bytes, file.position), (0, 2_099_157));
    assert_eq!(all.copied_bytes, 2_099_157);
}

#[test]
fn bars_move() {
    let mut bar = Bar::new(10);
    bar.inc(4);
    assert_eq!(bar.position, 4);
    bar.reset();
    assert_eq!(bar.position, 0);
    bar.finish();
    assert_eq!(bar.position, 10);
    let mut open = Bar {
        position: 3,
        length: None,
    };
    open.finish();
    assert_eq!(open.position, 3);
}
