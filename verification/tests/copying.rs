use transfer_plan::copy::AttemptEvent::{Done, Exists, Failed};
use transfer_plan::copy::{
    copy_file_optimized, ensure_parent_directory, optimal_buffer_size, remember_parent,
    retry_delay, temp_destination_path, AttemptEvent, AttemptPhase, AttemptStep, AttemptWords, CopyAttempt,
    CopyFailure, JobEvent, JobFailure, JobPhase, JobStep, Method, ParentNeed, PlaceError,
    COPY_FILE_RANGE_CHUNK_SIZE, COPY_FILE_RANGE_THRESHOLD, PREPARED_PARENT_DIR_CACHE_LIMIT,
};
use transfer_plan::path::FilePath;
use transfer_plan::pathset::PathSet;
use transfer_plan::progress::{count_bytes, finish_with_overall_sync, Bar, Tally};
use transfer_plan::verify::VERIFICATION_SIZE_LIMIT;

fn path(text: &str) -> FilePath {
    FilePath::from_text(text)
}

fn text(p: &FilePath) -> String {
    String::from_utf8(p.as_bytes().clone()).unwrap()
}

fn fresh_tally() -> Tally {
    Tally {
        copied_bytes: 0,
        overall: Bar {
            position: 0,
            length: Some(1 << 40),
        },
    }
}

#[test]
fn buffers_grow_with_the_file() {
    assert_eq!(optimal_buffer_size(0), 64 * 1024);
    assert_eq!(optimal_buffer_size(1_048_576), 64 * 1024);
    assert_eq!(optimal_buffer_size(1_048_577), 512 * 1024);
    assert_eq!(optimal_buffer_size(10_485_760), 512 * 1024);
    assert_eq!(optimal_buffer_size(10_485_761), 2 * 1024 * 1024);
    assert_eq!(optimal_buffer_size(104_857_600), 2 * 1024 * 1024);
    assert_eq!(optimal_buffer_size(104_857_601), 8 * 1024 * 1024);
}

#[test]
fn temporary_files_stand_next_to_their_destination() {
    let p = temp_destination_path(&path("/d/x/file.txt"), 42).unwrap();
    assert_eq!(text(&p), "/d/x/.file.txt.part.42");
    let p = temp_destination_path(&path("file.txt"), 0).unwrap();
    assert_eq!(text(&p), ".file.txt.part.0");
    let raw = FilePath::from_bytes(vec![b'/', b'd', b'/', 0xff]);
    let p = temp_destination_path(&raw, 7).unwrap();
    assert_eq!(text(&p), "/d/.\u{fffd}.part.7");
    assert_eq!(temp_destination_path(&path("/"), 1).unwrap_err(), PlaceError::NoParent);
    assert_eq!(temp_destination_path(&path("/a/.."), 1).unwrap_err(), PlaceError::NoFileName);
    assert_eq!(PlaceError::NoParent.message(), "Destination has no parent directory");
    assert_eq!(PlaceError::NoFileName.message(), "Destination has no file name");
}

#[test]
fn prepared_directories_are_remembered() {
    let mut prepared = PathSet::new();
    assert_eq!(ensure_parent_directory(&path("/d/a"), &prepared), ParentNeed::Create);
    remember_parent(&mut prepared, path("/d"));
    assert_eq!(ensure_parent_directory(&path("/d/a"), &prepared), ParentNeed::Prepared);
    assert_eq!(ensure_parent_directory(&path("/d//b"), &prepared), ParentNeed::Prepared);
    assert_eq!(ensure_parent_directory(&path("/e/b"), &prepared), ParentNeed::Create);
    assert_eq!(ensure_parent_directory(&path("/"), &prepared), ParentNeed::Absent);
}

#[test]
fn a_full_memory_starts_again() {
    assert_eq!(PREPARED_PARENT_DIR_CACHE_LIMIT, 8192);
    let mut prepared = PathSet::new();
    for n in 0..3 {
        remember_parent(&mut prepared, path(&format!("/d{}", n)));
    }
    remember_parent(&mut prepared, path("/d1"));
    assert_eq!(prepared.len(), 3);
}

#[test]
fn a_range_copy_runs_chunk_by_chunk() {
    let size = COPY_FILE_RANGE_CHUNK_SIZE + 10;
    let mut file = Bar::new(size);
    let mut tally = fresh_tally();
    let (mut attempt, step) = CopyAttempt::start(Method::Range, size, ParentNeed::Create, true);
    assert_eq!(step, AttemptStep::PrepareParent);
    let mut go = |a: &mut CopyAttempt, e: AttemptEvent| a.step(e, true, &mut file, &mut tally);
    assert_eq!(go(&mut attempt, AttemptEvent::Done), AttemptStep::OpenSource);
    assert_eq!(go(&mut attempt, AttemptEvent::Done), AttemptStep::CreateTemp);
    assert_eq!(
        go(&mut attempt, AttemptEvent::Done),
        AttemptStep::SendRange(COPY_FILE_RANGE_CHUNK_SIZE)
    );
    assert_eq!(
        go(&mut attempt, AttemptEvent::Sent(COPY_FILE_RANGE_CHUNK_SIZE - 5)),
        AttemptStep::SendRange(15)
    );
    assert_eq!(go(&mut attempt, AttemptEvent::Sent(15)), AttemptStep::Rename);
    assert_eq!(go(&mut attempt, AttemptEvent::Done), AttemptStep::Succeed);
    assert_eq!(attempt.phase, AttemptPhase::Over);
    assert_eq!((file.position, tally.copied_bytes), (size, size));
}

#[test]
fn an_early_end_is_a_failure() {
    let mut file = Bar::new(10);
    let mut tally = fresh_tally();
    let (mut a, step) = CopyAttempt::start(Method::Range, 10, ParentNeed::Prepared, true);
    assert_eq!(step, AttemptStep::OpenSource);
    a.step(AttemptEvent::Done, true, &mut file, &mut tally);
    a.step(AttemptEvent::Done, true, &mut file, &mut tally);
    a.step(AttemptEvent::Sent(4), true, &mut file, &mut tally);
    let step = a.step(AttemptEvent::Sent(0), true, &mut file, &mut tally);
    assert_eq!(step, AttemptStep::RemoveTemp);
    let step = a.step(AttemptEvent::Failed, true, &mut file, &mut tally);
    assert_eq!(step, AttemptStep::Fail(CopyFailure::UnexpectedEof { remaining: 6 }));
    assert_eq!(file.position, 4);
}

#[test]
fn an_unsupported_range_takes_its_bytes_back() {
    let mut file = Bar::new(10);
    let mut tally = fresh_tally();
    let (mut a, _) = CopyAttempt::start(Method::Range, 10, ParentNeed::Prepared, true);
    a.step(AttemptEvent::Done, true, &mut file, &mut tally);
    a.step(AttemptEvent::Done, true, &mut file, &mut tally);
    a.step(AttemptEvent::Sent(4), true, &mut file, &mut tally);
    let step = a.step(AttemptEvent::Unsupported, true, &mut file, &mut tally);
    assert_eq!(step, AttemptStep::RemoveTemp);
    assert_eq!((file.position, tally.copied_bytes), (0, 0));
    let step = a.step(AttemptEvent::Done, true, &mut file, &mut tally);
    assert_eq!(step, AttemptStep::Fail(CopyFailure::ZeroCopyUnavailable));
}

fn failure_after(method: Method, events: &[AttemptEvent]) -> AttemptStep {
    let mut file = Bar::new(10);
    let mut tally = fresh_tally();
    let (mut a, mut step) = CopyAttempt::start(method, 10, ParentNeed::Create, true);
    for e in events {
        step = a.step(*e, true, &mut file, &mut tally);
    }
    if step == AttemptStep::RemoveTemp {
        step = a.step(AttemptEvent::Done, true, &mut file, &mut tally);
    }
    step
}

#[test]
fn every_step_can_fail() {
    let fail = |f: CopyFailure| AttemptStep::Fail(f);
    let s = Method::Stream;
    assert_eq!(failure_after(s, &[Failed]), fail(CopyFailure::PrepareParent));
    assert_eq!(failure_after(s, &[Done, Failed]), fail(CopyFailure::OpenSource));
    assert_eq!(failure_after(s, &[Done, Done, Failed]), fail(CopyFailure::CreateTemp));
    assert_eq!(failure_after(s, &[Done, Done, Done, Failed]), fail(CopyFailure::StreamError));
    assert_eq!(
        failure_after(Method::Range, &[Done, Done, Done, Failed]),
        fail(CopyFailure::RangeError)
    );
    assert_eq!(
        failure_after(s, &[Done, Done, Done, Done, Failed, Exists(false)]),
        fail(CopyFailure::Move)
    );
    assert_eq!(
        failure_after(s, &[Done, Done, Done, Done, Failed, Exists(true), Failed]),
        fail(CopyFailure::Replace)
    );
    assert_eq!(
        failure_after(s, &[Done, Done, Done, Done, Failed, Exists(true), Done, Failed]),
        fail(CopyFailure::Move)
    );
    assert_eq!(
        failure_after(s, &[Done, Done, Done, Done, Failed, Exists(true), Done, Done]),
        AttemptStep::Succeed
    );
}

#[test]
fn a_destination_without_a_place_fails_at_once() {
    let (_, step) = CopyAttempt::start(Method::Stream, 1, ParentNeed::Absent, true);
    assert_eq!(step, AttemptStep::Fail(CopyFailure::Place(PlaceError::NoParent)));
    let (_, step) = CopyAttempt::start(Method::Stream, 1, ParentNeed::Prepared, false);
    assert_eq!(step, AttemptStep::Fail(CopyFailure::Place(PlaceError::NoFileName)));
}

#[test]
fn waits_double() {
    assert_eq!(retry_delay(1), 1000);
    assert_eq!(retry_delay(2), 2000);
    assert_eq!(retry_delay(3), 4000);
}

#[test]
fn large_files_are_tried_in_the_kernel_first() {
    let (job, step) = copy_file_optimized(COPY_FILE_RANGE_THRESHOLD - 1, true);
    assert_eq!(step, JobStep::Attempt(Method::Stream));
    assert!(job.can_verify);
    let (job, step) = copy_file_optimized(COPY_FILE_RANGE_THRESHOLD, false);
    assert_eq!(step, JobStep::Attempt(Method::Range));
    assert!(!job.can_verify);
    let (job, _) = copy_file_optimized(VERIFICATION_SIZE_LIMIT, true);
    assert!(job.can_verify);
    let (job, _) = copy_file_optimized(VERIFICATION_SIZE_LIMIT + 1, true);
    assert!(!job.can_verify);
}

#[test]
fn a_fallback_costs_no_retry() {
    let mut file = Bar::new(5_000_000);
    let mut tally = fresh_tally();
    let (mut job, _) = copy_file_optimized(5_000_000, false);
    let why = CopyFailure::ZeroCopyUnavailable;
    let step = job.step(JobEvent::CopyFailed(why), &mut file, &mut tally);
    assert_eq!(step, JobStep::FallBack);
    assert_eq!(job.attempt, 0);
    let step = job.step(JobEvent::CopyFailed(CopyFailure::StreamError), &mut file, &mut tally);
    assert_eq!(step, JobStep::Wait(1000));
    let step = job.step(JobEvent::Waited, &mut file, &mut tally);
    assert_eq!(step, JobStep::Attempt(Method::Stream));
}

#[test]
fn a_job_gives_up_after_its_retries() {
    let mut file = Bar::new(100);
    let mut tally = fresh_tally();
    let (mut job, _) = copy_file_optimized(100, false);
    for wait in [1000, 2000, 4000] {
        count_bytes(&mut file, &mut tally, 60);
        let step = job.step(JobEvent::CopyFailed(CopyFailure::StreamError), &mut file, &mut tally);
        assert_eq!(step, JobStep::Wait(wait));
        assert_eq!((file.position, tally.copied_bytes), (0, 0));
        let step = job.step(JobEvent::Waited, &mut file, &mut tally);
        assert_eq!(step, JobStep::Attempt(Method::Stream));
    }
    count_bytes(&mut file, &mut tally, 99);
    let step = job.step(JobEvent::CopyFailed(CopyFailure::OpenSource), &mut file, &mut tally);
    assert_eq!(step, JobStep::Fail(JobFailure::Copy(CopyFailure::OpenSource)));
    assert_eq!(job.phase, JobPhase::Over);
    assert_eq!((file.position, tally.copied_bytes), (0, 0));
}

#[test]
fn a_bad_copy_is_made_again() {
    let mut file = Bar::new(100);
    let mut tally = fresh_tally();
    let (mut job, _) = copy_file_optimized(100, true);
    finish_with_overall_sync(&mut file, &mut tally);
    assert_eq!(job.step(JobEvent::Copied, &mut file, &mut tally), JobStep::Verify);
    let step = job.step(JobEvent::Verified(false), &mut file, &mut tally);
    assert_eq!(step, JobStep::Wait(1000));
    assert_eq!(tally.copied_bytes, 0);
    job.step(JobEvent::Waited, &mut file, &mut tally);
    finish_with_overall_sync(&mut file, &mut tally);
    job.step(JobEvent::Copied, &mut file, &mut tally);
    let step = job.step(JobEvent::Verified(true), &mut file, &mut tally);
    assert_eq!(step, JobStep::Complete);
    assert_eq!(tally.copied_bytes, 100);
}

#[test]
fn a_copy_that_never_comes_out_fails() {
    let mut file = Bar::new(1);
    let mut tally = fresh_tally();
    let (mut job, _) = copy_file_optimized(1, true);
    for _ in 0..3 {
        job.step(JobEvent::Copied, &mut file, &mut tally);
        job.step(JobEvent::VerifyFailed, &mut file, &mut tally);
        job.step(JobEvent::Waited, &mut file, &mut tally);
    }
    job.step(JobEvent::Copied, &mut file, &mut tally);
    let mut other = job;
    let step = job.step(JobEvent::Verified(false), &mut file, &mut tally);
    assert_eq!(step, JobStep::Fail(JobFailure::Mismatch));
    assert_eq!(JobFailure::mismatch_message(), "Verification failed after 3 attempts");
    let step = other.step(JobEvent::VerifyFailed, &mut file, &mut tally);
    assert_eq!(step, JobStep::Fail(JobFailure::VerifyError));
}

#[test]
fn a_malformed_name_has_its_temporary_file_beside_it() {
    let destination = FilePath::from_bytes(b"/d/a\xff/b\xfe.txt".to_vec());
    let temp = temp_destination_path(&destination, 7).unwrap();
    assert_eq!(
        temp.as_bytes(),
        &"/d/a?/.b\u{fffd}.txt.part.7"
            .bytes()
            .map(|b| if b == b'?' { 0xff } else { b })
            .collect::<Vec<u8>>()
    );
    assert_eq!(temp.component_count(), destination.component_count());
}

#[test]
fn failures_of_an_attempt_are_told() {
    let words = AttemptWords {
        directory: "D".to_string(),
        source: "S".to_string(),
        temp: "T".to_string(),
        destination: "X".to_string(),
        error: "why".to_string(),
    };
    let told = |failure: CopyFailure| failure.message(&words);
    assert_eq!(
        told(CopyFailure::Place(PlaceError::NoFileName)),
        "Destination has no file name"
    );
    assert_eq!(told(CopyFailure::PrepareParent), "Failed to create directory D");
    assert_eq!(told(CopyFailure::OpenSource), "Failed to open source file S");
    assert_eq!(told(CopyFailure::CreateTemp), "Failed to create destination file T");
    assert_eq!(told(CopyFailure::ZeroCopyUnavailable), "zero-copy unavailable");
    assert_eq!(told(CopyFailure::RangeError), "copy_file_range error: why");
    assert_eq!(
        told(CopyFailure::UnexpectedEof { remaining: 12 }),
        "Unexpected EOF: 12 bytes remaining"
    );
    assert_eq!(told(CopyFailure::StreamError), "why");
    assert_eq!(
        told(CopyFailure::Replace),
        "Failed to replace existing destination file X"
    );
    assert_eq!(told(CopyFailure::Move), "Failed to atomically move T to X");
}
