use transfer_plan::flows::{
    add_mapping, enqueue_for_mount, enqueue_initial_mappings, AddFlow, AddStep, MappingFacts,
    SourceFacts,
};
use transfer_plan::mounts::TransferMapping;
use transfer_plan::path::FilePath;
use transfer_plan::prompts::{
    answers_y, answers_yes, choose_default_folder, file_notice, get_transfer_options,
    prompt_additional_source_path, prompt_destination_path, prompt_mapping_source_path,
    prompt_yes_no, resolve_user_path, validate_source_path, workers_question, AddNotice,
    DefaultChoice, DestinationChoice, MappingList, MappingStep, OptionAnswers, PathFacts, Reading,
    SourceInput, TransferOptions,
};
use transfer_plan::queue::{
    FileMeta, QueueAddSummary, QueueError, TransferQueue, WalkEntry,
};

fn path(text: &str) -> FilePath {
    FilePath::from_text(text)
}

fn text(p: &FilePath) -> String {
    String::from_utf8(p.as_bytes().clone()).unwrap()
}

fn home() -> Option<String> {
    Some("/home/u".to_string())
}

fn line(s: &str) -> Reading {
    Reading::Line(s.to_string())
}

#[test]
fn tildes_stand_for_the_home_directory() {
    let base = path("/base");
    let of = |s: &str, h: &Option<String>| text(&resolve_user_path(s, &base, h));
    assert_eq!(of("~", &home()), "/home/u");
    assert_eq!(of("~/docs", &home()), "/home/u/docs");
    assert_eq!(of("~other/docs", &home()), "/base/~other/docs");
    assert_eq!(of("docs", &home()), "/base/docs");
    assert_eq!(of("/docs", &home()), "/docs");
    assert_eq!(of("a~", &home()), "/base/a~");
    assert_eq!(of("~/docs", &None), "/base/~/docs");
    assert_eq!(of("", &home()), "/base/");
}

#[test]
fn yes_has_four_words() {
    for word in ["y", "Y", "yes", " YES ", "o", "Oui\n"] {
        assert!(answers_yes(word, false), "{:?}", word);
        assert!(prompt_yes_no(&Some(word.to_string())));
    }
    for word in ["n", "no", "yess", "ja", "0"] {
        assert!(!answers_yes(word, true), "{:?}", word);
        assert!(!prompt_yes_no(&Some(word.to_string())));
    }
    assert!(answers_yes("  \n", true));
    assert!(!answers_yes("", false));
    assert!(!prompt_yes_no(&Some(String::new())));
    assert!(!prompt_yes_no(&None));
    assert!(answers_y(" Y\n"));
    assert!(!answers_y("yes"));
    assert!(!answers_y(""));
}

fn options(workers: &str, available: usize) -> TransferOptions {
    let answer = |s: &str| Some(s.to_string());
    get_transfer_options(
        &OptionAnswers {
            workers: answer(workers),
            verify: answer("y"),
            update: answer(""),
            unmount: answer("N"),
            cleanup: answer(" 2 "),
        },
        available,
    )
}

#[test]
fn workers_stay_within_bounds() {
    assert_eq!(options("4", 16).num_workers, 4);
    assert_eq!(options("0", 16).num_workers, 1);
    assert_eq!(options("100", 16).num_workers, 8);
    assert_eq!(options("100", 3).num_workers, 3);
    assert_eq!(options("many", 16).num_workers, 2);
    assert_eq!(options("many", 1).num_workers, 1);
    assert_eq!(workers_question(16), "Parallel workers (1-8) [2]: ");
    assert_eq!(workers_question(1), "Parallel workers (1-1) [1]: ");
}

#[test]
fn options_have_defaults() {
    let o = options("4", 16);
    assert!(o.verify && o.update_mode && !o.unmount);
    assert_eq!(o.cleanup_mode, "delete");
    assert_eq!(
        o.summary(),
        "4 workers | Verify: Yes | Update: Yes | Unmount: No | Cleanup: delete"
    );
    let o = get_transfer_options(
        &OptionAnswers {
            workers: None,
            verify: None,
            update: None,
            unmount: None,
            cleanup: None,
        },
        4,
    );
    assert_eq!(
        o.summary(),
        "2 workers | Verify: No | Update: Yes | Unmount: No | Cleanup: none"
    );
    let o = get_transfer_options(
        &OptionAnswers {
            workers: None,
            verify: Some("x".to_string()),
            update: Some("n".to_string()),
            unmount: Some("Y".to_string()),
            cleanup: Some("delete".to_string()),
        },
        4,
    );
    assert!(!o.verify && !o.update_mode && o.unmount);
    assert_eq!(o.cleanup_mode, "none");
}

#[test]
fn destinations_are_chosen() {
    let default = path("/media/usb");
    let choose = |r: &Reading| prompt_destination_path(r, &default, &home());
    assert!(matches!(choose(&line("  ")), DestinationChoice::Default));
    assert!(matches!(choose(&line("/media/usb ")), DestinationChoice::Default));
    assert!(matches!(choose(&Reading::Closed), DestinationChoice::Left));
    match choose(&line(" work/reports ")) {
        DestinationChoice::Path(p) => assert_eq!(text(&p), "/media/usb/work/reports"),
        _ => unreachable!(),
    }
}

#[test]
fn sources_are_chosen() {
    let default = path("/home/u");
    let choose = |r: &Reading, some: bool| prompt_mapping_source_path(r, &default, &home(), some);
    assert!(matches!(choose(&line("/home/u"), false), SourceInput::Retry));
    assert!(matches!(choose(&line("/home/u"), true), SourceInput::Finish));
    assert!(matches!(choose(&Reading::Closed, false), SourceInput::Nothing));
    assert!(matches!(choose(&Reading::Closed, true), SourceInput::Finish));
    match choose(&line("x.txt"), false) {
        SourceInput::Path(p) => assert_eq!(text(&p), "/home/u/x.txt"),
        _ => unreachable!(),
    }
    let more = |r: &Reading| prompt_additional_source_path(r, &default, &home());
    assert!(matches!(more(&line("")), SourceInput::Finish));
    assert!(matches!(more(&line("/home/u")), SourceInput::Finish));
    assert!(matches!(more(&Reading::Closed), SourceInput::Finish));
    match more(&line("~/y")) {
        SourceInput::Path(p) => assert_eq!(text(&p), "/home/u/y"),
        _ => unreachable!(),
    }
}

#[test]
fn sources_are_checked() {
    assert!(validate_source_path(&path("/a"), true, true, None).is_ok());
    assert!(validate_source_path(&path("/a"), true, false, Some("x".to_string())).is_ok());
    let e = validate_source_path(&path("/a"), false, false, None).unwrap_err();
    assert_eq!(e.message(), "Path does not exist: /a");
    let e = validate_source_path(&path("/a"), true, true, Some("denied".to_string())).unwrap_err();
    assert_eq!(e.message(), "Cannot read file (permission denied): denied");
}

#[test]
fn default_folders_are_chosen() {
    let known = Some(path("/k"));
    match choose_default_folder(&known, &Reading::Closed, "/s", &home()) {
        DefaultChoice::Known(p) => assert_eq!(text(&p), "/k"),
        _ => unreachable!(),
    }
    match choose_default_folder(&None, &line(" "), "/s", &home()) {
        DefaultChoice::New(p) => assert_eq!(text(&p), "/s"),
        _ => unreachable!(),
    }
    match choose_default_folder(&None, &line("~/z"), "/s", &home()) {
        DefaultChoice::New(p) => assert_eq!(text(&p), "/home/u/z"),
        _ => unreachable!(),
    }
    let r = choose_default_folder(&None, &Reading::Closed, "/s", &home());
    assert!(matches!(r, DefaultChoice::Cancelled));
}

fn summary(queued_files: usize, skipped_files: usize) -> QueueAddSummary {
    QueueAddSummary {
        queued_files,
        skipped_files,
    }
}

#[test]
fn additions_are_told() {
    assert_eq!(file_notice(&summary(1, 1)), AddNotice::Queued);
    assert_eq!(file_notice(&summary(0, 1)), AddNotice::Skipped);
    assert_eq!(file_notice(&summary(0, 0)), AddNotice::Nothing);
}

fn found() -> PathFacts {
    PathFacts {
        exists: true,
        is_file: true,
        open_error: None,
    }
}

fn missing() -> PathFacts {
    PathFacts {
        exists: false,
        is_file: false,
        open_error: None,
    }
}

fn locked() -> PathFacts {
    PathFacts {
        exists: true,
        is_file: true,
        open_error: Some("denied".to_string()),
    }
}

#[test]
fn mappings_are_listed() {
    let mut list = MappingList::new();
    let default = path("/home/u");
    assert_eq!(list.next_number(), 1);
    let step = list.source_entered(&Reading::Closed, &default, &home(), &found());
    assert!(matches!(step, MappingStep::NothingToTransfer));
    let step = list.source_entered(&line("/home/u"), &default, &home(), &found());
    assert!(matches!(step, MappingStep::AskSource));
    for (entered, to) in [("/x", "/d"), ("y", "/e")] {
        match list.source_entered(&line(entered), &default, &home(), &found()) {
            MappingStep::AskDestination(_) => list.add(path(to)),
            _ => unreachable!(),
        }
    }
    assert_eq!(list.next_number(), 3);
    let step = list.source_entered(&line("/home/u"), &default, &home(), &missing());
    assert!(matches!(step, MappingStep::Finish));
    let all: Vec<(String, String)> = list
        .finish()
        .iter()
        .map(|m| (text(&m.source), text(&m.destination)))
        .collect();
    assert_eq!(
        all,
        vec![
            ("/x".to_string(), "/d".to_string()),
            ("/home/u/y".to_string(), "/e".to_string())
        ]
    );
}

#[test]
fn sources_that_do_not_exist_are_asked_for_again() {
    let default = path("/home/u");
    let mut list = MappingList::new();
    match list.source_entered(&line("x"), &default, &home(), &missing()) {
        MappingStep::AskAgain(e) => assert_eq!(e.message(), "Path does not exist: /home/u/x"),
        _ => unreachable!(),
    }
    match list.source_entered(&line("x"), &default, &home(), &locked()) {
        MappingStep::AskAgain(e) => {
            assert_eq!(e.message(), "Cannot read file (permission denied): denied")
        }
        _ => unreachable!(),
    }
    assert_eq!(list.next_number(), 1);
    assert!(list.finish().is_empty());

    let mut flow = AddFlow::new();
    match flow.source_entered(&line("/x"), &default, &home(), &missing()) {
        AddStep::AskAgain(e) => assert_eq!(e.message(), "Path does not exist: /x"),
        _ => unreachable!(),
    }
}

fn meta(len: u64) -> FileMeta {
    FileMeta {
        len,
        is_file: true,
        modified: None,
    }
}

fn mapping(source: &str) -> TransferMapping {
    TransferMapping {
        source: path(source),
        destination: path("/d"),
    }
}

fn file(len: u64) -> SourceFacts {
    SourceFacts::File {
        meta: meta(len),
        destination_meta: None,
    }
}

fn directory(names: &[&str]) -> SourceFacts {
    SourceFacts::Directory(
        names
            .iter()
            .map(|n| WalkEntry {
                path: path(n),
                is_file: true,
                meta: meta(1),
                destination_meta: None,
            })
            .collect(),
    )
}

#[test]
fn a_session_queues_its_mappings() {
    let mut queue = TransferQueue::new();
    let mappings = vec![mapping("/s/a"), mapping("/s/dir"), mapping("/s/odd")];
    let absent = |source: SourceFacts| MappingFacts {
        destination_exists: false,
        source,
    };
    let none = vec![
        absent(file(1)),
        absent(directory(&[])),
        absent(SourceFacts::Neither),
    ];
    assert!(enqueue_initial_mappings(&mut queue, &mappings, &none, false).is_none());
    assert!(queue.is_empty());
    let mut facts = none;
    facts[2].destination_exists = true;
    facts[1].source = directory(&["/s/dir/z", "/s/dir/b"]);
    let r = enqueue_initial_mappings(&mut queue, &mappings, &facts, false).unwrap();
    assert_eq!(r.summaries, vec![summary(1, 0), summary(2, 0), summary(0, 0)]);
    assert_eq!(r.failure, None);
    let sources: Vec<String> = queue.snapshot_items().iter().map(|i| text(&i.source)).collect();
    assert_eq!(sources, vec!["/s/a", "/s/dir/b", "/s/dir/z"]);
}

#[test]
fn a_mapping_that_fails_ends_the_list() {
    let mut queue = TransferQueue::new();
    let mappings = vec![mapping("/s/a"), mapping("/"), mapping("/s/c")];
    let here = |source: SourceFacts| MappingFacts {
        destination_exists: true,
        source,
    };
    let facts = vec![here(file(1)), here(file(1)), here(file(1))];
    let r = enqueue_initial_mappings(&mut queue, &mappings, &facts, false).unwrap();
    assert_eq!(r.summaries, vec![summary(1, 0)]);
    assert_eq!(r.failure, Some(QueueError::InvalidFileName));
    assert_eq!(queue.len(), 1);
}

#[test]
fn what_comes_before_an_unreadable_source_stays_queued() {
    let mut queue = TransferQueue::new();
    let mappings = vec![mapping("/s/a"), mapping("/s/b"), mapping("/s/c")];
    let here = |source: SourceFacts| MappingFacts {
        destination_exists: true,
        source,
    };
    let facts = vec![here(file(4)), here(SourceFacts::Unreadable), here(file(1))];
    let r = enqueue_initial_mappings(&mut queue, &mappings, &facts, false).unwrap();
    assert_eq!(r.summaries, vec![summary(1, 0)]);
    assert_eq!(r.failure, Some(QueueError::Unreadable));
    assert_eq!(QueueError::Unreadable.message(), "Failed to read the source");
    assert_eq!((queue.len(), queue.total_size()), (1, 4));
    let sources = vec![file(4), SourceFacts::Unreadable, file(1)];
    let r = enqueue_for_mount(&mut queue, &mappings, &sources, false);
    assert_eq!(
        r,
        vec![Ok(summary(1, 0)), Err(QueueError::Unreadable), Ok(summary(1, 0))]
    );
    assert_eq!(queue.len(), 3);
}

#[test]
fn a_device_passes_over_what_fails() {
    let mut queue = TransferQueue::new();
    let mappings = vec![mapping("/s/a"), mapping("/"), mapping("/s/c")];
    let facts = vec![file(1), directory(&[]), file(2)];
    let r = enqueue_for_mount(&mut queue, &mappings, &facts, false);
    assert_eq!(
        r,
        vec![Ok(summary(1, 0)), Err(QueueError::InvalidDirectoryName), Ok(summary(1, 0))]
    );
    assert_eq!(queue.total_size(), 3);
}

#[test]
fn sources_are_added_between_batches() {
    let mut queue = TransferQueue::new();
    let mut flow = AddFlow::new();
    let default = path("/home/u");
    let step = flow.source_entered(&line(""), &default, &home(), &found());
    assert!(matches!(step, AddStep::Finish));
    let step = flow.source_entered(&line("/s/a"), &default, &home(), &found());
    assert!(matches!(step, AddStep::AskDestination(_)));
    assert_eq!(
        flow.add_more_files(&mut queue, path("/d"), &file(3), false),
        Ok(summary(1, 0))
    );
    let step = flow.source_entered(&line("/s/e"), &default, &home(), &found());
    assert!(matches!(step, AddStep::AskDestination(_)));
    assert_eq!(
        flow.add_more_files(&mut queue, path("/d"), &directory(&[]), false),
        Ok(summary(0, 0))
    );
    assert_eq!(flow.files_added(), 1);
    assert_eq!(text(&queue.snapshot_items()[0].source), "/s/a");
    let r = add_mapping(&mut queue, &mapping("/s/x"), &SourceFacts::Neither, false);
    assert_eq!(r, Ok(summary(0, 0)));
    assert_eq!(queue.len(), 1);
}
