use transfer_plan::busy::{
    detect_busy_processes, must_kill, parse_fuser_pids, parse_ps_processes, process_line,
    BusyProcess, CloseStep, Closer, ProcessFacts,
};
use transfer_plan::path::FilePath;
use transfer_plan::unmount::{
    command_error, command_failure, mount_source_for_target, safe_unmount, unmount_drive,
    MountRecord, SafeEvent, SafeStep, UnmountEvent, UnmountStep,
};

fn path(text: &str) -> FilePath {
    FilePath::from_text(text)
}

fn failed(why: &str) -> UnmountEvent {
    UnmountEvent::Failed(why.to_string())
}

#[test]
fn gentle_means_come_first() {
    let (mut job, step) = unmount_drive(&path("/media/usb"));
    assert!(matches!(step, UnmountStep::Flush));
    assert!(matches!(job.step(UnmountEvent::Done), UnmountStep::CheckMounted));
    assert!(matches!(job.step(UnmountEvent::Found(true)), UnmountStep::FindDevice));
    assert!(matches!(job.step(UnmountEvent::Found(true)), UnmountStep::RunUdisks));
    assert!(matches!(job.step(failed("udisks")), UnmountStep::RunUmount));
    assert!(matches!(job.step(failed("umount")), UnmountStep::CallUmount));
    match job.step(failed("libc::umount: busy")) {
        UnmountStep::Fail(text) => assert_eq!(
            text,
            "Failed to unmount /media/usb. Attempts: udisks | umount | libc::umount: busy"
        ),
        _ => unreachable!(),
    }
}

#[test]
fn an_unmounted_drive_is_left_alone() {
    let (mut job, _) = unmount_drive(&path("/media/usb"));
    job.step(UnmountEvent::Done);
    assert!(matches!(job.step(UnmountEvent::Found(false)), UnmountStep::Skip));
}

#[test]
fn any_means_may_succeed() {
    let (mut job, _) = unmount_drive(&path("/media/usb"));
    job.step(UnmountEvent::Done);
    job.step(UnmountEvent::Found(true));
    assert!(matches!(job.step(UnmountEvent::Found(false)), UnmountStep::RunUmount));
    assert!(matches!(job.step(UnmountEvent::Done), UnmountStep::Succeed));
}

#[test]
fn a_malformed_place_is_refused() {
    let (mut job, _) = unmount_drive(&FilePath::from_bytes(vec![b'/', 0xff]));
    match job.step(UnmountEvent::Done) {
        UnmountStep::Fail(text) => assert_eq!(text, "Invalid mount point path"),
        _ => unreachable!(),
    }
}

#[test]
fn programs_say_why_they_failed() {
    let args = vec!["unmount".to_string(), "-b".to_string()];
    let say = |err: &[u8], out: &[u8]| {
        command_failure("udisksctl", &args, &err.to_vec(), &out.to_vec(), "exit status: 1")
    };
    assert_eq!(say(b" busy\n", b"out"), "udisksctl unmount -b: busy");
    assert_eq!(say(b" \n", b"out\n"), "udisksctl unmount -b: out");
    assert_eq!(say(b"", b""), "udisksctl unmount -b: exit status exit status: 1");
    assert_eq!(say(&[0xff], b""), "udisksctl unmount -b: \u{fffd}");
    assert_eq!(
        command_error("umount", &vec!["/m".to_string()], "not found"),
        "umount /m: not found"
    );
}

#[test]
fn devices_are_found() {
    let record = |at: &str, source: Option<&str>| MountRecord {
        mount_point: path(at),
        source: source.map(|s| s.to_string()),
    };
    let table = vec![
        record("/media/usb", None),
        record("/media/usb", Some("tmpfs")),
        record("/media/usb/", Some("/dev/sdb1")),
        record("/media/usb", Some("/dev/sdc1")),
    ];
    let found = mount_source_for_target(&table, "/media/usb");
    assert_eq!(found, Some("/dev/sdb1".to_string()));
    assert_eq!(mount_source_for_target(&table, "/media"), None);
}

#[test]
fn busy_processes_are_closed_with_consent() {
    let (mut phase, step) = safe_unmount();
    assert_eq!(step, SafeStep::Unmount);
    assert_eq!(phase.step(SafeEvent::Unmounted(false)), SafeStep::DetectBusy);
    assert_eq!(phase.step(SafeEvent::Busy(2)), SafeStep::AskToClose);
    let mut refused = phase;
    assert_eq!(phase.step(SafeEvent::Answer(true)), SafeStep::CloseProcesses);
    assert_eq!(phase.step(SafeEvent::Closed), SafeStep::Retry);
    let mut again = phase;
    assert_eq!(phase.step(SafeEvent::Unmounted(true)), SafeStep::Ejected);
    assert_eq!(again.step(SafeEvent::Unmounted(false)), SafeStep::EjectManually);
    assert_eq!(refused.step(SafeEvent::Answer(false)), SafeStep::EjectManually);
    let (mut phase, _) = safe_unmount();
    assert_eq!(phase.step(SafeEvent::Unmounted(true)), SafeStep::Ejected);
    let (mut phase, _) = safe_unmount();
    phase.step(SafeEvent::Unmounted(false));
    assert_eq!(phase.step(SafeEvent::Busy(0)), SafeStep::EjectManually);
}

fn process(pid: u32, open: Option<&[&str]>) -> ProcessFacts {
    ProcessFacts {
        pid,
        open_paths: open.map(|all| all.iter().map(|p| path(p)).collect()),
        command: "editor".to_string(),
        args: vec!["editor".to_string(), "-x".to_string()],
        uid: 1000,
    }
}

#[test]
fn busy_processes_are_found() {
    let all = vec![
        process(1, Some(&["/etc/passwd", "/media/usb/a"])),
        process(2, Some(&["/media/usbx"])),
        process(3, None),
        process(4, Some(&["/media/usb"])),
        process(5, Some(&["/media/usb/b"])),
    ];
    let busy = detect_busy_processes(&all, 5, &path("/media/usb"));
    let pids: Vec<u32> = busy.iter().map(|p| p.pid).collect();
    assert_eq!(pids, vec![1, 4]);
    assert_eq!(process_line(&busy[0]), "  pid=1 user=1000 cmd=editor args=editor -x");
    let bare = BusyProcess {
        pid: 9,
        user: "u".to_string(),
        command: "c".to_string(),
        args: String::new(),
    };
    assert_eq!(process_line(&bare), "  pid=9 user=u cmd=c");
}

fn busy(pid: u32, command: &str) -> BusyProcess {
    BusyProcess {
        pid,
        user: "0".to_string(),
        command: command.to_string(),
        args: String::new(),
    }
}

#[test]
fn the_file_manager_is_asked_once() {
    let mut closer = Closer::new();
    assert_eq!(closer.close_busy_process(&busy(7, "nautilus"), 7), CloseStep::Leave);
    assert_eq!(closer.close_busy_process(&busy(1, "vim"), 7), CloseStep::Terminate);
    assert_eq!(closer.close_busy_process(&busy(2, "nautilus"), 7), CloseStep::QuitNautilus);
    assert_eq!(closer.quit_done(true), CloseStep::CheckAlive);
    assert_eq!(closer.close_busy_process(&busy(3, "nautilus"), 7), CloseStep::CheckAlive);
    assert_eq!(closer.alive_known(true), CloseStep::Terminate);
    assert_eq!(closer.alive_known(false), CloseStep::Leave);
    let mut closer = Closer::new();
    assert_eq!(closer.quit_done(false), CloseStep::Terminate);
    assert_eq!(closer.close_busy_process(&busy(3, "nautilus"), 7), CloseStep::Terminate);
    assert!(must_kill(true, true));
    assert!(!must_kill(false, true));
    assert!(!must_kill(true, false));
}

#[test]
fn outputs_of_programs_are_read() {
    let out = b" 300c 12 12m x7 4294967296 5\n".to_vec();
    assert_eq!(parse_fuser_pids(&out), vec![5, 12, 300]);
    assert_eq!(parse_fuser_pids(&vec![]), Vec::<u32>::new());
    let listed = parse_ps_processes(
        "  PID USER COMMAND COMMAND\n  12 root  bash  -bash  -l\nbad\n 13 u sh\n 14 u\n",
    );
    assert_eq!(listed.len(), 2);
    assert_eq!(process_line(&listed[0]), "  pid=12 user=root cmd=bash args=-bash -l");
    assert_eq!(process_line(&listed[1]), "  pid=13 user=u cmd=sh");
}
