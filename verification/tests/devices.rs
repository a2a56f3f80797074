use transfer_plan::mounts::{
    add_link, auto_queue_mappings_for_mount, best_mount, find_speed, link_known,
    mounts_contains_path, root_block_device_name_from_source, sort_links, speed_from_listing,
    usb_bus_dev, watch_paths_for_user, LinkStep, LinkSurvey, MountEntry, MountWatch,
    TransferMapping, UsbSpeed,
};
use transfer_plan::path::FilePath;

fn path(text: &str) -> FilePath {
    FilePath::from_text(text)
}

fn text(p: &FilePath) -> String {
    String::from_utf8(p.as_bytes().clone()).unwrap()
}

fn mount(at: &str) -> MountEntry {
    MountEntry {
        mount_point: path(at),
        source: String::new(),
    }
}

#[test]
fn places_to_watch() {
    let all: Vec<String> = watch_paths_for_user(&Some("u".to_string())).iter().map(text).collect();
    assert_eq!(all, vec!["/media", "/run/media/u"]);
    let all: Vec<String> = watch_paths_for_user(&None).iter().map(text).collect();
    assert_eq!(all, vec!["/media"]);
}

#[test]
fn partitions_lead_to_their_device() {
    let of = |s: &str| root_block_device_name_from_source(s, &None);
    assert_eq!(of("/dev/sda1"), Some("sda".to_string()));
    assert_eq!(of("/dev/nvme0n1p2"), Some("nvme0n1".to_string()));
    assert_eq!(of("/dev/mmcblk0"), Some("mmcblk".to_string()));
    assert_eq!(of("tmpfs"), None);
    assert_eq!(of("/dev/.."), None);
    let real = Some(path("/dev/sdb3"));
    let found = root_block_device_name_from_source("/dev/disk/by-label/X", &real);
    assert_eq!(found, Some("sdb".to_string()));
}

#[test]
fn numbers_of_a_device() {
    assert_eq!(usb_bus_dev("2\n", " 14 "), Some((2, 14)));
    assert_eq!(usb_bus_dev("x", "14"), None);
    assert_eq!(usb_bus_dev("2", ""), None);
    assert_eq!(usb_bus_dev("4294967296", "1"), None);
}

#[test]
fn speeds_are_read_from_listings() {
    assert_eq!(speed_from_listing("480M"), Some(480));
    assert_eq!(speed_from_listing("5000 M"), Some(5000));
    assert_eq!(speed_from_listing("0M"), None);
    assert_eq!(speed_from_listing("480"), None);
    assert_eq!(speed_from_listing("1.5M"), None);
    assert_eq!(speed_from_listing(""), None);
    let list = vec![
        UsbSpeed { bus: 1, dev: 2, mbps: 480 },
        UsbSpeed { bus: 1, dev: 2, mbps: 12 },
        UsbSpeed { bus: 3, dev: 4, mbps: 5000 },
    ];
    assert_eq!(find_speed(&list, 1, 2), Some(480));
    assert_eq!(find_speed(&list, 3, 4), Some(5000));
    assert_eq!(find_speed(&list, 3, 5), None);
}

#[test]
fn the_deepest_mount_wins() {
    let mounts = vec![mount("/"), mount("/media/usb"), mount("/media"), mount("/media/usb")];
    assert_eq!(best_mount(&mounts, &path("/media/usb/x/y")), Some(3));
    assert_eq!(best_mount(&mounts, &path("/media/other")), Some(2));
    assert_eq!(best_mount(&mounts, &path("/home")), Some(0));
    assert_eq!(best_mount(&mounts, &path("relative")), None);
    assert_eq!(best_mount(&vec![], &path("/x")), None);
}

#[test]
fn links_stand_in_order() {
    let mut links = Vec::new();
    add_link(&mut links, path("/media/b"), Some(480));
    add_link(&mut links, path("/media/a"), None);
    add_link(&mut links, path("/media/b/"), Some(12));
    assert_eq!(links.len(), 2);
    assert!(link_known(&links, &path("/media//a")));
    assert!(!link_known(&links, &path("/media/c")));
    let sorted = sort_links(&links);
    assert_eq!(text(&sorted[0].mount_point), "/media/a");
    assert_eq!(sorted[1].usb_speed_mbps, Some(480));
}

#[test]
fn the_table_of_mounts_is_read() {
    let table = "sysfs /sys sysfs rw 0 0\n/dev/sdb1 /media/usb vfat rw 0 0\nlonely\n";
    assert!(mounts_contains_path(table, &path("/media/usb")));
    assert!(!mounts_contains_path(table, &path("/media/usb/")));
    assert!(!mounts_contains_path(table, &path("/media")));
    assert!(!mounts_contains_path(table, &path("vfat")));
    let raw = FilePath::from_bytes(vec![b'/', 0xff]);
    assert!(mounts_contains_path("d /\u{fffd} x\n", &raw));
}

#[test]
fn a_device_takes_up_its_mappings() {
    let mapping = |s: &str, d: &str| TransferMapping {
        source: path(s),
        destination: path(d),
    };
    let mappings = vec![
        mapping("/s/a", "/media/usb"),
        mapping("/s/b", "/elsewhere"),
        mapping("/s/c", "/media/usb/work/reports"),
    ];
    let taken = auto_queue_mappings_for_mount(&mappings, &path("/media/usb"), &path("/media/8To"));
    assert_eq!(taken.len(), 2);
    assert_eq!(text(&taken[0].source), "/s/a");
    assert_eq!(text(&taken[0].destination), "/media/8To/");
    assert_eq!(text(&taken[1].destination), "/media/8To/work/reports");
}

#[test]
fn a_device_is_noticed_once() {
    let mut watch = MountWatch::new();
    assert!(!watch.notice(&path("/media/a"), false, true));
    assert!(!watch.notice(&path("/media/a"), true, false));
    assert!(watch.notice(&path("/media/a"), true, true));
    assert!(!watch.notice(&path("/media/a"), true, true));
    assert!(watch.notice(&path("/media/b"), true, true));
}

#[test]
fn links_are_surveyed() {
    let entry = |at: &str, source: &str| MountEntry {
        mount_point: path(at),
        source: source.to_string(),
    };
    let mounts = vec![
        entry("/", "/dev/sda1"),
        entry("/media/b", "/dev/sdb1"),
        entry("/media/a", "/dev/sdc1"),
    ];
    let speeds = vec![UsbSpeed { bus: 1, dev: 2, mbps: 480 }];
    let mut survey = LinkSurvey::new(mounts, speeds);
    assert_eq!(survey.mount_of(&path("x")), None);
    let root = survey.mount_of(&path("/home/x")).unwrap();
    assert_eq!(survey.source(root), "/dev/sda1");
    assert_eq!(survey.device(root, None), LinkStep::Next);
    let b = survey.mount_of(&path("/media/b/x")).unwrap();
    assert_eq!(survey.source(b), "/dev/sdb1");
    assert_eq!(survey.device(b, Some((1, 2))), LinkStep::Next);
    assert_eq!(survey.device(b, Some((3, 4))), LinkStep::Next);
    let a = survey.mount_of(&path("/media/a/y/z")).unwrap();
    assert_eq!(survey.device(a, Some((3, 4))), LinkStep::AskSpeed);
    survey.speed(a, Some(5000));
    survey.speed(a, None);
    let links = survey.finish();
    let found: Vec<(String, Option<u32>)> =
        links.iter().map(|l| (text(&l.mount_point), l.usb_speed_mbps)).collect();
    assert_eq!(
        found,
        vec![("/media/a".to_string(), Some(5000)), ("/media/b".to_string(), Some(480))]
    );
}
