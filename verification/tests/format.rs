use transfer_plan::format::{
    format_eta, format_file_progress_label, format_size, format_usb_speed_label,
    truncate_for_display, worker_prefix,
};

fn by_floats(bytes: u64) -> String {
    let kb: u64 = 1024;
    let mb: u64 = kb * 1024;
    let gb: u64 = mb * 1024;
    if bytes >= gb {
        format!("{:.2} GB", bytes as f64 / gb as f64)
    } else if bytes >= mb {
        format!("{:.2} MB", bytes as f64 / mb as f64)
    } else if bytes >= kb {
        format!("{:.2} KB", bytes as f64 / kb as f64)
    } else {
        format!("{} bytes", bytes)
    }
}

#[test]
fn sizes_below_a_kilobyte_are_in_bytes() {
    assert_eq!(format_size(0), "0 bytes");
    assert_eq!(format_size(1023), "1023 bytes");
}

#[test]
fn sizes_have_two_decimals() {
    assert_eq!(format_size(1024), "1.00 KB");
    assert_eq!(format_size(1536), "1.50 KB");
    assert_eq!(format_size(1_048_576), "1.00 MB");
    assert_eq!(format_size(64 * 1024 * 1024), "64.00 MB");
    assert_eq!(format_size(5_368_709_120), "5.00 GB");
}

#[test]
fn sizes_round_as_double_precision_numbers_do() {
    let mut samples: Vec<u64> = vec![u64::MAX, u64::MAX - 1, 1 << 53, (1 << 53) + 1];
    for shift in 0..64 {
        let base = 1u64 << shift;
        for offset in [0u64, 1, 2, 3, 5, 7, 51, 1023] {
            samples.push(base.saturating_add(offset));
            samples.push(base.saturating_sub(offset));
        }
    }
    let mut x: u64 = 0x9e37_79b9_7f4a_7c15;
    for i in 0..4000u32 {
        x ^= x << 13;
        x ^= x >> 7;
        x ^= x << 17;
        samples.push(x >> (i % 64));
    }
    for k in 0..2048u64 {
        samples.push(1024 + k);
        samples.push((1024 + k) * 1024 + 512);
    }
    for bytes in samples {
        assert_eq!(format_size(bytes), by_floats(bytes));
    }
}

#[test]
fn ties_go_to_the_even_digit() {
    // 1.125 and 1.375 lie half way between two hundredths.
    assert_eq!(format_size(1152), "1.12 KB");
    assert_eq!(format_size(1408), "1.38 KB");
}

#[test]
fn durations_have_three_fields() {
    assert_eq!(format_eta(0), "00:00:00");
    assert_eq!(format_eta(59), "00:00:59");
    assert_eq!(format_eta(3661), "01:01:01");
    assert_eq!(format_eta(360_000), "100:00:00");
}

#[test]
fn long_names_are_cut() {
    assert_eq!(truncate_for_display("abc", 0), "");
    assert_eq!(truncate_for_display("abcd", 3), "...");
    assert_eq!(truncate_for_display("abcd", 2), "..");
    assert_eq!(truncate_for_display("abcd", 4), "abcd");
    assert_eq!(truncate_for_display("abcdefgh", 6), "abc...");
    assert_eq!(truncate_for_display("éèêëēėę", 5), "éè...");
}

#[test]
fn labels_fill_their_width() {
    assert_eq!(worker_prefix(3), "[W3] ");
    let short = format_file_progress_label(0, "a.txt");
    assert_eq!(short, format!("{:<48}", "[W0] a.txt"));
    let long = format_file_progress_label(12, &"x".repeat(100));
    assert_eq!(long.chars().count(), 48);
    assert!(long.starts_with("[W12] xxx"));
    assert!(long.ends_with("x..."));
}

#[test]
fn usb_speeds_have_names() {
    assert_eq!(format_usb_speed_label(12), "12M (USB 1.1 Full-Speed)");
    assert_eq!(format_usb_speed_label(480), "480M (USB 2.0 High-Speed)");
    assert_eq!(
        format_usb_speed_label(5000),
        "5000M (USB 3.2 Gen 1 / USB 3.0)"
    );
    assert_eq!(
        format_usb_speed_label(10000),
        "10000M (USB 3.2 Gen 2 / USB 3.1 Gen 2)"
    );
    assert_eq!(format_usb_speed_label(20000), "20000M (USB 3.2 Gen 2x2)");
    assert_eq!(format_usb_speed_label(1), "1M (USB standard unknown)");
}
