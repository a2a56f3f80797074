//! Sizes, durations and labels as people read them.

use crate::text::{chars_of, decimal, decimal_text, push_char, slice_chars, string_of};
use vstd::prelude::*;

verus! {

/// The bytes of a kilobyte.
pub const KB: u64 = 1024;

/// The bytes of a megabyte.
pub const MB: u64 = 1048576;

/// The bytes of a gigabyte.
pub const GB: u64 = 1073741824;

/// From here on not every integer is a double-precision number.
pub const EXACT_LIMIT: u64 = 9007199254740992;

/// Files of at least this size get a progress bar of their own.
pub const FILE_PROGRESS_BAR_THRESHOLD: u64 = 8388608;

/// The width of a file's label before its progress bar.
pub const FILE_PROGRESS_LABEL_WIDTH: usize = 48;

/// The integer nearest to `n / d`; of two as near, the even one.
pub open spec fn nearest(n: nat, d: nat) -> nat {
    let q = n / d;
    let twice = 2 * (n % d);
    if twice < d || (twice == d && q % 2 == 0) {
        q
    } else {
        q + 1
    }
}

/// The distance between neighbouring double-precision numbers at `n`.
pub open spec fn float_step(n: nat) -> nat
    decreases n,
{
    if n < EXACT_LIMIT {
        1
    } else {
        2 * float_step(n / 2)
    }
}

/// The double-precision number that `n` is rounded to.
pub open spec fn as_float(n: nat) -> nat {
    nearest(n, float_step(n)) * float_step(n)
}

/// A number of hundredths with its two decimals.
pub open spec fn with_two_decimals(hundredths: nat) -> Seq<char> {
    decimal(hundredths / 100) + "."@ + two_digits(hundredths % 100)
}

/// A number with a zero before it if it has one digit.
pub open spec fn two_digits(n: nat) -> Seq<char> {
    if n < 10 {
        "0"@ + decimal(n)
    } else {
        decimal(n)
    }
}

/// The unit that a size is written in.
pub open spec fn size_unit(bytes: u64) -> u64 {
    if bytes >= GB {
        GB
    } else if bytes >= MB {
        MB
    } else if bytes >= KB {
        KB
    } else {
        1
    }
}

/// The name of that unit.
pub open spec fn unit_name(unit: u64) -> Seq<char> {
    if unit == GB {
        " GB"@
    } else if unit == MB {
        " MB"@
    } else if unit == KB {
        " KB"@
    } else {
        " bytes"@
    }
}

/// A size: below a kilobyte in bytes, else in the largest unit that it fills,
/// with two decimals, of the double-precision number nearest to it.
pub open spec fn size_text(bytes: u64) -> Seq<char> {
    let unit = size_unit(bytes);
    if unit == 1 {
        decimal(bytes as nat) + unit_name(unit)
    } else {
        with_two_decimals(nearest(as_float(bytes as nat) * 100, unit as nat)) + unit_name(unit)
    }
}

proof fn lemma_float_step(n: nat)
    requires
        n >= EXACT_LIMIT,
    ensures
        2 <= float_step(n),
        float_step(n) * 0x10_0000_0000_0000 <= n,
    decreases n,
{
    let half: nat = n / 2;
    if half >= EXACT_LIMIT {
        lemma_float_step(half);
    } else {
        assert(float_step(half) == 1);
    }
}

fn step_at(n: u64) -> (r: u64)
    ensures
        r == float_step(n as nat),
        1 <= r <= 4096,
    decreases n,
{
    if n < EXACT_LIMIT {
        1
    } else {
        let r = step_at(n / 2);
        proof {
            lemma_float_step(n as nat);
        }
        2 * r
    }
}

fn nearest_to(n: u128, d: u128) -> (r: u128)
    requires
        0 < d <= 0x1_0000_0000,
        n < 0x1_0000_0000_0000_0000_0000_0000,
    ensures
        r == nearest(n as nat, d as nat),
        r <= n + 1,
{
    let q = n / d;
    let twice = 2 * (n % d);
    assert(q <= n) by (nonlinear_arith)
        requires
            q == n / d,
            d > 0,
            n >= 0,
    ;
    if twice < d || (twice == d && q % 2 == 0) {
        q
    } else {
        q + 1
    }
}

/// A number below a hundred in two digits; a larger one as it is.
fn two_digit_text(n: u128) -> (r: String)
    ensures
        r@ == two_digits(n as nat),
{
    if n < 10 {
        let mut r = "0".to_owned();
        r.append(decimal_text(n).as_str());
        r
    } else {
        decimal_text(n)
    }
}

proof fn lemma_as_float_bound(n: u64)
    ensures
        as_float(n as nat) <= 0x2_0000_0000_0000_0000,
{
    let step = float_step(n as nat);
    if n >= EXACT_LIMIT {
        lemma_float_step(n as nat);
    }
    let q = n as nat / step;
    assert(q * step <= n) by (nonlinear_arith)
        requires
            q == n as nat / step,
            step > 0,
    ;
    assert(step <= 0x1_0000_0000_0000_0000);
    assert((q + 1) * step == q * step + step) by (nonlinear_arith);
}

/// A size as people read it.
pub fn format_size(bytes: u64) -> (r: String)
    ensures
        r@ == size_text(bytes),
{
    let (unit, name): (u64, &str) = if bytes >= GB {
        (GB, " GB")
    } else if bytes >= MB {
        (MB, " MB")
    } else if bytes >= KB {
        (KB, " KB")
    } else {
        (1, " bytes")
    };
    if unit == 1 {
        let mut r = decimal_text(bytes as u128);
        r.append(name);
        return r;
    }
    let step = step_at(bytes);
    let rounded = nearest_to(bytes as u128, step as u128);
    proof {
        lemma_as_float_bound(bytes);
        assert(rounded * step == as_float(bytes as nat));
    }
    let float: u128 = rounded * step as u128;
    let hundredths = nearest_to(float * 100, unit as u128);
    let mut r = decimal_text(hundredths / 100);
    r.append(".");
    r.append(two_digit_text(hundredths % 100).as_str());
    r.append(name);
    r
}

/// A duration in hours, minutes and seconds.
pub open spec fn eta_text(seconds: nat) -> Seq<char> {
    two_digits(seconds / 3600) + ":"@ + two_digits((seconds % 3600) / 60) + ":"@ + two_digits(
        seconds % 60,
    )
}

/// A duration in hours, minutes and seconds.
pub fn format_eta(seconds: u64) -> (r: String)
    ensures
        r@ == eta_text(seconds as nat),
{
    let mut r = two_digit_text((seconds / 3600) as u128);
    r.append(":");
    r.append(two_digit_text(((seconds % 3600) / 60) as u128).as_str());
    r.append(":");
    r.append(two_digit_text((seconds % 60) as u128).as_str());
    r
}

/// One character several times.
pub open spec fn repeated(c: char, n: nat) -> Seq<char> {
    Seq::new(n, |i: int| c)
}

/// A text in at most `max` characters: a longer one ends in three dots.
pub open spec fn shortened(s: Seq<char>, max: nat) -> Seq<char> {
    if s.len() <= max {
        s
    } else if max <= 3 {
        repeated('.', max)
    } else {
        s.take(max - 3) + repeated('.', 3)
    }
}

/// Appends a character several times.
fn push_repeated(s: &mut String, c: char, n: usize)
    ensures
        final(s)@ == old(s)@ + repeated(c, n as nat),
{
    let mut i: usize = 0;
    let ghost before = s@;
    while i < n
        invariant
            i <= n,
            s@ == before + repeated(c, i as nat),
        decreases n - i,
    {
        push_char(s, c);
        i = i + 1;
        assert(before + repeated(c, i as nat) =~= (before + repeated(c, (i - 1) as nat)).push(c));
    }
}

/// A text in at most `max_chars` characters.
pub fn truncate_for_display(input: &str, max_chars: usize) -> (r: String)
    ensures
        r@ == shortened(input@, max_chars as nat),
{
    let chars = chars_of(input);
    if chars.len() <= max_chars {
        return string_of(&chars);
    }
    if max_chars <= 3 {
        let mut dots = String::new();
        push_repeated(&mut dots, '.', max_chars);
        assert(dots@ =~= repeated('.', max_chars as nat));
        return dots;
    }
    let mut r = string_of(&slice_chars(&chars, 0, max_chars - 3));
    push_repeated(&mut r, '.', 3);
    assert(r@ =~= input@.take(max_chars - 3) + repeated('.', 3));
    r
}

/// The mark of a worker before its messages.
pub open spec fn worker_mark(worker: nat) -> Seq<char> {
    "[W"@ + decimal(worker) + "] "@
}

/// The mark of a worker before its messages.
pub fn worker_prefix(worker: usize) -> (r: String)
    ensures
        r@ == worker_mark(worker as nat),
{
    let mut r = "[W".to_owned();
    r.append(decimal_text(worker as u128).as_str());
    r.append("] ");
    r
}

/// What is left of a width, or zero.
pub open spec fn room(width: nat, used: nat) -> nat {
    if used <= width {
        (width - used) as nat
    } else {
        0
    }
}

/// The label of a file before its progress bar: the worker's mark and the name,
/// cut and filled up to the width of the label.
pub open spec fn file_label(worker: nat, name: Seq<char>) -> Seq<char> {
    let width = FILE_PROGRESS_LABEL_WIDTH as nat;
    let mark = worker_mark(worker);
    let label = mark + shortened(name, room(width, mark.len()));
    label + repeated(' ', room(width, label.len()))
}

/// The label of a file before its progress bar.
pub fn format_file_progress_label(worker_id: usize, file_name: &str) -> (r: String)
    ensures
        r@ == file_label(worker_id as nat, file_name@),
{
    let mut label = worker_prefix(worker_id);
    let used = chars_of(label.as_str()).len();
    let short = truncate_for_display(
        file_name,
        FILE_PROGRESS_LABEL_WIDTH.saturating_sub(used),
    );
    label.append(short.as_str());
    let filled = chars_of(label.as_str()).len();
    push_repeated(&mut label, ' ', FILE_PROGRESS_LABEL_WIDTH.saturating_sub(filled));
    label
}

/// A label never stands narrower than its width, and is as wide as that
/// wherever the worker's mark leaves room.
pub proof fn lemma_file_label_width(worker: nat, name: Seq<char>)
    ensures
        file_label(worker, name).len() >= FILE_PROGRESS_LABEL_WIDTH,
        worker_mark(worker).len() <= FILE_PROGRESS_LABEL_WIDTH ==> file_label(worker, name).len()
            == FILE_PROGRESS_LABEL_WIDTH,
{
}

/// The speed of a USB link with the name of its standard.
pub open spec fn usb_speed_text(mbps: u32) -> Seq<char> {
    if mbps == 12 {
        "12M (USB 1.1 Full-Speed)"@
    } else if mbps == 480 {
        "480M (USB 2.0 High-Speed)"@
    } else if mbps == 5000 {
        "5000M (USB 3.2 Gen 1 / USB 3.0)"@
    } else if mbps == 10000 {
        "10000M (USB 3.2 Gen 2 / USB 3.1 Gen 2)"@
    } else if mbps == 20000 {
        "20000M (USB 3.2 Gen 2x2)"@
    } else {
        decimal(mbps as nat) + "M (USB standard unknown)"@
    }
}

/// The speed of a USB link with the name of its standard.
pub fn format_usb_speed_label(speed_mbps: u32) -> (r: String)
    ensures
        r@ == usb_speed_text(speed_mbps),
{
    match speed_mbps {
        12 => "12M (USB 1.1 Full-Speed)".to_owned(),
        480 => "480M (USB 2.0 High-Speed)".to_owned(),
        5_000 => "5000M (USB 3.2 Gen 1 / USB 3.0)".to_owned(),
        10_000 => "10000M (USB 3.2 Gen 2 / USB 3.1 Gen 2)".to_owned(),
        20_000 => "20000M (USB 3.2 Gen 2x2)".to_owned(),
        _ => {
            let mut r = decimal_text(speed_mbps as u128);
            r.append("M (USB standard unknown)");
            r
        },
    }
}

/// Rounding is to the nearest: what comes out, times the divisor, is off by no more
/// than half of it.
pub proof fn lemma_nearest(n: nat, d: nat)
    requires
        d > 0,
    ensures
        2 * (nearest(n, d) * d - n) <= d,
        2 * (n - nearest(n, d) * d) <= d,
{
    vstd::arithmetic::div_mod::lemma_fundamental_div_mod(n as int, d as int);
    let q = n / d;
    let r = n % d;
    assert(d * q == q * d) by (nonlinear_arith);
    assert((q + 1) * d == q * d + d) by (nonlinear_arith);
    vstd::arithmetic::div_mod::lemma_mod_bound(n as int, d as int);
}

/// A size is written in the largest unit that it fills, and the number before the
/// unit is off by no more than half of its last decimal; below a kilobyte it is
/// exact.
pub proof fn lemma_size_is_right(bytes: u64)
    requires
        bytes < 9_007_199_254_740_992,
    ensures
        bytes < 1024 ==> size_text(bytes) == decimal(bytes as nat) + " bytes"@,
        bytes >= 1024 ==> exists|hundredths: nat, unit: nat|
            {
                &&& size_text(bytes) == #[trigger] with_two_decimals(hundredths) + #[trigger] unit_name(
                    unit as u64,
                )
                &&& unit == if bytes >= 1_073_741_824 {
                    1_073_741_824nat
                } else if bytes >= 1_048_576 {
                    1_048_576nat
                } else {
                    1024nat
                }
                &&& 2 * (hundredths * unit - 100 * bytes) <= unit
                &&& 2 * (100 * bytes - hundredths * unit) <= unit
            },
        unit_name(1_073_741_824) == " GB"@,
        unit_name(1_048_576) == " MB"@,
        unit_name(1024) == " KB"@,
{
    if bytes >= 1024 {
        let unit = size_unit(bytes) as nat;
        let exact = as_float(bytes as nat);
        assert(nearest(bytes as nat, 1) == bytes) by {
            lemma_nearest(bytes as nat, 1);
        }
        assert(float_step(bytes as nat) == 1);
        assert(exact == bytes * 1);
        let hundredths = nearest(exact * 100, unit);
        lemma_nearest(exact * 100, unit);
        assert(size_text(bytes) == with_two_decimals(hundredths) + unit_name(unit as u64));
    }
}

/// Hundredths are written as the whole number, a point, and two digits.
pub proof fn lemma_two_decimals(whole: nat, rest: nat)
    requires
        rest < 100,
    ensures
        with_two_decimals(whole * 100 + rest) == decimal(whole) + "."@ + two_digits(rest),
        rest >= 10 ==> two_digits(rest) == decimal(rest),
        rest < 10 ==> two_digits(rest) == "0"@ + decimal(rest),
{
    assert((whole * 100 + rest) / 100 == whole);
    assert((whole * 100 + rest) % 100 == rest);
}

/// A duration is written with just the hours, minutes and seconds that make it up.
pub proof fn lemma_duration_is_right(hours: nat, minutes: nat, seconds: nat)
    requires
        minutes < 60,
        seconds < 60,
    ensures
        eta_text(hours * 3600 + minutes * 60 + seconds) == two_digits(hours) + ":"@ + two_digits(
            minutes,
        ) + ":"@ + two_digits(seconds),
{
    let all = hours * 3600 + minutes * 60 + seconds;
    assert(all / 3600 == hours);
    assert(all % 3600 == minutes * 60 + seconds);
    assert((all % 3600) / 60 == minutes);
    assert(all % 60 == seconds);
}

/// A text that fits is shown as it is; a longer one takes just the room, and ends in
/// three dots behind its beginning where there is room for them.
pub proof fn lemma_shortening(s: Seq<char>, max: nat)
    ensures
        shortened(s, max).len() <= max,
        s.len() <= max ==> shortened(s, max) == s,
        s.len() > max ==> shortened(s, max).len() == max,
        s.len() > max && max > 3 ==> shortened(s, max).take(max - 3) == s.take(max - 3)
            && forall|i: int| max - 3 <= i < max ==> #[trigger] shortened(s, max)[i] == '.',
        s.len() > max && max <= 3 ==> forall|i: int|
            0 <= i < max ==> #[trigger] shortened(s, max)[i] == '.',
{
    if s.len() > max && max > 3 {
        assert(shortened(s, max).take(max - 3) =~= s.take(max - 3));
    }
}

/// A file's label is the worker's mark and the file's name, whole where it fits, and
/// blanks behind.
pub proof fn lemma_label_shows_the_file(worker: nat, name: Seq<char>)
    requires
        worker_mark(worker).len() <= 48,
    ensures
        ({
            let mark = worker_mark(worker);
            let label = file_label(worker, name);
            &&& mark.is_prefix_of(label)
            &&& mark.len() + name.len() <= 48 ==> (mark + name).is_prefix_of(label) && forall|
                i: int,
            |
                mark.len() + name.len() <= i < label.len() ==> #[trigger] label[i] == ' '
            &&& mark.len() + name.len() > 48 && mark.len() + 3 < 48 ==> label == mark + name.take(
                48 - mark.len() - 3,
            ) + repeated('.', 3)
        }),
{
    let mark = worker_mark(worker);
    let label = file_label(worker, name);
    assert(mark =~= label.take(mark.len() as int));
    if mark.len() + name.len() <= 48 {
        assert((mark + name) =~= label.take((mark + name).len() as int));
    } else if mark.len() + 3 < 48 {
        assert(label =~= mark + name.take(48 - mark.len() - 3) + repeated('.', 3));
    }
}

/// The label of a speed begins with the speed, and names the standard of the speeds
/// that have one.
pub proof fn lemma_speed_labels(mbps: u32)
    ensures
        mbps == 12 ==> usb_speed_text(mbps) == "12M (USB 1.1 Full-Speed)"@,
        mbps == 480 ==> usb_speed_text(mbps) == "480M (USB 2.0 High-Speed)"@,
        mbps == 5000 ==> usb_speed_text(mbps) == "5000M (USB 3.2 Gen 1 / USB 3.0)"@,
        mbps == 10000 ==> usb_speed_text(mbps) == "10000M (USB 3.2 Gen 2 / USB 3.1 Gen 2)"@,
        mbps == 20000 ==> usb_speed_text(mbps) == "20000M (USB 3.2 Gen 2x2)"@,
        mbps != 12 && mbps != 480 && mbps != 5000 && mbps != 10000 && mbps != 20000
            ==> usb_speed_text(mbps) == decimal(mbps as nat) + "M (USB standard unknown)"@,
{
}

/// A worker's mark is its number in brackets.
pub proof fn lemma_worker_marks(worker: nat)
    ensures
        worker_mark(worker) == seq!['[', 'W'] + decimal(worker) + seq![']', ' '],
{
    reveal_strlit("[W");
    reveal_strlit("] ");
    assert("[W"@ =~= seq!['[', 'W']);
    assert("] "@ =~= seq![']', ' ']);
}

} // verus!
