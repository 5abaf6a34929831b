use azva::timing::{elapsed_ms, TurnTiming};
use azva::clock::{format_clock, format_timestamp_at};
use std::time::{Duration, UNIX_EPOCH};

#[test]
fn formats_line() {
    let t = TurnTiming {
        endpoint_ms: 700,
        stt_ms: 240,
        refine_ms: 180,
        reply_start_ms: 430,
    };
    assert_eq!(
        t.format(),
        "endpoint ~700ms \u{00B7} stt 240ms \u{00B7} refine 180ms \u{00B7} reply-start +430ms"
    );
}

#[test]
fn formats_extreme_times() {
    let t = TurnTiming { endpoint_ms: 0, stt_ms: 10, refine_ms: u32::MAX, reply_start_ms: 9 };
    assert_eq!(
        t.format(),
        "endpoint ~0ms \u{00B7} stt 10ms \u{00B7} refine 4294967295ms \u{00B7} reply-start +9ms"
    );
}

#[test]
fn elapsed_keeps_the_low_bits() {
    assert_eq!(elapsed_ms(430), 430);
    assert_eq!(elapsed_ms(0x1_0000_0005), 5);
}

#[test]
fn format_timestamp_known_epoch() {
    // 3661 seconds = 1h 1m 1s UTC
    let t = UNIX_EPOCH + Duration::from_secs(3661);
    assert_eq!(format_timestamp_at(t), "01:01:01");
}

#[test]
fn format_timestamp_midnight_rollover() {
    // 86400 seconds = exactly 1 day → 00:00:00
    let t = UNIX_EPOCH + Duration::from_secs(86400);
    assert_eq!(format_timestamp_at(t), "00:00:00");
}

#[test]
fn timestamps_cut_the_fraction_of_a_second() {
    let t = UNIX_EPOCH + Duration::from_millis(86_399_999);
    assert_eq!(format_timestamp_at(t), "23:59:59");
}

#[test]
fn time_before_the_epoch_reads_as_the_epoch() {
    let t = UNIX_EPOCH - Duration::from_secs(5);
    assert_eq!(format_timestamp_at(t), "00:00:00");
}

#[test]
fn clock_starts_over_every_day() {
    assert_eq!(format_clock(45_296), "12:34:56");
    assert_eq!(format_clock(45_296 + 86_400), "12:34:56");
}
