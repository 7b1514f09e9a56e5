//! The two duration display forms on concrete values.

use rtss::{Dur, DurationExt};

#[test]
fn human_zero_is_empty() {
    assert_eq!(Dur::new(0, 0).human_string(), "");
}

#[test]
fn human_negligible_is_empty() {
    assert_eq!(Dur::new(0, 1).human_string(), "");
    assert_eq!(Dur::new(0, 100).human_string(), "");
}

#[test]
fn human_microseconds() {
    assert_eq!(Dur::new(0, 101).human_string(), "0.1\u{3bc}s");
    assert_eq!(Dur::new(0, 12_345).human_string(), "12.3\u{3bc}s");
    assert_eq!(Dur::new(0, 100_000).human_string(), "100.0\u{3bc}s");
}

#[test]
fn human_milliseconds() {
    assert_eq!(Dur::new(0, 100_001).human_string(), "0.1ms");
    assert_eq!(Dur::new(0, 423_100_000).human_string(), "423.1ms");
    assert_eq!(Dur::new(0, 999_999_999).human_string(), "1000.0ms");
}

#[test]
fn human_seconds_and_units() {
    assert_eq!(Dur::new(1, 0).human_string(), "1.00s");
    assert_eq!(Dur::new(3723, 450_000_000).human_string(), "1h2m3.45s");
    assert_eq!(Dur::new(3600, 0).human_string(), "1h0m0.00s");
    assert_eq!(Dur::new(2 * 86400 + 30, 0).human_string(), "2d0h0m30.00s");
}

#[test]
fn human_centisecond_carry() {
    // .995 and above rounds into the next whole second, never ".100".
    assert_eq!(Dur::new(59, 999_000_000).human_string(), "1m0.00s");
    assert_eq!(Dur::new(59, 995_000_000).human_string(), "1m0.00s");
    assert_eq!(Dur::new(59, 994_999_999).human_string(), "59.99s");
    assert_eq!(Dur::new(1, 996_000_000).human_string(), "2.00s");
}

#[test]
fn human_largest_span() {
    // The centisecond carry works even at the top of the seconds range.
    assert_eq!(
        Dur::new(u64::MAX, 0).human_string(),
        "213503982334601d7h0m15.00s"
    );
    assert_eq!(
        Dur::new(u64::MAX, 999_000_000).human_string(),
        "213503982334601d7h0m16.00s"
    );
}

#[test]
fn sortable_largest_span() {
    assert_eq!(
        Dur::new(u64::MAX, 999_999_999).sortable_string(),
        "5124095576030431:00:15.999999"
    );
}

#[test]
fn sortable_zero() {
    assert_eq!(Dur::new(0, 0).sortable_string(), "00:00:00.000000");
}

#[test]
fn sortable_fields() {
    assert_eq!(Dur::new(3723, 450_000_999).sortable_string(), "01:02:03.450000");
    assert_eq!(Dur::new(59, 5_000).sortable_string(), "00:00:59.000005");
}

#[test]
fn sortable_wide_hours() {
    assert_eq!(Dur::new(360_000, 0).sortable_string(), "100:00:00.000000");
}

#[test]
fn sortable_orders_as_text() {
    // Within the fixed-width range, text order is duration order at
    // microsecond resolution.
    let samples = [
        Dur::new(0, 0),
        Dur::new(0, 999),
        Dur::new(0, 1_000),
        Dur::new(0, 999_999_999),
        Dur::new(1, 0),
        Dur::new(59, 0),
        Dur::new(60, 0),
        Dur::new(3599, 999_999_000),
        Dur::new(3600, 0),
        Dur::new(359_999, 999_999_000),
    ];
    for a in samples.iter() {
        for b in samples.iter() {
            let sa = a.sortable_string();
            let sb = b.sortable_string();
            let dur_lt = (a.secs, a.nanos / 1000) < (b.secs, b.nanos / 1000);
            assert_eq!(sa < sb, dur_lt, "{} vs {}", sa, sb);
        }
    }
}

#[test]
fn sortable_order_breaks_past_fixed_width() {
    // At 100 hours the hour field grows a digit and text order no longer
    // matches duration order; the ordering law is stated below that bound.
    let wide = Dur::new(360_000, 0).sortable_string();
    let narrow = Dur::new(54_000, 0).sortable_string();
    assert!(wide < narrow);
}

#[test]
fn sortable_equal_below_microsecond() {
    // Nanosecond differences below the format's resolution render alike.
    assert_eq!(
        Dur::new(5, 1_999).sortable_string(),
        Dur::new(5, 1_000).sortable_string()
    );
}
