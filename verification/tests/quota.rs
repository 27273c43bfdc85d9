use agent_core::quota::{format_unix_utc, PercentBits, QuotaSnapshot, QuotaWindow};

fn percent(value: f64) -> PercentBits {
    PercentBits { bits: value.to_bits() }
}

#[test]
fn formats_known_instants_in_utc() {
    assert_eq!(format_unix_utc(0), "1970-01-01 00:00 UTC");
    assert_eq!(format_unix_utc(1_784_989_920), "2026-07-25 14:32 UTC");
    assert_eq!(format_unix_utc(1_709_208_000), "2024-02-29 12:00 UTC");
}

#[test]
fn empty_snapshot_is_recognizable() {
    assert!(QuotaSnapshot::default().is_empty());
    let filled = QuotaSnapshot {
        primary: Some(QuotaWindow {
            used_percent: percent(12.5),
            window_minutes: Some(300),
            resets_at_unix: Some(1_784_989_920),
        }),
        secondary: None,
    };
    assert!(!filled.is_empty());
}

#[test]
fn window_durations_stay_readable() {
    let window = |minutes| QuotaWindow {
        used_percent: percent(1.0),
        window_minutes: Some(minutes),
        resets_at_unix: None,
    };
    assert_eq!(window(45).window_label().as_deref(), Some("45-minute window"));
    assert_eq!(window(300).window_label().as_deref(), Some("5-hour window"));
    assert_eq!(window(1_440).window_label().as_deref(), Some("1-day window"));
    assert_eq!(window(20_160).window_label().as_deref(), Some("2-week window"));
    assert_eq!(
        QuotaWindow {
            used_percent: percent(1.0),
            window_minutes: None,
            resets_at_unix: None,
        }
        .window_label(),
        None
    );
}

#[test]
fn most_consumed_picks_the_tightest_window() {
    let window = |pct| {
        Some(QuotaWindow {
            used_percent: percent(pct),
            window_minutes: None,
            resets_at_unix: None,
        })
    };
    let snapshot = QuotaSnapshot { primary: window(10.0), secondary: window(90.0) };
    assert_eq!(snapshot.most_consumed().map(|w| w.used_percent), Some(percent(90.0)));
    let only_primary = QuotaSnapshot { primary: window(10.0), secondary: None };
    assert_eq!(only_primary.most_consumed().map(|w| w.used_percent), Some(percent(10.0)));
    assert!(QuotaSnapshot::default().most_consumed().is_none());
}

#[test]
fn the_calendar_reaches_back_before_the_epoch() {
    assert_eq!(format_unix_utc(-1), "1969-12-31 23:59 UTC");
    assert_eq!(format_unix_utc(-86_400), "1969-12-31 00:00 UTC");
}

#[test]
fn shares_compare_as_the_numbers_that_they_are() {
    for (a, b) in [
        (1.5, -2.0),
        (-1.0, -2.0),
        (0.0, -0.0),
        (100.0, 99.9),
        (f64::NAN, 1.0),
        (f64::INFINITY, 1e300),
    ] {
        assert_eq!(percent(a).exceeds(percent(b)), a > b);
        assert_eq!(percent(b).exceeds(percent(a)), b > a);
    }
}

#[test]
fn instants_before_the_epoch_have_their_date() {
    assert_eq!(format_unix_utc(-1), "1969-12-31 23:59 UTC");
    assert_eq!(format_unix_utc(-86_400), "1969-12-31 00:00 UTC");
    // The first day of the year zero, and the minute before it.
    assert_eq!(format_unix_utc(-62_167_219_200), "0000-01-01 00:00 UTC");
    assert_eq!(format_unix_utc(-62_167_219_201), "-001-12-31 23:59 UTC");
}
