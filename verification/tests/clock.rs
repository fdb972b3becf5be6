use daylight::clock::{clock_head, clock_head_from, zone_label};

#[test]
fn zone_labels() {
    assert_eq!(zone_label(0), "UTC");
    assert_eq!(zone_label(2 * 3600), "UTC+02:00");
    assert_eq!(zone_label(-5 * 3600), "UTC-05:00");
    assert_eq!(zone_label(5 * 3600 + 1800), "UTC+05:30");
    assert_eq!(zone_label(5 * 3600 + 2700), "UTC+05:45");
    assert_eq!(zone_label(-(9 * 3600 + 1800)), "UTC-09:30");
    assert_eq!(zone_label(14 * 3600), "UTC+14:00");
    // Seconds below a whole minute are dropped.
    assert_eq!(zone_label(59), "UTC+00:00");
    assert_eq!(zone_label(-61), "UTC-00:01");
    // Hours beyond two digits are printed in full.
    assert_eq!(zone_label(100 * 3600), "UTC+100:00");
}

#[test]
fn clock_heads_at_fixed_instants() {
    // 2026-09-26 12:03:22 UTC shown at UTC+02:00.
    assert_eq!(
        clock_head(1_790_424_202, 0, 2 * 3600).as_deref(),
        Some("Sat 2026-09-26 14:03:22 UTC+02:00")
    );
    // 2024-06-21 12:00:00 UTC at zero offset: a bare UTC.
    assert_eq!(
        clock_head(1_718_971_200, 0, 0).as_deref(),
        Some("Fri 2024-06-21 12:00:00 UTC")
    );
    // 2025-01-02 08:04:05 UTC shown at UTC-05:00.
    assert_eq!(
        clock_head(1_735_805_045, 0, -5 * 3600).as_deref(),
        Some("Thu 2025-01-02 03:04:05 UTC-05:00")
    );
    // Sub-second parts do not show.
    assert_eq!(
        clock_head(0, 999_999_999, 0).as_deref(),
        Some("Thu 1970-01-01 00:00:00 UTC")
    );
}

#[test]
fn clock_head_refuses_offsets_of_a_day() {
    assert_eq!(clock_head(0, 0, 86_400), None);
    assert_eq!(clock_head(0, 0, -86_400), None);
    assert!(clock_head(0, 0, 86_399).is_some());
}

#[test]
fn clock_head_from_joins_stamp_and_zone() {
    assert_eq!(
        clock_head_from("Mon 2000-01-03 00:00:00".to_string(), 3600),
        "Mon 2000-01-03 00:00:00 UTC+01:00"
    );
}

#[test]
fn clock_head_success_range_is_chronos_calendar() {
    const MIN_TS: i64 = -8_334_601_228_800;
    const MAX_TS: i64 = 8_210_266_876_799;
    assert!(clock_head(MIN_TS, 0, 0).unwrap().contains("-262143-01-01 00:00:00"));
    assert_eq!(clock_head(MIN_TS - 1, 0, 0), None);
    assert!(clock_head(MAX_TS, 0, 0).unwrap().contains("262142-12-31 23:59:59"));
    assert_eq!(clock_head(MAX_TS + 1, 0, 0), None);
    // An offset moves the shown time, not the accepted range.
    assert!(clock_head(MAX_TS, 0, 3600).is_some());
    assert_eq!(clock_head(i64::MAX, 0, 0), None);
    assert_eq!(clock_head(i64::MIN, 0, 0), None);
}

#[test]
fn clock_head_leap_second_nanoseconds() {
    // 2016-12-31 23:59:59 UTC ends a minute: nanoseconds up to 2e9 are a leap second.
    let t = 1_483_228_799;
    assert_eq!(
        clock_head(t, 1_500_000_000, 0).as_deref(),
        Some("Sat 2016-12-31 23:59:60 UTC")
    );
    assert_eq!(clock_head(t, 2_000_000_000, 0), None);
    // On any other second they are refused.
    assert_eq!(clock_head(t - 1, 1_000_000_000, 0), None);
}
