//! Timestamps.

use localdb_core::clock::{format_secs_rfc3339, now_rfc3339, secs_to_ymd_hms};

#[test]
fn epoch_zero_is_1970_01_01() {
    assert_eq!(format_secs_rfc3339(0), "1970-01-01T00:00:00Z");
}

#[test]
fn leap_day_2024_02_29_is_formatted_correctly() {
    assert_eq!(format_secs_rfc3339(1_709_164_800), "2024-02-29T00:00:00Z");
}

#[test]
fn year_end_boundary_rolls_over_correctly() {
    assert_eq!(format_secs_rfc3339(1_704_067_199), "2023-12-31T23:59:59Z");
    assert_eq!(format_secs_rfc3339(1_704_067_200), "2024-01-01T00:00:00Z");
}

#[test]
fn dates_follow_the_calendar_day_by_day() {
    let (mut y, mut m, mut d) = (1970u64, 1u64, 1u64);
    for day in 0..200_000u64 {
        assert_eq!(
            secs_to_ymd_hms(day * 86_400 + 3_661),
            (y, m, d, 1, 1, 1),
            "day {day}"
        );
        let leap = y % 4 == 0 && (y % 100 != 0 || y % 400 == 0);
        let last = match m {
            2 => {
                if leap {
                    29
                } else {
                    28
                }
            }
            4 | 6 | 9 | 11 => 30,
            _ => 31,
        };
        d += 1;
        if d > last {
            d = 1;
            m += 1;
        }
        if m > 12 {
            m = 1;
            y += 1;
        }
    }
}

#[test]
fn the_present_is_a_timestamp_of_this_century() {
    let now = now_rfc3339();
    assert_eq!(now.len(), 20);
    assert!(now.starts_with("20"));
    assert!(now.ends_with('Z'));
}

#[test]
fn far_years_take_more_digits() {
    assert_eq!(format_secs_rfc3339(253_402_300_800), "10000-01-01T00:00:00Z");
}

#[test]
fn timestamps_sort_as_the_moments_do() {
    let moments = [
        0,
        59,
        60,
        3_599,
        86_399,
        86_400,
        951_782_399,
        951_782_400,
        1_704_067_199,
        1_704_067_200,
        253_402_300_799,
    ];
    let texts: Vec<String> = moments.iter().map(|s| format_secs_rfc3339(*s)).collect();
    assert!(texts.iter().all(|t| t.len() == 20));
    assert!(texts.windows(2).all(|w| w[0] < w[1]));
    assert_eq!(texts[10], "9999-12-31T23:59:59Z");
    assert_eq!(format_secs_rfc3339(253_402_300_800).len(), 21);
}
