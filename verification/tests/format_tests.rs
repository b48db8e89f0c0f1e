use loc_analyzer::compare::format_delta;
use loc_analyzer::format::{
    calculate_percentage, format_count, format_duration, format_percent_one_decimal,
    format_percent_two_decimals, u64_to_string,
};

#[test]
fn plain_digits() {
    assert_eq!(u64_to_string(0), "0");
    assert_eq!(u64_to_string(7), "7");
    assert_eq!(u64_to_string(10), "10");
    assert_eq!(u64_to_string(987654321), "987654321");
}

#[test]
fn count_below_thousand_is_plain() {
    assert_eq!(format_count(0), "0");
    assert_eq!(format_count(999), "999");
}

#[test]
fn count_scales_by_thousands() {
    assert_eq!(format_count(1000), "1.0K");
    assert_eq!(format_count(1500), "1.5K");
    assert_eq!(format_count(2_300_000), "2.3M");
    assert_eq!(format_count(1_000_000_000), "1.0G");
    assert_eq!(format_count(1_000_000_000_000), "1.0T");
}

#[test]
fn count_boundary_keeps_prefix() {
    // Rounding happens after the prefix is chosen: the mantissa may
    // show 1000.0 rather than rolling over to the next prefix.
    assert_eq!(format_count(999_999), "1000.0K");
    assert_eq!(format_count(999_949), "999.9K");
    assert_eq!(format_count(999_950), "1000.0K");
}

#[test]
fn count_largest_values_use_exa_prefix() {
    assert_eq!(format_count(u64::MAX), "18.4E");
    assert_eq!(format_count(1_000_000_000_000_000_000), "1.0E");
}

#[test]
fn duration_millisecond_threshold_is_inclusive() {
    assert_eq!(format_duration(1_000_000), "1.000 ms");
    assert_eq!(format_duration(999_999), "999.999 \u{b5}s");
}

#[test]
fn duration_microseconds() {
    // 0.0000005 s
    assert_eq!(format_duration(500), "0.500 \u{b5}s");
}

#[test]
fn duration_milliseconds() {
    // 0.0015 s
    assert_eq!(format_duration(1_500_000), "1.500 ms");
}

#[test]
fn duration_seconds() {
    assert_eq!(format_duration(1_000_000_000), "1.000 seconds");
}

#[test]
fn duration_minutes() {
    // 90 s; the 60 s threshold itself already selects minutes.
    assert_eq!(format_duration(90_000_000_000), "1.500 minutes");
    assert_eq!(format_duration(60_000_000_000), "1.000 minutes");
}

#[test]
fn duration_hours() {
    assert_eq!(format_duration(3_600_000_000_000), "1.000 hours");
}

#[test]
fn percentage_of_zero_total_is_zero() {
    assert_eq!(calculate_percentage(0, 0), 0);
}

#[test]
fn percentage_exact() {
    let p = calculate_percentage(50, 200);
    assert_eq!(p, 2500);
    assert_eq!(p as f64 / 100.0, 25.0);
}

#[test]
fn percentage_rounded() {
    let p = calculate_percentage(1, 3);
    assert_eq!(p, 3333);
    assert_eq!(p as f64 / 100.0, 33.33);
}

#[test]
fn percent_rendering() {
    assert_eq!(format_percent_one_decimal(3333), "33.3%");
    assert_eq!(format_percent_one_decimal(2500), "25.0%");
    assert_eq!(format_percent_one_decimal(10000), "100.0%");
    assert_eq!(format_percent_two_decimals(3333), "33.33");
    assert_eq!(format_percent_two_decimals(2500), "25.00");
    assert_eq!(format_percent_two_decimals(5), "0.05");
}

#[test]
fn delta_signs() {
    assert_eq!(format_delta(50), "+50");
    assert_eq!(format_delta(-50), "-50");
    assert_eq!(format_delta(0), "0");
}
