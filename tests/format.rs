use core::time::Duration as StdDuration;
use fmt_duration::{Duration, FmtDuration, FormatError};

fn as_secs(hrs: u64, mins: u64, secs: u64) -> u64 {
    60 * 60 * hrs + 60 * mins + secs
}

fn format_duration(secs: u64, nanos: u32, fmt_str: &str) -> String {
    Duration::new(secs, nanos).format(fmt_str).unwrap()
}

#[test]
fn sanity_check() {
    assert_eq!(2 + 2, 4);
}

#[test]
fn format_hms_nanos() {
    assert_eq!(
        format_duration(as_secs(11, 53, 20), 001203885, "%H:%M:%S.%NS"),
        String::from("11:53:20.001203885")
    );
}

#[test]
fn format_hms_micros() {
    assert_eq!(
        format_duration(as_secs(00, 00, 05), 000001000, "%H:%M:%S.%US"),
        String::from("00:00:05.000001")
    );
}

#[test]
fn format_unpadded_seconds_and_escape() {
    assert_eq!(
        format_duration(as_secs(01, 01, 01), 000000000, "%s.%MS/100%%"),
        String::from("1.000/100%")
    );
}

#[test]
fn format_unpadded_with_text() {
    assert_eq!(
        format_duration(as_secs(15, 04, 07), 123456789, "%Hhr %mmin %ssec"),
        String::from("15hr 4min 7sec")
    );
}

#[test]
fn format_scenario_seconds_total() {
    assert_eq!(format_duration(42_800, 1_203_885, "%H:%M:%S.%NS"), "11:53:20.001203885");
    assert_eq!(format_duration(5, 1_000, "%H:%M:%S.%US"), "00:00:05.000001");
    assert_eq!(format_duration(3_661, 0, "%s.%MS/100%%"), "1.000/100%");
    assert_eq!(format_duration(54_247, 123_456_789, "%Hhr %mmin %ssec"), "15hr 4min 7sec");
}

#[test]
fn format_unknown_directive_is_error() {
    let r = Duration::new(7, 0).format("%Q");
    assert_eq!(r, Err(FormatError { offset: 0, directive: String::from("%Q") }));
}

#[test]
fn format_unknown_directive_after_fields() {
    let r = Duration::new(3_600, 0).format("%H:%M %Zx %Q");
    assert_eq!(r, Err(FormatError { offset: 6, directive: String::from("%Z") }));
}

#[test]
fn format_lone_percent_is_error() {
    let r = Duration::new(1, 0).format("50%");
    assert_eq!(r, Err(FormatError { offset: 2, directive: String::from("%") }));
}

#[test]
fn format_literal_template_unchanged() {
    for d in [Duration::new(0, 0), Duration::new(98_765, 4_321), Duration::new(u64::MAX, 999_999_999)] {
        assert_eq!(d.format("plain text: 12:34").unwrap(), "plain text: 12:34");
        assert_eq!(d.format("").unwrap(), "");
        assert_eq!(d.format("héllo").unwrap(), "héllo");
    }
}

#[test]
fn format_escaped_percent_alone() {
    for d in [Duration::new(0, 0), Duration::new(12_345, 678_901_234)] {
        assert_eq!(d.format("%%").unwrap(), "%");
    }
}

#[test]
fn format_millis_not_minutes_then_s() {
    let d = Duration::new(as_secs(0, 7, 0), 42_000_000);
    let millis = d.format("%MS").unwrap();
    let minutes_then_s = d.format("%M").unwrap() + "S";
    assert_eq!(millis, "042");
    assert_eq!(minutes_then_s, "07S");
    assert_ne!(millis, minutes_then_s);
}

#[test]
fn format_padded_widths() {
    let d = Duration::new(3, 5);
    assert_eq!(d.format("%H").unwrap(), "00");
    assert_eq!(d.format("%MS").unwrap(), "000");
    assert_eq!(d.format("%US").unwrap(), "000000");
    assert_eq!(d.format("%NS").unwrap(), "000000005");
    assert_eq!(d.format("%S").unwrap(), "03");
}

#[test]
fn format_hours_grow_beyond_two_digits() {
    let d = Duration::new(as_secs(123_456, 0, 0), 0);
    assert_eq!(d.format("%H").unwrap(), "123456");
    assert_eq!(d.format("%h").unwrap(), "123456");
    let max = Duration::new(u64::MAX, 0);
    assert_eq!(max.format("%h").unwrap(), (u64::MAX / 3600).to_string());
}

#[test]
fn format_unpadded_has_no_leading_zero() {
    let d = Duration::new(as_secs(0, 3, 9), 7_008_009);
    assert_eq!(d.format("%h|%m|%s|%ms|%us|%ns").unwrap(), "0|3|9|7|7008|7008009");
    let z = Duration::new(0, 0);
    assert_eq!(z.format("%h%m%s%ms%us%ns").unwrap(), "000000");
}

#[test]
fn format_components_stay_below_sixty() {
    let d = Duration::new(as_secs(2, 59, 59), 999_999_999);
    assert_eq!(d.format("%H:%M:%S.%MS.%US.%NS").unwrap(), "02:59:59.999.999999.999999999");
    let next = Duration::new(as_secs(2, 59, 59) + 1, 0);
    assert_eq!(next.format("%H:%M:%S").unwrap(), "03:00:00");
}

#[test]
fn duration_new_carries_nanoseconds() {
    let d = Duration::new(1, 2_500_000_000);
    assert_eq!(d.as_secs(), 3);
    assert_eq!(d.subsec_nanos(), 500_000_000);
    assert_eq!(d.format("%s.%MS").unwrap(), "3.500");
}

#[test]
fn format_std_duration() {
    let cases = [
        (as_secs(11, 53, 20), 001203885, "%H:%M:%S.%NS", "11:53:20.001203885"),
        (as_secs(00, 00, 05), 000001000, "%H:%M:%S.%US", "00:00:05.000001"),
        (as_secs(01, 01, 01), 000000000, "%s.%MS/100%%", "1.000/100%"),
        (as_secs(15, 04, 07), 123456789, "%Hhr %mmin %ssec", "15hr 4min 7sec"),
    ];
    for (secs, nanos, fmt_str, expected) in cases {
        assert_eq!(StdDuration::format(&StdDuration::new(secs, nanos), fmt_str).unwrap(), expected);
    }
    let r = StdDuration::new(1, 0).format("%Q");
    assert_eq!(r, Err(FormatError { offset: 0, directive: String::from("%Q") }));
}
