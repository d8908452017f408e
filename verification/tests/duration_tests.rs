use termfetch::duration::{format_uptime_duration, formatted_uptime, parse_uptime_to_seconds};

#[test]
fn zero_seconds_is_the_sentinel() {
    assert_eq!(format_uptime_duration(0), "less than a minute");
}

#[test]
fn under_a_minute_is_the_sentinel() {
    assert_eq!(format_uptime_duration(59), "less than a minute");
}

#[test]
fn one_day_one_hour_one_minute_drops_seconds() {
    assert_eq!(format_uptime_duration(90061), "up 1 day, 1 hour, 1 minute");
}

#[test]
fn singular_units_have_no_plural_s() {
    assert_eq!(format_uptime_duration(61), "up 1 minute");
    assert_eq!(format_uptime_duration(3600), "up 1 hour");
    assert_eq!(format_uptime_duration(86400), "up 1 day");
    assert_eq!(format_uptime_duration(604800), "up 1 week");
    assert_eq!(format_uptime_duration(2592000), "up 1 month");
}

#[test]
fn plural_units_have_the_plural_s() {
    assert_eq!(format_uptime_duration(120), "up 2 minutes");
    assert_eq!(format_uptime_duration(1209600), "up 2 weeks");
}

#[test]
fn ladder_is_ordered_largest_first() {
    assert_eq!(format_uptime_duration(2592000 + 86400), "up 1 month, 1 day");
    assert_eq!(
        format_uptime_duration(2592000 + 604800 + 86400 + 3600 + 60),
        "up 1 month, 1 week, 1 day, 1 hour, 1 minute"
    );
}

#[test]
fn uptime_phrase_with_days_and_clock() {
    let out = " 12:34:56 up 2 days,  4:17,  1 user,  load average: 0.00, 0.01, 0.05";
    assert_eq!(parse_uptime_to_seconds(out), Some(2 * 86400 + 4 * 3600 + 17 * 60));
}

#[test]
fn uptime_phrase_with_minutes_only() {
    let out = " 12:34:56 up 23 min,  1 user,  load average: 0.00, 0.01, 0.05";
    assert_eq!(parse_uptime_to_seconds(out), Some(23 * 60));
}

#[test]
fn uptime_phrase_with_clock_only() {
    let out = " 12:34:56 up  4:17,  2 users,  load average: 0.00, 0.01, 0.05";
    assert_eq!(parse_uptime_to_seconds(out), Some(4 * 3600 + 17 * 60));
}

#[test]
fn uptime_phrase_user_clause_is_discarded() {
    let out = " 09:00:00 up 1 day,  1 user,  load average: 1.00, 1.00, 1.00";
    assert_eq!(parse_uptime_to_seconds(out), Some(86400));
}

#[test]
fn uptime_phrase_sum_saturates_at_a_whole_minute() {
    let out = " 10:00:00 up 213503982334602 days,  1 user,  load average: 0.00, 0.00, 0.00";
    let secs = parse_uptime_to_seconds(out);
    assert_eq!(secs, Some(u64::MAX - 15));
    assert_eq!(secs.unwrap() % 60, 0);
}

#[test]
fn every_parsed_uptime_is_a_whole_number_of_minutes() {
    let outputs = [
        " 12:34:56 up 2 days,  4:17,  1 user,  load average: 0.00, 0.01, 0.05",
        " 12:34:56 up 23 min,  1 user,  load average: 0.00, 0.01, 0.05",
        " 10:00:00 up 213503982334602 days,  1 user,  load average: 0.00, 0.00, 0.00",
        " 09:00:00 up 1 day, 99999999999999999 min,  1 user,  load average: 0, 0, 0",
    ];
    for out in outputs {
        assert_eq!(parse_uptime_to_seconds(out).unwrap() % 60, 0);
    }
}

#[test]
fn uptime_phrase_without_marker_is_rejected() {
    assert_eq!(parse_uptime_to_seconds("no marker here"), None);
}

#[test]
fn formatted_uptime_prefers_the_numeric_source() {
    let proc_text = Some(String::from("93784.88 123.40\n"));
    let cmd_text = Some(String::from(" 12:00:00 up 23 min,  1 user,  load average: 0, 0, 0"));
    assert_eq!(formatted_uptime(&proc_text, &cmd_text), "up 1 day, 2 hours, 3 minutes");
}

#[test]
fn formatted_uptime_falls_back_to_the_phrase() {
    let cmd_text = Some(String::from(" 12:00:00 up 23 min,  1 user,  load average: 0, 0, 0"));
    assert_eq!(formatted_uptime(&None, &cmd_text), "up 23 minutes");
    let garbled = Some(String::from("not a number"));
    assert_eq!(formatted_uptime(&garbled, &cmd_text), "up 23 minutes");
}

#[test]
fn formatted_uptime_without_any_source_is_sentinel() {
    assert_eq!(formatted_uptime(&None, &None), "N/A");
    assert_eq!(formatted_uptime(&Some(String::from("junk")), &Some(String::from("junk"))), "N/A");
}
