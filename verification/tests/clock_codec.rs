use azk::clock::{_hhmmss_distance, hhmmss_to_s, s_to_hhmm, s_to_hhmmss};
use azk::error::TrackError;

#[test]
fn nine_o_clock_is_32400_seconds() {
    assert_eq!(hhmmss_to_s("09:00:00"), Ok(32400));
}

#[test]
fn parts_are_weighted_by_3600_60_and_1() {
    assert_eq!(hhmmss_to_s("01:02:03"), Ok(3723));
    assert_eq!(hhmmss_to_s("23:59:59"), Ok(86399));
    assert_eq!(hhmmss_to_s("00:00:00"), Ok(0));
}

#[test]
fn every_second_of_the_day_reads_back() {
    let mut t: i64 = 0;
    while t < 86400 {
        let text = s_to_hhmmss(t as i128);
        assert_eq!(text.len(), 8);
        assert_eq!(hhmmss_to_s(&text), Ok(t));
        t += 1;
    }
}

#[test]
fn every_hour_minute_and_second_reads_back() {
    for h in 0..24i64 {
        for m in 0..60i64 {
            for s in [0i64, 1, 9, 10, 59] {
                let text = format!("{:02}:{:02}:{:02}", h, m, s);
                assert_eq!(hhmmss_to_s(&text), Ok(h * 3600 + m * 60 + s));
            }
        }
    }
}

#[test]
fn magnitudes_are_not_checked() {
    assert_eq!(hhmmss_to_s("25:00:00"), Ok(90000));
    assert_eq!(hhmmss_to_s("00:90:00"), Ok(5400));
    assert_eq!(hhmmss_to_s("00:00:75"), Ok(75));
    assert_eq!(hhmmss_to_s("100:100:100"), Ok(366100));
}

#[test]
fn parts_need_not_be_two_digits_wide() {
    assert_eq!(hhmmss_to_s("9:0:0"), Ok(32400));
    assert_eq!(hhmmss_to_s("0009:000:00000"), Ok(32400));
}

#[test]
fn a_plus_sign_may_lead_a_part() {
    assert_eq!(hhmmss_to_s("+9:+0:+5"), Ok(32405));
}

#[test]
fn two_parts_are_malformed() {
    assert_eq!(hhmmss_to_s("9:60"), Err(TrackError::MalformedTime));
}

#[test]
fn four_parts_are_malformed() {
    assert_eq!(hhmmss_to_s("1:2:3:4"), Err(TrackError::MalformedTime));
}

#[test]
fn empty_text_and_empty_parts_are_malformed() {
    assert_eq!(hhmmss_to_s(""), Err(TrackError::MalformedTime));
    assert_eq!(hhmmss_to_s("::"), Err(TrackError::MalformedTime));
    assert_eq!(hhmmss_to_s("09::00"), Err(TrackError::MalformedTime));
    assert_eq!(hhmmss_to_s(":00:00"), Err(TrackError::MalformedTime));
    assert_eq!(hhmmss_to_s("09:00:"), Err(TrackError::MalformedTime));
    assert_eq!(hhmmss_to_s("+:00:00"), Err(TrackError::MalformedTime));
}

#[test]
fn parts_that_are_not_numbers_are_malformed() {
    assert_eq!(hhmmss_to_s("aa:00:00"), Err(TrackError::MalformedTime));
    assert_eq!(hhmmss_to_s("09:0x:00"), Err(TrackError::MalformedTime));
    assert_eq!(hhmmss_to_s("09:00:00 "), Err(TrackError::MalformedTime));
    assert_eq!(hhmmss_to_s(" 09:00:00"), Err(TrackError::MalformedTime));
    assert_eq!(hhmmss_to_s("09:00:0.5"), Err(TrackError::MalformedTime));
    assert_eq!(hhmmss_to_s("09:++1:00"), Err(TrackError::MalformedTime));
    assert_eq!(hhmmss_to_s("09:1+:00"), Err(TrackError::MalformedTime));
}

#[test]
fn a_minus_sign_is_malformed() {
    assert_eq!(hhmmss_to_s("-1:00:00"), Err(TrackError::MalformedTime));
    assert_eq!(hhmmss_to_s("01:-1:00"), Err(TrackError::MalformedTime));
}

#[test]
fn digits_outside_ascii_are_malformed() {
    assert_eq!(hhmmss_to_s("٠٩:٠٠:٠٠"), Err(TrackError::MalformedTime));
    assert_eq!(hhmmss_to_s("09:00:0é"), Err(TrackError::MalformedTime));
}

#[test]
fn the_largest_second_count_is_read() {
    assert_eq!(hhmmss_to_s("0:0:9223372036854775807"), Ok(i64::MAX));
    assert_eq!(hhmmss_to_s("2562047788015215:30:7"), Ok(i64::MAX));
}

#[test]
fn values_beyond_64_bits_are_malformed() {
    assert_eq!(hhmmss_to_s("0:0:9223372036854775808"), Err(TrackError::MalformedTime));
    assert_eq!(hhmmss_to_s("2562047788015215:30:8"), Err(TrackError::MalformedTime));
    assert_eq!(hhmmss_to_s("9223372036854775807:0:0"), Err(TrackError::MalformedTime));
    assert_eq!(
        hhmmss_to_s("0:0:99999999999999999999999999999999999999999"),
        Err(TrackError::MalformedTime)
    );
}

#[test]
fn hours_and_minutes_are_written_two_wide() {
    assert_eq!(s_to_hhmm(0), "00:00");
    assert_eq!(s_to_hhmm(32400), "09:00");
    assert_eq!(s_to_hhmm(28800), "08:00");
    assert_eq!(s_to_hhmm(61200), "17:00");
    assert_eq!(s_to_hhmm(86399), "23:59");
    assert_eq!(s_to_hhmm(3723), "01:02");
}

#[test]
fn hours_beyond_two_digits_are_written_in_full() {
    assert_eq!(s_to_hhmm(360000), "100:00");
    assert_eq!(s_to_hhmm(i64::MAX as i128), "2562047788015215:30");
}

#[test]
fn seconds_within_a_minute_are_written_alike() {
    assert_eq!(s_to_hhmm(3600), s_to_hhmm(3659));
    assert_eq!(s_to_hhmm(32400), s_to_hhmm(32459));
    assert_ne!(s_to_hhmm(3659), s_to_hhmm(3660));
    for s in 0..60i128 {
        assert_eq!(s_to_hhmm(7 * 3600 + 5 * 60 + s), "07:05");
    }
}

#[test]
fn seconds_below_zero_round_toward_zero() {
    assert_eq!(s_to_hhmm(-32400), "-9:00");
    assert_eq!(s_to_hhmm(-60), "00:-1");
    assert_eq!(s_to_hhmm(-59), "00:00");
    assert_eq!(s_to_hhmm(-3599), "00:-59");
    assert_eq!(s_to_hhmm(-3661), "-1:-1");
    assert_eq!(s_to_hhmm(-36000), "-10:00");
}

#[test]
fn formatting_matches_the_standard_two_wide_form() {
    for s in [-100000i128, -86400, -3601, -3600, -61, -1, 0, 1, 59, 60, 599, 600, 3599, 3600, 45296, 1000000] {
        let expected = format!("{:02}:{:02}", s / 3600, (s % 3600) / 60);
        assert_eq!(s_to_hhmm(s), expected);
        let long = format!("{:02}:{:02}:{:02}", s / 3600, (s % 3600) / 60, s % 60);
        assert_eq!(s_to_hhmmss(s), long);
    }
}

#[test]
fn the_widest_seconds_are_written() {
    let most = format!("{:02}:{:02}", i128::MAX / 3600, (i128::MAX % 3600) / 60);
    assert_eq!(s_to_hhmm(i128::MAX), most);
    let least = format!("{:02}:{:02}", i128::MIN / 3600, (i128::MIN % 3600) / 60);
    assert_eq!(s_to_hhmm(i128::MIN), least);
}

#[test]
fn full_times_are_written_with_seconds() {
    assert_eq!(s_to_hhmmss(0), "00:00:00");
    assert_eq!(s_to_hhmmss(32400), "09:00:00");
    assert_eq!(s_to_hhmmss(86399), "23:59:59");
    assert_eq!(s_to_hhmmss(3723), "01:02:03");
}

#[test]
fn distance_is_the_same_both_ways() {
    assert_eq!(_hhmmss_distance("09:00:00", "17:00:00"), Ok("08:00".to_string()));
    assert_eq!(_hhmmss_distance("17:00:00", "09:00:00"), Ok("08:00".to_string()));
    assert_eq!(_hhmmss_distance("09:00:00", "09:00:00"), Ok("00:00".to_string()));
    assert_eq!(_hhmmss_distance("09:15:30", "10:45:10"), Ok("01:29".to_string()));
}

#[test]
fn distance_needs_two_well_formed_times() {
    assert_eq!(_hhmmss_distance("9:60", "17:00:00"), Err(TrackError::MalformedTime));
    assert_eq!(_hhmmss_distance("09:00:00", "later"), Err(TrackError::MalformedTime));
    assert_eq!(_hhmmss_distance("", ""), Err(TrackError::MalformedTime));
}

#[test]
fn each_error_has_its_message() {
    assert_eq!(TrackError::MalformedTime.message(), "couldn't parse the time");
    assert_eq!(TrackError::CorruptRecord.message(), "couldn't read a record of the log");
    assert_eq!(TrackError::Io.message(), "couldn't reach the log");
}
