use a2tools_dps_meter::dot_skills::{dot_skill_ids, id_set};
use a2tools_dps_meter::replay::calendar::days_from_civil;
use a2tools_dps_meter::replay::log::{decode_replay_hex, read_log};
use a2tools_dps_meter::replay::report::{packet_count, replay_report};
use a2tools_dps_meter::replay::timestamp::{is_time_in_range, parse_replay_timestamp};

#[test]
fn days_are_counted_from_the_epoch() {
    assert_eq!(days_from_civil(1970, 1, 1), 0);
    assert_eq!(days_from_civil(1969, 12, 31), -1);
    assert_eq!(days_from_civil(2000, 2, 29), 11_016);
    assert_eq!(days_from_civil(2000, 3, 1), 11_017);
    assert_eq!(days_from_civil(2026, 4, 1), 20_544);
    assert_eq!(days_from_civil(0, 3, 1), -719_468);
    assert_eq!(days_from_civil(-400, 3, 1), -719_468 - 146_097);
}

#[test]
fn days_run_through_four_centuries() {
    let lengths = [31, 28, 31, 30, 31, 30, 31, 31, 30, 31, 30, 31];
    let mut expected = days_from_civil(1800, 1, 1);
    for year in 1800..2201i64 {
        for month in 1..13i64 {
            let leap = year % 4 == 0 && (year % 100 != 0 || year % 400 == 0);
            let length = lengths[month as usize - 1] + if month == 2 && leap { 1 } else { 0 };
            assert_eq!(days_from_civil(year, month, 1), expected);
            expected += length;
        }
    }
}

#[test]
fn months_out_of_range_are_counted_on() {
    // The year that begins in March has the month after December as its eleventh.
    assert_eq!(days_from_civil(2025, 13, 1), days_from_civil(2026, 1, 1));
    assert_eq!(days_from_civil(2026, 0, 1), days_from_civil(2025, 12, 1) );
    assert_eq!(days_from_civil(2026, 1, 32), days_from_civil(2026, 2, 1));
    assert_eq!(days_from_civil(1970, -20, 1), -719_468 + 365 * 1969 + 492 - 19 + 4 - 336);
}

#[test]
fn plain_numbers_are_milliseconds() {
    assert_eq!(parse_replay_timestamp("1775063298447"), Some(1_775_063_298_447));
    assert_eq!(parse_replay_timestamp("-5"), Some(-5));
    assert_eq!(parse_replay_timestamp("+5"), Some(5));
    assert_eq!(parse_replay_timestamp("9223372036854775807"), Some(i64::MAX));
    assert_eq!(parse_replay_timestamp("9223372036854775808"), None);
}

#[test]
fn dates_are_read_with_their_zone() {
    assert_eq!(parse_replay_timestamp("1970-01-01T00:00:00Z"), Some(0));
    assert_eq!(parse_replay_timestamp("1970-01-01T00:00:00"), Some(0));
    assert_eq!(parse_replay_timestamp("1970-01-01T00:00:00ZZ"), Some(0));
    assert_eq!(
        parse_replay_timestamp("2026-04-01T14:08:18.447814200-03:00"),
        Some(20_544 * 86_400_000 + (17 * 3600 + 8 * 60 + 18) * 1000 + 447)
    );
    assert_eq!(
        parse_replay_timestamp("2026-04-01T14:08:18.447+05:30"),
        Some(20_544 * 86_400_000 + (14 * 3600 + 8 * 60 + 18) * 1000 + 447 - 330 * 60_000)
    );
    assert_eq!(parse_replay_timestamp("1970-01-01T00:00:00+01"), Some(-3_600_000));
    assert_eq!(parse_replay_timestamp("1970-01-01T00:00:00+01:xx"), Some(-3_600_000));
    assert_eq!(parse_replay_timestamp("1970-01-01T00:00:00+xx:00"), None);
}

#[test]
fn fractions_are_cut_to_milliseconds() {
    assert_eq!(parse_replay_timestamp("1970-01-01T00:00:00.5"), Some(500));
    assert_eq!(parse_replay_timestamp("1970-01-01T00:00:00.25"), Some(250));
    assert_eq!(parse_replay_timestamp("1970-01-01T00:00:00.125"), Some(125));
    assert_eq!(parse_replay_timestamp("1970-01-01T00:00:00.1259"), Some(125));
    assert_eq!(parse_replay_timestamp("1970-01-01T00:00:00."), None);
    assert_eq!(parse_replay_timestamp("1970-01-01T00:00:00.x"), None);
    assert_eq!(parse_replay_timestamp("1970-01-01T00:00:01.5.7"), Some(1_500));
}

#[test]
fn what_is_no_time_is_refused() {
    for text in [
        "",
        "yesterday",
        "1970-01-01",
        "1970-01-01 00:00:00",
        "1970-01T00:00:00",
        "1970-01-01-01T00:00:00",
        "1970-xx-01T00:00:00",
        "1970-01-01T00:00",
        "1970-01-01T0x:00:00",
        "1970-01-01T00:00:xx",
    ] {
        assert_eq!(parse_replay_timestamp(text), None, "{text}");
    }
    // A sign before the seconds is no zone.
    assert_eq!(parse_replay_timestamp("1970-01-01T0:0:+5"), Some(5_000));
    assert_eq!(parse_replay_timestamp("1970-01-01T0:0:-5"), Some(-5_000));
}

#[test]
fn times_that_do_not_fit_are_told() {
    assert!(is_time_in_range("1970-01-01T00:00:00Z"));
    assert!(is_time_in_range("no time at all"));
    assert!(is_time_in_range("292278994-08-17T07:12:55.807Z"));
    assert_eq!(parse_replay_timestamp("292278994-08-17T07:12:55.807Z"), Some(i64::MAX));
    assert!(!is_time_in_range("292278994-08-17T07:12:55.808Z"));
    assert!(!is_time_in_range("9223372036854775807-01-01T00:00:00Z"));
}

#[test]
fn hexadecimal_payloads_are_decoded() {
    assert_eq!(decode_replay_hex("00ff1A"), Some(vec![0, 255, 26]));
    assert_eq!(decode_replay_hex(" de ad\tBE\u{a0}EF "), Some(vec![0xde, 0xad, 0xbe, 0xef]));
    assert_eq!(decode_replay_hex("d ea d"), Some(vec![0xde, 0xad]));
    assert_eq!(decode_replay_hex(""), Some(Vec::new()));
    assert_eq!(decode_replay_hex("abc"), None);
    assert_eq!(decode_replay_hex("zz"), None);
    assert_eq!(decode_replay_hex("é"), None);
    assert_eq!(decode_replay_hex("éé"), None);
    for (text, byte) in [("/0", None), (":0", None), ("@0", None), ("G0", None), ("`0", None), ("g0", None)] {
        assert_eq!(decode_replay_hex(text), byte);
    }
}

#[test]
fn every_byte_has_its_two_digits() {
    for byte in 0..256u32 {
        let text = format!("{byte:02x}{byte:02X}");
        assert_eq!(decode_replay_hex(&text), Some(vec![byte as u8, byte as u8]));
    }
}

#[test]
fn a_log_is_read_row_by_row() {
    let text = "\u{feff}\u{feff}# recorded by hand\n\n  1000 |a:1| 01 02\r\n2000|b|zz\nnot a row|x\nlater|c|03|04\n 3000|d|05";
    let steps = read_log(text).expect("all times fit");
    assert_eq!(steps.len(), 4);
    assert_eq!(steps[0].timestamp, Some(1000));
    assert_eq!(steps[0].packet, Some(vec![1, 2]));
    // The time holds from here on even though the payload is unreadable.
    assert_eq!(steps[1].timestamp, Some(2000));
    assert_eq!(steps[1].packet, None);
    // The third field keeps further separators, which are no digits.
    assert_eq!(steps[2].timestamp, None);
    assert_eq!(steps[2].packet, None);
    assert_eq!(steps[3].timestamp, Some(3000));
    assert_eq!(steps[3].packet, Some(vec![5]));
    assert_eq!(packet_count(&steps), 2);
}

#[test]
fn an_empty_log_asks_for_nothing() {
    assert_eq!(read_log("").expect("fits").len(), 0);
    assert_eq!(read_log("\u{feff}").expect("fits").len(), 0);
    assert_eq!(read_log("#a|b|c\n  \n").expect("fits").len(), 0);
    let steps = read_log("||").expect("fits");
    assert_eq!(steps.len(), 1);
    assert_eq!(steps[0].packet, Some(Vec::new()));
}

#[test]
fn a_log_with_a_time_out_of_range_is_told() {
    assert!(read_log("1|a|00\n9223372036854775807-01-01T00:00:00Z|a|00").is_none());
    assert!(read_log("# 9223372036854775807-01-01T00:00:00Z|a|00").is_some());
}

#[test]
fn a_replay_is_reported() {
    assert_eq!(replay_report(0, 0), "Replay complete. 0 packets, 0 damage events.");
    assert_eq!(replay_report(1234, -1), "Replay complete. 1234 packets, -1 damage events.");
}

#[test]
fn skill_ids_come_from_a_json_list() {
    let ids = dot_skill_ids("[11000001, 11000002, 11000001]");
    assert_eq!(ids.len(), 2);
    assert!(ids.contains(&11_000_001));
    assert!(ids.contains(&11_000_002));
    assert!(dot_skill_ids("[]").is_empty());
    assert!(dot_skill_ids("{}").is_empty());
    assert!(dot_skill_ids("[1, \"x\"]").is_empty());
    assert!(dot_skill_ids("[3000000000]").is_empty());
}

#[test]
fn a_missing_list_holds_no_ids() {
    assert!(id_set(None).is_empty());
    assert_eq!(id_set(Some(vec![5, 5, 6])).len(), 2);
}
