use a2tools_dps_meter::clock::{epoch_ms, now_ms};
use a2tools_dps_meter::fields::{find_char, rfind_char, split, trim_chars, trim_end_char, trim_start_char};
use a2tools_dps_meter::maps::{copy_ids, keys_of};
use a2tools_dps_meter::numbers::{decimal_text, parse_i32, parse_i64, parse_usize};
use a2tools_dps_meter::text::{chars_of, same_text};
use a2tools_dps_meter::update::{
    download_file_name, install_directory, update_action, update_message, Download, UpdateAction,
};
use std::collections::{HashMap, HashSet};

fn chars(s: &str) -> Vec<char> {
    s.chars().collect()
}

#[test]
fn whitespace_is_trimmed_as_std_trims_it() {
    for c in (0..=0x10ffffu32).filter_map(char::from_u32) {
        let text = format!("{c}x{c}");
        let listed = chars(&text);
        let trimmed: String = trim_chars(&listed).iter().collect();
        assert_eq!(trimmed, text.trim(), "{c:?}");
        let listed_white_space = matches!(c,
            '\u{9}'..='\u{d}' | ' ' | '\u{85}' | '\u{a0}' | '\u{1680}' | '\u{2000}'..='\u{200a}'
            | '\u{2028}' | '\u{2029}' | '\u{202f}' | '\u{205f}' | '\u{3000}');
        assert_eq!(c.is_whitespace(), listed_white_space, "{c:?}");
    }
}

#[test]
fn texts_are_compared_and_listed() {
    assert!(same_text("九州", "九州"));
    assert!(!same_text("a", "A"));
    assert_eq!(chars_of("aé九"), vec!['a', 'é', '九']);
}

#[test]
fn numbers_are_read_as_std_reads_them() {
    for text in [
        "", "+", "-", "0", "-0", "+0", "007", "2147483647", "2147483648", "-2147483648",
        "-2147483649", "9223372036854775807", "9223372036854775808", "-9223372036854775808",
        "-9223372036854775809", "18446744073709551615", "18446744073709551616",
        "99999999999999999999999999", "1x", "x1", " 1", "1 ", "--1", "+-1", "1_000", "٣", "1.0",
    ] {
        let c = chars(text);
        assert_eq!(parse_i64(&c), text.parse::<i64>().ok(), "{text}");
        assert_eq!(parse_i32(&c), text.parse::<i32>().ok(), "{text}");
        assert_eq!(parse_usize(&c), text.parse::<usize>().ok(), "{text}");
    }
}

#[test]
fn numbers_are_written_as_std_writes_them() {
    for n in [0, 7, 10, 99, 100, -1, -10, 1234567890, i64::MAX, i64::MIN] {
        assert_eq!(decimal_text(n), n.to_string());
        assert_eq!(parse_i64(&chars(&decimal_text(n))), Some(n));
    }
}

#[test]
fn texts_are_split_at_separators() {
    for text in ["", "a", "a|b", "|", "a||b|", "|x"] {
        let c = chars(text);
        let parts: Vec<String> =
            split(&c, '|').iter().map(|&(from, to)| c[from..to].iter().collect()).collect();
        let expected: Vec<&str> = text.split('|').collect();
        assert_eq!(parts, expected, "{text}");
    }
}

#[test]
fn characters_are_found_from_both_ends() {
    let c = chars("a/b/c");
    assert_eq!(find_char(&c, '/'), 1);
    assert_eq!(find_char(&c, 'x'), 5);
    assert_eq!(rfind_char(&c, '/'), Some(3));
    assert_eq!(rfind_char(&c, 'x'), None);
    assert_eq!(trim_end_char(&chars("abZZ"), 'Z'), &['a', 'b'][..]);
    assert_eq!(trim_start_char(&chars("ZZabZ"), 'Z'), &['a', 'b', 'Z'][..]);
}

#[test]
fn maps_and_sets_are_walked_whole() {
    let mut map: HashMap<i32, &str> = HashMap::new();
    map.insert(3, "c");
    map.insert(1, "a");
    let mut keys = keys_of(&map);
    keys.sort();
    assert_eq!(keys, vec![1, 3]);
    let set: HashSet<i32> = [5, 6, 7].into_iter().collect();
    assert_eq!(copy_ids(&set), set);
}

#[test]
fn the_clock_counts_milliseconds_since_the_epoch() {
    let std_now = std::time::SystemTime::now()
        .duration_since(std::time::UNIX_EPOCH)
        .expect("a clock past the epoch")
        .as_millis() as i64;
    let now = now_ms();
    assert!(now >= std_now && now - std_now < 10_000, "{now} {std_now}");
}

#[test]
fn clock_readings_are_kept_to_64_bits() {
    assert_eq!(epoch_ms(None), 0);
    assert_eq!(epoch_ms(Some(0)), 0);
    assert_eq!(epoch_ms(Some(1_775_063_298_447)), 1_775_063_298_447);
    assert_eq!(epoch_ms(Some(i64::MAX as u128)), i64::MAX);
    assert_eq!(epoch_ms(Some(i64::MAX as u128 + 1)), i64::MIN);
    assert_eq!(epoch_ms(Some((1u128 << 64) + 5)), 5);
}

#[test]
fn an_update_is_offered() {
    assert_eq!(
        update_message("1.0", "1.1"),
        "A new update is available!\n\nCurrent: 1.0\nLatest: 1.1\n\nDownload and install now?"
    );
    assert_eq!(update_action(false, "https://x/y.msi"), UpdateAction::Nothing);
    assert_eq!(update_action(true, "https://x/y.msi"), UpdateAction::Install);
    assert_eq!(update_action(true, ""), UpdateAction::ShowReleases);
    assert_eq!(update_action(false, ""), UpdateAction::Nothing);
}

#[test]
fn downloads_are_named_after_their_url() {
    assert_eq!(download_file_name("https://x/y/meter.msi"), "meter.msi");
    assert_eq!(download_file_name("meter.msi"), "meter.msi");
    assert_eq!(download_file_name("https://x/"), "");
    assert_eq!(install_directory("C:\\Apps\\"), "C:\\Apps");
    assert_eq!(install_directory("C:\\Apps\\\\"), "C:\\Apps");
    assert_eq!(install_directory("C:\\Apps"), "C:\\Apps");
}

#[test]
fn progress_is_reported_when_it_changes() {
    let mut download = Download::new(1000);
    assert_eq!(download.advance(5), None);
    assert_eq!(download.advance(5), Some(1));
    assert_eq!(download.advance(9), None);
    assert_eq!(download.advance(481), Some(50));
    assert_eq!(download.advance(500), Some(100));
    assert_eq!(download.advance(500), None);
    assert_eq!(download.downloaded(), 1500);
}

#[test]
fn progress_of_unknown_length_is_not_reported() {
    let mut download = Download::new(0);
    assert_eq!(download.advance(500), None);
    assert_eq!(download.advance(u64::MAX - 500), None);
    let mut large = Download::new(u64::MAX);
    assert_eq!(large.advance(u64::MAX), Some(100));
}
