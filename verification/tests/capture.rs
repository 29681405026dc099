use a2tools_dps_meter::capture::device::{
    capture_goes_on, device_labels, is_en_name, manual_device, plan_capture, shown_device,
    CaptureDevice, CapturePlan, ReadOutcome,
};
use a2tools_dps_meter::capture::frame::{
    capture_time, parse_tcp_payload, LINK_ETHERNET, LINK_IPV4, LINK_LINUX_SLL, LINK_NULL, LINK_RAW,
};

/// An IPv4 packet with a TCP segment that carries `payload`.
fn packet(payload: &[u8]) -> Vec<u8> {
    let mut p = vec![
        0x45, 0, 0, 0, 0, 0, 0, 0, 64, 6, 0, 0, 10, 0, 255, 1, 192, 168, 100, 9,
    ];
    p.extend_from_slice(&[0x1f, 0x90, 0x00, 0x50]);
    p.extend_from_slice(&[0x01, 0x02, 0x03, 0x04, 0xff, 0xfe, 0xfd, 0xfc]);
    p.extend_from_slice(&[0x50, 0x18, 0, 0, 0, 0, 0, 0]);
    p.extend_from_slice(payload);
    p
}

fn framed(header: &[u8], payload: &[u8]) -> Vec<u8> {
    let mut frame = header.to_vec();
    frame.extend_from_slice(&packet(payload));
    frame
}

fn ethernet(kind: [u8; 2]) -> Vec<u8> {
    let mut header = vec![9; 12];
    header.extend_from_slice(&kind);
    header
}

fn cooked(kind: [u8; 2]) -> Vec<u8> {
    let mut header = vec![9; 14];
    header.extend_from_slice(&kind);
    header
}

#[test]
fn a_payload_is_taken_out_of_its_frame() {
    let frame = framed(&ethernet([8, 0]), b"hello");
    let payload = parse_tcp_payload(&frame, "Wi-Fi", LINK_ETHERNET, 77).expect("a payload");
    assert_eq!(payload.src_port, 8080);
    assert_eq!(payload.dst_port, 80);
    assert_eq!(payload.data, b"hello".to_vec());
    assert_eq!(payload.device_name.as_deref(), Some("Wi-Fi"));
    assert_eq!(payload.captured_at_ms, 77);
    assert_eq!(payload.src_ip.as_deref(), Some("10.0.255.1"));
    assert_eq!(payload.dst_ip.as_deref(), Some("192.168.100.9"));
    assert_eq!(payload.tcp_seq, 0x0102_0304);
    assert_eq!(payload.tcp_ack, 0xfffe_fdfc);
}

#[test]
fn link_types_tell_where_the_packet_begins() {
    let found = |frame: &[u8], link: i32| parse_tcp_payload(frame, "d", link, 0).is_some();
    assert!(found(&framed(&[2, 0, 0, 0], b"x"), LINK_NULL));
    assert!(found(&framed(&[7, 7, 7, 7], b"x"), LINK_NULL));
    assert!(found(&packet(b"x"), LINK_RAW));
    assert!(found(&packet(b"x"), LINK_IPV4));
    assert!(found(&framed(&cooked([8, 0]), b"x"), LINK_LINUX_SLL));
    assert!(!found(&framed(&cooked([0x86, 0xdd]), b"x"), LINK_LINUX_SLL));
    assert!(!found(&framed(&ethernet([0x86, 0xdd]), b"x"), LINK_ETHERNET));
    assert!(!found(&packet(b"x"), LINK_ETHERNET));
}

#[test]
fn unknown_link_types_are_guessed() {
    let found = |frame: &[u8]| parse_tcp_payload(frame, "d", 999, 0).is_some();
    assert!(found(&framed(&ethernet([8, 0]), b"x")));
    assert!(found(&framed(&[2, 0, 0, 0], b"x")));
    assert!(found(&packet(b"x")));
    assert!(!found(&framed(&[3, 0, 0, 0], b"x")));
}

#[test]
fn link_types_have_their_registered_numbers() {
    assert_eq!(LINK_NULL, 0);
    assert_eq!(LINK_ETHERNET, 1);
    assert_eq!(LINK_RAW, 101);
    assert_eq!(LINK_LINUX_SLL, 113);
    assert_eq!(LINK_IPV4, 228);
}

#[test]
fn what_is_no_tcp_payload_is_refused() {
    let refused = |frame: &[u8]| parse_tcp_payload(frame, "d", LINK_RAW, 0).is_none();
    assert!(refused(&[]));
    assert!(refused(&packet(b"")));
    assert!(refused(&packet(b"x")[..19]));
    assert!(refused(&packet(b"x")[..39]));
    let mut udp = packet(b"x");
    udp[9] = 17;
    assert!(refused(&udp));
    let mut six = packet(b"x");
    six[0] = 0x65;
    assert!(refused(&six));
    // The headers claim to be longer than the frame.
    let mut long_ip = packet(b"x");
    long_ip[0] = 0x4f;
    assert!(refused(&long_ip));
    let mut long_tcp = packet(b"x");
    long_tcp[32] = 0xf0;
    assert!(refused(&long_tcp));
}

#[test]
fn header_options_are_skipped() {
    let mut frame = packet(b"abcdefgh");
    frame[32] = 0x60;
    let payload = parse_tcp_payload(&frame, "d", LINK_RAW, 0).expect("a payload");
    assert_eq!(payload.data, b"efgh".to_vec());
}

#[test]
fn capture_times_are_believed_within_reason() {
    assert_eq!(capture_time(1_700_000_000, 123_999, 5), 1_700_000_000_123);
    assert_eq!(capture_time(1_000_000_000, 0, 5), 1_000_000_000_000);
    assert_eq!(capture_time(999_999_999, 999_999, 5), 5);
    assert_eq!(capture_time(1_999_999_999, 999_999, 5), 1_999_999_999_999);
    assert_eq!(capture_time(2_000_000_000, 0, 5), 5);
    assert_eq!(capture_time(0, 0, 5), 5);
    assert_eq!(capture_time(i64::MAX, 0, 5), 5);
    assert_eq!(capture_time(1_700_000_000, -1, 5), 1_700_000_000_000);
}

fn device(name: &str, desc: Option<&str>, has_address: bool) -> CaptureDevice {
    CaptureDevice {
        name: name.to_string(),
        desc: desc.map(|d| d.to_string()),
        has_address,
    }
}

#[test]
fn devices_are_labelled_by_description() {
    let devices = vec![
        device("en0", Some("Wi-Fi"), true),
        device("lo0", None, true),
        device("en1", None, true),
        device("en2", None, false),
        device("EN5", None, true),
        device("utun1", Some("en"), true),
    ];
    assert_eq!(device_labels(&devices), vec!["Wi-Fi", "en1", "EN5"]);
    assert!(device_labels(&Vec::new()).is_empty());
}

#[test]
fn capturing_starts_on_devices_in_use() {
    let devices = vec![
        device("lo0", None, true),
        device("en0", Some("Wi-Fi"), true),
        device("en2", None, false),
        device("en1", None, true),
    ];
    match plan_capture(false, Some(&devices)) {
        CapturePlan::Capture(places) => assert_eq!(places, vec![1, 3]),
        other => panic!("{other:?}"),
    }
    assert!(matches!(plan_capture(true, Some(&devices)), CapturePlan::Leave));
    assert!(matches!(plan_capture(true, None), CapturePlan::Leave));
    assert!(matches!(plan_capture(false, None), CapturePlan::GiveUp));
    let idle = vec![device("en2", None, false)];
    assert!(matches!(plan_capture(false, Some(&idle)), CapturePlan::GiveUp));
}

#[test]
fn the_names_that_begin_with_en_are_those_in_lower_case() {
    for c in (0..=0x10ffffu32).filter_map(char::from_u32) {
        let first = format!("{c}n");
        assert_eq!(is_en_name(&first), first.to_lowercase().starts_with("en"), "{c:?}");
        let second = format!("e{c}");
        assert_eq!(is_en_name(&second), second.to_lowercase().starts_with("en"), "{c:?}");
    }
    for text in ["", "e", "n", "ne0", "En", "eN1"] {
        assert_eq!(is_en_name(text), text.to_lowercase().starts_with("en"), "{text}");
    }
}

#[test]
fn the_device_in_use_is_shown() {
    let labels = vec!["Wi-Fi".to_string(), "Ethernet".to_string(), "EN7".to_string()];
    assert_eq!(shown_device(Some("utun3".to_string()), &labels), "utun3");
    assert_eq!(shown_device(None, &labels), "EN7");
    assert_eq!(shown_device(None, &Vec::new()), "en0");
}

#[test]
fn a_blank_choice_of_device_is_none() {
    assert_eq!(manual_device(" \t".to_string()), None);
    assert_eq!(manual_device(String::new()), None);
    assert_eq!(manual_device(" en0 ".to_string()), Some(" en0 ".to_string()));
}

#[test]
fn capturing_ends_on_a_failure_but_not_on_a_timeout() {
    assert!(capture_goes_on(true, None));
    assert!(capture_goes_on(true, Some(ReadOutcome::Frame)));
    assert!(capture_goes_on(true, Some(ReadOutcome::Timeout)));
    assert!(!capture_goes_on(true, Some(ReadOutcome::Failed)));
    assert!(!capture_goes_on(false, None));
    assert!(!capture_goes_on(false, Some(ReadOutcome::Frame)));
}
