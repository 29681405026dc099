//! Finding the TCP payload in a captured frame.

use vstd::prelude::*;
use vstd::slice::slice_subrange;

use crate::numbers::{decimal, push_decimal, quotient};
use crate::text::optional_text;

verus! {

/// Link type of BSD loopback frames, which begin with a four-byte family.
pub const LINK_NULL: i32 = 0;

/// Link type of Ethernet frames.
pub const LINK_ETHERNET: i32 = 1;

/// Link type of frames that begin with the IP header.
pub const LINK_RAW: i32 = 101;

/// Link type of Linux "cooked" frames.
pub const LINK_LINUX_SLL: i32 = 113;

/// Link type of frames that begin with an IPv4 header.
pub const LINK_IPV4: i32 = 228;

/// Capture times from here on are believed, in epoch milliseconds.
pub const EARLIEST_CAPTURE_MS: i64 = 1_000_000_000_000;

/// Capture times from here on are no longer believed.
pub const LATEST_CAPTURE_MS: i64 = 2_000_000_000_000;

/// A TCP payload, with where it came from and when.
#[derive(Debug)]
pub struct CapturedPayload {
    pub src_port: u16,
    pub dst_port: u16,
    pub data: Vec<u8>,
    pub device_name: Option<String>,
    pub captured_at_ms: i64,
    pub src_ip: Option<String>,
    pub dst_ip: Option<String>,
    pub tcp_seq: u32,
    pub tcp_ack: u32,
}

/// The mathematical reading of a [`CapturedPayload`].
#[verifier::ext_equal]
pub struct PayloadState {
    pub src_port: int,
    pub dst_port: int,
    pub data: Seq<u8>,
    pub device_name: Option<Seq<char>>,
    pub captured_at_ms: int,
    pub src_ip: Option<Seq<char>>,
    pub dst_ip: Option<Seq<char>>,
    pub tcp_seq: int,
    pub tcp_ack: int,
}

impl View for CapturedPayload {
    type V = PayloadState;

    open spec fn view(&self) -> PayloadState {
        PayloadState {
            src_port: self.src_port as int,
            dst_port: self.dst_port as int,
            data: self.data@,
            device_name: optional_text(self.device_name),
            captured_at_ms: self.captured_at_ms as int,
            src_ip: optional_text(self.src_ip),
            dst_ip: optional_text(self.dst_ip),
            tcp_seq: self.tcp_seq as int,
            tcp_ack: self.tcp_ack as int,
        }
    }
}

/// Two bytes of a frame, the more significant first.
pub open spec fn be16(frame: Seq<u8>, at: int) -> int {
    256 * frame[at] + frame[at + 1]
}

/// Four bytes of a frame, the most significant first.
pub open spec fn be32(frame: Seq<u8>, at: int) -> int {
    0x1_0000 * be16(frame, at) + be16(frame, at + 2)
}

/// Four bytes of a frame as an IPv4 address.
pub open spec fn dotted(frame: Seq<u8>, at: int) -> Seq<char> {
    decimal(frame[at] as nat) + seq!['.'] + decimal(frame[at + 1] as nat) + seq!['.'] + decimal(
        frame[at + 2] as nat,
    ) + seq!['.'] + decimal(frame[at + 3] as nat)
}

/// Whether the protocol field at `at` says IPv4.
pub open spec fn says_ipv4(frame: Seq<u8>, at: int) -> bool {
    be16(frame, at) == 0x0800
}

/// Where the IP header of a frame begins, if it is an IPv4 frame by its link
/// type. A frame of a link type that is not known may look like Ethernet, like
/// loopback or like bare IP.
pub open spec fn ip_start(frame: Seq<u8>, linktype: i32) -> Option<int> {
    if linktype == LINK_ETHERNET {
        if says_ipv4(frame, 12) {
            Some(14)
        } else {
            None
        }
    } else if linktype == LINK_NULL {
        Some(4)
    } else if linktype == LINK_RAW || linktype == LINK_IPV4 {
        Some(0)
    } else if linktype == LINK_LINUX_SLL {
        if says_ipv4(frame, 14) {
            Some(16)
        } else {
            None
        }
    } else if says_ipv4(frame, 12) {
        Some(14)
    } else if frame[0] == 2 && frame[1] == 0 && frame[2] == 0 && frame[3] == 0 {
        Some(4)
    } else if frame[0] / 16 == 4 {
        Some(0)
    } else {
        None
    }
}

/// Where the TCP header of a frame begins whose IP header begins at `ip`.
pub open spec fn tcp_start(frame: Seq<u8>, ip: int) -> int {
    ip + 4 * (frame[ip] % 16)
}

/// Where the payload of a frame begins whose TCP header begins at `tcp`.
pub open spec fn payload_start(frame: Seq<u8>, tcp: int) -> int {
    tcp + 4 * (frame[tcp + 12] / 16)
}

/// Whether a frame whose IP header would begin at `ip` is TCP over IPv4 and
/// carries a payload.
pub open spec fn carries_tcp(frame: Seq<u8>, ip: int) -> bool {
    &&& frame.len() >= ip + 20
    &&& frame[ip] / 16 == 4
    &&& frame[ip + 9] == 6
    &&& frame.len() >= tcp_start(frame, ip) + 20
    &&& payload_start(frame, tcp_start(frame, ip)) < frame.len()
}

/// Whether a frame carries a TCP payload.
pub open spec fn has_payload(frame: Seq<u8>, linktype: i32) -> bool {
    &&& frame.len() >= 20
    &&& ip_start(frame, linktype) is Some
    &&& carries_tcp(frame, ip_start(frame, linktype)->0)
}

/// The TCP payload that a frame carries.
pub open spec fn payload_of(
    frame: Seq<u8>,
    linktype: i32,
    device_name: Seq<char>,
    captured_at_ms: int,
) -> PayloadState {
    let ip = ip_start(frame, linktype)->0;
    let tcp = tcp_start(frame, ip);
    PayloadState {
        src_port: be16(frame, tcp),
        dst_port: be16(frame, tcp + 2),
        data: frame.skip(payload_start(frame, tcp)),
        device_name: Some(device_name),
        captured_at_ms,
        src_ip: Some(dotted(frame, ip + 12)),
        dst_ip: Some(dotted(frame, ip + 16)),
        tcp_seq: be32(frame, tcp + 4),
        tcp_ack: be32(frame, tcp + 8),
    }
}

/// Two bytes of a frame, the more significant first.
fn read_be16(frame: &[u8], at: usize) -> (value: u16)
    requires
        at + 2 <= frame.len(),
    ensures
        value == be16(frame@, at as int),
{
    256 * (frame[at] as u16) + frame[at + 1] as u16
}

/// Four bytes of a frame, the most significant first.
fn read_be32(frame: &[u8], at: usize) -> (value: u32)
    requires
        at + 4 <= frame.len(),
    ensures
        value == be32(frame@, at as int),
{
    0x1_0000 * (read_be16(frame, at) as u32) + read_be16(frame, at + 2) as u32
}

/// Four bytes of a frame as an IPv4 address.
fn read_address(frame: &[u8], at: usize) -> (text: String)
    requires
        at + 4 <= frame.len(),
    ensures
        text@ == dotted(frame@, at as int),
{
    let mut text: String = String::new();
    push_decimal(&mut text, frame[at] as u64);
    text.push('.');
    push_decimal(&mut text, frame[at + 1] as u64);
    text.push('.');
    push_decimal(&mut text, frame[at + 2] as u64);
    text.push('.');
    push_decimal(&mut text, frame[at + 3] as u64);
    assert(text@ =~= dotted(frame@, at as int));
    text
}

/// Where the IP header of a frame begins.
fn find_ip(frame: &[u8], linktype: i32) -> (start: Option<usize>)
    requires
        frame@.len() >= 20,
    ensures
        match start {
            Some(ip) => ip_start(frame@, linktype) == Some(ip as int) && ip <= 16,
            None => ip_start(frame@, linktype) is None,
        },
{
    if linktype == LINK_ETHERNET {
        if read_be16(frame, 12) == 0x0800 {
            Some(14)
        } else {
            None
        }
    } else if linktype == LINK_NULL {
        Some(4)
    } else if linktype == LINK_RAW || linktype == LINK_IPV4 {
        Some(0)
    } else if linktype == LINK_LINUX_SLL {
        if read_be16(frame, 14) == 0x0800 {
            Some(16)
        } else {
            None
        }
    } else if read_be16(frame, 12) == 0x0800 {
        Some(14)
    } else if frame[0] == 2 && frame[1] == 0 && frame[2] == 0 && frame[3] == 0 {
        Some(4)
    } else if frame[0] / 16 == 4 {
        Some(0)
    } else {
        None
    }
}

/// A copy of the bytes of `s`.
fn bytes_of(s: &[u8]) -> (bytes: Vec<u8>)
    ensures
        bytes@ == s@,
{
    let mut bytes: Vec<u8> = Vec::new();
    bytes.extend_from_slice(s);
    assert(bytes@ =~= s@);
    bytes
}

/// Takes the TCP payload out of a captured frame, if it carries one.
pub fn parse_tcp_payload(
    frame: &[u8],
    device_name: &str,
    linktype: i32,
    captured_at_ms: i64,
) -> (payload: Option<CapturedPayload>)
    ensures
        payload is Some <==> has_payload(frame@, linktype),
        payload matches Some(payload) ==> payload@ == payload_of(
            frame@,
            linktype,
            device_name@,
            captured_at_ms as int,
        ),
{
    let len: usize = frame.len();
    if len < 20 {
        return None;
    }
    let ip: usize = match find_ip(frame, linktype) {
        Some(ip) => ip,
        None => {
            return None;
        },
    };
    if len < ip + 20 {
        return None;
    }
    if frame[ip] / 16 != 4 || frame[ip + 9] != 6 {
        return None;
    }
    let tcp: usize = ip + 4 * ((frame[ip] % 16) as usize);
    if len < tcp + 20 {
        return None;
    }
    let start: usize = tcp + 4 * ((frame[tcp + 12] / 16) as usize);
    if start >= len {
        return None;
    }
    assert(frame@.subrange(start as int, len as int) =~= frame@.skip(start as int));
    let payload = CapturedPayload {
        src_port: read_be16(frame, tcp),
        dst_port: read_be16(frame, tcp + 2),
        data: bytes_of(slice_subrange(frame, start, len)),
        device_name: Some(device_name.to_owned()),
        captured_at_ms,
        src_ip: Some(read_address(frame, ip + 12)),
        dst_ip: Some(read_address(frame, ip + 16)),
        tcp_seq: read_be32(frame, tcp + 4),
        tcp_ack: read_be32(frame, tcp + 8),
    };
    Some(payload)
}

/// A payload is never empty, and is the end of its frame.
pub proof fn law_payload_ends_the_frame(
    frame: Seq<u8>,
    linktype: i32,
    device_name: Seq<char>,
    captured_at_ms: int,
)
    requires
        has_payload(frame, linktype),
    ensures
        ({
            let data = payload_of(frame, linktype, device_name, captured_at_ms).data;
            &&& 0 < data.len() <= frame.len()
            &&& data == frame.skip(frame.len() - data.len())
        }),
{
}

/// Whether `link` is the link header of an IPv4 frame of the link type, whose IP header
/// is `ip`. A link type that is not known leaves it to the bytes: an Ethernet header, a
/// loopback family, or none, which is told from the others by the IP version unless the
/// source address reads like the protocol field of an Ethernet header.
pub open spec fn is_link_header(link: Seq<u8>, ip: Seq<u8>, linktype: i32) -> bool {
    let ethernet = link.len() == 14 && link[12] == 8 && link[13] == 0;
    if linktype == 1 {
        ethernet
    } else if linktype == 0 {
        link.len() == 4
    } else if linktype == 101 || linktype == 228 {
        link.len() == 0
    } else if linktype == 113 {
        link.len() == 16 && link[14] == 8 && link[15] == 0
    } else {
        ||| ethernet
        ||| link == seq![2u8, 0u8, 0u8, 0u8]
        ||| link.len() == 0 && !(ip[12] == 8 && ip[13] == 0)
    }
}

/// Whether `ip` is the header of an IPv4 packet that carries TCP.
pub open spec fn is_ip_header(ip: Seq<u8>) -> bool {
    &&& 20 <= ip.len() <= 60
    &&& ip.len() % 4 == 0
    &&& ip[0] == 64 + ip.len() / 4
    &&& ip[9] == 6
}

/// Whether `tcp` is a TCP header.
pub open spec fn is_tcp_header(tcp: Seq<u8>) -> bool {
    &&& 20 <= tcp.len() <= 60
    &&& tcp.len() % 4 == 0
    &&& tcp[12] as int / 16 == tcp.len() / 4
}

/// Of a frame put together from a link header, an IP header, a TCP header and a payload,
/// options and all, exactly the payload is taken out, with the ports, the numbers and
/// the addresses that stand in the headers.
pub proof fn law_payload_is_what_follows_the_headers(
    link: Seq<u8>,
    ip: Seq<u8>,
    tcp: Seq<u8>,
    payload: Seq<u8>,
    linktype: i32,
    device_name: Seq<char>,
    captured_at_ms: int,
)
    requires
        is_ip_header(ip),
        is_tcp_header(tcp),
        is_link_header(link, ip, linktype),
        payload.len() > 0,
    ensures
        ({
            let frame = link + ip + tcp + payload;
            let p = payload_of(frame, linktype, device_name, captured_at_ms);
            &&& has_payload(frame, linktype)
            &&& p.data == payload
            &&& p.src_port == 0x100 * tcp[0] + tcp[1]
            &&& p.dst_port == 0x100 * tcp[2] + tcp[3]
            &&& p.tcp_seq == 0x100_0000 * tcp[4] + 0x1_0000 * tcp[5] + 0x100 * tcp[6] + tcp[7]
            &&& p.tcp_ack == 0x100_0000 * tcp[8] + 0x1_0000 * tcp[9] + 0x100 * tcp[10] + tcp[11]
            &&& p.src_ip == Some(
                decimal(ip[12] as nat) + seq!['.'] + decimal(ip[13] as nat) + seq!['.'] + decimal(
                    ip[14] as nat,
                ) + seq!['.'] + decimal(ip[15] as nat),
            )
            &&& p.dst_ip == Some(
                decimal(ip[16] as nat) + seq!['.'] + decimal(ip[17] as nat) + seq!['.'] + decimal(
                    ip[18] as nat,
                ) + seq!['.'] + decimal(ip[19] as nat),
            )
            &&& p.device_name == Some(device_name)
            &&& p.captured_at_ms == captured_at_ms
        }),
{
    let frame = link + ip + tcp + payload;
    let at = link.len() as int;
    let behind = at + ip.len();
    assert forall|i: int| 0 <= i < link.len() implies frame[i] == link[i] by {}
    assert forall|i: int| 0 <= i < ip.len() implies frame[at + i] == ip[i] by {}
    assert forall|i: int| 0 <= i < tcp.len() implies frame[behind + i] == tcp[i] by {}
    assert(frame[at] == ip[0]);
    assert(frame[at + 9] == ip[9]);
    assert(frame[at + 12] == ip[12] && frame[at + 13] == ip[13]);
    assert(ip_start(frame, linktype) == Some(at));
    assert(tcp_start(frame, at) == behind);
    assert(frame[behind + 12] == tcp[12]);
    assert(payload_start(frame, behind) == behind + tcp.len());
    assert(frame.skip(behind + tcp.len()) =~= payload);
}

/// The headers are taken at their word: how long the IP header is stands in its first
/// byte, how long the TCP header is in its thirteenth, and a payload is there if anything
/// stands behind both, with room for a header of the least length at either place.
pub proof fn law_headers_are_taken_at_their_word(
    frame: Seq<u8>,
    linktype: i32,
    ip: int,
    device_name: Seq<char>,
    captured_at_ms: int,
)
    requires
        frame.len() >= 20,
        ip_start(frame, linktype) == Some(ip),
        0 <= ip,
    ensures
        ({
            let tcp = ip + 4 * (frame[ip] - 64);
            let data = tcp + 4 * (frame[tcp + 12] as int / 16);
            &&& has_payload(frame, linktype) <==> {
                &&& frame.len() >= ip + 20
                &&& 64 <= frame[ip] <= 79
                &&& frame[ip + 9] == 6
                &&& frame.len() >= tcp + 20
                &&& frame.len() > data
            }
            &&& has_payload(frame, linktype) ==> payload_of(
                frame,
                linktype,
                device_name,
                captured_at_ms,
            ).data == frame.skip(data)
        }),
{
}

/// A frame of a link type that is not known carries nothing if it neither has the
/// protocol field of an Ethernet header, nor begins with a loopback family, nor with an
/// IP version of four; the first of these that it has decides where its packet begins.
pub proof fn law_unknown_links_are_told_by_their_bytes(frame: Seq<u8>, linktype: i32)
    requires
        frame.len() >= 20,
        linktype != 0 && linktype != 1 && linktype != 101 && linktype != 113 && linktype != 228,
    ensures
        ({
            let ethernet = frame[12] == 8 && frame[13] == 0;
            let loopback = frame.take(4) == seq![2u8, 0u8, 0u8, 0u8];
            let bare = 64 <= frame[0] <= 79;
            &&& ethernet ==> ip_start(frame, linktype) == Some(14int)
            &&& !ethernet && loopback ==> ip_start(frame, linktype) == Some(4int)
            &&& !ethernet && !loopback && bare ==> ip_start(frame, linktype) == Some(0int)
            &&& !ethernet && !loopback && !bare ==> !has_payload(frame, linktype)
        }),
{
    let head = frame.take(4);
    assert(head[0] == frame[0] && head[1] == frame[1] && head[2] == frame[2] && head[3]
        == frame[3]);
    if frame[0] == 2 && frame[1] == 0 && frame[2] == 0 && frame[3] == 0 {
        assert(head =~= seq![2u8, 0u8, 0u8, 0u8]);
    }
}

/// A frame without a payload behind its headers carries none, and so does one whose
/// packet is of another IP version or carries another protocol, one that is too short
/// for an IP header, and an Ethernet or cooked frame of another protocol.
pub proof fn law_other_frames_carry_nothing(
    link: Seq<u8>,
    ip: Seq<u8>,
    rest: Seq<u8>,
    linktype: i32,
)
    requires
        linktype == 1 ==> link.len() == 14,
        linktype == 0 ==> link.len() == 4,
        linktype == 101 || linktype == 228 ==> link.len() == 0,
        linktype == 113 ==> link.len() == 16,
        linktype == 0 || linktype == 1 || linktype == 101 || linktype == 113 || linktype == 228,
        ip.len() >= 20,
    ensures
        ({
            let frame = link + ip + rest;
            &&& is_ip_header(ip) && is_tcp_header(rest) ==> !has_payload(frame, linktype)
            &&& ip[0] < 64 || ip[0] >= 80 ==> !has_payload(frame, linktype)
            &&& ip[9] != 6 ==> !has_payload(frame, linktype)
            &&& is_ip_header(ip) && rest.len() < 20 ==> !has_payload(frame, linktype)
            &&& linktype == 1 && !(link[12] == 8 && link[13] == 0) ==> !has_payload(
                frame,
                linktype,
            )
            &&& linktype == 113 && !(link[14] == 8 && link[15] == 0) ==> !has_payload(
                frame,
                linktype,
            )
            &&& forall|n: int|
                0 <= n < link.len() + 20 ==> !has_payload(#[trigger] frame.take(n), linktype)
        }),
{
    let frame = link + ip + rest;
    let at = link.len() as int;
    assert forall|i: int| 0 <= i < link.len() implies frame[i] == link[i] by {}
    assert forall|i: int| 0 <= i < ip.len() implies frame[at + i] == ip[i] by {}
    assert(frame[at] == ip[0]);
    assert(frame[at + 9] == ip[9]);
    if is_ip_header(ip) {
        assert(tcp_start(frame, at) == at + ip.len());
        if is_tcp_header(rest) {
            assert(frame[at + ip.len() + 12] == rest[12]);
        }
    }
}

/// The time that a frame's header gives, in epoch milliseconds.
pub open spec fn header_millis(seconds: int, micros: int) -> int {
    seconds * 1000 + quotient(micros, 1000)
}

/// When a frame was captured: by its header, if that gives a time that can be
/// believed, else by the clock.
pub open spec fn captured_at(seconds: int, micros: int, now: int) -> int {
    let by_header = header_millis(seconds, micros);
    if EARLIEST_CAPTURE_MS <= by_header < LATEST_CAPTURE_MS {
        by_header
    } else {
        now
    }
}

/// A frame was captured at the time its header gives, down to the whole millisecond, if
/// that lies between the years 2001 and 2033, and at the clock's time otherwise.
pub proof fn law_capture_time_is_the_headers(seconds: int, micros: int, now: int)
    requires
        0 <= micros < 1_000_000,
    ensures
        header_millis(seconds + 1, micros) == header_millis(seconds, micros) + 1000,
        header_millis(0, micros) == micros / 1000,
        header_millis(0, -micros) == -(micros / 1000),
        header_millis(seconds, micros + 1_000_000) == header_millis(seconds + 1, micros),
        ({
            let at = captured_at(seconds, micros, now);
            let exact = 1_000_000 * seconds + micros;
            &&& 1_000_000_000 <= seconds < 2_000_000_000 ==> 1000 * at <= exact < 1000 * at + 1000
            &&& seconds < 1_000_000_000 || seconds >= 2_000_000_000 ==> at == now
        }),
{
}

/// When a frame was captured: by its header, if that gives a time that can be
/// believed, else by the clock.
pub fn capture_time(seconds: i64, micros: i64, now: i64) -> (millis: i64)
    ensures
        millis == captured_at(seconds as int, micros as int, now as int),
{
    let micros: i128 = micros as i128;
    let millis: i128 = seconds as i128 * 1000 + if micros >= 0 {
        micros / 1000
    } else {
        -((-micros) / 1000)
    };
    if EARLIEST_CAPTURE_MS as i128 <= millis && millis < LATEST_CAPTURE_MS as i128 {
        millis as i64
    } else {
        now
    }
}

} // verus!
