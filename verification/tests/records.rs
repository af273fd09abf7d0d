//! Records, the sink, addresses, frames and text forms.
use tapgres::addr::{parse_ip, parse_socket, IpAddr, SocketAddr};
use tapgres::filter::DisplayFilter;
use tapgres::flow::Role;
use tapgres::net::{parse_frame, TcpSegment};
use tapgres::output::{
    channel, close_output, deliver, dropped_count, dropped_notice, emit_line, out,
    recording_stopped, replay, route, set_output, start_capture, status, take_capture,
    take_output_capture, ts, warn, Delivery, Output, Sink, Stream,
};
use tapgres::render::{format_bytes, format_oids, hex_preview, quote};
use tapgres::text::{parse_unsigned, trimmed};

#[test]
fn records_go_to_the_capture_then_the_channel_then_the_terminal() {
    let mut sink = Sink::new();
    assert!(matches!(out(&mut sink, "a".into()), Delivery::Print(Output::Line(s)) if s == "a"));
    let (tx, rx) = channel();
    set_output(&mut sink, tx);
    assert!(matches!(status(&mut sink, "b".into()), Delivery::Sent));
    start_capture(&mut sink);
    assert!(matches!(replay(&mut sink, Output::Line("c".into())), Delivery::Captured));
    status(&mut sink, "d".into());
    assert_eq!(take_capture(&mut sink), vec!["c"]);
    assert_eq!(take_output_capture(&mut sink).len(), 0);
    assert_eq!(rx.try_recv().unwrap().rendered(), "b");
    assert!(rx.try_recv().is_err());
    close_output(&mut sink);
    assert!(rx.recv().is_err(), "the consumer observes the end of the stream");
    assert_eq!(dropped_count(&sink), 0);
}

#[test]
fn a_full_channel_sheds_records_and_counts_them() {
    let mut sink = Sink::new();
    let (tx, rx) = channel();
    set_output(&mut sink, tx);
    let capacity = tapgres::output::OUTPUT_CHANNEL_CAPACITY;
    for _ in 0..capacity {
        assert!(matches!(deliver(&mut sink, Output::Line(String::new())), Delivery::Sent));
    }
    assert!(matches!(deliver(&mut sink, Output::Line(String::new())), Delivery::Dropped));
    assert_eq!(dropped_count(&sink), 1);
    drop(rx);
    assert_eq!(
        dropped_notice(dropped_count(&sink)).as_deref(),
        Some("tapgres: dropped 1 output records (consumer could not keep up)")
    );
    assert_eq!(dropped_notice(0), None);
    assert_eq!(recording_stopped("e"), "tapgres: recording stopped: e");
}

#[test]
fn an_unread_channel_keeps_the_first_records_in_order() {
    let mut sink = Sink::new();
    let (tx, rx) = channel();
    set_output(&mut sink, tx);
    let capacity = tapgres::output::OUTPUT_CHANNEL_CAPACITY;
    let extra = 3;
    for i in 0..capacity + extra {
        out(&mut sink, i.to_string());
    }
    assert_eq!(dropped_count(&sink), extra as u64);
    close_output(&mut sink);
    let read: Vec<String> = rx.iter().map(|o| o.rendered().to_string()).collect();
    assert_eq!(read, (0..capacity).map(|i| i.to_string()).collect::<Vec<_>>());
}

#[test]
fn a_channel_without_a_consumer_counts_what_it_sheds() {
    let mut sink = Sink::new();
    let (tx, rx) = channel();
    set_output(&mut sink, tx);
    drop(rx);
    assert!(!matches!(status(&mut sink, "a".into()), Delivery::Sent));
}

#[test]
fn printing_follows_the_filter_and_the_kind() {
    let filter = DisplayFilter::parse("message.type == \"Query\"").unwrap();
    let mut shown: Vec<Output> = Vec::new();
    warn(Role::Client, parse_socket("127.0.0.1:1").unwrap(), "gap", &mut shown);
    assert_eq!(route(&shown[0], &filter), None);
    assert_eq!(route(&shown[0], &DisplayFilter::default()), Some(Stream::Stdout));
    assert_eq!(route(&Output::Status("s".into()), &filter), Some(Stream::Stderr));
    assert_eq!(route(&Output::Line("l".into()), &filter), Some(Stream::Stdout));
}

#[test]
fn the_clock_writes_hours_minutes_seconds_and_milliseconds() {
    let now = ts();
    let shape: String = now.chars().map(|c| if c.is_ascii_digit() { '0' } else { c }).collect();
    assert_eq!(shape, "00:00:00.000");
    let mut shown: Vec<Output> = Vec::new();
    warn(Role::Server, parse_socket("127.0.0.1:1").unwrap(), "lost", &mut shown);
    let line = shown[0].rendered();
    assert!(line.starts_with('[') && line.ends_with("] [B→F] ⚠ lost"), "{line}");
    emit_line("=== x", &mut shown);
    assert!(matches!(&shown[1], Output::Line(s) if s.ends_with("=== x")), "{:?}", shown[1]);
}

#[test]
fn addresses_read_back_as_written() {
    for text in [
        "0.0.0.0:0",
        "127.0.0.1:5432",
        "255.255.255.255:65535",
        "[::]:1",
        "[::1]:5432",
        "[2001:db8::1:0:0:1]:80",
        "[1:2:3:4:5:6:7:8]:9",
        "[::ffff:1.2.3.4]:5",
        "[fe80::1%7]:6",
    ] {
        let read = parse_socket(text).unwrap();
        assert_eq!(read.to_text(), text);
    }
    assert_eq!(
        parse_socket("127.0.0.1:5432"),
        Some(SocketAddr::new(IpAddr::V4(0x7f00_0001), 5432))
    );
}

#[test]
fn text_that_is_no_address_is_refused() {
    for text in [
        "", "1.2.3", "1.2.3.4.5", "01.2.3.4", "256.1.1.1", "1.2.3.4 ", "::1::", ":::", "1:2:3:4:5:6:7",
        "1:2:3:4:5:6:7:8:9", "12345::", "::1.2.3",
    ] {
        assert_eq!(parse_ip(text), None, "{text}");
    }
    for text in ["127.0.0.1", "127.0.0.1:", "127.0.0.1:65536", "::1:5432", "[::1]", "[127.0.0.1]:1"] {
        assert_eq!(parse_socket(text), None, "{text}");
    }
    assert_eq!(parse_ip("::1"), Some(IpAddr::V6(1)));
}

/// An Ethernet frame with an IPv4 TCP segment in it.
fn frame(payload: &[u8]) -> Vec<u8> {
    let mut f = vec![0u8; 12];
    f.extend_from_slice(&[0x08, 0x00]);
    let total = (40 + payload.len()) as u16;
    f.extend_from_slice(&[0x45, 0]);
    f.extend_from_slice(&total.to_be_bytes());
    f.extend_from_slice(&[0, 0, 0, 0, 64, 6, 0, 0]);
    f.extend_from_slice(&[10, 0, 0, 1]);
    f.extend_from_slice(&[10, 0, 0, 2]);
    f.extend_from_slice(&40000u16.to_be_bytes());
    f.extend_from_slice(&5432u16.to_be_bytes());
    f.extend_from_slice(&7u32.to_be_bytes());
    f.extend_from_slice(&9u32.to_be_bytes());
    f.extend_from_slice(&[0x50, 0x02, 0, 0, 0, 0, 0, 0]);
    f.extend_from_slice(payload);
    f
}

fn parts(seg: &TcpSegment) -> (u16, u16, u32, u32, bool, bool, bool, Vec<u8>) {
    (
        seg.src_port,
        seg.dst_port,
        seg.seq,
        seg.ack,
        seg.syn,
        seg.fin,
        seg.rst,
        seg.payload.clone(),
    )
}

#[test]
fn frames_yield_their_segment() {
    let mut bytes = frame(b"abc");
    bytes.extend_from_slice(&[0, 0]); // Ethernet padding is no payload
    let seg = parse_frame(&bytes, 1).unwrap();
    assert_eq!(seg.src, IpAddr::V4(0x0a00_0001));
    assert_eq!(seg.dst, IpAddr::V4(0x0a00_0002));
    assert_eq!(parts(&seg), (40000, 5432, 7, 9, true, false, false, b"abc".to_vec()));
    // Raw IP has no link header, a VLAN tag is stripped.
    assert_eq!(parts(&parse_frame(&bytes[14..], 101).unwrap()), parts(&seg));
    let mut tagged = bytes[..12].to_vec();
    tagged.extend_from_slice(&[0x81, 0x00, 0, 1]);
    tagged.extend_from_slice(&bytes[12..]);
    assert_eq!(parts(&parse_frame(&tagged, 1).unwrap()), parts(&seg));
    let mut stacked = tagged[..12].to_vec();
    stacked.extend_from_slice(&[0x81, 0x00, 0, 2]);
    stacked.extend_from_slice(&tagged[12..]);
    assert_eq!(parts(&parse_frame(&stacked, 1).unwrap()), parts(&seg));
    assert!(parse_frame(&tagged[..15], 1).is_none());
    // Too short, or no TCP.
    assert!(parse_frame(&bytes[..40], 1).is_none());
    let mut udp = bytes.clone();
    udp[23] = 17;
    assert!(parse_frame(&udp, 1).is_none());
    assert!(parse_frame(&bytes, 9999).is_none());
}

#[test]
fn bytes_are_shown_as_text_or_hex() {
    assert_eq!(quote(b"it's"), "'it's'");
    assert_eq!(quote(&[0x00]), "00");
    assert_eq!(hex_preview(&[0x00, 0xff]), "00ff");
    assert!(format_bytes(b"abc").contains("abc"));
    assert!(format_bytes(&[0, 1]).contains("0001"));
    assert!(format_oids(&vec![23, 25]).contains("23"));
}

#[test]
fn numbers_are_read_within_their_bound() {
    let v = |s: &str| s.chars().collect::<Vec<char>>();
    assert_eq!(parse_unsigned(&v("65535"), 65535), Some(65535));
    assert_eq!(parse_unsigned(&v("+7"), 65535), Some(7));
    assert_eq!(parse_unsigned(&v("65536"), 65535), None);
    assert_eq!(parse_unsigned(&v(""), 65535), None);
    assert_eq!(parse_unsigned(&v("-1"), 65535), None);
    assert_eq!(trimmed("\u{2003} a b\n"), "a b");
}
