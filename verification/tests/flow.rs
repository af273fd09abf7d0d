//! Connection tracking and reassembly.
use tapgres::addr::{parse_socket, IpAddr};
use tapgres::flow::{ConnTable, Direction, Role, CLOSE_GRACE_SEGMENTS};
use tapgres::net::TcpSegment;
use tapgres::output::Output;
use tapgres::reassembly::OOO_BYTES_CAP;
use tapgres::state::{ConnectionLifecycle, Metrics};

const LOCALHOST: IpAddr = IpAddr::V4(0x7f00_0001);
const CLIENT_PORT: u16 = 40_000;
const PG_PORT: u16 = 5432;

/// A connection table with its counters and what it emitted.
struct Tap {
    table: ConnTable,
    metrics: Metrics,
    out: Vec<Output>,
}

impl Tap {
    fn new() -> Self {
        Tap { table: ConnTable::new(), metrics: Metrics::new(), out: Vec::new() }
    }

    fn capped(max: usize) -> Self {
        Tap { table: ConnTable::with_cap(max), metrics: Metrics::new(), out: Vec::new() }
    }

    fn handle(&mut self, seg: &TcpSegment, pg_port: u16) {
        self.table.handle(seg, pg_port, &mut self.metrics, 0, &mut self.out);
    }
}

fn segment(client_to_server: bool, syn: bool, fin: bool, payload: &[u8]) -> TcpSegment {
    let (src_port, dst_port) =
        if client_to_server { (CLIENT_PORT, PG_PORT) } else { (PG_PORT, CLIENT_PORT) };
    TcpSegment {
        src: LOCALHOST,
        dst: LOCALHOST,
        src_port,
        dst_port,
        seq: 1,
        ack: 0,
        syn,
        fin,
        rst: false,
        payload: payload.to_vec(),
    }
}

fn clean_close(table: &mut Tap) {
    table.handle(&segment(true, true, false, &[]), PG_PORT); // SYN
    table.handle(&segment(false, true, false, &[]), PG_PORT); // SYN/ACK
    table.handle(&segment(true, false, false, &[]), PG_PORT); // ACK
    table.handle(&segment(true, false, true, &[]), PG_PORT); // FIN
    table.handle(&segment(false, false, false, &[]), PG_PORT); // ACK
    table.handle(&segment(false, false, true, &[]), PG_PORT); // FIN
    table.handle(&segment(true, false, false, &[]), PG_PORT); // ACK
}

#[test]
fn full_close_handshake_does_not_create_phantom_connections() {
    let mut table = Tap::new();
    clean_close(&mut table);

    let snapshot = table.metrics.snapshot();
    assert_eq!(snapshot.conns_opened, 1);
    assert_eq!(snapshot.conns_live, 0);
    // A bare TCP close handshake carries no protocol messages.
    assert_eq!(snapshot.msgs_in, 0);
    assert_eq!(snapshot.msgs_out, 0);
    assert_eq!(snapshot.connections.len(), 1);
    assert_eq!(table.table.len(), 1);
    assert!(matches!(
        snapshot.connections[0].lifecycle,
        ConnectionLifecycle::Closed { .. }
    ));
}

#[test]
fn mid_capture_connection_still_opens_without_syn() {
    let mut table = Tap::new();
    table.handle(&segment(true, false, false, &[1, 2, 3]), PG_PORT);
    table.handle(&segment(false, false, true, &[]), PG_PORT);
    table.handle(&segment(true, false, false, &[]), PG_PORT);

    let snapshot = table.metrics.snapshot();
    assert_eq!(snapshot.conns_opened, 1);
    assert_eq!(snapshot.conns_live, 0);
    assert_eq!(snapshot.connections.len(), 1);
    // Partial bytes that never form a complete message are not counted.
    assert_eq!(snapshot.connections[0].bytes_in, 0);
}

#[test]
fn syn_reopens_a_closed_four_tuple() {
    let mut table = Tap::new();
    clean_close(&mut table);
    table.handle(&segment(true, true, false, &[]), PG_PORT);

    let open = table.metrics.snapshot();
    assert_eq!(open.conns_opened, 2);
    assert_eq!(open.conns_live, 1);
    assert_eq!(open.connections.len(), 2);

    table.handle(&segment(true, false, true, &[]), PG_PORT);
    let closed = table.metrics.snapshot();
    assert_eq!(closed.conns_opened, 2);
    assert_eq!(closed.conns_live, 0);
    assert_eq!(closed.connections.len(), 2);
}

fn client_dir() -> Direction {
    Direction::new(Role::Client, parse_socket("127.0.0.1:40000").unwrap())
}

/// Feeds a segment and returns what it emitted.
fn feed(d: &mut Direction, seq: u32, syn: bool, data: &[u8]) -> Vec<Output> {
    let mut out: Vec<Output> = Vec::new();
    d.feed(seq, syn, data, &mut out);
    out
}

#[test]
fn syn_with_data_keeps_the_first_byte() {
    // TCP Fast Open: the SYN carries payload numbered from seq+1.
    let mut d = client_dir();
    feed(&mut d, 100, true, b"AB");
    assert_eq!(&d.rxbuf[..], b"AB");
    feed(&mut d, 103, false, b"C");
    assert_eq!(&d.rxbuf[..], b"ABC");
}

#[test]
fn overlapping_retransmit_delivers_every_byte() {
    // Anchor at 100, buffer an early [150,250) segment, then receive an
    // in-order [100,200) segment that overlaps it. All of [100,250) must
    // arrive contiguously.
    let mut d = client_dir();
    feed(&mut d, 99, true, b""); // SYN: next_seq = 100
    let early: Vec<u8> = (50u8..150).collect(); // seq 150..250 -> value seq-100
    feed(&mut d, 150, false, &early);
    assert!(d.rxbuf.is_empty(), "early segment must be buffered, not delivered");
    let inorder: Vec<u8> = (0u8..100).collect(); // seq 100..200 -> value seq-100
    feed(&mut d, 100, false, &inorder);
    let expected: Vec<u8> = (0u8..150).collect();
    assert_eq!(&d.rxbuf[..], &expected[..]);
    assert_eq!(d.assembly.held_bytes(), 0);
}

#[test]
fn shorter_retransmit_does_not_clobber_a_buffered_segment() {
    let mut d = client_dir();
    feed(&mut d, 99, true, b""); // next_seq = 100
    feed(&mut d, 200, false, b"LONGSEGMENT"); // buffered at 200
    feed(&mut d, 200, false, b"SHORT"); // same start, shorter: must be ignored
    feed(&mut d, 100, false, &[b'.'; 100]); // fills the gap to 200
    assert_eq!(&d.rxbuf[100..], b"LONGSEGMENT");
}

#[test]
fn oversized_gap_resyncs_instead_of_stalling() {
    let mut d = client_dir();
    feed(&mut d, 999, true, b""); // next_seq = 1000
    // A far-ahead segment larger than the buffering cap: the [1000, far)
    // gap will never fill, so feed() must skip it and resync.
    let big = vec![0xabu8; OOO_BYTES_CAP as usize + 1];
    let out = feed(&mut d, 5000, false, &big);
    assert_eq!(d.rxbuf.len(), big.len(), "resync should deliver the buffered segment");
    assert_eq!(d.assembly.held_bytes(), 0);
    assert_eq!(d.assembly.next_seq(), Some(5000u32.wrapping_add(big.len() as u32)));
    assert!(
        out.iter()
            .any(|o| matches!(o, Output::Message { message, .. } if message.kind == "Warning")),
        "resync should emit an attributed warning"
    );
}

fn noise() -> TcpSegment {
    // Traffic on neither the client nor the monitored port: advances the
    // table clock without creating a connection.
    TcpSegment {
        src: LOCALHOST,
        dst: LOCALHOST,
        src_port: 1234,
        dst_port: 2345,
        seq: 1,
        ack: 0,
        syn: false,
        fin: false,
        rst: false,
        payload: vec![],
    }
}

#[test]
fn closed_connections_are_swept_after_the_grace_period() {
    let mut table = Tap::new();
    clean_close(&mut table);
    assert_eq!(table.table.len(), 1, "tombstone retained right after close");

    // Advance the clock well past the close grace, then sweep.
    for _ in 0..(CLOSE_GRACE_SEGMENTS + 4) {
        table.handle(&noise(), PG_PORT);
    }
    table.table.sweep_now(&mut table.metrics, 0);
    assert_eq!(table.table.len(), 0, "tombstone swept after grace");
    assert_eq!(table.metrics.snapshot().conns_live, 0);
}

fn client_syn(src_port: u16) -> TcpSegment {
    TcpSegment {
        src: LOCALHOST,
        dst: LOCALHOST,
        src_port,
        dst_port: PG_PORT,
        seq: 1000,
        ack: 0,
        syn: true,
        fin: false,
        rst: false,
        payload: vec![],
    }
}

#[test]
fn lru_eviction_bounds_live_connections() {
    let mut table = Tap::capped(2);
    // Four never-closed connections (missed FIN/RST); oldest two evicted.
    for port in 40_001..=40_004 {
        table.handle(&client_syn(port), PG_PORT);
    }
    assert_eq!(table.table.len(), 4);
    table.table.sweep_now(&mut table.metrics, 0);
    assert_eq!(table.table.len(), 2, "capped to max_connections");
    // Evicting live connections closes them in the registry.
    assert_eq!(table.metrics.snapshot().conns_live, 2);
}

#[test]
fn both_endpoints_on_monitored_port_are_ignored() {
    let mut table = Tap::new();
    let mut seg = client_syn(40_010);
    seg.src_port = PG_PORT; // both ends on PG_PORT
    table.handle(&seg, PG_PORT);
    assert_eq!(table.table.len(), 0);
    assert_eq!(table.metrics.snapshot().conns_opened, 0);
}

#[test]
fn bare_ack_on_unknown_tuple_creates_no_connection() {
    let mut table = Tap::new();
    // A stray payload-less ACK/RST arriving for a 4-tuple we never opened.
    table.handle(&segment(true, false, false, &[]), PG_PORT);
    assert_eq!(table.table.len(), 0);
    assert_eq!(table.metrics.snapshot().conns_opened, 0);
}

// --- further cases ---------------------------------------------------------------------

#[test]
fn any_arrival_order_delivers_the_stream() {
    let stream: Vec<u8> = (0u8..60).collect();
    for order in [[0usize, 1, 2], [0, 2, 1], [1, 0, 2], [1, 2, 0], [2, 0, 1], [2, 1, 0]] {
        let mut d = client_dir();
        feed(&mut d, 0xffff_fff0, true, b""); // the stream crosses the wrap
        for part in order {
            let from = part * 20;
            let seq = 0xffff_fff1u32.wrapping_add(from as u32);
            feed(&mut d, seq, false, &stream[from..from + 20]);
        }
        assert_eq!(&d.rxbuf[..], &stream[..], "{order:?}");
    }
}

#[test]
fn retransmission_delivers_nothing_again() {
    let mut d = client_dir();
    feed(&mut d, 99, true, b"");
    feed(&mut d, 100, false, b"abc");
    feed(&mut d, 100, false, b"abc");
    feed(&mut d, 101, false, b"bc");
    assert_eq!(&d.rxbuf[..], b"abc");
}

#[test]
fn encrypted_connections_stay_silent() {
    let mut table = Tap::new();
    let ssl: [u8; 8] = [0, 0, 0, 8, 0x04, 0xd2, 0x16, 0x2f];
    let at = |to_server: bool, seq: u32, payload: &[u8]| {
        let mut s = segment(to_server, false, false, payload);
        s.seq = seq;
        s
    };
    table.handle(&at(true, 1, &ssl), PG_PORT);
    table.handle(&at(false, 1, b"S"), PG_PORT);
    let shown = table.out.len();
    table.handle(&at(true, 9, b"\x16\x03\x01"), PG_PORT);
    table.handle(&at(false, 2, b"\x16\x03\x03"), PG_PORT);
    assert_eq!(table.out.len(), shown);
    assert!(table.metrics.snapshot().connections[0].encrypted);
}

#[test]
fn both_directions_share_one_connection() {
    let mut table = Tap::new();
    table.handle(&segment(true, true, false, &[]), PG_PORT);
    table.handle(&segment(false, true, false, &[]), PG_PORT);
    assert_eq!(table.table.len(), 1);
    assert_eq!(table.metrics.snapshot().conns_opened, 1);
}

#[test]
fn trailing_segments_of_a_closed_connection_are_absorbed() {
    let mut table = Tap::new();
    clean_close(&mut table);
    let shown = table.out.len();
    table.handle(&segment(true, false, false, b"late"), PG_PORT);
    assert_eq!(table.out.len(), shown);
    assert_eq!(table.metrics.snapshot().conns_opened, 1);
}

#[test]
fn open_connections_survive_a_sweep_with_room() {
    let mut table = Tap::capped(2);
    table.handle(&client_syn(40_001), PG_PORT);
    table.handle(&client_syn(40_002), PG_PORT);
    table.table.sweep_now(&mut table.metrics, 0);
    assert_eq!(table.table.len(), 2);
    assert_eq!(table.metrics.snapshot().conns_live, 2);
}

#[test]
fn a_retransmitted_syn_opens_nothing_after_data() {
    let mut table = Tap::new();
    table.handle(&client_syn(CLIENT_PORT), PG_PORT);
    let mut data = client_syn(CLIENT_PORT);
    data.syn = false;
    data.seq = 1001;
    data.payload = vec![0, 0, 0, 8];
    table.handle(&data, PG_PORT);
    table.handle(&client_syn(CLIENT_PORT), PG_PORT);
    let snapshot = table.metrics.snapshot();
    assert_eq!((snapshot.conns_opened, snapshot.conns_live), (1, 1));
    // The stream goes on where it stood: the rest of an SSLRequest completes the message.
    data.seq = 1005;
    data.payload = vec![0x04, 0xd2, 0x16, 0x2f];
    table.handle(&data, PG_PORT);
    assert_eq!(table.metrics.snapshot().msgs_in, 1);
    // Another initial number is another connection.
    let mut fresh = client_syn(CLIENT_PORT);
    fresh.seq = 7;
    table.handle(&fresh, PG_PORT);
    assert_eq!(table.metrics.snapshot().conns_opened, 2);
}

#[test]
fn a_retransmitted_syn_does_not_rewind_the_stream() {
    let mut d = client_dir();
    feed(&mut d, 99, true, b"");
    feed(&mut d, 100, false, b"abc");
    feed(&mut d, 99, true, b"");
    feed(&mut d, 100, false, b"abc");
    feed(&mut d, 103, false, b"d");
    assert_eq!(&d.rxbuf[..], b"abcd");
}

#[test]
fn a_complete_stream_leaves_nothing_held() {
    let mut d = client_dir();
    feed(&mut d, 99, true, b"");
    for (from, part) in [(4u32, b"ef"), (0, b"ab"), (2, b"cd"), (4, b"ef"), (0, b"ab")] {
        feed(&mut d, 100 + from, false, part);
    }
    assert_eq!(&d.rxbuf[..], b"abcdef");
    assert_eq!(d.assembly.held_bytes(), 0);
}

#[test]
fn bytes_behind_an_accepting_reply_are_not_decoded() {
    let mut table = Tap::new();
    let ssl: [u8; 8] = [0, 0, 0, 8, 0x04, 0xd2, 0x16, 0x2f];
    table.handle(&segment(true, false, false, &ssl), PG_PORT);
    table.handle(&segment(false, false, false, b"S\x16\x03\x03\x00\x7a"), PG_PORT);
    let snapshot = table.metrics.snapshot();
    assert!(snapshot.connections[0].encrypted);
    assert_eq!((snapshot.msgs_out, snapshot.connections[0].bytes_out), (1, 1));
    assert!(table.out.iter().all(|o| !o.rendered().contains("decode error")));
}

#[test]
fn a_refusing_reply_lets_both_directions_go_on() {
    let mut table = Tap::new();
    let ssl: [u8; 8] = [0, 0, 0, 8, 0x04, 0xd2, 0x16, 0x2f];
    table.handle(&segment(true, false, false, &ssl), PG_PORT);
    table.handle(&segment(false, false, false, b"N"), PG_PORT);
    let mut startup =
        segment(true, false, false, b"\x00\x00\x00\x10\x00\x03\x00\x00user\0x\0\0");
    startup.seq = 9;
    table.handle(&startup, PG_PORT);
    let mut ready = segment(false, false, false, b"Z\x00\x00\x00\x05I");
    ready.seq = 2;
    table.handle(&ready, PG_PORT);
    let snapshot = table.metrics.snapshot();
    assert!(!snapshot.connections[0].encrypted);
    assert_eq!((snapshot.msgs_in, snapshot.msgs_out), (2, 2));
}
