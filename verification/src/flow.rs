//! TCP stream reassembly and per-connection decode state.
//!
//! libpcap gives us individual, possibly reordered or retransmitted packets.
//! [`ConnTable`] tracks connections by their 4-tuple, reassembles each direction in
//! order, and feeds the resulting byte stream into the message decoder.
use crate::addr::{ip_text, push_ip, IpAddr, SocketAddr};
use crate::buffer::{buffer_slice, buffered, clear_buffer, extend_buffer, new_buffer};
use crate::decode::{
    direction_drained, drain_direction, no_outcome, DrainOutcome, ServerNegotiationWait,
    MAX_DECODE_FAILURES,
};
use crate::net::{be32, SegmentView, TcpSegment};
use crate::output::{
    emit_line, emit_status, emitted, emitted_in_turn, emitted_nothing, warn, Event, Output,
};
use crate::reassembly::{
    complete_streams_leave_nothing_held, covered, fed, fed_all, never_resynced, pieces_of, seq_add,
    Assembly, Fed, Piece, Reassembly,
};
use crate::render::opt_fields;
use crate::state::{
    conn_closed, marked_encrypted, opened, recorded, ConnId, Ledger, Metrics, TrafficDirection,
};
use crate::text::{dec, push_dec};
use crate::wire::{
    fresh_context, DecodeContext, FieldSummary, FieldView, GSS_REQUEST_CODE, SSL_REQUEST_CODE,
};
use bytes::BytesMut;
use vstd::hash_map::StringHashMap;
use vstd::prelude::*;

verus! {

/// Which side of the connection a direction belongs to.
#[derive(Clone, Copy, PartialEq, Eq, Structural, Debug)]
pub enum Role {
    /// The PostgreSQL client: sends frontend messages.
    Client,
    /// The PostgreSQL server: sends backend messages.
    Server,
}

/// One direction of a connection: its TCP reassembly state plus the decode buffer
/// and context for that direction.
pub struct Direction {
    pub role: Role,
    /// Client endpoint attached to every decoded message from this connection.
    pub client: SocketAddr,
    /// The initial sequence number, once a SYN has been seen.
    pub isn: Option<u32>,
    /// The sequence number wanted next, and the segments received ahead of it.
    pub assembly: Reassembly,
    /// Reassembled, in-order bytes awaiting decode.
    pub rxbuf: BytesMut,
    pub ctx: DecodeContext,
    /// Most recently seen `RowDescription` (server side), used to label `DataRow`s
    /// with column names and to pick text or binary rendering.
    pub row_desc: Option<Vec<FieldSummary>>,
    /// Prepared statements (name to SQL) seen on this direction's `Parse` messages,
    /// so `Bind` and `Execute` can be annotated with the actual query.
    pub prepared: StringHashMap<String>,
    /// Portal name to statement name, from `Bind`, so an `Execute` on a portal
    /// resolves back to its prepared SQL.
    pub portals: StringHashMap<String>,
    /// Consecutive decode failures; reset on any successful decode.
    pub decode_failures: u32,
    /// Set once a direction is given up as unrecoverably desynced; decoding stops.
    pub dead: bool,
}

/// What a [`Direction`] holds.
#[verifier::ext_equal]
pub struct Side {
    pub role: Role,
    pub client: SocketAddr,
    pub isn: Option<u32>,
    pub assembly: Assembly,
    pub buffer: Seq<u8>,
    pub ctx: DecodeContext,
    pub row_desc: Option<Seq<FieldView>>,
    pub prepared: Map<Seq<char>, Seq<char>>,
    pub portals: Map<Seq<char>, Seq<char>>,
    pub decode_failures: u32,
    pub dead: bool,
}

/// The texts of a map from names.
pub open spec fn text_map(m: Map<Seq<char>, String>) -> Map<Seq<char>, Seq<char>> {
    m.map_values(|s: String| s@)
}

impl View for Direction {
    type V = Side;

    open spec fn view(&self) -> Side {
        Side {
            role: self.role,
            client: self.client,
            isn: self.isn,
            assembly: self.assembly@,
            buffer: buffered(self.rxbuf),
            ctx: self.ctx,
            row_desc: opt_fields(self.row_desc),
            prepared: text_map(self.prepared@),
            portals: text_map(self.portals@),
            decode_failures: self.decode_failures,
            dead: self.dead,
        }
    }
}

/// A direction of a connection that has just opened.
pub open spec fn fresh_side(role: Role, client: SocketAddr) -> Side {
    Side {
        role,
        client,
        isn: None,
        assembly: Assembly { next: None, held: Seq::empty() },
        buffer: Seq::empty(),
        ctx: fresh_context(),
        row_desc: None,
        prepared: Map::empty(),
        portals: Map::empty(),
        decode_failures: 0,
        dead: false,
    }
}

/// A direction whose bytes come from a socket that terminates TLS itself: the first
/// of them are a startup message, never an SSL or GSS request.
pub open spec fn decoding_side(role: Role, client: SocketAddr) -> Side {
    Side {
        ctx: DecodeContext { awaiting_frontend_ssl: false, ..fresh_context() },
        ..fresh_side(role, client)
    }
}

/// The text of the warning about bytes that the capture lost.
pub open spec fn gap_text(lost: u32) -> Seq<char> {
    "reassembly gap: ~"@ + dec(lost as nat) + " bytes lost (capture drop?), resyncing stream"@
}

/// What a segment's payload comes to in the reassembly of a stream with the initial
/// number `isn`, if that is known. A SYN that was seen before is a retransmission: it does
/// not take the stream back to its start, and data that it carries is numbered from behind
/// it.
#[verifier::opaque]
pub open spec fn placed(a: Assembly, isn: Option<u32>, seq: u32, syn: bool, data: Seq<u8>) -> Fed {
    if syn && isn == Some(seq) {
        fed(a, seq_add(seq, 1), false, data)
    } else {
        fed(a, seq, syn, data)
    }
}

/// What a segment's payload comes to in the reassembly of a direction.
pub open spec fn segment_fed(d: Side, seq: u32, syn: bool, data: Seq<u8>) -> Fed {
    placed(d.assembly, d.isn, seq, syn, data)
}

proof fn lemma_placed_again(a: Assembly, seq: u32, at: u32, data: Seq<u8>)
    requires
        at == seq.wrapping_add(1),
    ensures
        placed(a, Some(seq), seq, true, data) == fed(a, at, false, data),
{
    reveal(placed);
    assert(at == seq_add(seq, 1));
}

proof fn lemma_placed(a: Assembly, isn: Option<u32>, seq: u32, syn: bool, data: Seq<u8>)
    requires
        !(syn && isn == Some(seq)),
    ensures
        placed(a, isn, seq, syn, data) == fed(a, seq, syn, data),
{
    reveal(placed);
}

/// Puts a segment's payload in its place in a stream; returns the bytes delivered, and how
/// many were given up on where the stream was resynced.
fn place(
    assembly: &mut Reassembly,
    isn: Option<u32>,
    seq: u32,
    syn: bool,
    data: &[u8],
) -> (r: (Vec<u8>, Option<u32>))
    requires
        old(assembly).wf(),
        data@.len() <= 0xffff_ffff,
    ensures
        final(assembly).wf(),
        ({
            let f = placed(old(assembly)@, isn, seq, syn, data@);
            &&& final(assembly)@ == f.state
            &&& r.0@ == f.data
            &&& r.1 == f.lost
        }),
{
    if syn && isn == Some(seq) {
        let at: u32 = seq.wrapping_add(1);
        proof {
            lemma_placed_again(assembly@, seq, at, data@);
        }
        assembly.feed(at, false, data)
    } else {
        proof {
            lemma_placed(assembly@, isn, seq, syn, data@);
        }
        assembly.feed(seq, syn, data)
    }
}

/// A direction after a segment was fed to it.
pub open spec fn side_fed(d: Side, seq: u32, syn: bool, data: Seq<u8>) -> Side {
    let f = segment_fed(d, seq, syn, data);
    Side {
        isn: if syn {
            Some(seq)
        } else {
            d.isn
        },
        assembly: f.state,
        buffer: if f.lost is Some {
            f.data
        } else {
            d.buffer + f.data
        },
        ..d
    }
}

/// What feeding a segment to a direction shows.
pub open spec fn feed_events(d: Side, seq: u32, syn: bool, data: Seq<u8>) -> Seq<Event> {
    match segment_fed(d, seq, syn, data).lost {
        Some(lost) => seq![
            Event::Warning { role: d.role, client: d.client, text: gap_text(lost) },
        ],
        None => Seq::empty(),
    }
}

impl Direction {
    /// The reassembly state is well formed, and a direction with too many decode
    /// failures is given up on.
    pub open spec fn wf(&self) -> bool {
        &&& self.assembly.wf()
        &&& self.dead || self.decode_failures < MAX_DECODE_FAILURES
    }

    pub fn new(role: Role, client: SocketAddr) -> (d: Direction)
        ensures
            d.wf(),
            d@ == fresh_side(role, client),
    {
        let d = Direction {
            role,
            client,
            isn: None,
            assembly: Reassembly::new(),
            rxbuf: new_buffer(8192),
            ctx: DecodeContext::default(),
            row_desc: None,
            prepared: StringHashMap::new(),
            portals: StringHashMap::new(),
            decode_failures: 0,
            dead: false,
        };
        assert(d@.prepared =~= Map::<Seq<char>, Seq<char>>::empty());
        assert(d@.portals =~= Map::<Seq<char>, Seq<char>>::empty());
        d
    }

    /// Decode-only constructor: no TCP reassembly state is exercised. Used by the
    /// MITM proxy, which already has clean, in-order plaintext bytes from the socket.
    pub fn for_decoding(role: Role, client: SocketAddr) -> (d: Direction)
        ensures
            d.wf(),
            d@ == decoding_side(role, client),
    {
        let mut d = Direction::new(role, client);
        d.ctx.awaiting_frontend_ssl = false;
        d
    }

    /// Feeds a TCP segment's payload into this direction's reassembly buffer. SYN
    /// takes one sequence number; data is delivered in order, with retransmissions
    /// de-duplicated and out-of-order segments held.
    pub fn feed(&mut self, seq: u32, syn: bool, data: &[u8], out: &mut Vec<Output>)
        requires
            old(self).wf(),
            data@.len() <= 0xffff_ffff,
        ensures
            final(self).wf(),
            final(self)@ == side_fed(old(self)@, seq, syn, data@),
            emitted(old(out)@, final(out)@, feed_events(old(self)@, seq, syn, data@)),
    {
        let (bytes, lost) = place(&mut self.assembly, self.isn, seq, syn, data);
        if syn {
            self.isn = Some(seq);
        }
        match lost {
            Some(n) => {
                let mut text = String::new();
                text.append("reassembly gap: ~");
                push_dec(&mut text, n as u64);
                text.append(" bytes lost (capture drop?), resyncing stream");
                assert(text@ =~= gap_text(n));
                warn(self.role, self.client, text.as_str(), out);
                clear_buffer(&mut self.rxbuf);
                extend_buffer(&mut self.rxbuf, bytes.as_slice());
                assert(self@.buffer =~= bytes@);
            },
            None => {
                extend_buffer(&mut self.rxbuf, bytes.as_slice());
                proof {
                    crate::output::emitted_nothing(out@);
                }
            },
        }
    }
}

// --- connections --------------------------------------------------------------------------

/// A closed connection is kept this many segments (of subsequent global activity) so
/// trailing close-handshake packets and retransmits land on it instead of spawning a
/// phantom new connection, then it is swept.
pub const CLOSE_GRACE_SEGMENTS: u64 = 256;

/// How often, in handled segments, to sweep the table for evictable entries.
pub const SWEEP_INTERVAL: u64 = 512;

/// Backstop bound on retained connections. Closed ones are swept promptly via the
/// grace period; this caps the pathological case of many connections whose close was
/// never observed.
pub const MAX_CONNECTIONS: usize = 16_384;

/// An address and a port.
#[derive(Clone, Copy, PartialEq, Eq, Structural, Debug)]
pub struct Endpoint {
    pub ip: IpAddr,
    pub port: u16,
}

/// A connection, normalised so both directions collapse to the same key.
#[derive(Clone, Copy, PartialEq, Eq, Structural, Debug)]
pub struct ConnKey {
    pub client: Endpoint,
    pub server: Endpoint,
}

/// A single PostgreSQL connection (client and server directions).
pub struct Connection {
    client: Direction,
    server: Direction,
    /// Set when the client negotiated SSL or GSS: the stream is then encrypted and
    /// can no longer be decoded.
    encrypted: bool,
    /// Table clock at the first FIN or RST. `Some` marks the entry a tombstone: it
    /// lingers to absorb the rest of the close handshake, then the sweep removes it.
    closed_at: Option<u64>,
    /// Table clock of the most recent segment, for the eviction of connections whose
    /// close was never seen.
    last_seen: u64,
    stats: ConnId,
}

/// What a [`Connection`] holds.
#[verifier::ext_equal]
pub struct Conn {
    pub client: Side,
    pub server: Side,
    pub encrypted: bool,
    pub closed_at: Option<u64>,
    pub last_seen: u64,
    pub stats: ConnId,
}

impl View for Connection {
    type V = Conn;

    closed spec fn view(&self) -> Conn {
        Conn {
            client: self.client@,
            server: self.server@,
            encrypted: self.encrypted,
            closed_at: self.closed_at,
            last_seen: self.last_seen,
            stats: self.stats,
        }
    }
}

/// A connection that has just opened.
pub open spec fn fresh_conn(stats: ConnId, client: SocketAddr, now: u64) -> Conn {
    Conn {
        client: fresh_side(Role::Client, client),
        server: fresh_side(Role::Server, client),
        encrypted: false,
        closed_at: None,
        last_seen: now,
        stats,
    }
}

/// What handling a segment on a connection comes to.
pub struct ConnStep {
    pub conn: Conn,
    pub ledger: Ledger,
    pub events: Seq<Event>,
    pub malformed: bool,
}

/// The context of the server direction once the client has asked for SSL or GSS: the
/// next byte is the answer, not a typed message.
pub open spec fn armed(ctx: DecodeContext, wait: ServerNegotiationWait) -> DecodeContext {
    match wait {
        ServerNegotiationWait::Ssl => DecodeContext { awaiting_backend_ssl_response: true, ..ctx },
        ServerNegotiationWait::Gss => DecodeContext { awaiting_backend_gss_response: true, ..ctx },
        ServerNegotiationWait::NotWaiting => ctx,
    }
}

/// What a segment does to the direction that it belongs to.
pub open spec fn side_handled(d: Side, seg: SegmentView) -> crate::decode::Step {
    let s = direction_drained(side_fed(d, seg.seq, seg.syn, seg.payload), no_outcome());
    crate::decode::Step {
        events: feed_events(d, seg.seq, seg.syn, seg.payload) + s.events,
        ..s
    }
}

/// The metrics after a drain: an accepted SSL or GSS request marks the connection, and
/// decoded messages are counted, not segments: one segment may complete none, one or
/// many.
pub open spec fn drain_recorded(m: Ledger, conn: ConnId, o: DrainOutcome, direction: TrafficDirection) -> Ledger {
    let marked = if o.encrypted {
        marked_encrypted(m, conn, true)
    } else {
        m
    };
    if o.msgs > 0 {
        recorded(marked, conn, direction, o.msgs, o.bytes)
    } else {
        marked
    }
}

/// What a segment does on a connection: nothing once it is encrypted.
pub open spec fn conn_handled(c: Conn, seg: SegmentView, pg_port: u16, m: Ledger) -> ConnStep {
    if c.encrypted {
        ConnStep { conn: c, ledger: m, events: Seq::empty(), malformed: false }
    } else if seg.dst_port == pg_port {
        let s = side_handled(c.client, seg);
        ConnStep {
            conn: Conn {
                client: s.side,
                server: Side {
                    ctx: armed(c.server.ctx, s.outcome.server_negotiation_wait),
                    ..c.server
                },
                encrypted: s.outcome.encrypted,
                ..c
            },
            ledger: drain_recorded(m, c.stats, s.outcome, TrafficDirection::In),
            events: s.events,
            malformed: s.outcome.malformed,
        }
    } else {
        let s = side_handled(c.server, seg);
        ConnStep {
            conn: Conn { server: s.side, encrypted: s.outcome.encrypted, ..c },
            ledger: drain_recorded(m, c.stats, s.outcome, TrafficDirection::Out),
            events: s.events,
            malformed: s.outcome.malformed,
        }
    }
}

/// Feeds a segment to a direction and drains it.
fn handle_side(dir: &mut Direction, seg: &TcpSegment, out: &mut Vec<Output>) -> (outcome: DrainOutcome)
    requires
        old(dir).wf(),
        seg@.payload.len() <= 0xffff_ffff,
    ensures
        final(dir).wf(),
        ({
            let s = side_handled(old(dir)@, seg@);
            &&& final(dir)@ == s.side
            &&& outcome == s.outcome
            &&& emitted(old(out)@, final(out)@, s.events)
        }),
{
    let ghost shown = out@;
    dir.feed(seg.seq, seg.syn, seg.payload.as_slice(), out);
    let ghost mid = out@;
    let ghost fed_side = dir@;
    let mut outcome = DrainOutcome::default();
    let held: usize = buffer_slice(&dir.rxbuf).len();
    assert(dir@.buffer.len() == held);
    drain_direction(dir, &mut outcome, out);
    proof {
        emitted_in_turn(
            shown,
            mid,
            out@,
            feed_events(old(dir)@, seg.seq, seg.syn, seg.payload@),
            direction_drained(fed_side, no_outcome()).events,
        );
    }
    outcome
}

/// Records what a drain decoded.
fn record_drain(metrics: &mut Metrics, conn: ConnId, outcome: DrainOutcome, direction: TrafficDirection)
    ensures
        final(metrics)@ == drain_recorded(old(metrics)@, conn, outcome, direction),
{
    if outcome.encrypted {
        metrics.set_encrypted(conn, true);
    }
    if outcome.msgs > 0 {
        metrics.record_messages(conn, direction, outcome.msgs, outcome.bytes);
    }
}

impl Connection {
    pub closed spec fn wf(&self) -> bool {
        self.client.wf() && self.server.wf()
    }

    pub fn new(stats: ConnId, client: SocketAddr, now: u64) -> (c: Connection)
        ensures
            c.wf(),
            c@ == fresh_conn(stats, client, now),
    {
        Connection {
            client: Direction::new(Role::Client, client),
            server: Direction::new(Role::Server, client),
            encrypted: false,
            closed_at: None,
            last_seen: now,
            stats,
        }
    }

    /// Whether a client SYN's sequence number matches the handshake already tracked (a
    /// retransmitted SYN) rather than a fresh connection reusing the 4-tuple.
    fn is_same_client_syn(&self, seq: u32) -> (b: bool)
        ensures
            b == (self@.client.isn == Some(seq)),
    {
        self.client.isn == Some(seq)
    }

    /// Feeds a segment to its direction and decodes what it completes. Returns whether
    /// a message stated more fields than were buffered.
    pub fn handle(
        &mut self,
        seg: &TcpSegment,
        pg_port: u16,
        metrics: &mut Metrics,
        out: &mut Vec<Output>,
    ) -> (malformed: bool)
        requires
            old(self).wf(),
            seg@.payload.len() <= 0xffff_ffff,
        ensures
            final(self).wf(),
            ({
                let s = conn_handled(old(self)@, seg@, pg_port, old(metrics)@);
                &&& final(self)@ == s.conn
                &&& final(metrics)@ == s.ledger
                &&& emitted(old(out)@, final(out)@, s.events)
                &&& malformed == s.malformed
            }),
    {
        if self.encrypted {
            proof {
                emitted_nothing(out@);
            }
            return false;
        }
        if seg.dst_port == pg_port {
            let outcome = handle_side(&mut self.client, seg, out);
            // The request tells the server direction to expect a 1-byte reply next.
            match outcome.server_negotiation_wait {
                ServerNegotiationWait::Ssl => {
                    self.server.ctx.awaiting_backend_ssl_response = true;
                },
                ServerNegotiationWait::Gss => {
                    self.server.ctx.awaiting_backend_gss_response = true;
                },
                ServerNegotiationWait::NotWaiting => {},
            }
            if outcome.encrypted {
                self.encrypted = true;
            }
            record_drain(metrics, self.stats, outcome, TrafficDirection::In);
            outcome.malformed
        } else {
            let outcome = handle_side(&mut self.server, seg, out);
            if outcome.encrypted {
                self.encrypted = true;
            }
            record_drain(metrics, self.stats, outcome, TrafficDirection::Out);
            outcome.malformed
        }
    }
}

// --- the table ------------------------------------------------------------------------------

/// One row of the table.
struct TableEntry {
    key: ConnKey,
    conn: Connection,
}

/// The table of all active connections seen on the wire.
pub struct ConnTable {
    entries: Vec<TableEntry>,
    /// Monotonic count of handled segments, used as a logical clock for the
    /// close-grace and eviction that keep the table bounded.
    clock: u64,
    /// Clock value at which to run the next sweep.
    next_sweep: u64,
    /// Retained-connection cap.
    max_connections: usize,
    /// One-shot guard for the warning that both ports are the monitored port.
    warned_same_port: bool,
}

/// What a [`ConnTable`] holds.
#[verifier::ext_equal]
pub struct Table {
    pub map: Map<ConnKey, Conn>,
    pub clock: u64,
    pub next_sweep: u64,
    pub max_connections: usize,
    pub warned_same_port: bool,
}

spec fn entry_map(v: Seq<TableEntry>) -> Map<ConnKey, Conn>
    decreases v.len(),
{
    if v.len() == 0 {
        Map::empty()
    } else {
        entry_map(v.drop_last()).insert(v.last().key, v.last().conn@)
    }
}

spec fn distinct_keys(v: Seq<TableEntry>) -> bool {
    forall|i: int, j: int| 0 <= i < j < v.len() ==> v[i].key != v[j].key
}

impl View for ConnTable {
    type V = Table;

    closed spec fn view(&self) -> Table {
        Table {
            map: entry_map(self.entries@),
            clock: self.clock,
            next_sweep: self.next_sweep,
            max_connections: self.max_connections,
            warned_same_port: self.warned_same_port,
        }
    }
}

/// A table that has seen nothing.
pub open spec fn fresh_table(max_connections: usize) -> Table {
    Table {
        map: Map::empty(),
        clock: 0,
        next_sweep: SWEEP_INTERVAL,
        max_connections,
        warned_same_port: false,
    }
}

// --- what the table does ----------------------------------------------------------------------

/// Whether a sweep at `clock` keeps a connection: open, or not long closed.
pub open spec fn survives(c: Conn, clock: u64) -> bool {
    match c.closed_at {
        Some(at) => clock.wrapping_sub(at) <= CLOSE_GRACE_SEGMENTS,
        None => true,
    }
}

/// The connections that a sweep keeps.
pub open spec fn survivors(map: Map<ConnKey, Conn>, clock: u64) -> Map<ConnKey, Conn> {
    map.restrict(map.dom().filter(|k: ConnKey| survives(map[k], clock)))
}

/// Whether `order` lists the `n` least recently seen connections, oldest first.
pub open spec fn oldest_first(map: Map<ConnKey, Conn>, n: int, order: Seq<ConnKey>) -> bool {
    &&& order.len() == n
    &&& order.no_duplicates()
    &&& forall|i: int| 0 <= i < order.len() ==> map.contains_key(#[trigger] order[i])
    &&& forall|i: int, j: int|
        0 <= i < j < order.len() ==> map[order[i]].last_seen <= map[order[j]].last_seen
    &&& forall|i: int, k: ConnKey|
        0 <= i < order.len() && map.contains_key(k) && !order.contains(k)
            ==> (#[trigger] map[order[i]]).last_seen <= (#[trigger] map[k]).last_seen
}

/// The metrics after the connections of `order` were dropped: those still open close.
pub open spec fn closed_all(m: Ledger, map: Map<ConnKey, Conn>, order: Seq<ConnKey>, now: u64) -> Ledger
    decreases order.len(),
{
    if order.len() == 0 {
        m
    } else {
        let before = closed_all(m, map, order.drop_last(), now);
        let c = map[order.last()];
        if c.closed_at is None {
            conn_closed(before, c.stats, now)
        } else {
            before
        }
    }
}

/// What a sweep does when it is due: tombstones past their grace go, and where more
/// than the cap are left, the least recently seen go too. Among connections last seen
/// at the same clock any may go first.
pub open spec fn sweeps(t: Table, m: Ledger, now: u64, after: Table, ledger: Ledger) -> bool {
    if t.clock < t.next_sweep {
        after == t && ledger == m
    } else {
        exists|order: Seq<ConnKey>|
            {
                &&& #[trigger] evicts(t, order)
                &&& after == (Table {
                    map: survivors(t.map, t.clock).remove_keys(order.to_set()),
                    next_sweep: t.clock.wrapping_add(SWEEP_INTERVAL),
                    ..t
                })
                &&& ledger == closed_all(m, survivors(t.map, t.clock), order, now)
            }
    }
}

/// Whether `order` lists the connections that a sweep evicts: as many of those that
/// survive it as there are too many.
pub open spec fn evicts(t: Table, order: Seq<ConnKey>) -> bool {
    let kept = survivors(t.map, t.clock);
    oldest_first(
        kept,
        if kept.len() > t.max_connections {
            kept.len() - t.max_connections
        } else {
            0
        },
        order,
    )
}

/// What handling a segment comes to.
pub struct TableStep {
    pub table: Table,
    pub ledger: Ledger,
    pub events: Seq<Event>,
    pub malformed: bool,
}

/// The connection that a segment belongs to: the watched port is the server's.
pub open spec fn key_of_segment(seg: SegmentView, pg_port: u16) -> ConnKey {
    let src = Endpoint { ip: seg.src, port: seg.src_port };
    let dst = Endpoint { ip: seg.dst, port: seg.dst_port };
    if seg.dst_port == pg_port {
        ConnKey { client: src, server: dst }
    } else {
        ConnKey { client: dst, server: src }
    }
}

/// Whether a segment opens a connection. On an unknown 4-tuple only a SYN or a
/// payload does: trailing close packets or a port scan must not. A known 4-tuple opens
/// afresh when a closed entry sees any SYN, or a live one a new client handshake.
pub open spec fn opens(found: Option<Conn>, seg: SegmentView, pg_port: u16) -> bool {
    match found {
        None => seg.syn || seg.payload.len() > 0,
        Some(c) => {
            ||| seg.syn && c.closed_at is Some
            ||| seg.syn && seg.dst_port == pg_port && c.client.isn != Some(seg.seq)
        },
    }
}

/// The line that announces a connection.
pub open spec fn opening_text(key: ConnKey, pg_port: u16) -> Seq<char> {
    "=== new connection  "@ + ip_text(key.client.ip) + ":"@ + dec(key.client.port as nat)
        + "  ->  "@ + ip_text(key.server.ip) + ":"@ + dec(key.server.port as nat) + "  (port "@
        + dec(pg_port as nat) + ") ==="@
}

/// A socket address without a scope.
pub open spec fn socket_at(e: Endpoint) -> SocketAddr {
    SocketAddr { ip: e.ip, port: e.port, scope: 0 }
}

/// Opens a connection under `key`; one that stood there and was still open closes.
pub open spec fn key_opened(t: Table, m: Ledger, key: ConnKey, pg_port: u16, now: u64) -> TableStep {
    let retired = if t.map.contains_key(key) && t.map[key].closed_at is None {
        conn_closed(m, t.map[key].stats, now)
    } else {
        m
    };
    TableStep {
        table: Table {
            map: t.map.insert(
                key,
                fresh_conn(retired.next_conn_id, socket_at(key.client), t.clock),
            ),
            ..t
        },
        ledger: opened(retired, socket_at(key.client), socket_at(key.server), false, now),
        events: seq![Event::Line(opening_text(key, pg_port))],
        malformed: false,
    }
}

/// Hands a segment to the connection under `key`; its first FIN or RST closes it.
pub open spec fn key_handled(
    t: Table,
    m: Ledger,
    key: ConnKey,
    seg: SegmentView,
    pg_port: u16,
    now: u64,
) -> TableStep {
    let s = conn_handled(Conn { last_seen: t.clock, ..t.map[key] }, seg, pg_port, m);
    if (seg.rst || seg.fin) && s.conn.closed_at is None {
        TableStep {
            table: Table {
                map: t.map.insert(key, Conn { closed_at: Some(t.clock), ..s.conn }),
                ..t
            },
            ledger: conn_closed(s.ledger, s.conn.stats, now),
            events: s.events.push(
                Event::Line(
                    if seg.rst {
                        "=== connection reset (RST) ==="@
                    } else {
                        "=== connection closed (FIN) ==="@
                    },
                ),
            ),
            malformed: s.malformed,
        }
    } else {
        TableStep {
            table: Table { map: t.map.insert(key, s.conn), ..t },
            ledger: s.ledger,
            events: s.events,
            malformed: s.malformed,
        }
    }
}

/// What a segment does once the table is swept.
pub open spec fn segment_effect(t: Table, m: Ledger, seg: SegmentView, pg_port: u16, now: u64) -> TableStep {
    let unchanged = TableStep { table: t, ledger: m, events: Seq::empty(), malformed: false };
    if seg.src_port == pg_port && seg.dst_port == pg_port {
        if t.warned_same_port {
            unchanged
        } else {
            TableStep {
                table: Table { warned_same_port: true, ..t },
                events: seq![
                    Event::Status(
                        "tapgres: ignoring traffic where both endpoints use the monitored port; direction cannot be classified"@,
                    ),
                ],
                ..unchanged
            }
        }
    } else if seg.src_port != pg_port && seg.dst_port != pg_port {
        unchanged
    } else {
        let key = key_of_segment(seg, pg_port);
        let found = if t.map.contains_key(key) {
            Some(t.map[key])
        } else {
            None
        };
        if opens(found, seg, pg_port) {
            let o = key_opened(t, m, key, pg_port, now);
            let h = key_handled(o.table, o.ledger, key, seg, pg_port, now);
            TableStep { events: o.events + h.events, ..h }
        } else if found is Some {
            key_handled(t, m, key, seg, pg_port, now)
        } else {
            unchanged
        }
    }
}

// --- lemmas on rows ----------------------------------------------------------------------------

proof fn lemma_rows(v: Seq<TableEntry>)
    requires
        distinct_keys(v),
    ensures
        entry_map(v).dom().finite(),
        entry_map(v).len() == v.len(),
        forall|i: int|
            0 <= i < v.len() ==> entry_map(v).contains_key((#[trigger] v[i]).key) && entry_map(
                v,
            )[v[i].key] == v[i].conn@,
        forall|k: ConnKey| #[trigger] entry_map(v).contains_key(k) ==> has_row(v, k),
    decreases v.len(),
{
    if v.len() > 0 {
        let less = v.drop_last();
        lemma_rows(less);
        assert(!entry_map(less).contains_key(v.last().key)) by {
            if entry_map(less).contains_key(v.last().key) {
                let i = choose|i: int| 0 <= i < less.len() && less[i].key == v.last().key;
                assert(v[i].key != v[v.len() - 1].key);
            }
        }
        assert forall|i: int| 0 <= i < v.len() implies entry_map(v).contains_key(
            (#[trigger] v[i]).key,
        ) && entry_map(v)[v[i].key] == v[i].conn@ by {
            if i < less.len() {
                assert(less[i] == v[i]);
                assert(v[i].key != v[v.len() - 1].key);
            }
        }
        assert forall|k: ConnKey| #[trigger] entry_map(v).contains_key(k) implies has_row(
            v,
            k,
        ) by {
            if k == v.last().key {
                assert(v[v.len() - 1].key == k);
            } else {
                assert(has_row(less, k));
                let i = choose|i: int| 0 <= i < less.len() && less[i].key == k;
                assert(v[i].key == k);
            }
        }
    }
}

spec fn has_row(v: Seq<TableEntry>, k: ConnKey) -> bool {
    exists|i: int| 0 <= i < v.len() && (#[trigger] v[i]).key == k
}

/// Two row lists with the same rows have the same map.
proof fn lemma_same_rows(v: Seq<TableEntry>, m: Map<ConnKey, Conn>)
    requires
        distinct_keys(v),
        forall|i: int|
            0 <= i < v.len() ==> m.contains_key((#[trigger] v[i]).key) && m[v[i].key]
                == v[i].conn@,
        forall|k: ConnKey| #[trigger] m.contains_key(k) ==> has_row(v, k),
    ensures
        entry_map(v) == m,
{
    lemma_rows(v);
    assert forall|k: ConnKey| entry_map(v).contains_key(k) <==> m.contains_key(k) by {
        if entry_map(v).contains_key(k) {
            assert(has_row(v, k));
            let i = choose|i: int| 0 <= i < v.len() && (#[trigger] v[i]).key == k;
            assert(m.contains_key(v[i].key));
        }
        if m.contains_key(k) {
            assert(has_row(v, k));
            let i = choose|i: int| 0 <= i < v.len() && (#[trigger] v[i]).key == k;
            assert(entry_map(v).contains_key(v[i].key));
        }
    }
    assert forall|k: ConnKey| entry_map(v).contains_key(k) implies entry_map(v)[k] == m[k] by {
        assert(has_row(v, k));
        let i = choose|i: int| 0 <= i < v.len() && (#[trigger] v[i]).key == k;
        assert(entry_map(v)[v[i].key] == v[i].conn@);
    }
    assert(entry_map(v) =~= m);
}

/// Replacing a row under its key.
proof fn lemma_row_update(v: Seq<TableEntry>, i: int, e: TableEntry)
    requires
        distinct_keys(v),
        0 <= i < v.len(),
        e.key == v[i].key,
    ensures
        distinct_keys(v.update(i, e)),
        entry_map(v.update(i, e)) == entry_map(v).insert(e.key, e.conn@),
{
    let w = v.update(i, e);
    let m = entry_map(v).insert(e.key, e.conn@);
    lemma_rows(v);
    assert forall|a: int, b: int| 0 <= a < b < w.len() implies w[a].key != w[b].key by {
        assert(v[a].key != v[b].key);
    }
    assert forall|k: int| 0 <= k < w.len() implies m.contains_key((#[trigger] w[k]).key)
        && m[w[k].key] == w[k].conn@ by {
        if k != i {
            assert(v[k] == w[k]);
            if k < i {
                assert(v[k].key != v[i].key);
            } else {
                assert(v[i].key != v[k].key);
            }
        }
    }
    assert forall|k: ConnKey| #[trigger] m.contains_key(k) implies has_row(w, k) by {
        if k == e.key {
            assert(w[i].key == k);
        } else {
            assert(has_row(v, k));
            let a = choose|a: int| 0 <= a < v.len() && (#[trigger] v[a]).key == k;
            assert(w[a].key == k);
        }
    }
    lemma_same_rows(w, m);
}

/// Dropping a row, with the last one moved into its place.
proof fn lemma_row_remove(v: Seq<TableEntry>, i: int)
    requires
        distinct_keys(v),
        0 <= i < v.len(),
    ensures
        distinct_keys(v.update(i, v.last()).drop_last()),
        entry_map(v.update(i, v.last()).drop_last()) == entry_map(v).remove(v[i].key),
{
    let w = v.update(i, v.last()).drop_last();
    let m = entry_map(v).remove(v[i].key);
    let last = v.len() - 1;
    lemma_rows(v);
    assert forall|a: int, b: int| 0 <= a < b < w.len() implies w[a].key != w[b].key by {
        let x = if a == i {
            last
        } else {
            a
        };
        let y = if b == i {
            last
        } else {
            b
        };
        if x < y {
            assert(v[x].key != v[y].key);
        } else {
            assert(v[y].key != v[x].key);
        }
    }
    assert forall|k: int| 0 <= k < w.len() implies m.contains_key((#[trigger] w[k]).key)
        && m[w[k].key] == w[k].conn@ by {
        let x = if k == i {
            last
        } else {
            k
        };
        assert(w[k] == v[x]);
        assert(entry_map(v).contains_key(v[x].key));
        if x < i {
            assert(v[x].key != v[i].key);
        } else {
            assert(v[i].key != v[x].key);
        }
    }
    assert forall|k: ConnKey| #[trigger] m.contains_key(k) implies has_row(w, k) by {
        assert(entry_map(v).contains_key(k));
        assert(has_row(v, k));
        let a = choose|a: int| 0 <= a < v.len() && (#[trigger] v[a]).key == k;
        if a == last {
            assert(w[i].key == k);
        } else {
            assert(w[a].key == k);
        }
    }
    lemma_same_rows(w, m);
}

/// Taking a row out and putting another in under the same key, at the end.
proof fn lemma_row_replace(rows: Seq<TableEntry>, at: int, entry: TableEntry)
    requires
        distinct_keys(rows),
        0 <= at < rows.len(),
        entry.key == rows[at].key,
        entry.conn.wf(),
        forall|k: int| 0 <= k < rows.len() ==> (#[trigger] rows[k]).conn.wf(),
    ensures
        ({
            let after = rows.update(at, rows.last()).drop_last().push(entry);
            &&& distinct_keys(after)
            &&& entry_map(after) == entry_map(rows).insert(entry.key, entry.conn@)
            &&& forall|k: int| 0 <= k < after.len() ==> (#[trigger] after[k]).conn.wf()
        }),
{
    let key = entry.key;
    let less = rows.update(at, rows.last()).drop_last();
    let after = less.push(entry);
    lemma_rows(rows);
    lemma_row_remove(rows, at);
    lemma_rows(less);
    assert(after.drop_last() =~= less);
    assert(!entry_map(less).contains_key(key));
    assert forall|a: int, b: int| 0 <= a < b < after.len() implies after[a].key != after[b].key by {
        if b < less.len() {
            assert(less[a].key != less[b].key);
        } else {
            assert(entry_map(less).contains_key(less[a].key));
        }
    }
    assert forall|k: int| 0 <= k < after.len() implies (#[trigger] after[k]).conn.wf() by {
        if k < less.len() {
            if k == at {
                assert(rows[rows.len() - 1].conn.wf());
            } else {
                assert(rows[k].conn.wf());
            }
        }
    }
    assert(entry_map(after) =~= entry_map(rows).insert(key, entry.conn@));
}

// --- the table's operations ---------------------------------------------------------------------

impl Default for ConnTable {
    fn default() -> (t: ConnTable)
        ensures
            t.wf(),
            t@ == fresh_table(MAX_CONNECTIONS),
    {
        ConnTable::new()
    }
}

impl ConnTable {
    /// Each connection stands under its own key, once.
    pub closed spec fn wf(&self) -> bool {
        &&& distinct_keys(self.entries@)
        &&& forall|i: int| 0 <= i < self.entries@.len() ==> (#[trigger] self.entries@[i]).conn.wf()
    }

    pub fn new() -> (t: ConnTable)
        ensures
            t.wf(),
            t@ == fresh_table(MAX_CONNECTIONS),
    {
        ConnTable::with_cap(MAX_CONNECTIONS)
    }

    /// A table that retains at most `max_connections` connections.
    pub fn with_cap(max_connections: usize) -> (t: ConnTable)
        ensures
            t.wf(),
            t@ == fresh_table(max_connections),
    {
        ConnTable {
            entries: Vec::new(),
            clock: 0,
            next_sweep: SWEEP_INTERVAL,
            max_connections,
            warned_same_port: false,
        }
    }

    /// How many connections are retained.
    pub fn len(&self) -> (n: usize)
        requires
            self.wf(),
        ensures
            n == self@.map.len(),
    {
        proof {
            lemma_rows(self.entries@);
        }
        self.entries.len()
    }

    /// The row of `key`.
    fn find(&self, key: ConnKey) -> (r: Option<usize>)
        requires
            self.wf(),
        ensures
            match r {
                Some(i) => i < self.entries@.len() && self.entries@[i as int].key == key
                    && self@.map.contains_key(key) && self@.map[key]
                    == self.entries@[i as int].conn@,
                None => !self@.map.contains_key(key),
            },
    {
        proof {
            lemma_rows(self.entries@);
        }
        for i in 0..self.entries.len()
            invariant
                self.wf(),
                forall|k: int|
                    0 <= k < self.entries@.len() ==> entry_map(self.entries@).contains_key(
                        (#[trigger] self.entries@[k]).key,
                    ) && entry_map(self.entries@)[self.entries@[k].key] == self.entries@[k].conn@,
                forall|k: int| 0 <= k < i ==> (#[trigger] self.entries@[k]).key != key,
        {
            if self.entries[i].key == key {
                return Some(i);
            }
        }
        proof {
            if self@.map.contains_key(key) {
                assert(has_row(self.entries@, key));
            }
        }
        None
    }

    /// Drops tombstones past their close grace.
    fn drop_tombstones(&mut self)
        requires
            old(self).wf(),
        ensures
            final(self).wf(),
            final(self)@ == (Table { map: survivors(old(self)@.map, old(self)@.clock), ..old(self)@ }),
    {
        let clock: u64 = self.clock;
        let ghost start = self@;
        let mut i: usize = 0;
        proof {
            lemma_rows(self.entries@);
        }
        while i < self.entries.len()
            invariant
                self.wf(),
                i <= self.entries@.len(),
                clock == start.clock,
                self@ == (Table { map: self@.map, ..start }),
                forall|k: ConnKey|
                    #[trigger] self@.map.contains_key(k) ==> start.map.contains_key(k)
                        && start.map[k] == self@.map[k],
                forall|k: ConnKey|
                    #[trigger] start.map.contains_key(k) && survives(start.map[k], clock)
                        ==> self@.map.contains_key(k),
                forall|k: int|
                    0 <= k < i ==> survives((#[trigger] self.entries@[k]).conn@, clock),
            decreases self.entries@.len() - i,
        {
            let ghost rows = self.entries@;
            proof {
                lemma_rows(rows);
            }
            let gone = match self.entries[i].conn.closed_at {
                Some(at) => clock.wrapping_sub(at) > CLOSE_GRACE_SEGMENTS,
                None => false,
            };
            assert(gone == !survives(rows[i as int].conn@, clock));
            if gone {
                let ghost before = self@.map;
                proof {
                    lemma_row_remove(rows, i as int);
                }
                self.entries.swap_remove(i);
                assert(self.entries@ =~= rows.update(i as int, rows.last()).drop_last());
                assert(self@.map == before.remove(rows[i as int].key));
                assert forall|k: int| 0 <= k < self.entries@.len() implies (
                #[trigger] self.entries@[k]).conn.wf() by {
                    if k == i {
                        assert(rows[rows.len() - 1].conn.wf());
                    } else {
                        assert(rows[k].conn.wf());
                    }
                }
            } else {
                i = i + 1;
            }
        }
        proof {
            lemma_rows(self.entries@);
            let want = survivors(start.map, clock);
            assert forall|k: ConnKey| self@.map.contains_key(k) <==> want.contains_key(k) by {
                if self@.map.contains_key(k) {
                    assert(has_row(self.entries@, k));
                    let a = choose|a: int|
                        0 <= a < self.entries@.len() && (#[trigger] self.entries@[a]).key == k;
                    assert(survives(self.entries@[a].conn@, clock));
                }
                if want.contains_key(k) {
                    assert(start.map.contains_key(k));
                }
            }
            assert(self@.map =~= want);
        }
    }

    /// The row last seen first.
    fn oldest(&self) -> (at: usize)
        requires
            self.wf(),
            self.entries@.len() > 0,
        ensures
            at < self.entries@.len(),
            forall|k: int|
                0 <= k < self.entries@.len() ==> self.entries@[at as int].conn@.last_seen <= (
                #[trigger] self.entries@[k]).conn@.last_seen,
    {
        let mut at: usize = 0;
        let mut i: usize = 1;
        while i < self.entries.len()
            invariant
                at < i <= self.entries@.len(),
                forall|k: int|
                    0 <= k < i ==> self.entries@[at as int].conn@.last_seen <= (
                    #[trigger] self.entries@[k]).conn@.last_seen,
            decreases self.entries@.len() - i,
        {
            if self.entries[i].conn.last_seen < self.entries[at].conn.last_seen {
                at = i;
            }
            i = i + 1;
        }
        at
    }

    /// Removes the `n` least-recently-seen connections, closing any that were still
    /// live in the metrics registry so its lifecycle stays consistent.
    fn evict_lru(&mut self, n: usize, metrics: &mut Metrics, now: u64) -> (order: Ghost<
        Seq<ConnKey>,
    >)
        requires
            old(self).wf(),
            n <= old(self)@.map.len(),
        ensures
            final(self).wf(),
            oldest_first(old(self)@.map, n as int, order@),
            final(self)@ == (Table {
                map: old(self)@.map.remove_keys(order@.to_set()),
                ..old(self)@
            }),
            final(metrics)@ == closed_all(old(metrics)@, old(self)@.map, order@, now),
    {
        let ghost start = self@;
        let ghost mut order = Seq::<ConnKey>::empty();
        let mut left: usize = n;
        assert(start.map.remove_keys(order.to_set()) =~= start.map);
        proof {
            lemma_rows(self.entries@);
        }
        while left > 0
            invariant
                self.wf(),
                left <= n <= start.map.len(),
                start.map.dom().finite(),
                oldest_first(start.map, n - left, order),
                self@ == (Table { map: start.map.remove_keys(order.to_set()), ..start }),
                self@.map.len() == start.map.len() - order.len(),
                metrics@ == closed_all(old(metrics)@, start.map, order, now),
            decreases left,
        {
            let ghost rows = self.entries@;
            let ghost before = self@.map;
            proof {
                lemma_rows(rows);
            }
            let at: usize = self.oldest();
            proof {
                lemma_row_remove(rows, at as int);
            }
            let entry = self.entries.swap_remove(at);
            let ghost key = entry.key;
            proof {
                assert(self.entries@ =~= rows.update(at as int, rows.last()).drop_last());
                assert forall|k: int| 0 <= k < self.entries@.len() implies (
                #[trigger] self.entries@[k]).conn.wf() by {
                    if k == at {
                        assert(rows[rows.len() - 1].conn.wf());
                    } else {
                        assert(rows[k].conn.wf());
                    }
                }
                assert(before.contains_key(key));
                assert(before[key] == entry.conn@);
                assert(!order.to_set().contains(key));
                assert(!order.contains(key));
                let more = order.push(key);
                assert(more.drop_last() =~= order);
                assert(more.to_set() =~= order.to_set().insert(key)) by {
                    assert forall|k: ConnKey| more.to_set().contains(k)
                        <==> order.to_set().insert(key).contains(k) by {
                        if more.contains(k) && k != key {
                            let i = choose|i: int| 0 <= i < more.len() && more[i] == k;
                            assert(order[i] == k);
                        }
                        if order.contains(k) {
                            let i = choose|i: int| 0 <= i < order.len() && order[i] == k;
                            assert(more[i] == k);
                        }
                        assert(more[more.len() - 1] == key);
                    }
                }
                assert(start.map.remove_keys(more.to_set()) =~= before.remove(key));
                assert forall|i: int, k: ConnKey|
                    0 <= i < more.len() && start.map.contains_key(k) && !more.contains(
                        k,
                    ) implies (#[trigger] start.map[more[i]]).last_seen <= (
                #[trigger] start.map[k]).last_seen by {
                    assert(!order.contains(k)) by {
                        if order.contains(k) {
                            let j = choose|j: int| 0 <= j < order.len() && order[j] == k;
                            assert(more[j] == k);
                        }
                    }
                    if i < order.len() {
                        assert(more[i] == order[i]);
                        assert(start.map[order[i]].last_seen <= start.map[k].last_seen);
                    } else {
                        assert(before.contains_key(k));
                        assert(has_row(rows, k));
                        let r = choose|r: int| 0 <= r < rows.len() && (#[trigger] rows[r]).key == k;
                        assert(rows[at as int].conn@.last_seen <= rows[r].conn@.last_seen);
                    }
                }
                assert forall|i: int, j: int| 0 <= i < j < more.len() implies start.map[more[i]].last_seen
                    <= start.map[more[j]].last_seen by {
                    if j == order.len() {
                        assert(start.map[order[i]].last_seen <= start.map[key].last_seen);
                    } else {
                        assert(start.map[order[i]].last_seen <= start.map[order[j]].last_seen);
                    }
                }
                order = more;
            }
            if entry.conn.closed_at.is_none() {
                metrics.close_connection(entry.conn.stats, now);
            }
            left = left - 1;
        }
        Ghost(order)
    }

    /// Periodically evicts connections that can no longer receive useful data:
    /// tombstoned ones past their close grace, and, as a backstop, the
    /// least-recently-seen live ones once the table exceeds its cap.
    pub fn maybe_sweep(&mut self, metrics: &mut Metrics, now: u64)
        requires
            old(self).wf(),
        ensures
            final(self).wf(),
            sweeps(old(self)@, old(metrics)@, now, final(self)@, final(metrics)@),
    {
        if self.clock < self.next_sweep {
            return;
        }
        self.next_sweep = self.clock.wrapping_add(SWEEP_INTERVAL);
        self.drop_tombstones();
        let ghost kept = self@.map;
        proof {
            lemma_rows(self.entries@);
        }
        if self.entries.len() > self.max_connections {
            let order = self.evict_lru(self.entries.len() - self.max_connections, metrics, now);
            assert(evicts(old(self)@, order@));
        } else {
            let ghost order = Seq::<ConnKey>::empty();
            assert(evicts(old(self)@, order));
            assert(kept.remove_keys(order.to_set()) =~= kept);
        }
    }

    /// Sweeps the table at once, whether or not a sweep is due.
    pub fn sweep_now(&mut self, metrics: &mut Metrics, now: u64)
        requires
            old(self).wf(),
        ensures
            final(self).wf(),
            sweeps(
                (Table { next_sweep: old(self)@.clock, ..old(self)@ }),
                old(metrics)@,
                now,
                final(self)@,
                final(metrics)@,
            ),
    {
        self.next_sweep = self.clock;
        self.maybe_sweep(metrics, now);
    }

    /// Opens a connection under `key`, retiring one that stood there.
    fn open_key(
        &mut self,
        key: ConnKey,
        row: Option<usize>,
        pg_port: u16,
        metrics: &mut Metrics,
        now: u64,
        out: &mut Vec<Output>,
    ) -> (at: usize)
        requires
            old(self).wf(),
            match row {
                Some(i) => i < old(self).entries@.len() && old(self).entries@[i as int].key == key
                    && old(self)@.map.contains_key(key) && old(self)@.map[key]
                    == old(self).entries@[i as int].conn@,
                None => !old(self)@.map.contains_key(key),
            },
        ensures
            final(self).wf(),
            ({
                let s = key_opened(old(self)@, old(metrics)@, key, pg_port, now);
                &&& final(self)@ == s.table
                &&& final(metrics)@ == s.ledger
                &&& emitted(old(out)@, final(out)@, s.events)
            }),
            at < final(self).entries@.len(),
            final(self).entries@[at as int].key == key,
    {
        if let Some(i) = row {
            if self.entries[i].conn.closed_at.is_none() {
                metrics.close_connection(self.entries[i].conn.stats, now);
            }
        }
        let mut text = String::new();
        text.append("=== new connection  ");
        push_ip(&mut text, key.client.ip);
        text.append(":");
        push_dec(&mut text, key.client.port as u64);
        text.append("  ->  ");
        push_ip(&mut text, key.server.ip);
        text.append(":");
        push_dec(&mut text, key.server.port as u64);
        text.append("  (port ");
        push_dec(&mut text, pg_port as u64);
        text.append(") ===");
        assert(text@ =~= opening_text(key, pg_port));
        emit_line(text.as_str(), out);
        let client = SocketAddr::new(key.client.ip, key.client.port);
        let server = SocketAddr::new(key.server.ip, key.server.port);
        let stats: u64 = metrics.open_connection(client, server, false, now);
        let entry = TableEntry { key, conn: Connection::new(stats, client, self.clock) };
        let ghost rows = self.entries@;
        match row {
            Some(i) => {
                proof {
                    lemma_row_update(rows, i as int, entry);
                }
                self.entries.set(i, entry);
                i
            },
            None => {
                let at: usize = self.entries.len();
                proof {
                    lemma_rows(rows);
                    assert(rows.push(entry).drop_last() =~= rows);
                    assert forall|a: int, b: int| 0 <= a < b < rows.push(entry).len() implies rows.push(
                        entry,
                    )[a].key != rows.push(entry)[b].key by {
                        if b < rows.len() {
                            assert(rows[a].key != rows[b].key);
                        } else {
                            assert(entry_map(rows).contains_key(rows[a].key));
                        }
                    }
                }
                self.entries.push(entry);
                at
            },
        }
    }

    /// Hands a segment to the connection in row `at`.
    fn handle_row(
        &mut self,
        at: usize,
        seg: &TcpSegment,
        pg_port: u16,
        metrics: &mut Metrics,
        now: u64,
        out: &mut Vec<Output>,
    ) -> (malformed: bool)
        requires
            old(self).wf(),
            at < old(self).entries@.len(),
            seg@.payload.len() <= 0xffff_ffff,
        ensures
            final(self).wf(),
            ({
                let s = key_handled(
                    old(self)@,
                    old(metrics)@,
                    old(self).entries@[at as int].key,
                    seg@,
                    pg_port,
                    now,
                );
                &&& final(self)@ == s.table
                &&& final(metrics)@ == s.ledger
                &&& emitted(old(out)@, final(out)@, s.events)
                &&& malformed == s.malformed
            }),
    {
        let ghost rows = self.entries@;
        let ghost key = rows[at as int].key;
        let clock: u64 = self.clock;
        proof {
            lemma_rows(rows);
            assert(self@.map[key] == rows[at as int].conn@);
        }
        let mut entry = self.entries.swap_remove(at);
        entry.conn.last_seen = clock;
        let ghost shown = out@;
        let ghost c = entry.conn@;
        let ghost m = metrics@;
        let malformed = entry.conn.handle(seg, pg_port, metrics, out);
        let ghost step = conn_handled(c, seg@, pg_port, m);
        let ghost mid = out@;
        if (seg.rst || seg.fin) && entry.conn.closed_at.is_none() {
            // Tombstone rather than remove: a trailing segment then lands on the
            // closed entry instead of recreating a phantom connection.
            entry.conn.closed_at = Some(clock);
            metrics.close_connection(entry.conn.stats, now);
            let text = if seg.rst {
                "=== connection reset (RST) ==="
            } else {
                "=== connection closed (FIN) ==="
            };
            emit_line(text, out);
            proof {
                emitted_in_turn(shown, mid, out@, step.events, seq![Event::Line(text@)]);
                assert(step.events + seq![Event::Line(text@)] =~= step.events.push(
                    Event::Line(text@),
                ));
            }
        }
        proof {
            assert(self.entries@ =~= rows.update(at as int, rows.last()).drop_last());
            lemma_row_replace(rows, at as int, entry);
        }
        self.entries.push(entry);
        malformed
    }

    /// Ingests one captured TCP segment. Returns whether a message stated more fields
    /// than were buffered.
    pub fn handle(
        &mut self,
        seg: &TcpSegment,
        pg_port: u16,
        metrics: &mut Metrics,
        now: u64,
        out: &mut Vec<Output>,
    ) -> (malformed: bool)
        requires
            old(self).wf(),
            seg@.payload.len() <= 0xffff_ffff,
        ensures
            final(self).wf(),
            exists|t: Table, m: Ledger|
                {
                    &&& #[trigger] sweeps(ticked(old(self)@), old(metrics)@, now, t, m)
                    &&& ({
                        let s = segment_effect(t, m, seg@, pg_port, now);
                        &&& final(self)@ == s.table
                        &&& final(metrics)@ == s.ledger
                        &&& emitted(old(out)@, final(out)@, s.events)
                        &&& malformed == s.malformed
                    })
                },
    {
        self.clock = self.clock.wrapping_add(1);
        assert(self@ == ticked(old(self)@));
        self.maybe_sweep(metrics, now);
        let ghost t = self@;
        let ghost m = metrics@;
        assert(sweeps(ticked(old(self)@), old(metrics)@, now, t, m));
        self.handle_swept(seg, pg_port, metrics, now, out)
    }

    /// Handles a segment once the table is swept.
    fn handle_swept(
        &mut self,
        seg: &TcpSegment,
        pg_port: u16,
        metrics: &mut Metrics,
        now: u64,
        out: &mut Vec<Output>,
    ) -> (malformed: bool)
        requires
            old(self).wf(),
            seg@.payload.len() <= 0xffff_ffff,
        ensures
            final(self).wf(),
            ({
                let s = segment_effect(old(self)@, old(metrics)@, seg@, pg_port, now);
                &&& final(self)@ == s.table
                &&& final(metrics)@ == s.ledger
                &&& emitted(old(out)@, final(out)@, s.events)
                &&& malformed == s.malformed
            }),
    {
        proof {
            emitted_nothing(out@);
        }
        // Both endpoints on the watched port: direction can't be classified, so both
        // sides would collide in one decode buffer.
        if seg.src_port == pg_port && seg.dst_port == pg_port {
            if !self.warned_same_port {
                self.warned_same_port = true;
                emit_status(
                    "tapgres: ignoring traffic where both endpoints use the monitored port; direction cannot be classified",
                    out,
                );
            }
            return false;
        }
        if seg.src_port != pg_port && seg.dst_port != pg_port {
            return false;
        }
        let src = Endpoint { ip: seg.src, port: seg.src_port };
        let dst = Endpoint { ip: seg.dst, port: seg.dst_port };
        let key = if seg.dst_port == pg_port {
            ConnKey { client: src, server: dst }
        } else {
            ConnKey { client: dst, server: src }
        };
        let row = self.find(key);
        let should_open = match row {
            None => seg.syn || seg.payload.len() > 0,
            Some(i) => {
                let conn = &self.entries[i].conn;
                (seg.syn && conn.closed_at.is_some()) || (seg.syn && seg.dst_port == pg_port
                    && !conn.is_same_client_syn(seg.seq))
            },
        };
        if should_open {
            let ghost shown = out@;
            let ghost before = self@;
            let ghost m = metrics@;
            let at = self.open_key(key, row, pg_port, metrics, now, out);
            let ghost mid = out@;
            let ghost o = key_opened(before, m, key, pg_port, now);
            let malformed = self.handle_row(at, seg, pg_port, metrics, now, out);
            proof {
                emitted_in_turn(
                    shown,
                    mid,
                    out@,
                    o.events,
                    key_handled(o.table, o.ledger, key, seg@, pg_port, now).events,
                );
            }
            malformed
        } else {
            match row {
                Some(at) => self.handle_row(at, seg, pg_port, metrics, now, out),
                None => false,
            }
        }
    }
}

/// A table one segment later.
pub open spec fn ticked(t: Table) -> Table {
    Table { clock: t.clock.wrapping_add(1), ..t }
}

// --- laws ------------------------------------------------------------------------------------------

/// An encrypted connection decodes and shows nothing more.
pub proof fn encrypted_connections_stay_silent(c: Conn, seg: SegmentView, pg_port: u16, m: Ledger)
    requires
        c.encrypted,
    ensures
        conn_handled(c, seg, pg_port, m) == (ConnStep {
            conn: c,
            ledger: m,
            events: Seq::empty(),
            malformed: false,
        }),
{
}

/// A direction after some segments without a SYN, one after the other.
pub open spec fn all_fed(d: Side, pieces: Seq<Piece>) -> Side
    decreases pieces.len(),
{
    if pieces.len() == 0 {
        d
    } else {
        side_fed(all_fed(d, pieces.drop_last()), pieces.last().seq, false, pieces.last().data)
    }
}

proof fn lemma_all_fed(d: Side, pieces: Seq<Piece>)
    requires
        never_resynced(d.assembly, pieces),
    ensures
        all_fed(d, pieces) == (Side {
            assembly: fed_all(d.assembly, pieces).0,
            buffer: d.buffer + fed_all(d.assembly, pieces).1,
            ..d
        }),
    decreases pieces.len(),
{
    if pieces.len() == 0 {
        assert(d.buffer + Seq::<u8>::empty() =~= d.buffer);
    } else {
        let less = pieces.drop_last();
        lemma_all_fed(d, less);
        let p = pieces.last();
        let (a, data) = fed_all(d.assembly, less);
        lemma_placed(a, d.isn, p.seq, false, p.data);
        let f = fed(a, p.seq, false, p.data);
        assert(d.buffer + data + f.data =~= d.buffer + (data + f.data));
    }
}

/// After a SYN, the segments of a stream fill the buffer with exactly that stream once all
/// of it has arrived: every byte once and in order, whatever the order of arrival and
/// however they repeat or overlap. Nothing stays held, and feeding any of them again
/// changes nothing. No gap may be given up on, and the sequence numbers may not wrap.
pub proof fn a_fresh_direction_receives_the_stream(
    role: Role,
    client: SocketAddr,
    isn: u32,
    stream: Seq<u8>,
    pieces: Seq<Piece>,
)
    requires
        stream.len() < 0x8000_0000,
        isn + 1 + stream.len() <= 0xffff_ffff,
        pieces_of(pieces, (isn + 1) as u32, stream),
        never_resynced(Assembly { next: Some((isn + 1) as u32), held: Seq::empty() }, pieces),
        forall|offset: int|
            0 <= offset < stream.len() ==> #[trigger] covered(pieces, (isn + 1) as u32, offset),
    ensures
        ({
            let opened = side_fed(fresh_side(role, client), isn, true, Seq::empty());
            let d = all_fed(opened, pieces);
            &&& d.buffer == stream
            &&& d.assembly.held.len() == 0
            &&& forall|i: int|
                0 <= i < pieces.len() ==> side_fed(
                    d,
                    (#[trigger] pieces[i]).seq,
                    false,
                    pieces[i].data,
                ) == d
        }),
{
    let base = (isn + 1) as u32;
    let opened = side_fed(fresh_side(role, client), isn, true, Seq::empty());
    lemma_after_syn(role, client, isn);
    lemma_all_fed(opened, pieces);
    complete_streams_leave_nothing_held(base, stream, pieces);
    let d = all_fed(opened, pieces);
    assert(d.buffer =~= stream);
    assert forall|i: int| 0 <= i < pieces.len() implies side_fed(
        d,
        (#[trigger] pieces[i]).seq,
        false,
        pieces[i].data,
    ) == d by {
        lemma_fed_again(d, pieces[i].seq, pieces[i].data);
    }
}

proof fn lemma_after_syn(role: Role, client: SocketAddr, isn: u32)
    requires
        isn < 0xffff_ffff,
    ensures
        side_fed(fresh_side(role, client), isn, true, Seq::empty()) == (Side {
            isn: Some(isn),
            assembly: Assembly { next: Some((isn + 1) as u32), held: Seq::empty() },
            ..fresh_side(role, client)
        }),
{
    let fresh = fresh_side(role, client);
    lemma_placed(fresh.assembly, None, isn, true, Seq::empty());
    assert(seq_add(isn, 1) == (isn + 1) as u32);
    assert(Seq::<u8>::empty() + Seq::<u8>::empty() =~= Seq::<u8>::empty());
}

proof fn lemma_fed_again(d: Side, seq: u32, data: Seq<u8>)
    requires
        fed(d.assembly, seq, false, data) == (Fed {
            state: d.assembly,
            data: Seq::empty(),
            lost: None,
        }),
    ensures
        side_fed(d, seq, false, data) == d,
{
    lemma_placed(d.assembly, d.isn, seq, false, data);
    assert(d.buffer + Seq::<u8>::empty() =~= d.buffer);
}

/// A client asks for SSL, or GSS, and the server answers with one byte. Acceptance marks
/// the connection encrypted, there and in the metrics, and no later segment on it changes
/// or shows anything. A refusal leaves it in cleartext, and later segments of both
/// directions are decoded.
pub proof fn one_byte_decides_encryption(
    c: Conn,
    m: Ledger,
    gss: bool,
    request: SegmentView,
    reply: SegmentView,
    answer: u8,
    pg_port: u16,
)
    requires
        !c.encrypted,
        c.client.role == Role::Client,
        c.server.role == Role::Server,
        !c.client.dead,
        !c.server.dead,
        c.client.ctx.awaiting_frontend_ssl,
        !c.server.ctx.awaiting_backend_ssl_response,
        !c.server.ctx.awaiting_backend_gss_response,
        c.client.buffer.len() == 0,
        c.server.buffer.len() == 0,
        request.dst_port == pg_port,
        reply.dst_port != pg_port,
        // the request arrives whole and in order, and so does the one byte
        ({
            let f = segment_fed(c.client, request.seq, request.syn, request.payload);
            &&& f.lost is None
            &&& f.data.len() == 8
            &&& be32(f.data, 4) == (if gss {
                GSS_REQUEST_CODE
            } else {
                SSL_REQUEST_CODE
            })
        }),
        ({
            let f = segment_fed(c.server, reply.seq, reply.syn, reply.payload);
            f.lost is None && f.data == seq![answer]
        }),
        answer == 0x4e || answer == (if gss {
            0x47u8
        } else {
            0x53u8
        }),
    ensures
        ({
            let asked = conn_handled(c, request, pg_port, m);
            let told = conn_handled(asked.conn, reply, pg_port, asked.ledger);
            &&& !asked.conn.encrypted
            &&& told.conn.encrypted == (answer != 0x4e)
            &&& told.events.len() == 1
            &&& answer != 0x4e ==> {
                &&& told.ledger.entries.contains_key(c.stats)
                    ==> told.ledger.entries[c.stats].encrypted
                &&& forall|later: SegmentView, l: Ledger| #[trigger]
                    conn_handled(told.conn, later, pg_port, l) == (ConnStep {
                        conn: told.conn,
                        ledger: l,
                        events: Seq::empty(),
                        malformed: false,
                    })
            }
            &&& answer == 0x4e ==> {
                &&& !told.conn.client.ctx.awaiting_frontend_ssl
                &&& !told.conn.server.ctx.awaiting_backend_ssl_response
                &&& !told.conn.server.ctx.awaiting_backend_gss_response
                &&& forall|later: SegmentView, l: Ledger| #[trigger]
                    conn_handled(told.conn, later, pg_port, l).events == side_handled(
                        if later.dst_port == pg_port {
                            told.conn.client
                        } else {
                            told.conn.server
                        },
                        later,
                    ).events
            }
        }),
{
    lemma_asked(c, m, gss, request, pg_port);
    let asked = conn_handled(c, request, pg_port, m);
    lemma_told(asked.conn, asked.ledger, gss, reply, answer, pg_port);
}

/// A whole request that arrives in order leaves the server to answer.
proof fn lemma_asked(c: Conn, m: Ledger, gss: bool, request: SegmentView, pg_port: u16)
    requires
        !c.encrypted,
        c.client.role == Role::Client,
        !c.client.dead,
        c.client.ctx.awaiting_frontend_ssl,
        c.client.buffer.len() == 0,
        request.dst_port == pg_port,
        ({
            let f = segment_fed(c.client, request.seq, request.syn, request.payload);
            &&& f.lost is None
            &&& f.data.len() == 8
            &&& be32(f.data, 4) == (if gss {
                GSS_REQUEST_CODE
            } else {
                SSL_REQUEST_CODE
            })
        }),
    ensures
        ({
            let asked = conn_handled(c, request, pg_port, m).conn;
            &&& !asked.encrypted
            &&& asked.stats == c.stats
            &&& !asked.client.ctx.awaiting_frontend_ssl
            &&& asked.server == (Side {
                ctx: armed(
                    c.server.ctx,
                    if gss {
                        ServerNegotiationWait::Gss
                    } else {
                        ServerNegotiationWait::Ssl
                    },
                ),
                ..c.server
            })
        }),
{
    let f = segment_fed(c.client, request.seq, request.syn, request.payload);
    let fed_client = side_fed(c.client, request.seq, request.syn, request.payload);
    assert(fed_client.buffer =~= f.data);
    crate::decode::requests_end_the_drain(fed_client, gss);
}

/// The one byte that answers decides.
proof fn lemma_told(
    c: Conn,
    m: Ledger,
    gss: bool,
    reply: SegmentView,
    answer: u8,
    pg_port: u16,
)
    requires
        !c.encrypted,
        c.server.role == Role::Server,
        !c.server.dead,
        c.server.ctx.awaiting_backend_ssl_response == !gss,
        c.server.ctx.awaiting_backend_gss_response == gss,
        c.server.buffer.len() == 0,
        reply.dst_port != pg_port,
        ({
            let f = segment_fed(c.server, reply.seq, reply.syn, reply.payload);
            f.lost is None && f.data == seq![answer]
        }),
        answer == 0x4e || answer == (if gss {
            0x47u8
        } else {
            0x53u8
        }),
    ensures
        ({
            let told = conn_handled(c, reply, pg_port, m);
            &&& told.conn.encrypted == (answer != 0x4e)
            &&& told.events.len() == 1
            &&& told.conn.client == c.client
            &&& !told.conn.server.ctx.awaiting_backend_ssl_response
            &&& !told.conn.server.ctx.awaiting_backend_gss_response
            &&& answer != 0x4e && told.ledger.entries.contains_key(c.stats)
                ==> told.ledger.entries[c.stats].encrypted
        }),
{
    let fed_server = side_fed(c.server, reply.seq, reply.syn, reply.payload);
    assert(fed_server.buffer =~= seq![answer] + Seq::<u8>::empty());
    crate::decode::replies_decide_the_drain(fed_server, gss, answer, Seq::empty());
    if answer == 0x4e {
        let after = Side {
            buffer: Seq::empty(),
            decode_failures: 0,
            ctx: if gss {
                DecodeContext { awaiting_backend_gss_response: false, ..fed_server.ctx }
            } else {
                DecodeContext { awaiting_backend_ssl_response: false, ..fed_server.ctx }
            },
            ..fed_server
        };
        let once = crate::decode::counted(no_outcome(), 1);
        assert(after.buffer.skip(0) =~= after.buffer);
        assert(crate::decode::backend_drained(after, once) == crate::decode::stopped(after, once));
    }
}

/// A segment and one going the other way belong to the same connection.
pub proof fn both_directions_share_a_key(seg: SegmentView, reply: SegmentView, pg_port: u16)
    requires
        (seg.src_port == pg_port) != (seg.dst_port == pg_port),
        reply.src == seg.dst,
        reply.src_port == seg.dst_port,
        reply.dst == seg.src,
        reply.dst_port == seg.src_port,
    ensures
        key_of_segment(reply, pg_port) == key_of_segment(seg, pg_port),
{
}

/// The rest of a close handshake lands on the closed connection: without a SYN it is
/// never opened afresh.
pub proof fn closed_connections_absorb_trailing_segments(c: Conn, seg: SegmentView, pg_port: u16)
    requires
        c.closed_at is Some,
        !seg.syn,
    ensures
        !opens(Some(c), seg, pg_port),
{
}

/// A retransmitted client SYN opens nothing, however much has been delivered since: the
/// live connection stays, and the stream goes on where it was.
pub proof fn retransmitted_syn_opens_nothing(c: Conn, seg: SegmentView, pg_port: u16)
    requires
        c.closed_at is None,
        seg.syn,
        seg.dst_port == pg_port,
        c.client.isn == Some(seg.seq),
        seg.payload.len() == 0,
    ensures
        !opens(Some(c), seg, pg_port),
        side_fed(c.client, seg.seq, true, seg.payload) == c.client,
{
    reveal(placed);
    assert(c.client.buffer + Seq::<u8>::empty() =~= c.client.buffer);
}

/// The initial sequence number is that of the last SYN, whatever data follows.
pub proof fn data_keeps_the_initial_number(d: Side, seq: u32, data: Seq<u8>)
    ensures
        side_fed(d, seq, false, data).isn == d.isn,
{
}

/// A segment that closes a connection closes it once: a further FIN or RST changes
/// neither the time of the close nor the metrics beyond what its payload does.
pub proof fn closing_happens_once(
    t: Table,
    m: Ledger,
    key: ConnKey,
    seg: SegmentView,
    pg_port: u16,
    now: u64,
)
    requires
        t.map.contains_key(key),
        t.map[key].closed_at is Some,
    ensures
        ({
            let s = key_handled(t, m, key, seg, pg_port, now);
            let c = conn_handled(Conn { last_seen: t.clock, ..t.map[key] }, seg, pg_port, m);
            &&& s.table.map[key].closed_at == t.map[key].closed_at
            &&& s.ledger == c.ledger
            &&& s.events == c.events
        }),
{
}

/// Traffic on an unknown 4-tuple that neither opens a connection nor carries data
/// leaves the table, the metrics and the display alone.
pub proof fn stray_segments_change_nothing(
    t: Table,
    m: Ledger,
    seg: SegmentView,
    pg_port: u16,
    now: u64,
)
    requires
        !t.map.contains_key(key_of_segment(seg, pg_port)),
        seg.src_port != pg_port || seg.dst_port != pg_port,
        !seg.syn,
        seg.payload.len() == 0,
    ensures
        segment_effect(t, m, seg, pg_port, now) == (TableStep {
            table: t,
            ledger: m,
            events: Seq::empty(),
            malformed: false,
        }),
{
}

/// A sweep that is due leaves at most the cap, and no tombstone past its grace.
pub proof fn sweeping_bounds_the_table(t: Table, m: Ledger, now: u64, after: Table, ledger: Ledger)
    requires
        t.map.dom().finite(),
        t.clock >= t.next_sweep,
        sweeps(t, m, now, after, ledger),
    ensures
        after.map.len() <= t.max_connections,
        forall|k: ConnKey|
            #[trigger] after.map.contains_key(k) ==> t.map.contains_key(k) && after.map[k]
                == t.map[k] && survives(t.map[k], t.clock),
{
    let order = choose|order: Seq<ConnKey>|
        {
            &&& #[trigger] evicts(t, order)
            &&& after == (Table {
                map: survivors(t.map, t.clock).remove_keys(order.to_set()),
                next_sweep: t.clock.wrapping_add(SWEEP_INTERVAL),
                ..t
            })
            &&& ledger == closed_all(m, survivors(t.map, t.clock), order, now)
        };
    let kept = survivors(t.map, t.clock);
    assert(kept.dom() =~= t.map.dom().filter(|k: ConnKey| survives(t.map[k], t.clock)));
    order.unique_seq_to_set();
    assert(after.map.dom() =~= kept.dom().difference(order.to_set()));
    assert(order.to_set().subset_of(kept.dom())) by {
        assert forall|k: ConnKey| order.to_set().contains(k) implies kept.dom().contains(k) by {
            let i = choose|i: int| 0 <= i < order.len() && order[i] == k;
            assert(kept.contains_key(order[i]));
        }
    }
    lemma_difference_len(kept.dom(), order.to_set());
}

proof fn lemma_difference_len(a: Set<ConnKey>, b: Set<ConnKey>)
    requires
        a.finite(),
        b.subset_of(a),
    ensures
        a.difference(b).len() == a.len() - b.len(),
    decreases b.len(),
{
    vstd::set_lib::lemma_set_disjoint_lens(a.difference(b), b);
    assert(a.difference(b).union(b) =~= a);
}

/// A connection that is still open is only evicted for want of room: a sweep that
/// finds the table within its cap keeps every open connection.
pub proof fn open_connections_survive_with_room(
    t: Table,
    m: Ledger,
    now: u64,
    after: Table,
    ledger: Ledger,
    k: ConnKey,
)
    requires
        t.clock >= t.next_sweep,
        sweeps(t, m, now, after, ledger),
        survivors(t.map, t.clock).len() <= t.max_connections,
        t.map.contains_key(k),
        t.map[k].closed_at is None,
    ensures
        after.map.contains_key(k),
        after.map[k] == t.map[k],
        ledger == m,
{
    let order = choose|order: Seq<ConnKey>|
        {
            &&& #[trigger] evicts(t, order)
            &&& after == (Table {
                map: survivors(t.map, t.clock).remove_keys(order.to_set()),
                next_sweep: t.clock.wrapping_add(SWEEP_INTERVAL),
                ..t
            })
            &&& ledger == closed_all(m, survivors(t.map, t.clock), order, now)
        };
    assert(order.len() == 0);
    assert(!order.to_set().contains(k));
}

} // verus!
