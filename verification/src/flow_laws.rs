//! What segments make of connections: which one they belong to, when it opens and closes, and
//! which way its traffic counts.
use crate::addr::ip_text;
use crate::decode::ServerNegotiationWait;
use crate::flow::{
    armed, conn_handled, feed_events, fresh_table, gap_text, key_handled, key_of_segment,
    key_opened, opens, segment_effect, segment_fed, side_fed, side_handled, survives, sweeps, Conn,
    ConnKey, Endpoint, Side, Table,
};
use crate::net::SegmentView;
use crate::output::Event;
use crate::reassembly::{drained, fed, inserted, seq_add, seq_ahead, total, Assembly, Held};
use crate::state::{conn_closed, fresh_stats, Ledger};
use crate::text::dec;
use vstd::prelude::*;

verus! {

/// Whoever talks to the watched port is the client, and whoever talks from it the server.
pub proof fn the_watched_port_is_the_servers(seg: SegmentView, port: u16)
    ensures
        seg.dst_port == port ==> key_of_segment(seg, port) == (ConnKey {
            client: Endpoint { ip: seg.src, port: seg.src_port },
            server: Endpoint { ip: seg.dst, port: seg.dst_port },
        }),
        seg.dst_port != port ==> key_of_segment(seg, port) == (ConnKey {
            client: Endpoint { ip: seg.dst, port: seg.dst_port },
            server: Endpoint { ip: seg.src, port: seg.src_port },
        }),
{
}

/// On an unknown connection a SYN or data opens one, and nothing else does. On one that is
/// known and open only a SYN of the client with another number does, and on a closed one any
/// SYN.
pub proof fn when_connections_open(c: Conn, seg: SegmentView, port: u16)
    ensures
        opens(None, seg, port) <==> seg.syn || seg.payload.len() > 0,
        !seg.syn ==> !opens(Some(c), seg, port),
        seg.syn && c.closed_at is Some ==> opens(Some(c), seg, port),
        seg.syn && c.closed_at is None && seg.dst_port != port ==> !opens(Some(c), seg, port),
        seg.syn && c.closed_at is None && seg.dst_port == port ==> (opens(Some(c), seg, port) <==> !(
        c.client.isn is Some && c.client.isn->0 == seg.seq)),
{
}

/// An opened connection is announced with both ends and counted, and it starts from nothing
/// under the next number; one that was open in its place closes.
#[verifier::rlimit(30)]
pub proof fn opening_announces_and_counts(t: Table, m: Ledger, key: ConnKey, port: u16, now: u64)
    requires
        m.conns_opened < u64::MAX,
    ensures
        ({
            let s = key_opened(t, m, key, port, now);
            &&& s.events == seq![
                Event::Line(
                    "=== new connection  "@ + ip_text(key.client.ip) + ":"@ + dec(
                        key.client.port as nat,
                    ) + "  ->  "@ + ip_text(key.server.ip) + ":"@ + dec(key.server.port as nat)
                        + "  (port "@ + dec(port as nat) + ") ==="@,
                ),
            ]
            &&& s.table.map.contains_key(key)
            &&& s.table.map[key].closed_at is None
            &&& !s.table.map[key].encrypted
            &&& s.table.map[key].client.buffer.len() == 0
            &&& s.table.map[key].server.buffer.len() == 0
            &&& s.table.map[key].client.role is Client
            &&& s.table.map[key].server.role is Server
            &&& s.table.map[key].client.client.ip == key.client.ip
            &&& s.table.map[key].client.client.port == key.client.port
            &&& s.table.map[key].server.client == s.table.map[key].client.client
            &&& s.table.map[key].last_seen == t.clock
            &&& s.ledger.conns_opened == m.conns_opened + 1
            &&& forall|k: ConnKey|
                k != key ==> (#[trigger] s.table.map.contains_key(k) <==> t.map.contains_key(k))
                    && (t.map.contains_key(k) ==> s.table.map[k] == t.map[k])
        }),
{
}

/// The registry's entry of an opened connection names its two ends.
pub proof fn opened_connections_are_registered(
    m: Ledger,
    key: ConnKey,
    t: Table,
    port: u16,
    now: u64,
)
    requires
        !t.map.contains_key(key),
        m.entries.len() < m.connection_cap,
        m.entries.dom().finite(),
    ensures
        ({
            let s = key_opened(t, m, key, port, now);
            let id = s.table.map[key].stats;
            &&& id == m.next_conn_id
            &&& s.ledger.entries.contains_key(id)
            &&& s.ledger.entries[id].client.ip == key.client.ip
            &&& s.ledger.entries[id].client.port == key.client.port
            &&& s.ledger.entries[id].server.ip == key.server.ip
            &&& s.ledger.entries[id].server.port == key.server.port
            &&& !s.ledger.entries[id].encrypted
        }),
{
    let id = m.next_conn_id;
    let client = crate::flow::socket_at(key.client);
    let server = crate::flow::socket_at(key.server);
    let grown = m.entries.insert(id, fresh_stats(id, client, server, false, now));
    assert(grown.len() <= m.entries.len() + 1);
}

/// The first FIN or RST of a connection closes it, is announced as what it is, and takes it off
/// the live ones. A segment without either leaves an open connection open, and a closed one
/// stays closed since when it was.
#[verifier::rlimit(30)]
pub proof fn only_fin_and_rst_close(
    t: Table,
    m: Ledger,
    key: ConnKey,
    seg: SegmentView,
    port: u16,
    now: u64,
)
    requires
        t.map.contains_key(key),
    ensures
        ({
            let s = key_handled(t, m, key, seg, port, now);
            let inner = conn_handled(Conn { last_seen: t.clock, ..t.map[key] }, seg, port, m);
            &&& s.table.map.contains_key(key)
            &&& t.map[key].closed_at is None && !seg.fin && !seg.rst
                ==> s.table.map[key].closed_at is None && s.events == inner.events && s.ledger
                == inner.ledger
            &&& t.map[key].closed_at is None && (seg.fin || seg.rst)
                ==> s.table.map[key].closed_at == Some(t.clock) && s.ledger == conn_closed(
                inner.ledger,
                t.map[key].stats,
                now,
            )
            &&& t.map[key].closed_at is None && seg.fin && !seg.rst ==> s.events
                == inner.events.push(Event::Line("=== connection closed (FIN) ==="@))
            &&& t.map[key].closed_at is None && seg.rst ==> s.events == inner.events.push(
                Event::Line("=== connection reset (RST) ==="@),
            )
            &&& t.map[key].closed_at is Some ==> s.table.map[key].closed_at
                == t.map[key].closed_at && s.events == inner.events && s.ledger == inner.ledger
        }),
{
}

/// What the client sends is decoded on its own side and counts as coming in; what the server
/// sends on the other, and counts as going out. The other side's bytes are not touched.
#[verifier::rlimit(30)]
pub proof fn traffic_stays_on_its_side(c: Conn, seg: SegmentView, port: u16, m: Ledger)
    requires
        !c.encrypted,
    ensures
        ({
            let s = conn_handled(c, seg, port, m);
            let client = side_handled(c.client, seg);
            let server = side_handled(c.server, seg);
            &&& seg.dst_port == port ==> s.conn.client == client.side && s.conn.server.buffer
                == c.server.buffer && s.conn.server.assembly == c.server.assembly && s.events
                == client.events
            &&& seg.dst_port == port ==> s.ledger.totals.msgs_out == m.totals.msgs_out
                && s.ledger.totals.bytes_out == m.totals.bytes_out
            &&& seg.dst_port == port && m.totals.msgs_in + client.outcome.msgs <= u64::MAX
                && m.totals.bytes_in + client.outcome.bytes <= u64::MAX && (client.outcome.msgs == 0
                ==> client.outcome.bytes == 0) ==> s.ledger.totals.msgs_in == m.totals.msgs_in
                + client.outcome.msgs && s.ledger.totals.bytes_in == m.totals.bytes_in
                + client.outcome.bytes
            &&& seg.dst_port != port ==> s.conn.server == server.side && s.conn.client == c.client
                && s.events == server.events
            &&& seg.dst_port != port ==> s.ledger.totals.msgs_in == m.totals.msgs_in
                && s.ledger.totals.bytes_in == m.totals.bytes_in
            &&& seg.dst_port != port && m.totals.msgs_out + server.outcome.msgs <= u64::MAX
                && m.totals.bytes_out + server.outcome.bytes <= u64::MAX && (server.outcome.msgs
                == 0 ==> server.outcome.bytes == 0) ==> s.ledger.totals.msgs_out
                == m.totals.msgs_out + server.outcome.msgs && s.ledger.totals.bytes_out
                == m.totals.bytes_out + server.outcome.bytes
            &&& s.conn.stats == c.stats
            &&& s.conn.closed_at == c.closed_at
        }),
{
}

/// A request of the client arms the server's side for the answer of its kind, and nothing else
/// does.
pub proof fn requests_arm_the_server(ctx: crate::wire::DecodeContext, wait: ServerNegotiationWait)
    ensures
        wait is Ssl ==> armed(ctx, wait).awaiting_backend_ssl_response && armed(
            ctx,
            wait,
        ).awaiting_backend_gss_response == ctx.awaiting_backend_gss_response,
        wait is Gss ==> armed(ctx, wait).awaiting_backend_gss_response && armed(
            ctx,
            wait,
        ).awaiting_backend_ssl_response == ctx.awaiting_backend_ssl_response,
        wait is NotWaiting ==> armed(ctx, wait) == ctx,
{
}

/// Traffic that is not of the watched port is not looked at, and traffic from that port to that
/// port is warned of once.
pub proof fn other_traffic_is_ignored(t: Table, m: Ledger, seg: SegmentView, port: u16, now: u64)
    ensures
        ({
            let s = segment_effect(t, m, seg, port, now);
            &&& seg.src_port != port && seg.dst_port != port ==> s.table == t && s.ledger == m
                && s.events.len() == 0
            &&& seg.src_port == port && seg.dst_port == port ==> s.table.map == t.map && s.ledger
                == m && s.table.warned_same_port
            &&& seg.src_port == port && seg.dst_port == port && t.warned_same_port
                ==> s.events.len() == 0
            &&& seg.src_port == port && seg.dst_port == port && !t.warned_same_port ==> s.events
                == seq![
                Event::Status(
                    "tapgres: ignoring traffic where both endpoints use the monitored port; direction cannot be classified"@,
                ),
            ]
        }),
{
}

/// A closed connection is kept for 256 segments more, and an open one as long as it is open.
pub proof fn tombstones_have_a_grace(c: Conn, clock: u64, at: u64)
    requires
        at <= clock,
    ensures
        c.closed_at is None ==> survives(c, clock),
        c.closed_at == Some(at) ==> (survives(c, clock) <==> clock - at <= 256),
{
}

// --- reassembly ------------------------------------------------------------------------------------

/// Sequence numbers wrap: one is ahead of another by what must be added to it, as long as that
/// is less than half of all of them.
pub proof fn sequence_numbers_wrap(a: u32, n: int)
    requires
        -0x8000_0000 <= n < 0x8000_0000,
    ensures
        seq_ahead(seq_add(a, n), a) == n,
        seq_add(a, 0) == a,
        seq_add(0xffff_ffff, 1) == 0,
{
}

/// Data that comes in order is delivered as it is; what was delivered before is left out, and
/// what comes ahead is held.
#[verifier::rlimit(30)]
pub proof fn data_is_delivered_from_the_position_on(next: u32, seq: u32, data: Seq<u8>)
    requires
        0 < data.len() <= 262_144,
    ensures
        ({
            let f = fed(Assembly { next: Some(next), held: Seq::empty() }, seq, false, data);
            let gap = seq_ahead(seq, next);
            &&& gap == 0 ==> f.data == data && f.state.next == Some(
                seq_add(next, data.len() as int),
            )
            &&& gap < 0 && -gap < data.len() ==> f.data == data.skip(-gap) && f.state.next == Some(
                seq_add(next, data.len() + gap),
            )
            &&& gap < 0 && -gap >= data.len() ==> f.data.len() == 0 && f.state.next == Some(next)
            &&& gap > 0 ==> f.data.len() == 0 && f.state.next == Some(next) && f.state.held
                == seq![Held { start: seq, data }]
            &&& f.lost is None
        }),
{
    let gap = seq_ahead(seq, next);
    if gap > 0 {
        lemma_one_held(seq, data);
    } else if -gap < data.len() {
        lemma_nothing_held(seq_add(next, data.skip(-gap).len() as int));
        assert(data.skip(0) =~= data);
        assert(data.skip(-gap) + Seq::<u8>::empty() =~= data.skip(-gap));
    }
}

/// The first data fixes the position where no SYN was seen; behind a SYN it is numbered from the
/// next number on.
pub proof fn the_first_data_is_delivered(seq: u32, data: Seq<u8>)
    requires
        data.len() > 0,
    ensures
        ({
            let fresh = Assembly { next: None, held: Seq::empty() };
            let syn = fed(fresh, seq, true, data);
            let first = fed(fresh, seq, false, data);
            &&& syn.data == data && syn.state.next == Some(
                seq_add(seq_add(seq, 1), data.len() as int),
            )
            &&& first.data == data && first.state.next == Some(seq_add(seq, data.len() as int))
            &&& syn.lost is None && first.lost is None
        }),
{
    lemma_nothing_held(seq_add(seq_add(seq, 1), data.len() as int));
    lemma_nothing_held(seq_add(seq, data.len() as int));
    assert(data.skip(0) =~= data);
    assert(data + Seq::<u8>::empty() =~= data);
}

proof fn lemma_nothing_held(adv: u32)
    ensures
        drained(Seq::empty(), adv).data == Seq::<u8>::empty(),
        drained(Seq::empty(), adv).next == adv,
        drained(Seq::empty(), adv).held == Seq::<Held>::empty(),
{
}

proof fn lemma_one_held(seq: u32, data: Seq<u8>)
    ensures
        inserted(Seq::empty(), Held { start: seq, data }) == seq![Held { start: seq, data }],
        total(seq![Held { start: seq, data }]) == data.len(),
{
    let none = Seq::<Held>::empty();
    let h = Held { start: seq, data };
    assert(inserted(none, h) =~= seq![h]);
    assert(seq![h].drop_last() =~= none);
    assert(total(none) == 0);
}

/// A gap before more bytes than are held at most is given up: the bytes behind it are delivered,
/// and how many are lost is told.
#[verifier::rlimit(30)]
pub proof fn hopeless_gaps_are_skipped(next: u32, seq: u32, data: Seq<u8>)
    requires
        seq_ahead(seq, next) > 0,
        262_144 < data.len() < 0x8000_0000,
        seq + data.len() < 0x1_0000_0000,
    ensures
        ({
            let f = fed(Assembly { next: Some(next), held: Seq::empty() }, seq, false, data);
            &&& f.data == data
            &&& f.lost == Some(seq_ahead(seq, next) as u32)
            &&& f.state.held.len() == 0
            &&& f.state.next == Some((seq + data.len()) as u32)
        }),
        forall|lost: u32| #[trigger]
            gap_text(lost) == "reassembly gap: ~"@ + dec(lost as nat)
                + " bytes lost (capture drop?), resyncing stream"@,
{
    let none = Seq::<Held>::empty();
    let h = Held { start: seq, data };
    let held = seq![h];
    assert(inserted(none, h) =~= held);
    assert(held.drop_last() =~= none);
    assert(total(none) == 0);
    assert(total(held) == data.len());
    assert(crate::reassembly::starts_before(held, seq + 1) == 1);
    assert(held.remove(0) =~= none);
    let end = seq_add(seq, data.len() as int);
    assert(end == seq + data.len());
    assert(crate::reassembly::starts_before(none, end + 1) == 0);
    assert(drained(none, end).data =~= Seq::<u8>::empty());
    assert(data.skip(0) + Seq::<u8>::empty() =~= data);
    assert(seq_ahead(end, seq) == data.len());
    let d = drained(held, seq);
    assert(d.data =~= data);
}

/// Of two held segments with one start the longer is kept, whichever comes first.
pub proof fn the_longer_segment_is_kept(start: u32, short: Seq<u8>, long: Seq<u8>)
    requires
        short.len() < long.len(),
    ensures
        ({
            let a = Held { start, data: short };
            let b = Held { start, data: long };
            inserted(seq![a], b) == seq![b] && inserted(seq![b], a) == seq![b] && inserted(
                seq![b],
                b,
            ) == seq![b]
        }),
{
    let a = Held { start, data: short };
    let b = Held { start, data: long };
    assert(seq![a].drop_last() =~= Seq::<Held>::empty());
    assert(seq![b].drop_last() =~= Seq::<Held>::empty());
    assert(crate::reassembly::starts_before(Seq::<Held>::empty(), start as int) == 0);
    assert(crate::reassembly::starts_before(seq![a], start as int) == 0);
    assert(crate::reassembly::starts_before(seq![b], start as int) == 0);
    assert(seq![a].update(0, b) =~= seq![b]);
}

/// After a gap what was buffered before it is given up, for the start of a message is lost with
/// it; otherwise what is delivered joins what was there. Nothing else of a side changes but its
/// position, and the number of a SYN is kept.
pub proof fn gaps_drop_what_was_buffered(d: Side, seq: u32, syn: bool, data: Seq<u8>)
    ensures
        ({
            let f = segment_fed(d, seq, syn, data);
            let after = side_fed(d, seq, syn, data);
            &&& f.lost is Some ==> after.buffer == f.data
            &&& f.lost is None ==> after.buffer == d.buffer + f.data
            &&& after.assembly == f.state
            &&& syn ==> after.isn == Some(seq)
            &&& !syn ==> after.isn == d.isn
            &&& after.ctx == d.ctx && after.row_desc == d.row_desc && after.prepared == d.prepared
            &&& f.lost is None ==> feed_events(d, seq, syn, data).len() == 0
            &&& f.lost matches Some(lost) ==> feed_events(d, seq, syn, data) == seq![
                Event::Warning { role: d.role, client: d.client, text: gap_text(lost) },
            ]
        }),
{
}

/// The table is swept every 512 segments, and not between.
pub proof fn sweeps_come_at_intervals(t: Table, m: Ledger, now: u64, after: Table, ledger: Ledger)
    requires
        sweeps(t, m, now, after, ledger),
    ensures
        t.clock < t.next_sweep ==> after == t && ledger == m,
        t.clock >= t.next_sweep && t.clock + 512 <= u64::MAX ==> after.next_sweep == t.clock + 512
            && after.clock == t.clock && after.map.submap_of(t.map),
        fresh_table(t.max_connections).next_sweep == 512,
        fresh_table(t.max_connections).map.len() == 0,
{
}

} // verus!
