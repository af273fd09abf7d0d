//! Source-agnostic connection and traffic metrics.
//!
//! Aggregate counters and rate history stand beside a registry of connections. Closed
//! connections keep their final counters until the registry outgrows its cap; open
//! ones are never evicted.
use crate::addr::SocketAddr;
use std::collections::{BTreeMap, VecDeque};
use vstd::prelude::*;
use vstd::std_specs::iter::IteratorSpec;

verus! {

pub const DEFAULT_CONNECTION_CAP: usize = 10_000;

pub const DEFAULT_RATE_HISTORY: usize = 60;

pub type ConnId = u64;

#[derive(Clone, Copy, PartialEq, Eq, Structural, Debug)]
pub enum TrafficDirection {
    In,
    Out,
}

/// Whether a connection is open, and since and until when. Times are readings of a
/// monotonic clock, in milliseconds.
#[derive(Clone, Copy, PartialEq, Eq, Structural, Debug)]
pub enum ConnectionLifecycle {
    Open { since: u64 },
    Closed { since: u64, ended: u64 },
}

/// The counters of one connection.
#[derive(Clone, Copy, PartialEq, Eq, Structural, Debug)]
pub struct ConnStats {
    pub id: ConnId,
    pub client: SocketAddr,
    pub server: SocketAddr,
    pub lifecycle: ConnectionLifecycle,
    pub encrypted: bool,
    pub msgs_in: u64,
    pub msgs_out: u64,
    pub bytes_in: u64,
    pub bytes_out: u64,
}

/// The counters of one connection at the time of a snapshot.
#[derive(Clone, Copy, PartialEq, Eq, Structural, Debug)]
pub struct ConnSnapshot {
    pub id: ConnId,
    pub client: SocketAddr,
    pub server: SocketAddr,
    pub lifecycle: ConnectionLifecycle,
    pub encrypted: bool,
    pub msgs_in: u64,
    pub msgs_out: u64,
    pub bytes_in: u64,
    pub bytes_out: u64,
}

/// The traffic of one sampling interval.
#[derive(Clone, Copy, PartialEq, Eq, Structural, Debug)]
pub struct RateSample {
    pub msgs_in: u64,
    pub msgs_out: u64,
    pub bytes_in: u64,
    pub bytes_out: u64,
}

impl Default for RateSample {
    fn default() -> (r: RateSample)
        ensures
            r == (RateSample { msgs_in: 0, msgs_out: 0, bytes_in: 0, bytes_out: 0 }),
    {
        RateSample { msgs_in: 0, msgs_out: 0, bytes_in: 0, bytes_out: 0 }
    }
}

/// The traffic of all connections since the start.
#[derive(Clone, Copy, PartialEq, Eq, Structural, Debug)]
pub struct Totals {
    pub msgs_in: u64,
    pub msgs_out: u64,
    pub bytes_in: u64,
    pub bytes_out: u64,
}

/// Everything at one time: the aggregates, each retained connection and the rates.
#[derive(Clone, Debug)]
pub struct MetricsSnapshot {
    pub conns_opened: u64,
    pub conns_live: usize,
    pub msgs_in: u64,
    pub msgs_out: u64,
    pub bytes_in: u64,
    pub bytes_out: u64,
    pub connections: Vec<ConnSnapshot>,
    pub rates: Vec<RateSample>,
}

/// The aggregates and the rates, without the connections.
#[derive(Clone, Debug)]
pub struct MetricsSummary {
    pub conns_opened: u64,
    pub conns_live: usize,
    pub msgs_in: u64,
    pub msgs_out: u64,
    pub bytes_in: u64,
    pub bytes_out: u64,
    pub rates: Vec<RateSample>,
}

pub struct Metrics {
    conns_opened: u64,
    conns_live: usize,
    next_conn_id: u64,
    totals: Totals,
    entries: BTreeMap<ConnId, ConnStats>,
    closed: VecDeque<ConnId>,
    previous: Totals,
    samples: VecDeque<RateSample>,
    connection_cap: usize,
    rate_history: usize,
}

/// What [`Metrics`] hold.
#[verifier::ext_equal]
pub struct Ledger {
    pub conns_opened: u64,
    pub conns_live: usize,
    pub next_conn_id: u64,
    pub totals: Totals,
    /// The retained connections.
    pub entries: Map<ConnId, ConnStats>,
    /// The retained connections that are closed, in the order in which they closed.
    pub closed: Seq<ConnId>,
    /// The totals at the last rate sample.
    pub previous: Totals,
    pub samples: Seq<RateSample>,
    pub connection_cap: usize,
    pub rate_history: usize,
}

impl View for Metrics {
    type V = Ledger;

    closed spec fn view(&self) -> Ledger {
        Ledger {
            conns_opened: self.conns_opened,
            conns_live: self.conns_live,
            next_conn_id: self.next_conn_id,
            totals: self.totals,
            entries: self.entries@,
            closed: self.closed@,
            previous: self.previous,
            samples: self.samples@,
            connection_cap: self.connection_cap,
            rate_history: self.rate_history,
        }
    }
}

// --- what the operations do -----------------------------------------------------------

pub open spec fn zero_totals() -> Totals {
    Totals { msgs_in: 0, msgs_out: 0, bytes_in: 0, bytes_out: 0 }
}

/// Metrics that have seen nothing.
pub open spec fn fresh_ledger(connection_cap: usize, rate_history: usize) -> Ledger {
    Ledger {
        conns_opened: 0,
        conns_live: 0,
        next_conn_id: 1,
        totals: zero_totals(),
        entries: Map::empty(),
        closed: Seq::empty(),
        previous: zero_totals(),
        samples: Seq::empty(),
        connection_cap,
        rate_history,
    }
}

/// A connection that has just opened.
pub open spec fn fresh_stats(
    id: ConnId,
    client: SocketAddr,
    server: SocketAddr,
    encrypted: bool,
    now: u64,
) -> ConnStats {
    ConnStats {
        id,
        client,
        server,
        lifecycle: ConnectionLifecycle::Open { since: now },
        encrypted,
        msgs_in: 0,
        msgs_out: 0,
        bytes_in: 0,
        bytes_out: 0,
    }
}

/// Drops the connections that closed first while more than `cap` are retained.
pub open spec fn trimmed(entries: Map<ConnId, ConnStats>, closed: Seq<ConnId>, cap: usize) -> (
    Map<ConnId, ConnStats>,
    Seq<ConnId>,
)
    decreases closed.len(),
{
    if entries.len() > cap && closed.len() > 0 {
        trimmed(entries.remove(closed[0]), closed.skip(1), cap)
    } else {
        (entries, closed)
    }
}

/// The metrics after a connection opened under the next id. Where that makes more than
/// the cap, those that closed first go; open ones never do.
pub open spec fn opened(
    m: Ledger,
    client: SocketAddr,
    server: SocketAddr,
    encrypted: bool,
    now: u64,
) -> Ledger {
    let grown = m.entries.insert(
        m.next_conn_id,
        fresh_stats(m.next_conn_id, client, server, encrypted, now),
    );
    let (entries, closed) = trimmed(grown, m.closed, m.connection_cap);
    Ledger {
        conns_opened: m.conns_opened.wrapping_add(1),
        conns_live: m.conns_live.wrapping_add(1),
        next_conn_id: m.next_conn_id.wrapping_add(1),
        entries,
        closed,
        ..m
    }
}

/// Totals with `count` messages of `bytes` bytes more in one direction.
pub open spec fn total_with(t: Totals, direction: TrafficDirection, count: u64, bytes: u64) -> Totals {
    match direction {
        TrafficDirection::In => Totals {
            msgs_in: t.msgs_in.wrapping_add(count),
            bytes_in: t.bytes_in.wrapping_add(bytes),
            ..t
        },
        TrafficDirection::Out => Totals {
            msgs_out: t.msgs_out.wrapping_add(count),
            bytes_out: t.bytes_out.wrapping_add(bytes),
            ..t
        },
    }
}

/// A connection with `count` messages of `bytes` bytes more in one direction.
pub open spec fn stats_with(c: ConnStats, direction: TrafficDirection, count: u64, bytes: u64) -> ConnStats {
    match direction {
        TrafficDirection::In => ConnStats {
            msgs_in: c.msgs_in.wrapping_add(count),
            bytes_in: c.bytes_in.wrapping_add(bytes),
            ..c
        },
        TrafficDirection::Out => ConnStats {
            msgs_out: c.msgs_out.wrapping_add(count),
            bytes_out: c.bytes_out.wrapping_add(bytes),
            ..c
        },
    }
}

/// The metrics after messages on a connection: the totals count them, and so does the
/// connection while it is retained.
pub open spec fn recorded(
    m: Ledger,
    conn: ConnId,
    direction: TrafficDirection,
    count: u64,
    bytes: u64,
) -> Ledger {
    Ledger {
        totals: total_with(m.totals, direction, count, bytes),
        entries: if m.entries.contains_key(conn) {
            m.entries.insert(conn, stats_with(m.entries[conn], direction, count, bytes))
        } else {
            m.entries
        },
        ..m
    }
}

/// The metrics after a connection turned out to be encrypted or not.
pub open spec fn marked_encrypted(m: Ledger, conn: ConnId, encrypted: bool) -> Ledger {
    if m.entries.contains_key(conn) {
        Ledger {
            entries: m.entries.insert(conn, ConnStats { encrypted, ..m.entries[conn] }),
            ..m
        }
    } else {
        m
    }
}

/// The metrics after a connection closed. One that is closed already, or no longer
/// retained, changes nothing.
pub open spec fn conn_closed(m: Ledger, conn: ConnId, now: u64) -> Ledger {
    if m.entries.contains_key(conn) && m.entries[conn].lifecycle is Open {
        let since = m.entries[conn].lifecycle->Open_since;
        let marked = m.entries.insert(
            conn,
            ConnStats {
                lifecycle: ConnectionLifecycle::Closed { since, ended: now },
                ..m.entries[conn]
            },
        );
        let (entries, closed) = trimmed(marked, m.closed.push(conn), m.connection_cap);
        Ledger { conns_live: m.conns_live.wrapping_sub(1), entries, closed, ..m }
    } else {
        m
    }
}

/// What was added since the last sample; nothing where a counter went down.
pub open spec fn added(now: u64, before: u64) -> u64 {
    if now > before {
        (now - before) as u64
    } else {
        0
    }
}

/// The next rate sample.
pub open spec fn next_sample(m: Ledger) -> RateSample {
    RateSample {
        msgs_in: added(m.totals.msgs_in, m.previous.msgs_in),
        msgs_out: added(m.totals.msgs_out, m.previous.msgs_out),
        bytes_in: added(m.totals.bytes_in, m.previous.bytes_in),
        bytes_out: added(m.totals.bytes_out, m.previous.bytes_out),
    }
}

/// The last `n` of some samples.
pub open spec fn newest(samples: Seq<RateSample>, n: usize) -> Seq<RateSample> {
    if samples.len() > n {
        samples.skip(samples.len() - n)
    } else {
        samples
    }
}

/// The metrics after a rate sample.
pub open spec fn sampled(m: Ledger) -> Ledger {
    Ledger {
        previous: m.totals,
        samples: if m.rate_history == 0 {
            m.samples
        } else {
            newest(m.samples.push(next_sample(m)), m.rate_history)
        },
        ..m
    }
}

/// A connection as a snapshot shows it.
pub open spec fn snapshot_of(c: ConnStats) -> ConnSnapshot {
    ConnSnapshot {
        id: c.id,
        client: c.client,
        server: c.server,
        lifecycle: c.lifecycle,
        encrypted: c.encrypted,
        msgs_in: c.msgs_in,
        msgs_out: c.msgs_out,
        bytes_in: c.bytes_in,
        bytes_out: c.bytes_out,
    }
}

/// Whether a list holds each retained connection once, ordered by registry key.
pub open spec fn lists_connections(list: Seq<ConnSnapshot>, entries: Map<ConnId, ConnStats>) -> bool {
    exists|keys: Seq<ConnId>|
        {
            &&& #[trigger] keys.len() == list.len()
            &&& keys.to_set() == entries.dom()
            &&& forall|i: int, j: int| 0 <= i < j < keys.len() ==> keys[i] < keys[j]
            &&& forall|i: int|
                0 <= i < list.len() ==> #[trigger] list[i] == snapshot_of(entries[keys[i]])
        }
}

/// The keys of the registry come in increasing order.
proof fn lemma_keys_increase(m: &BTreeMap<ConnId, ConnStats>)
    ensures
        ({
            let keys = vstd::std_specs::btree::spec_keys_iter(m).remaining();
            forall|i: int, j: int| 0 <= i < j < keys.len() ==> *keys[i] < *keys[j]
        }),
{
    broadcast use vstd::std_specs::btree::group_btree_axioms;
    broadcast use vstd::laws_cmp::group_laws_cmp;

    let keys = vstd::std_specs::btree::spec_keys_iter(m).remaining();
    vstd::std_specs::btree::axiom_spec_keys_iter(m);
    assert(vstd::laws_cmp::obeys_cmp::<&ConnId>());
    assert forall|i: int, j: int| 0 <= i < j < keys.len() implies *keys[i] < *keys[j] by {
        assert(vstd::std_specs::cmp::OrdSpec::cmp_spec(&keys[i], &keys[j]) is Less);
    }
}

// --- the metrics -------------------------------------------------------------------------

impl Default for Metrics {
    fn default() -> (m: Metrics)
        ensures
            m@ == fresh_ledger(DEFAULT_CONNECTION_CAP, DEFAULT_RATE_HISTORY),
    {
        Metrics::new()
    }
}

impl Metrics {
    pub fn new() -> (m: Metrics)
        ensures
            m@ == fresh_ledger(DEFAULT_CONNECTION_CAP, DEFAULT_RATE_HISTORY),
    {
        Metrics::with_limits(DEFAULT_CONNECTION_CAP, DEFAULT_RATE_HISTORY)
    }

    pub fn with_limits(connection_cap: usize, rate_history: usize) -> (m: Metrics)
        ensures
            m@ == fresh_ledger(connection_cap, rate_history),
    {
        let zero = Totals { msgs_in: 0, msgs_out: 0, bytes_in: 0, bytes_out: 0 };
        Metrics {
            conns_opened: 0,
            conns_live: 0,
            next_conn_id: 1,
            totals: zero,
            entries: BTreeMap::new(),
            closed: VecDeque::new(),
            previous: zero,
            samples: VecDeque::new(),
            connection_cap,
            rate_history,
        }
    }

    /// Registers a connection; the id stands for it in the other operations.
    pub fn open_connection(
        &mut self,
        client: SocketAddr,
        server: SocketAddr,
        encrypted: bool,
        now: u64,
    ) -> (id: ConnId)
        ensures
            id == old(self)@.next_conn_id,
            final(self)@ == opened(old(self)@, client, server, encrypted, now),
    {
        broadcast use vstd::std_specs::btree::group_btree_axioms;

        let id: u64 = self.next_conn_id;
        self.next_conn_id = id.wrapping_add(1);
        self.entries.insert(
            id,
            ConnStats {
                id,
                client,
                server,
                lifecycle: ConnectionLifecycle::Open { since: now },
                encrypted,
                msgs_in: 0,
                msgs_out: 0,
                bytes_in: 0,
                bytes_out: 0,
            },
        );
        self.conns_opened = self.conns_opened.wrapping_add(1);
        self.conns_live = self.conns_live.wrapping_add(1);
        self.trim_closed();
        id
    }

    /// While more than the cap are retained, forgets the connections that closed first.
    fn trim_closed(&mut self)
        ensures
            ({
                let (entries, closed) = trimmed(
                    old(self)@.entries,
                    old(self)@.closed,
                    old(self)@.connection_cap,
                );
                final(self)@ == (Ledger { entries, closed, ..old(self)@ })
            }),
    {
        broadcast use vstd::std_specs::btree::group_btree_axioms;

        let ghost all = trimmed(self.entries@, self.closed@, self.connection_cap);
        let ghost start = self@;
        loop
            invariant
                self@ == (Ledger { entries: self.entries@, closed: self.closed@, ..start }),
                self.connection_cap == start.connection_cap,
                trimmed(self.entries@, self.closed@, self.connection_cap) == all,
            ensures
                self@ == (Ledger { entries: all.0, closed: all.1, ..start }),
            decreases self.closed@.len(),
        {
            if self.entries.len() <= self.connection_cap {
                break ;
            }
            let ghost queue = self.closed@;
            match self.closed.pop_front() {
                Some(id) => {
                    assert(self.closed@ =~= queue.skip(1));
                    self.entries.remove(&id);
                },
                // All retained entries are still open.
                None => {
                    break ;
                },
            }
        }
    }

    /// Accounts for `count` decoded messages (`bytes` of wire data) flowing in
    /// `direction` on a connection, in the totals and in the connection's counters.
    /// Called once per drain batch.
    pub fn record_messages(
        &mut self,
        conn: ConnId,
        direction: TrafficDirection,
        count: u64,
        bytes: u64,
    )
        ensures
            final(self)@ == recorded(old(self)@, conn, direction, count, bytes),
    {
        broadcast use vstd::std_specs::btree::group_btree_axioms;

        match direction {
            TrafficDirection::In => {
                self.totals.msgs_in = self.totals.msgs_in.wrapping_add(count);
                self.totals.bytes_in = self.totals.bytes_in.wrapping_add(bytes);
            },
            TrafficDirection::Out => {
                self.totals.msgs_out = self.totals.msgs_out.wrapping_add(count);
                self.totals.bytes_out = self.totals.bytes_out.wrapping_add(bytes);
            },
        }
        let found: Option<ConnStats> = match self.entries.get(&conn) {
            Some(c) => Some(*c),
            None => None,
        };
        if let Some(c) = found {
            let mut c = c;
            match direction {
                TrafficDirection::In => {
                    c.msgs_in = c.msgs_in.wrapping_add(count);
                    c.bytes_in = c.bytes_in.wrapping_add(bytes);
                },
                TrafficDirection::Out => {
                    c.msgs_out = c.msgs_out.wrapping_add(count);
                    c.bytes_out = c.bytes_out.wrapping_add(bytes);
                },
            }
            self.entries.insert(conn, c);
        }
    }

    pub fn set_encrypted(&mut self, conn: ConnId, encrypted: bool)
        ensures
            final(self)@ == marked_encrypted(old(self)@, conn, encrypted),
    {
        broadcast use vstd::std_specs::btree::group_btree_axioms;

        let found: Option<ConnStats> = match self.entries.get(&conn) {
            Some(c) => Some(*c),
            None => None,
        };
        if let Some(c) = found {
            self.entries.insert(conn, ConnStats { encrypted, ..c });
        }
    }

    /// Marks a connection closed and, while more than the cap are retained, forgets
    /// those that closed first.
    pub fn close_connection(&mut self, conn: ConnId, now: u64)
        ensures
            final(self)@ == conn_closed(old(self)@, conn, now),
    {
        broadcast use vstd::std_specs::btree::group_btree_axioms;

        let found: Option<ConnStats> = match self.entries.get(&conn) {
            Some(c) => Some(*c),
            None => None,
        };
        let c = match found {
            Some(c) => c,
            None => return,
        };
        let since: u64 = match c.lifecycle {
            ConnectionLifecycle::Open { since } => since,
            ConnectionLifecycle::Closed { .. } => return,
        };
        self.entries.insert(
            conn,
            ConnStats { lifecycle: ConnectionLifecycle::Closed { since, ended: now }, ..c },
        );
        self.conns_live = self.conns_live.wrapping_sub(1);
        self.closed.push_back(conn);
        self.trim_closed();
    }

    /// Takes the next fixed-interval rate sample: what was added to the totals since
    /// the last one.
    pub fn sample_rates(&mut self) -> (sample: RateSample)
        ensures
            sample == next_sample(old(self)@),
            final(self)@ == sampled(old(self)@),
    {
        let sample = RateSample {
            msgs_in: self.totals.msgs_in.saturating_sub(self.previous.msgs_in),
            msgs_out: self.totals.msgs_out.saturating_sub(self.previous.msgs_out),
            bytes_in: self.totals.bytes_in.saturating_sub(self.previous.bytes_in),
            bytes_out: self.totals.bytes_out.saturating_sub(self.previous.bytes_out),
        };
        self.previous = self.totals;
        if self.rate_history != 0 {
            self.samples.push_back(sample);
            let ghost all = self.samples@;
            let ghost start = self@;
            while self.samples.len() > self.rate_history
                invariant
                    newest(self.samples@, self.rate_history) == newest(all, self.rate_history),
                    self@ == (Ledger { samples: self.samples@, ..start }),
                    self.rate_history == start.rate_history,
                decreases self.samples@.len(),
            {
                let ghost before = self.samples@;
                self.samples.pop_front();
                assert(self.samples@ =~= before.skip(1));
                assert(newest(self.samples@, self.rate_history) =~= newest(
                    before,
                    self.rate_history,
                ));
            }
        }
        sample
    }

    /// Whether rates are sampled at all.
    pub fn keeps_rates(&self) -> (b: bool)
        ensures
            b == (self@.rate_history != 0),
    {
        self.rate_history != 0
    }

    /// The aggregates and rate history. Cheap enough for every frame: it does not
    /// touch retained connection records.
    pub fn summary(&self) -> (s: MetricsSummary)
        ensures
            s.conns_opened == self@.conns_opened,
            s.conns_live == self@.conns_live,
            s.msgs_in == self@.totals.msgs_in,
            s.msgs_out == self@.totals.msgs_out,
            s.bytes_in == self@.totals.bytes_in,
            s.bytes_out == self@.totals.bytes_out,
            s.rates@ == self@.samples,
    {
        let mut rates: Vec<RateSample> = Vec::new();
        let mut i: usize = 0;
        while i < self.samples.len()
            invariant
                i <= self.samples@.len(),
                rates@ == self.samples@.take(i as int),
            decreases self.samples@.len() - i,
        {
            rates.push(self.samples[i]);
            i = i + 1;
            assert(rates@ =~= self.samples@.take(i as int));
        }
        assert(self.samples@.take(self.samples@.len() as int) =~= self.samples@);
        MetricsSummary {
            conns_opened: self.conns_opened,
            conns_live: self.conns_live,
            msgs_in: self.totals.msgs_in,
            msgs_out: self.totals.msgs_out,
            bytes_in: self.totals.bytes_in,
            bytes_out: self.totals.bytes_out,
            rates,
        }
    }

    /// Everything, with the retained connections ordered by id.
    pub fn snapshot(&self) -> (s: MetricsSnapshot)
        ensures
            s.conns_opened == self@.conns_opened,
            s.conns_live == self@.conns_live,
            s.msgs_in == self@.totals.msgs_in,
            s.msgs_out == self@.totals.msgs_out,
            s.bytes_in == self@.totals.bytes_in,
            s.bytes_out == self@.totals.bytes_out,
            s.rates@ == self@.samples,
            lists_connections(s.connections@, self@.entries),
    {
        broadcast use vstd::std_specs::btree::group_btree_axioms;

        let summary = self.summary();
        let mut connections: Vec<ConnSnapshot> = Vec::new();
        let ghost mut keys = Seq::<ConnId>::empty();
        proof {
            lemma_keys_increase(&self.entries);
        }
        for k in it: self.entries.keys()
            invariant
                it.index() <= it.seq().len(),
                connections@.len() == it.index(),
                keys.len() == it.index(),
                forall|i: int| 0 <= i < keys.len() ==> #[trigger] keys[i] == *it.seq()[i],
                it.seq().unref().to_set() == self.entries@.dom(),
                it.seq() == vstd::std_specs::btree::spec_keys_iter(&self.entries).remaining(),
                forall|i: int, j: int|
                    0 <= i < j < it.seq().len() ==> *it.seq()[i] < *it.seq()[j],
                keys =~= it.seq().unref().take(it.index() as int),
                forall|i: int|
                    0 <= i < connections@.len() ==> #[trigger] connections@[i] == snapshot_of(
                        self.entries@[keys[i]],
                    ),
        {
            let c: ConnStats = match self.entries.get(k) {
                Some(c) => *c,
                None => {
                    assert(false);
                    return MetricsSnapshot {
                        conns_opened: 0,
                        conns_live: 0,
                        msgs_in: 0,
                        msgs_out: 0,
                        bytes_in: 0,
                        bytes_out: 0,
                        connections,
                        rates: summary.rates,
                    };
                },
            };
            connections.push(
                ConnSnapshot {
                    id: c.id,
                    client: c.client,
                    server: c.server,
                    lifecycle: c.lifecycle,
                    encrypted: c.encrypted,
                    msgs_in: c.msgs_in,
                    msgs_out: c.msgs_out,
                    bytes_in: c.bytes_in,
                    bytes_out: c.bytes_out,
                },
            );
            proof {
                keys = keys.push(*k);
            }
        }
        proof {
            let all = vstd::std_specs::btree::spec_keys_iter(&self.entries).remaining().unref();
            assert(keys =~= all);
        }
        MetricsSnapshot {
            conns_opened: summary.conns_opened,
            conns_live: summary.conns_live,
            msgs_in: summary.msgs_in,
            msgs_out: summary.msgs_out,
            bytes_in: summary.bytes_in,
            bytes_out: summary.bytes_out,
            connections,
            rates: summary.rates,
        }
    }
}

// --- laws -----------------------------------------------------------------------------------

/// The connections that are open.
pub open spec fn open_ids(entries: Map<ConnId, ConnStats>) -> Set<ConnId> {
    entries.dom().filter(|k: ConnId| entries[k].lifecycle is Open)
}

/// What every operation keeps: each connection stands under its own id, the queue of
/// closed connections holds each retained closed one once, as many connections count
/// as live as are open, more than the cap are retained only where all are open, and no
/// more samples are kept than wanted.
pub open spec fn tidy(m: Ledger) -> bool {
    &&& m.entries.dom().finite()
    &&& forall|k: ConnId| #[trigger] m.entries.contains_key(k) ==> m.entries[k].id == k
    &&& m.closed.no_duplicates()
    &&& forall|k: ConnId|
        #[trigger] m.closed.contains(k) <==> m.entries.contains_key(k)
            && m.entries[k].lifecycle is Closed
    &&& m.conns_live == open_ids(m.entries).len()
    &&& m.entries.len() <= m.connection_cap || m.closed.len() == 0
    &&& m.samples.len() <= m.rate_history
}

/// Metrics that have seen nothing are tidy.
pub proof fn fresh_is_tidy(connection_cap: usize, rate_history: usize)
    ensures
        tidy(fresh_ledger(connection_cap, rate_history)),
{
    let m = fresh_ledger(connection_cap, rate_history);
    assert(open_ids(m.entries) =~= Set::<ConnId>::empty());
}

/// Counting messages keeps metrics tidy.
pub proof fn recording_keeps_tidy(
    m: Ledger,
    conn: ConnId,
    direction: TrafficDirection,
    count: u64,
    bytes: u64,
)
    requires
        tidy(m),
    ensures
        tidy(recorded(m, conn, direction, count, bytes)),
        open_ids(recorded(m, conn, direction, count, bytes).entries) == open_ids(m.entries),
{
    let after = recorded(m, conn, direction, count, bytes);
    assert(after.entries.dom() =~= m.entries.dom());
    assert(open_ids(after.entries) =~= open_ids(m.entries));
    assert forall|k: ConnId| #[trigger] after.closed.contains(k) <==> after.entries.contains_key(k)
        && after.entries[k].lifecycle is Closed by {
        assert(m.closed.contains(k) <==> m.entries.contains_key(k)
            && m.entries[k].lifecycle is Closed);
    }
}

/// Marking a connection encrypted keeps metrics tidy.
pub proof fn marking_keeps_tidy(m: Ledger, conn: ConnId, encrypted: bool)
    requires
        tidy(m),
    ensures
        tidy(marked_encrypted(m, conn, encrypted)),
        open_ids(marked_encrypted(m, conn, encrypted).entries) == open_ids(m.entries),
{
    let after = marked_encrypted(m, conn, encrypted);
    assert(after.entries.dom() =~= m.entries.dom());
    assert(open_ids(after.entries) =~= open_ids(m.entries));
    assert forall|k: ConnId| #[trigger] after.closed.contains(k) <==> after.entries.contains_key(k)
        && after.entries[k].lifecycle is Closed by {
        assert(m.closed.contains(k) <==> m.entries.contains_key(k)
            && m.entries[k].lifecycle is Closed);
    }
}

/// Sampling keeps metrics tidy, and makes the totals the base of the next sample.
pub proof fn sampling_keeps_tidy(m: Ledger)
    requires
        tidy(m),
    ensures
        tidy(sampled(m)),
        sampled(m).previous == m.totals,
{
}

/// Whether the queue holds retained, closed connections only, each once.
spec fn queue_is_closed(entries: Map<ConnId, ConnStats>, closed: Seq<ConnId>) -> bool {
    &&& entries.dom().finite()
    &&& closed.no_duplicates()
    &&& forall|k: ConnId|
        #[trigger] closed.contains(k) <==> entries.contains_key(k)
            && entries[k].lifecycle is Closed
}

proof fn lemma_trimmed(entries: Map<ConnId, ConnStats>, closed: Seq<ConnId>, cap: usize)
    requires
        queue_is_closed(entries, closed),
    ensures
        ({
            let (kept, queue) = trimmed(entries, closed, cap);
            &&& queue_is_closed(kept, queue)
            &&& open_ids(kept) == open_ids(entries)
            &&& kept.submap_of(entries)
            &&& kept.len() <= cap || queue.len() == 0
            &&& queue.len() <= closed.len()
            &&& queue == closed.skip(closed.len() - queue.len())
            &&& entries.len() <= cap ==> kept == entries
        }),
    decreases closed.len(),
{
    if entries.len() > cap && closed.len() > 0 {
        let first = closed[0];
        let less = entries.remove(first);
        let rest = closed.skip(1);
        assert(closed.contains(first));
        assert(rest.no_duplicates());
        assert forall|k: ConnId| #[trigger] rest.contains(k) <==> less.contains_key(k)
            && less[k].lifecycle is Closed by {
            if rest.contains(k) {
                let i = choose|i: int| 0 <= i < rest.len() && rest[i] == k;
                assert(closed[i + 1] == k);
                assert(closed.contains(k));
                assert(k != first) by {
                    assert(closed[0] != closed[i + 1]);
                }
            }
            if less.contains_key(k) && less[k].lifecycle is Closed {
                assert(closed.contains(k));
                let i = choose|i: int| 0 <= i < closed.len() && closed[i] == k;
                assert(i != 0);
                assert(rest[i - 1] == k);
            }
        }
        assert(open_ids(less) =~= open_ids(entries));
        lemma_trimmed(less, rest, cap);
        let (kept, queue) = trimmed(less, rest, cap);
        assert(kept.submap_of(entries));
        assert(queue =~= closed.skip(closed.len() - queue.len()));
    } else {
        assert(closed =~= closed.skip(0));
    }
}

/// Opening a connection keeps metrics tidy, and adds one live connection. Where that
/// makes more than the cap, the connections that closed first are forgotten, and no open
/// one. The next id must be free, as it is until the ids wrap.
pub proof fn opening_keeps_tidy(
    m: Ledger,
    client: SocketAddr,
    server: SocketAddr,
    encrypted: bool,
    now: u64,
)
    requires
        tidy(m),
        !m.entries.contains_key(m.next_conn_id),
        m.conns_live < usize::MAX,
    ensures
        ({
            let after = opened(m, client, server, encrypted, now);
            &&& tidy(after)
            &&& open_ids(after.entries) == open_ids(m.entries).insert(m.next_conn_id)
            &&& after.closed.len() <= m.closed.len()
            &&& after.closed == m.closed.skip(m.closed.len() - after.closed.len())
            &&& forall|k: ConnId|
                #[trigger] after.entries.contains_key(k) && k != m.next_conn_id
                    ==> m.entries.contains_key(k) && after.entries[k] == m.entries[k]
        }),
{
    let after = opened(m, client, server, encrypted, now);
    let id = m.next_conn_id;
    let grown = m.entries.insert(id, fresh_stats(id, client, server, encrypted, now));
    assert(open_ids(grown) =~= open_ids(m.entries).insert(id));
    assert forall|k: ConnId| #[trigger] m.closed.contains(k) <==> grown.contains_key(k)
        && grown[k].lifecycle is Closed by {
        assert(m.closed.contains(k) <==> m.entries.contains_key(k)
            && m.entries[k].lifecycle is Closed);
    }
    lemma_trimmed(grown, m.closed, m.connection_cap);
    assert forall|k: ConnId| #[trigger] after.entries.contains_key(k) implies after.entries[k].id
        == k && (k != id ==> m.entries.contains_key(k) && after.entries[k] == m.entries[k]) by {
        assert(grown.contains_key(k));
        assert(after.entries[k] == grown[k]);
    }
}

/// Closing a connection keeps metrics tidy and takes one connection off the live ones.
/// No open connection is evicted: those forgotten are the ones that closed first, and
/// only while more than the cap are retained. What stays keeps its counters.
pub proof fn closing_evicts_only_the_oldest_closed(m: Ledger, conn: ConnId, now: u64)
    requires
        tidy(m),
        m.entries.contains_key(conn),
        m.entries[conn].lifecycle is Open,
    ensures
        ({
            let after = conn_closed(m, conn, now);
            let queued = m.closed.push(conn);
            &&& tidy(after)
            &&& open_ids(after.entries) == open_ids(m.entries).remove(conn)
            &&& forall|k: ConnId|
                #[trigger] m.entries.contains_key(k) && k != conn && m.entries[k].lifecycle is Open
                    ==> after.entries.contains_key(k) && after.entries[k] == m.entries[k]
            &&& forall|k: ConnId|
                #[trigger] after.entries.contains_key(k) && k != conn ==> after.entries[k]
                    == m.entries[k]
            &&& after.closed.len() <= queued.len()
            &&& after.closed == queued.skip(queued.len() - after.closed.len())
            &&& after.entries.len() <= m.connection_cap || after.closed.len() == 0
        }),
{
    let after = conn_closed(m, conn, now);
    let since = m.entries[conn].lifecycle->Open_since;
    let gone = ConnStats {
        lifecycle: ConnectionLifecycle::Closed { since, ended: now },
        ..m.entries[conn]
    };
    let marked = m.entries.insert(conn, gone);
    let queued = m.closed.push(conn);
    assert(marked.dom() =~= m.entries.dom());
    assert(!m.closed.contains(conn));
    assert(queued.no_duplicates());
    assert forall|k: ConnId| #[trigger] queued.contains(k) <==> marked.contains_key(k)
        && marked[k].lifecycle is Closed by {
        assert(m.closed.contains(k) <==> m.entries.contains_key(k)
            && m.entries[k].lifecycle is Closed);
        if m.closed.contains(k) {
            let i = choose|i: int| 0 <= i < m.closed.len() && m.closed[i] == k;
            assert(queued[i] == k);
        }
        assert(queued[queued.len() - 1] == conn);
        if queued.contains(k) && k != conn {
            let i = choose|i: int| 0 <= i < queued.len() && queued[i] == k;
            assert(m.closed[i] == k);
        }
    }
    assert(open_ids(marked) =~= open_ids(m.entries).remove(conn));
    assert(open_ids(m.entries).contains(conn));
    lemma_trimmed(marked, queued, m.connection_cap);
    let (kept, queue) = trimmed(marked, queued, m.connection_cap);
    assert forall|k: ConnId|
        #[trigger] m.entries.contains_key(k) && k != conn
            && m.entries[k].lifecycle is Open implies after.entries.contains_key(k)
        && after.entries[k] == m.entries[k] by {
        assert(open_ids(marked).contains(k));
        assert(open_ids(kept).contains(k));
        assert(kept.contains_key(k));
    }
    assert forall|k: ConnId| #[trigger] after.entries.contains_key(k) implies after.entries[k].id
        == k && (k != conn ==> after.entries[k] == m.entries[k]) by {
        assert(marked.contains_key(k));
        assert(m.entries.contains_key(k));
        assert(kept[k] == marked[k]);
    }
    assert(open_ids(m.entries).len() > 0);
    assert(after.conns_live == open_ids(after.entries).len());
}

/// While the counters have not wrapped, a sample is exactly what was added to the
/// totals since the sample before it.
pub proof fn samples_are_deltas(m: Ledger)
    requires
        m.previous.msgs_in <= m.totals.msgs_in,
        m.previous.msgs_out <= m.totals.msgs_out,
        m.previous.bytes_in <= m.totals.bytes_in,
        m.previous.bytes_out <= m.totals.bytes_out,
    ensures
        ({
            let s = next_sample(m);
            let after = sampled(m);
            &&& m.previous.msgs_in + s.msgs_in == after.previous.msgs_in
            &&& m.previous.msgs_out + s.msgs_out == after.previous.msgs_out
            &&& m.previous.bytes_in + s.bytes_in == after.previous.bytes_in
            &&& m.previous.bytes_out + s.bytes_out == after.previous.bytes_out
        }),
{
}

// --- laws over a whole run ---------------------------------------------------------------------

/// One call on the metrics.
pub enum Call {
    Open { client: SocketAddr, server: SocketAddr, encrypted: bool, now: u64 },
    Record { conn: ConnId, direction: TrafficDirection, count: u64, bytes: u64 },
    Mark { conn: ConnId, encrypted: bool },
    Close { conn: ConnId, now: u64 },
    Sample,
}

/// The metrics after a call.
pub open spec fn called(m: Ledger, c: Call) -> Ledger {
    match c {
        Call::Open { client, server, encrypted, now } => opened(m, client, server, encrypted, now),
        Call::Record { conn, direction, count, bytes } => recorded(
            m,
            conn,
            direction,
            count,
            bytes,
        ),
        Call::Mark { conn, encrypted } => marked_encrypted(m, conn, encrypted),
        Call::Close { conn, now } => conn_closed(m, conn, now),
        Call::Sample => sampled(m),
    }
}

/// Fresh metrics after a run of calls.
pub open spec fn after_calls(connection_cap: usize, rate_history: usize, calls: Seq<Call>) -> Ledger
    decreases calls.len(),
{
    if calls.len() == 0 {
        fresh_ledger(connection_cap, rate_history)
    } else {
        called(after_calls(connection_cap, rate_history, calls.drop_last()), calls.last())
    }
}

/// How many calls of a run open a connection.
pub open spec fn opens_in(calls: Seq<Call>) -> nat
    decreases calls.len(),
{
    if calls.len() == 0 {
        0
    } else {
        opens_in(calls.drop_last()) + if calls.last() is Open {
            1nat
        } else {
            0nat
        }
    }
}

/// How many connections of a list are open.
pub open spec fn open_in(list: Seq<ConnSnapshot>) -> nat
    decreases list.len(),
{
    if list.len() == 0 {
        0
    } else {
        open_in(list.drop_last()) + if list.last().lifecycle is Open {
            1nat
        } else {
            0nat
        }
    }
}

proof fn lemma_run(connection_cap: usize, rate_history: usize, calls: Seq<Call>)
    requires
        calls.len() < usize::MAX,
    ensures
        ({
            let m = after_calls(connection_cap, rate_history, calls);
            &&& tidy(m)
            &&& opens_in(calls) <= calls.len()
            &&& m.conns_opened == opens_in(calls)
            &&& m.next_conn_id == opens_in(calls) + 1
            &&& m.conns_live <= opens_in(calls)
            &&& m.connection_cap == connection_cap
            &&& m.rate_history == rate_history
            &&& forall|k: ConnId| #[trigger] m.entries.contains_key(k) ==> k < m.next_conn_id
        }),
    decreases calls.len(),
{
    if calls.len() == 0 {
        fresh_is_tidy(connection_cap, rate_history);
    } else {
        lemma_run(connection_cap, rate_history, calls.drop_last());
        let m = after_calls(connection_cap, rate_history, calls.drop_last());
        match calls.last() {
            Call::Open { client, server, encrypted, now } => {
                opening_keeps_tidy(m, client, server, encrypted, now);
            },
            Call::Record { conn, direction, count, bytes } => {
                recording_keeps_tidy(m, conn, direction, count, bytes);
            },
            Call::Mark { conn, encrypted } => {
                marking_keeps_tidy(m, conn, encrypted);
            },
            Call::Close { conn, now } => {
                if m.entries.contains_key(conn) && m.entries[conn].lifecycle is Open {
                    closing_evicts_only_the_oldest_closed(m, conn, now);
                    let after = conn_closed(m, conn, now);
                    assert forall|k: ConnId| #[trigger] after.entries.contains_key(k) implies k
                        < m.next_conn_id by {
                        assert(m.entries.contains_key(k)) by {
                            closing_keeps_ids(m, conn, now, k);
                        }
                    }
                }
            },
            Call::Sample => {
                sampling_keeps_tidy(m);
            },
        }
    }
}

/// Whatever calls were made, the metrics are tidy.
pub proof fn run_is_tidy(connection_cap: usize, rate_history: usize, calls: Seq<Call>)
    requires
        calls.len() < usize::MAX,
    ensures
        tidy(after_calls(connection_cap, rate_history, calls)),
{
    lemma_run(connection_cap, rate_history, calls);
}

proof fn closing_keeps_ids(m: Ledger, conn: ConnId, now: u64, k: ConnId)
    requires
        tidy(m),
        conn_closed(m, conn, now).entries.contains_key(k),
    ensures
        m.entries.contains_key(k),
{
    if m.entries.contains_key(conn) && m.entries[conn].lifecycle is Open {
        let since = m.entries[conn].lifecycle->Open_since;
        let gone = ConnStats {
            lifecycle: ConnectionLifecycle::Closed { since, ended: now },
            ..m.entries[conn]
        };
        let marked = m.entries.insert(conn, gone);
        lemma_trimmed_keys(marked, m.closed.push(conn), m.connection_cap);
        assert(trimmed(marked, m.closed.push(conn), m.connection_cap).0.contains_key(k));
    }
}

proof fn lemma_trimmed_keys(entries: Map<ConnId, ConnStats>, closed: Seq<ConnId>, cap: usize)
    ensures
        forall|k: ConnId| #[trigger]
            trimmed(entries, closed, cap).0.contains_key(k) ==> entries.contains_key(k),
    decreases closed.len(),
{
    if entries.len() > cap && closed.len() > 0 {
        let less = entries.remove(closed[0]);
        lemma_trimmed_keys(less, closed.skip(1), cap);
        assert forall|k: ConnId| #[trigger]
            trimmed(entries, closed, cap).0.contains_key(k) implies entries.contains_key(k) by {
            assert(trimmed(less, closed.skip(1), cap).0.contains_key(k));
            assert(less.contains_key(k));
        }
    }
}

proof fn lemma_open_in(list: Seq<ConnSnapshot>, keys: Seq<ConnId>, entries: Map<ConnId, ConnStats>)
    requires
        keys.len() == list.len(),
        keys.no_duplicates(),
        forall|i: int| 0 <= i < list.len() ==> #[trigger] list[i] == snapshot_of(entries[keys[i]]),
    ensures
        open_in(list) == keys.to_set().filter(|k: ConnId| entries[k].lifecycle is Open).len(),
        keys.to_set().finite(),
    decreases list.len(),
{
    let is_open = |k: ConnId| entries[k].lifecycle is Open;
    if list.len() == 0 {
        assert(keys.to_set().filter(is_open) =~= Set::<ConnId>::empty());
        assert(keys.to_set() =~= Set::<ConnId>::empty());
    } else {
        let less = keys.drop_last();
        let k = keys.last();
        assert forall|i: int| 0 <= i < list.drop_last().len() implies #[trigger] list.drop_last()[i]
            == snapshot_of(entries[less[i]]) by {
            assert(list.drop_last()[i] == list[i]);
        }
        lemma_open_in(list.drop_last(), less, entries);
        assert(list[list.len() - 1] == snapshot_of(entries[k]));
        assert(!less.to_set().contains(k));
        assert(keys.to_set() =~= less.to_set().insert(k)) by {
            assert forall|x: ConnId| keys.to_set().contains(x) implies less.to_set().insert(
                k,
            ).contains(x) by {
                let i = choose|i: int| 0 <= i < keys.len() && keys[i] == x;
                if i < less.len() {
                    assert(less[i] == x);
                }
            }
            assert forall|x: ConnId| less.to_set().insert(k).contains(x) implies keys.to_set().contains(
            x) by {
                if less.contains(x) {
                    let i = choose|i: int| 0 <= i < less.len() && less[i] == x;
                    assert(keys[i] == x);
                } else {
                    assert(keys[keys.len() - 1] == x);
                }
            }
        }
        if is_open(k) {
            assert(keys.to_set().filter(is_open) =~= less.to_set().filter(is_open).insert(k));
        } else {
            assert(keys.to_set().filter(is_open) =~= less.to_set().filter(is_open));
        }
    }
}

/// Whatever calls were made, a snapshot lists the retained connections by ascending id,
/// as many of them are open as count as live, every opening is counted, and more than
/// the cap are retained only where all of them are open. Closing a closed connection
/// again changes nothing.
pub proof fn snapshots_agree_with_the_calls(
    connection_cap: usize,
    rate_history: usize,
    calls: Seq<Call>,
    list: Seq<ConnSnapshot>,
)
    requires
        calls.len() < usize::MAX,
        lists_connections(list, after_calls(connection_cap, rate_history, calls).entries),
    ensures
        ({
            let m = after_calls(connection_cap, rate_history, calls);
            &&& forall|i: int, j: int| 0 <= i < j < list.len() ==> list[i].id < list[j].id
            &&& open_in(list) == m.conns_live
            &&& m.conns_opened == opens_in(calls)
            &&& list.len() <= connection_cap || open_in(list) == list.len()
            &&& forall|k: ConnId, now: u64|
                !(m.entries.contains_key(k) && m.entries[k].lifecycle is Open)
                    ==> #[trigger] conn_closed(m, k, now) == m
        }),
{
    let m = after_calls(connection_cap, rate_history, calls);
    lemma_run(connection_cap, rate_history, calls);
    let keys = choose|keys: Seq<ConnId>|
        {
            &&& #[trigger] keys.len() == list.len()
            &&& keys.to_set() == m.entries.dom()
            &&& forall|i: int, j: int| 0 <= i < j < keys.len() ==> keys[i] < keys[j]
            &&& forall|i: int|
                0 <= i < list.len() ==> #[trigger] list[i] == snapshot_of(m.entries[keys[i]])
        };
    assert forall|i: int| 0 <= i < list.len() implies (#[trigger] list[i]).id == keys[i] by {
        assert(keys.to_set().contains(keys[i]));
        assert(m.entries.contains_key(keys[i]));
    }
    lemma_open_in(list, keys, m.entries);
    assert(open_ids(m.entries) =~= keys.to_set().filter(
        |k: ConnId| m.entries[k].lifecycle is Open,
    ));
    keys.unique_seq_to_set();
    if m.closed.len() == 0 {
        assert forall|k: ConnId| m.entries.dom().contains(k) implies open_ids(m.entries).contains(
            k,
        ) by {
            assert(!m.closed.contains(k));
        }
        assert(open_ids(m.entries) =~= m.entries.dom());
    }
}

/// A count of messages and bytes each way, without bound.
pub struct Amounts {
    pub msgs_in: nat,
    pub msgs_out: nat,
    pub bytes_in: nat,
    pub bytes_out: nat,
}

/// What the calls of a run recorded.
pub open spec fn recorded_in(calls: Seq<Call>) -> Amounts
    decreases calls.len(),
{
    if calls.len() == 0 {
        Amounts { msgs_in: 0, msgs_out: 0, bytes_in: 0, bytes_out: 0 }
    } else {
        let before = recorded_in(calls.drop_last());
        match calls.last() {
            Call::Record { direction: TrafficDirection::In, count, bytes, .. } => Amounts {
                msgs_in: before.msgs_in + count as nat,
                bytes_in: before.bytes_in + bytes as nat,
                ..before
            },
            Call::Record { direction: TrafficDirection::Out, count, bytes, .. } => Amounts {
                msgs_out: before.msgs_out + count as nat,
                bytes_out: before.bytes_out + bytes as nat,
                ..before
            },
            _ => before,
        }
    }
}

/// The samples that the calls of a run returned.
pub open spec fn samples_in(connection_cap: usize, rate_history: usize, calls: Seq<Call>) -> Seq<
    RateSample,
>
    decreases calls.len(),
{
    if calls.len() == 0 {
        Seq::empty()
    } else {
        let before = samples_in(connection_cap, rate_history, calls.drop_last());
        if calls.last() is Sample {
            before.push(
                next_sample(after_calls(connection_cap, rate_history, calls.drop_last())),
            )
        } else {
            before
        }
    }
}

/// Some samples together.
pub open spec fn summed(samples: Seq<RateSample>) -> Amounts
    decreases samples.len(),
{
    if samples.len() == 0 {
        Amounts { msgs_in: 0, msgs_out: 0, bytes_in: 0, bytes_out: 0 }
    } else {
        let before = summed(samples.drop_last());
        let r = samples.last();
        Amounts {
            msgs_in: before.msgs_in + r.msgs_in as nat,
            msgs_out: before.msgs_out + r.msgs_out as nat,
            bytes_in: before.bytes_in + r.bytes_in as nat,
            bytes_out: before.bytes_out + r.bytes_out as nat,
        }
    }
}

/// Totals as unbounded counts.
pub open spec fn amounts(t: Totals) -> Amounts {
    Amounts {
        msgs_in: t.msgs_in as nat,
        msgs_out: t.msgs_out as nat,
        bytes_in: t.bytes_in as nat,
        bytes_out: t.bytes_out as nat,
    }
}

/// Whether no count is beyond what a counter holds.
pub open spec fn countable(a: Amounts) -> bool {
    a.msgs_in <= u64::MAX && a.msgs_out <= u64::MAX && a.bytes_in <= u64::MAX && a.bytes_out
        <= u64::MAX
}

/// The samples of a run add up to the totals as they were at the last of them, and the
/// history holds the newest of them, oldest first; the totals are what was recorded. The
/// counters must not wrap.
pub proof fn samples_add_up(connection_cap: usize, rate_history: usize, calls: Seq<Call>)
    requires
        countable(recorded_in(calls)),
    ensures
        ({
            let m = after_calls(connection_cap, rate_history, calls);
            let samples = samples_in(connection_cap, rate_history, calls);
            &&& amounts(m.totals) == recorded_in(calls)
            &&& summed(samples) == amounts(m.previous)
            &&& calls.len() > 0 && calls.last() is Sample ==> summed(samples) == amounts(m.totals)
            &&& m.samples == newest(samples, rate_history)
            &&& m.rate_history == rate_history
            &&& m.connection_cap == connection_cap
            &&& m.previous.msgs_in <= m.totals.msgs_in
            &&& m.previous.msgs_out <= m.totals.msgs_out
            &&& m.previous.bytes_in <= m.totals.bytes_in
            &&& m.previous.bytes_out <= m.totals.bytes_out
        }),
    decreases calls.len(),
{
    let samples = samples_in(connection_cap, rate_history, calls);
    if calls.len() == 0 {
        assert(newest(samples, rate_history) =~= Seq::<RateSample>::empty());
    } else {
        let less = calls.drop_last();
        samples_add_up(connection_cap, rate_history, less);
        let m = after_calls(connection_cap, rate_history, less);
        let before = samples_in(connection_cap, rate_history, less);
        if calls.last() is Sample {
            assert(samples.drop_last() =~= before);
            samples_are_deltas(m);
            assert(sampled(m).samples =~= newest(samples, rate_history));
        }
    }
}

} // verus!
