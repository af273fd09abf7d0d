//! What a run of calls makes of each connection: who it joins, how long it lasts and what
//! it has carried.
use crate::addr::SocketAddr;
use crate::state::{
    added, after_calls, amounts, countable, lists_connections, newest, opens_in, recorded_in,
    snapshot_of, trimmed, Amounts, Call, ConnId, ConnSnapshot, ConnStats, ConnectionLifecycle,
    RateSample, TrafficDirection,
};
use vstd::prelude::*;

verus! {

/// What the calls of a run say of one connection.
pub struct Story {
    pub client: SocketAddr,
    pub server: SocketAddr,
    pub since: u64,
    /// When it was first closed, if it was.
    pub ended: Option<u64>,
    /// What it was last said to be.
    pub encrypted: bool,
    /// What was recorded on it since it opened.
    pub carried: Amounts,
}

pub open spec fn nothing_carried() -> Amounts {
    Amounts { msgs_in: 0, msgs_out: 0, bytes_in: 0, bytes_out: 0 }
}

/// An amount and one record more.
pub open spec fn carried_more(
    a: Amounts,
    direction: TrafficDirection,
    count: u64,
    bytes: u64,
) -> Amounts {
    if direction is In {
        Amounts { msgs_in: a.msgs_in + count as nat, bytes_in: a.bytes_in + bytes as nat, ..a }
    } else {
        Amounts { msgs_out: a.msgs_out + count as nat, bytes_out: a.bytes_out + bytes as nat, ..a }
    }
}

/// The story of the connection that a run opened as its `k`th; `None` where it opened fewer.
pub open spec fn story_of(calls: Seq<Call>, k: int) -> Option<Story>
    decreases calls.len(),
{
    if calls.len() == 0 {
        None
    } else {
        let before = story_of(calls.drop_last(), k);
        match calls.last() {
            Call::Open { client, server, encrypted, now } => if opens_in(calls) == k {
                Some(
                    Story {
                        client,
                        server,
                        since: now,
                        ended: None,
                        encrypted,
                        carried: nothing_carried(),
                    },
                )
            } else {
                before
            },
            Call::Record { conn, direction, count, bytes } => match before {
                Some(s) if conn == k => Some(
                    Story { carried: carried_more(s.carried, direction, count, bytes), ..s },
                ),
                _ => before,
            },
            Call::Mark { conn, encrypted } => match before {
                Some(s) if conn == k => Some(Story { encrypted, ..s }),
                _ => before,
            },
            Call::Close { conn, now } => match before {
                Some(s) if conn == k && s.ended is None => Some(Story { ended: Some(now), ..s }),
                _ => before,
            },
            Call::Sample => before,
        }
    }
}

/// Whether a retained connection is as its story has it.
pub open spec fn tells(c: ConnStats, k: int, s: Story) -> bool {
    &&& c.id == k
    &&& c.client == s.client
    &&& c.server == s.server
    &&& c.encrypted == s.encrypted
    &&& match s.ended {
        None => c.lifecycle == (ConnectionLifecycle::Open { since: s.since }),
        Some(ended) => c.lifecycle == (ConnectionLifecycle::Closed { since: s.since, ended }),
    }
    &&& c.msgs_in == s.carried.msgs_in
    &&& c.msgs_out == s.carried.msgs_out
    &&& c.bytes_in == s.carried.bytes_in
    &&& c.bytes_out == s.carried.bytes_out
}

/// Whether one amount is no more than another.
pub open spec fn within(a: Amounts, b: Amounts) -> bool {
    a.msgs_in <= b.msgs_in && a.msgs_out <= b.msgs_out && a.bytes_in <= b.bytes_in && a.bytes_out
        <= b.bytes_out
}

/// What one connection carried is no more than what was recorded in all.
proof fn lemma_story_within(calls: Seq<Call>, k: int)
    ensures
        story_of(calls, k) matches Some(s) ==> within(s.carried, recorded_in(calls)) && 1 <= k
            <= opens_in(calls),
    decreases calls.len(),
{
    if calls.len() > 0 {
        lemma_story_within(calls.drop_last(), k);
    }
}

/// What was recorded never shrinks.
proof fn lemma_recorded_grows(calls: Seq<Call>)
    requires
        calls.len() > 0,
    ensures
        within(recorded_in(calls.drop_last()), recorded_in(calls)),
{
}

proof fn lemma_trimmed_is_part(
    entries: Map<ConnId, ConnStats>,
    closed: Seq<ConnId>,
    cap: usize,
    k: ConnId,
)
    ensures
        trimmed(entries, closed, cap).0.contains_key(k) ==> entries.contains_key(k) && trimmed(
            entries,
            closed,
            cap,
        ).0[k] == entries[k],
    decreases closed.len(),
{
    if entries.len() > cap && closed.len() > 0 {
        lemma_trimmed_is_part(entries.remove(closed[0]), closed.skip(1), cap, k);
    }
}

/// Every retained connection is what the calls of the run say of it: it joins the two that
/// it was opened for, it is open until it was first closed, and each of its counters is the
/// sum of what was recorded on it in that direction since it opened. The counters must not
/// wrap.
#[verifier::rlimit(30)]
pub proof fn connections_tell_their_stories(
    connection_cap: usize,
    rate_history: usize,
    calls: Seq<Call>,
    k: ConnId,
)
    requires
        calls.len() < usize::MAX,
        countable(recorded_in(calls)),
        after_calls(connection_cap, rate_history, calls).entries.contains_key(k),
    ensures
        ({
            let c = after_calls(connection_cap, rate_history, calls).entries[k];
            story_of(calls, k as int) matches Some(s) && tells(c, k as int, s)
        }),
    decreases calls.len(),
{
    if calls.len() > 0 {
        let less = calls.drop_last();
        let m = after_calls(connection_cap, rate_history, less);
        lemma_ids(connection_cap, rate_history, less);
        lemma_recorded_grows(calls);
        if m.entries.contains_key(k) {
            connections_tell_their_stories(connection_cap, rate_history, less, k);
        }
        lemma_story_within(calls, k as int);
        match calls.last() {
            Call::Open { client, server, encrypted, now } => {
                let grown = m.entries.insert(
                    m.next_conn_id,
                    crate::state::fresh_stats(m.next_conn_id, client, server, encrypted, now),
                );
                lemma_trimmed_is_part(grown, m.closed, m.connection_cap, k);
            },
            Call::Close { conn, now } => {
                if m.entries.contains_key(conn) && m.entries[conn].lifecycle is Open {
                    let since = m.entries[conn].lifecycle->Open_since;
                    let gone = ConnStats {
                        lifecycle: ConnectionLifecycle::Closed { since, ended: now },
                        ..m.entries[conn]
                    };
                    lemma_trimmed_is_part(
                        m.entries.insert(conn, gone),
                        m.closed.push(conn),
                        m.connection_cap,
                        k,
                    );
                }
            },
            _ => {},
        }
    }
}

/// The ids of a run are handed out in order from one on.
proof fn lemma_ids(connection_cap: usize, rate_history: usize, calls: Seq<Call>)
    requires
        calls.len() < usize::MAX,
    ensures
        ({
            let m = after_calls(connection_cap, rate_history, calls);
            &&& m.next_conn_id == opens_in(calls) + 1
            &&& opens_in(calls) <= calls.len()
            &&& m.connection_cap == connection_cap
            &&& forall|k: ConnId| #[trigger]
                m.entries.contains_key(k) ==> 1 <= k <= opens_in(calls)
        }),
    decreases calls.len(),
{
    if calls.len() > 0 {
        let less = calls.drop_last();
        lemma_ids(connection_cap, rate_history, less);
        let m = after_calls(connection_cap, rate_history, less);
        let after = after_calls(connection_cap, rate_history, calls);
        assert forall|k: ConnId| #[trigger] after.entries.contains_key(k) implies 1 <= k
            <= opens_in(calls) by {
            match calls.last() {
                Call::Open { client, server, encrypted, now } => {
                    let grown = m.entries.insert(
                        m.next_conn_id,
                        crate::state::fresh_stats(m.next_conn_id, client, server, encrypted, now),
                    );
                    lemma_trimmed_is_part(grown, m.closed, m.connection_cap, k);
                    if k != m.next_conn_id {
                        assert(m.entries.contains_key(k));
                    }
                },
                Call::Close { conn, now } => {
                    if m.entries.contains_key(conn) && m.entries[conn].lifecycle is Open {
                        let since = m.entries[conn].lifecycle->Open_since;
                        let gone = ConnStats {
                            lifecycle: ConnectionLifecycle::Closed { since, ended: now },
                            ..m.entries[conn]
                        };
                        lemma_trimmed_is_part(
                            m.entries.insert(conn, gone),
                            m.closed.push(conn),
                            m.connection_cap,
                            k,
                        );
                    }
                    assert(m.entries.contains_key(k));
                },
                _ => {
                    assert(m.entries.contains_key(k));
                },
            }
        }
    }
}

/// What a snapshot shows of a connection is its story.
pub open spec fn shows(c: ConnSnapshot, s: Story) -> bool {
    &&& c.client == s.client
    &&& c.server == s.server
    &&& c.encrypted == s.encrypted
    &&& match s.ended {
        None => c.lifecycle == (ConnectionLifecycle::Open { since: s.since }),
        Some(ended) => c.lifecycle == (ConnectionLifecycle::Closed { since: s.since, ended }),
    }
    &&& c.msgs_in == s.carried.msgs_in
    &&& c.msgs_out == s.carried.msgs_out
    &&& c.bytes_in == s.carried.bytes_in
    &&& c.bytes_out == s.carried.bytes_out
}

/// Each connection that a snapshot lists is shown as the run's calls have it, under the number
/// that it was opened as.
pub proof fn snapshots_show_the_stories(
    connection_cap: usize,
    rate_history: usize,
    calls: Seq<Call>,
    list: Seq<ConnSnapshot>,
)
    requires
        calls.len() < usize::MAX,
        countable(recorded_in(calls)),
        lists_connections(list, after_calls(connection_cap, rate_history, calls).entries),
    ensures
        forall|i: int|
            0 <= i < list.len() ==> (story_of(calls, (#[trigger] list[i]).id as int) matches Some(s)
                && shows(list[i], s)),
{
    let m = after_calls(connection_cap, rate_history, calls);
    let keys = choose|keys: Seq<ConnId>|
        {
            &&& #[trigger] keys.len() == list.len()
            &&& keys.to_set() == m.entries.dom()
            &&& forall|i: int, j: int| 0 <= i < j < keys.len() ==> keys[i] < keys[j]
            &&& forall|i: int|
                0 <= i < list.len() ==> #[trigger] list[i] == snapshot_of(m.entries[keys[i]])
        };
    assert forall|i: int| 0 <= i < list.len() implies (story_of(
        calls,
        (#[trigger] list[i]).id as int,
    ) matches Some(s) && shows(list[i], s)) by {
        assert(keys.to_set().contains(keys[i]));
        connections_tell_their_stories(connection_cap, rate_history, calls, keys[i]);
    }
}

// --- which connections are retained ------------------------------------------------------

proof fn lemma_trimmed_no_more(entries: Map<ConnId, ConnStats>, closed: Seq<ConnId>, cap: usize)
    requires
        entries.dom().finite(),
        closed.no_duplicates(),
        forall|k: ConnId| #[trigger] closed.contains(k) ==> entries.contains_key(k),
    ensures
        entries.len() <= cap ==> trimmed(entries, closed, cap).0 == entries,
        entries.len() > cap ==> trimmed(entries, closed, cap).0.len() >= cap,
        trimmed(entries, closed, cap).0.len() <= entries.len(),
    decreases closed.len(),
{
    if entries.len() > cap && closed.len() > 0 {
        let first = closed[0];
        let rest = closed.skip(1);
        let less = entries.remove(first);
        assert(closed.contains(first));
        assert forall|k: ConnId| #[trigger] rest.contains(k) implies less.contains_key(k) by {
            let i = choose|i: int| 0 <= i < rest.len() && rest[i] == k;
            assert(closed[i + 1] == k);
            assert(closed.contains(k));
            assert(closed[0] != closed[i + 1]);
        }
        assert(less.len() == entries.len() - 1);
        lemma_trimmed_no_more(less, rest, cap);
    }
}

/// No connection is forgotten needlessly: while no more than the cap were opened all are
/// retained, and where one was forgotten, at least as many as the cap still are.
#[verifier::rlimit(30)]
pub proof fn connections_are_retained_up_to_the_cap(
    connection_cap: usize,
    rate_history: usize,
    calls: Seq<Call>,
)
    requires
        calls.len() < usize::MAX,
    ensures
        ({
            let m = after_calls(connection_cap, rate_history, calls);
            &&& m.entries.len() <= opens_in(calls)
            &&& opens_in(calls) <= connection_cap ==> m.entries.len() == opens_in(calls)
            &&& m.entries.len() < opens_in(calls) ==> m.entries.len() >= connection_cap
        }),
    decreases calls.len(),
{
    if calls.len() > 0 {
        let less = calls.drop_last();
        connections_are_retained_up_to_the_cap(connection_cap, rate_history, less);
        lemma_ids(connection_cap, rate_history, less);
        let m = after_calls(connection_cap, rate_history, less);
        crate::state::run_is_tidy(connection_cap, rate_history, less);
        match calls.last() {
            Call::Open { client, server, encrypted, now } => {
                let grown = m.entries.insert(
                    m.next_conn_id,
                    crate::state::fresh_stats(m.next_conn_id, client, server, encrypted, now),
                );
                assert(!m.entries.contains_key(m.next_conn_id));
                assert(grown.len() == m.entries.len() + 1);
                lemma_trimmed_no_more(grown, m.closed, m.connection_cap);
            },
            Call::Record { conn, direction, count, bytes } => {
                let after = after_calls(connection_cap, rate_history, calls);
                assert(after.entries.dom() =~= m.entries.dom());
            },
            Call::Mark { conn, encrypted } => {
                let after = after_calls(connection_cap, rate_history, calls);
                assert(after.entries.dom() =~= m.entries.dom());
            },
            Call::Close { conn, now } => {
                if m.entries.contains_key(conn) && m.entries[conn].lifecycle is Open {
                    let since = m.entries[conn].lifecycle->Open_since;
                    let gone = ConnStats {
                        lifecycle: ConnectionLifecycle::Closed { since, ended: now },
                        ..m.entries[conn]
                    };
                    let marked = m.entries.insert(conn, gone);
                    let queued = m.closed.push(conn);
                    assert(marked.dom() =~= m.entries.dom());
                    assert(!m.closed.contains(conn));
                    assert forall|k: ConnId| #[trigger]
                        queued.contains(k) implies marked.contains_key(k) by {
                        let i = choose|i: int| 0 <= i < queued.len() && queued[i] == k;
                        if i < m.closed.len() {
                            assert(m.closed[i] == k);
                            assert(m.closed.contains(k));
                        }
                    }
                    lemma_trimmed_no_more(marked, queued, m.connection_cap);
                }
            },
            Call::Sample => {},
        }
    }
}

// --- the connections together -------------------------------------------------------------

/// What the first `n` connections of a run carried together.
pub open spec fn carried_by(calls: Seq<Call>, n: nat) -> Amounts
    decreases n,
{
    if n == 0 {
        nothing_carried()
    } else {
        let before = carried_by(calls, (n - 1) as nat);
        match story_of(calls, n as int) {
            Some(s) => Amounts {
                msgs_in: before.msgs_in + s.carried.msgs_in,
                msgs_out: before.msgs_out + s.carried.msgs_out,
                bytes_in: before.bytes_in + s.carried.bytes_in,
                bytes_out: before.bytes_out + s.carried.bytes_out,
            },
            None => before,
        }
    }
}

/// Whether each record of a run is of a connection that the run had opened before.
pub open spec fn records_opened_ones(calls: Seq<Call>) -> bool
    decreases calls.len(),
{
    calls.len() > 0 ==> records_opened_ones(calls.drop_last()) && (calls.last() matches Call::Record {
        conn,
        ..
    } ==> 1 <= conn <= opens_in(calls))
}

proof fn lemma_stories_exist(calls: Seq<Call>, k: int)
    ensures
        story_of(calls, k) is Some <==> 1 <= k <= opens_in(calls),
    decreases calls.len(),
{
    if calls.len() > 0 {
        lemma_stories_exist(calls.drop_last(), k);
    }
}

/// What a call adds to the first `n` connections.
proof fn lemma_carried_by(calls: Seq<Call>, n: nat)
    requires
        calls.len() > 0,
        n <= opens_in(calls),
    ensures
        carried_by(calls, n) == (match calls.last() {
            Call::Record { conn, direction, count, bytes } => if 1 <= conn <= n {
                carried_more(carried_by(calls.drop_last(), n), direction, count, bytes)
            } else {
                carried_by(calls.drop_last(), n)
            },
            _ => carried_by(calls.drop_last(), n),
        }),
    decreases n,
{
    let less = calls.drop_last();
    if n > 0 {
        lemma_carried_by(calls, (n - 1) as nat);
        lemma_stories_exist(less, n as int);
        lemma_stories_exist(calls, n as int);
    }
}

/// The connections together carried what the totals count.
pub proof fn connections_add_up_to_the_totals(
    connection_cap: usize,
    rate_history: usize,
    calls: Seq<Call>,
)
    requires
        countable(recorded_in(calls)),
        records_opened_ones(calls),
    ensures
        carried_by(calls, opens_in(calls)) == amounts(
            after_calls(connection_cap, rate_history, calls).totals,
        ),
{
    lemma_all_carried(calls);
    crate::state::samples_add_up(connection_cap, rate_history, calls);
}

proof fn lemma_all_carried(calls: Seq<Call>)
    requires
        records_opened_ones(calls),
    ensures
        carried_by(calls, opens_in(calls)) == recorded_in(calls),
    decreases calls.len(),
{
    if calls.len() > 0 {
        let less = calls.drop_last();
        lemma_all_carried(less);
        lemma_carried_by(calls, opens_in(calls));
        if calls.last() is Open {
            let n = opens_in(calls);
            lemma_stories_exist(less, n as int);
            assert(carried_by(less, n) == carried_by(less, (n - 1) as nat));
        }
    }
}

// --- rates ------------------------------------------------------------------------------------

/// A sample counts what was recorded since the one before, in each of the four counts: two
/// samples with records between them differ from one at the end by nothing.
pub proof fn samples_split_what_was_added(a: u64, b: u64, c: u64)
    requires
        a <= b <= c,
    ensures
        added(b, a) + added(c, b) == added(c, a),
        added(a, a) == 0,
        added(c, 0) == c,
        added(a, c) == 0,
{
}

/// The newest of some samples are the last of them in order, as many as are wanted.
pub proof fn newest_samples_come_last(before: Seq<RateSample>, last: Seq<RateSample>, n: usize)
    requires
        last.len() == n,
    ensures
        newest(before + last, n) == last,
        before.len() <= n ==> newest(before, n) == before,
{
    let all = before + last;
    if before.len() > 0 {
        assert(all.skip(all.len() - n) =~= last);
    } else {
        assert(all =~= last);
    }
}

} // verus!
