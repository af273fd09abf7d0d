//! The registry of connections.
use tapgres::addr::{IpAddr, SocketAddr};
use tapgres::state::{ConnectionLifecycle, Metrics, TrafficDirection};

fn endpoint(port: u16) -> SocketAddr {
    SocketAddr::new(IpAddr::V4(0x7f00_0001), port)
}

#[test]
fn closed_connections_retain_final_counters_with_a_cap() {
    let mut metrics = Metrics::with_limits(2, 60);
    for port in 1..=3 {
        let conn = metrics.open_connection(endpoint(port), endpoint(5432), false, 0);
        metrics.record_messages(conn, TrafficDirection::In, 1, port as u64);
        metrics.close_connection(conn, 0);
    }
    let snapshot = metrics.snapshot();
    assert_eq!(snapshot.conns_opened, 3);
    assert_eq!(snapshot.conns_live, 0);
    assert_eq!(snapshot.connections.len(), 2);
    assert_eq!(snapshot.connections[0].client.port, 2);
    assert_eq!(snapshot.connections[0].bytes_in, 2);
    assert!(matches!(
        snapshot.connections[0].lifecycle,
        ConnectionLifecycle::Closed { .. }
    ));
}

#[test]
fn open_connections_are_not_evicted() {
    let mut metrics = Metrics::with_limits(1, 60);
    let first = metrics.open_connection(endpoint(1), endpoint(5432), false, 0);
    let second = metrics.open_connection(endpoint(2), endpoint(5432), false, 0);
    metrics.close_connection(second, 0);
    let snapshot = metrics.snapshot();
    assert_eq!(snapshot.connections.len(), 1);
    assert_eq!(snapshot.connections[0].id, first);
    assert_eq!(snapshot.conns_live, 1);
}

#[test]
fn rate_samples_are_aggregate_deltas() {
    let mut metrics = Metrics::with_limits(10, 2);
    let conn = metrics.open_connection(endpoint(1), endpoint(5432), false, 0);
    metrics.record_messages(conn, TrafficDirection::In, 1, 12);
    metrics.record_messages(conn, TrafficDirection::Out, 1, 20);
    let first = metrics.sample_rates();
    assert_eq!((first.msgs_in, first.bytes_in), (1, 12));
    assert_eq!((first.msgs_out, first.bytes_out), (1, 20));
    metrics.record_messages(conn, TrafficDirection::In, 1, 5);
    let second = metrics.sample_rates();
    assert_eq!((second.msgs_in, second.bytes_in), (1, 5));
    assert_eq!((second.msgs_out, second.bytes_out), (0, 0));
}

#[test]
fn disabled_rate_history_does_not_start_a_thread() {
    let metrics = Metrics::with_limits(10, 0);
    assert!(!metrics.keeps_rates());
    assert!(Metrics::with_limits(10, 2).keeps_rates());
}

// --- further cases ---------------------------------------------------------------------

#[test]
fn rate_history_keeps_the_newest_samples() {
    let mut metrics = Metrics::with_limits(10, 2);
    let conn = metrics.open_connection(endpoint(1), endpoint(5432), false, 0);
    for bytes in [1, 2, 3] {
        metrics.record_messages(conn, TrafficDirection::In, 1, bytes);
        metrics.sample_rates();
    }
    let rates = metrics.summary().rates;
    assert_eq!(rates.iter().map(|r| r.bytes_in).collect::<Vec<_>>(), vec![2, 3]);
}

#[test]
fn closing_twice_counts_once_and_keeps_the_first_end() {
    let mut metrics = Metrics::new();
    let conn = metrics.open_connection(endpoint(1), endpoint(5432), false, 10);
    metrics.close_connection(conn, 20);
    metrics.close_connection(conn, 30);
    let snapshot = metrics.snapshot();
    assert_eq!(snapshot.conns_live, 0);
    assert_eq!(
        snapshot.connections[0].lifecycle,
        ConnectionLifecycle::Closed { since: 10, ended: 20 }
    );
}

#[test]
fn encryption_is_noted_on_the_connection() {
    let mut metrics = Metrics::new();
    let conn = metrics.open_connection(endpoint(1), endpoint(5432), false, 0);
    metrics.set_encrypted(conn, true);
    assert!(metrics.snapshot().connections[0].encrypted);
}

#[test]
fn opening_evicts_closed_connections_beyond_the_cap() {
    let mut metrics = Metrics::with_limits(1, 60);
    let first = metrics.open_connection(endpoint(1), endpoint(5432), false, 0);
    metrics.close_connection(first, 0);
    metrics.open_connection(endpoint(2), endpoint(5432), false, 0);
    let snapshot = metrics.snapshot();
    assert_eq!(snapshot.connections.len(), 1);
    assert_eq!(snapshot.connections[0].client.port, 2);
    assert_eq!((snapshot.conns_opened, snapshot.conns_live), (2, 1));
}

#[test]
fn rate_samples_add_up_to_the_totals() {
    let mut metrics = Metrics::with_limits(10, 2);
    let conn = metrics.open_connection(endpoint(1), endpoint(5432), false, 0);
    let mut sum = 0;
    for bytes in [7, 0, 30] {
        metrics.record_messages(conn, TrafficDirection::Out, 1, bytes);
        sum += metrics.sample_rates().bytes_out;
    }
    assert_eq!(sum, metrics.snapshot().bytes_out);
    assert_eq!(sum, 37);
}

#[test]
fn a_snapshot_agrees_with_the_calls_before_it() {
    let mut metrics = Metrics::with_limits(2, 60);
    let ids: Vec<_> = (1..=4)
        .map(|port| metrics.open_connection(endpoint(port), endpoint(5432), false, 0))
        .collect();
    metrics.close_connection(ids[1], 5);
    metrics.close_connection(ids[1], 6);
    let snapshot = metrics.snapshot();
    assert_eq!((snapshot.conns_opened, snapshot.conns_live), (4, 3));
    let open: Vec<u16> = snapshot
        .connections
        .iter()
        .filter(|c| matches!(c.lifecycle, ConnectionLifecycle::Open { .. }))
        .map(|c| c.client.port)
        .collect();
    assert_eq!(open, vec![1, 3, 4]);
}
