//! The decisions of the TLS-terminating proxy.
//!
//! The proxy accepts client connections, terminates TLS on the client leg, optionally
//! re-encrypts on the upstream leg, and decodes the cleartext in the middle. This
//! module holds what it decides from the bytes it sees; the sockets are elsewhere.
use crate::addr::SocketAddr;
use crate::buffer::{buffer_slice, extend_buffer};
use crate::decode::{direction_drained, drain_direction, no_outcome, DrainOutcome};
use crate::flow::{decoding_side, Direction, Role, Side};
use crate::net::{be32, read_be32};
use crate::output::{emitted, Output};
use crate::state::{recorded, ConnId, Ledger, Metrics, TrafficDirection};
use crate::text::{chars_of, string_of};
use rustls::pki_types::ServerName;
use vstd::prelude::*;

verus! {

/// The second word of an SSL request.
pub const SSL_MAGIC: u32 = 80877103;

/// The second word of a GSS encryption request.
pub const GSS_MAGIC: u32 = 80877104;

/// The second word of a cancel request.
pub const CANCEL_MAGIC: u32 = 80877102;

/// The record type of a TLS handshake, the first byte of a `ClientHello`.
pub const TLS_HANDSHAKE: u8 = 0x16;

/// Configuration for the proxy.
#[derive(Clone, Debug)]
pub struct ProxyOpts {
    /// Address to listen on for client connections.
    pub listen: String,
    /// Upstream PostgreSQL server address.
    pub upstream: String,
    /// Directory holding the auto-generated CA and server cert and key.
    pub tls_dir: String,
    /// If set, use this PEM server cert instead of the auto-generated one.
    pub tls_cert: Option<String>,
    /// Key for [`ProxyOpts::tls_cert`] (PEM).
    pub tls_key: Option<String>,
    /// Skip TLS on the upstream leg (talk cleartext to the server).
    pub no_upstream_tls: bool,
}

// --- the client leg ---------------------------------------------------------------------

/// What the proxy does next on the client leg.
#[derive(Clone, Debug)]
pub enum ClientStep {
    /// Read the eight bytes that every opening message begins with.
    ReadHead,
    /// Speak TLS with the client; where `accept` is set, first answer its request
    /// with one byte `S`.
    StartTls { accept: bool },
    /// Answer one byte `N`; the client opens anew on the same connection.
    RefuseGss,
    /// Stay in cleartext; the head begins the startup message and is passed on.
    Cleartext,
    /// Pass the head and all that follows on to the server, undecoded.
    RelayCancel,
    /// The client sent no whole head: there is nothing to tap.
    GiveUp,
}

/// What the first byte, looked at without being taken, leads to. A `ClientHello`
/// begins with the TLS handshake record type, while every classic opening message
/// begins its length with a zero byte.
pub open spec fn probe_step(first: Option<u8>) -> ClientStep {
    if first == Some(TLS_HANDSHAKE) {
        ClientStep::StartTls { accept: false }
    } else {
        ClientStep::ReadHead
    }
}

pub fn on_probe(first: Option<u8>) -> (s: ClientStep)
    ensures
        s == probe_step(first),
{
    match first {
        Some(b) => if b == TLS_HANDSHAKE {
            ClientStep::StartTls { accept: false }
        } else {
            ClientStep::ReadHead
        },
        None => ClientStep::ReadHead,
    }
}

/// What the head of an opening message leads to; `None` where the client sent fewer
/// than eight bytes.
pub open spec fn head_step(head: Option<Seq<u8>>) -> ClientStep {
    match head {
        Some(b) => if be32(b, 4) == CANCEL_MAGIC {
            ClientStep::RelayCancel
        } else if be32(b, 4) == SSL_MAGIC {
            ClientStep::StartTls { accept: true }
        } else if be32(b, 4) == GSS_MAGIC {
            ClientStep::RefuseGss
        } else {
            ClientStep::Cleartext
        },
        None => ClientStep::GiveUp,
    }
}

pub fn on_head(head: Option<&[u8]>) -> (s: ClientStep)
    requires
        head matches Some(b) ==> b@.len() == 8,
    ensures
        s == head_step(
            match head {
                Some(b) => Some(b@),
                None => None,
            },
        ),
{
    match head {
        Some(b) => {
            let magic: u32 = read_be32(b, 4);
            if magic == CANCEL_MAGIC {
                ClientStep::RelayCancel
            } else if magic == SSL_MAGIC {
                ClientStep::StartTls { accept: true }
            } else if magic == GSS_MAGIC {
                ClientStep::RefuseGss
            } else {
                ClientStep::Cleartext
            }
        },
        None => ClientStep::GiveUp,
    }
}

// --- the upstream leg ---------------------------------------------------------------------

/// The bytes of an SSL request.
pub open spec fn ssl_request() -> Seq<u8> {
    seq![0u8, 0, 0, 8, 0x04, 0xd2, 0x16, 0x2f]
}

/// The request that probes the server for TLS, unless the upstream leg is to stay in
/// cleartext.
pub fn upstream_probe(opts: &ProxyOpts) -> (r: Option<Vec<u8>>)
    ensures
        match r {
            Some(b) => !opts.no_upstream_tls && b@ == ssl_request(),
            None => opts.no_upstream_tls,
        },
{
    if opts.no_upstream_tls {
        return None;
    }
    let mut b: Vec<u8> = Vec::new();
    b.push(0);
    b.push(0);
    b.push(0);
    b.push(8);
    b.push(0x04);
    b.push(0xd2);
    b.push(0x16);
    b.push(0x2f);
    assert(b@ =~= ssl_request());
    Some(b)
}

/// Whether the server's reply to the probe means TLS: `S` does; `N`, anything else or
/// no reply leaves the upstream leg in cleartext.
pub fn upstream_uses_tls(reply: Option<u8>) -> (b: bool)
    ensures
        b == (reply == Some(0x53u8)),
{
    match reply {
        Some(c) => c == 0x53,
        None => false,
    }
}

/// The index of the last `c`; `None` where there is none.
pub open spec fn last_index_of(s: Seq<char>, c: char) -> Option<nat>
    decreases s.len(),
{
    if s.len() == 0 {
        None
    } else if s.last() == c {
        Some((s.len() - 1) as nat)
    } else {
        last_index_of(s.drop_last(), c)
    }
}

/// `s` without the `c`s at its front.
pub open spec fn strip_front(s: Seq<char>, c: char) -> Seq<char>
    decreases s.len(),
{
    if s.len() > 0 && s[0] == c {
        strip_front(s.skip(1), c)
    } else {
        s
    }
}

/// `s` without the `c`s at its end.
pub open spec fn strip_back(s: Seq<char>, c: char) -> Seq<char>
    decreases s.len(),
{
    if s.len() > 0 && s.last() == c {
        strip_back(s.drop_last(), c)
    } else {
        s
    }
}

/// The host of an upstream address: what stands before the last colon, without
/// brackets round it.
pub open spec fn host_of(upstream: Seq<char>) -> Seq<char> {
    let host = match last_index_of(upstream, ':') {
        Some(i) => upstream.take(i as int),
        None => upstream,
    };
    strip_back(strip_front(host, '['), ']')
}

/// The host of an upstream address.
pub fn upstream_host(upstream: &str) -> (s: String)
    ensures
        s@ == host_of(upstream@),
{
    let v = chars_of(upstream);
    let ghost all = v@;
    let mut to: usize = v.len();
    assert(all.take(to as int) =~= all);
    while to > 0 && v[to - 1] != ':'
        invariant
            to <= v@.len(),
            v@ == all,
            last_index_of(all.take(to as int), ':') == last_index_of(all, ':'),
        decreases to,
    {
        assert(all.take(to as int).drop_last() =~= all.take(to - 1));
        to = to - 1;
    }
    let mut end: usize = if to > 0 {
        to - 1
    } else {
        v.len()
    };
    proof {
        if to > 0 {
            assert(all.take(to as int).last() == ':');
        }
    }
    let ghost host = all.take(end as int);
    let mut from: usize = 0;
    assert(all.subrange(0, end as int) =~= host);
    while from < end && v[from] == '['
        invariant
            from <= end <= v@.len(),
            v@ == all,
            strip_front(all.subrange(from as int, end as int), '[') == strip_front(host, '['),
        decreases end - from,
    {
        assert(all.subrange(from as int, end as int).skip(1) =~= all.subrange(
            from + 1,
            end as int,
        ));
        from = from + 1;
    }
    let ghost open = all.subrange(from as int, end as int);
    while end > from && v[end - 1] == ']'
        invariant
            from <= end <= v@.len(),
            v@ == all,
            strip_back(all.subrange(from as int, end as int), ']') == strip_back(open, ']'),
        decreases end,
    {
        assert(all.subrange(from as int, end as int).drop_last() =~= all.subrange(
            from as int,
            end - 1,
        ));
        end = end - 1;
    }
    string_of(&v, from, end)
}

/// `rustls::pki_types::ServerName`, a host name or address to present to a server.
#[verifier::external_type_specification]
#[verifier::external_body]
pub struct ExServerName<'a>(ServerName<'a>);

/// The server name that a text writes, if it writes one.
pub uninterp spec fn server_name(host: Seq<char>) -> Option<ServerName<'static>>;

/// `ServerName::try_from` a string: the text alone decides. `localhost` is a host
/// name.
#[verifier::external_body]
fn parse_server_name(host: String) -> (r: Option<ServerName<'static>>)
    ensures
        r == server_name(host@),
        host@ == "localhost"@ ==> r is Some,
{
    ServerName::try_from(host).ok()
}

/// The name to present for a host, given what its text writes and what `localhost`
/// writes.
pub open spec fn name_or_localhost(found: Option<ServerName<'static>>) -> ServerName<'static> {
    match found {
        Some(name) => name,
        None => server_name("localhost"@)->0,
    }
}

/// SNI to present to the upstream, derived from the configured host so SNI-routing
/// poolers see the right name. Certificate verification is disabled (local server), so
/// a fallback is harmless.
pub fn upstream_server_name(opts: &ProxyOpts) -> (name: ServerName<'static>)
    ensures
        name == name_or_localhost(server_name(host_of(opts.upstream@))),
{
    match parse_server_name(upstream_host(opts.upstream.as_str())) {
        Some(name) => name,
        None => match parse_server_name("localhost".to_owned()) {
            Some(name) => name,
            None => vstd::pervasive::unreached(),
        },
    }
}

// --- certificates ----------------------------------------------------------------------------

/// Where the certificate for the client leg comes from.
#[derive(Clone, Debug)]
pub enum TlsSource {
    /// A certificate and key that the user supplied.
    Files { cert: String, key: String },
    /// The directory of the auto-generated CA and leaf.
    Directory { dir: String },
}

/// Picks the certificate: the user's, which takes both files, or an auto-generated
/// one.
pub fn tls_source(opts: &ProxyOpts) -> (r: Result<TlsSource, String>)
    ensures
        match (opts.tls_cert, opts.tls_key) {
            (Some(c), Some(k)) => r matches Ok(TlsSource::Files { cert, key }) && cert@ == c@
                && key@ == k@,
            (None, None) => r matches Ok(TlsSource::Directory { dir }) && dir@ == opts.tls_dir@,
            _ => r matches Err(e) && e@ == "--tls-cert and --tls-key must be given together"@,
        },
{
    match (&opts.tls_cert, &opts.tls_key) {
        (Some(cert), Some(key)) => Ok(TlsSource::Files { cert: cert.clone(), key: key.clone() }),
        (None, None) => Ok(TlsSource::Directory { dir: opts.tls_dir.clone() }),
        _ => Err("--tls-cert and --tls-key must be given together".to_owned()),
    }
}

/// The line that says what the proxy listens on and forwards to.
pub open spec fn serving_text(opts: ProxyOpts) -> Seq<char> {
    "tapgres: mitm proxy  "@ + opts.listen@ + "  ->  "@ + opts.upstream@
        + "  (client TLS termination"@ + (if opts.no_upstream_tls {
        ", upstream cleartext"@
    } else {
        ", upstream TLS auto-negotiate"@
    }) + ")"@
}

pub fn serving_status(opts: &ProxyOpts) -> (s: String)
    ensures
        s@ == serving_text(*opts),
{
    let mut s = String::new();
    s.append("tapgres: mitm proxy  ");
    s.append(opts.listen.as_str());
    s.append("  ->  ");
    s.append(opts.upstream.as_str());
    s.append("  (client TLS termination");
    s.append(
        if opts.no_upstream_tls {
            ", upstream cleartext"
        } else {
            ", upstream TLS auto-negotiate"
        },
    );
    s.append(")");
    assert(s@ =~= serving_text(*opts));
    s
}

// --- relaying -----------------------------------------------------------------------------------

/// One leg of a relayed connection: decodes what is passed on in one direction.
pub struct Relay {
    dir: Direction,
    conn: ConnId,
}

/// What a [`Relay`] holds.
pub struct RelayView {
    pub side: Side,
    pub conn: ConnId,
}

impl View for Relay {
    type V = RelayView;

    closed spec fn view(&self) -> RelayView {
        RelayView { side: self.dir@, conn: self.conn }
    }
}

/// The direction in which the messages of a side count.
pub open spec fn traffic_of(role: Role) -> TrafficDirection {
    if role == Role::Client {
        TrafficDirection::In
    } else {
        TrafficDirection::Out
    }
}

/// What passing on a chunk comes to: it joins what is buffered, and what it completes
/// is decoded.
pub open spec fn chunk_drained(side: Side, chunk: Seq<u8>) -> crate::decode::Step {
    direction_drained(Side { buffer: side.buffer + chunk, ..side }, no_outcome())
}

/// The metrics after a chunk: the messages that it completed are counted.
pub open spec fn chunk_recorded(m: Ledger, conn: ConnId, role: Role, o: DrainOutcome) -> Ledger {
    if o.msgs > 0 {
        recorded(m, conn, traffic_of(role), o.msgs, o.bytes)
    } else {
        m
    }
}

impl Relay {
    pub closed spec fn wf(&self) -> bool {
        self.dir.wf()
    }

    /// A leg for what `role` sends. `prefix` carries bytes that were already taken
    /// off the stream and passed on: they are decoded but not passed on again.
    pub fn new(role: Role, client: SocketAddr, conn: ConnId, prefix: &[u8]) -> (r: Relay)
        ensures
            r.wf(),
            r@ == (RelayView {
                side: Side { buffer: prefix@, ..decoding_side(role, client) },
                conn,
            }),
    {
        let mut dir = Direction::for_decoding(role, client);
        extend_buffer(&mut dir.rxbuf, prefix);
        assert(dir@.buffer =~= prefix@);
        Relay { dir, conn }
    }

    /// Decodes a chunk of freshly arrived plaintext and counts the messages that it
    /// completes. Returns whether a message stated more fields than were buffered.
    pub fn chunk(&mut self, data: &[u8], metrics: &mut Metrics, out: &mut Vec<Output>) -> (malformed: bool)
        requires
            old(self).wf(),
        ensures
            final(self).wf(),
            ({
                let s = chunk_drained(old(self)@.side, data@);
                &&& final(self)@ == (RelayView { side: s.side, ..old(self)@ })
                &&& final(metrics)@ == chunk_recorded(
                    old(metrics)@,
                    old(self)@.conn,
                    old(self)@.side.role,
                    s.outcome,
                )
                &&& emitted(old(out)@, final(out)@, s.events)
                &&& malformed == s.outcome.malformed
            }),
    {
        let direction = if self.dir.role == Role::Client {
            TrafficDirection::In
        } else {
            TrafficDirection::Out
        };
        extend_buffer(&mut self.dir.rxbuf, data);
        let held: usize = buffer_slice(&self.dir.rxbuf).len();
        assert(self.dir@.buffer.len() == held);
        let mut outcome = DrainOutcome::default();
        drain_direction(&mut self.dir, &mut outcome, out);
        if outcome.msgs > 0 {
            metrics.record_messages(self.conn, direction, outcome.msgs, outcome.bytes);
        }
        outcome.malformed
    }
}

// --- laws ---------------------------------------------------------------------------------------

/// What a client that opens with some heads, one after the other, is led to: a refused
/// request leaves it to open anew.
pub open spec fn negotiated(heads: Seq<Seq<u8>>) -> ClientStep
    decreases heads.len(),
{
    if heads.len() == 0 {
        head_step(None)
    } else if head_step(Some(heads[0])) == ClientStep::RefuseGss {
        negotiated(heads.skip(1))
    } else {
        head_step(Some(heads[0]))
    }
}

/// A GSS request is refused, and the client may then open as if it had sent none.
pub proof fn gss_refusal_starts_over(head: Seq<u8>, heads: Seq<Seq<u8>>)
    requires
        head.len() == 8,
        be32(head, 4) == GSS_MAGIC,
    ensures
        head_step(Some(head)) == ClientStep::RefuseGss,
        negotiated(seq![head] + heads) == negotiated(heads),
{
    let all = seq![head] + heads;
    assert(all[0] == head);
    assert(all.skip(1) =~= heads);
}

/// The probe that the proxy sends upstream is an SSL request like a client's.
pub proof fn probe_is_an_ssl_request()
    ensures
        ssl_request().len() == 8,
        be32(ssl_request(), 0) == 8,
        head_step(Some(ssl_request())) == (ClientStep::StartTls { accept: true }),
{
}

/// How a relayed stream is cut into chunks does not matter: a chunk that completes
/// nothing and the one behind it come to what both in one chunk come to.
pub proof fn chunks_join(side: Side, a: Seq<u8>, b: Seq<u8>)
    requires
        chunk_drained(side, a).side == (Side { buffer: side.buffer + a, ..side }),
    ensures
        chunk_drained(chunk_drained(side, a).side, b) == chunk_drained(side, a + b),
{
    assert(side.buffer + a + b =~= side.buffer + (a + b));
}

} // verus!
