//! Decoding buffered bytes and rendering each message as a display record.
//!
//! Each [`crate::flow::Direction`] owns a byte buffer; [`drain_direction`] repeatedly
//! decodes the next message and emits a one-line, human-readable summary. The
//! frontend direction also advances the SSL and startup state machine.
use crate::buffer::{buffer_slice, clear_buffer};
use crate::flow::{text_map, Direction, Role, Side};
pub use crate::output::{
    channel, close_output, deliver, dropped_count, out, replay, set_output, start_capture, status,
    take_capture, take_output_capture, terminal_stream, ts, warn, EventDetail, Output,
    OUTPUT_CHANNEL_CAPACITY,
};
use crate::output::{
    emitted, emitted_in_turn, emitted_nothing, DetailView, Event, MessageEmitter,
};
pub use crate::render::{
    data_row_columns, format_bind, format_bytes, format_columns, format_execute, DataColumn,
};
use crate::render::{
    auth_data_text, auth_text, bind_text, bytes_text, columns_of, columns_text, copy_response_text,
    error_fields_text, execute_text, format_auth, format_copy_response, format_describe_close,
    format_error_fields, format_key_data, format_negotiate, format_oids, format_parse, format_pmf,
    format_row_desc, format_startup, key_data_text, negotiate_text, oids_text, opt_str, parse_text,
    row_desc_text, startup_text, target_text, txn_status, txn_status_text,
};
use crate::net::be32;
use crate::text::{dec, push_dec, text_or};
pub use crate::wire::FieldSummary;
use crate::wire::{
    backend_readable, backend_next, field_views, frontend_readable, frontend_next, opt_text,
    take_backend, take_frontend, BackendMessage, BackendView, DecodeContext, FrontendMessage,
    FrontendView, NegotiationReply, Taken, GSS_REQUEST_CODE, SSL_REQUEST_CODE,
};
use vstd::prelude::*;

verus! {

/// Give up on a direction after this many consecutive decode failures. Occasional
/// failures recover; a persistent run means the stream is desynced and every future
/// segment starts mid-message.
pub const MAX_DECODE_FAILURES: u32 = 8;

/// Cap on remembered prepared statements per direction; guards against a connection
/// that never closes its statements from growing the cache forever.
pub const PREPARED_CACHE_CAP: usize = 4096;

/// Signal that the server side should now expect a 1-byte SSL or GSS response,
/// because the frontend just sent the matching request.
///
/// An SSL request from the client does not mean the stream is encrypted: the server
/// answers with one byte, `S` or `G` (accept, then the connection goes opaque) or `N`
/// (refuse, the connection stays cleartext). Only on accept is decoding given up.
#[derive(Clone, Copy, PartialEq, Eq, Structural, Debug)]
pub enum ServerNegotiationWait {
    /// No pending negotiation response.
    NotWaiting,
    /// Frontend sent an SSL request; await the server's 1-byte response.
    Ssl,
    /// Frontend sent a GSS request; await the server's 1-byte response.
    Gss,
}

impl Default for ServerNegotiationWait {
    fn default() -> (w: ServerNegotiationWait)
        ensures
            w == ServerNegotiationWait::NotWaiting,
    {
        ServerNegotiationWait::NotWaiting
    }
}

/// Result of draining one direction's buffer.
#[derive(Clone, Copy, PartialEq, Eq, Structural, Debug)]
pub struct DrainOutcome {
    /// Set by the client direction when it just emitted an SSL or GSS request.
    pub server_negotiation_wait: ServerNegotiationWait,
    /// Set by the server direction when it observed an accepted SSL or GSS response:
    /// the connection is now encrypted.
    pub encrypted: bool,
    /// Number of messages decoded this drain (for the drained direction). The
    /// opening bytes that ask for neither SSL nor GSS are no message.
    pub msgs: u64,
    /// Wire bytes consumed by those decoded messages.
    pub bytes: u64,
    /// Set when the next message states more fields than the buffered bytes hold.
    /// Nothing behind it can be decoded.
    pub malformed: bool,
}

/// The outcome of draining nothing.
pub open spec fn no_outcome() -> DrainOutcome {
    DrainOutcome {
        server_negotiation_wait: ServerNegotiationWait::NotWaiting,
        encrypted: false,
        msgs: 0,
        bytes: 0,
        malformed: false,
    }
}

impl Default for DrainOutcome {
    fn default() -> (o: DrainOutcome)
        ensures
            o == no_outcome(),
    {
        DrainOutcome {
            server_negotiation_wait: ServerNegotiationWait::NotWaiting,
            encrypted: false,
            msgs: 0,
            bytes: 0,
            malformed: false,
        }
    }
}

// --- what a message does -----------------------------------------------------------------

/// What handling something comes to: the direction and the outcome afterwards, what
/// is shown, whether draining goes on, and whether it ended on bytes that do not decode.
pub struct Step {
    pub side: Side,
    pub outcome: DrainOutcome,
    pub events: Seq<Event>,
    pub go_on: bool,
    /// Whether the bytes did not decode.
    pub failed: bool,
}

/// The events of a direction.
pub open spec fn shown(d: Side, kind: Seq<char>, text: Seq<char>) -> Seq<Event> {
    seq![Event::Message { role: d.role, client: d.client, kind, text, detail: None }]
}

/// An outcome with one more message of `consumed` bytes.
pub open spec fn counted(o: DrainOutcome, consumed: nat) -> DrainOutcome {
    DrainOutcome { msgs: (o.msgs + 1) as u64, bytes: (o.bytes + consumed) as u64, ..o }
}

/// A message that only shows.
pub open spec fn showing(d: Side, o: DrainOutcome, kind: Seq<char>, text: Seq<char>) -> Step {
    Step { side: d, outcome: o, events: shown(d, kind, text), go_on: true, failed: false }
}

/// What a name maps to.
pub open spec fn looked_up(m: Map<Seq<char>, Seq<char>>, name: Seq<char>) -> Option<Seq<char>> {
    if m.contains_key(name) {
        Some(m[name])
    } else {
        None
    }
}

/// The SQL behind a portal: the portal's statement, then the statement's text.
pub open spec fn portal_sql(d: Side, portal: Seq<char>) -> Option<Seq<char>> {
    match looked_up(d.portals, portal) {
        Some(statement) => looked_up(d.prepared, statement),
        None => None,
    }
}

/// The empty name, which an unnamed statement or portal goes by.
pub open spec fn key_of(name: Option<Seq<char>>) -> Seq<char> {
    text_or(name, Seq::empty())
}

/// What a message of the client that took `consumed` bytes does.
pub open spec fn frontend_effect(d: Side, o: DrainOutcome, m: FrontendView, consumed: nat) -> Step {
    let n = counted(o, consumed);
    let negotiated = Side {
        ctx: DecodeContext { awaiting_frontend_ssl: false, ..d.ctx },
        ..d
    };
    match m {
        FrontendView::NoNegotiation => Step {
            side: negotiated,
            outcome: o,
            events: Seq::empty(),
            go_on: true,
            failed: false,
        },
        FrontendView::SslRequest => Step {
            side: negotiated,
            outcome: DrainOutcome { server_negotiation_wait: ServerNegotiationWait::Ssl, ..n },
            events: shown(d, "SSLRequest"@, "(awaiting server reply)"@),
            go_on: false,
            failed: false,
        },
        FrontendView::GssEncRequest => Step {
            side: negotiated,
            outcome: DrainOutcome { server_negotiation_wait: ServerNegotiationWait::Gss, ..n },
            events: shown(d, "GssEncRequest"@, "(awaiting server reply)"@),
            go_on: false,
            failed: false,
        },
        FrontendView::Startup(major, minor, parameters) => Step {
            side: Side {
                ctx: DecodeContext { awaiting_frontend_startup: false, ..d.ctx },
                ..d
            },
            ..showing(d, n, "Startup"@, startup_text(major, minor, parameters))
        },
        FrontendView::CancelRequest(pid, key) => showing(
            d,
            n,
            "CancelRequest"@,
            key_data_text(pid, key),
        ),
        FrontendView::Query(q) => showing(d, n, "Query"@, q),
        FrontendView::Parse(name, query, oids) => Step {
            side: if d.prepared.len() < PREPARED_CACHE_CAP {
                Side { prepared: d.prepared.insert(key_of(name), query), ..d }
            } else {
                d
            },
            ..showing(d, n, "Parse"@, parse_text(name, query, oids))
        },
        FrontendView::Bind(b) => Step {
            side: Side {
                portals: d.portals.insert(key_of(b.portal_name), key_of(b.statement_name)),
                ..d
            },
            ..showing(
                d,
                n,
                "Bind"@,
                bind_text(b, looked_up(d.prepared, key_of(b.statement_name))),
            )
        },
        FrontendView::Describe(target, name) => showing(
            d,
            n,
            "Describe"@,
            target_text(target, name),
        ),
        FrontendView::Execute(name, rows) => showing(
            d,
            n,
            "Execute"@,
            execute_text(name, rows, portal_sql(d, key_of(name))),
        ),
        FrontendView::Close(target, name) => Step {
            side: if target == 0x53 {
                Side { prepared: d.prepared.remove(key_of(name)), ..d }
            } else if target == 0x50 {
                Side { portals: d.portals.remove(key_of(name)), ..d }
            } else {
                d
            },
            ..showing(d, n, "Close"@, target_text(target, name))
        },
        FrontendView::Sync => showing(d, n, "Sync"@, ""@),
        FrontendView::Flush => showing(d, n, "Flush"@, ""@),
        FrontendView::Terminate => showing(d, n, "Terminate"@, ""@),
        FrontendView::AuthData(a) => showing(d, n, "AuthData"@, auth_data_text(a)),
        FrontendView::CopyData(b) => showing(d, n, "CopyData"@, bytes_text(b)),
        FrontendView::CopyFail(message) => showing(d, n, "CopyFail"@, message),
        FrontendView::CopyDone => showing(d, n, "CopyDone"@, ""@),
        FrontendView::PortalSuspended => showing(d, n, "PortalSuspended"@, ""@),
    }
}

/// What the server's answer to an SSL or GSS request does. Once it is accepted the bytes
/// behind the answer are opaque, and draining stops.
pub open spec fn reply_effect(
    d: Side,
    n: DrainOutcome,
    reply: NegotiationReply,
    kind: Seq<char>,
    accepted: Seq<char>,
) -> Step {
    match reply {
        NegotiationReply::Accept => Step {
            side: d,
            outcome: DrainOutcome { encrypted: true, ..n },
            events: seq![Event::Warning { role: d.role, client: d.client, text: accepted }],
            go_on: false,
            failed: false,
        },
        NegotiationReply::Refuse => showing(d, n, kind, "refuse (continuing in cleartext)"@),
        NegotiationReply::Other => showing(d, n, kind, "unknown"@),
    }
}

/// The text of a string as the `Debug` format writes it.
pub uninterp spec fn debug_text(s: Seq<char>) -> Seq<char>;

/// `<str as Debug>::fmt`: a text in double quotes with escapes, which depends on the
/// string alone.
#[verifier::external_body]
pub(crate) fn debug_string(s: &str) -> (r: String)
    ensures
        r@ == debug_text(s@),
{
    format!("{s:?}")
}

/// The kind of a message of the server.
pub open spec fn backend_kind(m: BackendView) -> Seq<char> {
    match m {
        BackendView::Authentication(_) => "Authentication"@,
        BackendView::ParameterStatus(_, _) => "ParameterStatus"@,
        BackendView::BackendKeyData(_, _) => "BackendKeyData"@,
        BackendView::NegotiateProtocolVersion(_, _) => "NegotiateProtocolVersion"@,
        BackendView::ReadyForQuery(_) => "ReadyForQuery"@,
        BackendView::CommandComplete(_) => "CommandComplete"@,
        BackendView::EmptyQueryResponse => "EmptyQueryResponse"@,
        BackendView::ErrorResponse(_) => "ERROR"@,
        BackendView::NoticeResponse(_) => "NOTICE"@,
        BackendView::NotificationResponse(_, _) => "NOTIFY"@,
        BackendView::RowDescription(_) => "RowDescription"@,
        BackendView::NoData => "NoData"@,
        BackendView::DataRow(_, _) => "DataRow"@,
        BackendView::ParameterDescription(_) => "ParameterDescription"@,
        BackendView::ParseComplete => "ParseComplete"@,
        BackendView::BindComplete => "BindComplete"@,
        BackendView::CloseComplete => "CloseComplete"@,
        BackendView::PortalSuspended => "PortalSuspended"@,
        BackendView::SslResponse(_) => "SslResponse"@,
        BackendView::GssEncResponse(_) => "GssEncResponse"@,
        BackendView::CopyInResponse(_) => "CopyInResponse"@,
        BackendView::CopyOutResponse(_) => "CopyOutResponse"@,
        BackendView::CopyBothResponse(_) => "CopyBothResponse"@,
        BackendView::CopyData(_) => "CopyData"@,
        BackendView::CopyFail(_) => "CopyFail"@,
        BackendView::CopyDone => "CopyDone"@,
    }
}

/// The text of a message of the server that only shows; none for the others.
pub open spec fn backend_text(m: BackendView) -> Seq<char> {
    match m {
        BackendView::Authentication(a) => auth_text(a),
        BackendView::ParameterStatus(name, value) => name + "="@ + value,
        BackendView::BackendKeyData(pid, key) => key_data_text(pid, key),
        BackendView::NegotiateProtocolVersion(version, options) => negotiate_text(version, options),
        BackendView::ReadyForQuery(s) => "txn="@ + txn_status_text(s),
        BackendView::CommandComplete(tag) => tag,
        BackendView::ErrorResponse(f) => error_fields_text(f),
        BackendView::NoticeResponse(f) => error_fields_text(f),
        BackendView::NotificationResponse(channel, payload) => "channel="@ + debug_text(channel)
            + " payload="@ + debug_text(payload),
        BackendView::ParameterDescription(types) => oids_text(types),
        BackendView::CopyInResponse(c) => copy_response_text("in"@, c),
        BackendView::CopyOutResponse(c) => copy_response_text("out"@, c),
        BackendView::CopyBothResponse(c) => copy_response_text("both"@, c),
        BackendView::CopyData(b) => bytes_text(b),
        BackendView::CopyFail(message) => message,
        _ => ""@,
    }
}

/// What a message of the server that took `consumed` bytes does.
pub open spec fn backend_effect(d: Side, o: DrainOutcome, m: BackendView, consumed: nat) -> Step {
    let n = counted(o, consumed);
    match m {
        BackendView::RowDescription(fields) => Step {
            side: Side { row_desc: Some(fields), ..d },
            outcome: n,
            events: seq![
                Event::Message {
                    role: d.role,
                    client: d.client,
                    kind: "RowDescription"@,
                    text: row_desc_text(fields),
                    detail: Some(DetailView::RowDescription(fields)),
                },
            ],
            go_on: true,
            failed: false,
        },
        BackendView::NoData => Step {
            side: Side { row_desc: None, ..d },
            ..showing(d, n, "NoData"@, ""@)
        },
        BackendView::DataRow(data, count) => {
            let columns = columns_of(data, count, d.row_desc);
            Step {
                side: d,
                outcome: n,
                events: seq![
                    Event::Message {
                        role: d.role,
                        client: d.client,
                        kind: "DataRow"@,
                        text: columns_text(columns, d.row_desc is Some),
                        detail: if d.row_desc is Some {
                            Some(DetailView::DataRow(columns))
                        } else {
                            None
                        },
                    },
                ],
                go_on: true,
                failed: false,
            }
        },
        BackendView::SslResponse(r) => reply_effect(
            Side { ctx: DecodeContext { awaiting_backend_ssl_response: false, ..d.ctx }, ..d },
            n,
            r,
            "SslResponse"@,
            "SSL accepted — connection is now encrypted, decoding stops here"@,
        ),
        BackendView::GssEncResponse(r) => reply_effect(
            Side { ctx: DecodeContext { awaiting_backend_gss_response: false, ..d.ctx }, ..d },
            n,
            r,
            "GssEncResponse"@,
            "GSS accepted — connection is now encrypted, decoding stops here"@,
        ),
        _ => showing(d, n, backend_kind(m), backend_text(m)),
    }
}

/// What bytes that do not decode do: the rest of the buffer is dropped, so that a
/// later, well-formed message can still be seen, and too many failures in a row end
/// decoding.
pub open spec fn failure_effect(d: Side, o: DrainOutcome, error: Seq<char>) -> Step {
    let failures = (d.decode_failures + 1) as u32;
    let given_up = failures >= MAX_DECODE_FAILURES;
    let report = "decode error ("@ + dec(d.buffer.len()) + " lost bytes): "@ + error;
    Step {
        side: Side {
            buffer: Seq::empty(),
            decode_failures: failures,
            dead: d.dead || given_up,
            ..d
        },
        outcome: o,
        events: seq![
            Event::Warning {
                role: d.role,
                client: d.client,
                text: if given_up {
                    report + "; stream desynced, giving up decoding this direction"@
                } else {
                    report
                },
            },
        ],
        go_on: false,
        failed: true,
    }
}

// --- handling a message ------------------------------------------------------------------

/// The SQL of a prepared statement.
fn prepared_sql<'a>(dir: &'a Direction, statement: &str) -> (r: Option<&'a str>)
    ensures
        opt_str(r) == looked_up(dir@.prepared, statement@),
{
    match dir.prepared.get(statement) {
        Some(sql) => Some(sql.as_str()),
        None => None,
    }
}

/// The name, or the empty one.
fn name_or_empty(name: &Option<String>) -> (s: &str)
    ensures
        s@ == key_of(opt_text(*name)),
{
    proof {
        reveal_strlit("");
        assert(""@ =~= Seq::<char>::empty());
    }
    match name {
        Some(n) => n.as_str(),
        None => "",
    }
}

/// Handles one message of the client. Returns `false` to stop draining.
///
/// `consumed` is the wire bytes the message took from the buffer.
pub fn handle_frontend(
    dir: &mut Direction,
    msg: FrontendMessage,
    outcome: &mut DrainOutcome,
    consumed: u64,
    out: &mut Vec<Output>,
) -> (go_on: bool)
    requires
        old(outcome).msgs < u64::MAX,
        old(outcome).bytes + consumed <= u64::MAX,
    ensures
        ({
            let s = frontend_effect(old(dir)@, *old(outcome), msg@, consumed as nat);
            &&& final(dir)@ == s.side
            &&& *final(outcome) == s.outcome
            &&& emitted(old(out)@, final(out)@, s.events)
            &&& go_on == s.go_on
        }),
        final(dir).assembly == old(dir).assembly,
{
    let emitter = MessageEmitter { role: dir.role, client: dir.client };
    let ghost before = dir@;
    if let FrontendMessage::NoNegotiation = msg {
        dir.ctx.awaiting_frontend_ssl = false;
        proof {
            emitted_nothing(out@);
        }
        return true;
    }
    outcome.msgs = outcome.msgs + 1;
    outcome.bytes = outcome.bytes + consumed;
    match msg {
        FrontendMessage::NoNegotiation => {},
        FrontendMessage::SslRequest => {
            dir.ctx.awaiting_frontend_ssl = false;
            outcome.server_negotiation_wait = ServerNegotiationWait::Ssl;
            emitter.emit("SSLRequest", "(awaiting server reply)", out);
            return false;
        },
        FrontendMessage::GssEncRequest => {
            dir.ctx.awaiting_frontend_ssl = false;
            outcome.server_negotiation_wait = ServerNegotiationWait::Gss;
            emitter.emit("GssEncRequest", "(awaiting server reply)", out);
            return false;
        },
        FrontendMessage::Startup(major, minor, parameters) => {
            // From now on bytes are typed frontend messages.
            dir.ctx.awaiting_frontend_startup = false;
            emitter.emit("Startup", format_startup(major, minor, &parameters).as_str(), out);
        },
        FrontendMessage::CancelRequest(pid, key) => {
            emitter.emit("CancelRequest", format_key_data(pid, &key).as_str(), out);
        },
        FrontendMessage::Query(q) => {
            emitter.emit("Query", q.as_str(), out);
        },
        FrontendMessage::Parse(name, query, oids) => {
            // Remember the statement's SQL so later Bind and Execute can show it.
            let text = format_parse(&name, query.as_str(), &oids);
            assert(text_map(dir.prepared@).dom() =~= dir.prepared@.dom());
            if dir.prepared.len() < PREPARED_CACHE_CAP {
                let key = name_or_empty(&name).to_owned();
                dir.prepared.insert(key, query);
                assert(dir@.prepared =~= before.prepared.insert(key@, query@));
            }
            emitter.emit("Parse", text.as_str(), out);
        },
        FrontendMessage::Bind(b) => {
            let portal = name_or_empty(&b.portal_name).to_owned();
            let statement = name_or_empty(&b.statement_name).to_owned();
            let text = format_bind(&b, prepared_sql(dir, statement.as_str()));
            dir.portals.insert(portal, statement);
            assert(dir@.portals =~= before.portals.insert(portal@, statement@));
            emitter.emit("Bind", text.as_str(), out);
        },
        FrontendMessage::Describe(target, name) => {
            emitter.emit("Describe", format_describe_close(target, &name).as_str(), out);
        },
        FrontendMessage::Execute(name, rows) => {
            let sql = match dir.portals.get(name_or_empty(&name)) {
                Some(statement) => prepared_sql(dir, statement.as_str()),
                None => None,
            };
            emitter.emit("Execute", format_execute(&name, rows, sql).as_str(), out);
        },
        FrontendMessage::Close(target, name) => {
            // Drop the closed statement or portal so its SQL doesn't linger.
            if target == 0x53 {
                dir.prepared.remove(name_or_empty(&name));
                assert(dir@.prepared =~= before.prepared.remove(key_of(opt_text(name))));
            } else if target == 0x50 {
                dir.portals.remove(name_or_empty(&name));
                assert(dir@.portals =~= before.portals.remove(key_of(opt_text(name))));
            }
            emitter.emit("Close", format_describe_close(target, &name).as_str(), out);
        },
        FrontendMessage::Sync => {
            emitter.emit("Sync", "", out);
        },
        FrontendMessage::Flush => {
            emitter.emit("Flush", "", out);
        },
        FrontendMessage::Terminate => {
            emitter.emit("Terminate", "", out);
        },
        FrontendMessage::AuthData(a) => {
            emitter.emit("AuthData", format_pmf(&a).as_str(), out);
        },
        FrontendMessage::CopyData(b) => {
            emitter.emit("CopyData", format_bytes(b.as_slice()).as_str(), out);
        },
        FrontendMessage::CopyFail(message) => {
            emitter.emit("CopyFail", message.as_str(), out);
        },
        FrontendMessage::CopyDone => {
            emitter.emit("CopyDone", "", out);
        },
        FrontendMessage::PortalSuspended => {
            emitter.emit("PortalSuspended", "", out);
        },
    }
    true
}

/// A copy of column descriptions.
fn copy_fields(fields: &Vec<FieldSummary>) -> (r: Vec<FieldSummary>)
    ensures
        field_views(r@) == field_views(fields@),
{
    let mut r: Vec<FieldSummary> = Vec::new();
    for i in 0..fields.len()
        invariant
            r@.len() == i,
            forall|k: int| 0 <= k < i ==> (#[trigger] r@[k])@ == fields@[k]@,
    {
        let f = &fields[i];
        r.push(
            FieldSummary {
                name: f.name.clone(),
                type_oid: f.type_oid,
                format_code: f.format_code,
            },
        );
    }
    assert(field_views(r@) =~= field_views(fields@));
    r
}

/// Handles the server's answer to an SSL or GSS request.
fn handle_reply(
    emitter: MessageEmitter,
    outcome: &mut DrainOutcome,
    reply: NegotiationReply,
    kind: &str,
    accepted: &str,
    out: &mut Vec<Output>,
    Ghost(d): Ghost<Side>,
)
    requires
        emitter.role == d.role,
        emitter.client == d.client,
    ensures
        ({
            let s = reply_effect(d, *old(outcome), reply, kind@, accepted@);
            &&& *final(outcome) == s.outcome
            &&& emitted(old(out)@, final(out)@, s.events)
        }),
{
    match reply {
        NegotiationReply::Accept => {
            emitter.warn(accepted, out);
            outcome.encrypted = true;
        },
        NegotiationReply::Refuse => {
            emitter.emit(kind, "refuse (continuing in cleartext)", out);
        },
        NegotiationReply::Other => {
            emitter.emit(kind, "unknown", out);
        },
    }
}

/// The kind and text of a message of the server.
fn describe_backend(msg: &BackendMessage) -> (r: (&'static str, String))
    ensures
        r.0@ == backend_kind(msg@),
        r.1@ == backend_text(msg@),
{
    match msg {
        BackendMessage::Authentication(a) => ("Authentication", format_auth(a)),
        BackendMessage::ParameterStatus(name, value) => {
            let mut text = String::new();
            text.append(name.as_str());
            text.append("=");
            text.append(value.as_str());
            assert(text@ =~= name@ + "="@ + value@);
            ("ParameterStatus", text)
        },
        BackendMessage::BackendKeyData(pid, key) => ("BackendKeyData", format_key_data(*pid, key)),
        BackendMessage::NegotiateProtocolVersion(version, options) => (
            "NegotiateProtocolVersion",
            format_negotiate(*version, options),
        ),
        BackendMessage::ReadyForQuery(s) => {
            let mut text = String::new();
            text.append("txn=");
            text.append(txn_status(*s));
            assert(text@ =~= "txn="@ + txn_status_text(*s));
            ("ReadyForQuery", text)
        },
        BackendMessage::CommandComplete(tag) => ("CommandComplete", tag.clone()),
        BackendMessage::EmptyQueryResponse => ("EmptyQueryResponse", "".to_owned()),
        BackendMessage::ErrorResponse(f) => ("ERROR", format_error_fields(f)),
        BackendMessage::NoticeResponse(f) => ("NOTICE", format_error_fields(f)),
        BackendMessage::NotificationResponse(channel, payload) => {
            let mut text = String::new();
            text.append("channel=");
            text.append(debug_string(channel.as_str()).as_str());
            text.append(" payload=");
            text.append(debug_string(payload.as_str()).as_str());
            assert(text@ =~= "channel="@ + debug_text(channel@) + " payload="@ + debug_text(
                payload@,
            ));
            ("NOTIFY", text)
        },
        BackendMessage::RowDescription(_) => ("RowDescription", "".to_owned()),
        BackendMessage::NoData => ("NoData", "".to_owned()),
        BackendMessage::DataRow(_, _) => ("DataRow", "".to_owned()),
        BackendMessage::ParameterDescription(types) => (
            "ParameterDescription",
            format_oids(types),
        ),
        BackendMessage::ParseComplete => ("ParseComplete", "".to_owned()),
        BackendMessage::BindComplete => ("BindComplete", "".to_owned()),
        BackendMessage::CloseComplete => ("CloseComplete", "".to_owned()),
        BackendMessage::PortalSuspended => ("PortalSuspended", "".to_owned()),
        BackendMessage::SslResponse(_) => ("SslResponse", "".to_owned()),
        BackendMessage::GssEncResponse(_) => ("GssEncResponse", "".to_owned()),
        BackendMessage::CopyInResponse(c) => ("CopyInResponse", format_copy_response("in", *c)),
        BackendMessage::CopyOutResponse(c) => ("CopyOutResponse", format_copy_response("out", *c)),
        BackendMessage::CopyBothResponse(c) => (
            "CopyBothResponse",
            format_copy_response("both", *c),
        ),
        BackendMessage::CopyData(b) => ("CopyData", format_bytes(b.as_slice())),
        BackendMessage::CopyFail(message) => ("CopyFail", message.clone()),
        BackendMessage::CopyDone => ("CopyDone", "".to_owned()),
    }
}

/// Handles one message of the server. Every one is a real, emitted protocol event, so
/// all of them are counted. Returns `false` to stop draining: the stream is encrypted
/// from here on.
pub fn handle_backend(
    dir: &mut Direction,
    msg: BackendMessage,
    outcome: &mut DrainOutcome,
    consumed: u64,
    out: &mut Vec<Output>,
) -> (go_on: bool)
    requires
        old(outcome).msgs < u64::MAX,
        old(outcome).bytes + consumed <= u64::MAX,
    ensures
        ({
            let s = backend_effect(old(dir)@, *old(outcome), msg@, consumed as nat);
            &&& final(dir)@ == s.side
            &&& *final(outcome) == s.outcome
            &&& emitted(old(out)@, final(out)@, s.events)
            &&& go_on == s.go_on
        }),
        final(dir).assembly == old(dir).assembly,
{
    let emitter = MessageEmitter { role: dir.role, client: dir.client };
    outcome.msgs = outcome.msgs + 1;
    outcome.bytes = outcome.bytes + consumed;
    let mut go_on = true;
    match msg {
        BackendMessage::RowDescription(fields) => {
            let text = format_row_desc(&fields);
            let detail = EventDetail::RowDescription(copy_fields(&fields));
            emitter.emit_rich("RowDescription", text.as_str(), detail, out);
            // Cached for subsequent rows, and not cleared when the server is ready
            // for the next query: a statement is described once but may be executed
            // many times. One cache per direction: two portals of different shapes
            // executed alternately would label each other's rows.
            dir.row_desc = Some(fields);
        },
        BackendMessage::NoData => {
            dir.row_desc = None;
            emitter.emit("NoData", "", out);
        },
        BackendMessage::DataRow(data, count) => {
            let columns = data_row_columns(data.as_slice(), count, &dir.row_desc);
            let labelled = dir.row_desc.is_some();
            let text = format_columns(&columns, labelled);
            if labelled {
                emitter.emit_rich("DataRow", text.as_str(), EventDetail::DataRow(columns), out);
            } else {
                // Nothing to key a table on: the flat line view only.
                emitter.emit("DataRow", text.as_str(), out);
            }
        },
        BackendMessage::SslResponse(r) => {
            // One-shot: cleared whatever the answer, so normal messages decode
            // afterwards.
            dir.ctx.awaiting_backend_ssl_response = false;
            go_on = r != NegotiationReply::Accept;
            handle_reply(
                emitter,
                outcome,
                r,
                "SslResponse",
                "SSL accepted — connection is now encrypted, decoding stops here",
                out,
                Ghost(dir@),
            );
        },
        BackendMessage::GssEncResponse(r) => {
            dir.ctx.awaiting_backend_gss_response = false;
            go_on = r != NegotiationReply::Accept;
            handle_reply(
                emitter,
                outcome,
                r,
                "GssEncResponse",
                "GSS accepted — connection is now encrypted, decoding stops here",
                out,
                Ghost(dir@),
            );
        },
        plain => {
            let (kind, text) = describe_backend(&plain);
            emitter.emit(kind, text.as_str(), out);
        },
    }
    go_on
}

/// Reports bytes that do not decode and drops the rest of the buffer. The warning is
/// an attributed message, so it shares the client and direction metadata and honors
/// display filters.
pub fn decode_error(dir: &mut Direction, error: &str, out: &mut Vec<Output>)
    requires
        old(dir).decode_failures < MAX_DECODE_FAILURES,
        old(dir).assembly.wf(),
    ensures
        ({
            let s = failure_effect(old(dir)@, no_outcome(), error@);
            &&& final(dir)@ == s.side
            &&& emitted(old(out)@, final(out)@, s.events)
        }),
        final(dir).wf(),
        final(dir).assembly == old(dir).assembly,
{
    let lost: usize = buffer_slice(&dir.rxbuf).len();
    clear_buffer(&mut dir.rxbuf);
    dir.decode_failures = dir.decode_failures + 1;
    let emitter = MessageEmitter { role: dir.role, client: dir.client };
    let mut text = String::new();
    text.append("decode error (");
    push_dec(&mut text, lost as u64);
    text.append(" lost bytes): ");
    text.append(error);
    let ghost report = "decode error ("@ + dec(lost as nat) + " lost bytes): "@ + error@;
    assert(text@ =~= report);
    if dir.decode_failures >= MAX_DECODE_FAILURES {
        dir.dead = true;
        text.append("; stream desynced, giving up decoding this direction");
    }
    emitter.warn(text.as_str(), out);
}

// --- draining ------------------------------------------------------------------------------

/// A step and then another.
pub open spec fn then(first: Step, second: Step) -> Step {
    Step { events: first.events + second.events, ..second }
}

/// A step that ends draining with nothing shown.
pub open spec fn stopped(d: Side, o: DrainOutcome) -> Step {
    Step { side: d, outcome: o, events: Seq::empty(), go_on: false, failed: false }
}

/// What handling a message of the client comes to.
#[verifier::opaque]
pub open spec fn frontend_handled(d: Side, o: DrainOutcome, m: FrontendView, consumed: nat) -> Step {
    frontend_effect(d, o, m, consumed)
}

/// What handling a message of the server comes to.
#[verifier::opaque]
pub open spec fn backend_handled(d: Side, o: DrainOutcome, m: BackendView, consumed: nat) -> Step {
    backend_effect(d, o, m, consumed)
}

/// Whether a drain took what it counted off the front of the buffer: what is left is the
/// end of what was there, and unless the bytes did not decode, which drops all of them,
/// the bytes counted are exactly those taken.
pub open spec fn took_from_the_front(
    before: Side,
    o: DrainOutcome,
    after: Side,
    outcome: DrainOutcome,
    failed: bool,
) -> bool {
    let taken = before.buffer.len() - after.buffer.len();
    &&& taken >= 0
    &&& after.buffer == before.buffer.skip(taken)
    &&& o.bytes <= outcome.bytes <= o.bytes + taken
    &&& !failed ==> outcome.bytes == o.bytes + taken
}

/// Draining the client's buffer: message after message until it runs dry, the client
/// waits for an answer, or the bytes do not decode. Each message takes at least one
/// byte, except that the opening bytes are looked at once without being taken.
pub open spec fn frontend_drained(d: Side, o: DrainOutcome) -> Step
    decreases
            d.buffer.len(),
            (if d.ctx.awaiting_frontend_ssl {
                1nat
            } else {
                0nat
            }),
{
    if !frontend_readable(d.buffer, d.ctx) {
        stopped(d, DrainOutcome { malformed: true, ..o })
    } else {
        let step = frontend_next(d.buffer, d.ctx);
        let taken = Side { buffer: d.buffer.skip(step.consumed as int), ..d };
        match step.result {
            Ok(None) => stopped(taken, o),
            Ok(Some(m)) => {
                let s = frontend_handled(
                    Side { decode_failures: 0, ..taken },
                    o,
                    m,
                    step.consumed,
                );
                let less = s.side.buffer.len() < d.buffer.len() || (s.side.buffer.len()
                    == d.buffer.len() && d.ctx.awaiting_frontend_ssl
                    && !s.side.ctx.awaiting_frontend_ssl);
                if s.go_on && less {
                    then(s, frontend_drained(s.side, s.outcome))
                } else {
                    s
                }
            },
            Err(error) => failure_effect(taken, o, error),
        }
    }
}

/// Draining the server's buffer: message after message until it runs dry, the
/// connection turns encrypted, or the bytes do not decode.
pub open spec fn backend_drained(d: Side, o: DrainOutcome) -> Step
    decreases d.buffer.len(),
{
    if !backend_readable(d.buffer, d.ctx) {
        stopped(d, DrainOutcome { malformed: true, ..o })
    } else {
        let step = backend_next(d.buffer, d.ctx);
        let taken = Side { buffer: d.buffer.skip(step.consumed as int), ..d };
        match step.result {
            Ok(None) => stopped(taken, o),
            Ok(Some(m)) => {
                let s = backend_handled(
                    Side { decode_failures: 0, ..taken },
                    o,
                    m,
                    step.consumed,
                );
                if s.go_on && s.side.buffer.len() < d.buffer.len() {
                    then(s, backend_drained(s.side, s.outcome))
                } else {
                    s
                }
            },
            Err(error) => failure_effect(taken, o, error),
        }
    }
}

/// Draining a direction: nothing once the connection is encrypted or the direction
/// given up on.
pub open spec fn direction_drained(d: Side, o: DrainOutcome) -> Step {
    if o.encrypted || d.dead {
        stopped(d, o)
    } else if d.role == Role::Client {
        frontend_drained(d, o)
    } else {
        backend_drained(d, o)
    }
}

/// Handles a message of the client on the way through the buffer.
fn apply_frontend(
    dir: &mut Direction,
    msg: FrontendMessage,
    outcome: &mut DrainOutcome,
    consumed: u64,
    out: &mut Vec<Output>,
) -> (go_on: bool)
    requires
        old(outcome).msgs < u64::MAX,
        old(outcome).bytes + consumed <= u64::MAX,
    ensures
        ({
            let s = frontend_handled(old(dir)@, *old(outcome), msg@, consumed as nat);
            &&& final(dir)@ == s.side
            &&& *final(outcome) == s.outcome
            &&& emitted(old(out)@, final(out)@, s.events)
            &&& go_on == s.go_on
        }),
        final(dir).assembly == old(dir).assembly,
        final(dir)@.buffer == old(dir)@.buffer,
        final(dir).dead == old(dir).dead,
        final(dir).decode_failures == old(dir).decode_failures,
        final(outcome).msgs <= old(outcome).msgs + 1,
        !(msg@ is NoNegotiation) ==> final(outcome).bytes == old(outcome).bytes + consumed,
        msg@ is NoNegotiation ==> !final(dir).ctx.awaiting_frontend_ssl && final(outcome).msgs
            == old(outcome).msgs && final(outcome).bytes == old(outcome).bytes,
        msg@ is SslRequest || msg@ is GssEncRequest ==> !go_on,
{
    proof {
        reveal(frontend_handled);
    }
    handle_frontend(dir, msg, outcome, consumed, out)
}

/// Handles a message of the server on the way through the buffer.
fn apply_backend(
    dir: &mut Direction,
    msg: BackendMessage,
    outcome: &mut DrainOutcome,
    consumed: u64,
    out: &mut Vec<Output>,
) -> (go_on: bool)
    requires
        old(outcome).msgs < u64::MAX,
        old(outcome).bytes + consumed <= u64::MAX,
    ensures
        ({
            let s = backend_handled(old(dir)@, *old(outcome), msg@, consumed as nat);
            &&& final(dir)@ == s.side
            &&& *final(outcome) == s.outcome
            &&& emitted(old(out)@, final(out)@, s.events)
            &&& go_on == s.go_on
        }),
        final(dir).assembly == old(dir).assembly,
        final(dir)@.buffer == old(dir)@.buffer,
        final(dir).dead == old(dir).dead,
        final(dir).decode_failures == old(dir).decode_failures,
        final(outcome).msgs <= old(outcome).msgs + 1,
        final(outcome).bytes == old(outcome).bytes + consumed,
{
    proof {
        reveal(backend_handled);
    }
    handle_backend(dir, msg, outcome, consumed, out)
}

fn drain_frontend(dir: &mut Direction, outcome: &mut DrainOutcome, out: &mut Vec<Output>)
    requires
        old(dir).wf(),
        !old(dir).dead,
        old(outcome).msgs + old(dir)@.buffer.len() <= u64::MAX,
        old(outcome).bytes + old(dir)@.buffer.len() <= u64::MAX,
    ensures
        final(dir).wf(),
        ({
            let s = frontend_drained(old(dir)@, *old(outcome));
            &&& final(dir)@ == s.side
            &&& *final(outcome) == s.outcome
            &&& emitted(old(out)@, final(out)@, s.events)
            &&& took_from_the_front(old(dir)@, *old(outcome), s.side, s.outcome, s.failed)
        }),
        final(dir).assembly == old(dir).assembly,
{
    let ghost whole = frontend_drained(dir@, *outcome);
    let ghost mut done = Seq::<Event>::empty();
    proof {
        emitted_nothing(out@);
        assert(done + whole.events =~= whole.events);
        assert(dir@.buffer.skip(0) =~= dir@.buffer);
    }
    loop
        invariant
            dir.wf(),
            !dir.dead,
            dir.assembly == old(dir).assembly,
            outcome.msgs + dir@.buffer.len() <= u64::MAX,
            outcome.bytes + dir@.buffer.len() <= u64::MAX,
            emitted(old(out)@, out@, done),
            took_from_the_front(old(dir)@, *old(outcome), dir@, *outcome, false),
            whole == frontend_drained(old(dir)@, *old(outcome)),
            ({
                let rest = frontend_drained(dir@, *outcome);
                &&& rest.side == whole.side
                &&& rest.outcome == whole.outcome
                &&& rest.failed == whole.failed
                &&& done + rest.events == whole.events
            }),
        decreases
                dir@.buffer.len(),
                (if dir.ctx.awaiting_frontend_ssl {
                    1nat
                } else {
                    0nat
                }),
    {
        let ghost d = dir@;
        let ghost o = *outcome;
        let ghost shown_before = out@;
        let before: usize = buffer_slice(&dir.rxbuf).len();
        match take_frontend(&mut dir.rxbuf, dir.ctx) {
            Taken::Nothing => {
                assert(done + Seq::<Event>::empty() =~= done);
                return;
            },
            Taken::Message(msg) => {
                // Progress: the stream is in sync.
                dir.decode_failures = 0;
                let after: usize = buffer_slice(&dir.rxbuf).len();
                let consumed: u64 = (before - after) as u64;
                let ghost m = msg@;
                let ghost taken = dir@;
                proof {
                    assert(taken == (Side {
                        decode_failures: 0,
                        buffer: d.buffer.skip(frontend_next(d.buffer, d.ctx).consumed as int),
                        ..d
                    }));
                    assert(consumed == frontend_next(d.buffer, d.ctx).consumed);
                    if m is SslRequest || m is GssEncRequest {
                        assert(consumed > 0);
                    }
                }
                let go_on = apply_frontend(dir, msg, outcome, consumed, out);
                let ghost s = frontend_handled(taken, o, m, consumed as nat);
                proof {
                    emitted_in_turn(old(out)@, shown_before, out@, done, s.events);
                    done = done + s.events;
                    let all = old(dir)@.buffer;
                    assert(all.skip(all.len() - d.buffer.len()).skip(consumed as int) =~= all.skip(
                        all.len() - dir@.buffer.len(),
                    ));
                }
                if !go_on {
                    return;
                }
                assert(s.side.buffer == taken.buffer);
                assert(done + frontend_drained(dir@, *outcome).events =~= whole.events);
            },
            Taken::Failed(error) => {
                decode_error(dir, error.as_str(), out);
                proof {
                    let all = old(dir)@.buffer;
                    assert(all.skip(all.len() as int) =~= Seq::<u8>::empty());
                    emitted_in_turn(
                        old(out)@,
                        shown_before,
                        out@,
                        done,
                        failure_effect(
                            Side {
                                buffer: d.buffer.skip(
                                    frontend_next(d.buffer, d.ctx).consumed as int,
                                ),
                                ..d
                            },
                            o,
                            error@,
                        ).events,
                    );
                }
                return;
            },
            Taken::Unreadable => {
                outcome.malformed = true;
                assert(dir@ == d);
                assert(done + Seq::<Event>::empty() =~= done);
                return;
            },
        }
    }
}

fn drain_backend(dir: &mut Direction, outcome: &mut DrainOutcome, out: &mut Vec<Output>)
    requires
        old(dir).wf(),
        !old(dir).dead,
        old(outcome).msgs + old(dir)@.buffer.len() <= u64::MAX,
        old(outcome).bytes + old(dir)@.buffer.len() <= u64::MAX,
    ensures
        final(dir).wf(),
        ({
            let s = backend_drained(old(dir)@, *old(outcome));
            &&& final(dir)@ == s.side
            &&& *final(outcome) == s.outcome
            &&& emitted(old(out)@, final(out)@, s.events)
            &&& took_from_the_front(old(dir)@, *old(outcome), s.side, s.outcome, s.failed)
        }),
        final(dir).assembly == old(dir).assembly,
{
    let ghost whole = backend_drained(dir@, *outcome);
    let ghost mut done = Seq::<Event>::empty();
    proof {
        emitted_nothing(out@);
        assert(done + whole.events =~= whole.events);
        assert(dir@.buffer.skip(0) =~= dir@.buffer);
    }
    loop
        invariant
            dir.wf(),
            !dir.dead,
            dir.assembly == old(dir).assembly,
            outcome.msgs + dir@.buffer.len() <= u64::MAX,
            outcome.bytes + dir@.buffer.len() <= u64::MAX,
            emitted(old(out)@, out@, done),
            took_from_the_front(old(dir)@, *old(outcome), dir@, *outcome, false),
            whole == backend_drained(old(dir)@, *old(outcome)),
            ({
                let rest = backend_drained(dir@, *outcome);
                &&& rest.side == whole.side
                &&& rest.outcome == whole.outcome
                &&& rest.failed == whole.failed
                &&& done + rest.events == whole.events
            }),
        decreases dir@.buffer.len(),
    {
        let ghost d = dir@;
        let ghost o = *outcome;
        let ghost shown_before = out@;
        let before: usize = buffer_slice(&dir.rxbuf).len();
        match take_backend(&mut dir.rxbuf, dir.ctx) {
            Taken::Nothing => {
                assert(done + Seq::<Event>::empty() =~= done);
                return;
            },
            Taken::Message(msg) => {
                dir.decode_failures = 0;
                let after: usize = buffer_slice(&dir.rxbuf).len();
                let consumed: u64 = (before - after) as u64;
                let ghost m = msg@;
                let ghost taken = dir@;
                proof {
                    assert(taken == (Side {
                        decode_failures: 0,
                        buffer: d.buffer.skip(backend_next(d.buffer, d.ctx).consumed as int),
                        ..d
                    }));
                    assert(consumed == backend_next(d.buffer, d.ctx).consumed);
                }
                let go_on = apply_backend(dir, msg, outcome, consumed, out);
                let ghost s = backend_handled(taken, o, m, consumed as nat);
                proof {
                    emitted_in_turn(old(out)@, shown_before, out@, done, s.events);
                    done = done + s.events;
                    let all = old(dir)@.buffer;
                    assert(all.skip(all.len() - d.buffer.len()).skip(consumed as int) =~= all.skip(
                        all.len() - dir@.buffer.len(),
                    ));
                }
                if !go_on {
                    return;
                }
                assert(s.side.buffer == taken.buffer);
                assert(done + backend_drained(dir@, *outcome).events =~= whole.events);
            },
            Taken::Failed(error) => {
                decode_error(dir, error.as_str(), out);
                proof {
                    let all = old(dir)@.buffer;
                    assert(all.skip(all.len() as int) =~= Seq::<u8>::empty());
                    emitted_in_turn(
                        old(out)@,
                        shown_before,
                        out@,
                        done,
                        failure_effect(
                            Side {
                                buffer: d.buffer.skip(
                                    backend_next(d.buffer, d.ctx).consumed as int,
                                ),
                                ..d
                            },
                            o,
                            error@,
                        ).events,
                    );
                }
                return;
            },
            Taken::Unreadable => {
                outcome.malformed = true;
                assert(dir@ == d);
                assert(done + Seq::<Event>::empty() =~= done);
                return;
            },
        }
    }
}

/// Repeatedly decodes messages from `dir`'s buffer until it runs dry.
///
/// See [`ServerNegotiationWait`] and [`DrainOutcome`] for how the caller learns about
/// the SSL and GSS negotiation handoff and encryption.
pub fn drain_direction(dir: &mut Direction, outcome: &mut DrainOutcome, out: &mut Vec<Output>)
    requires
        old(dir).wf(),
        old(outcome).msgs + old(dir)@.buffer.len() <= u64::MAX,
        old(outcome).bytes + old(dir)@.buffer.len() <= u64::MAX,
    ensures
        final(dir).wf(),
        ({
            let s = direction_drained(old(dir)@, *old(outcome));
            &&& final(dir)@ == s.side
            &&& *final(outcome) == s.outcome
            &&& emitted(old(out)@, final(out)@, s.events)
            &&& took_from_the_front(old(dir)@, *old(outcome), s.side, s.outcome, s.failed)
        }),
        final(dir).assembly == old(dir).assembly,
{
    if outcome.encrypted || dir.dead {
        proof {
            emitted_nothing(out@);
            assert(dir@.buffer.skip(0) =~= dir@.buffer);
        }
        return;
    }
    if dir.role == Role::Client {
        drain_frontend(dir, outcome, out);
    } else {
        drain_backend(dir, outcome, out);
    }
}

// --- laws -------------------------------------------------------------------------------------

/// A direction that was given up on, or whose connection is encrypted, is not decoded
/// any more.
pub proof fn dead_directions_stay_silent(d: Side, o: DrainOutcome)
    requires
        d.dead || o.encrypted,
    ensures
        direction_drained(d, o) == stopped(d, o),
{
}

/// An SSL request does not make a connection encrypted: the client stops draining and
/// the server's answer is awaited.
pub proof fn ssl_request_is_not_encryption(d: Side, o: DrainOutcome, consumed: nat)
    ensures
        ({
            let s = frontend_effect(d, o, FrontendView::SslRequest, consumed);
            &&& s.outcome.encrypted == o.encrypted
            &&& s.outcome.server_negotiation_wait == ServerNegotiationWait::Ssl
            &&& !s.go_on
            &&& !s.side.ctx.awaiting_frontend_ssl
        }),
{
}

/// A refused SSL or GSS request leaves the connection in cleartext, and normal
/// messages decode afterwards; an accepted one makes it encrypted.
pub proof fn only_acceptance_encrypts(d: Side, o: DrainOutcome, reply: NegotiationReply, consumed: nat)
    ensures
        ({
            let s = backend_effect(d, o, BackendView::SslResponse(reply), consumed);
            &&& s.outcome.encrypted == (o.encrypted || reply == NegotiationReply::Accept)
            &&& !s.side.ctx.awaiting_backend_ssl_response
        }),
        ({
            let s = backend_effect(d, o, BackendView::GssEncResponse(reply), consumed);
            &&& s.outcome.encrypted == (o.encrypted || reply == NegotiationReply::Accept)
            &&& !s.side.ctx.awaiting_backend_gss_response
        }),
{
}

/// A whole SSL or GSS request at the front of a buffer is all that a drain takes: it shows
/// it, counts it and waits for the server's answer.
pub proof fn requests_end_the_drain(d: Side, gss: bool)
    requires
        d.role == Role::Client,
        !d.dead,
        d.ctx.awaiting_frontend_ssl,
        d.buffer.len() >= 8,
        be32(d.buffer, 4) == (if gss {
            GSS_REQUEST_CODE
        } else {
            SSL_REQUEST_CODE
        }),
    ensures
        direction_drained(d, no_outcome()) == (Step {
            side: Side {
                buffer: d.buffer.skip(8),
                decode_failures: 0,
                ctx: DecodeContext { awaiting_frontend_ssl: false, ..d.ctx },
                ..d
            },
            outcome: DrainOutcome {
                server_negotiation_wait: if gss {
                    ServerNegotiationWait::Gss
                } else {
                    ServerNegotiationWait::Ssl
                },
                ..counted(no_outcome(), 8)
            },
            events: shown(
                d,
                if gss {
                    "GssEncRequest"@
                } else {
                    "SSLRequest"@
                },
                "(awaiting server reply)"@,
            ),
            go_on: false,
            failed: false,
        }),
{
    reveal(frontend_handled);
}

/// Once a reply accepts, nothing behind it in the buffer is decoded: the acceptance is all
/// that is shown and counted, and the rest stays as it is. A refusal is counted too, and
/// what is behind it decodes as usual.
pub proof fn replies_decide_the_drain(d: Side, gss: bool, reply: u8, rest: Seq<u8>)
    requires
        d.role == Role::Server,
        !d.dead,
        d.ctx.awaiting_backend_ssl_response == !gss,
        gss ==> d.ctx.awaiting_backend_gss_response,
        d.buffer == seq![reply] + rest,
        reply == 0x4e || reply == (if gss {
            0x47u8
        } else {
            0x53u8
        }),
    ensures
        ({
            let s = direction_drained(d, no_outcome());
            let after = Side {
                buffer: rest,
                decode_failures: 0,
                ctx: if gss {
                    DecodeContext { awaiting_backend_gss_response: false, ..d.ctx }
                } else {
                    DecodeContext { awaiting_backend_ssl_response: false, ..d.ctx }
                },
                ..d
            };
            let once = counted(no_outcome(), 1);
            let accepted = if gss {
                "GSS accepted — connection is now encrypted, decoding stops here"@
            } else {
                "SSL accepted — connection is now encrypted, decoding stops here"@
            };
            let kind = if gss {
                "GssEncResponse"@
            } else {
                "SslResponse"@
            };
            if reply == 0x4e {
                s == then(
                    showing(after, once, kind, "refuse (continuing in cleartext)"@),
                    backend_drained(after, once),
                )
            } else {
                s == Step {
                    side: after,
                    outcome: DrainOutcome { encrypted: true, ..once },
                    events: seq![
                        Event::Warning { role: d.role, client: d.client, text: accepted },
                    ],
                    go_on: false,
                    failed: false,
                }
            }
        }),
{
    reveal(backend_handled);
    assert(d.buffer[0] == reply);
    assert(d.buffer.skip(1) =~= rest);
}

/// No message of the server but an accepted SSL or GSS request makes a connection
/// encrypted.
pub proof fn ordinary_messages_never_encrypt(d: Side, o: DrainOutcome, m: BackendView, consumed: nat)
    requires
        m != BackendView::SslResponse(NegotiationReply::Accept),
        m != BackendView::GssEncResponse(NegotiationReply::Accept),
    ensures
        backend_effect(d, o, m, consumed).outcome.encrypted == o.encrypted,
{
}

/// Executing a portal that is bound to a prepared statement shows the statement's SQL.
pub proof fn execute_shows_the_prepared_sql(
    d: Side,
    o: DrainOutcome,
    name: Option<Seq<char>>,
    sql: Seq<char>,
    oids: Seq<u32>,
    b: crate::wire::BindView,
    rows: i32,
)
    requires
        d.prepared.len() < PREPARED_CACHE_CAP,
        b.statement_name == name,
    ensures
        ({
            let parsed = frontend_effect(d, o, FrontendView::Parse(name, sql, oids), 0);
            let bound = frontend_effect(parsed.side, parsed.outcome, FrontendView::Bind(b), 0);
            let run = frontend_effect(
                bound.side,
                bound.outcome,
                FrontendView::Execute(b.portal_name, rows),
                0,
            );
            run.events == shown(
                d,
                "Execute"@,
                execute_text(b.portal_name, rows, Some(sql)),
            )
        }),
{
}

/// Closing a prepared statement forgets its SQL.
pub proof fn close_forgets_the_statement(d: Side, o: DrainOutcome, name: Option<Seq<char>>)
    ensures
        looked_up(
            frontend_effect(d, o, FrontendView::Close(0x53, name), 0).side.prepared,
            key_of(name),
        ) is None,
{
}

/// The cache of prepared statements never outgrows its cap.
pub proof fn prepared_cache_is_bounded(d: Side, o: DrainOutcome, m: FrontendView, consumed: nat)
    requires
        d.prepared.dom().finite(),
        d.prepared.len() <= PREPARED_CACHE_CAP,
    ensures
        frontend_effect(d, o, m, consumed).side.prepared.len() <= PREPARED_CACHE_CAP,
        frontend_effect(d, o, m, consumed).side.prepared.dom().finite(),
{
}

/// Rows of a described result are labelled with the description last seen, across any
/// messages between that neither describe a result nor say that there is none.
pub proof fn descriptions_outlive_other_messages(
    d: Side,
    o: DrainOutcome,
    m: BackendView,
    consumed: nat,
)
    requires
        !(m is RowDescription),
        !(m is NoData),
    ensures
        backend_effect(d, o, m, consumed).side.row_desc == d.row_desc,
{
}

/// A direction is given up on at exactly the failure that reaches the limit of
/// failures in a row.
pub proof fn repeated_failures_end_decoding(d: Side, o: DrainOutcome, error: Seq<char>)
    requires
        !d.dead,
        d.decode_failures < MAX_DECODE_FAILURES,
    ensures
        ({
            let s = failure_effect(d, o, error).side;
            &&& s.decode_failures == d.decode_failures + 1
            &&& s.dead <==> s.decode_failures == MAX_DECODE_FAILURES
            &&& s.buffer.len() == 0
        }),
{
}

} // verus!
