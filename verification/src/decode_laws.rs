//! What each message of the protocol is shown as, and what it leaves behind.
use crate::decode::{
    backend_drained, backend_effect, direction_drained, failure_effect, frontend_drained,
    frontend_effect, DrainOutcome, Step,
};
use crate::filter::{MessageDirection, MessageView};
use crate::flow::{decoding_side, fresh_side, Role, Side};
use crate::output::{
    at, captured_lines, delivered_to, displayed, fate, rendered_text, stream_of, Consumer, Delivery,
    DetailView, Event, Output, OutputView, SinkView, StampView,
};
use crate::render::{columns_of, columns_text, error_fields_text, row_desc_text};
use crate::text::{dec, dec_int};
use crate::wire::{
    backend_next, backend_readable, frontend_next, frontend_readable, AuthDataView,
    AuthenticationView, BackendView, BindView, FieldView, FrontendView, NegotiationReply,
    SecretKeyView, TransactionStatus,
};
use vstd::prelude::*;

verus! {

/// Whether a step shows one message of a side, of a kind and with a text, counts it with the
/// bytes it took, and lets draining go on.
pub open spec fn shows_one(
    s: Step,
    d: Side,
    o: DrainOutcome,
    consumed: nat,
    kind: Seq<char>,
    text: Seq<char>,
) -> bool {
    &&& s.events == seq![
        Event::Message { role: d.role, client: d.client, kind, text, detail: None },
    ]
    &&& s.outcome.msgs == o.msgs + 1
    &&& s.outcome.bytes == o.bytes + consumed
    &&& s.outcome.encrypted == o.encrypted
    &&& s.outcome.server_negotiation_wait == o.server_negotiation_wait
    &&& s.go_on
    &&& !s.failed
}

/// One message of a side without structure.
pub open spec fn one_message(d: Side, kind: Seq<char>, text: Seq<char>) -> Seq<Event> {
    seq![Event::Message { role: d.role, client: d.client, kind, text, detail: None }]
}

/// Whether an outcome has room for one more message.
pub open spec fn has_room_for(o: DrainOutcome, consumed: nat) -> bool {
    o.msgs < u64::MAX && o.bytes + consumed <= u64::MAX
}

/// The simple messages of a client by name: a query is shown as it is, and so is the reason
/// why a copy failed; the others say nothing.
#[verifier::rlimit(30)]
pub proof fn simple_client_messages(
    d: Side,
    o: DrainOutcome,
    consumed: nat,
    text: Seq<char>,
    pid: i32,
    key: i32,
)
    requires
        has_room_for(o, consumed),
    ensures
        shows_one(
            frontend_effect(d, o, FrontendView::Query(text), consumed),
            d,
            o,
            consumed,
            "Query"@,
            text,
        ),
        shows_one(
            frontend_effect(d, o, FrontendView::CopyFail(text), consumed),
            d,
            o,
            consumed,
            "CopyFail"@,
            text,
        ),
        shows_one(
            frontend_effect(d, o, FrontendView::Sync, consumed),
            d,
            o,
            consumed,
            "Sync"@,
            ""@,
        ),
        shows_one(
            frontend_effect(d, o, FrontendView::Flush, consumed),
            d,
            o,
            consumed,
            "Flush"@,
            ""@,
        ),
        shows_one(
            frontend_effect(d, o, FrontendView::Terminate, consumed),
            d,
            o,
            consumed,
            "Terminate"@,
            ""@,
        ),
        shows_one(
            frontend_effect(d, o, FrontendView::CopyDone, consumed),
            d,
            o,
            consumed,
            "CopyDone"@,
            ""@,
        ),
        shows_one(
            frontend_effect(
                d,
                o,
                FrontendView::CancelRequest(pid, SecretKeyView::I32(key)),
                consumed,
            ),
            d,
            o,
            consumed,
            "CancelRequest"@,
            "pid="@ + dec_int(pid as int) + " key="@ + dec_int(key as int),
        ),
{
}

/// The requests that a client waits on: each asks for the answer of its own kind.
pub proof fn requests_wait_for_their_own_answer(d: Side, o: DrainOutcome, consumed: nat)
    requires
        has_room_for(o, consumed),
    ensures
        ({
            let ssl = frontend_effect(d, o, FrontendView::SslRequest, consumed);
            let gss = frontend_effect(d, o, FrontendView::GssEncRequest, consumed);
            &&& ssl.outcome.server_negotiation_wait is Ssl
            &&& gss.outcome.server_negotiation_wait is Gss
            &&& ssl.outcome.msgs == o.msgs + 1 && ssl.outcome.bytes == o.bytes + consumed
            &&& gss.outcome.msgs == o.msgs + 1 && gss.outcome.bytes == o.bytes + consumed
            &&& ssl.events == seq![
                Event::Message {
                    role: d.role,
                    client: d.client,
                    kind: "SSLRequest"@,
                    text: "(awaiting server reply)"@,
                    detail: None,
                },
            ]
            &&& gss.events == seq![
                Event::Message {
                    role: d.role,
                    client: d.client,
                    kind: "GssEncRequest"@,
                    text: "(awaiting server reply)"@,
                    detail: None,
                },
            ]
        }),
        ({
            let none = frontend_effect(d, o, FrontendView::NoNegotiation, consumed);
            none.events.len() == 0 && none.outcome == o && none.go_on
                && !none.side.ctx.awaiting_frontend_ssl
        }),
        ({
            let start = frontend_effect(
                d,
                o,
                FrontendView::Startup(3, 0, Seq::empty()),
                consumed,
            );
            &&& !start.side.ctx.awaiting_frontend_startup
            &&& start.outcome.msgs == o.msgs + 1
            &&& start.events.len() == 1
            &&& start.events[0]->Message_kind == "Startup"@
        }),
{
}

/// A `Parse` is shown with the statement's name and text.
pub proof fn parse_is_shown(d: Side, o: DrainOutcome, name: Seq<char>, query: Seq<char>)
    ensures
        frontend_effect(d, o, FrontendView::Parse(Some(name), query, Seq::empty()), 0).events
            == one_message(d, "Parse"@, name + "  [param types: "@ + "-"@ + "]  "@ + query),
{
}

/// A `Describe` and a `Close` are shown with what they are of.
pub proof fn targets_are_shown(d: Side, o: DrainOutcome, name: Seq<char>)
    ensures
        frontend_effect(d, o, FrontendView::Describe(0x53, Some(name)), 0).events == one_message(
            d,
            "Describe"@,
            "statement"@ + " "@ + name,
        ),
        frontend_effect(d, o, FrontendView::Describe(0x50, Some(name)), 0).events == one_message(
            d,
            "Describe"@,
            "portal"@ + " "@ + name,
        ),
        frontend_effect(d, o, FrontendView::Close(0x53, Some(name)), 0).events == one_message(
            d,
            "Close"@,
            "statement"@ + " "@ + name,
        ),
        frontend_effect(d, o, FrontendView::Close(0x50, Some(name)), 0).events == one_message(
            d,
            "Close"@,
            "portal"@ + " "@ + name,
        ),
{
}

/// The other messages of the extended protocol are shown by name with their texts, and every
/// message but the opening bytes is counted with the bytes that it took.
pub proof fn extended_messages_are_named(
    d: Side,
    o: DrainOutcome,
    b: BindView,
    name: Option<Seq<char>>,
    rows: i32,
    a: AuthDataView,
    data: Seq<u8>,
)
    ensures
        ({
            let e = frontend_effect(d, o, FrontendView::Bind(b), 0).events;
            e == one_message(d, "Bind"@, e[0]->Message_text)
        }),
        ({
            let e = frontend_effect(d, o, FrontendView::Execute(name, rows), 0).events;
            e == one_message(d, "Execute"@, e[0]->Message_text)
        }),
        frontend_effect(d, o, FrontendView::AuthData(a), 0).events == one_message(
            d,
            "AuthData"@,
            crate::render::auth_data_text(a),
        ),
        frontend_effect(d, o, FrontendView::CopyData(data), 0).events == one_message(
            d,
            "CopyData"@,
            crate::render::bytes_text(data),
        ),
{
}

/// Every message is counted once, with the bytes that it took; only the opening bytes that ask
/// for nothing are no message.
pub proof fn every_message_is_counted(
    d: Side,
    o: DrainOutcome,
    m: FrontendView,
    n: BackendView,
    consumed: nat,
)
    requires
        has_room_for(o, consumed),
    ensures
        !(m is NoNegotiation) ==> frontend_effect(d, o, m, consumed).outcome.msgs == o.msgs + 1
            && frontend_effect(d, o, m, consumed).outcome.bytes == o.bytes + consumed,
        m is NoNegotiation ==> frontend_effect(d, o, m, consumed).outcome == o,
        backend_effect(d, o, n, consumed).outcome.msgs == o.msgs + 1,
        backend_effect(d, o, n, consumed).outcome.bytes == o.bytes + consumed,
        frontend_effect(d, o, m, consumed).outcome.encrypted == o.encrypted,
        frontend_effect(d, o, m, consumed).go_on == !(m is SslRequest || m is GssEncRequest),
{
}

/// A statement is remembered under its name until it is closed or parsed anew; neither a
/// statement of another name nor a portal touches it.
pub proof fn statements_are_remembered_by_name(
    d: Side,
    o: DrainOutcome,
    name: Seq<char>,
    other: Seq<char>,
    query: Seq<char>,
    oids: Seq<u32>,
)
    requires
        d.prepared.dom().finite(),
        d.prepared.len() < 4096,
        name != other,
    ensures
        ({
            let s = frontend_effect(d, o, FrontendView::Parse(Some(name), query, oids), 0).side;
            &&& s.prepared.contains_key(name) && s.prepared[name] == query
            &&& s.prepared.contains_key(other) == d.prepared.contains_key(other)
            &&& d.prepared.contains_key(other) ==> s.prepared[other] == d.prepared[other]
            &&& s.portals == d.portals
        }),
        ({
            let s = frontend_effect(d, o, FrontendView::Close(0x53, Some(name)), 0).side;
            &&& !s.prepared.contains_key(name)
            &&& s.prepared.contains_key(other) == d.prepared.contains_key(other)
            &&& s.portals == d.portals
        }),
        ({
            let s = frontend_effect(d, o, FrontendView::Close(0x50, Some(name)), 0).side;
            &&& !s.portals.contains_key(name)
            &&& s.portals.contains_key(other) == d.portals.contains_key(other)
            &&& s.prepared == d.prepared
        }),
{
}

/// A `Bind` makes its portal stand for its statement, and shows the text of that statement; an
/// `Execute` shows the text behind its own portal and of no other.
#[verifier::rlimit(30)]
pub proof fn portals_stand_for_their_statements(
    d: Side,
    o: DrainOutcome,
    portal: Seq<char>,
    statement: Seq<char>,
    b: BindView,
    rows: i32,
    sql: Seq<char>,
)
    requires
        b.portal_name == Some(portal),
        b.statement_name == Some(statement),
        d.prepared.contains_key(statement),
        d.prepared[statement] == sql,
    ensures
        ({
            let s = frontend_effect(d, o, FrontendView::Bind(b), 0);
            &&& s.side.portals.contains_key(portal) && s.side.portals[portal] == statement
            &&& s.side.prepared == d.prepared
            &&& s.events[0]->Message_text == crate::render::bind_text(b, Some(sql))
            &&& frontend_effect(s.side, o, FrontendView::Execute(Some(portal), 0), 0).events[0]->Message_text
                == portal + ("  sql: "@ + sql)
        }),
        !d.portals.contains_key(portal) ==> frontend_effect(
            d,
            o,
            FrontendView::Execute(Some(portal), 0),
            0,
        ).events[0]->Message_text == portal,
{
    let s = frontend_effect(d, o, FrontendView::Bind(b), 0);
    assert(portal + Seq::<char>::empty() =~= portal);
}

/// The messages of a server by name: what they say is shown after it.
#[verifier::rlimit(30)]
pub proof fn server_messages_are_named(
    d: Side,
    o: DrainOutcome,
    consumed: nat,
    name: Seq<char>,
    value: Seq<char>,
    fields: Seq<(u8, Seq<char>)>,
    pid: i32,
    key: i32,
    columns: i16,
)
    requires
        has_room_for(o, consumed),
    ensures
        shows_one(
            backend_effect(d, o, BackendView::ParameterStatus(name, value), consumed),
            d,
            o,
            consumed,
            "ParameterStatus"@,
            name + "="@ + value,
        ),
        shows_one(
            backend_effect(
                d,
                o,
                BackendView::BackendKeyData(pid, SecretKeyView::I32(key)),
                consumed,
            ),
            d,
            o,
            consumed,
            "BackendKeyData"@,
            "pid="@ + dec_int(pid as int) + " key="@ + dec_int(key as int),
        ),
        shows_one(
            backend_effect(
                d,
                o,
                BackendView::Authentication(AuthenticationView::Granted),
                consumed,
            ),
            d,
            o,
            consumed,
            "Authentication"@,
            "Ok"@,
        ),
        shows_one(
            backend_effect(d, o, BackendView::CommandComplete(name), consumed),
            d,
            o,
            consumed,
            "CommandComplete"@,
            name,
        ),
        shows_one(
            backend_effect(d, o, BackendView::ErrorResponse(fields), consumed),
            d,
            o,
            consumed,
            "ERROR"@,
            error_fields_text(fields),
        ),
        shows_one(
            backend_effect(d, o, BackendView::NoticeResponse(fields), consumed),
            d,
            o,
            consumed,
            "NOTICE"@,
            error_fields_text(fields),
        ),
        shows_one(
            backend_effect(d, o, BackendView::NotificationResponse(name, value), consumed),
            d,
            o,
            consumed,
            "NOTIFY"@,
            "channel="@ + crate::decode::debug_text(name) + " payload="@ + crate::decode::debug_text(
                value,
            ),
        ),
        shows_one(
            backend_effect(d, o, BackendView::CopyFail(name), consumed),
            d,
            o,
            consumed,
            "CopyFail"@,
            name,
        ),
        shows_one(
            backend_effect(d, o, BackendView::CopyInResponse(columns), consumed),
            d,
            o,
            consumed,
            "CopyInResponse"@,
            "copy "@ + "in"@ + " ("@ + dec_int(columns as int) + " columns)"@,
        ),
        shows_one(
            backend_effect(d, o, BackendView::CopyOutResponse(columns), consumed),
            d,
            o,
            consumed,
            "CopyOutResponse"@,
            "copy "@ + "out"@ + " ("@ + dec_int(columns as int) + " columns)"@,
        ),
        shows_one(
            backend_effect(d, o, BackendView::CopyBothResponse(columns), consumed),
            d,
            o,
            consumed,
            "CopyBothResponse"@,
            "copy "@ + "both"@ + " ("@ + dec_int(columns as int) + " columns)"@,
        ),
{
}

/// The messages of a server that say where a statement or a transaction stands.
#[verifier::rlimit(30)]
pub proof fn server_states_are_named(
    d: Side,
    o: DrainOutcome,
    consumed: nat,
    oids: Seq<u32>,
    data: Seq<u8>,
)
    requires
        has_room_for(o, consumed),
    ensures
        shows_one(
            backend_effect(d, o, BackendView::ReadyForQuery(TransactionStatus::Idle), consumed),
            d,
            o,
            consumed,
            "ReadyForQuery"@,
            "txn="@ + "idle"@,
        ),
        shows_one(
            backend_effect(
                d,
                o,
                BackendView::ReadyForQuery(TransactionStatus::Transaction),
                consumed,
            ),
            d,
            o,
            consumed,
            "ReadyForQuery"@,
            "txn="@ + "in-transaction"@,
        ),
        shows_one(
            backend_effect(d, o, BackendView::ReadyForQuery(TransactionStatus::Error), consumed),
            d,
            o,
            consumed,
            "ReadyForQuery"@,
            "txn="@ + "failed-transaction"@,
        ),
        shows_one(
            backend_effect(d, o, BackendView::ParseComplete, consumed),
            d,
            o,
            consumed,
            "ParseComplete"@,
            ""@,
        ),
        shows_one(
            backend_effect(d, o, BackendView::BindComplete, consumed),
            d,
            o,
            consumed,
            "BindComplete"@,
            ""@,
        ),
        shows_one(
            backend_effect(d, o, BackendView::CloseComplete, consumed),
            d,
            o,
            consumed,
            "CloseComplete"@,
            ""@,
        ),
        shows_one(
            backend_effect(d, o, BackendView::PortalSuspended, consumed),
            d,
            o,
            consumed,
            "PortalSuspended"@,
            ""@,
        ),
        shows_one(
            backend_effect(d, o, BackendView::EmptyQueryResponse, consumed),
            d,
            o,
            consumed,
            "EmptyQueryResponse"@,
            ""@,
        ),
        shows_one(
            backend_effect(d, o, BackendView::CopyDone, consumed),
            d,
            o,
            consumed,
            "CopyDone"@,
            ""@,
        ),
        shows_one(
            backend_effect(d, o, BackendView::NoData, consumed),
            d,
            o,
            consumed,
            "NoData"@,
            ""@,
        ),
        backend_effect(d, o, BackendView::ParameterDescription(oids), consumed).events
            == one_message(d, "ParameterDescription"@, crate::render::oids_text(oids)),
        backend_effect(d, o, BackendView::CopyData(data), consumed).events == one_message(
            d,
            "CopyData"@,
            crate::render::bytes_text(data),
        ),
{
}

/// A description is kept for the rows behind it, until another comes or none is said to be
/// there; rows are shown by the one that is kept, and with their columns only then.
pub proof fn rows_go_by_the_last_description(
    d: Side,
    o: DrainOutcome,
    fields: Seq<FieldView>,
    data: Seq<u8>,
    count: i16,
)
    ensures
        ({
            let s = backend_effect(d, o, BackendView::RowDescription(fields), 0);
            &&& s.side.row_desc == Some(fields)
            &&& s.events == seq![
                Event::Message {
                    role: d.role,
                    client: d.client,
                    kind: "RowDescription"@,
                    text: row_desc_text(fields),
                    detail: Some(DetailView::RowDescription(fields)),
                },
            ]
            &&& backend_effect(s.side, o, BackendView::DataRow(data, count), 0).events == seq![
                Event::Message {
                    role: d.role,
                    client: d.client,
                    kind: "DataRow"@,
                    text: columns_text(columns_of(data, count, Some(fields)), true),
                    detail: Some(DetailView::DataRow(columns_of(data, count, Some(fields)))),
                },
            ]
        }),
        ({
            let s = backend_effect(d, o, BackendView::NoData, 0);
            &&& s.side.row_desc is None
            &&& backend_effect(s.side, o, BackendView::DataRow(data, count), 0).events == seq![
                Event::Message {
                    role: d.role,
                    client: d.client,
                    kind: "DataRow"@,
                    text: columns_text(columns_of(data, count, None), false),
                    detail: None,
                },
            ]
        }),
{
}

/// The server's answer to a request: acceptance is warned of, and a refusal shown.
pub proof fn answers_are_shown(d: Side, o: DrainOutcome, consumed: nat)
    requires
        has_room_for(o, consumed),
    ensures
        shows_one(
            backend_effect(d, o, BackendView::SslResponse(NegotiationReply::Refuse), consumed),
            d,
            o,
            consumed,
            "SslResponse"@,
            "refuse (continuing in cleartext)"@,
        ),
        shows_one(
            backend_effect(d, o, BackendView::GssEncResponse(NegotiationReply::Refuse), consumed),
            d,
            o,
            consumed,
            "GssEncResponse"@,
            "refuse (continuing in cleartext)"@,
        ),
        ({
            let s = backend_effect(
                d,
                o,
                BackendView::SslResponse(NegotiationReply::Accept),
                consumed,
            );
            &&& s.events == seq![
                Event::Warning {
                    role: d.role,
                    client: d.client,
                    text: "SSL accepted — connection is now encrypted, decoding stops here"@,
                },
            ]
            &&& !s.go_on
            &&& s.outcome.encrypted
            &&& s.outcome.msgs == o.msgs + 1
        }),
        ({
            let s = backend_effect(
                d,
                o,
                BackendView::GssEncResponse(NegotiationReply::Accept),
                consumed,
            );
            &&& s.events == seq![
                Event::Warning {
                    role: d.role,
                    client: d.client,
                    text: "GSS accepted — connection is now encrypted, decoding stops here"@,
                },
            ]
            &&& !s.go_on
            &&& s.outcome.encrypted
            &&& s.outcome.msgs == o.msgs + 1
        }),
{
}

/// Bytes that do not decode are dropped and reported with their number, and none is counted.
/// The eighth failure in a row ends decoding.
pub proof fn failures_are_reported(d: Side, o: DrainOutcome, error: Seq<char>)
    requires
        d.decode_failures < 8,
    ensures
        ({
            let s = failure_effect(d, o, error);
            let report = "decode error ("@ + dec(d.buffer.len()) + " lost bytes): "@ + error;
            &&& s.outcome == o
            &&& s.side.buffer.len() == 0
            &&& s.side.decode_failures == d.decode_failures + 1
            &&& !s.go_on && s.failed
            &&& d.decode_failures < 7 ==> s.events == seq![
                Event::Warning { role: d.role, client: d.client, text: report },
            ] && s.side.dead == d.dead
            &&& d.decode_failures == 7 ==> s.events == seq![
                Event::Warning {
                    role: d.role,
                    client: d.client,
                    text: report + "; stream desynced, giving up decoding this direction"@,
                },
            ] && s.side.dead
        }),
{
}

// --- records ---------------------------------------------------------------------------------

/// A message of a client goes to the server and is tagged so, and one of a server the other
/// way; a record keeps the time, the client, the kind and the text, and its line shows the
/// clock, the direction, the kind and, where there is one, the text.
pub proof fn records_show_their_events(
    t: StampView,
    e: Event,
    role: Role,
    client: crate::addr::SocketAddr,
    kind: Seq<char>,
    text: Seq<char>,
    detail: Option<DetailView>,
)
    ensures
        ({
            let tag = if role is Client {
                "F→B"@
            } else {
                "B→F"@
            };
            let line = "["@ + t.clock + "] ["@ + tag + "] "@;
            let direction = if role is Client {
                MessageDirection::FrontendToBackend
            } else {
                MessageDirection::BackendToFrontend
            };
            &&& text.len() > 0 ==> at(Event::Message { role, client, kind, text, detail }, t) == (
            OutputView::Message {
                message: MessageView {
                    timestamp: t.rfc3339,
                    rendered: line + kind + ": "@ + text,
                    client,
                    direction,
                    kind,
                    text,
                },
                detail,
            })
            &&& text.len() == 0 ==> at(Event::Message { role, client, kind, text, detail }, t) == (
            OutputView::Message {
                message: MessageView {
                    timestamp: t.rfc3339,
                    rendered: line + kind,
                    client,
                    direction,
                    kind,
                    text,
                },
                detail,
            })
            &&& at(Event::Warning { role, client, text }, t) == (OutputView::Message {
                message: MessageView {
                    timestamp: t.rfc3339,
                    rendered: line + "⚠ "@ + text,
                    client,
                    direction,
                    kind: "Warning"@,
                    text,
                },
                detail: None,
            })
        }),
        at(Event::Line(text), t) == OutputView::Line("["@ + t.clock + "] "@ + text),
        at(Event::Status(text), t) == OutputView::Status(text),
{
}

/// Messages and lines are printed to the standard output, status lines to the error output.
pub proof fn status_lines_go_to_the_error_output(o: OutputView)
    ensures
        stream_of(o) is Stderr <==> o is Status,
{
}

// --- the sink ----------------------------------------------------------------------------------

/// An open capture takes every record, and the channel then none; without either a record is to
/// be printed. A channel takes a record while there is room, and sheds and counts it otherwise.
pub proof fn records_go_where_they_should(s: SinkView, record: Output, c: Consumer)
    requires
        s.dropped < u64::MAX,
    ensures
        s.capture is Some ==> fate(s, record, c) is Captured && delivered_to(s, record, c)
            == (SinkView { capture: Some(s.capture->0.push(record)), ..s }),
        s.capture is None && s.tx is None ==> fate(s, record, c) == Delivery::Print(record)
            && delivered_to(s, record, c) == s,
        s.capture is None && s.tx is Some && c.alive && s.tx->0.log.len() - c.taken
            < s.tx->0.capacity ==> fate(s, record, c) is Sent && delivered_to(s, record, c).tx->0.log
            == s.tx->0.log.push(record) && delivered_to(s, record, c).dropped == s.dropped,
        s.capture is None && s.tx is Some && !(c.alive && s.tx->0.log.len() - c.taken
            < s.tx->0.capacity) ==> fate(s, record, c) is Dropped && delivered_to(s, record, c).tx
            == s.tx && delivered_to(s, record, c).dropped == s.dropped + 1,
{
}

/// The lines of a capture are those of its messages and lines in order; status lines are none
/// of them.
pub proof fn captured_lines_leave_out_status(records: Seq<Output>, record: Output)
    ensures
        captured_lines(Seq::empty()).len() == 0,
        record@ is Status ==> captured_lines(records.push(record)) == captured_lines(records),
        !(record@ is Status) ==> captured_lines(records.push(record)) == captured_lines(
            records,
        ).push(rendered_text(record@)),
{
    assert(records.push(record).drop_last() =~= records);
}

/// What is shown of a record: a message's rendered line, and a line or status as it is. The
/// filter hides messages alone.
pub proof fn records_are_shown_as_rendered(
    m: MessageView,
    detail: Option<DetailView>,
    text: Seq<char>,
    f: crate::filter::FilterView,
)
    ensures
        rendered_text(OutputView::Message { message: m, detail }) == m.rendered,
        rendered_text(OutputView::Line(text)) == text,
        rendered_text(OutputView::Status(text)) == text,
        displayed(OutputView::Message { message: m, detail }, f) == crate::filter::lets_through(f, m),
        displayed(OutputView::Line(text), f),
        displayed(OutputView::Status(text), f),
{
}

// --- draining ------------------------------------------------------------------------------------

/// Messages are shown in the order in which they came: what a drain shows begins with what its
/// first message shows.
pub proof fn messages_are_shown_in_order(d: Side, o: DrainOutcome)
    ensures
        ({
            let next = backend_next(d.buffer, d.ctx);
            backend_readable(d.buffer, d.ctx) && next.result is Ok && next.result->Ok_0 is Some ==> ({
                let rest = Side {
                    buffer: d.buffer.skip(next.consumed as int),
                    decode_failures: 0,
                    ..d
                };
                let first = backend_effect(rest, o, next.result->Ok_0->0, next.consumed).events;
                let all = backend_drained(d, o).events;
                all.len() >= first.len() && all.take(first.len() as int) == first
            })
        }),
        ({
            let next = frontend_next(d.buffer, d.ctx);
            frontend_readable(d.buffer, d.ctx) && next.result is Ok && next.result->Ok_0 is Some ==> ({
                let rest = Side {
                    buffer: d.buffer.skip(next.consumed as int),
                    decode_failures: 0,
                    ..d
                };
                let first = frontend_effect(rest, o, next.result->Ok_0->0, next.consumed).events;
                let all = frontend_drained(d, o).events;
                all.len() >= first.len() && all.take(first.len() as int) == first
            })
        }),
{
    reveal(crate::decode::backend_handled);
    reveal(crate::decode::frontend_handled);
    let next = backend_next(d.buffer, d.ctx);
    if backend_readable(d.buffer, d.ctx) && next.result is Ok && next.result->Ok_0 is Some {
        let rest = Side { buffer: d.buffer.skip(next.consumed as int), decode_failures: 0, ..d };
        let s = backend_effect(rest, o, next.result->Ok_0->0, next.consumed);
        let all = backend_drained(d, o).events;
        let more = backend_drained(s.side, s.outcome).events;
        assert(all == s.events || all == s.events + more);
        assert(all.take(s.events.len() as int) =~= s.events);
    }
    lemma_client_order(d, o);
}

proof fn lemma_client_order(d: Side, o: DrainOutcome)
    ensures
        ({
            let next = frontend_next(d.buffer, d.ctx);
            frontend_readable(d.buffer, d.ctx) && next.result is Ok && next.result->Ok_0 is Some ==> ({
                let rest = Side {
                    buffer: d.buffer.skip(next.consumed as int),
                    decode_failures: 0,
                    ..d
                };
                let first = frontend_effect(rest, o, next.result->Ok_0->0, next.consumed).events;
                let all = frontend_drained(d, o).events;
                all.len() >= first.len() && all.take(first.len() as int) == first
            })
        }),
{
    reveal(crate::decode::frontend_handled);
    let next = frontend_next(d.buffer, d.ctx);
    if frontend_readable(d.buffer, d.ctx) && next.result is Ok && next.result->Ok_0 is Some {
        let rest = Side { buffer: d.buffer.skip(next.consumed as int), decode_failures: 0, ..d };
        let s = frontend_effect(rest, o, next.result->Ok_0->0, next.consumed);
        let all = frontend_drained(d, o).events;
        let more = frontend_drained(s.side, s.outcome).events;
        assert(all == s.events || all == s.events + more);
        assert(all.take(s.events.len() as int) =~= s.events);
    }
}

/// Each side is drained as what it is: the client's bytes as a client's, the server's as a
/// server's.
pub proof fn sides_are_drained_by_their_role(d: Side, o: DrainOutcome)
    requires
        !o.encrypted,
        !d.dead,
    ensures
        d.role is Client ==> direction_drained(d, o) == frontend_drained(d, o),
        d.role is Server ==> direction_drained(d, o) == backend_drained(d, o),
{
}

/// A connection that has just opened awaits a request and then a start-up message of the client,
/// and no answer of the server; one whose TLS is ended here awaits no request.
pub proof fn connections_open_with_a_request(role: Role, client: crate::addr::SocketAddr)
    ensures
        fresh_side(role, client).ctx.awaiting_frontend_ssl,
        fresh_side(role, client).ctx.awaiting_frontend_startup,
        !fresh_side(role, client).ctx.awaiting_backend_ssl_response,
        !fresh_side(role, client).ctx.awaiting_backend_gss_response,
        !decoding_side(role, client).ctx.awaiting_frontend_ssl,
        decoding_side(role, client).ctx.awaiting_frontend_startup,
        decoding_side(role, client).role == role,
        decoding_side(role, client).client == client,
{
}

} // verus!
