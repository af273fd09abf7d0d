//! Decoding and rendering of protocol messages.
use bytes::{BufMut, BytesMut};
use pgwire::messages::data::{DataRow, FORMAT_CODE_BINARY, FORMAT_CODE_TEXT};
use pgwire::messages::extendedquery::{Bind, Execute, Parse};
use pgwire::messages::response::{CommandComplete, ReadyForQuery, TransactionStatus};
use pgwire::messages::{PgWireBackendMessage, PgWireFrontendMessage};
use tapgres::addr::{parse_socket, SocketAddr};
use tapgres::decode::{
    data_row_columns, decode_error, drain_direction, format_bind, format_bytes, format_columns,
    format_execute, handle_backend, handle_frontend, DataColumn, DrainOutcome, EventDetail,
    FieldSummary, Output, ServerNegotiationWait, MAX_DECODE_FAILURES, PREPARED_CACHE_CAP,
};
use tapgres::filter::{DisplayFilter, DisplayMessage, MessageDirection};
use tapgres::flow::{Direction, Role};
use tapgres::output::MessageEmitter;
use tapgres::wire::{
    backend_message, frontend_message, BackendMessage, FrontendMessage, NegotiationReply,
};

fn addr(text: &str) -> SocketAddr {
    parse_socket(text).unwrap()
}

fn field(name: &str, oid: u32, fmt: i16) -> FieldSummary {
    FieldSummary { name: name.into(), type_oid: oid, format_code: fmt }
}

/// Builds a `DataRow` payload from optional field bytes (`None` is SQL NULL).
fn row_from(fields: &[Option<&[u8]>]) -> DataRow {
    let mut buf = BytesMut::new();
    for f in fields {
        match f {
            None => buf.put_i32(-1),
            Some(bytes) => {
                buf.put_i32(bytes.len() as i32);
                buf.put_slice(bytes);
            }
        }
    }
    DataRow::new(buf, fields.len() as i16)
}

fn columns(row: &DataRow, desc: Option<Vec<FieldSummary>>) -> Vec<DataColumn> {
    data_row_columns(&row.data, row.field_count, &desc)
}

/// The library's bind parameters of a protocol message.
fn bind_of(bind: Bind) -> tapgres::wire::Bind {
    match frontend_message(PgWireFrontendMessage::Bind(bind)) {
        FrontendMessage::Bind(b) => b,
        other => panic!("expected Bind, got {other:?}"),
    }
}

#[test]
fn data_row_columns_label_text_and_binary() {
    let desc = vec![field("id", 23, FORMAT_CODE_TEXT), field("blob", 17, FORMAT_CODE_BINARY)];
    let row = row_from(&[Some(b"1"), Some(&[0x00, 0xff])]);
    let cols = columns(&row, Some(desc));
    assert_eq!(cols.len(), 2);
    assert_eq!(cols[0].name, "id");
    assert_eq!(cols[0].type_oid, 23);
    assert_eq!(cols[0].value, "'1'");
    assert_eq!(cols[1].name, "blob");
    assert_eq!(cols[1].type_oid, 17);
    assert_eq!(cols[1].value, "00ff"); // binary -> hex
}

#[test]
fn data_row_columns_null_field() {
    let desc = vec![field("a", 23, FORMAT_CODE_TEXT)];
    let row = row_from(&[None]);
    let cols = columns(&row, Some(desc));
    assert_eq!(cols.len(), 1);
    assert_eq!(cols[0].value, "NULL");
}

#[test]
fn data_row_columns_truncated_field_terminates_the_row() {
    // field_count claims 2, but the payload only holds one full field plus
    // a length prefix that promises bytes that never arrive.
    let desc = vec![field("a", 23, FORMAT_CODE_TEXT), field("b", 25, FORMAT_CODE_TEXT)];
    let mut buf = BytesMut::new();
    buf.put_i32(1);
    buf.put_slice(b"1"); // field 0 complete
    buf.put_i32(99); // field 1 claims 99 bytes, but none follow
    let row = DataRow::new(buf, 2);
    let cols = columns(&row, Some(desc));
    assert_eq!(cols.len(), 2);
    assert_eq!(cols[0].value, "'1'");
    assert_eq!(cols[1].value, "<?>");
}

#[test]
fn format_columns_labelled_and_plain_match_line_view() {
    let cols = vec![
        DataColumn { name: "a".into(), type_oid: 23, value: "'1'".into() },
        DataColumn { name: "b".into(), type_oid: 25, value: "'two'".into() },
    ];
    assert_eq!(format_columns(&cols, true), "{ a='1', b='two' }");
    assert_eq!(format_columns(&cols, false), "['1', 'two']");
}

#[test]
fn data_row_columns_without_desc_use_placeholder_names() {
    let row = row_from(&[Some(b"x"), Some(b"y")]);
    let cols = columns(&row, None);
    assert_eq!(cols[0].name, "?");
    assert_eq!(cols[1].name, "?");
    assert_eq!(cols[0].value, "'x'");
    assert_eq!(cols[1].value, "'y'");
    assert_eq!(format_columns(&cols, false), "['x', 'y']");
}

#[test]
fn bind_and_execute_resolve_prepared_sql() {
    let bind = bind_of(Bind::new(Some("p1".into()), Some("s1".into()), vec![], vec![], vec![]));
    let sql = "SELECT id FROM users WHERE tenant = $1";
    assert!(format_bind(&bind, Some(sql)).contains(sql));
    assert!(!format_bind(&bind, None).contains("sql:"));

    let name = Some("p1".to_string());
    assert!(format_execute(&name, 0, Some(sql)).contains(sql));
    assert_eq!(format_execute(&name, 0, None), "p1");
}

fn handled(dir: &mut Direction, msg: PgWireFrontendMessage, out: &mut Vec<Output>) {
    let mut outcome = DrainOutcome::default();
    handle_frontend(dir, frontend_message(msg), &mut outcome, 0, out);
}

#[test]
fn parse_then_execute_end_to_end_shows_sql() {
    let mut out: Vec<Output> = Vec::new();
    let mut dir = Direction::for_decoding(Role::Client, addr("127.0.0.1:40000"));
    let sql = "SELECT * FROM orders WHERE id = $1";
    // Parse s1, Bind p1<-s1, Execute p1, driven directly through the handler.
    handled(
        &mut dir,
        PgWireFrontendMessage::Parse(Parse::new(Some("s1".into()), sql.into(), vec![])),
        &mut out,
    );
    handled(
        &mut dir,
        PgWireFrontendMessage::Bind(Bind::new(
            Some("p1".into()),
            Some("s1".into()),
            vec![],
            vec![],
            vec![],
        )),
        &mut out,
    );
    handled(
        &mut dir,
        PgWireFrontendMessage::Execute(Execute::new(Some("p1".into()), 0)),
        &mut out,
    );
    let execute = out
        .iter()
        .find_map(|o| match o {
            Output::Message { message, .. } if message.kind == "Execute" => Some(message),
            _ => None,
        })
        .expect("an Execute message");
    assert!(execute.text.contains(sql), "Execute should resolve to its SQL");
}

#[test]
fn printable_payload_preview_is_truncated() {
    let big = vec![b'x'; 5000];
    let rendered = format_bytes(&big);
    assert!(rendered.len() < 400, "preview must be capped");
    assert!(rendered.contains("(5000 bytes)"));
}

#[test]
fn persistent_decode_failures_mark_direction_dead() {
    let mut out: Vec<Output> = Vec::new();
    let mut dir = Direction::for_decoding(Role::Server, addr("127.0.0.1:40000"));
    // Feed junk that never decodes; each drain fails and clears the buffer.
    for _ in 0..MAX_DECODE_FAILURES {
        dir.rxbuf.extend_from_slice(&[0xff, 0xff, 0xff, 0xff, 0xff]);
        let mut outcome = DrainOutcome::default();
        drain_direction(&mut dir, &mut outcome, &mut out);
    }
    assert!(dir.dead, "should give up after repeated failures");
    // Once dead, further drains are a no-op even with fresh bytes.
    let shown = out.len();
    dir.rxbuf.extend_from_slice(&[0xff; 5]);
    let mut outcome = DrainOutcome::default();
    drain_direction(&mut dir, &mut outcome, &mut out);
    assert_eq!(out.len(), shown);
    assert_eq!(outcome, DrainOutcome::default());
}

#[test]
fn decoded_output_carries_filter_metadata() {
    let mut output: Vec<Output> = Vec::new();
    MessageEmitter { role: Role::Client, client: addr("127.0.0.1:40005") }
        .emit("Query", "SELECT * FROM orders", &mut output);

    let Output::Message { message, detail } = &output[0] else {
        panic!("expected structured decoded message");
    };
    assert!(detail.is_none());
    assert_eq!(message.client, addr("127.0.0.1:40005"));
    assert_eq!(message.direction, MessageDirection::FrontendToBackend);
    assert_eq!(message.kind, "Query");
    assert_eq!(message.text, "SELECT * FROM orders");
    assert!(message.rendered.contains("[F→B] Query: SELECT * FROM orders"));
}

#[test]
fn filters_only_decoded_messages() {
    let filter =
        DisplayFilter::parse("message.type == \"Query\" and message.text contains \"orders\"")
            .unwrap();
    let query = Output::Message {
        message: DisplayMessage {
            timestamp: "2026-07-17T12:34:56.789+01:00".into(),
            rendered: "query".into(),
            client: addr("127.0.0.1:40005"),
            direction: MessageDirection::FrontendToBackend,
            kind: "Query".into(),
            text: "SELECT * FROM orders".into(),
        },
        detail: None,
    };
    let row = Output::Message {
        message: DisplayMessage {
            timestamp: "2026-07-17T12:34:56.789+01:00".into(),
            rendered: "row".into(),
            client: addr("127.0.0.1:40005"),
            direction: MessageDirection::BackendToFrontend,
            kind: "DataRow".into(),
            text: "{ id=1 }".into(),
        },
        detail: None,
    };

    assert!(query.matches_filter(&filter));
    assert!(!row.matches_filter(&filter));
    assert!(Output::Status("capture started".into()).matches_filter(&filter));
    assert!(Output::Line("=== connection ===".into()).matches_filter(&filter));
}

// --- further cases ---------------------------------------------------------------------

fn texts_of(out: &[Output]) -> Vec<(String, String)> {
    out.iter()
        .filter_map(|o| match o {
            Output::Message { message, .. } => {
                Some((message.kind.clone(), message.text.clone()))
            }
            _ => None,
        })
        .collect()
}

fn server() -> Direction {
    Direction::for_decoding(Role::Server, addr("127.0.0.1:40000"))
}

fn client() -> Direction {
    Direction::for_decoding(Role::Client, addr("127.0.0.1:40000"))
}

#[test]
fn real_bytes_decode_and_are_counted() {
    let mut dir = server();
    PgWireBackendMessage::CommandComplete(CommandComplete::new("SELECT 1".into()))
        .encode(&mut dir.rxbuf)
        .unwrap();
    PgWireBackendMessage::ReadyForQuery(ReadyForQuery::new(TransactionStatus::Idle))
        .encode(&mut dir.rxbuf)
        .unwrap();
    let total = dir.rxbuf.len() as u64;
    let mut outcome = DrainOutcome::default();
    let mut out: Vec<Output> = Vec::new();
    drain_direction(&mut dir, &mut outcome, &mut out);
    assert_eq!(outcome.msgs, 2);
    assert_eq!(outcome.bytes, total);
    assert!(!outcome.malformed);
    assert!(dir.rxbuf.is_empty());
    assert_eq!(
        texts_of(&out),
        vec![
            ("CommandComplete".to_string(), "SELECT 1".to_string()),
            ("ReadyForQuery".to_string(), "txn=idle".to_string()),
        ]
    );
}

#[test]
fn partial_message_waits_for_the_rest() {
    let mut whole = BytesMut::new();
    PgWireBackendMessage::CommandComplete(CommandComplete::new("SELECT 1".into()))
        .encode(&mut whole)
        .unwrap();
    let mut dir = server();
    let mut out: Vec<Output> = Vec::new();
    dir.rxbuf.extend_from_slice(&whole[..7]);
    let mut outcome = DrainOutcome::default();
    drain_direction(&mut dir, &mut outcome, &mut out);
    assert_eq!((outcome.msgs, out.len()), (0, 0));
    dir.rxbuf.extend_from_slice(&whole[7..]);
    drain_direction(&mut dir, &mut outcome, &mut out);
    assert_eq!((outcome.msgs, out.len()), (1, 1));
}

#[test]
fn a_message_that_states_more_than_it_holds_is_malformed() {
    // A DataRow of length 5 has no room for its field count.
    let mut dir = server();
    dir.rxbuf.extend_from_slice(&[b'D', 0, 0, 0, 5, 0]);
    let mut outcome = DrainOutcome::default();
    let mut out: Vec<Output> = Vec::new();
    drain_direction(&mut dir, &mut outcome, &mut out);
    assert!(outcome.malformed);
    assert_eq!(outcome.msgs, 0);
}

#[test]
fn ssl_request_awaits_a_reply_and_does_not_encrypt() {
    let mut dir = client();
    let mut outcome = DrainOutcome::default();
    let mut out: Vec<Output> = Vec::new();
    handle_frontend(&mut dir, FrontendMessage::SslRequest, &mut outcome, 8, &mut out);
    assert_eq!(outcome.server_negotiation_wait, ServerNegotiationWait::Ssl);
    assert!(!outcome.encrypted);
    let mut gss = DrainOutcome::default();
    handle_frontend(&mut dir, FrontendMessage::GssEncRequest, &mut gss, 8, &mut out);
    assert_eq!(gss.server_negotiation_wait, ServerNegotiationWait::Gss);
    assert_eq!(texts_of(&out)[0].0, "SSLRequest");
}

#[test]
fn only_an_accepted_reply_encrypts() {
    for (reply, encrypted) in [(NegotiationReply::Accept, true), (NegotiationReply::Refuse, false)]
    {
        let mut dir = server();
        let mut outcome = DrainOutcome::default();
        let mut out: Vec<Output> = Vec::new();
        let go_on =
            handle_backend(&mut dir, BackendMessage::SslResponse(reply), &mut outcome, 1, &mut out);
        assert_eq!(outcome.encrypted, encrypted);
        assert_eq!(go_on, !encrypted);
    }
}

#[test]
fn an_accepting_reply_ends_the_drain() {
    let mut dir = server();
    dir.ctx.awaiting_backend_ssl_response = true;
    dir.rxbuf.extend_from_slice(b"S\x16\x03\x03");
    let mut outcome = DrainOutcome::default();
    let mut out: Vec<Output> = Vec::new();
    drain_direction(&mut dir, &mut outcome, &mut out);
    assert!(outcome.encrypted);
    assert_eq!((outcome.msgs, outcome.bytes), (1, 1));
    assert_eq!(out.len(), 1);
    assert_eq!(&dir.rxbuf[..], b"\x16\x03\x03");
}

#[test]
fn a_drain_takes_whole_messages_from_the_front() {
    let mut dir = server();
    // ReadyForQuery, and the head of another.
    dir.rxbuf.extend_from_slice(b"Z\x00\x00\x00\x05IZ\x00");
    let mut outcome = DrainOutcome::default();
    let mut out: Vec<Output> = Vec::new();
    drain_direction(&mut dir, &mut outcome, &mut out);
    assert_eq!((outcome.msgs, outcome.bytes), (1, 6));
    assert_eq!(&dir.rxbuf[..], b"Z\x00");
}

#[test]
fn row_description_labels_the_rows_that_follow() {
    let mut dir = server();
    let mut out: Vec<Output> = Vec::new();
    let mut outcome = DrainOutcome::default();
    let desc = vec![field("id", 23, FORMAT_CODE_TEXT)];
    handle_backend(&mut dir, BackendMessage::RowDescription(desc), &mut outcome, 0, &mut out);
    let row = row_from(&[Some(b"1")]);
    let row = backend_message(PgWireBackendMessage::DataRow(row));
    handle_backend(&mut dir, row, &mut outcome, 0, &mut out);
    assert_eq!(
        texts_of(&out),
        vec![
            ("RowDescription".to_string(), "id(oid=23, text)".to_string()),
            ("DataRow".to_string(), "{ id='1' }".to_string()),
        ]
    );
    match out[1].detail() {
        Some(EventDetail::DataRow(cols)) => assert_eq!(cols[0].value, "'1'"),
        other => panic!("expected a DataRow detail, got {other:?}"),
    }
}

#[test]
fn notifications_show_their_parts_quoted() {
    let mut dir = server();
    let mut out: Vec<Output> = Vec::new();
    let mut outcome = DrainOutcome::default();
    let note = BackendMessage::NotificationResponse("jobs".to_string(), "a \"b\"".to_string());
    handle_backend(&mut dir, note, &mut outcome, 0, &mut out);
    assert_eq!(
        texts_of(&out)[0].1,
        "channel=\"jobs\" payload=\"a \\\"b\\\"\""
    );
}

#[test]
fn decode_errors_clear_the_buffer_and_are_counted() {
    let mut dir = server();
    let mut out: Vec<Output> = Vec::new();
    dir.rxbuf.extend_from_slice(b"junk");
    decode_error(&mut dir, "bad byte", &mut out);
    assert!(dir.rxbuf.is_empty());
    assert_eq!(dir.decode_failures, 1);
    assert!(!dir.dead);
    assert!(texts_of(&out)[0].1.contains("bad byte"));
}

#[test]
fn closing_a_statement_forgets_its_sql() {
    let mut dir = client();
    let mut out: Vec<Output> = Vec::new();
    let mut outcome = DrainOutcome::default();
    let s1 = || Some("s1".to_string());
    for m in [
        FrontendMessage::Parse(s1(), "SELECT 1".into(), vec![]),
        FrontendMessage::Close(b'S', s1()),
        frontend_message(PgWireFrontendMessage::Bind(Bind::new(
            None,
            s1(),
            vec![],
            vec![],
            vec![],
        ))),
    ] {
        handle_frontend(&mut dir, m, &mut outcome, 0, &mut out);
    }
    assert!(!texts_of(&out)[2].1.contains("SELECT 1"));
}

/// A small generator of pseudo-random numbers.
struct Rng(u64);

impl Rng {
    fn next(&mut self, below: u64) -> u64 {
        self.0 = self.0.wrapping_mul(6364136223846793005).wrapping_add(1442695040888963407);
        (self.0 >> 33) % below
    }
}

/// A message with a tag from `tags`, a length near the truth and a short body.
fn scrambled(rng: &mut Rng, tags: &[u8]) -> Vec<u8> {
    let mut bytes = vec![tags[rng.next(tags.len() as u64) as usize]];
    let size = rng.next(24);
    let stated = (4 + size) as u32;
    let stated = match rng.next(8) {
        0 => stated.wrapping_sub(rng.next(6) as u32),
        1 => rng.next(12) as u32,
        _ => stated,
    };
    bytes.extend_from_slice(&stated.to_be_bytes());
    for _ in 0..size {
        let byte = match rng.next(4) {
            0 => 0,
            1 => 1,
            2 => rng.next(13) as u8,
            _ => rng.next(256) as u8,
        };
        bytes.push(byte);
    }
    bytes
}

#[test]
fn scrambled_bytes_never_stop_the_decoder() {
    let mut rng = Rng(7);
    let mut malformed = 0;
    for round in 0..60_000 {
        let (mut dir, tags): (Direction, &[u8]) = if round % 2 == 0 {
            (client(), b"QPBDECSHXdcfpF")
        } else {
            (server(), b"RSKvZCIENTDtnsA123dcfGHWV")
        };
        dir.ctx.awaiting_frontend_startup = round % 16 == 0;
        dir.ctx.awaiting_frontend_ssl = round % 32 == 0;
        let bytes = scrambled(&mut rng, tags);
        dir.rxbuf.extend_from_slice(&bytes);
        let mut outcome = DrainOutcome::default();
        let mut out: Vec<Output> = Vec::new();
        drain_direction(&mut dir, &mut outcome, &mut out);
        if outcome.malformed {
            malformed += 1;
        }
    }
    assert!(malformed > 0);
}

#[test]
fn descriptions_outlive_the_end_of_a_command() {
    let mut dir = server();
    let mut out: Vec<Output> = Vec::new();
    let mut outcome = DrainOutcome::default();
    let row = || backend_message(PgWireBackendMessage::DataRow(row_from(&[Some(b"1")])));
    let ready = backend_message(PgWireBackendMessage::ReadyForQuery(ReadyForQuery::new(
        TransactionStatus::Idle,
    )));
    let desc = BackendMessage::RowDescription(vec![field("id", 23, FORMAT_CODE_TEXT)]);
    for m in [desc, ready, row(), BackendMessage::NoData, row()] {
        handle_backend(&mut dir, m, &mut outcome, 0, &mut out);
    }
    assert_eq!(texts_of(&out)[2].1, "{ id='1' }");
    assert_eq!(texts_of(&out)[4].1, "['1']");
    assert!(!outcome.encrypted, "ordinary messages never encrypt");
}

#[test]
fn the_prepared_cache_is_bounded() {
    let mut dir = client();
    let mut out: Vec<Output> = Vec::new();
    let mut outcome = DrainOutcome::default();
    for i in 0..PREPARED_CACHE_CAP + 2 {
        let parse = FrontendMessage::Parse(Some(format!("s{i}")), format!("SELECT {i}"), vec![]);
        handle_frontend(&mut dir, parse, &mut outcome, 0, &mut out);
    }
    out.clear();
    for i in [PREPARED_CACHE_CAP - 1, PREPARED_CACHE_CAP] {
        let bind = Bind::new(None, Some(format!("s{i}")), vec![], vec![], vec![]);
        handled(&mut dir, PgWireFrontendMessage::Bind(bind), &mut out);
    }
    assert!(texts_of(&out)[0].1.contains("SELECT 4095"));
    assert!(!texts_of(&out)[1].1.contains("SELECT"));
}

#[test]
fn decode_errors_carry_the_protocol_errors_text() {
    let mut dir = server();
    let mut out: Vec<Output> = Vec::new();
    dir.rxbuf.extend_from_slice(&[0xff, 0xff, 0xff, 0xff, 0xff]);
    let mut outcome = DrainOutcome::default();
    drain_direction(&mut dir, &mut outcome, &mut out);
    let text = texts_of(&out)[0].1.clone();
    assert!(text.starts_with("decode error (5 lost bytes): "), "{text}");
    assert!(text.len() > "decode error (5 lost bytes): ".len());
}
