//! Saved sessions.
use tapgres::addr::parse_socket;
use tapgres::decode::{DataColumn, EventDetail, FieldSummary, Output};
use tapgres::filter::{DisplayMessage, MessageDirection};
use tapgres::session::{
    check_line, check_schema, LineCheck, SessionError, StoredDataColumn, StoredDetail,
    StoredDirection, StoredFieldSummary, StoredPayload, StoredRecord, Tail, SCHEMA_VERSION,
};
use tapgres::reader::{SessionReader, SessionTail, WholeSession, LINE_END};

fn message_output() -> Output {
    Output::Message {
        message: DisplayMessage {
            timestamp: "2026-07-17T12:34:56.789+01:00".into(),
            rendered: "[12:34:56.789] [B→F] DataRow: { id='1' }".into(),
            client: parse_socket("127.0.0.1:40005").unwrap(),
            direction: MessageDirection::BackendToFrontend,
            kind: "DataRow".into(),
            text: "{ id='1' }".into(),
        },
        detail: Some(EventDetail::DataRow(vec![DataColumn {
            name: "id".into(),
            type_oid: 23,
            value: "'1'".into(),
        }])),
    }
}

fn error_text(line: usize, text: &str) -> String {
    match check_line("f.jsonl", line, text) {
        Ok(_) => panic!("expected the line to be refused"),
        Err(error) => error.to_text(),
    }
}

#[test]
fn jsonl_round_trip_preserves_filter_and_rich_fields() {
    let records = vec![
        Output::Status("capture active".into()),
        message_output(),
        Output::Line("=== connection closed ===".into()),
    ];
    let stored: Vec<StoredRecord> = records.iter().map(StoredRecord::from_output).collect();
    assert_eq!(stored.len(), 3);
    assert!(stored.iter().all(|r| r.schema_version == 1));
    assert!(matches!(stored[1].payload, StoredPayload::Message { .. }));
    let loaded: Vec<Output> = stored
        .into_iter()
        .enumerate()
        .map(|(i, r)| r.into_output("capture.jsonl", i + 1).unwrap())
        .collect();
    assert_eq!(loaded.len(), 3);
    match &loaded[1] {
        Output::Message { message, detail } => {
            assert_eq!(message.timestamp, "2026-07-17T12:34:56.789+01:00");
            assert_eq!(message.client.port, 40005);
            assert_eq!(message.kind, "DataRow");
            match detail {
                Some(EventDetail::DataRow(columns)) => {
                    assert_eq!(columns[0].name, "id");
                    assert_eq!(columns[0].type_oid, 23);
                    assert_eq!(columns[0].value, "'1'");
                }
                other => panic!("expected DataRow detail, got {other:?}"),
            }
        }
        other => panic!("expected message, got {other:?}"),
    }
}

#[test]
fn refuses_unknown_schema_without_partial_tui_load() {
    let error = error_text(
        1,
        r#"{"schema_version":99,"timestamp":"now","record_type":"line","text":"future"}"#,
    );
    assert!(error.contains("unsupported schema version 99"));
    assert!(error.contains("line 1"));
}

#[test]
fn reports_malformed_json_with_line_number() {
    let valid = "{\"schema_version\":1,\"timestamp\":\"2026-07-17T12:34:56.789+01:00\",\"record_type\":\"line\",\"text\":\"valid\"}";
    assert!(matches!(check_line("broken.jsonl", 1, valid), Ok(LineCheck::Record(_))));
    let error = error_text(2, "not json");
    assert!(error.contains("line 2"));
}

#[test]
fn rejects_non_rfc3339_timestamps() {
    let record = StoredRecord {
        schema_version: 1,
        timestamp: "12:34".into(),
        payload: StoredPayload::Line { text: "bad".into() },
    };
    let error = match record.into_output("bad-time.jsonl", 1) {
        Ok(_) => panic!("expected the record to be refused"),
        Err(error) => error.to_text(),
    };
    assert!(error.contains("timestamp must be RFC 3339"));
    assert!(error.contains("line 1"));
}

#[test]
fn tail_reader_validates_all_records_while_bounding_memory() {
    let mut reader = Tail::new(2);
    for index in 0..5 {
        let stored = StoredRecord::from_output(&Output::Line(format!("line {index}")));
        reader.push(stored.into_output("many.jsonl", index + 1).unwrap());
    }

    let (tail, dropped) = reader.finish();
    assert_eq!(dropped, 3);
    assert_eq!(tail.len(), 2);
    assert_eq!(tail[0].rendered(), "line 3");
    assert_eq!(tail[1].rendered(), "line 4");
}

// --- further cases ---------------------------------------------------------------------

#[test]
fn a_tail_of_nothing_counts_everything() {
    let mut reader = Tail::new(0);
    reader.push(Output::Line("a".into()));
    reader.push(Output::Line("b".into()));
    let (tail, dropped) = reader.finish();
    assert_eq!((tail.len(), dropped), (0, 2));
}

#[test]
fn blank_lines_are_passed_over() {
    assert!(matches!(check_line("f", 1, ""), Ok(LineCheck::Blank)));
    assert!(matches!(check_line("f", 1, " \t\u{a0}"), Ok(LineCheck::Blank)));
}

#[test]
fn schema_version_must_be_an_unsigned_word() {
    for text in [
        "{}",
        "[]",
        r#"{"schema_version":-1}"#,
        r#"{"schema_version":"1"}"#,
        r#"{"schema_version":4294967296}"#,
        r#"{"schema_version":1.5}"#,
    ] {
        assert_eq!(
            error_text(7, text),
            "f.jsonl: invalid JSONL record at line 7: schema_version must be an unsigned 32-bit integer",
            "{text}"
        );
    }
    assert!(check_schema("f", 1, Some(SCHEMA_VERSION as u64)).is_ok());
    assert!(check_schema("f", 1, Some(2)).is_err());
    assert!(check_schema("f", 1, None).is_err());
}

#[test]
fn errors_name_the_file() {
    let io = SessionError::Io { path: "f".into(), message: "gone".into() };
    assert_eq!(io.to_text(), "f: gone");
    let encode = SessionError::Encode { path: "f".into(), message: "bad".into() };
    assert_eq!(encode.to_text(), "f: could not encode JSONL record: bad");
    let schema = SessionError::UnsupportedSchema { path: "f".into(), line: 3, found: 9 };
    assert_eq!(schema.to_text(), "f: unsupported schema version 9 at line 3 (supported: 1)");
}

fn stored_message(client: &str) -> StoredRecord {
    let mut stored = StoredRecord::from_output(&message_output());
    if let StoredPayload::Message { client: held, .. } = &mut stored.payload {
        *held = client.into();
    }
    stored
}

#[test]
fn client_addresses_must_parse() {
    assert!(stored_message("[::1]:5432").into_output("f", 1).is_ok());
    let error = match stored_message("no \"address\"").into_output("f", 4) {
        Ok(_) => panic!("expected the record to be refused"),
        Err(error) => error.to_text(),
    };
    assert_eq!(
        error,
        "f: invalid JSONL record at line 4: invalid client address \"no \\\"address\\\"\": invalid socket address syntax"
    );
}

#[test]
fn a_timestamp_complaint_is_passed_on() {
    let record = StoredRecord {
        schema_version: 1,
        timestamp: "x".into(),
        payload: StoredPayload::Status { text: "t".into() },
    };
    let error = match record.restore("f", 2, Some("too short".into())) {
        Ok(_) => panic!("expected the record to be refused"),
        Err(error) => error.to_text(),
    };
    assert_eq!(
        error,
        "f: invalid JSONL record at line 2: timestamp must be RFC 3339: too short"
    );
}

#[test]
fn operational_records_are_stamped_when_stored() {
    let stored = StoredRecord::at(
        &Output::Status("s".into()),
        "2026-07-17T12:34:56.789+01:00".into(),
    );
    assert_eq!(stored.timestamp, "2026-07-17T12:34:56.789+01:00");
    let now = StoredRecord::from_output(&Output::Line("l".into()));
    assert!(now.into_output("f", 1).is_ok(), "the clock writes RFC 3339");
}

#[test]
fn column_descriptions_are_kept() {
    let detail = EventDetail::RowDescription(vec![FieldSummary {
        name: "id".into(),
        type_oid: 23,
        format_code: 1,
    }]);
    match StoredDetail::of(&detail).detail() {
        EventDetail::RowDescription(columns) => {
            assert_eq!(
                (columns[0].name.as_str(), columns[0].type_oid, columns[0].format_code),
                ("id", 23, 1)
            );
        }
        other => panic!("expected a RowDescription, got {other:?}"),
    }
}

/// The text of a member of a JSON document.
fn member(value: &serde_json::Value, name: &str) -> Result<String, String> {
    let found = value.get(name).and_then(|v| v.as_str());
    found.map(str::to_string).ok_or_else(|| format!("missing field `{name}`"))
}

/// The detail of a stored message.
fn detail(value: &serde_json::Value) -> Result<StoredDetail, String> {
    let columns = value["columns"].as_array().ok_or("no columns")?;
    let oid = |c: &serde_json::Value| c["type_oid"].as_u64().unwrap_or(0) as u32;
    Ok(match member(value, "detail_type")?.as_str() {
        "row_description" => StoredDetail::RowDescription {
            columns: columns
                .iter()
                .map(|c| StoredFieldSummary {
                    name: member(c, "name").unwrap(),
                    type_oid: oid(c),
                    format_code: c["format_code"].as_i64().unwrap_or(0) as i16,
                })
                .collect(),
        },
        _ => StoredDetail::DataRow {
            columns: columns
                .iter()
                .map(|c| StoredDataColumn {
                    name: member(c, "name").unwrap(),
                    type_oid: oid(c),
                    value: member(c, "value").unwrap(),
                })
                .collect(),
        },
    })
}

/// The record that a JSON document holds.
fn record(value: &serde_json::Value) -> Result<StoredRecord, String> {
    let payload = match member(value, "record_type")?.as_str() {
        "status" => StoredPayload::Status { text: member(value, "text")? },
        "line" => StoredPayload::Line { text: member(value, "text")? },
        _ => StoredPayload::Message {
            direction: match member(value, "direction")?.as_str() {
                "f2b" => StoredDirection::F2b,
                _ => StoredDirection::B2f,
            },
            message_type: member(value, "message_type")?,
            text: member(value, "text")?,
            rendered: member(value, "rendered")?,
            client: member(value, "client")?,
            detail: match value.get("detail") {
                Some(d) => Some(detail(d)?),
                None => None,
            },
        },
    };
    Ok(StoredRecord { schema_version: 1, timestamp: member(value, "timestamp")?, payload })
}

/// Loads a whole session.
fn load(lines: &[&str]) -> Result<Vec<Output>, String> {
    let mut whole = WholeSession::new("s.jsonl");
    for line in lines {
        let raw = format!("{line}{LINE_END}");
        if let LineCheck::Record(value) = whole.line(&raw).map_err(|e| e.to_text())? {
            whole.record(record(&value)).map_err(|e| e.to_text())?;
        }
    }
    Ok(whole.finish())
}

/// Loads the newest records of a session.
fn load_tail(lines: &[&str], cap: usize) -> Result<(Vec<Output>, usize), String> {
    let mut tail = SessionTail::new("s.jsonl", cap);
    for line in lines {
        if let LineCheck::Record(value) = tail.line(line).map_err(|e| e.to_text())? {
            tail.record(record(&value)).map_err(|e| e.to_text())?;
        }
    }
    Ok(tail.finish())
}

const SESSION: [&str; 5] = [
    r#"{"schema_version":1,"timestamp":"2026-07-17T12:00:00Z","record_type":"status","text":"up"}"#,
    r#"{"schema_version":1,"timestamp":"2026-07-17T12:00:01Z","record_type":"line","text":"new"}"#,
    "  ",
    r#"{"schema_version":1,"timestamp":"2026-07-17T12:00:02Z","record_type":"message","direction":"b2f","message_type":"RowDescription","text":"id","rendered":"r","client":"127.0.0.1:40005","detail":{"detail_type":"row_description","columns":[{"name":"id","type_oid":23,"format_code":0}]}}"#,
    r#"{"schema_version":1,"timestamp":"2026-07-17T12:00:03Z","record_type":"message","direction":"b2f","message_type":"DataRow","text":"1","rendered":"d","client":"127.0.0.1:40005","detail":{"detail_type":"data_row","columns":[{"name":"id","type_oid":23,"value":"'1'"}]}}"#,
];

#[test]
fn reads_the_committed_v1_compatibility_fixture() {
    let records = load(&SESSION).unwrap();

    assert_eq!(records.len(), 4);
    assert!(matches!(
        records[2].detail(),
        Some(EventDetail::RowDescription(columns)) if columns[0].name == "id"
    ));
    assert!(matches!(
        records[3].detail(),
        Some(EventDetail::DataRow(columns)) if columns[0].value == "'1'"
    ));
}

#[test]
fn the_first_bad_line_refuses_the_session() {
    let mut lines = SESSION.to_vec();
    lines.push(r#"{"schema_version":1,"timestamp":"2026-07-17T12:00:04Z"}"#);
    lines.push("{");
    let refused = load(&lines).unwrap_err();
    assert!(refused.contains("missing field `record_type`"), "{refused}");
    assert!(refused.contains('6'), "{refused}");
}

#[test]
fn a_tail_is_the_end_of_the_session() {
    let whole = load(&SESSION).unwrap();
    let texts = |v: &[Output]| v.iter().map(|o| o.rendered().to_string()).collect::<Vec<_>>();
    for cap in 0..6 {
        let (records, dropped) = load_tail(&SESSION, cap).unwrap();
        let from = whole.len().saturating_sub(cap);
        assert_eq!(dropped, from);
        assert_eq!(texts(&records), texts(&whole[from..]));
    }
}

#[test]
fn a_bad_line_outside_the_tail_refuses_it_too() {
    let mut lines = vec!["[]"];
    lines.extend(SESSION);
    assert_eq!(load_tail(&lines, 1).unwrap_err(), load(&lines).unwrap_err());
    let mut lines = SESSION.to_vec();
    lines[0] = r#"{"schema_version":1,"record_type":"line","text":"t","timestamp":"now"}"#;
    assert_eq!(load_tail(&lines, 0).unwrap_err(), load(&lines).unwrap_err());
}

#[test]
fn line_ends_are_no_part_of_a_line() {
    for end in ["", "\n", "\r\n"] {
        let mut reader = SessionReader::new("s.jsonl");
        assert!(matches!(reader.line(&format!(" {end}")), Ok(LineCheck::Blank)));
        let raw = format!("{}{end}", SESSION[0]);
        let Ok(LineCheck::Record(value)) = reader.line(&raw) else {
            panic!("expected a record");
        };
        assert_eq!(reader.lines(), 2);
        assert_eq!(reader.record(record(&value)).unwrap().rendered(), "up");
    }
}

#[test]
fn stored_outputs_load_back_in_order() {
    let outputs = [Output::Status("a".into()), message_output(), Output::Line("b".into())];
    let mut whole = WholeSession::new("s.jsonl");
    for output in &outputs {
        // Any document of the schema stands for that of the record.
        assert!(whole.line(SESSION[0]).is_ok());
        whole.record(Ok(StoredRecord::from_output(output))).unwrap();
    }
    let loaded = whole.finish();
    assert_eq!(loaded.len(), 3);
    for (a, b) in loaded.iter().zip(&outputs) {
        assert_eq!(format!("{a:?}"), format!("{b:?}"));
    }
}
