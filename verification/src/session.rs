//! Versioned JSONL persistence for decoded sessions.
//!
//! Each line is an independent record with a schema version, capture timestamp, record
//! kind, and the structured fields needed by display filters and rich rendering.
//! Replayed records are converted back into [`crate::output::Output`] so live and file
//! sources share the same renderer.
use crate::addr::{parse_socket, socket_of, socket_text};
use crate::decode::{debug_string, debug_text};
use crate::filter::{DisplayMessage, MessageDirection, MessageView};
use crate::output::{local_stamp, DetailView, EventDetail, Output, OutputView};
use crate::render::{column_views, ColumnView, DataColumn};
use crate::text::{dec, push_dec, trim, trimmed};
use crate::wire::{field_views, FieldSummary, FieldView};
use std::collections::VecDeque;
use vstd::prelude::*;

verus! {

/// Current on-disk JSONL schema. Readers refuse every other version so a future
/// incompatible shape cannot be silently misinterpreted.
pub const SCHEMA_VERSION: u32 = 1;

// --- errors ---------------------------------------------------------------------------

#[derive(Clone, Debug)]
pub enum SessionError {
    Io { path: String, message: String },
    InvalidRecord { path: String, line: usize, message: String },
    UnsupportedSchema { path: String, line: usize, found: u32 },
    Encode { path: String, message: String },
}

/// What a [`SessionError`] holds.
pub enum SessionErrorView {
    Io { path: Seq<char>, message: Seq<char> },
    InvalidRecord { path: Seq<char>, line: usize, message: Seq<char> },
    UnsupportedSchema { path: Seq<char>, line: usize, found: u32 },
    Encode { path: Seq<char>, message: Seq<char> },
}

impl View for SessionError {
    type V = SessionErrorView;

    open spec fn view(&self) -> SessionErrorView {
        match *self {
            SessionError::Io { path, message } => SessionErrorView::Io {
                path: path@,
                message: message@,
            },
            SessionError::InvalidRecord { path, line, message } => SessionErrorView::InvalidRecord {
                path: path@,
                line,
                message: message@,
            },
            SessionError::UnsupportedSchema {
                path,
                line,
                found,
            } => SessionErrorView::UnsupportedSchema { path: path@, line, found },
            SessionError::Encode { path, message } => SessionErrorView::Encode {
                path: path@,
                message: message@,
            },
        }
    }
}

/// An error as it is shown: the file, and the line where one is to blame.
pub open spec fn session_error_text(e: SessionErrorView) -> Seq<char> {
    match e {
        SessionErrorView::Io { path, message } => path + ": "@ + message,
        SessionErrorView::InvalidRecord { path, line, message } => path
            + ": invalid JSONL record at line "@ + dec(line as nat) + ": "@ + message,
        SessionErrorView::UnsupportedSchema { path, line, found } => path
            + ": unsupported schema version "@ + dec(found as nat) + " at line "@ + dec(
            line as nat,
        ) + " (supported: "@ + dec(SCHEMA_VERSION as nat) + ")"@,
        SessionErrorView::Encode { path, message } => path + ": could not encode JSONL record: "@
            + message,
    }
}

impl SessionError {
    pub fn to_text(&self) -> (s: String)
        ensures
            s@ == session_error_text(self@),
    {
        let mut s = String::new();
        match self {
            SessionError::Io { path, message } => {
                s.append(path.as_str());
                s.append(": ");
                s.append(message.as_str());
            },
            SessionError::InvalidRecord { path, line, message } => {
                s.append(path.as_str());
                s.append(": invalid JSONL record at line ");
                push_dec(&mut s, *line as u64);
                s.append(": ");
                s.append(message.as_str());
            },
            SessionError::UnsupportedSchema { path, line, found } => {
                s.append(path.as_str());
                s.append(": unsupported schema version ");
                push_dec(&mut s, *found as u64);
                s.append(" at line ");
                push_dec(&mut s, *line as u64);
                s.append(" (supported: ");
                push_dec(&mut s, SCHEMA_VERSION as u64);
                s.append(")");
            },
            SessionError::Encode { path, message } => {
                s.append(path.as_str());
                s.append(": could not encode JSONL record: ");
                s.append(message.as_str());
            },
        }
        assert(s@ =~= session_error_text(self@));
        s
    }
}

// --- the lines of a file ------------------------------------------------------------------

/// `serde_json::Value`, a parsed JSON document.
#[verifier::external_type_specification]
#[verifier::external_body]
pub struct ExValue(serde_json::Value);

/// `serde_json::Error`, the reason why a text is no JSON document.
#[verifier::external_type_specification]
#[verifier::external_body]
pub struct ExJsonError(serde_json::Error);

/// The JSON document that a text writes.
pub uninterp spec fn json_of(text: Seq<char>) -> Result<serde_json::Value, serde_json::Error>;

/// The text of a JSON error.
pub uninterp spec fn json_error_text(e: serde_json::Error) -> Seq<char>;

/// The value that an object holds under a name.
pub uninterp spec fn json_member(v: serde_json::Value, name: Seq<char>) -> Option<
    serde_json::Value,
>;

/// The unsigned integer that a value is.
pub uninterp spec fn json_unsigned(v: serde_json::Value) -> Option<u64>;

/// The unsigned integer that an object holds under a name.
pub open spec fn json_u64(v: serde_json::Value, name: Seq<char>) -> Option<u64> {
    match json_member(v, name) {
        Some(member) => json_unsigned(member),
        None => None,
    }
}

/// `serde_json::from_str` to a `Value`: the text alone decides what comes back.
#[verifier::external_body]
fn parse_json(text: &str) -> (r: Result<serde_json::Value, serde_json::Error>)
    ensures
        r == json_of(text@),
{
    serde_json::from_str(text)
}

/// `serde_json::Error` displays as a text that depends on the error alone.
#[verifier::external_body]
fn show_json_error(e: &serde_json::Error) -> (s: String)
    ensures
        s@ == json_error_text(*e),
{
    e.to_string()
}

/// `Value::get` by name: the document and the name alone decide.
#[verifier::external_body]
fn member<'a>(v: &'a serde_json::Value, name: &str) -> (r: Option<&'a serde_json::Value>)
    ensures
        match r {
            Some(m) => json_member(*v, name@) == Some(*m),
            None => json_member(*v, name@) is None,
        },
{
    v.get(name)
}

/// `Value::as_u64`: the value alone decides.
#[verifier::external_body]
fn unsigned(v: &serde_json::Value) -> (r: Option<u64>)
    ensures
        r == json_unsigned(*v),
{
    v.as_u64()
}

/// The unsigned integer that an object holds under a name.
fn u64_field(v: &serde_json::Value, name: &str) -> (r: Option<u64>)
    ensures
        r == json_u64(*v, name@),
{
    match member(v, name) {
        Some(m) => unsigned(m),
        None => None,
    }
}

/// What a line of a session file is.
pub enum LineCheck {
    /// Nothing but white space: passed over.
    Blank,
    /// A JSON document of the supported schema.
    Record(serde_json::Value),
}

/// Whether a schema version is supported: it must be an unsigned 32-bit integer, and
/// the current one.
pub open spec fn schema_verdict(path: Seq<char>, line: usize, version: Option<u64>) -> Result<
    (),
    SessionErrorView,
> {
    match version {
        Some(v) => if v > u32::MAX {
            Err(
                SessionErrorView::InvalidRecord {
                    path,
                    line,
                    message: "schema_version must be an unsigned 32-bit integer"@,
                },
            )
        } else if v != SCHEMA_VERSION {
            Err(SessionErrorView::UnsupportedSchema { path, line, found: v as u32 })
        } else {
            Ok(())
        },
        None => Err(
            SessionErrorView::InvalidRecord {
                path,
                line,
                message: "schema_version must be an unsigned 32-bit integer"@,
            },
        ),
    }
}

/// Judges the schema version of a record.
pub fn check_schema(path: &str, line: usize, version: Option<u64>) -> (r: Result<(), SessionError>)
    ensures
        match r {
            Ok(()) => schema_verdict(path@, line, version) is Ok,
            Err(e) => schema_verdict(path@, line, version) == Err::<(), SessionErrorView>(e@),
        },
{
    let found: u64 = match version {
        Some(v) => v,
        None => u64::MAX,
    };
    if found > u32::MAX as u64 {
        return Err(
            SessionError::InvalidRecord {
                path: path.to_owned(),
                line,
                message: "schema_version must be an unsigned 32-bit integer".to_owned(),
            },
        );
    }
    if found != SCHEMA_VERSION as u64 {
        return Err(
            SessionError::UnsupportedSchema { path: path.to_owned(), line, found: found as u32 },
        );
    }
    Ok(())
}

/// What a line comes to.
pub open spec fn line_verdict(path: Seq<char>, line: usize, text: Seq<char>) -> Result<
    LineCheck,
    SessionErrorView,
> {
    if trim(text).len() == 0 {
        Ok(LineCheck::Blank)
    } else {
        match json_of(text) {
            Ok(v) => match schema_verdict(path, line, json_u64(v, "schema_version"@)) {
                Ok(()) => Ok(LineCheck::Record(v)),
                Err(e) => Err(e),
            },
            Err(e) => Err(
                SessionErrorView::InvalidRecord { path, line, message: json_error_text(e) },
            ),
        }
    }
}

/// Checks one line of a session file: blank lines pass, anything else must be a JSON
/// document of the supported schema.
pub fn check_line(path: &str, line: usize, text: &str) -> (r: Result<LineCheck, SessionError>)
    ensures
        match r {
            Ok(c) => line_verdict(path@, line, text@) == Ok::<LineCheck, SessionErrorView>(c),
            Err(e) => line_verdict(path@, line, text@) == Err::<LineCheck, SessionErrorView>(e@),
        },
{
    if trimmed(text).as_str().is_empty() {
        return Ok(LineCheck::Blank);
    }
    match parse_json(text) {
        Ok(v) => match check_schema(path, line, u64_field(&v, "schema_version")) {
            Ok(()) => Ok(LineCheck::Record(v)),
            Err(e) => Err(e),
        },
        Err(e) => Err(
            SessionError::InvalidRecord {
                path: path.to_owned(),
                line,
                message: show_json_error(&e),
            },
        ),
    }
}

// --- stored records -------------------------------------------------------------------------

#[derive(Clone, Copy, PartialEq, Eq, Structural, Debug)]
pub enum StoredDirection {
    F2b,
    B2f,
}

#[derive(Clone, Debug)]
pub struct StoredFieldSummary {
    pub name: String,
    pub type_oid: u32,
    pub format_code: i16,
}

#[derive(Clone, Debug)]
pub struct StoredDataColumn {
    pub name: String,
    pub type_oid: u32,
    pub value: String,
}

#[derive(Clone, Debug)]
pub enum StoredDetail {
    RowDescription { columns: Vec<StoredFieldSummary> },
    DataRow { columns: Vec<StoredDataColumn> },
}

#[derive(Clone, Debug)]
pub enum StoredPayload {
    Message {
        direction: StoredDirection,
        message_type: String,
        text: String,
        rendered: String,
        client: String,
        detail: Option<StoredDetail>,
    },
    Line { text: String },
    Status { text: String },
}

/// One line of a session file.
#[derive(Clone, Debug)]
pub struct StoredRecord {
    pub schema_version: u32,
    pub timestamp: String,
    pub payload: StoredPayload,
}

/// What a [`StoredPayload`] holds.
pub enum PayloadView {
    Message {
        direction: StoredDirection,
        message_type: Seq<char>,
        text: Seq<char>,
        rendered: Seq<char>,
        client: Seq<char>,
        detail: Option<DetailView>,
    },
    Line { text: Seq<char> },
    Status { text: Seq<char> },
}

/// What a [`StoredRecord`] holds.
pub struct RecordView {
    pub schema_version: u32,
    pub timestamp: Seq<char>,
    pub payload: PayloadView,
}

impl View for StoredFieldSummary {
    type V = FieldView;

    open spec fn view(&self) -> FieldView {
        FieldView { name: self.name@, type_oid: self.type_oid, format_code: self.format_code }
    }
}

impl View for StoredDataColumn {
    type V = ColumnView;

    open spec fn view(&self) -> ColumnView {
        ColumnView { name: self.name@, type_oid: self.type_oid, value: self.value@ }
    }
}

impl View for StoredDetail {
    type V = DetailView;

    open spec fn view(&self) -> DetailView {
        match *self {
            StoredDetail::RowDescription { columns } => DetailView::RowDescription(
                columns@.map_values(|c: StoredFieldSummary| c@),
            ),
            StoredDetail::DataRow { columns } => DetailView::DataRow(
                columns@.map_values(|c: StoredDataColumn| c@),
            ),
        }
    }
}

pub open spec fn opt_stored(d: Option<StoredDetail>) -> Option<DetailView> {
    match d {
        Some(d) => Some(d@),
        None => None,
    }
}

impl View for StoredPayload {
    type V = PayloadView;

    open spec fn view(&self) -> PayloadView {
        match *self {
            StoredPayload::Message {
                direction,
                message_type,
                text,
                rendered,
                client,
                detail,
            } => PayloadView::Message {
                direction,
                message_type: message_type@,
                text: text@,
                rendered: rendered@,
                client: client@,
                detail: opt_stored(detail),
            },
            StoredPayload::Line { text } => PayloadView::Line { text: text@ },
            StoredPayload::Status { text } => PayloadView::Status { text: text@ },
        }
    }
}

impl View for StoredRecord {
    type V = RecordView;

    open spec fn view(&self) -> RecordView {
        RecordView {
            schema_version: self.schema_version,
            timestamp: self.timestamp@,
            payload: self.payload@,
        }
    }
}

pub open spec fn stored_direction(d: MessageDirection) -> StoredDirection {
    match d {
        MessageDirection::FrontendToBackend => StoredDirection::F2b,
        MessageDirection::BackendToFrontend => StoredDirection::B2f,
    }
}

pub open spec fn loaded_direction(d: StoredDirection) -> MessageDirection {
    match d {
        StoredDirection::F2b => MessageDirection::FrontendToBackend,
        StoredDirection::B2f => MessageDirection::BackendToFrontend,
    }
}

impl StoredDirection {
    pub fn of(d: MessageDirection) -> (r: StoredDirection)
        ensures
            r == stored_direction(d),
    {
        match d {
            MessageDirection::FrontendToBackend => StoredDirection::F2b,
            MessageDirection::BackendToFrontend => StoredDirection::B2f,
        }
    }

    pub fn direction(self) -> (r: MessageDirection)
        ensures
            r == loaded_direction(self),
    {
        match self {
            StoredDirection::F2b => MessageDirection::FrontendToBackend,
            StoredDirection::B2f => MessageDirection::BackendToFrontend,
        }
    }
}

impl StoredDetail {
    pub fn of(d: &EventDetail) -> (r: StoredDetail)
        ensures
            r@ == d@,
    {
        match d {
            EventDetail::RowDescription(fields) => {
                let mut columns: Vec<StoredFieldSummary> = Vec::new();
                for i in 0..fields.len()
                    invariant
                        columns@.len() == i,
                        forall|k: int| 0 <= k < i ==> (#[trigger] columns@[k])@ == fields@[k]@,
                {
                    let f = &fields[i];
                    columns.push(
                        StoredFieldSummary {
                            name: f.name.clone(),
                            type_oid: f.type_oid,
                            format_code: f.format_code,
                        },
                    );
                }
                assert(columns@.map_values(|c: StoredFieldSummary| c@) =~= field_views(fields@));
                StoredDetail::RowDescription { columns }
            },
            EventDetail::DataRow(cells) => {
                let mut columns: Vec<StoredDataColumn> = Vec::new();
                for i in 0..cells.len()
                    invariant
                        columns@.len() == i,
                        forall|k: int| 0 <= k < i ==> (#[trigger] columns@[k])@ == cells@[k]@,
                {
                    let c = &cells[i];
                    columns.push(
                        StoredDataColumn {
                            name: c.name.clone(),
                            type_oid: c.type_oid,
                            value: c.value.clone(),
                        },
                    );
                }
                assert(columns@.map_values(|c: StoredDataColumn| c@) =~= column_views(cells@));
                StoredDetail::DataRow { columns }
            },
        }
    }

    pub fn detail(&self) -> (r: EventDetail)
        ensures
            r@ == self@,
    {
        match self {
            StoredDetail::RowDescription { columns } => {
                let mut fields: Vec<FieldSummary> = Vec::new();
                for i in 0..columns.len()
                    invariant
                        fields@.len() == i,
                        forall|k: int| 0 <= k < i ==> (#[trigger] fields@[k])@ == columns@[k]@,
                {
                    let c = &columns[i];
                    fields.push(
                        FieldSummary {
                            name: c.name.clone(),
                            type_oid: c.type_oid,
                            format_code: c.format_code,
                        },
                    );
                }
                assert(field_views(fields@) =~= columns@.map_values(|c: StoredFieldSummary| c@));
                EventDetail::RowDescription(fields)
            },
            StoredDetail::DataRow { columns } => {
                let mut cells: Vec<DataColumn> = Vec::new();
                for i in 0..columns.len()
                    invariant
                        cells@.len() == i,
                        forall|k: int| 0 <= k < i ==> (#[trigger] cells@[k])@ == columns@[k]@,
                {
                    let c = &columns[i];
                    cells.push(
                        DataColumn {
                            name: c.name.clone(),
                            type_oid: c.type_oid,
                            value: c.value.clone(),
                        },
                    );
                }
                assert(column_views(cells@) =~= columns@.map_values(|c: StoredDataColumn| c@));
                EventDetail::DataRow(cells)
            },
        }
    }
}

/// The record that stores an output. A message keeps its capture time; a line or
/// status is stored under the time `now`.
pub open spec fn stored(o: OutputView, now: Seq<char>) -> RecordView {
    match o {
        OutputView::Message { message, detail } => RecordView {
            schema_version: SCHEMA_VERSION,
            timestamp: message.timestamp,
            payload: PayloadView::Message {
                direction: stored_direction(message.direction),
                message_type: message.kind,
                text: message.text,
                rendered: message.rendered,
                client: socket_text(message.client),
                detail,
            },
        },
        OutputView::Line(text) => RecordView {
            schema_version: SCHEMA_VERSION,
            timestamp: now,
            payload: PayloadView::Line { text },
        },
        OutputView::Status(text) => RecordView {
            schema_version: SCHEMA_VERSION,
            timestamp: now,
            payload: PayloadView::Status { text },
        },
    }
}

/// Why a text is no RFC 3339 time; `None` where it is one.
pub uninterp spec fn rfc3339_complaint(text: Seq<char>) -> Option<Seq<char>>;

/// `chrono::DateTime::parse_from_rfc3339`: the text of the error where it fails. The
/// text alone decides.
#[verifier::external_body]
fn rfc3339_problem(text: &str) -> (r: Option<String>)
    ensures
        match r {
            Some(e) => rfc3339_complaint(text@) == Some(e@),
            None => rfc3339_complaint(text@) is None,
        },
{
    chrono::DateTime::parse_from_rfc3339(text).err().map(|e| e.to_string())
}

/// The output that a record restores, or what is wrong with it. `complaint` is what
/// is wrong with its time.
pub open spec fn loaded(
    r: RecordView,
    path: Seq<char>,
    line: usize,
    complaint: Option<Seq<char>>,
) -> Result<OutputView, SessionErrorView> {
    match complaint {
        Some(e) => Err(
            SessionErrorView::InvalidRecord {
                path,
                line,
                message: "timestamp must be RFC 3339: "@ + e,
            },
        ),
        None => match r.payload {
            PayloadView::Message {
                direction,
                message_type,
                text,
                rendered,
                client,
                detail,
            } => match socket_of(client) {
                Some(address) => Ok(
                    OutputView::Message {
                        message: MessageView {
                            timestamp: r.timestamp,
                            rendered,
                            client: address,
                            direction: loaded_direction(direction),
                            kind: message_type,
                            text,
                        },
                        detail,
                    },
                ),
                None => Err(
                    SessionErrorView::InvalidRecord {
                        path,
                        line,
                        message: "invalid client address "@ + debug_text(client)
                            + ": invalid socket address syntax"@,
                    },
                ),
            },
            PayloadView::Line { text } => Ok(OutputView::Line(text)),
            PayloadView::Status { text } => Ok(OutputView::Status(text)),
        },
    }
}

impl StoredRecord {
    /// The record that stores `output`; `now` is the time of a line or status.
    pub fn at(output: &Output, now: String) -> (r: StoredRecord)
        ensures
            r@ == stored(output@, now@),
    {
        match output {
            Output::Message { message, detail } => StoredRecord {
                schema_version: SCHEMA_VERSION,
                timestamp: message.timestamp.clone(),
                payload: StoredPayload::Message {
                    direction: StoredDirection::of(message.direction),
                    message_type: message.kind.clone(),
                    text: message.text.clone(),
                    rendered: message.rendered.clone(),
                    client: message.client.to_text(),
                    detail: match detail {
                        Some(d) => Some(StoredDetail::of(d)),
                        None => None,
                    },
                },
            },
            Output::Line(text) => StoredRecord {
                schema_version: SCHEMA_VERSION,
                timestamp: now,
                payload: StoredPayload::Line { text: text.clone() },
            },
            Output::Status(text) => StoredRecord {
                schema_version: SCHEMA_VERSION,
                timestamp: now,
                payload: StoredPayload::Status { text: text.clone() },
            },
        }
    }

    /// The record that stores `output` now.
    pub fn from_output(output: &Output) -> (r: StoredRecord)
        ensures
            exists|now: Seq<char>| r@ == #[trigger] stored(output@, now),
    {
        let now = local_stamp().rfc3339;
        let ghost n = now@;
        let r = StoredRecord::at(output, now);
        assert(r@ == stored(output@, n));
        r
    }

    /// The output that the record restores, given what is wrong with its time.
    pub fn restore(self, path: &str, line: usize, complaint: Option<String>) -> (r: Result<
        Output,
        SessionError,
    >)
        ensures
            ({
                let want = loaded(
                    self@,
                    path@,
                    line,
                    match complaint {
                        Some(e) => Some(e@),
                        None => None,
                    },
                );
                match r {
                    Ok(o) => want == Ok::<OutputView, SessionErrorView>(o@),
                    Err(e) => want == Err::<OutputView, SessionErrorView>(e@),
                }
            }),
    {
        if let Some(e) = complaint {
            let mut message = String::new();
            message.append("timestamp must be RFC 3339: ");
            message.append(e.as_str());
            assert(message@ =~= "timestamp must be RFC 3339: "@ + e@);
            return Err(SessionError::InvalidRecord { path: path.to_owned(), line, message });
        }
        match self.payload {
            StoredPayload::Message {
                direction,
                message_type,
                text,
                rendered,
                client,
                detail,
            } => match parse_socket(client.as_str()) {
                Some(address) => Ok(
                    Output::Message {
                        message: DisplayMessage {
                            timestamp: self.timestamp,
                            rendered,
                            client: address,
                            direction: direction.direction(),
                            kind: message_type,
                            text,
                        },
                        detail: match detail {
                            Some(d) => Some(d.detail()),
                            None => None,
                        },
                    },
                ),
                None => {
                    let mut message = String::new();
                    message.append("invalid client address ");
                    message.append(debug_string(client.as_str()).as_str());
                    message.append(": invalid socket address syntax");
                    assert(message@ =~= "invalid client address "@ + debug_text(client@)
                        + ": invalid socket address syntax"@);
                    Err(SessionError::InvalidRecord { path: path.to_owned(), line, message })
                },
            },
            StoredPayload::Line { text } => Ok(Output::Line(text)),
            StoredPayload::Status { text } => Ok(Output::Status(text)),
        }
    }

    /// The output that the record restores.
    pub fn into_output(self, path: &str, line: usize) -> (r: Result<Output, SessionError>)
        ensures
            match r {
                Ok(o) => loaded(self@, path@, line, rfc3339_complaint(self@.timestamp)) == Ok::<
                    OutputView,
                    SessionErrorView,
                >(o@),
                Err(e) => loaded(self@, path@, line, rfc3339_complaint(self@.timestamp)) == Err::<
                    OutputView,
                    SessionErrorView,
                >(e@),
            },
    {
        let complaint = rfc3339_problem(self.timestamp.as_str());
        self.restore(path, line, complaint)
    }
}

// --- records of a session ------------------------------------------------------------------------------

/// What a line restores, given the record that its document parses into.
pub open spec fn record_verdict(
    path: Seq<char>,
    line: usize,
    parsed: Result<RecordView, Seq<char>>,
) -> Result<OutputView, SessionErrorView> {
    match parsed {
        Ok(r) => loaded(r, path, line, rfc3339_complaint(r.timestamp)),
        Err(message) => Err(SessionErrorView::InvalidRecord { path, line, message }),
    }
}

/// What a document parsed into.
pub open spec fn parsed_view(parsed: Result<StoredRecord, String>) -> Result<
    RecordView,
    Seq<char>,
> {
    match parsed {
        Ok(record) => Ok(record@),
        Err(message) => Err(message@),
    }
}

/// Restores the output of a line, given the record that its document parses into.
pub fn read_record(path: &str, line: usize, parsed: Result<StoredRecord, String>) -> (r: Result<
    Output,
    SessionError,
>)
    ensures
        ({
            let want = record_verdict(path@, line, parsed_view(parsed));
            match r {
                Ok(o) => want == Ok::<OutputView, SessionErrorView>(o@),
                Err(e) => want == Err::<OutputView, SessionErrorView>(e@),
            }
        }),
{
    match parsed {
        Ok(record) => record.into_output(path, line),
        Err(message) => Err(SessionError::InvalidRecord { path: path.to_owned(), line, message }),
    }
}

// --- the newest records -----------------------------------------------------------------------

/// Keeps the newest `cap` of the records that go through it, and counts the others.
/// This keeps replay memory bounded while every record is validated.
pub struct Tail {
    cap: usize,
    records: VecDeque<Output>,
    dropped: usize,
}

/// What a [`Tail`] holds.
pub struct TailView {
    pub cap: usize,
    pub records: Seq<Output>,
    pub dropped: usize,
}

impl View for Tail {
    type V = TailView;

    closed spec fn view(&self) -> TailView {
        TailView { cap: self.cap, records: self.records@, dropped: self.dropped }
    }
}

/// One more, up to the greatest count.
pub open spec fn one_more(n: usize) -> usize {
    if n == usize::MAX {
        n
    } else {
        (n + 1) as usize
    }
}

/// A tail after one more record.
pub open spec fn tail_pushed(t: TailView, o: Output) -> TailView {
    if t.cap == 0 {
        TailView { dropped: one_more(t.dropped), ..t }
    } else if t.records.len() == t.cap {
        TailView { records: t.records.skip(1).push(o), dropped: one_more(t.dropped), ..t }
    } else {
        TailView { records: t.records.push(o), ..t }
    }
}

impl Tail {
    pub fn new(cap: usize) -> (t: Tail)
        ensures
            t@ == (TailView { cap, records: Seq::empty(), dropped: 0 }),
    {
        Tail { cap, records: VecDeque::new(), dropped: 0 }
    }

    pub fn push(&mut self, output: Output)
        ensures
            final(self)@ == tail_pushed(old(self)@, output),
    {
        if self.cap == 0 {
            self.dropped = self.dropped.saturating_add(1);
            return;
        }
        if self.records.len() == self.cap {
            let ghost before = self.records@;
            self.records.pop_front();
            assert(self.records@ =~= before.skip(1));
            self.dropped = self.dropped.saturating_add(1);
        }
        self.records.push_back(output);
    }

    /// The records kept, and how many were not.
    pub fn finish(self) -> (r: (Vec<Output>, usize))
        ensures
            r.0@ == self@.records,
            r.1 == self@.dropped,
    {
        let mut records = self.records;
        let mut kept: Vec<Output> = Vec::new();
        let ghost all = records@;
        while records.len() > 0
            invariant
                kept@ + records@ == all,
            decreases records@.len(),
        {
            let ghost before = records@;
            let ghost done = kept@;
            match records.pop_front() {
                Some(o) => {
                    kept.push(o);
                    assert(kept@ + records@ =~= done + before);
                },
                None => {},
            }
        }
        assert(kept@ =~= all);
        (kept, self.dropped)
    }
}

// --- laws --------------------------------------------------------------------------------------

/// The tail of a whole list of records.
pub open spec fn tail_of(cap: usize, all: Seq<Output>) -> TailView
    decreases all.len(),
{
    if all.len() == 0 {
        TailView { cap, records: Seq::empty(), dropped: 0 }
    } else {
        tail_pushed(tail_of(cap, all.drop_last()), all.last())
    }
}

/// A tail keeps the newest `cap` records in order, and counts the rest.
pub proof fn tail_keeps_the_newest(cap: usize, all: Seq<Output>)
    requires
        all.len() <= usize::MAX,
    ensures
        ({
            let t = tail_of(cap, all);
            let kept = if all.len() <= cap {
                all.len() as int
            } else {
                cap as int
            };
            t.records == all.skip(all.len() - kept) && t.dropped == all.len() - kept && t.cap == cap
        }),
    decreases all.len(),
{
    if all.len() > 0 {
        let less = all.drop_last();
        tail_keeps_the_newest(cap, less);
        let kept = if less.len() <= cap {
            less.len() as int
        } else {
            cap as int
        };
        let t = tail_of(cap, all);
        if cap == 0 {
            assert(t.records =~= all.skip(all.len() as int));
        } else if kept == cap {
            assert(t.records =~= all.skip(all.len() - cap));
        } else {
            assert(t.records =~= all.skip(0));
        }
    }
}

/// Every schema version but the current one is refused.
pub proof fn other_schemas_are_refused(path: Seq<char>, line: usize, version: Option<u64>)
    ensures
        schema_verdict(path, line, version) is Ok <==> version == Some(SCHEMA_VERSION as u64),
{
}

/// Blank lines are passed over, whatever else the file holds.
pub proof fn blank_lines_are_ignored(path: Seq<char>, line: usize, text: Seq<char>)
    requires
        trim(text).len() == 0,
    ensures
        line_verdict(path, line, text) == Ok::<LineCheck, SessionErrorView>(LineCheck::Blank),
{
}

/// A stored output loads back as it was: the fields that filters and rich rendering
/// use, the rendered line and the capture time. Its time must be a valid one.
pub proof fn stored_outputs_load_back(o: OutputView, now: Seq<char>, path: Seq<char>, line: usize)
    requires
        rfc3339_complaint(stored(o, now).timestamp) is None,
        o matches OutputView::Message { message, .. } ==> crate::addr_laws::scope_fits(
            message.client,
        ),
    ensures
        loaded(stored(o, now), path, line, rfc3339_complaint(stored(o, now).timestamp)) == Ok::<
            OutputView,
            SessionErrorView,
        >(o),
        stored(o, now).schema_version == SCHEMA_VERSION,
{
    if let OutputView::Message { message, .. } = o {
        crate::addr_laws::socket_text_reads_back(message.client);
    }
}

} // verus!
