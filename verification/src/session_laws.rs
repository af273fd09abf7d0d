//! What a saved session holds of each output, and what each record is loaded as.
use crate::addr::socket_text;
use crate::addr_laws::{scope_fits, socket_text_reads_back};
use crate::filter::{MessageDirection, MessageView};
use crate::filter_laws::{directions_are_named, in_quotes, shown_by};
use crate::output::{DetailView, OutputView};
use crate::reader::{newest_of, unterminated};
use crate::session::{
    json_error_text, json_member, json_of, json_unsigned, line_verdict, loaded, loaded_direction,
    schema_verdict, session_error_text, stored, stored_direction, LineCheck, PayloadView,
    RecordView, SessionErrorView, StoredDirection,
};
use crate::text::{dec, trim};
use vstd::prelude::*;

verus! {

/// A message from the client is stored as `f2b` and one from the server as `b2f`; a record of
/// `f2b` is loaded as a message from the client, and one of `b2f` as one from the server.
pub proof fn directions_are_stored_as_documented(d: MessageDirection, s: StoredDirection)
    ensures
        stored_direction(d) is F2b <==> d is FrontendToBackend,
        stored_direction(d) is B2f <==> d is BackendToFrontend,
        loaded_direction(s) is FrontendToBackend <==> s is F2b,
        loaded_direction(s) is BackendToFrontend <==> s is B2f,
{
}

/// A message is stored with its own time and each of its parts under the name of that part,
/// under the first schema; the time of storing does not matter.
pub proof fn messages_are_stored_part_by_part(
    m: MessageView,
    detail: Option<DetailView>,
    now: Seq<char>,
)
    ensures
        ({
            let r = stored(OutputView::Message { message: m, detail }, now);
            &&& r.schema_version == 1
            &&& r.timestamp == m.timestamp
            &&& r.payload is Message
            &&& r.payload->Message_message_type == m.kind
            &&& r.payload->Message_text == m.text
            &&& r.payload->Message_rendered == m.rendered
            &&& r.payload->Message_client == socket_text(m.client)
            &&& r.payload->Message_detail == detail
            &&& r.payload->Message_direction is F2b <==> m.direction is FrontendToBackend
        }),
{
}

/// Lines and status lines are stored under the time of storing, each as what it is.
pub proof fn operational_outputs_are_stored_as_they_are(text: Seq<char>, now: Seq<char>)
    ensures
        stored(OutputView::Line(text), now) == (RecordView {
            schema_version: 1,
            timestamp: now,
            payload: PayloadView::Line { text },
        }),
        stored(OutputView::Status(text), now) == (RecordView {
            schema_version: 1,
            timestamp: now,
            payload: PayloadView::Status { text },
        }),
{
}

/// A record whose time is valid is loaded part by part: a message with the client that its
/// address is the text of, so that the filter on its direction shows it exactly where the
/// record says so.
pub proof fn records_are_loaded_part_by_part(
    timestamp: Seq<char>,
    direction: StoredDirection,
    kind: Seq<char>,
    text: Seq<char>,
    rendered: Seq<char>,
    client: crate::addr::SocketAddr,
    detail: Option<DetailView>,
    path: Seq<char>,
    line: usize,
)
    requires
        scope_fits(client),
    ensures
        ({
            let r = RecordView {
                schema_version: 1,
                timestamp,
                payload: PayloadView::Message {
                    direction,
                    message_type: kind,
                    text,
                    rendered,
                    client: socket_text(client),
                    detail,
                },
            };
            loaded(r, path, line, None) matches Ok(o) && o is Message && o->message.timestamp
                == timestamp && o->message.kind == kind && o->message.text == text
                && o->message.rendered == rendered && o->message.client == client && o->detail
                == detail && (o->message.direction is FrontendToBackend <==> direction is F2b) && (
            shown_by(
                "message.direction"@ + (" "@ + "=="@ + " "@ + in_quotes("f2b"@)),
                o->message,
            ) <==> direction is F2b)
        }),
{
    socket_text_reads_back(client);
    let m = MessageView {
        timestamp,
        rendered,
        client,
        direction: loaded_direction(direction),
        kind,
        text,
    };
    directions_are_named(m);
}

/// Records of lines and status lines are loaded as what they are.
pub proof fn operational_records_are_loaded_as_they_are(
    timestamp: Seq<char>,
    text: Seq<char>,
    path: Seq<char>,
    line: usize,
)
    ensures
        loaded(
            RecordView { schema_version: 1, timestamp, payload: PayloadView::Line { text } },
            path,
            line,
            None,
        ) == Ok::<OutputView, SessionErrorView>(OutputView::Line(text)),
        loaded(
            RecordView { schema_version: 1, timestamp, payload: PayloadView::Status { text } },
            path,
            line,
            None,
        ) == Ok::<OutputView, SessionErrorView>(OutputView::Status(text)),
{
}

/// A record with a bad time, or of a message whose client is no address, is refused with what
/// is wrong with it, at its line.
pub proof fn bad_records_are_refused(
    r: RecordView,
    path: Seq<char>,
    line: usize,
    complaint: Seq<char>,
)
    ensures
        loaded(r, path, line, Some(complaint)) == Err::<OutputView, SessionErrorView>(
            SessionErrorView::InvalidRecord {
                path,
                line,
                message: "timestamp must be RFC 3339: "@ + complaint,
            },
        ),
        r.payload is Message && crate::addr::socket_of(r.payload->Message_client) is None ==> loaded(
            r,
            path,
            line,
            None,
        ) == Err::<OutputView, SessionErrorView>(
            SessionErrorView::InvalidRecord {
                path,
                line,
                message: "invalid client address "@ + crate::decode::debug_text(
                    r.payload->Message_client,
                ) + ": invalid socket address syntax"@,
            },
        ),
{
}

/// The schema of a line: one is taken, another is refused with its number, and what is no
/// number of thirty-two bits is an invalid record.
pub proof fn schemas_are_judged(path: Seq<char>, line: usize, version: u64)
    ensures
        schema_verdict(path, line, Some(1)) is Ok,
        version != 1 && version <= 0xffff_ffff ==> schema_verdict(path, line, Some(version)) == Err::<
            (),
            SessionErrorView,
        >(SessionErrorView::UnsupportedSchema { path, line, found: version as u32 }),
        version > 0xffff_ffff ==> schema_verdict(path, line, Some(version)) == schema_verdict(
            path,
            line,
            None,
        ),
        schema_verdict(path, line, None) == Err::<(), SessionErrorView>(
            SessionErrorView::InvalidRecord {
                path,
                line,
                message: "schema_version must be an unsigned 32-bit integer"@,
            },
        ),
{
}

/// A line that is no JSON is refused with the reader's reason, and one of the schema is handed
/// on as its document.
pub proof fn lines_are_judged(
    path: Seq<char>,
    line: usize,
    text: Seq<char>,
    v: serde_json::Value,
    e: serde_json::Error,
)
    requires
        trim(text).len() > 0,
    ensures
        json_of(text) == Err::<serde_json::Value, serde_json::Error>(e) ==> line_verdict(
            path,
            line,
            text,
        ) == Err::<LineCheck, SessionErrorView>(
            SessionErrorView::InvalidRecord { path, line, message: json_error_text(e) },
        ),
        json_of(text) == Ok::<serde_json::Value, serde_json::Error>(v) && json_member(
            v,
            "schema_version"@,
        ) is Some && json_unsigned(json_member(v, "schema_version"@)->0) == Some(1u64)
            ==> line_verdict(path, line, text) == Ok::<LineCheck, SessionErrorView>(
            LineCheck::Record(v),
        ),
        json_of(text) == Ok::<serde_json::Value, serde_json::Error>(v) && (json_member(
            v,
            "schema_version"@,
        ) is None || json_unsigned(json_member(v, "schema_version"@)->0) != Some(1u64))
            ==> line_verdict(path, line, text) is Err,
{
}

/// Errors name the file, the line where one is to blame, and what is wrong.
pub proof fn errors_name_file_and_line(
    path: Seq<char>,
    line: usize,
    message: Seq<char>,
    found: u32,
)
    ensures
        session_error_text(SessionErrorView::Io { path, message }) == path + ": "@ + message,
        session_error_text(SessionErrorView::InvalidRecord { path, line, message }) == path
            + ": invalid JSONL record at line "@ + dec(line as nat) + ": "@ + message,
        session_error_text(SessionErrorView::UnsupportedSchema { path, line, found }) == path
            + ": unsupported schema version "@ + dec(found as nat) + " at line "@ + dec(
            line as nat,
        ) + " (supported: "@ + dec(1) + ")"@,
        session_error_text(SessionErrorView::Encode { path, message }) == path
            + ": could not encode JSONL record: "@ + message,
{
}

/// The end of a line is a line feed, or a carriage return and a line feed; a line may also end
/// with the file.
pub proof fn line_ends_are_taken_off(text: Seq<char>)
    requires
        text.len() > 0,
        text.last() != '\n',
        text.last() != '\r',
    ensures
        unterminated(text) == text,
        unterminated(text.push('\n')) == text,
        unterminated(text.push('\r').push('\n')) == text,
        unterminated(seq!['\n']) == Seq::<char>::empty(),
{
    assert(text.push('\n').drop_last() =~= text);
    assert(text.push('\r').push('\n').drop_last() =~= text.push('\r'));
    assert(text.push('\r').drop_last() =~= text);
    assert(seq!['\n'].drop_last() =~= Seq::<char>::empty());
}

/// The newest outputs are the last of them in order.
pub proof fn newest_outputs_come_last(before: Seq<OutputView>, last: Seq<OutputView>, cap: usize)
    requires
        last.len() == cap,
    ensures
        newest_of(before + last, cap) == last,
        before.len() <= cap ==> newest_of(before, cap) == before,
{
    let all = before + last;
    if before.len() > 0 {
        assert(all.skip(all.len() - cap) =~= last);
    } else {
        assert(all =~= last);
    }
}

} // verus!
