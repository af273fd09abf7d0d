//! Display records: what the decoder emits, and where it goes.
//!
//! The decoder never decides where its output goes: it appends records to a list.
//! A [`Sink`] routes each record to a capture buffer, to the consumer's channel, or
//! back to the caller for the terminal.
use crate::addr::SocketAddr;
use crate::filter::{lets_through, DisplayFilter, DisplayMessage, MessageDirection, MessageView};
use crate::flow::Role;
use crate::render::{column_views, ColumnView, DataColumn};
use crate::text::{dec, is_digit, push_dec};
use crate::wire::{field_views, opt_text, FieldSummary, FieldView};
use crossbeam_channel::{Receiver, Sender};
use vstd::prelude::*;

verus! {

// --- records --------------------------------------------------------------------------

/// Structured rendering detail for a decoded message, consumed by the rich display
/// mode. The flat line-view text is always produced as well.
#[derive(Clone, Debug)]
pub enum EventDetail {
    /// A `RowDescription`: the result columns' names, type OIDs and format.
    RowDescription(Vec<FieldSummary>),
    /// A `DataRow`: each value paired with its column name and type OID. Emitted
    /// only while a description is cached, since otherwise there is nothing to key
    /// the table on.
    DataRow(Vec<DataColumn>),
}

/// What an [`EventDetail`] holds.
pub enum DetailView {
    RowDescription(Seq<FieldView>),
    DataRow(Seq<ColumnView>),
}

impl View for EventDetail {
    type V = DetailView;

    open spec fn view(&self) -> DetailView {
        match *self {
            EventDetail::RowDescription(f) => DetailView::RowDescription(field_views(f@)),
            EventDetail::DataRow(c) => DetailView::DataRow(column_views(c@)),
        }
    }
}

pub open spec fn opt_detail(d: Option<EventDetail>) -> Option<DetailView> {
    match d {
        Some(d) => Some(d@),
        None => None,
    }
}

/// What kind of output a record is, so the consumer can route it (decoded lines to
/// stdout, status to stderr) without re-parsing the text.
#[derive(Clone, Debug)]
pub enum Output {
    /// A decoded protocol message with filter metadata and optional structured
    /// detail for the rich display mode.
    Message { message: DisplayMessage, detail: Option<EventDetail> },
    /// An unstructured capture or lifecycle line.
    Line(String),
    /// A status or informational line.
    Status(String),
}

/// What an [`Output`] holds.
pub enum OutputView {
    Message { message: MessageView, detail: Option<DetailView> },
    Line(Seq<char>),
    Status(Seq<char>),
}

impl View for Output {
    type V = OutputView;

    open spec fn view(&self) -> OutputView {
        match *self {
            Output::Message { message, detail } => OutputView::Message {
                message: message@,
                detail: opt_detail(detail),
            },
            Output::Line(s) => OutputView::Line(s@),
            Output::Status(s) => OutputView::Status(s@),
        }
    }
}

/// The line that shows a record.
pub open spec fn rendered_text(o: OutputView) -> Seq<char> {
    match o {
        OutputView::Message { message, .. } => message.rendered,
        OutputView::Line(s) => s,
        OutputView::Status(s) => s,
    }
}

/// Whether a record belongs in a filtered display. Lines and status records always
/// do: they carry capture failures and connection lifecycle context rather than
/// decoded messages.
pub open spec fn displayed(o: OutputView, f: crate::filter::FilterView) -> bool {
    match o {
        OutputView::Message { message, .. } => lets_through(f, message),
        _ => true,
    }
}

/// What the records of a list hold.
pub open spec fn output_views(v: Seq<Output>) -> Seq<OutputView> {
    v.map_values(|o: Output| o@)
}

/// The structured detail of a record.
pub open spec fn detail_of(o: OutputView) -> Option<DetailView> {
    match o {
        OutputView::Message { detail, .. } => detail,
        _ => None,
    }
}

impl Output {
    pub fn rendered(&self) -> (s: &str)
        ensures
            s@ == rendered_text(self@),
    {
        match self {
            Output::Message { message, .. } => message.rendered.as_str(),
            Output::Line(line) => line.as_str(),
            Output::Status(line) => line.as_str(),
        }
    }

    /// Whether this record belongs in a filtered display.
    pub fn matches_filter(&self, filter: &DisplayFilter) -> (b: bool)
        ensures
            b == displayed(self@, filter@),
    {
        match self {
            Output::Message { message, .. } => filter.matches(message),
            _ => true,
        }
    }

    pub fn detail(&self) -> (r: Option<&EventDetail>)
        ensures
            match r {
                Some(d) => detail_of(self@) == Some(d@),
                None => detail_of(self@) is None,
            },
    {
        match self {
            Output::Message { detail, .. } => match detail {
                Some(d) => Some(d),
                None => None,
            },
            _ => None,
        }
    }
}

/// Operational records are shown whatever the filter says.
pub proof fn operational_records_are_never_filtered(
    o: OutputView,
    f: crate::filter::FilterView,
)
    requires
        o is Line || o is Status,
    ensures
        displayed(o, f),
{
}

// --- time ------------------------------------------------------------------------------

/// One reading of the wall clock, as it is stored and as it is shown.
pub struct Stamp {
    /// RFC 3339 with millisecond precision.
    pub rfc3339: String,
    /// The time of day, for line prefixes.
    pub clock: String,
}

/// What a [`Stamp`] holds.
pub struct StampView {
    pub rfc3339: Seq<char>,
    pub clock: Seq<char>,
}

impl View for Stamp {
    type V = StampView;

    open spec fn view(&self) -> StampView {
        StampView { rfc3339: self.rfc3339@, clock: self.clock@ }
    }
}

/// Whether a text is a time of day as lines show it: hours, minutes, seconds and
/// milliseconds, each of a fixed width.
pub open spec fn clock_like(s: Seq<char>) -> bool {
    &&& s.len() == 12
    &&& s[2] == ':'
    &&& s[5] == ':'
    &&& s[8] == '.'
    &&& forall|i: int| 0 <= i < 12 && i != 2 && i != 5 && i != 8 ==> is_digit(#[trigger] s[i])
}

/// `chrono::Local::now`, written by `to_rfc3339_opts` and by `format`, whose pattern
/// pads every part of the time of day to a fixed width. It reads the clock, so nothing
/// more is said of what it returns.
#[verifier::external_body]
pub(crate) fn local_stamp() -> (t: Stamp)
    ensures
        clock_like(t@.clock),
{
    let now = chrono::Local::now();
    Stamp {
        rfc3339: now.to_rfc3339_opts(chrono::SecondsFormat::Millis, true),
        clock: now.format("%H:%M:%S%.3f").to_string(),
    }
}

/// Current wall-clock time, for log line prefixes. It reads the clock, so only the
/// shape of what it returns is stated.
pub fn ts() -> (s: String)
    ensures
        clock_like(s@),
{
    local_stamp().clock
}

// --- emitting ---------------------------------------------------------------------------

/// The arrow of a direction, as lines show it.
pub open spec fn dir_tag_text(role: Role) -> Seq<char> {
    if role == Role::Client {
        "F→B"@
    } else {
        "B→F"@
    }
}

pub fn dir_tag(role: Role) -> (s: &'static str)
    ensures
        s@ == dir_tag_text(role),
{
    if role == Role::Client {
        "F→B"
    } else {
        "B→F"
    }
}

/// The direction of what a side sends.
pub open spec fn direction_of(role: Role) -> MessageDirection {
    if role == Role::Client {
        MessageDirection::FrontendToBackend
    } else {
        MessageDirection::BackendToFrontend
    }
}

fn message_direction(role: Role) -> (d: MessageDirection)
    ensures
        d == direction_of(role),
{
    if role == Role::Client {
        MessageDirection::FrontendToBackend
    } else {
        MessageDirection::BackendToFrontend
    }
}

/// Something to show, before it gets a time.
pub enum Event {
    Message {
        role: Role,
        client: SocketAddr,
        kind: Seq<char>,
        text: Seq<char>,
        detail: Option<DetailView>,
    },
    Warning { role: Role, client: SocketAddr, text: Seq<char> },
    Line(Seq<char>),
    Status(Seq<char>),
}

/// The start of a rendered message: its time and direction.
pub open spec fn line_head(clock: Seq<char>, role: Role) -> Seq<char> {
    "["@ + clock + "] ["@ + dir_tag_text(role) + "] "@
}

/// The rendered line of a message.
pub open spec fn message_line(clock: Seq<char>, role: Role, kind: Seq<char>, text: Seq<char>) -> Seq<
    char,
> {
    if text.len() == 0 {
        line_head(clock, role) + kind
    } else {
        line_head(clock, role) + kind + ": "@ + text
    }
}

/// The record that shows an event at time `t`.
pub open spec fn at(e: Event, t: StampView) -> OutputView {
    match e {
        Event::Message { role, client, kind, text, detail } => OutputView::Message {
            message: MessageView {
                timestamp: t.rfc3339,
                rendered: message_line(t.clock, role, kind, text),
                client,
                direction: direction_of(role),
                kind,
                text,
            },
            detail,
        },
        Event::Warning { role, client, text } => OutputView::Message {
            message: MessageView {
                timestamp: t.rfc3339,
                rendered: line_head(t.clock, role) + "⚠ "@ + text,
                client,
                direction: direction_of(role),
                kind: "Warning"@,
                text,
            },
            detail: None,
        },
        Event::Line(body) => OutputView::Line("["@ + t.clock + "] "@ + body),
        Event::Status(text) => OutputView::Status(text),
    }
}

/// Whether a record shows an event, at whatever time.
pub open spec fn shows(o: OutputView, e: Event) -> bool {
    exists|t: StampView| o == #[trigger] at(e, t)
}

/// Whether `after` is `before` and then one record for each of `events`, in order.
pub open spec fn emitted(before: Seq<Output>, after: Seq<Output>, events: Seq<Event>) -> bool {
    &&& after.len() == before.len() + events.len()
    &&& after.take(before.len() as int) == before
    &&& forall|i: int|
        0 <= i < events.len() ==> shows((#[trigger] after[before.len() + i])@, events[i])
}

/// Emitting nothing changes nothing.
pub proof fn emitted_nothing(a: Seq<Output>)
    ensures
        emitted(a, a, Seq::empty()),
{
    assert(a.take(a.len() as int) =~= a);
}

/// Emitting some events and then others is emitting them all.
pub proof fn emitted_in_turn(
    a: Seq<Output>,
    b: Seq<Output>,
    c: Seq<Output>,
    first: Seq<Event>,
    second: Seq<Event>,
)
    requires
        emitted(a, b, first),
        emitted(b, c, second),
    ensures
        emitted(a, c, first + second),
{
    let all = first + second;
    assert(c.take(a.len() as int) =~= c.take(b.len() as int).take(a.len() as int));
    assert forall|i: int| 0 <= i < all.len() implies shows(
        (#[trigger] c[a.len() + i])@,
        all[i],
    ) by {
        if i < first.len() {
            assert(c[a.len() + i] == c.take(b.len() as int)[a.len() + i]);
            assert(shows(b[a.len() + i]@, first[i]));
        } else {
            let k = i - first.len();
            assert(c[b.len() + k] == c[a.len() + i]);
            assert(shows(c[b.len() + k]@, second[k]));
        }
    }
}

/// Emitting one event.
proof fn lemma_emitted_one(a: Seq<Output>, o: Output, e: Event, t: StampView)
    requires
        o@ == at(e, t),
    ensures
        emitted(a, a.push(o), seq![e]),
{
    assert(a.push(o).take(a.len() as int) =~= a);
    assert(shows(a.push(o)[a.len() as int]@, e));
}

/// The start of a rendered message.
fn push_line_head(s: &mut String, clock: &str, role: Role)
    ensures
        final(s)@ == old(s)@ + line_head(clock@, role),
{
    s.append("[");
    s.append(clock);
    s.append("] [");
    s.append(dir_tag(role));
    s.append("] ");
    assert(s@ =~= old(s)@ + line_head(clock@, role));
}

/// One side of a connection, as the source of display records.
#[derive(Clone, Copy, PartialEq, Eq, Structural, Debug)]
pub struct MessageEmitter {
    pub role: Role,
    pub client: SocketAddr,
}

impl MessageEmitter {
    /// The event of a message from this side.
    pub open spec fn message(self, kind: Seq<char>, text: Seq<char>, detail: Option<DetailView>) -> Event {
        Event::Message { role: self.role, client: self.client, kind, text, detail }
    }

    /// The event of a warning about this side.
    pub open spec fn warning(self, text: Seq<char>) -> Event {
        Event::Warning { role: self.role, client: self.client, text }
    }

    /// The record of a message at time `t`.
    pub fn message_at(self, t: Stamp, kind: &str, text: &str, detail: Option<EventDetail>) -> (o: Output)
        ensures
            o@ == at(self.message(kind@, text@, opt_detail(detail)), t@),
    {
        let mut rendered = String::new();
        push_line_head(&mut rendered, t.clock.as_str(), self.role);
        rendered.append(kind);
        if !text.is_empty() {
            rendered.append(": ");
            rendered.append(text);
        }
        assert(rendered@ =~= message_line(t@.clock, self.role, kind@, text@));
        Output::Message {
            message: DisplayMessage {
                timestamp: t.rfc3339,
                rendered,
                client: self.client,
                direction: message_direction(self.role),
                kind: kind.to_owned(),
                text: text.to_owned(),
            },
            detail,
        }
    }

    /// The record of a warning at time `t`.
    pub fn warning_at(self, t: Stamp, msg: &str) -> (o: Output)
        ensures
            o@ == at(self.warning(msg@), t@),
    {
        let mut rendered = String::new();
        push_line_head(&mut rendered, t.clock.as_str(), self.role);
        rendered.append("⚠ ");
        rendered.append(msg);
        assert(rendered@ =~= line_head(t@.clock, self.role) + "⚠ "@ + msg@);
        Output::Message {
            message: DisplayMessage {
                timestamp: t.rfc3339,
                rendered,
                client: self.client,
                direction: message_direction(self.role),
                kind: "Warning".to_owned(),
                text: msg.to_owned(),
            },
            detail: None,
        }
    }

    pub fn emit_with_detail(
        self,
        kind: &str,
        text: &str,
        detail: Option<EventDetail>,
        out: &mut Vec<Output>,
    )
        ensures
            emitted(
                old(out)@,
                final(out)@,
                seq![self.message(kind@, text@, opt_detail(detail))],
            ),
    {
        let t = local_stamp();
        let ghost tv = t@;
        let record = self.message_at(t, kind, text, detail);
        proof {
            lemma_emitted_one(
                out@,
                record,
                self.message(kind@, text@, opt_detail(detail)),
                tv,
            );
        }
        out.push(record);
    }

    pub fn emit(self, kind: &str, text: &str, out: &mut Vec<Output>)
        ensures
            emitted(old(out)@, final(out)@, seq![self.message(kind@, text@, None)]),
    {
        self.emit_with_detail(kind, text, None, out);
    }

    pub fn emit_rich(self, kind: &str, text: &str, detail: EventDetail, out: &mut Vec<Output>)
        ensures
            emitted(old(out)@, final(out)@, seq![self.message(kind@, text@, Some(detail@))]),
    {
        self.emit_with_detail(kind, text, Some(detail), out);
    }

    pub fn warn(self, msg: &str, out: &mut Vec<Output>)
        ensures
            emitted(old(out)@, final(out)@, seq![self.warning(msg@)]),
    {
        let t = local_stamp();
        let ghost tv = t@;
        let record = self.warning_at(t, msg);
        proof {
            lemma_emitted_one(out@, record, self.warning(msg@), tv);
        }
        out.push(record);
    }
}

/// Emits a warning attributed to a connection direction, so that lost or skipped
/// bytes are filterable like decoded messages.
pub fn warn(role: Role, client: SocketAddr, msg: &str, out: &mut Vec<Output>)
    ensures
        emitted(
            old(out)@,
            final(out)@,
            seq![Event::Warning { role, client, text: msg@ }],
        ),
{
    MessageEmitter { role, client }.warn(msg, out);
}

/// Emits an unstructured line behind the time of day.
pub fn emit_line(body: &str, out: &mut Vec<Output>)
    ensures
        emitted(old(out)@, final(out)@, seq![Event::Line(body@)]),
{
    let t = local_stamp();
    let ghost tv = t@;
    let mut line = String::new();
    line.append("[");
    line.append(t.clock.as_str());
    line.append("] ");
    line.append(body);
    assert(line@ =~= "["@ + tv.clock + "] "@ + body@);
    let record = Output::Line(line);
    proof {
        lemma_emitted_one(out@, record, Event::Line(body@), tv);
    }
    out.push(record);
}

/// Emits a status line.
pub fn emit_status(text: &str, out: &mut Vec<Output>)
    ensures
        emitted(old(out)@, final(out)@, seq![Event::Status(text@)]),
{
    let record = Output::Status(text.to_owned());
    proof {
        let any = arbitrary::<StampView>();
        lemma_emitted_one(out@, record, Event::Status(text@), any);
    }
    out.push(record);
}

// --- routing ----------------------------------------------------------------------------

/// `crossbeam_channel::Sender`, the producing end of a channel.
#[verifier::external_type_specification]
#[verifier::external_body]
#[verifier::reject_recursive_types(T)]
pub struct ExSender<T>(Sender<T>);

/// `crossbeam_channel::Receiver`, the consuming end of a channel.
#[verifier::external_type_specification]
#[verifier::external_body]
#[verifier::reject_recursive_types(T)]
pub struct ExReceiver<T>(Receiver<T>);

/// The producing end of a channel of records. It is the only one: it cannot be cloned.
pub struct Channel {
    tx: Sender<Output>,
    capacity: usize,
    log: Ghost<Seq<Output>>,
}

/// What is known of a [`Channel`]: how many records it holds at most, and all that it
/// took, in order.
pub struct ChannelView {
    pub capacity: nat,
    pub log: Seq<Output>,
}

impl View for Channel {
    type V = ChannelView;

    closed spec fn view(&self) -> ChannelView {
        ChannelView { capacity: self.capacity as nat, log: self.log@ }
    }
}

/// How far the consuming end of a channel has come: how many records it has taken out,
/// and whether it is still there.
pub struct Consumer {
    pub taken: nat,
    pub alive: bool,
}

/// Whether a channel takes one more record.
pub open spec fn has_room(ch: ChannelView, c: Consumer) -> bool {
    c.alive && ch.log.len() - c.taken < ch.capacity
}

/// A channel that took a record.
pub open spec fn logged(ch: ChannelView, record: Output) -> ChannelView {
    ChannelView { log: ch.log.push(record), ..ch }
}

/// `crossbeam_channel::bounded` makes an empty channel that holds at most `capacity`
/// records.
#[verifier::external_body]
fn bounded_channel(capacity: usize) -> (r: (Channel, Receiver<Output>))
    requires
        capacity > 0,
    ensures
        r.0@ == (ChannelView { capacity: capacity as nat, log: Seq::empty() }),
{
    let (tx, rx) = crossbeam_channel::bounded(capacity);
    (Channel { tx, capacity, log: Ghost(Seq::empty()) }, rx)
}

impl Channel {
    /// `Sender::try_send` hands a record to the channel without waiting: it takes the
    /// record while the consumer is there and fewer than the capacity lie in it. How far
    /// the consumer has come is not known, so nothing is said of when that is.
    #[verifier::external_body]
    fn try_send(&mut self, record: Output) -> (sent: bool)
        ensures
            final(self)@ == (if sent {
                logged(old(self)@, record)
            } else {
                old(self)@
            }),
            exists|c: Consumer|
                c.taken <= old(self)@.log.len() && sent == #[trigger] has_room(old(self)@, c),
    {
        self.tx.try_send(record).is_ok()
    }
}

/// Capacity of the output channel. Large enough that ordinary bursts never stall,
/// but bounded: a wedged consumer then sheds records instead of growing memory
/// without limit or stalling the relay it sits in.
pub const OUTPUT_CHANNEL_CAPACITY: usize = 131_072;

/// Creates the bounded output channel. Both the stdout printer and the TUI use this
/// so the backpressure policy is identical.
pub fn channel() -> (r: (Channel, Receiver<Output>))
    ensures
        r.0@ == (ChannelView { capacity: OUTPUT_CHANNEL_CAPACITY as nat, log: Seq::empty() }),
{
    bounded_channel(OUTPUT_CHANNEL_CAPACITY)
}

/// Where records go. A capture buffer takes precedence over the channel; with
/// neither, records come back to the caller for the terminal.
pub struct Sink {
    capture: Option<Vec<Output>>,
    tx: Option<Channel>,
    dropped: u64,
}

/// What a [`Sink`] holds.
#[verifier::ext_equal]
pub struct SinkView {
    pub capture: Option<Seq<Output>>,
    pub tx: Option<ChannelView>,
    pub dropped: u64,
}

/// What became of a record.
pub enum Delivery {
    /// It lies in the capture buffer.
    Captured,
    /// The channel took it.
    Sent,
    /// The consumer was too far behind; the record is shed and counted.
    Dropped,
    /// No consumer is wired: the record is to be printed.
    Print(Output),
}

impl View for Sink {
    type V = SinkView;

    closed spec fn view(&self) -> SinkView {
        SinkView {
            capture: match self.capture {
                Some(v) => Some(v@),
                None => None,
            },
            tx: match self.tx {
                Some(ch) => Some(ch@),
                None => None,
            },
            dropped: self.dropped,
        }
    }
}

/// A sink after a record that its channel did not take.
pub open spec fn shed(s: SinkView) -> SinkView {
    SinkView { dropped: s.dropped.wrapping_add(1), ..s }
}

/// A sink after a record was handed to it while the consumer had come so far: the capture
/// buffer gets it while one is open, else the channel, which sheds it where there is no
/// room.
pub open spec fn delivered_to(s: SinkView, record: Output, c: Consumer) -> SinkView {
    match s.capture {
        Some(held) => SinkView { capture: Some(held.push(record)), ..s },
        None => match s.tx {
            Some(ch) => if has_room(ch, c) {
                SinkView { tx: Some(logged(ch, record)), ..s }
            } else {
                shed(s)
            },
            None => s,
        },
    }
}

/// What became of a record.
pub open spec fn fate(s: SinkView, record: Output, c: Consumer) -> Delivery {
    if s.capture is Some {
        Delivery::Captured
    } else {
        match s.tx {
            Some(ch) => if has_room(ch, c) {
                Delivery::Sent
            } else {
                Delivery::Dropped
            },
            None => Delivery::Print(record),
        }
    }
}

/// Whether a consumer can have come so far: it has taken no more than was sent.
pub open spec fn possible(s: SinkView, c: Consumer) -> bool {
    s.tx matches Some(ch) ==> c.taken <= ch.log.len()
}

/// What delivering a record does, however far the consumer has come.
pub open spec fn delivers(before: SinkView, record: Output, after: SinkView, d: Delivery) -> bool {
    exists|c: Consumer|
        {
            &&& #[trigger] possible(before, c)
            &&& after == delivered_to(before, record, c)
            &&& d == fate(before, record, c)
        }
}

impl Sink {
    /// A sink with no consumer.
    pub fn new() -> (s: Sink)
        ensures
            s@ == (SinkView { capture: None, tx: None, dropped: 0 }),
    {
        Sink { capture: None, tx: None, dropped: 0 }
    }
}

/// Hands a record to the sink: to the capture buffer while one is open, else to the
/// channel without waiting, else back to the caller.
pub fn deliver(sink: &mut Sink, record: Output) -> (d: Delivery)
    ensures
        delivers(old(sink)@, record, final(sink)@, d),
{
    let ghost before = sink@;
    if let Some(held) = &mut sink.capture {
        held.push(record);
        proof {
            let c = Consumer { taken: 0, alive: true };
            assert(possible(before, c));
            assert(sink@ =~= delivered_to(before, record, c));
        }
        return Delivery::Captured;
    }
    let sent = match &mut sink.tx {
        Some(ch) => ch.try_send(record),
        None => {
            proof {
                let c = Consumer { taken: 0, alive: true };
                assert(possible(before, c));
            }
            return Delivery::Print(record);
        },
    };
    if !sent {
        sink.dropped = sink.dropped.wrapping_add(1);
    }
    proof {
        let ch = before.tx->0;
        let c = choose|c: Consumer|
            c.taken <= ch.log.len() && sent == #[trigger] has_room(ch, c);
        assert(possible(before, c));
        assert(sink@ =~= delivered_to(before, record, c));
    }
    if sent {
        Delivery::Sent
    } else {
        Delivery::Dropped
    }
}

/// How many output records have been dropped because the consumer fell behind.
pub fn dropped_count(sink: &Sink) -> (n: u64)
    ensures
        n == sink@.dropped,
{
    sink.dropped
}

/// Installs the channel producers write to. The matching receiver is owned by
/// whichever consumer is active.
pub fn set_output(sink: &mut Sink, tx: Channel)
    ensures
        final(sink)@ == (SinkView { tx: Some(tx@), ..old(sink)@ }),
{
    sink.tx = Some(tx);
}

/// Drops the producer handle so the consumer observes end-of-stream and can drain.
pub fn close_output(sink: &mut Sink)
    ensures
        final(sink)@ == (SinkView { tx: None, ..old(sink)@ }),
{
    sink.tx = None;
}

/// Feeds a previously decoded record through the active consumer, so that file
/// replay follows the same path as live capture.
pub fn replay(sink: &mut Sink, record: Output) -> (d: Delivery)
    ensures
        delivers(old(sink)@, record, final(sink)@, d),
{
    deliver(sink, record)
}

/// Emits one line: to the output consumer, or to the caller for stdout.
pub fn out(sink: &mut Sink, line: String) -> (d: Delivery)
    ensures
        delivers(old(sink)@, Output::Line(line), final(sink)@, d),
{
    deliver(sink, Output::Line(line))
}

/// Emits a status or informational line.
pub fn status(sink: &mut Sink, msg: String) -> (d: Delivery)
    ensures
        delivers(old(sink)@, Output::Status(msg), final(sink)@, d),
{
    deliver(sink, Output::Status(msg))
}

/// Begins capturing records into a buffer.
pub fn start_capture(sink: &mut Sink)
    ensures
        final(sink)@ == (SinkView { capture: Some(Seq::empty()), ..old(sink)@ }),
{
    sink.capture = Some(Vec::new());
}

/// Finishes capturing and returns the buffered records.
pub fn take_output_capture(sink: &mut Sink) -> (v: Vec<Output>)
    ensures
        final(sink)@ == (SinkView { capture: None, ..old(sink)@ }),
        v@ == match old(sink)@.capture {
            Some(held) => held,
            None => Seq::empty(),
        },
{
    match sink.capture.take() {
        Some(held) => held,
        None => Vec::new(),
    }
}

/// The rendered lines of some records, without those of status records.
pub open spec fn captured_lines(v: Seq<Output>) -> Seq<Seq<char>>
    decreases v.len(),
{
    if v.len() == 0 {
        Seq::empty()
    } else if v.last() is Status {
        captured_lines(v.drop_last())
    } else {
        captured_lines(v.drop_last()).push(rendered_text(v.last()@))
    }
}

/// Finishes capturing and returns the buffered lines.
pub fn take_capture(sink: &mut Sink) -> (lines: Vec<String>)
    ensures
        final(sink)@ == (SinkView { capture: None, ..old(sink)@ }),
        lines@.map_values(|s: String| s@) == captured_lines(
            match old(sink)@.capture {
                Some(held) => held,
                None => Seq::empty(),
            },
        ),
{
    let held = take_output_capture(sink);
    let mut lines: Vec<String> = Vec::new();
    let mut i: usize = 0;
    assert(held@.take(0) =~= Seq::<Output>::empty());
    assert(lines@.map_values(|s: String| s@) =~= Seq::<Seq<char>>::empty());
    while i < held.len()
        invariant
            i <= held@.len(),
            lines@.map_values(|s: String| s@) == captured_lines(held@.take(i as int)),
        decreases held@.len() - i,
    {
        assert(held@.take(i + 1).drop_last() =~= held@.take(i as int));
        assert(held@.take(i + 1).last() == held@[i as int]);
        let ghost before = lines@;
        if !matches!(held[i], Output::Status(_)) {
            let line = held[i].rendered().to_owned();
            lines.push(line);
            assert(lines@.map_values(|s: String| s@) =~= before.map_values(
                |s: String| s@,
            ).push(line@));
        }
        i = i + 1;
    }
    assert(held@.take(held@.len() as int) =~= held@);
    lines
}

/// A sink after some records, while the consumer has come so far and no farther.
pub open spec fn delivered_all(s: SinkView, records: Seq<Output>, c: Consumer) -> SinkView
    decreases records.len(),
{
    if records.len() == 0 {
        s
    } else {
        delivered_to(delivered_all(s, records.drop_last(), c), records.last(), c)
    }
}

/// A consumer that is there and reads nothing leaves in the channel the first records
/// that it holds, in the order in which they were emitted; every other one is shed and
/// counted.
pub proof fn unread_channels_keep_the_first(s: SinkView, records: Seq<Output>)
    requires
        s.capture is None,
        s.tx is Some,
        s.tx->0.log.len() == 0,
        s.dropped + records.len() <= u64::MAX,
    ensures
        ({
            let after = delivered_all(s, records, Consumer { taken: 0, alive: true });
            let n = records.len() as int;
            let k = s.tx->0.capacity as int;
            let kept = if n < k {
                n
            } else {
                k
            };
            &&& after.capture is None
            &&& after.tx == Some(ChannelView { log: records.take(kept), ..s.tx->0 })
            &&& after.dropped == s.dropped + (n - kept)
        }),
    decreases records.len(),
{
    let c = Consumer { taken: 0, alive: true };
    if records.len() == 0 {
        assert(records.take(0) =~= s.tx->0.log);
    } else {
        let less = records.drop_last();
        unread_channels_keep_the_first(s, less);
        let k = s.tx->0.capacity as int;
        if less.len() < k {
            assert(less.take(less.len() as int).push(records.last()) =~= records.take(
                records.len() as int,
            ));
        } else {
            assert(less.take(k) =~= records.take(k));
        }
    }
}

/// Where a record is printed when no consumer is wired.
#[derive(Clone, Copy, PartialEq, Eq, Structural, Debug)]
pub enum Stream {
    Stdout,
    Stderr,
}

/// Decoded messages and lines go to stdout, status records to stderr.
pub open spec fn stream_of(o: OutputView) -> Stream {
    if o is Status {
        Stream::Stderr
    } else {
        Stream::Stdout
    }
}

pub fn terminal_stream(record: &Output) -> (s: Stream)
    ensures
        s == stream_of(record@),
{
    match record {
        Output::Status(_) => Stream::Stderr,
        _ => Stream::Stdout,
    }
}

/// Where the line-oriented consumer prints a record: nowhere if the filter hides it.
pub fn route(record: &Output, filter: &DisplayFilter) -> (s: Option<Stream>)
    ensures
        s == if displayed(record@, filter@) {
            Some(stream_of(record@))
        } else {
            None
        },
{
    if record.matches_filter(filter) {
        Some(terminal_stream(record))
    } else {
        None
    }
}

/// What is said when the consumer can no longer record.
pub fn recording_stopped(error: &str) -> (s: String)
    ensures
        s@ == "tapgres: recording stopped: "@ + error@,
{
    let mut s = String::new();
    s.append("tapgres: recording stopped: ");
    s.append(error);
    assert(s@ =~= "tapgres: recording stopped: "@ + error@);
    s
}

/// What is said at the end of records that were dropped, if any were.
pub open spec fn dropped_text(n: nat) -> Option<Seq<char>> {
    if n == 0 {
        None
    } else {
        Some(
            "tapgres: dropped "@ + dec(n) + " output records (consumer could not keep up)"@,
        )
    }
}

pub fn dropped_notice(n: u64) -> (s: Option<String>)
    ensures
        opt_text(s) == dropped_text(n as nat),
{
    if n == 0 {
        return None;
    }
    let mut s = String::new();
    s.append("tapgres: dropped ");
    push_dec(&mut s, n);
    s.append(" output records (consumer could not keep up)");
    assert(s@ =~= dropped_text(n as nat)->0);
    Some(s)
}

} // verus!
