//! The state behind the interactive view: the retained records, what of them is shown,
//! and what each key does to it.
use crate::capture::PcapOpts;
use crate::command::{command_of, parse_command, Command};
use crate::filter::{filter_of, no_filter, DisplayFilter, FilterView};
use crate::lexer::Complaint;
use crate::output::{displayed, output_views, rendered_text, Output, OutputView};
use crate::proxy::ProxyOpts;
use crate::search::{find_target, hits, jump_target, lowercase, note_hit};
use crate::session::{stored, StoredRecord};
use crate::state::{MetricsSummary, RateSample};
use crate::text::{dec, push_dec};
use crate::wire::{opt_text, texts};
use vstd::prelude::*;

verus! {

/// Cap on retained records.
pub const HISTORY_CAP: usize = 50_000;

/// The history is trimmed in chunks, so that records do not each move the whole buffer.
pub const HISTORY_TRIM_CHUNK: usize = 1_024;

/// How many recent status lines the startup splash shows.
pub const STATUS_TAIL_CAP: usize = 8;

/// The banner, shown above the help text and at the head of the startup splash.
pub const BANNER: &'static str = "
████████╗ █████╗ ██████╗  ██████╗ ██████╗ ███████╗███████╗
╚══██╔══╝██╔══██╗██╔══██╗██╔════╝ ██╔══██╗██╔════╝██╔════╝
   ██║   ███████║██████╔╝██║  ███╗██████╔╝█████╗  ███████╗
   ██║   ██╔══██║██╔═══╝ ██║   ██║██╔══██╗██╔══╝  ╚════██║
   ██║   ██║  ██║██║     ╚██████╔╝██║  ██║███████╗███████║
   ╚═╝   ╚═╝  ╚═╝╚═╝      ╚═════╝ ╚═╝  ╚═╝╚══════╝╚══════╝
";

// --- the model ------------------------------------------------------------------------------

/// The indices of the records that a filter lets through, in order.
pub open spec fn shown(events: Seq<OutputView>, f: FilterView) -> Seq<usize>
    decreases events.len(),
{
    if events.len() == 0 {
        seq![]
    } else {
        let before = shown(events.drop_last(), f);
        if displayed(events.last(), f) {
            before.push((events.len() - 1) as usize)
        } else {
            before
        }
    }
}

/// A notice and whether it tells of an error.
pub open spec fn opt_notice(n: Option<(String, bool)>) -> Option<(Seq<char>, bool)> {
    match n {
        Some((text, error)) => Some((text@, error)),
        None => None,
    }
}

/// What an [`App`] holds.
#[verifier::ext_equal]
pub struct AppView {
    pub events: Seq<OutputView>,
    pub scroll: usize,
    pub follow: bool,
    pub wrap: bool,
    pub rich: bool,
    pub mode: Seq<char>,
    pub peak_msgs_in: u64,
    pub peak_msgs_out: u64,
    pub filter: FilterView,
    pub filter_text: Seq<char>,
    pub filter_error: Option<Seq<char>>,
    pub filter_editing: bool,
    pub filter_snapshot: Seq<char>,
    pub search_editing: bool,
    pub search_text: Seq<char>,
    pub command_editing: bool,
    pub command_text: Seq<char>,
    pub command_notice: Option<(Seq<char>, bool)>,
    pub status_tail: Seq<Seq<char>>,
    pub source_error: Option<Seq<char>>,
    pub replay_source: Option<Seq<char>>,
    pub accept_source_records: bool,
    pub recording: bool,
    pub dropped_events: usize,
    pub splash_lines: Seq<Seq<char>>,
    pub show_splash: bool,
}

/// The state of the interactive view.
pub struct App {
    /// Complete retained history; filtering never removes records from here.
    pub events: Vec<Output>,
    /// Indices into `events` that match the display filter.
    pub visible: Vec<usize>,
    /// Index into `visible` of the topmost shown record (the scroll anchor).
    pub scroll: usize,
    /// Keep the newest record in view.
    pub follow: bool,
    /// Wrap long lines to the viewport width.
    pub wrap: bool,
    /// Draw structured records as tables.
    pub rich: bool,
    pub mode: String,
    /// All-time peak messages per second, a chart scale that only ever grows.
    pub peak_msgs_in: u64,
    pub peak_msgs_out: u64,
    pub filter: DisplayFilter,
    pub filter_text: String,
    pub filter_error: Option<String>,
    pub filter_editing: bool,
    /// The filter text when the editor opened, which cancelling restores.
    pub filter_snapshot: String,
    pub search_editing: bool,
    /// Not empty while a search is active.
    pub search_text: String,
    pub command_editing: bool,
    pub command_text: String,
    /// What the last command came to, and whether that is an error.
    pub command_notice: Option<(String, bool)>,
    /// Recent status lines, for the startup splash.
    pub status_tail: Vec<String>,
    /// The fatal failure of the traffic source.
    pub source_error: Option<String>,
    /// The file being replayed, which must not be overwritten.
    pub replay_source: Option<String>,
    /// False once a saved session has replaced the live view.
    pub accept_source_records: bool,
    /// Whether records are written to a session file before they are filtered or evicted.
    pub recording: bool,
    /// How many records are no longer retained.
    pub dropped_events: usize,
    /// What the startup splash says of the traffic source.
    pub splash_lines: Vec<String>,
    /// Whether the startup splash is still shown.
    pub show_splash: bool,
}

impl View for App {
    type V = AppView;

    open spec fn view(&self) -> AppView {
        AppView {
            events: output_views(self.events@),
            scroll: self.scroll,
            follow: self.follow,
            wrap: self.wrap,
            rich: self.rich,
            mode: self.mode@,
            peak_msgs_in: self.peak_msgs_in,
            peak_msgs_out: self.peak_msgs_out,
            filter: self.filter@,
            filter_text: self.filter_text@,
            filter_error: opt_text(self.filter_error),
            filter_editing: self.filter_editing,
            filter_snapshot: self.filter_snapshot@,
            search_editing: self.search_editing,
            search_text: self.search_text@,
            command_editing: self.command_editing,
            command_text: self.command_text@,
            command_notice: opt_notice(self.command_notice),
            status_tail: texts(self.status_tail@),
            source_error: opt_text(self.source_error),
            replay_source: opt_text(self.replay_source),
            accept_source_records: self.accept_source_records,
            recording: self.recording,
            dropped_events: self.dropped_events,
            splash_lines: texts(self.splash_lines@),
            show_splash: self.show_splash,
        }
    }
}

impl App {
    /// The shown records are exactly those that the filter lets through.
    pub open spec fn wf(&self) -> bool {
        self.visible@ == shown(output_views(self.events@), self.filter@)
    }
}

/// The last `n` of a list.
pub open spec fn newest<A>(s: Seq<A>, n: int) -> Seq<A> {
    if s.len() <= n {
        s
    } else {
        s.skip(s.len() - n)
    }
}

pub open spec fn sat_add(a: usize, b: nat) -> usize {
    if a + b > usize::MAX {
        usize::MAX
    } else {
        (a + b) as usize
    }
}

pub open spec fn sat_sub(a: usize, b: nat) -> usize {
    if b > a {
        0
    } else {
        (a - b) as usize
    }
}

/// The state with the oldest records beyond the cap evicted. The anchor keeps its record
/// where that is still there.
pub open spec fn trimmed_history(a: AppView) -> AppView {
    if a.events.len() <= HISTORY_CAP {
        a
    } else {
        let drop_n = a.events.len() - HISTORY_CAP;
        AppView {
            events: a.events.skip(drop_n),
            dropped_events: sat_add(a.dropped_events, drop_n as nat),
            scroll: sat_sub(a.scroll, shown(a.events.take(drop_n), a.filter).len()),
            ..a
        }
    }
}

/// The state with a record added to the history, untrimmed.
pub open spec fn appended(a: AppView, o: OutputView) -> AppView {
    AppView {
        events: a.events.push(o),
        status_tail: match o {
            OutputView::Status(line) => newest(a.status_tail.push(line), STATUS_TAIL_CAP as int),
            _ => a.status_tail,
        },
        ..a
    }
}

/// The state after a record has come.
pub open spec fn pushed(a: AppView, o: OutputView) -> AppView {
    let b = appended(a, o);
    if b.events.len() >= HISTORY_CAP + HISTORY_TRIM_CHUNK {
        trimmed_history(b)
    } else {
        b
    }
}

/// The state after the traffic source has sent a record: once a saved session has
/// replaced the live view, it is discarded.
pub open spec fn received(a: AppView, o: OutputView) -> AppView {
    if a.accept_source_records {
        pushed(a, o)
    } else {
        a
    }
}

/// Whether a record goes to the session file: it does exactly while recording is on, whatever
/// the filter.
pub open spec fn recorded(a: AppView, o: OutputView, r: Option<StoredRecord>) -> bool {
    match r {
        Some(record) => a.recording && exists|now: Seq<char>| record@ == #[trigger] stored(o, now),
        None => !a.recording,
    }
}

/// The state once the retained records are in a session file and further ones go there.
pub open spec fn recording_begun(a: AppView) -> AppView {
    AppView { recording: true, ..a }
}

/// The state once a record could not be written.
pub open spec fn recording_ended(a: AppView, error: Seq<char>) -> AppView {
    AppView {
        recording: false,
        command_notice: Some(("recording stopped: "@ + error, true)),
        ..a
    }
}

/// How a filter error is shown.
pub open spec fn complaint_text(c: Complaint) -> Seq<char> {
    c.message + " at byte "@ + dec(c.position)
}

/// The state with the filter text applied; where it does not parse, the filter in force
/// stays and the error is noted.
pub open spec fn filter_applied(a: AppView) -> AppView {
    match filter_of(a.filter_text) {
        Ok(f) => AppView { filter: f, filter_error: None, scroll: 0, ..a },
        Err(c) => AppView { filter_error: Some(complaint_text(c)), ..a },
    }
}

/// The state without a filter.
pub open spec fn filter_cleared(a: AppView) -> AppView {
    AppView { filter_text: seq![], filter: no_filter(), filter_error: None, scroll: 0, ..a }
}

/// The state with the error of the filter text noted, and no filter applied.
pub open spec fn filter_previewed(a: AppView) -> AppView {
    AppView {
        filter_error: match filter_of(a.filter_text) {
            Ok(_) => None,
            Err(c) => Some(complaint_text(c)),
        },
        ..a
    }
}

/// The shown lines in lower case.
pub open spec fn lowered_lines(a: AppView) -> Seq<Seq<char>> {
    shown(a.events, a.filter).map_values(
        |i: usize| lowercase(rendered_text(a.events[i as int])),
    )
}

/// The positions among the shown records that the search finds, whatever the case.
pub open spec fn search_hits(a: AppView) -> Seq<usize> {
    if a.search_text.len() == 0 {
        seq![]
    } else {
        hits(lowered_lines(a), lowercase(a.search_text))
    }
}

/// The state after a jump to a search match.
pub open spec fn jumped(a: AppView, forward: bool, include_current: bool) -> AppView {
    match jump_target(search_hits(a), a.scroll, forward, include_current) {
        Some(target) => AppView { scroll: target, follow: false, ..a },
        None => a,
    }
}

/// The state with the splash left, where a connection has been seen or the source failed.
pub open spec fn splash_left(a: AppView, conns_opened: u64) -> AppView {
    AppView {
        show_splash: a.show_splash && conns_opened == 0 && a.source_error is None,
        ..a
    }
}

/// The rows that the records have in a terminal: what the metrics, the footer and the
/// borders leave, but at least one.
pub open spec fn log_rows(term_h: u16) -> usize {
    if term_h > 11 {
        (term_h - 10) as usize
    } else {
        1
    }
}

/// The highest rate of incoming messages, seen before or sampled.
pub open spec fn peak_in(rates: Seq<RateSample>, before: u64) -> u64
    decreases rates.len(),
{
    if rates.len() == 0 {
        before
    } else {
        let peak = peak_in(rates.drop_last(), before);
        if rates.last().msgs_in > peak {
            rates.last().msgs_in
        } else {
            peak
        }
    }
}

/// The highest rate of outgoing messages, seen before or sampled.
pub open spec fn peak_out(rates: Seq<RateSample>, before: u64) -> u64
    decreases rates.len(),
{
    if rates.len() == 0 {
        before
    } else {
        let peak = peak_out(rates.drop_last(), before);
        if rates.last().msgs_out > peak {
            rates.last().msgs_out
        } else {
            peak
        }
    }
}

/// The highest anchor: where a record may take several rows, the last record; otherwise
/// the one from which the view is just full.
pub open spec fn max_scroll(a: AppView, log_h: usize) -> usize {
    let n = shown(a.events, a.filter).len() as usize;
    if a.wrap || a.rich {
        sat_sub(n, 1)
    } else {
        sat_sub(n, log_h as nat)
    }
}

/// The state at the start of a frame.
pub open spec fn frame_begun(
    a: AppView,
    term_h: u16,
    conns_opened: u64,
    rates: Seq<RateSample>,
) -> AppView {
    let limit = max_scroll(a, log_rows(term_h));
    AppView {
        scroll: if a.follow || a.scroll > limit {
            limit
        } else {
            a.scroll
        },
        peak_msgs_in: peak_in(rates, a.peak_msgs_in),
        peak_msgs_out: peak_out(rates, a.peak_msgs_out),
        ..splash_left(a, conns_opened)
    }
}

/// The work that a command asks for.
pub open spec fn opt_command(c: Option<Command<String>>) -> Option<Command<Seq<char>>> {
    match c {
        Some(c) => Some(c@),
        None => None,
    }
}

/// The state after the command bar's text has been run, and the work that it asks for.
pub open spec fn command_run(a: AppView) -> (AppView, Option<Command<Seq<char>>>) {
    let closed = AppView { command_editing: false, ..a };
    match command_of(a.command_text) {
        Ok(c) => (closed, Some(c)),
        Err(message) => (AppView { command_notice: Some((message, true)), ..closed }, None),
    }
}

/// What is said once the retained records are written.
pub open spec fn recorded_text(a: AppView, path: Seq<char>) -> Seq<char> {
    let action = if a.accept_source_records {
        "recording "@ + dec(a.events.len()) + " retained events + future traffic"@
    } else {
        "saved "@ + dec(a.events.len()) + " retained replay events"@
    };
    action + " to "@ + path + if a.dropped_events == 0 {
        ""@
    } else {
        "; "@ + dec(a.dropped_events as nat) + " earlier events were outside history"@
    }
}

/// What is said once a session is shown.
pub open spec fn opened_text(count: nat, dropped: nat, path: Seq<char>) -> Seq<char> {
    if dropped == 0 {
        "opened "@ + dec(count) + " events from "@ + path
    } else {
        "opened newest "@ + dec(count) + " events from "@ + path + "; "@ + dec(dropped)
            + " earlier events are outside history"@
    }
}

/// The state that shows a saved session.
pub open spec fn session_opened(a: AppView, outputs: Seq<OutputView>, dropped: usize) -> AppView {
    AppView {
        events: outputs,
        scroll: 0,
        follow: true,
        mode: "replay"@,
        peak_msgs_in: 0,
        peak_msgs_out: 0,
        show_splash: false,
        accept_source_records: false,
        recording: false,
        dropped_events: dropped,
        ..a
    }
}

/// A key, as far as the view knows it.
#[derive(Clone, Copy, PartialEq, Eq, Structural, Debug)]
pub enum Key {
    Char(char),
    Enter,
    Esc,
    Backspace,
    Up,
    Down,
    PageUp,
    PageDown,
    Home,
    End,
    Other,
}

/// A key and whether the control key was held.
#[derive(Clone, Copy, PartialEq, Eq, Structural, Debug)]
pub struct KeyPress {
    pub key: Key,
    pub ctrl: bool,
}

/// What follows a key. `T` is a path as it was typed.
#[derive(Clone, Debug)]
pub enum Outcome<T> {
    Continue,
    Quit,
    /// Do the work of a command and report what it came to.
    Run(Command<T>),
}

impl View for Outcome<String> {
    type V = Outcome<Seq<char>>;

    open spec fn view(&self) -> Outcome<Seq<char>> {
        match *self {
            Outcome::Continue => Outcome::Continue,
            Outcome::Quit => Outcome::Quit,
            Outcome::Run(c) => Outcome::Run(c@),
        }
    }
}

/// A text without its last character.
pub open spec fn shorter(s: Seq<char>) -> Seq<char> {
    if s.len() == 0 {
        s
    } else {
        s.drop_last()
    }
}

/// Whether a key press cancels what is being edited.
pub open spec fn cancels(k: KeyPress) -> bool {
    k.key == Key::Esc || (k.key == Key::Char('c') && k.ctrl)
}

/// A text after a key press in its editor.
pub open spec fn edited(s: Seq<char>, k: KeyPress) -> Seq<char> {
    match k.key {
        Key::Backspace => shorter(s),
        Key::Char(c) => if k.ctrl {
            s
        } else {
            s.push(c)
        },
        _ => s,
    }
}

/// Whether a key press edits the text.
pub open spec fn edits(k: KeyPress) -> bool {
    k.key == Key::Backspace || (k.key is Char && !k.ctrl)
}

/// The state with the command bar open and empty.
pub open spec fn command_bar_opened(a: AppView) -> AppView {
    AppView { command_editing: true, command_text: seq![], command_notice: None, ..a }
}

/// A key press in the command bar.
pub open spec fn command_step(a: AppView, k: KeyPress) -> (AppView, Outcome<Seq<char>>) {
    if cancels(k) {
        (AppView { command_editing: false, command_text: seq![], ..a }, Outcome::Continue)
    } else if k.key == Key::Enter {
        (
            command_run(a).0,
            match command_run(a).1 {
                Some(c) => Outcome::Run(c),
                None => Outcome::Continue,
            },
        )
    } else {
        (AppView { command_text: edited(a.command_text, k), ..a }, Outcome::Continue)
    }
}

/// A key press in the search editor.
pub open spec fn search_step(a: AppView, k: KeyPress) -> AppView {
    if cancels(k) {
        AppView { search_editing: false, search_text: seq![], ..a }
    } else if k.key == Key::Enter {
        jumped(AppView { search_editing: false, ..a }, true, true)
    } else {
        AppView { search_text: edited(a.search_text, k), ..a }
    }
}

/// A key press on the splash.
pub open spec fn splash_step(a: AppView, k: KeyPress) -> (AppView, Outcome<Seq<char>>) {
    if k.key == Key::Char('q') {
        (a, Outcome::Quit)
    } else if k.key == Key::Char('/') || k.key == Key::Char(':') {
        (command_bar_opened(a), Outcome::Continue)
    } else {
        (a, Outcome::Continue)
    }
}

/// The state with the filter text as it was when the editor opened.
pub open spec fn filter_edit_cancelled(a: AppView) -> AppView {
    AppView {
        filter_text: a.filter_snapshot,
        filter_snapshot: seq![],
        filter_error: None,
        filter_editing: false,
        ..a
    }
}

/// A key press in the filter editor.
pub open spec fn filter_step(a: AppView, k: KeyPress) -> AppView {
    if cancels(k) {
        filter_edit_cancelled(a)
    } else if k.key == Key::Enter {
        if a.filter_error is None {
            AppView { filter_editing: false, ..filter_applied(a) }
        } else {
            a
        }
    } else if edits(k) {
        filter_previewed(AppView { filter_text: edited(a.filter_text, k), ..a })
    } else {
        a
    }
}

/// The state with the history forgotten.
pub open spec fn history_cleared(a: AppView) -> AppView {
    AppView {
        dropped_events: sat_add(a.dropped_events, a.events.len()),
        events: seq![],
        scroll: 0,
        ..a
    }
}

/// Whether a key moves the anchor.
pub open spec fn moves(key: Key) -> bool {
    ||| key == Key::Char('j')
    ||| key == Key::Down
    ||| key == Key::Char('k')
    ||| key == Key::Up
    ||| key == Key::PageDown
    ||| key == Key::PageUp
    ||| key == Key::Char('G')
    ||| key == Key::End
    ||| key == Key::Char('g')
    ||| key == Key::Home
}

/// The state after a key that moves the anchor: all but the last end following.
pub open spec fn moved(a: AppView, log_h: usize, key: Key) -> AppView {
    if key == Key::Char('G') || key == Key::End {
        AppView { follow: true, ..a }
    } else {
        AppView {
            follow: false,
            scroll: if key == Key::Char('j') || key == Key::Down {
                sat_add(a.scroll, 1)
            } else if key == Key::Char('k') || key == Key::Up {
                sat_sub(a.scroll, 1)
            } else if key == Key::PageDown {
                sat_add(a.scroll, log_h as nat)
            } else if key == Key::PageUp {
                sat_sub(a.scroll, log_h as nat)
            } else {
                0
            },
            ..a
        }
    }
}

/// A key press while nothing is edited.
pub open spec fn normal_step(a: AppView, log_h: usize, key: Key) -> AppView {
    if moves(key) {
        moved(a, log_h, key)
    } else if key == Key::Char('f') {
        AppView { follow: !a.follow, ..a }
    } else if key == Key::Char('w') {
        AppView { wrap: !a.wrap, ..a }
    } else if key == Key::Char('r') {
        AppView { rich: !a.rich, ..a }
    } else if key == Key::Char('n') {
        jumped(a, true, false)
    } else if key == Key::Char('N') {
        jumped(a, false, false)
    } else if key == Key::Char('c') {
        history_cleared(a)
    } else if key == Key::Char('y') {
        AppView { filter_snapshot: a.filter_text, filter_editing: true, ..a }
    } else if key == Key::Char('/') {
        AppView { search_editing: true, search_text: seq![], ..a }
    } else if key == Key::Char(':') {
        command_bar_opened(a)
    } else if key == Key::Esc && a.search_text.len() > 0 {
        AppView { search_text: seq![], ..a }
    } else if key == Key::Esc && a.filter.formula is Some {
        filter_cleared(a)
    } else {
        a
    }
}

/// What a key press does. While a text is edited the control key and `c` cancel the
/// edit; otherwise they quit.
pub open spec fn key_step(a: AppView, log_h: usize, k: KeyPress) -> (
    AppView,
    Outcome<Seq<char>>,
) {
    let editing = a.command_editing || a.filter_editing || a.search_editing;
    if k.key == Key::Char('c') && k.ctrl && !editing {
        (a, Outcome::Quit)
    } else if a.command_editing {
        command_step(a, k)
    } else if a.search_editing {
        (search_step(a, k), Outcome::Continue)
    } else if a.show_splash {
        splash_step(a, k)
    } else if a.filter_editing {
        (filter_step(a, k), Outcome::Continue)
    } else {
        let b = AppView { command_notice: None, ..a };
        if k.key == Key::Char('q') {
            (b, Outcome::Quit)
        } else {
            (normal_step(b, log_h, k.key), Outcome::Continue)
        }
    }
}

// --- lemmas on what is shown ---------------------------------------------------------------------

/// Every shown index is that of a record the filter lets through, and they ascend.
pub proof fn shown_in_range(events: Seq<OutputView>, f: FilterView)
    requires
        events.len() <= usize::MAX,
    ensures
        shown(events, f).len() <= events.len(),
        crate::search::ascending(shown(events, f)),
        forall|i: int|
            0 <= i < shown(events, f).len() ==> (#[trigger] shown(events, f)[i]) < events.len()
                && displayed(events[shown(events, f)[i] as int], f),
    decreases events.len(),
{
    if events.len() > 0 {
        let rest = events.drop_last();
        shown_in_range(rest, f);
        let before = shown(rest, f);
        let all = shown(events, f);
        assert forall|i: int| 0 <= i < all.len() implies (#[trigger] all[i]) < events.len()
            && displayed(events[all[i] as int], f) by {
            if i < before.len() {
                assert(all[i] == before[i]);
                assert(rest[all[i] as int] == events[all[i] as int]);
            }
        }
    }
}

/// What is shown of a history splits where the history is split.
proof fn shown_splits(events: Seq<OutputView>, f: FilterView, at: int)
    requires
        0 <= at <= events.len() <= usize::MAX,
    ensures
        shown(events, f) == shown(events.take(at), f) + shown(events.skip(at), f).map_values(
            |i: usize| (i + at) as usize,
        ),
    decreases events.len(),
{
    let head = shown(events.take(at), f);
    let shift = |i: usize| (i + at) as usize;
    if at == events.len() {
        assert(events.take(at) =~= events);
        assert(events.skip(at) =~= seq![]);
        assert(shown(events, f) =~= head + shown(events.skip(at), f).map_values(shift));
    } else {
        let rest = events.drop_last();
        shown_splits(rest, f, at);
        assert(rest.take(at) =~= events.take(at));
        assert(events.skip(at).drop_last() =~= rest.skip(at));
        assert(events.skip(at).last() == events.last());
        assert(shown(events, f) =~= head + shown(events.skip(at), f).map_values(shift));
    }
}

impl App {
    /// A fresh view. Without splash content there is no splash.
    pub fn new(
        mode: &str,
        rich: bool,
        filter: DisplayFilter,
        splash_lines: Vec<String>,
    ) -> (app: App)
        ensures
            app.wf(),
            app@ == (AppView {
                events: seq![],
                scroll: 0,
                follow: true,
                wrap: false,
                rich,
                mode: mode@,
                peak_msgs_in: 0,
                peak_msgs_out: 0,
                filter: filter@,
                filter_text: filter@.expression,
                filter_error: None,
                filter_editing: false,
                filter_snapshot: seq![],
                search_editing: false,
                search_text: seq![],
                command_editing: false,
                command_text: seq![],
                command_notice: None,
                status_tail: seq![],
                source_error: None,
                replay_source: None,
                accept_source_records: true,
                recording: false,
                dropped_events: 0,
                splash_lines: texts(splash_lines@),
                show_splash: splash_lines@.len() > 0,
            }),
    {
        let filter_text = filter.expression().to_owned();
        let show_splash = splash_lines.len() > 0;
        let app = App {
            events: Vec::new(),
            visible: Vec::new(),
            scroll: 0,
            follow: true,
            wrap: false,
            rich,
            mode: mode.to_owned(),
            peak_msgs_in: 0,
            peak_msgs_out: 0,
            filter,
            filter_text,
            filter_error: None,
            filter_editing: false,
            filter_snapshot: String::new(),
            search_editing: false,
            search_text: String::new(),
            command_editing: false,
            command_text: String::new(),
            command_notice: None,
            status_tail: Vec::new(),
            source_error: None,
            replay_source: None,
            accept_source_records: true,
            recording: false,
            dropped_events: 0,
            splash_lines,
            show_splash,
        };
        assert(app@.events =~= seq![]);
        assert(app@.status_tail =~= seq![]);
        assert(app@.filter_snapshot =~= seq![]);
        assert(app@.search_text =~= seq![]);
        assert(app@.command_text =~= seq![]);
        app
    }

    /// Keeps the tail of the status lines, so that the splash can show them.
    fn note_status(&mut self, output: &Output)
        ensures
            final(self)@ == (AppView {
                status_tail: appended(old(self)@, output@).status_tail,
                ..old(self)@
            }),
            final(self).visible == old(self).visible,
            final(self).events == old(self).events,
    {
        if let Output::Status(line) = output {
            let ghost before = self.status_tail@;
            self.status_tail.push(line.clone());
            assert(texts(self.status_tail@) =~= texts(before).push(line@));
            let len: usize = self.status_tail.len();
            if len > STATUS_TAIL_CAP {
                let ghost full = self.status_tail@;
                let tail = self.status_tail.split_off(len - STATUS_TAIL_CAP);
                self.status_tail = tail;
                assert(texts(self.status_tail@) =~= texts(full).skip(len - STATUS_TAIL_CAP));
            }
        }
        assert(self@ =~= AppView {
            status_tail: appended(old(self)@, output@).status_tail,
            ..old(self)@
        });
    }

    /// Takes a record into the history. Returns what is to be written to the session file,
    /// while recording is on; where that fails, [`App::recording_stopped`] is to be told.
    pub fn push_output(&mut self, output: Output) -> (r: Option<StoredRecord>)
        requires
            old(self).wf(),
        ensures
            final(self)@ == pushed(old(self)@, output@),
            final(self).wf(),
            recorded(old(self)@, output@, r),
    {
        let record: Option<StoredRecord> = if self.recording {
            Some(StoredRecord::from_output(&output))
        } else {
            None
        };
        let ghost before = self@;
        self.note_status(&output);
        let index: usize = self.events.len();
        let ghost o = output@;
        let ghost events = self.events@;
        if output.matches_filter(&self.filter) {
            self.visible.push(index);
        }
        self.events.push(output);
        proof {
            let views = output_views(self.events@);
            assert(views =~= output_views(events).push(o));
            assert(views.drop_last() =~= output_views(events));
            assert(views.last() == o);
            assert(self@ =~= appended(before, o));
        }
        if self.events.len() >= HISTORY_CAP + HISTORY_TRIM_CHUNK {
            self.trim_history();
        }
        record
    }

    /// Takes a record of the traffic source, and returns what is to be written, as
    /// [`App::push_output`] does.
    pub fn receive(&mut self, record: Output) -> (r: Option<StoredRecord>)
        requires
            old(self).wf(),
        ensures
            final(self)@ == received(old(self)@, record@),
            final(self).wf(),
            if old(self)@.accept_source_records {
                recorded(old(self)@, record@, r)
            } else {
                r is None
            },
    {
        if self.accept_source_records {
            self.push_output(record)
        } else {
            None
        }
    }

    /// Evicts the oldest records down to the cap. The shown indices and the anchor move
    /// with the records, so that scrollback stays where it is.
    pub fn trim_history(&mut self)
        requires
            old(self).wf(),
        ensures
            final(self)@ == trimmed_history(old(self)@),
            final(self).wf(),
    {
        let len: usize = self.events.len();
        if len <= HISTORY_CAP {
            return;
        }
        let drop_n: usize = len - HISTORY_CAP;
        let ghost before = self@;
        let ghost f = self.filter@;
        let ghost head = shown(before.events.take(drop_n as int), f);
        let ghost tail = shown(before.events.skip(drop_n as int), f);
        let ghost shift = |i: usize| (i + drop_n as int) as usize;
        proof {
            shown_splits(before.events, f, drop_n as int);
            shown_in_range(before.events.take(drop_n as int), f);
            shown_in_range(before.events.skip(drop_n as int), f);
            assert(self.visible@ == head + tail.map_values(shift));
        }
        let mut kept: Vec<usize> = Vec::new();
        let mut removed: usize = 0;
        let n: usize = self.visible.len();
        let mut k: usize = 0;
        while k < n
            invariant
                n == self.visible@.len(),
                k <= n,
                drop_n <= len,
                len == before.events.len(),
                self.visible@ == head + tail.map_values(shift),
                shift == (|i: usize| (i + drop_n as int) as usize),
                forall|i: int| 0 <= i < head.len() ==> (#[trigger] head[i]) < drop_n,
                forall|i: int| 0 <= i < tail.len() ==> (#[trigger] tail[i]) < len - drop_n,
                k <= head.len() ==> removed == k && kept@ =~= seq![],
                k > head.len() ==> removed == head.len() && kept@ =~= tail.take(k - head.len()),
            decreases n - k,
        {
            let i: usize = self.visible[k];
            if i < drop_n {
                proof {
                    if k >= head.len() {
                        let t = tail[k - head.len()];
                        assert(self.visible@[k as int] == shift(t));
                        assert(t < len - drop_n);
                        assert(false);
                    }
                }
                removed = removed + 1;
            } else {
                proof {
                    if k < head.len() {
                        assert(head[k as int] == i);
                        assert(false);
                    }
                    let t = tail[k - head.len()];
                    assert(self.visible@[k as int] == shift(t));
                    assert(t < len - drop_n);
                    assert(i - drop_n == t);
                    assert(tail.take(k - head.len()).push(t) =~= tail.take(k + 1 - head.len()));
                }
                kept.push(i - drop_n);
            }
            k = k + 1;
        }
        proof {
            assert(tail.take(tail.len() as int) =~= tail);
            if n <= head.len() {
                assert(tail.len() == 0);
                assert(tail =~= seq![]);
            }
            assert(removed == head.len());
            assert(kept@ == tail);
        }
        let rest = self.events.split_off(drop_n);
        self.events = rest;
        self.dropped_events = self.dropped_events.saturating_add(drop_n);
        self.visible = kept;
        self.scroll = self.scroll.saturating_sub(removed);
        proof {
            assert(output_views(self.events@) =~= before.events.skip(drop_n as int));
            assert(self@ =~= trimmed_history(before));
        }
    }

    /// Filters the whole history anew.
    fn rebuild_visible(&mut self)
        ensures
            final(self)@ == (AppView { scroll: 0, ..old(self)@ }),
            final(self).wf(),
    {
        let ghost before = self@;
        let ghost views = output_views(self.events@);
        let mut visible: Vec<usize> = Vec::new();
        let n: usize = self.events.len();
        assert(views.take(0) =~= seq![]);
        for i in 0..n
            invariant
                n == self.events@.len(),
                views == output_views(self.events@),
                visible@ == shown(views.take(i as int), self.filter@),
        {
            proof {
                let next = views.take(i + 1);
                assert(next.drop_last() =~= views.take(i as int));
                assert(next.last() == self.events@[i as int]@);
            }
            if self.events[i].matches_filter(&self.filter) {
                visible.push(i);
            }
        }
        assert(views.take(n as int) =~= views);
        self.visible = visible;
        self.scroll = 0;
        assert(self@ =~= AppView { scroll: 0, ..before });
    }

    /// Applies the filter text to the whole history.
    pub fn update_filter(&mut self)
        requires
            old(self).wf(),
        ensures
            final(self)@ == filter_applied(old(self)@),
            final(self).wf(),
    {
        let ghost before = self@;
        match DisplayFilter::parse(self.filter_text.as_str()) {
            Ok(filter) => {
                self.filter = filter;
                self.filter_error = None;
                self.rebuild_visible();
            },
            Err(error) => {
                self.filter_error = Some(error.to_text());
            },
        }
        assert(self@ =~= filter_applied(before));
    }

    /// Drops the filter.
    pub fn clear_filter(&mut self)
        ensures
            final(self)@ == filter_cleared(old(self)@),
            final(self).wf(),
    {
        let ghost before = self@;
        self.filter_text = String::new();
        self.filter = DisplayFilter::default();
        self.filter_error = None;
        self.rebuild_visible();
        assert(self@ =~= filter_cleared(before));
    }

    /// Parses the filter text while it is edited, for its error alone; the history is
    /// filtered anew only when the edit is applied.
    pub fn parse_filter_preview(&mut self)
        requires
            old(self).wf(),
        ensures
            final(self)@ == filter_previewed(old(self)@),
            final(self).wf(),
    {
        let ghost before = self@;
        self.filter_error = match DisplayFilter::parse(self.filter_text.as_str()) {
            Ok(_) => None,
            Err(error) => Some(error.to_text()),
        };
        assert(self@ =~= filter_previewed(before));
    }

    /// The positions among the shown records whose line holds the search text, whatever
    /// the case; none while no search is active.
    pub fn search_matches(&self) -> (found: Vec<usize>)
        requires
            self.wf(),
        ensures
            found@ == search_hits(self@),
    {
        let mut found: Vec<usize> = Vec::new();
        if self.search_text.as_str().is_empty() {
            return found;
        }
        let needle = self.search_text.as_str().to_lowercase();
        let ghost lines = lowered_lines(self@);
        let total: usize = self.events.len();
        proof {
            assert(self@.events.len() == total);
            shown_in_range(self@.events, self.filter@);
        }
        let n: usize = self.visible.len();
        assert(lines.take(0) =~= seq![]);
        for k in 0..n
            invariant
                n == self.visible@.len(),
                lines == lowered_lines(self@),
                self.wf(),
                forall|i: int|
                    0 <= i < self.visible@.len() ==> (#[trigger] self.visible@[i])
                        < self.events@.len(),
                found@ == hits(lines.take(k as int), needle@),
        {
            let text = self.events[self.visible[k]].rendered().to_lowercase();
            proof {
                let next = lines.take(k + 1);
                assert(next.drop_last() =~= lines.take(k as int));
                assert(next.last() == text@);
            }
            note_hit(&mut found, k, text.as_str(), needle.as_str());
        }
        assert(lines.take(n as int) =~= lines);
        found
    }

    /// Jumps to the next or the previous match relative to the anchor, round the end.
    pub fn jump_to_match(&mut self, forward: bool, include_current: bool)
        requires
            old(self).wf(),
        ensures
            final(self)@ == jumped(old(self)@, forward, include_current),
            final(self).wf(),
    {
        let ghost before = self@;
        let matches = self.search_matches();
        if let Some(target) = find_target(&matches, self.scroll, forward, include_current) {
            self.follow = false;
            self.scroll = target;
        }
        assert(self@ =~= jumped(before, forward, include_current));
    }

    /// Whether the traffic source reported a fatal error.
    pub fn source_failed(&self) -> (b: bool)
        ensures
            b == (self@.source_error is Some),
    {
        self.source_error.is_some()
    }

    /// Leaves the splash once a connection has been seen or the source has failed. Status
    /// lines come before any traffic and do not count.
    pub fn leave_splash_if_traffic(&mut self, conns_opened: u64)
        ensures
            final(self)@ == splash_left(old(self)@, conns_opened),
            old(self).wf() ==> final(self).wf(),
    {
        let ghost before = self@;
        if self.show_splash && (conns_opened > 0 || self.source_failed()) {
            self.show_splash = false;
        }
        assert(self@ =~= splash_left(before, conns_opened));
    }

    /// Prepares a frame for a terminal of `term_h` rows: leaves the splash where it is
    /// time, keeps the anchor in range and the chart scale at its peak. Returns how many
    /// rows the records have.
    #[verifier::rlimit(30)]
    pub fn begin_frame(&mut self, term_h: u16, summary: &MetricsSummary) -> (log_h: usize)
        requires
            old(self).wf(),
        ensures
            log_h == log_rows(term_h),
            final(self)@ == frame_begun(old(self)@, term_h, summary.conns_opened, summary.rates@),
            final(self).wf(),
    {
        let ghost before = self@;
        self.leave_splash_if_traffic(summary.conns_opened);
        let log_h: usize = if term_h > 11 {
            (term_h - 10) as usize
        } else {
            1
        };
        let room: usize = if self.wrap || self.rich {
            1
        } else {
            log_h
        };
        let max_scroll: usize = self.visible.len().saturating_sub(room);
        if self.follow || self.scroll > max_scroll {
            self.scroll = max_scroll;
        }
        let mut i: usize = 0;
        let n: usize = summary.rates.len();
        let ghost rates = summary.rates@;
        let ghost mid = self@;
        assert(rates.take(0) =~= seq![]);
        while i < n
            invariant
                i <= n == rates.len(),
                rates == summary.rates@,
                self@ =~= (AppView {
                    peak_msgs_in: peak_in(rates.take(i as int), before.peak_msgs_in),
                    peak_msgs_out: peak_out(rates.take(i as int), before.peak_msgs_out),
                    ..mid
                }),
                self.wf(),
            decreases n - i,
        {
            let r = &summary.rates[i];
            proof {
                assert(rates.take(i + 1).drop_last() =~= rates.take(i as int));
                assert(rates.take(i + 1).last() == r);
            }
            if r.msgs_in > self.peak_msgs_in {
                self.peak_msgs_in = r.msgs_in;
            }
            if r.msgs_out > self.peak_msgs_out {
                self.peak_msgs_out = r.msgs_out;
            }
            i = i + 1;
        }
        assert(rates.take(n as int) =~= rates);
        assert(self@ =~= frame_begun(before, term_h, summary.conns_opened, summary.rates@));
        log_h
    }

    // --- commands ---------------------------------------------------------------------

    /// Runs the command bar's text: returns the work on a file that it asks for, whose
    /// outcome [`App::finish_command`] takes, or notes what is wrong with it.
    pub fn execute_command(&mut self) -> (work: Option<Command<String>>)
        requires
            old(self).wf(),
        ensures
            final(self)@ == command_run(old(self)@).0,
            opt_command(work) == command_run(old(self)@).1,
            final(self).wf(),
    {
        let ghost before = self@;
        let work: Option<Command<String>> = match parse_command(self.command_text.as_str()) {
            Ok(c) => Some(c),
            Err(message) => {
                self.command_notice = Some((message, true));
                None
            },
        };
        self.command_editing = false;
        assert(self@ =~= command_run(before).0);
        work
    }

    /// Notes what the work of a command came to.
    pub fn finish_command(&mut self, outcome: Result<String, String>)
        requires
            old(self).wf(),
        ensures
            final(self)@ == (AppView {
                command_notice: Some(
                    match outcome {
                        Ok(message) => (message@, false),
                        Err(message) => (message@, true),
                    },
                ),
                ..old(self)@
            }),
            final(self).wf(),
    {
        let ghost before = self@;
        self.command_notice = Some(
            match outcome {
                Ok(message) => (message, false),
                Err(message) => (message, true),
            },
        );
        assert(self@ =~= AppView { command_notice: self@.command_notice, ..before });
    }

    /// Notes that a record could not be written, so that recording has stopped.
    pub fn recording_stopped(&mut self, error: &str)
        requires
            old(self).wf(),
        ensures
            final(self)@ == recording_ended(old(self)@, error@),
            final(self).wf(),
    {
        let ghost before = self@;
        self.recording = false;
        let mut s = String::new();
        s.append("recording stopped: ");
        s.append(error);
        assert(s@ =~= "recording stopped: "@ + error@);
        self.command_notice = Some((s, true));
        assert(self@ =~= recording_ended(before, error@));
    }

    /// Notes that the retained records are in the session file at `path`, and that further
    /// ones go there. Returns what is said of it.
    pub fn recording_started(&mut self, path: &str) -> (s: String)
        requires
            old(self).wf(),
        ensures
            final(self)@ == recording_begun(old(self)@),
            final(self).wf(),
            s@ == recorded_text(old(self)@, path@),
    {
        let ghost before = self@;
        let s = self.recorded_message(path);
        self.recording = true;
        assert(self@ =~= recording_begun(before));
        s
    }

    /// What is said once the retained records have been written to a file.
    pub fn recorded_message(&self, path: &str) -> (s: String)
        requires
            self.wf(),
        ensures
            s@ == recorded_text(self@, path@),
    {
        let mut s = String::new();
        let retained: usize = self.events.len();
        assert(self@.events.len() == retained);
        if self.accept_source_records {
            s.append("recording ");
            push_dec(&mut s, retained as u64);
            s.append(" retained events + future traffic");
        } else {
            s.append("saved ");
            push_dec(&mut s, retained as u64);
            s.append(" retained replay events");
        }
        s.append(" to ");
        s.append(path);
        if self.dropped_events != 0 {
            s.append("; ");
            push_dec(&mut s, self.dropped_events as u64);
            s.append(" earlier events were outside history");
        }
        proof {
            reveal_strlit("");
            assert(s@ =~= recorded_text(self@, path@));
        }
        s
    }

    /// Shows a saved session, read from `path`, in place of the live view; `dropped`
    /// earlier records of it are not among `outputs`. Returns what is said of it.
    pub fn open_session(&mut self, outputs: Vec<Output>, dropped: usize, path: &str) -> (s: String)
        ensures
            final(self)@ == session_opened(old(self)@, output_views(outputs@), dropped),
            final(self).wf(),
            s@ == opened_text(outputs@.len(), dropped as nat, path@),
    {
        let ghost before = self@;
        let count: usize = outputs.len();
        self.events = outputs;
        self.rebuild_visible();
        self.follow = true;
        self.mode = "replay".to_owned();
        self.peak_msgs_in = 0;
        self.peak_msgs_out = 0;
        self.show_splash = false;
        self.accept_source_records = false;
        self.recording = false;
        self.dropped_events = dropped;
        assert(self@ =~= session_opened(before, output_views(outputs@), dropped));
        let mut s = String::new();
        if dropped == 0 {
            s.append("opened ");
        } else {
            s.append("opened newest ");
        }
        push_dec(&mut s, count as u64);
        s.append(" events from ");
        s.append(path);
        if dropped != 0 {
            s.append("; ");
            push_dec(&mut s, dropped as u64);
            s.append(" earlier events are outside history");
        }
        assert(s@ =~= opened_text(count as nat, dropped as nat, path@));
        s
    }
}

// --- keys -----------------------------------------------------------------------------------

/// Handles one key in a view of `log_h` rows.
pub fn handle_key(app: &mut App, log_h: usize, press: KeyPress) -> (r: Outcome<String>)
    requires
        old(app).wf(),
    ensures
        final(app)@ == key_step(old(app)@, log_h, press).0,
        r@ == key_step(old(app)@, log_h, press).1,
        final(app).wf(),
{
    let ghost before = app@;
    let editing = app.command_editing || app.filter_editing || app.search_editing;
    if press.key == Key::Char('c') && press.ctrl && !editing {
        return Outcome::Quit;
    }
    if app.command_editing {
        return command_key(app, press);
    }
    if app.search_editing {
        search_key(app, press);
        return Outcome::Continue;
    }
    if app.show_splash {
        if press.key == Key::Char('q') {
            return Outcome::Quit;
        }
        if press.key == Key::Char('/') || press.key == Key::Char(':') {
            open_command_bar(app);
        }
        return Outcome::Continue;
    }
    if app.filter_editing {
        filter_key(app, press);
        return Outcome::Continue;
    }
    app.command_notice = None;
    assert(app@ =~= AppView { command_notice: None, ..before });
    if press.key == Key::Char('q') {
        return Outcome::Quit;
    }
    normal_key(app, log_h, press.key);
    Outcome::Continue
}

fn open_command_bar(app: &mut App)
    requires
        old(app).wf(),
    ensures
        final(app)@ == command_bar_opened(old(app)@),
        final(app).wf(),
{
    let ghost before = app@;
    app.command_editing = true;
    app.command_text = String::new();
    app.command_notice = None;
    assert(app@ =~= command_bar_opened(before));
}

fn command_key(app: &mut App, press: KeyPress) -> (r: Outcome<String>)
    requires
        old(app).wf(),
    ensures
        final(app)@ == command_step(old(app)@, press).0,
        r@ == command_step(old(app)@, press).1,
        final(app).wf(),
{
    let ghost before = app@;
    match press.key {
        Key::Enter => {
            return match app.execute_command() {
                Some(c) => Outcome::Run(c),
                None => Outcome::Continue,
            };
        },
        Key::Esc => {
            app.command_editing = false;
            app.command_text = String::new();
        },
        Key::Backspace => {
            let _ = app.command_text.pop();
        },
        Key::Char(c) => {
            if press.ctrl {
                if c == 'c' {
                    app.command_editing = false;
                    app.command_text = String::new();
                }
            } else {
                app.command_text.push(c);
            }
        },
        _ => {},
    }
    assert(app@ =~= command_step(before, press).0);
    Outcome::Continue
}

fn search_key(app: &mut App, press: KeyPress)
    requires
        old(app).wf(),
    ensures
        final(app)@ == search_step(old(app)@, press),
        final(app).wf(),
{
    let ghost before = app@;
    match press.key {
        Key::Enter => {
            app.search_editing = false;
            assert(app@ =~= AppView { search_editing: false, ..before });
            app.jump_to_match(true, true);
        },
        Key::Esc => {
            app.search_editing = false;
            app.search_text = String::new();
        },
        Key::Backspace => {
            let _ = app.search_text.pop();
        },
        Key::Char(c) => {
            if press.ctrl {
                if c == 'c' {
                    app.search_editing = false;
                    app.search_text = String::new();
                }
            } else {
                app.search_text.push(c);
            }
        },
        _ => {},
    }
    assert(app@ =~= search_step(before, press));
}

fn cancel_filter_edit(app: &mut App)
    requires
        old(app).wf(),
    ensures
        final(app)@ == filter_edit_cancelled(old(app)@),
        final(app).wf(),
{
    let ghost before = app@;
    app.filter_text = app.filter_snapshot.clone();
    app.filter_snapshot = String::new();
    app.filter_error = None;
    app.filter_editing = false;
    assert(app@ =~= filter_edit_cancelled(before));
}

fn filter_key(app: &mut App, press: KeyPress)
    requires
        old(app).wf(),
    ensures
        final(app)@ == filter_step(old(app)@, press),
        final(app).wf(),
{
    let ghost before = app@;
    match press.key {
        Key::Enter => {
            if app.filter_error.is_none() {
                app.update_filter();
                app.filter_editing = false;
            }
        },
        Key::Esc => {
            cancel_filter_edit(app);
        },
        Key::Backspace => {
            let _ = app.filter_text.pop();
            assert(app@ =~= AppView { filter_text: shorter(before.filter_text), ..before });
            app.parse_filter_preview();
        },
        Key::Char(c) => {
            if press.ctrl {
                if c == 'c' {
                    cancel_filter_edit(app);
                }
            } else {
                app.filter_text.push(c);
                assert(app@ =~= AppView { filter_text: before.filter_text.push(c), ..before });
                app.parse_filter_preview();
            }
        },
        _ => {},
    }
    assert(app@ =~= filter_step(before, press));
}

/// Forgets the history; what is forgotten counts as dropped.
fn clear_history(app: &mut App)
    requires
        old(app).wf(),
    ensures
        final(app)@ == history_cleared(old(app)@),
        final(app).wf(),
{
    let ghost before = app@;
    app.dropped_events = app.dropped_events.saturating_add(app.events.len());
    assert(before.events.len() == app.events@.len());
    app.events = Vec::new();
    app.visible = Vec::new();
    app.scroll = 0;
    assert(app@.events =~= seq![]);
    assert(app@ =~= history_cleared(before));
}

/// A key that moves the anchor.
fn move_key(app: &mut App, log_h: usize, key: Key)
    requires
        old(app).wf(),
        moves(key),
    ensures
        final(app)@ == moved(old(app)@, log_h, key),
        final(app).wf(),
{
    let ghost before = app@;
    if key == Key::Char('G') || key == Key::End {
        app.follow = true;
    } else {
        app.follow = false;
        if key == Key::Char('j') || key == Key::Down {
            app.scroll = app.scroll.saturating_add(1);
        } else if key == Key::Char('k') || key == Key::Up {
            app.scroll = app.scroll.saturating_sub(1);
        } else if key == Key::PageDown {
            app.scroll = app.scroll.saturating_add(log_h);
        } else if key == Key::PageUp {
            app.scroll = app.scroll.saturating_sub(log_h);
        } else {
            app.scroll = 0;
        }
    }
    assert(app@ =~= moved(before, log_h, key));
}

/// Whether a key moves the anchor.
fn is_move(key: Key) -> (b: bool)
    ensures
        b == moves(key),
{
    key == Key::Char('j') || key == Key::Down || key == Key::Char('k') || key == Key::Up || key
        == Key::PageDown || key == Key::PageUp || key == Key::Char('G') || key == Key::End || key
        == Key::Char('g') || key == Key::Home
}

fn normal_key(app: &mut App, log_h: usize, key: Key)
    requires
        old(app).wf(),
    ensures
        final(app)@ == normal_step(old(app)@, log_h, key),
        final(app).wf(),
{
    let ghost before = app@;
    if is_move(key) {
        move_key(app, log_h, key);
        return;
    }
    match key {
        Key::Char(c) => {
            if c == 'f' {
                app.follow = !app.follow;
            } else if c == 'w' {
                app.wrap = !app.wrap;
            } else if c == 'r' {
                app.rich = !app.rich;
            } else if c == 'n' {
                app.jump_to_match(true, false);
            } else if c == 'N' {
                app.jump_to_match(false, false);
            } else if c == 'c' {
                clear_history(app);
            } else if c == 'y' {
                app.filter_snapshot = app.filter_text.clone();
                app.filter_editing = true;
            } else if c == '/' {
                app.search_editing = true;
                app.search_text = String::new();
            } else if c == ':' {
                open_command_bar(app);
            }
        },
        Key::Esc => {
            if !app.search_text.as_str().is_empty() {
                app.search_text = String::new();
            } else if !app.filter.is_empty() {
                app.clear_filter();
            }
        },
        _ => {},
    }
    assert(app@ =~= normal_step(before, log_h, key));
}

// --- the splash -------------------------------------------------------------------------------

/// What the splash says of a passive capture.
pub open spec fn pcap_splash(opts: PcapOpts) -> Seq<Seq<char>> {
    seq![
        "capturing interface:  "@ + match opts.interface {
            Some(name) => name@,
            None => "lo (loopback, default)"@,
        },
        "monitoring port:      "@ + dec(opts.port as nat),
        "cleartext connections only"@,
    ]
}

/// Which interface is captured and which port is watched.
pub fn pcap_splash_lines(opts: &PcapOpts) -> (lines: Vec<String>)
    ensures
        texts(lines@) == pcap_splash(*opts),
{
    let mut iface = String::new();
    iface.append("capturing interface:  ");
    match &opts.interface {
        Some(name) => iface.append(name.as_str()),
        None => iface.append("lo (loopback, default)"),
    }
    let mut port = String::new();
    port.append("monitoring port:      ");
    push_dec(&mut port, opts.port as u64);
    let mut lines: Vec<String> = Vec::new();
    lines.push(iface);
    lines.push(port);
    lines.push("cleartext connections only".to_owned());
    proof {
        let want = pcap_splash(*opts);
        assert(iface@ =~= want[0]);
        assert(port@ =~= want[1]);
        assert(texts(lines@) =~= want);
    }
    lines
}

/// What the splash says of a proxy.
pub open spec fn mitm_splash(opts: ProxyOpts) -> Seq<Seq<char>> {
    seq![
        "point your client at:  "@ + opts.listen@,
        "forwarding to:         "@ + opts.upstream@,
        if opts.tls_cert is Some {
            "client TLS:  user-supplied certificate"@
        } else {
            "client TLS:  auto CA in "@ + opts.tls_dir@
        },
        if opts.no_upstream_tls {
            "upstream:     cleartext"@
        } else {
            "upstream:     TLS auto-negotiate"@
        },
    ]
}

/// Where to point the client, where it is forwarded to, and the TLS on each leg.
pub fn mitm_splash_lines(opts: &ProxyOpts) -> (lines: Vec<String>)
    ensures
        texts(lines@) == mitm_splash(*opts),
{
    let mut listen = String::new();
    listen.append("point your client at:  ");
    listen.append(opts.listen.as_str());
    let mut upstream = String::new();
    upstream.append("forwarding to:         ");
    upstream.append(opts.upstream.as_str());
    let mut client_tls = String::new();
    if opts.tls_cert.is_some() {
        client_tls.append("client TLS:  user-supplied certificate");
    } else {
        client_tls.append("client TLS:  auto CA in ");
        client_tls.append(opts.tls_dir.as_str());
    }
    let mut upstream_tls = String::new();
    if opts.no_upstream_tls {
        upstream_tls.append("upstream:     cleartext");
    } else {
        upstream_tls.append("upstream:     TLS auto-negotiate");
    }
    let mut lines: Vec<String> = Vec::new();
    lines.push(listen);
    lines.push(upstream);
    lines.push(client_tls);
    lines.push(upstream_tls);
    proof {
        let want = mitm_splash(*opts);
        assert(listen@ =~= want[0]);
        assert(upstream@ =~= want[1]);
        assert(client_tls@ =~= want[2]);
        assert(upstream_tls@ =~= want[3]);
        assert(texts(lines@) =~= want);
    }
    lines
}

/// What is said of a replayed session of which earlier records are not shown.
pub open spec fn replay_text(dropped: nat) -> Option<Seq<char>> {
    if dropped == 0 {
        None
    } else {
        Some(
            "replay: showing the newest "@ + dec(HISTORY_CAP as nat) + " records; "@ + dec(dropped)
                + " earlier records are outside TUI history"@,
        )
    }
}

pub fn replay_notice(dropped: usize) -> (s: Option<String>)
    ensures
        opt_text(s) == replay_text(dropped as nat),
{
    if dropped == 0 {
        return None;
    }
    let mut s = String::new();
    s.append("replay: showing the newest ");
    push_dec(&mut s, HISTORY_CAP as u64);
    s.append(" records; ");
    push_dec(&mut s, dropped as u64);
    s.append(" earlier records are outside TUI history");
    assert(s@ =~= replay_text(dropped as nat)->0);
    Some(s)
}

// --- laws ---------------------------------------------------------------------------------------

/// Every shown record passes the filter, and every record that passes it is shown.
pub proof fn shown_are_exactly_the_matches(events: Seq<OutputView>, f: FilterView)
    requires
        events.len() <= usize::MAX,
    ensures
        crate::search::ascending(shown(events, f)),
        forall|i: int|
            0 <= i < shown(events, f).len() ==> displayed(
                events[(#[trigger] shown(events, f)[i]) as int],
                f,
            ),
        forall|k: int|
            0 <= k < events.len() && displayed(#[trigger] events[k], f) ==> shown(
                events,
                f,
            ).contains(k as usize),
    decreases events.len(),
{
    shown_in_range(events, f);
    if events.len() > 0 {
        let rest = events.drop_last();
        let before = shown(rest, f);
        let all = shown(events, f);
        shown_are_exactly_the_matches(rest, f);
        assert forall|k: int| 0 <= k < events.len() && displayed(
            #[trigger] events[k],
            f,
        ) implies all.contains(k as usize) by {
            if k < rest.len() {
                assert(rest[k] == events[k]);
                let j = choose|j: int| 0 <= j < before.len() && before[j] == k as usize;
                assert(all[j] == k as usize);
            } else {
                assert(all.last() == k as usize);
            }
        }
    }
}

/// Filtering never removes a record: no change of the filter touches the history.
pub proof fn filtering_keeps_the_history(a: AppView)
    ensures
        filter_applied(a).events == a.events,
        filter_cleared(a).events == a.events,
        filter_previewed(a).events == a.events,
        filter_previewed(a).filter == a.filter,
{
}

/// An edit that does not parse leaves the last valid filter, and what it shows, as it was.
pub proof fn invalid_edit_keeps_the_filter(a: AppView)
    requires
        filter_of(a.filter_text) is Err,
    ensures
        filter_applied(a).filter == a.filter,
        filter_applied(a).scroll == a.scroll,
        filter_applied(a).filter_error is Some,
{
}

/// A trimmed history holds the newest records, and its length and what was dropped add
/// up to what there was.
pub proof fn trimming_keeps_the_newest(a: AppView)
    ensures
        trimmed_history(a).events == newest(a.events, HISTORY_CAP as int),
        a.dropped_events + a.events.len() <= usize::MAX ==> trimmed_history(a).dropped_events
            + trimmed_history(a).events.len() == a.dropped_events + a.events.len(),
{
}

/// Trimming leaves the anchor on the record it was on, where that is retained.
pub proof fn trimming_keeps_the_anchor(a: AppView)
    requires
        a.events.len() <= usize::MAX,
        a.scroll < shown(a.events, a.filter).len(),
        shown(a.events, a.filter)[a.scroll as int] >= a.events.len() - newest(
            a.events,
            HISTORY_CAP as int,
        ).len(),
    ensures
        ({
            let b = trimmed_history(a);
            let after = shown(b.events, b.filter);
            &&& b.scroll < after.len()
            &&& b.events[after[b.scroll as int] as int] == a.events[shown(
                a.events,
                a.filter,
            )[a.scroll as int] as int]
        }),
{
    if a.events.len() > HISTORY_CAP {
        let drop_n = a.events.len() - HISTORY_CAP;
        let head = shown(a.events.take(drop_n), a.filter);
        let tail = shown(a.events.skip(drop_n), a.filter);
        shown_splits(a.events, a.filter, drop_n);
        shown_in_range(a.events.take(drop_n), a.filter);
        shown_in_range(a.events.skip(drop_n), a.filter);
        let shift = |i: usize| (i + drop_n) as usize;
        let all = shown(a.events, a.filter);
        if a.scroll < head.len() {
            assert(all[a.scroll as int] == head[a.scroll as int]);
        } else {
            let t = tail[a.scroll - head.len()];
            assert(all[a.scroll as int] == shift(t));
            assert(a.events.skip(drop_n)[t as int] == a.events[t + drop_n]);
        }
    }
}

/// The history is bounded, however many records come.
pub proof fn history_is_bounded(a: AppView, o: OutputView)
    requires
        a.events.len() < HISTORY_CAP + HISTORY_TRIM_CHUNK,
    ensures
        pushed(a, o).events.len() < HISTORY_CAP + HISTORY_TRIM_CHUNK,
        pushed(a, o).events.len() > 0,
        pushed(a, o).events.last() == o,
{
}

/// The splash keeps the newest status lines, and no more than its cap.
pub proof fn status_tail_is_bounded(a: AppView, o: OutputView)
    requires
        a.status_tail.len() <= STATUS_TAIL_CAP,
    ensures
        pushed(a, o).status_tail.len() <= STATUS_TAIL_CAP,
        o matches OutputView::Status(line) ==> pushed(a, o).status_tail.len() > 0 && pushed(
            a,
            o,
        ).status_tail.last() == line,
{
}

/// Opening the filter editor, typing anything and cancelling restores the filter text
/// and leaves the filter in force.
pub proof fn cancelled_edit_restores_the_filter(a: AppView, log_h: usize, keys: Seq<KeyPress>)
    requires
        !a.command_editing,
        !a.search_editing,
        !a.show_splash,
        !a.filter_editing,
        forall|i: int| 0 <= i < keys.len() ==> edits(#[trigger] keys[i]),
    ensures
        ({
            let opened = key_step(a, log_h, KeyPress { key: Key::Char('y'), ctrl: false }).0;
            let typed = keyed(opened, log_h, keys);
            let back = key_step(typed, log_h, KeyPress { key: Key::Esc, ctrl: false }).0;
            &&& back.filter_text == a.filter_text
            &&& back.filter == a.filter
            &&& back.events == a.events
            &&& back.scroll == a.scroll
            &&& !back.filter_editing
        }),
{
    let opened = key_step(a, log_h, KeyPress { key: Key::Char('y'), ctrl: false }).0;
    typing_changes_the_text_alone(opened, log_h, keys);
}

/// The state after some key presses.
pub open spec fn keyed(a: AppView, log_h: usize, keys: Seq<KeyPress>) -> AppView
    decreases keys.len(),
{
    if keys.len() == 0 {
        a
    } else {
        key_step(keyed(a, log_h, keys.drop_last()), log_h, keys.last()).0
    }
}

/// Typing in the filter editor filters nothing yet: it changes the text and its error.
pub proof fn typing_changes_the_text_alone(a: AppView, log_h: usize, keys: Seq<KeyPress>)
    requires
        !a.command_editing,
        !a.search_editing,
        !a.show_splash,
        a.filter_editing,
        forall|i: int| 0 <= i < keys.len() ==> edits(#[trigger] keys[i]),
    ensures
        ({
            let b = keyed(a, log_h, keys);
            b == AppView { filter_text: b.filter_text, filter_error: b.filter_error, ..a }
        }),
    decreases keys.len(),
{
    if keys.len() > 0 {
        assert forall|i: int| 0 <= i < keys.drop_last().len() implies edits(
            #[trigger] keys.drop_last()[i],
        ) by {
            assert(keys.drop_last()[i] == keys[i]);
        }
        typing_changes_the_text_alone(a, log_h, keys.drop_last());
        assert(edits(keys[keys.len() - 1]));
    }
}

/// While a text is edited no key quits: the control key and `c` only cancel the edit.
pub proof fn editing_never_quits(a: AppView, log_h: usize, k: KeyPress)
    requires
        a.command_editing || a.search_editing || (a.filter_editing && !a.show_splash),
    ensures
        !(key_step(a, log_h, k).1 is Quit),
        k.key == Key::Char('c') && k.ctrl ==> ({
            let b = key_step(a, log_h, k).0;
            if a.command_editing {
                !b.command_editing && b.command_text.len() == 0
            } else if a.search_editing {
                !b.search_editing && b.search_text.len() == 0
            } else {
                !b.filter_editing && b.filter_text == a.filter_snapshot
            }
        }),
{
}

/// Clearing the history counts what it forgets, so that what is retained and what is
/// dropped still add up.
pub proof fn clearing_counts_what_it_drops(a: AppView)
    requires
        a.dropped_events + a.events.len() <= usize::MAX,
    ensures
        history_cleared(a).events.len() == 0,
        history_cleared(a).scroll == 0,
        history_cleared(a).dropped_events == a.dropped_events + a.events.len(),
{
}

/// Live and replayed records never mix: what the source sends after a session has been
/// opened changes nothing.
pub proof fn opened_sessions_stay_apart(
    a: AppView,
    outputs: Seq<OutputView>,
    dropped: usize,
    o: OutputView,
)
    ensures
        received(session_opened(a, outputs, dropped), o) == session_opened(a, outputs, dropped),
        session_opened(a, outputs, dropped).events == outputs,
{
}

/// Status lines alone do not leave the splash.
pub proof fn status_lines_keep_the_splash(a: AppView, line: Seq<char>)
    requires
        a.show_splash,
        a.source_error is None,
    ensures
        splash_left(pushed(a, OutputView::Status(line)), 0).show_splash,
{
}

/// The chart scale never shrinks from frame to frame.
pub proof fn peaks_only_grow(
    a: AppView,
    term_h: u16,
    conns_opened: u64,
    rates: Seq<RateSample>,
)
    ensures
        frame_begun(a, term_h, conns_opened, rates).peak_msgs_in >= a.peak_msgs_in,
        frame_begun(a, term_h, conns_opened, rates).peak_msgs_out >= a.peak_msgs_out,
    decreases rates.len(),
{
    if rates.len() > 0 {
        peaks_only_grow(a, term_h, conns_opened, rates.drop_last());
    }
}

/// Whatever an [`App`] is asked to do.
pub enum Action {
    Push(OutputView),
    Receive(OutputView),
    Trim,
    UpdateFilter,
    ClearFilter,
    PreviewFilter,
    Jump { forward: bool, include_current: bool },
    LeaveSplash { conns_opened: u64 },
    BeginFrame { term_h: u16, conns_opened: u64, rates: Seq<RateSample> },
    Key { log_h: usize, press: KeyPress },
    RunCommand,
    Notice { text: Seq<char>, error: bool },
    StartRecording,
    StopRecording { error: Seq<char> },
    Open { outputs: Seq<OutputView>, dropped: usize },
}

/// The state after an action.
pub open spec fn acted(a: AppView, action: Action) -> AppView {
    match action {
        Action::Push(o) => pushed(a, o),
        Action::Receive(o) => received(a, o),
        Action::Trim => trimmed_history(a),
        Action::UpdateFilter => filter_applied(a),
        Action::ClearFilter => filter_cleared(a),
        Action::PreviewFilter => filter_previewed(a),
        Action::Jump { forward, include_current } => jumped(a, forward, include_current),
        Action::LeaveSplash { conns_opened } => splash_left(a, conns_opened),
        Action::BeginFrame { term_h, conns_opened, rates } => frame_begun(
            a,
            term_h,
            conns_opened,
            rates,
        ),
        Action::Key { log_h, press } => key_step(a, log_h, press).0,
        Action::RunCommand => command_run(a).0,
        Action::Notice { text, error } => AppView { command_notice: Some((text, error)), ..a },
        Action::StartRecording => recording_begun(a),
        Action::StopRecording { error } => recording_ended(a, error),
        Action::Open { outputs, dropped } => session_opened(a, outputs, dropped),
    }
}

/// The state after a list of actions.
pub open spec fn after_actions(a: AppView, actions: Seq<Action>) -> AppView
    decreases actions.len(),
{
    if actions.len() == 0 {
        a
    } else {
        acted(after_actions(a, actions.drop_last()), actions.last())
    }
}

/// Whether the history is bounded and the filter in force is the one that its expression
/// reads as.
pub open spec fn settled(a: AppView) -> bool {
    &&& a.events.len() < HISTORY_CAP + HISTORY_TRIM_CHUNK
    &&& filter_of(a.filter.expression) == Ok::<FilterView, Complaint>(a.filter)
}

/// Whether `b` comes of `a` by a change of filter that the filter text allows.
spec fn refiltered(a: AppView, b: AppView) -> bool {
    b.filter == a.filter || b.filter == no_filter() || filter_of(a.filter_text) == Ok::<
        FilterView,
        Complaint,
    >(b.filter)
}

proof fn lemma_refiltered(a: AppView, b: AppView)
    requires
        settled(a),
        refiltered(a, b),
        b.events.len() < HISTORY_CAP + HISTORY_TRIM_CHUNK,
    ensures
        settled(b),
{
    crate::filter::shown_expression_parses_back(a.filter_text);
    crate::text::trim_is_idempotent(Seq::<char>::empty());
}

/// A key press changes the filter, if at all, to none or to the one that its text reads as,
/// and the history, if at all, to an empty one.
proof fn lemma_keys_settle(a: AppView, log_h: usize, press: KeyPress)
    ensures
        ({
            let b = key_step(a, log_h, press).0;
            &&& b.events == a.events || b.events.len() == 0
            &&& refiltered(a, b)
            &&& b.recording == a.recording
        }),
{
}

proof fn lemma_bounded(a: AppView, o: OutputView)
    requires
        a.events.len() < HISTORY_CAP + HISTORY_TRIM_CHUNK,
    ensures
        pushed(a, o).events.len() < HISTORY_CAP + HISTORY_TRIM_CHUNK,
        pushed(a, o).filter == a.filter,
        trimmed_history(a).events.len() < HISTORY_CAP + HISTORY_TRIM_CHUNK,
        trimmed_history(a).filter == a.filter,
{
}

/// No action unsettles the view, provided that a session opened fits the history.
pub proof fn actions_keep_settled(a: AppView, action: Action)
    requires
        settled(a),
        action matches Action::Open { outputs, .. } ==> outputs.len() <= HISTORY_CAP,
    ensures
        settled(acted(a, action)),
{
    match action {
        Action::Key { log_h, press } => {
            lemma_keys_settle(a, log_h, press);
        },
        Action::Push(o) => {
            lemma_bounded(a, o);
        },
        Action::Receive(o) => {
            lemma_bounded(a, o);
        },
        Action::Trim => {
            lemma_bounded(a, OutputView::Line(Seq::empty()));
        },
        _ => {},
    }
    lemma_refiltered(a, acted(a, action));
}

/// Whatever an [`App`] has been asked to do, its visible list holds, in order, exactly the
/// records that the filter in force lets through.
pub proof fn the_visible_list_is_the_filtered_history(
    first: AppView,
    actions: Seq<Action>,
    app: App,
)
    requires
        settled(first),
        forall|i: int|
            0 <= i < actions.len() ==> (#[trigger] actions[i] matches Action::Open { outputs, .. }
                ==> outputs.len() <= HISTORY_CAP),
        app.wf(),
        app@ == after_actions(first, actions),
    ensures
        settled(app@),
        crate::search::ascending(app.visible@),
        forall|k: int|
            0 <= k < app@.events.len() ==> (app.visible@.contains(k as usize) <==> displayed(
                #[trigger] app@.events[k],
                app@.filter,
            )),
        forall|i: int|
            0 <= i < app.visible@.len() ==> (#[trigger] app.visible@[i]) < app@.events.len(),
{
    actions_leave_settled(first, actions);
    let events = app@.events;
    let f = app@.filter;
    shown_are_exactly_the_matches(events, f);
    shown_in_range(events, f);
    assert(app.visible@ == shown(events, f));
    assert forall|k: int| 0 <= k < events.len() implies (app.visible@.contains(k as usize)
        <==> displayed(#[trigger] events[k], f)) by {
        if app.visible@.contains(k as usize) {
            let i = choose|i: int| 0 <= i < app.visible@.len() && app.visible@[i] == k as usize;
            assert(displayed(events[shown(events, f)[i] as int], f));
        }
    }
}

proof fn actions_leave_settled(first: AppView, actions: Seq<Action>)
    requires
        settled(first),
        forall|i: int|
            0 <= i < actions.len() ==> (#[trigger] actions[i] matches Action::Open { outputs, .. }
                ==> outputs.len() <= HISTORY_CAP),
    ensures
        settled(after_actions(first, actions)),
    decreases actions.len(),
{
    if actions.len() > 0 {
        let n = actions.len() - 1;
        let less = actions.drop_last();
        assert forall|i: int| 0 <= i < less.len() implies (#[trigger] less[i] matches Action::Open {
            outputs,
            ..
        } ==> outputs.len() <= HISTORY_CAP) by {
            assert(less[i] == actions[i]);
        }
        actions_leave_settled(first, less);
        assert(actions[n] == actions.last());
        actions_keep_settled(after_actions(first, less), actions.last());
    }
}

/// It makes no difference whether a record is written before it enters the history or
/// after: a failed write is noted alike.
pub proof fn failed_writes_are_noted_alike(a: AppView, o: OutputView, error: Seq<char>)
    ensures
        recording_ended(pushed(a, o), error) == pushed(recording_ended(a, error), o),
{
    assert(recording_ended(pushed(a, o), error) =~= pushed(recording_ended(a, error), o));
}

/// Nothing but the start and the end of recording, and opening a session, changes whether
/// records are written: no filter does.
pub proof fn only_commands_change_recording(a: AppView, action: Action)
    ensures
        acted(a, action).recording == (match action {
            Action::StartRecording => true,
            Action::StopRecording { .. } | Action::Open { .. } => false,
            _ => a.recording,
        }),
{
    if let Action::Key { log_h, press } = action {
        lemma_keys_settle(a, log_h, press);
    }
}

} // verus!
