//! The interactive view.
use tapgres::addr::parse_socket;
use tapgres::capture::PcapOpts;
use tapgres::command::{expand_tilde, parse_command, Command};
use tapgres::decode::{DataColumn, EventDetail, Output};
use tapgres::filter::{DisplayFilter, DisplayMessage, MessageDirection};
use tapgres::proxy::ProxyOpts;
use tapgres::screen::{
    border_tint, chart_caption, chart_series, drawn_window, filter_title, footer, heading,
    mark_lines, message_lines, rate_figures, splash, stat_text, with_commas,
};
use tapgres::search::find_target;
use tapgres::session::{check_line, StoredRecord, Tail};
use tapgres::state::{Metrics, MetricsSummary, RateSample};
use tapgres::tui::{
    handle_key, mitm_splash_lines, pcap_splash_lines, replay_notice, App, Key, KeyPress, Outcome,
    BANNER, HISTORY_CAP, HISTORY_TRIM_CHUNK, STATUS_TAIL_CAP,
};
use tapgres::view::{
    build_header_line, build_line, event_height, event_lines, event_wraps, height_from, render_rich, type_icon,
    type_label, type_spans, view_window, Look, StyledLine, StyledSpan, Tint,
};

fn data_row_detail(n: usize) -> EventDetail {
    EventDetail::DataRow(
        (0..n)
            .map(|i| DataColumn {
                name: format!("c{i}"),
                type_oid: 25,
                value: "'v'".into(),
            })
            .collect(),
    )
}

fn view(rich: bool) -> Look {
    Look { rich, wrap: false }
}

fn plain(key: Key) -> KeyPress {
    KeyPress { key, ctrl: false }
}

/// Whether a key quits.
fn quits(app: &mut App, log_h: usize, press: KeyPress) -> bool {
    matches!(handle_key(app, log_h, press), Outcome::Quit)
}

fn message_with_detail(
    kind: &str,
    text: &str,
    port: u16,
    detail: Option<EventDetail>,
) -> Output {
    Output::Message {
        message: DisplayMessage {
            timestamp: "2026-07-17T12:34:56.789+01:00".into(),
            rendered: format!("[{kind}] {text}"),
            client: parse_socket(&format!("127.0.0.1:{port}")).unwrap(),
            direction: MessageDirection::FrontendToBackend,
            kind: kind.into(),
            text: text.into(),
        },
        detail,
    }
}

fn message(kind: &str, text: &str, port: u16) -> Output {
    message_with_detail(kind, text, port, None)
}

fn app() -> App {
    App::new("test", false, DisplayFilter::default(), Vec::new())
}

#[test]
fn type_label_maps_common_oids_and_falls_back() {
    assert_eq!(type_label(23), "int4");
    assert_eq!(type_label(25), "text");
    assert_eq!(type_label(2950), "uuid");
    assert_eq!(type_label(9999), "oid=9999");
}

#[test]
fn type_icon_maps_common_oids_and_none_for_unknown() {
    // Known OIDs yield a glyph; the textual name stays authoritative.
    assert_eq!(type_icon(16).map(|(c, _)| c), Some('\u{f00c}')); // bool
    assert_eq!(type_icon(23).map(|(c, _)| c), Some('\u{f292}')); // int4
    assert_eq!(type_icon(25).map(|(c, _)| c), Some('\u{f031}')); // text
    assert!(type_icon(9999).is_none());
}

#[test]
fn type_spans_render_glyph_for_known_and_name_only_for_unknown() {
    // Known OID -> glyph + space + label.
    let known = type_spans(23);
    assert_eq!(known.len(), 3);
    assert_eq!(known[0].text.as_str(), "\u{f292}");
    assert_eq!(known[2].text.as_str(), "int4");
    // Unknown OID -> name only, no glyph.
    let unknown = type_spans(9999);
    assert_eq!(unknown.len(), 1);
    assert_eq!(unknown[0].text.as_str(), "oid=9999");
}

#[test]
fn event_height_counts_header_plus_each_field() {
    let entry = message_with_detail("DataRow", "x", 40005, Some(data_row_detail(3)));
    // 1 header row + 3 columns, non-wrap rich mode.
    assert_eq!(event_height(&entry, 80, view(true)), 4);
}

#[test]
fn event_height_plain_line_is_one_row() {
    let entry = message("Query", "x", 40005);
    assert_eq!(event_height(&entry, 80, view(false)), 1);
    // Rich mode with no structured detail still renders the flat line.
    assert_eq!(event_height(&entry, 80, view(true)), 1);
}

#[test]
fn view_window_does_not_clip_multirow_items() {
    // Two rich DataRows, 3 columns each -> 4 rows each. A 5-row viewport in
    // follow mode must show only the last item fully (4 rows) rather than
    // start the first and clip it mid-table.
    let events: Vec<Output> = (0..2)
        .map(|_| message_with_detail("DataRow", "x", 40005, Some(data_row_detail(3))))
        .collect();
    let visible = vec![0, 1];
    let (start, end) = view_window(&events, &visible, 0, true, 5, 80, view(true));
    assert_eq!((start, end), (1, 2));
}

#[test]
fn rich_header_omits_line_view_content() {
    // The line-view text carries the row content; rich mode must not repeat
    // it in the header, since the table body below already shows it.
    let text = "[00:00:00.000] [B→F] DataRow: { name='alice' }";
    let detail = EventDetail::DataRow(vec![DataColumn {
        name: "name".into(),
        type_oid: 25,
        value: "'alice'".into(),
    }]);
    let rendered = render_rich(text, &detail);
    let header: String = rendered[0]
        .spans
        .iter()
        .map(|s| s.text.as_str())
        .collect();
    assert!(header.contains("DataRow"), "header: {header}");
    assert!(
        !header.contains("alice"),
        "header must not repeat row content: {header}"
    );
    let body: String = rendered[1]
        .spans
        .iter()
        .map(|s| s.text.as_str())
        .collect();
    assert!(
        body.contains("alice"),
        "body should carry the value: {body}"
    );
}

#[test]
fn rich_type_row_carries_glyph_and_name() {
    // Rich mode always renders the glyph (nerd font assumed) plus the name.
    let text = "[00:00:00.000] [B→F] DataRow";
    let detail = EventDetail::DataRow(vec![DataColumn {
        name: "id".into(),
        type_oid: 23,
        value: "1".into(),
    }]);
    let body: String = render_rich(text, &detail)[1]
        .spans
        .iter()
        .map(|s| s.text.as_str())
        .collect();
    assert!(
        body.contains('\u{f292}'),
        "int4 glyph should render: {body:?}"
    );
    assert!(body.contains("int4"), "type name should render: {body:?}");
}

#[test]
fn changing_filter_reapplies_to_retained_events() {
    let mut app = app();
    app.push_output(message("Query", "SELECT * FROM orders", 40005));
    app.push_output(message("DataRow", "{ id=1 }", 40005));
    app.push_output(message("Query", "SELECT * FROM users", 40006));
    app.push_output(Output::Status("capture active".into()));
    assert_eq!(app.events.len(), 4);
    assert_eq!(app.visible, vec![0, 1, 2, 3]);

    app.filter_text = "client.port == 40005 and message.type == \"Query\" and message.text contains \"orders\"".into();
    app.update_filter();
    assert_eq!(app.events.len(), 4);
    assert_eq!(app.visible, vec![0, 3]);

    app.clear_filter();
    assert_eq!(app.events.len(), 4);
    assert_eq!(app.visible, vec![0, 1, 2, 3]);
}

#[test]
fn filtering_preserves_rich_message_detail() {
    let mut app = app();
    app.push_output(message_with_detail(
        "DataRow",
        "{ id=1 }",
        40005,
        Some(data_row_detail(3)),
    ));

    app.filter_text = "message.type == \"DataRow\"".into();
    app.update_filter();

    assert_eq!(app.visible, vec![0]);
    assert_eq!(event_height(&app.events[0], 80, view(true)), 4);
}

#[test]
fn invalid_live_edit_preserves_last_valid_filter() {
    let mut app = app();
    app.push_output(message("Query", "SELECT 1", 40005));
    app.push_output(message("DataRow", "{ id=1 }", 40005));

    app.filter_text = "message.type == \"Query\"".into();
    app.update_filter();
    assert_eq!(app.visible, vec![0]);

    app.filter_text = "message.type == \"Query\" and unknown == \"value\"".into();
    app.update_filter();
    assert!(app.filter_error.is_some());
    assert_eq!(app.visible, vec![0]);
    assert_eq!(app.filter.expression(), "message.type == \"Query\"");
}

#[test]
fn y_opens_editor_and_escape_cancels_edit_restoring_filter() {
    let mut app = App::new("test", false, DisplayFilter::parse("message.type == \"Query\"").unwrap(), Vec::new());
    app.push_output(message("Query", "SELECT 1", 40005));
    app.push_output(message("DataRow", "{ id=1 }", 40005));
    assert_eq!(app.visible, vec![0]);

    // Open the editor, type a partial edit, then Esc: the edit is abandoned
    // and the previously-applied filter is restored (not wiped).
    handle_key(&mut app, 10, plain(Key::Char('y')));
    assert!(app.filter_editing);
    handle_key(&mut app, 10, plain(Key::Char('x')));
    handle_key(&mut app, 10, plain(Key::Esc));

    assert!(!app.filter_editing);
    assert!(
        !app.filter.is_empty(),
        "Esc must not wipe the applied filter"
    );
    assert_eq!(app.filter_text, "message.type == \"Query\"");
    assert_eq!(app.visible, vec![0]);

    // A second Esc in normal mode clears the applied filter (documented).
    handle_key(&mut app, 10, plain(Key::Esc));
    assert!(app.filter.is_empty());
    assert_eq!(app.visible, vec![0, 1]);
}

#[test]
fn filter_applies_on_enter_not_per_keystroke() {
    let mut app = app();
    app.push_output(message("Query", "SELECT 1", 40005));
    app.push_output(message("DataRow", "{ id=1 }", 40005));

    handle_key(&mut app, 10, plain(Key::Char('y')));
    for ch in "message.type == \"Query\"".chars() {
        handle_key(&mut app, 10, plain(Key::Char(ch)));
    }
    // Still unapplied while typing (both events visible).
    assert_eq!(app.visible, vec![0, 1]);
    handle_key(&mut app, 10, plain(Key::Enter));
    assert!(!app.filter_editing);
    assert_eq!(app.visible, vec![0]);
}

#[test]
fn clear_counts_dropped_and_resets_scroll() {
    let mut app = app();
    app.push_output(message("Query", "SELECT 1", 40005));
    app.push_output(message("Query", "SELECT 2", 40005));
    app.scroll = 1;
    handle_key(&mut app, 10, plain(Key::Char('c')));
    assert!(app.events.is_empty());
    assert_eq!(app.scroll, 0);
    assert_eq!(
        app.dropped_events, 2,
        "cleared events are counted as dropped"
    );
}

#[test]
fn trim_history_preserves_scroll_position() {
    let mut app = app();
    for i in 0..(HISTORY_CAP + HISTORY_TRIM_CHUNK) {
        app.push_output(message("Query", &format!("q{i}"), 40005));
    }
    // Sitting partway up the (now trimmed) buffer, not at the top.
    app.follow = false;
    app.scroll = 100;
    let before = app.scroll;
    app.push_output(message("Query", "trigger-trim", 40005));
    app.trim_history();
    // Scroll shifted with the evicted prefix, not reset to 0.
    assert!(
        app.scroll < before && app.scroll > 0,
        "scroll: {}",
        app.scroll
    );
}

#[test]
fn colon_opens_command_bar_and_slash_opens_search() {
    let mut app = App::new("test", false, DisplayFilter::default(), Vec::new());

    // ':' opens the command bar (not the display filter editor).
    handle_key(&mut app, 10, plain(Key::Char(':')));
    assert!(!app.filter_editing);
    assert!(app.command_editing);
    handle_key(&mut app, 10, plain(Key::Esc));

    // '/' opens text search, not the command bar.
    handle_key(&mut app, 10, plain(Key::Char('/')));
    assert!(app.search_editing);
    assert!(!app.command_editing);
}

#[test]
fn search_jumps_to_and_navigates_matches() {
    let mut app = app();
    app.push_output(message("Query", "SELECT * FROM users", 40005)); // 0
    app.push_output(message("Query", "SELECT * FROM orders", 40005)); // 1
    app.push_output(message("Query", "SELECT * FROM users2", 40005)); // 2
    app.follow = false;
    app.scroll = 0;

    // '/' opens search; type "orders" and Enter: jump to the match at pos 1.
    handle_key(&mut app, 10, plain(Key::Char('/')));
    assert!(app.search_editing);
    for ch in "orders".chars() {
        handle_key(&mut app, 10, plain(Key::Char(ch)));
    }
    handle_key(&mut app, 10, plain(Key::Enter));
    assert!(!app.search_editing);
    assert_eq!(app.scroll, 1);

    // Search "users" -> matches positions 0 and 2; n/N cycle between them.
    app.search_text = "users".into();
    app.scroll = 0;
    handle_key(&mut app, 10, plain(Key::Char('n')));
    assert_eq!(app.scroll, 2, "n goes to next match after anchor 0");
    handle_key(&mut app, 10, plain(Key::Char('n')));
    assert_eq!(app.scroll, 0, "n wraps to the first match");
    handle_key(&mut app, 10, plain(Key::Char('N')));
    assert_eq!(app.scroll, 2, "N wraps back to the last match");

    // Esc clears the active search.
    handle_key(&mut app, 10, plain(Key::Esc));
    assert!(app.search_text.is_empty());
}

#[test]
fn save_command_writes_retained_and_future_events() {
    let mut app = app();
    assert!(app.push_output(message("Query", "SELECT 1", 40005)).is_none());
    app.push_output(message("DataRow", "{ id=1 }", 40005));
    app.filter_text = "message.type == \"Query\"".into();
    app.update_filter();

    app.command_text = "save saved session.jsonl".into();
    let path = match app.execute_command() {
        Some(Command::Save(path)) => path,
        other => panic!("expected a save, got {other:?}"),
    };
    assert_eq!(path, "saved session.jsonl");
    let mut saved: Vec<StoredRecord> = app.events.iter().map(StoredRecord::from_output).collect();
    let message_text = app.recording_started(&path);
    app.finish_command(Ok(message_text));
    saved.extend(app.push_output(message("ReadyForQuery", "txn=idle", 40005)));

    assert_eq!(saved.len(), 3, "display filtering must not affect saving");
    assert_eq!(app.visible, vec![0], "the filter stays in force");
    let texts: Vec<String> = saved
        .into_iter()
        .enumerate()
        .map(|(i, r)| r.into_output(&path, i + 1).unwrap().rendered().to_string())
        .collect();
    let retained: Vec<String> = app.events.iter().map(|o| o.rendered().to_string()).collect();
    assert_eq!(texts, retained);
    assert!(
        app.command_notice
            .as_ref()
            .is_some_and(|(message, error)| !error && message.contains("recording"))
    );
}

#[test]
fn recording_ends_with_a_failed_write_and_with_an_opened_session() {
    let mut app = app();
    app.recording_started("a.jsonl");
    assert!(app.receive(message("Query", "x", 1)).is_some());
    app.recording_stopped("disk full");
    assert_eq!(app.command_notice, Some(("recording stopped: disk full".to_string(), true)));
    assert!(app.receive(message("Query", "x", 1)).is_none());
    app.recording_started("a.jsonl");
    app.open_session(Vec::new(), 0, "b.jsonl");
    assert!(!app.recording);
    // A replayed view takes no record of the source, and so writes none.
    app.recording_started("a.jsonl");
    assert!(app.receive(message("Query", "x", 1)).is_none());
    assert!(app.events.is_empty());
}

#[test]
fn open_command_atomically_replaces_view_and_preserves_rich_detail() {
    let replayed = message_with_detail("DataRow", "{ id=1 }", 40005, Some(data_row_detail(2)));
    let stored = StoredRecord::from_output(&replayed);

    let mut app = app();
    app.push_output(message("Query", "old", 40005));
    app.command_text = "open replay.jsonl".into();
    let path = match app.execute_command() {
        Some(Command::Open(path)) => path,
        other => panic!("expected an open, got {other:?}"),
    };
    let mut tail = Tail::new(HISTORY_CAP);
    tail.push(stored.into_output(&path, 1).unwrap());
    let (outputs, dropped) = tail.finish();
    let said = app.open_session(outputs, dropped, &path);
    app.finish_command(Ok(said));

    assert_eq!(app.mode, "replay");
    assert!(!app.accept_source_records);
    assert_eq!(app.events.len(), 1);
    assert!(matches!(
        app.events[0].detail(),
        Some(EventDetail::DataRow(columns)) if columns.len() == 2
    ));
}

#[test]
fn failed_open_keeps_the_existing_view() {
    let mut app = app();
    app.push_output(message("Query", "SELECT 1", 40005));

    app.command_text = "open broken.jsonl".into();
    let path = match app.execute_command() {
        Some(Command::Open(path)) => path,
        other => panic!("expected an open, got {other:?}"),
    };
    match check_line(&path, 1, "not json") {
        Ok(_) => panic!("expected the line to be refused"),
        Err(error) => app.finish_command(Err(error.to_text())),
    }

    assert_eq!(app.mode, "test");
    assert!(app.accept_source_records);
    assert_eq!(app.events.len(), 1);
    assert!(
        app.command_notice
            .as_ref()
            .is_some_and(|(message, error)| *error && message.contains("invalid JSONL"))
    );
}

#[test]
fn splash_shown_only_when_there_are_lines() {
    // No splash content (unit tests, plain helpers) -> never show splash.
    let app = App::new("test", false, DisplayFilter::default(), Vec::new());
    assert!(!app.show_splash);

    // Real splash content -> show until traffic arrives.
    let mut app = App::new("pcap", false, DisplayFilter::default(), vec!["capturing interface: lo".into()]);
    assert!(app.show_splash);
    // Startup status lines do not count as traffic.
    app.push_output(Output::Status("tapgres: capturing on 'lo'".into()));
    app.leave_splash_if_traffic(0);
    assert!(app.show_splash, "status lines must not leave the splash");
}

#[test]
fn splash_leaves_once_a_connection_opens() {
    let mut metrics = Metrics::new();
    let mut app = App::new("pcap", false, DisplayFilter::default(), vec!["capturing interface: lo".into()]);
    assert!(app.show_splash);

    // A real connection is recorded on the metrics registry.
    metrics.open_connection(
        parse_socket("127.0.0.1:40005").unwrap(),
        parse_socket("127.0.0.1:5432").unwrap(),
        false,
        0,
    );
    let opened = metrics.summary().conns_opened;
    app.leave_splash_if_traffic(opened);
    assert!(
        !app.show_splash,
        "an opened connection must leave the splash"
    );
}

#[test]
fn splash_honours_quit_and_command_bar() {
    let mut app = App::new("pcap", false, DisplayFilter::default(), vec!["capturing interface: lo".into()]);
    // `y` is a no-op on the splash: it must not open the filter editor.
    assert!(!quits(&mut app, 10, plain(Key::Char('y'))));
    assert!(!app.filter_editing);
    // Commands remain available so a replay can be opened before live
    // traffic arrives.
    assert!(!quits(&mut app, 10, plain(Key::Char('/'))));
    assert!(app.command_editing);
    app.command_editing = false;
    // `q` quits even from the splash.
    assert!(quits(&mut app, 10, plain(Key::Char('q'))));
}

#[test]
fn pcap_splash_shows_interface_and_port() {
    let lines = pcap_splash_lines(&PcapOpts {
        port: 5433,
        interface: Some("any".into()),
        no_promisc: false,
        snaplen: 65535,
    });
    let joined = lines.join("\n");
    assert!(joined.contains("any"), "named interface shown: {joined}");
    assert!(joined.contains("5433"), "port shown: {joined}");

    // Default interface is described as loopback.
    let lines = pcap_splash_lines(&PcapOpts {
        port: 5432,
        interface: None,
        no_promisc: false,
        snaplen: 65535,
    });
    let joined = lines.join("\n");
    assert!(
        joined.contains("loopback"),
        "default interface noted: {joined}"
    );
}

#[test]
fn mitm_splash_shows_listen_upstream_and_tls() {
    let lines = mitm_splash_lines(&ProxyOpts {
        listen: "127.0.0.1:15432".into(),
        upstream: "127.0.0.1:5432".into(),
        tls_dir: "/tmp/tapgres".into(),
        tls_cert: None,
        tls_key: None,
        no_upstream_tls: false,
    });
    let joined = lines.join("\n");
    assert!(joined.contains("127.0.0.1:15432"), "listen shown: {joined}");
    assert!(
        joined.contains("127.0.0.1:5432"),
        "upstream shown: {joined}"
    );
    assert!(joined.contains("auto CA"), "auto CA noted: {joined}");
    assert!(
        joined.contains("TLS auto-negotiate"),
        "upstream TLS noted: {joined}"
    );

    // A user-supplied cert and disabled upstream TLS are reflected.
    let lines = mitm_splash_lines(&ProxyOpts {
        listen: "127.0.0.1:15432".into(),
        upstream: "127.0.0.1:5432".into(),
        tls_dir: "/tmp/tapgres".into(),
        tls_cert: Some("cert.pem".into()),
        tls_key: Some("key.pem".into()),
        no_upstream_tls: true,
    });
    let joined = lines.join("\n");
    assert!(
        joined.contains("user-supplied"),
        "user cert noted: {joined}"
    );
    assert!(
        joined.contains("cleartext"),
        "upstream cleartext noted: {joined}"
    );
}

// --- further cases ---------------------------------------------------------------------

fn text_of(spans: &[StyledSpan]) -> String {
    spans.iter().map(|s| s.text.as_str()).collect()
}

fn spans_of(spans: &[StyledSpan]) -> Vec<(&str, Tint, bool)> {
    spans.iter().map(|s| (s.text.as_str(), s.tint, s.bold)).collect()
}

#[test]
fn lines_are_coloured_by_direction_and_kind() {
    let line = "[00:00:00.000] [F→B] Query: SELECT 1";
    assert_eq!(
        spans_of(&build_line(line)),
        vec![
            ("[00:00:00.000] ", Tint::DarkGray, false),
            ("[F→B]", Tint::Cyan, true),
            (" ", Tint::Plain, false),
            ("Query", Tint::Cyan, true),
            (": SELECT 1", Tint::Plain, false),
        ]
    );
    assert_eq!(build_line("x [B→F] Terminate")[3].tint, Tint::Magenta);
    assert_eq!(text_of(&build_header_line(line)), "[00:00:00.000] [F→B] Query");
    assert_eq!(spans_of(&build_line("=== closed ===")), vec![("=== closed ===", Tint::Yellow, false)]);
    assert_eq!(spans_of(&build_line("[F→B] ⚠ gap")), vec![("[F→B] ⚠ gap", Tint::Red, false)]);
    assert_eq!(spans_of(&build_line("plain")), vec![("plain", Tint::Plain, false)]);
    assert_eq!(text_of(&build_line("ends in [F→B]")), "ends in [F→B]");
}

#[test]
fn wrapped_height_counts_the_rows_of_long_lines() {
    let look = Look { rich: false, wrap: true };
    let entry = Output::Line("aaaa bbbb cccc".into());
    assert_eq!(event_height(&entry, 80, look), 1);
    assert_eq!(event_height(&entry, 10, look), 2);
    assert_eq!(event_height(&entry, 4, look), 3);
    // No columns, no rows, but an item always takes one.
    assert_eq!(event_height(&entry, 0, look), 1);
    assert_eq!(height_from(&entry, look, 0), 1);
    assert_eq!(height_from(&entry, look, 7), 7);
}

fn lines(texts: &[&str]) -> App {
    let mut app = app();
    for t in texts {
        app.push_output(Output::Line((*t).into()));
    }
    app
}

#[test]
fn window_fills_forward_then_back_from_the_anchor() {
    let app = lines(&["0", "1", "2", "3", "4"]);
    let at = |scroll: usize, follow: bool, log_h: usize| {
        view_window(&app.events, &app.visible, scroll, follow, log_h, 80, view(true))
    };
    assert_eq!(at(1, false, 2), (1, 3));
    // Near the end the window is filled from before the anchor.
    assert_eq!(at(4, false, 3), (2, 5));
    assert_eq!(at(0, true, 3), (2, 5));
    assert_eq!(at(0, true, 0), (4, 5));
    assert_eq!(view_window(&Vec::new(), &Vec::new(), 3, false, 5, 80, view(true)), (0, 0));
}

#[test]
fn an_item_taller_than_the_view_is_shown_alone() {
    let events: Vec<Output> = (0..3)
        .map(|_| message_with_detail("DataRow", "x", 40005, Some(data_row_detail(9))))
        .collect();
    let visible = vec![0, 1, 2];
    assert_eq!(view_window(&events, &visible, 1, false, 4, 80, view(true)), (1, 2));
    assert_eq!(view_window(&events, &visible, 0, true, 4, 80, view(true)), (2, 3));
}

#[test]
fn frames_keep_the_anchor_in_range_and_the_scale_at_its_peak() {
    let mut app = lines(&["0", "1", "2", "3", "4"]);
    let rate = |msgs_in: u64, msgs_out: u64| RateSample { msgs_in, msgs_out, bytes_in: 0, bytes_out: 0 };
    let mut summary: MetricsSummary = Metrics::new().summary();
    summary.rates = vec![rate(3, 1), rate(2, 5)];
    // Thirteen rows leave three for the records.
    assert_eq!(app.begin_frame(13, &summary), 3);
    assert_eq!(app.scroll, 2);
    assert_eq!((app.peak_msgs_in, app.peak_msgs_out), (3, 5));
    summary.rates = vec![rate(1, 1)];
    app.follow = false;
    app.scroll = 1;
    assert_eq!(app.begin_frame(5, &summary), 1);
    assert_eq!(app.scroll, 1);
    assert_eq!((app.peak_msgs_in, app.peak_msgs_out), (3, 5));
    app.rich = true;
    app.scroll = 99;
    app.begin_frame(13, &summary);
    assert_eq!(app.scroll, 4);
}

#[test]
fn keys_move_the_anchor() {
    let mut app = lines(&["0", "1", "2"]);
    for (key, follow, scroll) in [
        (Key::Char('j'), false, 1),
        (Key::Down, false, 2),
        (Key::Char('k'), false, 1),
        (Key::PageDown, false, 11),
        (Key::PageUp, false, 1),
        (Key::Up, false, 0),
        (Key::Up, false, 0),
        (Key::End, true, 0),
        (Key::Home, false, 0),
        (Key::Char('G'), true, 0),
        (Key::Char('g'), false, 0),
    ] {
        handle_key(&mut app, 10, plain(key));
        assert_eq!((app.follow, app.scroll), (follow, scroll), "{key:?}");
    }
}

#[test]
fn keys_toggle_the_display() {
    let mut app = app();
    handle_key(&mut app, 10, plain(Key::Char('w')));
    handle_key(&mut app, 10, plain(Key::Char('r')));
    handle_key(&mut app, 10, plain(Key::Char('f')));
    assert_eq!((app.wrap, app.rich, app.follow), (true, true, false));
    handle_key(&mut app, 10, plain(Key::Other));
    assert_eq!((app.wrap, app.rich, app.follow), (true, true, false));
}

#[test]
fn control_c_cancels_an_edit_and_quits_otherwise() {
    let ctrl_c = KeyPress { key: Key::Char('c'), ctrl: true };
    for open in [':', '/', 'y'] {
        let mut app = app();
        handle_key(&mut app, 10, plain(Key::Char(open)));
        handle_key(&mut app, 10, plain(Key::Char('a')));
        handle_key(&mut app, 10, plain(Key::Char('b')));
        handle_key(&mut app, 10, plain(Key::Backspace));
        assert_eq!(
            format!("{}{}{}", app.command_text, app.search_text, app.filter_text),
            "a"
        );
        assert!(!quits(&mut app, 10, ctrl_c));
        assert!(!app.command_editing && !app.search_editing && !app.filter_editing);
        assert_eq!(format!("{}{}{}", app.command_text, app.search_text, app.filter_text), "");
        assert!(quits(&mut app, 10, ctrl_c));
    }
}

#[test]
fn enter_does_not_apply_a_filter_that_does_not_parse() {
    let mut app = app();
    handle_key(&mut app, 10, plain(Key::Char('y')));
    handle_key(&mut app, 10, plain(Key::Char('x')));
    assert!(app.filter_error.is_some());
    handle_key(&mut app, 10, plain(Key::Enter));
    assert!(app.filter_editing);
    assert!(app.filter.is_empty());
}

#[test]
fn search_ignores_case_beyond_ascii() {
    let mut app = lines(&["nothing", "GRÖSSE", "größe"]);
    app.search_text = "grÖ".into();
    assert_eq!(app.search_matches(), vec![1, 2]);
    app.search_text = String::new();
    assert_eq!(app.search_matches(), Vec::<usize>::new());
}

#[test]
fn jumps_go_round_and_back() {
    let hits = vec![2, 5, 9];
    assert_eq!(find_target(&hits, 2, true, false), Some(5));
    assert_eq!(find_target(&hits, 9, true, false), Some(2));
    assert_eq!(find_target(&hits, 2, false, false), Some(9));
    assert_eq!(find_target(&hits, 5, false, false), Some(2));
    assert_eq!(find_target(&hits, 5, true, true), Some(5));
    assert_eq!(find_target(&Vec::new(), 5, true, true), None);
}

#[test]
fn commands_are_read_with_or_without_marks() {
    let read = |text: &str| match parse_command(text) {
        Ok(Command::Save(path)) => format!("save {path}"),
        Ok(Command::Open(path)) => format!("open {path}"),
        Err(error) => error,
    };
    assert_eq!(read(":save  a b.jsonl "), "save a b.jsonl");
    assert_eq!(read("/w x"), "save x");
    assert_eq!(read("  write x"), "save x");
    assert_eq!(read("o x"), "open x");
    assert_eq!(read("open\tx"), "open x");
    assert_eq!(read("save"), "usage: :save FILE");
    assert_eq!(read("open "), "usage: :open FILE");
    assert_eq!(read(" : "), "command is empty");
    assert_eq!(read("quit now"), "unknown command: quit");
}

#[test]
fn tilde_stands_for_the_home_directory() {
    assert_eq!(expand_tilde("~/a", Some("/home/u")), "/home/u/a");
    assert_eq!(expand_tilde("~", Some("/home/u")), "/home/u");
    assert_eq!(expand_tilde("~x/a", Some("/home/u")), "~x/a");
    assert_eq!(expand_tilde("~/a", None), "~/a");
    assert_eq!(expand_tilde("~//etc", Some("/home/u")), "/etc");
    assert_eq!(expand_tilde("/abs", Some("/home/u")), "/abs");
}

#[test]
fn command_errors_become_notices() {
    let mut app = app();
    app.command_editing = true;
    app.command_text = "bogus".into();
    assert!(app.execute_command().is_none());
    assert!(!app.command_editing);
    assert_eq!(app.command_notice, Some(("unknown command: bogus".to_string(), true)));
    // The next key in normal mode dismisses it.
    handle_key(&mut app, 10, plain(Key::Other));
    assert!(app.command_notice.is_none());
    app.recording_stopped("disk full");
    assert_eq!(app.command_notice, Some(("recording stopped: disk full".to_string(), true)));
}

#[test]
fn a_typed_command_is_handed_out_on_enter() {
    let mut app = app();
    handle_key(&mut app, 10, plain(Key::Char(':')));
    for c in "open f".chars() {
        handle_key(&mut app, 10, plain(Key::Char(c)));
    }
    match handle_key(&mut app, 10, plain(Key::Enter)) {
        Outcome::Run(Command::Open(path)) => assert_eq!(path, "f"),
        other => panic!("expected an open, got {other:?}"),
    }
    assert!(!app.command_editing);
}

#[test]
fn recording_and_opening_are_reported_with_what_is_missing() {
    let mut app = lines(&["a"]);
    app.receive(Output::Line("b".into()));
    assert_eq!(app.recorded_message("f"), "recording 2 retained events + future traffic to f");
    app.dropped_events = 7;
    assert_eq!(
        app.recorded_message("f"),
        "recording 2 retained events + future traffic to f; 7 earlier events were outside history"
    );
    let said = app.open_session(vec![Output::Line("x".into())], 3, "g");
    assert_eq!(
        said,
        "opened newest 1 events from g; 3 earlier events are outside history"
    );
    assert_eq!(app.dropped_events, 3);
    assert_eq!(
        app.recorded_message("f"),
        "saved 1 retained replay events to f; 3 earlier events were outside history"
    );
    app.receive(Output::Line("live".into()));
    assert_eq!(app.events.len(), 1, "live and replayed records never mix");
    assert_eq!(app.open_session(Vec::new(), 0, "g"), "opened 0 events from g");
    assert_eq!(replay_notice(0), None);
    assert_eq!(
        replay_notice(2).as_deref(),
        Some("replay: showing the newest 50000 records; 2 earlier records are outside TUI history")
    );
}

#[test]
fn the_splash_keeps_the_newest_status_lines() {
    let mut app = app();
    for i in 0..STATUS_TAIL_CAP + 3 {
        app.push_output(Output::Status(format!("s{i}")));
    }
    assert_eq!(app.status_tail.len(), STATUS_TAIL_CAP);
    assert_eq!(app.status_tail[0], "s3");
}

#[test]
fn the_splash_shows_banner_source_status_and_what_is_awaited() {
    let mut app = App::new("pcap", false, DisplayFilter::default(), vec!["port 5432".into()]);
    app.push_output(Output::Status("⚠ no privileges".into()));
    let shown = splash(&app);
    let texts: Vec<String> = shown.iter().map(|l| text_of(&l.spans)).collect();
    assert!(BANNER.lines().eq(texts[..7].iter().map(|t| t.as_str())));
    assert_eq!(
        texts[7..],
        [
            "",
            "  port 5432",
            "",
            "  ⚠ no privileges",
            "",
            "  waiting for traffic…  press : for commands · q to quit",
        ]
    );
    assert_eq!(shown[10].spans[0].tint, Tint::Red);
    app.source_error = Some("no privileges".into());
    app.finish_command(Ok("done".into()));
    let texts: Vec<String> = splash(&app).iter().map(|l| text_of(&l.spans)).collect();
    assert_eq!(texts[12], "  done");
    assert_eq!(texts[14], "  source failed — see above · press q to quit");
    assert!(app.source_failed());
    app.leave_splash_if_traffic(0);
    assert!(!app.show_splash, "a failed source leaves the splash");
}

#[test]
fn the_footer_shows_what_is_going_on() {
    let mut app = lines(&["one", "two"]);
    let shown = |app: &App| {
        let f = footer(app);
        (f.title.unwrap_or_default(), text_of(&f.line.spans))
    };
    assert_eq!(
        shown(&app).1,
        " q quit · j/k ↑↓ · PgUp/PgDn · g/G top/bottom · f follow · w wrap · r rich · y display filter · / search · : command · c clear "
    );
    assert_eq!(footer(&app).line.spans[1].tint, Tint::Green);
    app.finish_command(Err("no".into()));
    assert_eq!(shown(&app), (" status · : command ".to_string(), " no".to_string()));
    assert_eq!(footer(&app).line.spans[0].tint, Tint::Red);
    app.search_text = "o".into();
    assert_eq!(shown(&app).1, " search: o · 2 matches · n/N next/prev · Esc clear");
    app.filter_editing = true;
    app.filter_text = "f".into();
    app.parse_filter_preview();
    assert!(shown(&app).1.starts_with(" display filter › f█  ⚠ "), "{:?}", shown(&app));
    app.search_editing = true;
    assert_eq!(
        shown(&app),
        (" search · Enter next · Esc cancel ".to_string(), " search › o█".to_string())
    );
    app.command_editing = true;
    app.command_text = "save x".into();
    assert_eq!(
        shown(&app),
        (
            " command · :save FILE · :open FILE · Esc cancel ".to_string(),
            " :save x█".to_string()
        )
    );
}

#[test]
fn headings_count_what_the_filter_lets_through() {
    let mut app = lines(&["one"]);
    app.push_output(message("Query", "SELECT 1", 40005));
    assert_eq!(heading(&app), " tapgres — test mode · 2 events ");
    assert_eq!(filter_title(&app), " messages ");
    assert_eq!(border_tint(&app), Tint::Green);
    app.filter_text = "message.type == \"DataRow\"".into();
    app.update_filter();
    assert_eq!(heading(&app), " tapgres — test mode · 1/2 matching ");
    assert_eq!(
        filter_title(&app),
        " messages · display filter: message.type == \"DataRow\" "
    );
    assert_eq!(border_tint(&app), Tint::Yellow);
    app.filter_text = "x".into();
    app.parse_filter_preview();
    assert_eq!(border_tint(&app), Tint::Red);
}

#[test]
fn search_matches_stand_out() {
    let mut app = lines(&["alpha", "Beta", "gamma"]);
    app.search_text = "BETA".into();
    app.follow = false;
    let (start, end) = drawn_window(&app, 2, 80).unwrap();
    assert_eq!((start, end), (0, 2));
    let drawn = message_lines(&app, start, end);
    assert_eq!(drawn.iter().map(|l| l.highlight).collect::<Vec<_>>(), vec![false, true]);
    let line = || vec![StyledLine { spans: Vec::new(), highlight: false }];
    assert!(mark_lines(line(), "abc", "b")[0].highlight);
    assert!(!mark_lines(line(), "abc", "x")[0].highlight);
    assert!(!mark_lines(line(), "abc", "")[0].highlight);
    assert_eq!(event_lines(&app.events[0], view(false))[0].spans[0].text, "alpha");
}

#[test]
fn rates_are_summed_averaged_and_captioned() {
    let rate = |msgs_in: u64, msgs_out: u64| RateSample { msgs_in, msgs_out, bytes_in: 0, bytes_out: 0 };
    let rates = vec![rate(1000, 2000), rate(u64::MAX, 1), rate(3, 4)];
    assert_eq!(rate_figures(&rates).peak, u64::MAX);
    let rates = vec![rate(1000, 2000), rate(1, 1), rate(3, 4)];
    let f = rate_figures(&rates);
    assert_eq!((f.now, f.avg, f.peak), (7, 1003, 3000));
    assert_eq!(chart_caption(&rates), "now 7 avg 1,003 peak 3,000");
    assert_eq!(chart_caption(&Vec::new()), "now 0 avg 0 peak 0");
    assert_eq!(chart_series(&rates, true), vec![3, 1, 1000]);
    assert_eq!(chart_series(&rates, false), vec![4, 1, 2000]);
}

#[test]
fn numbers_are_grouped_by_thousands() {
    assert_eq!(with_commas(0), "0");
    assert_eq!(with_commas(999), "999");
    assert_eq!(with_commas(8521), "8,521");
    assert_eq!(with_commas(1234567), "1,234,567");
    assert_eq!(with_commas(u64::MAX).replace(',', ""), u64::MAX.to_string());
}

#[test]
fn stat_columns_have_three_lines() {
    let lines = stat_text("ACTIVE", "3".into(), Tint::Cyan, "opened 5".into(), String::new());
    assert_eq!(
        lines.iter().map(|l| text_of(&l.spans)).collect::<Vec<_>>(),
        vec!["ACTIVE 3", "opened 5", ""]
    );
    assert_eq!(lines[0].spans[1].tint, Tint::Cyan);
}

#[test]
fn trimming_counts_what_it_drops_and_keeps_the_newest() {
    let mut app = app();
    for i in 0..(HISTORY_CAP + HISTORY_TRIM_CHUNK) {
        app.push_output(Output::Line(format!("{i}")));
    }
    assert_eq!(app.events.len(), HISTORY_CAP);
    assert_eq!(app.dropped_events, HISTORY_TRIM_CHUNK);
    assert_eq!(app.events[0].rendered(), format!("{HISTORY_TRIM_CHUNK}"));
    assert_eq!(app.visible.len(), HISTORY_CAP);
    assert_eq!(app.visible[0], 0);
}

#[test]
fn very_wide_terminals_wrap_at_their_own_width() {
    let look = Look { rich: false, wrap: true };
    let line = Output::Line("a".repeat(40_000));
    assert_eq!(event_height(&line, 16_000, look), 3);
    assert_eq!(event_height(&line, 20_000, look), 2);
    assert_eq!(event_height(&line, 65_533, look), 1);
    let (start, end) = view_window(&vec![line], &vec![0], 0, true, 5, 40_000, look);
    assert_eq!((start, end), (0, 1));
}

#[test]
fn only_symbols_of_many_cells_cannot_be_wrapped() {
    let look = Look { rich: false, wrap: true };
    // Leading consonants of Hangul, two cells each, make one symbol.
    let wide = Output::Line("\u{1100}".repeat(10_000));
    assert!(event_wraps(&wide, 16_384, look));
    assert!(event_wraps(&wide, 19_000, look), "the symbol is left out");
    assert!(!event_wraps(&wide, 20_000, look));
    assert!(event_wraps(&wide, 20_000, view(true)));
    let plain = Output::Line("abc \u{4e16}".into());
    assert!(event_wraps(&plain, 65_530, look));
    assert!(!event_wraps(&plain, 65_531, look));

    let mut app = app();
    app.push_output(plain);
    app.wrap = true;
    assert_eq!(drawn_window(&app, 5, 20_000), Some((0, 1)));
    app.push_output(wide);
    assert_eq!(drawn_window(&app, 5, 20_000), None);
    assert_eq!(drawn_window(&app, 5, 80), Some((0, 2)));
    // What is out of sight is not looked at.
    app.push_output(Output::Line("later".into()));
    assert_eq!(drawn_window(&app, 1, 20_000), Some((2, 3)));
    assert_eq!(drawn_window(&app, 2, 20_000), None);
    app.follow = false;
    assert_eq!(drawn_window(&app, 1, 20_000), Some((0, 1)));
    assert_eq!(drawn_window(&app, 2, 20_000), None);
}

#[test]
fn the_visible_list_follows_every_operation() {
    let mut app = app();
    let check = |app: &App| {
        let want: Vec<usize> = (0..app.events.len())
            .filter(|i| app.events[*i].matches_filter(&app.filter))
            .collect();
        assert_eq!(app.visible, want);
    };
    for (kind, port) in [("Query", 1), ("DataRow", 2), ("Query", 3)] {
        app.push_output(message(kind, "x", port));
        check(&app);
    }
    app.filter_text = "message.type == \"Query\"".into();
    app.update_filter();
    check(&app);
    app.filter_text = "message.type ==".into();
    app.update_filter();
    check(&app);
    assert_eq!(app.visible, vec![0, 2]);
    app.open_session(vec![message("DataRow", "y", 4), message("Query", "z", 5)], 0, "p");
    check(&app);
    assert_eq!(app.visible, vec![1]);
    app.clear_filter();
    check(&app);
    handle_key(&mut app, 10, plain(Key::Char('c')));
    check(&app);
    assert!(app.visible.is_empty());
}
