//! What the keys of the interactive view do, what a frame shows, and how records enter it.
use crate::filter::{filter_of, FilterView};
use crate::lexer::Complaint;
use crate::output::{rendered_text, OutputView};
use crate::search::{hits_are_the_matches, jump_target, lowercase};
use crate::state::RateSample;
use crate::text::{dec, has_run};
use crate::tui::{
    complaint_text, frame_begun, key_step, log_rows, lowered_lines, opened_text, peak_in, peak_out,
    pushed, received, recorded_text, replay_text, search_hits, session_opened, shown,
    shown_in_range, AppView, Key, KeyPress,
};
use vstd::prelude::*;

verus! {

/// A key without the control key.
pub open spec fn press(c: char) -> KeyPress {
    KeyPress { key: Key::Char(c), ctrl: false }
}

pub open spec fn other(key: Key) -> KeyPress {
    KeyPress { key, ctrl: false }
}

/// Whether nothing is being edited and the records are shown.
pub open spec fn idle(a: AppView) -> bool {
    !a.command_editing && !a.search_editing && !a.filter_editing && !a.show_splash
}

/// `q` ends the view, and so does the control key with `c`; no other key does.
pub proof fn only_two_keys_quit(a: AppView, log_h: usize, k: KeyPress)
    requires
        idle(a),
    ensures
        key_step(a, log_h, k).1 is Quit <==> k.key == Key::Char('q') || (k.key == Key::Char('c')
            && k.ctrl),
{
}

/// The keys that scroll: down and up by one record or by a page, to the first record, and to
/// the end, which alone goes on following.
pub proof fn scrolling_keys(a: AppView, log_h: usize)
    requires
        idle(a),
        a.scroll < usize::MAX - log_h,
        log_h > 0,
    ensures
        ({
            let down = key_step(a, log_h, press('j')).0;
            down.scroll == a.scroll + 1 && !down.follow
        }),
        key_step(a, log_h, other(Key::Down)).0 == key_step(a, log_h, press('j')).0,
        ({
            let up = key_step(a, log_h, press('k')).0;
            up.scroll == (if a.scroll == 0 {
                0
            } else {
                a.scroll - 1
            }) && !up.follow
        }),
        key_step(a, log_h, other(Key::Up)).0 == key_step(a, log_h, press('k')).0,
        ({
            let page = key_step(a, log_h, other(Key::PageDown)).0;
            page.scroll == a.scroll + log_h && !page.follow
        }),
        ({
            let page = key_step(a, log_h, other(Key::PageUp)).0;
            page.scroll == (if a.scroll <= log_h {
                0
            } else {
                a.scroll - log_h
            }) && !page.follow
        }),
        ({
            let top = key_step(a, log_h, press('g')).0;
            top.scroll == 0 && !top.follow
        }),
        key_step(a, log_h, other(Key::Home)).0 == key_step(a, log_h, press('g')).0,
        ({
            let end = key_step(a, log_h, press('G')).0;
            end.scroll == a.scroll && end.follow
        }),
        key_step(a, log_h, other(Key::End)).0 == key_step(a, log_h, press('G')).0,
{
}

/// The keys that switch something: each switches its own toggle, back with the next press, and
/// neither the records nor the filter.
pub proof fn toggle_keys(a: AppView, log_h: usize)
    requires
        idle(a),
    ensures
        key_step(a, log_h, press('f')).0.follow == !a.follow,
        key_step(a, log_h, press('f')).0.wrap == a.wrap,
        key_step(a, log_h, press('f')).0.rich == a.rich,
        key_step(a, log_h, press('w')).0.wrap == !a.wrap,
        key_step(a, log_h, press('w')).0.follow == a.follow,
        key_step(a, log_h, press('w')).0.rich == a.rich,
        key_step(a, log_h, press('r')).0.rich == !a.rich,
        key_step(a, log_h, press('r')).0.wrap == a.wrap,
        key_step(a, log_h, press('r')).0.follow == a.follow,
        key_step(a, log_h, press('f')).0.events == a.events,
        key_step(a, log_h, press('w')).0.events == a.events,
        key_step(a, log_h, press('r')).0.events == a.events,
        key_step(a, log_h, press('w')).0.filter == a.filter,
{
}

/// The keys that open an editor open the one of their kind: `y` that of the filter with its
/// text kept, `/` that of the search and `:` the command bar, both empty.
pub proof fn editor_keys(a: AppView, log_h: usize)
    requires
        idle(a),
    ensures
        ({
            let b = key_step(a, log_h, press('y')).0;
            b.filter_editing && !b.search_editing && !b.command_editing && b.filter_text
                == a.filter_text && b.filter_snapshot == a.filter_text
        }),
        ({
            let b = key_step(a, log_h, press('/')).0;
            b.search_editing && !b.filter_editing && !b.command_editing && b.search_text.len() == 0
        }),
        ({
            let b = key_step(a, log_h, press(':')).0;
            b.command_editing && !b.filter_editing && !b.search_editing && b.command_text.len() == 0
        }),
{
}

/// `c` forgets the records and counts them as dropped; `n` and `N` jump to the next and the
/// previous match; escape first ends a search and then the filter.
pub proof fn record_keys(a: AppView, log_h: usize)
    requires
        idle(a),
        a.dropped_events + a.events.len() <= usize::MAX,
    ensures
        ({
            let b = key_step(a, log_h, press('c')).0;
            b.events.len() == 0 && b.dropped_events == a.dropped_events + a.events.len()
                && b.scroll == 0 && b.filter == a.filter
        }),
        ({
            let b = key_step(a, log_h, press('n')).0;
            match jump_target(search_hits(a), a.scroll, true, false) {
                Some(to) => b.scroll == to && !b.follow,
                None => b.scroll == a.scroll && b.follow == a.follow,
            }
        }),
        ({
            let b = key_step(a, log_h, press('N')).0;
            match jump_target(search_hits(a), a.scroll, false, false) {
                Some(to) => b.scroll == to && !b.follow,
                None => b.scroll == a.scroll && b.follow == a.follow,
            }
        }),
        a.search_text.len() > 0 ==> key_step(a, log_h, other(Key::Esc)).0.search_text.len() == 0
            && key_step(a, log_h, other(Key::Esc)).0.filter == a.filter,
        a.search_text.len() == 0 && a.filter.formula is Some ==> key_step(
            a,
            log_h,
            other(Key::Esc),
        ).0.filter.formula is None && key_step(a, log_h, other(Key::Esc)).0.filter_text.len() == 0,
{
}

/// While a text is edited a character is appended and backspace takes one off, in the text
/// that is edited and in no other; what is typed does nothing else.
pub proof fn typing_edits_the_open_text(a: AppView, log_h: usize, c: char)
    requires
        !a.show_splash,
    ensures
        a.command_editing ==> ({
            let b = key_step(a, log_h, press(c)).0;
            b.command_text == a.command_text.push(c) && b.search_text == a.search_text
                && b.filter_text == a.filter_text && b.command_editing
        }),
        !a.command_editing && a.search_editing ==> ({
            let b = key_step(a, log_h, press(c)).0;
            b.search_text == a.search_text.push(c) && b.command_text == a.command_text
                && b.filter_text == a.filter_text && b.search_editing
        }),
        !a.command_editing && !a.search_editing && a.filter_editing ==> ({
            let b = key_step(a, log_h, press(c)).0;
            b.filter_text == a.filter_text.push(c) && b.search_text == a.search_text && b.filter
                == a.filter && b.filter_editing && (b.filter_error is None <==> filter_of(
                a.filter_text.push(c),
            ) is Ok)
        }),
        a.command_editing && a.command_text.len() > 0 ==> key_step(
            a,
            log_h,
            other(Key::Backspace),
        ).0.command_text == a.command_text.drop_last(),
        !a.command_editing && a.search_editing && a.search_text.len() > 0 ==> key_step(
            a,
            log_h,
            other(Key::Backspace),
        ).0.search_text == a.search_text.drop_last(),
        !a.command_editing && !a.search_editing && a.filter_editing && a.filter_text.len() > 0
            ==> key_step(a, log_h, other(Key::Backspace)).0.filter_text
            == a.filter_text.drop_last(),
{
}

/// Enter in the filter's editor applies the text where it reads as a filter, from the first
/// record on, and keeps the editor open where it does not; escape leaves the filter as it was.
pub proof fn enter_applies_the_filter(a: AppView, log_h: usize, f: FilterView)
    requires
        a.filter_editing,
        !a.command_editing,
        !a.search_editing,
        !a.show_splash,
    ensures
        a.filter_error is None && filter_of(a.filter_text) == Ok::<FilterView, Complaint>(f) ==> ({
            let b = key_step(a, log_h, other(Key::Enter)).0;
            b.filter == f && !b.filter_editing && b.scroll == 0 && b.events == a.events
        }),
        a.filter_error is Some ==> key_step(a, log_h, other(Key::Enter)).0 == a,
        ({
            let b = key_step(a, log_h, other(Key::Esc)).0;
            b.filter == a.filter && b.filter_text == a.filter_snapshot && !b.filter_editing
                && b.filter_error is None
        }),
{
}

/// Enter in the search's editor closes it and jumps to the first match from the anchor on;
/// escape forgets the search.
pub proof fn enter_searches(a: AppView, log_h: usize)
    requires
        a.search_editing,
        !a.command_editing,
        !a.show_splash,
    ensures
        ({
            let b = key_step(a, log_h, other(Key::Enter)).0;
            &&& !b.search_editing
            &&& b.search_text == a.search_text
            &&& match jump_target(search_hits(a), a.scroll, true, true) {
                Some(to) => b.scroll == to && !b.follow,
                None => b.scroll == a.scroll,
            }
        }),
        ({
            let b = key_step(a, log_h, other(Key::Esc)).0;
            !b.search_editing && b.search_text.len() == 0 && b.scroll == a.scroll
        }),
{
    let b = AppView { search_editing: false, ..a };
    assert(crate::tui::lowered_lines(b) == crate::tui::lowered_lines(a));
    assert(search_hits(b) == search_hits(a));
}

/// The splash is left with the first connection or with the source's failure. On it only `q`,
/// `/` and `:` do something.
pub proof fn the_splash_waits_for_traffic(a: AppView, log_h: usize, k: KeyPress, opened: u64)
    requires
        a.show_splash,
        !a.command_editing,
        !a.search_editing,
        !a.filter_editing,
    ensures
        crate::tui::splash_left(a, opened).show_splash <==> opened == 0 && a.source_error is None,
        k.key == Key::Char('q') ==> key_step(a, log_h, k).1 is Quit,
        k.key == Key::Char(':') || k.key == Key::Char('/') ==> key_step(
            a,
            log_h,
            k,
        ).0.command_editing,
        k.key != Key::Char('q') && k.key != Key::Char(':') && k.key != Key::Char('/') && !(k.key
            == Key::Char('c') && k.ctrl) ==> key_step(a, log_h, k).0 == a && !(key_step(
            a,
            log_h,
            k,
        ).1 is Quit),
{
}

// --- frames -------------------------------------------------------------------------------------

/// Ten rows of a terminal are not the records', but at least one is. Following, the last
/// records are shown; otherwise the anchor stays, but not beyond the last full view.
pub proof fn frames_keep_the_anchor_in_view(
    a: AppView,
    term_h: u16,
    opened: u64,
    rates: Seq<RateSample>,
)
    requires
        a.events.len() <= usize::MAX,
    ensures
        term_h >= 11 ==> log_rows(term_h) == term_h - 10,
        term_h < 11 ==> log_rows(term_h) == 1,
        ({
            let n = shown(a.events, a.filter).len() as int;
            let rows = log_rows(term_h) as int;
            let b = frame_begun(a, term_h, opened, rates);
            let last = if a.wrap || a.rich {
                if n == 0 {
                    0
                } else {
                    n - 1
                }
            } else if n <= rows {
                0
            } else {
                n - rows
            };
            &&& a.follow ==> b.scroll == last
            &&& !a.follow && a.scroll <= last ==> b.scroll == a.scroll
            &&& !a.follow && a.scroll > last ==> b.scroll == last
            &&& b.events == a.events && b.filter == a.filter && b.follow == a.follow
        }),
{
    crate::tui::shown_in_range(a.events, a.filter);
}

/// The scale of the chart is the highest rate seen: no sample and no earlier scale is above it,
/// and it is one of them.
pub proof fn peaks_are_the_highest_rates(rates: Seq<RateSample>, before: u64)
    ensures
        peak_in(rates, before) >= before,
        peak_out(rates, before) >= before,
        forall|i: int| 0 <= i < rates.len() ==> (#[trigger] rates[i]).msgs_in <= peak_in(rates, before),
        forall|i: int|
            0 <= i < rates.len() ==> (#[trigger] rates[i]).msgs_out <= peak_out(rates, before),
        peak_in(rates, before) == before || exists|i: int|
            0 <= i < rates.len() && (#[trigger] rates[i]).msgs_in == peak_in(rates, before),
        peak_out(rates, before) == before || exists|i: int|
            0 <= i < rates.len() && (#[trigger] rates[i]).msgs_out == peak_out(rates, before),
    decreases rates.len(),
{
    if rates.len() > 0 {
        let less = rates.drop_last();
        let n = rates.len() - 1;
        peaks_are_the_highest_rates(less, before);
        assert(rates[n] == rates.last());
        assert forall|i: int| 0 <= i < rates.len() implies (#[trigger] rates[i]).msgs_in <= peak_in(
            rates,
            before,
        ) && rates[i].msgs_out <= peak_out(rates, before) by {
            if i < n {
                assert(less[i] == rates[i]);
            }
        }
        if peak_in(less, before) != before {
            let i = choose|i: int|
                0 <= i < less.len() && (#[trigger] less[i]).msgs_in == peak_in(less, before);
            assert(rates[i].msgs_in == peak_in(less, before));
        }
        if peak_out(less, before) != before {
            let i = choose|i: int|
                0 <= i < less.len() && (#[trigger] less[i]).msgs_out == peak_out(less, before);
            assert(rates[i].msgs_out == peak_out(less, before));
        }
    }
}

// --- records ------------------------------------------------------------------------------------

/// A record enters at the end of the history; beyond 51,023 records the newest 50,000 stay. A
/// status line is kept for the splash too, the newest eight of them. Of a source that a session
/// has replaced nothing is taken.
pub proof fn records_enter_at_the_end(a: AppView, o: OutputView)
    requires
        a.events.len() < 51_024,
        a.status_tail.len() <= 8,
        a.dropped_events + a.events.len() < usize::MAX,
    ensures
        ({
            let b = pushed(a, o);
            &&& a.events.len() < 51_023 ==> b.events == a.events.push(o) && b.dropped_events
                == a.dropped_events && b.scroll == a.scroll
            &&& a.events.len() == 51_023 ==> b.events == a.events.push(o).skip(1_024)
                && b.dropped_events == a.dropped_events + 1_024
            &&& o is Status && a.status_tail.len() < 8 ==> b.status_tail == a.status_tail.push(
                o->Status_0,
            )
            &&& o is Status && a.status_tail.len() == 8 ==> b.status_tail == a.status_tail.skip(
                1,
            ).push(o->Status_0)
            &&& !(o is Status) ==> b.status_tail == a.status_tail
            &&& b.filter == a.filter && b.follow == a.follow
        }),
        a.accept_source_records ==> received(a, o) == pushed(a, o),
        !a.accept_source_records ==> received(a, o) == a,
{
    if o is Status && a.status_tail.len() == 8 {
        assert(a.status_tail.push(o->Status_0).skip(1) =~= a.status_tail.skip(1).push(
            o->Status_0,
        ));
    }
}

/// An opened session is shown from its start on with the newest in view, under the mode
/// `replay`, and nothing of the source comes in any more.
pub proof fn opened_sessions_replace_the_view(
    a: AppView,
    outputs: Seq<OutputView>,
    dropped: usize,
)
    ensures
        ({
            let b = session_opened(a, outputs, dropped);
            &&& b.events == outputs
            &&& b.dropped_events == dropped
            &&& b.mode == "replay"@
            &&& b.follow && b.scroll == 0
            &&& !b.accept_source_records && !b.recording && !b.show_splash
            &&& b.peak_msgs_in == 0 && b.peak_msgs_out == 0
            &&& b.filter == a.filter && b.filter_text == a.filter_text
        }),
{
}

/// What is said of saving, opening and replaying names the numbers and the path.
pub proof fn notices_name_numbers_and_path(a: AppView, path: Seq<char>, count: nat, dropped: nat)
    requires
        dropped > 0,
    ensures
        a.accept_source_records && a.dropped_events == 0 ==> recorded_text(a, path) =~= "recording "@
            + dec(a.events.len()) + " retained events + future traffic"@ + " to "@ + path,
        !a.accept_source_records && a.dropped_events == 0 ==> recorded_text(a, path) =~= "saved "@
            + dec(a.events.len()) + " retained replay events"@ + " to "@ + path,
        a.accept_source_records && a.dropped_events > 0 ==> recorded_text(a, path) =~= "recording "@
            + dec(a.events.len()) + " retained events + future traffic"@ + " to "@ + path + ("; "@
            + dec(a.dropped_events as nat) + " earlier events were outside history"@),
        opened_text(count, 0, path) == "opened "@ + dec(count) + " events from "@ + path,
        opened_text(count, dropped, path) == "opened newest "@ + dec(count) + " events from "@
            + path + "; "@ + dec(dropped) + " earlier events are outside history"@,
        replay_text(0) is None,
        replay_text(dropped) == Some(
            "replay: showing the newest "@ + dec(50_000) + " records; "@ + dec(dropped)
                + " earlier records are outside TUI history"@,
        ),
{
    reveal_strlit("");
    assert(""@ =~= Seq::<char>::empty());
    let head = if a.accept_source_records {
        "recording "@ + dec(a.events.len()) + " retained events + future traffic"@
    } else {
        "saved "@ + dec(a.events.len()) + " retained replay events"@
    } + " to "@ + path;
    assert(head + ""@ =~= head);
}

/// A search finds the shown records whose line holds its text, whatever the case of either, and
/// no search finds nothing.
pub proof fn searches_ignore_case(a: AppView, i: int)
    requires
        a.events.len() <= usize::MAX,
        0 <= i < shown(a.events, a.filter).len(),
    ensures
        a.search_text.len() == 0 ==> search_hits(a).len() == 0,
        a.search_text.len() > 0 ==> (search_hits(a).contains(i as usize) <==> has_run(
            lowercase(rendered_text(a.events[shown(a.events, a.filter)[i] as int])),
            lowercase(a.search_text),
        )),
{
    shown_in_range(a.events, a.filter);
    let lines = lowered_lines(a);
    assert(lines.len() == shown(a.events, a.filter).len());
    if a.search_text.len() > 0 {
        hits_are_the_matches(lines, lowercase(a.search_text));
        let found = search_hits(a);
        if found.contains(i as usize) {
            let k = choose|k: int| 0 <= k < found.len() && found[k] == i as usize;
            assert(has_run(lines[found[k] as int], lowercase(a.search_text)));
        }
        if has_run(lines[i], lowercase(a.search_text)) {
            assert(found.contains(i as usize));
        }
    }
}

/// A filter's error names what is wrong and where.
pub proof fn filter_errors_name_the_byte(c: Complaint)
    ensures
        complaint_text(c) == c.message + " at byte "@ + dec(c.position),
{
}

} // verus!
