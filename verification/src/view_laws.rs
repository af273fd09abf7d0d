//! What is on the screen: the text of the records, their tables, the figures and the bars.
use crate::output::{DetailView, OutputView};
use crate::render::ColumnView;
use crate::screen::{
    border_tint_of, caption_text, combined, command_bar_view, draws_window, figures_of,
    filter_bar_view, filter_title_text, footer_view, grouped, heading_text, marked, newest_first,
    notice_views, source_views, splash_views, stat_views, status_view, total_messages, window_lines,
};
use crate::state::RateSample;
use crate::text::dec;
use crate::tui::{shown, App, AppView};
use crate::view::{
    cell_row, field_row, find_from, header_spans, height_with, icon_of, kind_end_of, kind_start_of,
    known_type, line_spans, lines_of, plain, run_at, tag_of, tinted, type_text, LineView, Look,
    SpanView, Tint,
};
use crate::wire::FieldView;
use vstd::prelude::*;

verus! {

// --- lines ---------------------------------------------------------------------------------------

/// The text of some spans, one after the other.
pub open spec fn spans_text(spans: Seq<SpanView>) -> Seq<char>
    decreases spans.len(),
{
    if spans.len() == 0 {
        Seq::empty()
    } else {
        spans_text(spans.drop_last()) + spans.last().text
    }
}

proof fn lemma_spans(spans: Seq<SpanView>, s: SpanView)
    ensures
        spans_text(spans.push(s)) == spans_text(spans) + s.text,
{
    assert(spans.push(s).drop_last() =~= spans);
}

proof fn lemma_found(s: Seq<char>, from: int, needle: Seq<char>)
    ensures
        match find_from(s, from, needle) {
            Some(i) => from <= i && 0 <= i && i + needle.len() <= s.len() && run_at(s, i, needle)
                && forall|k: int| from <= k < i ==> !run_at(s, k, needle),
            None => from >= 0 ==> forall|k: int| from <= k ==> !run_at(s, k, needle),
        },
    decreases s.len() + 1 - from,
{
    if 0 <= from <= s.len() && !run_at(s, from, needle) {
        lemma_found(s, from + 1, needle);
    }
}

/// However a line is coloured, its text is all there and nothing else: the spans together are
/// the line.
#[verifier::rlimit(30)]
pub proof fn colours_leave_the_text(line: Seq<char>)
    ensures
        spans_text(line_spans(line)) == line,
{
    let none = Seq::<SpanView>::empty();
    let spans = line_spans(line);
    lemma_found(line, 0, "[F→B]"@);
    lemma_found(line, 0, "[B→F]"@);
    if spans.len() == 1 {
        assert(spans =~= none.push(spans[0]));
        lemma_spans(none, spans[0]);
        assert(spans_text(spans) =~= line);
    } else {
        let (tint, from, to) = tag_of(line)->0;
        let start = kind_start_of(line, to);
        let end = kind_end_of(line, start);
        lemma_found(line, start, ": "@);
        let a = none.push(spans[0]);
        let b = a.push(spans[1]);
        let c = b.push(spans[2]);
        let d = c.push(spans[3]);
        assert(spans =~= d.push(spans[4]));
        lemma_spans(none, spans[0]);
        lemma_spans(a, spans[1]);
        lemma_spans(b, spans[2]);
        lemma_spans(c, spans[3]);
        lemma_spans(d, spans[4]);
        assert(spans_text(spans) =~= line);
    }
}

/// Warnings are red and connection notices yellow; what goes to the server is cyan and what
/// comes from it magenta, at its tag and its kind. Any other line is plain.
pub proof fn lines_are_coloured_by_what_they_are(line: Seq<char>)
    ensures
        crate::text::has_run(line, "⚠"@) ==> line_spans(line) == seq![tinted(line, Tint::Red)],
        !crate::text::has_run(line, "⚠"@) && crate::text::has_run(line, "==="@) ==> line_spans(line)
            == seq![tinted(line, Tint::Yellow)],
        find_from(line, 0, "[F→B]"@) is Some ==> (tag_of(line) matches Some((tint, _, _))
            && tint is Cyan),
        find_from(line, 0, "[F→B]"@) is None && find_from(line, 0, "[B→F]"@) is Some ==> (tag_of(
            line,
        ) matches Some((tint, _, _)) && tint is Magenta),
        find_from(line, 0, "[F→B]"@) is None && find_from(line, 0, "[B→F]"@) is None
            && !crate::text::has_run(line, "⚠"@) && !crate::text::has_run(line, "==="@)
            ==> line_spans(line) == seq![plain(line)],
        tag_of(line) matches Some((tint, _, _)) ==> header_spans(line).len() == 4 && header_spans(
            line,
        )[1].tint == tint && header_spans(line)[3].tint == tint && header_spans(line)[1].bold
            && header_spans(line)[3].bold && header_spans(line)[0].tint is DarkGray,
{
}

/// A record is one line, or, in the rich view, where it has columns, a header and one row for
/// each column in order.
pub proof fn records_are_lines_or_tables(
    o: OutputView,
    cells: Seq<ColumnView>,
    fields: Seq<FieldView>,
    i: int,
)
    ensures
        !(o is Message) || o->detail is None ==> lines_of(o, Look { rich: true, wrap: false }).len()
            == 1 && lines_of(o, Look { rich: true, wrap: true }).len() == 1,
        lines_of(o, Look { rich: false, wrap: false }).len() == 1,
        o is Message && o->detail == Some(DetailView::DataRow(cells)) ==> lines_of(
            o,
            Look { rich: true, wrap: false },
        ).len() == 1 + cells.len() && (0 <= i < cells.len() ==> lines_of(
            o,
            Look { rich: true, wrap: false },
        )[1 + i] == cell_row(cells[i])),
        o is Message && o->detail == Some(DetailView::RowDescription(fields)) ==> lines_of(
            o,
            Look { rich: true, wrap: false },
        ).len() == 1 + fields.len() && (0 <= i < fields.len() ==> lines_of(
            o,
            Look { rich: true, wrap: false },
        )[1 + i] == field_row(fields[i])),
{
}

/// The row of a cell shows its name, its value and its type; that of a described column its
/// name and its type.
pub proof fn rows_show_name_value_and_type(c: ColumnView, f: FieldView)
    ensures
        cell_row(c).spans.len() >= 6,
        cell_row(c).spans[1].text == c.name && cell_row(c).spans[1].bold,
        cell_row(c).spans[2].text == " = "@,
        cell_row(c).spans[3].text == c.value,
        cell_row(c).spans.last().text == type_text(c.type_oid),
        field_row(f).spans[1].text == f.name && field_row(f).spans[1].bold,
        field_row(f).spans.last().text == type_text(f.type_oid),
{
}

/// A type goes by its name where it is one of the common ones, else by its number.
pub proof fn types_go_by_name(oid: u32)
    ensures
        type_text(16) == "bool"@ && type_text(17) == "bytea"@ && type_text(18) == "char"@
            && type_text(19) == "name"@ && type_text(20) == "int8"@ && type_text(21) == "int2"@
            && type_text(23) == "int4"@ && type_text(25) == "text"@ && type_text(114) == "json"@,
        type_text(700) == "float4"@ && type_text(701) == "float8"@ && type_text(1043) == "varchar"@
            && type_text(1082) == "date"@ && type_text(1114) == "timestamp"@ && type_text(1184)
            == "timestamptz"@ && type_text(1186) == "interval"@ && type_text(1700) == "numeric"@
            && type_text(2950) == "uuid"@ && type_text(3802) == "jsonb"@,
        known_type(oid) is None ==> type_text(oid) == "oid="@ + dec(oid as nat),
        oid > 3802 ==> known_type(oid) is None,
{
}

/// Types of a sort share a glyph and a colour: whole numbers, fractions, texts, documents and
/// times.
pub proof fn types_of_a_sort_look_alike(oid: u32)
    ensures
        icon_of(20) == icon_of(21) && icon_of(21) == icon_of(23) && icon_of(23) is Some,
        icon_of(700) == icon_of(701) && icon_of(701) == icon_of(1700) && icon_of(1700) is Some,
        icon_of(25) == icon_of(1043) && icon_of(18) == icon_of(19) && icon_of(19) == icon_of(25)
            && icon_of(25) == icon_of(1042) && icon_of(25) is Some,
        icon_of(114) == icon_of(3802) && icon_of(114) is Some,
        icon_of(1114) == icon_of(1184) && icon_of(1184) == icon_of(1186) && icon_of(1083)
            == icon_of(1266) && icon_of(1083) == icon_of(1114) && icon_of(1114) is Some,
        icon_of(16) is Some && icon_of(17) is Some && icon_of(1082) is Some && icon_of(2950) is Some,
        icon_of(20) != icon_of(25) && icon_of(20) != icon_of(700) && icon_of(25) != icon_of(114)
            && icon_of(25) != icon_of(1114) && icon_of(16) != icon_of(17),
        oid > 3802 ==> icon_of(oid) is None,
{
}

/// Without wrapping a record takes as many rows as it has lines; with it as many as the lines
/// take wrapped, but at least one.
pub proof fn heights_count_rows(o: OutputView, rich: bool, wrapped: usize)
    ensures
        height_with(o, Look { rich, wrap: false }, wrapped) == lines_of(
            o,
            Look { rich, wrap: false },
        ).len(),
        wrapped > 0 ==> height_with(o, Look { rich, wrap: true }, wrapped) == wrapped,
        height_with(o, Look { rich, wrap: true }, 0) == 1,
{
}

/// The lines of a window are those of its records in order.
pub proof fn windows_show_their_records_in_order(a: AppView, start: int, mid: int, end: int)
    requires
        start <= mid <= end,
    ensures
        window_lines(a, start, end) == window_lines(a, start, mid) + window_lines(a, mid, end),
        window_lines(a, start, start + 1) == marked(
            lines_of(
                a.events[shown(a.events, a.filter)[start] as int],
                Look { rich: a.rich, wrap: a.wrap },
            ),
            crate::search::lowercase(
                crate::output::rendered_text(
                    a.events[shown(a.events, a.filter)[start] as int],
                ),
            ),
            crate::search::lowercase(a.search_text),
        ),
    decreases end - mid,
{
    assert(window_lines(a, start, start) =~= Seq::<LineView>::empty());
    assert(window_lines(a, start, start + 1) =~= crate::screen::record_lines(
        a,
        a.events[shown(a.events, a.filter)[start] as int],
    ));
    if mid < end {
        windows_show_their_records_in_order(a, start, mid, end - 1);
        assert(window_lines(a, start, end) =~= window_lines(a, start, mid) + window_lines(
            a,
            mid,
            end,
        ));
    } else {
        assert(window_lines(a, mid, end) =~= Seq::<LineView>::empty());
        assert(window_lines(a, start, end) =~= window_lines(a, start, mid) + window_lines(
            a,
            mid,
            end,
        ));
    }
}

/// A search makes the records stand out in which its text occurs, and no others; their text
/// stays.
pub proof fn matches_stand_out(
    lines: Seq<LineView>,
    lowered: Seq<char>,
    needle: Seq<char>,
    i: int,
)
    requires
        0 <= i < lines.len(),
        !lines[i].highlight,
    ensures
        marked(lines, lowered, needle).len() == lines.len(),
        marked(lines, lowered, needle)[i].spans == lines[i].spans,
        marked(lines, lowered, needle)[i].highlight <==> needle.len() > 0 && crate::text::has_run(
            lowered,
            needle,
        ),
{
}

// --- figures -------------------------------------------------------------------------------------

/// Digits are grouped by three from the right.
pub proof fn digits_are_grouped_by_three(front: Seq<char>, last: Seq<char>)
    requires
        last.len() == 3,
    ensures
        grouped(last) == last,
        front.len() > 0 ==> grouped(front + last) == grouped(front) + seq![','] + last,
        0 < front.len() <= 3 ==> grouped(front) == front,
{
    let s = front + last;
    assert(s.take(s.len() - 3) =~= front);
    assert(s.skip(s.len() - 3) =~= last);
}

/// The rate now is that of the last sample both ways, the peak the highest of them, and the
/// average what they come to divided by how many they are.
pub proof fn figures_sum_up_the_samples(rates: Seq<RateSample>, r: RateSample)
    requires
        forall|i: int|
            0 <= i < rates.len() ==> (#[trigger] rates[i]).msgs_in + rates[i].msgs_out <= u64::MAX,
        r.msgs_in + r.msgs_out <= u64::MAX,
    ensures
        combined(r) == r.msgs_in + r.msgs_out,
        figures_of(rates.push(r)).now == r.msgs_in + r.msgs_out,
        figures_of(Seq::empty()).now == 0 && figures_of(Seq::empty()).avg == 0 && figures_of(
            Seq::empty(),
        ).peak == 0,
        figures_of(rates.push(r)).peak == if r.msgs_in + r.msgs_out > figures_of(rates).peak {
            (r.msgs_in + r.msgs_out) as u64
        } else {
            figures_of(rates).peak
        },
        total_messages(rates.push(r)) == total_messages(rates) + r.msgs_in + r.msgs_out,
        total_messages(Seq::empty()) == 0,
        rates.len() > 0 ==> figures_of(rates).avg * rates.len() <= total_messages(rates) < (figures_of(
            rates,
        ).avg + 1) * rates.len(),
{
    let more = rates.push(r);
    assert(more.drop_last() =~= rates);
    assert(more.last() == r);
    if rates.len() > 0 {
        lemma_average(rates);
        let n = rates.len() as int;
        let t = total_messages(rates) as int;
        vstd::arithmetic::div_mod::lemma_fundamental_div_mod(t, n);
        let q = t / n;
        assert(figures_of(rates).avg == q);
        assert(t == n * q + t % n);
        assert(0 <= t % n < n) by {
            vstd::arithmetic::div_mod::lemma_mod_bound(t, n);
        }
        assert(q * n == n * q) by (nonlinear_arith);
        assert((q + 1) * n == n * q + n) by (nonlinear_arith);
    }
}

proof fn lemma_average(rates: Seq<RateSample>)
    requires
        rates.len() > 0,
    ensures
        total_messages(rates) <= u64::MAX * rates.len(),
        total_messages(rates) / rates.len() <= u64::MAX,
{
    lemma_total(rates);
    let n = rates.len() as int;
    let t = total_messages(rates) as int;
    vstd::arithmetic::div_mod::lemma_div_is_ordered(t, u64::MAX * n, n);
    vstd::arithmetic::div_mod::lemma_div_multiples_vanish(u64::MAX as int, n);
    assert(u64::MAX * n == n * u64::MAX) by (nonlinear_arith);
}

proof fn lemma_total(rates: Seq<RateSample>)
    ensures
        total_messages(rates) <= u64::MAX * rates.len(),
    decreases rates.len(),
{
    if rates.len() > 0 {
        lemma_total(rates.drop_last());
        let n = rates.len() as int;
        assert(u64::MAX * n == u64::MAX * (n - 1) + u64::MAX) by (nonlinear_arith);
    }
}

/// The chart runs from the newest sample to the oldest, for each direction its own.
pub proof fn charts_run_backward(rates: Seq<RateSample>, i: int)
    requires
        0 <= i < rates.len(),
    ensures
        newest_first(rates, true).len() == rates.len(),
        newest_first(rates, true)[i] == rates[rates.len() - 1 - i].msgs_in,
        newest_first(rates, false)[i] == rates[rates.len() - 1 - i].msgs_out,
{
}

// --- headings and bars ------------------------------------------------------------------------------

/// The heading names the mode and counts the records, and with a filter those it lets through
/// of them; the title shows the filter's text, and the border its state.
pub proof fn headings_count_the_records(a: AppView)
    ensures
        a.filter.formula is None ==> heading_text(a) == " tapgres — "@ + a.mode + " mode · "@ + dec(
            a.events.len(),
        ) + " events "@,
        a.filter.formula is Some ==> heading_text(a) == " tapgres — "@ + a.mode + " mode · "@ + dec(
            shown(a.events, a.filter).len(),
        ) + "/"@ + dec(a.events.len()) + " matching "@,
        a.filter_text.len() == 0 ==> filter_title_text(a) == " messages "@,
        a.filter_text.len() > 0 ==> filter_title_text(a) == " messages · display filter: "@
            + a.filter_text + " "@,
        border_tint_of(a) is Red <==> a.filter_error is Some,
        border_tint_of(a) is Yellow <==> a.filter_error is None && a.filter.formula is Some,
        border_tint_of(a) is Green <==> a.filter_error is None && a.filter.formula is None,
{
}

/// The caption and a column of the header show what they are given, in its place.
pub proof fn captions_show_their_figures(
    f: crate::screen::RateFigures,
    label: Seq<char>,
    big: Seq<char>,
    tint: Tint,
    sub: Seq<char>,
    rate: Seq<char>,
)
    ensures
        caption_text(f) == "now "@ + grouped(dec(f.now as nat)) + " avg "@ + grouped(
            dec(f.avg as nat),
        ) + " peak "@ + grouped(dec(f.peak as nat)),
        ({
            let lines = stat_views(label, big, tint, sub, rate);
            &&& lines.len() == 3
            &&& lines[0].spans[0].text == label + " "@
            &&& lines[0].spans[1].text == big && lines[0].spans[1].tint == tint
            &&& lines[1].spans[0].text == sub
            &&& lines[2].spans[0].text == rate
        }),
{
}

/// The footer is the command bar while a command is typed, else the search or the filter that
/// is edited, else the active search with its number of matches, else the last notice, else
/// the keys, with what is on in green.
pub proof fn the_footer_shows_what_is_at_hand(a: AppView, notice: Seq<char>, error: bool)
    ensures
        a.command_editing ==> footer_view(a) == command_bar_view(a)
            && footer_view(a).line.spans[1].text == a.command_text,
        !a.command_editing && a.search_editing ==> footer_view(a).line.spans[0].text
            == " search › "@ + a.search_text + "█"@,
        !a.command_editing && !a.search_editing && a.filter_editing ==> footer_view(a)
            == filter_bar_view(a) && footer_view(a).line.spans[0].text == " display filter › "@
            + a.filter_text + "█"@ && (footer_view(a).line.spans[0].tint is Red
            <==> a.filter_error is Some),
        !a.command_editing && !a.search_editing && !a.filter_editing && a.search_text.len() > 0
            ==> footer_view(a).line.spans[0].text == " search: "@ + a.search_text + " "@
            && footer_view(a).line.spans[1].text == "· "@ + dec(crate::tui::search_hits(a).len())
            + " matches · n/N next/prev · Esc clear"@,
        !a.command_editing && !a.search_editing && !a.filter_editing && a.search_text.len() == 0
            && a.command_notice == Some((notice, error)) ==> footer_view(a).line.spans[0].text
            == " "@ + notice && (footer_view(a).line.spans[0].tint is Red <==> error),
        !a.command_editing && !a.search_editing && !a.filter_editing && a.search_text.len() == 0
            && a.command_notice is None ==> ({
            let spans = footer_view(a).line.spans;
            &&& spans.len() == 9
            &&& spans[1].text == "follow"@ && (spans[1].tint is Green <==> a.follow)
            &&& spans[3].text == "wrap"@ && (spans[3].tint is Green <==> a.wrap)
            &&& spans[5].text == "rich"@ && (spans[5].tint is Green <==> a.rich)
            &&& spans[7].text == "display filter"@ && (spans[7].tint is Green
                <==> a.filter.formula is Some)
        }),
{
}

/// The splash shows the lines of the source and the recent status lines, warnings in red, and
/// ends with what is waited for, or that the source failed.
pub proof fn the_splash_shows_source_and_status(
    a: AppView,
    lines: Seq<Seq<char>>,
    line: Seq<char>,
    i: int,
)
    ensures
        0 <= i < lines.len() ==> source_views(lines).len() == lines.len() && source_views(
            lines,
        )[i].spans[0].text == "  "@ + lines[i],
        status_view(line).spans[0].text == "  "@ + line,
        status_view(line).spans[0].tint is Red <==> crate::text::has_run(line, "⚠"@),
        ({
            let last = splash_views(a).last().spans[0].text;
            &&& a.source_error is Some ==> last == "  source failed — see above · press q to quit"@
            &&& a.source_error is None ==> last
                == "  waiting for traffic…  press : for commands · q to quit"@
        }),
        notice_views(Some((line, true)))[1].spans[0].text == "  "@ + line && notice_views(
            Some((line, true)),
        )[1].spans[0].tint is Red,
        notice_views(Some((line, false)))[1].spans[0].tint is Green,
        notice_views(None).len() == 0,
{
}

/// In the plain view a record is a row: as many are drawn from the anchor on as there are rows,
/// or all that are left.
pub proof fn plain_views_draw_a_record_a_row(app: App, log_h: usize, width: u16, start: int, end: int)
    requires
        !app.wrap,
        !app.rich,
        app.scroll <= app.visible@.len(),
        draws_window(app, log_h, width, start, end),
    ensures
        start == app.scroll,
        end - start <= log_h,
        end <= app.visible@.len(),
        end < app.visible@.len() ==> end - start == log_h,
{
}

} // verus!
