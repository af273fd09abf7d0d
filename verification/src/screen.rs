//! What the interactive view shows: its headings, its records, its footer and its splash.
use crate::output::{rendered_text, OutputView};
use crate::search::lowercase;
use crate::state::RateSample;
use crate::text::{chars_of, dec, has_run, push_dec, split, split_chars, string_of, text_contains};
use crate::tui::{search_hits, shown, shown_in_range, App, AppView, BANNER};
use crate::view::{
    bold, event_lines, heights_of, line_of, line_views, lines_of, plain, shows_window, span,
    span_views, tinted, view_window, window_wrappable, window_wraps, LineView, Look, SpanView,
    StyledLine, StyledSpan, Tint,
};
use vstd::prelude::*;

verus! {

// --- numbers --------------------------------------------------------------------------------

/// Digits in groups of three, from the right.
pub open spec fn grouped(digits: Seq<char>) -> Seq<char>
    decreases digits.len(),
{
    if digits.len() <= 3 {
        digits
    } else {
        grouped(digits.take(digits.len() - 3)) + seq![','] + digits.skip(digits.len() - 3)
    }
}

fn push_grouped(s: &mut String, v: &Vec<char>, end: usize)
    requires
        end <= v@.len(),
    ensures
        final(s)@ == old(s)@ + grouped(v@.take(end as int)),
    decreases end,
{
    let ghost before = s@;
    let ghost digits = v@.take(end as int);
    if end <= 3 {
        let part = string_of(v, 0, end);
        s.append(part.as_str());
        assert(v@.subrange(0, end as int) =~= digits);
    } else {
        push_grouped(s, v, end - 3);
        s.push(',');
        let part = string_of(v, end - 3, end);
        s.append(part.as_str());
        assert(v@.take(end - 3) =~= digits.take(digits.len() - 3));
        assert(part@ =~= digits.skip(digits.len() - 3));
        assert(s@ =~= before + grouped(digits));
    }
}

/// Groups a number with thousands separators: `8521` is `8,521`.
pub fn with_commas(n: u64) -> (s: String)
    ensures
        s@ == grouped(dec(n as nat)),
{
    let mut plain_digits = String::new();
    push_dec(&mut plain_digits, n);
    assert(plain_digits@ =~= dec(n as nat));
    let v = chars_of(plain_digits.as_str());
    let mut s = String::new();
    push_grouped(&mut s, &v, v.len());
    assert(v@.take(v@.len() as int) =~= v@);
    assert(s@ =~= grouped(dec(n as nat)));
    s
}

/// What is left of a text without its commas.
pub open spec fn without_commas(s: Seq<char>) -> Seq<char>
    decreases s.len(),
{
    if s.len() == 0 {
        s
    } else if s.last() == ',' {
        without_commas(s.drop_last())
    } else {
        without_commas(s.drop_last()).push(s.last())
    }
}

proof fn without_commas_joins(a: Seq<char>, b: Seq<char>)
    ensures
        without_commas(a + b) == without_commas(a) + without_commas(b),
    decreases b.len(),
{
    if b.len() == 0 {
        assert(a + b =~= a);
        assert(without_commas(a) + without_commas(b) =~= without_commas(a));
    } else {
        assert((a + b).drop_last() =~= a + b.drop_last());
        without_commas_joins(a, b.drop_last());
        assert(without_commas(a + b) =~= without_commas(a) + without_commas(b));
    }
}

proof fn comma_free_stays(s: Seq<char>)
    requires
        !s.contains(','),
    ensures
        without_commas(s) == s,
    decreases s.len(),
{
    if s.len() > 0 {
        assert(s[s.len() - 1] != ',');
        assert forall|i: int| 0 <= i < s.drop_last().len() implies s.drop_last()[i] != ',' by {
            assert(s.drop_last()[i] == s[i]);
        }
        comma_free_stays(s.drop_last());
        assert(s.drop_last().push(s.last()) =~= s);
    }
}

/// Without its separators a grouped number reads as it did before.
pub proof fn grouping_adds_commas_alone(digits: Seq<char>)
    requires
        !digits.contains(','),
    ensures
        without_commas(grouped(digits)) == digits,
    decreases digits.len(),
{
    if digits.len() <= 3 {
        comma_free_stays(digits);
    } else {
        let head = digits.take(digits.len() - 3);
        let tail = digits.skip(digits.len() - 3);
        assert forall|i: int| 0 <= i < head.len() implies head[i] != ',' by {
            assert(head[i] == digits[i]);
        }
        assert forall|i: int| 0 <= i < tail.len() implies tail[i] != ',' by {
            assert(tail[i] == digits[i + digits.len() - 3]);
        }
        grouping_adds_commas_alone(head);
        comma_free_stays(tail);
        without_commas_joins(grouped(head) + seq![','], tail);
        without_commas_joins(grouped(head), seq![',']);
        assert(seq![','].drop_last() =~= seq![]);
        reveal_with_fuel(without_commas, 2);
        assert(head + seq![] + tail =~= digits);
    }
}

// --- rates ----------------------------------------------------------------------------------

/// The messages of a sample, both ways.
pub open spec fn combined(r: RateSample) -> u64 {
    if r.msgs_in + r.msgs_out > u64::MAX {
        u64::MAX
    } else {
        (r.msgs_in + r.msgs_out) as u64
    }
}

/// The messages of some samples together.
pub open spec fn total_messages(rates: Seq<RateSample>) -> nat
    decreases rates.len(),
{
    if rates.len() == 0 {
        0
    } else {
        total_messages(rates.drop_last()) + combined(rates.last()) as nat
    }
}

/// The busiest of some samples.
pub open spec fn busiest(rates: Seq<RateSample>) -> u64
    decreases rates.len(),
{
    if rates.len() == 0 {
        0
    } else if combined(rates.last()) > busiest(rates.drop_last()) {
        combined(rates.last())
    } else {
        busiest(rates.drop_last())
    }
}

/// Messages per second: now, on average and at most over the samples.
pub struct RateFigures {
    pub now: u64,
    pub avg: u64,
    pub peak: u64,
}

/// The figures of some samples.
pub open spec fn figures_of(rates: Seq<RateSample>) -> RateFigures {
    RateFigures {
        now: if rates.len() == 0 {
            0
        } else {
            combined(rates.last())
        },
        avg: if rates.len() == 0 {
            0
        } else {
            (total_messages(rates) / rates.len()) as u64
        },
        peak: busiest(rates),
    }
}

proof fn average_fits(total: nat, n: nat)
    requires
        n > 0,
        total <= n * u64::MAX,
    ensures
        total / n <= u64::MAX,
{
    assert(total / n <= u64::MAX) by (nonlinear_arith)
        requires
            n > 0,
            total <= n * u64::MAX,
    ;
}

pub fn rate_figures(rates: &Vec<RateSample>) -> (f: RateFigures)
    ensures
        f == figures_of(rates@),
{
    let n: usize = rates.len();
    if n == 0 {
        return RateFigures { now: 0, avg: 0, peak: 0 };
    }
    let mut total: u128 = 0;
    let mut peak: u64 = 0;
    assert(rates@.take(0) =~= seq![]);
    for i in 0..n
        invariant
            n == rates@.len(),
            total == total_messages(rates@.take(i as int)),
            total <= i * u64::MAX,
            peak == busiest(rates@.take(i as int)),
    {
        let both: u64 = rates[i].msgs_in.saturating_add(rates[i].msgs_out);
        proof {
            assert(rates@.take(i + 1).drop_last() =~= rates@.take(i as int));
            assert(rates@.take(i + 1).last() == rates@[i as int]);
            assert(i * u64::MAX + u64::MAX == (i + 1) * u64::MAX) by (nonlinear_arith);
            assert(i * u64::MAX + u64::MAX <= u128::MAX) by (nonlinear_arith)
                requires
                    0 <= i < usize::MAX,
            ;
        }
        total = total + both as u128;
        if both > peak {
            peak = both;
        }
    }
    proof {
        assert(rates@.take(n as int) =~= rates@);
        average_fits(total as nat, n as nat);
    }
    let avg: u64 = (total / n as u128) as u64;
    let last = &rates[n - 1];
    let now: u64 = last.msgs_in.saturating_add(last.msgs_out);
    RateFigures { now, avg, peak }
}

/// The chart's series, the newest sample first.
pub open spec fn newest_first(rates: Seq<RateSample>, incoming: bool) -> Seq<u64> {
    Seq::new(
        rates.len(),
        |i: int|
            if incoming {
                rates[rates.len() - 1 - i].msgs_in
            } else {
                rates[rates.len() - 1 - i].msgs_out
            },
    )
}

pub fn chart_series(rates: &Vec<RateSample>, incoming: bool) -> (v: Vec<u64>)
    ensures
        v@ == newest_first(rates@, incoming),
{
    let mut v: Vec<u64> = Vec::new();
    let n: usize = rates.len();
    for i in 0..n
        invariant
            n == rates@.len(),
            v@ =~= newest_first(rates@, incoming).take(i as int),
    {
        let r = &rates[n - 1 - i];
        if incoming {
            v.push(r.msgs_in);
        } else {
            v.push(r.msgs_out);
        }
    }
    assert(v@ =~= newest_first(rates@, incoming));
    v
}

/// The caption of the chart.
pub open spec fn caption_text(f: RateFigures) -> Seq<char> {
    "now "@ + grouped(dec(f.now as nat)) + " avg "@ + grouped(dec(f.avg as nat)) + " peak "@
        + grouped(dec(f.peak as nat))
}

pub fn chart_caption(rates: &Vec<RateSample>) -> (s: String)
    ensures
        s@ == caption_text(figures_of(rates@)),
{
    let f = rate_figures(rates);
    let mut s = String::new();
    s.append("now ");
    s.append(with_commas(f.now).as_str());
    s.append(" avg ");
    s.append(with_commas(f.avg).as_str());
    s.append(" peak ");
    s.append(with_commas(f.peak).as_str());
    assert(s@ =~= caption_text(f));
    s
}

/// A column of the metrics header: the label beside its value, a line below and a rate.
pub open spec fn stat_views(
    label: Seq<char>,
    big: Seq<char>,
    tint: Tint,
    sub: Seq<char>,
    rate: Seq<char>,
) -> Seq<LineView> {
    seq![
        line_of(seq![tinted(label + " "@, Tint::DarkGray), bold(big, tint)]),
        line_of(seq![bold(sub, Tint::Gray)]),
        line_of(seq![bold(rate, Tint::Gray)]),
    ]
}

fn one_span(text: String, tint: Tint, heavy: bool) -> (l: StyledLine)
    ensures
        l@ == line_of(seq![SpanView { text: text@, tint, bold: heavy }]),
{
    let mut spans: Vec<StyledSpan> = Vec::new();
    spans.push(span(text, tint, heavy));
    assert(span_views(spans@) =~= seq![SpanView { text: text@, tint, bold: heavy }]);
    StyledLine { spans, highlight: false }
}

pub fn stat_text(label: &str, big: String, tint: Tint, sub: String, rate: String) -> (lines: Vec<
    StyledLine,
>)
    ensures
        line_views(lines@) == stat_views(label@, big@, tint, sub@, rate@),
{
    let mut head = String::new();
    head.append(label);
    head.append(" ");
    assert(head@ =~= label@ + " "@);
    let mut spans: Vec<StyledSpan> = Vec::new();
    spans.push(span(head, Tint::DarkGray, false));
    spans.push(span(big, tint, true));
    assert(span_views(spans@) =~= seq![
        tinted(label@ + " "@, Tint::DarkGray),
        bold(big@, tint),
    ]);
    let mut lines: Vec<StyledLine> = Vec::new();
    lines.push(StyledLine { spans, highlight: false });
    lines.push(one_span(sub, Tint::Gray, true));
    lines.push(one_span(rate, Tint::Gray, true));
    assert(line_views(lines@) =~= stat_views(label@, big@, tint, sub@, rate@));
    lines
}

// --- headings ---------------------------------------------------------------------------------

/// The heading: how many records there are, or how many of them the filter lets through.
pub open spec fn heading_text(a: AppView) -> Seq<char> {
    if a.filter.formula is None {
        " tapgres — "@ + a.mode + " mode · "@ + dec(a.events.len()) + " events "@
    } else {
        " tapgres — "@ + a.mode + " mode · "@ + dec(shown(a.events, a.filter).len()) + "/"@
            + dec(a.events.len()) + " matching "@
    }
}

pub fn heading(app: &App) -> (s: String)
    requires
        app.wf(),
    ensures
        s@ == heading_text(app@),
{
    let mut s = String::new();
    s.append(" tapgres — ");
    s.append(app.mode.as_str());
    s.append(" mode · ");
    let total: usize = app.events.len();
    assert(app@.events.len() == total);
    if app.filter.is_empty() {
        push_dec(&mut s, total as u64);
        s.append(" events ");
    } else {
        push_dec(&mut s, app.visible.len() as u64);
        s.append("/");
        push_dec(&mut s, total as u64);
        s.append(" matching ");
    }
    assert(s@ =~= heading_text(app@));
    s
}

/// The title over the records.
pub open spec fn filter_title_text(a: AppView) -> Seq<char> {
    if a.filter_text.len() == 0 {
        " messages "@
    } else {
        " messages · display filter: "@ + a.filter_text + " "@
    }
}

pub fn filter_title(app: &App) -> (s: String)
    ensures
        s@ == filter_title_text(app@),
{
    if app.filter_text.as_str().is_empty() {
        " messages ".to_owned()
    } else {
        let mut s = String::new();
        s.append(" messages · display filter: ");
        s.append(app.filter_text.as_str());
        s.append(" ");
        assert(s@ =~= filter_title_text(app@));
        s
    }
}

/// The colour of the border round the records: red for a filter error, yellow for a
/// filter in force, else green.
pub open spec fn border_tint_of(a: AppView) -> Tint {
    if a.filter_error is Some {
        Tint::Red
    } else if a.filter.formula is Some {
        Tint::Yellow
    } else {
        Tint::Green
    }
}

pub fn border_tint(app: &App) -> (t: Tint)
    ensures
        t == border_tint_of(app@),
{
    if app.filter_error.is_some() {
        Tint::Red
    } else if !app.filter.is_empty() {
        Tint::Yellow
    } else {
        Tint::Green
    }
}

// --- records -------------------------------------------------------------------------------------

/// Lines that stand out.
pub open spec fn highlighted(lines: Seq<LineView>) -> Seq<LineView> {
    lines.map_values(|l: LineView| LineView { highlight: true, ..l })
}

/// Some lines of a record, standing out where the record's text in lower case holds the
/// search text in lower case.
pub open spec fn marked(lines: Seq<LineView>, lowered: Seq<char>, needle: Seq<char>) -> Seq<
    LineView,
> {
    if needle.len() > 0 && has_run(lowered, needle) {
        highlighted(lines)
    } else {
        lines
    }
}

/// Makes the lines of a record stand out where its text in lower case holds `needle`.
pub fn mark_lines(lines: Vec<StyledLine>, lowered: &str, needle: &str) -> (r: Vec<StyledLine>)
    ensures
        line_views(r@) == marked(line_views(lines@), lowered@, needle@),
{
    if needle.is_empty() || !text_contains(lowered, needle) {
        return lines;
    }
    let ghost given = line_views(lines@);
    let mut r = lines;
    let n: usize = r.len();
    for i in 0..n
        invariant
            n == r@.len() == given.len(),
            forall|k: int| 0 <= k < i ==> (#[trigger] r@[k])@ == highlighted(given)[k],
            forall|k: int| i <= k < n ==> (#[trigger] r@[k])@ == given[k],
    {
        r[i].highlight = true;
    }
    assert(line_views(r@) =~= highlighted(given));
    r
}

/// The display toggles in force.
pub open spec fn look_of(a: AppView) -> Look {
    Look { rich: a.rich, wrap: a.wrap }
}

/// The lines of one record, as the search marks them.
pub open spec fn record_lines(a: AppView, o: OutputView) -> Seq<LineView> {
    marked(lines_of(o, look_of(a)), lowercase(rendered_text(o)), lowercase(a.search_text))
}

/// The lines of the shown records `start..end`.
pub open spec fn window_lines(a: AppView, start: int, end: int) -> Seq<LineView>
    decreases end - start,
{
    if end <= start {
        seq![]
    } else {
        window_lines(a, start, end - 1) + record_lines(
            a,
            a.events[shown(a.events, a.filter)[end - 1] as int],
        )
    }
}

/// Which of the shown records are drawn: where a record may take several rows, those
/// that fit whole; otherwise one per row from the anchor on.
pub open spec fn draws_window(app: App, log_h: usize, width: u16, start: int, end: int) -> bool {
    if app.wrap || app.rich {
        shows_window(
            heights_of(app.events@, app.visible@, width, look_of(app@)),
            app.scroll as int,
            app.follow,
            log_h as nat,
            start,
            end,
        )
    } else {
        start == app.scroll && end == if app.visible@.len() - app.scroll > log_h {
            app.scroll + log_h
        } else {
            app.visible@.len() as int
        }
    }
}

/// Picks the shown records to draw in `log_h` rows of `width` columns; `None` where one that
/// is looked at for it cannot be wrapped to that width.
pub fn drawn_window(app: &App, log_h: usize, width: u16) -> (r: Option<(usize, usize)>)
    requires
        app.wf(),
        app.scroll <= app.visible@.len(),
    ensures
        r is Some == (app.wrap || app.rich ==> window_wrappable(
            app.events@,
            app.visible@,
            app.scroll as int,
            app.follow,
            log_h as nat,
            width,
            look_of(app@),
        )),
        r matches Some((start, end)) ==> draws_window(*app, log_h, width, start as int, end as int)
            && start <= end <= app.visible@.len(),
{
    let total: usize = app.events.len();
    proof {
        assert(app@.events.len() == total);
        shown_in_range(app@.events, app.filter@);
    }
    let n: usize = app.visible.len();
    if app.wrap || app.rich {
        let look = Look { rich: app.rich, wrap: app.wrap };
        if !window_wraps(
            &app.events,
            &app.visible,
            app.scroll,
            app.follow,
            log_h,
            width,
            look,
        ) {
            return None;
        }
        let (start, end) = view_window(
            &app.events,
            &app.visible,
            app.scroll,
            app.follow,
            log_h,
            width,
            look,
        );
        proof {
            crate::view::window_never_clips(
                heights_of(app.events@, app.visible@, width, look),
                app.scroll as int,
                app.follow,
                log_h as nat,
                start as int,
                end as int,
            );
        }
        Some((start, end))
    } else if n - app.scroll > log_h {
        Some((app.scroll, app.scroll + log_h))
    } else {
        Some((app.scroll, n))
    }
}

/// The lines of the shown records `start..end`, search matches standing out.
pub fn message_lines(app: &App, start: usize, end: usize) -> (lines: Vec<StyledLine>)
    requires
        app.wf(),
        start <= end <= app.visible@.len(),
    ensures
        line_views(lines@) == window_lines(app@, start as int, end as int),
{
    let total: usize = app.events.len();
    proof {
        assert(app@.events.len() == total);
        shown_in_range(app@.events, app.filter@);
    }
    let look = Look { rich: app.rich, wrap: app.wrap };
    let needle = app.search_text.as_str().to_lowercase();
    let mut lines: Vec<StyledLine> = Vec::new();
    assert(line_views(lines@) =~= window_lines(app@, start as int, start as int));
    let mut k: usize = start;
    while k < end
        invariant
            start <= k <= end <= app.visible@.len(),
            app.wf(),
            look == look_of(app@),
            needle@ == lowercase(app@.search_text),
            forall|i: int|
                0 <= i < app.visible@.len() ==> (#[trigger] app.visible@[i]) < app.events@.len(),
            line_views(lines@) == window_lines(app@, start as int, k as int),
        decreases end - k,
    {
        let record = &app.events[app.visible[k]];
        let lowered = record.rendered().to_lowercase();
        let mut more = mark_lines(event_lines(record, look), lowered.as_str(), needle.as_str());
        let ghost before = lines@;
        let ghost added = more@;
        assert(app@.events[app.visible@[k as int] as int] == record@);
        lines.append(&mut more);
        assert(line_views(lines@) =~= line_views(before) + line_views(added));
        k = k + 1;
    }
    lines
}

// --- the footer ------------------------------------------------------------------------------------

/// The footer: a line in a box that may have a title.
#[derive(Clone, Debug)]
pub struct Footer {
    pub title: Option<String>,
    pub line: StyledLine,
}

/// What a [`Footer`] holds.
pub struct FooterView {
    pub title: Option<Seq<char>>,
    pub line: LineView,
}

impl View for Footer {
    type V = FooterView;

    open spec fn view(&self) -> FooterView {
        FooterView { title: crate::wire::opt_text(self.title), line: self.line@ }
    }
}

/// A footer with a title.
pub open spec fn titled(title: Seq<char>, spans: Seq<SpanView>) -> FooterView {
    FooterView { title: Some(title), line: line_of(spans) }
}

/// The command bar.
pub open spec fn command_bar_view(a: AppView) -> FooterView {
    titled(
        " command · :save FILE · :open FILE · Esc cancel "@,
        seq![bold(" :"@, Tint::Cyan), plain(a.command_text), tinted("█"@, Tint::Cyan)],
    )
}

/// The colour of a notice.
pub open spec fn notice_tint(error: bool) -> Tint {
    if error {
        Tint::Red
    } else {
        Tint::Green
    }
}

/// The colour of a toggle: green while it is on.
pub open spec fn toggle_tint(on: bool) -> Tint {
    if on {
        Tint::Green
    } else {
        Tint::Plain
    }
}

/// The filter editor.
pub open spec fn filter_bar_view(a: AppView) -> FooterView {
    titled(
        " display filter · Enter apply · Esc cancel "@,
        seq![
            tinted(
                " display filter › "@ + a.filter_text + "█"@,
                if a.filter_error is Some {
                    Tint::Red
                } else {
                    Tint::Yellow
                },
            ),
            tinted(
                match a.filter_error {
                    Some(error) => "  ⚠ "@ + error,
                    None => seq![],
                },
                Tint::Red,
            ),
        ],
    )
}

/// The key hints, with what is on in green.
pub open spec fn hints_view(a: AppView) -> FooterView {
    FooterView {
        title: None,
        line: line_of(
            seq![
                plain(" q quit · j/k ↑↓ · PgUp/PgDn · g/G top/bottom · f "@),
                tinted("follow"@, toggle_tint(a.follow)),
                plain(" · w "@),
                tinted("wrap"@, toggle_tint(a.wrap)),
                plain(" · r "@),
                tinted("rich"@, toggle_tint(a.rich)),
                plain(" · y "@),
                tinted("display filter"@, toggle_tint(a.filter.formula is Some)),
                plain(" · / search · : command · c clear "@),
            ],
        ),
    }
}

/// What the footer shows: the text that is being edited, else an active search, else the
/// last command's notice, else the key hints.
pub open spec fn footer_view(a: AppView) -> FooterView {
    if a.command_editing {
        command_bar_view(a)
    } else if a.search_editing {
        titled(
            " search · Enter next · Esc cancel "@,
            seq![tinted(" search › "@ + a.search_text + "█"@, Tint::Yellow)],
        )
    } else if a.filter_editing {
        filter_bar_view(a)
    } else if a.search_text.len() > 0 {
        FooterView {
            title: None,
            line: line_of(
                seq![
                    bold(" search: "@ + a.search_text + " "@, Tint::Yellow),
                    plain(
                        "· "@ + dec(search_hits(a).len())
                            + " matches · n/N next/prev · Esc clear"@,
                    ),
                ],
            ),
        }
    } else {
        match a.command_notice {
            Some((notice, error)) => titled(
                " status · : command "@,
                seq![tinted(" "@ + notice, notice_tint(error))],
            ),
            None => hints_view(a),
        }
    }
}

/// Joins three texts.
fn joined(a: &str, b: &str, c: &str) -> (s: String)
    ensures
        s@ == a@ + b@ + c@,
{
    let mut s = String::new();
    s.append(a);
    s.append(b);
    s.append(c);
    assert(s@ =~= a@ + b@ + c@);
    s
}

fn titled_footer(title: &str, spans: Vec<StyledSpan>) -> (f: Footer)
    ensures
        f@ == titled(title@, span_views(spans@)),
{
    Footer { title: Some(title.to_owned()), line: StyledLine { spans, highlight: false } }
}

pub fn command_bar(app: &App) -> (f: Footer)
    ensures
        f@ == command_bar_view(app@),
{
    let mut spans: Vec<StyledSpan> = Vec::new();
    spans.push(span(" :".to_owned(), Tint::Cyan, true));
    spans.push(span(app.command_text.clone(), Tint::Plain, false));
    spans.push(span("█".to_owned(), Tint::Cyan, false));
    assert(span_views(spans@) =~= command_bar_view(app@).line.spans);
    titled_footer(" command · :save FILE · :open FILE · Esc cancel ", spans)
}

fn filter_bar(app: &App) -> (f: Footer)
    ensures
        f@ == filter_bar_view(app@),
{
    let text = joined(" display filter › ", app.filter_text.as_str(), "█");
    let mut spans: Vec<StyledSpan> = Vec::new();
    match &app.filter_error {
        Some(error) => {
            let mut detail = String::new();
            detail.append("  ⚠ ");
            detail.append(error.as_str());
            assert(detail@ =~= "  ⚠ "@ + error@);
            spans.push(span(text, Tint::Red, false));
            spans.push(span(detail, Tint::Red, false));
        },
        None => {
            let detail = String::new();
            assert(detail@ =~= seq![]);
            spans.push(span(text, Tint::Yellow, false));
            spans.push(span(detail, Tint::Red, false));
        },
    }
    assert(span_views(spans@) =~= filter_bar_view(app@).line.spans);
    titled_footer(" display filter · Enter apply · Esc cancel ", spans)
}

fn toggle(text: &str, on: bool) -> (s: StyledSpan)
    ensures
        s@ == tinted(text@, toggle_tint(on)),
{
    if on {
        span(text.to_owned(), Tint::Green, false)
    } else {
        span(text.to_owned(), Tint::Plain, false)
    }
}

fn hint(text: &str) -> (s: StyledSpan)
    ensures
        s@ == plain(text@),
{
    span(text.to_owned(), Tint::Plain, false)
}

fn hints(app: &App) -> (f: Footer)
    ensures
        f@ == hints_view(app@),
{
    let mut spans: Vec<StyledSpan> = Vec::new();
    spans.push(hint(" q quit · j/k ↑↓ · PgUp/PgDn · g/G top/bottom · f "));
    spans.push(toggle("follow", app.follow));
    spans.push(hint(" · w "));
    spans.push(toggle("wrap", app.wrap));
    spans.push(hint(" · r "));
    spans.push(toggle("rich", app.rich));
    spans.push(hint(" · y "));
    spans.push(toggle("display filter", !app.filter.is_empty()));
    spans.push(hint(" · / search · : command · c clear "));
    assert(span_views(spans@) =~= hints_view(app@).line.spans);
    Footer { title: None, line: StyledLine { spans, highlight: false } }
}

fn search_summary(app: &App) -> (f: Footer)
    requires
        app.wf(),
        app@.search_text.len() > 0,
    ensures
        f@ == (FooterView {
            title: None,
            line: line_of(
                seq![
                    bold(" search: "@ + app@.search_text + " "@, Tint::Yellow),
                    plain(
                        "· "@ + dec(search_hits(app@).len())
                            + " matches · n/N next/prev · Esc clear"@,
                    ),
                ],
            ),
        }),
{
    let found = app.search_matches();
    let mut count = String::new();
    count.append("· ");
    push_dec(&mut count, found.len() as u64);
    count.append(" matches · n/N next/prev · Esc clear");
    assert(count@ =~= "· "@ + dec(search_hits(app@).len())
        + " matches · n/N next/prev · Esc clear"@);
    let mut spans: Vec<StyledSpan> = Vec::new();
    spans.push(span(joined(" search: ", app.search_text.as_str(), " "), Tint::Yellow, true));
    spans.push(span(count, Tint::Plain, false));
    assert(span_views(spans@) =~= seq![
        bold(" search: "@ + app@.search_text + " "@, Tint::Yellow),
        plain(count@),
    ]);
    Footer { title: None, line: StyledLine { spans, highlight: false } }
}

pub fn footer(app: &App) -> (f: Footer)
    requires
        app.wf(),
    ensures
        f@ == footer_view(app@),
{
    if app.command_editing {
        return command_bar(app);
    }
    if app.search_editing {
        let line = one_span(
            joined(" search › ", app.search_text.as_str(), "█"),
            Tint::Yellow,
            false,
        );
        return Footer { title: Some(" search · Enter next · Esc cancel ".to_owned()), line };
    }
    if app.filter_editing {
        return filter_bar(app);
    }
    if !app.search_text.as_str().is_empty() {
        return search_summary(app);
    }
    match &app.command_notice {
        Some((notice, error)) => {
            let mut s = String::new();
            s.append(" ");
            s.append(notice.as_str());
            assert(s@ =~= " "@ + notice@);
            let tint = if *error {
                Tint::Red
            } else {
                Tint::Green
            };
            Footer {
                title: Some(" status · : command ".to_owned()),
                line: one_span(s, tint, false),
            }
        },
        None => hints(app),
    }
}

// --- the splash -------------------------------------------------------------------------------------

/// A line of the splash without style.
pub open spec fn splash_line(text: Seq<char>) -> LineView {
    line_of(seq![plain(text)])
}

/// The empty line.
pub open spec fn blank() -> LineView {
    splash_line(seq![])
}

/// The banner's lines in their colour.
pub open spec fn banner_views(art: Seq<Seq<char>>) -> Seq<LineView> {
    art.map_values(
        |l: Seq<char>|
            if l.len() == 0 {
                blank()
            } else {
                line_of(seq![tinted(l, Tint::Cyan)])
            },
    )
}

/// The lines that say what the traffic source is.
pub open spec fn source_views(lines: Seq<Seq<char>>) -> Seq<LineView> {
    lines.map_values(|l: Seq<char>| splash_line("  "@ + l))
}

/// A recent status line: red for a warning.
pub open spec fn status_view(l: Seq<char>) -> LineView {
    line_of(
        seq![
            tinted(
                "  "@ + l,
                if has_run(l, "⚠"@) {
                    Tint::Red
                } else {
                    Tint::DarkGray
                },
            ),
        ],
    )
}

/// The recent status lines, below an empty one.
pub open spec fn status_views(tail: Seq<Seq<char>>) -> Seq<LineView> {
    if tail.len() == 0 {
        seq![]
    } else {
        seq![blank()] + tail.map_values(|l: Seq<char>| status_view(l))
    }
}

/// The last command's notice, below an empty line.
pub open spec fn notice_views(notice: Option<(Seq<char>, bool)>) -> Seq<LineView> {
    match notice {
        Some((text, error)) => seq![
            blank(),
            line_of(seq![tinted("  "@ + text, notice_tint(error))]),
        ],
        None => seq![],
    }
}

/// The lines of the banner.
pub open spec fn banner_lines() -> Seq<Seq<char>> {
    split(BANNER@, '\n').drop_last()
}

/// What the splash shows: the banner, what the traffic source is, recent status lines,
/// the last command's notice, and what is waited for.
pub open spec fn splash_views(a: AppView) -> Seq<LineView> {
    banner_views(banner_lines()) + seq![blank()] + source_views(a.splash_lines) + status_views(
        a.status_tail,
    ) + notice_views(a.command_notice) + seq![
        blank(),
        line_of(
            seq![
                tinted(
                    if a.source_error is Some {
                        "  source failed — see above · press q to quit"@
                    } else {
                        "  waiting for traffic…  press : for commands · q to quit"@
                    },
                    Tint::DarkGray,
                ),
            ],
        ),
    ]
}

fn blank_line() -> (l: StyledLine)
    ensures
        l@ == blank(),
{
    let s = String::new();
    assert(s@ =~= seq![]);
    one_span(s, Tint::Plain, false)
}

fn indented(text: &str) -> (s: String)
    ensures
        s@ == "  "@ + text@,
{
    let mut s = String::new();
    s.append("  ");
    s.append(text);
    assert(s@ =~= "  "@ + text@);
    s
}

/// Adds a line.
fn add_line(lines: &mut Vec<StyledLine>, l: StyledLine)
    ensures
        line_views(final(lines)@) == line_views(old(lines)@).push(l@),
{
    let ghost before = lines@;
    lines.push(l);
    assert(line_views(lines@) =~= line_views(before).push(l@));
}

fn add_banner(lines: &mut Vec<StyledLine>)
    ensures
        line_views(final(lines)@) == line_views(old(lines)@) + banner_views(banner_lines()),
{
    let chars = chars_of(BANNER);
    let parts = split_chars(&chars, 0, chars.len(), '\n');
    let ghost before = line_views(lines@);
    let ghost art = banner_lines();
    assert(chars@.subrange(0, chars@.len() as int) =~= chars@);
    assert(banner_views(art).take(0) =~= seq![]);
    assert(line_views(lines@) =~= before + banner_views(art).take(0));
    let n: usize = parts.len();
    let mut i: usize = 0;
    while i + 1 < n
        invariant
            i < n == parts@.len(),
            art == banner_lines(),
            art.len() == n - 1,
            crate::text::char_lists(parts@).drop_last() == art,
            line_views(lines@) == before + banner_views(art).take(i as int),
        decreases n - i,
    {
        let part = &parts[i];
        assert(art[i as int] == part@);
        let text = string_of(part, 0, part.len());
        assert(part@.subrange(0, part@.len() as int) =~= part@);
        if part.len() == 0 {
            add_line(lines, blank_line());
        } else {
            add_line(lines, one_span(text, Tint::Cyan, false));
        }
        assert(banner_views(art).take(i + 1) =~= banner_views(art).take(i as int).push(
            banner_views(art)[i as int],
        ));
        assert(line_views(lines@) =~= before + banner_views(art).take(i + 1));
        i = i + 1;
    }
    assert(banner_views(art).take(n - 1) =~= banner_views(art));
}

fn add_source(lines: &mut Vec<StyledLine>, source: &Vec<String>)
    ensures
        line_views(final(lines)@) == line_views(old(lines)@) + source_views(
            crate::wire::texts(source@),
        ),
{
    let ghost before = line_views(lines@);
    let ghost all = source_views(crate::wire::texts(source@));
    assert(line_views(lines@) =~= before + all.take(0));
    for i in 0..source.len()
        invariant
            all == source_views(crate::wire::texts(source@)),
            line_views(lines@) == before + all.take(i as int),
    {
        add_line(lines, one_span(indented(source[i].as_str()), Tint::Plain, false));
        assert(all.take(i + 1) =~= all.take(i as int).push(all[i as int]));
        assert(line_views(lines@) =~= before + all.take(i + 1));
    }
    assert(all.take(all.len() as int) =~= all);
}

fn add_status(lines: &mut Vec<StyledLine>, tail: &Vec<String>)
    ensures
        line_views(final(lines)@) == line_views(old(lines)@) + status_views(
            crate::wire::texts(tail@),
        ),
{
    let ghost before = line_views(lines@);
    let ghost all = status_views(crate::wire::texts(tail@));
    if tail.len() == 0 {
        assert(line_views(lines@) =~= before + all);
        return;
    }
    add_line(lines, blank_line());
    assert(line_views(lines@) =~= before + all.take(1));
    for i in 0..tail.len()
        invariant
            tail@.len() > 0,
            all == status_views(crate::wire::texts(tail@)),
            line_views(lines@) == before + all.take(i + 1),
    {
        let tint = if text_contains(tail[i].as_str(), "⚠") {
            Tint::Red
        } else {
            Tint::DarkGray
        };
        add_line(lines, one_span(indented(tail[i].as_str()), tint, false));
        assert(all[i + 1] == status_view(tail@[i as int]@));
        assert(all.take(i + 2) =~= all.take(i + 1).push(all[i + 1]));
        assert(line_views(lines@) =~= before + all.take(i + 2));
    }
    assert(all.take(all.len() as int) =~= all);
}

fn add_notice(lines: &mut Vec<StyledLine>, notice: &Option<(String, bool)>)
    ensures
        line_views(final(lines)@) == line_views(old(lines)@) + notice_views(
            crate::tui::opt_notice(*notice),
        ),
{
    let ghost before = line_views(lines@);
    if let Some((text, error)) = notice {
        add_line(lines, blank_line());
        let tint = if *error {
            Tint::Red
        } else {
            Tint::Green
        };
        add_line(lines, one_span(indented(text.as_str()), tint, false));
    }
    assert(line_views(lines@) =~= before + notice_views(crate::tui::opt_notice(*notice)));
}

/// The lines of the startup splash.
pub fn splash(app: &App) -> (lines: Vec<StyledLine>)
    ensures
        line_views(lines@) == splash_views(app@),
{
    let mut lines: Vec<StyledLine> = Vec::new();
    assert(line_views(lines@) =~= seq![]);
    add_banner(&mut lines);
    add_line(&mut lines, blank_line());
    add_source(&mut lines, &app.splash_lines);
    add_status(&mut lines, &app.status_tail);
    add_notice(&mut lines, &app.command_notice);
    add_line(&mut lines, blank_line());
    let waiting = if app.source_failed() {
        "  source failed — see above · press q to quit"
    } else {
        "  waiting for traffic…  press : for commands · q to quit"
    };
    add_line(&mut lines, one_span(waiting.to_owned(), Tint::DarkGray, false));
    assert(line_views(lines@) =~= splash_views(app@));
    lines
}

} // verus!
