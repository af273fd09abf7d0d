//! How records look on screen: styled lines, their heights, and which of them fit.
use crate::output::{detail_of, rendered_text, DetailView, EventDetail, Output, OutputView};
use crate::render::ColumnView;
use crate::text::{chars_of, dec, has_run, push_dec, string_of, text_contains};
use crate::wire::{texts, FieldView};
use vstd::prelude::*;

verus! {

// --- styled text ----------------------------------------------------------------------

/// A colour of the terminal's palette.
#[derive(Clone, Copy, PartialEq, Eq, Structural, Debug)]
pub enum Tint {
    Plain,
    Red,
    Green,
    Yellow,
    Blue,
    Magenta,
    Cyan,
    Gray,
    DarkGray,
}

/// A run of text in one style.
#[derive(Clone, Debug)]
pub struct StyledSpan {
    pub text: String,
    pub tint: Tint,
    pub bold: bool,
}

/// What a [`StyledSpan`] holds.
pub struct SpanView {
    pub text: Seq<char>,
    pub tint: Tint,
    pub bold: bool,
}

impl View for StyledSpan {
    type V = SpanView;

    open spec fn view(&self) -> SpanView {
        SpanView { text: self.text@, tint: self.tint, bold: self.bold }
    }
}

/// A line on screen.
#[derive(Clone, Debug)]
pub struct StyledLine {
    pub spans: Vec<StyledSpan>,
    /// Whether the line stands out as a search match.
    pub highlight: bool,
}

/// The spans of a list.
pub open spec fn span_views(v: Seq<StyledSpan>) -> Seq<SpanView> {
    v.map_values(|s: StyledSpan| s@)
}

/// What a [`StyledLine`] holds.
pub struct LineView {
    pub spans: Seq<SpanView>,
    pub highlight: bool,
}

impl View for StyledLine {
    type V = LineView;

    open spec fn view(&self) -> LineView {
        LineView { spans: span_views(self.spans@), highlight: self.highlight }
    }
}

/// The lines of a list.
pub open spec fn line_views(v: Seq<StyledLine>) -> Seq<LineView> {
    v.map_values(|l: StyledLine| l@)
}

/// A span without style.
pub open spec fn plain(text: Seq<char>) -> SpanView {
    SpanView { text, tint: Tint::Plain, bold: false }
}

/// A span in a colour.
pub open spec fn tinted(text: Seq<char>, tint: Tint) -> SpanView {
    SpanView { text, tint, bold: false }
}

/// A bold span in a colour.
pub open spec fn bold(text: Seq<char>, tint: Tint) -> SpanView {
    SpanView { text, tint, bold: true }
}

/// A line of spans that does not stand out.
pub open spec fn line_of(spans: Seq<SpanView>) -> LineView {
    LineView { spans, highlight: false }
}

pub fn span(text: String, tint: Tint, bold: bool) -> (s: StyledSpan)
    ensures
        s@ == (SpanView { text: text@, tint, bold }),
{
    StyledSpan { text, tint, bold }
}

// --- types ------------------------------------------------------------------------------

/// Human-friendly type name for common PostgreSQL OIDs.
pub open spec fn known_type(oid: u32) -> Option<Seq<char>> {
    if oid == 16 {
        Some("bool"@)
    } else if oid == 17 {
        Some("bytea"@)
    } else if oid == 18 {
        Some("char"@)
    } else if oid == 19 {
        Some("name"@)
    } else if oid == 20 {
        Some("int8"@)
    } else if oid == 21 {
        Some("int2"@)
    } else if oid == 23 {
        Some("int4"@)
    } else if oid == 25 {
        Some("text"@)
    } else if oid == 114 {
        Some("json"@)
    } else if oid == 700 {
        Some("float4"@)
    } else if oid == 701 {
        Some("float8"@)
    } else if oid == 1043 {
        Some("varchar"@)
    } else if oid == 1082 {
        Some("date"@)
    } else if oid == 1114 {
        Some("timestamp"@)
    } else if oid == 1184 {
        Some("timestamptz"@)
    } else if oid == 1186 {
        Some("interval"@)
    } else if oid == 1700 {
        Some("numeric"@)
    } else if oid == 2950 {
        Some("uuid"@)
    } else if oid == 3802 {
        Some("jsonb"@)
    } else {
        None
    }
}

/// The name of a type, or its number where it has none here.
pub open spec fn type_text(oid: u32) -> Seq<char> {
    match known_type(oid) {
        Some(name) => name,
        None => "oid="@ + dec(oid as nat),
    }
}

fn type_label_known(oid: u32) -> (r: Option<&'static str>)
    ensures
        crate::render::opt_str(r) == known_type(oid),
{
    if oid == 16 {
        Some("bool")
    } else if oid == 17 {
        Some("bytea")
    } else if oid == 18 {
        Some("char")
    } else if oid == 19 {
        Some("name")
    } else if oid == 20 {
        Some("int8")
    } else if oid == 21 {
        Some("int2")
    } else if oid == 23 {
        Some("int4")
    } else if oid == 25 {
        Some("text")
    } else if oid == 114 {
        Some("json")
    } else if oid == 700 {
        Some("float4")
    } else if oid == 701 {
        Some("float8")
    } else if oid == 1043 {
        Some("varchar")
    } else if oid == 1082 {
        Some("date")
    } else if oid == 1114 {
        Some("timestamp")
    } else if oid == 1184 {
        Some("timestamptz")
    } else if oid == 1186 {
        Some("interval")
    } else if oid == 1700 {
        Some("numeric")
    } else if oid == 2950 {
        Some("uuid")
    } else if oid == 3802 {
        Some("jsonb")
    } else {
        None
    }
}

/// Human-friendly type name, falling back to the numeric OID. It is always shown
/// beside any glyph, so a terminal without the icon font never loses the type.
pub fn type_label(oid: u32) -> (s: String)
    ensures
        s@ == type_text(oid),
{
    match type_label_known(oid) {
        Some(name) => name.to_owned(),
        None => {
            let mut s = String::new();
            s.append("oid=");
            push_dec(&mut s, oid as u64);
            assert(s@ =~= "oid="@ + dec(oid as nat));
            s
        },
    }
}

/// Icon-font glyph for a column type, with the colour of its category; none for a
/// type that is not known.
pub open spec fn icon_of(oid: u32) -> Option<(char, Tint)> {
    if oid == 16 {
        Some(('\u{f00c}', Tint::Green))
    } else if oid == 20 || oid == 21 || oid == 23 {
        Some(('\u{f292}', Tint::Yellow))
    } else if oid == 700 || oid == 701 || oid == 1700 {
        Some(('\u{f1ec}', Tint::Yellow))
    } else if oid == 18 || oid == 19 || oid == 25 || oid == 1042 || oid == 1043 {
        Some(('\u{f031}', Tint::Cyan))
    } else if oid == 114 || oid == 3802 {
        Some(('\u{f121}', Tint::Magenta))
    } else if oid == 2950 {
        Some(('\u{f577}', Tint::Magenta))
    } else if oid == 17 {
        Some(('\u{f1c0}', Tint::Green))
    } else if oid == 1082 {
        Some(('\u{f073}', Tint::Cyan))
    } else if oid == 1083 || oid == 1114 || oid == 1184 || oid == 1186 || oid == 1266 {
        Some(('\u{f017}', Tint::Cyan))
    } else {
        None
    }
}

pub fn type_icon(oid: u32) -> (r: Option<(char, Tint)>)
    ensures
        r == icon_of(oid),
{
    if oid == 16 {
        Some(('\u{f00c}', Tint::Green))
    } else if oid == 20 || oid == 21 || oid == 23 {
        Some(('\u{f292}', Tint::Yellow))
    } else if oid == 700 || oid == 701 || oid == 1700 {
        Some(('\u{f1ec}', Tint::Yellow))
    } else if oid == 18 || oid == 19 || oid == 25 || oid == 1042 || oid == 1043 {
        Some(('\u{f031}', Tint::Cyan))
    } else if oid == 114 || oid == 3802 {
        Some(('\u{f121}', Tint::Magenta))
    } else if oid == 2950 {
        Some(('\u{f577}', Tint::Magenta))
    } else if oid == 17 {
        Some(('\u{f1c0}', Tint::Green))
    } else if oid == 1082 {
        Some(('\u{f073}', Tint::Cyan))
    } else if oid == 1083 || oid == 1114 || oid == 1184 || oid == 1186 || oid == 1266 {
        Some(('\u{f017}', Tint::Cyan))
    } else {
        None
    }
}

/// The spans of a column's type: its glyph, where it has one, and its name.
pub open spec fn type_span_views(oid: u32) -> Seq<SpanView> {
    let label = tinted(type_text(oid), Tint::DarkGray);
    match icon_of(oid) {
        Some((glyph, tint)) => seq![tinted(seq![glyph], tint), plain(" "@), label],
        None => seq![label],
    }
}

pub fn type_spans(oid: u32) -> (v: Vec<StyledSpan>)
    ensures
        span_views(v@) == type_span_views(oid),
{
    let mut v: Vec<StyledSpan> = Vec::new();
    if let Some((glyph, tint)) = type_icon(oid) {
        let mut g = String::new();
        g.push(glyph);
        assert(g@ =~= seq![glyph]);
        v.push(span(g, tint, false));
        v.push(span(" ".to_owned(), Tint::Plain, false));
    }
    v.push(span(type_label(oid), Tint::DarkGray, false));
    assert(span_views(v@) =~= type_span_views(oid));
    v
}

// --- decoded lines -------------------------------------------------------------------------

/// Whether `needle` stands in `s` at `i`.
pub open spec fn run_at(s: Seq<char>, i: int, needle: Seq<char>) -> bool {
    0 <= i && i + needle.len() <= s.len() && s.subrange(i, i + needle.len()) == needle
}

/// The first index from `from` on at which `needle` stands in `s`.
pub open spec fn find_from(s: Seq<char>, from: int, needle: Seq<char>) -> Option<int>
    decreases s.len() + 1 - from,
{
    if from < 0 || from > s.len() {
        None
    } else if run_at(s, from, needle) {
        Some(from)
    } else {
        find_from(s, from + 1, needle)
    }
}

fn stands_at(v: &Vec<char>, i: usize, needle: &Vec<char>) -> (b: bool)
    requires
        i <= v@.len(),
    ensures
        b == run_at(v@, i as int, needle@),
{
    let len: usize = v.len();
    if len - i < needle.len() {
        return false;
    }
    let ghost part = v@.subrange(i as int, i + needle@.len());
    let mut k: usize = 0;
    while k < needle.len()
        invariant
            k <= needle@.len(),
            i + needle@.len() <= len,
            len == v@.len(),
            part == v@.subrange(i as int, i + needle@.len()),
            forall|m: int| 0 <= m < k ==> part[m] == needle@[m],
        decreases needle@.len() - k,
    {
        if v[i + k] != needle[k] {
            assert(part[k as int] != needle@[k as int]);
            return false;
        }
        k = k + 1;
    }
    assert(part =~= needle@);
    true
}

fn find_in(v: &Vec<char>, from: usize, needle: &Vec<char>) -> (r: Option<usize>)
    requires
        from <= v@.len(),
    ensures
        match r {
            Some(i) => find_from(v@, from as int, needle@) == Some(i as int) && from <= i && i
                + needle@.len() <= v@.len() <= usize::MAX,
            None => find_from(v@, from as int, needle@) is None,
        },
{
    let mut i: usize = from;
    let len: usize = v.len();
    loop
        invariant
            from <= i <= len,
            len == v@.len(),
            find_from(v@, i as int, needle@) == find_from(v@, from as int, needle@),
        decreases v@.len() - i,
    {
        if stands_at(v, i, needle) {
            return Some(i);
        }
        if i == len {
            assert(find_from(v@, i + 1, needle@) is None);
            return None;
        }
        i = i + 1;
    }
}

/// The colour and place of a line's direction tag.
pub open spec fn tag_of(line: Seq<char>) -> Option<(Tint, int, int)> {
    match find_from(line, 0, "[F→B]"@) {
        Some(i) => Some((Tint::Cyan, i, i + "[F→B]"@.len())),
        None => match find_from(line, 0, "[B→F]"@) {
            Some(i) => Some((Tint::Magenta, i, i + "[B→F]"@.len())),
            None => None,
        },
    }
}

/// The coloured segments of a decoded line `[time] [F→B] Kind[: rest]`, by the
/// characters at which they end.
#[derive(Clone, Copy, PartialEq, Eq, Structural, Debug)]
pub struct LineParts {
    pub tint: Tint,
    pub prefix_end: usize,
    pub tag_end: usize,
    pub kind_start: usize,
    pub kind_end: usize,
}

/// Where the kind starts: one character behind the tag.
pub open spec fn kind_start_of(line: Seq<char>, tag_end: int) -> int {
    if tag_end + 1 <= line.len() {
        tag_end + 1
    } else {
        line.len() as int
    }
}

/// Where the kind ends: at the next colon and space, or with the line.
pub open spec fn kind_end_of(line: Seq<char>, kind_start: int) -> int {
    match find_from(line, kind_start, ": "@) {
        Some(i) => i,
        None => line.len() as int,
    }
}

/// Whether a line has a direction tag, and where it stands. F→B is cyan and B→F is
/// magenta: high contrast against each other.
pub fn direction_split(line: &Vec<char>) -> (r: Option<(Tint, usize, usize)>)
    ensures
        match r {
            Some((tint, from, to)) => tag_of(line@) == Some((tint, from as int, to as int)) && from
                <= to <= line@.len(),
            None => tag_of(line@) is None,
        },
{
    let out = chars_of("[F→B]");
    let back = chars_of("[B→F]");
    if let Some(i) = find_in(line, 0, &out) {
        return Some((Tint::Cyan, i, i + out.len()));
    }
    if let Some(i) = find_in(line, 0, &back) {
        return Some((Tint::Magenta, i, i + back.len()));
    }
    None
}

/// What [`parse_line`] finds in a line.
pub open spec fn parts_of(line: Seq<char>, p: Option<LineParts>) -> bool {
    match (tag_of(line), p) {
        (Some((tint, from, to)), Some(p)) => {
            &&& p.tint == tint
            &&& p.prefix_end == from
            &&& p.tag_end == to
            &&& p.kind_start == kind_start_of(line, to)
            &&& p.kind_end == kind_end_of(line, kind_start_of(line, to))
            &&& p.prefix_end <= p.tag_end <= p.kind_start <= p.kind_end <= line.len()
        },
        (None, None) => true,
        _ => false,
    }
}

pub fn parse_line(line: &Vec<char>) -> (r: Option<LineParts>)
    ensures
        parts_of(line@, r),
{
    match direction_split(line) {
        Some((tint, prefix_end, tag_end)) => {
            let kind_start: usize = if tag_end < line.len() {
                tag_end + 1
            } else {
                line.len()
            };
            let stop = chars_of(": ");
            let kind_end: usize = match find_in(line, kind_start, &stop) {
                Some(i) => i,
                None => line.len(),
            };
            Some(LineParts { tint, prefix_end, tag_end, kind_start, kind_end })
        },
        None => None,
    }
}

/// The spans up to the end of the kind: the time, the tag and the kind in the
/// direction's colour.
pub open spec fn head_spans(line: Seq<char>, tint: Tint, from: int, to: int) -> Seq<SpanView> {
    let start = kind_start_of(line, to);
    let end = kind_end_of(line, start);
    seq![
        tinted(line.take(from), Tint::DarkGray),
        bold(line.subrange(from, to), tint),
        plain(line.subrange(to, start)),
        bold(line.subrange(start, end), tint),
    ]
}

/// A line in one colour: red for a warning, yellow for a connection notice.
pub open spec fn whole_line_tint(line: Seq<char>) -> Option<Tint> {
    if has_run(line, "⚠"@) {
        Some(Tint::Red)
    } else if has_run(line, "==="@) {
        Some(Tint::Yellow)
    } else {
        None
    }
}

/// The spans of a rendered line.
pub open spec fn line_spans(line: Seq<char>) -> Seq<SpanView> {
    match whole_line_tint(line) {
        Some(tint) => seq![tinted(line, tint)],
        None => match tag_of(line) {
            Some((tint, from, to)) => head_spans(line, tint, from, to).push(
                plain(line.skip(kind_end_of(line, kind_start_of(line, to)))),
            ),
            None => seq![plain(line)],
        },
    }
}

/// The spans of a rendered line without what stands behind the kind.
pub open spec fn header_spans(line: Seq<char>) -> Seq<SpanView> {
    match tag_of(line) {
        Some((tint, from, to)) => head_spans(line, tint, from, to),
        None => seq![plain(line)],
    }
}

/// One span of a whole line.
fn whole_line(line: &str, tint: Tint) -> (v: Vec<StyledSpan>)
    ensures
        span_views(v@) == seq![tinted(line@, tint)],
{
    let mut v: Vec<StyledSpan> = Vec::new();
    v.push(span(line.to_owned(), tint, false));
    assert(span_views(v@) =~= seq![tinted(line@, tint)]);
    v
}

/// The spans up to the end of the kind.
fn push_head(v: &Vec<char>, p: LineParts) -> (spans: Vec<StyledSpan>)
    requires
        parts_of(v@, Some(p)),
    ensures
        span_views(spans@) == head_spans(v@, p.tint, p.prefix_end as int, p.tag_end as int),
{
    let mut spans: Vec<StyledSpan> = Vec::new();
    spans.push(span(string_of(v, 0, p.prefix_end), Tint::DarkGray, false));
    spans.push(span(string_of(v, p.prefix_end, p.tag_end), p.tint, true));
    spans.push(span(string_of(v, p.tag_end, p.kind_start), Tint::Plain, false));
    spans.push(span(string_of(v, p.kind_start, p.kind_end), p.tint, true));
    assert(v@.subrange(0, p.prefix_end as int) =~= v@.take(p.prefix_end as int));
    assert(span_views(spans@) =~= head_spans(
        v@,
        p.tint,
        p.prefix_end as int,
        p.tag_end as int,
    ));
    spans
}

/// Renders a line with the direction tag and the message name highlighted; warnings
/// stay red and connection notices yellow.
pub fn build_line(line: &str) -> (v: Vec<StyledSpan>)
    ensures
        span_views(v@) == line_spans(line@),
{
    if text_contains(line, "⚠") {
        return whole_line(line, Tint::Red);
    }
    if text_contains(line, "===") {
        return whole_line(line, Tint::Yellow);
    }
    let chars = chars_of(line);
    match parse_line(&chars) {
        Some(p) => {
            let mut spans = push_head(&chars, p);
            let ghost head = spans@;
            spans.push(span(string_of(&chars, p.kind_end, chars.len()), Tint::Plain, false));
            assert(chars@.subrange(p.kind_end as int, chars@.len() as int) =~= chars@.skip(
                p.kind_end as int,
            ));
            assert(span_views(spans@) =~= span_views(head).push(spans@.last()@));
            spans
        },
        None => whole_line(line, Tint::Plain),
    }
}

/// Like [`build_line`] but stops behind the message kind. Used as the header of a
/// rich table, whose rows show the content.
pub fn build_header_line(line: &str) -> (v: Vec<StyledSpan>)
    ensures
        span_views(v@) == header_spans(line@),
{
    let chars = chars_of(line);
    match parse_line(&chars) {
        Some(p) => push_head(&chars, p),
        None => whole_line(line, Tint::Plain),
    }
}

// --- rich rows -------------------------------------------------------------------------------

/// The row of a cell: `name = value  type`.
pub open spec fn cell_row(c: ColumnView) -> LineView {
    line_of(
        seq![
            plain("   "@),
            bold(c.name, Tint::Blue),
            plain(" = "@),
            plain(c.value),
            plain("  "@),
        ] + type_span_views(c.type_oid),
    )
}

/// The row of a described column: `name  type`.
pub open spec fn field_row(f: FieldView) -> LineView {
    line_of(
        seq![plain("   "@), bold(f.name, Tint::Blue), plain("  "@)] + type_span_views(
            f.type_oid,
        ),
    )
}

/// The rows of a structured record below its header.
pub open spec fn detail_rows(d: DetailView) -> Seq<LineView> {
    match d {
        DetailView::DataRow(cells) => cells.map_values(|c: ColumnView| cell_row(c)),
        DetailView::RowDescription(fields) => fields.map_values(|f: FieldView| field_row(f)),
    }
}

/// The lines of a structured record: its header, without the content that the rows
/// below show, and one row per field.
pub open spec fn rich_lines(text: Seq<char>, d: DetailView) -> Seq<LineView> {
    seq![line_of(header_spans(text))] + detail_rows(d)
}

fn finish_row(spans: Vec<StyledSpan>, oid: u32) -> (l: StyledLine)
    ensures
        l@ == line_of(span_views(spans@) + type_span_views(oid)),
{
    let ghost before = spans@;
    let mut spans = spans;
    let mut more = type_spans(oid);
    let ghost types = more@;
    spans.append(&mut more);
    assert(span_views(spans@) =~= span_views(before) + span_views(types));
    StyledLine { spans, highlight: false }
}

/// Renders a structured record for rich mode.
pub fn render_rich(text: &str, detail: &EventDetail) -> (lines: Vec<StyledLine>)
    ensures
        line_views(lines@) == rich_lines(text@, detail@),
{
    let mut lines: Vec<StyledLine> = Vec::new();
    lines.push(StyledLine { spans: build_header_line(text), highlight: false });
    let ghost rows = detail_rows(detail@);
    assert(line_views(lines@) =~= seq![line_of(header_spans(text@))] + rows.take(0));
    match detail {
        EventDetail::DataRow(cells) => {
            for i in 0..cells.len()
                invariant
                    rows == detail_rows(detail@),
                    detail@ == DetailView::DataRow(crate::render::column_views(cells@)),
                    line_views(lines@) == seq![line_of(header_spans(text@))] + rows.take(
                        i as int,
                    ),
            {
                let c = &cells[i];
                let mut spans: Vec<StyledSpan> = Vec::new();
                spans.push(span("   ".to_owned(), Tint::Plain, false));
                spans.push(span(c.name.clone(), Tint::Blue, true));
                spans.push(span(" = ".to_owned(), Tint::Plain, false));
                spans.push(span(c.value.clone(), Tint::Plain, false));
                spans.push(span("  ".to_owned(), Tint::Plain, false));
                assert(span_views(spans@) =~= seq![
                    plain("   "@),
                    bold(c.name@, Tint::Blue),
                    plain(" = "@),
                    plain(c.value@),
                    plain("  "@),
                ]);
                let row = finish_row(spans, c.type_oid);
                let ghost before = lines@;
                lines.push(row);
                assert(rows[i as int] == row@);
                assert(line_views(lines@) =~= line_views(before).push(row@));
                assert(line_views(lines@) =~= seq![line_of(header_spans(text@))] + rows.take(
                    i + 1,
                ));
            }
        },
        EventDetail::RowDescription(fields) => {
            for i in 0..fields.len()
                invariant
                    rows == detail_rows(detail@),
                    detail@ == DetailView::RowDescription(crate::wire::field_views(fields@)),
                    line_views(lines@) == seq![line_of(header_spans(text@))] + rows.take(
                        i as int,
                    ),
            {
                let f = &fields[i];
                let mut spans: Vec<StyledSpan> = Vec::new();
                spans.push(span("   ".to_owned(), Tint::Plain, false));
                spans.push(span(f.name.clone(), Tint::Blue, true));
                spans.push(span("  ".to_owned(), Tint::Plain, false));
                assert(span_views(spans@) =~= seq![
                    plain("   "@),
                    bold(f.name@, Tint::Blue),
                    plain("  "@),
                ]);
                let row = finish_row(spans, f.type_oid);
                let ghost before = lines@;
                lines.push(row);
                assert(rows[i as int] == row@);
                assert(line_views(lines@) =~= line_views(before).push(row@));
                assert(line_views(lines@) =~= seq![line_of(header_spans(text@))] + rows.take(
                    i + 1,
                ));
            }
        },
    }
    assert(rows.take(rows.len() as int) =~= rows);
    lines
}

/// The display toggles that change how records are rendered.
#[derive(Clone, Copy, PartialEq, Eq, Structural, Debug)]
pub struct Look {
    /// Draw structured records as tables.
    pub rich: bool,
    /// Wrap long lines to the viewport width.
    pub wrap: bool,
}

/// The lines that a record renders as: the flat line, or in rich mode, where it has
/// structured detail, a header and the rows below it.
pub open spec fn lines_of(o: OutputView, look: Look) -> Seq<LineView> {
    match detail_of(o) {
        Some(d) => if look.rich {
            rich_lines(rendered_text(o), d)
        } else {
            seq![line_of(line_spans(rendered_text(o)))]
        },
        None => seq![line_of(line_spans(rendered_text(o)))],
    }
}

pub fn event_lines(evt: &Output, look: Look) -> (lines: Vec<StyledLine>)
    ensures
        line_views(lines@) == lines_of(evt@, look),
{
    if look.rich {
        if let Some(detail) = evt.detail() {
            return render_rich(evt.rendered(), detail);
        }
    }
    let mut lines: Vec<StyledLine> = Vec::new();
    lines.push(StyledLine { spans: build_line(evt.rendered()), highlight: false });
    assert(line_views(lines@) =~= seq![line_of(line_spans(rendered_text(evt@)))]);
    lines
}

// --- heights -----------------------------------------------------------------------------------

/// The texts of the spans of some lines.
pub open spec fn span_texts(lines: Seq<LineView>) -> Seq<Seq<Seq<char>>> {
    lines.map_values(|l: LineView| l.spans.map_values(|s: SpanView| s.text))
}

/// How many rows some lines take when they are wrapped to a width, with or without the
/// white space at their front trimmed.
pub uninterp spec fn wrapped_rows(lines: Seq<Seq<Seq<char>>>, trim: bool, width: u16) -> usize;

/// The symbols that a text is drawn as: its graphemes but for control characters.
pub uninterp spec fn graphemes(text: Seq<char>) -> Seq<Seq<char>>;

/// How many terminal cells a symbol takes.
pub uninterp spec fn cells(symbol: Seq<char>) -> u16;

/// Whether a text holds no ASCII control character.
pub open spec fn printable(text: Seq<char>) -> bool {
    forall|i: int| 0 <= i < text.len() ==> (#[trigger] text[i]) as u32 >= 32 && text[i] as u32 != 127
}

/// `Span::styled_graphemes` gives the symbols that a text is drawn as. The text alone
/// decides, and no symbol holds a control character.
#[verifier::external_body]
fn symbols_of(text: &str) -> (v: Vec<String>)
    ensures
        texts(v@) == graphemes(text@),
        forall|i: int| 0 <= i < v@.len() ==> printable((#[trigger] v@[i])@),
{
    ratatui::text::Span::raw(text)
        .styled_graphemes(ratatui::style::Style::default())
        .map(|g| g.symbol.to_string())
        .collect()
}

/// `CellWidth::cell_width` of a symbol: the symbol alone decides.
#[verifier::external_body]
fn cell_width(symbol: &str) -> (n: u16)
    requires
        printable(symbol@),
    ensures
        n == cells(symbol@),
{
    ratatui::buffer::CellWidth::cell_width(symbol)
}

/// Whether the sums of cells that wrapping a symbol takes stay within sixteen bits. A symbol
/// that is wider than the viewport is left out.
pub open spec fn symbol_fits(symbol: Seq<char>, width: u16) -> bool {
    cells(symbol) > width || width + 3 * cells(symbol) <= 0x1_0000
}

/// Whether a text can be wrapped to a width.
pub open spec fn text_fits(text: Seq<char>, width: u16) -> bool {
    forall|k: int|
        0 <= k < graphemes(text).len() ==> symbol_fits(#[trigger] graphemes(text)[k], width)
}

/// Whether some lines can be wrapped to a width.
pub open spec fn lines_fit(lines: Seq<Seq<Seq<char>>>, width: u16) -> bool {
    forall|i: int, j: int|
        0 <= i < lines.len() && 0 <= j < lines[i].len() ==> text_fits(
            #[trigger] lines[i][j],
            width,
        )
}

/// Up to this width, which is a quarter of what sixteen bits hold, every text can be wrapped.
pub const NARROW: u16 = 16_384;

/// Whether a record can be wrapped to a width, where it is to be wrapped.
pub open spec fn wrappable(o: OutputView, width: u16, look: Look) -> bool {
    look.wrap ==> lines_fit(span_texts(lines_of(o, look)), width)
}

/// `Paragraph::line_count` of wrapped lines: their texts, the trimming and the width
/// alone decide. On the way it adds up widths of sixteen bits: those of a line, of the white
/// space behind it and of a word, which come to less than the width and two symbols, and
/// that of the next symbol.
#[verifier::external_body]
fn count_wrapped(lines: &Vec<StyledLine>, trim: bool, width: u16) -> (n: usize)
    requires
        lines_fit(span_texts(line_views(lines@)), width),
    ensures
        n == wrapped_rows(span_texts(line_views(lines@)), trim, width),
{
    let text: Vec<ratatui::text::Line> = lines.iter().map(|l| {
        ratatui::text::Line::from(
            l.spans.iter().map(|s| ratatui::text::Span::raw(s.text.as_str())).collect::<Vec<_>>(),
        )
    }).collect();
    ratatui::widgets::Paragraph::new(text)
        .wrap(ratatui::widgets::Wrap { trim })
        .line_count(width)
}

/// The rows that a record takes, given how many its lines take wrapped: at least one.
pub open spec fn height_with(o: OutputView, look: Look, wrapped: usize) -> nat {
    if look.wrap {
        if wrapped == 0 {
            1
        } else {
            wrapped as nat
        }
    } else {
        lines_of(o, look).len()
    }
}

/// The rows that a record takes on screen. Wrapped lines keep the white space at their
/// front.
pub open spec fn height_of(o: OutputView, width: u16, look: Look) -> nat {
    height_with(o, look, wrapped_rows(span_texts(lines_of(o, look)), false, width))
}

/// The rows that a record takes, given how many its lines take wrapped.
pub fn height_from(evt: &Output, look: Look, wrapped: usize) -> (n: usize)
    ensures
        n == height_with(evt@, look, wrapped),
        n >= 1,
{
    if look.wrap {
        if wrapped == 0 {
            1
        } else {
            wrapped
        }
    } else {
        let lines = event_lines(evt, look);
        assert(line_views(lines@).len() == lines@.len());
        lines.len()
    }
}

/// Whether a text can be wrapped to a width.
fn check_text(text: &str, width: u16) -> (b: bool)
    ensures
        b == text_fits(text@, width),
{
    let symbols = symbols_of(text);
    let n: usize = symbols.len();
    assert(graphemes(text@).len() == n);
    for k in 0..n
        invariant
            n == symbols@.len(),
            n == graphemes(text@).len(),
            texts(symbols@) == graphemes(text@),
            forall|i: int| 0 <= i < symbols@.len() ==> printable((#[trigger] symbols@[i])@),
            forall|i: int| 0 <= i < k ==> symbol_fits(#[trigger] graphemes(text@)[i], width),
    {
        let c: u16 = cell_width(symbols[k].as_str());
        assert(graphemes(text@)[k as int] == symbols@[k as int]@);
        if c <= width && width as u32 + 3 * (c as u32) > 0x1_0000 {
            assert(!symbol_fits(graphemes(text@)[k as int], width));
            return false;
        }
    }
    true
}

/// Whether some lines can be wrapped to a width.
fn check_lines(lines: &Vec<StyledLine>, width: u16) -> (b: bool)
    ensures
        b == lines_fit(span_texts(line_views(lines@)), width),
{
    let ghost all = span_texts(line_views(lines@));
    let n: usize = lines.len();
    for i in 0..n
        invariant
            n == lines@.len(),
            all == span_texts(line_views(lines@)),
            forall|a: int, b: int|
                0 <= a < i && 0 <= b < all[a].len() ==> text_fits(#[trigger] all[a][b], width),
    {
        let m: usize = lines[i].spans.len();
        assert(all[i as int].len() == m);
        for j in 0..m
            invariant
                i < n,
                n == lines@.len(),
                m == lines@[i as int].spans@.len(),
                all == span_texts(line_views(lines@)),
                m == all[i as int].len(),
                forall|a: int, b: int|
                    0 <= a < i && 0 <= b < all[a].len() ==> text_fits(#[trigger] all[a][b], width),
                forall|b: int| 0 <= b < j ==> text_fits(#[trigger] all[i as int][b], width),
        {
            assert(all[i as int][j as int] == lines@[i as int].spans@[j as int].text@);
            if !check_text(lines[i].spans[j].text.as_str(), width) {
                assert(!text_fits(all[i as int][j as int], width));
                return false;
            }
        }
    }
    true
}

/// Whether a record can be wrapped to `width` columns, where it is to be wrapped.
pub fn event_wraps(evt: &Output, width: u16, look: Look) -> (b: bool)
    ensures
        b == wrappable(evt@, width, look),
{
    if !look.wrap || width <= NARROW {
        proof {
            narrow_viewports_wrap_everything(evt@, width, look);
        }
        return true;
    }
    check_lines(&event_lines(evt, look), width)
}

/// In a viewport of no more than [`NARROW`] columns every record can be wrapped.
pub proof fn narrow_viewports_wrap_everything(o: OutputView, width: u16, look: Look)
    requires
        !look.wrap || width <= NARROW,
    ensures
        wrappable(o, width, look),
{
}

/// Every record takes a row.
proof fn lemma_height_positive(o: OutputView, width: u16, look: Look)
    ensures
        height_of(o, width, look) >= 1,
{
}

/// Display rows an event occupies: one row for the flat line, a header and one row per
/// column for a table; in wrap mode any of those lines may take more.
pub fn event_height(evt: &Output, width: u16, look: Look) -> (n: usize)
    requires
        wrappable(evt@, width, look),
    ensures
        n == height_of(evt@, width, look),
        n >= 1,
{
    let wrapped: usize = if look.wrap {
        count_wrapped(&event_lines(evt, look), false, width)
    } else {
        0
    };
    height_from(evt, look, wrapped)
}

// --- the window ----------------------------------------------------------------------------------

/// How many rows the items `from..to` take.
pub open spec fn rows_between(heights: Seq<nat>, from: int, to: int) -> nat
    decreases to - from,
{
    if from >= to {
        0
    } else {
        rows_between(heights, from, to - 1) + heights[to - 1]
    }
}

/// Whether the items `from..to` fit whole into `log_h` rows.
pub open spec fn fits(heights: Seq<nat>, from: int, to: int, log_h: nat) -> bool {
    rows_between(heights, from, to) <= log_h
}

/// Whether `start..end` are the items to show in `log_h` rows. Following, they are as
/// many of the newest as fit; otherwise as many from the anchor on as fit, and where
/// that reaches the newest, as many more before the anchor as still fit. The newest,
/// or the one at the anchor, is shown even where it alone is too tall.
pub open spec fn shows_window(
    heights: Seq<nat>,
    scroll: int,
    follow: bool,
    log_h: nat,
    start: int,
    end: int,
) -> bool {
    let n = heights.len() as int;
    if n == 0 {
        start == 0 && end == 0
    } else if follow {
        &&& end == n
        &&& 0 <= start < n
        &&& start + 1 == n || fits(heights, start, n, log_h)
        &&& start == 0 || !fits(heights, start - 1, n, log_h)
    } else {
        &&& if scroll >= n {
            end == scroll
        } else {
            &&& scroll < end <= n
            &&& end == scroll + 1 || fits(heights, scroll, end, log_h)
            &&& end == n || !fits(heights, scroll, end + 1, log_h)
        }
        &&& if end == n {
            &&& 0 <= start <= scroll
            &&& start == scroll || fits(heights, start, end, log_h)
            &&& start == 0 || !fits(heights, start - 1, end, log_h)
        } else {
            start == scroll
        }
    }
}

/// The heights of the visible items.
pub open spec fn heights_of(
    events: Seq<Output>,
    visible: Seq<usize>,
    width: u16,
    look: Look,
) -> Seq<nat> {
    visible.map_values(|i: usize| height_of(events[i as int]@, width, look))
}

/// Whether every index is that of an event.
pub open spec fn in_range(events: Seq<Output>, visible: Seq<usize>) -> bool {
    forall|i: int| 0 <= i < visible.len() ==> (#[trigger] visible[i]) < events.len()
}

/// Whether the height of the item `i` is asked for when a window is picked: fewer rows than
/// the viewport has are taken by the items between it and where filling began.
pub open spec fn looked_at(
    heights: Seq<nat>,
    scroll: int,
    follow: bool,
    log_h: nat,
    i: int,
) -> bool {
    let n = heights.len() as int;
    if follow {
        i == n - 1 || rows_between(heights, i + 1, n) < log_h
    } else if i >= scroll {
        i == scroll || rows_between(heights, scroll, i) < log_h
    } else {
        scroll <= n && rows_between(heights, i + 1, n) < log_h
    }
}

/// Whether each item that is looked at when a window is picked can be wrapped.
pub open spec fn window_wrappable(
    events: Seq<Output>,
    visible: Seq<usize>,
    scroll: int,
    follow: bool,
    log_h: nat,
    width: u16,
    look: Look,
) -> bool {
    let heights = heights_of(events, visible, width, look);
    forall|i: int|
        0 <= i < visible.len() && #[trigger] looked_at(heights, scroll, follow, log_h, i)
            ==> wrappable(events[visible[i] as int]@, width, look)
}

/// Whether each item before `at` can be wrapped, as far as filling backward from the newest
/// looks at it.
spec fn back_wrappable(
    events: Seq<Output>,
    visible: Seq<usize>,
    at: int,
    log_h: nat,
    width: u16,
    look: Look,
) -> bool {
    let heights = heights_of(events, visible, width, look);
    forall|i: int|
        0 <= i < at && #[trigger] rows_between(heights, i + 1, heights.len() as int) < log_h
            ==> wrappable(events[visible[i] as int]@, width, look)
}

/// One item more at the front adds its own rows.
proof fn rows_from_the_front(heights: Seq<nat>, from: int, to: int)
    requires
        from < to,
    ensures
        rows_between(heights, from, to) == heights[from] + rows_between(heights, from + 1, to),
    decreases to - from,
{
    if from + 1 < to {
        rows_from_the_front(heights, from, to - 1);
    } else {
        assert(rows_between(heights, from, to - 1) == 0);
    }
}

/// More items take no fewer rows.
proof fn rows_grow(heights: Seq<nat>, from: int, to: int, low: int, high: int)
    requires
        low <= from,
        to <= high,
    ensures
        rows_between(heights, from, to) <= rows_between(heights, low, high),
    decreases high - low,
{
    if from >= to {
    } else if low < from {
        rows_from_the_front(heights, low, high);
        rows_grow(heights, from, to, low + 1, high);
    } else if to < high {
        rows_grow(heights, from, to, low, high - 1);
    }
}

/// The first item of a window that fills backward to `end`: from `at` on the items take
/// `rows` rows, and those before it are added while they fit.
fn back_fill(
    events: &Vec<Output>,
    visible: &Vec<usize>,
    at: usize,
    end: usize,
    rows: usize,
    log_h: usize,
    width: u16,
    look: Look,
) -> (start: usize)
    requires
        in_range(events@, visible@),
        back_wrappable(events@, visible@, at as int, log_h as nat, width, look),
        at <= end == visible@.len(),
        rows == rows_between(heights_of(events@, visible@, width, look), at as int, end as int),
    ensures
        start <= at,
        start == at || fits(
            heights_of(events@, visible@, width, look),
            start as int,
            end as int,
            log_h as nat,
        ),
        start == 0 || !fits(
            heights_of(events@, visible@, width, look),
            start - 1,
            end as int,
            log_h as nat,
        ),
{
    let ghost heights = heights_of(events@, visible@, width, look);
    let mut start: usize = at;
    let mut rows: usize = rows;
    while start > 0
        invariant
            in_range(events@, visible@),
            heights == heights_of(events@, visible@, width, look),
            back_wrappable(events@, visible@, at as int, log_h as nat, width, look),
            start <= at <= end == visible@.len(),
            rows == rows_between(heights, start as int, end as int),
            start == at || rows <= log_h,
        decreases start,
    {
        proof {
            rows_from_the_front(heights, start - 1, end as int);
            lemma_height_positive(events@[visible@[start - 1] as int]@, width, look);
            assert(heights[start - 1] == height_of(
                events@[visible@[start - 1] as int]@,
                width,
                look,
            ));
        }
        if rows >= log_h {
            return start;
        }
        assert(rows_between(heights, (start - 1) + 1, heights.len() as int) < log_h);
        let h: usize = event_height(&events[visible[start - 1]], width, look);
        if h > log_h - rows {
            return start;
        }
        rows = rows + h;
        start = start - 1;
    }
    start
}

/// Picks the items to show so that the viewport is filled with whole items, none cut in
/// half. `width` is the column count inside the border.
pub fn view_window(
    events: &Vec<Output>,
    visible: &Vec<usize>,
    scroll: usize,
    follow: bool,
    log_h: usize,
    width: u16,
    look: Look,
) -> (r: (usize, usize))
    requires
        in_range(events@, visible@),
        window_wrappable(events@, visible@, scroll as int, follow, log_h as nat, width, look),
    ensures
        shows_window(
            heights_of(events@, visible@, width, look),
            scroll as int,
            follow,
            log_h as nat,
            r.0 as int,
            r.1 as int,
        ),
{
    let n: usize = visible.len();
    if n == 0 {
        return (0, 0);
    }
    let ghost heights = heights_of(events@, visible@, width, look);
    if follow {
        assert(looked_at(heights, scroll as int, follow, log_h as nat, n - 1));
        let h: usize = event_height(&events[visible[n - 1]], width, look);
        proof {
            assert(heights[n - 1] == h);
            rows_from_the_front(heights, n - 1, n as int);
            assert(rows_between(heights, n as int, n as int) == 0);
            lemma_back(events@, visible@, scroll as int, follow, n - 1, log_h as nat, width, look);
        }
        let start: usize = back_fill(events, visible, n - 1, n, h, log_h, width, look);
        return (start, n);
    }
    let mut end: usize = scroll;
    let mut rows: usize = 0;
    assert(rows_between(heights, scroll as int, end as int) == 0);
    while end < n
        invariant
            in_range(events@, visible@),
            heights == heights_of(events@, visible@, width, look),
            window_wrappable(events@, visible@, scroll as int, follow, log_h as nat, width, look),
            !follow,
            n == visible@.len(),
            scroll <= end,
            end <= n || end == scroll,
            rows == rows_between(heights, scroll as int, end as int),
            end == scroll || rows >= 1,
            end <= scroll + 1 || rows <= log_h,
        ensures
            scroll <= end,
            end <= n || end == scroll,
            scroll < n ==> scroll < end,
            rows == rows_between(heights, scroll as int, end as int),
            end <= scroll + 1 || rows <= log_h,
            end >= n || !fits(heights, scroll as int, end + 1, log_h as nat),
        decreases n - end,
    {
        proof {
            lemma_height_positive(events@[visible@[end as int] as int]@, width, look);
            assert(heights[end as int] == height_of(
                events@[visible@[end as int] as int]@,
                width,
                look,
            ));
            assert(rows_between(heights, scroll as int, end + 1) == rows + heights[end as int]);
        }
        if rows != 0 && rows >= log_h {
            break;
        }
        assert(looked_at(heights, scroll as int, follow, log_h as nat, end as int));
        let h: usize = event_height(&events[visible[end as usize]], width, look);
        if rows != 0 && h > log_h - rows {
            break;
        }
        rows = rows + h;
        end = end + 1;
    }
    if end != n {
        return (scroll, end);
    }
    proof {
        lemma_back(events@, visible@, scroll as int, follow, scroll as int, log_h as nat, width, look);
    }
    let start: usize = back_fill(events, visible, scroll, end, rows, log_h, width, look);
    (start, end)
}

/// What a window looks at, it looks at in filling backward.
proof fn lemma_back(
    events: Seq<Output>,
    visible: Seq<usize>,
    scroll: int,
    follow: bool,
    at: int,
    log_h: nat,
    width: u16,
    look: Look,
)
    requires
        window_wrappable(events, visible, scroll, follow, log_h, width, look),
        if follow {
            at < visible.len()
        } else {
            at == scroll <= visible.len()
        },
    ensures
        back_wrappable(events, visible, at, log_h, width, look),
{
    let heights = heights_of(events, visible, width, look);
    assert forall|i: int|
        0 <= i < at && #[trigger] rows_between(heights, i + 1, heights.len() as int)
            < log_h implies wrappable(events[visible[i] as int]@, width, look) by {
        assert(looked_at(heights, scroll, follow, log_h, i));
    }
}

/// Whether filling backward can wrap what it looks at before `at`, where the items from there
/// on take `rows` rows.
fn back_wraps(
    events: &Vec<Output>,
    visible: &Vec<usize>,
    at: usize,
    rows: usize,
    log_h: usize,
    width: u16,
    look: Look,
) -> (b: bool)
    requires
        in_range(events@, visible@),
        at <= visible@.len(),
        rows == rows_between(
            heights_of(events@, visible@, width, look),
            at as int,
            visible@.len() as int,
        ),
    ensures
        b == back_wrappable(events@, visible@, at as int, log_h as nat, width, look),
{
    let ghost heights = heights_of(events@, visible@, width, look);
    let ghost n = visible@.len() as int;
    let mut start: usize = at;
    let mut rows: usize = rows;
    while start > 0 && rows < log_h
        invariant
            in_range(events@, visible@),
            heights == heights_of(events@, visible@, width, look),
            n == visible@.len(),
            n == heights.len(),
            start <= at <= n,
            rows == rows_between(heights, start as int, n),
            forall|i: int|
                start <= i < at ==> wrappable(
                    events@[(#[trigger] visible@[i]) as int]@,
                    width,
                    look,
                ),
        decreases start,
    {
        let evt = &events[visible[start - 1]];
        if !event_wraps(evt, width, look) {
            assert(rows_between(heights, (start - 1) + 1, n) < log_h);
            assert(!wrappable(events@[visible@[start - 1] as int]@, width, look));
            return false;
        }
        let h: usize = event_height(evt, width, look);
        proof {
            assert(heights[start - 1] == h);
            rows_from_the_front(heights, start - 1, n);
        }
        if h >= log_h - rows {
            proof {
                lemma_no_farther(heights, start - 1, log_h as nat);
                assert(back_wrappable(events@, visible@, at as int, log_h as nat, width, look));
            }
            return true;
        }
        rows = rows + h;
        start = start - 1;
    }
    proof {
        if start > 0 {
            lemma_no_farther(heights, start as int, log_h as nat);
        }
        assert(back_wrappable(events@, visible@, at as int, log_h as nat, width, look));
    }
    true
}

/// Where the items from `from` on fill the viewport, no item before is looked at.
proof fn lemma_no_farther(heights: Seq<nat>, from: int, log_h: nat)
    requires
        0 <= from <= heights.len(),
        rows_between(heights, from, heights.len() as int) >= log_h,
    ensures
        forall|i: int|
            i < from ==> #[trigger] rows_between(heights, i + 1, heights.len() as int) >= log_h,
{
    let n = heights.len() as int;
    assert forall|i: int| i < from implies #[trigger] rows_between(heights, i + 1, n) >= log_h by {
        rows_grow(heights, from, n, i + 1, n);
    }
}

/// Whether each item that [`view_window`] looks at can be wrapped to `width` columns.
pub fn window_wraps(
    events: &Vec<Output>,
    visible: &Vec<usize>,
    scroll: usize,
    follow: bool,
    log_h: usize,
    width: u16,
    look: Look,
) -> (b: bool)
    requires
        in_range(events@, visible@),
    ensures
        b == window_wrappable(
            events@,
            visible@,
            scroll as int,
            follow,
            log_h as nat,
            width,
            look,
        ),
{
    let ghost heights = heights_of(events@, visible@, width, look);
    let n: usize = visible.len();
    if !look.wrap || width <= NARROW {
        proof {
            assert forall|i: int| 0 <= i < n implies wrappable(
                events@[(#[trigger] visible@[i]) as int]@,
                width,
                look,
            ) by {
                narrow_viewports_wrap_everything(events@[visible@[i] as int]@, width, look);
            }
        }
        return true;
    }
    if n == 0 {
        return true;
    }
    if follow {
        let evt = &events[visible[n - 1]];
        assert(looked_at(heights, scroll as int, follow, log_h as nat, n - 1));
        if !event_wraps(evt, width, look) {
            assert(!wrappable(events@[visible@[n - 1] as int]@, width, look));
            return false;
        }
        let h: usize = event_height(evt, width, look);
        proof {
            assert(heights[n - 1] == h);
            rows_from_the_front(heights, n - 1, n as int);
            assert(rows_between(heights, n as int, n as int) == 0);
        }
        let b: bool = back_wraps(events, visible, n - 1, h, log_h, width, look);
        proof {
            if b {
                assert(window_wrappable(
                    events@,
                    visible@,
                    scroll as int,
                    follow,
                    log_h as nat,
                    width,
                    look,
                )) by {
                    lemma_front(events@, visible@, scroll as int, follow, log_h as nat, width, look);
                }
            } else if window_wrappable(
                events@,
                visible@,
                scroll as int,
                follow,
                log_h as nat,
                width,
                look,
            ) {
                lemma_back(
                    events@,
                    visible@,
                    scroll as int,
                    follow,
                    n - 1,
                    log_h as nat,
                    width,
                    look,
                );
            }
        }
        return b;
    }
    if scroll > n {
        return true;
    }
    let mut end: usize = scroll;
    let mut rows: usize = 0;
    assert(rows_between(heights, scroll as int, end as int) == 0);
    while end < n && (end == scroll || rows < log_h)
        invariant
            in_range(events@, visible@),
            heights == heights_of(events@, visible@, width, look),
            n == visible@.len(),
            n == heights.len(),
            !follow,
            scroll <= end <= n,
            rows == rows_between(heights, scroll as int, end as int),
            forall|i: int|
                scroll <= i < end ==> wrappable(
                    events@[(#[trigger] visible@[i]) as int]@,
                    width,
                    look,
                ),
        decreases n - end,
    {
        let evt = &events[visible[end]];
        assert(looked_at(heights, scroll as int, follow, log_h as nat, end as int));
        if !event_wraps(evt, width, look) {
            assert(!wrappable(events@[visible@[end as int] as int]@, width, look));
            return false;
        }
        let h: usize = event_height(evt, width, look);
        assert(heights[end as int] == h);
        assert(rows_between(heights, scroll as int, end + 1) == rows + h);
        end = end + 1;
        if rows >= log_h || h >= log_h - rows {
            proof {
                lemma_full(
                    events@,
                    visible@,
                    scroll as int,
                    end as int,
                    log_h as nat,
                    width,
                    look,
                );
            }
            return true;
        }
        rows = rows + h;
    }
    if end < n {
        proof {
            lemma_full(events@, visible@, scroll as int, end as int, log_h as nat, width, look);
        }
        return true;
    }
    let b: bool = back_wraps(events, visible, scroll, rows, log_h, width, look);
    proof {
        if b {
            lemma_front(events@, visible@, scroll as int, follow, log_h as nat, width, look);
        } else if window_wrappable(
            events@,
            visible@,
            scroll as int,
            follow,
            log_h as nat,
            width,
            look,
        ) {
            lemma_back(
                events@,
                visible@,
                scroll as int,
                follow,
                scroll as int,
                log_h as nat,
                width,
                look,
            );
        }
    }
    b
}

/// What filling backward can wrap, and what stands where it begins, is all that is looked at.
proof fn lemma_front(
    events: Seq<Output>,
    visible: Seq<usize>,
    scroll: int,
    follow: bool,
    log_h: nat,
    width: u16,
    look: Look,
)
    requires
        if follow {
            &&& visible.len() > 0
            &&& wrappable(events[visible.last() as int]@, width, look)
            &&& back_wrappable(events, visible, visible.len() - 1, log_h, width, look)
        } else {
            &&& forall|i: int|
                scroll <= i < visible.len() ==> wrappable(
                    events[(#[trigger] visible[i]) as int]@,
                    width,
                    look,
                )
            &&& back_wrappable(events, visible, scroll, log_h, width, look)
        },
    ensures
        window_wrappable(events, visible, scroll, follow, log_h, width, look),
{
    let heights = heights_of(events, visible, width, look);
    assert forall|i: int|
        0 <= i < visible.len() && #[trigger] looked_at(
            heights,
            scroll,
            follow,
            log_h,
            i,
        ) implies wrappable(events[visible[i] as int]@, width, look) by {
        if follow && i == visible.len() - 1 {
            assert(visible[i] == visible.last());
        } else if follow || i < scroll {
            assert(rows_between(heights, i + 1, heights.len() as int) < log_h);
        } else {
            assert(visible[i] == visible[i]);
        }
    }
}

/// Where the items from the anchor up to `end` fill the viewport, no others are looked at.
proof fn lemma_full(
    events: Seq<Output>,
    visible: Seq<usize>,
    scroll: int,
    end: int,
    log_h: nat,
    width: u16,
    look: Look,
)
    requires
        0 <= scroll < end <= visible.len(),
        rows_between(heights_of(events, visible, width, look), scroll, end) >= log_h,
        forall|i: int|
            scroll <= i < end ==> wrappable(events[(#[trigger] visible[i]) as int]@, width, look),
    ensures
        window_wrappable(events, visible, scroll, false, log_h, width, look),
{
    let heights = heights_of(events, visible, width, look);
    let n = heights.len() as int;
    assert forall|i: int|
        0 <= i < visible.len() && #[trigger] looked_at(
            heights,
            scroll,
            false,
            log_h,
            i,
        ) implies wrappable(events[visible[i] as int]@, width, look) by {
        if i < scroll {
            rows_grow(heights, scroll, end, i + 1, n);
        } else if i >= end {
            rows_grow(heights, scroll, end, scroll, i);
        }
    }
}

/// Two windows on the same items, at the same anchor, show the same.
pub proof fn window_is_determined(
    heights: Seq<nat>,
    scroll: int,
    follow: bool,
    log_h: nat,
    one: (int, int),
    other: (int, int),
)
    requires
        0 <= scroll,
        shows_window(heights, scroll, follow, log_h, one.0, one.1),
        shows_window(heights, scroll, follow, log_h, other.0, other.1),
    ensures
        one == other,
{
    let n = heights.len() as int;
    if n > 0 {
        if !follow && scroll < n {
            if one.1 < other.1 {
                rows_grow(heights, scroll, one.1 + 1, scroll, other.1);
            } else if other.1 < one.1 {
                rows_grow(heights, scroll, other.1 + 1, scroll, one.1);
            }
        }
        assert(one.1 == other.1);
        if one.0 < other.0 {
            rows_grow(heights, other.0 - 1, n, one.0, n);
        } else if other.0 < one.0 {
            rows_grow(heights, one.0 - 1, n, other.0, n);
        }
    }
}

/// No item is cut in half: whatever the anchor, the shown items fit into the viewport
/// together, unless it is a single one that is taller than the viewport itself.
pub proof fn window_never_clips(
    heights: Seq<nat>,
    scroll: int,
    follow: bool,
    log_h: nat,
    start: int,
    end: int,
)
    requires
        0 <= scroll <= heights.len(),
        shows_window(heights, scroll, follow, log_h, start, end),
    ensures
        0 <= start <= end <= heights.len(),
        end - start <= 1 || rows_between(heights, start, end) <= log_h,
        heights.len() > 0 && scroll < heights.len() ==> start < end,
{
}

/// The viewport stays full: where an item before the window is left out, the window
/// cannot take one more whole item at its end, or, at the newest, at its start.
pub proof fn window_is_full(
    heights: Seq<nat>,
    scroll: int,
    follow: bool,
    log_h: nat,
    start: int,
    end: int,
)
    requires
        0 <= scroll <= heights.len(),
        shows_window(heights, scroll, follow, log_h, start, end),
    ensures
        end < heights.len() ==> rows_between(heights, start, end + 1) > log_h,
        end == heights.len() && start > 0 ==> rows_between(heights, start - 1, end) > log_h,
{
}

} // verus!
