//! What the texts of messages say, field by field.
use crate::net_laws::four_bytes;
use crate::render::{
    all_codes, ascii_text, auth_data_text, auth_text, bind_text, bytes_text, columns_of,
    columns_text, copy_response_text, error_fields_text, execute_text, field_at, field_text,
    format_codes_text, hex_preview_text, hex_text, key_data_text, negotiate_text, oids_text,
    parameter_text, parse_text, printable, quoted_text, report_field, row_columns, row_desc_text,
    startup_text, target_text, txn_status_text, ColumnView, FieldAt,
};
use crate::text::{dec, dec_int, hex_byte, join};
use crate::wire::{
    AuthDataView, AuthenticationView, BindView, FieldView, SecretKeyView, TransactionStatus,
};
use vstd::prelude::*;

verus! {

// --- errors and notices ------------------------------------------------------------------

/// Whether the field at `i` is the first with a tag, and holds a text.
pub open spec fn first_field(
    fields: Seq<(u8, Seq<char>)>,
    i: int,
    tag: char,
    text: Seq<char>,
) -> bool {
    &&& 0 <= i < fields.len()
    &&& fields[i].0 as int == tag as int
    &&& fields[i].1 == text
    &&& forall|j: int| 0 <= j < i ==> (#[trigger] fields[j]).0 as int != tag as int
}

/// Whether no field has a tag.
pub open spec fn no_field(fields: Seq<(u8, Seq<char>)>, tag: char) -> bool {
    forall|j: int| 0 <= j < fields.len() ==> (#[trigger] fields[j]).0 as int != tag as int
}

proof fn lemma_first(fields: Seq<(u8, Seq<char>)>, i: int, tag: char, text: Seq<char>)
    requires
        first_field(fields, i, tag, text),
        (tag as u32) < 128,
    ensures
        report_field(fields, tag as u8) == Some(text),
    decreases i,
{
    if i > 0 {
        assert(fields[0].0 as int != tag as int);
        let rest = fields.skip(1);
        assert(rest[i - 1] == fields[i]);
        assert forall|j: int| 0 <= j < i - 1 implies (#[trigger] rest[j]).0 as int
            != tag as int by {
            assert(rest[j] == fields[j + 1]);
        }
        lemma_first(rest, i - 1, tag, text);
    }
}

proof fn lemma_none(fields: Seq<(u8, Seq<char>)>, tag: char)
    requires
        no_field(fields, tag),
        (tag as u32) < 128,
    ensures
        report_field(fields, tag as u8) is None,
    decreases fields.len(),
{
    if fields.len() > 0 {
        assert(fields[0].0 as int != tag as int);
        let rest = fields.skip(1);
        assert forall|j: int| 0 <= j < rest.len() implies (#[trigger] rest[j]).0 as int
            != tag as int by {
            assert(rest[j] == fields[j + 1]);
        }
        lemma_none(rest, tag);
    }
}

/// An error or notice reads `severity: message [code]`: the severity is the first field `S`,
/// the message the first field `M` and the code the first field `C`, in whatever order they
/// come.
pub proof fn reports_name_severity_message_and_code(
    fields: Seq<(u8, Seq<char>)>,
    at_s: int,
    at_m: int,
    at_c: int,
    severity: Seq<char>,
    message: Seq<char>,
    code: Seq<char>,
)
    requires
        first_field(fields, at_s, 'S', severity),
        first_field(fields, at_m, 'M', message),
        first_field(fields, at_c, 'C', code),
        no_field(fields, 'D'),
        no_field(fields, 'H'),
    ensures
        error_fields_text(fields) == severity + ": "@ + message + " ["@ + code + "]"@,
{
    lemma_first(fields, at_s, 'S', severity);
    lemma_first(fields, at_m, 'M', message);
    lemma_first(fields, at_c, 'C', code);
    lemma_none(fields, 'D');
    lemma_none(fields, 'H');
}

/// Appending a detail or a hint appends its text; a field that is none of these, or not the
/// first of its kind, changes nothing.
pub proof fn reports_go_on_with_detail_and_hint(fields: Seq<(u8, Seq<char>)>, text: Seq<char>)
    ensures
        no_field(fields, 'D') && no_field(fields, 'H') ==> error_fields_text(
            fields.push((0x44, text)),
        ) == error_fields_text(fields) + "  detail: "@ + text,
        no_field(fields, 'H') ==> error_fields_text(fields.push((0x48, text)))
            == error_fields_text(fields) + "  hint: "@ + text,
{
    let d = fields.push((0x44, text));
    let h = fields.push((0x48, text));
    if no_field(fields, 'D') && no_field(fields, 'H') {
        lemma_pushed(fields, 0x44, text);
        lemma_none(fields, 'D');
        lemma_none(fields, 'H');
    }
    if no_field(fields, 'H') {
        lemma_pushed(fields, 0x48, text);
        lemma_none(fields, 'H');
    }
}

/// A field behind the others is found only where none before has its tag.
proof fn lemma_pushed(fields: Seq<(u8, Seq<char>)>, tag: u8, text: Seq<char>)
    ensures
        forall|t: u8| #[trigger]
            report_field(fields.push((tag, text)), t) == (if report_field(fields, t) is Some {
                report_field(fields, t)
            } else if t == tag {
                Some(text)
            } else {
                None
            }),
    decreases fields.len(),
{
    let more = fields.push((tag, text));
    assert forall|t: u8| #[trigger]
        report_field(more, t) == (if report_field(fields, t) is Some {
            report_field(fields, t)
        } else if t == tag {
            Some(text)
        } else {
            None
        }) by {
        if fields.len() == 0 {
            assert(more.skip(1) =~= Seq::<(u8, Seq<char>)>::empty());
            assert(report_field(more.skip(1), t) is None);
        } else {
            lemma_pushed(fields.skip(1), tag, text);
            assert(more.skip(1) =~= fields.skip(1).push((tag, text)));
        }
    }
}

/// A field of any other kind is not shown, wherever it stands, and neither is a second field of
/// a kind.
pub proof fn other_fields_are_not_shown(fields: Seq<(u8, Seq<char>)>, tag: u8, text: Seq<char>)
    requires
        tag as int != 'S' as int && tag as int != 'V' as int && tag as int != 'M' as int
            && tag as int != 'C' as int && tag as int != 'D' as int && tag as int != 'H' as int
            || report_field(fields, tag) is Some,
    ensures
        error_fields_text(fields.push((tag, text))) == error_fields_text(fields),
{
    lemma_pushed(fields, tag, text);
}

/// Without `S` the severity is the first field `V`, and without that it is `ERROR`. A missing
/// message or code leaves its place empty.
#[verifier::rlimit(30)]
pub proof fn reports_without_some_fields(
    fields: Seq<(u8, Seq<char>)>,
    i: int,
    text: Seq<char>,
)
    requires
        no_field(fields, 'S'),
        no_field(fields, 'M'),
        no_field(fields, 'C'),
        no_field(fields, 'D'),
        no_field(fields, 'H'),
    ensures
        first_field(fields, i, 'V', text) ==> error_fields_text(fields) =~= text + ":  []"@,
        no_field(fields, 'V') ==> error_fields_text(fields) =~= "ERROR:  []"@,
{
    lemma_none(fields, 'S');
    lemma_none(fields, 'M');
    lemma_none(fields, 'C');
    lemma_none(fields, 'D');
    lemma_none(fields, 'H');
    reveal_strlit(": ");
    reveal_strlit(" [");
    reveal_strlit("]");
    reveal_strlit(":  []");
    reveal_strlit("ERROR:  []");
    reveal_strlit("ERROR");
    if first_field(fields, i, 'V', text) {
        lemma_first(fields, i, 'V', text);
    }
    if no_field(fields, 'V') {
        lemma_none(fields, 'V');
    }
}

// --- bytes --------------------------------------------------------------------------------

/// Bytes in hexadecimal are the digits of each in turn, the greater digit first.
pub proof fn hex_digits_stand_for_the_bytes(a: Seq<u8>, b: Seq<u8>, x: u8)
    ensures
        hex_text(a + b) == hex_text(a) + hex_text(b),
        hex_text(a).len() == 2 * a.len(),
        hex_text(seq![x]) == seq![
            "0123456789abcdef"@[x as int / 16],
            "0123456789abcdef"@[x as int % 16],
        ],
    decreases b.len(),
{
    reveal_strlit("0123456789abcdef");
    lemma_hex_length(a);
    assert(seq![x].drop_last() =~= Seq::<u8>::empty());
    assert(hex_text(seq![x].drop_last()).len() == 0);
    assert(hex_text(seq![x]) =~= hex_byte(x));
    if b.len() == 0 {
        assert(a + b =~= a);
        assert(hex_text(a) + hex_text(b) =~= hex_text(a));
    } else {
        hex_digits_stand_for_the_bytes(a, b.drop_last(), x);
        assert((a + b).drop_last() =~= a + b.drop_last());
        assert(hex_text(a + b) =~= hex_text(a) + hex_text(b));
    }
}

proof fn lemma_hex_length(a: Seq<u8>)
    ensures
        hex_text(a).len() == 2 * a.len(),
    decreases a.len(),
{
    if a.len() > 0 {
        lemma_hex_length(a.drop_last());
    }
}

/// Up to forty-eight bytes a preview shows all of them; of more it shows that many, and how
/// many there are.
pub proof fn previews_show_the_first_bytes(shown: Seq<u8>, more: Seq<u8>)
    ensures
        shown.len() <= 48 ==> hex_preview_text(shown) == hex_text(shown),
        shown.len() == 48 && more.len() > 0 ==> hex_preview_text(shown + more) == hex_text(shown)
            + "… ("@ + dec(48 + more.len()) + " bytes)"@,
        shown.len() == 256 && more.len() > 0 && printable(shown + more) ==> bytes_text(shown + more)
            == ascii_text(shown) + "… ("@ + dec(256 + more.len()) + " bytes)"@,
        shown.len() <= 256 && printable(shown) ==> bytes_text(shown) == ascii_text(shown),
        !printable(shown) ==> bytes_text(shown) == hex_preview_text(shown),
{
    if shown.len() == 48 {
        assert((shown + more).take(48) =~= shown);
    }
    if shown.len() == 256 {
        assert((shown + more).take(256) =~= shown);
    }
}

/// A text in ASCII without control characters, tabs and line feeds aside.
pub open spec fn plain_text(text: Seq<char>) -> bool {
    text.len() > 0 && forall|i: int|
        0 <= i < text.len() ==> ' ' <= #[trigger] text[i] <= '~' || text[i] == '\t' || text[i] == '\n'
}

/// The bytes of a text in ASCII.
pub open spec fn text_bytes(text: Seq<char>) -> Seq<u8> {
    text.map_values(|c: char| c as u8)
}

/// A value that is plain text is shown as that text, in quotes; any other in hexadecimal.
pub proof fn plain_values_are_quoted(text: Seq<char>, b: Seq<u8>, i: int)
    ensures
        plain_text(text) ==> printable(text_bytes(text)) && quoted_text(text_bytes(text)) == "'"@
            + text + "'"@,
        0 <= i < b.len() && (b[i] < 9 || 10 < b[i] < 32 || b[i] >= 127) ==> quoted_text(b)
            == hex_preview_text(b) && bytes_text(b) == hex_preview_text(b),
        quoted_text(Seq::empty()) == hex_text(Seq::empty()),
{
    if plain_text(text) {
        let bytes = text_bytes(text);
        assert forall|k: int| 0 <= k < bytes.len() implies (32 <= #[trigger] bytes[k] < 127
            || bytes[k] == 9 || bytes[k] == 10) by {
            assert(' ' <= text[k] <= '~' || text[k] == '\t' || text[k] == '\n');
        }
        assert(printable(bytes));
        assert forall|k: int| 0 <= k < text.len() implies #[trigger] ascii_text(bytes)[k]
            == text[k] by {
            assert(' ' <= text[k] <= '~' || text[k] == '\t' || text[k] == '\n');
            assert((text[k] as u8) as char == text[k]);
        }
        assert(ascii_text(bytes) =~= text);
    }
}

// --- rows ----------------------------------------------------------------------------------

/// A value of a row as it is sent: its length and its bytes, or a length of minus one.
pub open spec fn sent_value(v: Option<Seq<u8>>) -> Seq<u8> {
    match v {
        Some(bytes) => four_bytes(bytes.len() as u32) + bytes,
        None => seq![0xffu8, 0xff, 0xff, 0xff],
    }
}

/// The values of a row as they are sent.
pub open spec fn sent_row(values: Seq<Option<Seq<u8>>>) -> Seq<u8>
    decreases values.len(),
{
    if values.len() == 0 {
        Seq::empty()
    } else {
        sent_value(values[0]) + sent_row(values.skip(1))
    }
}

/// Whether each value's length can be sent.
pub open spec fn sendable(values: Seq<Option<Seq<u8>>>) -> bool {
    &&& values.len() <= 0x7fff
    &&& forall|i: int|
        0 <= i < values.len() ==> (#[trigger] values[i] matches Some(bytes) ==> bytes.len()
            < 0x8000_0000)
}

/// How a value is shown: by what its column says, in hexadecimal where it is binary.
pub open spec fn shown_value(v: Option<Seq<u8>>, binary: bool) -> Seq<char> {
    match v {
        None => "NULL"@,
        Some(bytes) => if binary {
            hex_preview_text(bytes)
        } else {
            quoted_text(bytes)
        },
    }
}

proof fn lemma_sent_value(v: Option<Seq<u8>>, rest: Seq<u8>)
    requires
        v matches Some(bytes) ==> bytes.len() < 0x8000_0000,
    ensures
        field_at(sent_value(v) + rest) == (match v {
            Some(bytes) => FieldAt::Bytes(bytes, rest),
            None => FieldAt::Null(rest),
        }),
{
    let b = sent_value(v) + rest;
    match v {
        Some(bytes) => {
            let n = bytes.len() as u32;
            assert(b.subrange(0, 4) =~= four_bytes(n));
            crate::net_laws::four_bytes_read_back(b, 0, n);
            assert(b.subrange(4, 4 + n) =~= bytes);
            assert(b.skip(4 + n) =~= rest);
        },
        None => {
            assert(b[0] == 0xff && b[1] == 0xff && b[2] == 0xff && b[3] == 0xff);
            assert(crate::net::be32(b, 0) == 0xffff_ffff);
            assert(b.skip(4) =~= rest);
        },
    }
}

/// A row is shown as the values that were sent, each under the name and type of its column in
/// order, and by its column's format. A row that no description stands for has its values
/// under `?`.
#[verifier::rlimit(30)]
pub proof fn rows_show_the_values_sent(
    values: Seq<Option<Seq<u8>>>,
    desc: Option<Seq<FieldView>>,
    i: int,
)
    requires
        sendable(values),
        0 <= i < values.len(),
    ensures
        ({
            let cols = columns_of(sent_row(values), values.len() as i16, desc);
            &&& cols.len() == values.len()
            &&& desc is Some && i < desc->0.len() ==> cols[i] == (ColumnView {
                name: desc->0[i].name,
                type_oid: desc->0[i].type_oid,
                value: shown_value(values[i], desc->0[i].format_code == 1),
            })
            &&& desc is None || i >= desc->0.len() ==> cols[i] == (ColumnView {
                name: "?"@,
                type_oid: 0,
                value: shown_value(values[i], false),
            })
        }),
{
    lemma_row(values, 0, desc, i);
}

/// How the value in column `k` of a row is shown.
pub open spec fn shown_cell(v: Option<Seq<u8>>, desc: Option<Seq<FieldView>>, k: nat) -> ColumnView {
    if desc is Some && k < desc->0.len() {
        ColumnView {
            name: desc->0[k as int].name,
            type_oid: desc->0[k as int].type_oid,
            value: shown_value(v, desc->0[k as int].format_code == 1),
        }
    } else {
        ColumnView { name: "?"@, type_oid: 0, value: shown_value(v, false) }
    }
}

proof fn lemma_cell(values: Seq<Option<Seq<u8>>>, from: nat, n: nat, desc: Option<Seq<FieldView>>)
    requires
        values.len() > 0,
        from < n,
        values[0] matches Some(bytes) ==> bytes.len() < 0x8000_0000,
    ensures
        row_columns(sent_row(values), from, n, desc) == seq![shown_cell(values[0], desc, from)]
            + row_columns(sent_row(values.skip(1)), from + 1, n, desc),
{
    lemma_sent_value(values[0], sent_row(values.skip(1)));
}

#[verifier::rlimit(30)]
proof fn lemma_row(
    values: Seq<Option<Seq<u8>>>,
    from: nat,
    desc: Option<Seq<FieldView>>,
    i: int,
)
    requires
        forall|k: int|
            0 <= k < values.len() ==> (#[trigger] values[k] matches Some(bytes) ==> bytes.len()
                < 0x8000_0000),
        0 <= i < values.len(),
    ensures
        row_columns(sent_row(values), from, from + values.len(), desc).len() == values.len(),
        row_columns(sent_row(values), from, from + values.len(), desc)[i] == shown_cell(
            values[i],
            desc,
            (from + i) as nat,
        ),
    decreases values.len(),
{
    let rest = values.skip(1);
    let n = from + values.len();
    assert(values[0] matches Some(bytes) ==> bytes.len() < 0x8000_0000);
    lemma_cell(values, from, n, desc);
    let tail = row_columns(sent_row(rest), from + 1, n, desc);
    if rest.len() > 0 {
        assert forall|k: int| 0 <= k < rest.len() implies (#[trigger] rest[k] matches Some(bytes)
            ==> bytes.len() < 0x8000_0000) by {
            assert(rest[k] == values[k + 1]);
        }
        let j = if i > 0 {
            i - 1
        } else {
            0
        };
        lemma_row(rest, from + 1, desc, j);
    } else {
        assert(tail.len() == 0);
    }
}

/// A row on one line is the values between brackets; with a description, each behind its
/// column's name between braces.
pub proof fn row_lines_list_the_cells(cols: Seq<ColumnView>, c: ColumnView)
    ensures
        columns_text(seq![c], true) == "{ "@ + (c.name + "="@ + c.value) + " }"@,
        columns_text(seq![c], false) == "["@ + c.value + "]"@,
        cols.len() > 0 ==> exists|inner: Seq<char>|
            columns_text(cols, true) == "{ "@ + inner + " }"@ && columns_text(cols.push(c), true)
                == "{ "@ + #[trigger] (inner + ", "@ + (c.name + "="@ + c.value)) + " }"@,
        cols.len() > 0 ==> exists|inner: Seq<char>|
            columns_text(cols, false) == "["@ + inner + "]"@ && columns_text(cols.push(c), false)
                == "["@ + #[trigger] (inner + ", "@ + c.value) + "]"@,
{
    let pair = |x: ColumnView| crate::render::pair_text((x.name, x.value));
    let value = |x: ColumnView| x.value;
    assert(seq![c].map_values(pair) =~= seq![c.name + "="@ + c.value]);
    assert(seq![c].map_values(value) =~= seq![c.value]);
    if cols.len() > 0 {
        let more = cols.push(c);
        assert(more.map_values(pair).drop_last() =~= cols.map_values(pair));
        assert(more.map_values(pair).last() == c.name + "="@ + c.value);
        assert(more.map_values(value).drop_last() =~= cols.map_values(value));
        assert(more.map_values(value).last() == c.value);
        let labelled = join(cols.map_values(pair), ", "@);
        let bare = join(cols.map_values(value), ", "@);
        assert(columns_text(more, true) == "{ "@ + (labelled + ", "@ + (c.name + "="@ + c.value))
            + " }"@);
        assert(columns_text(more, false) == "["@ + (bare + ", "@ + c.value) + "]"@);
    }
}

/// A row description lists each column's name, type and format.
pub proof fn row_descriptions_list_the_columns(fields: Seq<FieldView>, f: FieldView)
    ensures
        f.format_code == 0 ==> row_desc_text(seq![f]) == f.name + "(oid="@ + dec(f.type_oid as nat)
            + ", "@ + "text"@ + ")"@,
        f.format_code == 1 ==> row_desc_text(seq![f]) == f.name + "(oid="@ + dec(f.type_oid as nat)
            + ", "@ + "binary"@ + ")"@,
        f.format_code != 0 && f.format_code != 1 ==> row_desc_text(seq![f]) == f.name + "(oid="@
            + dec(f.type_oid as nat) + ", "@ + "?"@ + ")"@,
        fields.len() > 0 ==> row_desc_text(fields.push(f)) == row_desc_text(fields) + ", "@
            + row_desc_text(seq![f]),
        row_desc_text(Seq::empty()).len() == 0,
{
    let text = |x: FieldView| field_text(x);
    assert(seq![f].map_values(text) =~= seq![field_text(f)]);
    assert(fields.push(f).map_values(text).drop_last() =~= fields.map_values(text));
    assert(Seq::<FieldView>::empty().map_values(text) =~= Seq::<Seq<char>>::empty());
}

// --- the extended protocol --------------------------------------------------------------------

/// Types are listed by number, or as a dash where there are none.
pub proof fn types_are_listed(oids: Seq<u32>, oid: u32)
    ensures
        oids_text(Seq::empty()) == "-"@,
        oids_text(seq![oid]) == dec(oid as nat),
        oids.len() > 0 ==> oids_text(oids.push(oid)) == oids_text(oids) + ", "@ + dec(oid as nat),
{
    let number = |o: u32| dec(o as nat);
    assert(seq![oid].map_values(number) =~= seq![dec(oid as nat)]);
    assert(oids.push(oid).map_values(number).drop_last() =~= oids.map_values(number));
}

/// A `Parse` shows the statement's name, its parameter types and its text.
pub proof fn parse_shows_name_types_and_query(name: Seq<char>, query: Seq<char>, oids: Seq<u32>)
    ensures
        parse_text(Some(name), query, oids) == name + "  [param types: "@ + oids_text(oids)
            + "]  "@ + query,
        parse_text(None, query, oids) == "<unnamed>"@ + "  [param types: "@ + oids_text(oids)
            + "]  "@ + query,
{
}

/// A `Bind` shows the portal, then the statement it is bound to, then the values and the
/// format of the result, and the statement's text where it is known.
#[verifier::rlimit(30)]
pub proof fn bind_shows_portal_and_statement(
    portal: Seq<char>,
    statement: Seq<char>,
    value: Option<Seq<u8>>,
    codes: Seq<i16>,
    results: Seq<i16>,
    sql: Seq<char>,
)
    ensures
        ({
            let b = BindView {
                portal_name: Some(portal),
                statement_name: Some(statement),
                parameter_format_codes: codes,
                parameters: seq![value],
                result_column_format_codes: results,
            };
            let line = portal + "  <-  "@ + statement + "  params: ["@ + parameter_text(
                value,
                codes,
            ) + "]  result: "@ + format_codes_text(results);
            &&& bind_text(b, Some(sql)) == line + ("  sql: "@ + sql)
            &&& bind_text(b, None) == line
            &&& bind_text(BindView { portal_name: None, ..b }, None) == "<unnamed>"@ + "  <-  "@
                + statement + "  params: ["@ + parameter_text(value, codes) + "]  result: "@
                + format_codes_text(results)
            &&& bind_text(BindView { statement_name: None, ..b }, None) == portal + "  <-  "@
                + "<unnamed>"@ + "  params: ["@ + parameter_text(value, codes) + "]  result: "@
                + format_codes_text(results)
        }),
{
    let f = |p: Option<Seq<u8>>| parameter_text(p, codes);
    assert(seq![value].map_values(f) =~= seq![parameter_text(value, codes)]);
    let head = portal + "  <-  "@ + statement + "  params: ["@ + parameter_text(value, codes)
        + "]  result: "@ + format_codes_text(results);
    assert(head + Seq::<char>::empty() =~= head);
    let b = BindView {
        portal_name: Some(portal),
        statement_name: Some(statement),
        parameter_format_codes: codes,
        parameters: seq![value],
        result_column_format_codes: results,
    };
    assert(bind_text(b, None) =~= head);
    assert(bind_text(BindView { portal_name: None, ..b }, None) =~= "<unnamed>"@ + "  <-  "@
        + statement + "  params: ["@ + parameter_text(value, codes) + "]  result: "@
        + format_codes_text(results));
    assert(bind_text(BindView { statement_name: None, ..b }, None) =~= portal + "  <-  "@
        + "<unnamed>"@ + "  params: ["@ + parameter_text(value, codes) + "]  result: "@
        + format_codes_text(results));
}

/// A parameter is shown as text where all are sent as text, in hexadecimal where all are sent
/// in binary, and otherwise as text where it is plain.
pub proof fn parameters_are_shown_by_their_format(value: Seq<u8>, text: Seq<char>, codes: Seq<i16>)
    ensures
        parameter_text(None, codes) == "NULL"@,
        plain_text(text) ==> parameter_text(Some(text_bytes(text)), seq![0i16]) == "'"@ + text
            + "'"@,
        parameter_text(Some(value), seq![1i16]) == hex_preview_text(value),
        plain_text(text) ==> parameter_text(Some(text_bytes(text)), seq![0i16, 1i16]) == "'"@ + text
            + "'"@,
        plain_text(text) ==> parameter_text(Some(text_bytes(text)), seq![1i16, 0i16]) == "'"@ + text
            + "'"@,
{
    assert(seq![0i16][0] != 1);
    assert(seq![0i16, 1i16][0] == 0 && seq![0i16, 1i16][1] == 1);
    assert(seq![1i16, 0i16][0] == 1 && seq![1i16, 0i16][1] == 0);
    assert(!all_codes(seq![0i16], 1));
    assert(!all_codes(seq![0i16, 1i16], 1));
    assert(!all_codes(seq![1i16, 0i16], 1));
    assert(all_codes(seq![1i16], 1));
    plain_values_are_quoted(text, value, 0);
}

/// Formats that agree are one word, others a list of words.
pub proof fn formats_are_named(codes: Seq<i16>, i: int, j: int)
    ensures
        (forall|k: int| 0 <= k < codes.len() ==> #[trigger] codes[k] == 0) ==> format_codes_text(
            codes,
        ) == "text"@,
        codes.len() > 0 && (forall|k: int| 0 <= k < codes.len() ==> #[trigger] codes[k] == 1)
            ==> format_codes_text(codes) == "binary"@,
        0 <= i < codes.len() && 0 <= j < codes.len() && codes[i] != 0 && codes[j] != 1
            ==> format_codes_text(codes) == "["@ + join(
            codes.map_values(
                |c: i16|
                    if c == 1 {
                        "binary"@
                    } else {
                        "text"@
                    },
            ),
            ", "@,
        ) + "]"@,
{
    if codes.len() > 0 && (forall|k: int| 0 <= k < codes.len() ==> #[trigger] codes[k] == 1) {
        assert(codes[0] == 1);
        assert(!all_codes(codes, 0));
        assert(all_codes(codes, 1));
    }
    assert(codes.map_values(|c: i16| crate::render::code_text(c)) =~= codes.map_values(
        |c: i16|
            if c == 1 {
                "binary"@
            } else {
                "text"@
            },
    ));
}

/// A `Describe` or `Close` is of a statement where its target is `S`, and of a portal where it
/// is `P`.
pub proof fn targets_are_named(target: u8, name: Seq<char>)
    ensures
        target as int == 'S' as int ==> target_text(target, Some(name)) == "statement"@ + " "@
            + name,
        target as int == 'P' as int ==> target_text(target, Some(name)) == "portal"@ + " "@ + name,
        target as int != 'S' as int && target as int != 'P' as int ==> target_text(
            target,
            Some(name),
        ) == "?"@ + " "@ + name,
        target_text(target, None) == target_text(target, Some("<unnamed>"@)),
{
}

/// An `Execute` shows the portal, the limit of rows where there is one, and the statement's
/// text where it is known.
pub proof fn execute_shows_portal_limit_and_sql(name: Seq<char>, rows: i32, sql: Seq<char>)
    ensures
        execute_text(Some(name), 0, None) == name,
        execute_text(Some(name), 0, Some(sql)) == name + ("  sql: "@ + sql),
        rows != 0 ==> execute_text(Some(name), rows, None) == name + " (limit "@ + dec_int(
            rows as int,
        ) + ")"@,
        rows != 0 ==> execute_text(Some(name), rows, Some(sql)) == name + " (limit "@ + dec_int(
            rows as int,
        ) + ")"@ + ("  sql: "@ + sql),
        execute_text(None, rows, Some(sql)) == execute_text(Some("<unnamed>"@), rows, Some(sql)),
{
    assert(name + Seq::<char>::empty() =~= name);
    let limited = name + " (limit "@ + dec_int(rows as int) + ")"@;
    assert(limited + Seq::<char>::empty() =~= limited);
}

// --- sessions ------------------------------------------------------------------------------------

/// A start-up message shows the protocol's version, and each parameter as `name=value`.
pub proof fn startup_shows_version_and_parameters(
    major: u16,
    minor: u16,
    parameters: Seq<(Seq<char>, Seq<char>)>,
    name: Seq<char>,
    value: Seq<char>,
)
    ensures
        startup_text(major, minor, Seq::empty()) == "protocol "@ + dec(major as nat) + "."@ + dec(
            minor as nat,
        ),
        startup_text(major, minor, seq![(name, value)]) == "protocol "@ + dec(major as nat) + "."@
            + dec(minor as nat) + "  "@ + (name + "="@ + value),
        parameters.len() > 0 ==> startup_text(major, minor, parameters.push((name, value)))
            == startup_text(major, minor, parameters) + (", "@ + (name + "="@ + value)),
{
    let pair = |p: (Seq<char>, Seq<char>)| crate::render::pair_text(p);
    assert(seq![(name, value)].map_values(pair) =~= seq![name + "="@ + value]);
    if parameters.len() > 0 {
        let more = parameters.push((name, value));
        assert(more.map_values(pair).drop_last() =~= parameters.map_values(pair));
        assert(startup_text(major, minor, more) =~= startup_text(major, minor, parameters) + (", "@
            + (name + "="@ + value)));
    }
}

/// Process and key of a backend.
pub proof fn keys_show_process_and_key(pid: i32, key: i32, bytes: Seq<u8>)
    ensures
        key_data_text(pid, SecretKeyView::I32(key)) == "pid="@ + dec_int(pid as int) + " key="@
            + dec_int(key as int),
        key_data_text(pid, SecretKeyView::Bytes(bytes)) == "pid="@ + dec_int(pid as int) + " key="@
            + hex_preview_text(bytes),
{
}

/// No secret of the client is shown: of a password and of an answer only the length.
pub proof fn secrets_are_not_shown(
    one: Seq<char>,
    other: Seq<char>,
    a: Seq<u8>,
    b: Seq<u8>,
    mechanism: Seq<char>,
)
    ensures
        vstd::utf8::encode_utf8(one).len() == vstd::utf8::encode_utf8(other).len()
            ==> auth_data_text(AuthDataView::Password(one)) == auth_data_text(
            AuthDataView::Password(other),
        ),
        auth_data_text(AuthDataView::Password(one)) == "password (len="@ + dec(
            vstd::utf8::encode_utf8(one).len(),
        ) + ")"@,
        auth_data_text(AuthDataView::SaslResponse(a)) == "SASL continue (len="@ + dec(a.len())
            + ")"@,
        auth_data_text(AuthDataView::Raw(b)) == "raw password-family message (len="@ + dec(b.len())
            + ")"@,
        auth_data_text(AuthDataView::SaslInitial(mechanism, Some(a))) == "SASL initial  mech="@
            + mechanism + "  data-len="@ + dec(a.len()),
        auth_data_text(AuthDataView::SaslInitial(mechanism, None)) == "SASL initial  mech="@
            + mechanism + "  data-len="@ + dec(0),
{
}

/// The requests for authentication by name, and the methods that SASL offers.
pub proof fn authentication_is_named(methods: Seq<Seq<char>>, one: Seq<char>)
    ensures
        auth_text(AuthenticationView::Granted) == "Ok"@,
        auth_text(AuthenticationView::CleartextPassword) == "CleartextPassword"@,
        auth_text(AuthenticationView::KerberosV5) == "KerberosV5"@,
        auth_text(AuthenticationView::Md5Password) == "MD5Password"@,
        auth_text(AuthenticationView::SaslContinue) == "SASLContinue"@,
        auth_text(AuthenticationView::SaslFinal) == "SASLFinal"@,
        auth_text(AuthenticationView::Sasl(seq![one])) == "SASL ["@ + one + "]"@,
        auth_text(AuthenticationView::Sasl(methods)) == "SASL ["@ + join(methods, ", "@) + "]"@,
{
}

/// What else the server says of a session: the version it settles on and what it does not
/// support, where a transaction stands, and how many columns are copied which way.
pub proof fn session_messages_say_what_they_hold(
    version: i32,
    option: Seq<char>,
    way: Seq<char>,
    columns: i16,
)
    ensures
        negotiate_text(version, Seq::empty()) == "negotiated minor protocol "@ + dec_int(
            version as int,
        ),
        negotiate_text(version, seq![option]) == "negotiated minor protocol "@ + dec_int(
            version as int,
        ) + "; unsupported: ["@ + option + "]"@,
        txn_status_text(TransactionStatus::Idle) == "idle"@,
        txn_status_text(TransactionStatus::Transaction) == "in-transaction"@,
        txn_status_text(TransactionStatus::Error) == "failed-transaction"@,
        copy_response_text(way, columns) == "copy "@ + way + " ("@ + dec_int(columns as int)
            + " columns)"@,
{
}

} // verus!
