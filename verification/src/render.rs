//! One-line, human-readable renderings of protocol messages.
use crate::net::{be32, read_be32};
use crate::text::{
    dec, dec_int, hex_byte, join, join_next, join_strings, push_dec, push_hex_byte, push_int, text_or,
};
use crate::wire::{
    field_views, opt_bytes, opt_text, pair_texts, report_texts, texts, AuthData, AuthDataView,
    Authentication, AuthenticationView, Bind, BindView, FieldSummary, FieldView, SecretKey,
    SecretKeyView, TransactionStatus,
};
use vstd::prelude::*;
use vstd::slice::slice_subrange;

verus! {

/// The format code of a value sent as text.
pub const FORMAT_CODE_TEXT: i16 = 0;

/// The format code of a value sent in binary.
pub const FORMAT_CODE_BINARY: i16 = 1;

/// One decoded cell of a `DataRow`, labelled with its column metadata and
/// pre-formatted for display (text values quoted, binary values hex-encoded).
#[derive(Clone, Debug)]
pub struct DataColumn {
    pub name: String,
    pub type_oid: u32,
    pub value: String,
}

/// What a [`DataColumn`] holds.
pub struct ColumnView {
    pub name: Seq<char>,
    pub type_oid: u32,
    pub value: Seq<char>,
}

impl View for DataColumn {
    type V = ColumnView;

    open spec fn view(&self) -> ColumnView {
        ColumnView { name: self.name@, type_oid: self.type_oid, value: self.value@ }
    }
}

/// The cells of a row.
pub open spec fn column_views(v: Seq<DataColumn>) -> Seq<ColumnView> {
    v.map_values(|c: DataColumn| c@)
}

// --- bytes --------------------------------------------------------------------

/// Whether bytes are shown as text: some, and all of them printable ASCII, tabs or
/// line feeds.
pub open spec fn printable(b: Seq<u8>) -> bool {
    b.len() > 0 && forall|i: int|
        0 <= i < b.len() ==> (32 <= #[trigger] b[i] < 127 || b[i] == 9 || b[i] == 10)
}

/// ASCII bytes as characters.
pub open spec fn ascii_text(b: Seq<u8>) -> Seq<char> {
    b.map_values(|x: u8| x as char)
}

/// Bytes as pairs of hexadecimal digits.
pub open spec fn hex_text(b: Seq<u8>) -> Seq<char>
    decreases b.len(),
{
    if b.len() == 0 {
        Seq::empty()
    } else {
        hex_text(b.drop_last()) + hex_byte(b.last())
    }
}

/// At most this many bytes are shown in hexadecimal.
pub const HEX_PREVIEW_MAX: usize = 48;

/// At most this many bytes are shown of printable data.
pub const TEXT_PREVIEW_MAX: usize = 256;

/// The hexadecimal preview of bytes: the first of them, and how many there are
/// where some are left out.
pub open spec fn hex_preview_text(b: Seq<u8>) -> Seq<char> {
    if b.len() > HEX_PREVIEW_MAX {
        hex_text(b.take(HEX_PREVIEW_MAX as int)) + "… ("@ + dec(b.len()) + " bytes)"@
    } else {
        hex_text(b)
    }
}

/// A value in quotes if it is printable, else its hexadecimal preview.
pub open spec fn quoted_text(b: Seq<u8>) -> Seq<char> {
    if printable(b) {
        "'"@ + ascii_text(b) + "'"@
    } else {
        hex_preview_text(b)
    }
}

/// The preview of copied data.
pub open spec fn bytes_text(b: Seq<u8>) -> Seq<char> {
    if !printable(b) {
        hex_preview_text(b)
    } else if b.len() > TEXT_PREVIEW_MAX {
        ascii_text(b.take(TEXT_PREVIEW_MAX as int)) + "… ("@ + dec(b.len()) + " bytes)"@
    } else {
        ascii_text(b)
    }
}

pub fn is_printable(b: &[u8]) -> (r: bool)
    ensures
        r == printable(b@),
{
    let mut i: usize = 0;
    while i < b.len()
        invariant
            i <= b@.len(),
            forall|k: int|
                0 <= k < i ==> (32 <= #[trigger] b@[k] < 127 || b@[k] == 9 || b@[k] == 10),
        decreases b@.len() - i,
    {
        let c: u8 = b[i];
        if !((32 <= c && c < 127) || c == 9 || c == 10) {
            return false;
        }
        i = i + 1;
    }
    b.len() > 0
}

/// Appends the first `n` bytes as characters.
fn push_ascii(s: &mut String, b: &[u8], n: usize)
    requires
        n <= b@.len(),
    ensures
        final(s)@ == old(s)@ + ascii_text(b@.take(n as int)),
{
    let mut i: usize = 0;
    while i < n
        invariant
            i <= n <= b@.len(),
            s@ == old(s)@ + ascii_text(b@.take(i as int)),
        decreases n - i,
    {
        s.push(b[i] as char);
        i = i + 1;
        assert(s@ =~= old(s)@ + ascii_text(b@.take(i as int)));
    }
}

/// Appends ` … (n bytes)`, the mark of a cut preview.
fn push_cut_mark(s: &mut String, len: usize)
    ensures
        final(s)@ == old(s)@ + "… ("@ + dec(len as nat) + " bytes)"@,
{
    s.append("… (");
    push_dec(s, len as u64);
    s.append(" bytes)");
}

pub fn hex_preview(b: &[u8]) -> (s: String)
    ensures
        s@ == hex_preview_text(b@),
{
    let n: usize = if b.len() > HEX_PREVIEW_MAX {
        HEX_PREVIEW_MAX
    } else {
        b.len()
    };
    let mut s = String::new();
    let mut i: usize = 0;
    while i < n
        invariant
            i <= n <= b@.len(),
            s@ == hex_text(b@.take(i as int)),
        decreases n - i,
    {
        push_hex_byte(&mut s, b[i]);
        i = i + 1;
        assert(b@.take(i as int).drop_last() =~= b@.take(i - 1));
    }
    if b.len() > HEX_PREVIEW_MAX {
        push_cut_mark(&mut s, b.len());
    } else {
        assert(b@.take(n as int) =~= b@);
    }
    s
}

pub fn quote(b: &[u8]) -> (s: String)
    ensures
        s@ == quoted_text(b@),
{
    if is_printable(b) {
        let mut s = String::new();
        s.append("'");
        push_ascii(&mut s, b, b.len());
        assert(b@.take(b@.len() as int) =~= b@);
        s.append("'");
        assert(s@ =~= "'"@ + ascii_text(b@) + "'"@);
        s
    } else {
        hex_preview(b)
    }
}

pub fn format_bytes(b: &[u8]) -> (s: String)
    ensures
        s@ == bytes_text(b@),
{
    if is_printable(b) {
        let mut s = String::new();
        if b.len() > TEXT_PREVIEW_MAX {
            push_ascii(&mut s, b, TEXT_PREVIEW_MAX);
            push_cut_mark(&mut s, b.len());
            assert(s@ =~= ascii_text(b@.take(TEXT_PREVIEW_MAX as int)) + "… ("@ + dec(
                b@.len(),
            ) + " bytes)"@);
        } else {
            push_ascii(&mut s, b, b.len());
            assert(b@.take(b@.len() as int) =~= b@);
            assert(s@ =~= ascii_text(b@));
        }
        s
    } else {
        hex_preview(b)
    }
}

// --- messages of the client ------------------------------------------------------

/// A `key=value` pair.
pub open spec fn pair_text(p: (Seq<char>, Seq<char>)) -> Seq<char> {
    p.0 + "="@ + p.1
}

pub open spec fn startup_text(major: u16, minor: u16, parameters: Seq<(Seq<char>, Seq<char>)>) -> Seq<
    char,
> {
    let version = "protocol "@ + dec(major as nat) + "."@ + dec(minor as nat);
    if parameters.len() == 0 {
        version
    } else {
        version + "  "@ + join(
            parameters.map_values(|p: (Seq<char>, Seq<char>)| pair_text(p)),
            ", "@,
        )
    }
}

pub fn format_startup(major: u16, minor: u16, parameters: &Vec<(String, String)>) -> (s: String)
    ensures
        s@ == startup_text(major, minor, pair_texts(parameters@)),
{
    let mut s = String::new();
    s.append("protocol ");
    push_dec(&mut s, major as u64);
    s.append(".");
    push_dec(&mut s, minor as u64);
    assert(s@ =~= "protocol "@ + dec(major as nat) + "."@ + dec(minor as nat));
    if parameters.len() > 0 {
        s.append("  ");
        let ghost head = s@;
        let ghost all = pair_texts(parameters@).map_values(
            |p: (Seq<char>, Seq<char>)| pair_text(p),
        );
        assert(s@ =~= head + join(all.take(0), ", "@));
        for i in 0..parameters.len()
            invariant
                all == pair_texts(parameters@).map_values(
                    |p: (Seq<char>, Seq<char>)| pair_text(p),
                ),
                s@ == head + join(all.take(i as int), ", "@),
        {
            proof {
                join_next(all, i as int, ", "@);
            }
            if i > 0 {
                s.append(", ");
            }
            let pair = &parameters[i];
            s.append(pair.0.as_str());
            s.append("=");
            s.append(pair.1.as_str());
            assert(s@ =~= head + join(all.take(i + 1), ", "@));
        }
        assert(all.take(all.len() as int) =~= all);
    }
    s
}

pub open spec fn oids_text(oids: Seq<u32>) -> Seq<char> {
    if oids.len() == 0 {
        "-"@
    } else {
        join(oids.map_values(|o: u32| dec(o as nat)), ", "@)
    }
}

pub fn format_oids(oids: &Vec<u32>) -> (s: String)
    ensures
        s@ == oids_text(oids@),
{
    if oids.len() == 0 {
        return "-".to_owned();
    }
    let mut s = String::new();
    let ghost all = oids@.map_values(|o: u32| dec(o as nat));
    for i in 0..oids.len()
        invariant
            all == oids@.map_values(|o: u32| dec(o as nat)),
            s@ == join(all.take(i as int), ", "@),
    {
        proof {
            join_next(all, i as int, ", "@);
        }
        if i > 0 {
            s.append(", ");
        }
        push_dec(&mut s, oids[i] as u64);
    }
    assert(all.take(all.len() as int) =~= all);
    s
}

/// The name of a statement or portal.
pub open spec fn name_text(name: Option<Seq<char>>) -> Seq<char> {
    text_or(name, "<unnamed>"@)
}

fn name_or_unnamed(name: &Option<String>) -> (s: &str)
    ensures
        s@ == name_text(opt_text(*name)),
{
    match name {
        Some(n) => n.as_str(),
        None => "<unnamed>",
    }
}

pub open spec fn parse_text(name: Option<Seq<char>>, query: Seq<char>, oids: Seq<u32>) -> Seq<char> {
    name_text(name) + "  [param types: "@ + oids_text(oids) + "]  "@ + query
}

pub fn format_parse(name: &Option<String>, query: &str, oids: &Vec<u32>) -> (s: String)
    ensures
        s@ == parse_text(opt_text(*name), query@, oids@),
{
    let mut s = String::new();
    s.append(name_or_unnamed(name));
    s.append("  [param types: ");
    s.append(format_oids(oids).as_str());
    s.append("]  ");
    s.append(query);
    assert(s@ =~= parse_text(opt_text(*name), query@, oids@));
    s
}

/// Whether every code is `code`.
pub open spec fn all_codes(codes: Seq<i16>, code: i16) -> bool {
    forall|i: int| 0 <= i < codes.len() ==> #[trigger] codes[i] == code
}

fn every_code(codes: &Vec<i16>, code: i16) -> (r: bool)
    ensures
        r == all_codes(codes@, code),
{
    for i in 0..codes.len()
        invariant
            forall|k: int| 0 <= k < i ==> #[trigger] codes@[k] == code,
    {
        if codes[i] != code {
            return false;
        }
    }
    true
}

/// One format code of a mixed list.
pub open spec fn code_text(code: i16) -> Seq<char> {
    if code == FORMAT_CODE_BINARY {
        "binary"@
    } else {
        "text"@
    }
}

/// Format codes: one word where all agree, else a list.
pub open spec fn format_codes_text(codes: Seq<i16>) -> Seq<char> {
    if all_codes(codes, FORMAT_CODE_TEXT) {
        "text"@
    } else if all_codes(codes, FORMAT_CODE_BINARY) {
        "binary"@
    } else {
        "["@ + join(codes.map_values(|c: i16| code_text(c)), ", "@) + "]"@
    }
}

pub fn format_format_codes(codes: &Vec<i16>) -> (s: String)
    ensures
        s@ == format_codes_text(codes@),
{
    if every_code(codes, FORMAT_CODE_TEXT) {
        "text".to_owned()
    } else if every_code(codes, FORMAT_CODE_BINARY) {
        "binary".to_owned()
    } else {
        let mut s = String::new();
        s.append("[");
        let ghost all = codes@.map_values(|c: i16| code_text(c));
        assert(s@ =~= "["@ + join(all.take(0), ", "@));
        for i in 0..codes.len()
            invariant
                all == codes@.map_values(|c: i16| code_text(c)),
                s@ == "["@ + join(all.take(i as int), ", "@),
        {
            proof {
                join_next(all, i as int, ", "@);
            }
            if i > 0 {
                s.append(", ");
            }
            s.append(
                if codes[i] == FORMAT_CODE_BINARY {
                    "binary"
                } else {
                    "text"
                },
            );
            assert(s@ =~= "["@ + join(all.take(i + 1), ", "@));
        }
        assert(all.take(all.len() as int) =~= all);
        s.append("]");
        s
    }
}

/// One parameter of a `Bind`: in hexadecimal where all parameters are binary, in
/// quotes where they are text or it is printable.
pub open spec fn parameter_text(p: Option<Seq<u8>>, codes: Seq<i16>) -> Seq<char> {
    match p {
        None => "NULL"@,
        Some(bytes) => {
            if all_codes(codes, FORMAT_CODE_BINARY) {
                hex_preview_text(bytes)
            } else if all_codes(codes, FORMAT_CODE_TEXT) || printable(bytes) {
                quoted_text(bytes)
            } else {
                hex_preview_text(bytes)
            }
        },
    }
}

fn format_parameter(p: &Option<Vec<u8>>, all_text: bool, all_binary: bool, Ghost(codes): Ghost<
    Seq<i16>,
>) -> (s: String)
    requires
        all_text == all_codes(codes, FORMAT_CODE_TEXT),
        all_binary == all_codes(codes, FORMAT_CODE_BINARY),
    ensures
        s@ == parameter_text(opt_bytes(*p), codes),
{
    match p {
        None => "NULL".to_owned(),
        Some(bytes) => {
            if all_binary {
                hex_preview(bytes.as_slice())
            } else if all_text || is_printable(bytes.as_slice()) {
                quote(bytes.as_slice())
            } else {
                hex_preview(bytes.as_slice())
            }
        },
    }
}

/// The `sql` that a statement name stands for, where it is known.
pub open spec fn sql_text(sql: Option<Seq<char>>) -> Seq<char> {
    match sql {
        Some(q) => "  sql: "@ + q,
        None => Seq::empty(),
    }
}

pub open spec fn bind_text(b: BindView, sql: Option<Seq<char>>) -> Seq<char> {
    name_text(b.portal_name) + "  <-  "@ + name_text(b.statement_name) + "  params: ["@ + join(
        b.parameters.map_values(
            |p: Option<Seq<u8>>| parameter_text(p, b.parameter_format_codes),
        ),
        ", "@,
    ) + "]  result: "@ + format_codes_text(b.result_column_format_codes) + sql_text(sql)
}

/// The view of an optional borrowed string.
pub open spec fn opt_str(o: Option<&str>) -> Option<Seq<char>> {
    match o {
        Some(s) => Some(s@),
        None => None,
    }
}

fn push_sql(s: &mut String, sql: Option<&str>)
    ensures
        final(s)@ == old(s)@ + sql_text(opt_str(sql)),
{
    if let Some(q) = sql {
        s.append("  sql: ");
        s.append(q);
    }
    assert(s@ =~= old(s)@ + sql_text(opt_str(sql)));
}

pub fn format_bind(b: &Bind, sql: Option<&str>) -> (s: String)
    ensures
        s@ == bind_text(b@, opt_str(sql)),
{
    let all_text = every_code(&b.parameter_format_codes, FORMAT_CODE_TEXT);
    let all_binary = every_code(&b.parameter_format_codes, FORMAT_CODE_BINARY);
    let ghost codes = b.parameter_format_codes@;
    let mut s = String::new();
    s.append(name_or_unnamed(&b.portal_name));
    s.append("  <-  ");
    s.append(name_or_unnamed(&b.statement_name));
    s.append("  params: [");
    let ghost head = s@;
    let ghost all = b@.parameters.map_values(|p: Option<Seq<u8>>| parameter_text(p, codes));
    assert(s@ =~= head + join(all.take(0), ", "@));
    for i in 0..b.parameters.len()
        invariant
            codes == b.parameter_format_codes@,
            all_text == all_codes(codes, FORMAT_CODE_TEXT),
            all_binary == all_codes(codes, FORMAT_CODE_BINARY),
            all == b@.parameters.map_values(|p: Option<Seq<u8>>| parameter_text(p, codes)),
            s@ == head + join(all.take(i as int), ", "@),
    {
        proof {
            join_next(all, i as int, ", "@);
        }
        if i > 0 {
            s.append(", ");
        }
        let p = format_parameter(&b.parameters[i], all_text, all_binary, Ghost(codes));
        s.append(p.as_str());
        assert(s@ =~= head + join(all.take(i + 1), ", "@));
    }
    assert(all.take(all.len() as int) =~= all);
    s.append("]  result: ");
    s.append(format_format_codes(&b.result_column_format_codes).as_str());
    push_sql(&mut s, sql);
    assert(s@ =~= bind_text(b@, opt_str(sql)));
    s
}

/// What a `Describe` or `Close` is about.
pub open spec fn target_text(target: u8, name: Option<Seq<char>>) -> Seq<char> {
    let kind = if target == 0x53 {
        "statement"@
    } else if target == 0x50 {
        "portal"@
    } else {
        "?"@
    };
    kind + " "@ + name_text(name)
}

pub fn format_describe_close(target: u8, name: &Option<String>) -> (s: String)
    ensures
        s@ == target_text(target, opt_text(*name)),
{
    let mut s = String::new();
    s.append(
        if target == 0x53 {
            "statement"
        } else if target == 0x50 {
            "portal"
        } else {
            "?"
        },
    );
    s.append(" ");
    s.append(name_or_unnamed(name));
    assert(s@ =~= target_text(target, opt_text(*name)));
    s
}

pub open spec fn execute_text(name: Option<Seq<char>>, max_rows: i32, sql: Option<Seq<char>>) -> Seq<
    char,
> {
    let limited = if max_rows == 0 {
        name_text(name)
    } else {
        name_text(name) + " (limit "@ + dec_int(max_rows as int) + ")"@
    };
    limited + sql_text(sql)
}

pub fn format_execute(name: &Option<String>, max_rows: i32, sql: Option<&str>) -> (s: String)
    ensures
        s@ == execute_text(opt_text(*name), max_rows, opt_str(sql)),
{
    let mut s = String::new();
    s.append(name_or_unnamed(name));
    if max_rows != 0 {
        s.append(" (limit ");
        push_int(&mut s, max_rows);
        s.append(")");
    }
    push_sql(&mut s, sql);
    assert(s@ =~= execute_text(opt_text(*name), max_rows, opt_str(sql)));
    s
}

pub open spec fn secret_key_text(key: SecretKeyView) -> Seq<char> {
    match key {
        SecretKeyView::I32(n) => dec_int(n as int),
        SecretKeyView::Bytes(b) => hex_preview_text(b),
    }
}

pub fn secret_key_str(key: &SecretKey) -> (s: String)
    ensures
        s@ == secret_key_text(key@),
{
    match key {
        SecretKey::I32(n) => {
            let mut s = String::new();
            push_int(&mut s, *n);
            assert(s@ =~= dec_int(*n as int));
            s
        },
        SecretKey::Bytes(b) => hex_preview(b.as_slice()),
    }
}

/// The process and key of a cancel request or of a backend's key data.
pub open spec fn key_data_text(pid: i32, key: SecretKeyView) -> Seq<char> {
    "pid="@ + dec_int(pid as int) + " key="@ + secret_key_text(key)
}

pub fn format_key_data(pid: i32, key: &SecretKey) -> (s: String)
    ensures
        s@ == key_data_text(pid, key@),
{
    let mut s = String::new();
    s.append("pid=");
    push_int(&mut s, pid);
    s.append(" key=");
    s.append(secret_key_str(key).as_str());
    assert(s@ =~= key_data_text(pid, key@));
    s
}

pub open spec fn auth_data_text(a: AuthDataView) -> Seq<char> {
    match a {
        AuthDataView::Password(p) => "password (len="@ + dec(vstd::utf8::encode_utf8(p).len())
            + ")"@,
        AuthDataView::SaslInitial(mech, data) => "SASL initial  mech="@ + mech + "  data-len="@
            + dec(
            match data {
                Some(d) => d.len(),
                None => 0,
            },
        ),
        AuthDataView::SaslResponse(data) => "SASL continue (len="@ + dec(data.len()) + ")"@,
        AuthDataView::Raw(b) => "raw password-family message (len="@ + dec(b.len()) + ")"@,
        AuthDataView::Other => "auth message"@,
    }
}

pub fn format_pmf(a: &AuthData) -> (s: String)
    ensures
        s@ == auth_data_text(a@),
{
    let mut s = String::new();
    match a {
        AuthData::Password(p) => {
            s.append("password (len=");
            push_dec(&mut s, p.as_str().as_bytes().len() as u64);
            s.append(")");
        },
        AuthData::SaslInitial(mech, data) => {
            s.append("SASL initial  mech=");
            s.append(mech.as_str());
            s.append("  data-len=");
            let n: usize = match data {
                Some(d) => d.len(),
                None => 0,
            };
            push_dec(&mut s, n as u64);
        },
        AuthData::SaslResponse(data) => {
            s.append("SASL continue (len=");
            push_dec(&mut s, data.len() as u64);
            s.append(")");
        },
        AuthData::Raw(b) => {
            s.append("raw password-family message (len=");
            push_dec(&mut s, b.len() as u64);
            s.append(")");
        },
        AuthData::Other => {
            s.append("auth message");
        },
    }
    assert(s@ =~= auth_data_text(a@));
    s
}

// --- messages of the server ------------------------------------------------------

pub open spec fn auth_text(a: AuthenticationView) -> Seq<char> {
    match a {
        AuthenticationView::Granted => "Ok"@,
        AuthenticationView::CleartextPassword => "CleartextPassword"@,
        AuthenticationView::KerberosV5 => "KerberosV5"@,
        AuthenticationView::Md5Password => "MD5Password"@,
        AuthenticationView::Sasl(methods) => "SASL ["@ + join(methods, ", "@) + "]"@,
        AuthenticationView::SaslContinue => "SASLContinue"@,
        AuthenticationView::SaslFinal => "SASLFinal"@,
        AuthenticationView::Other => "Authentication"@,
    }
}

pub fn format_auth(a: &Authentication) -> (s: String)
    ensures
        s@ == auth_text(a@),
{
    match a {
        Authentication::Granted => "Ok".to_owned(),
        Authentication::CleartextPassword => "CleartextPassword".to_owned(),
        Authentication::KerberosV5 => "KerberosV5".to_owned(),
        Authentication::Md5Password => "MD5Password".to_owned(),
        Authentication::Sasl(methods) => {
            let mut s = String::new();
            s.append("SASL [");
            s.append(join_strings(methods, ", ").as_str());
            s.append("]");
            assert(s@ =~= auth_text(a@));
            s
        },
        Authentication::SaslContinue => "SASLContinue".to_owned(),
        Authentication::SaslFinal => "SASLFinal".to_owned(),
        Authentication::Other => "Authentication".to_owned(),
    }
}

pub open spec fn negotiate_text(version: i32, options: Seq<Seq<char>>) -> Seq<char> {
    let head = "negotiated minor protocol "@ + dec_int(version as int);
    if options.len() == 0 {
        head
    } else {
        head + "; unsupported: ["@ + join(options, ", "@) + "]"@
    }
}

pub fn format_negotiate(version: i32, options: &Vec<String>) -> (s: String)
    ensures
        s@ == negotiate_text(version, texts(options@)),
{
    let mut s = String::new();
    s.append("negotiated minor protocol ");
    push_int(&mut s, version);
    if options.len() > 0 {
        s.append("; unsupported: [");
        s.append(join_strings(options, ", ").as_str());
        s.append("]");
    }
    assert(s@ =~= negotiate_text(version, texts(options@)));
    s
}

pub open spec fn txn_status_text(s: TransactionStatus) -> Seq<char> {
    match s {
        TransactionStatus::Idle => "idle"@,
        TransactionStatus::Transaction => "in-transaction"@,
        TransactionStatus::Error => "failed-transaction"@,
    }
}

pub fn txn_status(s: TransactionStatus) -> (r: &'static str)
    ensures
        r@ == txn_status_text(s),
{
    match s {
        TransactionStatus::Idle => "idle",
        TransactionStatus::Transaction => "in-transaction",
        TransactionStatus::Error => "failed-transaction",
    }
}

/// The first text tagged `tag`.
pub open spec fn report_field(fields: Seq<(u8, Seq<char>)>, tag: u8) -> Option<Seq<char>>
    decreases fields.len(),
{
    if fields.len() == 0 {
        None
    } else if fields[0].0 == tag {
        Some(fields[0].1)
    } else {
        report_field(fields.skip(1), tag)
    }
}

pub fn field(fields: &Vec<(u8, String)>, tag: u8) -> (r: Option<&str>)
    ensures
        opt_str(r) == report_field(report_texts(fields@), tag),
{
    let ghost all = report_texts(fields@);
    assert(all.skip(0) =~= all);
    let mut i: usize = 0;
    while i < fields.len()
        invariant
            i <= fields@.len(),
            all == report_texts(fields@),
            report_field(all.skip(i as int), tag) == report_field(all, tag),
        decreases fields@.len() - i,
    {
        if fields[i].0 == tag {
            return Some(fields[i].1.as_str());
        }
        assert(all.skip(i as int).skip(1) =~= all.skip(i + 1));
        i = i + 1;
    }
    None
}

/// An error or notice: severity, message and code, and detail and hint where given.
pub open spec fn error_fields_text(fields: Seq<(u8, Seq<char>)>) -> Seq<char> {
    let severity = text_or(
        report_field(fields, 0x53),
        text_or(report_field(fields, 0x56), "ERROR"@),
    );
    let head = severity + ": "@ + text_or(report_field(fields, 0x4d), Seq::empty()) + " ["@
        + text_or(report_field(fields, 0x43), Seq::empty()) + "]"@;
    let detailed = match report_field(fields, 0x44) {
        Some(detail) => head + "  detail: "@ + detail,
        None => head,
    };
    match report_field(fields, 0x48) {
        Some(hint) => detailed + "  hint: "@ + hint,
        None => detailed,
    }
}

pub fn format_error_fields(fields: &Vec<(u8, String)>) -> (s: String)
    ensures
        s@ == error_fields_text(report_texts(fields@)),
{
    let mut s = String::new();
    if let Some(severity) = field(fields, 0x53) {
        s.append(severity);
    } else if let Some(severity) = field(fields, 0x56) {
        s.append(severity);
    } else {
        s.append("ERROR");
    }
    s.append(": ");
    if let Some(message) = field(fields, 0x4d) {
        s.append(message);
    }
    s.append(" [");
    if let Some(code) = field(fields, 0x43) {
        s.append(code);
    }
    s.append("]");
    if let Some(detail) = field(fields, 0x44) {
        s.append("  detail: ");
        s.append(detail);
    }
    if let Some(hint) = field(fields, 0x48) {
        s.append("  hint: ");
        s.append(hint);
    }
    assert(s@ =~= error_fields_text(report_texts(fields@)));
    s
}

/// One column of a row description.
pub open spec fn field_text(f: FieldView) -> Seq<char> {
    let format = if f.format_code == FORMAT_CODE_TEXT {
        "text"@
    } else if f.format_code == FORMAT_CODE_BINARY {
        "binary"@
    } else {
        "?"@
    };
    f.name + "(oid="@ + dec(f.type_oid as nat) + ", "@ + format + ")"@
}

pub open spec fn row_desc_text(fields: Seq<FieldView>) -> Seq<char> {
    join(fields.map_values(|f: FieldView| field_text(f)), ", "@)
}

fn push_field(s: &mut String, f: &FieldSummary)
    ensures
        final(s)@ == old(s)@ + field_text(f@),
{
    s.append(f.name.as_str());
    s.append("(oid=");
    push_dec(s, f.type_oid as u64);
    s.append(", ");
    s.append(
        if f.format_code == FORMAT_CODE_TEXT {
            "text"
        } else if f.format_code == FORMAT_CODE_BINARY {
            "binary"
        } else {
            "?"
        },
    );
    s.append(")");
    assert(s@ =~= old(s)@ + field_text(f@));
}

pub fn format_row_desc(fields: &Vec<FieldSummary>) -> (s: String)
    ensures
        s@ == row_desc_text(field_views(fields@)),
{
    let mut s = String::new();
    let ghost all = field_views(fields@).map_values(|f: FieldView| field_text(f));
    for i in 0..fields.len()
        invariant
            all == field_views(fields@).map_values(|f: FieldView| field_text(f)),
            s@ == join(all.take(i as int), ", "@),
    {
        proof {
            join_next(all, i as int, ", "@);
        }
        if i > 0 {
            s.append(", ");
        }
        push_field(&mut s, &fields[i]);
    }
    assert(all.take(all.len() as int) =~= all);
    s
}

pub open spec fn copy_response_text(way: Seq<char>, columns: i16) -> Seq<char> {
    "copy "@ + way + " ("@ + dec_int(columns as int) + " columns)"@
}

pub fn format_copy_response(way: &str, columns: i16) -> (s: String)
    ensures
        s@ == copy_response_text(way@, columns),
{
    let mut s = String::new();
    s.append("copy ");
    s.append(way);
    s.append(" (");
    push_int(&mut s, columns as i32);
    s.append(" columns)");
    assert(s@ =~= copy_response_text(way@, columns));
    s
}

// --- data rows --------------------------------------------------------------------

/// One field read from the payload of a `DataRow`.
pub enum FieldRead<'a> {
    /// An SQL NULL (a negative length).
    Null,
    /// The bytes of a value.
    Bytes(&'a [u8]),
    /// The payload ended within the field; no more fields can be read.
    Truncated,
}

/// What the field at the front of a payload holds, and the payload behind it.
pub enum FieldAt {
    Null(Seq<u8>),
    Bytes(Seq<u8>, Seq<u8>),
    Truncated,
}

/// The field at the front of `b`: a length of four bytes, then that many bytes.
pub open spec fn field_at(b: Seq<u8>) -> FieldAt {
    if b.len() < 4 {
        FieldAt::Truncated
    } else if be32(b, 0) >= 0x8000_0000 {
        FieldAt::Null(b.skip(4))
    } else if b.len() - 4 < be32(b, 0) {
        FieldAt::Truncated
    } else {
        FieldAt::Bytes(b.subrange(4, 4 + be32(b, 0)), b.skip(4 + be32(b, 0)))
    }
}

/// Reads the field at `from`; the second value is where the next one begins.
pub fn read_field(b: &[u8], from: usize) -> (r: (FieldRead<'_>, usize))
    requires
        from <= b@.len(),
    ensures
        match r.0 {
            FieldRead::Null => r.1 <= b@.len() && field_at(b@.skip(from as int)) == FieldAt::Null(
                b@.skip(r.1 as int),
            ),
            FieldRead::Bytes(v) => r.1 <= b@.len() && field_at(b@.skip(from as int))
                == FieldAt::Bytes(v@, b@.skip(r.1 as int)),
            FieldRead::Truncated => r.1 == from && field_at(b@.skip(from as int))
                == FieldAt::Truncated,
        },
{
    if b.len() - from < 4 {
        return (FieldRead::Truncated, from);
    }
    let len: u32 = read_be32(b, from);
    let ghost at = b@.skip(from as int);
    assert(be32(at, 0) == len);
    if len >= 0x8000_0000 {
        assert(at.skip(4) =~= b@.skip(from + 4));
        return (FieldRead::Null, from + 4);
    }
    let n: usize = len as usize;
    if b.len() - from - 4 < n {
        return (FieldRead::Truncated, from);
    }
    let end: usize = from + 4 + n;
    let value = slice_subrange(b, from + 4, end);
    assert(at.subrange(4, 4 + len) =~= value@);
    assert(at.skip(4 + len as int) =~= b@.skip(end as int));
    (FieldRead::Bytes(value), end)
}

/// The description of column `i`, where one is known.
pub open spec fn described(desc: Option<Seq<FieldView>>, i: nat) -> Option<FieldView> {
    match desc {
        Some(fields) => if i < fields.len() {
            Some(fields[i as int])
        } else {
            None
        },
        None => None,
    }
}

/// A cell under its column's label.
pub open spec fn labelled(d: Option<FieldView>, value: Seq<char>) -> ColumnView {
    match d {
        Some(f) => ColumnView { name: f.name, type_oid: f.type_oid, value },
        None => ColumnView { name: "?"@, type_oid: 0, value },
    }
}

/// A value by its column's format.
pub open spec fn cell_text(d: Option<FieldView>, bytes: Seq<u8>) -> Seq<char> {
    match d {
        Some(f) => if f.format_code == FORMAT_CODE_BINARY {
            hex_preview_text(bytes)
        } else {
            quoted_text(bytes)
        },
        None => quoted_text(bytes),
    }
}

/// The cells `i..n` of a row whose payload from cell `i` on is `b`. A field that
/// the payload ends within shows as `<?>` and is the last.
pub open spec fn row_columns(b: Seq<u8>, i: nat, n: nat, desc: Option<Seq<FieldView>>) -> Seq<
    ColumnView,
>
    decreases n - i,
{
    if i >= n {
        Seq::empty()
    } else {
        let d = described(desc, i);
        match field_at(b) {
            FieldAt::Null(rest) => seq![labelled(d, "NULL"@)] + row_columns(rest, i + 1, n, desc),
            FieldAt::Bytes(v, rest) => seq![labelled(d, cell_text(d, v))] + row_columns(
                rest,
                i + 1,
                n,
                desc,
            ),
            FieldAt::Truncated => seq![labelled(d, "<?>"@)],
        }
    }
}

/// The cells of a row: none where the stated count is negative.
pub open spec fn columns_of(data: Seq<u8>, field_count: i16, desc: Option<Seq<FieldView>>) -> Seq<
    ColumnView,
> {
    row_columns(
        data,
        0,
        if field_count > 0 {
            field_count as nat
        } else {
            0
        },
        desc,
    )
}

/// The view of an optional row description.
pub open spec fn opt_fields(desc: Option<Vec<FieldSummary>>) -> Option<Seq<FieldView>> {
    match desc {
        Some(v) => Some(field_views(v@)),
        None => None,
    }
}

/// Decodes a `DataRow` into one cell per field.
pub fn data_row_columns(data: &[u8], field_count: i16, desc: &Option<Vec<FieldSummary>>) -> (cols: Vec<
    DataColumn,
>)
    ensures
        column_views(cols@) == columns_of(data@, field_count, opt_fields(*desc)),
{
    let n: usize = if field_count > 0 {
        field_count as usize
    } else {
        0
    };
    let ghost d = opt_fields(*desc);
    let ghost all = columns_of(data@, field_count, d);
    let mut cols: Vec<DataColumn> = Vec::new();
    let mut at: usize = 0;
    let mut i: usize = 0;
    assert(data@.skip(0) =~= data@);
    assert(column_views(cols@) =~= Seq::<ColumnView>::empty());
    assert(column_views(cols@) + row_columns(data@.skip(0), 0, n as nat, d) =~= all);
    while i < n
        invariant
            i <= n,
            at <= data@.len(),
            d == opt_fields(*desc),
            all == columns_of(data@, field_count, d),
            column_views(cols@) + row_columns(data@.skip(at as int), i as nat, n as nat, d) == all,
        decreases n - i,
    {
        let field: Option<&FieldSummary> = match desc {
            Some(fields) => if i < fields.len() {
                Some(&fields[i])
            } else {
                None
            },
            None => None,
        };
        let ghost f = described(d, i as nat);
        let ghost rest_before = row_columns(data@.skip(at as int), i as nat, n as nat, d);
        let (read, next) = read_field(data, at);
        let mut more = true;
        let value: String = match read {
            FieldRead::Null => "NULL".to_owned(),
            FieldRead::Truncated => {
                more = false;
                "<?>".to_owned()
            },
            FieldRead::Bytes(bytes) => {
                let binary = match field {
                    Some(f) => f.format_code == FORMAT_CODE_BINARY,
                    None => false,
                };
                if binary {
                    hex_preview(bytes)
                } else {
                    quote(bytes)
                }
            },
        };
        let column = match field {
            Some(f) => DataColumn { name: f.name.clone(), type_oid: f.type_oid, value },
            None => DataColumn { name: "?".to_owned(), type_oid: 0, value },
        };
        let ghost before = cols@;
        assert(column@ == rest_before[0]);
        cols.push(column);
        assert(column_views(cols@) =~= column_views(before).push(column@));
        if !more {
            assert(rest_before =~= seq![column@]);
            assert(column_views(cols@) =~= all);
            return cols;
        }
        at = next;
        i = i + 1;
        assert(rest_before =~= seq![column@] + row_columns(
            data@.skip(at as int),
            i as nat,
            n as nat,
            d,
        ));
        assert(column_views(cols@) + row_columns(data@.skip(at as int), i as nat, n as nat, d)
            =~= column_views(before) + rest_before);
    }
    assert(column_views(cols@) =~= all);
    cols
}

/// A row as one line: `{ name=value, ... }` where columns are described, else
/// `[value, ...]`.
pub open spec fn columns_text(cols: Seq<ColumnView>, labelled: bool) -> Seq<char> {
    if labelled {
        "{ "@ + join(cols.map_values(|c: ColumnView| pair_text((c.name, c.value))), ", "@) + " }"@
    } else {
        "["@ + join(cols.map_values(|c: ColumnView| c.value), ", "@) + "]"@
    }
}

/// Renders decoded cells as the line-view text.
pub fn format_columns(cols: &Vec<DataColumn>, labelled: bool) -> (s: String)
    ensures
        s@ == columns_text(column_views(cols@), labelled),
{
    let mut s = String::new();
    s.append(
        if labelled {
            "{ "
        } else {
            "["
        },
    );
    let ghost head = s@;
    let ghost views = column_views(cols@);
    let ghost all = if labelled {
        views.map_values(|c: ColumnView| pair_text((c.name, c.value)))
    } else {
        views.map_values(|c: ColumnView| c.value)
    };
    assert(s@ =~= head + join(all.take(0), ", "@));
    for i in 0..cols.len()
        invariant
            views == column_views(cols@),
            all == (if labelled {
                views.map_values(|c: ColumnView| pair_text((c.name, c.value)))
            } else {
                views.map_values(|c: ColumnView| c.value)
            }),
            s@ == head + join(all.take(i as int), ", "@),
    {
        proof {
            join_next(all, i as int, ", "@);
        }
        if i > 0 {
            s.append(", ");
        }
        if labelled {
            s.append(cols[i].name.as_str());
            s.append("=");
        }
        s.append(cols[i].value.as_str());
        assert(s@ =~= head + join(all.take(i + 1), ", "@));
    }
    assert(all.take(all.len() as int) =~= all);
    s.append(
        if labelled {
            " }"
        } else {
            "]"
        },
    );
    s
}

} // verus!
