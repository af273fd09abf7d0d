//! PostgreSQL protocol messages as plain values, and the decoding of them.
//!
//! The protocol crate turns buffered bytes into messages. This module hands the
//! fields of each message on as values of the library, and tells beforehand
//! whether the fields of the next message lie within the buffered bytes.
use crate::buffer::{buffer_slice, buffered};
use crate::net::{be16, be32, read_be16, read_be32};
use bytes::BytesMut;
use pgwire::error::PgWireError;
use pgwire::messages::cancel::CancelRequest as PgCancel;
use pgwire::messages::response::{GssEncResponse, SslResponse, TransactionStatus as PgStatus};
use pgwire::messages::startup::{Authentication as PgAuth, PasswordMessageFamily as PgPassword};
use pgwire::messages::startup::{BackendKeyData as PgKeyData, SecretKey as PgKey};
use pgwire::messages::SslNegotiationMetaMessage as PgNegotiation;
use pgwire::messages::{PgWireBackendMessage, PgWireFrontendMessage};
use vstd::prelude::*;

verus! {

// --- messages -------------------------------------------------------------------

/// A stripped-down description of one result column, kept so that `DataRow`s can
/// be labelled and rendered with the right (text or binary) format.
#[derive(Clone, Debug)]
pub struct FieldSummary {
    pub name: String,
    pub type_oid: u32,
    pub format_code: i16,
}

/// What a [`FieldSummary`] holds.
pub struct FieldView {
    pub name: Seq<char>,
    pub type_oid: u32,
    pub format_code: i16,
}

impl View for FieldSummary {
    type V = FieldView;

    open spec fn view(&self) -> FieldView {
        FieldView { name: self.name@, type_oid: self.type_oid, format_code: self.format_code }
    }
}

/// The key that identifies a backend in a cancel request.
#[derive(Clone, Debug)]
pub enum SecretKey {
    I32(i32),
    Bytes(Vec<u8>),
}

/// What a [`SecretKey`] holds.
pub enum SecretKeyView {
    I32(i32),
    Bytes(Seq<u8>),
}

impl View for SecretKey {
    type V = SecretKeyView;

    open spec fn view(&self) -> SecretKeyView {
        match *self {
            SecretKey::I32(key) => SecretKeyView::I32(key),
            SecretKey::Bytes(key) => SecretKeyView::Bytes(key@),
        }
    }
}

/// The frontend's answer to an authentication request.
#[derive(Clone, Debug)]
pub enum AuthData {
    Raw(Vec<u8>),
    Password(String),
    SaslInitial(String, Option<Vec<u8>>),
    SaslResponse(Vec<u8>),
    Other,
}

/// What an [`AuthData`] holds.
pub enum AuthDataView {
    Raw(Seq<u8>),
    Password(Seq<char>),
    SaslInitial(Seq<char>, Option<Seq<u8>>),
    SaslResponse(Seq<u8>),
    Other,
}

impl View for AuthData {
    type V = AuthDataView;

    open spec fn view(&self) -> AuthDataView {
        match *self {
            AuthData::Raw(b) => AuthDataView::Raw(b@),
            AuthData::Password(p) => AuthDataView::Password(p@),
            AuthData::SaslInitial(m, d) => AuthDataView::SaslInitial(m@, opt_bytes(d)),
            AuthData::SaslResponse(b) => AuthDataView::SaslResponse(b@),
            AuthData::Other => AuthDataView::Other,
        }
    }
}

/// The parameters of a `Bind` message.
#[derive(Clone, Debug)]
pub struct Bind {
    pub portal_name: Option<String>,
    pub statement_name: Option<String>,
    pub parameter_format_codes: Vec<i16>,
    pub parameters: Vec<Option<Vec<u8>>>,
    pub result_column_format_codes: Vec<i16>,
}

/// What a [`Bind`] holds.
pub struct BindView {
    pub portal_name: Option<Seq<char>>,
    pub statement_name: Option<Seq<char>>,
    pub parameter_format_codes: Seq<i16>,
    pub parameters: Seq<Option<Seq<u8>>>,
    pub result_column_format_codes: Seq<i16>,
}

impl View for Bind {
    type V = BindView;

    open spec fn view(&self) -> BindView {
        BindView {
            portal_name: opt_text(self.portal_name),
            statement_name: opt_text(self.statement_name),
            parameter_format_codes: self.parameter_format_codes@,
            parameters: self.parameters@.map_values(|p: Option<Vec<u8>>| opt_bytes(p)),
            result_column_format_codes: self.result_column_format_codes@,
        }
    }
}

/// A message from the client.
#[derive(Clone, Debug)]
pub enum FrontendMessage {
    /// The opening bytes ask for neither SSL nor GSS; they are still unread.
    NoNegotiation,
    SslRequest,
    GssEncRequest,
    Startup(u16, u16, Vec<(String, String)>),
    CancelRequest(i32, SecretKey),
    AuthData(AuthData),
    Query(String),
    Parse(Option<String>, String, Vec<u32>),
    Bind(Bind),
    Describe(u8, Option<String>),
    Execute(Option<String>, i32),
    Close(u8, Option<String>),
    Sync,
    Flush,
    Terminate,
    CopyData(Vec<u8>),
    CopyFail(String),
    CopyDone,
    PortalSuspended,
}

/// What a [`FrontendMessage`] holds.
pub enum FrontendView {
    NoNegotiation,
    SslRequest,
    GssEncRequest,
    Startup(u16, u16, Seq<(Seq<char>, Seq<char>)>),
    CancelRequest(i32, SecretKeyView),
    AuthData(AuthDataView),
    Query(Seq<char>),
    Parse(Option<Seq<char>>, Seq<char>, Seq<u32>),
    Bind(BindView),
    Describe(u8, Option<Seq<char>>),
    Execute(Option<Seq<char>>, i32),
    Close(u8, Option<Seq<char>>),
    Sync,
    Flush,
    Terminate,
    CopyData(Seq<u8>),
    CopyFail(Seq<char>),
    CopyDone,
    PortalSuspended,
}

pub open spec fn opt_text(o: Option<String>) -> Option<Seq<char>> {
    match o {
        Some(s) => Some(s@),
        None => None,
    }
}

pub open spec fn opt_bytes(o: Option<Vec<u8>>) -> Option<Seq<u8>> {
    match o {
        Some(b) => Some(b@),
        None => None,
    }
}

/// The texts of a list of strings.
pub open spec fn texts(v: Seq<String>) -> Seq<Seq<char>> {
    v.map_values(|s: String| s@)
}

/// The texts of a list of key and value pairs.
pub open spec fn pair_texts(v: Seq<(String, String)>) -> Seq<(Seq<char>, Seq<char>)> {
    v.map_values(|p: (String, String)| (p.0@, p.1@))
}

impl View for FrontendMessage {
    type V = FrontendView;

    open spec fn view(&self) -> FrontendView {
        match *self {
            FrontendMessage::NoNegotiation => FrontendView::NoNegotiation,
            FrontendMessage::SslRequest => FrontendView::SslRequest,
            FrontendMessage::GssEncRequest => FrontendView::GssEncRequest,
            FrontendMessage::Startup(major, minor, p) => FrontendView::Startup(
                major,
                minor,
                pair_texts(p@),
            ),
            FrontendMessage::CancelRequest(pid, key) => FrontendView::CancelRequest(pid, key@),
            FrontendMessage::AuthData(a) => FrontendView::AuthData(a@),
            FrontendMessage::Query(q) => FrontendView::Query(q@),
            FrontendMessage::Parse(name, query, oids) => FrontendView::Parse(
                opt_text(name),
                query@,
                oids@,
            ),
            FrontendMessage::Bind(b) => FrontendView::Bind(b@),
            FrontendMessage::Describe(t, name) => FrontendView::Describe(t, opt_text(name)),
            FrontendMessage::Execute(name, rows) => FrontendView::Execute(opt_text(name), rows),
            FrontendMessage::Close(t, name) => FrontendView::Close(t, opt_text(name)),
            FrontendMessage::Sync => FrontendView::Sync,
            FrontendMessage::Flush => FrontendView::Flush,
            FrontendMessage::Terminate => FrontendView::Terminate,
            FrontendMessage::CopyData(b) => FrontendView::CopyData(b@),
            FrontendMessage::CopyFail(m) => FrontendView::CopyFail(m@),
            FrontendMessage::CopyDone => FrontendView::CopyDone,
            FrontendMessage::PortalSuspended => FrontendView::PortalSuspended,
        }
    }
}

/// The server's request for authentication, or its end.
#[derive(Clone, Debug)]
pub enum Authentication {
    Granted,
    CleartextPassword,
    KerberosV5,
    Md5Password,
    Sasl(Vec<String>),
    SaslContinue,
    SaslFinal,
    Other,
}

/// What an [`Authentication`] holds.
pub enum AuthenticationView {
    Granted,
    CleartextPassword,
    KerberosV5,
    Md5Password,
    Sasl(Seq<Seq<char>>),
    SaslContinue,
    SaslFinal,
    Other,
}

impl View for Authentication {
    type V = AuthenticationView;

    open spec fn view(&self) -> AuthenticationView {
        match *self {
            Authentication::Granted => AuthenticationView::Granted,
            Authentication::CleartextPassword => AuthenticationView::CleartextPassword,
            Authentication::KerberosV5 => AuthenticationView::KerberosV5,
            Authentication::Md5Password => AuthenticationView::Md5Password,
            Authentication::Sasl(methods) => AuthenticationView::Sasl(texts(methods@)),
            Authentication::SaslContinue => AuthenticationView::SaslContinue,
            Authentication::SaslFinal => AuthenticationView::SaslFinal,
            Authentication::Other => AuthenticationView::Other,
        }
    }
}

/// The server's one-byte answer to an SSL or GSS request.
#[derive(Clone, Copy, PartialEq, Eq, Structural, Debug)]
pub enum NegotiationReply {
    Accept,
    Refuse,
    Other,
}

/// Where a session stands between transactions.
#[derive(Clone, Copy, PartialEq, Eq, Structural, Debug)]
pub enum TransactionStatus {
    Idle,
    Transaction,
    Error,
}

/// A message from the server.
#[derive(Clone, Debug)]
pub enum BackendMessage {
    SslResponse(NegotiationReply),
    GssEncResponse(NegotiationReply),
    Authentication(Authentication),
    ParameterStatus(String, String),
    BackendKeyData(i32, SecretKey),
    NegotiateProtocolVersion(i32, Vec<String>),
    ParseComplete,
    CloseComplete,
    BindComplete,
    PortalSuspended,
    CommandComplete(String),
    EmptyQueryResponse,
    ReadyForQuery(TransactionStatus),
    ErrorResponse(Vec<(u8, String)>),
    NoticeResponse(Vec<(u8, String)>),
    NotificationResponse(String, String),
    ParameterDescription(Vec<u32>),
    RowDescription(Vec<FieldSummary>),
    DataRow(Vec<u8>, i16),
    NoData,
    CopyData(Vec<u8>),
    CopyFail(String),
    CopyDone,
    CopyInResponse(i16),
    CopyOutResponse(i16),
    CopyBothResponse(i16),
}

/// What a [`BackendMessage`] holds.
pub enum BackendView {
    SslResponse(NegotiationReply),
    GssEncResponse(NegotiationReply),
    Authentication(AuthenticationView),
    ParameterStatus(Seq<char>, Seq<char>),
    BackendKeyData(i32, SecretKeyView),
    NegotiateProtocolVersion(i32, Seq<Seq<char>>),
    ParseComplete,
    CloseComplete,
    BindComplete,
    PortalSuspended,
    CommandComplete(Seq<char>),
    EmptyQueryResponse,
    ReadyForQuery(TransactionStatus),
    ErrorResponse(Seq<(u8, Seq<char>)>),
    NoticeResponse(Seq<(u8, Seq<char>)>),
    NotificationResponse(Seq<char>, Seq<char>),
    ParameterDescription(Seq<u32>),
    RowDescription(Seq<FieldView>),
    DataRow(Seq<u8>, i16),
    NoData,
    CopyData(Seq<u8>),
    CopyFail(Seq<char>),
    CopyDone,
    CopyInResponse(i16),
    CopyOutResponse(i16),
    CopyBothResponse(i16),
}

/// The tagged texts of an error or notice.
pub open spec fn report_texts(v: Seq<(u8, String)>) -> Seq<(u8, Seq<char>)> {
    v.map_values(|f: (u8, String)| (f.0, f.1@))
}

/// The column descriptions of a result.
pub open spec fn field_views(v: Seq<FieldSummary>) -> Seq<FieldView> {
    v.map_values(|f: FieldSummary| f@)
}

impl View for BackendMessage {
    type V = BackendView;

    open spec fn view(&self) -> BackendView {
        match *self {
            BackendMessage::SslResponse(r) => BackendView::SslResponse(r),
            BackendMessage::GssEncResponse(r) => BackendView::GssEncResponse(r),
            BackendMessage::Authentication(a) => BackendView::Authentication(a@),
            BackendMessage::ParameterStatus(n, v) => BackendView::ParameterStatus(n@, v@),
            BackendMessage::BackendKeyData(pid, key) => BackendView::BackendKeyData(pid, key@),
            BackendMessage::NegotiateProtocolVersion(v, o) => BackendView::NegotiateProtocolVersion(
                v,
                texts(o@),
            ),
            BackendMessage::ParseComplete => BackendView::ParseComplete,
            BackendMessage::CloseComplete => BackendView::CloseComplete,
            BackendMessage::BindComplete => BackendView::BindComplete,
            BackendMessage::PortalSuspended => BackendView::PortalSuspended,
            BackendMessage::CommandComplete(tag) => BackendView::CommandComplete(tag@),
            BackendMessage::EmptyQueryResponse => BackendView::EmptyQueryResponse,
            BackendMessage::ReadyForQuery(s) => BackendView::ReadyForQuery(s),
            BackendMessage::ErrorResponse(f) => BackendView::ErrorResponse(report_texts(f@)),
            BackendMessage::NoticeResponse(f) => BackendView::NoticeResponse(report_texts(f@)),
            BackendMessage::NotificationResponse(c, p) => BackendView::NotificationResponse(c@, p@),
            BackendMessage::ParameterDescription(t) => BackendView::ParameterDescription(t@),
            BackendMessage::RowDescription(f) => BackendView::RowDescription(field_views(f@)),
            BackendMessage::DataRow(d, n) => BackendView::DataRow(d@, n),
            BackendMessage::NoData => BackendView::NoData,
            BackendMessage::CopyData(b) => BackendView::CopyData(b@),
            BackendMessage::CopyFail(m) => BackendView::CopyFail(m@),
            BackendMessage::CopyDone => BackendView::CopyDone,
            BackendMessage::CopyInResponse(n) => BackendView::CopyInResponse(n),
            BackendMessage::CopyOutResponse(n) => BackendView::CopyOutResponse(n),
            BackendMessage::CopyBothResponse(n) => BackendView::CopyBothResponse(n),
        }
    }
}

// --- the protocol crate -----------------------------------------------------------

/// `pgwire::messages::PgWireFrontendMessage`, a decoded message of the client.
#[verifier::external_type_specification]
#[verifier::external_body]
pub struct ExPgWireFrontendMessage(PgWireFrontendMessage);

/// `pgwire::messages::PgWireBackendMessage`, a decoded message of the server.
#[verifier::external_type_specification]
#[verifier::external_body]
pub struct ExPgWireBackendMessage(PgWireBackendMessage);

/// `pgwire::error::PgWireError`, the reason why bytes do not decode.
#[verifier::external_type_specification]
#[verifier::external_body]
pub struct ExPgWireError(PgWireError);

/// What a decoded message of the client holds.
pub uninterp spec fn frontend_fields(m: PgWireFrontendMessage) -> FrontendView;

/// What a decoded message of the server holds.
pub uninterp spec fn backend_fields(m: PgWireBackendMessage) -> BackendView;

/// The text of a protocol error.
pub uninterp spec fn protocol_error_text(e: PgWireError) -> Seq<char>;

/// `PgWireError` displays as a text that depends on the error alone.
#[verifier::external_body]
pub(crate) fn error_text(e: &PgWireError) -> (s: String)
    ensures
        s@ == protocol_error_text(*e),
{
    e.to_string()
}

/// The messages that open a connection.
pub open spec fn is_opening(m: FrontendView) -> bool {
    m is NoNegotiation || m is SslRequest || m is GssEncRequest || m is Startup
}

/// The fields of `PgWireFrontendMessage::SslNegotiation` and `Startup`; any other
/// message comes back as it was.
#[verifier::external_body]
fn opening_message(m: PgWireFrontendMessage) -> (r: Result<FrontendMessage, PgWireFrontendMessage>)
    ensures
        match r {
            Ok(f) => f@ == frontend_fields(m),
            Err(rest) => rest == m && !is_opening(frontend_fields(m)),
        },
{
    Ok(match m {
        PgWireFrontendMessage::SslNegotiation(PgNegotiation::None) => FrontendMessage::NoNegotiation,
        PgWireFrontendMessage::SslNegotiation(PgNegotiation::PostgresSsl(_)) => FrontendMessage::SslRequest,
        PgWireFrontendMessage::SslNegotiation(PgNegotiation::PostgresGss(_)) => FrontendMessage::GssEncRequest,
        PgWireFrontendMessage::Startup(s) => FrontendMessage::Startup(
            s.protocol_number_major,
            s.protocol_number_minor,
            s.parameters.into_iter().collect(),
        ),
        other => return Err(other),
    })
}

/// Cancel requests and the messages of the client that have no fields.
pub open spec fn is_control(m: FrontendView) -> bool {
    m is CancelRequest || m is Sync || m is Flush || m is Terminate || m is CopyDone
        || m is PortalSuspended
}

/// The fields of `PgWireFrontendMessage::CancelRequest`, `Sync`, `Flush`,
/// `Terminate`, `CopyDone` and `PortalSuspended`; any other message comes back as
/// it was.
#[verifier::external_body]
fn control_message(m: PgWireFrontendMessage) -> (r: Result<FrontendMessage, PgWireFrontendMessage>)
    ensures
        match r {
            Ok(f) => f@ == frontend_fields(m),
            Err(rest) => rest == m && !is_control(frontend_fields(m)),
        },
{
    Ok(match m {
        PgWireFrontendMessage::CancelRequest(PgCancel { pid, secret_key: PgKey::I32(k), .. }) =>
            FrontendMessage::CancelRequest(pid, SecretKey::I32(k)),
        PgWireFrontendMessage::CancelRequest(PgCancel { pid, secret_key: PgKey::Bytes(k), .. }) =>
            FrontendMessage::CancelRequest(pid, SecretKey::Bytes(k.into())),
        PgWireFrontendMessage::Sync(_) => FrontendMessage::Sync,
        PgWireFrontendMessage::Flush(_) => FrontendMessage::Flush,
        PgWireFrontendMessage::Terminate(_) => FrontendMessage::Terminate,
        PgWireFrontendMessage::CopyDone(_) => FrontendMessage::CopyDone,
        PgWireFrontendMessage::PortalSuspended(_) => FrontendMessage::PortalSuspended,
        other => return Err(other),
    })
}

/// The fields of `PgWireFrontendMessage::PasswordMessageFamily`; any other message
/// comes back as it was.
#[verifier::external_body]
fn auth_message(m: PgWireFrontendMessage) -> (r: Result<FrontendMessage, PgWireFrontendMessage>)
    ensures
        match r {
            Ok(f) => f@ == frontend_fields(m),
            Err(rest) => rest == m && !(frontend_fields(m) is AuthData),
        },
{
    let family = match m {
        PgWireFrontendMessage::PasswordMessageFamily(family) => family,
        other => return Err(other),
    };
    Ok(FrontendMessage::AuthData(match family {
        PgPassword::Raw(b) => AuthData::Raw(b.into()),
        PgPassword::Password(p) => AuthData::Password(p.password),
        PgPassword::SASLInitialResponse(s) => AuthData::SaslInitial(s.auth_method, s.data.map(Vec::from)),
        PgPassword::SASLResponse(s) => AuthData::SaslResponse(s.data.into()),
        _ => AuthData::Other,
    }))
}

/// Queries, cursors and copied data.
pub open spec fn is_request(m: FrontendView) -> bool {
    m is Query || m is Parse || m is Describe || m is Execute || m is Close || m is CopyData
        || m is CopyFail
}

/// The fields of `PgWireFrontendMessage::Query`, `Parse`, `Describe`, `Execute`,
/// `Close`, `CopyData` and `CopyFail`; any other message comes back as it was.
#[verifier::external_body]
fn request_message(m: PgWireFrontendMessage) -> (r: Result<FrontendMessage, PgWireFrontendMessage>)
    ensures
        match r {
            Ok(f) => f@ == frontend_fields(m),
            Err(rest) => rest == m && !is_request(frontend_fields(m)),
        },
{
    Ok(match m {
        PgWireFrontendMessage::Query(q) => FrontendMessage::Query(q.query),
        PgWireFrontendMessage::Parse(p) => FrontendMessage::Parse(p.name, p.query, p.type_oids),
        PgWireFrontendMessage::Describe(d) => FrontendMessage::Describe(d.target_type, d.name),
        PgWireFrontendMessage::Execute(e) => FrontendMessage::Execute(e.name, e.max_rows),
        PgWireFrontendMessage::Close(c) => FrontendMessage::Close(c.target_type, c.name),
        PgWireFrontendMessage::CopyData(c) => FrontendMessage::CopyData(c.data.into()),
        PgWireFrontendMessage::CopyFail(f) => FrontendMessage::CopyFail(f.message),
        other => return Err(other),
    })
}

/// The fields of `PgWireFrontendMessage::Bind`; any other message comes back as it
/// was.
#[verifier::external_body]
fn bind_message(m: PgWireFrontendMessage) -> (r: Result<FrontendMessage, PgWireFrontendMessage>)
    ensures
        match r {
            Ok(f) => f@ == frontend_fields(m),
            Err(rest) => rest == m && !(frontend_fields(m) is Bind),
        },
{
    match m {
        PgWireFrontendMessage::Bind(b) => Ok(FrontendMessage::Bind(Bind {
            portal_name: b.portal_name,
            statement_name: b.statement_name,
            parameter_format_codes: b.parameter_format_codes,
            parameters: b.parameters.into_iter().map(|p| p.map(Vec::from)).collect(),
            result_column_format_codes: b.result_column_format_codes,
        })),
        other => Err(other),
    }
}

/// The fields of a message of the client.
pub fn frontend_message(m: PgWireFrontendMessage) -> (f: FrontendMessage)
    ensures
        f@ == frontend_fields(m),
{
    let m = match opening_message(m) {
        Ok(f) => return f,
        Err(rest) => rest,
    };
    let m = match control_message(m) {
        Ok(f) => return f,
        Err(rest) => rest,
    };
    let m = match auth_message(m) {
        Ok(f) => return f,
        Err(rest) => rest,
    };
    let m = match request_message(m) {
        Ok(f) => return f,
        Err(rest) => rest,
    };
    match bind_message(m) {
        Ok(f) => f,
        Err(_) => {
            assert(false);
            FrontendMessage::NoNegotiation
        },
    }
}

/// The answers to an SSL or GSS request.
pub open spec fn is_negotiation(m: BackendView) -> bool {
    m is SslResponse || m is GssEncResponse
}

/// The fields of `PgWireBackendMessage::SslResponse` and `GssEncResponse`; any
/// other message comes back as it was.
#[verifier::external_body]
fn negotiation_reply(m: PgWireBackendMessage) -> (r: Result<BackendMessage, PgWireBackendMessage>)
    ensures
        match r {
            Ok(f) => f@ == backend_fields(m),
            Err(rest) => rest == m && !is_negotiation(backend_fields(m)),
        },
{
    Ok(match m {
        PgWireBackendMessage::SslResponse(r) => BackendMessage::SslResponse(match r {
            SslResponse::Accept => NegotiationReply::Accept,
            SslResponse::Refuse => NegotiationReply::Refuse,
            _ => NegotiationReply::Other,
        }),
        PgWireBackendMessage::GssEncResponse(r) => BackendMessage::GssEncResponse(match r {
            GssEncResponse::Accept => NegotiationReply::Accept,
            GssEncResponse::Refuse => NegotiationReply::Refuse,
            _ => NegotiationReply::Other,
        }),
        other => return Err(other),
    })
}

/// The fields of `PgWireBackendMessage::Authentication`; any other message comes
/// back as it was.
#[verifier::external_body]
fn authentication_message(m: PgWireBackendMessage) -> (r: Result<BackendMessage, PgWireBackendMessage>)
    ensures
        match r {
            Ok(f) => f@ == backend_fields(m),
            Err(rest) => rest == m && !(backend_fields(m) is Authentication),
        },
{
    let request = match m {
        PgWireBackendMessage::Authentication(a) => a,
        other => return Err(other),
    };
    Ok(BackendMessage::Authentication(match request {
        PgAuth::Ok => Authentication::Granted,
        PgAuth::CleartextPassword => Authentication::CleartextPassword,
        PgAuth::KerberosV5 => Authentication::KerberosV5,
        PgAuth::MD5Password(_) => Authentication::Md5Password,
        PgAuth::SASL(methods) => Authentication::Sasl(methods),
        PgAuth::SASLContinue(_) => Authentication::SaslContinue,
        PgAuth::SASLFinal(_) => Authentication::SaslFinal,
        _ => Authentication::Other,
    }))
}

/// What the server tells of itself when a session starts, and what it asks for
/// parameters and results.
pub open spec fn is_session_info(m: BackendView) -> bool {
    m is ParameterStatus || m is BackendKeyData || m is NegotiateProtocolVersion
        || m is ParameterDescription || m is NotificationResponse
}

/// The fields of `PgWireBackendMessage::ParameterStatus`, `BackendKeyData`,
/// `NegotiateProtocolVersion`, `ParameterDescription` and `NotificationResponse`;
/// any other message comes back as it was.
#[verifier::external_body]
fn session_info(m: PgWireBackendMessage) -> (r: Result<BackendMessage, PgWireBackendMessage>)
    ensures
        match r {
            Ok(f) => f@ == backend_fields(m),
            Err(rest) => rest == m && !is_session_info(backend_fields(m)),
        },
{
    Ok(match m {
        PgWireBackendMessage::ParameterStatus(p) => BackendMessage::ParameterStatus(p.name, p.value),
        PgWireBackendMessage::BackendKeyData(PgKeyData { pid, secret_key: PgKey::I32(k), .. }) =>
            BackendMessage::BackendKeyData(pid, SecretKey::I32(k)),
        PgWireBackendMessage::BackendKeyData(PgKeyData { pid, secret_key: PgKey::Bytes(k), .. }) =>
            BackendMessage::BackendKeyData(pid, SecretKey::Bytes(k.into())),
        PgWireBackendMessage::NegotiateProtocolVersion(n) =>
            BackendMessage::NegotiateProtocolVersion(n.newest_minor_protocol, n.unsupported_options),
        PgWireBackendMessage::ParameterDescription(p) => BackendMessage::ParameterDescription(p.types),
        PgWireBackendMessage::NotificationResponse(n) => BackendMessage::NotificationResponse(n.channel, n.payload),
        other => return Err(other),
    })
}

/// How a command ended.
pub open spec fn is_command_result(m: BackendView) -> bool {
    m is CommandComplete || m is EmptyQueryResponse || m is ReadyForQuery || m is ErrorResponse
        || m is NoticeResponse
}

/// The fields of `PgWireBackendMessage::CommandComplete`, `EmptyQueryResponse`,
/// `ReadyForQuery`, `ErrorResponse` and `NoticeResponse`; any other message comes
/// back as it was.
#[verifier::external_body]
fn command_result(m: PgWireBackendMessage) -> (r: Result<BackendMessage, PgWireBackendMessage>)
    ensures
        match r {
            Ok(f) => f@ == backend_fields(m),
            Err(rest) => rest == m && !is_command_result(backend_fields(m)),
        },
{
    Ok(match m {
        PgWireBackendMessage::CommandComplete(c) => BackendMessage::CommandComplete(c.tag),
        PgWireBackendMessage::EmptyQueryResponse(_) => BackendMessage::EmptyQueryResponse,
        PgWireBackendMessage::ReadyForQuery(r) => BackendMessage::ReadyForQuery(match r.status {
            PgStatus::Idle => TransactionStatus::Idle,
            PgStatus::Transaction => TransactionStatus::Transaction,
            PgStatus::Error => TransactionStatus::Error,
        }),
        PgWireBackendMessage::ErrorResponse(e) => BackendMessage::ErrorResponse(e.fields),
        PgWireBackendMessage::NoticeResponse(n) => BackendMessage::NoticeResponse(n.fields),
        other => return Err(other),
    })
}

/// Result rows and the progress of an extended query.
pub open spec fn is_result_data(m: BackendView) -> bool {
    m is RowDescription || m is DataRow || m is NoData || m is ParseComplete || m is CloseComplete
        || m is BindComplete || m is PortalSuspended
}

/// The fields of `PgWireBackendMessage::RowDescription`, `DataRow`, `NoData`,
/// `ParseComplete`, `CloseComplete`, `BindComplete` and `PortalSuspended`; any
/// other message comes back as it was.
#[verifier::external_body]
fn result_data(m: PgWireBackendMessage) -> (r: Result<BackendMessage, PgWireBackendMessage>)
    ensures
        match r {
            Ok(f) => f@ == backend_fields(m),
            Err(rest) => rest == m && !is_result_data(backend_fields(m)),
        },
{
    Ok(match m {
        PgWireBackendMessage::RowDescription(r) => BackendMessage::RowDescription(r.fields.into_iter().map(|f|
            FieldSummary { name: f.name, type_oid: f.type_id, format_code: f.format_code }).collect()),
        PgWireBackendMessage::DataRow(r) => BackendMessage::DataRow(r.data.into(), r.field_count),
        PgWireBackendMessage::NoData(_) => BackendMessage::NoData,
        PgWireBackendMessage::ParseComplete(_) => BackendMessage::ParseComplete,
        PgWireBackendMessage::CloseComplete(_) => BackendMessage::CloseComplete,
        PgWireBackendMessage::BindComplete(_) => BackendMessage::BindComplete,
        PgWireBackendMessage::PortalSuspended(_) => BackendMessage::PortalSuspended,
        other => return Err(other),
    })
}

/// The messages of a copy.
pub open spec fn is_copy(m: BackendView) -> bool {
    m is CopyData || m is CopyFail || m is CopyDone || m is CopyInResponse || m is CopyOutResponse
        || m is CopyBothResponse
}

/// The fields of `PgWireBackendMessage::CopyData`, `CopyFail`, `CopyDone`,
/// `CopyInResponse`, `CopyOutResponse` and `CopyBothResponse`; any other message
/// comes back as it was.
#[verifier::external_body]
fn copy_message(m: PgWireBackendMessage) -> (r: Result<BackendMessage, PgWireBackendMessage>)
    ensures
        match r {
            Ok(f) => f@ == backend_fields(m),
            Err(rest) => rest == m && !is_copy(backend_fields(m)),
        },
{
    Ok(match m {
        PgWireBackendMessage::CopyData(c) => BackendMessage::CopyData(c.data.into()),
        PgWireBackendMessage::CopyFail(f) => BackendMessage::CopyFail(f.message),
        PgWireBackendMessage::CopyDone(_) => BackendMessage::CopyDone,
        PgWireBackendMessage::CopyInResponse(c) => BackendMessage::CopyInResponse(c.columns),
        PgWireBackendMessage::CopyOutResponse(c) => BackendMessage::CopyOutResponse(c.columns),
        PgWireBackendMessage::CopyBothResponse(c) => BackendMessage::CopyBothResponse(c.columns),
        other => return Err(other),
    })
}

/// The fields of a message of the server.
pub fn backend_message(m: PgWireBackendMessage) -> (f: BackendMessage)
    ensures
        f@ == backend_fields(m),
{
    let m = match negotiation_reply(m) {
        Ok(f) => return f,
        Err(rest) => rest,
    };
    let m = match authentication_message(m) {
        Ok(f) => return f,
        Err(rest) => rest,
    };
    let m = match session_info(m) {
        Ok(f) => return f,
        Err(rest) => rest,
    };
    let m = match command_result(m) {
        Ok(f) => return f,
        Err(rest) => rest,
    };
    let m = match result_data(m) {
        Ok(f) => return f,
        Err(rest) => rest,
    };
    match copy_message(m) {
        Ok(f) => f,
        Err(_) => {
            assert(false);
            BackendMessage::NoData
        },
    }
}

// --- whether the next message can be read -------------------------------------------

/// Where in the start of a connection a decoder stands.
#[derive(Clone, Copy, PartialEq, Eq, Structural, Debug)]
pub struct DecodeContext {
    /// The client may still open with an SSL or GSS request.
    pub awaiting_frontend_ssl: bool,
    /// The client has yet to send its startup message.
    pub awaiting_frontend_startup: bool,
    /// The server's next byte answers an SSL request.
    pub awaiting_backend_ssl_response: bool,
    /// The server's next byte answers a GSS request.
    pub awaiting_backend_gss_response: bool,
}

/// The context of a connection that has just opened.
pub open spec fn fresh_context() -> DecodeContext {
    DecodeContext {
        awaiting_frontend_ssl: true,
        awaiting_frontend_startup: true,
        awaiting_backend_ssl_response: false,
        awaiting_backend_gss_response: false,
    }
}

impl Default for DecodeContext {
    fn default() -> (c: DecodeContext)
        ensures
            c == fresh_context(),
    {
        DecodeContext {
            awaiting_frontend_ssl: true,
            awaiting_frontend_startup: true,
            awaiting_backend_ssl_response: false,
            awaiting_backend_gss_response: false,
        }
    }
}

/// The index of the first zero byte, or the length where there is none.
pub open spec fn first_nul(b: Seq<u8>) -> nat
    decreases b.len(),
{
    if b.len() == 0 || b[0] == 0 {
        0
    } else {
        1 + first_nul(b.skip(1))
    }
}

/// The bytes behind a zero-terminated string; all of them where nothing ends it.
pub open spec fn after_cstring(b: Seq<u8>) -> Seq<u8> {
    if first_nul(b) < b.len() {
        b.skip(first_nul(b) as int + 1)
    } else {
        b
    }
}

/// The bytes behind `n` values, each of them a length and that many bytes (none
/// where the length is negative); `None` where they do not all fit.
pub open spec fn after_values(b: Seq<u8>, n: nat) -> Option<Seq<u8>>
    decreases n,
{
    if n == 0 {
        Some(b)
    } else if b.len() < 4 {
        None
    } else {
        let size: nat = if be32(b, 0) < 0x8000_0000 {
            be32(b, 0) as nat
        } else {
            0
        };
        if b.len() - 4 < size {
            None
        } else {
            after_values(b.skip(4 + size as int), (n - 1) as nat)
        }
    }
}

/// Whether `n` column descriptions fit: a name and eighteen bytes each.
pub open spec fn columns_fit(b: Seq<u8>, n: nat) -> bool
    decreases n,
{
    n == 0 || (after_cstring(b).len() >= 18 && columns_fit(
        after_cstring(b).skip(18),
        (n - 1) as nat,
    ))
}

/// Whether a list of tagged strings comes to its closing zero byte.
pub open spec fn reports_end(b: Seq<u8>) -> bool
    decreases b.len(),
{
    b.len() > 0 && (b[0] == 0 || reports_end(after_cstring(b.skip(1))))
}

/// Whether a `Parse` body fits: two strings and a counted list of numbers.
pub open spec fn parse_fits(body: Seq<u8>) -> bool {
    let counted = after_cstring(after_cstring(body));
    counted.len() >= 2 && counted.len() >= 2 + 4 * be16(counted, 0)
}

/// Whether a `Bind` body fits: two strings, a counted list of formats, a counted
/// list of values and the count of the result formats.
pub open spec fn bind_fits(body: Seq<u8>) -> bool {
    let formats = after_cstring(after_cstring(body));
    if formats.len() < 2 || formats.len() < 2 + 2 * be16(formats, 0) {
        false
    } else {
        let values = formats.skip(2 + 2 * be16(formats, 0));
        values.len() >= 2 && match after_values(values.skip(2), be16(values, 0) as nat) {
            Some(rest) => rest.len() >= 2,
            None => false,
        }
    }
}

/// The greatest stated length that is accepted of a message of the client.
pub open spec fn frontend_limit(tag: u8) -> u32 {
    if tag == 0x50 || tag == 0x42 || tag == 0x64 {
        0x3fff_fffe
    } else {
        10000
    }
}

/// Whether the fields of a message of the client with tag `tag` and stated length
/// `len` lie within the bytes `body` that are buffered behind its length.
pub open spec fn frontend_fits(tag: u8, len: u32, body: Seq<u8>) -> bool {
    if tag == 0x70 || tag == 0x64 {
        // password family, CopyData
        len >= 4
    } else if tag == 0x50 {
        parse_fits(body)
    } else if tag == 0x42 {
        bind_fits(body)
    } else if tag == 0x43 || tag == 0x44 {
        // Close, Describe
        body.len() >= 1
    } else if tag == 0x45 {
        // Execute
        after_cstring(body).len() >= 4
    } else {
        true
    }
}

/// Whether decoding the client's next message stays within the buffered bytes.
pub open spec fn frontend_readable(b: Seq<u8>, ctx: DecodeContext) -> bool {
    ||| ctx.awaiting_frontend_ssl
    ||| ctx.awaiting_frontend_startup
    ||| b.len() < 5
    ||| be32(b, 1) > frontend_limit(b[0])
    ||| b.len() < be32(b, 1) + 1
    ||| frontend_fits(b[0], be32(b, 1), b.skip(5))
}

/// The greatest stated length that is accepted of a message of the server.
pub open spec fn backend_limit(tag: u8) -> u32 {
    if tag == 0x45 || tag == 0x4e || tag == 0x41 || tag == 0x74 || tag == 0x54 || tag == 0x44 {
        0x7fff_ffff
    } else if tag == 0x64 {
        0x3fff_fffe
    } else if tag == 0x66 || tag == 0x63 {
        10000
    } else {
        30000
    }
}

/// Whether the fields of a message of the server with tag `tag` and stated length
/// `len` lie within the bytes `body` that are buffered behind its length.
pub open spec fn backend_fits(tag: u8, len: u32, body: Seq<u8>) -> bool {
    if tag == 0x52 {
        // Authentication
        body.len() >= 4 && (be32(body, 0) == 5 ==> body.len() >= 8) && ((be32(body, 0) == 11
            || be32(body, 0) == 12) ==> len >= 8)
    } else if tag == 0x4b {
        // BackendKeyData
        body.len() >= 4 && len >= 8
    } else if tag == 0x76 {
        // NegotiateProtocolVersion
        body.len() >= 8
    } else if tag == 0x5a {
        // ReadyForQuery
        body.len() >= 1
    } else if tag == 0x45 || tag == 0x4e {
        // ErrorResponse, NoticeResponse
        reports_end(body)
    } else if tag == 0x41 {
        // NotificationResponse
        body.len() >= 4
    } else if tag == 0x74 {
        // ParameterDescription
        body.len() >= 2 && body.len() >= 2 + 4 * be16(body, 0)
    } else if tag == 0x54 {
        // RowDescription; an impossible count is an error of its own
        body.len() >= 2 && (be16(body, 0) >= 0x8000 || 19 * be16(body, 0) > body.len() - 2
            || columns_fit(body.skip(2), be16(body, 0) as nat))
    } else if tag == 0x44 {
        // DataRow
        body.len() >= 2 && len >= 6
    } else if tag == 0x64 {
        // CopyData
        len >= 4
    } else if tag == 0x47 || tag == 0x48 || tag == 0x57 {
        // CopyInResponse, CopyOutResponse, CopyBothResponse
        body.len() >= 3
    } else {
        true
    }
}

/// Whether decoding the server's next message stays within the buffered bytes.
pub open spec fn backend_readable(b: Seq<u8>, ctx: DecodeContext) -> bool {
    ||| ctx.awaiting_backend_ssl_response
    ||| ctx.awaiting_backend_gss_response
    ||| b.len() < 5
    ||| be32(b, 1) > backend_limit(b[0])
    ||| b.len() < be32(b, 1) + 1
    ||| backend_fits(b[0], be32(b, 1), b.skip(5))
}

/// Steps over the zero-terminated string at `from`.
fn skip_cstring(b: &[u8], from: usize) -> (to: usize)
    requires
        from <= b@.len(),
    ensures
        from <= to <= b@.len(),
        after_cstring(b@.skip(from as int)) == b@.skip(to as int),
{
    let mut i: usize = from;
    while i < b.len() && b[i] != 0
        invariant
            from <= i <= b@.len(),
            first_nul(b@.skip(from as int)) == i - from + first_nul(b@.skip(i as int)),
        decreases b@.len() - i,
    {
        assert(b@.skip(i as int).skip(1) =~= b@.skip(i + 1));
        i = i + 1;
    }
    if i < b.len() {
        assert(b@.skip(from as int).skip(i - from + 1) =~= b@.skip(i + 1));
        i + 1
    } else {
        from
    }
}

/// Steps over `n` values from `from` on.
fn skip_values(b: &[u8], from: usize, n: u16) -> (r: Option<usize>)
    requires
        from <= b@.len(),
    ensures
        match r {
            Some(to) => from <= to <= b@.len() && after_values(b@.skip(from as int), n as nat)
                == Some(b@.skip(to as int)),
            None => after_values(b@.skip(from as int), n as nat) is None,
        },
{
    let mut i: usize = from;
    let mut left: u16 = n;
    while left > 0
        invariant
            from <= i <= b@.len(),
            after_values(b@.skip(i as int), left as nat) == after_values(
                b@.skip(from as int),
                n as nat,
            ),
        decreases left,
    {
        if b.len() - i < 4 {
            return None;
        }
        let stated: u32 = read_be32(b, i);
        assert(be32(b@.skip(i as int), 0) == stated);
        let size: usize = if stated < 0x8000_0000 {
            stated as usize
        } else {
            0
        };
        if b.len() - i - 4 < size {
            return None;
        }
        assert(b@.skip(i as int).skip(4 + size as int) =~= b@.skip(i + 4 + size));
        i = i + 4 + size;
        left = left - 1;
    }
    Some(i)
}

/// Whether `n` column descriptions fit from `from` on.
fn columns_do_fit(b: &[u8], from: usize, n: u16) -> (r: bool)
    requires
        from <= b@.len(),
    ensures
        r == columns_fit(b@.skip(from as int), n as nat),
{
    let mut i: usize = from;
    let mut left: u16 = n;
    while left > 0
        invariant
            from <= i <= b@.len(),
            columns_fit(b@.skip(i as int), left as nat) == columns_fit(
                b@.skip(from as int),
                n as nat,
            ),
        decreases left,
    {
        let named: usize = skip_cstring(b, i);
        if b.len() - named < 18 {
            return false;
        }
        assert(b@.skip(named as int).skip(18) =~= b@.skip(named + 18));
        i = named + 18;
        left = left - 1;
    }
    true
}

/// Whether the tagged strings from `from` on come to their closing zero byte.
fn reports_do_end(b: &[u8], from: usize) -> (r: bool)
    requires
        from <= b@.len(),
    ensures
        r == reports_end(b@.skip(from as int)),
{
    let mut i: usize = from;
    while i < b.len()
        invariant
            from <= i <= b@.len(),
            reports_end(b@.skip(i as int)) == reports_end(b@.skip(from as int)),
        decreases b@.len() - i,
    {
        if b[i] == 0 {
            return true;
        }
        assert(b@.skip(i as int).skip(1) =~= b@.skip(i + 1));
        i = skip_cstring(b, i + 1);
    }
    false
}

fn bind_does_fit(b: &[u8], from: usize) -> (r: bool)
    requires
        from <= b@.len(),
    ensures
        r == bind_fits(b@.skip(from as int)),
{
    let portal: usize = skip_cstring(b, from);
    let at: usize = skip_cstring(b, portal);
    let ghost formats = b@.skip(at as int);
    if b.len() - at < 2 {
        return false;
    }
    let n: usize = read_be16(b, at) as usize;
    assert(be16(formats, 0) == n);
    if b.len() - at < 2 + 2 * n {
        return false;
    }
    let values: usize = at + 2 + 2 * n;
    assert(formats.skip(2 + 2 * be16(formats, 0)) =~= b@.skip(values as int));
    if b.len() - values < 2 {
        return false;
    }
    let m: u16 = read_be16(b, values);
    assert(be16(b@.skip(values as int), 0) == m);
    assert(b@.skip(values as int).skip(2) =~= b@.skip(values + 2));
    match skip_values(b, values + 2, m) {
        Some(end) => b.len() - end >= 2,
        None => false,
    }
}

fn parse_does_fit(b: &[u8], from: usize) -> (r: bool)
    requires
        from <= b@.len(),
    ensures
        r == parse_fits(b@.skip(from as int)),
{
    let name: usize = skip_cstring(b, from);
    let at: usize = skip_cstring(b, name);
    if b.len() - at < 2 {
        return false;
    }
    let n: usize = read_be16(b, at) as usize;
    assert(be16(b@.skip(at as int), 0) == n);
    b.len() - at >= 2 + 4 * n
}

/// Whether the client's next message can be decoded.
pub fn can_read_frontend(b: &[u8], ctx: DecodeContext) -> (r: bool)
    ensures
        r == frontend_readable(b@, ctx),
{
    if ctx.awaiting_frontend_ssl || ctx.awaiting_frontend_startup || b.len() < 5 {
        return true;
    }
    let tag: u8 = b[0];
    let len: u32 = read_be32(b, 1);
    let limit: u32 = if tag == 0x50 || tag == 0x42 || tag == 0x64 {
        0x3fff_fffe
    } else {
        10000
    };
    if len > limit || b.len() - 1 < len as usize {
        return true;
    }
    if tag == 0x70 || tag == 0x64 {
        len >= 4
    } else if tag == 0x50 {
        parse_does_fit(b, 5)
    } else if tag == 0x42 {
        bind_does_fit(b, 5)
    } else if tag == 0x43 || tag == 0x44 {
        b.len() >= 6
    } else if tag == 0x45 {
        b.len() - skip_cstring(b, 5) >= 4
    } else {
        true
    }
}

/// Whether the server's next message can be decoded.
pub fn can_read_backend(b: &[u8], ctx: DecodeContext) -> (r: bool)
    ensures
        r == backend_readable(b@, ctx),
{
    if ctx.awaiting_backend_ssl_response || ctx.awaiting_backend_gss_response || b.len() < 5 {
        return true;
    }
    let tag: u8 = b[0];
    let len: u32 = read_be32(b, 1);
    let limit: u32 = if tag == 0x45 || tag == 0x4e || tag == 0x41 || tag == 0x74 || tag == 0x54
        || tag == 0x44 {
        0x7fff_ffff
    } else if tag == 0x64 {
        0x3fff_fffe
    } else if tag == 0x66 || tag == 0x63 {
        10000
    } else {
        30000
    };
    if len > limit || b.len() - 1 < len as usize {
        return true;
    }
    let left: usize = b.len() - 5;
    let ghost body = b@.skip(5);
    assert(body.len() == left);
    if tag == 0x52 {
        if left < 4 {
            return false;
        }
        let code: u32 = read_be32(b, 5);
        assert(code == be32(body, 0));
        (code != 5 || left >= 8) && ((code != 11 && code != 12) || len >= 8)
    } else if tag == 0x4b {
        left >= 4 && len >= 8
    } else if tag == 0x76 {
        left >= 8
    } else if tag == 0x5a {
        left >= 1
    } else if tag == 0x45 || tag == 0x4e {
        reports_do_end(b, 5)
    } else if tag == 0x41 {
        left >= 4
    } else if tag == 0x74 {
        if left < 2 {
            return false;
        }
        let n: usize = read_be16(b, 5) as usize;
        assert(n == be16(body, 0));
        left >= 2 + 4 * n
    } else if tag == 0x54 {
        if left < 2 {
            return false;
        }
        let n: u16 = read_be16(b, 5);
        assert(n == be16(body, 0));
        assert(body.skip(2) =~= b@.skip(7));
        n >= 0x8000 || 19 * n as usize > left - 2 || columns_do_fit(b, 7, n)
    } else if tag == 0x44 {
        left >= 2 && len >= 6
    } else if tag == 0x64 {
        len >= 4
    } else if tag == 0x47 || tag == 0x48 || tag == 0x57 {
        left >= 3
    } else {
        true
    }
}

// --- decoding ---------------------------------------------------------------------

/// What decoding the client's next message comes to: how many bytes it takes from
/// the front of the buffer, and the message, `None` where more bytes are needed, or
/// the text of the error.
pub struct FrontendStep {
    pub consumed: nat,
    pub result: Result<Option<FrontendView>, Seq<char>>,
}

/// What decoding the server's next message comes to.
pub struct BackendStep {
    pub consumed: nat,
    pub result: Result<Option<BackendView>, Seq<char>>,
}

/// The result of `PgWireFrontendMessage::decode` on buffered bytes that hold a header,
/// once no SSL or GSS request is awaited.
pub uninterp spec fn frontend_step(b: Seq<u8>, ctx: DecodeContext) -> FrontendStep;

/// The result of `PgWireBackendMessage::decode` on buffered bytes that hold a header,
/// while no answer to an SSL or GSS request is awaited.
pub uninterp spec fn backend_step(b: Seq<u8>, ctx: DecodeContext) -> BackendStep;

/// The second word of an SSL request.
pub const SSL_REQUEST_CODE: u32 = 80877103;

/// The second word of a GSS encryption request.
pub const GSS_REQUEST_CODE: u32 = 80877104;

/// What the opening bytes of a client come to while it may ask for SSL or GSS.
pub open spec fn opening_step(b: Seq<u8>) -> FrontendStep {
    if b.len() < 8 {
        FrontendStep { consumed: 0, result: Ok(None) }
    } else if be32(b, 4) == SSL_REQUEST_CODE {
        FrontendStep { consumed: 8, result: Ok(Some(FrontendView::SslRequest)) }
    } else if be32(b, 4) == GSS_REQUEST_CODE {
        FrontendStep { consumed: 8, result: Ok(Some(FrontendView::GssEncRequest)) }
    } else {
        FrontendStep { consumed: 0, result: Ok(Some(FrontendView::NoNegotiation)) }
    }
}

/// What the server's answer to an SSL request (`accept` is `S`) or a GSS request
/// (`accept` is `G`) says, if it is one.
pub open spec fn reply_of(b: Seq<u8>, accept: u8) -> Option<NegotiationReply> {
    if b.len() == 0 {
        None
    } else if b[0] == accept {
        Some(NegotiationReply::Accept)
    } else if b[0] == 0x4e {
        Some(NegotiationReply::Refuse)
    } else {
        None
    }
}

/// What the server's bytes come to while its answer to an SSL or GSS request is
/// awaited: a byte that is no answer stays where it is.
pub open spec fn reply_step(b: Seq<u8>, ctx: DecodeContext) -> BackendStep {
    if ctx.awaiting_backend_ssl_response {
        match reply_of(b, 0x53) {
            Some(r) => BackendStep { consumed: 1, result: Ok(Some(BackendView::SslResponse(r))) },
            None => BackendStep { consumed: 0, result: Ok(None) },
        }
    } else {
        match reply_of(b, 0x47) {
            Some(r) => BackendStep { consumed: 1, result: Ok(Some(BackendView::GssEncResponse(r))) },
            None => BackendStep { consumed: 0, result: Ok(None) },
        }
    }
}

/// Whether a byte is the tag of a message of the client.
pub open spec fn is_frontend_tag(tag: u8) -> bool {
    ||| tag == 0x70
    ||| tag == 0x51
    ||| tag == 0x50
    ||| tag == 0x42
    ||| tag == 0x43
    ||| tag == 0x44
    ||| tag == 0x45
    ||| tag == 0x48
    ||| tag == 0x53
    ||| tag == 0x58
    ||| tag == 0x64
    ||| tag == 0x66
    ||| tag == 0x63
}

/// Whether a byte is the tag of a message of the server.
pub open spec fn is_backend_tag(tag: u8) -> bool {
    ||| tag == 0x52
    ||| tag == 0x53
    ||| tag == 0x4b
    ||| tag == 0x76
    ||| tag == 0x31
    ||| tag == 0x32
    ||| tag == 0x33
    ||| tag == 0x73
    ||| tag == 0x43
    ||| tag == 0x49
    ||| tag == 0x5a
    ||| tag == 0x45
    ||| tag == 0x4e
    ||| tag == 0x41
    ||| tag == 0x74
    ||| tag == 0x54
    ||| tag == 0x44
    ||| tag == 0x6e
    ||| tag == 0x64
    ||| tag == 0x66
    ||| tag == 0x63
    ||| tag == 0x47
    ||| tag == 0x48
    ||| tag == 0x57
}

/// Whether the client's bytes end before a header does: eight bytes open a connection,
/// and a tag and a length begin every message after that.
pub open spec fn frontend_short(b: Seq<u8>, ctx: DecodeContext) -> bool {
    if ctx.awaiting_frontend_startup {
        b.len() < 8
    } else {
        b.len() < 2 || (b.len() < 5 && is_frontend_tag(b[0]))
    }
}

/// Whether the server's bytes end before a header does.
pub open spec fn backend_short(b: Seq<u8>) -> bool {
    b.len() < 2 || (b.len() < 5 && is_backend_tag(b[0]))
}

/// What decoding the client's next message comes to.
pub open spec fn frontend_next(b: Seq<u8>, ctx: DecodeContext) -> FrontendStep {
    if ctx.awaiting_frontend_ssl {
        opening_step(b)
    } else if frontend_short(b, ctx) {
        FrontendStep { consumed: 0, result: Ok(None) }
    } else {
        frontend_step(b, ctx)
    }
}

/// What decoding the server's next message comes to.
pub open spec fn backend_next(b: Seq<u8>, ctx: DecodeContext) -> BackendStep {
    if ctx.awaiting_backend_ssl_response || ctx.awaiting_backend_gss_response {
        reply_step(b, ctx)
    } else if backend_short(b) {
        BackendStep { consumed: 0, result: Ok(None) }
    } else {
        backend_step(b, ctx)
    }
}

/// `PgWireFrontendMessage::decode` takes a message off the front of the buffer. The
/// outcome depends on the buffered bytes and the context alone. While an SSL or GSS
/// request may come, it is read off the second word. Bytes that end before a header does
/// stay where they are. Otherwise a message takes at least one byte, and where more bytes
/// are needed none is taken.
#[verifier::external_body]
fn decode_frontend(buf: &mut BytesMut, ctx: DecodeContext) -> (r: Result<
    Option<PgWireFrontendMessage>,
    PgWireError,
>)
    requires
        frontend_readable(buffered(*old(buf)), ctx),
    ensures
        frontend_next(buffered(*old(buf)), ctx).consumed <= buffered(*old(buf)).len(),
        buffered(*final(buf)) == buffered(*old(buf)).skip(
            frontend_next(buffered(*old(buf)), ctx).consumed as int,
        ),
        match r {
            Ok(Some(m)) => frontend_next(buffered(*old(buf)), ctx).result == Ok::<
                Option<FrontendView>,
                Seq<char>,
            >(Some(frontend_fields(m))),
            Ok(None) => frontend_next(buffered(*old(buf)), ctx).result == Ok::<
                Option<FrontendView>,
                Seq<char>,
            >(None),
            Err(e) => frontend_next(buffered(*old(buf)), ctx).result == Err::<
                Option<FrontendView>,
                Seq<char>,
            >(protocol_error_text(e)),
        },
        !ctx.awaiting_frontend_ssl && !frontend_short(buffered(*old(buf)), ctx)
            ==> buffered(*final(buf)).len() == buffered(*old(buf)).len() - frontend_step(
            buffered(*old(buf)),
            ctx,
        ).consumed,
        !ctx.awaiting_frontend_ssl ==> match r {
            Ok(Some(m)) => buffered(*final(buf)).len() < buffered(*old(buf)).len() && !(
            frontend_fields(m) is NoNegotiation || frontend_fields(m) is SslRequest
                || frontend_fields(m) is GssEncRequest),
            Ok(None) => buffered(*final(buf)) == buffered(*old(buf)),
            Err(_) => true,
        },
{
    let mut context = pgwire::messages::DecodeContext::default();
    context.awaiting_frontend_ssl = ctx.awaiting_frontend_ssl;
    context.awaiting_frontend_startup = ctx.awaiting_frontend_startup;
    PgWireFrontendMessage::decode(buf, &context)
}

/// `PgWireBackendMessage::decode` takes a message off the front of the buffer. The
/// outcome depends on the buffered bytes and the context alone. While the answer to
/// an SSL or GSS request is awaited, it is read off the first byte. Bytes that end before
/// a header does stay where they are. Otherwise a message takes at least one byte, and
/// where more bytes are needed none is taken.
#[verifier::external_body]
fn decode_backend(buf: &mut BytesMut, ctx: DecodeContext) -> (r: Result<
    Option<PgWireBackendMessage>,
    PgWireError,
>)
    requires
        backend_readable(buffered(*old(buf)), ctx),
    ensures
        backend_next(buffered(*old(buf)), ctx).consumed <= buffered(*old(buf)).len(),
        buffered(*final(buf)) == buffered(*old(buf)).skip(
            backend_next(buffered(*old(buf)), ctx).consumed as int,
        ),
        match r {
            Ok(Some(m)) => backend_next(buffered(*old(buf)), ctx).result == Ok::<
                Option<BackendView>,
                Seq<char>,
            >(Some(backend_fields(m))),
            Ok(None) => backend_next(buffered(*old(buf)), ctx).result == Ok::<
                Option<BackendView>,
                Seq<char>,
            >(None),
            Err(e) => backend_next(buffered(*old(buf)), ctx).result == Err::<
                Option<BackendView>,
                Seq<char>,
            >(protocol_error_text(e)),
        },
        !ctx.awaiting_backend_ssl_response && !ctx.awaiting_backend_gss_response && !backend_short(
            buffered(*old(buf)),
        ) ==> buffered(*final(buf)).len() == buffered(*old(buf)).len() - backend_step(
            buffered(*old(buf)),
            ctx,
        ).consumed,
        match r {
            Ok(Some(_)) => buffered(*final(buf)).len() < buffered(*old(buf)).len(),
            Ok(None) => buffered(*final(buf)) == buffered(*old(buf)),
            Err(_) => true,
        },
{
    let mut context = pgwire::messages::DecodeContext::default();
    context.awaiting_backend_ssl_response = ctx.awaiting_backend_ssl_response;
    context.awaiting_backend_gss_response = ctx.awaiting_backend_gss_response;
    PgWireBackendMessage::decode(buf, &context)
}

/// The outcome of asking for the next message.
pub enum Taken<M> {
    /// More bytes are needed.
    Nothing,
    /// The next message.
    Message(M),
    /// The bytes are no message; the text says why.
    Failed(String),
    /// The next message states more fields than the buffered bytes hold.
    Unreadable,
}

/// What [`take_frontend`] hands back for a client's buffered bytes.
pub open spec fn frontend_taken(b: Seq<u8>, ctx: DecodeContext, t: Taken<FrontendMessage>) -> bool {
    if frontend_readable(b, ctx) {
        match t {
            Taken::Nothing => frontend_next(b, ctx).result == Ok::<Option<FrontendView>, Seq<char>>(
                None,
            ),
            Taken::Message(m) => frontend_next(b, ctx).result == Ok::<
                Option<FrontendView>,
                Seq<char>,
            >(Some(m@)),
            Taken::Failed(text) => frontend_next(b, ctx).result == Err::<
                Option<FrontendView>,
                Seq<char>,
            >(text@),
            Taken::Unreadable => false,
        }
    } else {
        t is Unreadable
    }
}

/// How many bytes the client's next message takes from the buffer.
pub open spec fn frontend_consumed(b: Seq<u8>, ctx: DecodeContext) -> nat {
    if frontend_readable(b, ctx) {
        frontend_next(b, ctx).consumed
    } else {
        0
    }
}

/// Takes the client's next message off the front of `buf`.
pub fn take_frontend(buf: &mut BytesMut, ctx: DecodeContext) -> (t: Taken<FrontendMessage>)
    ensures
        frontend_taken(buffered(*old(buf)), ctx, t),
        frontend_consumed(buffered(*old(buf)), ctx) <= buffered(*old(buf)).len(),
        buffered(*final(buf)) == buffered(*old(buf)).skip(
            frontend_consumed(buffered(*old(buf)), ctx) as int,
        ),
        t matches Taken::Message(m) ==> if ctx.awaiting_frontend_ssl {
            m@ is NoNegotiation || m@ is SslRequest || m@ is GssEncRequest
        } else {
            !(m@ is NoNegotiation) && buffered(*final(buf)).len() < buffered(*old(buf)).len()
        },
        t is Nothing ==> buffered(*final(buf)) == buffered(*old(buf)),
{
    if !can_read_frontend(buffer_slice(buf), ctx) {
        assert(buffered(*buf).skip(0) =~= buffered(*buf));
        return Taken::Unreadable;
    }
    match decode_frontend(buf, ctx) {
        Ok(Some(m)) => Taken::Message(frontend_message(m)),
        Ok(None) => Taken::Nothing,
        Err(e) => Taken::Failed(error_text(&e)),
    }
}

/// What [`take_backend`] hands back for a server's buffered bytes.
pub open spec fn backend_taken(b: Seq<u8>, ctx: DecodeContext, t: Taken<BackendMessage>) -> bool {
    if backend_readable(b, ctx) {
        match t {
            Taken::Nothing => backend_next(b, ctx).result == Ok::<Option<BackendView>, Seq<char>>(
                None,
            ),
            Taken::Message(m) => backend_next(b, ctx).result == Ok::<
                Option<BackendView>,
                Seq<char>,
            >(Some(m@)),
            Taken::Failed(text) => backend_next(b, ctx).result == Err::<
                Option<BackendView>,
                Seq<char>,
            >(text@),
            Taken::Unreadable => false,
        }
    } else {
        t is Unreadable
    }
}

/// How many bytes the server's next message takes from the buffer.
pub open spec fn backend_consumed(b: Seq<u8>, ctx: DecodeContext) -> nat {
    if backend_readable(b, ctx) {
        backend_next(b, ctx).consumed
    } else {
        0
    }
}

/// Takes the server's next message off the front of `buf`.
pub fn take_backend(buf: &mut BytesMut, ctx: DecodeContext) -> (t: Taken<BackendMessage>)
    ensures
        backend_taken(buffered(*old(buf)), ctx, t),
        backend_consumed(buffered(*old(buf)), ctx) <= buffered(*old(buf)).len(),
        buffered(*final(buf)) == buffered(*old(buf)).skip(
            backend_consumed(buffered(*old(buf)), ctx) as int,
        ),
        t is Message ==> buffered(*final(buf)).len() < buffered(*old(buf)).len(),
        t is Nothing ==> buffered(*final(buf)) == buffered(*old(buf)),
{
    if !can_read_backend(buffer_slice(buf), ctx) {
        assert(buffered(*buf).skip(0) =~= buffered(*buf));
        return Taken::Unreadable;
    }
    match decode_backend(buf, ctx) {
        Ok(Some(m)) => Taken::Message(backend_message(m)),
        Ok(None) => Taken::Nothing,
        Err(e) => Taken::Failed(error_text(&e)),
    }
}

} // verus!
