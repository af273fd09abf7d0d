//! Display-only filtering for decoded PostgreSQL messages.
//!
//! The language is a deliberately small, typed subset of Wireshark display
//! filters. It supports comparisons, set membership, substring and regular
//! expression matching, boolean operators, and parentheses:
//!
//! ```text
//! client.ip == 127.0.0.1 and client.port == 40005
//! client.port >= 40000 and client.port < 50000
//! message.type in {"Query", "DataRow"} and message.text contains "orders"
//! not (message.direction == "b2f" or message.type matches r"^Error")
//! ```
//!
//! Ordered comparisons (`<`, `<=`, `>`, `>=`) apply to the numeric `client.port`
//! field only.
use crate::addr::{ip_of, parse_ip, IpAddr, SocketAddr};
pub use crate::lexer::FilterParseError;
use crate::lexer::{lex, lexemes, tokens_end, tokens_of, Complaint, Lexeme, Token, TokenKind};
use crate::text::{
    chars_of, has_run, parse_unsigned, same_text, text_contains, trim, trimmed, unsigned_value,
};
use regex::Regex;
use vstd::prelude::*;

verus! {

// --- what is filtered -----------------------------------------------------------------

#[derive(Clone, Copy, PartialEq, Eq, Structural, Debug)]
pub enum MessageDirection {
    FrontendToBackend,
    BackendToFrontend,
}

/// A decoded message plus the structured fields used by display filters.
#[derive(Clone, Debug)]
pub struct DisplayMessage {
    /// Capture time in RFC 3339 with millisecond precision. Kept separately from
    /// `rendered` so saved sessions preserve real timestamps.
    pub timestamp: String,
    pub rendered: String,
    pub client: SocketAddr,
    pub direction: MessageDirection,
    pub kind: String,
    pub text: String,
}

/// What a [`DisplayMessage`] holds.
pub struct MessageView {
    pub timestamp: Seq<char>,
    pub rendered: Seq<char>,
    pub client: SocketAddr,
    pub direction: MessageDirection,
    pub kind: Seq<char>,
    pub text: Seq<char>,
}

impl View for DisplayMessage {
    type V = MessageView;

    open spec fn view(&self) -> MessageView {
        MessageView {
            timestamp: self.timestamp@,
            rendered: self.rendered@,
            client: self.client,
            direction: self.direction,
            kind: self.kind@,
            text: self.text@,
        }
    }
}

// --- regular expressions ----------------------------------------------------------------

/// `regex::Regex`, a compiled regular expression.
#[verifier::external_type_specification]
#[verifier::external_body]
pub struct ExRegex(Regex);

/// `regex::Error`, the reason why a pattern does not compile.
#[verifier::external_type_specification]
#[verifier::external_body]
pub struct ExRegexError(regex::Error);

/// The regular expression that a pattern compiles to; `ignore_case` makes it match
/// whatever the case.
pub uninterp spec fn compiled(pattern: Seq<char>, ignore_case: bool) -> Result<
    Regex,
    regex::Error,
>;

/// Whether a regular expression matches somewhere in a text.
pub uninterp spec fn regex_finds(regex: Regex, text: Seq<char>) -> bool;

/// The text of a compile error.
pub uninterp spec fn regex_error_text(e: regex::Error) -> Seq<char>;

/// `RegexBuilder::build` after `case_insensitive`: the pattern and that choice alone
/// decide what comes back.
#[verifier::external_body]
fn build_regex(pattern: &str, ignore_case: bool) -> (r: Result<Regex, regex::Error>)
    ensures
        r == compiled(pattern@, ignore_case),
{
    regex::RegexBuilder::new(pattern).case_insensitive(ignore_case).build()
}

/// `Regex::is_match`: the expression and the text alone decide the answer.
#[verifier::external_body]
fn regex_is_match(regex: &Regex, text: &str) -> (b: bool)
    ensures
        b == regex_finds(*regex, text@),
{
    regex.is_match(text)
}

/// `Regex::clone`: the clone shares the compiled expression, so that it is the same value.
#[verifier::external_body]
fn clone_regex(regex: &Regex) -> (r: Regex)
    ensures
        r == *regex,
{
    regex.clone()
}

/// `regex::Error` displays as a text that depends on the error alone.
#[verifier::external_body]
fn show_regex_error(e: &regex::Error) -> (s: String)
    ensures
        s@ == regex_error_text(*e),
{
    e.to_string()
}

// --- fields and values --------------------------------------------------------------------

#[derive(Clone, Copy, PartialEq, Eq, Structural, Debug)]
pub enum Field {
    ClientIp,
    ClientPort,
    MessageType,
    MessageText,
    MessageDirection,
}

/// A literal. `T` is the text of the literals that carry one.
#[derive(Debug)]
pub enum Literal<T> {
    Ip(IpAddr),
    Port(u16),
    Text(T),
    Direction(MessageDirection),
}

impl View for Literal<String> {
    type V = Literal<Seq<char>>;

    open spec fn view(&self) -> Literal<Seq<char>> {
        match *self {
            Literal::Ip(ip) => Literal::Ip(ip),
            Literal::Port(port) => Literal::Port(port),
            Literal::Text(t) => Literal::Text(t@),
            Literal::Direction(d) => Literal::Direction(d),
        }
    }
}

impl Clone for Literal<String> {
    fn clone(&self) -> (r: Literal<String>)
        ensures
            r@ == self@,
    {
        match self {
            Literal::Ip(ip) => Literal::Ip(*ip),
            Literal::Port(port) => Literal::Port(*port),
            Literal::Text(t) => Literal::Text(t.clone()),
            Literal::Direction(d) => Literal::Direction(*d),
        }
    }
}

/// The literals of a list.
pub open spec fn value_views(v: Seq<Literal<String>>) -> Seq<Literal<Seq<char>>> {
    v.map_values(|x: Literal<String>| x@)
}

pub open spec fn field_name(f: Field) -> Seq<char> {
    match f {
        Field::ClientIp => "client.ip"@,
        Field::ClientPort => "client.port"@,
        Field::MessageType => "message.type"@,
        Field::MessageText => "message.text"@,
        Field::MessageDirection => "message.direction"@,
    }
}

/// The field of that name.
pub open spec fn field_named(w: Seq<char>) -> Option<Field> {
    if w == "client.ip"@ {
        Some(Field::ClientIp)
    } else if w == "client.port"@ {
        Some(Field::ClientPort)
    } else if w == "message.type"@ {
        Some(Field::MessageType)
    } else if w == "message.text"@ {
        Some(Field::MessageText)
    } else if w == "message.direction"@ {
        Some(Field::MessageDirection)
    } else {
        None
    }
}

/// The text of a message that a text field names.
pub open spec fn field_text(f: Field, m: MessageView) -> Option<Seq<char>> {
    match f {
        Field::MessageType => Some(m.kind),
        Field::MessageText => Some(m.text),
        _ => None,
    }
}

/// Whether a field of a message equals a literal; a literal of another type never
/// does.
pub open spec fn field_equals(f: Field, v: Literal<Seq<char>>, m: MessageView) -> bool {
    match (f, v) {
        (Field::ClientIp, Literal::Ip(ip)) => m.client.ip == ip,
        (Field::ClientPort, Literal::Port(port)) => m.client.port == port,
        (Field::MessageType, Literal::Text(t)) => m.kind == t,
        (Field::MessageText, Literal::Text(t)) => m.text == t,
        (Field::MessageDirection, Literal::Direction(d)) => m.direction == d,
        _ => false,
    }
}

/// Whether a field of a message equals one of some literals.
pub open spec fn one_of(f: Field, values: Seq<Literal<Seq<char>>>, m: MessageView) -> bool {
    exists|i: int| 0 <= i < values.len() && field_equals(f, #[trigger] values[i], m)
}

impl Field {
    /// The field called `value`.
    pub fn parse(value: &str) -> (r: Option<Field>)
        ensures
            r == field_named(value@),
    {
        if same_text(value, "client.ip") {
            Some(Field::ClientIp)
        } else if same_text(value, "client.port") {
            Some(Field::ClientPort)
        } else if same_text(value, "message.type") {
            Some(Field::MessageType)
        } else if same_text(value, "message.text") {
            Some(Field::MessageText)
        } else if same_text(value, "message.direction") {
            Some(Field::MessageDirection)
        } else {
            None
        }
    }

    pub fn name(self) -> (s: &'static str)
        ensures
            s@ == field_name(self),
    {
        match self {
            Field::ClientIp => "client.ip",
            Field::ClientPort => "client.port",
            Field::MessageType => "message.type",
            Field::MessageText => "message.text",
            Field::MessageDirection => "message.direction",
        }
    }

    pub open spec fn spec_is_text(self) -> bool {
        self == Field::MessageType || self == Field::MessageText
    }

    pub fn is_text(self) -> (b: bool)
        ensures
            b == self.spec_is_text(),
    {
        matches!(self, Field::MessageType | Field::MessageText)
    }

    pub fn equals(self, value: &Literal<String>, message: &DisplayMessage) -> (b: bool)
        ensures
            b == field_equals(self, value@, message@),
    {
        match (self, value) {
            (Field::ClientIp, Literal::Ip(expected)) => message.client.ip == *expected,
            (Field::ClientPort, Literal::Port(expected)) => message.client.port == *expected,
            (Field::MessageType, Literal::Text(expected)) => same_text(
                message.kind.as_str(),
                expected.as_str(),
            ),
            (Field::MessageText, Literal::Text(expected)) => same_text(
                message.text.as_str(),
                expected.as_str(),
            ),
            (Field::MessageDirection, Literal::Direction(expected)) => message.direction == *expected,
            _ => false,
        }
    }

    /// Whether the field equals one of some literals.
    pub fn is_one_of(self, values: &Vec<Literal<String>>, message: &DisplayMessage) -> (b: bool)
        ensures
            b == one_of(self, value_views(values@), message@),
    {
        let ghost views = value_views(values@);
        for i in 0..values.len()
            invariant
                views == value_views(values@),
                forall|k: int|
                    0 <= k < i ==> !field_equals(self, #[trigger] views[k], message@),
        {
            if self.equals(&values[i], message) {
                assert(field_equals(self, views[i as int], message@));
                return true;
            }
        }
        false
    }

    pub fn text(self, message: &DisplayMessage) -> (r: Option<&str>)
        ensures
            crate::render::opt_str(r) == field_text(self, message@),
    {
        match self {
            Field::MessageType => Some(message.kind.as_str()),
            Field::MessageText => Some(message.text.as_str()),
            _ => None,
        }
    }
}

/// Ordered comparison operator, for the numeric field.
#[derive(Clone, Copy, PartialEq, Eq, Structural, Debug)]
pub enum OrdOp {
    Less,
    LessEqual,
    Greater,
    GreaterEqual,
}

/// Whether `actual` stands in the relation to `bound`.
pub open spec fn ordered(op: OrdOp, actual: u16, bound: u16) -> bool {
    match op {
        OrdOp::Less => actual < bound,
        OrdOp::LessEqual => actual <= bound,
        OrdOp::Greater => actual > bound,
        OrdOp::GreaterEqual => actual >= bound,
    }
}

impl OrdOp {
    pub fn test(self, actual: u16, bound: u16) -> (b: bool)
        ensures
            b == ordered(self, actual, bound),
    {
        match self {
            OrdOp::Less => actual < bound,
            OrdOp::LessEqual => actual <= bound,
            OrdOp::Greater => actual > bound,
            OrdOp::GreaterEqual => actual >= bound,
        }
    }
}

// --- expressions ----------------------------------------------------------------------------

/// What a field is held against.
#[derive(Debug)]
pub enum Comparison {
    Equal(Literal<String>),
    NotEqual(Literal<String>),
    /// An ordered comparison against a port number (`client.port > 40000`).
    Ordered(OrdOp, u16),
    Contains(String),
    Matches(Regex),
    In(Vec<Literal<String>>),
}

/// What a [`Comparison`] holds.
pub enum Test {
    Equal(Literal<Seq<char>>),
    NotEqual(Literal<Seq<char>>),
    Ordered(OrdOp, u16),
    Contains(Seq<char>),
    Matches(Regex),
    In(Seq<Literal<Seq<char>>>),
}

impl View for Comparison {
    type V = Test;

    open spec fn view(&self) -> Test {
        match *self {
            Comparison::Equal(v) => Test::Equal(v@),
            Comparison::NotEqual(v) => Test::NotEqual(v@),
            Comparison::Ordered(op, bound) => Test::Ordered(op, bound),
            Comparison::Contains(s) => Test::Contains(s@),
            Comparison::Matches(r) => Test::Matches(r),
            Comparison::In(vs) => Test::In(value_views(vs@)),
        }
    }
}

impl Clone for Comparison {
    fn clone(&self) -> (r: Comparison)
        ensures
            r@ == self@,
    {
        match self {
            Comparison::Equal(v) => Comparison::Equal(v.clone()),
            Comparison::NotEqual(v) => Comparison::NotEqual(v.clone()),
            Comparison::Ordered(op, bound) => Comparison::Ordered(*op, *bound),
            Comparison::Contains(s) => Comparison::Contains(s.clone()),
            Comparison::Matches(r) => Comparison::Matches(clone_regex(r)),
            Comparison::In(vs) => {
                let mut values: Vec<Literal<String>> = Vec::new();
                let n: usize = vs.len();
                for i in 0..n
                    invariant
                        n == vs@.len(),
                        value_views(values@) == value_views(vs@).take(i as int),
                {
                    let ghost before = values@;
                    let v: Literal<String> = vs[i].clone();
                    values.push(v);
                    assert(value_views(values@) =~= value_views(before).push(v@));
                    assert(value_views(vs@).take(i + 1) =~= value_views(vs@).take(i as int).push(
                        vs@[i as int]@,
                    ));
                }
                assert(value_views(vs@).take(n as int) =~= value_views(vs@));
                Comparison::In(values)
            },
        }
    }
}

#[derive(Debug)]
pub struct Predicate {
    pub field: Field,
    pub comparison: Comparison,
}

impl Clone for Predicate {
    fn clone(&self) -> (r: Predicate)
        ensures
            r.field == self.field,
            r.comparison@ == self.comparison@,
    {
        Predicate { field: self.field, comparison: self.comparison.clone() }
    }
}

#[derive(Debug)]
pub enum Expr {
    Predicate(Predicate),
    And(Box<Expr>, Box<Expr>),
    Or(Box<Expr>, Box<Expr>),
    Not(Box<Expr>),
}

/// What an [`Expr`] says.
pub enum Formula {
    Predicate(Field, Test),
    And(Box<Formula>, Box<Formula>),
    Or(Box<Formula>, Box<Formula>),
    Not(Box<Formula>),
}

/// Whether a field of a message passes a test.
pub open spec fn passes(f: Field, t: Test, m: MessageView) -> bool {
    match t {
        Test::Equal(v) => field_equals(f, v, m),
        Test::NotEqual(v) => !field_equals(f, v, m),
        Test::Ordered(op, bound) => ordered(op, m.client.port, bound),
        Test::Contains(needle) => match field_text(f, m) {
            Some(text) => has_run(text, needle),
            None => false,
        },
        Test::Matches(regex) => match field_text(f, m) {
            Some(text) => regex_finds(regex, text),
            None => false,
        },
        Test::In(values) => one_of(f, values, m),
    }
}

/// Whether a formula holds of a message.
pub open spec fn holds(e: Formula, m: MessageView) -> bool
    decreases e,
{
    match e {
        Formula::Predicate(f, t) => passes(f, t, m),
        Formula::And(l, r) => holds(*l, m) && holds(*r, m),
        Formula::Or(l, r) => holds(*l, m) || holds(*r, m),
        Formula::Not(inner) => !holds(*inner, m),
    }
}

impl Predicate {
    pub fn matches(&self, message: &DisplayMessage) -> (b: bool)
        ensures
            b == passes(self.field, self.comparison@, message@),
    {
        match &self.comparison {
            Comparison::Equal(value) => self.field.equals(value, message),
            Comparison::NotEqual(value) => !self.field.equals(value, message),
            Comparison::Ordered(op, bound) => op.test(message.client.port, *bound),
            Comparison::Contains(needle) => match self.field.text(message) {
                Some(value) => text_contains(value, needle.as_str()),
                None => false,
            },
            Comparison::Matches(regex) => match self.field.text(message) {
                Some(value) => regex_is_match(regex, value),
                None => false,
            },
            Comparison::In(values) => self.field.is_one_of(values, message),
        }
    }
}

impl Clone for Expr {
    fn clone(&self) -> (r: Expr)
        ensures
            r.formula() == self.formula(),
        decreases self,
    {
        match self {
            Expr::Predicate(p) => Expr::Predicate(p.clone()),
            Expr::And(l, r) => Expr::And(Box::new((**l).clone()), Box::new((**r).clone())),
            Expr::Or(l, r) => Expr::Or(Box::new((**l).clone()), Box::new((**r).clone())),
            Expr::Not(inner) => Expr::Not(Box::new((**inner).clone())),
        }
    }
}

impl Expr {
    /// What the expression says.
    pub open spec fn formula(self) -> Formula
        decreases self,
    {
        match self {
            Expr::Predicate(p) => Formula::Predicate(p.field, p.comparison@),
            Expr::And(l, r) => Formula::And(Box::new(l.formula()), Box::new(r.formula())),
            Expr::Or(l, r) => Formula::Or(Box::new(l.formula()), Box::new(r.formula())),
            Expr::Not(inner) => Formula::Not(Box::new(inner.formula())),
        }
    }

    pub fn matches(&self, message: &DisplayMessage) -> (b: bool)
        ensures
            b == holds(self.formula(), message@),
        decreases self,
    {
        match self {
            Expr::Predicate(predicate) => predicate.matches(message),
            Expr::And(left, right) => left.matches(message) && right.matches(message),
            Expr::Or(left, right) => left.matches(message) || right.matches(message),
            Expr::Not(inner) => !inner.matches(message),
        }
    }
}

// --- the grammar ------------------------------------------------------------------------------

/// What reading from the front of some tokens comes to: a value and the tokens
/// behind it, or a complaint.
pub enum Parsed<A> {
    Done(A, Seq<Lexeme>),
    Failed(Complaint),
}

/// A complaint about the first of some tokens.
pub open spec fn blame<A>(t: Seq<Lexeme>, message: Seq<char>) -> Parsed<A> {
    Parsed::Failed(Complaint { message, position: t[0].position })
}

/// The tokens behind the first; the end token is never passed.
pub open spec fn behind(t: Seq<Lexeme>) -> Seq<Lexeme> {
    if t[0].kind is End {
        t
    } else {
        t.skip(1)
    }
}

/// The text of a word or a string.
pub open spec fn token_text(k: TokenKind<Seq<char>>) -> Option<Seq<char>> {
    match k {
        TokenKind::Word(w) => Some(w),
        TokenKind::Text(w) => Some(w),
        _ => None,
    }
}

/// The direction that a text names.
pub open spec fn direction_named(w: Seq<char>) -> Option<MessageDirection> {
    if w == "f2b"@ || w == "F→B"@ {
        Some(MessageDirection::FrontendToBackend)
    } else if w == "b2f"@ || w == "B→F"@ {
        Some(MessageDirection::BackendToFrontend)
    } else {
        None
    }
}

/// Reads a port number, bare or in quotes.
pub open spec fn port_literal(t: Seq<Lexeme>, missing: Seq<char>) -> Parsed<u16> {
    match token_text(t[0].kind) {
        Some(w) => match unsigned_value(w, 65535) {
            Some(n) => Parsed::Done(n as u16, behind(t)),
            None => blame(t, "invalid client port '"@ + w + "'"@),
        },
        None => blame(t, missing),
    }
}

/// Reads a literal that a field can be held against.
pub open spec fn literal(f: Field, t: Seq<Lexeme>) -> Parsed<Literal<Seq<char>>> {
    match f {
        Field::ClientIp => match token_text(t[0].kind) {
            Some(w) => match ip_of(w) {
                Some(ip) => Parsed::Done(Literal::Ip(ip), behind(t)),
                None => blame(t, "invalid IP address '"@ + w + "'"@),
            },
            None => blame(t, "client.ip requires an IP address"@),
        },
        Field::ClientPort => match port_literal(t, "client.port requires an integer"@) {
            Parsed::Done(port, rest) => Parsed::Done(Literal::Port(port), rest),
            Parsed::Failed(c) => Parsed::Failed(c),
        },
        Field::MessageType | Field::MessageText => match t[0].kind {
            TokenKind::Text(w) => Parsed::Done(Literal::Text(w), behind(t)),
            _ => blame(t, field_name(f) + " requires a quoted string"@),
        },
        Field::MessageDirection => match t[0].kind {
            TokenKind::Text(w) => match direction_named(w) {
                Some(d) => Parsed::Done(Literal::Direction(d), behind(t)),
                None => blame(t, "invalid direction '"@ + w + "' (expected f2b or b2f)"@),
            },
            _ => blame(t, "message.direction requires a quoted string"@),
        },
    }
}

/// Reads a quoted string.
pub open spec fn quoted(t: Seq<Lexeme>, missing: Seq<char>) -> Parsed<Seq<char>> {
    match t[0].kind {
        TokenKind::Text(w) => Parsed::Done(w, behind(t)),
        _ => blame(t, missing),
    }
}

/// Reads the literals of a set from one of them on, up to the closing brace.
pub open spec fn set_from(f: Field, t: Seq<Lexeme>, values: Seq<Literal<Seq<char>>>) -> Parsed<
    Seq<Literal<Seq<char>>>,
>
    decreases t.len(),
{
    match literal(f, t) {
        Parsed::Done(v, rest) => if rest[0].kind is Comma {
            let next = rest.skip(1);
            if next[0].kind is RightBrace {
                blame(next, "expected a value after ','"@)
            } else if next.len() < t.len() {
                set_from(f, next, values.push(v))
            } else {
                Parsed::Done(values, t)
            }
        } else if rest[0].kind is RightBrace {
            Parsed::Done(values.push(v), rest.skip(1))
        } else {
            blame(rest, "expected ',' or '}' in set"@)
        },
        Parsed::Failed(c) => Parsed::Failed(c),
    }
}

/// Reads a set in braces.
pub open spec fn set_literal(f: Field, t: Seq<Lexeme>) -> Parsed<Seq<Literal<Seq<char>>>> {
    if !(t[0].kind is LeftBrace) {
        blame(t, "expected '{' after 'in'"@)
    } else if t.skip(1)[0].kind is RightBrace {
        blame(t.skip(1), "set cannot be empty"@)
    } else {
        set_from(f, t.skip(1), Seq::empty())
    }
}

/// The ordered comparison that a token stands for.
pub open spec fn ord_op(k: TokenKind<Seq<char>>) -> Option<OrdOp> {
    match k {
        TokenKind::Less => Some(OrdOp::Less),
        TokenKind::LessEqual => Some(OrdOp::LessEqual),
        TokenKind::Greater => Some(OrdOp::Greater),
        TokenKind::GreaterEqual => Some(OrdOp::GreaterEqual),
        _ => None,
    }
}

/// The test that a pattern makes, or the complaint about it at `position`.
pub open spec fn regex_test(built: Result<Regex, regex::Error>, position: nat) -> Result<
    Test,
    Complaint,
> {
    match built {
        Ok(regex) => Ok(Test::Matches(regex)),
        Err(e) => Err(
            Complaint { message: "invalid regex: "@ + regex_error_text(e), position },
        ),
    }
}

pub open spec fn not_a_text_field(f: Field, operator: Seq<char>) -> Seq<char> {
    "operator '"@ + operator + "' is not valid for '"@ + field_name(f) + "'"@
}

/// Reads an operator and what it takes.
pub open spec fn test_of(f: Field, t: Seq<Lexeme>) -> Parsed<Test> {
    let rest = behind(t);
    match t[0].kind {
        TokenKind::Equal => match literal(f, rest) {
            Parsed::Done(v, end) => Parsed::Done(Test::Equal(v), end),
            Parsed::Failed(c) => Parsed::Failed(c),
        },
        TokenKind::NotEqual => match literal(f, rest) {
            Parsed::Done(v, end) => Parsed::Done(Test::NotEqual(v), end),
            Parsed::Failed(c) => Parsed::Failed(c),
        },
        TokenKind::Less
        | TokenKind::LessEqual
        | TokenKind::Greater
        | TokenKind::GreaterEqual => if f != Field::ClientPort {
            blame(
                t,
                "ordered comparison is only valid for 'client.port', not '"@ + field_name(f)
                    + "'"@,
            )
        } else {
            match port_literal(rest, "expected a port number after the operator"@) {
                Parsed::Done(port, end) => Parsed::Done(
                    Test::Ordered(ord_op(t[0].kind)->0, port),
                    end,
                ),
                Parsed::Failed(c) => Parsed::Failed(c),
            }
        },
        TokenKind::Contains => if !f.spec_is_text() {
            blame(t, not_a_text_field(f, "contains"@))
        } else {
            match quoted(rest, "contains requires a quoted string"@) {
                Parsed::Done(w, end) => Parsed::Done(Test::Contains(w), end),
                Parsed::Failed(c) => Parsed::Failed(c),
            }
        },
        TokenKind::Matches => if !f.spec_is_text() {
            blame(t, not_a_text_field(f, "matches"@))
        } else {
            match quoted(rest, "matches requires a quoted string"@) {
                Parsed::Done(w, end) => match regex_test(compiled(w, true), rest[0].position) {
                    Ok(test) => Parsed::Done(test, end),
                    Err(c) => Parsed::Failed(c),
                },
                Parsed::Failed(c) => Parsed::Failed(c),
            }
        },
        TokenKind::In => match set_literal(f, rest) {
            Parsed::Done(values, end) => Parsed::Done(Test::In(values), end),
            Parsed::Failed(c) => Parsed::Failed(c),
        },
        _ => blame(
            t,
            "expected an operator after '"@ + field_name(f)
                + "' (==, !=, <, <=, >, >=, contains, matches, or in)"@,
        ),
    }
}

/// Reads a field and the test on it.
pub open spec fn predicate_of(t: Seq<Lexeme>) -> Parsed<Formula> {
    match t[0].kind {
        TokenKind::Word(w) => match field_named(w) {
            Some(f) => match test_of(f, t.skip(1)) {
                Parsed::Done(test, rest) => Parsed::Done(Formula::Predicate(f, test), rest),
                Parsed::Failed(c) => Parsed::Failed(c),
            },
            None => blame(t, "unknown filter field '"@ + w + "'"@),
        },
        _ => blame(t, "expected a filter field"@),
    }
}

/// Reads a disjunction.
pub open spec fn or_expr(t: Seq<Lexeme>) -> Parsed<Formula>
    decreases t.len(), 7nat,
{
    match and_expr(t) {
        Parsed::Done(e, rest) => if rest.len() <= t.len() {
            or_more(e, rest)
        } else {
            Parsed::Done(e, rest)
        },
        Parsed::Failed(c) => Parsed::Failed(c),
    }
}

/// Reads the further operands of a disjunction that begins with `e`.
pub open spec fn or_more(e: Formula, t: Seq<Lexeme>) -> Parsed<Formula>
    decreases t.len(), 6nat,
{
    if t.len() > 0 && t[0].kind is Or {
        match and_expr(t.skip(1)) {
            Parsed::Done(r, rest) => if rest.len() < t.len() {
                or_more(Formula::Or(Box::new(e), Box::new(r)), rest)
            } else {
                Parsed::Done(e, rest)
            },
            Parsed::Failed(c) => Parsed::Failed(c),
        }
    } else {
        Parsed::Done(e, t)
    }
}

/// Reads a conjunction, which binds tighter than a disjunction.
pub open spec fn and_expr(t: Seq<Lexeme>) -> Parsed<Formula>
    decreases t.len(), 5nat,
{
    match not_expr(t) {
        Parsed::Done(e, rest) => if rest.len() <= t.len() {
            and_more(e, rest)
        } else {
            Parsed::Done(e, rest)
        },
        Parsed::Failed(c) => Parsed::Failed(c),
    }
}

/// Reads the further operands of a conjunction that begins with `e`.
pub open spec fn and_more(e: Formula, t: Seq<Lexeme>) -> Parsed<Formula>
    decreases t.len(), 4nat,
{
    if t.len() > 0 && t[0].kind is And {
        match not_expr(t.skip(1)) {
            Parsed::Done(r, rest) => if rest.len() < t.len() {
                and_more(Formula::And(Box::new(e), Box::new(r)), rest)
            } else {
                Parsed::Done(e, rest)
            },
            Parsed::Failed(c) => Parsed::Failed(c),
        }
    } else {
        Parsed::Done(e, t)
    }
}

/// Reads a negation, which binds tightest.
pub open spec fn not_expr(t: Seq<Lexeme>) -> Parsed<Formula>
    decreases t.len(), 3nat,
{
    if t.len() > 0 && t[0].kind is Not {
        match not_expr(t.skip(1)) {
            Parsed::Done(e, rest) => Parsed::Done(Formula::Not(Box::new(e)), rest),
            Parsed::Failed(c) => Parsed::Failed(c),
        }
    } else {
        primary(t)
    }
}

/// Reads an expression in parentheses, or a predicate.
pub open spec fn primary(t: Seq<Lexeme>) -> Parsed<Formula>
    decreases t.len(), 2nat,
{
    if t.len() > 0 && t[0].kind is LeftParen {
        match or_expr(t.skip(1)) {
            Parsed::Done(e, rest) => if rest[0].kind is RightParen {
                Parsed::Done(e, rest.skip(1))
            } else {
                blame(rest, "expected ')'"@)
            },
            Parsed::Failed(c) => Parsed::Failed(c),
        }
    } else {
        predicate_of(t)
    }
}

/// The formula that a whole list of tokens writes.
pub open spec fn formula_of(t: Seq<Lexeme>) -> Result<Formula, Complaint> {
    match or_expr(t) {
        Parsed::Done(e, rest) => if rest[0].kind is End {
            Ok(e)
        } else {
            Err(
                Complaint {
                    message: "expected a boolean operator or end of expression"@,
                    position: rest[0].position,
                },
            )
        },
        Parsed::Failed(c) => Err(c),
    }
}

// --- the parser ------------------------------------------------------------------------------

/// A cursor on the tokens of an expression.
pub struct Parser {
    tokens: Vec<Token>,
    cursor: usize,
}

impl Parser {
    /// The cursor stands on a token, and the last token alone is the end token.
    pub closed spec fn wf(&self) -> bool {
        &&& self.cursor < self.tokens@.len()
        &&& self.tokens@.last().kind is End
        &&& forall|i: int|
            0 <= i < self.tokens@.len() - 1 ==> !((#[trigger] self.tokens@[i]).kind is End)
    }

    /// The tokens from the cursor on.
    pub closed spec fn rest(&self) -> Seq<Lexeme> {
        lexemes(self.tokens@).skip(self.cursor as int)
    }

    /// The same tokens, with the cursor at `old` or behind it.
    pub closed spec fn follows(&self, old: &Parser) -> bool {
        self.wf() && self.tokens@ == old.tokens@ && old.cursor <= self.cursor
    }

    pub fn new(tokens: Vec<Token>) -> (p: Parser)
        requires
            tokens@.len() > 0,
            tokens@.last().kind is End,
            forall|i: int| 0 <= i < tokens@.len() - 1 ==> !((#[trigger] tokens@[i]).kind is End),
        ensures
            p.wf(),
            p.rest() == lexemes(tokens@),
    {
        let p = Parser { tokens, cursor: 0 };
        assert(p.rest() =~= lexemes(tokens@));
        p
    }

    fn peek(&self) -> (t: &Token)
        requires
            self.wf(),
        ensures
            t@ == self.rest()[0],
            *t == self.tokens@[self.cursor as int],
            self.rest().len() == self.tokens@.len() - self.cursor,
            t.kind is End <==> self.cursor == self.tokens@.len() - 1,
    {
        &self.tokens[self.cursor]
    }

    /// Steps past the current token, unless it is the end token.
    fn advance(&mut self)
        requires
            old(self).wf(),
        ensures
            final(self).follows(old(self)),
            final(self).rest() == behind(old(self).rest()),
            !(old(self).tokens@[old(self).cursor as int].kind is End) ==> final(self).cursor
                == old(self).cursor + 1,
            old(self).tokens@[old(self).cursor as int].kind is End ==> final(self).cursor
                == old(self).cursor,
    {
        let ghost before = self.rest();
        let at_end = matches!(self.peek().kind, TokenKind::End);
        let len: usize = self.tokens.len();
        if !at_end {
            assert(self.cursor + 1 < len);
            self.cursor = self.cursor + 1;
            assert(self.rest() =~= before.skip(1));
        }
    }

    fn error_here(&self, message: &str) -> (e: FilterParseError)
        requires
            self.wf(),
        ensures
            e@ == (Complaint { message: message@, position: self.rest()[0].position }),
    {
        FilterParseError::new(self.peek().position, message.to_owned())
    }

    /// An error about the current token, with a quoted text in it.
    fn error_about(&self, before: &str, text: &str, after: &str) -> (e: FilterParseError)
        requires
            self.wf(),
        ensures
            e@ == (Complaint {
                message: before@ + text@ + after@,
                position: self.rest()[0].position,
            }),
    {
        let mut message = String::new();
        message.append(before);
        message.append(text);
        message.append(after);
        assert(message@ =~= before@ + text@ + after@);
        FilterParseError::new(self.peek().position, message)
    }

    fn parse_string(&mut self, missing: &str) -> (r: Result<String, FilterParseError>)
        requires
            old(self).wf(),
        ensures
            final(self).follows(old(self)),
            match r {
                Ok(s) => quoted(old(self).rest(), missing@) == Parsed::Done(s@, final(self).rest()),
                Err(e) => quoted(old(self).rest(), missing@) == Parsed::<Seq<char>>::Failed(e@),
            },
    {
        let text = match &self.peek().kind {
            TokenKind::Text(w) => Some(w.clone()),
            _ => None,
        };
        match text {
            Some(w) => {
                self.advance();
                Ok(w)
            },
            None => Err(self.error_here(missing)),
        }
    }

    /// The text of the current token, if it is a word or a string.
    fn current_text(&self) -> (r: Option<String>)
        requires
            self.wf(),
        ensures
            match r {
                Some(w) => token_text(self.rest()[0].kind) == Some(w@) && self.rest().len() > 1,
                None => token_text(self.rest()[0].kind) is None,
            },
    {
        match &self.peek().kind {
            TokenKind::Word(w) => Some(w.clone()),
            TokenKind::Text(w) => Some(w.clone()),
            _ => None,
        }
    }

    /// Parses a port number, bare or quoted.
    fn parse_port(&mut self, missing: &str) -> (r: Result<u16, FilterParseError>)
        requires
            old(self).wf(),
        ensures
            final(self).follows(old(self)),
            match r {
                Ok(port) => port_literal(old(self).rest(), missing@) == Parsed::Done(
                    port,
                    final(self).rest(),
                ),
                Err(e) => port_literal(old(self).rest(), missing@) == Parsed::<u16>::Failed(e@),
            },
    {
        match self.current_text() {
            Some(w) => {
                let v = chars_of(w.as_str());
                match parse_unsigned(&v, 65535) {
                    Some(n) => {
                        self.advance();
                        Ok(n as u16)
                    },
                    None => Err(self.error_about("invalid client port '", w.as_str(), "'")),
                }
            },
            None => Err(self.error_here(missing)),
        }
    }

    fn parse_value(&mut self, field: Field) -> (r: Result<Literal<String>, FilterParseError>)
        requires
            old(self).wf(),
        ensures
            final(self).follows(old(self)),
            match r {
                Ok(v) => literal(field, old(self).rest()) == Parsed::Done(v@, final(self).rest())
                    && final(self).rest().len() < old(self).rest().len(),
                Err(e) => literal(field, old(self).rest()) == Parsed::<Literal<Seq<char>>>::Failed(
                    e@,
                ),
            },
    {
        let ghost before = self.rest();
        assert(before.len() == self.tokens@.len() - self.cursor);
        match field {
            Field::ClientIp => match self.current_text() {
                Some(w) => match parse_ip(w.as_str()) {
                    Some(ip) => {
                        self.advance();
                        Ok(Literal::Ip(ip))
                    },
                    None => Err(self.error_about("invalid IP address '", w.as_str(), "'")),
                },
                None => Err(self.error_here("client.ip requires an IP address")),
            },
            Field::ClientPort => match self.parse_port("client.port requires an integer") {
                Ok(port) => Ok(Literal::Port(port)),
                Err(e) => Err(e),
            },
            Field::MessageType | Field::MessageText => {
                let text = match &self.peek().kind {
                    TokenKind::Text(w) => Some(w.clone()),
                    _ => None,
                };
                match text {
                    Some(w) => {
                        self.advance();
                        Ok(Literal::Text(w))
                    },
                    None => {
                        let e = self.error_about("", field.name(), " requires a quoted string");
                        proof {
                            reveal_strlit("");
                            assert(""@ + field_name(field) =~= field_name(field));
                        }
                        Err(e)
                    },
                }
            },
            Field::MessageDirection => {
                let text = match &self.peek().kind {
                    TokenKind::Text(w) => Some(w.clone()),
                    _ => None,
                };
                match text {
                    Some(w) => match parse_direction(w.as_str()) {
                        Some(d) => {
                            self.advance();
                            Ok(Literal::Direction(d))
                        },
                        None => Err(
                            self.error_about(
                                "invalid direction '",
                                w.as_str(),
                                "' (expected f2b or b2f)",
                            ),
                        ),
                    },
                    None => Err(self.error_here("message.direction requires a quoted string")),
                }
            },
        }
    }

    fn parse_set(&mut self, field: Field) -> (r: Result<Vec<Literal<String>>, FilterParseError>)
        requires
            old(self).wf(),
        ensures
            final(self).follows(old(self)),
            match r {
                Ok(v) => set_literal(field, old(self).rest()) == Parsed::Done(
                    value_views(v@),
                    final(self).rest(),
                ),
                Err(e) => set_literal(field, old(self).rest()) == Parsed::<
                    Seq<Literal<Seq<char>>>,
                >::Failed(e@),
            },
    {
        if !matches!(self.peek().kind, TokenKind::LeftBrace) {
            return Err(self.error_here("expected '{' after 'in'"));
        }
        self.advance();
        if matches!(self.peek().kind, TokenKind::RightBrace) {
            return Err(self.error_here("set cannot be empty"));
        }
        let mut values: Vec<Literal<String>> = Vec::new();
        let ghost first = self.rest();
        assert(value_views(values@) =~= Seq::<Literal<Seq<char>>>::empty());
        loop
            invariant
                self.follows(old(self)),
                set_literal(field, old(self).rest()) == set_from(field, first, Seq::empty()),
                set_from(field, self.rest(), value_views(values@)) == set_from(
                    field,
                    first,
                    Seq::empty(),
                ),
            decreases self.tokens@.len() - self.cursor,
        {
            let ghost so_far = value_views(values@);
            let value = match self.parse_value(field) {
                Ok(v) => v,
                Err(e) => {
                    return Err(e);
                },
            };
            let ghost shown = value@;
            values.push(value);
            assert(value_views(values@) =~= so_far.push(shown));
            if matches!(self.peek().kind, TokenKind::Comma) {
                self.advance();
                if matches!(self.peek().kind, TokenKind::RightBrace) {
                    return Err(self.error_here("expected a value after ','"));
                }
            } else if matches!(self.peek().kind, TokenKind::RightBrace) {
                self.advance();
                return Ok(values);
            } else {
                return Err(self.error_here("expected ',' or '}' in set"));
            }
        }
    }

    /// Complains about an operator that only text fields have.
    fn text_field_error(&self, field: Field, operator: &str) -> (e: FilterParseError)
        requires
            self.wf(),
        ensures
            e@ == (Complaint {
                message: not_a_text_field(field, operator@),
                position: self.rest()[0].position,
            }),
    {
        let mut message = String::new();
        message.append("operator '");
        message.append(operator);
        message.append("' is not valid for '");
        message.append(field.name());
        message.append("'");
        assert(message@ =~= not_a_text_field(field, operator@));
        FilterParseError::new(self.peek().position, message)
    }

    /// The ordered comparison that the current token stands for.
    fn current_ord_op(&self) -> (r: Option<OrdOp>)
        requires
            self.wf(),
        ensures
            r == ord_op(self.rest()[0].kind),
    {
        match self.peek().kind {
            TokenKind::Less => Some(OrdOp::Less),
            TokenKind::LessEqual => Some(OrdOp::LessEqual),
            TokenKind::Greater => Some(OrdOp::Greater),
            TokenKind::GreaterEqual => Some(OrdOp::GreaterEqual),
            _ => None,
        }
    }

    /// Parses an operator and what it takes.
    fn parse_comparison(&mut self, field: Field) -> (r: Result<Comparison, FilterParseError>)
        requires
            old(self).wf(),
        ensures
            final(self).follows(old(self)),
            match r {
                Ok(c) => test_of(field, old(self).rest()) == Parsed::Done(c@, final(self).rest()),
                Err(e) => test_of(field, old(self).rest()) == Parsed::<Test>::Failed(e@),
            },
    {
        if let Some(op) = self.current_ord_op() {
            if !matches!(field, Field::ClientPort) {
                return Err(
                    self.error_about(
                        "ordered comparison is only valid for 'client.port', not '",
                        field.name(),
                        "'",
                    ),
                );
            }
            self.advance();
            return match self.parse_port("expected a port number after the operator") {
                Ok(port) => Ok(Comparison::Ordered(op, port)),
                Err(e) => Err(e),
            };
        }
        let equal = matches!(self.peek().kind, TokenKind::Equal);
        let not_equal = matches!(self.peek().kind, TokenKind::NotEqual);
        let contains = matches!(self.peek().kind, TokenKind::Contains);
        let regex = matches!(self.peek().kind, TokenKind::Matches);
        let member = matches!(self.peek().kind, TokenKind::In);
        if equal || not_equal {
            self.advance();
            match self.parse_value(field) {
                Ok(v) => if equal {
                    Ok(Comparison::Equal(v))
                } else {
                    Ok(Comparison::NotEqual(v))
                },
                Err(e) => Err(e),
            }
        } else if contains {
            if !field.is_text() {
                return Err(self.text_field_error(field, "contains"));
            }
            self.advance();
            match self.parse_string("contains requires a quoted string") {
                Ok(s) => Ok(Comparison::Contains(s)),
                Err(e) => Err(e),
            }
        } else if regex {
            if !field.is_text() {
                return Err(self.text_field_error(field, "matches"));
            }
            self.advance();
            let position: usize = self.peek().position;
            match self.parse_string("matches requires a quoted string") {
                Ok(s) => regex_comparison(build_regex(s.as_str(), true), position),
                Err(e) => Err(e),
            }
        } else if member {
            self.advance();
            match self.parse_set(field) {
                Ok(vs) => Ok(Comparison::In(vs)),
                Err(e) => Err(e),
            }
        } else {
            Err(
                self.error_about(
                    "expected an operator after '",
                    field.name(),
                    "' (==, !=, <, <=, >, >=, contains, matches, or in)",
                ),
            )
        }
    }

    pub fn parse_predicate(&mut self) -> (r: Result<Predicate, FilterParseError>)
        requires
            old(self).wf(),
        ensures
            final(self).follows(old(self)),
            match r {
                Ok(p) => predicate_of(old(self).rest()) == Parsed::Done(
                    Formula::Predicate(p.field, p.comparison@),
                    final(self).rest(),
                ) && final(self).rest().len() < old(self).rest().len(),
                Err(e) => predicate_of(old(self).rest()) == Parsed::<Formula>::Failed(e@),
            },
    {
        let word = match &self.peek().kind {
            TokenKind::Word(w) => Some(w.clone()),
            _ => None,
        };
        let name = match word {
            Some(w) => w,
            None => return Err(self.error_here("expected a filter field")),
        };
        let field = match Field::parse(name.as_str()) {
            Some(f) => f,
            None => return Err(self.error_about("unknown filter field '", name.as_str(), "'")),
        };
        self.advance();
        match self.parse_comparison(field) {
            Ok(comparison) => Ok(Predicate { field, comparison }),
            Err(e) => Err(e),
        }
    }

    fn parse_primary(&mut self) -> (r: Result<Expr, FilterParseError>)
        requires
            old(self).wf(),
        ensures
            final(self).follows(old(self)),
            match r {
                Ok(e) => primary(old(self).rest()) == Parsed::Done(e.formula(), final(self).rest())
                    && final(self).rest().len() < old(self).rest().len(),
                Err(e) => primary(old(self).rest()) == Parsed::<Formula>::Failed(e@),
            },
        decreases old(self).rest().len(), 2nat,
    {
        if matches!(self.peek().kind, TokenKind::LeftParen) {
            self.advance();
            match self.parse_or() {
                Ok(e) => {
                    if matches!(self.peek().kind, TokenKind::RightParen) {
                        self.advance();
                        Ok(e)
                    } else {
                        Err(self.error_here("expected ')'"))
                    }
                },
                Err(e) => Err(e),
            }
        } else {
            match self.parse_predicate() {
                Ok(p) => Ok(Expr::Predicate(p)),
                Err(e) => Err(e),
            }
        }
    }

    fn parse_not(&mut self) -> (r: Result<Expr, FilterParseError>)
        requires
            old(self).wf(),
        ensures
            final(self).follows(old(self)),
            match r {
                Ok(e) => not_expr(old(self).rest()) == Parsed::Done(e.formula(), final(self).rest())
                    && final(self).rest().len() < old(self).rest().len(),
                Err(e) => not_expr(old(self).rest()) == Parsed::<Formula>::Failed(e@),
            },
        decreases old(self).rest().len(), 3nat,
    {
        if matches!(self.peek().kind, TokenKind::Not) {
            self.advance();
            match self.parse_not() {
                Ok(e) => Ok(Expr::Not(Box::new(e))),
                Err(e) => Err(e),
            }
        } else {
            self.parse_primary()
        }
    }

    fn parse_and(&mut self) -> (r: Result<Expr, FilterParseError>)
        requires
            old(self).wf(),
        ensures
            final(self).follows(old(self)),
            match r {
                Ok(e) => and_expr(old(self).rest()) == Parsed::Done(e.formula(), final(self).rest())
                    && final(self).rest().len() < old(self).rest().len(),
                Err(e) => and_expr(old(self).rest()) == Parsed::<Formula>::Failed(e@),
            },
        decreases old(self).rest().len(), 5nat,
    {
        let mut expression = match self.parse_not() {
            Ok(e) => e,
            Err(e) => return Err(e),
        };
        while matches!(self.peek().kind, TokenKind::And)
            invariant
                self.follows(old(self)),
                self.rest().len() < old(self).rest().len(),
                and_more(expression.formula(), self.rest()) == and_expr(old(self).rest()),
            decreases self.rest().len(),
        {
            self.advance();
            match self.parse_not() {
                Ok(right) => {
                    expression = Expr::And(Box::new(expression), Box::new(right));
                },
                Err(e) => {
                    return Err(e);
                },
            }
        }
        Ok(expression)
    }

    fn parse_or(&mut self) -> (r: Result<Expr, FilterParseError>)
        requires
            old(self).wf(),
        ensures
            final(self).follows(old(self)),
            match r {
                Ok(e) => or_expr(old(self).rest()) == Parsed::Done(e.formula(), final(self).rest())
                    && final(self).rest().len() < old(self).rest().len(),
                Err(e) => or_expr(old(self).rest()) == Parsed::<Formula>::Failed(e@),
            },
        decreases old(self).rest().len(), 7nat,
    {
        let mut expression = match self.parse_and() {
            Ok(e) => e,
            Err(e) => return Err(e),
        };
        while matches!(self.peek().kind, TokenKind::Or)
            invariant
                self.follows(old(self)),
                self.rest().len() < old(self).rest().len(),
                or_more(expression.formula(), self.rest()) == or_expr(old(self).rest()),
            decreases self.rest().len(),
        {
            self.advance();
            match self.parse_and() {
                Ok(right) => {
                    expression = Expr::Or(Box::new(expression), Box::new(right));
                },
                Err(e) => {
                    return Err(e);
                },
            }
        }
        Ok(expression)
    }

    /// Parses the whole list of tokens.
    pub fn parse(self) -> (r: Result<Expr, FilterParseError>)
        requires
            self.wf(),
        ensures
            match r {
                Ok(e) => formula_of(self.rest()) == Ok::<Formula, Complaint>(e.formula()),
                Err(e) => formula_of(self.rest()) == Err::<Formula, Complaint>(e@),
            },
    {
        let mut parser = self;
        match parser.parse_or() {
            Ok(e) => {
                if matches!(parser.peek().kind, TokenKind::End) {
                    Ok(e)
                } else {
                    Err(
                        parser.error_here(
                            "expected a boolean operator or end of expression",
                        ),
                    )
                }
            },
            Err(e) => Err(e),
        }
    }
}

/// The comparison that a compiled pattern makes, or the complaint about it.
pub fn regex_comparison(built: Result<Regex, regex::Error>, position: usize) -> (r: Result<
    Comparison,
    FilterParseError,
>)
    ensures
        match r {
            Ok(c) => regex_test(built, position as nat) == Ok::<Test, Complaint>(c@),
            Err(e) => regex_test(built, position as nat) == Err::<Test, Complaint>(e@),
        },
{
    match built {
        Ok(regex) => Ok(Comparison::Matches(regex)),
        Err(e) => {
            let mut message = String::new();
            message.append("invalid regex: ");
            message.append(show_regex_error(&e).as_str());
            assert(message@ =~= "invalid regex: "@ + regex_error_text(e));
            Err(FilterParseError::new(position, message))
        },
    }
}

/// The direction that `value` names, in lower case or by its tag.
pub fn parse_direction(value: &str) -> (r: Option<MessageDirection>)
    ensures
        r == direction_named(value@),
{
    if same_text(value, "f2b") || same_text(value, "F→B") {
        Some(MessageDirection::FrontendToBackend)
    } else if same_text(value, "b2f") || same_text(value, "B→F") {
        Some(MessageDirection::BackendToFrontend)
    } else {
        None
    }
}

// --- filters ------------------------------------------------------------------------------------

/// A parsed display filter. Parsing and regular-expression compilation happen once;
/// evaluating a message performs no allocation.
#[derive(Debug)]
pub struct DisplayFilter {
    expression: String,
    root: Option<Expr>,
}

/// What a [`DisplayFilter`] holds: its expression, and the formula that it writes
/// where it is not empty.
pub struct FilterView {
    pub expression: Seq<char>,
    pub formula: Option<Formula>,
}

impl View for DisplayFilter {
    type V = FilterView;

    closed spec fn view(&self) -> FilterView {
        FilterView {
            expression: self.expression@,
            formula: match self.root {
                Some(e) => Some(e.formula()),
                None => None,
            },
        }
    }
}

impl Clone for DisplayFilter {
    fn clone(&self) -> (r: DisplayFilter)
        ensures
            r@ == self@,
    {
        DisplayFilter {
            expression: self.expression.clone(),
            root: match &self.root {
                Some(e) => Some(e.clone()),
                None => None,
            },
        }
    }
}

/// The filter that lets everything through.
pub open spec fn no_filter() -> FilterView {
    FilterView { expression: Seq::empty(), formula: None }
}

/// The filter that an expression writes.
pub open spec fn filter_of(expression: Seq<char>) -> Result<FilterView, Complaint> {
    let trimmed = trim(expression);
    if trimmed.len() == 0 {
        Ok(no_filter())
    } else {
        match tokens_of(trimmed) {
            Ok(t) => match formula_of(t) {
                Ok(f) => Ok(FilterView { expression: trimmed, formula: Some(f) }),
                Err(c) => Err(c),
            },
            Err(c) => Err(c),
        }
    }
}

/// Whether a filter lets a message through.
pub open spec fn lets_through(f: FilterView, m: MessageView) -> bool {
    match f.formula {
        Some(e) => holds(e, m),
        None => true,
    }
}

impl Default for DisplayFilter {
    fn default() -> (f: DisplayFilter)
        ensures
            f@ == no_filter(),
    {
        let f = DisplayFilter { expression: String::new(), root: None };
        assert(f@.expression =~= Seq::<char>::empty());
        f
    }
}

impl DisplayFilter {
    /// Parses a filter expression; a blank one is the filter that lets everything
    /// through.
    pub fn parse(expression: &str) -> (r: Result<DisplayFilter, FilterParseError>)
        ensures
            match r {
                Ok(f) => filter_of(expression@) == Ok::<FilterView, Complaint>(f@),
                Err(e) => filter_of(expression@) == Err::<FilterView, Complaint>(e@),
            },
    {
        let text = trimmed(expression);
        if text.as_str().is_empty() {
            return Ok(DisplayFilter::default());
        }
        let tokens = match lex(text.as_str()) {
            Ok(t) => t,
            Err(e) => return Err(e),
        };
        proof {
            tokens_end(text@, 0);
            assert(lexemes(tokens@).len() == tokens@.len());
            assert(lexemes(tokens@).last() == tokens@.last()@);
            assert forall|i: int| 0 <= i < tokens@.len() - 1 implies !((
            #[trigger] tokens@[i]).kind is End) by {
                assert(lexemes(tokens@)[i] == tokens@[i]@);
            }
        }
        match Parser::new(tokens).parse() {
            Ok(root) => Ok(DisplayFilter { expression: text, root: Some(root) }),
            Err(e) => Err(e),
        }
    }

    /// The expression, without white space round it.
    pub fn expression(&self) -> (s: &str)
        ensures
            s@ == self@.expression,
    {
        self.expression.as_str()
    }

    /// Whether the filter lets everything through because it has no expression.
    pub fn is_empty(&self) -> (b: bool)
        ensures
            b == (self@.formula is None),
    {
        self.root.is_none()
    }

    pub fn matches(&self, message: &DisplayMessage) -> (b: bool)
        ensures
            b == lets_through(self@, message@),
    {
        match &self.root {
            Some(expression) => expression.matches(message),
            None => true,
        }
    }
}

// --- laws -----------------------------------------------------------------------------------------

/// A blank expression is the filter that lets every message through.
pub proof fn blank_lets_everything_through(expression: Seq<char>, m: MessageView)
    requires
        trim(expression).len() == 0,
    ensures
        filter_of(expression) == Ok::<FilterView, Complaint>(no_filter()),
        lets_through(no_filter(), m),
{
}

/// Parsing the expression that a filter shows gives the same filter again.
pub proof fn shown_expression_parses_back(expression: Seq<char>)
    ensures
        filter_of(expression) matches Ok(f) ==> filter_of(f.expression) == Ok::<
            FilterView,
            Complaint,
        >(f),
{
    crate::text::trim_is_idempotent(expression);
    crate::text::trim_is_idempotent(Seq::<char>::empty());
}

/// Some tokens that read as one operand, whatever follows them.
pub open spec fn operand(p: Seq<Lexeme>, e: Formula) -> bool {
    forall|rest: Seq<Lexeme>|
        rest.len() > 0 ==> #[trigger] not_expr(p + rest) == Parsed::Done(e, rest)
}

/// Some tokens that read as one expression up to a closing parenthesis.
pub open spec fn enclosed(p: Seq<Lexeme>, e: Formula) -> bool {
    forall|rest: Seq<Lexeme>|
        rest.len() > 0 && rest[0].kind is RightParen ==> #[trigger] or_expr(p + rest)
            == Parsed::Done(e, rest)
}

/// Whether neither `and` nor `or` follows.
pub open spec fn no_operator_follows(rest: Seq<Lexeme>) -> bool {
    rest.len() > 0 && !(rest[0].kind is And) && !(rest[0].kind is Or)
}

/// `a or b and c` reads as `a or (b and c)`: a conjunction binds tighter than a
/// disjunction.
pub proof fn and_binds_tighter_on_the_right(
    a: Seq<Lexeme>,
    or: Lexeme,
    b: Seq<Lexeme>,
    and: Lexeme,
    c: Seq<Lexeme>,
    rest: Seq<Lexeme>,
    x: Formula,
    y: Formula,
    z: Formula,
)
    requires
        operand(a, x),
        operand(b, y),
        operand(c, z),
        or.kind is Or,
        and.kind is And,
        no_operator_follows(rest),
    ensures
        or_expr(a + (seq![or] + (b + (seq![and] + (c + rest))))) == Parsed::Done(
            Formula::Or(Box::new(x), Box::new(Formula::And(Box::new(y), Box::new(z)))),
            rest,
        ),
{
    let t3 = c + rest;
    let t2 = seq![and] + t3;
    let t1 = b + t2;
    let t0 = seq![or] + t1;
    let t = a + t0;
    let yz = Formula::And(Box::new(y), Box::new(z));
    assert(t2.skip(1) =~= t3);
    assert(t0.skip(1) =~= t1);
    assert(not_expr(t) == Parsed::Done(x, t0));
    assert(not_expr(t1) == Parsed::Done(y, t2));
    assert(not_expr(t3) == Parsed::Done(z, rest));
    assert(and_more(x, t0) == Parsed::Done(x, t0));
    assert(and_expr(t) == Parsed::Done(x, t0));
    assert(and_more(yz, rest) == Parsed::Done(yz, rest));
    assert(and_more(y, t2) == Parsed::Done(yz, rest));
    assert(and_expr(t1) == Parsed::Done(yz, rest));
    let whole = Formula::Or(Box::new(x), Box::new(yz));
    assert(or_more(whole, rest) == Parsed::Done(whole, rest));
    assert(or_more(x, t0) == Parsed::Done(whole, rest));
}

/// `a and b or c` reads as `(a and b) or c`.
pub proof fn and_binds_tighter_on_the_left(
    a: Seq<Lexeme>,
    and: Lexeme,
    b: Seq<Lexeme>,
    or: Lexeme,
    c: Seq<Lexeme>,
    rest: Seq<Lexeme>,
    x: Formula,
    y: Formula,
    z: Formula,
)
    requires
        operand(a, x),
        operand(b, y),
        operand(c, z),
        or.kind is Or,
        and.kind is And,
        no_operator_follows(rest),
    ensures
        or_expr(a + (seq![and] + (b + (seq![or] + (c + rest))))) == Parsed::Done(
            Formula::Or(Box::new(Formula::And(Box::new(x), Box::new(y))), Box::new(z)),
            rest,
        ),
{
    let t3 = c + rest;
    let t2 = seq![or] + t3;
    let t1 = b + t2;
    let t0 = seq![and] + t1;
    let t = a + t0;
    let xy = Formula::And(Box::new(x), Box::new(y));
    assert(t2.skip(1) =~= t3);
    assert(t0.skip(1) =~= t1);
    assert(not_expr(t) == Parsed::Done(x, t0));
    assert(not_expr(t1) == Parsed::Done(y, t2));
    assert(not_expr(t3) == Parsed::Done(z, rest));
    assert(and_more(xy, t2) == Parsed::Done(xy, t2));
    assert(and_more(x, t0) == Parsed::Done(xy, t2));
    assert(and_expr(t) == Parsed::Done(xy, t2));
    assert(and_more(z, rest) == Parsed::Done(z, rest));
    assert(and_expr(t3) == Parsed::Done(z, rest));
    let whole = Formula::Or(Box::new(xy), Box::new(z));
    assert(or_more(whole, rest) == Parsed::Done(whole, rest));
    assert(or_more(xy, t2) == Parsed::Done(whole, rest));
}

/// `not a` is an operand like `a`: a negation binds tighter than a conjunction.
pub proof fn negation_is_an_operand(not: Lexeme, a: Seq<Lexeme>, x: Formula)
    requires
        operand(a, x),
        not.kind is Not,
    ensures
        operand(seq![not] + a, Formula::Not(Box::new(x))),
{
    assert forall|rest: Seq<Lexeme>| rest.len() > 0 implies #[trigger] not_expr(
        (seq![not] + a) + rest,
    ) == Parsed::Done(Formula::Not(Box::new(x)), rest) by {
        let t = (seq![not] + a) + rest;
        assert(t.skip(1) =~= a + rest);
        assert(not_expr(a + rest) == Parsed::Done(x, rest));
        assert(t[0] == not);
    }
}

/// An expression in parentheses is an operand, whatever operators it holds.
pub proof fn parentheses_make_an_operand(
    open: Lexeme,
    p: Seq<Lexeme>,
    close: Lexeme,
    x: Formula,
)
    requires
        enclosed(p, x),
        open.kind is LeftParen,
        close.kind is RightParen,
    ensures
        operand(seq![open] + p + seq![close], x),
{
    assert forall|rest: Seq<Lexeme>| rest.len() > 0 implies #[trigger] not_expr(
        (seq![open] + p + seq![close]) + rest,
    ) == Parsed::Done(x, rest) by {
        let t = (seq![open] + p + seq![close]) + rest;
        let inner = seq![close] + rest;
        assert(t.skip(1) =~= p + inner);
        assert(or_expr(p + inner) == Parsed::Done(x, inner));
        assert(inner.skip(1) =~= rest);
        assert(primary(t) == Parsed::Done(x, rest));
    }
}

} // verus!
