//! The tokens of a display filter expression.
use crate::text::{
    byte_index, byte_offsets, char_is_space, chars_of, eq_ascii_nocase, is_space, spells, string_of,
};
use vstd::prelude::*;

verus! {

/// What a token is. `T` is the text of the tokens that carry one.
#[derive(Clone, Debug)]
pub enum TokenKind<T> {
    /// A bare word: a field name, a port number or an IP address.
    Word(T),
    /// A quoted string, without its quotes and escapes.
    Text(T),
    Equal,
    NotEqual,
    Less,
    LessEqual,
    Greater,
    GreaterEqual,
    Contains,
    Matches,
    In,
    And,
    Or,
    Not,
    LeftParen,
    RightParen,
    LeftBrace,
    RightBrace,
    Comma,
    End,
}

/// A token and the byte at which it begins.
#[derive(Clone, Debug)]
pub struct Token {
    pub kind: TokenKind<String>,
    pub position: usize,
}

/// What a [`Token`] holds.
pub struct Lexeme {
    pub kind: TokenKind<Seq<char>>,
    pub position: nat,
}

impl View for TokenKind<String> {
    type V = TokenKind<Seq<char>>;

    open spec fn view(&self) -> TokenKind<Seq<char>> {
        match *self {
            TokenKind::Word(w) => TokenKind::Word(w@),
            TokenKind::Text(t) => TokenKind::Text(t@),
            TokenKind::Equal => TokenKind::Equal,
            TokenKind::NotEqual => TokenKind::NotEqual,
            TokenKind::Less => TokenKind::Less,
            TokenKind::LessEqual => TokenKind::LessEqual,
            TokenKind::Greater => TokenKind::Greater,
            TokenKind::GreaterEqual => TokenKind::GreaterEqual,
            TokenKind::Contains => TokenKind::Contains,
            TokenKind::Matches => TokenKind::Matches,
            TokenKind::In => TokenKind::In,
            TokenKind::And => TokenKind::And,
            TokenKind::Or => TokenKind::Or,
            TokenKind::Not => TokenKind::Not,
            TokenKind::LeftParen => TokenKind::LeftParen,
            TokenKind::RightParen => TokenKind::RightParen,
            TokenKind::LeftBrace => TokenKind::LeftBrace,
            TokenKind::RightBrace => TokenKind::RightBrace,
            TokenKind::Comma => TokenKind::Comma,
            TokenKind::End => TokenKind::End,
        }
    }
}

impl View for Token {
    type V = Lexeme;

    open spec fn view(&self) -> Lexeme {
        Lexeme { kind: self.kind@, position: self.position as nat }
    }
}

/// The lexemes of a list of tokens.
pub open spec fn lexemes(v: Seq<Token>) -> Seq<Lexeme> {
    v.map_values(|t: Token| t@)
}

/// Why an expression is no filter, and the byte at which that shows.
#[derive(Clone, Debug, PartialEq, Eq)]
pub struct FilterParseError {
    pub message: String,
    pub position: usize,
}

/// What a [`FilterParseError`] holds.
pub struct Complaint {
    pub message: Seq<char>,
    pub position: nat,
}

impl View for FilterParseError {
    type V = Complaint;

    open spec fn view(&self) -> Complaint {
        Complaint { message: self.message@, position: self.position as nat }
    }
}

impl FilterParseError {
    pub fn new(position: usize, message: String) -> (e: FilterParseError)
        ensures
            e@ == (Complaint { message: message@, position: position as nat }),
    {
        FilterParseError { message, position }
    }

    /// The error as it is shown: what is wrong and at which byte.
    pub fn to_text(&self) -> (s: String)
        ensures
            s@ == self@.message + " at byte "@ + crate::text::dec(self@.position),
    {
        let mut s = String::new();
        s.append(self.message.as_str());
        s.append(" at byte ");
        crate::text::push_dec(&mut s, self.position as u64);
        assert(s@ =~= self@.message + " at byte "@ + crate::text::dec(self@.position));
        s
    }
}

// --- what the characters mean -----------------------------------------------------

/// A token and the index of the character behind it, or why there is none.
pub type Scanned = Result<(TokenKind<Seq<char>>, nat), Complaint>;

/// Whether the two characters `a` and `b` stand at `i`.
pub open spec fn pair_at(s: Seq<char>, i: int, a: char, b: char) -> bool {
    i + 1 < s.len() && s[i] == a && s[i + 1] == b
}

/// The characters that end a bare word.
pub open spec fn ends_word(c: char) -> bool {
    is_space(c) || c == '(' || c == ')' || c == '{' || c == '}' || c == ',' || c == '=' || c == '!'
        || c == '&' || c == '|' || c == '<' || c == '>' || c == '"'
}

/// Where the bare word that runs through `i` ends.
pub open spec fn word_end(s: Seq<char>, i: nat) -> nat
    decreases s.len() - i,
{
    if i >= s.len() || ends_word(s[i as int]) {
        i
    } else {
        word_end(s, i + 1)
    }
}

/// What a bare word is: an operator by name, in either case, or a plain word.
pub open spec fn word_kind(w: Seq<char>) -> TokenKind<Seq<char>> {
    if eq_ascii_nocase(w, "and"@) {
        TokenKind::And
    } else if eq_ascii_nocase(w, "or"@) {
        TokenKind::Or
    } else if eq_ascii_nocase(w, "not"@) {
        TokenKind::Not
    } else if eq_ascii_nocase(w, "contains"@) {
        TokenKind::Contains
    } else if eq_ascii_nocase(w, "matches"@) {
        TokenKind::Matches
    } else if eq_ascii_nocase(w, "in"@) {
        TokenKind::In
    } else {
        TokenKind::Word(w)
    }
}

/// What an escaped character stands for.
pub open spec fn unescaped(c: char) -> Option<char> {
    if c == '"' || c == '\\' {
        Some(c)
    } else if c == 'n' {
        Some('\n')
    } else if c == 'r' {
        Some('\r')
    } else if c == 't' {
        Some('\t')
    } else {
        None
    }
}

/// The rest of a string literal that begins at `start`, from character `j` on, with
/// `value` read so far. In a raw literal a backslash is a character like any other.
pub open spec fn string_from(s: Seq<char>, start: nat, j: nat, raw: bool, value: Seq<char>) -> Scanned
    decreases s.len() - j,
{
    if j >= s.len() {
        Err(
            Complaint {
                message: "unterminated string literal"@,
                position: byte_index(s, start as int),
            },
        )
    } else if s[j as int] == '"' {
        Ok((TokenKind::Text(value), j + 1))
    } else if s[j as int] != '\\' || raw {
        string_from(s, start, j + 1, raw, value.push(s[j as int]))
    } else if j + 1 >= s.len() {
        Err(
            Complaint {
                message: "unterminated string literal"@,
                position: byte_index(s, start as int),
            },
        )
    } else {
        match unescaped(s[j as int + 1]) {
            Some(c) => string_from(s, start, j + 2, raw, value.push(c)),
            None => Err(
                Complaint {
                    message: "unsupported escape '\\"@ + seq![s[j as int + 1]]
                        + "' (use a raw string for regexes)"@,
                    position: byte_index(s, j as int),
                },
            ),
        }
    }
}

/// The punctuation mark that stands at `i`, with the index behind it.
pub open spec fn mark_at(s: Seq<char>, i: nat) -> Option<(TokenKind<Seq<char>>, nat)> {
    let c = s[i as int];
    let at = i as int;
    if c == '(' {
        Some((TokenKind::LeftParen, i + 1))
    } else if c == ')' {
        Some((TokenKind::RightParen, i + 1))
    } else if c == '{' {
        Some((TokenKind::LeftBrace, i + 1))
    } else if c == '}' {
        Some((TokenKind::RightBrace, i + 1))
    } else if c == ',' {
        Some((TokenKind::Comma, i + 1))
    } else if pair_at(s, at, '=', '=') {
        Some((TokenKind::Equal, i + 2))
    } else if pair_at(s, at, '!', '=') {
        Some((TokenKind::NotEqual, i + 2))
    } else if pair_at(s, at, '<', '=') {
        Some((TokenKind::LessEqual, i + 2))
    } else if pair_at(s, at, '>', '=') {
        Some((TokenKind::GreaterEqual, i + 2))
    } else if c == '<' {
        Some((TokenKind::Less, i + 1))
    } else if c == '>' {
        Some((TokenKind::Greater, i + 1))
    } else if pair_at(s, at, '&', '&') {
        Some((TokenKind::And, i + 2))
    } else if pair_at(s, at, '|', '|') {
        Some((TokenKind::Or, i + 2))
    } else if c == '!' {
        Some((TokenKind::Not, i + 1))
    } else {
        None
    }
}

/// The token that begins at the character `i`, which is no white space.
pub open spec fn token_at(s: Seq<char>, i: nat) -> Scanned {
    let c = s[i as int];
    match mark_at(s, i) {
        Some(mark) => Ok(mark),
        None => if c == '=' || c == '&' || c == '|' {
            Err(
                Complaint {
                    message: "unexpected operator '"@ + seq![c] + "'"@,
                    position: byte_index(s, i as int),
                },
            )
        } else if c == '"' {
            string_from(s, i, i + 1, false, Seq::empty())
        } else if pair_at(s, i as int, 'r', '"') {
            string_from(s, i, i + 2, true, Seq::empty())
        } else {
            let end = word_end(s, i);
            Ok((word_kind(s.subrange(i as int, end as int)), end))
        },
    }
}

/// The tokens from the character `i` on, closed by an end token.
pub open spec fn tokens_from(s: Seq<char>, i: nat) -> Result<Seq<Lexeme>, Complaint>
    decreases s.len() - i,
{
    if i >= s.len() {
        Ok(seq![Lexeme { kind: TokenKind::End, position: byte_index(s, s.len() as int) }])
    } else if is_space(s[i as int]) {
        tokens_from(s, i + 1)
    } else {
        match token_at(s, i) {
            Ok((kind, next)) => if i < next <= s.len() {
                after(
                    seq![Lexeme { kind, position: byte_index(s, i as int) }],
                    tokens_from(s, next),
                )
            } else {
                Ok(Seq::empty())
            },
            Err(e) => Err(e),
        }
    }
}

/// The tokens `done` and then those of `rest`.
pub open spec fn after(done: Seq<Lexeme>, rest: Result<Seq<Lexeme>, Complaint>) -> Result<
    Seq<Lexeme>,
    Complaint,
> {
    match rest {
        Ok(more) => Ok(done + more),
        Err(e) => Err(e),
    }
}

/// The tokens of an expression.
pub open spec fn tokens_of(s: Seq<char>) -> Result<Seq<Lexeme>, Complaint> {
    tokens_from(s, 0)
}

// --- properties ---------------------------------------------------------------------

proof fn lemma_word_end(s: Seq<char>, i: nat)
    requires
        i <= s.len(),
    ensures
        i <= word_end(s, i) <= s.len(),
    decreases s.len() - i,
{
    if i < s.len() && !ends_word(s[i as int]) {
        lemma_word_end(s, i + 1);
    }
}

proof fn lemma_string_advances(s: Seq<char>, start: nat, j: nat, raw: bool, value: Seq<char>)
    ensures
        string_from(s, start, j, raw, value) matches Ok((kind, next)) ==> j < next <= s.len()
            && kind is Text,
    decreases s.len() - j,
{
    if j < s.len() && s[j as int] != '"' {
        if s[j as int] != '\\' || raw {
            lemma_string_advances(s, start, j + 1, raw, value.push(s[j as int]));
        } else if j + 1 < s.len() {
            if let Some(c) = unescaped(s[j as int + 1]) {
                lemma_string_advances(s, start, j + 2, raw, value.push(c));
            }
        }
    }
}

/// A token takes at least one character, and none but the last is an end token.
pub proof fn token_advances(s: Seq<char>, i: nat)
    requires
        i < s.len(),
        !is_space(s[i as int]),
    ensures
        token_at(s, i) matches Ok((kind, next)) ==> i < next <= s.len() && !(kind is End),
{
    lemma_word_end(s, i);
    if i < s.len() {
        lemma_word_end(s, i + 1);
    }
    lemma_string_advances(s, i, i + 1, false, Seq::empty());
    lemma_string_advances(s, i, i + 2, true, Seq::empty());
}

/// The tokens of an expression end in the only end token.
pub proof fn tokens_end(s: Seq<char>, i: nat)
    requires
        i <= s.len(),
    ensures
        tokens_from(s, i) matches Ok(t) ==> t.len() > 0 && t.last().kind is End && forall|k: int|
            0 <= k < t.len() - 1 ==> !((#[trigger] t[k]).kind is End),
    decreases s.len() - i,
{
    if i < s.len() {
        if is_space(s[i as int]) {
            tokens_end(s, i + 1);
        } else {
            token_advances(s, i);
            if let Ok((kind, next)) = token_at(s, i) {
                tokens_end(s, next);
                if let Ok(rest) = tokens_from(s, next) {
                    let all = seq![Lexeme { kind, position: byte_index(s, i as int) }] + rest;
                    assert(all.last() == rest.last());
                    assert forall|k: int| 0 <= k < all.len() - 1 implies !((
                    #[trigger] all[k]).kind is End) by {
                        if k > 0 {
                            assert(all[k] == rest[k - 1]);
                        }
                    }
                }
            }
        }
    }
}

// --- the lexer -------------------------------------------------------------------------

/// The characters of an expression, with the byte at which each begins.
pub struct Source {
    pub chars: Vec<char>,
    pub offsets: Vec<usize>,
}

impl Source {
    pub open spec fn wf(&self) -> bool {
        &&& self.offsets@.len() == self.chars@.len() + 1
        &&& forall|i: int|
            0 <= i <= self.chars@.len() ==> #[trigger] self.offsets@[i] == byte_index(
                self.chars@,
                i,
            )
    }

    fn new(input: &str) -> (s: Source)
        ensures
            s.wf(),
            s.chars@ == input@,
    {
        let chars = chars_of(input);
        let offsets = byte_offsets(input, &chars);
        Source { chars, offsets }
    }
}

/// What a scan of one token hands back.
pub open spec fn scans_as(r: Result<(TokenKind<String>, usize), FilterParseError>, s: Scanned) -> bool {
    match r {
        Ok((kind, next)) => s == Ok::<(TokenKind<Seq<char>>, nat), Complaint>((kind@, next as nat)),
        Err(e) => s == Err::<(TokenKind<Seq<char>>, nat), Complaint>(e@),
    }
}

/// Reads the string literal at `start`.
pub fn lex_string(src: &Source, start: usize, raw: bool) -> (r: Result<
    (TokenKind<String>, usize),
    FilterParseError,
>)
    requires
        src.wf(),
        start + (if raw {
            2int
        } else {
            1
        }) <= src.chars@.len(),
    ensures
        scans_as(
            r,
            string_from(
                src.chars@,
                start as nat,
                (start + if raw {
                    2int
                } else {
                    1
                }) as nat,
                raw,
                Seq::empty(),
            ),
        ),
{
    let ghost s = src.chars@;
    let len: usize = src.chars.len();
    let first: usize = if raw {
        start + 2
    } else {
        start + 1
    };
    let ghost whole = string_from(s, start as nat, first as nat, raw, Seq::empty());
    let mut j: usize = first;
    let mut value = String::new();
    while j < src.chars.len()
        invariant
            src.wf(),
            s == src.chars@,
            start < s.len(),
            j <= s.len(),
            first == start + (if raw {
                2int
            } else {
                1
            }),
            whole == string_from(s, start as nat, first as nat, raw, Seq::empty()),
            string_from(s, start as nat, j as nat, raw, value@) == whole,
        decreases s.len() - j,
    {
        let c = src.chars[j];
        if c == '"' {
            return Ok((TokenKind::Text(value), j + 1));
        }
        if c != '\\' || raw {
            value.push(c);
            j = j + 1;
        } else {
            if j + 1 == src.chars.len() {
                return Err(
                    FilterParseError::new(
                        src.offsets[start],
                        "unterminated string literal".to_owned(),
                    ),
                );
            }
            let escaped = src.chars[j + 1];
            if escaped == '"' || escaped == '\\' {
                value.push(escaped);
            } else if escaped == 'n' {
                value.push('\n');
            } else if escaped == 'r' {
                value.push('\r');
            } else if escaped == 't' {
                value.push('\t');
            } else {
                let mut message = String::new();
                message.append("unsupported escape '\\");
                message.push(escaped);
                message.append("' (use a raw string for regexes)");
                assert(message@ =~= "unsupported escape '\\"@ + seq![escaped]
                    + "' (use a raw string for regexes)"@);
                return Err(FilterParseError::new(src.offsets[j], message));
            }
            j = j + 2;
        }
    }
    Err(FilterParseError::new(src.offsets[start], "unterminated string literal".to_owned()))
}

/// Reads the bare word at `start`.
fn lex_word(src: &Source, start: usize) -> (r: (TokenKind<String>, usize))
    requires
        start < src.chars@.len(),
    ensures
        r.1 == word_end(src.chars@, start as nat),
        r.1 <= src.chars@.len(),
        r.0@ == word_kind(src.chars@.subrange(start as int, r.1 as int)),
{
    let v = &src.chars;
    let mut end: usize = start;
    let mut open = true;
    while open && end < v.len()
        invariant
            start <= end <= v@.len(),
            v@ == src.chars@,
            word_end(v@, start as nat) == word_end(v@, end as nat),
            !open ==> end < v@.len() && ends_word(v@[end as int]),
        decreases v@.len() - end + (if open {
            1int
        } else {
            0
        }),
    {
        let c = v[end];
        if char_is_space(c) || c == '(' || c == ')' || c == '{' || c == '}' || c == ',' || c == '='
            || c == '!' || c == '&' || c == '|' || c == '<' || c == '>' || c == '"' {
            open = false;
        } else {
            end = end + 1;
        }
    }
    let kind = if spells(v, start, end, "and") {
        TokenKind::And
    } else if spells(v, start, end, "or") {
        TokenKind::Or
    } else if spells(v, start, end, "not") {
        TokenKind::Not
    } else if spells(v, start, end, "contains") {
        TokenKind::Contains
    } else if spells(v, start, end, "matches") {
        TokenKind::Matches
    } else if spells(v, start, end, "in") {
        TokenKind::In
    } else {
        TokenKind::Word(string_of(v, start, end))
    };
    (kind, end)
}

/// Reads the punctuation mark at `i`.
fn lex_mark(src: &Source, i: usize) -> (r: Option<(TokenKind<String>, usize)>)
    requires
        i < src.chars@.len(),
    ensures
        match r {
            Some((kind, next)) => mark_at(src.chars@, i as nat) == Some((kind@, next as nat)),
            None => mark_at(src.chars@, i as nat) is None,
        },
{
    let c = src.chars[i];
    let len: usize = src.chars.len();
    let next: char = if i + 1 < len {
        src.chars[i + 1]
    } else {
        ' '
    };
    if c == '(' {
        Some((TokenKind::LeftParen, i + 1))
    } else if c == ')' {
        Some((TokenKind::RightParen, i + 1))
    } else if c == '{' {
        Some((TokenKind::LeftBrace, i + 1))
    } else if c == '}' {
        Some((TokenKind::RightBrace, i + 1))
    } else if c == ',' {
        Some((TokenKind::Comma, i + 1))
    } else if c == '=' && next == '=' {
        Some((TokenKind::Equal, i + 2))
    } else if c == '!' && next == '=' {
        Some((TokenKind::NotEqual, i + 2))
    } else if c == '<' && next == '=' {
        Some((TokenKind::LessEqual, i + 2))
    } else if c == '>' && next == '=' {
        Some((TokenKind::GreaterEqual, i + 2))
    } else if c == '<' {
        Some((TokenKind::Less, i + 1))
    } else if c == '>' {
        Some((TokenKind::Greater, i + 1))
    } else if c == '&' && next == '&' {
        Some((TokenKind::And, i + 2))
    } else if c == '|' && next == '|' {
        Some((TokenKind::Or, i + 2))
    } else if c == '!' {
        Some((TokenKind::Not, i + 1))
    } else {
        None
    }
}

/// Reads the token at `i`.
fn lex_token(src: &Source, i: usize) -> (r: Result<(TokenKind<String>, usize), FilterParseError>)
    requires
        src.wf(),
        i < src.chars@.len(),
    ensures
        scans_as(r, token_at(src.chars@, i as nat)),
{
    if let Some(mark) = lex_mark(src, i) {
        return Ok(mark);
    }
    let c = src.chars[i];
    let len: usize = src.chars.len();
    if c == '=' || c == '&' || c == '|' {
        let mut message = String::new();
        message.append("unexpected operator '");
        message.push(c);
        message.append("'");
        assert(message@ =~= "unexpected operator '"@ + seq![c] + "'"@);
        return Err(FilterParseError::new(src.offsets[i], message));
    }
    if c == '"' {
        return lex_string(src, i, false);
    }
    if c == 'r' && i + 1 < len && src.chars[i + 1] == '"' {
        return lex_string(src, i, true);
    }
    Ok(lex_word(src, i))
}

/// Splits an expression into tokens.
pub fn lex(input: &str) -> (r: Result<Vec<Token>, FilterParseError>)
    ensures
        match r {
            Ok(t) => tokens_of(input@) == Ok::<Seq<Lexeme>, Complaint>(lexemes(t@)),
            Err(e) => tokens_of(input@) == Err::<Seq<Lexeme>, Complaint>(e@),
        },
{
    let src = Source::new(input);
    let ghost s = src.chars@;
    let mut tokens: Vec<Token> = Vec::new();
    let mut i: usize = 0;
    assert(lexemes(tokens@) =~= Seq::<Lexeme>::empty());
    proof {
        if let Ok(t) = tokens_from(s, 0) {
            assert(Seq::<Lexeme>::empty() + t =~= t);
        }
    }
    while i < src.chars.len()
        invariant
            src.wf(),
            s == src.chars@,
            s == input@,
            i <= s.len(),
            after(lexemes(tokens@), tokens_from(s, i as nat)) == tokens_of(s),
        decreases s.len() - i,
    {
        if char_is_space(src.chars[i]) {
            i = i + 1;
        } else {
            proof {
                token_advances(s, i as nat);
            }
            match lex_token(&src, i) {
                Ok((kind, next)) => {
                    let ghost before = lexemes(tokens@);
                    let token = Token { kind, position: src.offsets[i] };
                    tokens.push(token);
                    proof {
                        assert(lexemes(tokens@) =~= before.push(token@));
                        if let Ok(rest) = tokens_from(s, next as nat) {
                            assert(before + (seq![token@] + rest) =~= before.push(token@) + rest);
                        }
                    }
                    i = next;
                },
                Err(e) => {
                    return Err(e);
                },
            }
        }
    }
    let ghost before = lexemes(tokens@);
    let end = Token { kind: TokenKind::End, position: src.offsets[src.chars.len()] };
    tokens.push(end);
    assert(lexemes(tokens@) =~= before + seq![end@]);
    Ok(tokens)
}

} // verus!
