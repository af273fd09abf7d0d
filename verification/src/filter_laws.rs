//! What display filters mean, stated over their texts: precedence, sets and negation.
use crate::filter::{
    and_expr, and_more, behind, field_equals, field_name, field_named, filter_of, holds,
    lets_through, literal, negation_is_an_operand, not_expr, one_of, operand, or_expr, or_more,
    parentheses_make_an_operand, passes, predicate_of, primary, set_from, set_literal, test_of,
    Field, FilterView, Formula, Literal, MessageView, Parsed, Test,
};
use crate::lexer::{
    ends_word, mark_at, pair_at, string_from, token_advances, token_at, tokens_end, tokens_from,
    tokens_of, unescaped, word_end, word_kind, Complaint, Lexeme, TokenKind,
};
use crate::text::{
    ascii_lower, byte_index, dec, eq_ascii_nocase, is_space, trim, trim_end, trim_start,
};
use vstd::prelude::*;

verus! {

// --- lexing without positions ----------------------------------------------------------------

/// What the tokens from the character `i` on are, without the end; `None` where the text
/// does not lex.
pub open spec fn lexed(s: Seq<char>, i: nat) -> Option<Seq<TokenKind<Seq<char>>>>
    decreases s.len() - i,
{
    if i >= s.len() {
        Some(Seq::empty())
    } else if is_space(s[i as int]) {
        lexed(s, i + 1)
    } else {
        match token_at(s, i) {
            Ok((kind, next)) => if i < next <= s.len() {
                prepended(seq![kind], lexed(s, next))
            } else {
                None
            },
            Err(_) => None,
        }
    }
}

/// Some tokens and then others, where those lex.
pub open spec fn prepended(
    first: Seq<TokenKind<Seq<char>>>,
    rest: Option<Seq<TokenKind<Seq<char>>>>,
) -> Option<Seq<TokenKind<Seq<char>>>> {
    match rest {
        Some(more) => Some(first + more),
        None => None,
    }
}

/// What some tokens are.
pub open spec fn kinds(t: Seq<Lexeme>) -> Seq<TokenKind<Seq<char>>> {
    t.map_values(|l: Lexeme| l.kind)
}

/// The tokens of a text are what it lexes to, and then the end.
proof fn lemma_lexed(s: Seq<char>, i: nat)
    requires
        i <= s.len(),
    ensures
        match lexed(s, i) {
            Some(ks) => tokens_from(s, i) matches Ok(t) && kinds(t) == ks.push(TokenKind::End),
            None => tokens_from(s, i) is Err,
        },
    decreases s.len() - i,
{
    if i >= s.len() {
        let end = Lexeme { kind: TokenKind::End, position: byte_index(s, s.len() as int) };
        assert(kinds(seq![end]) =~= Seq::<TokenKind<Seq<char>>>::empty().push(TokenKind::End));
    } else if is_space(s[i as int]) {
        lemma_lexed(s, i + 1);
    } else {
        token_advances(s, i);
        if let Ok((kind, next)) = token_at(s, i) {
            lemma_lexed(s, next);
            if let Some(more) = lexed(s, next) {
                let first = Lexeme { kind, position: byte_index(s, i as int) };
                let t = tokens_from(s, next)->Ok_0;
                assert(kinds(seq![first] + t) =~= seq![kind] + kinds(t));
                assert(seq![kind] + more.push(TokenKind::End) =~= (seq![kind] + more).push(
                    TokenKind::End,
                ));
            }
        }
    }
}

/// The characters that end any token but a string.
pub open spec fn separates(c: char) -> bool {
    is_space(c) || c == ')' || c == '}' || c == ','
}

/// Whether what follows a text is apart from it.
pub open spec fn apart(t: Seq<char>) -> bool {
    t.len() > 0 ==> separates(t[0])
}

proof fn lemma_word_end_apart(s: Seq<char>, t: Seq<char>, i: nat)
    requires
        apart(t),
        i <= s.len(),
    ensures
        word_end(s + t, i) == word_end(s, i),
        word_end(s, i) <= s.len(),
        (s + t).subrange(i as int, word_end(s, i) as int) == s.subrange(
            i as int,
            word_end(s, i) as int,
        ),
        word_end(s, i) >= i,
    decreases s.len() - i,
{
    let u = s + t;
    if i < s.len() && !ends_word(s[i as int]) {
        assert(u[i as int] == s[i as int]);
        lemma_word_end_apart(s, t, i + 1);
        assert(u.subrange(i as int, word_end(s, i) as int) =~= s.subrange(
            i as int,
            word_end(s, i) as int,
        ));
    } else {
        if i < s.len() {
            assert(u[i as int] == s[i as int]);
        } else if t.len() > 0 {
            assert(u[i as int] == t[0]);
        }
        assert(u.subrange(i as int, i as int) =~= s.subrange(i as int, i as int));
    }
}

proof fn lemma_string_apart(
    s: Seq<char>,
    t: Seq<char>,
    start: nat,
    j: nat,
    raw: bool,
    value: Seq<char>,
)
    requires
        j <= s.len(),
    ensures
        string_from(s, start, j, raw, value) is Ok ==> string_from(s + t, start, j, raw, value)
            == string_from(s, start, j, raw, value),
        string_from(s + t, start, j, raw, value) matches Ok((k, n)) ==> n > j && n <= (s
            + t).len() && (s + t)[n - 1] == '"' && (n <= s.len() ==> string_from(
            s,
            start,
            j,
            raw,
            value,
        ) == Ok::<(TokenKind<Seq<char>>, nat), Complaint>((k, n))),
    decreases s.len() - j,
{
    let u = s + t;
    if j < s.len() {
        assert(u[j as int] == s[j as int]);
        if s[j as int] != '"' {
            if s[j as int] != '\\' || raw {
                lemma_string_apart(s, t, start, j + 1, raw, value.push(s[j as int]));
            } else if j + 1 < s.len() {
                assert(u[j as int + 1] == s[j as int + 1]);
                if let Some(c) = unescaped(s[j as int + 1]) {
                    lemma_string_apart(s, t, start, j + 2, raw, value.push(c));
                }
            } else {
                lemma_string_ends(u, start, j, raw, value);
                if let Ok((k, n)) = string_from(u, start, j, raw, value) {
                    assert(n > j + 1);
                }
            }
        }
    } else {
        lemma_string_ends(u, start, j, raw, value);
    }
}

proof fn lemma_string_ends(s: Seq<char>, start: nat, j: nat, raw: bool, value: Seq<char>)
    ensures
        string_from(s, start, j, raw, value) matches Ok((k, n)) ==> j < n <= s.len() && s[n - 1]
            == '"' && (j < s.len() && s[j as int] != '"' ==> n > j + 1),
    decreases s.len() - j,
{
    if j < s.len() && s[j as int] != '"' {
        if s[j as int] != '\\' || raw {
            lemma_string_ends(s, start, j + 1, raw, value.push(s[j as int]));
        } else if j + 1 < s.len() {
            if let Some(c) = unescaped(s[j as int + 1]) {
                lemma_string_ends(s, start, j + 2, raw, value.push(c));
            }
        }
    }
}

/// A token reads the same whatever stands apart behind the text.
proof fn lemma_token_apart(s: Seq<char>, t: Seq<char>, i: nat)
    requires
        apart(t),
        i < s.len(),
        !is_space(s[i as int]),
    ensures
        token_at(s, i) is Ok ==> token_at(s + t, i) == token_at(s, i),
        token_at(s + t, i) matches Ok((k, n)) ==> n <= s.len() || (s + t)[n - 1] == '"',
        token_at(s + t, i) matches Ok((k, n)) ==> (n <= s.len() ==> token_at(s, i) == Ok::<
            (TokenKind<Seq<char>>, nat),
            Complaint,
        >((k, n))),
{
    let u = s + t;
    let at = i as int;
    assert(u[at] == s[at]);
    if i + 1 < s.len() {
        assert(u[at + 1] == s[at + 1]);
    } else if t.len() > 0 {
        assert(u[at + 1] == t[0]);
    }
    assert(mark_at(u, i) == mark_at(s, i));
    assert(pair_at(u, at, 'r', '"') == pair_at(s, at, 'r', '"'));
    lemma_word_end_apart(s, t, i);
    lemma_string_apart(s, t, i, i + 1, false, Seq::empty());
    if i + 2 <= s.len() {
        lemma_string_apart(s, t, i, i + 2, true, Seq::empty());
    }
}

/// A text and what stands apart behind it lex one after the other.
proof fn lemma_lexed_apart(s: Seq<char>, t: Seq<char>, i: nat)
    requires
        apart(t),
        i <= s.len(),
        lexed(s, i) is Some,
    ensures
        lexed(s + t, i) == prepended(lexed(s, i)->0, lexed(s + t, s.len())),
    decreases s.len() - i,
{
    let u = s + t;
    let rest = lexed(u, s.len());
    if i >= s.len() {
        if let Some(more) = rest {
            assert(Seq::<TokenKind<Seq<char>>>::empty() + more =~= more);
        }
    } else if is_space(s[i as int]) {
        assert(u[i as int] == s[i as int]);
        lemma_lexed_apart(s, t, i + 1);
    } else {
        assert(u[i as int] == s[i as int]);
        lemma_token_apart(s, t, i);
        let (kind, next) = token_at(s, i)->Ok_0;
        lemma_lexed_apart(s, t, next);
        if let Some(more) = rest {
            let ks = lexed(s, next)->0;
            assert(seq![kind] + (ks + more) =~= (seq![kind] + ks) + more);
        }
    }
}

proof fn lemma_word_end_behind(s: Seq<char>, t: Seq<char>, i: nat)
    requires
        i <= t.len(),
    ensures
        word_end(s + t, s.len() + i) == s.len() + word_end(t, i),
        i <= word_end(t, i) <= t.len(),
    decreases t.len() - i,
{
    let u = s + t;
    if i < t.len() {
        assert(u[(s.len() + i) as int] == t[i as int]);
        if !ends_word(t[i as int]) {
            lemma_word_end_behind(s, t, i + 1);
        }
    }
}

proof fn lemma_string_behind(
    s: Seq<char>,
    t: Seq<char>,
    start: nat,
    j: nat,
    raw: bool,
    value: Seq<char>,
)
    ensures
        match string_from(t, start, j, raw, value) {
            Ok((k, n)) => string_from(s + t, s.len() + start, s.len() + j, raw, value) == Ok::<
                (TokenKind<Seq<char>>, nat),
                Complaint,
            >((k, s.len() + n)),
            Err(_) => string_from(s + t, s.len() + start, s.len() + j, raw, value) is Err,
        },
    decreases t.len() - j,
{
    let u = s + t;
    if j < t.len() {
        assert(u[(s.len() + j) as int] == t[j as int]);
        if t[j as int] != '"' {
            if t[j as int] != '\\' || raw {
                lemma_string_behind(s, t, start, j + 1, raw, value.push(t[j as int]));
            } else if j + 1 < t.len() {
                assert(u[(s.len() + j + 1) as int] == t[j as int + 1]);
                if let Some(c) = unescaped(t[j as int + 1]) {
                    lemma_string_behind(s, t, start, j + 2, raw, value.push(c));
                }
            }
        }
    }
}

proof fn lemma_token_behind(s: Seq<char>, t: Seq<char>, i: nat)
    requires
        i < t.len(),
        !is_space(t[i as int]),
    ensures
        match token_at(t, i) {
            Ok((k, n)) => token_at(s + t, s.len() + i) == Ok::<
                (TokenKind<Seq<char>>, nat),
                Complaint,
            >((k, s.len() + n)),
            Err(_) => token_at(s + t, s.len() + i) is Err,
        },
{
    let u = s + t;
    let at = s.len() + i;
    assert(u[at as int] == t[i as int]);
    if i + 1 < t.len() {
        assert(u[at as int + 1] == t[i as int + 1]);
    }
    lemma_word_end_behind(s, t, i);
    lemma_string_behind(s, t, i, i + 1, false, Seq::empty());
    lemma_string_behind(s, t, i, i + 2, true, Seq::empty());
    let end = word_end(t, i);
    assert(u.subrange(at as int, (s.len() + end) as int) =~= t.subrange(i as int, end as int));
}

/// What a text lexes to does not depend on what stands before it.
proof fn lemma_lexed_behind(s: Seq<char>, t: Seq<char>, i: nat)
    requires
        i <= t.len(),
    ensures
        lexed(s + t, s.len() + i) == lexed(t, i),
    decreases t.len() - i,
{
    let u = s + t;
    if i < t.len() {
        assert(u[(s.len() + i) as int] == t[i as int]);
        if is_space(t[i as int]) {
            lemma_lexed_behind(s, t, i + 1);
        } else {
            lemma_token_behind(s, t, i);
            token_advances(t, i);
            if let Ok((k, n)) = token_at(t, i) {
                lemma_lexed_behind(s, t, n);
            }
        }
    }
}

/// Two texts that are apart lex one after the other.
proof fn lemma_joined(s: Seq<char>, t: Seq<char>)
    requires
        apart(t),
        lexed(s, 0) is Some,
    ensures
        lexed(s + t, 0) == prepended(lexed(s, 0)->0, lexed(t, 0)),
{
    lemma_lexed_apart(s, t, 0);
    lemma_lexed_behind(s, t, 0);
}

/// White space before a text changes nothing.
proof fn lemma_spaced(c: char, t: Seq<char>)
    requires
        is_space(c),
    ensures
        lexed(seq![c] + t, 0) == lexed(t, 0),
{
    let u = seq![c] + t;
    assert(u[0] == c);
    lemma_lexed_behind(seq![c], t, 0);
}

/// A text that lexes to something lexes to the same without white space round it.
proof fn lemma_trimmed(s: Seq<char>)
    requires
        lexed(s, 0) is Some,
    ensures
        lexed(trim(s), 0) == lexed(s, 0),
{
    lemma_trimmed_start(s);
    lemma_trimmed_end(trim_start(s));
}

proof fn lemma_trimmed_start(s: Seq<char>)
    ensures
        lexed(trim_start(s), 0) == lexed(s, 0),
    decreases s.len(),
{
    if s.len() > 0 && is_space(s[0]) {
        assert(s =~= seq![s[0]] + s.skip(1));
        lemma_spaced(s[0], s.skip(1));
        lemma_trimmed_start(s.skip(1));
    }
}

proof fn lemma_trimmed_end(s: Seq<char>)
    requires
        lexed(s, 0) is Some,
    ensures
        lexed(trim_end(s), 0) == lexed(s, 0),
    decreases s.len(),
{
    if s.len() > 0 && is_space(s.last()) {
        assert(s =~= s.drop_last() + seq![s.last()]);
        lemma_last_space(s.drop_last(), s.last(), 0);
        lemma_trimmed_end(s.drop_last());
    }
}

proof fn lemma_last_space(s: Seq<char>, c: char, i: nat)
    requires
        is_space(c),
        i <= s.len(),
        lexed(s + seq![c], i) is Some,
    ensures
        lexed(s, i) == lexed(s + seq![c], i),
    decreases s.len() - i,
{
    let t = seq![c];
    let u = s + t;
    if i < s.len() {
        assert(u[i as int] == s[i as int]);
        if is_space(s[i as int]) {
            lemma_last_space(s, c, i + 1);
        } else {
            lemma_token_apart(s, t, i);
            let (kind, next) = token_at(u, i)->Ok_0;
            if next > s.len() {
                assert(u[next - 1] == c);
            }
            lemma_last_space(s, c, next);
        }
    } else {
        assert(u[i as int] == c);
        assert(lexed(u, i + 1) == Some(Seq::<TokenKind<Seq<char>>>::empty()));
    }
}

// --- what single texts lex to ------------------------------------------------------------------

proof fn lemma_word_runs(w: Seq<char>, i: nat)
    requires
        i <= w.len(),
        forall|k: int| 0 <= k < w.len() ==> !ends_word(#[trigger] w[k]),
    ensures
        word_end(w, i) == w.len(),
    decreases w.len() - i,
{
    if i < w.len() {
        lemma_word_runs(w, i + 1);
    }
}

/// A bare word is one token.
proof fn lemma_word(w: Seq<char>)
    requires
        w.len() > 0,
        forall|k: int| 0 <= k < w.len() ==> !ends_word(#[trigger] w[k]),
    ensures
        lexed(w, 0) == Some(seq![word_kind(w)]),
{
    lemma_word_runs(w, 0);
    assert(!ends_word(w[0]));
    if w.len() > 1 {
        assert(!ends_word(w[1]));
    }
    assert(w.subrange(0, w.len() as int) =~= w);
    assert(lexed(w, w.len()) == Some(Seq::<TokenKind<Seq<char>>>::empty()));
    assert(seq![word_kind(w)] + Seq::<TokenKind<Seq<char>>>::empty() =~= seq![word_kind(w)]);
}

/// A mark of one character is a token of its own, whatever follows.
proof fn lemma_mark(c: char, kind: TokenKind<Seq<char>>, t: Seq<char>)
    requires
        c == '(' && kind is LeftParen || c == ')' && kind is RightParen || c == '{'
            && kind is LeftBrace || c == '}' && kind is RightBrace || c == ',' && kind is Comma || c
            == '!' && kind is Not && (t.len() > 0 ==> t[0] != '='),
    ensures
        lexed(seq![c] + t, 0) == prepended(seq![kind], lexed(t, 0)),
{
    let u = seq![c] + t;
    assert(u[0] == c);
    if t.len() > 0 {
        assert(u[1] == t[0]);
    }
    lemma_lexed_behind(seq![c], t, 0);
    assert(mark_at(u, 0) == Some((kind, 1nat)));
}

/// A mark of two characters is one token.
proof fn lemma_pair(a: char, b: char, kind: TokenKind<Seq<char>>)
    requires
        a == '=' && b == '=' && kind is Equal || a == '!' && b == '=' && kind is NotEqual || a
            == '&' && b == '&' && kind is And || a == '|' && b == '|' && kind is Or,
    ensures
        lexed(seq![a, b], 0) == Some(seq![kind]),
{
    let u = seq![a, b];
    assert(mark_at(u, 0) == Some((kind, 2nat)));
    assert(lexed(u, 2) == Some(Seq::<TokenKind<Seq<char>>>::empty()));
    assert(seq![kind] + Seq::<TokenKind<Seq<char>>>::empty() =~= seq![kind]);
}

/// Texts that are equal but for case agree at every place.
proof fn lemma_nocase(a: Seq<char>, b: Seq<char>)
    ensures
        eq_ascii_nocase(a, b) ==> a.len() == b.len() && (a.len() > 0 ==> ascii_lower(a[0])
            == ascii_lower(b[0])),
        eq_ascii_nocase(a, a),
{
    let u = a.map_values(|c: char| ascii_lower(c));
    let v = b.map_values(|c: char| ascii_lower(c));
    assert(u.len() == a.len() && v.len() == b.len());
    if a.len() > 0 && b.len() > 0 {
        assert(u[0] == ascii_lower(a[0]) && v[0] == ascii_lower(b[0]));
    }
}

/// What none of the reserved words are is a plain word.
proof fn lemma_reserved(w: Seq<char>)
    ensures
        w == "and"@ ==> word_kind(w) is And,
        w == "or"@ ==> word_kind(w) is Or,
        w == "not"@ ==> word_kind(w) is Not,
        w == "in"@ ==> word_kind(w) is In,
        w.len() > 8 ==> word_kind(w) == TokenKind::Word(w),
{
    reveal_strlit("or");
    reveal_strlit("and");
    reveal_strlit("not");
    reveal_strlit("in");
    reveal_strlit("contains");
    reveal_strlit("matches");
    lemma_nocase(w, "and"@);
    lemma_nocase(w, "or"@);
    lemma_nocase(w, "not"@);
    lemma_nocase(w, "contains"@);
    lemma_nocase(w, "matches"@);
    lemma_nocase(w, "in"@);
}

/// The words and marks that join predicates.
proof fn lemma_operators()
    ensures
        lexed("or"@, 0) == Some(seq![TokenKind::<Seq<char>>::Or]),
        lexed("and"@, 0) == Some(seq![TokenKind::<Seq<char>>::And]),
        lexed("not"@, 0) == Some(seq![TokenKind::<Seq<char>>::Not]),
        lexed("in"@, 0) == Some(seq![TokenKind::<Seq<char>>::In]),
        lexed("||"@, 0) == Some(seq![TokenKind::<Seq<char>>::Or]),
        lexed("&&"@, 0) == Some(seq![TokenKind::<Seq<char>>::And]),
        lexed("=="@, 0) == Some(seq![TokenKind::<Seq<char>>::Equal]),
        lexed("!="@, 0) == Some(seq![TokenKind::<Seq<char>>::NotEqual]),
{
    reveal_strlit("or");
    reveal_strlit("and");
    reveal_strlit("not");
    reveal_strlit("in");
    reveal_strlit("contains");
    reveal_strlit("matches");
    reveal_strlit("||");
    reveal_strlit("&&");
    reveal_strlit("==");
    reveal_strlit("!=");
    lemma_word("or"@);
    lemma_word("and"@);
    lemma_word("not"@);
    lemma_word("in"@);
    lemma_reserved("or"@);
    lemma_reserved("and"@);
    lemma_reserved("not"@);
    lemma_reserved("in"@);
    assert("||"@ =~= seq!['|', '|']);
    assert("&&"@ =~= seq!['&', '&']);
    assert("=="@ =~= seq!['=', '=']);
    assert("!="@ =~= seq!['!', '=']);
    lemma_pair('|', '|', TokenKind::Or);
    lemma_pair('&', '&', TokenKind::And);
    lemma_pair('=', '=', TokenKind::Equal);
    lemma_pair('!', '=', TokenKind::NotEqual);
}

/// The name of a field is one word.
proof fn lemma_field_name(f: Field)
    ensures
        lexed(field_name(f), 0) == Some(seq![TokenKind::Word(field_name(f))]),
        field_named(field_name(f)) == Some(f),
        field_name(f).len() > 0,
        field_name(f)[0] != '=',
{
    reveal_strlit("client.ip");
    reveal_strlit("client.port");
    reveal_strlit("message.type");
    reveal_strlit("message.text");
    reveal_strlit("message.direction");
    reveal_strlit("or");
    reveal_strlit("and");
    reveal_strlit("not");
    reveal_strlit("in");
    reveal_strlit("contains");
    reveal_strlit("matches");
    let w = field_name(f);
    assert forall|k: int| 0 <= k < w.len() implies !ends_word(#[trigger] w[k]) by {}
    lemma_word(w);
    lemma_reserved(w);
    assert("client.ip"@[0] == 'c' && "message.type"@[8] == 't' && "message.type"@[9] == 'y');
    assert("message.text"@[9] == 'e');
}

// --- single predicates ---------------------------------------------------------------------------

/// Whether some tokens end in the only end token.
pub open spec fn ended(t: Seq<Lexeme>) -> bool {
    &&& t.len() > 0
    &&& t.last().kind is End
    &&& forall|k: int| 0 <= k < t.len() - 1 ==> !((#[trigger] t[k]).kind is End)
}

/// Whether a text is a single predicate, and what it says.
pub open spec fn predicate_text(a: Seq<char>, e: Formula) -> bool {
    tokens_of(a) matches Ok(t) && predicate_of(t) matches Parsed::Done(x, rest) && x == e
        && rest.len() == 1
}

/// Some tokens that begin a conjunction and make up `e`, whatever follows.
pub open spec fn conjunction(q: Seq<Lexeme>, e: Formula) -> bool {
    forall|rest: Seq<Lexeme>|
        rest.len() > 0 ==> #[trigger] and_expr(q + rest) == and_more(e, rest)
}

/// Some tokens that begin a disjunction and make up `e`, unless `and` follows.
pub open spec fn disjunction(q: Seq<Lexeme>, e: Formula) -> bool {
    forall|rest: Seq<Lexeme>|
        rest.len() > 0 && !(rest[0].kind is And) ==> #[trigger] or_expr(q + rest) == or_more(
            e,
            rest,
        )
}

/// Whether a text reads as the operand `e` wherever it stands: a predicate, a negation or an
/// expression in parentheses.
pub open spec fn operand_text(s: Seq<char>, e: Formula) -> bool {
    &&& s.len() > 0
    &&& s[0] != '='
    &&& lexed(s, 0) matches Some(p) && forall|q: Seq<Lexeme>| #[trigger]
        kinds(q) == p ==> operand(q, e)
}

/// Whether a text reads as the conjunction `e` wherever it stands.
pub open spec fn conjunction_text(s: Seq<char>, e: Formula) -> bool {
    lexed(s, 0) matches Some(p) && forall|q: Seq<Lexeme>| #[trigger]
        kinds(q) == p ==> conjunction(q, e)
}

/// Whether a text reads as the disjunction `e` wherever no `and` follows it.
pub open spec fn disjunction_text(s: Seq<char>, e: Formula) -> bool {
    lexed(s, 0) matches Some(p) && forall|q: Seq<Lexeme>| #[trigger]
        kinds(q) == p ==> disjunction(q, e)
}

/// A literal reads the same from a token of the same kind.
proof fn lemma_literal_moves(f: Field, t: Seq<Lexeme>, u: Seq<Lexeme>)
    requires
        t.len() > 0,
        u.len() > 0,
        u[0].kind == t[0].kind,
        literal(f, t) is Done,
    ensures
        literal(f, t)->Done_1 == t.skip(1),
        literal(f, u) == Parsed::Done(literal(f, t)->Done_0, u.skip(1)),
        !(t[0].kind is End || t[0].kind is RightBrace),
{
}

/// The last value of a set.
proof fn lemma_set_last(f: Field, t: Seq<Lexeme>, values: Seq<Literal<Seq<char>>>)
    requires
        t.len() >= 2,
        literal(f, t) is Done,
        t[1].kind is RightBrace,
    ensures
        set_from(f, t, values) == Parsed::Done(
            values.push(literal(f, t)->Done_0),
            t.skip(2),
        ),
{
    lemma_literal_moves(f, t, t);
    assert(t.skip(1)[0] == t[1]);
    assert(t.skip(1).skip(1) =~= t.skip(2));
}

/// A value of a set with more behind it.
proof fn lemma_set_next(f: Field, t: Seq<Lexeme>, values: Seq<Literal<Seq<char>>>)
    requires
        t.len() >= 3,
        literal(f, t) is Done,
        t[1].kind is Comma,
        !(t[2].kind is RightBrace),
    ensures
        set_from(f, t, values) == set_from(f, t.skip(2), values.push(literal(f, t)->Done_0)),
{
    lemma_literal_moves(f, t, t);
    assert(t.skip(1)[0] == t[1]);
    assert(t.skip(1).skip(1) =~= t.skip(2));
    assert(t.skip(2)[0] == t[2]);
}

/// What tokens that read as a set begin with.
proof fn lemma_set_cases(f: Field, t: Seq<Lexeme>, values: Seq<Literal<Seq<char>>>)
    requires
        ended(t),
        set_from(f, t, values) is Done,
    ensures
        literal(f, t) is Done,
        t.len() >= 3,
        t[1].kind is RightBrace || t[1].kind is Comma && t.len() >= 4 && !(t[2].kind is RightBrace),
{
    lemma_literal_moves(f, t, t);
    assert(t.len() >= 2);
    assert(t.skip(1)[0] == t[1]);
    assert(t[1].kind is RightBrace || t[1].kind is Comma);
    assert(t.len() >= 3);
    assert(t.skip(1).skip(1) =~= t.skip(2));
    assert(t.skip(2)[0] == t[2]);
    if t.len() == 3 && t[1].kind is Comma {
        let next = t.skip(2);
        let more = values.push(literal(f, t)->Done_0);
        lemma_set_next(f, t, values);
        assert(next[0].kind is End);
        assert(set_from(f, next, more) is Done);
        lemma_literal_moves(f, next, next);
    }
}

/// A set reads the same from tokens of the same kinds, whatever follows.
proof fn lemma_set_moves(
    f: Field,
    t: Seq<Lexeme>,
    values: Seq<Literal<Seq<char>>>,
    q: Seq<Lexeme>,
    rest: Seq<Lexeme>,
)
    requires
        ended(t),
        rest.len() > 0,
        set_from(f, t, values) is Done,
        set_from(f, t, values)->Done_1.len() <= t.len(),
        q.len() == t.len() - set_from(f, t, values)->Done_1.len(),
        forall|k: int| 0 <= k < q.len() ==> (#[trigger] q[k]).kind == t[k].kind,
    ensures
        set_from(f, q + rest, values) == Parsed::Done(set_from(f, t, values)->Done_0, rest),
    decreases t.len(),
{
    let u = q + rest;
    lemma_set_suffix(f, t, values);
    lemma_set_cases(f, t, values);
    assert(u[0] == q[0] && u[1] == q[1]);
    assert(q[0].kind == t[0].kind && q[1].kind == t[1].kind);
    lemma_literal_moves(f, t, u);
    if t[1].kind is RightBrace {
        lemma_set_last(f, t, values);
        lemma_set_last(f, u, values);
        assert(u.skip(2) =~= rest);
    } else {
        let next = t.skip(2);
        let more = values.push(literal(f, t)->Done_0);
        assert(ended(next));
        lemma_set_next(f, t, values);
        lemma_set_suffix(f, next, more);
        let q2 = q.skip(2);
        assert forall|k: int| 0 <= k < q2.len() implies (#[trigger] q2[k]).kind == next[k].kind by {
            assert(q[k + 2].kind == t[k + 2].kind);
        }
        lemma_set_moves(f, next, more, q2, rest);
        assert(q[2].kind == t[2].kind);
        assert(u[2] == q[2]);
        lemma_set_next(f, u, values);
        assert(u.skip(2) =~= q2 + rest);
    }
}

/// Reading a set passes over at least one literal and the closing brace.
proof fn lemma_set_suffix(f: Field, t: Seq<Lexeme>, values: Seq<Literal<Seq<char>>>)
    requires
        ended(t),
    ensures
        set_from(f, t, values) matches Parsed::Done(v, r) ==> r.len() + 2 <= t.len(),
    decreases t.len(),
{
    if let Parsed::Done(x, after) = literal(f, t) {
        assert(after == t.skip(1));
        assert(t.len() >= 2);
        assert(after[0] == t[1]);
        if after[0].kind is Comma {
            let next = after.skip(1);
            assert(t.len() >= 3);
            assert(next =~= t.skip(2));
            assert(ended(next));
            if !(next[0].kind is RightBrace) {
                lemma_set_suffix(f, next, values.push(x));
            }
        }
    }
}

/// A set test reads the same from tokens of the same kinds, whatever follows.
proof fn lemma_set_test_moves(f: Field, t: Seq<Lexeme>, q: Seq<Lexeme>, rest: Seq<Lexeme>)
    requires
        ended(t),
        t[0].kind is In,
        test_of(f, t) matches Parsed::Done(x, r) && r.len() == 1,
        kinds(q) == kinds(t.drop_last()),
        rest.len() > 0,
    ensures
        test_of(f, q + rest) == Parsed::Done(test_of(f, t)->Done_0, rest),
        q.len() >= 2,
{
    let u = q + rest;
    assert(kinds(q).len() == q.len());
    assert(t.drop_last().len() == q.len());
    let r = test_of(f, t)->Done_1;
    let t2 = t.skip(1);
    assert(behind(t) == t2);
    assert(set_literal(f, t2) matches Parsed::Done(_, x) && x == r);
    assert(t2[0] == t[1]);
    assert(t.len() >= 3);
    let t3 = t2.skip(1);
    assert(t3 =~= t.skip(2));
    assert(ended(t3));
    lemma_set_suffix(f, t3, Seq::empty());
    assert(kinds(q)[0] == t[0].kind);
    assert(kinds(q)[1] == t[1].kind);
    assert(kinds(q)[2] == t[2].kind);
    let q3 = q.skip(2);
    let u2 = u.skip(1);
    let u3 = u2.skip(1);
    assert(u[0] == q[0]);
    assert(u2[0] == q[1]);
    assert(u3 =~= q3 + rest);
    assert(u3[0] == q[2]);
    assert(t3[0] == t[2]);
    assert forall|k: int| 0 <= k < q3.len() implies (#[trigger] q3[k]).kind == t3[k].kind by {
        assert(kinds(q)[k + 2] == t[k + 2].kind);
    }
    lemma_set_moves(f, t3, Seq::empty(), q3, rest);
}

/// A test of one value reads the same from tokens of the same kinds, whatever follows.
proof fn lemma_plain_test_moves(f: Field, t: Seq<Lexeme>, q: Seq<Lexeme>, rest: Seq<Lexeme>)
    requires
        ended(t),
        !(t[0].kind is In),
        test_of(f, t) matches Parsed::Done(x, r) && r.len() == 1,
        kinds(q) == kinds(t.drop_last()),
        rest.len() > 0,
    ensures
        test_of(f, q + rest) == Parsed::Done(test_of(f, t)->Done_0, rest),
        q.len() >= 2,
{
    let u = q + rest;
    assert(kinds(q).len() == q.len());
    assert(t.drop_last().len() == q.len());
    assert(!(t[0].kind is End));
    let t2 = t.skip(1);
    assert(behind(t) == t2);
    assert(t.len() >= 2);
    assert(t2[0] == t[1]);
    assert(t2[0].kind is Word || t2[0].kind is Text);
    assert(test_of(f, t)->Done_1 == t2.skip(1));
    assert(t.len() == 3);
    assert(kinds(q)[0] == t[0].kind);
    assert(kinds(q)[1] == t[1].kind);
    let u2 = u.skip(1);
    assert(u[0] == q[0]);
    assert(u2[0] == q[1]);
    assert(u2.skip(1) =~= rest);
    assert(behind(u) == u2);
    assert(behind(u2) == rest);
}

/// A predicate reads the same from tokens of the same kinds, whatever follows.
#[verifier::rlimit(30)]
proof fn lemma_predicate_moves(t: Seq<Lexeme>, q: Seq<Lexeme>, rest: Seq<Lexeme>, e: Formula)
    requires
        ended(t),
        predicate_of(t) matches Parsed::Done(x, r) && x == e && r.len() == 1,
        kinds(q) == kinds(t.drop_last()),
        rest.len() > 0,
    ensures
        predicate_of(q + rest) == Parsed::Done(e, rest),
        q.len() >= 3,
        q[0].kind is Word,
{
    let u = q + rest;
    assert(kinds(q).len() == q.len());
    assert(t.drop_last().len() == q.len());
    let f = field_named(t[0].kind->Word_0)->0;
    let t1 = t.skip(1);
    assert(t.len() >= 2);
    assert(ended(t1));
    assert(kinds(q)[0] == t[0].kind);
    assert(u[0] == q[0]);
    let q1 = q.skip(1);
    assert(u.skip(1) =~= q1 + rest);
    assert(kinds(q1) =~= kinds(t1.drop_last())) by {
        assert forall|k: int| 0 <= k < q1.len() implies kinds(q1)[k] == kinds(
            t1.drop_last(),
        )[k] by {
            assert(kinds(q)[k + 1] == t[k + 1].kind);
        }
    }
    if t1[0].kind is In {
        lemma_set_test_moves(f, t1, q1, rest);
    } else {
        lemma_plain_test_moves(f, t1, q1, rest);
    }
}

/// A single predicate is an operand.
pub proof fn predicates_are_operands(a: Seq<char>, e: Formula)
    requires
        predicate_text(a, e),
    ensures
        operand_text(a, e),
{
    let t = tokens_of(a)->Ok_0;
    lemma_lexed(a, 0);
    let p = lexed(a, 0)->0;
    assert(kinds(t).len() == t.len());
    assert(kinds(t).drop_last() =~= p);
    assert(kinds(t.drop_last()) =~= p);
    tokens_end(a, 0);
    assert(ended(t));
    assert forall|q: Seq<Lexeme>| #[trigger] kinds(q) == p implies operand(q, e) by {
        assert forall|rest: Seq<Lexeme>| rest.len() > 0 implies #[trigger] not_expr(q + rest)
            == Parsed::Done(e, rest) by {
            lemma_predicate_moves(t, q, rest, e);
            assert((q + rest)[0] == q[0]);
            assert(primary(q + rest) == predicate_of(q + rest));
        }
    }
    lemma_predicate_moves(t, t.drop_last(), seq![t.last()], e);
    if a.len() == 0 {
        assert(p.len() == 0);
    } else if a[0] == '=' {
        assert(p[0] is Word);
        if let Ok((k, n)) = token_at(a, 0) {
            assert(k is Equal);
        }
    }
}

// --- how texts are put together --------------------------------------------------------------

/// Tokens whose kinds are in two parts are themselves in two parts.
proof fn lemma_parts(
    q: Seq<Lexeme>,
    a: Seq<TokenKind<Seq<char>>>,
    b: Seq<TokenKind<Seq<char>>>,
) -> (r: (Seq<Lexeme>, Seq<Lexeme>))
    requires
        kinds(q) == a + b,
    ensures
        q == r.0 + r.1,
        kinds(r.0) == a,
        kinds(r.1) == b,
{
    assert(kinds(q).len() == q.len());
    let x = q.take(a.len() as int);
    let y = q.skip(a.len() as int);
    assert(q =~= x + y);
    assert forall|k: int| 0 <= k < a.len() implies kinds(x)[k] == a[k] by {
        assert(kinds(q)[k] == a[k]);
    }
    assert(kinds(x) =~= a);
    assert forall|k: int| 0 <= k < b.len() implies kinds(y)[k] == b[k] by {
        assert(kinds(q)[a.len() + k] == b[k]);
    }
    assert(kinds(y) =~= b);
    (x, y)
}

/// One token of a given kind.
proof fn lemma_one(q: Seq<Lexeme>, kind: TokenKind<Seq<char>>)
    requires
        kinds(q) == seq![kind],
    ensures
        q == seq![q[0]],
        q[0].kind == kind,
{
    assert(kinds(q).len() == q.len());
    assert(kinds(q)[0] == kind);
    assert(q =~= seq![q[0]]);
}

/// An operand is a conjunction of one.
pub proof fn operands_are_conjunctions(a: Seq<char>, e: Formula)
    requires
        operand_text(a, e),
    ensures
        conjunction_text(a, e),
{
    let p = lexed(a, 0)->0;
    assert forall|q: Seq<Lexeme>| #[trigger] kinds(q) == p implies conjunction(q, e) by {
        assert(operand(q, e));
        assert forall|rest: Seq<Lexeme>| rest.len() > 0 implies #[trigger] and_expr(q + rest)
            == and_more(e, rest) by {
            assert(not_expr(q + rest) == Parsed::Done(e, rest));
        }
    }
}

/// A conjunction is a disjunction of one.
pub proof fn conjunctions_are_disjunctions(a: Seq<char>, e: Formula)
    requires
        conjunction_text(a, e),
    ensures
        disjunction_text(a, e),
{
    let p = lexed(a, 0)->0;
    assert forall|q: Seq<Lexeme>| #[trigger] kinds(q) == p implies disjunction(q, e) by {
        assert(conjunction(q, e));
        assert forall|rest: Seq<Lexeme>|
            rest.len() > 0 && !(rest[0].kind is And) implies #[trigger] or_expr(q + rest)
            == or_more(e, rest) by {
            assert(and_expr(q + rest) == and_more(e, rest));
            assert(and_more(e, rest) == Parsed::Done(e, rest));
        }
    }
}

/// A text that opens with an operator between blanks.
proof fn lemma_operator(op: Seq<char>, kind: TokenKind<Seq<char>>, b: Seq<char>)
    requires
        lexed(op, 0) == Some(seq![kind]),
        lexed(b, 0) is Some,
    ensures
        lexed(" "@ + op + " "@ + b, 0) == Some(seq![kind] + lexed(b, 0)->0),
        apart(" "@ + op + " "@ + b),
{
    reveal_strlit(" ");
    let tail = seq![' '] + b;
    lemma_spaced(' ', b);
    assert(apart(tail));
    lemma_joined(op, tail);
    lemma_spaced(' ', op + tail);
    assert(" "@ + op + " "@ + b =~= seq![' '] + (op + tail));
}

proof fn lemma_and_step(a: Seq<Lexeme>, and: Lexeme, b: Seq<Lexeme>, x: Formula, y: Formula)
    requires
        conjunction(a, x),
        operand(b, y),
        and.kind is And,
    ensures
        conjunction(a + (seq![and] + b), Formula::And(Box::new(x), Box::new(y))),
{
    let q = a + (seq![and] + b);
    let e = Formula::And(Box::new(x), Box::new(y));
    assert forall|rest: Seq<Lexeme>| rest.len() > 0 implies #[trigger] and_expr(q + rest)
        == and_more(e, rest) by {
        let more = seq![and] + (b + rest);
        assert(q + rest =~= a + more);
        assert(and_expr(a + more) == and_more(x, more));
        assert(more.skip(1) =~= b + rest);
        assert(not_expr(b + rest) == Parsed::Done(y, rest));
    }
}

proof fn lemma_or_step(a: Seq<Lexeme>, or: Lexeme, b: Seq<Lexeme>, x: Formula, y: Formula)
    requires
        disjunction(a, x),
        conjunction(b, y),
        or.kind is Or,
    ensures
        disjunction(a + (seq![or] + b), Formula::Or(Box::new(x), Box::new(y))),
{
    let q = a + (seq![or] + b);
    let e = Formula::Or(Box::new(x), Box::new(y));
    assert forall|rest: Seq<Lexeme>|
        rest.len() > 0 && !(rest[0].kind is And) implies #[trigger] or_expr(q + rest)
        == or_more(e, rest) by {
        let more = seq![or] + (b + rest);
        assert(q + rest =~= a + more);
        assert(more[0] == or);
        assert(or_expr(a + more) == or_more(x, more));
        assert(more.skip(1) =~= b + rest);
        assert(and_expr(b + rest) == and_more(y, rest));
        assert(and_more(y, rest) == Parsed::Done(y, rest));
    }
}

/// A conjunction goes on with `and`, or with `&&`, and an operand; what came before is its
/// left side.
pub proof fn and_extends_a_conjunction(
    a: Seq<char>,
    op: Seq<char>,
    b: Seq<char>,
    x: Formula,
    y: Formula,
)
    requires
        conjunction_text(a, x),
        operand_text(b, y),
        op == "and"@ || op == "&&"@,
    ensures
        conjunction_text(a + (" "@ + op + " "@ + b), Formula::And(Box::new(x), Box::new(y))),
{
    let p = lexed(a, 0)->0;
    let r = lexed(b, 0)->0;
    let e = Formula::And(Box::new(x), Box::new(y));
    lemma_operators();
    lemma_operator(op, TokenKind::And, b);
    lemma_joined(a, " "@ + op + " "@ + b);
    let whole = p + (seq![TokenKind::And] + r);
    assert forall|q: Seq<Lexeme>| #[trigger] kinds(q) == whole implies conjunction(q, e) by {
        let (q1, q2) = lemma_parts(q, p, seq![TokenKind::And] + r);
        let (q3, q4) = lemma_parts(q2, seq![TokenKind::And], r);
        lemma_one(q3, TokenKind::And);
        lemma_and_step(q1, q3[0], q4, x, y);
    }
}

/// A disjunction goes on with `or`, or with `||`, and a conjunction: `and` binds tighter.
pub proof fn or_extends_a_disjunction(
    a: Seq<char>,
    op: Seq<char>,
    b: Seq<char>,
    x: Formula,
    y: Formula,
)
    requires
        disjunction_text(a, x),
        conjunction_text(b, y),
        op == "or"@ || op == "||"@,
    ensures
        disjunction_text(a + (" "@ + op + " "@ + b), Formula::Or(Box::new(x), Box::new(y))),
{
    let p = lexed(a, 0)->0;
    let r = lexed(b, 0)->0;
    let e = Formula::Or(Box::new(x), Box::new(y));
    lemma_operators();
    lemma_operator(op, TokenKind::Or, b);
    lemma_joined(a, " "@ + op + " "@ + b);
    let whole = p + (seq![TokenKind::Or] + r);
    assert forall|q: Seq<Lexeme>| #[trigger] kinds(q) == whole implies disjunction(q, e) by {
        let (q1, q2) = lemma_parts(q, p, seq![TokenKind::Or] + r);
        let (q3, q4) = lemma_parts(q2, seq![TokenKind::Or], r);
        lemma_one(q3, TokenKind::Or);
        lemma_or_step(q1, q3[0], q4, x, y);
    }
}

/// `not` or `!` before an operand makes an operand: it binds tighter than `and`.
pub proof fn negations_are_operands(a: Seq<char>, e: Formula)
    requires
        operand_text(a, e),
    ensures
        operand_text("not "@ + a, Formula::Not(Box::new(e))),
        operand_text("!"@ + a, Formula::Not(Box::new(e))),
{
    let p = lexed(a, 0)->0;
    let whole = seq![TokenKind::Not] + p;
    reveal_strlit("not ");
    reveal_strlit("not");
    reveal_strlit("!");
    lemma_operators();
    lemma_spaced(' ', a);
    lemma_joined("not"@, seq![' '] + a);
    assert("not "@ + a =~= "not"@ + (seq![' '] + a));
    lemma_mark('!', TokenKind::Not, a);
    assert("!"@ + a =~= seq!['!'] + a);
    assert forall|q: Seq<Lexeme>| #[trigger] kinds(q) == whole implies operand(
        q,
        Formula::Not(Box::new(e)),
    ) by {
        let (q1, q2) = lemma_parts(q, seq![TokenKind::Not], p);
        lemma_one(q1, TokenKind::Not);
        assert(operand(q2, e));
        negation_is_an_operand(q1[0], q2, e);
    }
}

/// A disjunction in parentheses is an operand.
pub proof fn parentheses_are_operands(a: Seq<char>, e: Formula)
    requires
        disjunction_text(a, e),
    ensures
        operand_text("("@ + a + ")"@, e),
{
    let p = lexed(a, 0)->0;
    reveal_strlit("(");
    reveal_strlit(")");
    let empty = Seq::<char>::empty();
    lemma_mark(')', TokenKind::RightParen, empty);
    assert(")"@ =~= seq![')'] + empty);
    lemma_joined(a, ")"@);
    lemma_mark('(', TokenKind::LeftParen, a + ")"@);
    assert("("@ + a + ")"@ =~= seq!['('] + (a + ")"@));
    let close = seq![TokenKind::<Seq<char>>::RightParen];
    assert(close + Seq::<TokenKind<Seq<char>>>::empty() =~= close);
    assert(lexed(")"@, 0) == Some(close));
    let whole = seq![TokenKind::LeftParen] + (p + close);
    assert forall|q: Seq<Lexeme>| #[trigger] kinds(q) == whole implies operand(q, e) by {
        let (q1, q2) = lemma_parts(q, seq![TokenKind::LeftParen], p + close);
        let (q3, q4) = lemma_parts(q2, p, close);
        lemma_one(q1, TokenKind::LeftParen);
        lemma_one(q4, TokenKind::RightParen);
        assert(disjunction(q3, e));
        assert forall|rest: Seq<Lexeme>|
            rest.len() > 0 && rest[0].kind is RightParen implies #[trigger] or_expr(q3 + rest)
            == Parsed::Done(e, rest) by {
            assert(or_more(e, rest) == Parsed::Done(e, rest));
        }
        parentheses_make_an_operand(q1[0], q3, q4[0], e);
        assert(q =~= seq![q1[0]] + q3 + seq![q4[0]]);
    }
}

/// A disjunction, with or without white space round it, is a filter.
pub proof fn disjunctions_are_filters(a: Seq<char>, e: Formula)
    requires
        disjunction_text(a, e),
    ensures
        filter_of(a) == Ok::<FilterView, Complaint>(
            FilterView { expression: trim(a), formula: Some(e) },
        ),
{
    let p = lexed(a, 0)->0;
    lemma_trimmed(a);
    lemma_lexed(trim(a), 0);
    let t = tokens_of(trim(a))->Ok_0;
    let end = seq![TokenKind::<Seq<char>>::End];
    assert(p.push(TokenKind::End) =~= p + end);
    let (q, rest) = lemma_parts(t, p, end);
    lemma_one(rest, TokenKind::End);
    assert(disjunction(q, e));
    assert(or_expr(q + rest) == or_more(e, rest));
    if trim(a).len() == 0 {
        assert(p.len() == 0);
        assert(q.len() == kinds(q).len());
        assert(q + rest =~= rest);
        assert(predicate_of(rest) is Failed);
        assert(primary(rest) is Failed);
        assert(not_expr(rest) is Failed);
        assert(and_expr(rest) is Failed);
    }
}

/// Whether a message passes the filter that a text is.
pub open spec fn shown_by(expression: Seq<char>, m: MessageView) -> bool {
    filter_of(expression) matches Ok(f) && lets_through(f, m)
}

/// An operand by itself is a filter.
pub proof fn operands_are_filters(a: Seq<char>, e: Formula)
    requires
        operand_text(a, e),
    ensures
        filter_of(a) is Ok,
        forall|m: MessageView| #[trigger] shown_by(a, m) == holds(e, m),
{
    operands_are_conjunctions(a, e);
    conjunctions_are_disjunctions(a, e);
    disjunctions_are_filters(a, e);
}

/// `not` binds tighter than `and`, and `and` tighter than `or`, in words and in marks:
/// `a or b and not c` shows what `a` shows, and what `b` shows and `c` does not.
pub proof fn operators_bind_in_order(
    a: Seq<char>,
    b: Seq<char>,
    c: Seq<char>,
    x: Formula,
    y: Formula,
    z: Formula,
    m: MessageView,
)
    requires
        operand_text(a, x),
        operand_text(b, y),
        operand_text(c, z),
    ensures
        filter_of(a + (" "@ + "or"@ + " "@ + (b + (" "@ + "and"@ + " "@ + ("not "@ + c))))) is Ok,
        filter_of(a + (" "@ + "||"@ + " "@ + (b + (" "@ + "&&"@ + " "@ + ("!"@ + c))))) is Ok,
        shown_by(a + (" "@ + "or"@ + " "@ + (b + (" "@ + "and"@ + " "@ + ("not "@ + c)))), m) == (
        shown_by(a, m) || (shown_by(b, m) && !shown_by(c, m))),
        shown_by(a + (" "@ + "||"@ + " "@ + (b + (" "@ + "&&"@ + " "@ + ("!"@ + c)))), m) == (
        shown_by(a, m) || (shown_by(b, m) && !shown_by(c, m))),
{
    operands_are_filters(a, x);
    operands_are_filters(b, y);
    operands_are_filters(c, z);
    negations_are_operands(c, z);
    let nz = Formula::Not(Box::new(z));
    let right = Formula::And(Box::new(y), Box::new(nz));
    let whole = Formula::Or(Box::new(x), Box::new(right));
    operands_are_conjunctions(a, x);
    conjunctions_are_disjunctions(a, x);
    operands_are_conjunctions(b, y);
    and_extends_a_conjunction(b, "and"@, "not "@ + c, y, nz);
    and_extends_a_conjunction(b, "&&"@, "!"@ + c, y, nz);
    let words = b + (" "@ + "and"@ + " "@ + ("not "@ + c));
    let marks = b + (" "@ + "&&"@ + " "@ + ("!"@ + c));
    or_extends_a_disjunction(a, "or"@, words, x, right);
    or_extends_a_disjunction(a, "||"@, marks, x, right);
    disjunctions_are_filters(a + (" "@ + "or"@ + " "@ + words), whole);
    disjunctions_are_filters(a + (" "@ + "||"@ + " "@ + marks), whole);
    assert(holds(nz, m) == !holds(z, m));
    assert(holds(right, m) == (holds(y, m) && holds(nz, m)));
    assert(holds(whole, m) == (holds(x, m) || holds(right, m)));
}

/// Parentheses go before: `(a or b) and c` shows what `c` shows and `a` or `b` shows.
pub proof fn parentheses_bind_first(
    a: Seq<char>,
    b: Seq<char>,
    c: Seq<char>,
    x: Formula,
    y: Formula,
    z: Formula,
    m: MessageView,
)
    requires
        operand_text(a, x),
        operand_text(b, y),
        operand_text(c, z),
    ensures
        filter_of("("@ + (a + (" "@ + "or"@ + " "@ + b)) + ")"@ + (" "@ + "and"@ + " "@ + c)) is Ok,
        shown_by("("@ + (a + (" "@ + "or"@ + " "@ + b)) + ")"@ + (" "@ + "and"@ + " "@ + c), m)
            == ((shown_by(a, m) || shown_by(b, m)) && shown_by(c, m)),
{
    operands_are_filters(a, x);
    operands_are_filters(b, y);
    operands_are_filters(c, z);
    let left = Formula::Or(Box::new(x), Box::new(y));
    let whole = Formula::And(Box::new(left), Box::new(z));
    operands_are_conjunctions(a, x);
    conjunctions_are_disjunctions(a, x);
    operands_are_conjunctions(b, y);
    or_extends_a_disjunction(a, "or"@, b, x, y);
    let inner = a + (" "@ + "or"@ + " "@ + b);
    parentheses_are_operands(inner, left);
    let outer = "("@ + inner + ")"@;
    operands_are_conjunctions(outer, left);
    and_extends_a_conjunction(outer, "and"@, c, left, z);
    conjunctions_are_disjunctions(outer + (" "@ + "and"@ + " "@ + c), whole);
    disjunctions_are_filters(outer + (" "@ + "and"@ + " "@ + c), whole);
    assert(holds(left, m) == (holds(x, m) || holds(y, m)));
    assert(holds(whole, m) == (holds(left, m) && holds(z, m)));
}

// --- comparisons with values ------------------------------------------------------------------

/// Whether a text is one literal, and one that the field takes.
pub open spec fn literal_text(f: Field, v: Seq<char>, x: Literal<Seq<char>>) -> bool {
    &&& lexed(v, 0) is Some
    &&& lexed(v, 0)->0.len() == 1
    &&& reads_literal(f, lexed(v, 0)->0[0], x)
}

/// Whether a field takes a token as a literal.
#[verifier::opaque]
pub open spec fn reads_literal(
    f: Field,
    k: TokenKind<Seq<char>>,
    x: Literal<Seq<char>>,
) -> bool {
    literal(f, seq![Lexeme { kind: k, position: 0 }]) matches Parsed::Done(y, _) && y == x
}

proof fn lemma_reads_literal(
    f: Field,
    k: TokenKind<Seq<char>>,
    x: Literal<Seq<char>>,
    u: Seq<Lexeme>,
)
    requires
        reads_literal(f, k, x),
        u.len() > 0,
        u[0].kind == k,
    ensures
        literal(f, u) == Parsed::Done(x, u.skip(1)),
        !(k is RightBrace),
{
    reveal(reads_literal);
    lemma_literal_moves(f, seq![Lexeme { kind: k, position: 0 }], u);
}

/// The kinds that the values of a set and its closing brace lex to.
spec fn set_kinds(p: Seq<TokenKind<Seq<char>>>) -> Seq<TokenKind<Seq<char>>>
    decreases p.len(),
{
    if p.len() == 0 {
        Seq::empty()
    } else if p.len() == 1 {
        seq![p[0], TokenKind::RightBrace]
    } else {
        seq![p[0], TokenKind::Comma] + set_kinds(p.skip(1))
    }
}

/// The values of a set and the closing brace: `v1, v2}`.
pub open spec fn set_body(values: Seq<Seq<char>>) -> Seq<char>
    decreases values.len(),
{
    if values.len() == 0 {
        Seq::empty()
    } else if values.len() == 1 {
        values[0] + "}"@
    } else {
        values[0] + (", "@ + set_body(values.skip(1)))
    }
}

/// A comparison of a field with one value.
pub open spec fn comparison_text(f: Field, op: Seq<char>, v: Seq<char>) -> Seq<char> {
    field_name(f) + (" "@ + op + " "@ + v)
}

/// A test of a field against a set.
pub open spec fn set_text(f: Field, values: Seq<Seq<char>>) -> Seq<char> {
    field_name(f) + (" "@ + "in"@ + " "@ + ("{"@ + set_body(values)))
}

/// A comparison of a field with a value is an operand.
pub proof fn comparisons_are_operands(f: Field, v: Seq<char>, x: Literal<Seq<char>>)
    requires
        literal_text(f, v, x),
    ensures
        operand_text(comparison_text(f, "=="@, v), Formula::Predicate(f, Test::Equal(x))),
        operand_text(comparison_text(f, "!="@, v), Formula::Predicate(f, Test::NotEqual(x))),
{
    let name = field_name(f);
    let p = lexed(v, 0)->0;
    let k = p[0];
    assert(p =~= seq![k]);
    lemma_field_name(f);
    lemma_operators();
    lemma_operator("=="@, TokenKind::Equal, v);
    lemma_operator("!="@, TokenKind::NotEqual, v);
    lemma_joined(name, " "@ + "=="@ + " "@ + v);
    lemma_joined(name, " "@ + "!="@ + " "@ + v);
    lemma_comparison(f, TokenKind::Equal, k, x);
    lemma_comparison(f, TokenKind::NotEqual, k, x);
    assert(comparison_text(f, "=="@, v)[0] == name[0]);
    assert(comparison_text(f, "!="@, v)[0] == name[0]);
}

/// A field's name, an operator and a literal read as an operand.
proof fn lemma_comparison(
    f: Field,
    op: TokenKind<Seq<char>>,
    k: TokenKind<Seq<char>>,
    x: Literal<Seq<char>>,
)
    requires
        op is Equal || op is NotEqual,
        reads_literal(f, k, x),
    ensures
        forall|q: Seq<Lexeme>| #[trigger]
            kinds(q) == seq![TokenKind::Word(field_name(f))] + (seq![op] + seq![k]) ==> operand(
                q,
                Formula::Predicate(
                    f,
                    if op is Equal {
                        Test::Equal(x)
                    } else {
                        Test::NotEqual(x)
                    },
                ),
            ),
{
    let w = TokenKind::Word(field_name(f));
    let e = Formula::Predicate(
        f,
        if op is Equal {
            Test::Equal(x)
        } else {
            Test::NotEqual(x)
        },
    );
    lemma_field_name(f);
    assert forall|q: Seq<Lexeme>| #[trigger]
        kinds(q) == seq![w] + (seq![op] + seq![k]) implies operand(q, e) by {
        assert(kinds(q).len() == q.len());
        assert(q.len() == 3);
        assert(kinds(q)[0] == w && kinds(q)[1] == op && kinds(q)[2] == k);
        assert forall|rest: Seq<Lexeme>| rest.len() > 0 implies #[trigger] not_expr(q + rest)
            == Parsed::Done(e, rest) by {
            let u = q + rest;
            let u1 = u.skip(1);
            let u2 = u1.skip(1);
            assert(u[0] == q[0] && u1[0] == q[1] && u2[0] == q[2]);
            lemma_reads_literal(f, k, x, u2);
            assert(u2.skip(1) =~= rest);
            assert(behind(u1) == u2);
            assert(primary(u) == predicate_of(u));
        }
    }
}

/// `f != v` shows what `f == v` does not.
pub proof fn unequal_is_not_equal(
    f: Field,
    v: Seq<char>,
    x: Literal<Seq<char>>,
    m: MessageView,
)
    requires
        literal_text(f, v, x),
    ensures
        filter_of(comparison_text(f, "!="@, v)) is Ok,
        shown_by(comparison_text(f, "!="@, v), m) == !shown_by(comparison_text(f, "=="@, v), m),
{
    comparisons_are_operands(f, v, x);
    let e = Formula::Predicate(f, Test::Equal(x));
    let n = Formula::Predicate(f, Test::NotEqual(x));
    operands_are_filters(comparison_text(f, "=="@, v), e);
    operands_are_filters(comparison_text(f, "!="@, v), n);
    assert(holds(n, m) == !holds(e, m));
}

/// The values of a set and its closing brace lex to the values' tokens and the marks between
/// them.
proof fn lemma_set_body(values: Seq<Seq<char>>, p: Seq<TokenKind<Seq<char>>>)
    requires
        0 < values.len() == p.len(),
        forall|k: int| 0 <= k < p.len() ==> lexed(#[trigger] values[k], 0) == Some(seq![p[k]]),
    ensures
        lexed(set_body(values), 0) == Some(set_kinds(p)),
    decreases p.len(),
{
    let empty = Seq::<char>::empty();
    reveal_strlit("}");
    reveal_strlit(", ");
    assert(lexed(values[0], 0) == Some(seq![p[0]]));
    if p.len() == 1 {
        lemma_mark('}', TokenKind::RightBrace, empty);
        assert("}"@ =~= seq!['}'] + empty);
        let close = seq![TokenKind::<Seq<char>>::RightBrace];
        assert(close + Seq::<TokenKind<Seq<char>>>::empty() =~= close);
        lemma_joined(values[0], "}"@);
        assert(seq![p[0]] + close =~= set_kinds(p));
    } else {
        let vs = values.skip(1);
        let ps = p.skip(1);
        assert forall|k: int| 0 <= k < ps.len() implies lexed(#[trigger] vs[k], 0) == Some(
            seq![ps[k]],
        ) by {
            assert(vs[k] == values[k + 1]);
        }
        lemma_set_body(vs, ps);
        let more = set_body(vs);
        lemma_spaced(' ', more);
        lemma_mark(',', TokenKind::Comma, seq![' '] + more);
        assert(", "@ + more =~= seq![','] + (seq![' '] + more));
        lemma_joined(values[0], ", "@ + more);
        assert(seq![p[0]] + (seq![TokenKind::Comma] + set_kinds(ps)) =~= set_kinds(p));
    }
}

/// The tokens of a set's values are read into the set, whatever follows.
proof fn lemma_set_read(
    f: Field,
    p: Seq<TokenKind<Seq<char>>>,
    xs: Seq<Literal<Seq<char>>>,
    q: Seq<Lexeme>,
    rest: Seq<Lexeme>,
    values: Seq<Literal<Seq<char>>>,
)
    requires
        0 < p.len() == xs.len(),
        forall|k: int| 0 <= k < p.len() ==> reads_literal(f, #[trigger] p[k], xs[k]),
        kinds(q) == set_kinds(p),
        rest.len() > 0,
    ensures
        set_from(f, q + rest, values) == Parsed::Done(values + xs, rest),
        q.len() > 0,
        !(q[0].kind is RightBrace),
    decreases p.len(),
{
    let u = q + rest;
    assert(reads_literal(f, p[0], xs[0]));
    assert(kinds(q).len() == q.len());
    assert(kinds(q)[0] == p[0]);
    assert(u[0] == q[0]);
    lemma_reads_literal(f, p[0], xs[0], u);
    if p.len() == 1 {
        assert(kinds(q)[1] == TokenKind::<Seq<char>>::RightBrace);
        assert(u[1] == q[1]);
        lemma_set_last(f, u, values);
        assert(u.skip(2) =~= rest);
        assert(values.push(xs[0]) =~= values + xs);
    } else {
        let ps = p.skip(1);
        let more = xs.skip(1);
        let head = seq![p[0], TokenKind::Comma];
        let (q1, q2) = lemma_parts(q, head, set_kinds(ps));
        assert(kinds(q1).len() == q1.len());
        assert forall|k: int| 0 <= k < ps.len() implies reads_literal(
            f,
            #[trigger] ps[k],
            more[k],
        ) by {
            assert(ps[k] == p[k + 1]);
        }
        lemma_set_read(f, ps, more, q2, rest, values.push(xs[0]));
        assert(kinds(q)[1] == TokenKind::<Seq<char>>::Comma);
        assert(u[1] == q[1]);
        assert(u[2] == q2[0]);
        lemma_set_next(f, u, values);
        assert(u.skip(2) =~= q2 + rest);
        assert(values.push(xs[0]) + more =~= values + xs);
    }
}

/// A field's name, `in` and a set read as an operand.
#[verifier::rlimit(30)]
proof fn lemma_set_operand(
    f: Field,
    p: Seq<TokenKind<Seq<char>>>,
    xs: Seq<Literal<Seq<char>>>,
    q: Seq<Lexeme>,
)
    requires
        0 < p.len() == xs.len(),
        forall|k: int| 0 <= k < p.len() ==> reads_literal(f, #[trigger] p[k], xs[k]),
        kinds(q) == seq![TokenKind::Word(field_name(f))] + (seq![TokenKind::In] + (seq![
            TokenKind::LeftBrace,
        ] + set_kinds(p))),
    ensures
        operand(q, Formula::Predicate(f, Test::In(xs))),
{
    let w = TokenKind::Word(field_name(f));
    let e = Formula::Predicate(f, Test::In(xs));
    let braced = seq![TokenKind::LeftBrace] + set_kinds(p);
    let (q1, q2) = lemma_parts(q, seq![w], seq![TokenKind::In] + braced);
    let (q3, q4) = lemma_parts(q2, seq![TokenKind::In], braced);
    let (q5, q6) = lemma_parts(q4, seq![TokenKind::LeftBrace], set_kinds(p));
    lemma_one(q1, w);
    lemma_one(q3, TokenKind::In);
    lemma_one(q5, TokenKind::LeftBrace);
    lemma_field_name(f);
    assert forall|rest: Seq<Lexeme>| rest.len() > 0 implies #[trigger] not_expr(q + rest)
        == Parsed::Done(e, rest) by {
        lemma_set_read(f, p, xs, q6, rest, Seq::empty());
        lemma_set_predicate(f, xs, q1[0], q3[0], q5[0], q6 + rest, rest);
        assert(Seq::<Literal<Seq<char>>>::empty() + xs =~= xs);
        assert(q + rest =~= seq![q1[0], q3[0], q5[0]] + (q6 + rest));
    }
}

proof fn lemma_set_predicate(
    f: Field,
    xs: Seq<Literal<Seq<char>>>,
    w: Lexeme,
    op: Lexeme,
    open: Lexeme,
    body: Seq<Lexeme>,
    rest: Seq<Lexeme>,
)
    requires
        w.kind == TokenKind::Word(field_name(f)),
        field_named(field_name(f)) == Some(f),
        op.kind is In,
        open.kind is LeftBrace,
        body.len() > 0,
        !(body[0].kind is RightBrace),
        set_from(f, body, Seq::empty()) == Parsed::Done(xs, rest),
    ensures
        not_expr(seq![w, op, open] + body) == Parsed::Done(
            Formula::Predicate(f, Test::In(xs)),
            rest,
        ),
{
    let u = seq![w, op, open] + body;
    let u1 = u.skip(1);
    let u2 = u1.skip(1);
    assert(u[0] == w && u1[0] == op && u2[0] == open);
    assert(u2.skip(1) =~= body);
    assert(behind(u1) == u2);
    assert(set_literal(f, u2) == Parsed::Done(xs, rest));
    assert(test_of(f, u1) == Parsed::Done(Test::In(xs), rest));
    assert(primary(u) == predicate_of(u));
}

/// A test of a field against a set of values is an operand.
pub proof fn set_tests_are_operands(
    f: Field,
    values: Seq<Seq<char>>,
    xs: Seq<Literal<Seq<char>>>,
)
    requires
        0 < values.len() == xs.len(),
        forall|k: int| 0 <= k < xs.len() ==> literal_text(f, #[trigger] values[k], xs[k]),
    ensures
        operand_text(set_text(f, values), Formula::Predicate(f, Test::In(xs))),
{
    let name = field_name(f);
    let w = TokenKind::Word(name);
    let e = Formula::Predicate(f, Test::In(xs));
    let p = Seq::new(values.len(), |k: int| lexed(values[k], 0)->0[0]);
    assert forall|k: int| 0 <= k < p.len() implies lexed(#[trigger] values[k], 0) == Some(
        seq![p[k]],
    ) by {
        assert(literal_text(f, values[k], xs[k]));
        assert(lexed(values[k], 0)->0 =~= seq![p[k]]);
    }
    assert forall|k: int| 0 <= k < p.len() implies reads_literal(f, #[trigger] p[k], xs[k]) by {
        assert(literal_text(f, values[k], xs[k]));
    }
    reveal_strlit("{");
    lemma_field_name(f);
    lemma_operators();
    lemma_set_body(values, p);
    lemma_mark('{', TokenKind::LeftBrace, set_body(values));
    assert("{"@ =~= seq!['{']);
    lemma_operator("in"@, TokenKind::In, "{"@ + set_body(values));
    lemma_joined(name, " "@ + "in"@ + " "@ + ("{"@ + set_body(values)));
    let braced = seq![TokenKind::LeftBrace] + set_kinds(p);
    let tail = seq![TokenKind::In] + braced;
    assert(lexed(set_text(f, values), 0) == Some(seq![w] + tail));
    assert(set_text(f, values)[0] == name[0]);
    assert forall|q: Seq<Lexeme>| #[trigger] kinds(q) == seq![w] + tail implies operand(q, e) by {
        lemma_set_operand(f, p, xs, q);
    }
}

/// `f in {v1, ..., vn}` shows what one of `f == v1` to `f == vn` shows.
pub proof fn in_is_one_of_the_equalities(
    f: Field,
    values: Seq<Seq<char>>,
    xs: Seq<Literal<Seq<char>>>,
    m: MessageView,
)
    requires
        0 < values.len() == xs.len(),
        forall|k: int| 0 <= k < xs.len() ==> literal_text(f, #[trigger] values[k], xs[k]),
    ensures
        filter_of(set_text(f, values)) is Ok,
        shown_by(set_text(f, values), m) == exists|k: int|
            0 <= k < values.len() && shown_by(
                comparison_text(f, "=="@, #[trigger] values[k]),
                m,
            ),
{
    let e = Formula::Predicate(f, Test::In(xs));
    set_tests_are_operands(f, values, xs);
    operands_are_filters(set_text(f, values), e);
    assert(holds(e, m) == one_of(f, xs, m));
    assert forall|k: int| 0 <= k < values.len() implies shown_by(
        comparison_text(f, "=="@, #[trigger] values[k]),
        m,
    ) == field_equals(f, xs[k], m) by {
        assert(literal_text(f, values[k], xs[k]));
        comparisons_are_operands(f, values[k], xs[k]);
        let one = Formula::Predicate(f, Test::Equal(xs[k]));
        operands_are_filters(comparison_text(f, "=="@, values[k]), one);
        assert(holds(one, m) == field_equals(f, xs[k], m));
    }
    if one_of(f, xs, m) {
        let k = choose|k: int| 0 <= k < xs.len() && field_equals(f, #[trigger] xs[k], m);
        assert(shown_by(comparison_text(f, "=="@, values[k]), m));
    }
}

// --- what literals stand for ------------------------------------------------------------------

/// How a character is written in a quoted literal.
pub open spec fn escape(c: char) -> Seq<char> {
    if c == '"' {
        seq!['\\', '"']
    } else if c == '\\' {
        seq!['\\', '\\']
    } else if c == '\n' {
        seq!['\\', 'n']
    } else if c == '\r' {
        seq!['\\', 'r']
    } else if c == '\t' {
        seq!['\\', 't']
    } else {
        seq![c]
    }
}

pub open spec fn escaped(w: Seq<char>) -> Seq<char>
    decreases w.len(),
{
    if w.len() == 0 {
        Seq::empty()
    } else {
        escape(w[0]) + escaped(w.skip(1))
    }
}

/// A text as a quoted literal.
pub open spec fn in_quotes(w: Seq<char>) -> Seq<char> {
    seq!['"'] + escaped(w) + seq!['"']
}

#[verifier::rlimit(30)]
proof fn lemma_escaped(p: Seq<char>, w: Seq<char>, start: nat, value: Seq<char>)
    ensures
        string_from(p + escaped(w) + seq!['"'], start, p.len(), false, value) == Ok::<
            (TokenKind<Seq<char>>, nat),
            Complaint,
        >((TokenKind::Text(value + w), p.len() + escaped(w).len() + 1)),
    decreases w.len(),
{
    let s = p + escaped(w) + seq!['"'];
    let j = p.len() as int;
    if w.len() == 0 {
        assert(s[j] == '"');
        assert(value + w =~= value);
    } else {
        let c = w[0];
        let e = escape(c);
        let rest = w.skip(1);
        assert(s =~= (p + e) + escaped(rest) + seq!['"']);
        assert(s[j] == e[0]);
        lemma_escaped(p + e, rest, start, value.push(c));
        assert(value.push(c) + rest =~= value + w);
        if e.len() == 2 {
            assert(s[j + 1] == e[1]);
        }
    }
}

/// A quoted literal is one token, which stands for the text.
proof fn lemma_in_quotes(w: Seq<char>)
    ensures
        lexed(in_quotes(w), 0) == Some(seq![TokenKind::Text(w)]),
{
    let s = in_quotes(w);
    let p = seq!['"'];
    assert(s =~= p + escaped(w) + seq!['"']);
    lemma_escaped(p, w, 0, Seq::empty());
    assert(Seq::<char>::empty() + w =~= w);
    assert(s[0] == '"');
    assert(token_at(s, 0) == Ok::<(TokenKind<Seq<char>>, nat), Complaint>(
        (TokenKind::Text(w), s.len()),
    ));
    assert(lexed(s, s.len()) == Some(Seq::<TokenKind<Seq<char>>>::empty()));
    assert(seq![TokenKind::Text(w)] + Seq::<TokenKind<Seq<char>>>::empty() =~= seq![
        TokenKind::Text(w),
    ]);
}

/// A number is one word.
proof fn lemma_number(n: nat)
    ensures
        lexed(dec(n), 0) == Some(seq![TokenKind::Word(dec(n))]),
{
    lemma_digits(n);
    let w = dec(n);
    assert forall|k: int| 0 <= k < w.len() implies !ends_word(#[trigger] w[k]) by {
        assert('0' <= w[k] <= '9');
    }
    assert('0' <= w[0] <= '9');
    lemma_word(w);
    reveal_strlit("or");
    reveal_strlit("and");
    reveal_strlit("not");
    reveal_strlit("in");
    reveal_strlit("contains");
    reveal_strlit("matches");
    lemma_nocase(w, "and"@);
    lemma_nocase(w, "or"@);
    lemma_nocase(w, "not"@);
    lemma_nocase(w, "contains"@);
    lemma_nocase(w, "matches"@);
    lemma_nocase(w, "in"@);
}

proof fn lemma_digits(n: nat)
    ensures
        dec(n).len() > 0,
        forall|k: int| 0 <= k < dec(n).len() ==> '0' <= #[trigger] dec(n)[k] <= '9',
    decreases n,
{
    if n >= 10 {
        lemma_digits(n / 10);
    }
}

/// The order marks.
proof fn lemma_order_marks()
    ensures
        lexed("<"@, 0) == Some(seq![TokenKind::<Seq<char>>::Less]),
        lexed("<="@, 0) == Some(seq![TokenKind::<Seq<char>>::LessEqual]),
        lexed(">"@, 0) == Some(seq![TokenKind::<Seq<char>>::Greater]),
        lexed(">="@, 0) == Some(seq![TokenKind::<Seq<char>>::GreaterEqual]),
        lexed("contains"@, 0) == Some(seq![TokenKind::<Seq<char>>::Contains]),
        lexed("matches"@, 0) == Some(seq![TokenKind::<Seq<char>>::Matches]),
{
    reveal_strlit("<");
    reveal_strlit("<=");
    reveal_strlit(">");
    reveal_strlit(">=");
    let none = Seq::<TokenKind<Seq<char>>>::empty();
    assert("<"@ =~= seq!['<']);
    assert("<="@ =~= seq!['<', '=']);
    assert(">"@ =~= seq!['>']);
    assert(">="@ =~= seq!['>', '=']);
    assert(mark_at("<"@, 0) == Some((TokenKind::<Seq<char>>::Less, 1nat)));
    assert(mark_at("<="@, 0) == Some((TokenKind::<Seq<char>>::LessEqual, 2nat)));
    assert(mark_at(">"@, 0) == Some((TokenKind::<Seq<char>>::Greater, 1nat)));
    assert(mark_at(">="@, 0) == Some((TokenKind::<Seq<char>>::GreaterEqual, 2nat)));
    assert(lexed("<"@, 1) == Some(none));
    assert(lexed("<="@, 2) == Some(none));
    assert(lexed(">"@, 1) == Some(none));
    assert(lexed(">="@, 2) == Some(none));
    assert(seq![TokenKind::<Seq<char>>::Less] + none =~= seq![TokenKind::<Seq<char>>::Less]);
    assert(seq![TokenKind::<Seq<char>>::LessEqual] + none =~= seq![
        TokenKind::<Seq<char>>::LessEqual,
    ]);
    assert(seq![TokenKind::<Seq<char>>::Greater] + none =~= seq![TokenKind::<Seq<char>>::Greater]);
    assert(seq![TokenKind::<Seq<char>>::GreaterEqual] + none =~= seq![
        TokenKind::<Seq<char>>::GreaterEqual,
    ]);
    lemma_text_operators();
}

proof fn lemma_text_operators()
    ensures
        lexed("contains"@, 0) == Some(seq![TokenKind::<Seq<char>>::Contains]),
        lexed("matches"@, 0) == Some(seq![TokenKind::<Seq<char>>::Matches]),
{
    reveal_strlit("or");
    reveal_strlit("and");
    reveal_strlit("not");
    reveal_strlit("contains");
    reveal_strlit("matches");
    lemma_word("contains"@);
    lemma_word("matches"@);
    lemma_nocase("contains"@, "and"@);
    lemma_nocase("contains"@, "or"@);
    lemma_nocase("contains"@, "not"@);
    lemma_nocase("matches"@, "and"@);
    lemma_nocase("matches"@, "or"@);
    lemma_nocase("matches"@, "not"@);
    lemma_nocase("matches"@, "contains"@);
    lemma_nocase("contains"@, "contains"@);
    lemma_nocase("matches"@, "matches"@);
}

/// Whether an operator takes one more token behind a field, as a test.
#[verifier::opaque]
spec fn takes(f: Field, op: TokenKind<Seq<char>>, k: TokenKind<Seq<char>>, test: Test) -> bool {
    test_of(
        f,
        seq![
            Lexeme { kind: op, position: 0 },
            Lexeme { kind: k, position: 0 },
            Lexeme { kind: TokenKind::End, position: 0 },
        ],
    ) matches Parsed::Done(t, r) && t == test && r.len() == 1
}

/// What an operator takes it takes whatever follows.
#[verifier::rlimit(30)]
proof fn lemma_takes(
    f: Field,
    op: TokenKind<Seq<char>>,
    k: TokenKind<Seq<char>>,
    test: Test,
    q: Seq<Lexeme>,
    rest: Seq<Lexeme>,
)
    requires
        takes(f, op, k, test),
        kinds(q) == seq![op] + seq![k],
        !(op is In),
        !(op is End),
        !(k is End),
        rest.len() > 0,
    ensures
        test_of(f, q + rest) == Parsed::Done(test, rest),
{
    reveal(takes);
    let t = seq![
        Lexeme { kind: op, position: 0 },
        Lexeme { kind: k, position: 0 },
        Lexeme { kind: TokenKind::<Seq<char>>::End, position: 0 },
    ];
    assert(kinds(t.drop_last()) =~= seq![op] + seq![k]);
    assert(ended(t));
    lemma_plain_test_moves(f, t, q, rest);
}

/// A field's name before a test that reads is an operand.
proof fn lemma_field_test(f: Field, w: Lexeme, q: Seq<Lexeme>, rest: Seq<Lexeme>, test: Test)
    requires
        w.kind == TokenKind::Word(field_name(f)),
        test_of(f, q + rest) == Parsed::Done(test, rest),
    ensures
        not_expr((seq![w] + q) + rest) == Parsed::Done(Formula::Predicate(f, test), rest),
{
    let u = (seq![w] + q) + rest;
    lemma_field_name(f);
    assert(u[0] == w);
    assert(u.skip(1) =~= q + rest);
    assert(primary(u) == predicate_of(u));
}

/// A field's name, an operator and one more token read as an operand, where the operator takes
/// the token.
proof fn lemma_plain_operand(
    f: Field,
    op: TokenKind<Seq<char>>,
    k: TokenKind<Seq<char>>,
    test: Test,
    q: Seq<Lexeme>,
)
    requires
        kinds(q) == seq![TokenKind::Word(field_name(f))] + (seq![op] + seq![k]),
        !(op is In),
        !(op is End),
        !(k is End),
        takes(f, op, k, test),
    ensures
        operand(q, Formula::Predicate(f, test)),
{
    let (q1, q2) = lemma_parts(q, seq![TokenKind::Word(field_name(f))], seq![op] + seq![k]);
    lemma_one(q1, TokenKind::Word(field_name(f)));
    assert forall|rest: Seq<Lexeme>| rest.len() > 0 implies #[trigger] not_expr(q + rest)
        == Parsed::Done(Formula::Predicate(f, test), rest) by {
        lemma_takes(f, op, k, test, q2, rest);
        lemma_field_test(f, q1[0], q2, rest, test);
    }
}

/// A predicate of a field, an operator and one more token shows what its test passes.
#[verifier::rlimit(30)]
proof fn lemma_plain_predicate(
    f: Field,
    op_text: Seq<char>,
    op: TokenKind<Seq<char>>,
    v: Seq<char>,
    k: TokenKind<Seq<char>>,
    test: Test,
)
    requires
        lexed(op_text, 0) == Some(seq![op]),
        lexed(v, 0) == Some(seq![k]),
        !(op is In),
        !(op is End),
        !(k is End),
        takes(f, op, k, test),
    ensures
        operand_text(comparison_text(f, op_text, v), Formula::Predicate(f, test)),
        filter_of(comparison_text(f, op_text, v)) is Ok,
        forall|m: MessageView| #[trigger]
            shown_by(comparison_text(f, op_text, v), m) == passes(f, test, m),
{
    let name = field_name(f);
    let e = Formula::Predicate(f, test);
    lemma_field_name(f);
    lemma_operator(op_text, op, v);
    lemma_joined(name, " "@ + op_text + " "@ + v);
    let text = comparison_text(f, op_text, v);
    assert(text[0] == name[0]);
    assert forall|q: Seq<Lexeme>| #[trigger]
        kinds(q) == seq![TokenKind::Word(name)] + (seq![op] + seq![k]) implies operand(q, e) by {
        lemma_plain_operand(f, op, k, test, q);
    }
    operands_are_filters(text, e);
    assert forall|m: MessageView| #[trigger] shown_by(text, m) == passes(f, test, m) by {
        assert(holds(e, m) == passes(f, test, m));
    }
}

/// A port held against a number shows the messages whose client's port stands in that relation
/// to the number: `<`, `<=`, `>`, `>=`, `==` and `!=` mean what they mean of integers.
pub proof fn ports_compare_as_integers(port: u16, m: MessageView)
    ensures
        shown_by("client.port"@ + (" "@ + "<"@ + " "@ + dec(port as nat)), m) <==> m.client.port
            < port,
        shown_by("client.port"@ + (" "@ + "<="@ + " "@ + dec(port as nat)), m) <==> m.client.port
            <= port,
        shown_by("client.port"@ + (" "@ + ">"@ + " "@ + dec(port as nat)), m) <==> m.client.port
            > port,
        shown_by("client.port"@ + (" "@ + ">="@ + " "@ + dec(port as nat)), m) <==> m.client.port
            >= port,
        shown_by("client.port"@ + (" "@ + "=="@ + " "@ + dec(port as nat)), m) <==> m.client.port
            == port,
        shown_by("client.port"@ + (" "@ + "!="@ + " "@ + dec(port as nat)), m) <==> m.client.port
            != port,
        filter_of("client.port"@ + (" "@ + "<"@ + " "@ + dec(port as nat))) is Ok,
        filter_of("client.port"@ + (" "@ + "<="@ + " "@ + dec(port as nat))) is Ok,
        filter_of("client.port"@ + (" "@ + ">"@ + " "@ + dec(port as nat))) is Ok,
        filter_of("client.port"@ + (" "@ + ">="@ + " "@ + dec(port as nat))) is Ok,
        filter_of("client.port"@ + (" "@ + "=="@ + " "@ + dec(port as nat))) is Ok,
        filter_of("client.port"@ + (" "@ + "!="@ + " "@ + dec(port as nat))) is Ok,
{
    lemma_order_marks();
    lemma_operators();
    lemma_port_order("<"@, TokenKind::Less, crate::filter::OrdOp::Less, port, m);
    lemma_port_order("<="@, TokenKind::LessEqual, crate::filter::OrdOp::LessEqual, port, m);
    lemma_port_order(">"@, TokenKind::Greater, crate::filter::OrdOp::Greater, port, m);
    lemma_port_order(">="@, TokenKind::GreaterEqual, crate::filter::OrdOp::GreaterEqual, port, m);
    lemma_port_equal(port, m);
}

proof fn lemma_port_order(
    op_text: Seq<char>,
    op: TokenKind<Seq<char>>,
    o: crate::filter::OrdOp,
    port: u16,
    m: MessageView,
)
    requires
        lexed(op_text, 0) == Some(seq![op]),
        op is Less || op is LessEqual || op is Greater || op is GreaterEqual,
        crate::filter::ord_op(op) == Some(o),
    ensures
        filter_of("client.port"@ + (" "@ + op_text + " "@ + dec(port as nat))) is Ok,
        shown_by("client.port"@ + (" "@ + op_text + " "@ + dec(port as nat)), m)
            == crate::filter::ordered(o, m.client.port, port),
{
    let v = dec(port as nat);
    let k = TokenKind::Word(v);
    let f = Field::ClientPort;
    lemma_number(port as nat);
    crate::text_laws::numbers_read_back(port as nat, 65535);
    let test = Test::Ordered(o, port);
    lemma_port_test(op, o, port);
    lemma_plain_predicate(f, op_text, op, v, k, test);
    assert(comparison_text(f, op_text, v) == "client.port"@ + (" "@ + op_text + " "@ + v));
    assert(shown_by(comparison_text(f, op_text, v), m) == passes(f, test, m));
}

proof fn lemma_port_test(op: TokenKind<Seq<char>>, o: crate::filter::OrdOp, port: u16)
    requires
        op is Less || op is LessEqual || op is Greater || op is GreaterEqual,
        crate::filter::ord_op(op) == Some(o),
    ensures
        takes(
            Field::ClientPort,
            op,
            TokenKind::Word(dec(port as nat)),
            Test::Ordered(o, port),
        ),
{
    reveal(takes);
    crate::text_laws::numbers_read_back(port as nat, 65535);
}

proof fn lemma_port_equal(port: u16, m: MessageView)
    ensures
        filter_of("client.port"@ + (" "@ + "=="@ + " "@ + dec(port as nat))) is Ok,
        filter_of("client.port"@ + (" "@ + "!="@ + " "@ + dec(port as nat))) is Ok,
        shown_by("client.port"@ + (" "@ + "=="@ + " "@ + dec(port as nat)), m) == (m.client.port
            == port),
        shown_by("client.port"@ + (" "@ + "!="@ + " "@ + dec(port as nat)), m) == (m.client.port
            != port),
{
    let v = dec(port as nat);
    let x = Literal::<Seq<char>>::Port(port);
    lemma_number(port as nat);
    lemma_port_literal(port);
    lemma_equality(Field::ClientPort, v, x, m);
}

proof fn lemma_port_literal(port: u16)
    ensures
        reads_literal(
            Field::ClientPort,
            TokenKind::Word(dec(port as nat)),
            Literal::Port(port),
        ),
{
    reveal(reads_literal);
    crate::text_laws::numbers_read_back(port as nat, 65535);
}

/// Equality with a literal, and its opposite.
proof fn lemma_equality(f: Field, v: Seq<char>, x: Literal<Seq<char>>, m: MessageView)
    requires
        literal_text(f, v, x),
    ensures
        filter_of(field_name(f) + (" "@ + "=="@ + " "@ + v)) is Ok,
        filter_of(field_name(f) + (" "@ + "!="@ + " "@ + v)) is Ok,
        shown_by(field_name(f) + (" "@ + "=="@ + " "@ + v), m) == field_equals(f, x, m),
        shown_by(field_name(f) + (" "@ + "!="@ + " "@ + v), m) == !field_equals(f, x, m),
{
    comparisons_are_operands(f, v, x);
    let e = Formula::Predicate(f, Test::Equal(x));
    let n = Formula::Predicate(f, Test::NotEqual(x));
    operands_are_filters(comparison_text(f, "=="@, v), e);
    operands_are_filters(comparison_text(f, "!="@, v), n);
    assert(holds(e, m) == field_equals(f, x, m));
    assert(holds(n, m) == !field_equals(f, x, m));
}

/// A type or text held against a quoted literal shows the messages of that very type or text,
/// case and all, or with `!=` the others; `contains` shows those in which the literal occurs.
pub proof fn texts_compare_character_by_character(w: Seq<char>, m: MessageView)
    ensures
        shown_by("message.type"@ + (" "@ + "=="@ + " "@ + in_quotes(w)), m) <==> m.kind == w,
        shown_by("message.type"@ + (" "@ + "!="@ + " "@ + in_quotes(w)), m) <==> m.kind != w,
        shown_by("message.text"@ + (" "@ + "=="@ + " "@ + in_quotes(w)), m) <==> m.text == w,
        shown_by("message.text"@ + (" "@ + "!="@ + " "@ + in_quotes(w)), m) <==> m.text != w,
        shown_by("message.type"@ + (" "@ + "contains"@ + " "@ + in_quotes(w)), m) <==> exists|
            a: Seq<char>,
            b: Seq<char>,
        |
            m.kind == #[trigger] (a + w + b),
        shown_by("message.text"@ + (" "@ + "contains"@ + " "@ + in_quotes(w)), m) <==> exists|
            a: Seq<char>,
            b: Seq<char>,
        |
            m.text == #[trigger] (a + w + b),
{
    lemma_in_quotes(w);
    lemma_quoted_literal(w);
    lemma_equality(Field::MessageType, in_quotes(w), Literal::Text(w), m);
    lemma_equality(Field::MessageText, in_quotes(w), Literal::Text(w), m);
    lemma_contains(w, m);
}

proof fn lemma_quoted_literal(w: Seq<char>)
    ensures
        reads_literal(Field::MessageType, TokenKind::Text(w), Literal::Text(w)),
        reads_literal(Field::MessageText, TokenKind::Text(w), Literal::Text(w)),
        crate::filter::direction_named(w) matches Some(d) ==> reads_literal(
            Field::MessageDirection,
            TokenKind::Text(w),
            Literal::Direction(d),
        ),
        crate::addr::ip_of(w) matches Some(ip) ==> reads_literal(
            Field::ClientIp,
            TokenKind::Text(w),
            Literal::Ip(ip),
        ) && reads_literal(Field::ClientIp, TokenKind::Word(w), Literal::Ip(ip)),
{
    reveal(reads_literal);
}

proof fn lemma_text_tests(w: Seq<char>)
    ensures
        takes(Field::MessageType, TokenKind::Contains, TokenKind::Text(w), Test::Contains(w)),
        takes(Field::MessageText, TokenKind::Contains, TokenKind::Text(w), Test::Contains(w)),
        crate::filter::compiled(w, true) matches Ok(pattern) ==> takes(
            Field::MessageType,
            TokenKind::Matches,
            TokenKind::Text(w),
            Test::Matches(pattern),
        ) && takes(
            Field::MessageText,
            TokenKind::Matches,
            TokenKind::Text(w),
            Test::Matches(pattern),
        ),
{
    reveal(takes);
}

proof fn lemma_contains(w: Seq<char>, m: MessageView)
    ensures
        shown_by("message.type"@ + (" "@ + "contains"@ + " "@ + in_quotes(w)), m) <==> exists|
            a: Seq<char>,
            b: Seq<char>,
        |
            m.kind == #[trigger] (a + w + b),
        shown_by("message.text"@ + (" "@ + "contains"@ + " "@ + in_quotes(w)), m) <==> exists|
            a: Seq<char>,
            b: Seq<char>,
        |
            m.text == #[trigger] (a + w + b),
{
    let v = in_quotes(w);
    let k = TokenKind::Text(w);
    lemma_in_quotes(w);
    lemma_order_marks();
    lemma_text_tests(w);
    lemma_plain_predicate(
        Field::MessageType,
        "contains"@,
        TokenKind::Contains,
        v,
        k,
        Test::Contains(w),
    );
    lemma_plain_predicate(
        Field::MessageText,
        "contains"@,
        TokenKind::Contains,
        v,
        k,
        Test::Contains(w),
    );
    lemma_runs(m.kind, w);
    lemma_runs(m.text, w);
}

proof fn lemma_runs(hay: Seq<char>, w: Seq<char>)
    ensures
        crate::text::has_run(hay, w) <==> exists|a: Seq<char>, b: Seq<char>|
            hay == #[trigger] (a + w + b),
{
    crate::text_laws::runs_are_parts(Seq::empty(), w, Seq::empty(), hay);
    assert forall|a: Seq<char>, b: Seq<char>| hay == #[trigger] (a
        + w + b) implies crate::text::has_run(hay, w) by {
        crate::text_laws::runs_are_parts(a, w, b, hay);
    }
}

/// `matches` shows the messages in whose type or text the pattern is found, whatever the case.
pub proof fn patterns_are_searched_for(w: Seq<char>, m: MessageView)
    requires
        crate::filter::compiled(w, true) is Ok,
    ensures
        ({
            let pattern = crate::filter::compiled(w, true)->Ok_0;
            &&& shown_by("message.type"@ + (" "@ + "matches"@ + " "@ + in_quotes(w)), m)
                == crate::filter::regex_finds(pattern, m.kind)
            &&& shown_by("message.text"@ + (" "@ + "matches"@ + " "@ + in_quotes(w)), m)
                == crate::filter::regex_finds(pattern, m.text)
        }),
{
    let pattern = crate::filter::compiled(w, true)->Ok_0;
    let v = in_quotes(w);
    let k = TokenKind::Text(w);
    lemma_in_quotes(w);
    lemma_order_marks();
    lemma_text_tests(w);
    lemma_plain_predicate(
        Field::MessageType,
        "matches"@,
        TokenKind::Matches,
        v,
        k,
        Test::Matches(pattern),
    );
    lemma_plain_predicate(
        Field::MessageText,
        "matches"@,
        TokenKind::Matches,
        v,
        k,
        Test::Matches(pattern),
    );
}

/// `f2b` is the direction from the client to the server, and `b2f` the other.
pub proof fn directions_are_named(m: MessageView)
    ensures
        shown_by("message.direction"@ + (" "@ + "=="@ + " "@ + in_quotes("f2b"@)), m)
            <==> m.direction is FrontendToBackend,
        shown_by("message.direction"@ + (" "@ + "=="@ + " "@ + in_quotes("b2f"@)), m)
            <==> m.direction is BackendToFrontend,
        shown_by("message.direction"@ + (" "@ + "!="@ + " "@ + in_quotes("f2b"@)), m)
            <==> m.direction is BackendToFrontend,
        shown_by("message.direction"@ + (" "@ + "!="@ + " "@ + in_quotes("b2f"@)), m)
            <==> m.direction is FrontendToBackend,
{
    reveal_strlit("f2b");
    reveal_strlit("b2f");
    reveal_strlit("F→B");
    reveal_strlit("B→F");
    assert("f2b"@[0] == 'f' && "b2f"@[0] == 'b' && "F→B"@[0] == 'F' && "B→F"@[0] == 'B');
    lemma_direction("f2b"@, crate::filter::MessageDirection::FrontendToBackend, m);
    lemma_direction("b2f"@, crate::filter::MessageDirection::BackendToFrontend, m);
}

proof fn lemma_direction(w: Seq<char>, d: crate::filter::MessageDirection, m: MessageView)
    requires
        crate::filter::direction_named(w) == Some(d),
    ensures
        shown_by("message.direction"@ + (" "@ + "=="@ + " "@ + in_quotes(w)), m) == (m.direction
            == d),
        shown_by("message.direction"@ + (" "@ + "!="@ + " "@ + in_quotes(w)), m) == (m.direction
            != d),
{
    lemma_in_quotes(w);
    lemma_quoted_literal(w);
    lemma_equality(Field::MessageDirection, in_quotes(w), Literal::Direction(d), m);
}

/// An address held against the text of an address shows the messages of the client that has
/// it, in quotes or bare.
pub proof fn addresses_compare_by_value(ip: crate::addr::IpAddr, w: Seq<char>, m: MessageView)
    requires
        crate::addr::ip_of(w) == Some(ip),
    ensures
        shown_by("client.ip"@ + (" "@ + "=="@ + " "@ + in_quotes(w)), m) <==> m.client.ip == ip,
        shown_by("client.ip"@ + (" "@ + "!="@ + " "@ + in_quotes(w)), m) <==> m.client.ip != ip,
        lexed(w, 0) == Some(seq![TokenKind::Word(w)]) ==> (shown_by(
            "client.ip"@ + (" "@ + "=="@ + " "@ + w),
            m,
        ) <==> m.client.ip == ip),
{
    lemma_in_quotes(w);
    lemma_quoted_literal(w);
    lemma_equality(Field::ClientIp, in_quotes(w), Literal::Ip(ip), m);
    if lexed(w, 0) == Some(seq![TokenKind::Word(w)]) {
        lemma_equality(Field::ClientIp, w, Literal::Ip(ip), m);
    }
}

/// A raw literal stands for the characters between its quotes, backslashes too.
pub proof fn raw_literals_stand_for_themselves(w: Seq<char>, m: MessageView)
    requires
        forall|i: int| 0 <= i < w.len() ==> #[trigger] w[i] != '"',
    ensures
        shown_by("message.type"@ + (" "@ + "=="@ + " "@ + (seq!['r', '"'] + w + seq!['"'])), m)
            <==> m.kind == w,
        shown_by("message.text"@ + (" "@ + "=="@ + " "@ + (seq!['r', '"'] + w + seq!['"'])), m)
            <==> m.text == w,
{
    lemma_raw(w);
    lemma_quoted_literal(w);
    let v = seq!['r', '"'] + w + seq!['"'];
    lemma_equality(Field::MessageType, v, Literal::Text(w), m);
    lemma_equality(Field::MessageText, v, Literal::Text(w), m);
}

proof fn lemma_raw_from(p: Seq<char>, w: Seq<char>, start: nat, value: Seq<char>)
    requires
        forall|i: int| 0 <= i < w.len() ==> #[trigger] w[i] != '"',
    ensures
        string_from(p + w + seq!['"'], start, p.len(), true, value) == Ok::<
            (TokenKind<Seq<char>>, nat),
            Complaint,
        >((TokenKind::Text(value + w), p.len() + w.len() + 1)),
    decreases w.len(),
{
    let s = p + w + seq!['"'];
    let j = p.len() as int;
    if w.len() == 0 {
        assert(s[j] == '"');
        assert(value + w =~= value);
    } else {
        let rest = w.skip(1);
        assert forall|i: int| 0 <= i < rest.len() implies #[trigger] rest[i] != '"' by {
            assert(rest[i] == w[i + 1]);
        }
        assert(s[j] == w[0]);
        assert(s =~= p.push(w[0]) + rest + seq!['"']);
        lemma_raw_from(p.push(w[0]), rest, start, value.push(w[0]));
        assert(value.push(w[0]) + rest =~= value + w);
    }
}

proof fn lemma_raw(w: Seq<char>)
    requires
        forall|i: int| 0 <= i < w.len() ==> #[trigger] w[i] != '"',
    ensures
        lexed(seq!['r', '"'] + w + seq!['"'], 0) == Some(seq![TokenKind::Text(w)]),
{
    let p = seq!['r', '"'];
    let s = p + w + seq!['"'];
    lemma_raw_from(p, w, 0, Seq::empty());
    assert(Seq::<char>::empty() + w =~= w);
    assert(s[0] == 'r' && s[1] == '"');
    assert(token_at(s, 0) == Ok::<(TokenKind<Seq<char>>, nat), Complaint>(
        (TokenKind::Text(w), s.len()),
    ));
    assert(lexed(s, s.len()) == Some(Seq::<TokenKind<Seq<char>>>::empty()));
    assert(seq![TokenKind::Text(w)] + Seq::<TokenKind<Seq<char>>>::empty() =~= seq![
        TokenKind::Text(w),
    ]);
}

/// The reserved words are read whatever their case.
pub proof fn reserved_words_are_read_whatever_their_case(w: Seq<char>, u: Seq<char>)
    requires
        eq_ascii_nocase(w, u),
        !(word_kind(w) is Word),
    ensures
        word_kind(u) == word_kind(w),
{
}

// --- what is refused -----------------------------------------------------------------------------

/// Whether an operator and one more token are refused behind a field, wherever they stand.
spec fn refuses(f: Field, op: TokenKind<Seq<char>>, k: TokenKind<Seq<char>>) -> bool {
    forall|u: Seq<Lexeme>|
        u.len() == 3 && (#[trigger] u[0]).kind == op && u[1].kind == k && u[2].kind is End
            ==> test_of(f, u) is Failed
}

#[verifier::rlimit(30)]
proof fn lemma_refused(
    f: Field,
    op_text: Seq<char>,
    op: TokenKind<Seq<char>>,
    v: Seq<char>,
    k: TokenKind<Seq<char>>,
)
    requires
        lexed(op_text, 0) == Some(seq![op]),
        lexed(v, 0) == Some(seq![k]),
        refuses(f, op, k),
    ensures
        filter_of(comparison_text(f, op_text, v)) is Err,
{
    let name = field_name(f);
    let text = comparison_text(f, op_text, v);
    lemma_field_name(f);
    lemma_operator(op_text, op, v);
    lemma_joined(name, " "@ + op_text + " "@ + v);
    let p = seq![TokenKind::Word(name)] + (seq![op] + seq![k]);
    assert(lexed(text, 0) == Some(p));
    lemma_trimmed(text);
    let s = trim(text);
    lemma_lexed(s, 0);
    let t = tokens_of(s)->Ok_0;
    assert(kinds(t).len() == t.len());
    assert(kinds(t) == p.push(TokenKind::End));
    assert(kinds(t)[0] == t[0].kind && kinds(t)[1] == t[1].kind && kinds(t)[2] == t[2].kind
        && kinds(t)[3] == t[3].kind);
    if s.len() == 0 {
        assert(lexed(s, 0)->0.len() == 0);
    }
    let u = t.skip(1);
    assert(u[0] == t[1] && u[1] == t[2] && u[2] == t[3]);
    assert(test_of(f, u) is Failed);
    assert(predicate_of(t) is Failed);
    assert(primary(t) == predicate_of(t));
    assert(not_expr(t) is Failed);
    assert(and_expr(t) is Failed);
    assert(or_expr(t) is Failed);
}

/// A port is a number of at most 65,535.
pub proof fn great_numbers_are_no_ports(n: nat)
    requires
        n > 65_535,
    ensures
        filter_of("client.port"@ + (" "@ + "=="@ + " "@ + dec(n))) is Err,
        filter_of("client.port"@ + (" "@ + "<="@ + " "@ + dec(n))) is Err,
{
    lemma_number(n);
    lemma_operators();
    lemma_order_marks();
    crate::text_laws::numbers_read_back(n, 65535);
    lemma_refused(Field::ClientPort, "=="@, TokenKind::Equal, dec(n), TokenKind::Word(dec(n)));
    lemma_refused(Field::ClientPort, "<="@, TokenKind::LessEqual, dec(n), TokenKind::Word(dec(n)));
}

/// Only a port is ordered.
pub proof fn only_ports_are_ordered(f: Field, w: Seq<char>)
    requires
        f != Field::ClientPort,
    ensures
        filter_of(field_name(f) + (" "@ + "<"@ + " "@ + in_quotes(w))) is Err,
        filter_of(field_name(f) + (" "@ + "<="@ + " "@ + in_quotes(w))) is Err,
        filter_of(field_name(f) + (" "@ + ">"@ + " "@ + in_quotes(w))) is Err,
        filter_of(field_name(f) + (" "@ + ">="@ + " "@ + in_quotes(w))) is Err,
{
    lemma_in_quotes(w);
    lemma_order_marks();
    let v = in_quotes(w);
    let k = TokenKind::Text(w);
    lemma_refused(f, "<"@, TokenKind::Less, v, k);
    lemma_refused(f, "<="@, TokenKind::LessEqual, v, k);
    lemma_refused(f, ">"@, TokenKind::Greater, v, k);
    lemma_refused(f, ">="@, TokenKind::GreaterEqual, v, k);
}

/// Only a message's type and text are searched.
pub proof fn only_texts_are_searched(f: Field, w: Seq<char>)
    requires
        f == Field::ClientIp || f == Field::ClientPort || f == Field::MessageDirection,
    ensures
        filter_of(field_name(f) + (" "@ + "contains"@ + " "@ + in_quotes(w))) is Err,
        filter_of(field_name(f) + (" "@ + "matches"@ + " "@ + in_quotes(w))) is Err,
{
    lemma_in_quotes(w);
    lemma_order_marks();
    let v = in_quotes(w);
    let k = TokenKind::Text(w);
    lemma_refused(f, "contains"@, TokenKind::Contains, v, k);
    lemma_refused(f, "matches"@, TokenKind::Matches, v, k);
}

/// A type, a text and a direction are held against quoted literals only, and a direction only
/// against one that there is.
pub proof fn texts_must_be_quoted(n: nat, w: Seq<char>)
    requires
        crate::filter::direction_named(w) is None,
    ensures
        filter_of("message.type"@ + (" "@ + "=="@ + " "@ + dec(n))) is Err,
        filter_of("message.text"@ + (" "@ + "=="@ + " "@ + dec(n))) is Err,
        filter_of("message.direction"@ + (" "@ + "=="@ + " "@ + dec(n))) is Err,
        filter_of("message.direction"@ + (" "@ + "=="@ + " "@ + in_quotes(w))) is Err,
{
    lemma_in_quotes(w);
    lemma_number(n);
    lemma_operators();
    let k = TokenKind::Word(dec(n));
    lemma_refused(Field::MessageType, "=="@, TokenKind::Equal, dec(n), k);
    lemma_refused(Field::MessageText, "=="@, TokenKind::Equal, dec(n), k);
    lemma_refused(Field::MessageDirection, "=="@, TokenKind::Equal, dec(n), k);
    lemma_refused(
        Field::MessageDirection,
        "=="@,
        TokenKind::Equal,
        in_quotes(w),
        TokenKind::Text(w),
    );
}

/// A pattern that does not compile is refused.
pub proof fn bad_patterns_are_refused(w: Seq<char>)
    requires
        crate::filter::compiled(w, true) is Err,
    ensures
        filter_of("message.type"@ + (" "@ + "matches"@ + " "@ + in_quotes(w))) is Err,
        filter_of("message.text"@ + (" "@ + "matches"@ + " "@ + in_quotes(w))) is Err,
{
    lemma_in_quotes(w);
    lemma_order_marks();
    let v = in_quotes(w);
    let k = TokenKind::Text(w);
    lemma_refused(Field::MessageType, "matches"@, TokenKind::Matches, v, k);
    lemma_refused(Field::MessageText, "matches"@, TokenKind::Matches, v, k);
}

} // verus!
