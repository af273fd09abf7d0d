//! What numbers, lists and texts are written as, character by character.
use crate::text::{
    dec, dec_int, eq_ascii_nocase, has_run, hex_byte, is_space, join, split, trim, trim_end,
    trim_start, unsigned_value,
};
use vstd::prelude::*;

verus! {

/// The digits of a number are those of its tenth and then its last one.
pub proof fn decimals_grow_digit_by_digit(n: nat, d: nat)
    requires
        d < 10,
    ensures
        dec(d) == seq!["0123456789"@[d as int]],
        n > 0 ==> dec(10 * n + d) == dec(n).push("0123456789"@[d as int]),
{
    reveal_strlit("0123456789");
    if n > 0 {
        assert((10 * n + d) / 10 == n);
        assert((10 * n + d) % 10 == d);
    }
}

/// A negative number is a minus and its opposite.
pub proof fn negative_numbers_have_a_minus(n: nat)
    ensures
        dec_int(n as int) == dec(n),
        n > 0 ==> dec_int(-n) == seq!['-'] + dec(n),
{
}

/// A byte in hexadecimal is its greater digit, then its lesser.
pub proof fn bytes_have_two_hexadecimal_digits(high: nat, low: nat)
    requires
        high < 16,
        low < 16,
    ensures
        hex_byte((16 * high + low) as u8) == seq![
            "0123456789abcdef"@[high as int],
            "0123456789abcdef"@[low as int],
        ],
{
    reveal_strlit("0123456789abcdef");
    let b = (16 * high + low) as u8;
    assert(b as nat / 16 == high);
    assert(b as nat % 16 == low);
    assert(hex_byte(b) =~= seq![
        "0123456789abcdef"@[high as int],
        "0123456789abcdef"@[low as int],
    ]);
}

/// A number reads as what it was written from, with or without a plus and zeros before it, and
/// only up to the greatest one that is allowed.
pub proof fn numbers_read_back(n: nat, max: nat)
    ensures
        unsigned_value(dec(n), max) == (if n <= max {
            Some(n)
        } else {
            None
        }),
        unsigned_value(seq!['+'] + dec(n), max) == unsigned_value(dec(n), max),
        unsigned_value(Seq::empty(), max) is None,
        unsigned_value(seq!['+'], max) is None,
        unsigned_value(seq!['-'] + dec(n), max) is None,
{
    crate::text::dec_round_trip(n);
    let plus = seq!['+'] + dec(n);
    assert(plus.skip(1) =~= dec(n));
    assert(seq!['+'].skip(1).len() == 0);
    let minus = seq!['-'] + dec(n);
    assert(minus[0] == '-');
    lemma_first_digit(n);
}

proof fn lemma_first_digit(n: nat)
    ensures
        dec(n).len() > 0,
        '0' <= dec(n)[0] <= '9',
    decreases n,
{
    if n >= 10 {
        lemma_first_digit(n / 10);
    }
}

/// Joined parts stand in order with the separator between each two.
pub proof fn joined_parts_stand_in_order(a: Seq<Seq<char>>, one: Seq<char>, sep: Seq<char>)
    ensures
        join(Seq::empty(), sep) == Seq::<char>::empty(),
        join(seq![one], sep) == one,
        a.len() > 0 ==> join(a.push(one), sep) == join(a, sep) + sep + one,
{
    assert(a.push(one).drop_last() =~= a);
}

/// A text without separators is one piece.
pub proof fn a_text_without_separators_is_one_piece(one: Seq<char>, sep: char)
    requires
        forall|i: int| 0 <= i < one.len() ==> #[trigger] one[i] != sep,
    ensures
        split(one, sep) == seq![one],
    decreases one.len(),
{
    if one.len() > 0 {
        let less = one.drop_last();
        assert forall|i: int| 0 <= i < less.len() implies #[trigger] less[i] != sep by {
            assert(less[i] == one[i]);
        }
        a_text_without_separators_is_one_piece(less, sep);
        assert(one[one.len() - 1] != sep);
        assert(less.push(one.last()) =~= one);
        assert(split(one, sep) =~= seq![one]);
    } else {
        assert(one =~= Seq::empty());
    }
}

/// A separator and a piece without one, behind a text, are one piece more.
pub proof fn splitting_finds_each_piece(s: Seq<char>, one: Seq<char>, sep: char)
    requires
        forall|i: int| 0 <= i < one.len() ==> #[trigger] one[i] != sep,
    ensures
        split(s.push(sep) + one, sep) == split(s, sep).push(one),
    decreases one.len(),
{
    let t = s.push(sep) + one;
    if one.len() == 0 {
        assert(t =~= s.push(sep));
        assert(t.drop_last() =~= s);
        assert(one =~= Seq::empty());
    } else {
        let less = one.drop_last();
        assert forall|i: int| 0 <= i < less.len() implies #[trigger] less[i] != sep by {
            assert(less[i] == one[i]);
        }
        splitting_finds_each_piece(s, less, sep);
        assert(t.drop_last() =~= s.push(sep) + less);
        assert(t.last() == one[one.len() - 1]);
        assert(less.push(one.last()) =~= one);
        let before = split(s, sep).push(less);
        assert(before.drop_last() =~= split(s, sep));
    }
}

/// A text occurs in another exactly where that is made of something, the text and something.
pub proof fn runs_are_parts(front: Seq<char>, needle: Seq<char>, back: Seq<char>, hay: Seq<char>)
    ensures
        has_run(front + needle + back, needle),
        has_run(hay, Seq::empty()),
        has_run(hay, needle) ==> exists|a: Seq<char>, b: Seq<char>|
            hay == #[trigger] (a + needle + b),
{
    let whole = front + needle + back;
    let i = front.len() as int;
    assert(whole.subrange(i, i + needle.len()) =~= needle);
    let nothing = Seq::<char>::empty();
    assert(hay.subrange(0, 0int + nothing.len()) =~= nothing);
    if has_run(hay, needle) {
        let k = choose|k: int|
            0 <= k <= hay.len() - needle.len() && #[trigger] hay.subrange(k, k + needle.len())
                == needle;
        assert(hay =~= hay.take(k) + needle + hay.skip(k + needle.len()));
    }
}

/// Trimming takes off white space at both ends and nothing else.
pub proof fn trimming_takes_off_the_ends(s: Seq<char>, c: char)
    ensures
        is_space(c) ==> trim_start(seq![c] + s) == trim_start(s),
        is_space(c) ==> trim_end(s.push(c)) == trim_end(s),
        s.len() > 0 && !is_space(s[0]) && !is_space(s.last()) ==> trim(s) == s,
        trim(Seq::empty()).len() == 0,
        is_space(' ') && is_space('\t') && is_space('\n') && is_space('\r'),
        'a' <= c <= 'z' || 'A' <= c <= 'Z' || '0' <= c <= '9' || c == '"' || c == '(' || c == ')'
            || c == '{' || c == '}' || c == '/' || c == ':' || c == '~' ==> !is_space(c),
{
    assert((seq![c] + s).skip(1) =~= s);
    assert(s.push(c).drop_last() =~= s);
}

/// Equality up to case: letters may differ in case, and nothing else may.
pub proof fn case_alone_may_differ(a: Seq<char>, b: Seq<char>, i: int)
    ensures
        eq_ascii_nocase(a, a),
        eq_ascii_nocase(a, b) ==> a.len() == b.len(),
        eq_ascii_nocase(a, b) && 0 <= i < a.len() ==> a[i] == b[i] || ('a' <= a[i] <= 'z'
            && b[i] as int == a[i] as int - 32) || ('A' <= a[i] <= 'Z' && b[i] as int == a[i] as int
            + 32),
{
    let lower = |c: char| crate::text::ascii_lower(c);
    let u = a.map_values(lower);
    let v = b.map_values(lower);
    assert(u.len() == a.len() && v.len() == b.len());
    if eq_ascii_nocase(a, b) && 0 <= i < a.len() {
        assert(u[i] == v[i]);
    }
}

} // verus!
