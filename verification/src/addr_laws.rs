//! Reading an address back from its text gives the address.
use crate::addr::{
    after_char, before_char, double_colon, groups_in, groups_of, groups_text, groups_value, hex,
    hex_number, hex_value, hextet, hextets, index_of, ip_of, ip_text, ipv4_of, ipv4_text,
    ipv6_groups, ipv6_of, ipv6_text, longest_zeros, low_groups, octet, plain_number, socket_of,
    socket_text, socket_v4_of, zeros_at, IpAddr, SocketAddr,
};
use crate::text::{
    all_digits, dec, dec_round_trip, digit, digits_value, hex_digit, is_digit, join, split,
};
use vstd::prelude::*;

verus! {

// --- splitting ---------------------------------------------------------------------------

/// Whether `c` does not occur in `s`.
pub open spec fn lacks(s: Seq<char>, c: char) -> bool {
    forall|i: int| 0 <= i < s.len() ==> #[trigger] s[i] != c
}

proof fn lemma_split_whole(b: Seq<char>, sep: char)
    requires
        lacks(b, sep),
    ensures
        split(b, sep) == seq![b],
    decreases b.len(),
{
    if b.len() > 0 {
        assert forall|i: int| 0 <= i < b.drop_last().len() implies #[trigger] b.drop_last()[i]
            != sep by {
            assert(b[i] != sep);
        }
        lemma_split_whole(b.drop_last(), sep);
        assert(b.last() != sep);
        assert(b.drop_last().push(b.last()) =~= b);
        assert(seq![b.drop_last()].drop_last().push(b) =~= seq![b]);
    } else {
        assert(b =~= Seq::<char>::empty());
    }
}

/// A last piece without separators is split off whole.
proof fn lemma_split_last(a: Seq<char>, sep: char, b: Seq<char>)
    requires
        lacks(b, sep),
    ensures
        split(a + seq![sep] + b, sep) == split(a, sep).push(b),
    decreases b.len(),
{
    let s = a + seq![sep] + b;
    if b.len() == 0 {
        assert(s.drop_last() =~= a);
        assert(s.last() == sep);
        assert(b =~= Seq::<char>::empty());
    } else {
        let c = b.drop_last();
        assert forall|i: int| 0 <= i < c.len() implies #[trigger] c[i] != sep by {
            assert(b[i] != sep);
        }
        lemma_split_last(a, sep, c);
        assert(s.drop_last() =~= a + seq![sep] + c);
        assert(s.last() == b.last());
        let before = split(a, sep).push(c);
        assert(before.drop_last() =~= split(a, sep));
        assert(c.push(b.last()) =~= b);
    }
}

/// Splitting undoes joining.
proof fn lemma_split_join(parts: Seq<Seq<char>>, sep: char)
    requires
        parts.len() > 0,
        forall|i: int| 0 <= i < parts.len() ==> lacks(#[trigger] parts[i], sep),
    ensures
        split(join(parts, seq![sep]), sep) == parts,
    decreases parts.len(),
{
    if parts.len() == 1 {
        lemma_split_whole(parts[0], sep);
        assert(seq![parts[0]] =~= parts);
    } else {
        let less = parts.drop_last();
        assert forall|i: int| 0 <= i < less.len() implies lacks(#[trigger] less[i], sep) by {
            assert(lacks(parts[i], sep));
        }
        lemma_split_join(less, sep);
        assert(lacks(parts[parts.len() - 1], sep));
        lemma_split_last(join(less, seq![sep]), sep, parts.last());
        assert(less.push(parts.last()) =~= parts);
    }
}

/// If all pieces are digits, the whole holds digits and separators only.
proof fn lemma_split_digits(s: Seq<char>, sep: char)
    requires
        forall|k: int| 0 <= k < split(s, sep).len() ==> all_digits(#[trigger] split(s, sep)[k]),
    ensures
        forall|i: int| 0 <= i < s.len() ==> #[trigger] s[i] == sep || is_digit(s[i]),
        split(s, sep).len() > 0,
    decreases s.len(),
{
    if s.len() > 0 {
        let less = s.drop_last();
        let before = split(less, sep);
        let after = split(s, sep);
        lemma_split_nonempty(less, sep);
        assert forall|k: int| 0 <= k < before.len() implies all_digits(#[trigger] before[k]) by {
            if k < before.len() - 1 || s.last() == sep {
                assert(after[k] == before[k]);
            } else {
                let whole = before[k].push(s.last());
                assert(after[k] == whole);
                assert(all_digits(whole));
                assert forall|i: int| 0 <= i < before[k].len() implies is_digit(
                    #[trigger] before[k][i],
                ) by {
                    assert(whole[i] == before[k][i]);
                }
            }
        }
        lemma_split_digits(less, sep);
        assert forall|i: int| 0 <= i < s.len() implies #[trigger] s[i] == sep || is_digit(
            s[i],
        ) by {
            if i < less.len() {
                assert(less[i] == s[i]);
            } else if s.last() != sep {
                let k = after.len() - 1;
                let whole = before.last().push(s.last());
                assert(after[k] == whole);
                assert(all_digits(after[k]));
                assert(is_digit(whole[whole.len() - 1]));
            }
        }
    }
}

proof fn lemma_split_nonempty(s: Seq<char>, sep: char)
    ensures
        split(s, sep).len() > 0,
    decreases s.len(),
{
    if s.len() > 0 {
        lemma_split_nonempty(s.drop_last(), sep);
    }
}

// --- decimal ---------------------------------------------------------------------------------

proof fn lemma_dec_shape(n: nat)
    ensures
        n < 10 ==> dec(n).len() == 1,
        n < 100 ==> dec(n).len() <= 2,
        n < 1000 ==> dec(n).len() <= 3,
        n > 0 ==> dec(n)[0] != '0',
        n >= 10 ==> dec(n).len() > 1,
        n < 10 <==> dec(n).len() == 1,
        all_digits(dec(n)),
        digits_value(dec(n)) == n,
    decreases n,
{
    dec_round_trip(n);
    if n >= 10 {
        lemma_dec_shape(n / 10);
        dec_round_trip(n / 10);
        assert(dec(n)[0] == dec(n / 10)[0]);
    } else {
        assert(dec(n)[0] == digit(n));
    }
}

proof fn lemma_octet(n: nat)
    requires
        n < 256,
    ensures
        octet(dec(n)) == Some(n),
        lacks(dec(n), '.'),
{
    lemma_dec_shape(n);
    assert forall|i: int| 0 <= i < dec(n).len() implies #[trigger] dec(n)[i] != '.' by {
        assert(is_digit(dec(n)[i]));
    }
}

/// Whether every character is a digit or a dot.
spec fn dotted_chars(s: Seq<char>) -> bool {
    forall|i: int| 0 <= i < s.len() ==> is_digit(#[trigger] s[i]) || s[i] == '.'
}

/// A dotted quad reads as the address that it was written for.
pub proof fn dotted_quads_read_back(a: u32)
    ensures
        ipv4_of(ipv4_text(a)) == Some(a),
{
    lemma_ipv4(a);
}

proof fn lemma_ipv4(a: u32)
    ensures
        ipv4_of(ipv4_text(a)) == Some(a),
        dotted_chars(ipv4_text(a)),
        ipv4_text(a).len() >= 7,
        ipv4_text(a).contains('.'),
{
    reveal_strlit(".");
    let w = a as nat / 0x100_0000;
    let x = a as nat / 0x1_0000 % 0x100;
    let y = a as nat / 0x100 % 0x100;
    let z = a as nat % 0x100;
    lemma_octet(w);
    lemma_octet(x);
    lemma_octet(y);
    lemma_octet(z);
    lemma_dec_shape(w);
    lemma_dec_shape(x);
    lemma_dec_shape(y);
    lemma_dec_shape(z);
    let dot = seq!['.'];
    assert("."@ =~= dot);
    let one = dec(w);
    let two = one + dot + dec(x);
    let three = two + dot + dec(y);
    let four = three + dot + dec(z);
    assert(ipv4_text(a) =~= four);
    lemma_split_whole(one, '.');
    lemma_split_last(one, '.', dec(x));
    lemma_split_last(two, '.', dec(y));
    lemma_split_last(three, '.', dec(z));
    let p = split(four, '.');
    assert(p =~= seq![dec(w), dec(x), dec(y), dec(z)]);
    assert(w * 0x100_0000 + x * 0x1_0000 + y * 0x100 + z == a as nat);
    assert(four[one.len() as int] == '.');
    assert forall|i: int| 0 <= i < four.len() implies is_digit(#[trigger] four[i]) || four[i]
        == '.' by {
        if i < one.len() {
            assert(four[i] == dec(w)[i]);
        } else if i == one.len() {
        } else if i < two.len() {
            assert(four[i] == dec(x)[i - one.len() - 1]);
        } else if i == two.len() {
        } else if i < three.len() {
            assert(four[i] == dec(y)[i - two.len() - 1]);
        } else if i == three.len() {
        } else {
            assert(four[i] == dec(z)[i - three.len() - 1]);
        }
    }
}

// --- hexadecimal -------------------------------------------------------------------------------

/// Whether `c` is a lower-case hexadecimal digit.
spec fn is_hex(c: char) -> bool {
    '0' <= c <= '9' || 'a' <= c <= 'f'
}

spec fn hex_chars(s: Seq<char>) -> bool {
    forall|i: int| 0 <= i < s.len() ==> is_hex(#[trigger] s[i])
}

proof fn lemma_hex(n: nat)
    ensures
        hex_number(hex(n)) == Some(n),
        hex(n).len() > 0,
        hex_chars(hex(n)),
        n < 16 ==> hex(n).len() == 1,
        n < 256 ==> hex(n).len() <= 2,
        n < 4096 ==> hex(n).len() <= 3,
        n < 65536 ==> hex(n).len() <= 4,
    decreases n,
{
    reveal_with_fuel(hex_number, 2);
    if n < 16 {
        assert(hex(n).drop_last() =~= Seq::<char>::empty());
        assert(hex_value(hex_digit(n)) == Some(n));
        assert(hex(n).last() == hex_digit(n));
    } else {
        lemma_hex(n / 16);
        assert(hex(n).drop_last() =~= hex(n / 16));
        assert(hex(n).last() == hex_digit(n % 16));
        assert(hex_value(hex_digit(n % 16)) == Some(n % 16));
        assert forall|i: int| 0 <= i < hex(n).len() implies is_hex(#[trigger] hex(n)[i]) by {
            if i < hex(n / 16).len() {
                assert(hex(n)[i] == hex(n / 16)[i]);
            }
        }
    }
}

/// Whether all groups fit sixteen bits.
spec fn groups_fit(g: Seq<nat>) -> bool {
    forall|i: int| 0 <= i < g.len() ==> #[trigger] g[i] < 0x1_0000
}

proof fn lemma_hextets(g: Seq<nat>)
    requires
        groups_fit(g),
    ensures
        hextets(g.map_values(|n: nat| hex(n))) == Some(g),
    decreases g.len(),
{
    let parts = g.map_values(|n: nat| hex(n));
    if g.len() == 0 {
        assert(g =~= Seq::<nat>::empty());
    } else {
        let less = g.drop_last();
        assert forall|i: int| 0 <= i < less.len() implies #[trigger] less[i] < 0x1_0000 by {
            assert(g[i] < 0x1_0000);
        }
        lemma_hextets(less);
        assert(parts.drop_last() =~= less.map_values(|n: nat| hex(n)));
        assert(g[g.len() - 1] < 0x1_0000);
        lemma_hex(g.last());
        assert(parts.last() == hex(g.last()));
        assert(less.push(g.last()) =~= g);
    }
}

proof fn lemma_groups_of(g: Seq<nat>, dotted: bool)
    requires
        groups_fit(g),
    ensures
        groups_of(groups_text(g), dotted) == Some(g),
{
    reveal_strlit(":");
    assert(":"@ =~= seq![':']);
    let parts = g.map_values(|n: nat| hex(n));
    if g.len() == 0 {
        assert(g =~= Seq::<nat>::empty());
    } else {
        assert forall|i: int| 0 <= i < parts.len() implies lacks(#[trigger] parts[i], ':') by {
            lemma_hex(g[i]);
            assert forall|k: int| 0 <= k < parts[i].len() implies #[trigger] parts[i][k] != ':' by {
                assert(is_hex(parts[i][k]));
            }
        }
        lemma_split_join(parts, ':');
        lemma_groups_shape(g);
        lemma_hextets(g);
        let less = parts.drop_last();
        assert(hextets(parts) == Some(g));
        match (hextets(less), hextet(parts.last())) {
            (Some(h), Some(n)) => {
                assert(h.push(n) == g);
            },
            _ => {
                assert(false);
            },
        }
    }
}

/// Whether every character may stand in an IPv6 address.
spec fn v6_chars(s: Seq<char>) -> bool {
    forall|i: int|
        0 <= i < s.len() ==> is_hex(#[trigger] s[i]) || s[i] == ':' || s[i] == '.'
}

/// Whether no two colons stand together.
spec fn no_pair(s: Seq<char>) -> bool {
    forall|i: int| 0 <= i < s.len() - 1 ==> !(#[trigger] s[i] == ':' && s[i + 1] == ':')
}

/// Joined groups hold no two colons together and neither begin nor end with one.
proof fn lemma_groups_shape(g: Seq<nat>)
    ensures
        g.len() > 0 ==> groups_text(g).len() > 0 && groups_text(g)[0] != ':' && groups_text(
            g,
        ).last() != ':',
        g.len() == 0 ==> groups_text(g).len() == 0,
        no_pair(groups_text(g)),
        v6_chars(groups_text(g)),
        g.len() > 1 ==> groups_text(g).contains(':'),
    decreases g.len(),
{
    reveal_strlit(":");
    assert(":"@ =~= seq![':']);
    let parts = g.map_values(|n: nat| hex(n));
    if g.len() == 1 {
        lemma_hex(g[0]);
        let t = hex(g[0]);
        assert(groups_text(g) == t);
        assert(is_hex(t[0]) && is_hex(t[t.len() - 1]));
        assert forall|i: int| 0 <= i < t.len() - 1 implies !(#[trigger] t[i] == ':' && t[i + 1]
            == ':') by {
            assert(is_hex(t[i]));
        }
    } else if g.len() > 1 {
        let less = g.drop_last();
        lemma_groups_shape(less);
        let last = hex(g.last());
        lemma_hex(g.last());
        let head = groups_text(less);
        assert(parts.drop_last() =~= less.map_values(|n: nat| hex(n)));
        assert(parts.last() == last);
        let t = groups_text(g);
        assert(t == head + ":"@ + last);
        let n = head.len() as int;
        assert(t[n] == ':');
        assert(t[0] == head[0]);
        assert(t.last() == last.last());
        assert(is_hex(last[last.len() - 1]));
        assert forall|i: int| 0 <= i < t.len() implies is_hex(#[trigger] t[i]) || t[i] == ':'
            || t[i] == '.' by {
            if i < n {
                assert(t[i] == head[i]);
            } else if i > n {
                assert(t[i] == last[i - n - 1]);
            }
        }
        assert forall|i: int| 0 <= i < t.len() - 1 implies !(#[trigger] t[i] == ':' && t[i + 1]
            == ':') by {
            if i < n - 1 {
                assert(t[i] == head[i] && t[i + 1] == head[i + 1]);
            } else if i == n - 1 {
                assert(t[i] == head.last());
            } else if i == n {
                assert(t[i + 1] == last[0]);
                assert(is_hex(last[0]));
            } else {
                assert(t[i] == last[i - n - 1]);
                assert(is_hex(last[i - n - 1]));
            }
        }
    }
}

/// The first pair of colons is where nothing pairs before it.
proof fn lemma_double_colon(s: Seq<char>, at: int)
    requires
        0 <= at <= s.len(),
        forall|i: int| 0 <= i < at && i < s.len() - 1 ==> !(#[trigger] s[i] == ':' && s[i + 1] == ':'),
        at < s.len() ==> at + 1 < s.len() && s[at] == ':' && s[at + 1] == ':',
    ensures
        double_colon(s) == at,
    decreases s.len(),
{
    if s.len() < 2 {
    } else if at > 0 {
        assert(!(s[0] == ':' && s[1] == ':'));
        let t = s.skip(1);
        assert forall|i: int| 0 <= i < at - 1 && i < t.len() - 1 implies !(#[trigger] t[i] == ':'
            && t[i + 1] == ':') by {
            assert(t[i] == s[i + 1] && t[i + 1] == s[i + 2]);
        }
        lemma_double_colon(t, at - 1);
    }
}

// --- numbers from groups ---------------------------------------------------------------------------

/// 65536 to the power `n`.
spec fn span(n: nat) -> nat
    decreases n,
{
    if n == 0 {
        1
    } else {
        0x1_0000 * span((n - 1) as nat)
    }
}

proof fn lemma_low_groups(a: nat, n: nat)
    requires
        a < span(n),
    ensures
        groups_value(low_groups(a, n)) == a,
        low_groups(a, n).len() == n,
        groups_fit(low_groups(a, n)),
    decreases n,
{
    if n > 0 {
        let high = a / 0x1_0000;
        assert(high < span((n - 1) as nat)) by (nonlinear_arith)
            requires
                a < 0x1_0000 * span((n - 1) as nat),
                high == a / 0x1_0000,
        ;
        lemma_low_groups(high, (n - 1) as nat);
        let g = low_groups(a, n);
        assert(g.drop_last() =~= low_groups(high, (n - 1) as nat));
        assert forall|i: int| 0 <= i < g.len() implies #[trigger] g[i] < 0x1_0000 by {
            if i < g.len() - 1 {
                assert(g[i] == low_groups(high, (n - 1) as nat)[i]);
            }
        }
    }
}

proof fn lemma_groups_in(a: u128)
    ensures
        groups_value(groups_in(a)) == a as nat,
        groups_in(a).len() == 8,
        groups_fit(groups_in(a)),
{
    assert(span(8) == 0x1_0000_0000_0000_0000_0000_0000_0000_0000) by {
        reveal_with_fuel(span, 9);
    }
    lemma_low_groups(a as nat, 8);
}

proof fn lemma_longest(g: Seq<nat>, n: nat)
    requires
        n >= 1,
        n <= g.len(),
    ensures
        0 <= longest_zeros(g, n) < n,
    decreases n,
{
    if n > 1 {
        lemma_longest(g, (n - 1) as nat);
    }
}

proof fn lemma_zeros(g: Seq<nat>, i: int)
    requires
        0 <= i <= g.len(),
    ensures
        i + zeros_at(g, i) <= g.len(),
        forall|k: int| i <= k < i + zeros_at(g, i) ==> #[trigger] g[k] == 0,
    decreases g.len() - i,
{
    if i < g.len() && g[i] == 0 {
        lemma_zeros(g, i + 1);
    }
}

// --- IPv6 ----------------------------------------------------------------------------------------------

/// The group before a mapped IPv4 address.
proof fn lemma_mapped_prefix()
    ensures
        hextets(seq![seq!['f', 'f', 'f', 'f']]) == Some(Seq::<nat>::empty().push(0xffffnat)),
{
    let ffff = seq!['f', 'f', 'f', 'f'];
    reveal_with_fuel(hex_number, 5);
    assert(ffff.drop_last() =~= seq!['f', 'f', 'f']);
    assert(ffff.drop_last().drop_last() =~= seq!['f', 'f']);
    assert(ffff.drop_last().drop_last().drop_last() =~= seq!['f']);
    assert(ffff.drop_last().drop_last().drop_last().drop_last() =~= Seq::<char>::empty());
    assert(hex_number(ffff) == Some(0xffffnat));
    reveal_with_fuel(hextets, 2);
    assert(seq![ffff].drop_last() =~= Seq::<Seq<char>>::empty());
}

/// The number that the groups of a mapped IPv4 address write.
proof fn lemma_mapped_value(high: nat, low: nat)
    ensures
        groups_value(seq![0nat, 0, 0, 0, 0, 0xffff, high, low]) == 0x1_0000 * (0xffff_0000 + high)
            + low,
{
    let all = seq![0nat, 0, 0, 0, 0, 0xffff, high, low];
    let g7 = all.drop_last();
    let g6 = g7.drop_last();
    let g5 = g6.drop_last();
    let g4 = g5.drop_last();
    let g3 = g4.drop_last();
    let g2 = g3.drop_last();
    let g1 = g2.drop_last();
    let g0 = g1.drop_last();
    assert(g0 =~= Seq::<nat>::empty());
    assert(groups_value(g0) == 0);
    assert(groups_value(g1) == 0);
    assert(groups_value(g2) == 0);
    assert(groups_value(g3) == 0);
    assert(groups_value(g4) == 0);
    assert(groups_value(g5) == 0);
    assert(groups_value(g6) == 0xffff);
    assert(groups_value(g7) == 0xffff_0000 + high);
}

/// The address that maps an IPv4 one.
proof fn lemma_mapped(a: u128)
    requires
        a as nat / 0x1_0000_0000 == 0xffff,
    ensures
        ipv6_of(ipv6_text(a)) == Some(a),
        v6_chars(ipv6_text(a)),
        ipv6_text(a).contains(':'),
{
    let q = (a as nat % 0x1_0000_0000) as u32;
    let v4 = ipv4_text(q);
    lemma_ipv4(q);
    reveal_strlit("::ffff:");
    let s = ipv6_text(a);
    assert(s =~= seq![':', ':', 'f', 'f', 'f', 'f', ':'] + v4);
    lemma_double_colon(s, 0);
    assert(s.take(0) =~= Seq::<char>::empty());
    let tail = s.skip(2);
    let ffff = seq!['f', 'f', 'f', 'f'];
    assert(tail =~= ffff + seq![':'] + v4);
    assert(lacks(v4, ':')) by {
        assert forall|i: int| 0 <= i < v4.len() implies #[trigger] v4[i] != ':' by {
            assert(is_digit(v4[i]) || v4[i] == '.');
        }
    }
    lemma_split_whole(ffff, ':');
    lemma_split_last(ffff, ':', v4);
    let parts = split(tail, ':');
    assert(parts =~= seq![ffff, v4]);
    assert(parts.drop_last() =~= seq![ffff]);
    lemma_mapped_prefix();
    assert(v4.len() > 4);
    let quad = q as nat;
    let t = Seq::<nat>::empty().push(0xffffnat).push(quad / 0x1_0000).push(quad % 0x1_0000);
    assert(groups_of(tail, true) == Some(t));
    let head = Seq::<nat>::empty();
    let all = head + Seq::new(5, |i: int| 0nat) + t;
    assert(ipv6_groups(s) == Some(all));
    assert(all =~= seq![0nat, 0, 0, 0, 0, 0xffff, quad / 0x1_0000, quad % 0x1_0000]);
    lemma_mapped_value(quad / 0x1_0000, quad % 0x1_0000);
    assert(groups_value(all) == a as nat);
    assert forall|i: int| 0 <= i < s.len() implies is_hex(#[trigger] s[i]) || s[i] == ':' || s[i]
        == '.' by {
        if i >= 7 {
            assert(s[i] == v4[i - 7]);
        }
    }
    assert(s[0] == ':');
}

/// Groups round a left-out run of zeros read back as all of them.
proof fn lemma_compressed(g: Seq<nat>, at: int, run: int)
    requires
        g.len() == 8,
        groups_fit(g),
        0 <= at,
        run > 1,
        at + run <= 8,
        forall|k: int| at <= k < at + run ==> #[trigger] g[k] == 0,
    ensures
        ({
            let s = groups_text(g.take(at)) + "::"@ + groups_text(g.skip(at + run));
            ipv6_groups(s) == Some(g) && v6_chars(s) && s.contains(':')
        }),
{
    let h = g.take(at);
    let t = g.skip(at + run);
    assert(groups_fit(h)) by {
        assert forall|i: int| 0 <= i < h.len() implies #[trigger] h[i] < 0x1_0000 by {
            assert(g[i] < 0x1_0000);
        }
    }
    assert(groups_fit(t)) by {
        assert forall|i: int| 0 <= i < t.len() implies #[trigger] t[i] < 0x1_0000 by {
            assert(g[at + run + i] < 0x1_0000);
        }
    }
    let head = groups_text(h);
    let tail = groups_text(t);
    lemma_groups_of(h, false);
    lemma_groups_of(t, true);
    lemma_groups_shape(h);
    lemma_groups_shape(t);
    let s = head + "::"@ + tail;
    lemma_pair_between(head, tail);
    let fill = Seq::new((8 - h.len() - t.len()) as nat, |i: int| 0nat);
    assert(h + fill + t =~= g);
    assert(ipv6_groups(s) == Some(h + fill + t));
}

/// A pair of colons between two texts without one.
proof fn lemma_pair_between(head: Seq<char>, tail: Seq<char>)
    requires
        no_pair(head),
        v6_chars(head),
        v6_chars(tail),
        head.len() > 0 ==> head.last() != ':',
    ensures
        ({
            let s = head + "::"@ + tail;
            &&& double_colon(s) == head.len()
            &&& double_colon(s) < s.len()
            &&& s.take(head.len() as int) == head
            &&& s.skip(head.len() as int + 2) == tail
            &&& v6_chars(s)
            &&& s.contains(':')
        }),
{
    let n = head.len() as int;
    reveal_strlit("::");
    assert("::"@ =~= seq![':', ':']);
    let s = head + "::"@ + tail;
    assert forall|i: int| 0 <= i < n && i < s.len() - 1 implies !(#[trigger] s[i] == ':' && s[i + 1]
        == ':') by {
        if i < n - 1 {
            assert(s[i] == head[i] && s[i + 1] == head[i + 1]);
        } else {
            assert(s[i] == head.last());
        }
    }
    assert(s[n] == ':' && s[n + 1] == ':');
    lemma_double_colon(s, n);
    assert(s.take(n) =~= head);
    assert(s.skip(n + 2) =~= tail);
    assert forall|i: int| 0 <= i < s.len() implies is_hex(#[trigger] s[i]) || s[i] == ':' || s[i]
        == '.' by {
        if i < n {
            assert(s[i] == head[i]);
        } else if i >= n + 2 {
            assert(s[i] == tail[i - n - 2]);
        }
    }
}

proof fn lemma_ipv6(a: u128)
    ensures
        ipv6_of(ipv6_text(a)) == Some(a),
        v6_chars(ipv6_text(a)),
        ipv6_text(a).contains(':'),
{
    if a as nat / 0x1_0000_0000 == 0xffff {
        lemma_mapped(a);
    } else {
        let g = groups_in(a);
        lemma_groups_in(a);
        lemma_longest(g, 8);
        let at = longest_zeros(g, 8);
        lemma_zeros(g, at);
        let run = zeros_at(g, at) as int;
        if run > 1 {
            lemma_compressed(g, at, run);
        } else {
            let s = groups_text(g);
            lemma_groups_shape(g);
            lemma_groups_of(g, true);
            lemma_double_colon(s, s.len() as int);
        }
    }
}

/// A text with a character that is neither a digit nor a dot is no dotted quad.
proof fn lemma_not_ipv4(s: Seq<char>, i: int)
    requires
        0 <= i < s.len(),
        !is_digit(s[i]),
        s[i] != '.',
    ensures
        ipv4_of(s) is None,
{
    if ipv4_of(s) is Some {
        let p = split(s, '.');
        assert forall|k: int| 0 <= k < p.len() implies all_digits(#[trigger] p[k]) by {
            assert(octet(p[0]) is Some);
            assert(octet(p[1]) is Some);
            assert(octet(p[2]) is Some);
            assert(octet(p[3]) is Some);
        }
        lemma_split_digits(s, '.');
    }
}

/// Reading an IP address back from its text gives the address.
pub proof fn ip_text_reads_back(ip: IpAddr)
    ensures
        ip_of(ip_text(ip)) == Some(ip),
{
    match ip {
        IpAddr::V4(a) => {
            lemma_ipv4(a);
        },
        IpAddr::V6(a) => {
            lemma_ipv6(a);
            let s = ipv6_text(a);
            let i = choose|i: int| 0 <= i < s.len() && s[i] == ':';
            lemma_not_ipv4(s, i);
        },
    }
}

// --- with a port ------------------------------------------------------------------------------------

proof fn lemma_index_of(a: Seq<char>, c: char, b: Seq<char>)
    requires
        lacks(a, c),
    ensures
        index_of(a + seq![c] + b, c) == a.len(),
        before_char(a + seq![c] + b, c) == a,
        after_char(a + seq![c] + b, c) == Some(b),
    decreases a.len(),
{
    let s = a + seq![c] + b;
    if a.len() > 0 {
        assert(a[0] != c);
        let t = a.skip(1);
        assert forall|i: int| 0 <= i < t.len() implies #[trigger] t[i] != c by {
            assert(t[i] == a[i + 1]);
        }
        lemma_index_of(t, c, b);
        assert(s.skip(1) =~= t + seq![c] + b);
    }
    assert(s.take(a.len() as int) =~= a);
    assert(s.skip(a.len() as int + 1) =~= b);
}

proof fn lemma_index_of_none(a: Seq<char>, c: char)
    requires
        lacks(a, c),
    ensures
        index_of(a, c) == a.len(),
        before_char(a, c) == a,
        after_char(a, c) is None,
    decreases a.len(),
{
    if a.len() > 0 {
        assert(a[0] != c);
        let t = a.skip(1);
        assert forall|i: int| 0 <= i < t.len() implies #[trigger] t[i] != c by {
            assert(t[i] == a[i + 1]);
        }
        lemma_index_of_none(t, c);
    }
    assert(a.take(a.len() as int) =~= a);
}

proof fn lemma_plain(n: nat, max: nat)
    requires
        n <= max,
    ensures
        plain_number(dec(n), max) == Some(n),
{
    dec_round_trip(n);
}

/// A socket address has a scope only where its address is an IPv6 one.
pub open spec fn scope_fits(s: SocketAddr) -> bool {
    s.ip is V4 ==> s.scope == 0
}

/// Reading a socket address back from its text gives the address.
pub proof fn socket_text_reads_back(s: SocketAddr)
    requires
        scope_fits(s),
    ensures
        socket_of(socket_text(s)) == Some(s),
{
    match s.ip {
        IpAddr::V4(a) => {
            lemma_socket_v4(s, a);
        },
        IpAddr::V6(a) => {
            lemma_socket_v6(s, a);
        },
    }
}

proof fn lemma_socket_v4(s: SocketAddr, a: u32)
    requires
        s.ip == IpAddr::V4(a),
        s.scope == 0,
    ensures
        socket_of(socket_text(s)) == Some(s),
{
    let text = socket_text(s);
    let port = dec(s.port as nat);
    lemma_plain(s.port as nat, 65535);
    reveal_strlit(":");
    assert(":"@ =~= seq![':']);
    lemma_ipv4(a);
    let v4 = ipv4_text(a);
    assert(lacks(v4, ':')) by {
        assert forall|i: int| 0 <= i < v4.len() implies #[trigger] v4[i] != ':' by {
            assert(is_digit(v4[i]) || v4[i] == '.');
        }
    }
    lemma_index_of(v4, ':', port);
    assert(text =~= v4 + seq![':'] + port);
}

/// The address and the scope as they stand between the brackets.
spec fn bracketed(a: u128, scope: u32) -> Seq<char> {
    if scope == 0 {
        ipv6_text(a)
    } else {
        ipv6_text(a) + seq!['%'] + dec(scope as nat)
    }
}

/// What stands between the brackets splits at the percent sign.
proof fn lemma_bracketed(a: u128, scope: u32)
    ensures
        lacks(bracketed(a, scope), ']'),
        before_char(bracketed(a, scope), '%') == ipv6_text(a),
        after_char(bracketed(a, scope), '%') == (if scope == 0 {
            None
        } else {
            Some(dec(scope as nat))
        }),
{
    lemma_ipv6(a);
    dec_round_trip(scope as nat);
    let v6 = ipv6_text(a);
    let inner = bracketed(a, scope);
    assert(lacks(v6, '%') && lacks(v6, ']')) by {
        assert forall|i: int| 0 <= i < v6.len() implies #[trigger] v6[i] != '%' && v6[i] != ']' by {
            assert(is_hex(v6[i]) || v6[i] == ':' || v6[i] == '.');
        }
    }
    assert forall|i: int| 0 <= i < inner.len() implies #[trigger] inner[i] != ']' by {
        if i < v6.len() {
            assert(inner[i] == v6[i]);
        } else if i > v6.len() {
            assert(inner[i] == dec(scope as nat)[i - v6.len() - 1]);
            assert(is_digit(dec(scope as nat)[i - v6.len() - 1]));
        }
    }
    if scope == 0 {
        lemma_index_of_none(v6, '%');
    } else {
        lemma_index_of(v6, '%', dec(scope as nat));
    }
}

/// The parts that the text of an IPv6 socket address is made of.
proof fn lemma_socket_v6_text(s: SocketAddr, a: u128)
    requires
        s.ip == IpAddr::V6(a),
    ensures
        socket_text(s) == seq!['['] + (bracketed(a, s.scope) + seq![']'] + (seq![':'] + dec(
            s.port as nat,
        ))),
{
    reveal_strlit("[");
    reveal_strlit("]:");
    reveal_strlit("%");
    assert("["@ =~= seq!['[']);
    assert("]:"@ =~= seq![']', ':']);
    assert("%"@ =~= seq!['%']);
    assert(socket_text(s) =~= seq!['['] + (bracketed(a, s.scope) + seq![']'] + (seq![':'] + dec(
        s.port as nat,
    ))));
}

proof fn lemma_socket_v6(s: SocketAddr, a: u128)
    requires
        s.ip == IpAddr::V6(a),
    ensures
        socket_of(socket_text(s)) == Some(s),
{
    let text = socket_text(s);
    let inner = bracketed(a, s.scope);
    let port = dec(s.port as nat);
    let rest = seq![':'] + port;
    lemma_socket_v6_text(s, a);
    assert(text[0] == '[');
    // no dotted quad stands before the first colon
    lemma_not_v4_socket(text);
    assert(text.skip(1) =~= inner + seq![']'] + rest);
    lemma_bracketed(a, s.scope);
    lemma_index_of(inner, ']', rest);
    assert(rest[0] == ':');
    assert(rest.skip(1) =~= port);
    lemma_plain(s.port as nat, 65535);
    lemma_plain(s.scope as nat, 0xffff_ffff);
    lemma_ipv6(a);
}

/// A text that begins with a bracket is no dotted quad with a port.
proof fn lemma_not_v4_socket(s: Seq<char>)
    requires
        s.len() > 0,
        s[0] == '[',
    ensures
        socket_v4_of(s) is None,
{
    let before = before_char(s, ':');
    lemma_index_bounded(s, ':');
    if before.len() > 0 {
        assert(before[0] == '[');
        lemma_not_ipv4(before, 0);
    } else {
        assert(index_of(s, ':') == 0);
    }
}

proof fn lemma_index_bounded(s: Seq<char>, c: char)
    ensures
        index_of(s, c) <= s.len(),
        s.len() > 0 && s[0] != c ==> index_of(s, c) > 0,
    decreases s.len(),
{
    if s.len() > 0 && s[0] != c {
        lemma_index_bounded(s.skip(1), c);
    }
}

} // verus!
