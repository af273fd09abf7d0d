//! Network addresses and their text forms.
use crate::text::{
    all_digits, char_lists, chars_of, dec, digits_value, hex_digit, is_digit, join, join_next,
    parse_unsigned, push_dec, split, split_chars,
};
use vstd::prelude::*;

verus! {

/// An IP address, as the big-endian number that its bytes write.
#[derive(Clone, Copy, PartialEq, Eq, Structural, Debug)]
pub enum IpAddr {
    V4(u32),
    V6(u128),
}

/// An IP address with a port. `scope` is the scope id of an IPv6 address, and
/// zero for an IPv4 one.
#[derive(Clone, Copy, PartialEq, Eq, Structural, Debug)]
pub struct SocketAddr {
    pub ip: IpAddr,
    pub port: u16,
    pub scope: u32,
}

impl SocketAddr {
    pub fn new(ip: IpAddr, port: u16) -> (r: SocketAddr)
        ensures
            r == (SocketAddr { ip, port, scope: 0 }),
    {
        SocketAddr { ip, port, scope: 0 }
    }
}

// --- reading IPv4 -----------------------------------------------------------------

/// One decimal part of a dotted address: at most three digits, no leading zero, at
/// most 255.
pub open spec fn octet(p: Seq<char>) -> Option<nat> {
    if 1 <= p.len() <= 3 && all_digits(p) && (p.len() > 1 ==> p[0] != '0') && digits_value(p)
        <= 255 {
        Some(digits_value(p))
    } else {
        None
    }
}

/// The address that a dotted quad writes.
pub open spec fn ipv4_of(s: Seq<char>) -> Option<u32> {
    let p = split(s, '.');
    if p.len() == 4 && octet(p[0]) is Some && octet(p[1]) is Some && octet(p[2]) is Some && octet(
        p[3],
    ) is Some {
        Some(
            (octet(p[0])->0 * 0x100_0000 + octet(p[1])->0 * 0x1_0000 + octet(p[2])->0 * 0x100
                + octet(p[3])->0) as u32,
        )
    } else {
        None
    }
}

fn parse_octet(p: &Vec<char>) -> (r: Option<u32>)
    ensures
        match r {
            Some(n) => octet(p@) == Some(n as nat) && n <= 255,
            None => octet(p@) is None,
        },
{
    if p.len() < 1 || p.len() > 3 || (p.len() > 1 && p[0] == '0') || p[0] == '+' {
        assert(p@.len() > 0 && p@[0] == '+' ==> !is_digit(p@[0]));
        return None;
    }
    match parse_unsigned(p, 255) {
        Some(n) => Some(n as u32),
        None => None,
    }
}

/// Reads a dotted quad from the characters `from..to`.
fn parse_ipv4(v: &Vec<char>, from: usize, to: usize) -> (r: Option<u32>)
    requires
        from <= to <= v@.len(),
    ensures
        r == ipv4_of(v@.subrange(from as int, to as int)),
{
    let p = split_chars(v, from, to, '.');
    assert(char_lists(p@).len() == p@.len());
    if p.len() != 4 {
        return None;
    }
    assert(forall|i: int| 0 <= i < 4 ==> #[trigger] char_lists(p@)[i] == p@[i]@);
    match (parse_octet(&p[0]), parse_octet(&p[1]), parse_octet(&p[2]), parse_octet(&p[3])) {
        (Some(a), Some(b), Some(c), Some(d)) => Some(
            a * 0x100_0000 + b * 0x1_0000 + c * 0x100 + d,
        ),
        _ => None,
    }
}

// --- reading IPv6 -----------------------------------------------------------------

/// The value of a hexadecimal digit of either case.
pub open spec fn hex_value(c: char) -> Option<nat> {
    if '0' <= c <= '9' {
        Some((c as nat - 48) as nat)
    } else if 'a' <= c <= 'f' {
        Some((c as nat - 87) as nat)
    } else if 'A' <= c <= 'F' {
        Some((c as nat - 55) as nat)
    } else {
        None
    }
}

/// The number that hexadecimal digits write.
pub open spec fn hex_number(p: Seq<char>) -> Option<nat>
    decreases p.len(),
{
    if p.len() == 0 {
        Some(0)
    } else {
        match (hex_number(p.drop_last()), hex_value(p.last())) {
            (Some(n), Some(d)) => Some(16 * n + d),
            _ => None,
        }
    }
}

/// One group of an IPv6 address: one to four hexadecimal digits.
pub open spec fn hextet(p: Seq<char>) -> Option<nat> {
    if 1 <= p.len() <= 4 {
        hex_number(p)
    } else {
        None
    }
}

/// Groups that are each written as a hextet.
pub open spec fn hextets(parts: Seq<Seq<char>>) -> Option<Seq<nat>>
    decreases parts.len(),
{
    if parts.len() == 0 {
        Some(Seq::empty())
    } else {
        match (hextets(parts.drop_last()), hextet(parts.last())) {
            (Some(g), Some(n)) => Some(g.push(n)),
            _ => None,
        }
    }
}

/// The groups of a colon-separated run. A dotted quad may stand for the last two
/// where `dotted` allows it.
pub open spec fn groups_of(s: Seq<char>, dotted: bool) -> Option<Seq<nat>> {
    if s.len() == 0 {
        Some(Seq::empty())
    } else {
        let parts = split(s, ':');
        match hextets(parts.drop_last()) {
            Some(g) => match hextet(parts.last()) {
                Some(n) => Some(g.push(n)),
                None => if dotted && ipv4_of(parts.last()) is Some {
                    let quad = ipv4_of(parts.last())->0 as nat;
                    Some(g.push(quad / 0x1_0000).push(quad % 0x1_0000))
                } else {
                    None
                },
            },
            None => None,
        }
    }
}

/// The index of the first `::`, or the length where there is none.
pub open spec fn double_colon(s: Seq<char>) -> nat
    decreases s.len(),
{
    if s.len() < 2 {
        s.len()
    } else if s[0] == ':' && s[1] == ':' {
        0
    } else {
        1 + double_colon(s.skip(1))
    }
}

/// The number that eight groups write.
pub open spec fn groups_value(g: Seq<nat>) -> nat
    decreases g.len(),
{
    if g.len() == 0 {
        0
    } else {
        0x1_0000 * groups_value(g.drop_last()) + g.last()
    }
}

/// The groups of an IPv6 address: eight of them, or fewer round a `::` that stands
/// for one or more groups of zeros.
pub open spec fn ipv6_groups(s: Seq<char>) -> Option<Seq<nat>> {
    let at = double_colon(s);
    if at == s.len() {
        match groups_of(s, true) {
            Some(g) => if g.len() == 8 {
                Some(g)
            } else {
                None
            },
            None => None,
        }
    } else {
        match (groups_of(s.take(at as int), false), groups_of(s.skip(at as int + 2), true)) {
            (Some(head), Some(tail)) => if head.len() + tail.len() <= 7 {
                Some(
                    head + Seq::new((8 - head.len() - tail.len()) as nat, |i: int| 0nat) + tail,
                )
            } else {
                None
            },
            _ => None,
        }
    }
}

pub open spec fn ipv6_of(s: Seq<char>) -> Option<u128> {
    match ipv6_groups(s) {
        Some(g) => Some(groups_value(g) as u128),
        None => None,
    }
}

/// The address that a text writes.
pub open spec fn ip_of(s: Seq<char>) -> Option<IpAddr> {
    match ipv4_of(s) {
        Some(v) => Some(IpAddr::V4(v)),
        None => match ipv6_of(s) {
            Some(v) => Some(IpAddr::V6(v)),
            None => None,
        },
    }
}

fn parse_hextet(p: &Vec<char>) -> (r: Option<u16>)
    ensures
        match r {
            Some(n) => hextet(p@) == Some(n as nat),
            None => hextet(p@) is None,
        },
{
    if p.len() < 1 || p.len() > 4 {
        return None;
    }
    let mut value: u32 = 0;
    let mut i: usize = 0;
    let mut bound: u32 = 1;
    while i < p.len()
        invariant
            i <= p@.len() <= 4,
            hex_number(p@.take(i as int)) == Some(value as nat),
            value < bound,
            bound == if i == 0 {
                1u32
            } else if i == 1 {
                16
            } else if i == 2 {
                256
            } else if i == 3 {
                4096
            } else {
                65536
            },
        decreases p@.len() - i,
    {
        let c = p[i];
        proof {
            assert(p@.take(i + 1).drop_last() =~= p@.take(i as int));
            assert(p@.take(i + 1).last() == c);
            if hex_value(c) is None {
                assert(hex_number(p@.take(i + 1)) is None);
                lemma_hex_number_prefix(p@, i + 1);
            }
        }
        let d: u32 = if '0' <= c && c <= '9' {
            c as u32 - 48
        } else if 'a' <= c && c <= 'f' {
            c as u32 - 87
        } else if 'A' <= c && c <= 'F' {
            c as u32 - 55
        } else {
            return None;
        };
        value = value * 16 + d;
        bound = bound * 16;
        i = i + 1;
    }
    assert(p@.take(p@.len() as int) =~= p@);
    Some(value as u16)
}

proof fn lemma_hex_number_prefix(p: Seq<char>, i: int)
    requires
        0 <= i <= p.len(),
        hex_number(p.take(i)) is None,
    ensures
        hex_number(p) is None,
    decreases p.len() - i,
{
    if i == p.len() {
        assert(p.take(i) =~= p);
    } else {
        assert(p.take(i + 1).drop_last() =~= p.take(i));
        lemma_hex_number_prefix(p, i + 1);
    }
}

/// The groups of a vector.
pub open spec fn group_list(g: Seq<u16>) -> Seq<nat> {
    g.map_values(|x: u16| x as nat)
}

/// Reads a colon-separated run of groups from the characters `from..to`.
fn parse_groups(v: &Vec<char>, from: usize, to: usize, dotted: bool) -> (r: Option<Vec<u16>>)
    requires
        from <= to <= v@.len(),
    ensures
        match r {
            Some(g) => groups_of(v@.subrange(from as int, to as int), dotted) == Some(
                group_list(g@),
            ),
            None => groups_of(v@.subrange(from as int, to as int), dotted) is None,
        },
{
    let ghost s = v@.subrange(from as int, to as int);
    let mut groups: Vec<u16> = Vec::new();
    assert(group_list(groups@) =~= Seq::<nat>::empty());
    if from == to {
        return Some(groups);
    }
    let parts = split_chars(v, from, to, ':');
    let ghost all = char_lists(parts@);
    let last: usize = parts.len() - 1;
    let mut i: usize = 0;
    assert(all.take(0) =~= Seq::<Seq<char>>::empty());
    while i < last
        invariant
            i <= last,
            last == parts@.len() - 1,
            all == char_lists(parts@),
            all == split(s, ':'),
            s.len() > 0,
            s == v@.subrange(from as int, to as int),
            hextets(all.take(i as int)) == Some(group_list(groups@)),
        decreases last - i,
    {
        assert(all.take(i + 1).drop_last() =~= all.take(i as int));
        assert(all.take(i + 1).last() == parts@[i as int]@);
        match parse_hextet(&parts[i]) {
            Some(n) => {
                let ghost before = groups@;
                groups.push(n);
                assert(group_list(groups@) =~= group_list(before).push(n as nat));
            },
            None => {
                proof {
                    assert(hextets(all.take(i + 1)) is None);
                    lemma_hextets_prefix(all.drop_last(), i + 1);
                    assert(all.drop_last().take(i + 1) =~= all.take(i + 1));
                }
                return None;
            },
        }
        i = i + 1;
    }
    assert(all.drop_last() =~= all.take(last as int));
    assert(all.last() == parts@[last as int]@);
    let ghost before = groups@;
    match parse_hextet(&parts[last]) {
        Some(n) => {
            groups.push(n);
            assert(group_list(groups@) =~= group_list(before).push(n as nat));
            Some(groups)
        },
        None => {
            if !dotted {
                return None;
            }
            let quad = parse_ipv4(&parts[last], 0, parts[last].len());
            assert(parts@[last as int]@.subrange(0, parts@[last as int]@.len() as int)
                =~= parts@[last as int]@);
            match quad {
                Some(q) => {
                    groups.push((q / 0x1_0000) as u16);
                    groups.push((q % 0x1_0000) as u16);
                    assert(group_list(groups@) =~= group_list(before).push(
                        (q / 0x1_0000) as nat,
                    ).push((q % 0x1_0000) as nat));
                    Some(groups)
                },
                None => None,
            }
        },
    }
}

proof fn lemma_hextets_prefix(parts: Seq<Seq<char>>, i: int)
    requires
        0 <= i <= parts.len(),
        hextets(parts.take(i)) is None,
    ensures
        hextets(parts) is None,
    decreases parts.len() - i,
{
    if i == parts.len() {
        assert(parts.take(i) =~= parts);
    } else {
        assert(parts.take(i + 1).drop_last() =~= parts.take(i));
        lemma_hextets_prefix(parts, i + 1);
    }
}

/// Finds the first `::` among the characters `from..to`; `to` where there is none.
fn find_double_colon(v: &Vec<char>, from: usize, to: usize) -> (at: usize)
    requires
        from <= to <= v@.len(),
    ensures
        from <= at <= to,
        at - from == double_colon(v@.subrange(from as int, to as int)),
        at < to ==> at + 2 <= to,
{
    let ghost s = v@.subrange(from as int, to as int);
    let mut i: usize = from;
    assert(s.skip(0) =~= s);
    while i < to && to - i >= 2
        invariant
            from <= i <= to <= v@.len(),
            s == v@.subrange(from as int, to as int),
            double_colon(s) == i - from + double_colon(s.skip(i - from)),
        decreases to - i,
    {
        if v[i] == ':' && v[i + 1] == ':' {
            return i;
        }
        assert(s.skip(i - from).skip(1) =~= s.skip(i - from + 1));
        i = i + 1;
    }
    to
}

/// The value of some groups is less than the power of 65536 that they span.
proof fn lemma_groups_bound(g: Seq<nat>, k: nat)
    requires
        g.len() <= k <= 8,
        forall|i: int| 0 <= i < g.len() ==> #[trigger] g[i] < 0x1_0000,
    ensures
        groups_value(g) < group_span(g.len()),
        group_span(g.len()) <= group_span(k),
        group_span(8) == 0x1_0000_0000_0000_0000_0000_0000_0000_0000,
    decreases g.len(),
{
    if g.len() > 0 {
        lemma_groups_bound(g.drop_last(), k);
    }
    lemma_span_grows(g.len(), k);
    reveal_with_fuel(group_span, 9);
}

/// 65536 to the power `n`.
spec fn group_span(n: nat) -> nat
    decreases n,
{
    if n == 0 {
        1
    } else {
        0x1_0000 * group_span((n - 1) as nat)
    }
}

proof fn lemma_span_grows(a: nat, b: nat)
    requires
        a <= b,
    ensures
        group_span(a) <= group_span(b),
    decreases b,
{
    if a < b {
        lemma_span_grows(a, (b - 1) as nat);
    }
}

/// The number that eight groups of sixteen bits write.
fn groups_number(g: &Vec<u16>) -> (r: u128)
    requires
        g@.len() == 8,
    ensures
        r == groups_value(group_list(g@)) as u128,
        r as nat == groups_value(group_list(g@)),
{
    let mut value: u128 = 0;
    let mut i: usize = 0;
    let ghost all = group_list(g@);
    while i < 8
        invariant
            i <= 8,
            g@.len() == 8,
            all == group_list(g@),
            value == groups_value(all.take(i as int)),
        decreases 8 - i,
    {
        proof {
            assert(all.take(i + 1).drop_last() =~= all.take(i as int));
            lemma_groups_bound(all.take(i + 1), 8);
        }
        value = value * 0x1_0000 + g[i] as u128;
        i = i + 1;
    }
    assert(all.take(8) =~= all);
    value
}

/// Reads an IPv6 address from the characters `from..to`.
fn parse_ipv6(v: &Vec<char>, from: usize, to: usize) -> (r: Option<u128>)
    requires
        from <= to <= v@.len(),
    ensures
        r == ipv6_of(v@.subrange(from as int, to as int)),
{
    let ghost s = v@.subrange(from as int, to as int);
    let at: usize = find_double_colon(v, from, to);
    if at == to {
        match parse_groups(v, from, to, true) {
            Some(g) => {
                assert(group_list(g@).len() == g@.len());
                if g.len() == 8 {
                    Some(groups_number(&g))
                } else {
                    None
                }
            },
            None => None,
        }
    } else {
        assert(s.take(at - from) =~= v@.subrange(from as int, at as int));
        assert(s.skip(at - from + 2) =~= v@.subrange(at + 2, to as int));
        let mut head = match parse_groups(v, from, at, false) {
            Some(g) => g,
            None => return None,
        };
        let mut rest = match parse_groups(v, at + 2, to, true) {
            Some(g) => g,
            None => return None,
        };
        let ghost h = head@;
        let ghost t = rest@;
        assert(group_list(h).len() == h.len());
        assert(group_list(t).len() == t.len());
        if head.len() > 7 || rest.len() > 7 || head.len() + rest.len() > 7 {
            return None;
        }
        let fill: usize = 8 - head.len() - rest.len();
        let mut i: usize = 0;
        while i < fill
            invariant
                i <= fill,
                head@ == h + Seq::new(i as nat, |k: int| 0u16),
            decreases fill - i,
        {
            head.push(0);
            i = i + 1;
            assert(head@ =~= h + Seq::new(i as nat, |k: int| 0u16));
        }
        head.append(&mut rest);
        assert(group_list(head@) =~= group_list(h) + Seq::new(fill as nat, |k: int| 0nat)
            + group_list(t));
        Some(groups_number(&head))
    }
}

/// Reads an IP address of either version from the characters `from..to`.
pub fn parse_ip_chars(v: &Vec<char>, from: usize, to: usize) -> (r: Option<IpAddr>)
    requires
        from <= to <= v@.len(),
    ensures
        r == ip_of(v@.subrange(from as int, to as int)),
{
    match parse_ipv4(v, from, to) {
        Some(a) => Some(IpAddr::V4(a)),
        None => match parse_ipv6(v, from, to) {
            Some(a) => Some(IpAddr::V6(a)),
            None => None,
        },
    }
}

/// Reads an IP address of either version.
pub fn parse_ip(s: &str) -> (r: Option<IpAddr>)
    ensures
        r == ip_of(s@),
{
    let v = chars_of(s);
    assert(v@.subrange(0, v@.len() as int) =~= v@);
    parse_ip_chars(&v, 0, v.len())
}

// --- writing --------------------------------------------------------------------------

/// A dotted quad.
pub open spec fn ipv4_text(a: u32) -> Seq<char> {
    dec(a as nat / 0x100_0000) + "."@ + dec(a as nat / 0x1_0000 % 0x100) + "."@ + dec(
        a as nat / 0x100 % 0x100,
    ) + "."@ + dec(a as nat % 0x100)
}

/// A number in hexadecimal, without leading zeros.
pub open spec fn hex(n: nat) -> Seq<char>
    decreases n,
{
    if n < 16 {
        seq![hex_digit(n)]
    } else {
        hex(n / 16).push(hex_digit(n % 16))
    }
}

/// The last `n` groups of sixteen bits that `a` writes.
pub open spec fn low_groups(a: nat, n: nat) -> Seq<nat>
    decreases n,
{
    if n == 0 {
        Seq::empty()
    } else {
        low_groups(a / 0x1_0000, (n - 1) as nat).push(a % 0x1_0000)
    }
}

/// The eight groups of an IPv6 address.
pub open spec fn groups_in(a: u128) -> Seq<nat> {
    low_groups(a as nat, 8)
}

/// Groups in hexadecimal, with colons between them.
pub open spec fn groups_text(g: Seq<nat>) -> Seq<char> {
    join(g.map_values(|n: nat| hex(n)), ":"@)
}

/// How many groups from `i` on are zero.
pub open spec fn zeros_at(g: Seq<nat>, i: int) -> nat
    decreases g.len() - i,
{
    if 0 <= i < g.len() && g[i] == 0 {
        1 + zeros_at(g, i + 1)
    } else {
        0
    }
}

/// Where the longest run of zeros among the first `n` starts begins; the first of
/// them where several are as long.
pub open spec fn longest_zeros(g: Seq<nat>, n: nat) -> int
    decreases n,
{
    if n <= 1 {
        0
    } else {
        let before = longest_zeros(g, (n - 1) as nat);
        if zeros_at(g, n - 1) > zeros_at(g, before) {
            n - 1
        } else {
            before
        }
    }
}

/// An IPv6 address. An address that maps an IPv4 one ends in a dotted quad; otherwise
/// the longest run of two or more zero groups is left out.
pub open spec fn ipv6_text(a: u128) -> Seq<char> {
    if a as nat / 0x1_0000_0000 == 0xffff {
        "::ffff:"@ + ipv4_text((a as nat % 0x1_0000_0000) as u32)
    } else {
        let g = groups_in(a);
        let at = longest_zeros(g, 8);
        let run = zeros_at(g, at) as int;
        if run > 1 {
            groups_text(g.take(at)) + "::"@ + groups_text(g.skip(at + run))
        } else {
            groups_text(g)
        }
    }
}

pub open spec fn ip_text(ip: IpAddr) -> Seq<char> {
    match ip {
        IpAddr::V4(a) => ipv4_text(a),
        IpAddr::V6(a) => ipv6_text(a),
    }
}

/// An address with its port; an IPv6 one stands in brackets, with its scope where it
/// has one.
pub open spec fn socket_text(s: SocketAddr) -> Seq<char> {
    match s.ip {
        IpAddr::V4(a) => ipv4_text(a) + ":"@ + dec(s.port as nat),
        IpAddr::V6(a) => if s.scope == 0 {
            "["@ + ipv6_text(a) + "]:"@ + dec(s.port as nat)
        } else {
            "["@ + ipv6_text(a) + "%"@ + dec(s.scope as nat) + "]:"@ + dec(s.port as nat)
        },
    }
}

fn push_ipv4(s: &mut String, a: u32)
    ensures
        final(s)@ == old(s)@ + ipv4_text(a),
{
    push_dec(s, (a / 0x100_0000) as u64);
    s.append(".");
    push_dec(s, (a / 0x1_0000 % 0x100) as u64);
    s.append(".");
    push_dec(s, (a / 0x100 % 0x100) as u64);
    s.append(".");
    push_dec(s, (a % 0x100) as u64);
    assert(s@ =~= old(s)@ + ipv4_text(a));
}

fn push_hex(s: &mut String, n: u16)
    ensures
        final(s)@ == old(s)@ + hex(n as nat),
    decreases n,
{
    if n >= 16 {
        push_hex(s, n / 16);
    }
    let d: u8 = (n % 16) as u8;
    let c: char = if d < 10 {
        (48 + d) as char
    } else {
        (87 + d) as char
    };
    s.push(c);
}

proof fn lemma_low_groups_push(a: nat, n: nat)
    ensures
        low_groups(a, n).len() == n,
        forall|i: int| 0 <= i < n ==> #[trigger] low_groups(a, n)[i] < 0x1_0000,
    decreases n,
{
    if n > 0 {
        lemma_low_groups_push(a / 0x1_0000, (n - 1) as nat);
    }
}

/// The eight groups of an address.
fn groups_vec(a: u128) -> (g: Vec<u16>)
    ensures
        group_list(g@) == groups_in(a),
        g@.len() == 8,
{
    let g = low_groups_vec(a, 8);
    proof {
        lemma_low_groups_push(a as nat, 8);
    }
    g
}

fn low_groups_vec(a: u128, n: u8) -> (g: Vec<u16>)
    ensures
        group_list(g@) == low_groups(a as nat, n as nat),
        g@.len() == n,
    decreases n,
{
    if n == 0 {
        let g: Vec<u16> = Vec::new();
        assert(group_list(g@) =~= Seq::<nat>::empty());
        return g;
    }
    let mut g = low_groups_vec(a / 0x1_0000, n - 1);
    let ghost before = g@;
    let low: u16 = (a % 0x1_0000) as u16;
    g.push(low);
    assert(group_list(g@) =~= group_list(before).push(low as nat));
    g
}

/// How many groups from `i` on are zero.
fn count_zeros(g: &Vec<u16>, i: usize) -> (n: usize)
    requires
        i <= g@.len(),
    ensures
        n == zeros_at(group_list(g@), i as int),
        i + n <= g@.len(),
    decreases g@.len() - i,
{
    if i < g.len() && g[i] == 0 {
        1 + count_zeros(g, i + 1)
    } else {
        0
    }
}

/// Appends the groups `from..to` in hexadecimal.
fn push_groups(s: &mut String, g: &Vec<u16>, from: usize, to: usize)
    requires
        from <= to <= g@.len(),
    ensures
        final(s)@ == old(s)@ + groups_text(group_list(g@).subrange(from as int, to as int)),
{
    let ghost part = group_list(g@).subrange(from as int, to as int);
    let ghost texts = part.map_values(|n: nat| hex(n));
    let ghost start = s@;
    let mut i: usize = from;
    assert(s@ =~= start + join(texts.take(0), ":"@));
    while i < to
        invariant
            from <= i <= to <= g@.len(),
            part == group_list(g@).subrange(from as int, to as int),
            texts == part.map_values(|n: nat| hex(n)),
            s@ == start + join(texts.take(i - from), ":"@),
        decreases to - i,
    {
        proof {
            join_next(texts, i - from, ":"@);
        }
        if i > from {
            s.append(":");
        }
        assert(texts[i - from] == hex(g@[i as int] as nat));
        push_hex(s, g[i]);
        i = i + 1;
        assert(s@ =~= start + join(texts.take(i - from), ":"@));
    }
    assert(texts.take(to - from) =~= texts);
}

fn push_ipv6(s: &mut String, a: u128)
    ensures
        final(s)@ == old(s)@ + ipv6_text(a),
{
    if a / 0x1_0000_0000 == 0xffff {
        s.append("::ffff:");
        push_ipv4(s, (a % 0x1_0000_0000) as u32);
        assert(s@ =~= old(s)@ + ipv6_text(a));
        return;
    }
    let g = groups_vec(a);
    let ghost gs = group_list(g@);
    let mut at: usize = 0;
    let mut run: usize = count_zeros(&g, 0);
    let mut i: usize = 1;
    while i < 8
        invariant
            1 <= i <= 8,
            g@.len() == 8,
            gs == group_list(g@),
            at < 8,
            at == longest_zeros(gs, i as nat),
            run == zeros_at(gs, at as int),
            at + run <= 8,
        decreases 8 - i,
    {
        let n: usize = count_zeros(&g, i);
        if n > run {
            at = i;
            run = n;
        }
        i = i + 1;
    }
    if run > 1 {
        push_groups(s, &g, 0, at);
        s.append("::");
        push_groups(s, &g, at + run, 8);
        assert(gs.subrange(0, at as int) =~= gs.take(at as int));
        assert(gs.subrange(at + run, 8) =~= gs.skip(at + run));
        assert(s@ =~= old(s)@ + ipv6_text(a));
    } else {
        push_groups(s, &g, 0, 8);
        assert(gs.subrange(0, 8) =~= gs);
    }
}

/// Appends an address.
pub fn push_ip(s: &mut String, ip: IpAddr)
    ensures
        final(s)@ == old(s)@ + ip_text(ip),
{
    match ip {
        IpAddr::V4(a) => push_ipv4(s, a),
        IpAddr::V6(a) => push_ipv6(s, a),
    }
}

impl SocketAddr {
    /// The address as it is shown and stored.
    pub fn to_text(&self) -> (s: String)
        ensures
            s@ == socket_text(*self),
    {
        let mut s = String::new();
        match self.ip {
            IpAddr::V4(a) => {
                push_ipv4(&mut s, a);
                s.append(":");
            },
            IpAddr::V6(a) => {
                s.append("[");
                push_ipv6(&mut s, a);
                if self.scope != 0 {
                    s.append("%");
                    push_dec(&mut s, self.scope as u64);
                }
                s.append("]:");
            },
        }
        push_dec(&mut s, self.port as u64);
        assert(s@ =~= socket_text(*self));
        s
    }
}

// --- reading an address with its port -----------------------------------------------------

/// A plain run of digits that writes a number of at most `max`.
pub open spec fn plain_number(s: Seq<char>, max: nat) -> Option<nat> {
    if s.len() > 0 && all_digits(s) && digits_value(s) <= max {
        Some(digits_value(s))
    } else {
        None
    }
}

/// The index of the first `c`, or the length where there is none.
pub open spec fn index_of(s: Seq<char>, c: char) -> nat
    decreases s.len(),
{
    if s.len() == 0 || s[0] == c {
        0
    } else {
        1 + index_of(s.skip(1), c)
    }
}

/// What stands behind the first `c`; `None` where there is none.
pub open spec fn after_char(s: Seq<char>, c: char) -> Option<Seq<char>> {
    if index_of(s, c) < s.len() {
        Some(s.skip(index_of(s, c) as int + 1))
    } else {
        None
    }
}

/// What stands before the first `c`; all of it where there is none.
pub open spec fn before_char(s: Seq<char>, c: char) -> Seq<char> {
    s.take(index_of(s, c) as int)
}

/// A dotted quad, a colon and a port.
pub open spec fn socket_v4_of(s: Seq<char>) -> Option<SocketAddr> {
    match (ipv4_of(before_char(s, ':')), after_char(s, ':')) {
        (Some(a), Some(port)) => match plain_number(port, 65535) {
            Some(p) => Some(SocketAddr { ip: IpAddr::V4(a), port: p as u16, scope: 0 }),
            None => None,
        },
        _ => None,
    }
}

/// The scope behind the first `%`: zero where there is none.
pub open spec fn scope_of(s: Seq<char>) -> Option<nat> {
    match after_char(s, '%') {
        Some(scope) => plain_number(scope, 0xffff_ffff),
        None => Some(0),
    }
}

/// An IPv6 address in brackets, with an optional scope, a colon and a port.
pub open spec fn socket_v6_of(s: Seq<char>) -> Option<SocketAddr> {
    if s.len() == 0 || s[0] != '[' {
        None
    } else {
        let inner = before_char(s.skip(1), ']');
        match after_char(s.skip(1), ']') {
            Some(rest) => if rest.len() > 0 && rest[0] == ':' {
                match (
                    ipv6_of(before_char(inner, '%')),
                    scope_of(inner),
                    plain_number(rest.skip(1), 65535),
                ) {
                    (Some(a), Some(scope), Some(port)) => Some(
                        SocketAddr { ip: IpAddr::V6(a), port: port as u16, scope: scope as u32 },
                    ),
                    _ => None,
                }
            } else {
                None
            },
            None => None,
        }
    }
}

/// The address with a port that a text writes.
pub open spec fn socket_of(s: Seq<char>) -> Option<SocketAddr> {
    match socket_v4_of(s) {
        Some(a) => Some(a),
        None => socket_v6_of(s),
    }
}

/// Finds the first `c` among the characters `from..to`; `to` where there is none.
fn find_char(v: &Vec<char>, from: usize, to: usize, c: char) -> (at: usize)
    requires
        from <= to <= v@.len(),
    ensures
        from <= at <= to,
        at - from == index_of(v@.subrange(from as int, to as int), c),
        at < to ==> v@[at as int] == c,
{
    let ghost s = v@.subrange(from as int, to as int);
    let mut i: usize = from;
    assert(s.skip(0) =~= s);
    while i < to && v[i] != c
        invariant
            from <= i <= to <= v@.len(),
            s == v@.subrange(from as int, to as int),
            index_of(s, c) == i - from + index_of(s.skip(i - from), c),
        decreases to - i,
    {
        assert(s.skip(i - from).skip(1) =~= s.skip(i - from + 1));
        i = i + 1;
    }
    i
}

/// Reads a plain run of digits from the characters `from..to`.
fn parse_plain(v: &Vec<char>, from: usize, to: usize, max: u64) -> (r: Option<u64>)
    requires
        from <= to <= v@.len(),
        max <= 0xffff_ffff,
    ensures
        match r {
            Some(n) => plain_number(v@.subrange(from as int, to as int), max as nat) == Some(
                n as nat,
            ),
            None => plain_number(v@.subrange(from as int, to as int), max as nat) is None,
        },
{
    let mut digits: Vec<char> = Vec::new();
    let mut i: usize = from;
    while i < to
        invariant
            from <= i <= to <= v@.len(),
            digits@ == v@.subrange(from as int, i as int),
        decreases to - i,
    {
        digits.push(v[i]);
        i = i + 1;
        assert(digits@ =~= v@.subrange(from as int, i as int));
    }
    if digits.len() > 0 && digits[0] == '+' {
        assert(!is_digit(digits@[0]));
        return None;
    }
    parse_unsigned(&digits, max)
}

fn parse_socket_v4(v: &Vec<char>) -> (r: Option<SocketAddr>)
    ensures
        r == socket_v4_of(v@),
{
    let len: usize = v.len();
    assert(v@.subrange(0, len as int) =~= v@);
    let at: usize = find_char(v, 0, len, ':');
    if at == len {
        return None;
    }
    assert(v@.subrange(0, at as int) =~= before_char(v@, ':'));
    assert(v@.subrange(at + 1, len as int) =~= v@.skip(at + 1));
    match (parse_ipv4(v, 0, at), parse_plain(v, at + 1, len, 65535)) {
        (Some(a), Some(port)) => Some(SocketAddr { ip: IpAddr::V4(a), port: port as u16, scope: 0 }),
        _ => None,
    }
}

fn parse_socket_v6(v: &Vec<char>) -> (r: Option<SocketAddr>)
    ensures
        r == socket_v6_of(v@),
{
    let len: usize = v.len();
    if len == 0 || v[0] != '[' {
        return None;
    }
    let ghost s = v@.skip(1);
    assert(v@.subrange(1, len as int) =~= s);
    let close: usize = find_char(v, 1, len, ']');
    if close == len {
        return None;
    }
    let ghost inner = before_char(s, ']');
    assert(inner =~= v@.subrange(1, close as int));
    assert(s.skip(index_of(s, ']') as int + 1) =~= v@.skip(close + 1));
    if close + 1 >= len || v[close + 1] != ':' {
        return None;
    }
    let percent: usize = find_char(v, 1, close, '%');
    assert(v@.subrange(1, percent as int) =~= before_char(inner, '%'));
    let address = parse_ipv6(v, 1, percent);
    let scope: Option<u64> = if percent < close {
        assert(v@.subrange(percent + 1, close as int) =~= inner.skip(
            index_of(inner, '%') as int + 1,
        ));
        parse_plain(v, percent + 1, close, 0xffff_ffff)
    } else {
        Some(0)
    };
    assert(v@.subrange(close + 2, len as int) =~= v@.skip(close + 1).skip(1));
    let port = parse_plain(v, close + 2, len, 65535);
    match (address, scope, port) {
        (Some(a), Some(scope), Some(port)) => Some(
            SocketAddr { ip: IpAddr::V6(a), port: port as u16, scope: scope as u32 },
        ),
        _ => None,
    }
}

/// Reads an address with its port.
pub fn parse_socket(s: &str) -> (r: Option<SocketAddr>)
    ensures
        r == socket_of(s@),
{
    let v = chars_of(s);
    match parse_socket_v4(&v) {
        Some(a) => Some(a),
        None => parse_socket_v6(&v),
    }
}

} // verus!
