//! What is made of the texts and bytes at the edges: addresses, commands, paths, upstream hosts
//! and opening messages.
use crate::addr::{
    groups_in, groups_text, hex, hex_value, ip_text, ipv4_of, longest_zeros, low_groups,
    socket_text, zeros_at, IpAddr, SocketAddr,
};
use crate::capture::{
    capturing_text, chooses, datalink_text, drop_text, filter_text, truncation_text, warnings,
    watched, CaptureWatch, DeviceChoice, DeviceInfo,
};
use crate::cli::tls_dir_of;
use crate::command::{
    command_argument, command_input, command_of, command_word, expanded, without_marks, word_len,
    Command,
};
use crate::decode::DrainOutcome;
use crate::flow::Role;
use crate::net_laws::four_bytes;
use crate::output::{dropped_text, Event};
use crate::proxy::{
    chunk_recorded, head_step, host_of, last_index_of, probe_step, serving_text, ssl_request,
    strip_back, strip_front, traffic_of, ClientStep,
};
use crate::search::{first_from, jump_target, last_before};
use crate::state::{ConnId, Ledger};
use crate::text::{dec, is_space, trim, trim_start};
use crate::tls::{
    authority_request_view, certificates_or, identity_names, identity_of, key_or, leaf_request_view,
    trust_lines, PrivateKey,
};
use crate::tui::{mitm_splash, pcap_splash};
use vstd::prelude::*;

verus! {

// --- addresses -------------------------------------------------------------------------------

/// An IPv4 address is written as its four bytes in decimal, the greatest first.
pub proof fn ipv4_addresses_are_dotted(a: u8, b: u8, c: u8, d: u8, port: u16)
    ensures
        ({
            let value = (a * 0x100_0000 + b * 0x1_0000 + c * 0x100 + d) as u32;
            let text = dec(a as nat) + "."@ + dec(b as nat) + "."@ + dec(c as nat) + "."@ + dec(
                d as nat,
            );
            &&& ip_text(IpAddr::V4(value)) == text
            &&& ipv4_of(text) == Some(value)
            &&& socket_text(SocketAddr { ip: IpAddr::V4(value), port, scope: 0 }) == text + ":"@
                + dec(port as nat)
        }),
{
    let value = (a * 0x100_0000 + b * 0x1_0000 + c * 0x100 + d) as u32;
    lemma_quad(a as int, b as int, c as int, d as int);
    crate::addr_laws::dotted_quads_read_back(value);
}

proof fn lemma_quad(a: int, b: int, c: int, d: int)
    requires
        0 <= a < 256,
        0 <= b < 256,
        0 <= c < 256,
        0 <= d < 256,
    ensures
        (a * 0x100_0000 + b * 0x1_0000 + c * 0x100 + d) / 0x100_0000 == a,
        (a * 0x100_0000 + b * 0x1_0000 + c * 0x100 + d) / 0x1_0000 % 0x100 == b,
        (a * 0x100_0000 + b * 0x1_0000 + c * 0x100 + d) / 0x100 % 0x100 == c,
        (a * 0x100_0000 + b * 0x1_0000 + c * 0x100 + d) % 0x100 == d,
{
    let v = a * 0x100_0000 + b * 0x1_0000 + c * 0x100 + d;
    let high = a * 0x1_0000 + b * 0x100 + c;
    let top = a * 0x100 + b;
    assert(v == high * 0x100 + d);
    assert(v / 0x100 == high);
    assert(high == top * 0x100 + c);
    assert(high / 0x100 == top);
    assert(top / 0x100 == a);
    vstd::arithmetic::div_mod::lemma_div_denominator(v, 0x100, 0x100);
    vstd::arithmetic::div_mod::lemma_div_denominator(v, 0x1_0000, 0x100);
}

/// An IPv6 address is eight groups of sixteen bits, the greatest first, each in hexadecimal
/// without zeros before it.
pub proof fn ipv6_addresses_are_groups(a: nat, g: nat, n: nat, d: nat)
    requires
        g < 0x1_0000,
        d < 16,
    ensures
        low_groups(0x1_0000 * a + g, n + 1) == low_groups(a, n).push(g),
        hex(d) == seq!["0123456789abcdef"@[d as int]],
        g > 0 ==> hex(16 * g + d) == hex(g).push("0123456789abcdef"@[d as int]),
{
    reveal_strlit("0123456789abcdef");
    assert((0x1_0000 * a + g) / 0x1_0000 == a);
    assert((0x1_0000 * a + g) % 0x1_0000 == g);
    if g > 0 {
        assert((16 * g + d) / 16 == g);
        assert((16 * g + d) % 16 == d);
    }
}

/// An address of another kind stands in brackets before its port, with its scope where it has
/// one.
pub proof fn ipv6_sockets_stand_in_brackets(a: u128, port: u16, scope: u32)
    ensures
        socket_text(SocketAddr { ip: IpAddr::V6(a), port, scope: 0 }) == "["@ + ip_text(
            IpAddr::V6(a),
        ) + "]:"@ + dec(port as nat),
        scope != 0 ==> socket_text(SocketAddr { ip: IpAddr::V6(a), port, scope }) == "["@ + ip_text(
            IpAddr::V6(a),
        ) + "%"@ + dec(scope as nat) + "]:"@ + dec(port as nat),
{
}

// --- commands -----------------------------------------------------------------------------------

/// A word without white space or marks at its front.
pub open spec fn bare_word(w: Seq<char>) -> bool {
    &&& w.len() > 0
    &&& w[0] != ':' && w[0] != '/'
    &&& forall|i: int| 0 <= i < w.len() ==> !is_space(#[trigger] w[i])
}

/// An argument as it is kept: some text with no white space round it.
pub open spec fn bare_argument(a: Seq<char>) -> bool {
    a.len() > 0 && !is_space(a[0]) && !is_space(a.last())
}

proof fn lemma_word_len(w: Seq<char>, rest: Seq<char>)
    requires
        forall|i: int| 0 <= i < w.len() ==> !is_space(#[trigger] w[i]),
        rest.len() == 0 || is_space(rest[0]),
    ensures
        word_len(w + rest) == w.len(),
    decreases w.len(),
{
    let s = w + rest;
    if w.len() == 0 {
        assert(s =~= rest);
    } else {
        assert(s[0] == w[0]);
        assert(s.skip(1) =~= w.skip(1) + rest);
        assert forall|i: int| 0 <= i < w.skip(1).len() implies !is_space(
            #[trigger] w.skip(1)[i],
        ) by {
            assert(w.skip(1)[i] == w[i + 1]);
        }
        lemma_word_len(w.skip(1), rest);
    }
}

#[verifier::rlimit(30)]
proof fn lemma_command(w: Seq<char>, argument: Seq<char>)
    requires
        bare_word(w),
        bare_argument(argument),
    ensures
        command_word(w + " "@ + argument) == w,
        command_argument(w + " "@ + argument) == argument,
        command_word(w) == w,
        command_argument(w).len() == 0,
{
    reveal_strlit(" ");
    let s = w + " "@ + argument;
    assert(s[0] == w[0] && s.last() == argument.last());
    assert(!is_space(w[0]));
    assert(trim(s) == s) by {
        assert(trim_start(s) == s);
    }
    assert(without_marks(s) == s);
    assert(command_input(s) == s);
    assert(s =~= w + (" "@ + argument));
    lemma_word_len(w, " "@ + argument);
    assert(s.take(w.len() as int) =~= w);
    let rest = s.skip(w.len() as int);
    assert(rest =~= seq![' '] + argument);
    assert(rest.skip(1) =~= argument);
    assert(trim_start(rest) == trim_start(argument));
    assert(trim(rest) == argument);
    let none = Seq::<char>::empty();
    assert(w + none =~= w);
    assert(!is_space(w[w.len() - 1]));
    assert(trim(w) == w);
    assert(command_input(w) == w);
    lemma_word_len(w, none);
    assert(w.take(w.len() as int) =~= w);
    assert(w.skip(w.len() as int) =~= none);
}

/// `save`, `write` and `w` with a path save there, and `open` and `o` open it; without a path
/// they say how they are used. Any other word is unknown, and none at all is no command.
#[verifier::rlimit(30)]
pub proof fn commands_take_a_path(path: Seq<char>, other: Seq<char>)
    requires
        bare_argument(path),
        bare_word(other),
        other != "w"@ && other != "write"@ && other != "save"@ && other != "o"@ && other
            != "open"@,
    ensures
        command_of("save"@ + " "@ + path) == Ok::<Command<Seq<char>>, Seq<char>>(
            Command::Save(path),
        ),
        command_of("write"@ + " "@ + path) == Ok::<Command<Seq<char>>, Seq<char>>(
            Command::Save(path),
        ),
        command_of("w"@ + " "@ + path) == Ok::<Command<Seq<char>>, Seq<char>>(Command::Save(path)),
        command_of("open"@ + " "@ + path) == Ok::<Command<Seq<char>>, Seq<char>>(
            Command::Open(path),
        ),
        command_of("o"@ + " "@ + path) == Ok::<Command<Seq<char>>, Seq<char>>(Command::Open(path)),
        command_of("save"@) == Err::<Command<Seq<char>>, Seq<char>>("usage: :save FILE"@),
        command_of("open"@) == Err::<Command<Seq<char>>, Seq<char>>("usage: :open FILE"@),
        command_of(other) == Err::<Command<Seq<char>>, Seq<char>>("unknown command: "@ + other),
        command_of(other + " "@ + path) == Err::<Command<Seq<char>>, Seq<char>>(
            "unknown command: "@ + other,
        ),
        command_of(Seq::empty()) == Err::<Command<Seq<char>>, Seq<char>>("command is empty"@),
{
    reveal_strlit("save");
    reveal_strlit("write");
    reveal_strlit("w");
    reveal_strlit("open");
    reveal_strlit("o");
    lemma_command("save"@, path);
    lemma_command("write"@, path);
    lemma_command("w"@, path);
    lemma_command("open"@, path);
    lemma_command("o"@, path);
    lemma_command(other, path);
    assert("open"@[0] == 'o' && "o"@[0] == 'o' && "save"@[0] == 's' && "write"@[0] == 'w'
        && "w"@[0] == 'w');
    let none = Seq::<char>::empty();
    assert(command_input(none) == none);
    assert(command_word(none) =~= none);
}

/// A leading `~/`, and a lone `~`, stand for the home directory; any other path for itself.
pub proof fn tildes_stand_for_the_home(home: Seq<char>, rest: Seq<char>, path: Seq<char>)
    requires
        home.len() > 0,
        home.last() != '/',
        rest.len() > 0,
        rest[0] != '/',
        path.len() > 0,
        path[0] != '~',
    ensures
        expanded("~/"@ + rest, Some(home)) == home + "/"@ + rest,
        expanded("~"@, Some(home)) == home,
        expanded(path, Some(home)) == path,
        expanded("~/"@ + rest, None) == "~/"@ + rest,
        expanded("~"@, None) == "~"@,
{
    reveal_strlit("~/");
    reveal_strlit("~");
    let s = "~/"@ + rest;
    assert(s[0] == '~' && s[1] == '/');
    assert(s.skip(2) =~= rest);
    assert(path != "~"@);
}

/// The certificates stand below the user's configuration directory, else below `.config` in
/// the home directory, else here.
pub proof fn certificates_have_a_place(config: Seq<char>, home: Option<Seq<char>>, h: Seq<char>)
    requires
        config.len() > 0,
        config.last() != '/',
        h.len() > 0,
        h.last() != '/',
    ensures
        tls_dir_of(Some(config), home) == config + "/"@ + "tapgres"@,
        tls_dir_of(None, Some(h)) == h + "/"@ + ".config"@ + "/"@ + "tapgres"@,
        tls_dir_of(None, None) == ".tapgres"@,
{
    reveal_strlit(".config");
    let inner = h + "/"@ + ".config"@;
    assert(inner.last() == 'g');
}

// --- the proxy ------------------------------------------------------------------------------------

/// An opening message is told by its code: 80877103 asks for SSL, 80877104 for GSS and 80877102
/// cancels; anything else goes on in cleartext. A first byte of 22 is TLS straight away.
pub proof fn opening_messages_are_told_by_their_code(length: u32, code: u32, first: u8)
    ensures
        ({
            let head = four_bytes(length) + four_bytes(code);
            &&& code == 80877103 ==> head_step(Some(head)) == (ClientStep::StartTls {
                accept: true,
            })
            &&& code == 80877104 ==> head_step(Some(head)) is RefuseGss
            &&& code == 80877102 ==> head_step(Some(head)) is RelayCancel
            &&& code != 80877103 && code != 80877104 && code != 80877102 ==> head_step(
                Some(head),
            ) is Cleartext
        }),
        head_step(None) is GiveUp,
        first == 22 ==> probe_step(Some(first)) == (ClientStep::StartTls { accept: false }),
        first != 22 ==> probe_step(Some(first)) is ReadHead,
        probe_step(None) is ReadHead,
        ssl_request() == four_bytes(8) + four_bytes(80877103),
{
    let head = four_bytes(length) + four_bytes(code);
    assert(head.subrange(4, 8) =~= four_bytes(code));
    crate::net_laws::four_bytes_read_back(head, 4, code);
    assert(ssl_request() =~= four_bytes(8) + four_bytes(80877103));
}

proof fn lemma_last_index(s: Seq<char>, tail: Seq<char>, c: char)
    requires
        forall|i: int| 0 <= i < tail.len() ==> #[trigger] tail[i] != c,
    ensures
        last_index_of(s.push(c) + tail, c) == Some(s.len()),
    decreases tail.len(),
{
    let t = s.push(c) + tail;
    if tail.len() == 0 {
        assert(t =~= s.push(c));
    } else {
        assert(t.last() == tail[tail.len() - 1]);
        assert(t.drop_last() =~= s.push(c) + tail.drop_last());
        assert forall|i: int| 0 <= i < tail.drop_last().len() implies #[trigger] tail.drop_last()[i]
            != c by {
            assert(tail.drop_last()[i] == tail[i]);
        }
        lemma_last_index(s, tail.drop_last(), c);
    }
}

/// The host of an upstream is what stands before its port, without brackets round it.
#[verifier::rlimit(30)]
pub proof fn hosts_stand_before_the_port(host: Seq<char>, port: Seq<char>)
    requires
        host.len() > 0,
        host[0] != '[',
        host.last() != ']',
        forall|i: int| 0 <= i < port.len() ==> #[trigger] port[i] != ':',
    ensures
        host_of(host + ":"@ + port) == host,
        host_of("["@ + host + "]:"@ + port) == host,
        (forall|i: int| 0 <= i < host.len() ==> #[trigger] host[i] != ':') ==> host_of(host)
            == host,
{
    reveal_strlit(":");
    reveal_strlit("[");
    reveal_strlit("]:");
    let bare = host + ":"@ + port;
    assert(bare =~= host.push(':') + port);
    lemma_last_index(host, port, ':');
    assert(bare.take(host.len() as int) =~= host);
    assert(strip_front(host, '[') == host);
    assert(strip_back(host, ']') == host);
    let inner = "["@ + host + seq![']'];
    let boxed = "["@ + host + "]:"@ + port;
    assert(boxed =~= inner.push(':') + port);
    lemma_last_index(inner, port, ':');
    assert(boxed.take(inner.len() as int) =~= inner);
    assert(inner[0] == '[');
    let opened = inner.skip(1);
    assert(opened =~= host.push(']'));
    assert(opened[0] == host[0]);
    assert(strip_front(opened, '[') == opened);
    assert(strip_front(inner, '[') == opened);
    assert(opened.drop_last() =~= host);
    assert(strip_back(opened, ']') == strip_back(host, ']'));
    if forall|i: int| 0 <= i < host.len() ==> #[trigger] host[i] != ':' {
        lemma_no_index(host, ':');
    }
}

proof fn lemma_no_index(s: Seq<char>, c: char)
    requires
        forall|i: int| 0 <= i < s.len() ==> #[trigger] s[i] != c,
    ensures
        last_index_of(s, c) is None,
    decreases s.len(),
{
    if s.len() > 0 {
        assert(s[s.len() - 1] != c);
        assert forall|i: int| 0 <= i < s.drop_last().len() implies #[trigger] s.drop_last()[i]
            != c by {
            assert(s.drop_last()[i] == s[i]);
        }
        lemma_no_index(s.drop_last(), c);
    }
}

/// What the client sends counts as coming in, and what the server sends as going out.
pub proof fn traffic_counts_by_sender(role: Role)
    ensures
        traffic_of(role) is In <==> role is Client,
        traffic_of(role) is Out <==> role is Server,
{
}

// --- searching ------------------------------------------------------------------------------------

/// A jump forward lands on the nearest hit behind the anchor, or on the first hit where there
/// is none; one back on the nearest before it, or on the last.
pub proof fn jumps_land_on_the_nearest_hit(positions: Seq<usize>, anchor: usize, current: bool)
    requires
        crate::search::ascending(positions),
        positions.len() > 0,
    ensures
        ({
            let to = jump_target(positions, anchor, true, current)->0;
            let from = if current {
                anchor as int
            } else {
                anchor + 1
            };
            &&& jump_target(positions, anchor, true, current) is Some
            &&& positions.contains(to)
            &&& to >= from ==> forall|i: int|
                0 <= i < positions.len() && from <= #[trigger] positions[i] ==> to <= positions[i]
            &&& to < from ==> to == positions[0] && forall|i: int|
                0 <= i < positions.len() ==> #[trigger] positions[i] < from
        }),
        ({
            let to = jump_target(positions, anchor, false, current)->0;
            &&& jump_target(positions, anchor, false, current) is Some
            &&& positions.contains(to)
            &&& to < anchor ==> forall|i: int|
                0 <= i < positions.len() && #[trigger] positions[i] < anchor ==> positions[i] <= to
            &&& to >= anchor ==> to == positions.last() && forall|i: int|
                0 <= i < positions.len() ==> #[trigger] positions[i] >= anchor
        }),
        jump_target(Seq::empty(), anchor, true, current) is None,
{
    let from = if current {
        anchor as int
    } else {
        anchor + 1
    };
    lemma_first_from(positions, from);
    lemma_last_before(positions, anchor as int);
    assert(positions[0] == positions[0]);
    assert(positions.contains(positions[0]));
    assert(positions[positions.len() - 1] == positions.last());
    assert(positions.contains(positions.last()));
}

proof fn lemma_first_from(p: Seq<usize>, bound: int)
    requires
        crate::search::ascending(p),
    ensures
        match first_from(p, bound) {
            Some(x) => p.contains(x) && x >= bound && forall|i: int|
                0 <= i < p.len() && #[trigger] p[i] >= bound ==> x <= p[i],
            None => forall|i: int| 0 <= i < p.len() ==> #[trigger] p[i] < bound,
        },
    decreases p.len(),
{
    if p.len() > 0 {
        assert(p[0] == p[0]);
        if p[0] >= bound {
            assert(p.contains(p[0]));
        } else {
            let rest = p.skip(1);
            assert forall|i: int, j: int| 0 <= i < j < rest.len() implies rest[i] < rest[j] by {
                assert(p[i + 1] < p[j + 1]);
            }
            lemma_first_from(rest, bound);
            assert forall|i: int| 0 <= i < p.len() && #[trigger] p[i] >= bound implies i > 0
                && rest[i - 1] == p[i] by {}
            match first_from(rest, bound) {
                Some(x) => {
                    let k = choose|k: int| 0 <= k < rest.len() && rest[k] == x;
                    assert(p[k + 1] == x);
                },
                None => {
                    assert forall|i: int| 0 <= i < p.len() implies #[trigger] p[i] < bound by {
                        if i > 0 {
                            assert(rest[i - 1] == p[i]);
                        }
                    }
                },
            }
        }
    }
}

proof fn lemma_last_before(p: Seq<usize>, bound: int)
    requires
        crate::search::ascending(p),
    ensures
        match last_before(p, bound) {
            Some(x) => p.contains(x) && x < bound && forall|i: int|
                0 <= i < p.len() && #[trigger] p[i] < bound ==> p[i] <= x,
            None => forall|i: int| 0 <= i < p.len() ==> #[trigger] p[i] >= bound,
        },
    decreases p.len(),
{
    if p.len() > 0 {
        let n = p.len() - 1;
        assert(p[n] == p.last());
        if p.last() < bound {
            assert(p.contains(p.last()));
            assert forall|i: int| 0 <= i < p.len() && #[trigger] p[i] < bound implies p[i]
                <= p.last() by {
                if i < n {
                    assert(p[i] < p[n]);
                }
            }
        } else {
            let rest = p.drop_last();
            assert forall|i: int, j: int| 0 <= i < j < rest.len() implies rest[i] < rest[j] by {
                assert(p[i] < p[j]);
            }
            lemma_last_before(rest, bound);
            assert forall|i: int| 0 <= i < p.len() && #[trigger] p[i] < bound implies i < n
                && rest[i] == p[i] by {}
            match last_before(rest, bound) {
                Some(x) => {
                    let k = choose|k: int| 0 <= k < rest.len() && rest[k] == x;
                    assert(p[k] == x);
                },
                None => {
                    assert forall|i: int| 0 <= i < p.len() implies #[trigger] p[i] >= bound by {
                        if i < n {
                            assert(rest[i] == p[i]);
                        }
                    }
                },
            }
        }
    }
}

// --- the capture --------------------------------------------------------------------------------------

/// What the capture says: the filter takes the port's traffic, tagged or not; a packet cut
/// short is warned of with both lengths, what the kernel dropped with its number.
pub proof fn captures_say_what_they_do(
    port: u16,
    device: Seq<char>,
    caplen: u32,
    len: u32,
    dropped: nat,
)
    ensures
        filter_text(port) == "tcp port "@ + dec(port as nat) + " or (vlan and tcp port "@ + dec(
            port as nat,
        ) + ")"@,
        capturing_text(device, port) == "tapgres: capturing on '"@ + device
            + "'  (filter: tcp port "@ + dec(port as nat) + ")"@,
        truncation_text(caplen, len) == "tapgres: warning — packets truncated to "@ + dec(
            caplen as nat,
        ) + " of "@ + dec(len as nat) + " bytes; raise --snaplen to avoid gaps in decoding"@,
        drop_text(dropped) == "tapgres: kernel dropped "@ + dec(dropped)
            + " packets (capture can't keep up); decoding may have gaps"@,
        datalink_text(0) == "NULL (BSD loopback)"@,
        datalink_text(1) == "EN10MB (Ethernet)"@,
        datalink_text(12) == "RAW (raw IP)"@ && datalink_text(101) == "RAW (raw IP)"@,
        datalink_text(113) == "LINUX_SLL (cooked)"@,
        datalink_text(276) == "LINUX_SLL2 (cooked v2)"@,
        datalink_text(228) == "IPV4"@ && datalink_text(229) == "IPV6"@,
{
}

/// A packet is warned of where it is cut short, unless one was before.
pub proof fn cut_packets_are_warned_of(w: CaptureWatch, caplen: u32, len: u32)
    ensures
        (warnings(w, caplen, len).len() > 0) == (caplen < len && !w.warned_truncation),
        warnings(w, caplen, len).len() > 0 ==> warnings(w, caplen, len) == seq![
            Event::Status(truncation_text(caplen, len)),
        ],
        watched(w, caplen, len).warned_truncation == (w.warned_truncation || caplen < len),
        watched(w, caplen, len).last_dropped == w.last_dropped,
        w.since_stats < 9_999 ==> watched(w, caplen, len).since_stats == w.since_stats + 1,
        w.since_stats == 9_999 ==> watched(w, caplen, len).since_stats == 0,
{
}

// --- status lines ---------------------------------------------------------------------------------

/// What the proxy says of where it listens and forwards to, and of the certificate in use.
pub proof fn the_proxy_says_what_it_does(
    opts: crate::proxy::ProxyOpts,
    path: Seq<char>,
    lost: nat,
)
    requires
        lost > 0,
    ensures
        opts.no_upstream_tls ==> serving_text(opts) == "tapgres: mitm proxy  "@ + opts.listen@
            + "  ->  "@ + opts.upstream@ + "  (client TLS termination"@ + ", upstream cleartext"@
            + ")"@,
        !opts.no_upstream_tls ==> serving_text(opts) == "tapgres: mitm proxy  "@ + opts.listen@
            + "  ->  "@ + opts.upstream@ + "  (client TLS termination"@
            + ", upstream TLS auto-negotiate"@ + ")"@,
        trust_lines(Some(path)).len() == 3,
        trust_lines(Some(path))[0] == "tapgres: generated/loaded CA at "@ + path,
        trust_lines(Some(path))[2] == "  cp "@ + path + " ~/.postgresql/root.crt"@,
        trust_lines(None) == seq!["tapgres: using user-supplied TLS certificate"@],
        dropped_text(0) is None,
        dropped_text(lost) == Some(
            "tapgres: dropped "@ + dec(lost) + " output records (consumer could not keep up)"@,
        ),
{
}

/// What the splash says of a capture and of a proxy.
pub proof fn splashes_name_the_source(
    pcap: crate::capture::PcapOpts,
    mitm: crate::proxy::ProxyOpts,
)
    ensures
        pcap_splash(pcap)[1] == "monitoring port:      "@ + dec(pcap.port as nat),
        pcap.interface is None ==> pcap_splash(pcap)[0] == "capturing interface:  "@
            + "lo (loopback, default)"@,
        pcap.interface is Some ==> pcap_splash(pcap)[0] == "capturing interface:  "@
            + pcap.interface->0@,
        mitm_splash(mitm)[0] == "point your client at:  "@ + mitm.listen@,
        mitm_splash(mitm)[1] == "forwarding to:         "@ + mitm.upstream@,
        mitm.tls_cert is Some ==> mitm_splash(mitm)[2]
            == "client TLS:  user-supplied certificate"@,
        mitm.tls_cert is None ==> mitm_splash(mitm)[2] == "client TLS:  auto CA in "@
            + mitm.tls_dir@,
        mitm.no_upstream_tls ==> mitm_splash(mitm)[3] == "upstream:     cleartext"@,
        !mitm.no_upstream_tls ==> mitm_splash(mitm)[3] == "upstream:     TLS auto-negotiate"@,
{
}

/// The authority signs and is valid for no host; the leaf does not sign, and is valid for this
/// host by name and by both addresses.
pub proof fn certificates_are_for_this_host()
    ensures
        authority_request_view().authority,
        authority_request_view().hosts.len() == 0,
        authority_request_view().usages == seq![crate::tls::KeyUsage::CertificateSigning],
        authority_request_view().common_name == "tapgres CA"@,
        !leaf_request_view().authority,
        leaf_request_view().usages.len() == 0,
        leaf_request_view().common_name == "tapgres"@,
        leaf_request_view().hosts == seq!["localhost"@, "127.0.0.1"@, "::1"@],
{
}

/// Without a wish the first loopback device is captured; a wish is met by the first device of
/// that name, or by the bare name where none has it.
pub proof fn the_first_fitting_device_is_chosen(
    devices: Seq<DeviceInfo>,
    name: Seq<char>,
    i: usize,
    j: int,
)
    requires
        0 <= j < devices.len(),
    ensures
        chooses(devices, None, Ok(DeviceChoice::Listed(i))) && devices[j].loopback ==> i <= j
            && devices[i as int].loopback,
        chooses(devices, Some(name), Ok(DeviceChoice::Listed(i))) && devices[j].name@ == name ==> i
            <= j && devices[i as int].name@ == name,
        forall|n: String| #[trigger]
            chooses(devices, Some(name), Ok(DeviceChoice::Named(n))) ==> n@ == name
                && devices[j].name@ != name,
        forall|e: String| #[trigger]
            chooses(devices, None, Err(e)) ==> !devices[j].loopback,
        forall|e: String| !#[trigger] chooses(devices, Some(name), Err(e)),
{
}

/// A certificate file must hold a certificate and a key file a key; what they hold is taken as
/// it is, and an error is passed on.
pub proof fn certificate_files_must_hold_something(
    path: Seq<char>,
    certs: Seq<Seq<u8>>,
    key: PrivateKey<Seq<u8>>,
    error: Seq<char>,
)
    ensures
        certs.len() > 0 ==> certificates_or(path, Ok(certs)) == Ok::<Seq<Seq<u8>>, Seq<char>>(
            certs,
        ),
        certificates_or(path, Ok(Seq::empty())) == Err::<Seq<Seq<u8>>, Seq<char>>(
            "no certificates found in "@ + path,
        ),
        certificates_or(path, Err(error)) == Err::<Seq<Seq<u8>>, Seq<char>>(error),
        key_or(path, Ok(Some(key))) == Ok::<PrivateKey<Seq<u8>>, Seq<char>>(key),
        key_or(path, Ok(None)) == Err::<PrivateKey<Seq<u8>>, Seq<char>>(
            "no private key found in "@ + path,
        ),
        key_or(path, Err(error)) == Err::<PrivateKey<Seq<u8>>, Seq<char>>(error),
{
}

// --- how IPv6 addresses are shortened ------------------------------------------------------------

/// The run that is left out of an address is the longest run of zeros, and the first where
/// several are as long.
pub proof fn the_longest_zeros_are_found(g: Seq<nat>, n: nat, i: int)
    requires
        0 <= i < n,
    ensures
        zeros_at(g, i) <= zeros_at(g, longest_zeros(g, n)),
        i < longest_zeros(g, n) ==> zeros_at(g, i) < zeros_at(g, longest_zeros(g, n)),
        0 <= longest_zeros(g, n) < n,
    decreases n,
{
    if n > 1 {
        if i < n - 1 {
            the_longest_zeros_are_found(g, (n - 1) as nat, i);
        } else {
            the_longest_zeros_are_found(g, (n - 1) as nat, 0);
        }
    }
}

/// A run of zeros is as many zero groups, and what ends it is none.
pub proof fn runs_of_zeros_are_counted(g: Seq<nat>, i: int, k: int)
    requires
        0 <= i <= g.len(),
    ensures
        i + zeros_at(g, i) <= g.len(),
        i <= k < i + zeros_at(g, i) ==> g[k] == 0,
        i + zeros_at(g, i) < g.len() ==> g[i + zeros_at(g, i)] != 0,
    decreases g.len() - i,
{
    if i < g.len() && g[i] == 0 {
        runs_of_zeros_are_counted(g, i + 1, k);
    }
}

/// Two or more zero groups are written as `::`, between the groups before and those behind; an
/// address without such a run is written out, and one that maps an IPv4 address ends in it.
pub proof fn addresses_are_shortened_at_the_zeros(a: u128, quad: u32)
    ensures
        ip_text(IpAddr::V6((0xffff_0000_0000 + quad) as u128)) == "::ffff:"@ + ip_text(
            IpAddr::V4(quad),
        ),
        ({
            let g = groups_in(a);
            let at = longest_zeros(g, 8);
            let run = zeros_at(g, at) as int;
            &&& !(0xffff_0000_0000 <= a <= 0xffff_ffff_ffff) && run > 1 ==> ip_text(IpAddr::V6(a))
                == groups_text(g.take(at)) + "::"@ + groups_text(g.skip(at + run))
            &&& !(0xffff_0000_0000 <= a <= 0xffff_ffff_ffff) && run <= 1 ==> ip_text(IpAddr::V6(a))
                == groups_text(g)
        }),
{
    assert((0xffff_0000_0000 + quad) as nat / 0x1_0000_0000 == 0xffff);
    assert((0xffff_0000_0000 + quad) as nat % 0x1_0000_0000 == quad);
}

/// Groups stand with a colon between each two.
pub proof fn groups_stand_between_colons(g: Seq<nat>, n: nat)
    ensures
        groups_text(seq![n]) == hex(n),
        g.len() > 0 ==> groups_text(g.push(n)) == groups_text(g) + ":"@ + hex(n),
        groups_text(Seq::empty()).len() == 0,
{
    let f = |x: nat| hex(x);
    assert(seq![n].map_values(f) =~= seq![hex(n)]);
    assert(g.push(n).map_values(f).drop_last() =~= g.map_values(f));
    assert(Seq::<nat>::empty().map_values(f) =~= Seq::<Seq<char>>::empty());
}

/// Hexadecimal digits are read in either case.
pub proof fn hexadecimal_digits_have_two_cases(d: nat)
    requires
        d < 16,
    ensures
        hex_value("0123456789abcdef"@[d as int]) == Some(d),
        hex_value("0123456789ABCDEF"@[d as int]) == Some(d),
        hex_value('g') is None && hex_value(':') is None && hex_value('G') is None,
{
    reveal_strlit("0123456789abcdef");
    reveal_strlit("0123456789ABCDEF");
}

// --- relaying ----------------------------------------------------------------------------------------

/// What a relayed chunk completes counts in the direction of its sender, and nothing else does.
pub proof fn relayed_messages_count_by_sender(
    m: Ledger,
    conn: ConnId,
    role: Role,
    o: DrainOutcome,
)
    requires
        m.totals.msgs_in + o.msgs <= u64::MAX,
        m.totals.msgs_out + o.msgs <= u64::MAX,
        m.totals.bytes_in + o.bytes <= u64::MAX,
        m.totals.bytes_out + o.bytes <= u64::MAX,
        o.msgs > 0,
    ensures
        ({
            let after = chunk_recorded(m, conn, role, o).totals;
            &&& role is Client ==> after.msgs_in == m.totals.msgs_in + o.msgs && after.bytes_in
                == m.totals.bytes_in + o.bytes && after.msgs_out == m.totals.msgs_out
                && after.bytes_out == m.totals.bytes_out
            &&& role is Server ==> after.msgs_out == m.totals.msgs_out + o.msgs && after.bytes_out
                == m.totals.bytes_out + o.bytes && after.msgs_in == m.totals.msgs_in
                && after.bytes_in == m.totals.bytes_in
        }),
        chunk_recorded(m, conn, role, crate::decode::no_outcome()) == m,
{
}

/// An identity is four files, of the authority and of the leaf, and the first error where one
/// was not issued.
pub proof fn identities_are_four_files(
    ca: (Seq<char>, Seq<char>),
    leaf: (Seq<char>, Seq<char>),
    e: Seq<char>,
    f: Seq<char>,
)
    ensures
        identity_names() == seq!["ca.crt"@, "ca.key"@, "server.crt"@, "server.key"@],
        identity_of(Ok(ca), Ok(leaf)) == Ok::<Seq<Seq<char>>, Seq<char>>(
            seq![ca.0, ca.1, leaf.0, leaf.1],
        ),
        identity_of(Err(e), Ok(leaf)) == Err::<Seq<Seq<char>>, Seq<char>>(e),
        identity_of(Err(e), Err(f)) == Err::<Seq<Seq<char>>, Seq<char>>(e),
        identity_of(Ok(ca), Err(f)) == Err::<Seq<Seq<char>>, Seq<char>>(f),
{
}

} // verus!
