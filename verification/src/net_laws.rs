//! Frames built from their fields are read back as those fields.
use crate::addr::IpAddr;
use crate::net::{
    be128, be16, be32, behind_extensions, extension_length, frame_segment, ip_segment, link_payload,
    tcp_segment, SegmentView,
};
use vstd::prelude::*;

verus! {

// --- fields as bytes ---------------------------------------------------------------------

/// A number as two bytes, the greater first.
pub open spec fn two_bytes(n: u16) -> Seq<u8> {
    seq![(n / 256) as u8, (n % 256) as u8]
}

/// A number as four bytes, the greatest first.
pub open spec fn four_bytes(n: u32) -> Seq<u8> {
    two_bytes((n / 0x1_0000) as u16) + two_bytes((n % 0x1_0000) as u16)
}

/// An address of four words, the greatest first.
pub open spec fn words_value(a: u32, b: u32, c: u32, d: u32) -> u128 {
    (((a * 0x1_0000_0000 + b) * 0x1_0000_0000 + c) * 0x1_0000_0000 + d) as u128
}

/// Two bytes are read as the number that they were written for.
pub proof fn two_bytes_read_back(b: Seq<u8>, i: int, n: u16)
    requires
        0 <= i,
        i + 2 <= b.len(),
        b.subrange(i, i + 2) == two_bytes(n),
    ensures
        be16(b, i) == n,
{
    assert(b[i] == b.subrange(i, i + 2)[0]);
    assert(b[i + 1] == b.subrange(i, i + 2)[1]);
}

/// Four bytes are read as the number that they were written for.
pub proof fn four_bytes_read_back(b: Seq<u8>, i: int, n: u32)
    requires
        0 <= i,
        i + 4 <= b.len(),
        b.subrange(i, i + 4) == four_bytes(n),
    ensures
        be32(b, i) == n,
{
    let s = b.subrange(i, i + 4);
    assert(b[i] == s[0] && b[i + 1] == s[1] && b[i + 2] == s[2] && b[i + 3] == s[3]);
    let high: u16 = (n / 0x1_0000) as u16;
    let low: u16 = (n % 0x1_0000) as u16;
    assert(s[0] == two_bytes(high)[0] && s[1] == two_bytes(high)[1]);
    assert(s[2] == two_bytes(low)[0] && s[3] == two_bytes(low)[1]);
}

// --- TCP -----------------------------------------------------------------------------------

/// The control flags of a TCP header.
pub struct Flags {
    pub fin: bool,
    pub syn: bool,
    pub rst: bool,
    pub psh: bool,
    pub ack: bool,
    pub urg: bool,
    pub ece: bool,
    pub cwr: bool,
}

pub open spec fn bit(b: bool) -> int {
    if b {
        1
    } else {
        0
    }
}

/// The flags as a byte: FIN counts one, and each of the next twice the one before.
pub open spec fn flag_byte(f: Flags) -> u8 {
    (bit(f.fin) + 2 * bit(f.syn) + 4 * bit(f.rst) + 8 * bit(f.psh) + 16 * bit(f.ack) + 32 * bit(
        f.urg,
    ) + 64 * bit(f.ece) + 128 * bit(f.cwr)) as u8
}

/// What a TCP header states.
pub struct Header {
    pub src_port: u16,
    pub dst_port: u16,
    pub seq: u32,
    pub ack: u32,
    pub flags: Flags,
    /// Window, checksum and urgent pointer.
    pub rest: Seq<u8>,
    pub options: Seq<u8>,
}

/// Whether a header can be written: its options are whole words, ten at most.
pub open spec fn writable(h: Header) -> bool {
    h.rest.len() == 6 && h.options.len() % 4 == 0 && h.options.len() <= 40
}

/// A TCP header as bytes.
pub open spec fn header_bytes(h: Header) -> Seq<u8> {
    two_bytes(h.src_port) + two_bytes(h.dst_port) + four_bytes(h.seq) + four_bytes(h.ack) + seq![
        ((5 + h.options.len() / 4) * 16) as u8,
        flag_byte(h.flags),
    ] + h.rest + h.options
}

/// What is read of a segment with a header and a payload.
pub open spec fn segment_with(h: Header, payload: Seq<u8>, src: IpAddr, dst: IpAddr) -> SegmentView {
    SegmentView {
        src,
        dst,
        src_port: h.src_port,
        dst_port: h.dst_port,
        seq: h.seq,
        ack: h.ack,
        syn: h.flags.syn,
        fin: h.flags.fin,
        rst: h.flags.rst,
        payload,
    }
}

proof fn lemma_bits(b: u8)
    ensures
        (b & 0x01 != 0) == (b % 2 == 1),
        (b & 0x02 != 0) == (b / 2 % 2 == 1),
        (b & 0x04 != 0) == (b / 4 % 2 == 1),
{
    assert((b & 0x01 != 0) == (b % 2 == 1)) by (bit_vector);
    assert((b & 0x02 != 0) == (b / 2 % 2 == 1)) by (bit_vector);
    assert((b & 0x04 != 0) == (b / 4 % 2 == 1)) by (bit_vector);
}

proof fn lemma_flags(f: Flags)
    ensures
        flag_byte(f) & 0x01 != 0 <==> f.fin,
        flag_byte(f) & 0x02 != 0 <==> f.syn,
        flag_byte(f) & 0x04 != 0 <==> f.rst,
{
    lemma_bits(flag_byte(f));
}

/// A TCP segment is read as what it was built from: the ports, the numbers, each of FIN, SYN
/// and RST as it was set, whatever the other flags, and the bytes behind the options.
#[verifier::rlimit(30)]
pub proof fn segments_read_back(h: Header, payload: Seq<u8>, src: IpAddr, dst: IpAddr)
    requires
        writable(h),
    ensures
        tcp_segment(header_bytes(h) + payload, src, dst) == Some(
            segment_with(h, payload, src, dst),
        ),
{
    let b = header_bytes(h) + payload;
    let n = 20 + h.options.len() as int;
    assert(header_bytes(h).len() == n);
    assert(b.subrange(0, 2) =~= two_bytes(h.src_port));
    assert(b.subrange(2, 4) =~= two_bytes(h.dst_port));
    assert(b.subrange(4, 8) =~= four_bytes(h.seq));
    assert(b.subrange(8, 12) =~= four_bytes(h.ack));
    two_bytes_read_back(b, 0, h.src_port);
    two_bytes_read_back(b, 2, h.dst_port);
    four_bytes_read_back(b, 4, h.seq);
    four_bytes_read_back(b, 8, h.ack);
    assert(b[12] == ((5 + h.options.len() / 4) * 16) as u8);
    assert(b[13] == flag_byte(h.flags));
    lemma_flags(h.flags);
    assert(b[12] as int / 16 * 4 == n);
    assert(b.skip(n) =~= payload);
}

/// A segment that is shorter than its header says, or whose header is shorter than five words,
/// is none.
pub proof fn short_segments_are_refused(b: Seq<u8>, src: IpAddr, dst: IpAddr)
    ensures
        b.len() < 20 ==> tcp_segment(b, src, dst) is None,
        b.len() >= 20 && b[12] < 0x50 ==> tcp_segment(b, src, dst) is None,
        b.len() >= 20 && b.len() < b[12] / 16 * 4 ==> tcp_segment(b, src, dst) is None,
        b.len() >= 20 && b[12] >= 0x50 && b.len() >= b[12] / 16 * 4 ==> tcp_segment(
            b,
            src,
            dst,
        ) is Some,
{
}

// --- IP ----------------------------------------------------------------------------------------

/// An IPv4 packet: its addresses, protocol and options, what it carries, and the bytes of the
/// header that are not looked at.
pub struct Packet4 {
    pub src: u32,
    pub dst: u32,
    pub protocol: u8,
    pub options: Seq<u8>,
    /// Type of service.
    pub service: u8,
    /// Identification, flags, offset and time to live.
    pub middle: Seq<u8>,
    /// The header's checksum.
    pub checksum: Seq<u8>,
    pub body: Seq<u8>,
}

/// Whether an IPv4 packet can be written: whole words of options, and a length in sixteen bits.
pub open spec fn writable4(p: Packet4) -> bool {
    &&& p.options.len() % 4 == 0
    &&& p.options.len() <= 40
    &&& p.middle.len() == 5
    &&& p.checksum.len() == 2
    &&& 20 + p.options.len() + p.body.len() <= 0xffff
}

/// An IPv4 packet as bytes.
pub open spec fn packet4_bytes(p: Packet4) -> Seq<u8> {
    seq![(0x40 + 5 + p.options.len() / 4) as u8, p.service] + two_bytes(
        (20 + p.options.len() + p.body.len()) as u16,
    ) + p.middle + seq![p.protocol] + p.checksum + four_bytes(p.src) + four_bytes(p.dst) + p.options
        + p.body
}

/// An IPv4 packet carries the segment that its body is, from its source to its destination,
/// exactly where its protocol is TCP. What pads the frame behind the packet is no part of it.
#[verifier::rlimit(30)]
pub proof fn ipv4_packets_read_back(p: Packet4, padding: Seq<u8>)
    requires
        writable4(p),
    ensures
        ip_segment(packet4_bytes(p) + padding) == if p.protocol == 6 {
            tcp_segment(p.body, IpAddr::V4(p.src), IpAddr::V4(p.dst))
        } else {
            None
        },
{
    let b = packet4_bytes(p) + padding;
    let n = 20 + p.options.len() as int;
    let total = n + p.body.len();
    assert(packet4_bytes(p).len() == total);
    assert(b[0] == (0x40 + 5 + p.options.len() / 4) as u8);
    assert(b[0] / 16 == 4);
    assert(b[0] as int % 16 * 4 == n);
    assert(b.subrange(2, 4) =~= two_bytes(total as u16));
    two_bytes_read_back(b, 2, total as u16);
    assert(b[9] == p.protocol);
    assert(b.subrange(12, 16) =~= four_bytes(p.src));
    assert(b.subrange(16, 20) =~= four_bytes(p.dst));
    four_bytes_read_back(b, 12, p.src);
    four_bytes_read_back(b, 16, p.dst);
    assert(b.subrange(n, total) =~= p.body);
}

/// An IPv6 packet: its addresses as words, what the first header behind its own is, what
/// follows, and the bytes that are not looked at.
pub struct Packet6 {
    pub src: (u32, u32, u32, u32),
    pub dst: (u32, u32, u32, u32),
    pub next: u8,
    pub hop_limit: u8,
    /// The rest of the traffic class and the flow label.
    pub flow: Seq<u8>,
    pub body: Seq<u8>,
}

pub open spec fn writable6(p: Packet6) -> bool {
    p.flow.len() == 3 && p.body.len() <= 0xffff
}

pub open spec fn address_bytes(a: (u32, u32, u32, u32)) -> Seq<u8> {
    four_bytes(a.0) + four_bytes(a.1) + four_bytes(a.2) + four_bytes(a.3)
}

pub open spec fn address_of(a: (u32, u32, u32, u32)) -> IpAddr {
    IpAddr::V6(words_value(a.0, a.1, a.2, a.3))
}

/// An IPv6 packet as bytes.
pub open spec fn packet6_bytes(p: Packet6) -> Seq<u8> {
    seq![0x60u8] + p.flow + two_bytes(p.body.len() as u16) + seq![p.next, p.hop_limit]
        + address_bytes(p.src) + address_bytes(p.dst) + p.body
}

proof fn lemma_address(b: Seq<u8>, i: int, a: (u32, u32, u32, u32))
    requires
        0 <= i,
        i + 16 <= b.len(),
        b.subrange(i, i + 16) == address_bytes(a),
    ensures
        be128(b, i) == words_value(a.0, a.1, a.2, a.3),
{
    let s = b.subrange(i, i + 16);
    assert(b.subrange(i, i + 4) =~= s.subrange(0, 4));
    assert(s.subrange(0, 4) =~= four_bytes(a.0));
    assert(b.subrange(i + 4, i + 8) =~= s.subrange(4, 8));
    assert(s.subrange(4, 8) =~= four_bytes(a.1));
    assert(b.subrange(i + 8, i + 12) =~= s.subrange(8, 12));
    assert(s.subrange(8, 12) =~= four_bytes(a.2));
    assert(b.subrange(i + 12, i + 16) =~= s.subrange(12, 16));
    assert(s.subrange(12, 16) =~= four_bytes(a.3));
    four_bytes_read_back(b, i, a.0);
    four_bytes_read_back(b, i + 4, a.1);
    four_bytes_read_back(b, i + 8, a.2);
    four_bytes_read_back(b, i + 12, a.3);
}

/// What walking the extension headers of a packet's body gives does not depend on what stands
/// before the body.
proof fn lemma_walk_shifts(front: Seq<u8>, body: Seq<u8>, nh: u8, off: nat)
    requires
        off <= body.len(),
    ensures
        behind_extensions(front + body, nh, front.len() + off) == (match behind_extensions(
            body,
            nh,
            off,
        ) {
            Some((n, end)) => Some((n, front.len() + end)),
            None => None,
        }),
    decreases body.len() - off,
{
    let whole = front + body;
    let at = front.len() + off;
    if crate::net::extension_header(nh) && off + 8 <= body.len() {
        assert(whole.skip(at as int) =~= body.skip(off as int));
        if let Some(n) = extension_length(nh, body.skip(off as int)) {
            if n > 0 && off + n <= body.len() {
                assert(whole[at as int] == body[off as int]);
                lemma_walk_shifts(front, body, body[off as int], off + n);
            }
        }
    }
}

/// Where the fields of an IPv6 packet stand.
#[verifier::rlimit(30)]
proof fn lemma_layout6(p: Packet6, padding: Seq<u8>)
    requires
        writable6(p),
    ensures
        ({
            let b = packet6_bytes(p) + padding;
            &&& b.len() == 40 + p.body.len() + padding.len()
            &&& b[0] == 0x60
            &&& be16(b, 4) == p.body.len()
            &&& b[6] == p.next
            &&& be128(b, 8) == words_value(p.src.0, p.src.1, p.src.2, p.src.3)
            &&& be128(b, 24) == words_value(p.dst.0, p.dst.1, p.dst.2, p.dst.3)
            &&& b.take((40 + p.body.len()) as int) == b.take(40) + p.body
        }),
{
    let b = packet6_bytes(p) + padding;
    let src = address_bytes(p.src);
    let dst = address_bytes(p.dst);
    assert(src.len() == 16 && dst.len() == 16);
    let head = seq![0x60u8] + p.flow + two_bytes(p.body.len() as u16) + seq![p.next, p.hop_limit];
    assert(head.len() == 8);
    assert(b =~= head + src + dst + p.body + padding);
    assert(b.subrange(4, 6) =~= two_bytes(p.body.len() as u16));
    two_bytes_read_back(b, 4, p.body.len() as u16);
    assert(b.subrange(8, 24) =~= src);
    assert(b.subrange(24, 40) =~= dst);
    lemma_address(b, 8, p.src);
    lemma_address(b, 24, p.dst);
    assert(b.take((40 + p.body.len()) as int) =~= b.take(40) + p.body);
}

/// What an IPv6 packet carries is told by its body and the header that it starts with.
#[verifier::rlimit(30)]
proof fn lemma_ipv6(p: Packet6, padding: Seq<u8>)
    requires
        writable6(p),
    ensures
        ip_segment(packet6_bytes(p) + padding) == carried6(p, behind_extensions(p.body, p.next, 0)),
{
    let b = packet6_bytes(p) + padding;
    lemma_layout6(p, padding);
    let front = b.take(40);
    let packet = front + p.body;
    assert(b[0] / 16 == 6);
    assert(b.take(b.len() as int) =~= b);
    lemma_walk_shifts(front, p.body, p.next, 0);
    if let Some((nh, off)) = behind_extensions(p.body, p.next, 0) {
        lemma_walk_ends(p.body, p.next, 0);
        assert(packet.skip((40 + off) as int) =~= p.body.skip(off as int));
    }
}

/// What an IPv6 packet carries, given where the walk over its extension headers ends.
spec fn carried6(p: Packet6, end: Option<(u8, nat)>) -> Option<SegmentView> {
    match end {
        Some((nh, off)) => if nh == 6 {
            tcp_segment(p.body.skip(off as int), address_of(p.src), address_of(p.dst))
        } else {
            None
        },
        None => None,
    }
}

proof fn lemma_walk_ends(body: Seq<u8>, nh: u8, off: nat)
    requires
        off <= body.len(),
    ensures
        behind_extensions(body, nh, off) matches Some((_, end)) ==> end <= body.len(),
    decreases body.len() - off,
{
    if crate::net::extension_header(nh) && off + 8 <= body.len() {
        if let Some(n) = extension_length(nh, body.skip(off as int)) {
            if n > 0 && off + n <= body.len() {
                lemma_walk_ends(body, body[off as int], off + n);
            }
        }
    }
}

/// Whether a protocol number is that of an extension header: hop-by-hop options, routing,
/// fragment, authentication or destination options.
pub open spec fn steps_over(nh: u8) -> bool {
    nh == 0 || nh == 43 || nh == 44 || nh == 51 || nh == 60
}

/// An IPv6 packet carries the segment that its body is, from its source to its destination,
/// exactly where its next header is TCP, unless it is an extension header.
pub proof fn ipv6_packets_read_back(p: Packet6, padding: Seq<u8>)
    requires
        writable6(p),
        !steps_over(p.next),
    ensures
        ip_segment(packet6_bytes(p) + padding) == if p.next == 6 {
            tcp_segment(p.body, address_of(p.src), address_of(p.dst))
        } else {
            None
        },
{
    lemma_ipv6(p, padding);
    assert(p.body.skip(0) =~= p.body);
}

/// The bytes that an extension header takes: a fragment header eight, an authentication
/// header two words of four and as many more as it says, any other one of eight bytes and as
/// many more as it says.
pub open spec fn extension_bytes(nh: u8, stated: u8) -> nat {
    if nh == 44 {
        8
    } else if nh == 51 {
        8 + 4 * stated as nat
    } else {
        8 + 8 * stated as nat
    }
}

/// The walk steps over an extension header to what it says comes next.
proof fn lemma_step(next: u8, nh: u8, stated: u8, filling: Seq<u8>, rest: Seq<u8>)
    requires
        steps_over(nh),
        filling.len() + 2 == extension_bytes(nh, stated),
    ensures
        ({
            let ext = seq![next, stated] + filling;
            behind_extensions(ext + rest, nh, 0) == (match behind_extensions(rest, next, 0) {
                Some((n, end)) => Some((n, ext.len() + end)),
                None => None,
            })
        }),
{
    let ext = seq![next, stated] + filling;
    let body = ext + rest;
    assert(body.skip(0) =~= body);
    assert(body[0] == next && body[1] == stated);
    assert(ext.len() == extension_bytes(nh, stated));
    assert(extension_length(nh, body) == Some(ext.len()));
    assert(behind_extensions(body, nh, 0) == behind_extensions(body, next, ext.len()));
    lemma_walk_shifts(ext, rest, next, 0);
}

/// An extension header changes nothing: a packet with one in front carries what it carries
/// without.
pub proof fn extension_headers_change_nothing(
    p: Packet6,
    nh: u8,
    stated: u8,
    filling: Seq<u8>,
    padding: Seq<u8>,
)
    requires
        steps_over(nh),
        filling.len() + 2 == extension_bytes(nh, stated),
        writable6(p),
        p.body.len() + extension_bytes(nh, stated) <= 0xffff,
    ensures
        ip_segment(
            packet6_bytes(
                Packet6 { next: nh, body: seq![p.next, stated] + filling + p.body, ..p },
            ) + padding,
        ) == ip_segment(packet6_bytes(p) + padding),
{
    let ext = seq![p.next, stated] + filling;
    let body = ext + p.body;
    let q = Packet6 { next: nh, body, ..p };
    let end = behind_extensions(p.body, p.next, 0);
    lemma_step(p.next, nh, stated, filling, p.body);
    lemma_walk_ends(p.body, p.next, 0);
    lemma_ipv6(q, padding);
    lemma_ipv6(p, padding);
    lemma_carried6(p, q, ext, end);
}

proof fn lemma_carried6(p: Packet6, q: Packet6, ext: Seq<u8>, end: Option<(u8, nat)>)
    requires
        q.body == ext + p.body,
        q.src == p.src,
        q.dst == p.dst,
        end matches Some((_, off)) ==> off <= p.body.len(),
    ensures
        carried6(
            q,
            match end {
                Some((n, off)) => Some((n, ext.len() + off)),
                None => None,
            },
        ) == carried6(p, end),
{
    if let Some((n, off)) = end {
        assert(q.body.skip((ext.len() + off) as int) =~= p.body.skip(off as int));
    }
}

/// A packet of another version than 4 or 6 carries nothing.
pub proof fn other_versions_carry_nothing(b: Seq<u8>)
    requires
        b.len() > 0 ==> !(0x40 <= b[0] <= 0x4f) && !(0x60 <= b[0] <= 0x6f),
    ensures
        ip_segment(b) is None,
{
}

// --- link layer ------------------------------------------------------------------------------

/// Behind an Ethernet header stands the packet, where its type is that of IPv4 or IPv6; a
/// frame of another type, tags aside, carries none.
pub proof fn ethernet_frames_read_back(addresses: Seq<u8>, ethertype: u16, packet: Seq<u8>)
    requires
        addresses.len() == 12,
        ethertype != 0x8100,
    ensures
        link_payload(addresses + two_bytes(ethertype) + packet, 1) == if ethertype == 0x0800
            || ethertype == 0x86dd {
            Some(packet)
        } else {
            None
        },
{
    let b = addresses + two_bytes(ethertype) + packet;
    assert(b.subrange(12, 14) =~= two_bytes(ethertype));
    two_bytes_read_back(b, 12, ethertype);
    assert(b.skip(14) =~= packet);
}

/// The other kinds of link layer: loopback has four bytes before the packet, Linux's cooked
/// capture sixteen, its second version twenty, and raw capture none. Of any other kind nothing
/// is read.
pub proof fn other_frames_read_back(header: Seq<u8>, packet: Seq<u8>, dlt: i32)
    ensures
        dlt == 0 && header.len() == 4 || dlt == 113 && header.len() == 16 || dlt == 276
            && header.len() == 20 || (dlt == 12 || dlt == 101 || dlt == 228 || dlt == 229)
            && header.len() == 0 ==> link_payload(header + packet, dlt) == Some(packet),
        dlt == 0 && packet.len() < 4 || dlt == 113 && packet.len() < 16 || dlt == 276
            && packet.len() < 20 || dlt == 1 && packet.len() < 14 ==> link_payload(
            packet,
            dlt,
        ) is None,
        dlt != 0 && dlt != 1 && dlt != 12 && dlt != 101 && dlt != 113 && dlt != 228 && dlt != 229
            && dlt != 276 ==> link_payload(packet, dlt) is None,
{
    let b = header + packet;
    assert(b.skip(header.len() as int) =~= packet);
    assert(header.len() == 0 ==> b =~= packet);
}

/// A frame of Ethernet, IPv4 and TCP is read as the fields that it was built from.
pub proof fn frames_read_back(
    addresses: Seq<u8>,
    p: Packet4,
    h: Header,
    payload: Seq<u8>,
    padding: Seq<u8>,
)
    requires
        addresses.len() == 12,
        writable4(p),
        writable(h),
        p.protocol == 6,
        p.body == header_bytes(h) + payload,
    ensures
        frame_segment(addresses + two_bytes(0x0800) + (packet4_bytes(p) + padding), 1) == Some(
            segment_with(h, payload, IpAddr::V4(p.src), IpAddr::V4(p.dst)),
        ),
{
    ethernet_frames_read_back(addresses, 0x0800, packet4_bytes(p) + padding);
    ipv4_packets_read_back(p, padding);
    segments_read_back(h, payload, IpAddr::V4(p.src), IpAddr::V4(p.dst));
}

/// A frame of Ethernet, IPv6 and TCP is read as the fields that it was built from.
pub proof fn ipv6_frames_read_back(
    addresses: Seq<u8>,
    p: Packet6,
    h: Header,
    payload: Seq<u8>,
    padding: Seq<u8>,
)
    requires
        addresses.len() == 12,
        writable6(p),
        writable(h),
        p.next == 6,
        p.body == header_bytes(h) + payload,
    ensures
        frame_segment(addresses + two_bytes(0x86dd) + (packet6_bytes(p) + padding), 1) == Some(
            segment_with(h, payload, address_of(p.src), address_of(p.dst)),
        ),
{
    ethernet_frames_read_back(addresses, 0x86dd, packet6_bytes(p) + padding);
    ipv6_packets_read_back(p, padding);
    segments_read_back(h, payload, address_of(p.src), address_of(p.dst));
}

} // verus!
