//! Raw frame to TCP segment parsing.
//!
//! A captured frame is a link-layer header, chosen by the capture's datalink
//! type, then an IPv4 or IPv6 packet, then a TCP segment. [`parse_frame`] peels
//! these off and keeps what stream reassembly needs.
use crate::addr::IpAddr;
use vstd::prelude::*;
use vstd::slice::slice_subrange;

verus! {

/// A single captured TCP segment (one direction of one packet).
#[derive(Debug, Clone)]
pub struct TcpSegment {
    pub src: IpAddr,
    pub dst: IpAddr,
    pub src_port: u16,
    pub dst_port: u16,
    pub seq: u32,
    pub ack: u32,
    pub syn: bool,
    pub fin: bool,
    pub rst: bool,
    pub payload: Vec<u8>,
}

/// What a [`TcpSegment`] holds.
pub struct SegmentView {
    pub src: IpAddr,
    pub dst: IpAddr,
    pub src_port: u16,
    pub dst_port: u16,
    pub seq: u32,
    pub ack: u32,
    pub syn: bool,
    pub fin: bool,
    pub rst: bool,
    pub payload: Seq<u8>,
}

impl View for TcpSegment {
    type V = SegmentView;

    open spec fn view(&self) -> SegmentView {
        SegmentView {
            src: self.src,
            dst: self.dst,
            src_port: self.src_port,
            dst_port: self.dst_port,
            seq: self.seq,
            ack: self.ack,
            syn: self.syn,
            fin: self.fin,
            rst: self.rst,
            payload: self.payload@,
        }
    }
}

/// Datalink types, as libpcap numbers them.
pub const DLT_NULL: i32 = 0;

pub const DLT_EN10MB: i32 = 1;

pub const DLT_RAW_OLD: i32 = 12;

pub const DLT_RAW: i32 = 101;

pub const DLT_LINUX_SLL: i32 = 113;

pub const DLT_LINUX_SLL2: i32 = 276;

pub const DLT_IPV4: i32 = 228;

pub const DLT_IPV6: i32 = 229;

// --- reading numbers from bytes -----------------------------------------------

/// The big-endian 16-bit number at `i`.
pub open spec fn be16(b: Seq<u8>, i: int) -> u16 {
    (b[i] * 256 + b[i + 1]) as u16
}

/// The big-endian 32-bit number at `i`.
pub open spec fn be32(b: Seq<u8>, i: int) -> u32 {
    (b[i] * 0x100_0000 + b[i + 1] * 0x1_0000 + b[i + 2] * 0x100 + b[i + 3]) as u32
}

/// The big-endian 128-bit number at `i`.
pub open spec fn be128(b: Seq<u8>, i: int) -> u128 {
    (be32(b, i) * 0x1_0000_0000_0000_0000_0000_0000 + be32(b, i + 4) * 0x1_0000_0000_0000_0000
        + be32(b, i + 8) * 0x1_0000_0000 + be32(b, i + 12)) as u128
}

/// Reads the big-endian 16-bit number at `i`.
pub fn read_be16(b: &[u8], i: usize) -> (r: u16)
    requires
        i + 2 <= b@.len(),
    ensures
        r == be16(b@, i as int),
{
    b[i] as u16 * 256 + b[i + 1] as u16
}

/// Reads the big-endian 32-bit number at `i`.
pub fn read_be32(b: &[u8], i: usize) -> (r: u32)
    requires
        i + 4 <= b@.len(),
    ensures
        r == be32(b@, i as int),
{
    b[i] as u32 * 0x100_0000 + b[i + 1] as u32 * 0x1_0000 + b[i + 2] as u32 * 0x100 + b[i + 3]
        as u32
}

/// Reads the big-endian 128-bit number at `i`.
fn read_be128(b: &[u8], i: usize) -> (r: u128)
    requires
        i + 16 <= b@.len(),
    ensures
        r == be128(b@, i as int),
{
    let end: usize = b.len();
    assert(i + 16 <= end);
    read_be32(b, i) as u128 * 0x1_0000_0000_0000_0000_0000_0000 + read_be32(b, i + 4) as u128
        * 0x1_0000_0000_0000_0000 + read_be32(b, i + 8) as u128 * 0x1_0000_0000 + read_be32(
        b,
        i + 12,
    ) as u128
}

/// The bytes of `b` from `from` on.
fn tail(b: &[u8], from: usize) -> (r: &[u8])
    requires
        from <= b@.len(),
    ensures
        r@ == b@.skip(from as int),
{
    slice_subrange(b, from, b.len())
}

// --- link layer -----------------------------------------------------------------

/// The ethertype and payload behind a run of 802.1Q tags. Behind a tag's own ethertype
/// stand two bytes of control information and the ethertype of what it tags; without
/// those four bytes the walk stops on the tag.
pub open spec fn behind_vlan_tags(ethertype: u16, payload: Seq<u8>) -> (u16, Seq<u8>)
    decreases payload.len(),
{
    if ethertype == 0x8100 && payload.len() >= 4 {
        behind_vlan_tags(be16(payload, 2), payload.skip(4))
    } else {
        (ethertype, payload)
    }
}

/// The bytes behind a header of `n` bytes.
pub open spec fn behind_header(data: Seq<u8>, n: nat) -> Option<Seq<u8>> {
    if data.len() >= n {
        Some(data.skip(n as int))
    } else {
        None
    }
}

/// The IP packet that a frame of datalink type `dlt` carries, if any.
pub open spec fn link_payload(data: Seq<u8>, dlt: i32) -> Option<Seq<u8>> {
    if dlt == DLT_EN10MB {
        if data.len() < 14 {
            None
        } else {
            let (ethertype, payload) = behind_vlan_tags(be16(data, 12), data.skip(14));
            if ethertype == 0x0800 || ethertype == 0x86DD {
                Some(payload)
            } else {
                None
            }
        }
    } else if dlt == DLT_RAW || dlt == DLT_RAW_OLD || dlt == DLT_IPV4 || dlt == DLT_IPV6 {
        Some(data)
    } else if dlt == DLT_NULL {
        behind_header(data, 4)
    } else if dlt == DLT_LINUX_SLL {
        behind_header(data, 16)
    } else if dlt == DLT_LINUX_SLL2 {
        behind_header(data, 20)
    } else {
        None
    }
}

fn strip_header(data: &[u8], n: usize) -> (r: Option<&[u8]>)
    ensures
        match r {
            Some(p) => behind_header(data@, n as nat) == Some(p@),
            None => behind_header(data@, n as nat) is None,
        },
{
    if data.len() < n {
        None
    } else {
        Some(tail(data, n))
    }
}

/// Strips the link-layer header of a frame.
pub fn strip_link(data: &[u8], dlt: i32) -> (r: Option<&[u8]>)
    ensures
        match r {
            Some(p) => link_payload(data@, dlt) == Some(p@),
            None => link_payload(data@, dlt) is None,
        },
{
    if dlt == DLT_EN10MB {
        if data.len() < 14 {
            return None;
        }
        let mut ethertype: u16 = read_be16(data, 12);
        let mut payload = tail(data, 14);
        while ethertype == 0x8100 && payload.len() >= 4
            invariant
                behind_vlan_tags(ethertype, payload@) == behind_vlan_tags(
                    be16(data@, 12),
                    data@.skip(14),
                ),
            decreases payload@.len(),
        {
            ethertype = read_be16(payload, 2);
            payload = tail(payload, 4);
        }
        if ethertype == 0x0800 || ethertype == 0x86DD {
            Some(payload)
        } else {
            None
        }
    } else if dlt == DLT_RAW || dlt == DLT_RAW_OLD || dlt == DLT_IPV4 || dlt == DLT_IPV6 {
        Some(data)
    } else if dlt == DLT_NULL {
        // BSD loopback: a 4-byte address-family field, then the IP packet.
        strip_header(data, 4)
    } else if dlt == DLT_LINUX_SLL {
        // Cooked header: packet type, ARPHRD, address length, address, protocol.
        strip_header(data, 16)
    } else if dlt == DLT_LINUX_SLL2 {
        // Cooked header, second version.
        strip_header(data, 20)
    } else {
        None
    }
}

/// A VLAN tag changes nothing: a tagged frame carries what the frame carries untagged.
pub proof fn vlan_tag_changes_nothing(frame: Seq<u8>, control: Seq<u8>)
    requires
        frame.len() >= 14,
        control.len() == 2,
    ensures
        link_payload(
            frame.take(12) + seq![0x81u8, 0x00] + control + frame.skip(12),
            DLT_EN10MB,
        ) == link_payload(frame, DLT_EN10MB),
{
    let tagged = frame.take(12) + seq![0x81u8, 0x00] + control + frame.skip(12);
    let behind = tagged.skip(14);
    assert(tagged[12] == 0x81 && tagged[13] == 0x00);
    assert(be16(tagged, 12) == 0x8100);
    assert(behind =~= control + frame.skip(12));
    assert(behind[2] == frame[12] && behind[3] == frame[13]);
    assert(be16(behind, 2) == be16(frame, 12));
    assert(behind.skip(4) =~= frame.skip(14));
}

// --- TCP ------------------------------------------------------------------------

/// The TCP segment that the bytes `l4` of a packet from `src` to `dst` hold.
pub open spec fn tcp_segment(l4: Seq<u8>, src: IpAddr, dst: IpAddr) -> Option<SegmentView> {
    let data_offset = l4[12] as int / 16 * 4;
    if l4.len() < 20 || data_offset < 20 || l4.len() < data_offset {
        None
    } else {
        Some(
            SegmentView {
                src,
                dst,
                src_port: be16(l4, 0),
                dst_port: be16(l4, 2),
                seq: be32(l4, 4),
                ack: be32(l4, 8),
                syn: l4[13] & 0x02 != 0,
                fin: l4[13] & 0x01 != 0,
                rst: l4[13] & 0x04 != 0,
                payload: l4.skip(data_offset),
            },
        )
    }
}

/// Parses a TCP segment.
pub fn parse_tcp(l4: &[u8], src: IpAddr, dst: IpAddr) -> (r: Option<TcpSegment>)
    ensures
        match r {
            Some(seg) => tcp_segment(l4@, src, dst) == Some(seg@),
            None => tcp_segment(l4@, src, dst) is None,
        },
{
    if l4.len() < 20 {
        return None;
    }
    let data_offset: usize = (l4[12] / 16) as usize * 4;
    let flags: u8 = l4[13];
    if data_offset < 20 || l4.len() < data_offset {
        return None;
    }
    let payload = vstd::slice::slice_to_vec(tail(l4, data_offset));
    let seg = TcpSegment {
        src,
        dst,
        src_port: read_be16(l4, 0),
        dst_port: read_be16(l4, 2),
        seq: read_be32(l4, 4),
        ack: read_be32(l4, 8),
        syn: flags & 0x02 != 0,
        fin: flags & 0x01 != 0,
        rst: flags & 0x04 != 0,
        payload,
    };
    Some(seg)
}

// --- IP -------------------------------------------------------------------------

/// The TCP segment that an IPv4 packet carries, if it carries one.
pub open spec fn ipv4_segment(b: Seq<u8>) -> Option<SegmentView> {
    let ihl = b[0] as int % 16 * 4;
    let total_len = be16(b, 2) as int;
    let end = if total_len < b.len() {
        total_len
    } else {
        b.len() as int
    };
    if b.len() < 20 || ihl < 20 || b.len() < ihl || b[9] != 6 || end < ihl {
        None
    } else {
        tcp_segment(b.subrange(ihl, end), IpAddr::V4(be32(b, 12)), IpAddr::V4(be32(b, 16)))
    }
}

/// Parses an IPv4 packet.
pub fn parse_ipv4(b: &[u8]) -> (r: Option<TcpSegment>)
    ensures
        match r {
            Some(seg) => ipv4_segment(b@) == Some(seg@),
            None => ipv4_segment(b@) is None,
        },
{
    if b.len() < 20 {
        return None;
    }
    let ihl: usize = (b[0] % 16) as usize * 4;
    if ihl < 20 || b.len() < ihl {
        return None;
    }
    if b[9] != 6 {
        return None;
    }
    let total_len: usize = read_be16(b, 2) as usize;
    let end: usize = if total_len < b.len() {
        total_len
    } else {
        b.len()
    };
    if end < ihl {
        return None;
    }
    let src = IpAddr::V4(read_be32(b, 12));
    let dst = IpAddr::V4(read_be32(b, 16));
    parse_tcp(slice_subrange(b, ihl, end), src, dst)
}

/// The IPv6 extension headers that the walk steps over: hop-by-hop options,
/// routing, fragment, authentication and destination options.
pub open spec fn extension_header(nh: u8) -> bool {
    nh == 0 || nh == 43 || nh == 44 || nh == 51 || nh == 60
}

pub fn is_extension_header(nh: u8) -> (b: bool)
    ensures
        b == extension_header(nh),
{
    nh == 0 || nh == 43 || nh == 44 || nh == 51 || nh == 60
}

/// The length in bytes of the extension header `nh` whose bytes begin with `ext`.
/// A fragment header is eight bytes; an authentication header states its length
/// in units of four bytes, the others in units of eight.
pub open spec fn extension_length(nh: u8, ext: Seq<u8>) -> Option<nat> {
    if nh == 44 {
        Some(8)
    } else if ext.len() < 2 {
        None
    } else if nh == 51 {
        Some((ext[1] + 2) as nat * 4)
    } else {
        Some((ext[1] + 1) as nat * 8)
    }
}

pub fn extension_header_len(nh: u8, ext: &[u8]) -> (r: Option<usize>)
    ensures
        match r {
            Some(n) => extension_length(nh, ext@) == Some(n as nat),
            None => extension_length(nh, ext@) is None,
        },
{
    if nh == 44 {
        Some(8)
    } else if ext.len() < 2 {
        None
    } else if nh == 51 {
        Some((ext[1] as usize + 2) * 4)
    } else {
        Some((ext[1] as usize + 1) * 8)
    }
}

/// Walks the extension headers of `body` from `off` on: the protocol behind them
/// and where it begins, or `None` where a header runs past the body.
pub open spec fn behind_extensions(body: Seq<u8>, nh: u8, off: nat) -> Option<(u8, nat)>
    decreases body.len() - off,
{
    if extension_header(nh) && off + 8 <= body.len() {
        match extension_length(nh, body.skip(off as int)) {
            Some(n) => {
                if n > 0 && off + n <= body.len() {
                    behind_extensions(body, body[off as int], off + n)
                } else {
                    None
                }
            },
            None => None,
        }
    } else {
        Some((nh, off))
    }
}

/// The TCP segment that an IPv6 packet carries, if it carries one.
pub open spec fn ipv6_segment(b: Seq<u8>) -> Option<SegmentView> {
    if b.len() < 40 {
        None
    } else {
        let stated = 40 + be16(b, 4) as int;
        let body = if stated < b.len() {
            b.take(stated)
        } else {
            b
        };
        match behind_extensions(body, b[6], 40) {
            Some((nh, off)) => {
                if nh == 6 {
                    tcp_segment(
                        body.skip(off as int),
                        IpAddr::V6(be128(b, 8)),
                        IpAddr::V6(be128(b, 24)),
                    )
                } else {
                    None
                }
            },
            None => None,
        }
    }
}

/// Parses an IPv6 packet.
pub fn parse_ipv6(b: &[u8]) -> (r: Option<TcpSegment>)
    ensures
        match r {
            Some(seg) => ipv6_segment(b@) == Some(seg@),
            None => ipv6_segment(b@) is None,
        },
{
    if b.len() < 40 {
        return None;
    }
    let stated: usize = 40 + read_be16(b, 4) as usize;
    let mut next_header: u8 = b[6];
    let src = IpAddr::V6(read_be128(b, 8));
    let dst = IpAddr::V6(read_be128(b, 24));
    let body: &[u8] = if stated < b.len() {
        slice_subrange(b, 0, stated)
    } else {
        b
    };
    let ghost whole = if 40 + be16(b@, 4) < b@.len() {
        b@.take(40 + be16(b@, 4) as int)
    } else {
        b@
    };
    assert(body@ =~= whole);
    let mut off: usize = 40;
    while is_extension_header(next_header) && off + 8 <= body.len()
        invariant
            off <= body@.len(),
            body@ == whole,
            b@.len() >= 40,
            whole == (if 40 + be16(b@, 4) < b@.len() {
                b@.take(40 + be16(b@, 4) as int)
            } else {
                b@
            }),
            behind_extensions(whole, next_header, off as nat) == behind_extensions(
                whole,
                b@[6],
                40,
            ),
        decreases body@.len() - off,
    {
        let ext = tail(body, off);
        let n: usize = match extension_header_len(next_header, ext) {
            Some(n) => n,
            None => {
                return None;
            },
        };
        if n > body.len() - off {
            return None;
        }
        next_header = body[off];
        off = off + n;
    }
    if next_header != 6 {
        return None;
    }
    parse_tcp(tail(body, off), src, dst)
}

/// The TCP segment that an IP packet carries, if it carries one.
pub open spec fn ip_segment(b: Seq<u8>) -> Option<SegmentView> {
    if b.len() == 0 {
        None
    } else if b[0] / 16 == 4 {
        ipv4_segment(b)
    } else if b[0] / 16 == 6 {
        ipv6_segment(b)
    } else {
        None
    }
}

/// Parses an IP packet of either version.
pub fn parse_ip(b: &[u8]) -> (r: Option<TcpSegment>)
    ensures
        match r {
            Some(seg) => ip_segment(b@) == Some(seg@),
            None => ip_segment(b@) is None,
        },
{
    if b.len() == 0 {
        return None;
    }
    let version: u8 = b[0] / 16;
    if version == 4 {
        parse_ipv4(b)
    } else if version == 6 {
        parse_ipv6(b)
    } else {
        None
    }
}

/// The TCP segment in a captured frame, if it holds one.
pub open spec fn frame_segment(data: Seq<u8>, dlt: i32) -> Option<SegmentView> {
    match link_payload(data, dlt) {
        Some(ip) => ip_segment(ip),
        None => None,
    }
}

/// Parses a captured frame by its datalink type.
///
/// `None` for frames that are not IPv4 or IPv6, packets that are not TCP, and
/// anything too short or malformed.
pub fn parse_frame(data: &[u8], dlt: i32) -> (r: Option<TcpSegment>)
    ensures
        match r {
            Some(seg) => frame_segment(data@, dlt) == Some(seg@),
            None => frame_segment(data@, dlt) is None,
        },
{
    match strip_link(data, dlt) {
        Some(ip) => parse_ip(ip),
        None => None,
    }
}

/// A segment's payload fits the sixteen-bit length field of the packet around it.
pub proof fn payload_is_bounded(data: Seq<u8>, dlt: i32)
    ensures
        frame_segment(data, dlt) matches Some(seg) ==> seg.payload.len() <= 0xffff,
{
    if let Some(ip) = link_payload(data, dlt) {
        if ip.len() >= 40 && ip[0] / 16 == 6 {
            let stated = 40 + be16(ip, 4) as int;
            let body = if stated < ip.len() {
                ip.take(stated)
            } else {
                ip
            };
            lemma_behind_extensions_advances(body, ip[6], 40);
        }
    }
}

proof fn lemma_behind_extensions_advances(body: Seq<u8>, nh: u8, off: nat)
    requires
        off <= body.len(),
    ensures
        behind_extensions(body, nh, off) matches Some((_, end)) ==> off <= end <= body.len(),
    decreases body.len() - off,
{
    if extension_header(nh) && off + 8 <= body.len() {
        if let Some(n) = extension_length(nh, body.skip(off as int)) {
            if n > 0 && off + n <= body.len() {
                lemma_behind_extensions_advances(body, body[off as int], off + n);
            }
        }
    }
}

} // verus!
