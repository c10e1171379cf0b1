//! Wire codec for the egress and ingress path.
//!
//! The endpoint emits fixed 20-byte IPv4 headers (TTL 64, protocol TCP, no
//! options) followed by fixed 20-byte TCP headers (no options). Header
//! parsing, construction and checksumming are done by the `etherparse`
//! crate behind trusted wrappers; everything around the calls — slicing a
//! frame into headers and payload, and the byte-level layout of what is
//! emitted — is stated here and verified.
use vstd::prelude::*;

verus! {

/// The TCP header fields the engine reads and writes: both the parsed view
/// of an ingress segment and the egress template of a connection.
#[derive(Clone, Copy, Debug, PartialEq, Eq, Structural)]
pub struct SegmentHeader {
    pub src_port: u16,
    pub dst_port: u16,
    pub seq: u32,
    pub ack: u32,
    pub window: u16,
    pub fin: bool,
    pub syn: bool,
    pub rst: bool,
    pub psh: bool,
    pub ack_flag: bool,
    pub urg: bool,
}

/// The IPv4 header fields the engine reads from an ingress frame.
#[derive(Clone, Copy, Debug, PartialEq, Eq, Structural)]
pub struct Ipv4Meta {
    /// Source address as a big-endian 32-bit value.
    pub src: u32,
    /// Destination address as a big-endian 32-bit value.
    pub dst: u32,
    pub protocol: u8,
    pub header_len: usize,
}

/// One egress datagram: the header values it was built from and the bytes
/// to hand to the tunnel.
pub struct Datagram {
    pub src_ip: u32,
    pub dst_ip: u32,
    pub hdr: SegmentHeader,
    pub bytes: Vec<u8>,
}

/// A decoded ingress frame: IPv4 metadata, TCP header, payload bytes.
pub struct Decoded {
    pub ip: Ipv4Meta,
    pub hdr: SegmentHeader,
    pub payload: Vec<u8>,
}

/// Big-endian 16-bit value at offset `i`.
pub open spec fn be16(b: Seq<u8>, i: int) -> u16
    recommends
        0 <= i,
        i + 2 <= b.len(),
{
    (b[i] * 0x100 + b[i + 1]) as u16
}

/// Big-endian 32-bit value at offset `i`.
pub open spec fn be32(b: Seq<u8>, i: int) -> u32
    recommends
        0 <= i,
        i + 4 <= b.len(),
{
    (b[i] * 0x100_0000 + b[i + 1] * 0x1_0000 + b[i + 2] * 0x100 + b[i + 3]) as u32
}

/// True iff some bit of mask `m` is set in `x`.
pub open spec fn bitset(x: u8, m: u8) -> bool {
    x & m != 0
}

/// The checksum etherparse computes over an emitted IPv4 header whose
/// variable fields are the given total length and addresses.
pub uninterp spec fn ip_checksum_of(total_len: u16, src_ip: u32, dst_ip: u32) -> u16;

/// The checksum etherparse computes over the IPv4 pseudo-header, an
/// emitted TCP header and the payload.
pub uninterp spec fn tcp_checksum_of(src_ip: u32, dst_ip: u32, h: SegmentHeader, payload: Seq<u8>) -> u16;

/// Byte-exact layout of an emitted datagram: a 20-byte IPv4 header
/// (version 4, ihl 5, DF set, TTL 64, protocol 6), a 20-byte TCP header
/// (data offset 5, no options), then the payload.
pub open spec fn encodes(b: Seq<u8>, src_ip: u32, dst_ip: u32, h: SegmentHeader, payload: Seq<u8>) -> bool {
    &&& b.len() == 40 + payload.len()
    &&& b[0] == 0x45u8
    &&& b[1] == 0x00u8
    &&& be16(b, 2) == 40 + payload.len()
    &&& b[4] == 0x00u8
    &&& b[5] == 0x00u8
    &&& b[6] == 0x40u8
    &&& b[7] == 0x00u8
    &&& b[8] == 64u8
    &&& b[9] == 6u8
    &&& be16(b, 10) == ip_checksum_of((40 + payload.len()) as u16, src_ip, dst_ip)
    &&& be32(b, 12) == src_ip
    &&& be32(b, 16) == dst_ip
    &&& be16(b, 20) == h.src_port
    &&& be16(b, 22) == h.dst_port
    &&& be32(b, 24) == h.seq
    &&& be32(b, 28) == h.ack
    &&& b[32] == 0x50u8
    &&& bitset(b[33], 0x01) == h.fin
    &&& bitset(b[33], 0x02) == h.syn
    &&& bitset(b[33], 0x04) == h.rst
    &&& bitset(b[33], 0x08) == h.psh
    &&& bitset(b[33], 0x10) == h.ack_flag
    &&& bitset(b[33], 0x20) == h.urg
    &&& b[33] & 0xc0u8 == 0
    &&& be16(b, 34) == h.window
    &&& be16(b, 36) == tcp_checksum_of(src_ip, dst_ip, h, payload)
    &&& b[38] == 0x00u8
    &&& b[39] == 0x00u8
    &&& b.subrange(40, b.len() as int) == payload
}

/// IPv4 header length in bytes, from the ihl nibble.
pub open spec fn ip_hlen(b: Seq<u8>) -> int
    recommends
        b.len() >= 1,
{
    (b[0] & 0x0fu8) * 4
}

/// The frame starts with an IPv4 header that `parse_ipv4` accepts.
pub open spec fn ip_parse_ok(b: Seq<u8>) -> bool {
    &&& b.len() >= 20
    &&& b[0] >> 4u8 == 4u8
    &&& b[0] & 0x0fu8 >= 5
    &&& b.len() >= ip_hlen(b)
}

/// TCP header length in bytes, from the data-offset nibble.
pub open spec fn tcp_hlen(b: Seq<u8>) -> int
    recommends
        b.len() >= 13,
{
    ((b[12] & 0xf0u8) >> 2u8) as int
}

/// The slice starts with a TCP header that `parse_tcp` accepts.
pub open spec fn tcp_parse_ok(b: Seq<u8>) -> bool {
    &&& b.len() >= 20
    &&& tcp_hlen(b) >= 20
    &&& b.len() >= tcp_hlen(b)
}

/// The TCP header fields as laid out on the wire.
pub open spec fn tcp_fields(b: Seq<u8>) -> SegmentHeader
    recommends
        b.len() >= 20,
{
    SegmentHeader {
        src_port: be16(b, 0),
        dst_port: be16(b, 2),
        seq: be32(b, 4),
        ack: be32(b, 8),
        window: be16(b, 14),
        fin: bitset(b[13], 0x01),
        syn: bitset(b[13], 0x02),
        rst: bitset(b[13], 0x04),
        psh: bitset(b[13], 0x08),
        ack_flag: bitset(b[13], 0x10),
        urg: bitset(b[13], 0x20),
    }
}

/// The frame carries an IPv4 header, protocol TCP, and a TCP header.
pub open spec fn can_decode(f: Seq<u8>) -> bool {
    &&& ip_parse_ok(f)
    &&& f[9] == 6u8
    &&& tcp_parse_ok(f.subrange(ip_hlen(f), f.len() as int))
}

/// Relies on `etherparse::Ipv4HeaderSlice::from_slice`: it accepts exactly
/// a version-4 header whose ihl is at least 5 and fits the slice, and its
/// accessors read protocol from byte 9 and the addresses from bytes 12..20
/// big-endian.
#[verifier::external_body]
pub(crate) fn parse_ipv4(buf: &[u8]) -> (r: Option<Ipv4Meta>)
    ensures
        r is Some <==> ip_parse_ok(buf@),
        r matches Some(m) ==> {
            &&& m.header_len == ip_hlen(buf@)
            &&& m.protocol == buf@[9]
            &&& m.src == be32(buf@, 12)
            &&& m.dst == be32(buf@, 16)
        },
{
    match etherparse::Ipv4HeaderSlice::from_slice(buf) {
        Ok(s) => Some(Ipv4Meta {
            src: u32::from_be_bytes(s.source()),
            dst: u32::from_be_bytes(s.destination()),
            protocol: s.protocol().0,
            header_len: s.slice().len(),
        }),
        Err(_) => None,
    }
}

/// Relies on `etherparse::TcpHeaderSlice::from_slice`: it accepts exactly a
/// header whose data offset is at least 5 (in 32-bit words) and fits the
/// slice, and its accessors read the fields big-endian from their RFC 793
/// offsets and the control bits from byte 13.
#[verifier::external_body]
pub(crate) fn parse_tcp(buf: &[u8]) -> (r: Option<(SegmentHeader, usize)>)
    ensures
        r is Some <==> tcp_parse_ok(buf@),
        r matches Some(p) ==> p.0 == tcp_fields(buf@) && p.1 == tcp_hlen(buf@),
{
    match etherparse::TcpHeaderSlice::from_slice(buf) {
        Ok(s) => Some((
            SegmentHeader {
                src_port: s.source_port(), dst_port: s.destination_port(),
                seq: s.sequence_number(), ack: s.acknowledgment_number(),
                window: s.window_size(),
                fin: s.fin(), syn: s.syn(), rst: s.rst(),
                psh: s.psh(), ack_flag: s.ack(), urg: s.urg(),
            },
            s.slice().len(),
        )),
        Err(_) => None,
    }
}

/// Relies on `etherparse::Ipv4Header::new`/`calc_header_checksum`,
/// `etherparse::TcpHeader::new`/`calc_checksum_ipv4` and the two
/// `to_bytes` serializers: with a payload of at most 1460 bytes neither
/// constructor nor checksum can fail, and the output is the RFC 791/793
/// layout stated by `encodes`.
#[verifier::external_body]
pub(crate) fn build_datagram(src_ip: u32, dst_ip: u32, h: &SegmentHeader, payload: &[u8]) -> (r: Vec<u8>)
    requires
        payload@.len() <= 1460,
    ensures
        encodes(r@, src_ip, dst_ip, *h, payload@),
        be16(r@, 10) == ip_checksum_of((40 + payload@.len()) as u16, src_ip, dst_ip),
        be16(r@, 36) == tcp_checksum_of(src_ip, dst_ip, *h, payload@),
{
    let mut ip = etherparse::Ipv4Header::new((20 + payload.len()) as u16, 64,
        etherparse::IpNumber::TCP, src_ip.to_be_bytes(), dst_ip.to_be_bytes()).unwrap();
    let mut tcp = etherparse::TcpHeader::new(h.src_port, h.dst_port, h.seq, h.window);
    tcp.acknowledgment_number = h.ack;
    (tcp.fin, tcp.syn, tcp.rst) = (h.fin, h.syn, h.rst);
    (tcp.psh, tcp.ack, tcp.urg) = (h.psh, h.ack_flag, h.urg);
    tcp.checksum = tcp.calc_checksum_ipv4(&ip, payload).unwrap();
    ip.header_checksum = ip.calc_header_checksum();
    let mut out = ip.to_bytes().to_vec();
    out.extend_from_slice(&tcp.to_bytes());
    out.extend_from_slice(payload);
    out
}

/// Split a raw frame into addresses, TCP header and payload, as the packet
/// loop does before routing: IPv4 parse, protocol check, TCP parse, and the
/// payload is whatever the frame holds past both headers.
pub fn decode_segment(frame: &[u8]) -> (r: Option<Decoded>)
    ensures
        r is Some <==> can_decode(frame@),
        r matches Some(d) ==> {
            let rest = frame@.subrange(ip_hlen(frame@), frame@.len() as int);
            &&& d.ip.src == be32(frame@, 12)
            &&& d.ip.dst == be32(frame@, 16)
            &&& d.ip.protocol == 6u8
            &&& d.ip.header_len == ip_hlen(frame@)
            &&& d.hdr == tcp_fields(rest)
            &&& d.payload@ == rest.subrange(tcp_hlen(rest), rest.len() as int)
        },
{
    let ip = match parse_ipv4(frame) {
        Some(m) => m,
        None => { return None; },
    };
    if ip.protocol != 6 {
        return None;
    }
    let rest = vstd::slice::slice_subrange(frame, ip.header_len, frame.len());
    let (hdr, thl) = match parse_tcp(rest) {
        Some(p) => p,
        None => { return None; },
    };
    let payload = vstd::slice::slice_to_vec(vstd::slice::slice_subrange(rest, thl, rest.len()));
    Some(Decoded { ip, hdr, payload })
}

/// Serializing an egress segment and parsing it back yields the same
/// addresses, ports, sequence and acknowledgment numbers, window, control
/// flags and payload.
pub proof fn lemma_encode_decode(b: Seq<u8>, src_ip: u32, dst_ip: u32, h: SegmentHeader, payload: Seq<u8>)
    requires
        encodes(b, src_ip, dst_ip, h, payload),
    ensures
        can_decode(b),
        be32(b, 12) == src_ip,
        be32(b, 16) == dst_ip,
        ({
            let rest = b.subrange(ip_hlen(b), b.len() as int);
            &&& tcp_fields(rest) == h
            &&& rest.subrange(tcp_hlen(rest), rest.len() as int) == payload
        }),
{
    assert(0x45u8 >> 4u8 == 4u8 && 0x45u8 & 0x0fu8 == 5u8 && (0x50u8 & 0xf0u8) >> 2u8 == 20u8)
        by (bit_vector);
    assert(ip_hlen(b) == 20);
    let rest = b.subrange(20, b.len() as int);
    assert(rest.len() == 20 + payload.len());
    assert(rest[12] == b[32] && rest[13] == b[33]);
    assert(tcp_hlen(rest) == 20);
    assert(tcp_parse_ok(rest));
    assert(rest[0] == b[20] && rest[1] == b[21] && rest[2] == b[22] && rest[3] == b[23]);
    assert(rest[4] == b[24] && rest[5] == b[25] && rest[6] == b[26] && rest[7] == b[27]);
    assert(rest[8] == b[28] && rest[9] == b[29] && rest[10] == b[30] && rest[11] == b[31]);
    assert(rest[14] == b[34] && rest[15] == b[35]);
    assert(tcp_fields(rest) == h);
    assert(rest.subrange(20, rest.len() as int) =~= payload) by {
        assert(forall|i: int| 0 <= i < payload.len()
            ==> rest.subrange(20, rest.len() as int)[i] == b.subrange(40, b.len() as int)[i]);
    }
}

} // verus!
