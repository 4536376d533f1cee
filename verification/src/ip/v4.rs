//! IPv4 packets.
use super::frag::{DatagramId, FragmentInfo, FragmentKey, Fragmentable};
use super::{proto_of, proto_text, Error, Proto};
use crate::bytes::{be16_at, be32, read_be16, u32_from_be};
use crate::text::{bool_str, bool_text, decimal, decimal_text, hex_bytes, hex_text};
use vstd::prelude::*;

verus! {

/// Marker for IP version 4.
pub struct Version;

impl super::Version for Version {
    type Addr = Addr;
}

/// An IPv4 address, most significant byte first.
#[derive(Debug, Clone, Copy)]
pub struct Addr(pub [u8; 4]);

impl super::Addr for Addr {
    open spec fn host_key(&self) -> u128 {
        be32(self.0[0], self.0[1], self.0[2], self.0[3]) as u128
    }

    /// The four bytes in decimal, separated by dots.
    open spec fn host_text(&self) -> Seq<char> {
        decimal(self.0[0] as nat) + "."@ + decimal(self.0[1] as nat) + "."@ + decimal(self.0[2] as nat) + "."@
            + decimal(self.0[3] as nat)
    }

    fn key(&self) -> (r: u128) {
        u32_from_be(self.0[0], self.0[1], self.0[2], self.0[3]) as u128
    }

    fn to_text(&self) -> (r: String) {
        let mut s = decimal_text(self.0[0] as u64);
        s.append(".");
        s.append(decimal_text(self.0[1] as u64).as_str());
        s.append(".");
        s.append(decimal_text(self.0[2] as u64).as_str());
        s.append(".");
        s.append(decimal_text(self.0[3] as u64).as_str());
        s
    }
}

impl PartialEq for Addr {
    fn eq(&self, other: &Self) -> (r: bool) {
        crate::bytes::slices_equal(self.0.as_slice(), other.0.as_slice())
    }
}

impl vstd::std_specs::cmp::PartialEqSpecImpl for Addr {
    open spec fn obeys_eq_spec() -> bool {
        true
    }

    open spec fn eq_spec(&self, other: &Self) -> bool {
        self.0@ == other.0@
    }
}

impl Eq for Addr {}

impl From<[u8; 4]> for Addr {
    fn from(bytes: [u8; 4]) -> (r: Self) {
        Addr(bytes)
    }
}

impl vstd::std_specs::convert::FromSpecImpl<[u8; 4]> for Addr {
    open spec fn obeys_from_spec() -> bool {
        true
    }

    open spec fn from_spec(bytes: [u8; 4]) -> Self {
        Addr(bytes)
    }
}

/// The address whose bytes are `v` in network byte order.
pub open spec fn addr_of_u32(v: u32) -> Addr {
    Addr([(v / 0x100_0000) as u8, ((v / 0x1_0000) % 256) as u8, ((v / 256) % 256) as u8, (v % 256) as u8])
}

impl From<u32> for Addr {
    fn from(value: u32) -> (r: Self) {
        Addr([(value / 0x100_0000) as u8, ((value / 0x1_0000) % 256) as u8, ((value / 256) % 256) as u8, (value % 256) as u8])
    }
}

impl vstd::std_specs::convert::FromSpecImpl<u32> for Addr {
    open spec fn obeys_from_spec() -> bool {
        true
    }

    open spec fn from_spec(value: u32) -> Self {
        addr_of_u32(value)
    }
}

/// An address made from a number has that number as its key.
pub proof fn lemma_addr_of_u32_key(v: u32)
    ensures
        super::Addr::host_key(&addr_of_u32(v)) == v,
{
    let a = addr_of_u32(v);
    assert(be32(a.0[0], a.0[1], a.0[2], a.0[3]) == v) by (nonlinear_arith)
        requires
            a.0[0] == v / 0x100_0000,
            a.0[1] == (v / 0x1_0000) % 256,
            a.0[2] == (v / 256) % 256,
            a.0[3] == v % 256,
    ;
}

/// IPv4 header fields that only this version has.
pub struct Headers<'a> {
    pub identification: u16,
    pub flags_and_fragment_offset: u16,
    pub _header_checksum: u16,
    pub _options: &'a [u8],
}

/// An IPv4 packet; `payload` borrows the bytes after the header, up to the total length.
pub struct Packet<'a> {
    pub src: Addr,
    pub dst: Addr,
    pub next_protocol: Proto,
    pub headers: Headers<'a>,
    pub payload: &'a [u8],
    pub ttl: u8,
}

/// The total length field.
pub open spec fn total_len_of(s: Seq<u8>) -> int {
    be16_at(s, 2) as int
}

/// The header length in bytes: the lower four bits of the first byte, in 32-bit words.
pub open spec fn header_len_of(s: Seq<u8>) -> int {
    (s[0] as int % 16) * 4
}

/// The error that decoding `s` as an IPv4 packet gives, or `None` where it succeeds.
pub open spec fn parse_error(s: Seq<u8>) -> Option<Error> {
    if s.len() < 20 {
        Some(Error::Truncated(s.len() as usize, 20))
    } else if s[0] as int / 16 != 4 || (s[0] as int % 16) < 5 {
        Some(Error::MalformedIpv4Header)
    } else if s.len() < total_len_of(s) {
        Some(Error::Truncated(s.len() as usize, total_len_of(s) as usize))
    } else if header_len_of(s) > total_len_of(s) {
        Some(Error::MalformedIpv4Header)
    } else {
        None
    }
}

/// The four address bytes at `i`.
pub open spec fn addr_at(s: Seq<u8>, i: int) -> Seq<u8> {
    s.subrange(i, i + 4)
}

/// `p` is the packet that `s` decodes to.
pub open spec fn decodes(p: Packet, s: Seq<u8>) -> bool {
    &&& p.src.0@ == addr_at(s, 12)
    &&& p.dst.0@ == addr_at(s, 16)
    &&& p.ttl == s[8]
    &&& p.next_protocol == proto_of(s[9])
    &&& p.headers.identification == be16_at(s, 4)
    &&& p.headers.flags_and_fragment_offset == be16_at(s, 6)
    &&& p.headers._header_checksum == be16_at(s, 10)
    &&& p.headers._options@ == s.subrange(20, header_len_of(s))
    &&& p.payload@ == s.subrange(header_len_of(s), total_len_of(s))
}

fn addr_from(s: &[u8], i: usize) -> (r: Addr)
    requires
        i + 4 <= s@.len(),
    ensures
        r.0@ == addr_at(s@, i as int),
{
    let r = Addr([s[i], s[i + 1], s[i + 2], s[i + 3]]);
    assert(r.0@ =~= addr_at(s@, i as int));
    r
}

impl<'a> Packet<'a> {
    /// Decodes an IPv4 packet: version 4, a header of at least five words that fits
    /// in the total length, and a total length that the bytes hold. The payload
    /// ends at the total length.
    pub fn from_bytes(payload: &'a [u8]) -> (r: Result<Packet<'a>, Error>)
        ensures
            match r {
                Ok(p) => parse_error(payload@).is_none() && decodes(p, payload@),
                Err(e) => parse_error(payload@) == Some(e),
            },
    {
        let packet_len: usize = payload.len();
        if packet_len < 20 {
            return Err(Error::Truncated(packet_len, 20));
        }
        let version_and_ihl: u8 = payload[0];
        let version: u8 = version_and_ihl & 0xF0;
        let ihl: u8 = version_and_ihl & 0x0F;
        assert(version == 0x40 <==> version_and_ihl / 16 == 4) by (bit_vector)
            requires
                version == version_and_ihl & 0xF0,
        ;
        assert(ihl == version_and_ihl % 16) by (bit_vector)
            requires
                ihl == version_and_ihl & 0x0F,
        ;
        if version != 0x40 || ihl < 5 {
            return Err(Error::MalformedIpv4Header);
        }
        let total_len: usize = read_be16(payload, 2) as usize;
        let identification: u16 = read_be16(payload, 4);
        let flags_and_fragment_offset: u16 = read_be16(payload, 6);
        let ttl: u8 = payload[8];
        let next_protocol: u8 = payload[9];
        let header_checksum: u16 = read_be16(payload, 10);
        let src = addr_from(payload, 12);
        let dst = addr_from(payload, 16);
        if packet_len < total_len {
            return Err(Error::Truncated(packet_len, total_len));
        }
        let header_len: usize = 4 * ihl as usize;
        if header_len > total_len {
            return Err(Error::MalformedIpv4Header);
        }
        let ipv4_options = &payload[20..header_len];
        let ipv4_payload = &payload[header_len..total_len];
        Ok(Packet {
            src,
            dst,
            ttl,
            next_protocol: Proto::from(next_protocol),
            headers: Headers {
                identification,
                flags_and_fragment_offset,
                _header_checksum: header_checksum,
                _options: ipv4_options,
            },
            payload: ipv4_payload,
        })
    }
}

/// The fragment offset (lower 13 bits, in 8-byte units) and the more-fragments
/// flag (bit 13) of the flags field.
pub open spec fn fragment_of(flags: u16) -> (u16, bool) {
    ((flags % 0x2000) as u16, (flags / 0x2000) % 2 == 1)
}

impl<'a> Fragmentable<Addr> for Packet<'a> {
    open spec fn fragment_key_spec(&self) -> Option<(FragmentKey<Addr>, FragmentInfo)> {
        let (offset, more) = fragment_of(self.headers.flags_and_fragment_offset);
        if offset == 0 && !more {
            None
        } else {
            Some((
                FragmentKey { datagram: self.id_spec(), identification: self.headers.identification as u32 },
                FragmentInfo { offset_octets: offset, has_more: more },
            ))
        }
    }

    open spec fn payload_spec(&self) -> Seq<u8> {
        self.payload@
    }

    open spec fn id_spec(&self) -> DatagramId<Addr> {
        DatagramId { src: self.src, dst: self.dst, next_protocol: self.next_protocol }
    }

    fn fragment_key(&self) -> (r: Option<(FragmentKey<Addr>, FragmentInfo)>) {
        let flags: u16 = self.headers.flags_and_fragment_offset;
        let fragment_offset_octets: u16 = flags & 0x1FFF;
        let more_fragments: bool = (flags & 0x2000) != 0;
        assert(fragment_offset_octets == flags % 0x2000) by (bit_vector)
            requires
                fragment_offset_octets == flags & 0x1FFF,
        ;
        assert((flags & 0x2000 != 0) == ((flags / 0x2000) % 2 == 1)) by (bit_vector);
        if fragment_offset_octets == 0 && !more_fragments {
            return None;
        }
        Some((
            FragmentKey { datagram: self.datagram_id(), identification: self.headers.identification as u32 },
            FragmentInfo { offset_octets: fragment_offset_octets, has_more: more_fragments },
        ))
    }

    fn is_fragmented(&self) -> (r: bool) {
        self.fragment_key().is_some()
    }

    fn payload(&self) -> (r: &[u8]) {
        self.payload
    }

    fn src(&self) -> (r: Addr) {
        self.src
    }

    fn dst(&self) -> (r: Addr) {
        self.dst
    }

    fn next_protocol(&self) -> (r: Proto) {
        self.next_protocol
    }

    fn datagram_id(&self) -> (r: DatagramId<Addr>) {
        DatagramId { src: self.src, dst: self.dst, next_protocol: self.next_protocol }
    }
}

/// A packet: its addresses, TTL, protocol, whether it is a fragment, and its
/// payload's length and bytes in hexadecimal.
pub open spec fn packet_text(p: Packet) -> Seq<char> {
    "IPv4["@ + super::Addr::host_text(&p.src) + " -> "@ + super::Addr::host_text(&p.dst) + "] ttl: "@
        + decimal(p.ttl as nat) + ", proto: "@ + proto_text(p.next_protocol) + ", fragmented: "@
        + bool_text(p.fragment_key_spec() is Some) + ", payload_len: "@ + decimal(p.payload@.len())
        + ", payload: "@ + hex_bytes(p.payload@)
}

impl<'a> Packet<'a> {
    /// The packet's addresses, TTL, protocol, fragment state and payload.
    pub fn to_text(&self) -> (r: String)
        ensures
            r@ == packet_text(*self),
    {
        let mut s = String::from_str("IPv4[");
        s.append(super::Addr::to_text(&self.src).as_str());
        s.append(" -> ");
        s.append(super::Addr::to_text(&self.dst).as_str());
        s.append("] ttl: ");
        s.append(decimal_text(self.ttl as u64).as_str());
        s.append(", proto: ");
        s.append(self.next_protocol.to_text().as_str());
        s.append(", fragmented: ");
        s.append(bool_str(self.is_fragmented()));
        s.append(", payload_len: ");
        s.append(decimal_text(self.payload.len() as u64).as_str());
        s.append(", payload: ");
        s.append(hex_text(self.payload).as_str());
        s
    }
}

/// IPv4 fragment detection reads the flags field bit by bit (RFC 791): the lower
/// 13 bits are the fragment offset in 8-byte units, bit 0x2000 is "more
/// fragments", and the "don't fragment" bit 0x4000 plays no part. A packet is a
/// fragment exactly when its offset is not zero or more fragments follow; any
/// other packet (such as a TCP packet sent with only "don't fragment" set) passes
/// through a reassembler whole, whatever the reassembler holds.
pub proof fn lemma_fragment_flag_bits(p: Packet, table: Map<crate::cache::FragCacheKey, super::frag::BufferModel>, max: nat)
    ensures
        p.fragment_key_spec() is None <==> p.headers.flags_and_fragment_offset & 0x3FFF == 0,
        p.fragment_key_spec() matches Some((_, info)) ==> {
            &&& info.offset_octets == p.headers.flags_and_fragment_offset & 0x1FFF
            &&& info.has_more == (p.headers.flags_and_fragment_offset & 0x2000 != 0)
        },
        p.headers.flags_and_fragment_offset & 0x3FFF == 0 ==> super::frag::reassembly_outcome(table, max,
            p.fragment_key_spec(), p.id_spec(), p.payload_spec())
            == super::frag::ReassemblyOutcome::NotFragmented(p.id_spec(), p.payload@),
{
    let f = p.headers.flags_and_fragment_offset;
    assert((f % 0x2000) as u16 == f & 0x1FFF) by (bit_vector);
    assert(((f / 0x2000) % 2 == 1) == (f & 0x2000 != 0)) by (bit_vector);
    assert((f & 0x3FFF == 0) == (f & 0x1FFF == 0 && f & 0x2000 == 0)) by (bit_vector);
}

} // verus!
