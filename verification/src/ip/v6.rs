//! IPv6 packets.

use super::frag::{DatagramId, FragmentInfo, FragmentKey, Fragmentable};
use super::{proto_of, proto_text, Error, Proto, NH_AH, NH_DEST_OPTS, NH_FRAGMENT, NH_HOP_BY_HOP, NH_ROUTING};
use crate::bytes::{be16, be16_at, be32, read_be16, read_be32, u16_from_be};
use crate::text::{bool_str, bool_text, decimal, decimal_text, hex_bytes, hex_grouped, hex_grouped_text, hex_text};
use vstd::prelude::*;

verus! {

/// 256 to the power `n`.
pub open spec fn pow256(n: nat) -> int
    decreases n,
{
    if n == 0 { 1 } else { 256 * pow256((n - 1) as nat) }
}

/// The first `n` bytes of `s` read as one big-endian unsigned number.
pub open spec fn be_number(s: Seq<u8>, n: int) -> int
    decreases n,
{
    if n <= 0 { 0 } else { be_number(s, n - 1) * 256 + s[n - 1] as int }
}

proof fn lemma_be_number_step(s: Seq<u8>, i: int)
    requires
        0 <= i,
        i < s.len(),
        i < 16,
        be_number(s, i) < pow256(i as nat),
    ensures
        be_number(s, i + 1) == be_number(s, i) * 256 + s[i] as int,
        be_number(s, i + 1) < pow256((i + 1) as nat),
        pow256((i + 1) as nat) <= 0x1_0000_0000_0000_0000_0000_0000_0000_0000,
{
    lemma_pow256_bound(i + 1);
    assert(be_number(s, i + 1) < pow256((i + 1) as nat)) by (nonlinear_arith)
        requires
            be_number(s, i + 1) == be_number(s, i) * 256 + s[i] as int,
            be_number(s, i) < pow256(i as nat),
            pow256((i + 1) as nat) == 256 * pow256(i as nat),
            s[i] < 256;
}

proof fn lemma_pow256_mono(n: nat, m: nat)
    requires
        n <= m,
    ensures
        0 < pow256(n) <= pow256(m),
    decreases m,
{
    if n < m {
        lemma_pow256_mono(n, (m - 1) as nat);
    } else if n > 0 {
        lemma_pow256_mono((n - 1) as nat, (n - 1) as nat);
    }
}

proof fn lemma_pow256_bound(n: int)
    requires
        0 <= n <= 16,
    ensures
        pow256(n as nat) <= 0x1_0000_0000_0000_0000_0000_0000_0000_0000,
        pow256(n as nat) > 0,
{
    lemma_pow256_mono(n as nat, 16);
    reveal_with_fuel(pow256, 17);
    assert(pow256(16) == 0x1_0000_0000_0000_0000_0000_0000_0000_0000);
}

/// An IPv6 address, most significant byte first.
#[derive(Debug, Clone, Copy)]
pub struct Addr(pub [u8; 16]);

impl super::Addr for Addr {
    open spec fn host_key(&self) -> u128 {
        be_number(self.0@, 16) as u128
    }

    /// The bytes in hexadecimal pairs, with `:` after every second byte.
    open spec fn host_text(&self) -> Seq<char> {
        hex_grouped(self.0@, 2)
    }

    fn to_text(&self) -> (r: String) {
        hex_grouped_text(self.0.as_slice(), 2)
    }

    fn key(&self) -> (r: u128) {
        let mut acc: u128 = 0;
        let mut i: usize = 0;
        while i < 16
            invariant
                i <= 16,
                acc == be_number(self.0@, i as int),
                be_number(self.0@, i as int) < pow256(i as nat),
            decreases 16 - i,
        {
            proof {
                lemma_be_number_step(self.0@, i as int);
            }
            acc = acc * 256 + self.0[i] as u128;
            i = i + 1;
        }
        acc
    }
}

impl PartialEq for Addr {
    fn eq(&self, other: &Self) -> (r: bool) {
        crate::bytes::slices_equal(self.0.as_slice(), other.0.as_slice())
    }
}

impl vstd::std_specs::cmp::PartialEqSpecImpl for Addr {
    open spec fn obeys_eq_spec() -> bool {
        true
    }

    open spec fn eq_spec(&self, other: &Self) -> bool {
        self.0@ == other.0@
    }
}

impl Eq for Addr {}

impl From<[u8; 16]> for Addr {
    fn from(bytes: [u8; 16]) -> (r: Self) {
        Addr(bytes)
    }
}

impl vstd::std_specs::convert::FromSpecImpl<[u8; 16]> for Addr {
    open spec fn obeys_from_spec() -> bool {
        true
    }

    open spec fn from_spec(bytes: [u8; 16]) -> Self {
        Addr(bytes)
    }
}

/// The fragment extension header of an IPv6 packet.
#[derive(Debug, Clone, Copy, PartialEq, Eq, Structural)]
pub struct FragmentationMetadata {
    pub identification: u32,
    /// Offset within the reassembled part, in 8-byte units.
    pub fragment_offset_octets: u16,
    pub more_fragments: bool,
}

/// An IPv6 packet; `payload` borrows the bytes after the extension headers that
/// were walked, up to the end that the payload length gives. `ttl` is not read.
pub struct Packet<'a> {
    pub src: Addr,
    pub dst: Addr,
    pub next_protocol: Proto,
    pub headers: Option<FragmentationMetadata>,
    pub payload: &'a [u8],
    pub ttl: u8,
}

/// Length of the fixed IPv6 header.
pub const IPV6_HEADER_BYTES: usize = 40;

/// Length of the fragment extension header.
pub const FRAGMENT_HEADER_LEN_BYTES: usize = 8;

/// A hop-by-hop, routing or destination-options header: one with a length byte in 8-byte units.
pub open spec fn is_ext_len_header(nh: u8) -> bool {
    nh == NH_HOP_BY_HOP || nh == NH_ROUTING || nh == NH_DEST_OPTS
}

/// Where the header at `off` ends, for a header whose second byte is its length in
/// 8-byte units beyond the first 8; `None` where it does not fit.
pub open spec fn skip_ext_len(p: Seq<u8>, off: int) -> Option<int> {
    if off > p.len() || p.len() - off < 8 {
        None
    } else if p.len() - off < (p[off + 1] as int + 1) * 8 {
        None
    } else {
        Some(off + (p[off + 1] as int + 1) * 8)
    }
}

/// Where the authentication header at `off` ends (its second byte is its length in
/// 4-byte units, less 2); `None` where it does not fit.
pub open spec fn skip_ah_len(p: Seq<u8>, off: int) -> Option<int> {
    if off > p.len() || p.len() - off < 4 {
        None
    } else if p.len() - off < (p[off + 1] as int + 2) * 4 {
        None
    } else {
        Some(off + (p[off + 1] as int + 2) * 4)
    }
}

/// The next header, fragment offset (upper 13 bits), more-fragments flag (the bit
/// of value 4) and identification stored in an 8-byte fragment header.
pub open spec fn fragment_header_of(b: Seq<u8>) -> (Proto, FragmentationMetadata) {
    let info = be16(b[2], b[3]);
    (
        proto_of(b[0]),
        FragmentationMetadata {
            identification: be32(b[4], b[5], b[6], b[7]),
            fragment_offset_octets: info / 8,
            more_fragments: (info / 4) % 2 == 1,
        },
    )
}

/// Walking the extension headers of `p` from header `nh` at offset `off` reads a
/// byte past the end: a header that has a length byte starts at the end.
pub open spec fn scan_panics(p: Seq<u8>, nh: u8, off: int) -> bool
    decreases p.len() - off,
{
    if off < 0 || nh == NH_FRAGMENT {
        false
    } else if is_ext_len_header(nh) || nh == NH_AH {
        if off >= p.len() {
            true
        } else {
            let next = if nh == NH_AH { skip_ah_len(p, off) } else { skip_ext_len(p, off) };
            match next {
                None => false,
                Some(o) => if o > off { scan_panics(p, p[off], o) } else { false },
            }
        }
    } else {
        false
    }
}

/// Walking the extension headers of `p` from header `nh` at offset `off`: hop-by-hop,
/// routing, destination-options and authentication headers are skipped; a fragment
/// header ends the walk with its contents; any other header ends it as the payload
/// protocol. Gives the protocol, the fragment header if any, and where the payload starts.
pub open spec fn scan_result(p: Seq<u8>, nh: u8, off: int) -> Result<(Proto, Option<FragmentationMetadata>, int), Error>
    decreases p.len() - off,
{
    if off < 0 {
        Err(Error::MalformedIpv6Header)
    } else if nh == NH_FRAGMENT {
        if off + 8 > p.len() {
            Err(Error::MalformedIpv6Header)
        } else {
            let (proto, meta) = fragment_header_of(p.subrange(off, off + 8));
            Ok((proto, Some(meta), off + 8))
        }
    } else if is_ext_len_header(nh) || nh == NH_AH {
        if off >= p.len() {
            Err(Error::MalformedIpv6Header)
        } else {
            let next = if nh == NH_AH { skip_ah_len(p, off) } else { skip_ext_len(p, off) };
            match next {
                None => Err(Error::MalformedIpv6Header),
                Some(o) => if o > off { scan_result(p, p[off], o) } else { Err(Error::MalformedIpv6Header) },
            }
        }
    } else {
        Ok((proto_of(nh), None, off))
    }
}

/// Decoding `s` as an IPv6 packet reads past the end of its extension headers.
pub open spec fn parse_panics(s: Seq<u8>) -> bool {
    &&& s.len() >= 40
    &&& s[0] as int / 16 == 6
    &&& s.len() >= 40 + be16_at(s, 4)
    &&& scan_panics(s.subrange(40, 40 + be16_at(s, 4)), s[6], 0)
}

/// What decoding `s` as an IPv6 packet gives: an error, or the protocol, the
/// fragment header and the payload's start and end.
pub open spec fn parse_result(s: Seq<u8>) -> Result<(Proto, Option<FragmentationMetadata>, int, int), Error> {
    if s.len() < 40 {
        Err(Error::Truncated(s.len() as usize, 40))
    } else if s[0] as int / 16 != 6 {
        Err(Error::MalformedIpv6Header)
    } else if s.len() < 40 + be16_at(s, 4) {
        Err(Error::Truncated(s.len() as usize, (40 + be16_at(s, 4)) as usize))
    } else {
        match scan_result(s.subrange(40, 40 + be16_at(s, 4)), s[6], 0) {
            Err(e) => Err(e),
            Ok((proto, meta, start)) => Ok((proto, meta, start, 40 + be16_at(s, 4))),
        }
    }
}

/// `p` is the packet that `s` decodes to. The payload starts at the offset that
/// the extension walk found, counted from the start of the packet.
pub open spec fn decodes(p: Packet, s: Seq<u8>) -> bool {
    match parse_result(s) {
        Ok((proto, meta, start, end)) => {
            &&& p.src.0@ == s.subrange(8, 24)
            &&& p.dst.0@ == s.subrange(24, 40)
            &&& p.next_protocol == proto
            &&& p.headers == meta
            &&& p.payload@ == s.subrange(start, end)
            &&& p.ttl == 0
        },
        Err(_) => false,
    }
}

fn addr_from(s: &[u8], i: usize) -> (r: Addr)
    requires
        i + 16 <= s@.len(),
    ensures
        r.0@ == s@.subrange(i as int, i + 16),
{
    let r = Addr([
        s[i], s[i + 1], s[i + 2], s[i + 3], s[i + 4], s[i + 5], s[i + 6], s[i + 7],
        s[i + 8], s[i + 9], s[i + 10], s[i + 11], s[i + 12], s[i + 13], s[i + 14], s[i + 15],
    ]);
    assert(r.0@ =~= s@.subrange(i as int, i + 16));
    r
}

impl<'a> Packet<'a> {
    /// Decodes an IPv6 packet: version 6, a payload length that the bytes hold, and
    /// the extension headers walked to the payload protocol or a fragment header.
    pub fn from_bytes(payload: &'a [u8]) -> (r: Result<Packet<'a>, Error>)
        requires
            !parse_panics(payload@),
        ensures
            match r {
                Ok(p) => decodes(p, payload@) && p.payload@.len() <= 65575,
                Err(e) => parse_result(payload@) == Err::<(Proto, Option<FragmentationMetadata>, int, int), Error>(e),
            },
    {
        let packet_len: usize = payload.len();
        if packet_len < IPV6_HEADER_BYTES {
            return Err(Error::Truncated(packet_len, IPV6_HEADER_BYTES));
        }
        let first: u8 = payload[0];
        if (first >> 4) != 6 {
            assert(first >> 4 == first / 16) by (bit_vector);
            return Err(Error::MalformedIpv6Header);
        }
        assert(first >> 4 == first / 16) by (bit_vector);
        let payload_len: usize = read_be16(payload, 4) as usize;
        let next_header: u8 = payload[6];
        let src = addr_from(payload, 8);
        let dst = addr_from(payload, 24);
        let total_len: usize = IPV6_HEADER_BYTES + payload_len;
        if packet_len < total_len {
            return Err(Error::Truncated(packet_len, total_len));
        }
        let ext = &payload[IPV6_HEADER_BYTES..total_len];
        let scan = match scan_for_fragment_extension(ext, next_header, 0) {
            Ok(s) => s,
            Err(e) => return Err(e),
        };
        proof {
            lemma_scan_start_bound(ext@, next_header, 0);
        }
        let ipv6_payload = &payload[scan.payload_start..total_len];
        Ok(Packet {
            src,
            dst,
            next_protocol: scan.next_protocol,
            payload: ipv6_payload,
            headers: scan.metadata,
            ttl: 0,
        })
    }

    /// Whether decoding `payload` would read past the end of its extension headers.
    pub fn parse_would_overrun(payload: &[u8]) -> (r: bool)
        ensures
            r == parse_panics(payload@),
    {
        if payload.len() < IPV6_HEADER_BYTES {
            return false;
        }
        let first: u8 = payload[0];
        assert(first >> 4 == first / 16) by (bit_vector);
        if (first >> 4) != 6 {
            return false;
        }
        let total_len: usize = IPV6_HEADER_BYTES + read_be16(payload, 4) as usize;
        if payload.len() < total_len {
            return false;
        }
        scan_overruns(&payload[IPV6_HEADER_BYTES..total_len], payload[6], 0)
    }
}

/// Whether walking the extension headers from `next_header` at `offset` reads past the end.
pub(crate) fn scan_overruns(payload: &[u8], next_header: u8, offset: usize) -> (r: bool)
    requires
        offset <= payload@.len(),
    ensures
        r == scan_panics(payload@, next_header, offset as int),
{
    let mut nh: u8 = next_header;
    let mut off: usize = offset;
    loop
        invariant
            off <= payload@.len(),
            scan_panics(payload@, nh, off as int) == scan_panics(payload@, next_header, offset as int),
        decreases payload@.len() - off,
    {
        if nh == NH_HOP_BY_HOP || nh == NH_ROUTING || nh == NH_DEST_OPTS || nh == NH_AH {
            if off >= payload.len() {
                return true;
            }
            let next: u8 = payload[off];
            let skipped = if nh == NH_AH { skip_ah(payload, off) } else { skip_hdr_ext_len_header(payload, off) };
            match skipped {
                Ok(o) => {
                    off = o;
                    nh = next;
                },
                Err(_) => return false,
            }
        } else {
            return false;
        }
    }
}

impl<'a> Fragmentable<Addr> for Packet<'a> {
    open spec fn fragment_key_spec(&self) -> Option<(FragmentKey<Addr>, FragmentInfo)> {
        match self.headers {
            None => None,
            Some(v) => Some((
                FragmentKey { datagram: self.id_spec(), identification: v.identification },
                FragmentInfo { offset_octets: v.fragment_offset_octets, has_more: v.more_fragments },
            )),
        }
    }

    open spec fn payload_spec(&self) -> Seq<u8> {
        self.payload@
    }

    open spec fn id_spec(&self) -> DatagramId<Addr> {
        DatagramId { src: self.src, dst: self.dst, next_protocol: self.next_protocol }
    }

    fn fragment_key(&self) -> (r: Option<(FragmentKey<Addr>, FragmentInfo)>) {
        match self.headers {
            None => None,
            Some(v) => Some((
                FragmentKey { datagram: self.datagram_id(), identification: v.identification },
                FragmentInfo { offset_octets: v.fragment_offset_octets, has_more: v.more_fragments },
            )),
        }
    }

    fn is_fragmented(&self) -> (r: bool) {
        self.headers.is_some()
    }

    fn payload(&self) -> (r: &[u8]) {
        self.payload
    }

    fn src(&self) -> (r: Addr) {
        self.src
    }

    fn dst(&self) -> (r: Addr) {
        self.dst
    }

    fn next_protocol(&self) -> (r: Proto) {
        self.next_protocol
    }

    fn datagram_id(&self) -> (r: DatagramId<Addr>) {
        DatagramId { src: self.src, dst: self.dst, next_protocol: self.next_protocol }
    }
}

/// The walk ends within the bytes it walks.
pub(crate) proof fn lemma_scan_start_bound(p: Seq<u8>, nh: u8, off: int)
    requires
        0 <= off <= p.len(),
    ensures
        scan_result(p, nh, off) matches Ok((_, _, start)) ==> 0 <= start <= p.len(),
    decreases p.len() - off,
{
    if 0 <= off <= p.len() && nh != NH_FRAGMENT && (is_ext_len_header(nh) || nh == NH_AH) && off < p.len() {
        let next = if nh == NH_AH { skip_ah_len(p, off) } else { skip_ext_len(p, off) };
        if let Some(o) = next {
            if o > off {
                lemma_scan_start_bound(p, p[off], o);
            }
        }
    }
}

pub(crate) struct ExtensionScan {
    pub(crate) next_protocol: Proto,
    pub(crate) metadata: Option<FragmentationMetadata>,
    pub(crate) payload_start: usize,
}

/// Walks the extension header chain; see `scan_result`.
pub(crate) fn scan_for_fragment_extension(payload: &[u8], next_header: u8, offset: usize) -> (r: Result<ExtensionScan, Error>)
    requires
        !scan_panics(payload@, next_header, offset as int),
        next_header == NH_FRAGMENT ==> offset + FRAGMENT_HEADER_LEN_BYTES <= usize::MAX,
    ensures
        match r {
            Ok(s) => scan_result(payload@, next_header, offset as int)
                == Ok::<(Proto, Option<FragmentationMetadata>, int), Error>((s.next_protocol, s.metadata, s.payload_start as int)),
            Err(e) => scan_result(payload@, next_header, offset as int) == Err::<(Proto, Option<FragmentationMetadata>, int), Error>(e),
        },
{
    if offset > payload.len() {
        if next_header == NH_FRAGMENT {
            return Err(Error::MalformedIpv6Header);
        }
        let proto = Proto::from(next_header);
        assert(proto == proto_of(next_header));
        return Ok(ExtensionScan { metadata: None, next_protocol: proto, payload_start: offset });
    }
    let mut nh: u8 = next_header;
    let mut off: usize = offset;
    loop
        invariant
            off <= payload@.len(),
            !scan_panics(payload@, nh, off as int),
            scan_result(payload@, nh, off as int) == scan_result(payload@, next_header, offset as int),
        decreases payload@.len() - off,
    {
        if nh == NH_FRAGMENT {
            if payload.len() < FRAGMENT_HEADER_LEN_BYTES || off > payload.len() - FRAGMENT_HEADER_LEN_BYTES {
                return Err(Error::MalformedIpv6Header);
            }
            let bytes = &payload[off..off + FRAGMENT_HEADER_LEN_BYTES];
            let header = match parse_fragment_header(bytes) {
                Ok(h) => h,
                Err(e) => return Err(e),
            };
            let metadata = FragmentationMetadata {
                identification: header.identification,
                fragment_offset_octets: header.fragment_offset_octets,
                more_fragments: header.more_fragments,
            };
            return Ok(ExtensionScan {
                metadata: Some(metadata),
                next_protocol: header.next_protocol,
                payload_start: off + FRAGMENT_HEADER_LEN_BYTES,
            });
        } else if nh == NH_HOP_BY_HOP || nh == NH_ROUTING || nh == NH_DEST_OPTS {
            let next: u8 = payload[off];
            off = match skip_hdr_ext_len_header(payload, off) {
                Ok(o) => o,
                Err(e) => return Err(e),
            };
            nh = next;
        } else if nh == NH_AH {
            let next: u8 = payload[off];
            off = match skip_ah(payload, off) {
                Ok(o) => o,
                Err(e) => return Err(e),
            };
            nh = next;
        } else {
            let proto = Proto::from(nh);
            assert(proto == proto_of(nh));
            return Ok(ExtensionScan { metadata: None, next_protocol: proto, payload_start: off });
        }
    }
}

/// Skips a header whose second byte gives its length in 8-byte units beyond the first 8.
fn skip_hdr_ext_len_header(payload: &[u8], offset: usize) -> (r: Result<usize, Error>)
    ensures
        match r {
            Ok(o) => skip_ext_len(payload@, offset as int) == Some(o as int),
            Err(e) => skip_ext_len(payload@, offset as int) is None && e == Error::MalformedIpv6Header,
        },
{
    let remaining: usize = match payload.len().checked_sub(offset) {
        Some(v) => v,
        None => return Err(Error::MalformedIpv6Header),
    };
    if remaining < 8 {
        return Err(Error::MalformedIpv6Header);
    }
    let hdr_ext_len: usize = payload[offset + 1] as usize;
    let len: usize = (hdr_ext_len + 1) * 8;
    if remaining < len {
        return Err(Error::MalformedIpv6Header);
    }
    Ok(offset + len)
}

/// Skips an authentication header; its second byte gives its length in 4-byte units, less 2.
fn skip_ah(payload: &[u8], offset: usize) -> (r: Result<usize, Error>)
    ensures
        match r {
            Ok(o) => skip_ah_len(payload@, offset as int) == Some(o as int),
            Err(e) => skip_ah_len(payload@, offset as int) is None && e == Error::MalformedIpv6Header,
        },
{
    let remaining: usize = match payload.len().checked_sub(offset) {
        Some(v) => v,
        None => return Err(Error::MalformedIpv6Header),
    };
    if remaining < 4 {
        return Err(Error::MalformedIpv6Header);
    }
    let payload_len: usize = payload[offset + 1] as usize;
    let len: usize = (payload_len + 2) * 4;
    if remaining < len {
        return Err(Error::MalformedIpv6Header);
    }
    Ok(offset + len)
}

struct RawFragmentHeader {
    next_protocol: Proto,
    fragment_offset_octets: u16,
    more_fragments: bool,
    identification: u32,
}

/// Decodes an 8-byte fragment header.
fn parse_fragment_header(bytes: &[u8]) -> (r: Result<RawFragmentHeader, Error>)
    ensures
        match r {
            Ok(h) => bytes@.len() == 8 && fragment_header_of(bytes@) == (h.next_protocol, FragmentationMetadata {
                identification: h.identification,
                fragment_offset_octets: h.fragment_offset_octets,
                more_fragments: h.more_fragments,
            }),
            Err(e) => bytes@.len() != 8 && e == Error::MalformedIpv6Header,
        },
{
    if bytes.len() != FRAGMENT_HEADER_LEN_BYTES {
        return Err(Error::MalformedIpv6Header);
    }
    let next_protocol: u8 = bytes[0];
    let frag_info: u16 = u16_from_be(bytes[2], bytes[3]);
    let offset: u16 = frag_info >> 3;
    let more: bool = (frag_info & 0x0004) != 0;
    assert(offset == frag_info / 8) by (bit_vector)
        requires
            offset == frag_info >> 3,
    ;
    assert(((frag_info & 0x0004) != 0) == ((frag_info / 4) % 2 == 1)) by (bit_vector);
    Ok(RawFragmentHeader {
        next_protocol: Proto::from(next_protocol),
        fragment_offset_octets: offset,
        more_fragments: more,
        identification: read_be32(bytes, 4),
    })
}

/// A packet: its addresses, protocol, whether it is a fragment, and its
/// payload's length and bytes in hexadecimal.
pub open spec fn packet_text(p: Packet) -> Seq<char> {
    "IPv6["@ + super::Addr::host_text(&p.src) + " -> "@ + super::Addr::host_text(&p.dst) + "] next_proto: "@
        + proto_text(p.next_protocol) + ", fragmented: "@ + bool_text(p.headers is Some) + ", payload_len: "@
        + decimal(p.payload@.len()) + ", payload: "@ + hex_bytes(p.payload@)
}

impl<'a> Packet<'a> {
    /// The packet's addresses, protocol, fragment state and payload.
    pub fn to_text(&self) -> (r: String)
        ensures
            r@ == packet_text(*self),
    {
        let mut s = String::from_str("IPv6[");
        s.append(super::Addr::to_text(&self.src).as_str());
        s.append(" -> ");
        s.append(super::Addr::to_text(&self.dst).as_str());
        s.append("] next_proto: ");
        s.append(self.next_protocol.to_text().as_str());
        s.append(", fragmented: ");
        s.append(bool_str(self.is_fragmented()));
        s.append(", payload_len: ");
        s.append(decimal_text(self.payload.len() as u64).as_str());
        s.append(", payload: ");
        s.append(hex_text(self.payload).as_str());
        s
    }
}

/// A hop-by-hop, routing or destination-options header (RFC 8200) is its length
/// byte plus one units of 8 bytes long, and an authentication header (RFC 4302)
/// its length byte plus two units of 4 bytes: such a header is skipped exactly
/// when it lies wholly within the bytes (and has room for its fixed part), and the
/// walk resumes right after it, whatever its length byte.
pub proof fn lemma_extension_header_length(p: Seq<u8>, off: int)
    requires
        0 <= off <= p.len(),
    ensures
        skip_ext_len(p, off) is Some <==> off + 8 <= p.len() && off + (p[off + 1] as int + 1) * 8 <= p.len(),
        skip_ext_len(p, off) matches Some(o) ==> (o - off) % 8 == 0 && (o - off) / 8 == p[off + 1] as int + 1,
        skip_ah_len(p, off) is Some <==> off + 4 <= p.len() && off + (p[off + 1] as int + 2) * 4 <= p.len(),
        skip_ah_len(p, off) matches Some(o) ==> (o - off) % 4 == 0 && (o - off) / 4 == p[off + 1] as int + 2,
{
}

/// The extension walk skips a whole header and goes on from its end: walking from
/// a hop-by-hop, routing or destination-options header whose length byte is `n`
/// gives what walking from the header it names, `(n + 1) * 8` bytes further on,
/// gives; for an authentication header the step is `(n + 2) * 4` bytes.
pub proof fn lemma_scan_steps_over_header(p: Seq<u8>, nh: u8, off: int)
    requires
        is_ext_len_header(nh) || nh == NH_AH,
        0 <= off,
        off + 8 <= p.len(),
        is_ext_len_header(nh) ==> off + (p[off + 1] as int + 1) * 8 <= p.len(),
        nh == NH_AH ==> off + (p[off + 1] as int + 2) * 4 <= p.len(),
    ensures
        is_ext_len_header(nh) ==> scan_result(p, nh, off) == scan_result(p, p[off], off + (p[off + 1] as int + 1) * 8),
        nh == NH_AH ==> scan_result(p, nh, off) == scan_result(p, p[off], off + (p[off + 1] as int + 2) * 4),
        is_ext_len_header(nh) ==> scan_panics(p, nh, off) == scan_panics(p, p[off], off + (p[off + 1] as int + 1) * 8),
        nh == NH_AH ==> scan_panics(p, nh, off) == scan_panics(p, p[off], off + (p[off + 1] as int + 2) * 4),
{
    assert(nh != NH_FRAGMENT);
}

} // verus!
