//! IPv6 packets, decoded without checking the version nibble.
use crate::bytes::{be16_at, read_be16};
use crate::ip::v6::{lemma_scan_start_bound, scan_for_fragment_extension, scan_overruns, scan_panics, scan_result};
use crate::ip::{proto_text, Error, Proto};
use crate::text::{decimal, decimal_text, hex_bytes, hex_text};
use vstd::prelude::*;

pub use crate::ip::v6::Addr;

verus! {

/// The fields that identify the fragments of one datagram.
#[derive(Debug, Clone, Copy)]
pub struct FragmentKey {
    pub src: Addr,
    pub dst: Addr,
    pub identification: u32,
    pub next_protocol: Proto,
}

/// The fragment extension header.
#[derive(Debug, Clone, Copy, PartialEq, Eq, Structural)]
pub struct FragmentationMetadata {
    pub identification: u32,
    /// Offset within the reassembled part, in 8-byte units.
    pub fragment_offset: u16,
    pub more_fragments: bool,
}

/// An IPv6 packet; `payload` borrows the bytes after the extension headers that
/// were walked, up to the end that the payload length gives.
pub struct Packet<'a> {
    pub src: Addr,
    pub dst: Addr,
    pub next_protocol: Proto,
    pub payload: &'a [u8],
    pub fragmentation: Option<FragmentationMetadata>,
}

/// The same fragment header in this module's shape.
pub open spec fn metadata_of(m: crate::ip::v6::FragmentationMetadata) -> FragmentationMetadata {
    FragmentationMetadata {
        identification: m.identification,
        fragment_offset: m.fragment_offset_octets,
        more_fragments: m.more_fragments,
    }
}

/// Decoding `s` reads past the end of its extension headers.
pub open spec fn parse_panics(s: Seq<u8>) -> bool {
    &&& s.len() >= 40
    &&& s.len() >= 40 + be16_at(s, 4)
    &&& scan_panics(s.subrange(40, 40 + be16_at(s, 4)), s[6], 0)
}

/// What decoding `s` gives: an error, or the protocol, the fragment header and the
/// payload's start and end. Any version nibble is taken.
pub open spec fn parse_result(s: Seq<u8>) -> Result<(Proto, Option<FragmentationMetadata>, int, int), Error> {
    if s.len() < 40 {
        Err(Error::Truncated(s.len() as usize, 40))
    } else if s.len() < 40 + be16_at(s, 4) {
        Err(Error::Truncated(s.len() as usize, (40 + be16_at(s, 4)) as usize))
    } else {
        match scan_result(s.subrange(40, 40 + be16_at(s, 4)), s[6], 0) {
            Err(e) => Err(e),
            Ok((proto, meta, start)) => Ok((
                proto,
                match meta {
                    Some(m) => Some(metadata_of(m)),
                    None => None,
                },
                start,
                40 + be16_at(s, 4),
            )),
        }
    }
}

/// `p` is the packet that `s` decodes to.
pub open spec fn decodes(p: Packet, s: Seq<u8>) -> bool {
    match parse_result(s) {
        Ok((proto, meta, start, end)) => {
            &&& p.src.0@ == s.subrange(8, 24)
            &&& p.dst.0@ == s.subrange(24, 40)
            &&& p.next_protocol == proto
            &&& p.fragmentation == meta
            &&& p.payload@ == s.subrange(start, end)
        },
        Err(_) => false,
    }
}

fn addr_from(s: &[u8], i: usize) -> (r: Addr)
    requires
        i + 16 <= s@.len(),
    ensures
        r.0@ == s@.subrange(i as int, i + 16),
{
    let r = Addr([
        s[i], s[i + 1], s[i + 2], s[i + 3], s[i + 4], s[i + 5], s[i + 6], s[i + 7],
        s[i + 8], s[i + 9], s[i + 10], s[i + 11], s[i + 12], s[i + 13], s[i + 14], s[i + 15],
    ]);
    assert(r.0@ =~= s@.subrange(i as int, i + 16));
    r
}

impl<'a> Packet<'a> {
    /// Decodes an IPv6 packet: a payload length that the bytes hold, and the
    /// extension headers walked to the payload protocol or a fragment header.
    pub fn from_bytes(payload: &'a [u8]) -> (r: Result<Packet<'a>, Error>)
        requires
            !parse_panics(payload@),
        ensures
            match r {
                Ok(p) => decodes(p, payload@),
                Err(e) => parse_result(payload@) == Err::<(Proto, Option<FragmentationMetadata>, int, int), Error>(e),
            },
    {
        let packet_len: usize = payload.len();
        if packet_len < 40 {
            return Err(Error::Truncated(packet_len, 40));
        }
        let payload_len: usize = read_be16(payload, 4) as usize;
        let next_header: u8 = payload[6];
        let src = addr_from(payload, 8);
        let dst = addr_from(payload, 24);
        let total_len: usize = 40 + payload_len;
        if packet_len < total_len {
            return Err(Error::Truncated(packet_len, total_len));
        }
        let ext = &payload[40..total_len];
        let scan = match scan_for_fragment_extension(ext, next_header, 0) {
            Ok(s) => s,
            Err(e) => return Err(e),
        };
        proof {
            lemma_scan_start_bound(ext@, next_header, 0);
        }
        let fragmentation = match scan.metadata {
            Some(m) => Some(FragmentationMetadata {
                identification: m.identification,
                fragment_offset: m.fragment_offset_octets,
                more_fragments: m.more_fragments,
            }),
            None => None,
        };
        Ok(Packet {
            src,
            dst,
            next_protocol: scan.next_protocol,
            payload: &payload[scan.payload_start..total_len],
            fragmentation,
        })
    }

    /// Whether decoding `payload` would read past the end of its extension headers.
    pub fn parse_would_overrun(payload: &[u8]) -> (r: bool)
        ensures
            r == parse_panics(payload@),
    {
        if payload.len() < 40 {
            return false;
        }
        let total_len: usize = 40 + read_be16(payload, 4) as usize;
        if payload.len() < total_len {
            return false;
        }
        scan_overruns(&payload[40..total_len], payload[6], 0)
    }
}

/// A packet: its addresses, protocol, and its payload's length and bytes in hexadecimal.
pub open spec fn packet_text(p: Packet) -> Seq<char> {
    "IPv6["@ + crate::ip::Addr::host_text(&p.src) + " -> "@ + crate::ip::Addr::host_text(&p.dst)
        + "] next_proto: "@ + proto_text(p.next_protocol) + ", payload_len: "@ + decimal(p.payload@.len())
        + ", payload: "@ + hex_bytes(p.payload@)
}

impl<'a> Packet<'a> {
    /// The packet's addresses, protocol and payload.
    pub fn to_text(&self) -> (r: String)
        ensures
            r@ == packet_text(*self),
    {
        let mut s = String::from_str("IPv6[");
        s.append(crate::ip::Addr::to_text(&self.src).as_str());
        s.append(" -> ");
        s.append(crate::ip::Addr::to_text(&self.dst).as_str());
        s.append("] next_proto: ");
        s.append(self.next_protocol.to_text().as_str());
        s.append(", payload_len: ");
        s.append(decimal_text(self.payload.len() as u64).as_str());
        s.append(", payload: ");
        s.append(hex_text(self.payload).as_str());
        s
    }
}

} // verus!
