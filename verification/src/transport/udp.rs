//! UDP datagrams.
use super::{AddrPair, Error, SockAddr};
use crate::bytes::{be16_at, read_be16};
use crate::ip;
use crate::ip::Addr;
use crate::text::{decimal, decimal_text, payload_text, payload_text_of};
use vstd::prelude::*;

verus! {

/// Length of the UDP header.
pub const SEGMENT_HEADER_BYTES: usize = 8;

/// A UDP datagram; it owns its bytes, and the data is `buf[range]`.
pub struct Segment<A: Addr> {
    pub addr: AddrPair<A>,
    pub buf: Vec<u8>,
    pub range: core::ops::Range<usize>,
}

/// The error that decoding `s` as a UDP datagram gives, or `None` where it succeeds.
pub open spec fn parse_error(s: Seq<u8>) -> Option<Error> {
    if s.len() < 8 {
        Some(Error::Truncated(ip::Error::Truncated(s.len() as usize, 8)))
    } else if s.len() < be16_at(s, 4) {
        Some(Error::LengthInconsistent(s.len() as usize, be16_at(s, 4) as usize))
    } else {
        None
    }
}

impl<A: Addr> Segment<A> {
    /// The bytes the datagram owns.
    pub open spec fn bytes(&self) -> Seq<u8> {
        self.buf@
    }

    /// Where the data starts in `bytes`: after the header.
    pub open spec fn data_start(&self) -> int {
        self.range.start as int
    }

    /// Where the data ends in `bytes`: the length the header announced.
    pub open spec fn data_end(&self) -> int {
        self.range.end as int
    }

    /// The datagram was decoded from `payload` sent from `src` to `dst`.
    pub open spec fn decodes(&self, src: A, dst: A, payload: Seq<u8>) -> bool {
        &&& self.addr.src.host == src
        &&& self.addr.dst.host == dst
        &&& self.addr.src.port == be16_at(payload, 0)
        &&& self.addr.dst.port == be16_at(payload, 2)
        &&& self.bytes() == payload
        &&& self.data_start() == 8
        &&& self.data_end() == be16_at(payload, 4)
    }

    /// Decodes a UDP datagram from an IP payload.
    pub fn from_ip_packet(src: A, dst: A, payload: Vec<u8>) -> (r: Result<Self, Error>)
        ensures
            match r {
                Ok(s) => parse_error(payload@).is_none() && s.decodes(src, dst, payload@),
                Err(e) => parse_error(payload@) == Some(e),
            },
    {
        if payload.len() < SEGMENT_HEADER_BYTES {
            return Err(Error::Truncated(ip::Error::Truncated(payload.len(), SEGMENT_HEADER_BYTES)));
        }
        let src_port: u16 = read_be16(payload.as_slice(), 0);
        let dst_port: u16 = read_be16(payload.as_slice(), 2);
        let payload_len: usize = read_be16(payload.as_slice(), 4) as usize;
        if payload.len() < payload_len {
            return Err(Error::LengthInconsistent(payload.len(), payload_len));
        }
        Ok(Segment {
            addr: AddrPair {
                src: SockAddr { host: src, port: src_port },
                dst: SockAddr { host: dst, port: dst_port },
            },
            buf: payload,
            range: SEGMENT_HEADER_BYTES..payload_len,
        })
    }

    /// The datagram's data: the bytes between the header and the announced length.
    /// A header that announces less than its own length has no such range.
    pub fn payload(&self) -> (r: &[u8])
        requires
            self.data_start() <= self.data_end() <= self.bytes().len(),
        ensures
            r@ == self.bytes().subrange(self.data_start(), self.data_end()),
    {
        &self.buf.as_slice()[self.range.start..self.range.end]
    }

    /// Whether `payload` may be called.
    pub fn has_payload(&self) -> (r: bool)
        ensures
            r == (self.data_start() <= self.data_end() <= self.bytes().len()),
    {
        self.range.start <= self.range.end && self.range.end <= self.buf.len()
    }
}

/// A datagram: its addresses, and its data's length and content.
pub open spec fn segment_text<A: Addr>(s: Segment<A>, alternate: bool) -> Seq<char> {
    let data = s.bytes().subrange(s.data_start(), s.data_end());
    "UDP: ["@ + super::addr_pair_text(s.addr) + "] len: "@ + decimal(data.len()) + ", payload: "@
        + payload_text(data, alternate)
}

impl<A: Addr> Segment<A> {
    /// The datagram as text; the data in hexadecimal when `alternate`, else as UTF-8.
    pub fn to_text(&self, alternate: bool) -> (r: String)
        requires
            self.data_start() <= self.data_end() <= self.bytes().len(),
        ensures
            r@ == segment_text(*self, alternate),
    {
        let data = self.payload();
        let mut s = String::from_str("UDP: [");
        s.append(self.addr.to_text().as_str());
        s.append("] len: ");
        s.append(decimal_text(data.len() as u64).as_str());
        s.append(", payload: ");
        s.append(payload_text_of(data, alternate).as_str());
        s
    }
}

} // verus!
