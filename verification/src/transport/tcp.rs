//! TCP segments.
use super::{AddrPair, Error, SockAddr};
use crate::bytes::{be16, be32, u16_from_be, u32_from_be};
use crate::ip;
use crate::ip::Addr;
use crate::text::{decimal, decimal_text, join, payload_text, payload_text_of};
use vstd::prelude::*;

verus! {

/// Length of the fixed TCP header.
pub const SEGMENT_HEADER_BYTES: usize = 20;

/// The eight TCP control bits.
#[derive(Clone, Copy, Debug)]
pub struct Flags(u8);

impl PartialEq for Flags {
    fn eq(&self, other: &Self) -> (r: bool) {
        self.0 == other.0
    }
}

impl vstd::std_specs::cmp::PartialEqSpecImpl for Flags {
    open spec fn obeys_eq_spec() -> bool {
        true
    }

    open spec fn eq_spec(&self, other: &Self) -> bool {
        self.bits() == other.bits()
    }
}

impl Eq for Flags {}

/// Whether `mask` is set in `bits`.
pub open spec fn has_bit(bits: u8, mask: u8) -> bool {
    bits & mask != 0
}

impl Flags {
    pub const FIN: u8 = 1;
    pub const SYN: u8 = 2;
    pub const RST: u8 = 4;
    pub const PSH: u8 = 8;
    pub const ACK: u8 = 16;
    pub const URG: u8 = 32;
    pub const ECE: u8 = 64;
    pub const CWR: u8 = 128;

    /// The flag byte as it stands in the header.
    pub closed spec fn bits(self) -> u8 {
        self.0
    }

    /// The flags whose byte is `b`.
    pub closed spec fn from_bits(b: u8) -> Flags {
        Flags(b)
    }

    pub fn from_byte(b: u8) -> (r: Self)
        ensures
            r == Flags::from_bits(b),
            r.bits() == b,
    {
        Flags(b)
    }

    pub fn as_byte(self) -> (r: u8)
        ensures
            r == self.bits(),
    {
        self.0
    }

    pub fn fin(self) -> (r: bool)
        ensures
            r == has_bit(self.bits(), 1),
    {
        self.0 & 1 != 0
    }

    pub fn syn(self) -> (r: bool)
        ensures
            r == has_bit(self.bits(), 2),
    {
        self.0 & 2 != 0
    }

    pub fn rst(self) -> (r: bool)
        ensures
            r == has_bit(self.bits(), 4),
    {
        self.0 & 4 != 0
    }

    pub fn psh(self) -> (r: bool)
        ensures
            r == has_bit(self.bits(), 8),
    {
        self.0 & 8 != 0
    }

    pub fn ack(self) -> (r: bool)
        ensures
            r == has_bit(self.bits(), 16),
    {
        self.0 & 16 != 0
    }

    pub fn urg(self) -> (r: bool)
        ensures
            r == has_bit(self.bits(), 32),
    {
        self.0 & 32 != 0
    }

    pub fn ece(self) -> (r: bool)
        ensures
            r == has_bit(self.bits(), 64),
    {
        self.0 & 64 != 0
    }

    pub fn cwr(self) -> (r: bool)
        ensures
            r == has_bit(self.bits(), 128),
    {
        self.0 & 128 != 0
    }
}

/// The value of flag bit `i`: FIN is bit 0, CWR bit 7.
pub open spec fn flag_mask(i: int) -> u8 {
    if i == 0 { 1 } else if i == 1 { 2 } else if i == 2 { 4 } else if i == 3 { 8 }
    else if i == 4 { 16 } else if i == 5 { 32 } else if i == 6 { 64 } else { 128 }
}

/// The name of flag bit `i`.
pub open spec fn flag_name(i: int) -> Seq<char> {
    if i == 0 { "FIN"@ } else if i == 1 { "SYN"@ } else if i == 2 { "RST"@ } else if i == 3 { "PSH"@ }
    else if i == 4 { "ACK"@ } else if i == 5 { "URG"@ } else if i == 6 { "ECE"@ } else { "CWR"@ }
}

/// The names of the flags set among the lowest `n` bits, lowest bit first.
pub open spec fn set_names(bits: u8, n: nat) -> Seq<Seq<char>>
    decreases n,
{
    if n == 0 {
        Seq::empty()
    } else {
        let before = set_names(bits, (n - 1) as nat);
        if has_bit(bits, flag_mask(n - 1)) { before.push(flag_name(n - 1)) } else { before }
    }
}

/// The names of the set flags joined by `|`, or `-` when none is set.
pub open spec fn flags_text(bits: u8) -> Seq<char> {
    if set_names(bits, 8).len() == 0 { "-"@ } else { join(set_names(bits, 8), "|"@) }
}

fn flag_mask_of(i: u8) -> (r: u8)
    requires
        i < 8,
    ensures
        r == flag_mask(i as int),
{
    if i == 0 { 1 } else if i == 1 { 2 } else if i == 2 { 4 } else if i == 3 { 8 }
    else if i == 4 { 16 } else if i == 5 { 32 } else if i == 6 { 64 } else { 128 }
}

fn flag_name_str(i: u8) -> (r: &'static str)
    requires
        i < 8,
    ensures
        r@ == flag_name(i as int),
{
    if i == 0 { "FIN" } else if i == 1 { "SYN" } else if i == 2 { "RST" } else if i == 3 { "PSH" }
    else if i == 4 { "ACK" } else if i == 5 { "URG" } else if i == 6 { "ECE" } else { "CWR" }
}

impl Flags {
    /// The names of the set flags, lowest bit first, joined by `|`; `-` when none is set.
    pub fn to_text(self) -> (r: String)
        ensures
            r@ == flags_text(self.bits()),
    {
        let mut s = String::new();
        let mut first: bool = true;
        let mut i: u8 = 0;
        while i < 8
            invariant
                i <= 8,
                first == (set_names(self.0, i as nat).len() == 0),
                s@ == join(set_names(self.0, i as nat), "|"@),
            decreases 8 - i,
        {
            let ghost names = set_names(self.0, i as nat);
            if self.0 & flag_mask_of(i) != 0 {
                let ghost before = s@;
                if !first {
                    s.append("|");
                }
                s.append(flag_name_str(i));
                first = false;
                proof {
                    let grown = names.push(flag_name(i as int));
                    assert(set_names(self.0, (i + 1) as nat) == grown);
                    assert(grown.drop_last() =~= names);
                    if names.len() == 0 {
                        assert(s@ =~= flag_name(i as int));
                    } else {
                        assert(s@ =~= before + "|"@ + flag_name(i as int));
                    }
                }
            }
            i = i + 1;
        }
        if first {
            String::from_str("-")
        } else {
            s
        }
    }
}

/// Building flags from a byte and reading the byte back gives the same byte, and
/// flags are determined by their byte.
pub proof fn lemma_flags_byte_roundtrip(b: u8, f: Flags)
    ensures
        Flags::from_bits(b).bits() == b,
        Flags::from_bits(f.bits()) == f,
{
}

/// The fixed part of a TCP header.
#[derive(Clone, Copy, Debug)]
pub struct Header {
    pub src_port: u16,
    pub dst_port: u16,
    pub seq_number: u32,
    pub ack_number: u32,
    pub data_offset_and_reserved: u8,
    pub flags: Flags,
    pub window: u16,
    pub checksum: u16,
    pub urgent_ptr: u16,
}

/// Header length in bytes that a data-offset byte announces (upper four bits, in 32-bit words).
pub open spec fn data_offset_of(b: u8) -> int {
    (b as int / 16) * 4
}

/// `h` holds the header fields stored in `v`, in network byte order.
pub open spec fn header_decodes(h: Header, v: Seq<u8>) -> bool {
    &&& h.src_port == be16(v[0], v[1])
    &&& h.dst_port == be16(v[2], v[3])
    &&& h.seq_number == be32(v[4], v[5], v[6], v[7])
    &&& h.ack_number == be32(v[8], v[9], v[10], v[11])
    &&& h.data_offset_and_reserved == v[12]
    &&& h.flags.bits() == v[13]
    &&& h.window == be16(v[14], v[15])
    &&& h.checksum == be16(v[16], v[17])
    &&& h.urgent_ptr == be16(v[18], v[19])
}

impl Header {
    /// Length of the header with its options, in bytes.
    pub fn data_offset_bytes(&self) -> (r: usize)
        ensures
            r == data_offset_of(self.data_offset_and_reserved),
            r <= 60,
    {
        let b: u8 = self.data_offset_and_reserved;
        let r: u8 = b >> 4 << 2;
        assert(r == (b / 16) * 4 && r <= 60) by (bit_vector)
            requires
                r == b >> 4 << 2,
        ;
        r as usize
    }

    /// Decodes the 20-byte fixed header.
    pub fn from_be_bytes(value: [u8; 20]) -> (r: Header)
        ensures
            header_decodes(r, value@),
    {
        Header {
            src_port: u16_from_be(value[0], value[1]),
            dst_port: u16_from_be(value[2], value[3]),
            seq_number: u32_from_be(value[4], value[5], value[6], value[7]),
            ack_number: u32_from_be(value[8], value[9], value[10], value[11]),
            data_offset_and_reserved: value[12],
            flags: Flags::from_byte(value[13]),
            window: u16_from_be(value[14], value[15]),
            checksum: u16_from_be(value[16], value[17]),
            urgent_ptr: u16_from_be(value[18], value[19]),
        }
    }
}

/// A TCP segment; it owns its bytes, the data is `buf[data_range]` and the
/// options are `buf[_opts_range]`.
pub struct Segment<A: Addr> {
    pub addr: AddrPair<A>,
    pub header: Header,
    pub data_range: core::ops::Range<usize>,
    pub _opts_range: core::ops::Range<usize>,
    pub buf: Vec<u8>,
}

/// The error that decoding `s` as a TCP segment gives, or `None` where it succeeds.
pub open spec fn parse_error(s: Seq<u8>) -> Option<Error> {
    if s.len() < 20 {
        Some(Error::Truncated(ip::Error::Truncated(s.len() as usize, 20)))
    } else if s.len() < data_offset_of(s[12]) {
        Some(Error::LengthInconsistent(s.len() as usize, data_offset_of(s[12]) as usize))
    } else {
        None
    }
}

impl<A: Addr> Segment<A> {
    /// The data range lies within the bytes.
    pub open spec fn wf(&self) -> bool {
        self.data_range.start <= self.data_range.end <= self.buf@.len()
    }

    /// The segment's data.
    pub open spec fn data(&self) -> Seq<u8> {
        self.buf@.subrange(self.data_range.start as int, self.data_range.end as int)
    }

    /// The segment was decoded from `payload` sent from `src` to `dst`.
    pub open spec fn decodes(&self, src: A, dst: A, payload: Seq<u8>) -> bool {
        &&& self.addr.src.host == src
        &&& self.addr.dst.host == dst
        &&& self.addr.src.port == self.header.src_port
        &&& self.addr.dst.port == self.header.dst_port
        &&& header_decodes(self.header, payload.subrange(0, 20))
        &&& self.buf@ == payload
        &&& self.data_range.start == data_offset_of(payload[12])
        &&& self.data_range.end == payload.len()
        &&& self._opts_range.start == 20
        &&& self._opts_range.end == data_offset_of(payload[12])
        &&& self.wf()
    }

    /// Decodes a TCP segment from an IP payload; the data starts where the
    /// header's data offset says.
    pub fn from_ip_packet(src: A, dst: A, payload: Vec<u8>) -> (r: Result<Self, Error>)
        ensures
            match r {
                Ok(s) => parse_error(payload@).is_none() && s.decodes(src, dst, payload@),
                Err(e) => parse_error(payload@) == Some(e),
            },
    {
        if payload.len() < SEGMENT_HEADER_BYTES {
            return Err(Error::Truncated(ip::Error::Truncated(payload.len(), SEGMENT_HEADER_BYTES)));
        }
        let p = payload.as_slice();
        let head: [u8; 20] = [
            p[0], p[1], p[2], p[3], p[4], p[5], p[6], p[7], p[8], p[9],
            p[10], p[11], p[12], p[13], p[14], p[15], p[16], p[17], p[18], p[19],
        ];
        assert(head@ =~= payload@.subrange(0, 20));
        let header = Header::from_be_bytes(head);
        let data_offset_bytes: usize = header.data_offset_bytes();
        if payload.len() < data_offset_bytes {
            return Err(Error::LengthInconsistent(payload.len(), data_offset_bytes));
        }
        let len: usize = payload.len();
        Ok(Segment {
            addr: AddrPair {
                src: SockAddr { host: src, port: header.src_port },
                dst: SockAddr { host: dst, port: header.dst_port },
            },
            header,
            data_range: data_offset_bytes..len,
            _opts_range: SEGMENT_HEADER_BYTES..data_offset_bytes,
            buf: payload,
        })
    }

    /// The segment's data.
    pub fn payload(&self) -> (r: &[u8])
        requires
            self.wf(),
        ensures
            r@ == self.data(),
    {
        &self.buf.as_slice()[self.data_range.start..self.data_range.end]
    }

    /// The segment's options, between the fixed header and the data.
    pub fn _options(&self) -> (r: &[u8])
        requires
            self._opts_range.start <= self._opts_range.end <= self.buf@.len(),
        ensures
            r@ == self.buf@.subrange(self._opts_range.start as int, self._opts_range.end as int),
    {
        &self.buf.as_slice()[self._opts_range.start..self._opts_range.end]
    }
}

/// A segment: its addresses, flags, and its data's length and content.
pub open spec fn segment_text<A: Addr>(s: Segment<A>, alternate: bool) -> Seq<char> {
    "TCP: ["@ + super::addr_pair_text(s.addr) + "] flags: "@ + flags_text(s.header.flags.bits()) + " len: "@
        + decimal(s.data().len()) + ", payload: "@ + payload_text(s.data(), alternate)
}

impl<A: Addr> Segment<A> {
    /// The segment as text; the data in hexadecimal when `alternate`, else as UTF-8.
    pub fn to_text(&self, alternate: bool) -> (r: String)
        requires
            self.wf(),
        ensures
            r@ == segment_text(*self, alternate),
    {
        let data = self.payload();
        let mut s = String::from_str("TCP: [");
        s.append(self.addr.to_text().as_str());
        s.append("] flags: ");
        s.append(self.header.flags.to_text().as_str());
        s.append(" len: ");
        s.append(decimal_text(data.len() as u64).as_str());
        s.append(", payload: ");
        s.append(payload_text_of(data, alternate).as_str());
        s
    }
}

} // verus!
