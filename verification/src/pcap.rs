//! Classic PCAP file format: the file header and the per-frame record header.
use crate::bytes::{be32_at, le16_at, le32_at, read_be16, read_be32, read_le16, read_le32, be16_at};
use vstd::prelude::*;

verus! {

/// `std::io::Error`, declared so that the error types below can carry it.
#[verifier::external_type_specification]
#[verifier::external_body]
pub struct ExIoError(std::io::Error);

/// Why a file header was refused.
#[derive(Debug)]
pub enum PcapHeaderError {
    BadMagicNumber(u32),
    Io(std::io::Error),
}

/// Why a frame record could not be read.
#[derive(Debug)]
pub enum PcapFrameError {
    Io(std::io::Error),
}

/// Why a capture could not be read.
#[derive(Debug)]
pub enum PcapError {
    Header(PcapHeaderError),
    Frame(PcapFrameError),
}

/// Byte order of the numbers in a capture.
#[derive(Debug, Clone, Copy, PartialEq, Eq, Structural)]
pub enum Endianess {
    Little,
    Big,
}

/// Resolution of the fractional part of timestamps.
#[derive(Debug, Clone, Copy, PartialEq, Eq, Structural)]
pub enum TimeFormat {
    SecondsAndMicroseconds,
    SecondsAndNanoseconds,
}

pub const PCAP_HEADER_T1_BE: u32 = 0xA1B2C3D4;
pub const PCAP_HEADER_T2_BE: u32 = 0xA1B23C4D;
pub const PCAP_HEADER_T1_LE: u32 = 0xD4C3B2A1;
pub const PCAP_HEADER_T2_LE: u32 = 0x4D3CB2A1;

/// The byte order and time resolution that a magic number (read big-endian)
/// announces, or `None` for any other number.
pub open spec fn magic_format(magic: u32) -> Option<(Endianess, TimeFormat)> {
    if magic == PCAP_HEADER_T1_BE {
        Some((Endianess::Big, TimeFormat::SecondsAndMicroseconds))
    } else if magic == PCAP_HEADER_T2_BE {
        Some((Endianess::Big, TimeFormat::SecondsAndNanoseconds))
    } else if magic == PCAP_HEADER_T1_LE {
        Some((Endianess::Little, TimeFormat::SecondsAndMicroseconds))
    } else if magic == PCAP_HEADER_T2_LE {
        Some((Endianess::Little, TimeFormat::SecondsAndNanoseconds))
    } else {
        None
    }
}

/// The `u16` that `v` holds in byte order `e`; 0 unless `v` has exactly two bytes.
pub open spec fn u16_in(e: Endianess, v: Seq<u8>) -> u16 {
    if v.len() != 2 {
        0
    } else {
        match e {
            Endianess::Big => be16_at(v, 0),
            Endianess::Little => le16_at(v, 0),
        }
    }
}

/// The `u32` that `v` holds in byte order `e`; 0 unless `v` has exactly four bytes.
pub open spec fn u32_in(e: Endianess, v: Seq<u8>) -> u32 {
    if v.len() != 4 {
        0
    } else {
        match e {
            Endianess::Big => be32_at(v, 0),
            Endianess::Little => le32_at(v, 0),
        }
    }
}

impl Endianess {
    /// The byte order and time resolution that the magic number announces.
    pub fn from_magic(magic_number: u32) -> (r: Result<(Endianess, TimeFormat), PcapHeaderError>)
        ensures
            match magic_format(magic_number) {
                Some(f) => r matches Ok(g) && g == f,
                None => r matches Err(PcapHeaderError::BadMagicNumber(v)) && v == magic_number,
            },
    {
        if magic_number == PCAP_HEADER_T1_BE {
            Ok((Endianess::Big, TimeFormat::SecondsAndMicroseconds))
        } else if magic_number == PCAP_HEADER_T2_BE {
            Ok((Endianess::Big, TimeFormat::SecondsAndNanoseconds))
        } else if magic_number == PCAP_HEADER_T1_LE {
            Ok((Endianess::Little, TimeFormat::SecondsAndMicroseconds))
        } else if magic_number == PCAP_HEADER_T2_LE {
            Ok((Endianess::Little, TimeFormat::SecondsAndNanoseconds))
        } else {
            Err(PcapHeaderError::BadMagicNumber(magic_number))
        }
    }

    /// Reads a `u16` in this byte order; 0 unless `v` has exactly two bytes.
    pub fn read_u16(&self, v: &[u8]) -> (r: u16)
        ensures
            r == u16_in(*self, v@),
    {
        if v.len() != 2 {
            return 0;
        }
        match self {
            Endianess::Big => read_be16(v, 0),
            Endianess::Little => read_le16(v, 0),
        }
    }

    /// Reads a `u32` in this byte order; 0 unless `v` has exactly four bytes.
    pub fn read_u32(&self, v: &[u8]) -> (r: u32)
        ensures
            r == u32_in(*self, v@),
    {
        if v.len() != 4 {
            return 0;
        }
        match self {
            Endianess::Big => read_be32(v, 0),
            Endianess::Little => read_le32(v, 0),
        }
    }
}

/// A little-endian number is the big-endian number of the reversed bytes.
pub proof fn lemma_little_is_reversed_big(v: Seq<u8>)
    requires
        v.len() == 4,
    ensures
        u32_in(Endianess::Little, v) == u32_in(Endianess::Big, v.reverse()),
{
}

/// A point in time as seconds and nanoseconds after the Unix epoch, in the form
/// `Duration::new` takes them (nanoseconds may exceed one second).
#[derive(Debug, Clone, Copy, PartialEq, Eq, Structural)]
pub struct Timestamp {
    pub seconds: u64,
    pub nanos: u32,
}

impl TimeFormat {
    /// The time a record's seconds and fraction stand for. Microseconds are scaled
    /// to nanoseconds, which must fit in 32 bits.
    pub fn parse(&self, seconds: u32, fraction: u32) -> (r: Timestamp)
        requires
            *self == TimeFormat::SecondsAndMicroseconds ==> fraction * 1000 <= u32::MAX,
        ensures
            r.seconds == seconds,
            r.nanos == (match *self {
                TimeFormat::SecondsAndNanoseconds => fraction as int,
                TimeFormat::SecondsAndMicroseconds => fraction * 1000,
            }),
    {
        Timestamp {
            seconds: seconds as u64,
            nanos: match self {
                TimeFormat::SecondsAndNanoseconds => fraction,
                TimeFormat::SecondsAndMicroseconds => fraction * 1000,
            },
        }
    }
}

/// A format version.
#[derive(Debug, Clone, Copy, PartialEq, Eq, Structural)]
pub struct Version {
    pub major: u16,
    pub minor: u16,
}

/// The 24-byte header of a capture file.
#[derive(Debug, Clone, Copy, PartialEq, Eq, Structural)]
pub struct PcapHeader {
    pub version: Version,
    pub endianess: Endianess,
    pub ts_format: TimeFormat,
    pub snapshot_len: u32,
    pub fcs_and_link_type: u32,
}

/// Length of the file header.
pub const HEADER_SIZE: usize = 24;

/// Length of a frame record header.
pub const FRAME_HEADER_SIZE: usize = 16;

/// `h` is the header that the bytes `b`, in the byte order `h.endianess`, hold.
pub open spec fn header_decodes(h: PcapHeader, b: Seq<u8>) -> bool {
    &&& magic_format(be32_at(b, 0)) == Some((h.endianess, h.ts_format))
    &&& h.version.major == u16_in(h.endianess, b.subrange(4, 6))
    &&& h.version.minor == u16_in(h.endianess, b.subrange(6, 8))
    &&& h.snapshot_len == u32_in(h.endianess, b.subrange(16, 20))
    &&& h.fcs_and_link_type == u32_in(h.endianess, b.subrange(20, 24))
}

impl PcapHeader {
    /// Decodes the file header: the magic number (read big-endian) gives the byte
    /// order and time resolution of everything else.
    pub fn parse(header_bytes: &[u8; 24]) -> (r: Result<PcapHeader, PcapHeaderError>)
        ensures
            match magic_format(be32_at(header_bytes@, 0)) {
                Some(_) => r matches Ok(h) && header_decodes(h, header_bytes@),
                None => r matches Err(PcapHeaderError::BadMagicNumber(v)) && v == be32_at(header_bytes@, 0),
            },
    {
        let b = header_bytes.as_slice();
        let magic: u32 = read_be32(b, 0);
        let (endianess, ts_format) = match Endianess::from_magic(magic) {
            Ok(f) => f,
            Err(e) => return Err(e),
        };
        Ok(PcapHeader {
            version: Version { major: endianess.read_u16(&b[4..6]), minor: endianess.read_u16(&b[6..8]) },
            snapshot_len: endianess.read_u32(&b[16..20]),
            fcs_and_link_type: endianess.read_u32(&b[20..24]),
            endianess,
            ts_format,
        })
    }
}

/// One captured frame: when it was captured, how many bytes were kept and how
/// long it originally was, and the kept bytes.
pub struct Frame {
    pub timestamp: Timestamp,
    pub captured_len: u32,
    pub original_len: u32,
    pub packet_data: Vec<u8>,
}

/// The fields of a frame record header.
#[derive(Debug, Clone, Copy, PartialEq, Eq, Structural)]
pub struct FrameHeader {
    pub timestamp: Timestamp,
    pub captured_len: u32,
    pub original_len: u32,
}

/// The microsecond fraction of a record header cannot be scaled to nanoseconds in 32 bits.
pub open spec fn frame_header_overflows(b: Seq<u8>, endianess: Endianess, time_format: TimeFormat) -> bool {
    time_format == TimeFormat::SecondsAndMicroseconds && u32_in(endianess, b.subrange(4, 8)) * 1000 > u32::MAX
}

impl Frame {
    /// Decodes a 16-byte record header: seconds, fraction, captured and original length.
    pub fn parse_header(frame_header: &[u8; 16], endianess: &Endianess, time_format: &TimeFormat) -> (r: FrameHeader)
        requires
            !frame_header_overflows(frame_header@, *endianess, *time_format),
        ensures
            r.timestamp.seconds == u32_in(*endianess, frame_header@.subrange(0, 4)),
            r.timestamp.nanos == (match *time_format {
                TimeFormat::SecondsAndNanoseconds => u32_in(*endianess, frame_header@.subrange(4, 8)) as int,
                TimeFormat::SecondsAndMicroseconds => u32_in(*endianess, frame_header@.subrange(4, 8)) * 1000,
            }),
            r.captured_len == u32_in(*endianess, frame_header@.subrange(8, 12)),
            r.original_len == u32_in(*endianess, frame_header@.subrange(12, 16)),
    {
        let b = frame_header.as_slice();
        let seconds: u32 = endianess.read_u32(&b[0..4]);
        let fraction: u32 = endianess.read_u32(&b[4..8]);
        FrameHeader {
            timestamp: time_format.parse(seconds, fraction),
            captured_len: endianess.read_u32(&b[8..12]),
            original_len: endianess.read_u32(&b[12..16]),
        }
    }

    /// Whether decoding the record header would overflow the nanoseconds.
    pub fn header_overflows(frame_header: &[u8; 16], endianess: &Endianess, time_format: &TimeFormat) -> (r: bool)
        ensures
            r == frame_header_overflows(frame_header@, *endianess, *time_format),
    {
        let fraction: u32 = endianess.read_u32(&frame_header.as_slice()[4..8]);
        *time_format == TimeFormat::SecondsAndMicroseconds && fraction > 4294967
    }
}

} // verus!
