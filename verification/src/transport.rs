//! Transport layer: TCP and UDP segments, and TCP stream reassembly.
use crate::ip;
use crate::ip::Addr;
use crate::text::{decimal, decimal_text};
use vstd::prelude::*;

pub mod frag;
pub mod icmp;
pub mod tcp;
pub mod udp;

pub use frag::{StreamEvent, TcpStreamReassembler};

verus! {

/// Why a transport-layer segment was refused.
#[derive(Debug, PartialEq, Eq, Structural)]
pub enum Error {
    Truncated(ip::Error),
    /// The bytes at hand, and the length that the header announced.
    LengthInconsistent(usize, usize),
    Unsupported(ip::Proto),
}

impl From<ip::Error> for Error {
    fn from(e: ip::Error) -> (r: Self) {
        Error::Truncated(e)
    }
}

impl vstd::std_specs::convert::FromSpecImpl<ip::Error> for Error {
    open spec fn obeys_from_spec() -> bool {
        true
    }

    open spec fn from_spec(e: ip::Error) -> Self {
        Error::Truncated(e)
    }
}

/// A host address and port.
#[derive(Debug, Clone, Copy)]
pub struct SockAddr<A: Addr> {
    pub host: A,
    pub port: u16,
}

impl<A: Addr> SockAddr<A> {
    /// The endpoint as plain numbers: the host's key and the port.
    pub open spec fn endpoint(self) -> (u128, u16) {
        (self.host.host_key(), self.port)
    }

    /// Computes `endpoint`.
    pub fn endpoint_key(&self) -> (r: (u128, u16))
        ensures
            r == self.endpoint(),
    {
        (self.host.key(), self.port)
    }
}

/// Source and destination of a segment.
#[derive(Debug, Clone, Copy)]
pub struct AddrPair<A: Addr> {
    pub src: SockAddr<A>,
    pub dst: SockAddr<A>,
}

/// A decoded transport segment of one address family.
pub enum Segment<A: Addr> {
    Tcp(tcp::Segment<A>),
    Udp(udp::Segment<A>),
    Icmp(icmp::Message),
}

/// A decoded transport segment of either address family.
pub enum Packet {
    Ipv4(Segment<ip::v4::Addr>),
    Ipv6(Segment<ip::v6::Addr>),
}

/// `r` is what decoding `payload`, carried as `proto` from `src` to `dst`, gives:
/// TCP and UDP are decoded, every other protocol is refused as unsupported.
pub open spec fn segment_parse<A: Addr>(proto: ip::Proto, src: A, dst: A, payload: Seq<u8>, r: Result<Segment<A>, Error>) -> bool {
    if proto == ip::Proto::UDP {
        match r {
            Ok(Segment::Udp(s)) => udp::parse_error(payload).is_none() && s.decodes(src, dst, payload),
            Ok(_) => false,
            Err(e) => udp::parse_error(payload) == Some(e),
        }
    } else if proto == ip::Proto::TCP {
        match r {
            Ok(Segment::Tcp(s)) => tcp::parse_error(payload).is_none() && s.decodes(src, dst, payload),
            Ok(_) => false,
            Err(e) => tcp::parse_error(payload) == Some(e),
        }
    } else {
        r == Err::<Segment<A>, Error>(Error::Unsupported(proto))
    }
}

impl<A: Addr> Segment<A> {
    /// Decodes the payload of an IP datagram carrying `proto`: TCP and UDP are
    /// decoded, every other protocol is refused as unsupported.
    pub fn parse(proto: ip::Proto, src: A, dst: A, payload: Vec<u8>) -> (r: Result<Self, Error>)
        ensures
            segment_parse(proto, src, dst, payload@, r),
    {
        match proto {
            ip::Proto::UDP => match udp::Segment::from_ip_packet(src, dst, payload) {
                Ok(s) => Ok(Segment::Udp(s)),
                Err(e) => Err(e),
            },
            ip::Proto::TCP => match tcp::Segment::from_ip_packet(src, dst, payload) {
                Ok(s) => Ok(Segment::Tcp(s)),
                Err(e) => Err(e),
            },
            v => Err(Error::Unsupported(v)),
        }
    }
}

/// A host and port: `host:port`.
pub open spec fn sock_addr_text<A: Addr>(s: SockAddr<A>) -> Seq<char> {
    s.host.host_text() + ":"@ + decimal(s.port as nat)
}

/// A source and destination: `src -> dst`.
pub open spec fn addr_pair_text<A: Addr>(p: AddrPair<A>) -> Seq<char> {
    sock_addr_text(p.src) + " -> "@ + sock_addr_text(p.dst)
}

/// The message of a transport-layer error.
pub open spec fn error_text(e: Error) -> Seq<char> {
    match e {
        Error::Truncated(e) => "transport: "@ + ip::error_text(e),
        Error::LengthInconsistent(a, b) => "inconsistent payload size: expect "@ + decimal(a as nat) + ", got "@
            + decimal(b as nat),
        Error::Unsupported(p) => "transport proto not supported: "@ + ip::proto_text(p),
    }
}

/// The data range of a segment lies within its bytes.
pub open spec fn segment_wf<A: Addr>(s: Segment<A>) -> bool {
    match s {
        Segment::Tcp(t) => t.wf(),
        Segment::Udp(u) => u.data_start() <= u.data_end() <= u.bytes().len(),
        Segment::Icmp(_) => true,
    }
}

/// A segment of either protocol; ICMP is not decoded.
pub open spec fn segment_text<A: Addr>(s: Segment<A>, alternate: bool) -> Seq<char> {
    match s {
        Segment::Tcp(t) => tcp::segment_text(t, alternate),
        Segment::Udp(u) => udp::segment_text(u, alternate),
        Segment::Icmp(_) => "ICMP not implemented yet"@,
    }
}

/// A transport packet of either address family.
pub open spec fn packet_text(p: Packet, alternate: bool) -> Seq<char> {
    match p {
        Packet::Ipv4(s) => segment_text(s, alternate),
        Packet::Ipv6(s) => segment_text(s, alternate),
    }
}

/// The data range of the packet's segment lies within its bytes.
pub open spec fn packet_wf(p: Packet) -> bool {
    match p {
        Packet::Ipv4(s) => segment_wf(s),
        Packet::Ipv6(s) => segment_wf(s),
    }
}

impl<A: Addr> SockAddr<A> {
    /// `host:port`.
    pub fn to_text(&self) -> (r: String)
        ensures
            r@ == sock_addr_text(*self),
    {
        let mut s = self.host.to_text();
        s.append(":");
        s.append(decimal_text(self.port as u64).as_str());
        s
    }
}

impl<A: Addr> AddrPair<A> {
    /// `src -> dst`.
    pub fn to_text(&self) -> (r: String)
        ensures
            r@ == addr_pair_text(*self),
    {
        let mut s = self.src.to_text();
        s.append(" -> ");
        s.append(self.dst.to_text().as_str());
        s
    }
}

impl Error {
    /// The error's message.
    pub fn message(&self) -> (r: String)
        ensures
            r@ == error_text(*self),
    {
        match self {
            Error::Truncated(e) => {
                let mut s = String::from_str("transport: ");
                s.append(e.message().as_str());
                s
            },
            Error::LengthInconsistent(a, b) => {
                let mut s = String::from_str("inconsistent payload size: expect ");
                s.append(decimal_text(*a as u64).as_str());
                s.append(", got ");
                s.append(decimal_text(*b as u64).as_str());
                s
            },
            Error::Unsupported(p) => {
                let mut s = String::from_str("transport proto not supported: ");
                s.append(p.to_text().as_str());
                s
            },
        }
    }
}

impl<A: Addr> Segment<A> {
    /// The segment as text; the payload in hexadecimal when `alternate`, else as UTF-8.
    pub fn to_text(&self, alternate: bool) -> (r: String)
        requires
            segment_wf(*self),
        ensures
            r@ == segment_text(*self, alternate),
    {
        match self {
            Segment::Tcp(t) => t.to_text(alternate),
            Segment::Udp(u) => u.to_text(alternate),
            Segment::Icmp(_) => String::from_str("ICMP not implemented yet"),
        }
    }
}

impl Packet {
    /// The packet's segment as text.
    pub fn to_text(&self, alternate: bool) -> (r: String)
        requires
            packet_wf(*self),
        ensures
            r@ == packet_text(*self, alternate),
    {
        match self {
            Packet::Ipv4(s) => s.to_text(alternate),
            Packet::Ipv6(s) => s.to_text(alternate),
        }
    }
}

} // verus!
