//! Network layer: IPv4, IPv6 and ARP packets, and IP fragment reassembly.
use crate::ethernet::EtherType;
use crate::transport;
use crate::text::{decimal, decimal_text, hexadecimal, hexadecimal_text};
use frag::{DatagramReassembler, Fragmentable};
use vstd::prelude::*;

pub mod v4;
pub mod v6;
pub mod frag;
pub mod arp;

verus! {

/// Why a network-layer packet was refused.
#[derive(Debug, PartialEq, Eq, Structural)]
pub enum Error {
    /// Got this many bytes, needed that many.
    Truncated(usize, usize),
    UnsupportedArpPacket(usize),
    MalformedIpv4Header,
    MalformedIpv6Header,
    MalformedArpPacket,
    UnknownEtherType(u16),
}

/// Protocol numbers shared by the IPv4 protocol field and the IPv6 next-header chain.
pub const NH_HOP_BY_HOP: u8 = 0;
pub const NH_ICMP_V4: u8 = 1;
pub const NH_IGMP: u8 = 2;
pub const NH_TCP: u8 = 6;
pub const NH_UDP: u8 = 17;
pub const V6_IN_V4_ENCAP: u8 = 41;
pub const NH_ROUTING: u8 = 43;
pub const NH_FRAGMENT: u8 = 44;
pub const NH_ESP: u8 = 50;
pub const NH_AH: u8 = 51;
pub const NH_ICMP_V6: u8 = 58;
pub const NH_NO_NEXT: u8 = 59;
pub const NH_DEST_OPTS: u8 = 60;

/// The protocol carried above IP.
#[derive(Debug, Clone, Copy, PartialEq, Eq, Structural)]
pub enum Proto {
    ICMPv4,
    IGMP,
    TCP,
    UDP,
    ENCAP,
    ICMPv6,
    Unknown(u8),
}

/// The protocol that a protocol number names.
pub open spec fn proto_of(v: u8) -> Proto {
    if v == NH_ICMP_V4 {
        Proto::ICMPv4
    } else if v == NH_IGMP {
        Proto::IGMP
    } else if v == NH_TCP {
        Proto::TCP
    } else if v == NH_UDP {
        Proto::UDP
    } else if v == V6_IN_V4_ENCAP {
        Proto::ENCAP
    } else if v == NH_ICMP_V6 {
        Proto::ICMPv6
    } else {
        Proto::Unknown(v)
    }
}

/// The protocol number of a protocol.
pub open spec fn proto_number(p: Proto) -> u8 {
    match p {
        Proto::ICMPv4 => NH_ICMP_V4,
        Proto::IGMP => NH_IGMP,
        Proto::TCP => NH_TCP,
        Proto::UDP => NH_UDP,
        Proto::ENCAP => V6_IN_V4_ENCAP,
        Proto::ICMPv6 => NH_ICMP_V6,
        Proto::Unknown(v) => v,
    }
}

/// A number that tells every protocol apart: the protocol number of a named one,
/// 256 plus the number for `Unknown`.
pub open spec fn proto_key(p: Proto) -> u16 {
    match p {
        Proto::Unknown(v) => (256 + v) as u16,
        _ => proto_number(p) as u16,
    }
}

/// Different protocols have different keys.
pub proof fn lemma_proto_key_distinct(p: Proto, q: Proto)
    ensures
        proto_key(p) == proto_key(q) ==> p == q,
{
}

impl From<u8> for Proto {
    fn from(v: u8) -> (r: Self) {
        if v == NH_ICMP_V4 {
            Proto::ICMPv4
        } else if v == NH_IGMP {
            Proto::IGMP
        } else if v == NH_TCP {
            Proto::TCP
        } else if v == NH_UDP {
            Proto::UDP
        } else if v == V6_IN_V4_ENCAP {
            Proto::ENCAP
        } else if v == NH_ICMP_V6 {
            Proto::ICMPv6
        } else {
            Proto::Unknown(v)
        }
    }
}

impl vstd::std_specs::convert::FromSpecImpl<u8> for Proto {
    open spec fn obeys_from_spec() -> bool {
        true
    }

    open spec fn from_spec(v: u8) -> Self {
        proto_of(v)
    }
}

impl Proto {
    /// The protocol number this protocol stands for.
    pub fn number(self) -> (r: u8)
        ensures
            r == proto_number(self),
    {
        match self {
            Proto::ICMPv4 => NH_ICMP_V4,
            Proto::IGMP => NH_IGMP,
            Proto::TCP => NH_TCP,
            Proto::UDP => NH_UDP,
            Proto::ENCAP => V6_IN_V4_ENCAP,
            Proto::ICMPv6 => NH_ICMP_V6,
            Proto::Unknown(v) => v,
        }
    }

    /// The protocol's key: its number when it is named, 256 plus the number for `Unknown`.
    pub fn key(self) -> (r: u16)
        ensures
            r == proto_key(self),
    {
        match self {
            Proto::Unknown(v) => 256 + v as u16,
            _ => self.number() as u16,
        }
    }
}

/// Naming a protocol by its number and reading the number back gives the number.
pub proof fn lemma_proto_number_roundtrip(v: u8)
    ensures
        proto_number(proto_of(v)) == v,
{
}

/// An IP address family's host address. Its `host_key` is the address read as
/// one big-endian unsigned number, so that keys order addresses as their bytes do.
pub trait Addr: Copy + Sized {
    spec fn host_key(&self) -> u128;

    /// How the address is written.
    spec fn host_text(&self) -> Seq<char>;

    fn key(&self) -> (r: u128)
        ensures
            r == self.host_key(),
    ;

    fn to_text(&self) -> (r: String)
        ensures
            r@ == self.host_text(),
    ;
}

/// An IP version, tying it to its address type.
pub trait Version {
    type Addr: Addr;
}

/// A decoded network-layer packet.
pub enum NetworkPacket<'a> {
    Ipv4(v4::Packet<'a>),
    Ipv6(v6::Packet<'a>),
    Arp(arp::Packet),
}

impl<'a> NetworkPacket<'a> {
    /// Decodes the payload of a frame by its EtherType: IPv4, IPv6 and ARP are
    /// decoded, any other type is refused.
    pub fn parse(ether_type: EtherType, payload: &'a [u8]) -> (r: Result<Self, Error>)
        requires
            ether_type == EtherType::Ipv6 ==> !v6::parse_panics(payload@),
        ensures
            ether_type == EtherType::Ipv4 ==> match r {
                Ok(NetworkPacket::Ipv4(p)) => v4::parse_error(payload@).is_none() && v4::decodes(p, payload@),
                Ok(_) => false,
                Err(e) => v4::parse_error(payload@) == Some(e),
            },
            ether_type == EtherType::Ipv6 ==> match r {
                Ok(NetworkPacket::Ipv6(p)) => v6::decodes(p, payload@) && p.payload@.len() <= 65575,
                Ok(_) => false,
                Err(e) => v6::parse_result(payload@) == Err::<(Proto, Option<v6::FragmentationMetadata>, int, int), Error>(e),
            },
            ether_type == EtherType::Arp ==> match r {
                Ok(NetworkPacket::Arp(p)) => arp::parse_error(payload@).is_none() && arp::decodes(p, payload@),
                Ok(_) => false,
                Err(e) => arp::parse_error(payload@) == Some(e),
            },
            ether_type matches EtherType::Other(v) ==> r matches Err(Error::UnknownEtherType(w)) && w == v,
    {
        match ether_type {
            EtherType::Ipv4 => match v4::Packet::from_bytes(payload) {
                Ok(p) => Ok(NetworkPacket::Ipv4(p)),
                Err(e) => Err(e),
            },
            EtherType::Ipv6 => match v6::Packet::from_bytes(payload) {
                Ok(p) => Ok(NetworkPacket::Ipv6(p)),
                Err(e) => Err(e),
            },
            EtherType::Arp => match arp::Packet::from_bytes(payload) {
                Ok(p) => Ok(NetworkPacket::Arp(p)),
                Err(e) => Err(e),
            },
            EtherType::Other(v) => Err(Error::UnknownEtherType(v)),
        }
    }
}

/// An IP packet of either version.
pub enum IpPacket<'a> {
    Ipv4(v4::Packet<'a>),
    Ipv6(v6::Packet<'a>),
}

/// A whole datagram of either version.
pub enum Reassembled {
    Ipv4(frag::Datagram<v4::Addr>),
    Ipv6(frag::Datagram<v6::Addr>),
}

/// `Reassembled` as plain values.
pub enum ReassembledModel {
    Ipv4(frag::DatagramId<v4::Addr>, Seq<u8>),
    Ipv6(frag::DatagramId<v6::Addr>, Seq<u8>),
}

impl View for Reassembled {
    type V = ReassembledModel;

    open spec fn view(&self) -> ReassembledModel {
        match self {
            Reassembled::Ipv4(d) => ReassembledModel::Ipv4(d.id, d.payload@),
            Reassembled::Ipv6(d) => ReassembledModel::Ipv6(d.id, d.payload@),
        }
    }
}

/// What one IP packet did to a network reassembler.
pub enum ReassemblyResult {
    /// A whole datagram: unfragmented, or complete.
    Ready(Reassembled),
    Incomplete,
    Rejected(frag::Error),
    NotIp,
}

/// `ReassemblyResult` as plain values.
pub enum NetOutcome {
    Ready(ReassembledModel),
    Incomplete,
    Rejected(frag::Error),
    NotIp,
}

impl View for ReassemblyResult {
    type V = NetOutcome;

    open spec fn view(&self) -> NetOutcome {
        match self {
            ReassemblyResult::Ready(d) => NetOutcome::Ready(d@),
            ReassemblyResult::Incomplete => NetOutcome::Incomplete,
            ReassemblyResult::Rejected(e) => NetOutcome::Rejected(*e),
            ReassemblyResult::NotIp => NetOutcome::NotIp,
        }
    }
}

/// An IPv4 reassembly outcome as a network outcome.
pub open spec fn lift_v4(o: frag::ReassemblyOutcome<v4::Addr>) -> NetOutcome {
    match o {
        frag::ReassemblyOutcome::Complete(id, d) => NetOutcome::Ready(ReassembledModel::Ipv4(id, d)),
        frag::ReassemblyOutcome::NotFragmented(id, d) => NetOutcome::Ready(ReassembledModel::Ipv4(id, d)),
        frag::ReassemblyOutcome::Incomplete => NetOutcome::Incomplete,
        frag::ReassemblyOutcome::Rejected(e) => NetOutcome::Rejected(e),
    }
}

/// An IPv6 reassembly outcome as a network outcome.
pub open spec fn lift_v6(o: frag::ReassemblyOutcome<v6::Addr>) -> NetOutcome {
    match o {
        frag::ReassemblyOutcome::Complete(id, d) => NetOutcome::Ready(ReassembledModel::Ipv6(id, d)),
        frag::ReassemblyOutcome::NotFragmented(id, d) => NetOutcome::Ready(ReassembledModel::Ipv6(id, d)),
        frag::ReassemblyOutcome::Incomplete => NetOutcome::Incomplete,
        frag::ReassemblyOutcome::Rejected(e) => NetOutcome::Rejected(e),
    }
}

/// What one IP packet does to the reassemblers `old`, giving `new` and outcome
/// `out`: the reassembler of its version takes it (see `frag::reassembly_outcome`
/// and `frag::reassembly_table`), the other stays as it was.
pub open spec fn net_step(old: &NetworkReassembler, new: &NetworkReassembler, packet: &IpPacket, out: NetOutcome) -> bool {
    match packet {
        IpPacket::Ipv4(p) => {
            let o = old.v4_part();
            let n = new.v4_part();
            &&& out == lift_v4(frag::reassembly_outcome(o.entries(), o.max_fragments(), p.fragment_key_spec(), p.id_spec(), p.payload_spec()))
            &&& frag::reassembly_table(o.entries(), n.entries(), o.order(), o.capacity(), o.max_fragments(), p.fragment_key_spec(), p.payload_spec())
            &&& n.order() == frag::reassembly_order(o.entries(), o.order(), o.capacity(), o.max_fragments(), p.fragment_key_spec(), p.payload_spec())
            &&& n.capacity() == o.capacity() && n.max_fragments() == o.max_fragments()
            &&& new.v6_part() == old.v6_part()
        },
        IpPacket::Ipv6(p) => {
            let o = old.v6_part();
            let n = new.v6_part();
            &&& out == lift_v6(frag::reassembly_outcome(o.entries(), o.max_fragments(), p.fragment_key_spec(), p.id_spec(), p.payload_spec()))
            &&& frag::reassembly_table(o.entries(), n.entries(), o.order(), o.capacity(), o.max_fragments(), p.fragment_key_spec(), p.payload_spec())
            &&& n.order() == frag::reassembly_order(o.entries(), o.order(), o.capacity(), o.max_fragments(), p.fragment_key_spec(), p.payload_spec())
            &&& n.capacity() == o.capacity() && n.max_fragments() == o.max_fragments()
            &&& new.v4_part() == old.v4_part()
        },
    }
}

/// The IP reassemblers of both versions.
pub struct NetworkReassembler {
    v4: DatagramReassembler,
    v6: DatagramReassembler,
}

impl NetworkReassembler {
    /// The IPv4 reassembler.
    pub closed spec fn v4_part(&self) -> DatagramReassembler {
        self.v4
    }

    /// The IPv6 reassembler.
    pub closed spec fn v6_part(&self) -> DatagramReassembler {
        self.v6
    }

    /// Both reassemblers are well formed.
    pub open spec fn wf(&self) -> bool {
        self.v4_part().wf() && self.v6_part().wf()
    }

    /// Puts two reassemblers together.
    pub fn with_reassemblers(v4: DatagramReassembler, v6: DatagramReassembler) -> (r: Self)
        ensures
            r.v4_part() == v4,
            r.v6_part() == v6,
    {
        NetworkReassembler { v4, v6 }
    }

    /// Two reassemblers with the default limits.
    pub fn new() -> (r: Self)
        ensures
            r.wf(),
            r.v4_part().entries() == Map::<crate::cache::FragCacheKey, frag::BufferModel>::empty(),
            r.v6_part().entries() == Map::<crate::cache::FragCacheKey, frag::BufferModel>::empty(),
            r.v4_part().capacity() == 1000 && r.v6_part().capacity() == 1000,
            r.v4_part().max_fragments() == 500 && r.v6_part().max_fragments() == 500,
    {
        Self::with_reassemblers(DatagramReassembler::new(), DatagramReassembler::new())
    }

    /// Hands a packet to the reassembler of its version.
    pub fn process(&mut self, packet: &IpPacket) -> (r: ReassemblyResult)
        requires
            old(self).wf(),
            packet matches IpPacket::Ipv4(p) ==> p.payload@.len() <= frag::MAX_FRAGMENT_BYTES,
            packet matches IpPacket::Ipv6(p) ==> p.payload@.len() <= frag::MAX_FRAGMENT_BYTES,
        ensures
            final(self).wf(),
            net_step(old(self), final(self), packet, r@),
    {
        match packet {
            IpPacket::Ipv4(p) => {
                let r = self.v4.process(p);
                Self::map_v4(r)
            },
            IpPacket::Ipv6(p) => {
                let r = self.v6.process(p);
                Self::map_v6(r)
            },
        }
    }

    /// An IPv4 reassembly result as a network result: whole datagrams are ready.
    fn map_v4(r: frag::ReassemblyResult<v4::Addr>) -> (out: ReassemblyResult)
        ensures
            out@ == lift_v4(r@),
    {
        match r {
            frag::ReassemblyResult::Complete(d) => ReassemblyResult::Ready(Reassembled::Ipv4(d)),
            frag::ReassemblyResult::NotFragmented(d) => ReassemblyResult::Ready(Reassembled::Ipv4(d)),
            frag::ReassemblyResult::Incomplete => ReassemblyResult::Incomplete,
            frag::ReassemblyResult::Rejected(e) => ReassemblyResult::Rejected(e),
        }
    }

    /// An IPv6 reassembly result as a network result: whole datagrams are ready.
    fn map_v6(r: frag::ReassemblyResult<v6::Addr>) -> (out: ReassemblyResult)
        ensures
            out@ == lift_v6(r@),
    {
        match r {
            frag::ReassemblyResult::Complete(d) => ReassemblyResult::Ready(Reassembled::Ipv6(d)),
            frag::ReassemblyResult::NotFragmented(d) => ReassemblyResult::Ready(Reassembled::Ipv6(d)),
            frag::ReassemblyResult::Incomplete => ReassemblyResult::Incomplete,
            frag::ReassemblyResult::Rejected(e) => ReassemblyResult::Rejected(e),
        }
    }
}

impl Default for NetworkReassembler {
    fn default() -> (r: Self)
        ensures
            r.wf(),
            r.v4_part().entries() == Map::<crate::cache::FragCacheKey, frag::BufferModel>::empty(),
            r.v6_part().entries() == Map::<crate::cache::FragCacheKey, frag::BufferModel>::empty(),
            r.v4_part().capacity() == 1000 && r.v6_part().capacity() == 1000,
            r.v4_part().max_fragments() == 500 && r.v6_part().max_fragments() == 500,
    {
        Self::new()
    }
}

impl Reassembled {
    /// Decodes the transport segment a datagram carries.
    pub fn parse_transport(self) -> (r: Result<transport::Packet, transport::Error>)
        ensures
            match self {
                Reassembled::Ipv4(d) => match r {
                    Ok(transport::Packet::Ipv4(s)) => transport::segment_parse(d.id.next_protocol, d.id.src, d.id.dst, d.payload@, Ok(s)),
                    Ok(_) => false,
                    Err(e) => transport::segment_parse(d.id.next_protocol, d.id.src, d.id.dst, d.payload@, Err(e)),
                },
                Reassembled::Ipv6(d) => match r {
                    Ok(transport::Packet::Ipv6(s)) => transport::segment_parse(d.id.next_protocol, d.id.src, d.id.dst, d.payload@, Ok(s)),
                    Ok(_) => false,
                    Err(e) => transport::segment_parse(d.id.next_protocol, d.id.src, d.id.dst, d.payload@, Err(e)),
                },
            },
    {
        match self {
            Reassembled::Ipv4(v) => match transport::Segment::parse(v.id.next_protocol, v.id.src, v.id.dst, v.payload) {
                Ok(s) => Ok(transport::Packet::Ipv4(s)),
                Err(e) => Err(e),
            },
            Reassembled::Ipv6(v) => match transport::Segment::parse(v.id.next_protocol, v.id.src, v.id.dst, v.payload) {
                Ok(s) => Ok(transport::Packet::Ipv6(s)),
                Err(e) => Err(e),
            },
        }
    }
}

/// The message of a network-layer error; an EtherType is written in hexadecimal.
pub open spec fn error_text(e: Error) -> Seq<char> {
    match e {
        Error::Truncated(got, want) => "truncated packet: got "@ + decimal(got as nat) + " bytes, expected "@
            + decimal(want as nat),
        Error::UnsupportedArpPacket(n) => "arp packet has invalid or unsupported size: "@ + decimal(n as nat),
        Error::MalformedIpv4Header => "malformed ipv4 header"@,
        Error::MalformedIpv6Header => "malformed ipv6 header"@,
        Error::MalformedArpPacket => "malformed arp packet"@,
        Error::UnknownEtherType(v) => "unknown ether type: "@ + hexadecimal(v as nat),
    }
}

/// The name of a protocol; an unknown one is `Unknown(` its number `)`.
pub open spec fn proto_text(p: Proto) -> Seq<char> {
    match p {
        Proto::ICMPv4 => "ICMPv4"@,
        Proto::IGMP => "IGMP"@,
        Proto::TCP => "TCP"@,
        Proto::UDP => "UDP"@,
        Proto::ENCAP => "ENCAP"@,
        Proto::ICMPv6 => "ICMPv6"@,
        Proto::Unknown(v) => "Unknown("@ + decimal(v as nat) + ")"@,
    }
}

impl Error {
    /// The error's message.
    pub fn message(&self) -> (r: String)
        ensures
            r@ == error_text(*self),
    {
        match self {
            Error::Truncated(got, want) => {
                let mut s = String::from_str("truncated packet: got ");
                s.append(decimal_text(*got as u64).as_str());
                s.append(" bytes, expected ");
                s.append(decimal_text(*want as u64).as_str());
                s
            },
            Error::UnsupportedArpPacket(n) => {
                let mut s = String::from_str("arp packet has invalid or unsupported size: ");
                s.append(decimal_text(*n as u64).as_str());
                s
            },
            Error::MalformedIpv4Header => String::from_str("malformed ipv4 header"),
            Error::MalformedIpv6Header => String::from_str("malformed ipv6 header"),
            Error::MalformedArpPacket => String::from_str("malformed arp packet"),
            Error::UnknownEtherType(v) => {
                let mut s = String::from_str("unknown ether type: ");
                s.append(hexadecimal_text(*v as u64).as_str());
                s
            },
        }
    }
}

impl Proto {
    /// The protocol's name.
    pub fn to_text(self) -> (r: String)
        ensures
            r@ == proto_text(self),
    {
        match self {
            Proto::ICMPv4 => String::from_str("ICMPv4"),
            Proto::IGMP => String::from_str("IGMP"),
            Proto::TCP => String::from_str("TCP"),
            Proto::UDP => String::from_str("UDP"),
            Proto::ENCAP => String::from_str("ENCAP"),
            Proto::ICMPv6 => String::from_str("ICMPv6"),
            Proto::Unknown(v) => {
                let mut s = String::from_str("Unknown(");
                s.append(decimal_text(v as u64).as_str());
                s.append(")");
                s
            },
        }
    }
}

/// A network-layer packet of any kind.
pub open spec fn network_packet_text(p: NetworkPacket) -> Seq<char> {
    match p {
        NetworkPacket::Arp(v) => arp::packet_text(v),
        NetworkPacket::Ipv4(v) => v4::packet_text(v),
        NetworkPacket::Ipv6(v) => v6::packet_text(v),
    }
}

/// A whole datagram of either version.
pub open spec fn reassembled_text(d: Reassembled) -> Seq<char> {
    match d {
        Reassembled::Ipv4(v) => frag::datagram_text(v),
        Reassembled::Ipv6(v) => frag::datagram_text(v),
    }
}

impl<'a> NetworkPacket<'a> {
    /// The packet as text.
    pub fn to_text(&self) -> (r: String)
        ensures
            r@ == network_packet_text(*self),
    {
        match self {
            NetworkPacket::Arp(v) => v.to_text(),
            NetworkPacket::Ipv4(v) => v.to_text(),
            NetworkPacket::Ipv6(v) => v.to_text(),
        }
    }
}

impl Reassembled {
    /// The datagram as text.
    pub fn to_text(&self) -> (r: String)
        ensures
            r@ == reassembled_text(*self),
    {
        match self {
            Reassembled::Ipv4(v) => v.to_text(),
            Reassembled::Ipv6(v) => v.to_text(),
        }
    }
}

} // verus!
