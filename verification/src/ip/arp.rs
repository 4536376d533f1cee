//! ARP packets for Ethernet and IPv4.
use super::{v4, Error};
use crate::bytes::{be16_at, read_be16};
use crate::ethernet::{ether_type_of, ether_type_text, EtherType, MacAddress};
use vstd::prelude::*;

verus! {

/// Length of an ARP packet for Ethernet and IPv4.
pub const ARP_PACKET_BYTES: usize = 28;

/// The ARP operation.
#[derive(Debug, Clone, Copy, PartialEq, Eq, Structural)]
pub enum ArpOperation {
    Request,
    Reply,
    Unknown,
}

/// The operation that an operation code names.
pub open spec fn operation_of(v: u16) -> ArpOperation {
    if v == 1 {
        ArpOperation::Request
    } else if v == 2 {
        ArpOperation::Reply
    } else {
        ArpOperation::Unknown
    }
}

impl From<u16> for ArpOperation {
    fn from(value: u16) -> (r: Self) {
        if value == 1 {
            ArpOperation::Request
        } else if value == 2 {
            ArpOperation::Reply
        } else {
            ArpOperation::Unknown
        }
    }
}

impl vstd::std_specs::convert::FromSpecImpl<u16> for ArpOperation {
    open spec fn obeys_from_spec() -> bool {
        true
    }

    open spec fn from_spec(value: u16) -> Self {
        operation_of(value)
    }
}

/// The addresses of an ARP packet: decoded for Ethernet and IPv4, left raw otherwise.
#[derive(Debug, Clone, Copy)]
pub enum Addresses {
    EthernetIpv4 {
        sender_hw_addr: MacAddress,
        target_hw_addr: MacAddress,
        sender_proto_addr: v4::Addr,
        target_proto_addr: v4::Addr,
    },
    Raw,
}

/// An ARP packet.
pub struct Packet {
    pub operation: ArpOperation,
    pub protocol_type: EtherType,
    pub addresses: Addresses,
}

/// The error that decoding `s` as an ARP packet gives, or `None` where it succeeds.
/// Only packets of exactly 28 bytes are taken; for IPv4 the address lengths must
/// be 6 and 4.
pub open spec fn parse_error(s: Seq<u8>) -> Option<Error> {
    if s.len() == 28 {
        if ether_type_of(be16_at(s, 2)) == EtherType::Ipv4 && (s[4] != 6 || s[5] != 4) {
            Some(Error::MalformedArpPacket)
        } else {
            None
        }
    } else if s.len() < 28 {
        Some(Error::Truncated(s.len() as usize, 28))
    } else {
        Some(Error::UnsupportedArpPacket(s.len() as usize))
    }
}

/// `p` is the packet that `s` decodes to.
pub open spec fn decodes(p: Packet, s: Seq<u8>) -> bool {
    &&& p.operation == operation_of(be16_at(s, 6))
    &&& p.protocol_type == ether_type_of(be16_at(s, 2))
    &&& if p.protocol_type == EtherType::Ipv4 {
        p.addresses matches Addresses::EthernetIpv4 { sender_hw_addr, target_hw_addr, sender_proto_addr, target_proto_addr }
            && sender_hw_addr.0@ == s.subrange(8, 14)
            && sender_proto_addr.0@ == s.subrange(14, 18)
            && target_hw_addr.0@ == s.subrange(18, 24)
            && target_proto_addr.0@ == s.subrange(24, 28)
    } else {
        p.addresses is Raw
    }
}

fn mac_from(s: &[u8], i: usize) -> (r: MacAddress)
    requires
        i + 6 <= s@.len(),
    ensures
        r.0@ == s@.subrange(i as int, i + 6),
{
    let r = MacAddress([s[i], s[i + 1], s[i + 2], s[i + 3], s[i + 4], s[i + 5]]);
    assert(r.0@ =~= s@.subrange(i as int, i + 6));
    r
}

fn ipv4_from(s: &[u8], i: usize) -> (r: v4::Addr)
    requires
        i + 4 <= s@.len(),
    ensures
        r.0@ == s@.subrange(i as int, i + 4),
{
    let r = v4::Addr([s[i], s[i + 1], s[i + 2], s[i + 3]]);
    assert(r.0@ =~= s@.subrange(i as int, i + 4));
    r
}

impl Packet {
    /// Decodes an ARP packet; see `parse_error` and `decodes`.
    pub fn from_bytes(payload: &[u8]) -> (r: Result<Packet, Error>)
        ensures
            match r {
                Ok(p) => parse_error(payload@).is_none() && decodes(p, payload@),
                Err(e) => parse_error(payload@) == Some(e),
            },
    {
        let len: usize = payload.len();
        if len == ARP_PACKET_BYTES {
            let protocol_type: u16 = read_be16(payload, 2);
            let operation: u16 = read_be16(payload, 6);
            let addresses = match EtherType::from(protocol_type) {
                EtherType::Ipv4 => {
                    let hardware_len: u8 = payload[4];
                    let protocol_len: u8 = payload[5];
                    if hardware_len != 6 || protocol_len != 4 {
                        return Err(Error::MalformedArpPacket);
                    }
                    Addresses::EthernetIpv4 {
                        sender_hw_addr: mac_from(payload, 8),
                        sender_proto_addr: ipv4_from(payload, 14),
                        target_hw_addr: mac_from(payload, 18),
                        target_proto_addr: ipv4_from(payload, 24),
                    }
                },
                _ => Addresses::Raw,
            };
            Ok(Packet { operation: ArpOperation::from(operation), protocol_type: EtherType::from(protocol_type), addresses })
        } else if len < ARP_PACKET_BYTES {
            Err(Error::Truncated(len, ARP_PACKET_BYTES))
        } else {
            Err(Error::UnsupportedArpPacket(len))
        }
    }
}

/// The name of an operation.
pub open spec fn operation_text(op: ArpOperation) -> Seq<char> {
    match op {
        ArpOperation::Request => "Request"@,
        ArpOperation::Reply => "Reply"@,
        ArpOperation::Unknown => "Unknown"@,
    }
}

/// A packet: its protocol addresses when they are IPv4, its operation and protocol.
pub open spec fn packet_text(p: Packet) -> Seq<char> {
    let head = match p.addresses {
        Addresses::EthernetIpv4 { sender_proto_addr, target_proto_addr, .. } => "Arp["@
            + crate::ip::Addr::host_text(&sender_proto_addr) + " -> "@ + crate::ip::Addr::host_text(&target_proto_addr)
            + "]"@,
        Addresses::Raw => "Arp[unknown address type]"@,
    };
    head + " operation: "@ + operation_text(p.operation) + ", proto: "@ + ether_type_text(p.protocol_type)
}

impl ArpOperation {
    /// The operation's name.
    pub fn to_text(self) -> (r: &'static str)
        ensures
            r@ == operation_text(self),
    {
        match self {
            ArpOperation::Request => "Request",
            ArpOperation::Reply => "Reply",
            ArpOperation::Unknown => "Unknown",
        }
    }
}

impl Packet {
    /// The packet's addresses, operation and protocol.
    pub fn to_text(&self) -> (r: String)
        ensures
            r@ == packet_text(*self),
    {
        let mut s = match &self.addresses {
            Addresses::EthernetIpv4 { sender_proto_addr, target_proto_addr, .. } => {
                let mut s = String::from_str("Arp[");
                s.append(crate::ip::Addr::to_text(sender_proto_addr).as_str());
                s.append(" -> ");
                s.append(crate::ip::Addr::to_text(target_proto_addr).as_str());
                s.append("]");
                s
            },
            Addresses::Raw => String::from_str("Arp[unknown address type]"),
        };
        s.append(" operation: ");
        s.append(self.operation.to_text());
        s.append(", proto: ");
        s.append(self.protocol_type.to_text().as_str());
        s
    }
}

} // verus!
