//! ARP packets; addresses of protocols other than IPv4 are kept as raw bytes.
use crate::bytes::{be16_at, read_be16};
use crate::ethernet::{ether_type_of, ether_type_text, EtherType, MacAddress};
use crate::ip::arp::{operation_of, operation_text};
use crate::ip::{v4, Error};
use vstd::prelude::*;

pub use crate::ip::arp::ArpOperation;

verus! {

/// The addresses of an ARP packet.
pub enum Addresses<'a> {
    EthernetIpv4 {
        sender_hw_addr: MacAddress,
        sender_proto_addr: v4::Addr,
        target_hw_addr: MacAddress,
        target_proto_addr: v4::Addr,
    },
    Raw {
        sender_hw_addr: &'a [u8],
        sender_proto_addr: &'a [u8],
        target_hw_addr: &'a [u8],
        target_proto_addr: &'a [u8],
    },
}

/// An ARP packet.
pub struct Packet<'a> {
    pub operation: ArpOperation,
    pub protocol_type: EtherType,
    pub addresses: Addresses<'a>,
}

/// `p` is the packet that `s` decodes to.
pub open spec fn decodes(p: Packet, s: Seq<u8>) -> bool {
    &&& p.operation == operation_of(be16_at(s, 6))
    &&& p.protocol_type == ether_type_of(be16_at(s, 2))
    &&& match p.addresses {
        Addresses::EthernetIpv4 { sender_hw_addr, sender_proto_addr, target_hw_addr, target_proto_addr } => {
            &&& p.protocol_type == EtherType::Ipv4
            &&& sender_hw_addr.0@ == s.subrange(8, 14)
            &&& sender_proto_addr.0@ == s.subrange(14, 18)
            &&& target_hw_addr.0@ == s.subrange(18, 24)
            &&& target_proto_addr.0@ == s.subrange(24, 28)
        },
        Addresses::Raw { sender_hw_addr, sender_proto_addr, target_hw_addr, target_proto_addr } => {
            &&& p.protocol_type != EtherType::Ipv4
            &&& sender_hw_addr@ == s.subrange(8, 14)
            &&& sender_proto_addr@ == s.subrange(14, 18)
            &&& target_hw_addr@ == s.subrange(18, 24)
            &&& target_proto_addr@ == s.subrange(24, 28)
        },
    }
}

fn mac_from(s: &[u8], i: usize) -> (r: MacAddress)
    requires
        i + 6 <= s@.len(),
    ensures
        r.0@ == s@.subrange(i as int, i + 6),
{
    let r = MacAddress([s[i], s[i + 1], s[i + 2], s[i + 3], s[i + 4], s[i + 5]]);
    assert(r.0@ =~= s@.subrange(i as int, i + 6));
    r
}

fn ipv4_from(s: &[u8], i: usize) -> (r: v4::Addr)
    requires
        i + 4 <= s@.len(),
    ensures
        r.0@ == s@.subrange(i as int, i + 4),
{
    let r = v4::Addr([s[i], s[i + 1], s[i + 2], s[i + 3]]);
    assert(r.0@ =~= s@.subrange(i as int, i + 4));
    r
}

impl<'a> Packet<'a> {
    /// Decodes an ARP packet of exactly 28 bytes; see `crate::ip::arp::parse_error`.
    pub fn from_bytes(payload: &'a [u8]) -> (r: Result<Packet<'a>, Error>)
        ensures
            match r {
                Ok(p) => crate::ip::arp::parse_error(payload@).is_none() && decodes(p, payload@),
                Err(e) => crate::ip::arp::parse_error(payload@) == Some(e),
            },
    {
        let len: usize = payload.len();
        if len == 28 {
            let protocol_type: u16 = read_be16(payload, 2);
            let operation: u16 = read_be16(payload, 6);
            let addresses = match EtherType::from(protocol_type) {
                EtherType::Ipv4 => {
                    let hardware_len: u8 = payload[4];
                    let protocol_len: u8 = payload[5];
                    if hardware_len != 6 || protocol_len != 4 {
                        return Err(Error::MalformedArpPacket);
                    }
                    Addresses::EthernetIpv4 {
                        sender_hw_addr: mac_from(payload, 8),
                        sender_proto_addr: ipv4_from(payload, 14),
                        target_hw_addr: mac_from(payload, 18),
                        target_proto_addr: ipv4_from(payload, 24),
                    }
                },
                _ => Addresses::Raw {
                    sender_hw_addr: &payload[8..14],
                    sender_proto_addr: &payload[14..18],
                    target_hw_addr: &payload[18..24],
                    target_proto_addr: &payload[24..28],
                },
            };
            Ok(Packet { operation: ArpOperation::from(operation), protocol_type: EtherType::from(protocol_type), addresses })
        } else if len < 28 {
            Err(Error::Truncated(len, 28))
        } else {
            Err(Error::UnsupportedArpPacket(len))
        }
    }
}

/// A packet: its protocol addresses when they are IPv4, its operation and protocol.
pub open spec fn packet_text(p: Packet) -> Seq<char> {
    let head = match p.addresses {
        Addresses::EthernetIpv4 { sender_proto_addr, target_proto_addr, .. } => "Arp["@
            + crate::ip::Addr::host_text(&sender_proto_addr) + " -> "@ + crate::ip::Addr::host_text(&target_proto_addr)
            + "]"@,
        Addresses::Raw { .. } => "Arp[unknown address type]"@,
    };
    head + " operation: "@ + operation_text(p.operation) + ", proto: "@ + ether_type_text(p.protocol_type)
}

impl<'a> Packet<'a> {
    /// The packet's addresses, operation and protocol.
    pub fn to_text(&self) -> (r: String)
        ensures
            r@ == packet_text(*self),
    {
        let mut s = match &self.addresses {
            Addresses::EthernetIpv4 { sender_proto_addr, target_proto_addr, .. } => {
                let mut s = String::from_str("Arp[");
                s.append(crate::ip::Addr::to_text(sender_proto_addr).as_str());
                s.append(" -> ");
                s.append(crate::ip::Addr::to_text(target_proto_addr).as_str());
                s.append("]");
                s
            },
            Addresses::Raw { .. } => String::from_str("Arp[unknown address type]"),
        };
        s.append(" operation: ");
        s.append(self.operation.to_text());
        s.append(", proto: ");
        s.append(self.protocol_type.to_text().as_str());
        s
    }
}

} // verus!
