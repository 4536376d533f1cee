//! Network layer in the shape of an earlier decoder: IPv4, IPv6 (without the
//! version check) and ARP with raw addresses for other protocols.
use crate::ethernet::EtherType;
use vstd::prelude::*;

pub mod arp;
pub mod v4;
pub mod v6;

pub use crate::ip::{Error, Proto};

verus! {

/// A decoded network-layer packet.
pub enum NetworkPacket<'a> {
    Ipv4(v4::Packet<'a>),
    Ipv6(v6::Packet<'a>),
    Arp(arp::Packet<'a>),
}

impl<'a> NetworkPacket<'a> {
    /// Decodes the payload of a frame by its EtherType: IPv4, IPv6 and ARP are
    /// decoded, any other type is refused.
    pub fn parse(ether_type: EtherType, payload: &'a [u8]) -> (r: Result<Self, Error>)
        requires
            ether_type == EtherType::Ipv6 ==> !v6::parse_panics(payload@),
        ensures
            ether_type == EtherType::Ipv4 ==> match r {
                Ok(NetworkPacket::Ipv4(p)) => crate::ip::v4::parse_error(payload@).is_none() && crate::ip::v4::decodes(p, payload@),
                Ok(_) => false,
                Err(e) => crate::ip::v4::parse_error(payload@) == Some(e),
            },
            ether_type == EtherType::Ipv6 ==> match r {
                Ok(NetworkPacket::Ipv6(p)) => v6::decodes(p, payload@),
                Ok(_) => false,
                Err(e) => v6::parse_result(payload@) == Err::<(Proto, Option<v6::FragmentationMetadata>, int, int), Error>(e),
            },
            ether_type == EtherType::Arp ==> match r {
                Ok(NetworkPacket::Arp(p)) => crate::ip::arp::parse_error(payload@).is_none() && arp::decodes(p, payload@),
                Ok(_) => false,
                Err(e) => crate::ip::arp::parse_error(payload@) == Some(e),
            },
            ether_type matches EtherType::Other(v) ==> r matches Err(Error::UnknownEtherType(w)) && w == v,
    {
        match ether_type {
            EtherType::Ipv4 => match v4::Packet::from_bytes(payload) {
                Ok(p) => Ok(NetworkPacket::Ipv4(p)),
                Err(e) => Err(e),
            },
            EtherType::Ipv6 => match v6::Packet::from_bytes(payload) {
                Ok(p) => Ok(NetworkPacket::Ipv6(p)),
                Err(e) => Err(e),
            },
            EtherType::Arp => match arp::Packet::from_bytes(payload) {
                Ok(p) => Ok(NetworkPacket::Arp(p)),
                Err(e) => Err(e),
            },
            EtherType::Other(v) => Err(Error::UnknownEtherType(v)),
        }
    }
}

/// A network-layer packet of any kind.
pub open spec fn network_packet_text(p: NetworkPacket) -> Seq<char> {
    match p {
        NetworkPacket::Arp(v) => arp::packet_text(v),
        NetworkPacket::Ipv4(v) => v4::packet_text(v),
        NetworkPacket::Ipv6(v) => v6::packet_text(v),
    }
}

impl<'a> NetworkPacket<'a> {
    /// The packet as text.
    pub fn to_text(&self) -> (r: String)
        ensures
            r@ == network_packet_text(*self),
    {
        match self {
            NetworkPacket::Arp(v) => v.to_text(),
            NetworkPacket::Ipv4(v) => v4::to_text(v),
            NetworkPacket::Ipv6(v) => v.to_text(),
        }
    }
}

} // verus!
