//! IPv4 packets: the same as `crate::ip::v4`, written without the fragment state.
use crate::ip::proto_text;
use crate::text::{decimal, decimal_text, hex_bytes, hex_text};
use vstd::prelude::*;

pub use crate::ip::v4::{Addr, Headers, Packet};

verus! {

/// A packet: its addresses, TTL, protocol, and its payload's length and bytes in hexadecimal.
pub open spec fn packet_text(p: Packet) -> Seq<char> {
    "IPv4["@ + crate::ip::Addr::host_text(&p.src) + " -> "@ + crate::ip::Addr::host_text(&p.dst) + "] ttl: "@
        + decimal(p.ttl as nat) + ", proto: "@ + proto_text(p.next_protocol) + ", payload_len: "@
        + decimal(p.payload@.len()) + ", payload: "@ + hex_bytes(p.payload@)
}

/// The packet's addresses, TTL, protocol and payload.
pub fn to_text(p: &Packet) -> (r: String)
    ensures
        r@ == packet_text(*p),
{
    let mut s = String::from_str("IPv4[");
    s.append(crate::ip::Addr::to_text(&p.src).as_str());
    s.append(" -> ");
    s.append(crate::ip::Addr::to_text(&p.dst).as_str());
    s.append("] ttl: ");
    s.append(decimal_text(p.ttl as u64).as_str());
    s.append(", proto: ");
    s.append(p.next_protocol.to_text().as_str());
    s.append(", payload_len: ");
    s.append(decimal_text(p.payload.len() as u64).as_str());
    s.append(", payload: ");
    s.append(hex_text(p.payload).as_str());
    s
}

} // verus!
