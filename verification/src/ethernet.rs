//! Link layer: Ethernet II and 802.1Q/802.1ad VLAN-tagged frames.
use crate::bytes::{be16_at, read_be16};
use crate::text::{decimal, decimal_text, hex_grouped, hex_grouped_text};
use vstd::prelude::*;

verus! {

/// Why a link-layer frame was refused.
#[derive(Debug, PartialEq, Eq, Structural)]
pub enum Error {
    Truncated,
    UnknownFrameType(u16),
}

/// Length of the untagged Ethernet header: two addresses and the EtherType.
pub const ETHER_PAYLOAD_OFFSET: usize = 14;

/// Length of a header that carries one VLAN tag.
pub const VLAN_TAGGED_OFFSET: usize = ETHER_PAYLOAD_OFFSET + 4;

/// Length of a hardware (MAC) address in bytes.
pub const MAC_SIZE: usize = 6;

/// A 48-bit hardware address.
#[derive(Debug, Clone, Copy)]
pub struct MacAddress(pub [u8; 6]);

impl PartialEq for MacAddress {
    fn eq(&self, other: &Self) -> (r: bool) {
        crate::bytes::slices_equal(self.0.as_slice(), other.0.as_slice())
    }
}

impl vstd::std_specs::cmp::PartialEqSpecImpl for MacAddress {
    open spec fn obeys_eq_spec() -> bool {
        true
    }

    open spec fn eq_spec(&self, other: &Self) -> bool {
        self.0@ == other.0@
    }
}

impl Eq for MacAddress {}

impl From<[u8; 6]> for MacAddress {
    fn from(bytes: [u8; 6]) -> (r: Self) {
        MacAddress(bytes)
    }
}

impl vstd::std_specs::convert::FromSpecImpl<[u8; 6]> for MacAddress {
    open spec fn obeys_from_spec() -> bool {
        true
    }

    open spec fn from_spec(bytes: [u8; 6]) -> Self {
        MacAddress(bytes)
    }
}


/// Whether a frame carried a VLAN tag.
#[derive(Debug, Clone, Copy, PartialEq, Eq, Structural)]
pub enum LinkFrameKind {
    Ethernet,
    VlanTagged,
}

/// The protocol carried in a frame's payload.
#[derive(Debug, Clone, Copy, PartialEq, Eq, Structural)]
pub enum EtherType {
    Ipv4,
    Ipv6,
    Arp,
    Other(u16),
}

/// The protocol that an EtherType value names.
pub open spec fn ether_type_of(value: u16) -> EtherType {
    if value == 0x0800 {
        EtherType::Ipv4
    } else if value == 0x0806 {
        EtherType::Arp
    } else if value == 0x86DD {
        EtherType::Ipv6
    } else {
        EtherType::Other(value)
    }
}

impl From<u16> for EtherType {
    fn from(value: u16) -> (r: Self) {
        if value == 0x0800 {
            EtherType::Ipv4
        } else if value == 0x0806 {
            EtherType::Arp
        } else if value == 0x86DD {
            EtherType::Ipv6
        } else {
            EtherType::Other(value)
        }
    }
}

impl vstd::std_specs::convert::FromSpecImpl<u16> for EtherType {
    open spec fn obeys_from_spec() -> bool {
        true
    }

    open spec fn from_spec(value: u16) -> Self {
        ether_type_of(value)
    }
}

/// A decoded link-layer frame; `payload` borrows the bytes after the header.
pub struct LinkFrame<'a> {
    pub kind: LinkFrameKind,
    pub src_mac: MacAddress,
    pub dst_mac: MacAddress,
    pub ether_type: EtherType,
    pub payload: &'a [u8],
}

/// The six bytes of `s` from position `i` on, as a hardware address.
pub open spec fn mac_at(s: Seq<u8>, i: int) -> Seq<u8> {
    s.subrange(i, i + 6)
}

/// The EtherType field at bytes 12..14 of a frame.
pub open spec fn outer_ether_type(s: Seq<u8>) -> u16 {
    be16_at(s, 12)
}

/// Whether an outer EtherType announces an 802.1Q or 802.1ad tag.
pub open spec fn is_vlan_tpid(v: u16) -> bool {
    v == 0x8100 || v == 0x88A8
}

/// What `LinkFrame::parse` yields for the bytes `s`, when it succeeds: the kind,
/// destination and source address, protocol and the offset where the payload starts.
pub open spec fn link_header(s: Seq<u8>) -> (LinkFrameKind, Seq<u8>, Seq<u8>, EtherType, int) {
    if is_vlan_tpid(outer_ether_type(s)) {
        (LinkFrameKind::VlanTagged, mac_at(s, 0), mac_at(s, 6), ether_type_of(be16_at(s, 16)), 18)
    } else {
        (LinkFrameKind::Ethernet, mac_at(s, 0), mac_at(s, 6), ether_type_of(outer_ether_type(s)), 14)
    }
}

/// The error `LinkFrame::parse` gives for `s`, or `None` where it succeeds.
pub open spec fn link_error(s: Seq<u8>) -> Option<Error> {
    if s.len() < 14 {
        Some(Error::Truncated)
    } else if is_vlan_tpid(outer_ether_type(s)) {
        if s.len() < 18 { Some(Error::Truncated) } else { None }
    } else if outer_ether_type(s) >= 0x0800 {
        None
    } else {
        Some(Error::UnknownFrameType(outer_ether_type(s)))
    }
}

/// `f` is the frame that `s` decodes to.
pub open spec fn link_frame_matches(f: LinkFrame, s: Seq<u8>) -> bool {
    let (kind, dst, src, et, start) = link_header(s);
    &&& f.kind == kind
    &&& f.dst_mac.0@ == dst
    &&& f.src_mac.0@ == src
    &&& f.ether_type == et
    &&& f.payload@ == s.subrange(start, s.len() as int)
}

/// Copies six bytes starting at `i` into a hardware address.
fn mac_from(s: &[u8], i: usize) -> (r: MacAddress)
    requires
        i + 6 <= s@.len(),
    ensures
        r.0@ == mac_at(s@, i as int),
{
    let r = MacAddress([s[i], s[i + 1], s[i + 2], s[i + 3], s[i + 4], s[i + 5]]);
    assert(r.0@ =~= mac_at(s@, i as int));
    r
}

impl<'a> LinkFrame<'a> {
    /// Decodes an Ethernet II or VLAN-tagged frame.
    pub fn parse(payload: &'a [u8]) -> (r: Result<LinkFrame<'a>, Error>)
        ensures
            match r {
                Ok(f) => link_error(payload@).is_none() && link_frame_matches(f, payload@),
                Err(e) => link_error(payload@) == Some(e),
            },
    {
        if payload.len() < 14 {
            return Err(Error::Truncated);
        }
        let ether_type: u16 = read_be16(payload, 12);
        if ether_type == 0x8100 || ether_type == 0x88A8 {
            VlanTaggedFrame::from_bytes(ether_type, payload)
        } else if ether_type >= 0x0800 {
            EthernetFrame::from_bytes(ether_type, payload)
        } else {
            Err(Error::UnknownFrameType(ether_type))
        }
    }
}

/// Decoder for untagged Ethernet II frames.
pub struct EthernetFrame;

/// Decoder for frames with one VLAN tag.
pub struct VlanTaggedFrame;

impl EthernetFrame {
    /// Decodes an untagged frame whose EtherType field holds `ether_type`.
    pub fn from_bytes<'a>(ether_type: u16, payload: &'a [u8]) -> (r: Result<LinkFrame<'a>, Error>)
        ensures
            payload@.len() < ETHER_PAYLOAD_OFFSET ==> r == Err::<LinkFrame<'a>, Error>(Error::Truncated),
            payload@.len() >= ETHER_PAYLOAD_OFFSET ==> (r matches Ok(f) && {
                &&& f.kind == LinkFrameKind::Ethernet
                &&& f.dst_mac.0@ == mac_at(payload@, 0)
                &&& f.src_mac.0@ == mac_at(payload@, 6)
                &&& f.ether_type == ether_type_of(ether_type)
                &&& f.payload@ == payload@.subrange(14, payload@.len() as int)
            }),
    {
        if payload.len() < ETHER_PAYLOAD_OFFSET {
            return Err(Error::Truncated);
        }
        Ok(LinkFrame {
            kind: LinkFrameKind::Ethernet,
            dst_mac: mac_from(payload, 0),
            src_mac: mac_from(payload, 6),
            ether_type: EtherType::from(ether_type),
            payload: &payload[ETHER_PAYLOAD_OFFSET..payload.len()],
        })
    }
}

impl VlanTaggedFrame {
    /// Decodes a tagged frame; the protocol is the inner EtherType at bytes 16..18.
    pub fn from_bytes<'a>(outer: u16, payload: &'a [u8]) -> (r: Result<LinkFrame<'a>, Error>)
        ensures
            payload@.len() < VLAN_TAGGED_OFFSET ==> r == Err::<LinkFrame<'a>, Error>(Error::Truncated),
            payload@.len() >= VLAN_TAGGED_OFFSET ==> (r matches Ok(f) && {
                &&& f.kind == LinkFrameKind::VlanTagged
                &&& f.dst_mac.0@ == mac_at(payload@, 0)
                &&& f.src_mac.0@ == mac_at(payload@, 6)
                &&& f.ether_type == ether_type_of(be16_at(payload@, 16))
                &&& f.payload@ == payload@.subrange(18, payload@.len() as int)
            }),
    {
        if payload.len() < VLAN_TAGGED_OFFSET {
            return Err(Error::Truncated);
        }
        let inner: u16 = read_be16(payload, 16);
        Ok(LinkFrame {
            kind: LinkFrameKind::VlanTagged,
            dst_mac: mac_from(payload, 0),
            src_mac: mac_from(payload, 6),
            ether_type: EtherType::from(inner),
            payload: &payload[VLAN_TAGGED_OFFSET..payload.len()],
        })
    }
}

/// The message of a link-layer error.
pub open spec fn error_text(e: Error) -> Seq<char> {
    match e {
        Error::Truncated => "truncated frame"@,
        Error::UnknownFrameType(v) => "unknown frame type: "@ + decimal(v as nat),
    }
}

/// A hardware address: six hexadecimal pairs separated by `:`.
pub open spec fn mac_text(m: MacAddress) -> Seq<char> {
    hex_grouped(m.0@, 1)
}

/// The name of a frame kind.
pub open spec fn kind_text(k: LinkFrameKind) -> Seq<char> {
    match k {
        LinkFrameKind::Ethernet => "Ethernet"@,
        LinkFrameKind::VlanTagged => "VlanTagged"@,
    }
}

/// The name of an EtherType; another value is written in decimal.
pub open spec fn ether_type_text(t: EtherType) -> Seq<char> {
    match t {
        EtherType::Ipv4 => "Ipv4"@,
        EtherType::Ipv6 => "Ipv6"@,
        EtherType::Arp => "Arp"@,
        EtherType::Other(v) => "Other("@ + decimal(v as nat) + ")"@,
    }
}

/// A frame: its kind, source and destination address, and protocol.
pub open spec fn link_frame_text(f: LinkFrame) -> Seq<char> {
    kind_text(f.kind) + ": ["@ + mac_text(f.src_mac) + " => "@ + mac_text(f.dst_mac) + "] proto: "@
        + ether_type_text(f.ether_type)
}

impl Error {
    /// The error's message.
    pub fn message(&self) -> (r: String)
        ensures
            r@ == error_text(*self),
    {
        match self {
            Error::Truncated => String::from_str("truncated frame"),
            Error::UnknownFrameType(v) => {
                let mut s = String::from_str("unknown frame type: ");
                s.append(decimal_text(*v as u64).as_str());
                s
            },
        }
    }
}

impl MacAddress {
    /// Six hexadecimal pairs separated by `:`.
    pub fn to_text(&self) -> (r: String)
        ensures
            r@ == mac_text(*self),
    {
        hex_grouped_text(self.0.as_slice(), 1)
    }
}

impl LinkFrameKind {
    /// The kind's name.
    pub fn to_text(self) -> (r: &'static str)
        ensures
            r@ == kind_text(self),
    {
        match self {
            LinkFrameKind::Ethernet => "Ethernet",
            LinkFrameKind::VlanTagged => "VlanTagged",
        }
    }
}

impl EtherType {
    /// The protocol's name, or `Other(` the value `)`.
    pub fn to_text(self) -> (r: String)
        ensures
            r@ == ether_type_text(self),
    {
        match self {
            EtherType::Ipv4 => String::from_str("Ipv4"),
            EtherType::Ipv6 => String::from_str("Ipv6"),
            EtherType::Arp => String::from_str("Arp"),
            EtherType::Other(v) => {
                let mut s = String::from_str("Other(");
                s.append(decimal_text(v as u64).as_str());
                s.append(")");
                s
            },
        }
    }
}

impl<'a> LinkFrame<'a> {
    /// The frame's kind, addresses and protocol.
    pub fn to_text(&self) -> (r: String)
        ensures
            r@ == link_frame_text(*self),
    {
        let mut s = String::from_str(self.kind.to_text());
        s.append(": [");
        s.append(self.src_mac.to_text().as_str());
        s.append(" => ");
        s.append(self.dst_mac.to_text().as_str());
        s.append("] proto: ");
        s.append(self.ether_type.to_text().as_str());
        s
    }
}

} // verus!
