use ros_flake::ethernet::{EtherType, Error, LinkFrame, LinkFrameKind, MacAddress};

const ETHER_PAYLOAD_OFFSET: usize = 14;
const VLAN_TAGGED_OFFSET: usize = ETHER_PAYLOAD_OFFSET + 4;

#[test]
fn parse_ethernet_frame() {
    const ETHER_FRAME: [u8; ETHER_PAYLOAD_OFFSET + 6] = [
        0x00, 0x11, 0x22, 0x33, 0x44, 0x55, // Destination MAC
        0xAA, 0xBB, 0xCC, 0xDD, 0xEE, 0xFF, // Source MAC
        0x08, 0x00, // EtherType: IPv4
        0x01, 0x02, 0x03, 0x04, 0x05, 0x06, // Payload
    ];

    let f = LinkFrame::parse(&ETHER_FRAME).unwrap();
    assert_eq!(f.kind, LinkFrameKind::Ethernet);
    assert_eq!(f.dst_mac, [0x00, 0x11, 0x22, 0x33, 0x44, 0x55].into());
    assert_eq!(f.src_mac, [0xAA, 0xBB, 0xCC, 0xDD, 0xEE, 0xFF].into());
    assert_eq!(f.ether_type, EtherType::Ipv4);
    assert_eq!(f.payload, [0x01, 0x02, 0x03, 0x04, 0x05, 0x06]);

    const TRUNCATED_FRAME: [u8; 10] = [0x00, 0x11, 0x22, 0x33, 0x44, 0x55, 0xAA, 0xBB, 0xCC, 0xDD];

    assert!(matches!(LinkFrame::parse(&TRUNCATED_FRAME).err(), Some(Error::Truncated)));

    const VLAN_FRAME: [u8; VLAN_TAGGED_OFFSET + 4] = [
        0x00, 0x11, 0x22, 0x33, 0x44, 0x55, // Destination MAC
        0xAA, 0xBB, 0xCC, 0xDD, 0xEE, 0xFF, // Source MAC
        0x81, 0x00, // EtherType: VLAN-tagged
        0x00, 0x01, 0x08, 0x00, // VLAN tag + inner EtherType
        0x01, 0x02, 0x03, 0x04, // Payload
    ];

    let f = LinkFrame::parse(&VLAN_FRAME).unwrap();
    assert_eq!(f.kind, LinkFrameKind::VlanTagged);
    assert_eq!(f.dst_mac, [0x00, 0x11, 0x22, 0x33, 0x44, 0x55].into());
    assert_eq!(f.src_mac, [0xAA, 0xBB, 0xCC, 0xDD, 0xEE, 0xFF].into());
    assert_eq!(f.ether_type, EtherType::Ipv4);
    assert_eq!(f.payload, [0x01, 0x02, 0x03, 0x04]);
}

#[test]
fn unknown_frame_type_below_0800() {
    let mut frame = [0u8; 20];
    frame[12] = 0x05;
    frame[13] = 0xDC;
    assert!(matches!(LinkFrame::parse(&frame).err(), Some(Error::UnknownFrameType(0x05DC))));
}

#[test]
fn vlan_frame_too_short_is_truncated() {
    let mut frame = [0u8; 16];
    frame[12] = 0x88;
    frame[13] = 0xA8;
    assert!(matches!(LinkFrame::parse(&frame).err(), Some(Error::Truncated)));
}

#[test]
fn ether_type_names() {
    assert_eq!(EtherType::from(0x0806), EtherType::Arp);
    assert_eq!(EtherType::from(0x86DD), EtherType::Ipv6);
    assert_eq!(EtherType::from(0x1234), EtherType::Other(0x1234));
    assert!(MacAddress([1, 2, 3, 4, 5, 6]) != MacAddress([1, 2, 3, 4, 5, 7]));
}
