use ros_flake::ethernet::{self, EtherType, LinkFrame, LinkFrameKind, MacAddress};
use ros_flake::event::{self, Decoder, Event};
use ros_flake::ip::arp::{self, ArpOperation};
use ros_flake::ip::frag::{self, Datagram, DatagramId};
use ros_flake::ip::{self, v4, v6, Addr, Proto};
use ros_flake::tcpip;
use ros_flake::text::{decimal_text, hex_grouped_text, hex_text, hexadecimal_text, payload_text_of};
use ros_flake::transport::frag::{Direction, StreamEvent};
use ros_flake::transport::{self, tcp, AddrPair, SockAddr};

#[test]
fn numbers_in_decimal_and_hexadecimal() {
    assert_eq!(decimal_text(0), "0");
    assert_eq!(decimal_text(7), "7");
    assert_eq!(decimal_text(1500), "1500");
    assert_eq!(decimal_text(u64::MAX), u64::MAX.to_string());
    assert_eq!(hexadecimal_text(0), "0");
    assert_eq!(hexadecimal_text(0x88cc), "88cc");
    assert_eq!(hexadecimal_text(255), "ff");
    assert_eq!(hex_text(&[0x00, 0x0f, 0xab]), "000fab");
    assert_eq!(hex_text(&[]), "");
    assert_eq!(hex_grouped_text(&[1, 2, 3], 1), "01:02:03");
    assert_eq!(hex_grouped_text(&[1, 2, 3, 4, 5], 2), "0102:0304:05");
    assert_eq!(payload_text_of(b"hi\xff", false), "hi\u{fffd}");
    assert_eq!(payload_text_of(b"hi\xff", true), "6869ff");
}

#[test]
fn flag_names() {
    assert_eq!(tcp::Flags::from_byte(0).to_text(), "-");
    assert_eq!(tcp::Flags::from_byte(tcp::Flags::SYN | tcp::Flags::ACK).to_text(), "SYN|ACK");
    assert_eq!(tcp::Flags::from_byte(tcp::Flags::FIN).to_text(), "FIN");
    assert_eq!(tcp::Flags::from_byte(0xFF).to_text(), "FIN|SYN|RST|PSH|ACK|URG|ECE|CWR");
    assert_eq!(tcp::Flags::from_byte(tcp::Flags::CWR | tcp::Flags::PSH).to_text(), "PSH|CWR");
}

#[test]
fn addresses_as_text() {
    assert_eq!(MacAddress::from([0x00, 0x11, 0x22, 0xaa, 0xbb, 0xff]).to_text(), "00:11:22:aa:bb:ff");
    assert_eq!(v4::Addr::from([192, 168, 0, 10]).to_text(), "192.168.0.10");
    let mut six = [0u8; 16];
    six[0] = 0xfe;
    six[1] = 0x80;
    six[15] = 1;
    assert_eq!(v6::Addr::from(six).to_text(), "fe80:0000:0000:0000:0000:0000:0000:0001");
    let s = SockAddr { host: v4::Addr::from([10, 0, 0, 1]), port: 443 };
    assert_eq!(s.to_text(), "10.0.0.1:443");
    let p = AddrPair { src: s, dst: SockAddr { host: v4::Addr::from([10, 0, 0, 2]), port: 5000 } };
    assert_eq!(p.to_text(), "10.0.0.1:443 -> 10.0.0.2:5000");
}

#[test]
fn link_frame_text() {
    let f = LinkFrame {
        kind: LinkFrameKind::VlanTagged,
        src_mac: MacAddress::from([0xaa, 0xbb, 0xcc, 0xdd, 0xee, 0xff]),
        dst_mac: MacAddress::from([1, 2, 3, 4, 5, 6]),
        ether_type: EtherType::Other(0x88cc),
        payload: &[],
    };
    assert_eq!(f.to_text(), "VlanTagged: [aa:bb:cc:dd:ee:ff => 01:02:03:04:05:06] proto: Other(35020)");
    assert_eq!(EtherType::Ipv6.to_text(), "Ipv6");
    assert_eq!(LinkFrameKind::Ethernet.to_text(), "Ethernet");
}

#[test]
fn error_messages() {
    assert_eq!(ethernet::Error::Truncated.message(), "truncated frame");
    assert_eq!(ethernet::Error::UnknownFrameType(1536).message(), "unknown frame type: 1536");
    assert_eq!(ip::Error::Truncated(3, 20).message(), "truncated packet: got 3 bytes, expected 20");
    assert_eq!(ip::Error::UnsupportedArpPacket(30).message(), "arp packet has invalid or unsupported size: 30");
    assert_eq!(ip::Error::MalformedIpv4Header.message(), "malformed ipv4 header");
    assert_eq!(ip::Error::MalformedIpv6Header.message(), "malformed ipv6 header");
    assert_eq!(ip::Error::MalformedArpPacket.message(), "malformed arp packet");
    assert_eq!(ip::Error::UnknownEtherType(0x88cc).message(), "unknown ether type: 88cc");
    assert_eq!(
        transport::Error::Truncated(ip::Error::Truncated(2, 8)).message(),
        "transport: truncated packet: got 2 bytes, expected 8"
    );
    assert_eq!(transport::Error::LengthInconsistent(12, 20).message(), "inconsistent payload size: expect 12, got 20");
    assert_eq!(transport::Error::Unsupported(Proto::Unknown(99)).message(), "transport proto not supported: Unknown(99)");
    assert_eq!(frag::Error::UnalignedPayload(5).message(), "fragment payload is not 8-aligned: 5 bytes");
    assert_eq!(frag::Error::DuplicateFragmentOffset(3).message(), "duplicate offset fragment found: offset: 3");
    assert_eq!(frag::Error::IncompleteFragment.message(), "incomplete buffer: total_len not known");
    assert_eq!(frag::Error::TooManyFragments(501).message(), "too many fragments: 501");
    assert_eq!(event::Error::UnexpectedNotIp.message(), "non-IP packet passed to reassembler");
    assert_eq!(event::Error::Link(ethernet::Error::Truncated).message(), "link error: truncated frame");
    assert_eq!(
        event::Error::Network(ip::Error::MalformedArpPacket).message(),
        "network error: malformed arp packet"
    );
    assert_eq!(
        event::Error::Transport(transport::Error::Unsupported(Proto::ICMPv4)).message(),
        "transport proto not supported: ICMPv4"
    );
}

#[test]
fn protocol_and_operation_names() {
    assert_eq!(Proto::TCP.to_text(), "TCP");
    assert_eq!(Proto::ICMPv6.to_text(), "ICMPv6");
    assert_eq!(Proto::Unknown(250).to_text(), "Unknown(250)");
    assert_eq!(ArpOperation::Request.to_text(), "Request");
    assert_eq!(Direction::From.to_text(), "forward");
    assert_eq!(Direction::To.to_text(), "reverse");
}

#[test]
fn packet_texts() {
    let mut bytes = vec![0x45, 0, 0, 23, 0, 1, 0x20, 0, 64, 17, 0, 0, 10, 0, 0, 1, 10, 0, 0, 2];
    bytes.extend_from_slice(&[0xde, 0xad, 0x01]);
    let p = v4::Packet::from_bytes(&bytes).unwrap();
    assert_eq!(
        p.to_text(),
        "IPv4[10.0.0.1 -> 10.0.0.2] ttl: 64, proto: UDP, fragmented: true, payload_len: 3, payload: dead01"
    );
    assert_eq!(
        tcpip::v4::to_text(&p),
        "IPv4[10.0.0.1 -> 10.0.0.2] ttl: 64, proto: UDP, payload_len: 3, payload: dead01"
    );
    let text = p.to_text();
    assert_eq!(ip::NetworkPacket::Ipv4(p).to_text(), text);

    let mut six = vec![0x60, 0, 0, 0, 0, 0, ip::NH_TCP, 64];
    six.extend_from_slice(&[0; 32]);
    let p = v6::Packet::from_bytes(&six).unwrap();
    let zeros = "0000:0000:0000:0000:0000:0000:0000:0000";
    assert_eq!(
        p.to_text(),
        format!("IPv6[{zeros} -> {zeros}] next_proto: TCP, fragmented: false, payload_len: 40, payload: 6000000000000640{}", "0".repeat(64))
    );

    let mut arp_bytes = vec![0, 1, 0x08, 0x00, 6, 4, 0, 1];
    arp_bytes.extend_from_slice(&[0, 0, 0, 0, 0, 0, 10, 0, 0, 1, 0, 0, 0, 0, 0, 0, 10, 0, 0, 2]);
    let a = arp::Packet::from_bytes(&arp_bytes).unwrap();
    assert_eq!(a.to_text(), "Arp[10.0.0.1 -> 10.0.0.2] operation: Request, proto: Ipv4");
    arp_bytes[2] = 0x12;
    let a = arp::Packet::from_bytes(&arp_bytes).unwrap();
    assert_eq!(a.to_text(), "Arp[unknown address type] operation: Request, proto: Other(4608)");
    let t = tcpip::arp::Packet::from_bytes(&arp_bytes).unwrap();
    assert_eq!(t.to_text(), "Arp[unknown address type] operation: Request, proto: Other(4608)");
}

#[test]
fn datagram_and_stream_texts() {
    let d = Datagram {
        id: DatagramId { src: v4::Addr::from([1, 2, 3, 4]), dst: v4::Addr::from([5, 6, 7, 8]), next_protocol: Proto::UDP },
        payload: vec![0xca, 0xfe],
    };
    assert_eq!(d.to_text(), "[1.2.3.4 -> 5.6.7.8] proto: UDP, payload_len: 2, payload: cafe");
    assert_eq!(
        Event::Reassembled(ip::Reassembled::Ipv4(d)).to_text(),
        "Reassembled: [1.2.3.4 -> 5.6.7.8] proto: UDP, payload_len: 2, payload: cafe"
    );

    let data = StreamEvent::Data { direction: Direction::To, bytes: b"pong".to_vec() };
    assert_eq!(data.to_text(false), "TCP: stream: data (reverse) len: 4, payload: pong");
    assert_eq!(data.to_text(true), "TCP: stream: data (reverse) len: 4, payload: 706f6e67");
    assert_eq!(StreamEvent::Opened(Direction::From).to_text(false), "TCP: stream: opened (forward)");
    assert_eq!(StreamEvent::HalfClosed { direction: Direction::To }.to_text(false), "TCP: stream: half-closed (reverse)");
    assert_eq!(StreamEvent::Reset.to_text(false), "TCP: stream: reset");
    assert_eq!(StreamEvent::Closed.to_text(false), "TCP: stream: closed");
    assert_eq!(Event::ReassemblyIncomplete.to_text(), "Reassembly: incomplete");
    assert_eq!(
        Event::ReassemblyRejected(frag::Error::TooManyFragments(3)).to_text(),
        "Reassembly: rejected (too many fragments: 3)"
    );
    assert_eq!(Event::Error(event::Error::UnexpectedNotIp).to_text(), "Error: non-IP packet passed to reassembler");
}

#[test]
fn decoder_output_lines() {
    let mut frame = vec![0x02, 0, 0, 0, 0, 2, 0x02, 0, 0, 0, 0, 1, 0x08, 0x00];
    let mut segment = vec![0x9c, 0x40, 0x00, 0x50, 0, 0, 0, 1, 0, 0, 0, 0, 0x50, 0x18, 0xff, 0xff, 0, 0, 0, 0];
    segment.extend_from_slice(b"hello");
    let mut packet = vec![0x45, 0, 0, (20 + segment.len()) as u8, 0, 1, 0, 0, 64, 6, 0, 0, 10, 0, 0, 1, 10, 0, 0, 2];
    packet.extend_from_slice(&segment);
    frame.extend_from_slice(&packet);
    let mut d = Decoder::new();
    assert!(!Decoder::overruns(&frame));
    let lines: Vec<String> = d.push_frame(&frame).iter().map(|e| e.to_text()).collect();
    assert_eq!(
        lines,
        [
            "Ethernet: [02:00:00:00:00:01 => 02:00:00:00:00:02] proto: Ipv4",
            "TCP: stream: data (forward) len: 5, payload: hello",
        ]
    );

    let mut udp_frame = frame[..14].to_vec();
    let mut udp = vec![0, 53, 0x9c, 0x40, 0, 11, 0, 0];
    udp.extend_from_slice(b"abc");
    let mut ip4 = vec![0x45, 0, 0, 31, 0, 1, 0, 0, 64, 17, 0, 0, 10, 0, 0, 2, 10, 0, 0, 1];
    ip4.extend_from_slice(&udp);
    udp_frame.extend_from_slice(&ip4);
    let events = d.push_frame(&udp_frame);
    assert!(events.iter().all(|e| e.printable()));
    assert_eq!(events[1].to_text(), "UDP: [10.0.0.2:53 -> 10.0.0.1:40000] len: 3, payload: abc");
}

#[test]
fn short_udp_length_cannot_be_written() {
    let mut frame = vec![0u8; 12];
    frame.extend_from_slice(&[0x08, 0x00]);
    let udp = [0, 1, 0, 2, 0, 4, 0, 0];
    let mut ip4 = vec![0x45, 0, 0, 28, 0, 1, 0, 0, 64, 17, 0, 0, 10, 0, 0, 2, 10, 0, 0, 1];
    ip4.extend_from_slice(&udp);
    frame.extend_from_slice(&ip4);
    let mut d = Decoder::new();
    let events = d.push_frame(&frame);
    assert!(events[0].printable());
    assert!(!events[1].printable());
}

#[test]
fn tcp_segment_text() {
    let mut bytes = vec![0x9c, 0x40, 0x00, 0x50, 0, 0, 0, 1, 0, 0, 0, 0, 0x50, 0x12, 0xff, 0xff, 0, 0, 0, 0];
    bytes.extend_from_slice(b"ok");
    let s = tcp::Segment::from_ip_packet(v4::Addr::from([1, 1, 1, 1]), v4::Addr::from([2, 2, 2, 2]), bytes).unwrap();
    assert_eq!(s.to_text(false), "TCP: [1.1.1.1:40000 -> 2.2.2.2:80] flags: SYN|ACK len: 2, payload: ok");
    assert_eq!(s.to_text(true), "TCP: [1.1.1.1:40000 -> 2.2.2.2:80] flags: SYN|ACK len: 2, payload: 6f6b");
    assert_eq!(transport::Segment::<v4::Addr>::Icmp(transport::icmp::Message {}).to_text(false), "ICMP not implemented yet");
    let key = v4::Addr::from([1, 1, 1, 1]).key();
    assert_eq!(key, 0x0101_0101);
}
