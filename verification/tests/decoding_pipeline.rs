use ros_flake::ethernet::{self, EtherType, LinkFrameKind};
use ros_flake::event::{Decoder, Error, Event};
use ros_flake::ip::{self, frag, v4, v6, Addr};
use ros_flake::transport::frag::{Direction, StreamEvent, StreamReassembler, TcpStreamReassembler};
use ros_flake::transport::{self, tcp, AddrPair, SockAddr};

const SYN: u8 = tcp::Flags::SYN;
const ACK: u8 = tcp::Flags::ACK;
const FIN: u8 = tcp::Flags::FIN;
const RST: u8 = tcp::Flags::RST;
const PSH: u8 = tcp::Flags::PSH;

const CLIENT: [u8; 4] = [10, 1, 1, 1];
const SERVER: [u8; 4] = [10, 1, 1, 2];

fn tcp_bytes(sport: u16, dport: u16, seq: u32, flags: u8, data: &[u8]) -> Vec<u8> {
    let mut p = Vec::new();
    p.extend_from_slice(&sport.to_be_bytes());
    p.extend_from_slice(&dport.to_be_bytes());
    p.extend_from_slice(&seq.to_be_bytes());
    p.extend_from_slice(&0u32.to_be_bytes());
    p.push(0x50);
    p.push(flags);
    p.extend_from_slice(&[0xFF, 0xFF, 0, 0, 0, 0]);
    p.extend_from_slice(data);
    p
}

fn ipv4_bytes(src: [u8; 4], dst: [u8; 4], proto: u8, id: u16, flags: u16, payload: &[u8]) -> Vec<u8> {
    let mut p = vec![0x45, 0];
    p.extend_from_slice(&((20 + payload.len()) as u16).to_be_bytes());
    p.extend_from_slice(&id.to_be_bytes());
    p.extend_from_slice(&flags.to_be_bytes());
    p.extend_from_slice(&[64, proto, 0, 0]);
    p.extend_from_slice(&src);
    p.extend_from_slice(&dst);
    p.extend_from_slice(payload);
    p
}

fn ether(ether_type: u16, payload: &[u8]) -> Vec<u8> {
    let mut f = vec![0x02, 0, 0, 0, 0, 0x01, 0x02, 0, 0, 0, 0, 0x02];
    f.extend_from_slice(&ether_type.to_be_bytes());
    f.extend_from_slice(payload);
    f
}

fn tcp_frame(from_client: bool, seq: u32, flags: u8, data: &[u8]) -> Vec<u8> {
    let (src, dst, sport, dport) = if from_client { (CLIENT, SERVER, 40_000, 443) } else { (SERVER, CLIENT, 443, 40_000) };
    ether(0x0800, &ipv4_bytes(src, dst, ip::NH_TCP, 1, 0, &tcp_bytes(sport, dport, seq, flags, data)))
}

fn push(d: &mut Decoder, raw: &[u8]) -> Vec<String> {
    assert!(!Decoder::overruns(raw));
    d.push_frame(raw).iter().map(describe).collect()
}

fn describe(e: &Event) -> String {
    match e {
        Event::Ethernet(f) => format!("eth {:?} {:?}", f.kind, f.ether_type),
        Event::Arp(p) => format!("arp {:?}", p.operation),
        Event::Reassembled(_) => "reassembled".to_string(),
        Event::ReassemblyIncomplete => "incomplete".to_string(),
        Event::ReassemblyRejected(e) => format!("rejected {e:?}"),
        Event::Transport(transport::Packet::Ipv4(transport::Segment::Udp(s))) => {
            format!("udp {} {}", s.addr.src.port, String::from_utf8_lossy(s.payload()))
        }
        Event::Transport(_) => "transport".to_string(),
        Event::TcpStream(StreamEvent::Opened(d)) => format!("opened {d:?}"),
        Event::TcpStream(StreamEvent::Data { direction, bytes }) => {
            format!("data {direction:?} {}", String::from_utf8_lossy(bytes))
        }
        Event::TcpStream(StreamEvent::HalfClosed { direction }) => format!("half-closed {direction:?}"),
        Event::TcpStream(StreamEvent::Reset) => "reset".to_string(),
        Event::TcpStream(StreamEvent::Closed) => "closed".to_string(),
        Event::Error(e) => format!("error {e:?}"),
    }
}

#[test]
fn tcp_conversation_through_the_decoder() {
    let mut d = Decoder::new();
    assert_eq!(push(&mut d, &tcp_frame(true, 100, SYN, b"")), ["eth Ethernet Ipv4", "opened From"]);
    assert_eq!(push(&mut d, &tcp_frame(false, 900, SYN | ACK, b"")), ["eth Ethernet Ipv4", "opened To"]);
    assert_eq!(push(&mut d, &tcp_frame(true, 101, ACK | PSH, b"GET /")), ["eth Ethernet Ipv4", "data From GET /"]);
    assert_eq!(push(&mut d, &tcp_frame(false, 901, ACK | PSH, b"200")), ["eth Ethernet Ipv4", "data To 200"]);
    assert_eq!(push(&mut d, &tcp_frame(true, 106, ACK | FIN, b"")), ["eth Ethernet Ipv4", "half-closed From"]);
    assert_eq!(
        push(&mut d, &tcp_frame(false, 904, ACK | FIN, b"")),
        ["eth Ethernet Ipv4", "half-closed To", "closed"]
    );
    // The closed flow left the table: a new SYN opens a fresh one.
    assert_eq!(push(&mut d, &tcp_frame(true, 5000, SYN, b"")), ["eth Ethernet Ipv4", "opened From"]);
}

#[test]
fn reset_closes_the_connection_in_the_decoder() {
    let mut d = Decoder::new();
    push(&mut d, &tcp_frame(true, 100, SYN, b""));
    assert_eq!(push(&mut d, &tcp_frame(true, 101, RST, b"")), ["eth Ethernet Ipv4", "reset", "closed"]);
    // A RST on the idle half closes the flow as well.
    assert_eq!(push(&mut d, &tcp_frame(true, 200, SYN, b"")), ["eth Ethernet Ipv4", "opened From"]);
    assert_eq!(push(&mut d, &tcp_frame(false, 900, RST, b"")), ["eth Ethernet Ipv4", "reset", "closed"]);
}

#[test]
fn udp_datagram_is_a_transport_event() {
    let mut d = Decoder::new();
    let mut udp = vec![0, 53, 0x10, 0x00, 0, 12, 0, 0];
    udp.extend_from_slice(b"dns!");
    let frame = ether(0x0800, &ipv4_bytes(SERVER, CLIENT, ip::NH_UDP, 1, 0, &udp));
    assert_eq!(push(&mut d, &frame), ["eth Ethernet Ipv4", "udp 53 dns!"]);
}

#[test]
fn fragmented_datagram_is_decoded_once_complete() {
    let mut d = Decoder::new();
    let mut udp = vec![0, 7, 0, 9, 0, 20, 0, 0];
    udp.extend_from_slice(b"twelve bytes");
    let first = ether(0x0800, &ipv4_bytes(SERVER, CLIENT, ip::NH_UDP, 77, 0x2000, &udp[..16]));
    let second = ether(0x0800, &ipv4_bytes(SERVER, CLIENT, ip::NH_UDP, 77, 2, &udp[16..]));
    assert_eq!(push(&mut d, &first), ["eth Ethernet Ipv4", "incomplete"]);
    assert_eq!(push(&mut d, &second), ["eth Ethernet Ipv4", "udp 7 twelve bytes"]);
}

#[test]
fn refused_fragment_is_reported() {
    let mut d = Decoder::new();
    let frame = ether(0x0800, &ipv4_bytes(SERVER, CLIENT, ip::NH_UDP, 5, 0x2000, b"odd"));
    assert_eq!(push(&mut d, &frame), ["eth Ethernet Ipv4", "rejected UnalignedPayload(3)"]);
}

#[test]
fn arp_frame_gives_an_arp_event() {
    let mut d = Decoder::new();
    let mut arp = vec![0, 1, 0x08, 0x00, 6, 4, 0, 2];
    arp.extend_from_slice(&[0u8; 20]);
    assert_eq!(push(&mut d, &ether(0x0806, &arp)), ["eth Ethernet Arp", "arp Reply"]);
    assert_eq!(
        push(&mut d, &ether(0x0806, &arp[..20])),
        ["eth Ethernet Arp", "error Network(Truncated(20, 28))"]
    );
}

#[test]
fn errors_of_each_layer() {
    let mut d = Decoder::new();
    assert_eq!(push(&mut d, &[0u8; 8]), ["error Link(Truncated)"]);
    assert_eq!(push(&mut d, &ether(0x0600, b"")), ["error Link(UnknownFrameType(1536))"]);
    assert_eq!(
        push(&mut d, &ether(0x88CC, b"lldp")),
        ["eth Ethernet Other(35020)", "error Network(UnknownEtherType(35020))"]
    );
    assert_eq!(push(&mut d, &ether(0x0800, &[0x45; 4])), ["eth Ethernet Ipv4", "error Network(Truncated(4, 20))"]);
    let icmp = ether(0x0800, &ipv4_bytes(CLIENT, SERVER, ip::NH_ICMP_V4, 1, 0, &[8, 0, 0, 0]));
    assert_eq!(push(&mut d, &icmp), ["eth Ethernet Ipv4", "error Transport(Unsupported(ICMPv4))"]);
    let short_tcp = ether(0x0800, &ipv4_bytes(CLIENT, SERVER, ip::NH_TCP, 1, 0, &[0; 10]));
    assert_eq!(
        push(&mut d, &short_tcp),
        ["eth Ethernet Ipv4", "error Transport(Truncated(Truncated(10, 20)))"]
    );
}

#[test]
fn vlan_tagged_frame_is_decoded() {
    let mut d = Decoder::new();
    let inner = ipv4_bytes(CLIENT, SERVER, ip::NH_TCP, 1, 0, &tcp_bytes(1, 2, 0, SYN, b""));
    let mut frame = vec![0u8; 12];
    frame.extend_from_slice(&[0x81, 0x00, 0x00, 0x05, 0x08, 0x00]);
    frame.extend_from_slice(&inner);
    assert_eq!(push(&mut d, &frame), ["eth VlanTagged Ipv4", "opened From"]);
}

#[test]
fn ipv6_overrun_is_reported_before_decoding() {
    let mut packet = vec![0x60, 0, 0, 0, 0, 0, ip::NH_HOP_BY_HOP, 64];
    packet.extend_from_slice(&[0u8; 32]);
    let frame = ether(0x86DD, &packet);
    assert!(Decoder::overruns(&frame));
    assert!(!Decoder::overruns(&tcp_frame(true, 1, SYN, b"")));
    assert!(!Decoder::overruns(&[0u8; 3]));
}

#[test]
fn ipv6_tcp_goes_to_the_ipv6_table() {
    let mut d = Decoder::new();
    let mut packet = vec![0x60, 0, 0, 0, 0, 0, ip::NH_TCP, 64];
    packet.extend_from_slice(&[0xfe; 16]);
    packet.extend_from_slice(&[0x01; 16]);
    // The payload starts at the offset of the extension walk counted from the packet's
    // start, so the segment decoded is the packet's first bytes.
    let len = 20u16;
    packet[4..6].copy_from_slice(&len.to_be_bytes());
    packet.extend_from_slice(&[0u8; 20]);
    // Its flag byte is 0xfe: RST is set, so the new flow is reset at once.
    assert_eq!(push(&mut d, &ether(0x86DD, &packet)), ["eth Ethernet Ipv6", "reset", "closed"]);
}

fn v4(host: [u8; 4], port: u16) -> SockAddr<v4::Addr> {
    SockAddr { host: v4::Addr::from(host), port }
}

fn segment(from: SockAddr<v4::Addr>, to: SockAddr<v4::Addr>, seq: u32, flags: u8, data: &[u8]) -> tcp::Segment<v4::Addr> {
    let bytes = tcp_bytes(from.port, to.port, seq, flags, data);
    let mut s = tcp::Segment::from_ip_packet(from.host, to.host, bytes).unwrap();
    s.addr = AddrPair { src: from, dst: to };
    s
}

#[test]
fn stream_reassembler_events() {
    let mut r = StreamReassembler::new();
    let c = v4([1, 1, 1, 1], 1000);
    let s = v4([2, 2, 2, 2], 80);
    let ev = r.process(&segment(c, s, 1, SYN, b""));
    assert!(matches!(ev[..], [StreamEvent::Opened(Direction::From)]));
    let ev = r.process(&segment(c, s, 2, ACK, b"abc"));
    assert!(matches!(&ev[..], [StreamEvent::Data { direction: Direction::From, bytes }] if bytes == b"abc"));
    let ev = r.process(&segment(s, c, 10, ACK, b""));
    assert!(ev.is_empty());
    let ev = r.process(&segment(c, s, 5, FIN, b"d"));
    assert!(matches!(
        &ev[..],
        [StreamEvent::Data { direction: Direction::From, bytes }, StreamEvent::HalfClosed { direction: Direction::From }]
            if bytes == b"d"
    ));
}

#[test]
fn flow_key_is_the_same_both_ways() {
    let c = v4([1, 1, 1, 1], 1000);
    let s = v4([2, 2, 2, 2], 80);
    let k1 = StreamReassembler::derive_flow_key(AddrPair { src: c, dst: s });
    let k2 = StreamReassembler::derive_flow_key(AddrPair { src: s, dst: c });
    assert_eq!(k1, k2);
    assert_eq!(k1, ((0x0101_0101, 1000), (0x0202_0202, 80)));
}

#[test]
fn tcp_reassembler_ignores_other_segments() {
    let mut r = TcpStreamReassembler::new();
    let udp = transport::udp::Segment::from_ip_packet(
        v4::Addr::from(CLIENT),
        v4::Addr::from(SERVER),
        vec![0, 1, 0, 2, 0, 8, 0, 0],
    )
    .unwrap();
    assert!(r.process(&transport::Packet::Ipv4(transport::Segment::Udp(udp))).is_empty());
    let c = v4(CLIENT, 1);
    let s = v4(SERVER, 2);
    let ev = r.process(&transport::Packet::Ipv4(transport::Segment::Tcp(segment(c, s, 0, SYN, b""))));
    assert!(matches!(ev[..], [StreamEvent::Opened(Direction::From)]));
}

#[test]
fn ipv6_address_keys() {
    assert_eq!(v6::Addr::from([0; 16]).key(), 0);
    let mut bytes = [0u8; 16];
    bytes[15] = 1;
    bytes[0] = 0x20;
    assert_eq!(v6::Addr::from(bytes).key(), (0x20u128 << 120) | 1);
    assert_eq!(v4::Addr::from([1, 2, 3, 4]).key(), 0x0102_0304);
}

#[test]
fn link_error_values() {
    assert_eq!(ethernet::LinkFrame::parse(&[0u8; 13]).err(), Some(ethernet::Error::Truncated));
    let frame = ether(0x86DD, b"");
    let f = ethernet::LinkFrame::parse(&frame).unwrap();
    assert_eq!(f.kind, LinkFrameKind::Ethernet);
    assert_eq!(f.ether_type, EtherType::Ipv6);
    assert!(f.payload.is_empty());
    let _ = frag::MAX_FRAGMENT_BYTES;
    let _ = Error::UnexpectedNotIp;
}
