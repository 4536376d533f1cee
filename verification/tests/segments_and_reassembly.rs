use ros_flake::ip::frag::{
    DatagramReassembler, DatagramReassemblyBuffer, DatagramReassemblyPolicy, Error as FragError, FragmentInfo,
    ReassemblyResult,
};
use ros_flake::ip::{self, v4, IpPacket, NetworkReassembler, Proto};
use ros_flake::transport::frag::before;
use ros_flake::transport::{tcp, udp, Error, Segment};

type V4 = v4::Addr;

fn a() -> V4 {
    V4::from([192, 168, 0, 1])
}

fn b() -> V4 {
    V4::from([192, 168, 0, 2])
}

fn udp_bytes(sport: u16, dport: u16, data: &[u8]) -> Vec<u8> {
    let mut p = Vec::new();
    p.extend_from_slice(&sport.to_be_bytes());
    p.extend_from_slice(&dport.to_be_bytes());
    p.extend_from_slice(&((8 + data.len()) as u16).to_be_bytes());
    p.extend_from_slice(&[0, 0]);
    p.extend_from_slice(data);
    p
}

fn tcp_bytes(sport: u16, dport: u16, seq: u32, flags: u8, options: &[u8], data: &[u8]) -> Vec<u8> {
    let mut p = Vec::new();
    p.extend_from_slice(&sport.to_be_bytes());
    p.extend_from_slice(&dport.to_be_bytes());
    p.extend_from_slice(&seq.to_be_bytes());
    p.extend_from_slice(&7u32.to_be_bytes());
    p.push((((20 + options.len()) / 4) as u8) << 4);
    p.push(flags);
    p.extend_from_slice(&[0x10, 0x00, 0xBE, 0xEF, 0, 0]);
    p.extend_from_slice(options);
    p.extend_from_slice(data);
    p
}

#[test]
fn udp_datagram_decodes() {
    let s = udp::Segment::from_ip_packet(a(), b(), udp_bytes(53, 4000, b"answer")).unwrap();
    assert_eq!(s.addr.src.host, a());
    assert_eq!(s.addr.dst.host, b());
    assert_eq!(s.addr.src.port, 53);
    assert_eq!(s.addr.dst.port, 4000);
    assert_eq!(s.payload(), b"answer");
    assert!(s.has_payload());

    let empty = udp::Segment::from_ip_packet(a(), b(), udp_bytes(1, 2, b"")).unwrap();
    assert!(empty.has_payload());
    assert!(empty.payload().is_empty());

    // A length field shorter than the header leaves no data range.
    let mut short = udp_bytes(1, 2, b"");
    short[5] = 4;
    let s = udp::Segment::from_ip_packet(a(), b(), short).unwrap();
    assert!(!s.has_payload());
}

#[test]
fn udp_payload_ends_at_announced_length() {
    let mut bytes = udp_bytes(1, 2, b"abc");
    bytes.extend_from_slice(b"padding");
    let s = udp::Segment::from_ip_packet(a(), b(), bytes).unwrap();
    assert_eq!(s.payload(), b"abc");
}

#[test]
fn udp_errors() {
    assert_eq!(
        udp::Segment::from_ip_packet(a(), b(), vec![0; 5]).err(),
        Some(Error::Truncated(ip::Error::Truncated(5, 8)))
    );
    let mut bytes = udp_bytes(1, 2, b"abcd");
    bytes[5] = 20;
    assert_eq!(udp::Segment::from_ip_packet(a(), b(), bytes).err(), Some(Error::LengthInconsistent(12, 20)));
}

#[test]
fn tcp_segment_decodes() {
    let bytes = tcp_bytes(50_000, 80, 0xDEAD_BEEF, tcp::Flags::SYN | tcp::Flags::ACK, &[1, 2, 3, 4], b"data");
    let s = tcp::Segment::from_ip_packet(a(), b(), bytes).unwrap();
    assert_eq!(s.addr.src.port, 50_000);
    assert_eq!(s.addr.dst.port, 80);
    assert_eq!(s.header.src_port, 50_000);
    assert_eq!(s.header.seq_number, 0xDEAD_BEEF);
    assert_eq!(s.header.ack_number, 7);
    assert_eq!(s.header.window, 0x1000);
    assert_eq!(s.header.checksum, 0xBEEF);
    assert_eq!(s.header.data_offset_bytes(), 24);
    assert!(s.header.flags.syn());
    assert!(s.header.flags.ack());
    assert!(!s.header.flags.fin());
    assert_eq!(s._options(), [1, 2, 3, 4]);
    assert_eq!(s.payload(), b"data");
}

#[test]
fn tcp_errors() {
    assert_eq!(
        tcp::Segment::from_ip_packet(a(), b(), vec![0; 19]).err(),
        Some(Error::Truncated(ip::Error::Truncated(19, 20)))
    );
    let mut bytes = tcp_bytes(1, 2, 0, 0, &[], b"0123456789");
    bytes[12] = 0xF0;
    assert_eq!(tcp::Segment::from_ip_packet(a(), b(), bytes).err(), Some(Error::LengthInconsistent(30, 60)));
}

#[test]
fn tcp_flags_read_their_bits() {
    let f = tcp::Flags::from_byte(0xFF);
    assert!(f.fin() && f.syn() && f.rst() && f.psh() && f.ack() && f.urg() && f.ece() && f.cwr());
    let none = tcp::Flags::from_byte(0);
    assert!(!(none.fin() || none.syn() || none.rst() || none.psh() || none.ack() || none.urg() || none.ece() || none.cwr()));
    assert_eq!(tcp::Flags::from_byte(0x12).as_byte(), 0x12);
    assert!(tcp::Flags::from_byte(tcp::Flags::RST).rst());
}

#[test]
fn transport_dispatch_on_protocol() {
    assert!(matches!(Segment::parse(Proto::UDP, a(), b(), udp_bytes(1, 2, b"x")), Ok(Segment::Udp(_))));
    assert!(matches!(Segment::parse(Proto::TCP, a(), b(), tcp_bytes(1, 2, 0, 0, &[], b"")), Ok(Segment::Tcp(_))));
    assert!(matches!(
        Segment::parse(Proto::ICMPv4, a(), b(), vec![8, 0, 0, 0]),
        Err(Error::Unsupported(Proto::ICMPv4))
    ));
    assert!(matches!(Segment::parse(Proto::Unknown(99), a(), b(), vec![]), Err(Error::Unsupported(Proto::Unknown(99)))));
    assert!(matches!(
        Segment::parse(Proto::TCP, a(), b(), vec![1, 2]),
        Err(Error::Truncated(ip::Error::Truncated(2, 20)))
    ));
}

#[test]
fn sequence_order_wraps() {
    assert!(before(1, 2));
    assert!(!before(2, 1));
    assert!(!before(5, 5));
    assert!(before(u32::MAX, 0));
    assert!(!before(0, u32::MAX));
    assert!(before(0xFFFF_FFF0, 0x10));
}

fn ipv4_fragment(id: u16, offset_octets: u16, more: bool, payload: &[u8]) -> Vec<u8> {
    let flags = offset_octets | if more { 0x2000 } else { 0 };
    let total = (20 + payload.len()) as u16;
    let mut p = vec![0x45, 0x00];
    p.extend_from_slice(&total.to_be_bytes());
    p.extend_from_slice(&id.to_be_bytes());
    p.extend_from_slice(&flags.to_be_bytes());
    p.extend_from_slice(&[64, ip::NH_UDP, 0, 0, 192, 168, 0, 1, 192, 168, 0, 2]);
    p.extend_from_slice(payload);
    p
}

fn feed(r: &mut DatagramReassembler, bytes: &[u8]) -> ReassemblyResult<V4> {
    let p = v4::Packet::from_bytes(bytes).unwrap();
    r.process(&p)
}

#[test]
fn unfragmented_packet_passes_through() {
    let mut r = DatagramReassembler::new();
    match feed(&mut r, &ipv4_fragment(1, 0, false, b"whole")) {
        ReassemblyResult::NotFragmented(d) => {
            assert_eq!(d.payload, b"whole");
            assert_eq!(d.id.src, a());
            assert_eq!(d.id.dst, b());
            assert_eq!(d.id.next_protocol, Proto::UDP);
        }
        _ => panic!("expected NotFragmented"),
    }
}

#[test]
fn two_fragments_reassemble_in_either_order() {
    for last_first in [false, true] {
        let mut r = DatagramReassembler::new();
        let first = ipv4_fragment(9, 0, true, b"01234567");
        let second = ipv4_fragment(9, 1, false, b"89a");
        let (x, y) = if last_first { (&second, &first) } else { (&first, &second) };
        assert!(matches!(feed(&mut r, x), ReassemblyResult::Incomplete));
        match feed(&mut r, y) {
            ReassemblyResult::Complete(d) => {
                assert_eq!(d.payload, b"0123456789a");
                assert_eq!(d.id.next_protocol, Proto::UDP);
            }
            _ => panic!("expected Complete"),
        }
    }
}

#[test]
fn completed_datagram_leaves_the_table() {
    let mut r = DatagramReassembler::new();
    let first = ipv4_fragment(3, 0, true, b"AAAAAAAA");
    let second = ipv4_fragment(3, 1, false, b"B");
    assert!(matches!(feed(&mut r, &first), ReassemblyResult::Incomplete));
    assert!(matches!(feed(&mut r, &second), ReassemblyResult::Complete(_)));
    // The same fragments again start a new buffer rather than being duplicates.
    assert!(matches!(feed(&mut r, &first), ReassemblyResult::Incomplete));
    assert!(matches!(feed(&mut r, &second), ReassemblyResult::Complete(_)));
}

#[test]
fn fragments_of_different_datagrams_do_not_mix() {
    let mut r = DatagramReassembler::new();
    assert!(matches!(feed(&mut r, &ipv4_fragment(1, 0, true, b"11111111")), ReassemblyResult::Incomplete));
    assert!(matches!(feed(&mut r, &ipv4_fragment(2, 1, false, b"2")), ReassemblyResult::Incomplete));
    match feed(&mut r, &ipv4_fragment(1, 1, false, b"1")) {
        ReassemblyResult::Complete(d) => assert_eq!(d.payload, b"111111111"),
        _ => panic!("expected Complete"),
    }
}

#[test]
fn fragment_errors() {
    let mut r = DatagramReassembler::new();
    assert!(matches!(
        feed(&mut r, &ipv4_fragment(5, 0, true, b"12345")),
        ReassemblyResult::Rejected(FragError::UnalignedPayload(5))
    ));
    assert!(matches!(feed(&mut r, &ipv4_fragment(5, 0, true, b"12345678")), ReassemblyResult::Incomplete));
    assert!(matches!(
        feed(&mut r, &ipv4_fragment(5, 0, true, b"abcdefgh")),
        ReassemblyResult::Rejected(FragError::DuplicateFragmentOffset(0))
    ));
}

#[test]
fn too_many_fragments_are_refused() {
    let mut r = DatagramReassembler::with_policy(DatagramReassemblyPolicy { max_buffers: 4, max_fragments_per_buffer: 2 });
    assert!(matches!(feed(&mut r, &ipv4_fragment(6, 0, true, b"aaaaaaaa")), ReassemblyResult::Incomplete));
    assert!(matches!(feed(&mut r, &ipv4_fragment(6, 1, true, b"bbbbbbbb")), ReassemblyResult::Incomplete));
    assert!(matches!(
        feed(&mut r, &ipv4_fragment(6, 2, false, b"c")),
        ReassemblyResult::Rejected(FragError::TooManyFragments(3))
    ));
}

#[test]
fn least_recently_used_buffer_is_dropped_when_full() {
    let mut r = DatagramReassembler::with_policy(DatagramReassemblyPolicy { max_buffers: 1, max_fragments_per_buffer: 10 });
    assert!(matches!(feed(&mut r, &ipv4_fragment(1, 0, true, b"11111111")), ReassemblyResult::Incomplete));
    // A second datagram takes the only slot.
    assert!(matches!(feed(&mut r, &ipv4_fragment(2, 0, true, b"22222222")), ReassemblyResult::Incomplete));
    // The first datagram's first fragment is gone: its last fragment cannot complete it.
    assert!(matches!(feed(&mut r, &ipv4_fragment(1, 1, false, b"1")), ReassemblyResult::Incomplete));
}

#[test]
fn default_policy_limits() {
    let p = DatagramReassemblyPolicy::default();
    assert_eq!(p.max_buffers, 1000);
    assert_eq!(p.max_fragments_per_buffer, 500);
}

#[test]
fn buffer_joins_fragments_in_offset_order() {
    let mut buf = DatagramReassemblyBuffer::new(4);
    assert!(buf.assemble().is_none());
    assert_eq!(buf.insert(FragmentInfo { offset_octets: 2, has_more: false }, b"tail"), Ok(()));
    assert!(buf.assemble().is_none());
    assert!(!buf.covers_range());
    assert_eq!(buf.insert(FragmentInfo { offset_octets: 0, has_more: true }, b"AAAAAAAA"), Ok(()));
    assert!(!buf.covers_range());
    assert_eq!(buf.insert(FragmentInfo { offset_octets: 1, has_more: true }, b"BBBBBBBB"), Ok(()));
    assert!(buf.covers_range());
    assert_eq!(buf.assemble().unwrap(), b"AAAAAAAABBBBBBBBtail");
    assert_eq!(
        buf.insert(FragmentInfo { offset_octets: 1, has_more: true }, b"CCCCCCCC"),
        Err(FragError::DuplicateFragmentOffset(1))
    );
}

#[test]
fn network_reassembler_hands_out_whole_datagrams() {
    let mut r = NetworkReassembler::new();
    let whole = ipv4_fragment(1, 0, false, b"hi");
    let p = v4::Packet::from_bytes(&whole).unwrap();
    match r.process(&IpPacket::Ipv4(p)) {
        ip::ReassemblyResult::Ready(ip::Reassembled::Ipv4(d)) => assert_eq!(d.payload, b"hi"),
        _ => panic!("expected Ready"),
    }
    let first = ipv4_fragment(2, 0, true, b"xxxxxxxx");
    let p = v4::Packet::from_bytes(&first).unwrap();
    assert!(matches!(r.process(&IpPacket::Ipv4(p)), ip::ReassemblyResult::Incomplete));
    let bad = ipv4_fragment(2, 1, true, b"yyy");
    let p = v4::Packet::from_bytes(&bad).unwrap();
    assert!(matches!(
        r.process(&IpPacket::Ipv4(p)),
        ip::ReassemblyResult::Rejected(FragError::UnalignedPayload(3))
    ));
}

#[test]
fn reassembled_datagram_yields_its_segment() {
    let mut r = NetworkReassembler::new();
    let bytes = {
        let seg = udp_bytes(7, 9, b"ping");
        ipv4_fragment(4, 0, false, &seg)
    };
    let p = v4::Packet::from_bytes(&bytes).unwrap();
    let d = match r.process(&IpPacket::Ipv4(p)) {
        ip::ReassemblyResult::Ready(d) => d,
        _ => panic!("expected Ready"),
    };
    match d.parse_transport() {
        Ok(ros_flake::transport::Packet::Ipv4(Segment::Udp(s))) => {
            assert_eq!(s.addr.src.port, 7);
            assert_eq!(s.payload(), b"ping");
        }
        _ => panic!("expected a UDP segment"),
    }
}

#[test]
fn full_table_drops_the_least_recently_used_buffer() {
    let mut r = DatagramReassembler::with_policy(DatagramReassemblyPolicy { max_buffers: 2, max_fragments_per_buffer: 10 });
    assert!(matches!(feed(&mut r, &ipv4_fragment(1, 0, true, b"11111111")), ReassemblyResult::Incomplete));
    assert!(matches!(feed(&mut r, &ipv4_fragment(2, 0, true, b"22222222")), ReassemblyResult::Incomplete));
    // Datagram 1 is used again, so datagram 2 is now the least recently used.
    assert!(matches!(feed(&mut r, &ipv4_fragment(1, 1, true, b"11111111")), ReassemblyResult::Incomplete));
    // A third datagram takes the place of datagram 2.
    assert!(matches!(feed(&mut r, &ipv4_fragment(3, 0, true, b"33333333")), ReassemblyResult::Incomplete));
    match feed(&mut r, &ipv4_fragment(1, 2, false, b"1")) {
        ReassemblyResult::Complete(d) => assert_eq!(d.payload, b"11111111111111111"),
        _ => panic!("datagram 1 should still be buffered"),
    }
    // Datagram 2 lost its first fragment.
    assert!(matches!(feed(&mut r, &ipv4_fragment(2, 1, false, b"2")), ReassemblyResult::Incomplete));
}

#[test]
fn unknown_protocol_does_not_share_a_buffer_with_a_named_one() {
    assert_eq!(Proto::TCP.key(), 6);
    assert_eq!(Proto::Unknown(6).key(), 262);
    assert_eq!(Proto::Unknown(200).key(), 456);
    let mut r = DatagramReassembler::new();
    let first = ipv4_fragment(8, 0, true, b"AAAAAAAA");
    let mut p = v4::Packet::from_bytes(&first).unwrap();
    p.next_protocol = Proto::TCP;
    assert!(matches!(r.process(&p), ReassemblyResult::Incomplete));
    let last = ipv4_fragment(8, 1, false, b"B");
    let mut q = v4::Packet::from_bytes(&last).unwrap();
    q.next_protocol = Proto::Unknown(6);
    assert!(matches!(r.process(&q), ReassemblyResult::Incomplete));
    q.next_protocol = Proto::TCP;
    match r.process(&q) {
        ReassemblyResult::Complete(d) => assert_eq!(d.payload, b"AAAAAAAAB"),
        _ => panic!("expected Complete"),
    }
}
