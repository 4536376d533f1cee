use ros_flake::ip;
use ros_flake::transport::frag::{
    CloseReason, Flow, FlowResult, HalfStream, IgnoreReason, IngestResult, OpenHalfStream, SegmentInfo,
};
use ros_flake::transport::{tcp, AddrPair, SockAddr};

const ACK: u8 = tcp::Flags::ACK;
const FIN: u8 = tcp::Flags::FIN;
const PSH: u8 = tcp::Flags::PSH;
const RST: u8 = tcp::Flags::RST;
const SYN: u8 = tcp::Flags::SYN;

fn seg<'a>(seq: u32, payload: &'a [u8], f: u8) -> SegmentInfo<'a> {
    SegmentInfo { seq, payload, flags: tcp::Flags::from_byte(f) }
}

fn assert_ok(r: IngestResult, expect: &[u8], fin: bool) {
    match r {
        IngestResult::Accepted { delivered, fin_complete } => {
            assert_eq!(delivered, expect);
            assert_eq!(fin_complete, fin);
        }
        other => panic!("expected Accepted, got {other:?}"),
    }
}

fn assert_ignore(r: IngestResult, reason: IgnoreReason) {
    match r {
        IngestResult::Ignore(got) => assert_eq!(got, reason),
        other => panic!("expected Ignore({reason:?}), got {other:?}"),
    }
}

#[test]
fn in_order_delivers_after_syn() {
    let mut h = OpenHalfStream::from_syn(1000);
    assert_eq!(h.next_seq, 1001);

    assert_ok(h.ingest(seg(1001, b"GET", ACK | PSH)), b"GET", false);
    assert_eq!(h.next_seq, 1004);
    assert!(h.ooo_buffer.is_empty());
}

#[test]
fn ooo_holds_until_gap_filled() {
    let mut h = OpenHalfStream::from_syn(1000);

    assert_ok(h.ingest(seg(1005, b"YY", ACK)), b"", false);
    assert_eq!(h.next_seq, 1001);
    assert_eq!(h.ooo_buffer.len(), 1);

    assert_ok(h.ingest(seg(1001, b"XXXX", ACK)), b"XXXXYY", false);
    assert_eq!(h.next_seq, 1007);
    assert!(h.ooo_buffer.is_empty());
}

#[test]
fn full_duplicate_is_ignored() {
    let mut h = OpenHalfStream::from_syn(1000);

    assert_ok(h.ingest(seg(1001, b"AB", ACK)), b"AB", false);
    assert_eq!(h.next_seq, 1003);

    assert_ignore(h.ingest(seg(1001, b"AB", ACK)), IgnoreReason::Duplicate);
    assert_eq!(h.next_seq, 1003);
}

#[test]
fn partial_overlap_delivers_new_suffix() {
    let mut h = OpenHalfStream::from_syn(1000);

    assert_ok(h.ingest(seg(1001, b"HELLO", ACK)), b"HELLO", false);
    assert_eq!(h.next_seq, 1006);

    assert_ok(h.ingest(seg(1003, b"LLO!", ACK)), b"!", false);
    assert_eq!(h.next_seq, 1007);
    assert!(h.ooo_buffer.is_empty());
}

#[test]
fn keep_first_on_duplicate_ooo_key() {
    let mut h = OpenHalfStream::from_syn(1000);

    assert_ok(h.ingest(seg(1010, b"AAA", ACK)), b"", false);
    assert_ok(h.ingest(seg(1010, b"BBB", ACK)), b"", false);
    assert_eq!(h.ooo_buffer.get(&1010).map(Vec::as_slice), Some(&b"AAA"[..]));

    // 9 bytes: 1001..1010, then drain the kept OOO chunk
    assert_ok(h.ingest(seg(1001, b".........", ACK)), b".........AAA", false);
    assert_eq!(h.next_seq, 1013);
    assert!(h.ooo_buffer.is_empty());
}

#[test]
fn fin_with_data_completes() {
    let mut h = OpenHalfStream::from_syn(1000);

    assert_ok(h.ingest(seg(1001, b"bye", ACK | FIN)), b"bye", true);
    assert_eq!(h.next_seq, 1005); // 1001 + 3 data + 1 FIN
    assert!(h.ooo_buffer.is_empty());
}

#[test]
fn fin_only_after_data_completes() {
    let mut h = OpenHalfStream::from_syn(1000);

    assert_ok(h.ingest(seg(1001, b"x", ACK)), b"x", false);
    assert_eq!(h.next_seq, 1002);

    assert_ok(h.ingest(seg(1002, b"", ACK | FIN)), b"", true);
    assert_eq!(h.next_seq, 1003);
}

#[test]
fn fin_before_missing_data_waits() {
    let mut h = OpenHalfStream::from_syn(1000);

    assert_ok(h.ingest(seg(1005, b"", ACK | FIN)), b"", false);
    assert_eq!(h.next_seq, 1001);
    assert_eq!(h.fin_seq, Some(1005));

    assert_ok(h.ingest(seg(1001, b"XXXX", ACK)), b"XXXX", true);
    assert_eq!(h.next_seq, 1006);
    assert!(h.ooo_buffer.is_empty());
}

#[test]
fn rst_returns_reset() {
    let mut h = OpenHalfStream::from_syn(1000);

    match h.ingest(seg(1001, b"", RST)) {
        IngestResult::Reset => {}
        other => panic!("expected Reset, got {other:?}"),
    }
}

#[test]
fn midstream_open_delivers_from_first_seq() {
    let mut h = OpenHalfStream::from_midstream(500);

    assert_ok(h.ingest(seg(500, b"hi", ACK)), b"hi", false);
    assert_eq!(h.next_seq, 502);
}

#[test]
fn sequence_wraparound() {
    // (u32::MAX - 1) + 2 bytes wraps to 0
    let mut h = OpenHalfStream::from_midstream(u32::MAX - 1);

    assert_ok(h.ingest(seg(u32::MAX - 1, b"ab", ACK)), b"ab", false);
    assert_eq!(h.next_seq, 0);

    assert_ok(h.ingest(seg(0, b"c", ACK)), b"c", false);
    assert_eq!(h.next_seq, 1);
}

#[test]
fn pure_ack_is_ignored_as_empty() {
    let mut h = OpenHalfStream::from_syn(1000);

    assert_ignore(h.ingest(seg(1001, b"", ACK)), IgnoreReason::Empty);
    assert_eq!(h.next_seq, 1001);
}

type V4 = ip::v4::Addr;

fn sockaddr(host: [u8; 4], port: u16) -> SockAddr<V4> {
    SockAddr { host: V4::from(host), port }
}

fn client() -> SockAddr<V4> {
    sockaddr([10, 0, 0, 1], 50_000)
}

fn server() -> SockAddr<V4> {
    sockaddr([10, 0, 0, 2], 6379)
}

fn tcp_segment(src: SockAddr<V4>, dst: SockAddr<V4>, seq: u32, payload: &'_ [u8], flags: u8) -> tcp::Segment<V4> {
    tcp::Segment {
        header: tcp::Header {
            src_port: src.port,
            dst_port: dst.port,
            seq_number: seq,
            ack_number: 0,
            data_offset_and_reserved: 0,
            flags: tcp::Flags::from_byte(flags),
            window: 0,
            checksum: 0,
            urgent_ptr: 0,
        },
        buf: payload.to_owned(),
        addr: AddrPair { src, dst },
        data_range: 0..payload.len(),
        _opts_range: 0..0,
    }
}

fn assert_forward_ok(r: FlowResult, expect: &[u8], fin: bool) {
    match r {
        FlowResult::Forward(inner) => assert_ok(inner, expect, fin),
        other => panic!("expected Forward, got {other:?}"),
    }
}

fn assert_reverse_ok(r: FlowResult, expect: &[u8], fin: bool) {
    match r {
        FlowResult::Reverse(inner) => assert_ok(inner, expect, fin),
        other => panic!("expected Reverse, got {other:?}"),
    }
}

fn assert_forward_reset(r: FlowResult) {
    match r {
        FlowResult::Forward(IngestResult::Reset) => {}
        other => panic!("expected Forward(Reset), got {other:?}"),
    }
}

fn assert_reverse_already_closed(r: FlowResult) {
    match r {
        FlowResult::Reverse(IngestResult::AlreadyClosed) => {}
        other => panic!("expected Reverse(AlreadyClosed), got {other:?}"),
    }
}

fn assert_forward_opened(r: FlowResult) {
    match r {
        FlowResult::Forward(IngestResult::Opened) => {}
        other => panic!("expected Forward(Opened), got {other:?}"),
    }
}

fn assert_reverse_opened(r: FlowResult) {
    match r {
        FlowResult::Reverse(IngestResult::Opened) => {}
        other => panic!("expected Reverse(Opened), got {other:?}"),
    }
}

fn half_closed_rst(h: &HalfStream) -> bool {
    matches!(h, HalfStream::Closed(CloseReason::Rst))
}

fn half_closed_fin(h: &HalfStream) -> bool {
    matches!(h, HalfStream::Closed(CloseReason::Fin))
}

fn half_open(h: &HalfStream) -> bool {
    matches!(h, HalfStream::Open(_))
}

fn half_idle(h: &HalfStream) -> bool {
    matches!(h, HalfStream::Idle)
}

fn open_handshake(flow: &mut Flow) {
    assert_forward_opened(flow.ingest(&tcp_segment(client(), server(), 1000, b"", SYN)));
    assert_reverse_opened(flow.ingest(&tcp_segment(server(), client(), 5000, b"", SYN | ACK)));
    assert!(half_open(&flow.streams.0));
    assert!(half_open(&flow.streams.1));
}

#[test]
fn forward_and_reverse_deliver_independently() {
    let mut flow = Flow::new(client(), server());

    assert_forward_opened(flow.ingest(&tcp_segment(client(), server(), 1000, b"", SYN)));
    assert!(half_open(&flow.streams.0));
    assert!(half_idle(&flow.streams.1));

    assert_reverse_opened(flow.ingest(&tcp_segment(server(), client(), 5000, b"", SYN | ACK)));
    assert!(half_open(&flow.streams.0));
    assert!(half_open(&flow.streams.1));

    assert_forward_ok(flow.ingest(&tcp_segment(client(), server(), 1001, b"PING", ACK | PSH)), b"PING", false);
    assert_reverse_ok(flow.ingest(&tcp_segment(server(), client(), 5001, b"PONG", ACK | PSH)), b"PONG", false);
    assert!(half_open(&flow.streams.0));
    assert!(half_open(&flow.streams.1));
}

#[test]
fn fin_closes_only_sending_half() {
    let mut flow = Flow::new(client(), server());
    open_handshake(&mut flow);

    assert_forward_ok(flow.ingest(&tcp_segment(client(), server(), 1001, b"bye", ACK | FIN)), b"bye", true);
    assert!(half_closed_fin(&flow.streams.0));
    assert!(half_open(&flow.streams.1));

    assert_reverse_ok(flow.ingest(&tcp_segment(server(), client(), 5001, b"ok", ACK | PSH)), b"ok", false);
    assert!(half_closed_fin(&flow.streams.0));
    assert!(half_open(&flow.streams.1));
}

#[test]
fn rst_closes_both_halves() {
    let mut flow = Flow::new(client(), server());
    open_handshake(&mut flow);
    flow.ingest(&tcp_segment(client(), server(), 1001, b"x", ACK));
    flow.ingest(&tcp_segment(server(), client(), 5001, b"y", ACK));

    assert_forward_reset(flow.ingest(&tcp_segment(client(), server(), 1002, b"", RST)));
    assert!(half_closed_rst(&flow.streams.0));
    assert!(half_closed_rst(&flow.streams.1));
}

#[test]
fn rst_closes_idle_peer_half() {
    let mut flow = Flow::new(client(), server());

    assert_forward_opened(flow.ingest(&tcp_segment(client(), server(), 1000, b"", SYN)));
    assert!(half_open(&flow.streams.0));
    assert!(half_idle(&flow.streams.1));

    assert_forward_reset(flow.ingest(&tcp_segment(client(), server(), 1001, b"", RST)));
    assert!(half_closed_rst(&flow.streams.0));
    assert!(half_closed_rst(&flow.streams.1));
}

#[test]
fn already_closed_after_rst() {
    let mut flow = Flow::new(client(), server());
    open_handshake(&mut flow);
    assert_forward_reset(flow.ingest(&tcp_segment(client(), server(), 1001, b"", RST)));

    assert_reverse_already_closed(flow.ingest(&tcp_segment(server(), client(), 5001, b"late", ACK | PSH)));
    assert!(half_closed_rst(&flow.streams.0));
    assert!(half_closed_rst(&flow.streams.1));
}
