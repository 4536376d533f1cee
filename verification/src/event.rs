//! The decoding pipeline: a raw frame in, the events of every layer out.
use crate::ethernet::{self, link_error, link_frame_matches, link_header, EtherType, LinkFrame};
use crate::ip::{self, arp, frag, IpPacket, NetworkPacket, Reassembled};
use crate::transport::{self, frag::EventModel, StreamEvent, TcpStreamReassembler};
use vstd::prelude::*;

verus! {

/// Why a layer refused a frame.
#[derive(Debug, PartialEq, Eq, Structural)]
pub enum Error {
    Link(ethernet::Error),
    Network(ip::Error),
    UnexpectedNotIp,
    Transport(transport::Error),
}

impl From<transport::Error> for Error {
    fn from(e: transport::Error) -> (r: Self) {
        Error::Transport(e)
    }
}

impl vstd::std_specs::convert::FromSpecImpl<transport::Error> for Error {
    open spec fn obeys_from_spec() -> bool {
        true
    }

    open spec fn from_spec(e: transport::Error) -> Self {
        Error::Transport(e)
    }
}

/// Something that decoding a frame produced.
pub enum Event<'a> {
    /// The link-layer frame.
    Ethernet(LinkFrame<'a>),
    /// An ARP packet.
    Arp(arp::Packet),
    /// A whole IP datagram.
    Reassembled(Reassembled),
    ReassemblyIncomplete,
    ReassemblyRejected(frag::Error),
    /// A transport segment that is not TCP.
    Transport(transport::Packet),
    /// A TCP connection event.
    TcpStream(StreamEvent),
    /// A layer refused the frame.
    Error(Error),
}

/// The events are the TCP stream events `model`, in order.
pub open spec fn tcp_events_match(evs: Seq<Event>, model: Seq<EventModel>) -> bool {
    &&& evs.len() == model.len()
    &&& forall|i: int| 0 <= i < evs.len() ==> (#[trigger] evs[i] matches Event::TcpStream(e) && e@ == model[i])
}

/// The transport packet is a TCP segment.
pub open spec fn is_tcp(pkt: transport::Packet) -> bool {
    pkt matches transport::Packet::Ipv4(transport::Segment::Tcp(_)) || pkt matches transport::Packet::Ipv6(transport::Segment::Tcp(_))
}

/// `r` is what decoding the transport segment of `d` gives.
pub open spec fn transport_of(d: Reassembled, r: Result<transport::Packet, transport::Error>) -> bool {
    match d {
        Reassembled::Ipv4(v) => match r {
            Ok(transport::Packet::Ipv4(s)) => transport::segment_parse(v.id.next_protocol, v.id.src, v.id.dst, v.payload@, Ok(s)),
            Ok(_) => false,
            Err(e) => transport::segment_parse(v.id.next_protocol, v.id.src, v.id.dst, v.payload@, Err(e)),
        },
        Reassembled::Ipv6(v) => match r {
            Ok(transport::Packet::Ipv6(s)) => transport::segment_parse(v.id.next_protocol, v.id.src, v.id.dst, v.payload@, Ok(s)),
            Ok(_) => false,
            Err(e) => transport::segment_parse(v.id.next_protocol, v.id.src, v.id.dst, v.payload@, Err(e)),
        },
    }
}

/// What a whole datagram gives, with the flow tables going from `t0` to `t1`: its
/// transport segment is decoded; a TCP segment goes to the flow tables and gives
/// their events; another segment is one `Transport` event; a refused one is one
/// `Error` event.
pub open spec fn datagram_events(t0: TcpStreamReassembler, t1: TcpStreamReassembler, d: Reassembled, evs: Seq<Event>) -> bool {
    exists|r: Result<transport::Packet, transport::Error>| #[trigger] transport_of(d, r) && match r {
        Ok(pkt) => if is_tcp(pkt) {
            exists|model: Seq<EventModel>| transport::frag::tcp_step(&t0, &t1, &pkt, model) && #[trigger] tcp_events_match(evs, model)
        } else {
            evs == seq![Event::Transport(pkt)] && t1 == t0
        },
        Err(e) => evs == seq![Event::Error(Error::Transport(e))] && t1 == t0,
    }
}

/// What an IP packet gives, with the decoder going from `d0` to `d1`: the
/// reassembler of its version takes it; a whole datagram is handled as in
/// `datagram_events`; otherwise one event says it is incomplete or refused.
pub open spec fn ip_events(d0: Decoder, d1: Decoder, pkt: IpPacket, evs: Seq<Event>) -> bool {
    exists|out: ip::NetOutcome| #[trigger] ip::net_step(&d0.ip_part(), &d1.ip_part(), &pkt, out) && match out {
        ip::NetOutcome::Ready(m) => exists|d: Reassembled| d@ == m && #[trigger] datagram_events(d0.tcp_part(), d1.tcp_part(), d, evs),
        ip::NetOutcome::Incomplete => evs == seq![Event::ReassemblyIncomplete] && d1.tcp_part() == d0.tcp_part(),
        ip::NetOutcome::Rejected(e) => evs == seq![Event::ReassemblyRejected(e)] && d1.tcp_part() == d0.tcp_part(),
        ip::NetOutcome::NotIp => evs == seq![Event::Error(Error::UnexpectedNotIp)] && d1.tcp_part() == d0.tcp_part(),
    }
}

/// The payload of the link frame that `raw` decodes to.
pub open spec fn frame_payload(raw: Seq<u8>) -> Seq<u8> {
    raw.subrange(link_header(raw).4, raw.len() as int)
}

/// Decoding `raw` would read past the end of the extension headers of the IPv6
/// packet it carries.
pub open spec fn frame_overruns(raw: Seq<u8>) -> bool {
    &&& link_error(raw).is_none()
    &&& link_header(raw).3 == EtherType::Ipv6
    &&& ip::v6::parse_panics(frame_payload(raw))
}

/// Decodes frames and keeps the IP and TCP reassembly state between them.
pub struct Decoder {
    ip_reassembler: ip::NetworkReassembler,
    tcp_reassembler: TcpStreamReassembler,
}

impl Decoder {
    /// The IP reassemblers.
    pub closed spec fn ip_part(&self) -> ip::NetworkReassembler {
        self.ip_reassembler
    }

    /// The TCP flow tables.
    pub closed spec fn tcp_part(&self) -> TcpStreamReassembler {
        self.tcp_reassembler
    }

    /// Both parts are well formed.
    pub open spec fn wf(&self) -> bool {
        self.ip_part().wf() && self.tcp_part().wf()
    }

    /// A decoder with empty reassembly state.
    pub fn new() -> (r: Self)
        ensures
            r.wf(),
    {
        Decoder { ip_reassembler: ip::NetworkReassembler::new(), tcp_reassembler: TcpStreamReassembler::new() }
    }

    /// Whether decoding `raw` would read past the end of IPv6 extension headers.
    pub fn overruns(raw: &[u8]) -> (r: bool)
        ensures
            r == frame_overruns(raw@),
    {
        match LinkFrame::parse(raw) {
            Ok(link) => match link.ether_type {
                EtherType::Ipv6 => ip::v6::Packet::parse_would_overrun(link.payload),
                _ => false,
            },
            Err(_) => false,
        }
    }

    /// Decodes one frame. A frame the link layer refuses gives one error event.
    /// Otherwise the frame is the first event, then its payload is decoded: an ARP
    /// packet is an event, an IP packet goes on to reassembly (see `ip_events`),
    /// a refused one gives an error event.
    pub fn push_frame<'a>(&mut self, raw: &'a [u8]) -> (events: Vec<Event<'a>>)
        requires
            old(self).wf(),
            !frame_overruns(raw@),
        ensures
            final(self).wf(),
            match link_error(raw@) {
                Some(e) => events@ == seq![Event::Error(Error::Link(e))] && *final(self) == *old(self),
                None => events@.len() >= 1 && (events@[0] matches Event::Ethernet(f) && link_frame_matches(f, raw@)) && {
                    let rest = events@.subrange(1, events@.len() as int);
                    let payload = frame_payload(raw@);
                    match link_header(raw@).3 {
                        EtherType::Arp => *final(self) == *old(self) && match arp::parse_error(payload) {
                            Some(e) => rest == seq![Event::Error(Error::Network(e))],
                            None => rest.len() == 1 && (rest[0] matches Event::Arp(p) && arp::decodes(p, payload)),
                        },
                        EtherType::Ipv4 => match ip::v4::parse_error(payload) {
                            Some(e) => rest == seq![Event::Error(Error::Network(e))] && *final(self) == *old(self),
                            None => exists|p: ip::v4::Packet| ip::v4::decodes(p, payload)
                                && #[trigger] ip_events(*old(self), *final(self), IpPacket::Ipv4(p), rest),
                        },
                        EtherType::Ipv6 => match ip::v6::parse_result(payload) {
                            Err(e) => rest == seq![Event::Error(Error::Network(e))] && *final(self) == *old(self),
                            Ok(_) => exists|p: ip::v6::Packet| ip::v6::decodes(p, payload)
                                && #[trigger] ip_events(*old(self), *final(self), IpPacket::Ipv6(p), rest),
                        },
                        EtherType::Other(v) => rest == seq![Event::Error(Error::Network(ip::Error::UnknownEtherType(v)))]
                            && *final(self) == *old(self),
                    }
                },
            },
    {
        let mut events: Vec<Event<'a>> = Vec::new();
        let link = match LinkFrame::parse(raw) {
            Ok(v) => v,
            Err(e) => {
                events.push(Event::Error(Error::Link(e)));
                return events;
            },
        };
        let ether_type = link.ether_type;
        let payload = link.payload;
        events.push(Event::Ethernet(link));
        let ghost first = events@;
        match NetworkPacket::parse(ether_type, payload) {
            Ok(NetworkPacket::Arp(v)) => events.push(Event::Arp(v)),
            Ok(NetworkPacket::Ipv4(v)) => {
                let ghost d0 = *self;
                let ghost p = v;
                self.handle_ip_packet(&mut events, IpPacket::Ipv4(v));
                assert(events@.subrange(1, events@.len() as int) =~= events@.subrange(first.len() as int, events@.len() as int));
                assert(ip_events(d0, *self, IpPacket::Ipv4(p), events@.subrange(1, events@.len() as int)));
            },
            Ok(NetworkPacket::Ipv6(v)) => {
                let ghost d0 = *self;
                let ghost p = v;
                self.handle_ip_packet(&mut events, IpPacket::Ipv6(v));
                assert(events@.subrange(1, events@.len() as int) =~= events@.subrange(first.len() as int, events@.len() as int));
                assert(ip_events(d0, *self, IpPacket::Ipv6(p), events@.subrange(1, events@.len() as int)));
            },
            Err(e) => events.push(Event::Error(Error::Network(e))),
        }
        proof {
            let rest = events@.subrange(1, events@.len() as int);
            assert(events@[0] == first[0]);
            assert(first[0] matches Event::Ethernet(f) && link_frame_matches(f, raw@));
            if events@.len() == 2 {
                assert(rest =~= seq![events@[1]]);
            }
        }
        events
    }

    /// Hands an IP packet to reassembly and appends what it gives; see `ip_events`.
    pub fn handle_ip_packet<'a>(&mut self, events: &mut Vec<Event<'a>>, pkt: IpPacket<'a>)
        requires
            old(self).wf(),
            pkt matches IpPacket::Ipv4(p) ==> p.payload@.len() <= frag::MAX_FRAGMENT_BYTES,
            pkt matches IpPacket::Ipv6(p) ==> p.payload@.len() <= frag::MAX_FRAGMENT_BYTES,
        ensures
            final(self).wf(),
            final(events)@.subrange(0, old(events)@.len() as int) == old(events)@,
            final(events)@.len() >= old(events)@.len(),
            ip_events(*old(self), *final(self), pkt, final(events)@.subrange(old(events)@.len() as int, final(events)@.len() as int)),
    {
        let ghost d0 = *self;
        let ghost old_events = events@;
        let result = self.ip_reassembler.process(&pkt);
        let ghost out = result@;
        match result {
            ip::ReassemblyResult::Ready(d) => {
                let ghost dv = d;
                self.handle_ip_datagram(events, d);
                assert(datagram_events(d0.tcp_part(), self.tcp_part(), dv,
                    events@.subrange(old_events.len() as int, events@.len() as int)));
            },
            ip::ReassemblyResult::Incomplete => {
                events.push(Event::ReassemblyIncomplete);
                assert(events@.subrange(old_events.len() as int, events@.len() as int) =~= seq![Event::ReassemblyIncomplete]);
            },
            ip::ReassemblyResult::Rejected(e) => {
                events.push(Event::ReassemblyRejected(e));
                assert(events@.subrange(old_events.len() as int, events@.len() as int) =~= seq![Event::ReassemblyRejected(e)]);
            },
            ip::ReassemblyResult::NotIp => {
                events.push(Event::Error(Error::UnexpectedNotIp));
                assert(events@.subrange(old_events.len() as int, events@.len() as int) =~= seq![Event::Error(Error::UnexpectedNotIp)]);
            },
        }
        assert(events@.subrange(0, old_events.len() as int) =~= old_events);
        assert(ip::net_step(&d0.ip_part(), &self.ip_part(), &pkt, out));
    }

    /// Decodes the transport segment of a whole datagram and appends what it gives;
    /// see `datagram_events`.
    pub fn handle_ip_datagram<'a>(&mut self, events: &mut Vec<Event<'a>>, datagram: Reassembled)
        requires
            old(self).wf(),
        ensures
            final(self).wf(),
            final(self).ip_part() == old(self).ip_part(),
            final(events)@.subrange(0, old(events)@.len() as int) == old(events)@,
            final(events)@.len() >= old(events)@.len(),
            datagram_events(old(self).tcp_part(), final(self).tcp_part(), datagram,
                final(events)@.subrange(old(events)@.len() as int, final(events)@.len() as int)),
    {
        let ghost t0 = self.tcp_part();
        let ghost old_events = events@;
        let ghost dv = datagram;
        let parsed = datagram.parse_transport();
        let ghost pr = parsed;
        match parsed {
            Ok(pkt) => {
                let tcp = match &pkt {
                    transport::Packet::Ipv4(transport::Segment::Tcp(_)) => true,
                    transport::Packet::Ipv6(transport::Segment::Tcp(_)) => true,
                    _ => false,
                };
                if tcp {
                    let mut produced = self.tcp_reassembler.process(&pkt);
                    let ghost all = produced@;
                    assert(all.len() == produced.len());
                    let ghost model = transport::frag::events_view(all);
                    let ghost t1 = self.tcp_part();
                    assert(transport::frag::tcp_step(&t0, &t1, &pkt, model));
                    let mut i: usize = 0;
                    while produced.len() > 0
                        invariant
                            i <= all.len(),
                            all.len() <= usize::MAX,
                            all.len() == i + produced@.len(),
                            produced@ == all.subrange(i as int, all.len() as int),
                            events@.len() == old_events.len() + i,
                            events@.subrange(0, old_events.len() as int) == old_events,
                            forall|j: int| 0 <= j < i ==> (#[trigger] events@[old_events.len() + j] matches Event::TcpStream(e)
                                && e == all[j]),
                        decreases produced@.len(),
                    {
                        let e = produced.remove(0);
                        events.push(Event::TcpStream(e));
                        i = i + 1;
                        assert(produced@ =~= all.subrange(i as int, all.len() as int));
                    }
                    proof {
                        let new_evs = events@.subrange(old_events.len() as int, events@.len() as int);
                        assert(i == all.len());
                        assert forall|j: int| 0 <= j < new_evs.len() implies
                            (#[trigger] new_evs[j] matches Event::TcpStream(e) && e@ == model[j]) by {
                            assert(new_evs[j] == events@[old_events.len() + j]);
                        }
                        assert(tcp_events_match(new_evs, model));
                    }
                } else {
                    events.push(Event::Transport(pkt));
                    assert(events@.subrange(old_events.len() as int, events@.len() as int) =~= seq![Event::Transport(pkt)]);
                }
            },
            Err(e) => {
                events.push(Event::Error(Error::Transport(e)));
                assert(events@.subrange(old_events.len() as int, events@.len() as int) =~= seq![Event::Error(Error::Transport(e))]);
            },
        }
        assert(events@.subrange(0, old_events.len() as int) =~= old_events);
        assert(transport_of(dv, pr));
    }
}

/// The message of a decoding error.
pub open spec fn error_text(e: Error) -> Seq<char> {
    match e {
        Error::Link(e) => "link error: "@ + ethernet::error_text(e),
        Error::Network(e) => "network error: "@ + ip::error_text(e),
        Error::UnexpectedNotIp => "non-IP packet passed to reassembler"@,
        Error::Transport(e) => transport::error_text(e),
    }
}

/// An event as text, one line.
pub open spec fn event_text(e: Event) -> Seq<char> {
    match e {
        Event::Ethernet(link) => ethernet::link_frame_text(link),
        Event::Arp(p) => arp::packet_text(p),
        Event::Reassembled(d) => "Reassembled: "@ + ip::reassembled_text(d),
        Event::ReassemblyIncomplete => "Reassembly: incomplete"@,
        Event::ReassemblyRejected(e) => "Reassembly: rejected ("@ + frag::error_text(e) + ")"@,
        Event::Transport(v) => transport::packet_text(v, false),
        Event::TcpStream(v) => transport::frag::stream_event_text(v@, false),
        Event::Error(e) => "Error: "@ + error_text(e),
    }
}

/// An event can be written: a transport segment's data range lies within its bytes.
pub open spec fn event_printable(e: Event) -> bool {
    match e {
        Event::Transport(v) => transport::packet_wf(v),
        _ => true,
    }
}

impl Error {
    /// The error's message.
    pub fn message(&self) -> (r: String)
        ensures
            r@ == error_text(*self),
    {
        match self {
            Error::Link(e) => {
                let mut s = String::from_str("link error: ");
                s.append(e.message().as_str());
                s
            },
            Error::Network(e) => {
                let mut s = String::from_str("network error: ");
                s.append(e.message().as_str());
                s
            },
            Error::UnexpectedNotIp => String::from_str("non-IP packet passed to reassembler"),
            Error::Transport(e) => e.message(),
        }
    }
}

fn segment_printable<A: ip::Addr>(s: &transport::Segment<A>) -> (r: bool)
    ensures
        r == transport::segment_wf(*s),
{
    match s {
        transport::Segment::Tcp(t) => t.data_range.start <= t.data_range.end && t.data_range.end <= t.buf.len(),
        transport::Segment::Udp(u) => u.has_payload(),
        transport::Segment::Icmp(_) => true,
    }
}

impl<'a> Event<'a> {
    /// Whether `to_text` may be called: a transport segment's data range lies within its bytes.
    pub fn printable(&self) -> (r: bool)
        ensures
            r == event_printable(*self),
    {
        match self {
            Event::Transport(transport::Packet::Ipv4(s)) => segment_printable(s),
            Event::Transport(transport::Packet::Ipv6(s)) => segment_printable(s),
            _ => true,
        }
    }

    /// The event as one line of text.
    pub fn to_text(&self) -> (r: String)
        requires
            event_printable(*self),
        ensures
            r@ == event_text(*self),
    {
        match self {
            Event::Ethernet(link) => link.to_text(),
            Event::Arp(p) => p.to_text(),
            Event::Reassembled(d) => {
                let mut s = String::from_str("Reassembled: ");
                s.append(d.to_text().as_str());
                s
            },
            Event::ReassemblyIncomplete => String::from_str("Reassembly: incomplete"),
            Event::ReassemblyRejected(e) => {
                let mut s = String::from_str("Reassembly: rejected (");
                s.append(e.message().as_str());
                s.append(")");
                s
            },
            Event::Transport(v) => v.to_text(false),
            Event::TcpStream(v) => v.to_text(false),
            Event::Error(e) => {
                let mut s = String::from_str("Error: ");
                s.append(e.message().as_str());
                s
            },
        }
    }
}

} // verus!
