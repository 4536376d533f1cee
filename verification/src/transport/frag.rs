//! TCP stream reassembly: per-direction half streams, flows and the flow table.
use super::tcp;
use crate::cache;
use crate::cache::FlowKey;
use lru::LruCache;
use crate::ip::Addr;
use crate::text::{decimal, decimal_text, payload_text, payload_text_of};
use std::collections::BTreeMap;
use vstd::prelude::*;

verus! {

broadcast use vstd::std_specs::btree::group_btree_axioms;

/// Whether sequence number `a` comes before `b`, modulo 2^32 (RFC 1982 serial arithmetic).
pub open spec fn seq_before(a: u32, b: u32) -> bool {
    a.wrapping_sub(b) >= 0x8000_0000
}

/// Checks whether sequence number `a` comes before `b`, with wraparound.
pub fn before(a: u32, b: u32) -> (r: bool)
    ensures
        r == seq_before(a, b),
{
    let d: u32 = a.wrapping_sub(b);
    let s: i32 = d as i32;
    assert((d as i32) < 0 <==> d >= 0x8000_0000) by (bit_vector);
    s < 0
}

/// Serial order is strict: no sequence number comes both before and after another.
pub proof fn lemma_before_asymmetric(a: u32, b: u32)
    ensures
        !(seq_before(a, b) && seq_before(b, a)) || a.wrapping_sub(b) == 0x8000_0000,
        !seq_before(a, a),
{
}

/// The bytes, sequence number and flags of a segment, as one half stream sees them.
pub struct SegmentInfo<'a> {
    pub seq: u32,
    pub payload: &'a [u8],
    pub flags: tcp::Flags,
}

impl<'a> SegmentInfo<'a> {
    /// Takes the sequence number, flags and data of a TCP segment.
    pub fn from_segment<A: Addr>(value: &'a tcp::Segment<A>) -> (r: SegmentInfo<'a>)
        requires
            value.wf(),
        ensures
            r.seq == value.header.seq_number,
            r.flags == value.header.flags,
            r.payload@ == value.data(),
    {
        SegmentInfo { seq: value.header.seq_number, flags: value.header.flags, payload: value.payload() }
    }
}

/// Why a half stream was closed.
#[derive(Debug, Clone, Copy, PartialEq, Eq, Structural)]
pub enum CloseReason {
    Fin,
    Rst,
}

/// Why a segment changed nothing.
#[derive(Debug, Clone, Copy, PartialEq, Eq, Structural)]
pub enum IgnoreReason {
    /// All its data had been delivered already (or it was a repeated SYN).
    Duplicate,
    /// It carried no data and no FIN.
    Empty,
}

/// What one segment did to a half stream.
#[derive(Debug)]
pub enum IngestResult {
    /// An idle half was opened by a SYN that carried nothing else.
    Opened,
    /// The half was closed already.
    AlreadyClosed,
    /// The segment was taken: `delivered` is the data that became contiguous,
    /// and `fin_complete` says that the FIN was reached.
    Accepted { delivered: Vec<u8>, fin_complete: bool },
    /// The segment carried RST.
    Reset,
    Ignore(IgnoreReason),
}

/// `IngestResult` with the delivered bytes as a sequence.
pub enum Outcome {
    Opened,
    AlreadyClosed,
    Accepted { delivered: Seq<u8>, fin_complete: bool },
    Reset,
    Ignore(IgnoreReason),
}

impl View for IngestResult {
    type V = Outcome;

    open spec fn view(&self) -> Outcome {
        match self {
            IngestResult::Opened => Outcome::Opened,
            IngestResult::AlreadyClosed => Outcome::AlreadyClosed,
            IngestResult::Accepted { delivered, fin_complete } => Outcome::Accepted { delivered: delivered@, fin_complete: *fin_complete },
            IngestResult::Reset => Outcome::Reset,
            IngestResult::Ignore(r) => Outcome::Ignore(*r),
        }
    }
}

/// One direction of a connection after it was opened.
pub struct OpenHalfStream {
    /// The initial sequence number, or the first sequence number seen when the SYN was missed.
    pub _isn: u32,
    /// The sequence number of the first byte not yet delivered.
    pub next_seq: u32,
    /// Data that arrived ahead of `next_seq`, by its first sequence number.
    pub ooo_buffer: BTreeMap<u32, Vec<u8>>,
    /// The sequence number of the FIN, once one was seen.
    pub fin_seq: Option<u32>,
}

/// An open half stream as plain values.
pub struct OpenModel {
    pub isn: u32,
    pub next_seq: u32,
    pub ooo: Map<u32, Seq<u8>>,
    pub fin_seq: Option<u32>,
}

/// The contents of an out-of-order buffer as byte sequences.
pub open spec fn ooo_view(m: Map<u32, Vec<u8>>) -> Map<u32, Seq<u8>> {
    m.map_values(|v: Vec<u8>| v@)
}

impl View for OpenHalfStream {
    type V = OpenModel;

    open spec fn view(&self) -> OpenModel {
        OpenModel {
            isn: self._isn,
            next_seq: self.next_seq,
            ooo: ooo_view(self.ooo_buffer@),
            fin_seq: self.fin_seq,
        }
    }
}

/// Delivering from `next`: every buffered chunk that starts exactly where the
/// delivered data ends is taken out, in turn, at most `fuel` of them. Gives the
/// delivered bytes, the new `next` and what stays buffered.
pub open spec fn drain(m: Map<u32, Seq<u8>>, next: u32, fuel: nat) -> (Seq<u8>, u32, Map<u32, Seq<u8>>)
    decreases fuel,
{
    if fuel == 0 || !m.contains_key(next) {
        (Seq::empty(), next, m)
    } else {
        let c = m[next];
        let rest = drain(m.remove(next), next.wrapping_add(c.len() as u32), (fuel - 1) as nat);
        (c + rest.0, rest.1, rest.2)
    }
}

/// `drain` with enough fuel to take every chunk.
pub open spec fn drain_all(m: Map<u32, Seq<u8>>, next: u32) -> (Seq<u8>, u32, Map<u32, Seq<u8>>) {
    drain(m, next, m.dom().len())
}

/// The state of a half stream opened by a SYN with sequence number `isn`.
pub open spec fn open_from_syn(isn: u32) -> OpenModel {
    OpenModel { isn, next_seq: isn.wrapping_add(1), ooo: Map::empty(), fin_seq: None }
}

/// The state of a half stream first seen mid-connection at sequence number `seq`.
pub open spec fn open_from_midstream(seq: u32) -> OpenModel {
    OpenModel { isn: seq, next_seq: seq, ooo: Map::empty(), fin_seq: None }
}

/// The segment's data lies wholly before `next`: it was delivered already.
pub open spec fn all_delivered(next: u32, seq: u32, data: Seq<u8>) -> bool {
    seq_before(seq, next) && next.wrapping_sub(seq) >= data.len()
}

/// The part of a segment's data not yet delivered, and where it starts.
pub open spec fn new_part(next: u32, seq: u32, data: Seq<u8>) -> (u32, Seq<u8>) {
    if seq_before(seq, next) {
        let skip = next.wrapping_sub(seq) as int;
        if skip >= data.len() {
            (next, Seq::empty())
        } else {
            (next, data.subrange(skip, data.len() as int))
        }
    } else {
        (seq, data)
    }
}

/// What one segment does to an open half stream: the new state and the outcome.
pub open spec fn open_ingest(s: OpenModel, seq: u32, data: Seq<u8>, flags: u8) -> (OpenModel, Outcome) {
    if tcp::has_bit(flags, 4) {
        (s, Outcome::Reset)
    } else if tcp::has_bit(flags, 2) {
        (s, Outcome::Ignore(IgnoreReason::Duplicate))
    } else if all_delivered(s.next_seq, seq, data) && !tcp::has_bit(flags, 1) {
        (s, Outcome::Ignore(IgnoreReason::Duplicate))
    } else {
        let (dseq, d) = new_part(s.next_seq, seq, data);
        let fin_seq = if tcp::has_bit(flags, 1) {
            Some(dseq.wrapping_add(d.len() as u32))
        } else {
            s.fin_seq
        };
        if d.len() == 0 && fin_seq is None {
            (s, Outcome::Ignore(IgnoreReason::Empty))
        } else {
            let ooo = if d.len() > 0 && !s.ooo.contains_key(dseq) { s.ooo.insert(dseq, d) } else { s.ooo };
            let (delivered, next, left) = drain_all(ooo, s.next_seq);
            let done = fin_seq matches Some(f) && next == f;
            let next2 = if done { next.wrapping_add(1) } else { next };
            (OpenModel { isn: s.isn, next_seq: next2, ooo: left, fin_seq }, Outcome::Accepted { delivered, fin_complete: done })
        }
    }
}

proof fn lemma_ooo_view_dom(m: Map<u32, Vec<u8>>)
    ensures
        ooo_view(m).dom() == m.dom(),
{
    assert(ooo_view(m).dom() =~= m.dom());
}

proof fn lemma_ooo_view_insert(m: Map<u32, Vec<u8>>, k: u32, v: Vec<u8>)
    ensures
        ooo_view(m.insert(k, v)) == ooo_view(m).insert(k, v@),
{
    assert(ooo_view(m.insert(k, v)) =~= ooo_view(m).insert(k, v@));
}

proof fn lemma_ooo_view_remove(m: Map<u32, Vec<u8>>, k: u32)
    ensures
        ooo_view(m.remove(k)) == ooo_view(m).remove(k),
{
    assert(ooo_view(m.remove(k)) =~= ooo_view(m).remove(k));
}

impl OpenHalfStream {
    /// Opens a half stream at a SYN: the SYN takes one sequence number.
    pub fn from_syn(isn: u32) -> (r: Self)
        ensures
            r@ == open_from_syn(isn),
    {
        let r = OpenHalfStream { _isn: isn, next_seq: isn.wrapping_add(1), ooo_buffer: BTreeMap::new(), fin_seq: None };
        assert(r@.ooo =~= Map::empty());
        r
    }

    /// Opens a half stream at the first segment seen, when its SYN was missed.
    pub fn from_midstream(first_data_seq: u32) -> (r: Self)
        ensures
            r@ == open_from_midstream(first_data_seq),
    {
        let r = OpenHalfStream {
            _isn: first_data_seq,
            next_seq: first_data_seq,
            ooo_buffer: BTreeMap::new(),
            fin_seq: None,
        };
        assert(r@.ooo =~= Map::empty());
        r
    }

    /// Takes out every buffered chunk that starts exactly at `next_seq`, in turn,
    /// and returns their bytes in order.
    pub fn drain_ooo(&mut self) -> (delivered: Vec<u8>)
        ensures
            delivered@ == drain_all(old(self)@.ooo, old(self).next_seq).0,
            final(self).next_seq == drain_all(old(self)@.ooo, old(self).next_seq).1,
            final(self)@.ooo == drain_all(old(self)@.ooo, old(self).next_seq).2,
            final(self)._isn == old(self)._isn,
            final(self).fin_seq == old(self).fin_seq,
    {
        let mut delivered: Vec<u8> = Vec::new();
        let ghost m0 = self@.ooo;
        let ghost n0 = self.next_seq;
        assert(m0 == old(self)@.ooo && n0 == old(self).next_seq);
        proof {
            lemma_ooo_view_dom(self.ooo_buffer@);
        }
        assert(delivered@ + drain_all(self@.ooo, self.next_seq).0 == drain_all(m0, n0).0);
        loop
            invariant
                m0 == old(self)@.ooo,
                n0 == old(self).next_seq,
                self._isn == old(self)._isn,
                self.fin_seq == old(self).fin_seq,
                self@.ooo.dom().finite(),
                delivered@ + drain_all(self@.ooo, self.next_seq).0 == drain_all(m0, n0).0,
                drain_all(self@.ooo, self.next_seq).1 == drain_all(m0, n0).1,
                drain_all(self@.ooo, self.next_seq).2 == drain_all(m0, n0).2,
            decreases self@.ooo.dom().len(),
        {
            let ghost before_m = self.ooo_buffer@;
            match self.ooo_buffer.remove(&self.next_seq) {
                Some(chunk) => {
                    proof {
                        lemma_ooo_view_remove(before_m, self.next_seq);
                        lemma_ooo_view_dom(before_m);
                        lemma_ooo_view_dom(self.ooo_buffer@);
                    }
                    let ghost old_next = self.next_seq;
                    let ghost old_delivered = delivered@;
                    self.next_seq = self.next_seq.wrapping_add(#[verifier::truncate] (chunk.len() as u32));
                    let mut chunk = chunk;
                    delivered.append(&mut chunk);
                    proof {
                        assert(ooo_view(before_m).contains_key(old_next));
                        assert(ooo_view(before_m)[old_next] == before_m[old_next]@);
                        assert(ooo_view(before_m).dom().len() == ooo_view(before_m).remove(old_next).dom().len() + 1);
                        vstd::seq_lib::lemma_concat_associative(old_delivered, before_m[old_next]@,
                            drain_all(self@.ooo, self.next_seq).0);
                    }
                },
                None => {
                    proof {
                        lemma_ooo_view_dom(before_m);
                        assert(!ooo_view(before_m).contains_key(self.next_seq));
                        assert(delivered@ + Seq::<u8>::empty() =~= delivered@);
                        assert(self@.ooo == ooo_view(before_m));
                        assert(drain_all(self@.ooo, self.next_seq) == (Seq::<u8>::empty(), self.next_seq, self@.ooo));
                        assert(delivered@ == drain_all(m0, n0).0);
                        assert(self.next_seq == drain_all(m0, n0).1);
                        assert(self@.ooo == drain_all(m0, n0).2);
                    }
                    return delivered;
                },
            }
        }
    }
}

impl OpenHalfStream {
    /// Consumes the FIN's sequence number once every byte before it was delivered.
    pub fn try_complete_fin(&mut self) -> (done: bool)
        ensures
            done == (old(self).fin_seq matches Some(f) && old(self).next_seq == f),
            final(self).next_seq == (if done { old(self).next_seq.wrapping_add(1) } else { old(self).next_seq }),
            final(self)._isn == old(self)._isn,
            final(self).fin_seq == old(self).fin_seq,
            final(self).ooo_buffer == old(self).ooo_buffer,
    {
        match self.fin_seq {
            Some(fin_seq) => {
                if self.next_seq == fin_seq {
                    self.next_seq = fin_seq.wrapping_add(1);
                    true
                } else {
                    false
                }
            },
            None => false,
        }
    }

    /// Takes one segment: RST resets; a repeated SYN, data that was all delivered
    /// already (without FIN) and segments with neither data nor FIN are ignored;
    /// otherwise the new part of the data is buffered (the first copy of a chunk
    /// stays), a FIN's sequence number is remembered, and everything now contiguous
    /// is delivered.
    pub fn ingest(&mut self, seg: SegmentInfo) -> (r: IngestResult)
        ensures
            final(self)@ == open_ingest(old(self)@, seg.seq, seg.payload@, seg.flags.bits()).0,
            r@ == open_ingest(old(self)@, seg.seq, seg.payload@, seg.flags.bits()).1,
    {
        if seg.flags.rst() {
            return IngestResult::Reset;
        }
        if seg.flags.syn() {
            return IngestResult::Ignore(IgnoreReason::Duplicate);
        }
        let ghost s0 = self@;
        let mut data_seq: u32 = seg.seq;
        let mut data: &[u8] = seg.payload;
        if before(data_seq, self.next_seq) {
            let skipped_prefix: usize = self.next_seq.wrapping_sub(data_seq) as usize;
            if skipped_prefix >= data.len() {
                if !seg.flags.fin() {
                    return IngestResult::Ignore(IgnoreReason::Duplicate);
                }
                data = &data[0..0];
            } else {
                data = &data[skipped_prefix..data.len()];
            }
            data_seq = self.next_seq;
        }
        assert((data_seq, data@) == new_part(s0.next_seq, seg.seq, seg.payload@));
        if seg.flags.fin() {
            self.fin_seq = Some(data_seq.wrapping_add(#[verifier::truncate] (data.len() as u32)));
        }
        if data.len() == 0 && self.fin_seq.is_none() {
            return IngestResult::Ignore(IgnoreReason::Empty);
        }
        if data.len() > 0 {
            if !self.ooo_buffer.contains_key(&data_seq) {
                let ghost m = self.ooo_buffer@;
                let v = vstd::slice::slice_to_vec(data);
                self.ooo_buffer.insert(data_seq, v);
                proof {
                    lemma_ooo_view_insert(m, data_seq, v);
                }
            }
        }
        let delivered = self.drain_ooo();
        let fin_complete = self.try_complete_fin();
        IngestResult::Accepted { delivered, fin_complete }
    }
}

/// One direction of a connection.
pub enum HalfStream {
    Idle,
    Open(OpenHalfStream),
    Closed(CloseReason),
}

/// A half stream as plain values.
pub enum HalfModel {
    Idle,
    Open(OpenModel),
    Closed(CloseReason),
}

impl View for HalfStream {
    type V = HalfModel;

    open spec fn view(&self) -> HalfModel {
        match self {
            HalfStream::Idle => HalfModel::Idle,
            HalfStream::Open(o) => HalfModel::Open(o@),
            HalfStream::Closed(r) => HalfModel::Closed(*r),
        }
    }
}

/// The flag byte without SYN.
pub open spec fn bits_without_syn(bits: u8) -> u8 {
    bits & 0xFD
}

/// The same flags with SYN cleared.
pub fn flags_without_syn(flags: tcp::Flags) -> (r: tcp::Flags)
    ensures
        r.bits() == bits_without_syn(flags.bits()),
{
    let b: u8 = flags.as_byte();
    let m: u8 = !tcp::Flags::SYN;
    assert(m == 0xFD) by (bit_vector)
        requires
            m == !2u8,
    ;
    tcp::Flags::from_byte(b & m)
}

/// The state an open half takes after a segment: closed by RST, closed by a
/// completed FIN, open otherwise.
pub open spec fn after_open(o: OpenModel, out: Outcome) -> HalfModel {
    match out {
        Outcome::Reset => HalfModel::Closed(CloseReason::Rst),
        Outcome::Accepted { fin_complete: true, .. } => HalfModel::Closed(CloseReason::Fin),
        _ => HalfModel::Open(o),
    }
}

/// An open half takes a segment.
pub open spec fn open_step(o: OpenModel, seq: u32, data: Seq<u8>, flags: u8) -> (HalfModel, Outcome) {
    let (o2, out) = open_ingest(o, seq, data, flags);
    (after_open(o2, out), out)
}

/// What one segment does to a half stream. An idle half is closed by RST, opened by
/// SYN (which takes one sequence number; data or FIN on the SYN is then taken by the
/// open half), opened mid-connection by data or FIN, and ignores anything else. A
/// closed half stays closed.
pub open spec fn half_ingest(h: HalfModel, seq: u32, data: Seq<u8>, flags: u8) -> (HalfModel, Outcome) {
    match h {
        HalfModel::Idle => {
            if tcp::has_bit(flags, 4) {
                (HalfModel::Closed(CloseReason::Rst), Outcome::Reset)
            } else if tcp::has_bit(flags, 2) {
                if data.len() == 0 && !tcp::has_bit(flags, 1) {
                    (HalfModel::Open(open_from_syn(seq)), Outcome::Opened)
                } else {
                    open_step(open_from_syn(seq), seq.wrapping_add(1), data, bits_without_syn(flags))
                }
            } else if data.len() > 0 || tcp::has_bit(flags, 1) {
                open_step(open_from_midstream(seq), seq, data, flags)
            } else {
                (HalfModel::Idle, Outcome::Ignore(IgnoreReason::Empty))
            }
        },
        HalfModel::Open(o) => open_step(o, seq, data, flags),
        HalfModel::Closed(r) => (HalfModel::Closed(r), Outcome::AlreadyClosed),
    }
}

impl HalfStream {
    /// The state after an open half took a segment with outcome `out`.
    pub fn after_open_ingest(open: OpenHalfStream, out: &IngestResult) -> (r: HalfStream)
        ensures
            r@ == after_open(open@, out@),
    {
        match out {
            IngestResult::Reset => HalfStream::Closed(CloseReason::Rst),
            IngestResult::Accepted { fin_complete: true, .. } => HalfStream::Closed(CloseReason::Fin),
            _ => HalfStream::Open(open),
        }
    }

    fn ingest_open(&mut self, open: OpenHalfStream, seg: SegmentInfo) -> (r: IngestResult)
        ensures
            (final(self)@, r@) == open_step(open@, seg.seq, seg.payload@, seg.flags.bits()),
    {
        let mut open = open;
        let out = open.ingest(seg);
        *self = Self::after_open_ingest(open, &out);
        out
    }

    /// Takes one segment of this direction; see `half_ingest`.
    pub fn ingest(&mut self, seg: SegmentInfo) -> (r: IngestResult)
        ensures
            final(self)@ == half_ingest(old(self)@, seg.seq, seg.payload@, seg.flags.bits()).0,
            r@ == half_ingest(old(self)@, seg.seq, seg.payload@, seg.flags.bits()).1,
    {
        let mut cur = HalfStream::Idle;
        std::mem::swap(&mut cur, self);
        match cur {
            HalfStream::Idle => {
                if seg.flags.rst() {
                    *self = HalfStream::Closed(CloseReason::Rst);
                    return IngestResult::Reset;
                }
                if seg.flags.syn() {
                    let open = OpenHalfStream::from_syn(seg.seq);
                    if seg.payload.len() == 0 && !seg.flags.fin() {
                        *self = HalfStream::Open(open);
                        return IngestResult::Opened;
                    }
                    let next = SegmentInfo {
                        seq: seg.seq.wrapping_add(1),
                        payload: seg.payload,
                        flags: flags_without_syn(seg.flags),
                    };
                    return self.ingest_open(open, next);
                }
                if seg.payload.len() > 0 || seg.flags.fin() {
                    let open = OpenHalfStream::from_midstream(seg.seq);
                    return self.ingest_open(open, seg);
                }
                IngestResult::Ignore(IgnoreReason::Empty)
            },
            HalfStream::Open(open) => self.ingest_open(open, seg),
            HalfStream::Closed(reason) => {
                *self = HalfStream::Closed(reason);
                IngestResult::AlreadyClosed
            },
        }
    }
}

/// A connection endpoint as plain numbers: host key and port.
pub type Endpoint = (u128, u16);

/// Which half of a flow a segment belongs to: `From` is first endpoint to second.
#[derive(Clone, Copy, Debug, PartialEq, Eq, Structural)]
pub enum Direction {
    From,
    To,
}

/// The outcome of a segment, with the half of the flow it went to.
#[derive(Debug)]
pub enum FlowResult {
    Forward(IngestResult),
    Reverse(IngestResult),
}

/// `FlowResult` as plain values.
pub enum FlowOutcome {
    Forward(Outcome),
    Reverse(Outcome),
}

impl View for FlowResult {
    type V = FlowOutcome;

    open spec fn view(&self) -> FlowOutcome {
        match self {
            FlowResult::Forward(o) => FlowOutcome::Forward(o@),
            FlowResult::Reverse(o) => FlowOutcome::Reverse(o@),
        }
    }
}

/// Both directions of one connection.
pub struct Flow {
    /// The endpoints; the first is the source of the segment that created the flow.
    pub endpoints: (Endpoint, Endpoint),
    /// `.0` carries data from the first endpoint to the second, `.1` the other way.
    pub streams: (HalfStream, HalfStream),
}

/// A flow as plain values.
pub struct FlowModel {
    pub endpoints: (Endpoint, Endpoint),
    pub streams: (HalfModel, HalfModel),
}

impl View for Flow {
    type V = FlowModel;

    open spec fn view(&self) -> FlowModel {
        FlowModel { endpoints: self.endpoints, streams: (self.streams.0@, self.streams.1@) }
    }
}

/// A new flow between two endpoints: both halves idle.
pub open spec fn new_flow(a: Endpoint, b: Endpoint) -> FlowModel {
    FlowModel { endpoints: (a, b), streams: (HalfModel::Idle, HalfModel::Idle) }
}

/// Both halves of a flow are closed.
pub open spec fn flow_done(f: FlowModel) -> bool {
    f.streams.0 is Closed && f.streams.1 is Closed
}

/// What one segment from endpoint `src` does to a flow: the half in its direction
/// takes it, and a RST from either side closes both halves.
pub open spec fn flow_ingest(f: FlowModel, src: Endpoint, seq: u32, data: Seq<u8>, flags: u8) -> (FlowModel, FlowOutcome) {
    let forward = src == f.endpoints.0;
    let (h, out) = half_ingest(if forward { f.streams.0 } else { f.streams.1 }, seq, data, flags);
    let streams = if out is Reset {
        (HalfModel::Closed(CloseReason::Rst), HalfModel::Closed(CloseReason::Rst))
    } else if forward {
        (h, f.streams.1)
    } else {
        (f.streams.0, h)
    };
    (
        FlowModel { endpoints: f.endpoints, streams },
        if forward { FlowOutcome::Forward(out) } else { FlowOutcome::Reverse(out) },
    )
}

impl Flow {
    /// A flow whose first endpoint is `src`.
    pub fn new<A: Addr>(src: super::SockAddr<A>, dst: super::SockAddr<A>) -> (r: Flow)
        ensures
            r@ == new_flow(src.endpoint(), dst.endpoint()),
    {
        Flow::from_endpoints(src.endpoint_key(), dst.endpoint_key())
    }

    /// A flow between two endpoints given as plain numbers.
    pub fn from_endpoints(a: Endpoint, b: Endpoint) -> (r: Flow)
        ensures
            r@ == new_flow(a, b),
    {
        Flow { endpoints: (a, b), streams: (HalfStream::Idle, HalfStream::Idle) }
    }

    /// The direction of a segment sent from `src`, which must be one of the endpoints.
    pub fn direction<A: Addr>(&self, src: &super::SockAddr<A>) -> (r: Direction)
        requires
            src.endpoint() == self.endpoints.0 || src.endpoint() == self.endpoints.1,
        ensures
            r == (if src.endpoint() == self.endpoints.0 { Direction::From } else { Direction::To }),
    {
        let e = src.endpoint_key();
        if e.0 == self.endpoints.0.0 && e.1 == self.endpoints.0.1 {
            return Direction::From;
        }
        Direction::To
    }

    /// Hands a segment to the half of its direction; a RST closes both halves.
    pub fn ingest<A: Addr>(&mut self, seg: &tcp::Segment<A>) -> (r: FlowResult)
        requires
            seg.wf(),
            seg.addr.src.endpoint() == old(self).endpoints.0 || seg.addr.src.endpoint() == old(self).endpoints.1,
        ensures
            final(self)@ == flow_ingest(old(self)@, seg.addr.src.endpoint(), seg.header.seq_number, seg.data(), seg.header.flags.bits()).0,
            r@ == flow_ingest(old(self)@, seg.addr.src.endpoint(), seg.header.seq_number, seg.data(), seg.header.flags.bits()).1,
    {
        let segment_info = SegmentInfo::from_segment(seg);
        let direction = self.direction(&seg.addr.src);
        let out = match direction {
            Direction::From => self.streams.0.ingest(segment_info),
            Direction::To => self.streams.1.ingest(segment_info),
        };
        if let IngestResult::Reset = out {
            self.streams.0 = HalfStream::Closed(CloseReason::Rst);
            self.streams.1 = HalfStream::Closed(CloseReason::Rst);
        }
        match direction {
            Direction::From => FlowResult::Forward(out),
            Direction::To => FlowResult::Reverse(out),
        }
    }

    /// Both halves are closed.
    pub fn is_done(&self) -> (r: bool)
        ensures
            r == flow_done(self@),
    {
        match (&self.streams.0, &self.streams.1) {
            (HalfStream::Closed(_), HalfStream::Closed(_)) => true,
            _ => false,
        }
    }
}

/// A connection-level event.
#[derive(Debug)]
pub enum StreamEvent {
    Opened(Direction),
    Data { direction: Direction, bytes: Vec<u8> },
    HalfClosed { direction: Direction },
    Reset,
    Closed,
}

/// `StreamEvent` as plain values.
pub enum EventModel {
    Opened(Direction),
    Data { direction: Direction, bytes: Seq<u8> },
    HalfClosed { direction: Direction },
    Reset,
    Closed,
}

impl View for StreamEvent {
    type V = EventModel;

    open spec fn view(&self) -> EventModel {
        match self {
            StreamEvent::Opened(d) => EventModel::Opened(*d),
            StreamEvent::Data { direction, bytes } => EventModel::Data { direction: *direction, bytes: bytes@ },
            StreamEvent::HalfClosed { direction } => EventModel::HalfClosed { direction: *direction },
            StreamEvent::Reset => EventModel::Reset,
            StreamEvent::Closed => EventModel::Closed,
        }
    }
}

/// A list of events as plain values.
pub open spec fn events_view(v: Seq<StreamEvent>) -> Seq<EventModel> {
    v.map_values(|e: StreamEvent| e@)
}

/// The events one outcome gives: an opening, data that became contiguous, a
/// completed FIN, a reset; ignored segments and segments on a closed half give none.
pub open spec fn ingest_events(direction: Direction, out: Outcome) -> Seq<EventModel> {
    match out {
        Outcome::Opened => seq![EventModel::Opened(direction)],
        Outcome::Reset => seq![EventModel::Reset],
        Outcome::Ignore(_) => Seq::empty(),
        Outcome::AlreadyClosed => Seq::empty(),
        Outcome::Accepted { delivered, fin_complete } => {
            let data = if delivered.len() > 0 {
                seq![EventModel::Data { direction, bytes: delivered }]
            } else {
                Seq::empty()
            };
            if fin_complete {
                data.push(EventModel::HalfClosed { direction })
            } else {
                data
            }
        },
    }
}

/// The events of a flow outcome.
pub open spec fn flow_events(out: FlowOutcome) -> Seq<EventModel> {
    match out {
        FlowOutcome::Forward(o) => ingest_events(Direction::From, o),
        FlowOutcome::Reverse(o) => ingest_events(Direction::To, o),
    }
}

/// Maps a flow outcome to its events.
pub fn map_flow_result(result: FlowResult) -> (r: Vec<StreamEvent>)
    ensures
        events_view(r@) == flow_events(result@),
{
    let (direction, ingest) = match result {
        FlowResult::Forward(i) => (Direction::From, i),
        FlowResult::Reverse(i) => (Direction::To, i),
    };
    map_ingest(direction, ingest)
}

/// Maps a half stream outcome to its events (at most two).
pub fn map_ingest(direction: Direction, ingest: IngestResult) -> (r: Vec<StreamEvent>)
    ensures
        events_view(r@) == ingest_events(direction, ingest@),
{
    let ghost out = ingest@;
    match ingest {
        IngestResult::Opened => {
            let r = vec![StreamEvent::Opened(direction)];
            assert(events_view(r@) =~= ingest_events(direction, out));
            r
        },
        IngestResult::Reset => {
            let r = vec![StreamEvent::Reset];
            assert(events_view(r@) =~= ingest_events(direction, out));
            r
        },
        IngestResult::Ignore(_v) => {
            let r: Vec<StreamEvent> = Vec::new();
            assert(events_view(r@) =~= ingest_events(direction, out));
            r
        },
        IngestResult::AlreadyClosed => {
            let r: Vec<StreamEvent> = Vec::new();
            assert(events_view(r@) =~= ingest_events(direction, out));
            r
        },
        IngestResult::Accepted { delivered, fin_complete } => {
            let mut out_events: Vec<StreamEvent> = Vec::with_capacity(2);
            let ghost bytes = delivered@;
            if delivered.len() > 0 {
                out_events.push(StreamEvent::Data { direction, bytes: delivered });
            }
            assert(events_view(out_events@) =~= (if bytes.len() > 0 {
                seq![EventModel::Data { direction, bytes }]
            } else {
                Seq::<EventModel>::empty()
            }));
            let ghost mid = out_events@;
            if fin_complete {
                out_events.push(StreamEvent::HalfClosed { direction });
                assert(events_view(out_events@) =~= events_view(mid).push(EventModel::HalfClosed { direction }));
            }
            out_events
        },
    }
}

/// `a` orders before or equal to `b`: by host, then by port.
pub open spec fn endpoint_le(a: Endpoint, b: Endpoint) -> bool {
    a.0 < b.0 || (a.0 == b.0 && a.1 <= b.1)
}

/// The key of the flow between two endpoints: the lower endpoint first, so that
/// both directions of a connection have the same key.
pub open spec fn flow_key_of(src: Endpoint, dst: Endpoint) -> FlowKey {
    if endpoint_le(src, dst) { (src, dst) } else { (dst, src) }
}

/// A segment from `src` to `dst` finds the flow stored under their key, or a new
/// flow whose first endpoint is `src`, and that flow takes the segment.
pub open spec fn process_flow(entries: Map<FlowKey, FlowModel>, src: Endpoint, dst: Endpoint, seq: u32, data: Seq<u8>, flags: u8) -> (FlowModel, FlowOutcome) {
    let key = flow_key_of(src, dst);
    let f0 = if entries.contains_key(key) { entries[key] } else { new_flow(src, dst) };
    flow_ingest(f0, src, seq, data, flags)
}

/// The key of the flow a segment belongs to.
pub open spec fn seg_key<A: Addr>(seg: &tcp::Segment<A>) -> FlowKey {
    flow_key_of(seg.addr.src.endpoint(), seg.addr.dst.endpoint())
}

/// `process_flow` for a TCP segment.
pub open spec fn seg_flow<A: Addr>(entries: Map<FlowKey, FlowModel>, seg: &tcp::Segment<A>) -> (FlowModel, FlowOutcome) {
    process_flow(entries, seg.addr.src.endpoint(), seg.addr.dst.endpoint(), seg.header.seq_number, seg.data(), seg.header.flags.bits())
}

/// What processing `seg` does to a flow table with entries `old`, keys `order`
/// from the least to the most recently used, and capacity `cap`, giving entries
/// `new` and events `events`: the segment's flow takes it and the events are its
/// events; a flow whose halves are both closed leaves the table, any other stays
/// under its key; every other flow keeps its state, and only when the segment's
/// flow was new and the table full is one dropped: the least recently used.
pub open spec fn process_post<A: Addr>(old: Map<FlowKey, FlowModel>, new: Map<FlowKey, FlowModel>, order: Seq<FlowKey>, cap: nat, seg: &tcp::Segment<A>, events: Seq<EventModel>) -> bool {
    let key = seg_key(seg);
    let (f1, out) = seg_flow(old, seg);
    let evicts = !old.contains_key(key) && old.dom().len() >= cap;
    &&& events == process_events(f1, out)
    &&& flow_done(f1) ==> !new.contains_key(key)
    &&& !flow_done(f1) ==> new.contains_key(key) && new[key] == f1
    &&& forall|k: FlowKey| k != key && #[trigger] new.contains_key(k) ==> old.contains_key(k) && new[k] == old[k]
    &&& forall|k: FlowKey| k != key && #[trigger] old.contains_key(k) && !(evicts && k == order[0]) ==> new.contains_key(k)
    &&& evicts ==> old.contains_key(order[0]) && !new.contains_key(order[0])
}

/// The recency order of a flow table after a segment: the segment's flow becomes
/// the most recently used (see `cache::order_after_access`), and leaves the order
/// when both its halves are closed.
pub open spec fn process_order<A: Addr>(old: Map<FlowKey, FlowModel>, order: Seq<FlowKey>, cap: nat, seg: &tcp::Segment<A>) -> Seq<FlowKey> {
    let key = seg_key(seg);
    let o1 = cache::order_after_access(order, key, old.contains_key(key), old.dom().len() >= cap);
    if flow_done(seg_flow(old, seg).0) { cache::without(o1, key) } else { o1 }
}

/// The events of one segment: those of its flow outcome, then `Closed` when both
/// halves of the flow are closed.
pub open spec fn process_events(f: FlowModel, out: FlowOutcome) -> Seq<EventModel> {
    if flow_done(f) { flow_events(out).push(EventModel::Closed) } else { flow_events(out) }
}

/// The flow table of one address family: at most 1000 flows, the least recently
/// used one dropped to make room.
pub struct StreamReassembler {
    flows: LruCache<FlowKey, Flow>,
}

impl StreamReassembler {
    /// The flows, by key.
    pub closed spec fn entries(&self) -> Map<FlowKey, FlowModel> {
        cache::flow_entries(self.flows).map_values(|f: Flow| f@)
    }

    /// How many flows the table holds at most.
    pub closed spec fn capacity(&self) -> nat {
        cache::flow_capacity(self.flows)
    }

    /// The keys of the flows, from the least to the most recently used.
    pub closed spec fn order(&self) -> Seq<FlowKey> {
        cache::flow_order(self.flows)
    }

    /// Every flow is stored under the key of its endpoints, and the table is within its capacity.
    pub closed spec fn wf(&self) -> bool {
        &&& cache::flow_table_bounded(self.flows)
        &&& cache::flow_capacity(self.flows) > 0
        &&& forall|k: FlowKey| #[trigger] cache::flow_entries(self.flows).contains_key(k) ==>
            flow_key_of(cache::flow_entries(self.flows)[k].endpoints.0, cache::flow_entries(self.flows)[k].endpoints.1) == k
    }

    /// An empty table for 1000 flows.
    pub fn new() -> (r: Self)
        ensures
            r.wf(),
            r.entries() == Map::<FlowKey, FlowModel>::empty(),
            r.order() == Seq::<FlowKey>::empty(),
            r.capacity() == 1000,
    {
        let r = StreamReassembler { flows: cache::flows_new(1000) };
        assert(r.entries() =~= Map::<FlowKey, FlowModel>::empty());
        assert(cache::flow_order(r.flows).to_set() =~= Set::<FlowKey>::empty());
        r
    }

    /// The key of the flow a segment between `pair` belongs to.
    pub fn derive_flow_key<A: Addr>(pair: super::AddrPair<A>) -> (r: FlowKey)
        ensures
            r == flow_key_of(pair.src.endpoint(), pair.dst.endpoint()),
    {
        let a = pair.src.endpoint_key();
        let b = pair.dst.endpoint_key();
        if a.0 < b.0 || (a.0 == b.0 && a.1 <= b.1) {
            (a, b)
        } else {
            (b, a)
        }
    }

    /// Hands a TCP segment to its flow (made on first sight, with the segment's
    /// source as first endpoint) and returns the events; a flow whose halves are
    /// both closed is dropped and `Closed` is added.
    pub fn process<A: Addr>(&mut self, seg: &tcp::Segment<A>) -> (r: Vec<StreamEvent>)
        requires
            old(self).wf(),
            seg.wf(),
        ensures
            final(self).wf(),
            final(self).capacity() == old(self).capacity(),
            process_post(old(self).entries(), final(self).entries(), old(self).order(), old(self).capacity(), seg,
                events_view(r@)),
            final(self).order() == process_order(old(self).entries(), old(self).order(), old(self).capacity(), seg),
    {
        let src = seg.addr.src.endpoint_key();
        let dst = seg.addr.dst.endpoint_key();
        let key = Self::derive_flow_key(seg.addr);
        let ghost old_entries = cache::flow_entries(self.flows);
        let ghost old_view = self.entries();
        let ghost cap = cache::flow_capacity(self.flows);
        let ghost old_order = cache::flow_order(self.flows);
        assert(old_view.dom() =~= old_entries.dom());
        let flow = cache::flows_get_or_insert(&mut self.flows, key, src, dst);
        let ghost f0 = *flow;
        proof {
            if old_entries.contains_key(key) {
                let f = old_entries[key];
                assert(flow_key_of(f.endpoints.0, f.endpoints.1) == key);
                assert(old_view[key] == f@);
            }
            assert(f0@ == (if old_view.contains_key(key) { old_view[key] } else { new_flow(src, dst) }));
        }
        let result = flow.ingest(seg);
        let mut events = map_flow_result(result);
        let done = flow.is_done();
        let ghost f1 = *flow;
        let ghost mid_entries = cache::flow_entries(self.flows);
        proof {
            assert(f1@ == process_flow(old_view, src, dst, seg.header.seq_number, seg.data(), seg.header.flags.bits()).0);
            cache::lemma_table_step(old_entries, mid_entries, old_order, key, f1, cap);
        }
        if done {
            cache::flows_pop(&mut self.flows, &key);
            let ghost before_push = events@;
            events.push(StreamEvent::Closed);
            assert(events_view(events@) =~= events_view(before_push).push(EventModel::Closed));
        }
        proof {
            let fin = cache::flow_entries(self.flows);
            if done {
                assert(fin == mid_entries.remove(key));
                assert(self.entries() =~= mid_entries.remove(key).map_values(|f: Flow| f@));
            } else {
                assert(fin == mid_entries);
            }
            assert(self.entries().dom() =~= fin.dom());
            assert forall|k: FlowKey| #[trigger] fin.contains_key(k) implies
                flow_key_of(fin[k].endpoints.0, fin[k].endpoints.1) == k by {
                if k != key {
                    assert(old_entries.contains_key(k));
                }
            }
        }
        events
    }
}


/// The flow tables of both address families.
pub struct TcpStreamReassembler {
    v4: StreamReassembler,
    v6: StreamReassembler,
}

/// What one transport packet does to the flow tables `old`, giving `new` and the
/// events `events`: a TCP segment goes to the table of its family (see
/// `process_post`), the other table stays; anything else gives no event and
/// changes nothing.
pub open spec fn tcp_step(old: &TcpStreamReassembler, new: &TcpStreamReassembler, pkt: &super::Packet, events: Seq<EventModel>) -> bool {
    &&& new.v4_capacity() == old.v4_capacity()
    &&& new.v6_capacity() == old.v6_capacity()
    &&& match pkt {
        super::Packet::Ipv4(super::Segment::Tcp(seg)) => {
            &&& process_post(old.v4_entries(), new.v4_entries(), old.v4_order(), old.v4_capacity(), seg, events)
            &&& new.v4_order() == process_order(old.v4_entries(), old.v4_order(), old.v4_capacity(), seg)
            &&& new.v6_entries() == old.v6_entries() && new.v6_order() == old.v6_order()
        },
        super::Packet::Ipv6(super::Segment::Tcp(seg)) => {
            &&& process_post(old.v6_entries(), new.v6_entries(), old.v6_order(), old.v6_capacity(), seg, events)
            &&& new.v6_order() == process_order(old.v6_entries(), old.v6_order(), old.v6_capacity(), seg)
            &&& new.v4_entries() == old.v4_entries() && new.v4_order() == old.v4_order()
        },
        _ => {
            &&& events.len() == 0
            &&& new.v4_entries() == old.v4_entries() && new.v4_order() == old.v4_order()
            &&& new.v6_entries() == old.v6_entries() && new.v6_order() == old.v6_order()
        },
    }
}

impl TcpStreamReassembler {
    /// The IPv4 flows.
    pub closed spec fn v4_entries(&self) -> Map<FlowKey, FlowModel> {
        self.v4.entries()
    }

    /// The IPv6 flows.
    pub closed spec fn v6_entries(&self) -> Map<FlowKey, FlowModel> {
        self.v6.entries()
    }

    /// The keys of the IPv4 flows, from the least to the most recently used.
    pub closed spec fn v4_order(&self) -> Seq<FlowKey> {
        self.v4.order()
    }

    /// The keys of the IPv6 flows, from the least to the most recently used.
    pub closed spec fn v6_order(&self) -> Seq<FlowKey> {
        self.v6.order()
    }

    /// How many flows each table holds at most.
    pub closed spec fn v4_capacity(&self) -> nat {
        self.v4.capacity()
    }

    /// How many flows each table holds at most.
    pub closed spec fn v6_capacity(&self) -> nat {
        self.v6.capacity()
    }

    /// Both tables are well formed.
    pub closed spec fn wf(&self) -> bool {
        self.v4.wf() && self.v6.wf()
    }

    /// Empty tables of 1000 flows each.
    pub fn new() -> (r: Self)
        ensures
            r.wf(),
            r.v4_entries() == Map::<FlowKey, FlowModel>::empty(),
            r.v6_entries() == Map::<FlowKey, FlowModel>::empty(),
            r.v4_order() == Seq::<FlowKey>::empty(),
            r.v6_order() == Seq::<FlowKey>::empty(),
            r.v4_capacity() == 1000,
            r.v6_capacity() == 1000,
    {
        TcpStreamReassembler { v4: StreamReassembler::new(), v6: StreamReassembler::new() }
    }

    /// Hands a TCP segment to the table of its family; anything else gives no event.
    pub fn process(&mut self, pkt: &super::Packet) -> (r: Vec<StreamEvent>)
        requires
            old(self).wf(),
            pkt matches super::Packet::Ipv4(super::Segment::Tcp(s)) ==> s.wf(),
            pkt matches super::Packet::Ipv6(super::Segment::Tcp(s)) ==> s.wf(),
        ensures
            final(self).wf(),
            tcp_step(old(self), final(self), pkt, events_view(r@)),
    {
        match pkt {
            super::Packet::Ipv4(super::Segment::Tcp(seg)) => self.v4.process(seg),
            super::Packet::Ipv6(super::Segment::Tcp(seg)) => self.v6.process(seg),
            _ => Vec::new(),
        }
    }
}

impl Default for TcpStreamReassembler {
    fn default() -> (r: Self)
        ensures
            r.wf(),
            r.v4_entries() == Map::<FlowKey, FlowModel>::empty(),
            r.v6_entries() == Map::<FlowKey, FlowModel>::empty(),
            r.v4_order() == Seq::<FlowKey>::empty(),
            r.v6_order() == Seq::<FlowKey>::empty(),
            r.v4_capacity() == 1000,
            r.v6_capacity() == 1000,
    {
        TcpStreamReassembler::new()
    }
}

impl Default for StreamReassembler {
    fn default() -> (r: Self)
        ensures
            r.wf(),
            r.entries() == Map::<FlowKey, FlowModel>::empty(),
            r.order() == Seq::<FlowKey>::empty(),
            r.capacity() == 1000,
    {
        StreamReassembler::new()
    }
}

/// `forward` for the first endpoint's direction, `reverse` for the other.
pub open spec fn direction_text(d: Direction) -> Seq<char> {
    match d {
        Direction::From => "forward"@,
        Direction::To => "reverse"@,
    }
}

/// A connection event; data in hexadecimal when `alternate`, else as UTF-8.
pub open spec fn stream_event_text(e: EventModel, alternate: bool) -> Seq<char> {
    "TCP: stream: "@ + match e {
        EventModel::Opened(d) => "opened ("@ + direction_text(d) + ")"@,
        EventModel::Reset => "reset"@,
        EventModel::Closed => "closed"@,
        EventModel::HalfClosed { direction } => "half-closed ("@ + direction_text(direction) + ")"@,
        EventModel::Data { direction, bytes } => "data ("@ + direction_text(direction) + ") len: "@
            + decimal(bytes.len()) + ", payload: "@ + payload_text(bytes, alternate),
    }
}

impl Direction {
    /// `forward` or `reverse`.
    pub fn to_text(self) -> (r: &'static str)
        ensures
            r@ == direction_text(self),
    {
        match self {
            Direction::From => "forward",
            Direction::To => "reverse",
        }
    }
}

impl StreamEvent {
    /// The event as text; data in hexadecimal when `alternate`, else as UTF-8.
    pub fn to_text(&self, alternate: bool) -> (r: String)
        ensures
            r@ == stream_event_text(self@, alternate),
    {
        let mut s = String::from_str("TCP: stream: ");
        match self {
            StreamEvent::Opened(d) => {
                s.append("opened (");
                s.append(d.to_text());
                s.append(")");
            },
            StreamEvent::Reset => s.append("reset"),
            StreamEvent::Closed => s.append("closed"),
            StreamEvent::HalfClosed { direction } => {
                s.append("half-closed (");
                s.append(direction.to_text());
                s.append(")");
            },
            StreamEvent::Data { direction, bytes } => {
                s.append("data (");
                s.append(direction.to_text());
                s.append(") len: ");
                s.append(decimal_text(bytes.len() as u64).as_str());
                s.append(", payload: ");
                s.append(payload_text_of(bytes.as_slice(), alternate).as_str());
            },
        }
        s
    }
}

} // verus!

verus! {

/// A segment without RST, SYN or FIN.
pub open spec fn plain_flags(flags: u8) -> bool {
    !tcp::has_bit(flags, 4) && !tcp::has_bit(flags, 2) && !tcp::has_bit(flags, 1)
}

/// In-order delivery: an open half with nothing buffered and no FIN seen, given
/// the next expected bytes, delivers exactly those bytes and moves past them.
pub proof fn lemma_in_order_delivery(s: OpenModel, data: Seq<u8>, flags: u8)
    requires
        s.ooo == Map::<u32, Seq<u8>>::empty(),
        s.fin_seq is None,
        0 < data.len() < 0x8000_0000,
        plain_flags(flags),
    ensures
        open_ingest(s, s.next_seq, data, flags).1 == (Outcome::Accepted { delivered: data, fin_complete: false }),
        open_ingest(s, s.next_seq, data, flags).0.next_seq == s.next_seq.wrapping_add(data.len() as u32),
        open_ingest(s, s.next_seq, data, flags).0.ooo == Map::<u32, Seq<u8>>::empty(),
{
    let ooo = s.ooo.insert(s.next_seq, data);
    assert(ooo.dom() =~= set![s.next_seq]);
    assert(ooo.dom().len() == 1);
    let next = s.next_seq.wrapping_add(data.len() as u32);
    assert(ooo.remove(s.next_seq) =~= Map::<u32, Seq<u8>>::empty());
    assert(drain(Map::<u32, Seq<u8>>::empty(), next, 0) == (Seq::<u8>::empty(), next, Map::<u32, Seq<u8>>::empty()));
    assert(drain(ooo, s.next_seq, 1) == (data + Seq::<u8>::empty(), next, Map::<u32, Seq<u8>>::empty()));
    assert(data + Seq::<u8>::empty() =~= data);
}

/// Out-of-order data waits for the gap: with nothing buffered, bytes `b` that
/// arrive right after a gap of `a.len()` bytes deliver nothing; when `a` then fills
/// the gap, `a` and `b` are delivered together, in order.
pub proof fn lemma_gap_fill(s: OpenModel, a: Seq<u8>, b: Seq<u8>, flags: u8)
    requires
        s.ooo == Map::<u32, Seq<u8>>::empty(),
        s.fin_seq is None,
        0 < a.len(),
        0 < b.len(),
        a.len() + b.len() < 0x8000_0000,
        plain_flags(flags),
    ensures
        ({
            let k = s.next_seq.wrapping_add(a.len() as u32);
            let (s1, o1) = open_ingest(s, k, b, flags);
            let (s2, o2) = open_ingest(s1, s.next_seq, a, flags);
            &&& o1 == Outcome::Accepted { delivered: Seq::<u8>::empty(), fin_complete: false }
            &&& s1.next_seq == s.next_seq
            &&& o2 == Outcome::Accepted { delivered: a + b, fin_complete: false }
            &&& s2.next_seq == k.wrapping_add(b.len() as u32)
            &&& s2.ooo == Map::<u32, Seq<u8>>::empty()
        }),
{
    let n = s.next_seq;
    let k = n.wrapping_add(a.len() as u32);
    assert(k != n);
    assert(!seq_before(k, n));
    let m1 = s.ooo.insert(k, b);
    assert(m1.dom() =~= set![k]);
    assert(m1.dom().len() == 1);
    assert(!m1.contains_key(n));
    assert(drain(m1, n, 1) == (Seq::<u8>::empty(), n, m1));
    let (s1, o1) = open_ingest(s, k, b, flags);
    assert(s1.ooo == m1 && s1.next_seq == n && s1.fin_seq is None);
    let m2 = m1.insert(n, a);
    assert(m2.dom() =~= set![k, n]);
    assert(m2.dom().len() == 2) by {
        assert(set![k].len() == 1);
        assert(set![k].insert(n) =~= set![k, n]);
    }
    let e = Map::<u32, Seq<u8>>::empty();
    let k2 = k.wrapping_add(b.len() as u32);
    assert(m2.remove(n) =~= m1);
    assert(m1.remove(k) =~= e);
    assert(drain(e, k2, 0) == (Seq::<u8>::empty(), k2, e));
    assert(drain(m1, k, 1) == (b + Seq::<u8>::empty(), k2, e));
    assert(b + Seq::<u8>::empty() =~= b);
    assert(drain(m2, n, 2) == (a + b, k2, e));
}

/// Every buffered chunk fits the 32-bit sequence space.
pub open spec fn chunks_fit(m: Map<u32, Seq<u8>>) -> bool {
    forall|k: u32| #[trigger] m.contains_key(k) ==> m[k].len() < 0x1_0000_0000
}

proof fn lemma_drain_advances(m: Map<u32, Seq<u8>>, next: u32, fuel: nat)
    requires
        chunks_fit(m),
    ensures
        drain(m, next, fuel).1 as int == (next as int + drain(m, next, fuel).0.len()) % 0x1_0000_0000,
        chunks_fit(drain(m, next, fuel).2),
    decreases fuel,
{
    if fuel == 0 || !m.contains_key(next) {
        vstd::arithmetic::div_mod::lemma_small_mod(next as nat, 0x1_0000_0000);
    } else {
        let c = m[next];
        let n2 = next.wrapping_add(c.len() as u32);
        let rest = drain(m.remove(next), n2, (fuel - 1) as nat);
        lemma_drain_advances(m.remove(next), n2, (fuel - 1) as nat);
        assert(n2 as int == (next as int + c.len()) % 0x1_0000_0000);
        vstd::arithmetic::div_mod::lemma_add_mod_noop(next as int + c.len(), rest.0.len() as int, 0x1_0000_0000);
        vstd::arithmetic::div_mod::lemma_add_mod_noop_right(n2 as int, rest.0.len() as int, 0x1_0000_0000);
        assert((c + rest.0).len() == c.len() + rest.0.len());
    }
}

/// Sequence numbers follow delivery: when an open half takes a segment and
/// delivers bytes, its next sequence number moves by exactly the number of bytes
/// delivered, and by one more when the FIN completes, modulo 2^32.
pub proof fn lemma_next_seq_follows_delivery(s: OpenModel, seq: u32, data: Seq<u8>, flags: u8)
    requires
        chunks_fit(s.ooo),
        data.len() < 0x1_0000_0000,
    ensures
        open_ingest(s, seq, data, flags).1 matches Outcome::Accepted { delivered, fin_complete } ==>
            open_ingest(s, seq, data, flags).0.next_seq as int
                == (s.next_seq as int + delivered.len() + (if fin_complete { 1int } else { 0int })) % 0x1_0000_0000,
        !(open_ingest(s, seq, data, flags).1 is Accepted) ==> open_ingest(s, seq, data, flags).0 == s,
        chunks_fit(open_ingest(s, seq, data, flags).0.ooo),
{
    let (dseq, d) = new_part(s.next_seq, seq, data);
    let ooo = if d.len() > 0 && !s.ooo.contains_key(dseq) { s.ooo.insert(dseq, d) } else { s.ooo };
    assert(d.len() <= data.len());
    assert(chunks_fit(ooo));
    lemma_drain_advances(ooo, s.next_seq, ooo.dom().len());
    let (delivered, next, left) = drain_all(ooo, s.next_seq);
    let nx = next.wrapping_add(1);
    assert(nx as int == (next as int + 1) % 0x1_0000_0000);
    vstd::arithmetic::div_mod::lemma_add_mod_noop(s.next_seq as int + delivered.len(), 1, 0x1_0000_0000);
    vstd::arithmetic::div_mod::lemma_small_mod(1, 0x1_0000_0000);
    vstd::arithmetic::div_mod::lemma_mod_twice(s.next_seq as int + delivered.len(), 0x1_0000_0000);
}

/// Retransmitted data is ignored: a plain segment whose bytes were all delivered
/// already changes nothing.
pub proof fn lemma_duplicate_ignored(s: OpenModel, seq: u32, data: Seq<u8>, flags: u8)
    requires
        all_delivered(s.next_seq, seq, data),
        plain_flags(flags),
    ensures
        open_ingest(s, seq, data, flags) == (s, Outcome::Ignore(IgnoreReason::Duplicate)),
{
}

/// The first copy of a buffered chunk stays: data for a sequence number that is
/// already buffered ahead of the gap delivers nothing and changes nothing.
pub proof fn lemma_keep_first(s: OpenModel, seq: u32, data: Seq<u8>, flags: u8)
    requires
        s.ooo.dom().finite(),
        s.ooo.contains_key(seq),
        !s.ooo.contains_key(s.next_seq),
        !seq_before(seq, s.next_seq),
        0 < data.len(),
        s.fin_seq is None,
        plain_flags(flags),
    ensures
        open_ingest(s, seq, data, flags) == (s, Outcome::Accepted { delivered: Seq::<u8>::empty(), fin_complete: false }),
{
    assert(drain(s.ooo, s.next_seq, s.ooo.dom().len()) == (Seq::<u8>::empty(), s.next_seq, s.ooo));
}

/// A FIN is reached only once every byte before it was delivered: then the half
/// closes, with the FIN's sequence number consumed.
pub proof fn lemma_fin_completion(h: HalfModel, seq: u32, data: Seq<u8>, flags: u8)
    requires
        h is Open,
    ensures
        half_ingest(h, seq, data, flags).1 matches Outcome::Accepted { fin_complete: true, .. } ==> {
            let (o2, out) = open_ingest(h->Open_0, seq, data, flags);
            &&& o2.fin_seq matches Some(f) && o2.next_seq == f.wrapping_add(1)
            &&& half_ingest(h, seq, data, flags).0 == HalfModel::Closed(CloseReason::Fin)
        },
{
}

/// A closed half stays closed and answers every segment with `AlreadyClosed`.
pub proof fn lemma_closed_stays_closed(r: CloseReason, seq: u32, data: Seq<u8>, flags: u8)
    ensures
        half_ingest(HalfModel::Closed(r), seq, data, flags) == (HalfModel::Closed(r), Outcome::AlreadyClosed),
{
}

/// A reset closes the connection: a RST from either endpoint, on a half that is
/// not closed, closes both halves of the flow.
pub proof fn lemma_reset_closes_flow(f: FlowModel, src: Endpoint, seq: u32, data: Seq<u8>, flags: u8)
    requires
        src == f.endpoints.0 || src == f.endpoints.1,
        tcp::has_bit(flags, 4),
        !(if src == f.endpoints.0 { f.streams.0 } else { f.streams.1 } is Closed),
    ensures
        flow_ingest(f, src, seq, data, flags).0.streams == (HalfModel::Closed(CloseReason::Rst), HalfModel::Closed(CloseReason::Rst)),
        flow_done(flow_ingest(f, src, seq, data, flags).0),
{
}

/// Both directions of a connection belong to one flow: swapping the endpoints
/// gives the same key.
pub proof fn lemma_flow_key_symmetric(a: Endpoint, b: Endpoint)
    ensures
        flow_key_of(a, b) == flow_key_of(b, a),
{
}

/// A new flow is oriented by its first segment: the segment that creates a flow
/// goes to its forward half.
pub proof fn lemma_first_segment_forward(entries: Map<FlowKey, FlowModel>, src: Endpoint, dst: Endpoint, seq: u32, data: Seq<u8>, flags: u8)
    requires
        !entries.contains_key(flow_key_of(src, dst)),
    ensures
        process_flow(entries, src, dst, seq, data, flags).1 is Forward,
        process_flow(entries, src, dst, seq, data, flags).0.endpoints == (src, dst),
{
}

} // verus!
