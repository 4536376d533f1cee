//! IP fragment reassembly: per-datagram buffers and the table that holds them.
use super::{proto_key, proto_text, Addr, Proto};
use crate::text::{decimal, decimal_text, hex_bytes, hex_text};
use crate::cache;
use crate::cache::FragCacheKey;
use crate::ordered::{iter_keys, lemma_btree_iter_sorted, sorted_keys, strictly_increasing};
use std::collections::BTreeMap;
use vstd::prelude::*;

verus! {

broadcast use vstd::std_specs::btree::group_btree_axioms;

/// Why a fragment was refused.
#[derive(Debug, Clone, Copy, PartialEq, Eq, Structural)]
pub enum Error {
    /// A fragment other than the last one has a length that is not a multiple of 8.
    UnalignedPayload(usize),
    /// A fragment with this offset (in 8-byte units) is buffered already.
    DuplicateFragmentOffset(u16),
    IncompleteFragment,
    /// The buffer would hold this many fragments, more than allowed.
    TooManyFragments(usize),
}

/// The offsets of a buffer's fragments in increasing order.
pub open spec fn sorted_offsets(m: Map<u16, Seq<u8>>) -> Seq<u16> {
    sorted_keys(m)
}

/// Going through the first `n` fragments in offset order: the end of the data they
/// cover, or `None` once one fragment does not start where the data before it ends.
pub open spec fn frag_end(keys: Seq<u16>, m: Map<u16, Seq<u8>>, n: int) -> Option<int>
    decreases n,
{
    if n <= 0 {
        Some(0)
    } else {
        match frag_end(keys, m, n - 1) {
            Some(e) => if keys[n - 1] as int * 8 == e { Some(e + m[keys[n - 1]].len()) } else { None },
            None => None,
        }
    }
}

/// The payloads of the first `n` fragments in offset order, joined.
pub open spec fn frag_concat(keys: Seq<u16>, m: Map<u16, Seq<u8>>, n: int) -> Seq<u8>
    decreases n,
{
    if n <= 0 {
        Seq::empty()
    } else {
        frag_concat(keys, m, n - 1) + m[keys[n - 1]]
    }
}

/// The fragments, taken in offset order, each start where the one before ends
/// (the first at 0).
pub open spec fn covers(m: Map<u16, Seq<u8>>) -> bool {
    frag_end(sorted_offsets(m), m, sorted_offsets(m).len() as int) is Some
}

/// All fragment payloads joined in offset order.
pub open spec fn joined(m: Map<u16, Seq<u8>>) -> Seq<u8> {
    frag_concat(sorted_offsets(m), m, sorted_offsets(m).len() as int)
}

/// The largest fragment payload a buffer takes: its end, after an offset of up
/// to 0x7FFF8 bytes, must still be a `usize`.
pub const MAX_FRAGMENT_BYTES: usize = usize::MAX - 0x80000;

/// The fragments of one datagram collected so far.
pub struct DatagramReassemblyBuffer {
    fragments: BTreeMap<u16, Vec<u8>>,
    total_len: Option<usize>,
    max_fragments: usize,
}

/// A buffer as plain values.
pub struct BufferModel {
    /// Payload by offset in 8-byte units.
    pub fragments: Map<u16, Seq<u8>>,
    /// The end of the last fragment, once it arrived.
    pub total_len: Option<usize>,
    pub max_fragments: nat,
}

/// The buffer's fragments as byte sequences.
pub open spec fn frags_view(m: Map<u16, Vec<u8>>) -> Map<u16, Seq<u8>> {
    m.map_values(|v: Vec<u8>| v@)
}

/// An empty buffer that takes at most `max` fragments.
pub open spec fn empty_buffer(max: nat) -> BufferModel {
    BufferModel { fragments: Map::empty(), total_len: None, max_fragments: max }
}

/// What buffering one fragment does: a fragment with more to follow must be a
/// multiple of 8 bytes long, an offset may come only once, and the buffer may not
/// exceed its number of fragments (the fragment stays buffered all the same); the
/// last fragment fixes the total length.
pub open spec fn buffer_insert(b: BufferModel, offset: u16, has_more: bool, payload: Seq<u8>) -> (BufferModel, Result<(), Error>) {
    if has_more && payload.len() % 8 != 0 {
        (b, Err(Error::UnalignedPayload(payload.len() as usize)))
    } else if b.fragments.contains_key(offset) {
        (b, Err(Error::DuplicateFragmentOffset(offset)))
    } else {
        let f = b.fragments.insert(offset, payload);
        if f.dom().len() > b.max_fragments {
            (BufferModel { fragments: f, ..b }, Err(Error::TooManyFragments(f.dom().len() as usize)))
        } else if !has_more {
            (BufferModel { fragments: f, total_len: Some((offset as int * 8 + payload.len()) as usize), ..b }, Ok(()))
        } else {
            (BufferModel { fragments: f, ..b }, Ok(()))
        }
    }
}

/// The datagram a buffer holds: its fragments joined, once the last one arrived
/// and they cover the data without gap.
pub open spec fn assembled(b: BufferModel) -> Option<Seq<u8>> {
    if b.total_len is None || !covers(b.fragments) {
        None
    } else {
        Some(joined(b.fragments))
    }
}

impl View for DatagramReassemblyBuffer {
    type V = BufferModel;

    closed spec fn view(&self) -> BufferModel {
        BufferModel {
            fragments: frags_view(self.fragments@),
            total_len: self.total_len,
            max_fragments: self.max_fragments as nat,
        }
    }
}

proof fn lemma_sorted_view(m: Map<u16, Vec<u8>>)
    ensures
        sorted_offsets(frags_view(m)) == sorted_keys(m),
{
    assert(frags_view(m).dom() =~= m.dom());
}

proof fn lemma_frags_view(m: Map<u16, Vec<u8>>)
    ensures
        frags_view(m).dom() == m.dom(),
        forall|k: u16| #[trigger] m.contains_key(k) ==> frags_view(m)[k] == m[k]@,
{
    assert(frags_view(m).dom() =~= m.dom());
}

impl DatagramReassemblyBuffer {
    /// The buffer takes at least one fragment, and no fragment is too long.
    pub closed spec fn wf(&self) -> bool {
        &&& self.max_fragments > 0
        &&& forall|k: u16| #[trigger] self.fragments@.contains_key(k) ==> self.fragments@[k]@.len() <= MAX_FRAGMENT_BYTES
    }

    /// An empty buffer for at most `max_fragments` fragments.
    pub fn new(max_fragments: usize) -> (r: Self)
        requires
            max_fragments > 0,
        ensures
            r.wf(),
            r@ == empty_buffer(max_fragments as nat),
    {
        let r = DatagramReassemblyBuffer { fragments: BTreeMap::new(), total_len: None, max_fragments };
        assert(frags_view(r.fragments@) =~= Map::empty());
        r
    }

    /// Whether the fragments, in offset order, each start where the one before ends.
    pub fn covers_range(&self) -> (r: bool)
        requires
            self.wf(),
        ensures
            r == covers(self@.fragments),
    {
        let ghost m = frags_view(self.fragments@);
        let iter = self.fragments.iter();
        proof {
            lemma_frags_view(self.fragments@);
            lemma_btree_iter_sorted(&self.fragments);
            lemma_sorted_view(self.fragments@);
        }
        let ghost ks = sorted_offsets(m);
        let mut ok: bool = true;
        let mut acc: usize = 0;
        for item in it: iter
            invariant
                self.wf(),
                m == frags_view(self.fragments@),
                ks == sorted_offsets(m),
                iter_keys(it.seq()) == ks,
                it.seq().len() == ks.len(),
                forall|i: int| 0 <= i < ks.len() ==>
                    self.fragments@.contains_key(#[trigger] ks[i]) && *it.seq()[i].1 == self.fragments@[ks[i]],
                ok ==> frag_end(ks, m, it.index()) == Some(acc as int) && acc <= usize::MAX,
                !ok ==> frag_end(ks, m, it.index()) is None,
        {
            let (offset, payload) = item;
            if ok {
                let start: usize = (*offset as usize) * 8;
                if start != acc {
                    ok = false;
                } else {
                    acc = start + payload.len();
                }
            }
        }
        ok
    }

    /// The datagram, once the last fragment arrived and the fragments cover the
    /// data without gap: their payloads joined in offset order.
    pub fn assemble(&self) -> (r: Option<Vec<u8>>)
        requires
            self.wf(),
        ensures
            match r {
                Some(v) => assembled(self@) == Some(v@),
                None => assembled(self@) is None,
            },
    {
        let total_len = match self.total_len {
            Some(t) => t,
            None => return None,
        };
        if !self.covers_range() {
            return None;
        }
        let ghost m = frags_view(self.fragments@);
        let iter = self.fragments.iter();
        proof {
            lemma_frags_view(self.fragments@);
            lemma_btree_iter_sorted(&self.fragments);
            lemma_sorted_view(self.fragments@);
        }
        let ghost ks = sorted_offsets(m);
        let mut out: Vec<u8> = Vec::with_capacity(total_len);
        for item in it: iter
            invariant
                m == frags_view(self.fragments@),
                ks == sorted_offsets(m),
                iter_keys(it.seq()) == ks,
                it.seq().len() == ks.len(),
                forall|i: int| 0 <= i < ks.len() ==>
                    self.fragments@.contains_key(#[trigger] ks[i]) && *it.seq()[i].1 == self.fragments@[ks[i]],
                out@ == frag_concat(ks, m, it.index()),
        {
            let (_offset, payload) = item;
            let ghost before = out@;
            out.extend_from_slice(payload.as_slice());
            proof {
                assert(out@ =~= before + payload@);
            }
        }
        Some(out)
    }

    /// Buffers one fragment; see `buffer_insert`.
    pub fn insert(&mut self, info: FragmentInfo, payload: &[u8]) -> (r: Result<(), Error>)
        requires
            old(self).wf(),
            payload@.len() <= MAX_FRAGMENT_BYTES,
        ensures
            final(self).wf(),
            final(self)@ == buffer_insert(old(self)@, info.offset_octets, info.has_more, payload@).0,
            r == buffer_insert(old(self)@, info.offset_octets, info.has_more, payload@).1,
    {
        if info.has_more && payload.len() % 8 != 0 {
            return Err(Error::UnalignedPayload(payload.len()));
        }
        let offset_octets: u16 = info.offset_octets;
        proof {
            lemma_frags_view(self.fragments@);
        }
        if self.fragments.contains_key(&offset_octets) {
            return Err(Error::DuplicateFragmentOffset(offset_octets));
        }
        let ghost before = self.fragments@;
        let v = vstd::slice::slice_to_vec(payload);
        self.fragments.insert(offset_octets, v);
        proof {
            assert(frags_view(self.fragments@) =~= frags_view(before).insert(offset_octets, payload@));
            lemma_frags_view(self.fragments@);
            lemma_frags_view(before);
        }
        if self.fragments.len() > self.max_fragments {
            return Err(Error::TooManyFragments(self.fragments.len()));
        }
        if !info.has_more {
            let offset: usize = (offset_octets as usize) << 3;
            assert(offset == offset_octets as usize * 8) by (bit_vector)
                requires
                    offset == (offset_octets as usize) << 3,
            ;
            let end: usize = offset + payload.len();
            self.total_len = Some(end);
        }
        Ok(())
    }
}

/// Where a fragment goes in its datagram.
pub struct FragmentInfo {
    /// Offset in 8-byte units.
    pub offset_octets: u16,
    /// More fragments follow (this is not the last one).
    pub has_more: bool,
}

/// The addresses and protocol that identify a datagram.
#[derive(Debug, Clone, Copy)]
pub struct DatagramId<A: Addr> {
    pub src: A,
    pub dst: A,
    pub next_protocol: Proto,
}

/// The fragments of one datagram share this key.
#[derive(Debug, Clone, Copy)]
pub struct FragmentKey<A: Addr> {
    pub datagram: DatagramId<A>,
    pub identification: u32,
}

/// A fragment key as plain numbers.
pub open spec fn cache_key_of<A: Addr>(k: FragmentKey<A>) -> FragCacheKey {
    (k.datagram.src.host_key(), k.datagram.dst.host_key(), proto_key(k.datagram.next_protocol), k.identification)
}

/// Computes `cache_key_of`.
pub fn cache_key<A: Addr>(k: &FragmentKey<A>) -> (r: FragCacheKey)
    ensures
        r == cache_key_of(*k),
{
    (k.datagram.src.key(), k.datagram.dst.key(), k.datagram.next_protocol.key(), k.identification)
}

/// A packet that may be a fragment.
pub trait Fragmentable<A: Addr> {
    /// The fragment key and placement, or `None` for a packet that is not a fragment.
    spec fn fragment_key_spec(&self) -> Option<(FragmentKey<A>, FragmentInfo)>;

    /// The packet's payload.
    spec fn payload_spec(&self) -> Seq<u8>;

    /// The packet's addresses and protocol.
    spec fn id_spec(&self) -> DatagramId<A>;

    fn fragment_key(&self) -> (r: Option<(FragmentKey<A>, FragmentInfo)>)
        ensures
            r == self.fragment_key_spec(),
            r matches Some((k, _)) ==> k.datagram == self.id_spec(),
    ;

    fn is_fragmented(&self) -> (r: bool)
        ensures
            r == self.fragment_key_spec() is Some,
    ;

    fn payload(&self) -> (r: &[u8])
        ensures
            r@ == self.payload_spec(),
    ;

    fn src(&self) -> (r: A)
        ensures
            r == self.id_spec().src,
    ;

    fn dst(&self) -> (r: A)
        ensures
            r == self.id_spec().dst,
    ;

    fn next_protocol(&self) -> (r: Proto)
        ensures
            r == self.id_spec().next_protocol,
    ;

    fn datagram_id(&self) -> (r: DatagramId<A>)
        ensures
            r == self.id_spec(),
    ;
}

/// Limits of a reassembler: how many datagrams it tracks at once, and how many
/// fragments one datagram may have. Both are at least 1.
pub struct DatagramReassemblyPolicy {
    pub max_buffers: usize,
    pub max_fragments_per_buffer: usize,
}

impl Default for DatagramReassemblyPolicy {
    fn default() -> (r: Self)
        ensures
            r.max_buffers == 1000,
            r.max_fragments_per_buffer == 500,
    {
        DatagramReassemblyPolicy { max_buffers: 1000, max_fragments_per_buffer: 500 }
    }
}

/// A datagram, whole: from one unfragmented packet or reassembled.
#[derive(Debug)]
pub struct Datagram<A: Addr> {
    pub id: DatagramId<A>,
    pub payload: Vec<u8>,
}

/// What one packet did to a reassembler.
pub enum ReassemblyResult<A: Addr> {
    /// A complete datagram was reassembled.
    Complete(Datagram<A>),
    /// The fragment was taken; the datagram is not complete yet.
    Incomplete,
    /// The packet was not a fragment; it passes through.
    NotFragmented(Datagram<A>),
    /// The fragment was refused.
    Rejected(Error),
}

/// `ReassemblyResult` as plain values.
pub enum ReassemblyOutcome<A: Addr> {
    Complete(DatagramId<A>, Seq<u8>),
    Incomplete,
    NotFragmented(DatagramId<A>, Seq<u8>),
    Rejected(Error),
}

impl<A: Addr> View for ReassemblyResult<A> {
    type V = ReassemblyOutcome<A>;

    open spec fn view(&self) -> ReassemblyOutcome<A> {
        match self {
            ReassemblyResult::Complete(d) => ReassemblyOutcome::Complete(d.id, d.payload@),
            ReassemblyResult::Incomplete => ReassemblyOutcome::Incomplete,
            ReassemblyResult::NotFragmented(d) => ReassemblyOutcome::NotFragmented(d.id, d.payload@),
            ReassemblyResult::Rejected(e) => ReassemblyOutcome::Rejected(*e),
        }
    }
}

/// The buffer that the fragment with key `ck` goes to: the one in the table, or a
/// new one for `max` fragments.
pub open spec fn buffer_for(old: Map<FragCacheKey, BufferModel>, ck: FragCacheKey, max: nat) -> BufferModel {
    if old.contains_key(ck) { old[ck] } else { empty_buffer(max) }
}

/// What one packet gives, against the buffer table `old` (new buffers for `max`
/// fragments): a packet that is not a fragment passes through; a fragment goes to
/// the buffer of its key and is refused, or completes the datagram (its payloads
/// joined in offset order), or leaves it incomplete.
pub open spec fn reassembly_outcome<A: Addr>(
    old: Map<FragCacheKey, BufferModel>,
    max: nat,
    frag: Option<(FragmentKey<A>, FragmentInfo)>,
    id: DatagramId<A>,
    payload: Seq<u8>,
) -> ReassemblyOutcome<A> {
    match frag {
        None => ReassemblyOutcome::NotFragmented(id, payload),
        Some((key, info)) => {
            let (b1, res) = buffer_insert(buffer_for(old, cache_key_of(key), max), info.offset_octets, info.has_more, payload);
            match res {
                Err(e) => ReassemblyOutcome::Rejected(e),
                Ok(_) => match assembled(b1) {
                    Some(d) => ReassemblyOutcome::Complete(key.datagram, d),
                    None => ReassemblyOutcome::Incomplete,
                },
            }
        },
    }
}

/// How one packet changes the buffer table `old` (capacity `cap`, keys `order`
/// from the least to the most recently used, new buffers for `max` fragments) into
/// `new`: the buffer of a fragment's key takes it, and leaves the table when its
/// datagram is complete; every other buffer keeps its state, and only when the key
/// was new and the table full is one dropped: the least recently used. A packet
/// that is not a fragment changes nothing.
pub open spec fn reassembly_table<A: Addr>(
    old: Map<FragCacheKey, BufferModel>,
    new: Map<FragCacheKey, BufferModel>,
    order: Seq<FragCacheKey>,
    cap: nat,
    max: nat,
    frag: Option<(FragmentKey<A>, FragmentInfo)>,
    payload: Seq<u8>,
) -> bool {
    match frag {
        None => new == old,
        Some((key, info)) => {
            let ck = cache_key_of(key);
            let (b1, res) = buffer_insert(buffer_for(old, ck, max), info.offset_octets, info.has_more, payload);
            let evicts = !old.contains_key(ck) && old.dom().len() >= cap;
            &&& if res is Ok && assembled(b1) is Some {
                !new.contains_key(ck)
            } else {
                new.contains_key(ck) && new[ck] == b1
            }
            &&& forall|k: FragCacheKey| k != ck && #[trigger] new.contains_key(k) ==> old.contains_key(k) && new[k] == old[k]
            &&& forall|k: FragCacheKey| k != ck && #[trigger] old.contains_key(k) && !(evicts && k == order[0])
                ==> new.contains_key(k)
            &&& evicts ==> old.contains_key(order[0]) && !new.contains_key(order[0])
        },
    }
}

/// The recency order of the buffer table after one packet: a fragment's key
/// becomes the most recently used (see `cache::order_after_access`), and leaves
/// the order when its datagram is complete. A packet that is not a fragment
/// changes nothing.
pub open spec fn reassembly_order<A: Addr>(
    old: Map<FragCacheKey, BufferModel>,
    order: Seq<FragCacheKey>,
    cap: nat,
    max: nat,
    frag: Option<(FragmentKey<A>, FragmentInfo)>,
    payload: Seq<u8>,
) -> Seq<FragCacheKey> {
    match frag {
        None => order,
        Some((key, info)) => {
            let ck = cache_key_of(key);
            let (b1, res) = buffer_insert(buffer_for(old, ck, max), info.offset_octets, info.has_more, payload);
            let o1 = cache::order_after_access(order, ck, old.contains_key(ck), old.dom().len() >= cap);
            if res is Ok && assembled(b1) is Some { cache::without(o1, ck) } else { o1 }
        },
    }
}

/// Reassembles the fragmented datagrams of one address family.
pub struct DatagramReassembler {
    buffers: cache::BufferTable,
    max_fragments_per_buffer: usize,
}

impl DatagramReassembler {
    /// The buffers, by key.
    pub closed spec fn entries(&self) -> Map<FragCacheKey, BufferModel> {
        cache::buffer_entries(self.buffers).map_values(|b: DatagramReassemblyBuffer| b@)
    }

    /// How many datagrams the table tracks at most.
    pub closed spec fn capacity(&self) -> nat {
        cache::buffer_capacity(self.buffers)
    }

    /// The keys of the buffers, from the least to the most recently used.
    pub closed spec fn order(&self) -> Seq<FragCacheKey> {
        cache::buffer_order(self.buffers)
    }

    /// How many fragments a new buffer takes.
    pub closed spec fn max_fragments(&self) -> nat {
        self.max_fragments_per_buffer as nat
    }

    /// The table is within its capacity and every buffer is well formed.
    pub closed spec fn wf(&self) -> bool {
        &&& cache::buffer_table_bounded(self.buffers)
        &&& cache::buffer_capacity(self.buffers) > 0
        &&& self.max_fragments_per_buffer > 0
        &&& forall|k: FragCacheKey| #[trigger] cache::buffer_entries(self.buffers).contains_key(k)
            ==> cache::buffer_entries(self.buffers)[k].wf()
    }

    /// An empty reassembler with the given limits.
    pub fn with_policy(policy: DatagramReassemblyPolicy) -> (r: Self)
        requires
            policy.max_buffers > 0,
            policy.max_fragments_per_buffer > 0,
        ensures
            r.wf(),
            r.entries() == Map::<FragCacheKey, BufferModel>::empty(),
            r.order() == Seq::<FragCacheKey>::empty(),
            r.capacity() == policy.max_buffers,
            r.max_fragments() == policy.max_fragments_per_buffer,
    {
        let r = DatagramReassembler {
            buffers: cache::buffers_new(policy.max_buffers),
            max_fragments_per_buffer: policy.max_fragments_per_buffer,
        };
        assert(r.entries() =~= Map::<FragCacheKey, BufferModel>::empty());
        assert(cache::buffer_order(r.buffers).to_set() =~= Set::<FragCacheKey>::empty());
        r
    }

    /// An empty reassembler with the default limits (1000 datagrams, 500 fragments each).
    pub fn new() -> (r: Self)
        ensures
            r.wf(),
            r.entries() == Map::<FragCacheKey, BufferModel>::empty(),
            r.order() == Seq::<FragCacheKey>::empty(),
            r.capacity() == 1000,
            r.max_fragments() == 500,
    {
        Self::with_policy(DatagramReassemblyPolicy::default())
    }

    /// Takes one packet: a packet that is not a fragment passes through; a fragment
    /// goes to the buffer of its datagram, and the datagram comes out once complete.
    pub fn process<A: Addr, F: Fragmentable<A>>(&mut self, packet: &F) -> (r: ReassemblyResult<A>)
        requires
            old(self).wf(),
            packet.payload_spec().len() <= MAX_FRAGMENT_BYTES,
        ensures
            final(self).wf(),
            final(self).capacity() == old(self).capacity(),
            final(self).max_fragments() == old(self).max_fragments(),
            r@ == reassembly_outcome(old(self).entries(), old(self).max_fragments(), packet.fragment_key_spec(),
                packet.id_spec(), packet.payload_spec()),
            reassembly_table(old(self).entries(), final(self).entries(), old(self).order(), old(self).capacity(),
                old(self).max_fragments(), packet.fragment_key_spec(), packet.payload_spec()),
            final(self).order() == reassembly_order(old(self).entries(), old(self).order(), old(self).capacity(),
                old(self).max_fragments(), packet.fragment_key_spec(), packet.payload_spec()),
    {
        let (key, info) = match packet.fragment_key() {
            Some(v) => v,
            None => {
                let payload = vstd::slice::slice_to_vec(packet.payload());
                return ReassemblyResult::NotFragmented(Datagram { id: packet.datagram_id(), payload });
            },
        };
        let ck = cache_key(&key);
        let ghost old_entries = cache::buffer_entries(self.buffers);
        let ghost old_view = self.entries();
        let ghost cap = cache::buffer_capacity(self.buffers);
        let ghost old_order = cache::buffer_order(self.buffers);
        assert(old_view.dom() =~= old_entries.dom());
        let buffer = cache::buffers_get_or_insert(&mut self.buffers, ck, self.max_fragments_per_buffer);
        let ghost b0 = *buffer;
        proof {
            if old_entries.contains_key(ck) {
                assert(old_view[ck] == old_entries[ck]@);
            }
        }
        let inserted = buffer.insert(info, packet.payload());
        let assembled_payload = match inserted {
            Err(_) => None,
            Ok(()) => buffer.assemble(),
        };
        let ghost b1 = *buffer;
        let ghost mid_entries = cache::buffer_entries(self.buffers);
        proof {
            cache::lemma_table_step(old_entries, mid_entries, old_order, ck, b1, cap);
        }
        let r = match inserted {
            Err(v) => ReassemblyResult::Rejected(v),
            Ok(()) => match assembled_payload {
                Some(b) => {
                    cache::buffers_pop(&mut self.buffers, &ck);
                    ReassemblyResult::Complete(Datagram { id: key.datagram, payload: b })
                },
                None => ReassemblyResult::Incomplete,
            },
        };
        proof {
            let fin = cache::buffer_entries(self.buffers);
            assert(self.entries().dom() =~= fin.dom());
            assert forall|k: FragCacheKey| #[trigger] fin.contains_key(k) implies fin[k].wf() by {
                if k != ck {
                    assert(old_entries.contains_key(k));
                }
            }
        }
        r
    }
}

impl Default for DatagramReassembler {
    fn default() -> (r: Self)
        ensures
            r.wf(),
            r.entries() == Map::<FragCacheKey, BufferModel>::empty(),
            r.order() == Seq::<FragCacheKey>::empty(),
            r.capacity() == 1000,
            r.max_fragments() == 500,
    {
        Self::new()
    }
}

/// The message of a fragment error.
pub open spec fn error_text(e: Error) -> Seq<char> {
    match e {
        Error::UnalignedPayload(n) => "fragment payload is not 8-aligned: "@ + decimal(n as nat) + " bytes"@,
        Error::DuplicateFragmentOffset(o) => "duplicate offset fragment found: offset: "@ + decimal(o as nat),
        Error::IncompleteFragment => "incomplete buffer: total_len not known"@,
        Error::TooManyFragments(n) => "too many fragments: "@ + decimal(n as nat),
    }
}

/// A datagram: its addresses, protocol, and its payload's length and bytes in hexadecimal.
pub open spec fn datagram_text<A: Addr>(d: Datagram<A>) -> Seq<char> {
    "["@ + d.id.src.host_text() + " -> "@ + d.id.dst.host_text() + "] proto: "@ + proto_text(d.id.next_protocol)
        + ", payload_len: "@ + decimal(d.payload@.len()) + ", payload: "@ + hex_bytes(d.payload@)
}

impl Error {
    /// The error's message.
    pub fn message(&self) -> (r: String)
        ensures
            r@ == error_text(*self),
    {
        match self {
            Error::UnalignedPayload(n) => {
                let mut s = String::from_str("fragment payload is not 8-aligned: ");
                s.append(decimal_text(*n as u64).as_str());
                s.append(" bytes");
                s
            },
            Error::DuplicateFragmentOffset(o) => {
                let mut s = String::from_str("duplicate offset fragment found: offset: ");
                s.append(decimal_text(*o as u64).as_str());
                s
            },
            Error::IncompleteFragment => String::from_str("incomplete buffer: total_len not known"),
            Error::TooManyFragments(n) => {
                let mut s = String::from_str("too many fragments: ");
                s.append(decimal_text(*n as u64).as_str());
                s
            },
        }
    }
}

impl<A: Addr> Datagram<A> {
    /// The datagram's addresses, protocol and payload.
    pub fn to_text(&self) -> (r: String)
        ensures
            r@ == datagram_text(*self),
    {
        let mut s = String::from_str("[");
        s.append(self.id.src.to_text().as_str());
        s.append(" -> ");
        s.append(self.id.dst.to_text().as_str());
        s.append("] proto: ");
        s.append(self.id.next_protocol.to_text().as_str());
        s.append(", payload_len: ");
        s.append(decimal_text(self.payload.len() as u64).as_str());
        s.append(", payload: ");
        s.append(hex_text(self.payload.as_slice()).as_str());
        s
    }
}

} // verus!

verus! {

/// Arrival order does not matter: two fragments at different offsets, at most
/// one of them the last, buffer the same whichever comes first, as long as
/// neither is refused.
pub proof fn lemma_insert_order_independent(
    b: BufferModel,
    o1: u16,
    m1: bool,
    p1: Seq<u8>,
    o2: u16,
    m2: bool,
    p2: Seq<u8>,
)
    requires
        b.fragments.dom().finite(),
        o1 != o2,
        m1 || m2,
        buffer_insert(b, o1, m1, p1).1 is Ok,
        buffer_insert(buffer_insert(b, o1, m1, p1).0, o2, m2, p2).1 is Ok,
        buffer_insert(b, o2, m2, p2).1 is Ok,
        buffer_insert(buffer_insert(b, o2, m2, p2).0, o1, m1, p1).1 is Ok,
    ensures
        buffer_insert(buffer_insert(b, o1, m1, p1).0, o2, m2, p2).0 == buffer_insert(buffer_insert(b, o2, m2, p2).0, o1, m1, p1).0,
{
    let x = buffer_insert(buffer_insert(b, o1, m1, p1).0, o2, m2, p2).0;
    let y = buffer_insert(buffer_insert(b, o2, m2, p2).0, o1, m1, p1).0;
    assert(x.fragments =~= y.fragments);
}

/// A second fragment at an offset that is buffered already is refused and
/// changes nothing.
pub proof fn lemma_duplicate_offset_refused(b: BufferModel, offset: u16, has_more: bool, payload: Seq<u8>)
    requires
        b.fragments.contains_key(offset),
        !has_more || payload.len() % 8 == 0,
    ensures
        buffer_insert(b, offset, has_more, payload) == (b, Err::<(), Error>(Error::DuplicateFragmentOffset(offset))),
{
}

/// Two fragments that tile the datagram reassemble to their payloads joined:
/// `a` at offset 0 (a multiple of 8 bytes long) and the last fragment `c` right
/// after it, in either order.
pub proof fn lemma_two_fragments_reassemble(max: nat, a: Seq<u8>, c: Seq<u8>, last_first: bool)
    requires
        max >= 2,
        0 < a.len() < 0x8_0000,
        a.len() % 8 == 0,
    ensures
        ({
            let k = (a.len() / 8) as u16;
            let e = empty_buffer(max);
            let b2 = if last_first {
                buffer_insert(buffer_insert(e, k, false, c).0, 0, true, a)
            } else {
                buffer_insert(buffer_insert(e, 0, true, a).0, k, false, c)
            };
            &&& b2.1 is Ok
            &&& assembled(b2.0) == Some(a + c)
        }),
{
    let k = (a.len() / 8) as u16;
    assert(k > 0);
    assert(k as int * 8 == a.len());
    let e = empty_buffer(max);
    let m = Map::<u16, Seq<u8>>::empty().insert(0, a).insert(k, c);
    let b_last = buffer_insert(buffer_insert(e, k, false, c).0, 0, true, a);
    let b_first = buffer_insert(buffer_insert(e, 0, true, a).0, k, false, c);
    assert(Map::<u16, Seq<u8>>::empty().insert(k, c).dom() =~= set![k]);
    assert(Map::<u16, Seq<u8>>::empty().insert(0, a).dom() =~= set![0u16]);
    assert(set![k].len() == 1 && set![0u16].len() == 1);
    assert(m.dom() =~= set![0u16, k]);
    assert(set![0u16, k].len() == 2) by {
        assert(set![0u16].insert(k) =~= set![0u16, k]);
    }
    assert(b_last.0.fragments =~= m);
    assert(b_first.0.fragments =~= m);
    let s = seq![0u16, k];
    assert(strictly_increasing(s));
    assert(s.to_set() =~= m.dom()) by {
        assert(s.to_set().contains(0u16) && s.to_set().contains(k));
        assert forall|x: u16| s.to_set().contains(x) implies x == 0 || x == k by {
            let i = choose|i: int| 0 <= i < s.len() && s[i] == x;
        }
    }
    let t = sorted_offsets(m);
    assert(strictly_increasing(t) && t.to_set() == m.dom());
    crate::ordered::lemma_increasing_unique(s, t);
    assert(frag_end(s, m, 0) == Some(0int));
    assert(frag_end(s, m, 1) == Some(a.len() as int));
    assert(frag_end(s, m, 2) == Some((a.len() + c.len()) as int));
    assert(frag_concat(s, m, 0) =~= Seq::<u8>::empty());
    assert(frag_concat(s, m, 1) =~= a);
    assert(frag_concat(s, m, 2) =~= a + c);
}

/// Two fragments of the datagram with key `key`, in arrival order: `a` at offset 0
/// with more to follow, and the last fragment `c` right after it; `c` first when
/// `last_first`. Each is the fragment key and placement of a packet, and its payload.
pub open spec fn fragment_pair<A: Addr>(key: FragmentKey<A>, a: Seq<u8>, c: Seq<u8>, last_first: bool)
    -> (Option<(FragmentKey<A>, FragmentInfo)>, Seq<u8>, Option<(FragmentKey<A>, FragmentInfo)>, Seq<u8>)
{
    let first = Some((key, FragmentInfo { offset_octets: 0, has_more: true }));
    let last = Some((key, FragmentInfo { offset_octets: (a.len() / 8) as u16, has_more: false }));
    if last_first { (last, c, first, a) } else { (first, a, last, c) }
}

/// Two fragments through a reassembler: for a datagram that has no buffer yet, a
/// first fragment `a` at offset 0 (a multiple of 8 bytes long) and the last
/// fragment `c` right after it, arriving in either order, as `process` takes them
/// (its `ensures` are `reassembly_outcome` and `reassembly_table`): the first leaves
/// the datagram incomplete, the second completes it with `a` then `c`, and then
/// the table holds no buffer for it.
pub proof fn lemma_process_two_fragments<A: Addr>(
    t0: Map<FragCacheKey, BufferModel>,
    t1: Map<FragCacheKey, BufferModel>,
    t2: Map<FragCacheKey, BufferModel>,
    o0: Seq<FragCacheKey>,
    o1: Seq<FragCacheKey>,
    cap: nat,
    max: nat,
    key: FragmentKey<A>,
    a: Seq<u8>,
    c: Seq<u8>,
    last_first: bool,
)
    requires
        max >= 2,
        0 < a.len() < 0x8_0000,
        a.len() % 8 == 0,
        !t0.contains_key(cache_key_of(key)),
        reassembly_table(t0, t1, o0, cap, max, fragment_pair(key, a, c, last_first).0, fragment_pair(key, a, c, last_first).1),
        reassembly_table(t1, t2, o1, cap, max, fragment_pair(key, a, c, last_first).2, fragment_pair(key, a, c, last_first).3),
    ensures
        reassembly_outcome(t0, max, fragment_pair(key, a, c, last_first).0, key.datagram,
            fragment_pair(key, a, c, last_first).1) == ReassemblyOutcome::<A>::Incomplete,
        reassembly_outcome(t1, max, fragment_pair(key, a, c, last_first).2, key.datagram,
            fragment_pair(key, a, c, last_first).3) == ReassemblyOutcome::<A>::Complete(key.datagram, a + c),
        !t2.contains_key(cache_key_of(key)),
{
    let ck = cache_key_of(key);
    let k = (a.len() / 8) as u16;
    assert(k > 0 && k as int * 8 == a.len());
    let e = empty_buffer(max);
    assert(buffer_for(t0, ck, max) == e);
    lemma_two_fragments_reassemble(max, a, c, last_first);
    if last_first {
        let b1 = buffer_insert(e, k, false, c);
        let m = Map::<u16, Seq<u8>>::empty().insert(k, c);
        assert(m.dom() =~= set![k]);
        assert(set![k].len() == 1);
        assert(b1.0.fragments == m);
        assert(b1.1 is Ok);
        let s = seq![k];
        assert(strictly_increasing(s));
        assert(s.to_set() =~= m.dom()) by {
            assert(s.to_set().contains(k));
            assert forall|x: u16| s.to_set().contains(x) implies x == k by {
                let i = choose|i: int| 0 <= i < s.len() && s[i] == x;
            }
        }
        let t = sorted_offsets(m);
        assert(strictly_increasing(t) && t.to_set() == m.dom());
        crate::ordered::lemma_increasing_unique(s, t);
        assert(frag_end(s, m, 0) == Some(0int));
        assert(s[0] == k);
        assert(frag_end(s, m, 1) is None);
        assert(!covers(m));
        assert(assembled(b1.0) is None);
        assert(t1.contains_key(ck) && t1[ck] == b1.0);
        assert(buffer_for(t1, ck, max) == b1.0);
    } else {
        let b1 = buffer_insert(e, 0, true, a);
        let m = Map::<u16, Seq<u8>>::empty().insert(0, a);
        assert(m.dom() =~= set![0u16]);
        assert(set![0u16].len() == 1);
        assert(b1.0.fragments == m);
        assert(b1.1 is Ok);
        assert(assembled(b1.0) is None);
        assert(t1.contains_key(ck) && t1[ck] == b1.0);
        assert(buffer_for(t1, ck, max) == b1.0);
    }
}

} // verus!
