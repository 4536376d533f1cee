//! The bounded least-recently-used tables of the `lru` crate that hold IP
//! reassembly buffers and TCP flows, with what this library relies on of them.
use crate::ip::frag::DatagramReassemblyBuffer;
use crate::transport::frag::{Endpoint, Flow};
use lru::LruCache;
use std::num::NonZeroUsize;
use vstd::prelude::*;

verus! {

/// The `lru` crate's `LruCache`, declared so that it can stand in fields and
/// signatures; Verus sees nothing inside it, only the names below.
#[verifier::external_type_specification]
#[verifier::external_body]
#[verifier::reject_recursive_types(K)]
#[verifier::reject_recursive_types(V)]
#[verifier::reject_recursive_types(S)]
pub struct ExLruCache<K, V, S>(LruCache<K, V, S>);

/// The order `o` with `k` taken out.
pub open spec fn without<K>(o: Seq<K>, k: K) -> Seq<K> {
    o.filter(|x: K| x != k)
}

/// The recency order (least recently used first) after an access to `key` that
/// finds or makes its entry: `key` moves to the most recent end; a new key in a
/// full table takes the place of the least recently used one, which leaves.
pub open spec fn order_after_access<K>(o: Seq<K>, key: K, present: bool, full: bool) -> Seq<K> {
    if present {
        without(o, key).push(key)
    } else if full {
        o.drop_first().push(key)
    } else {
        o.push(key)
    }
}

/// An order of the keys of `m`: each key once.
pub open spec fn orders_keys<K, V>(o: Seq<K>, m: Map<K, V>) -> bool {
    &&& o.no_duplicates()
    &&& o.to_set() == m.dom()
}

/// Key of a flow: its two endpoints, lower one first.
pub type FlowKey = (Endpoint, Endpoint);

/// A flow table.
pub type FlowTable = LruCache<FlowKey, Flow>;

/// The entries of a flow table: key to flow.
pub uninterp spec fn flow_entries(c: FlowTable) -> Map<FlowKey, Flow>;

/// The number of entries a flow table was made to hold.
pub uninterp spec fn flow_capacity(c: FlowTable) -> nat;

/// The keys of a flow table from the least to the most recently used.
pub uninterp spec fn flow_order(c: FlowTable) -> Seq<FlowKey>;

/// The entries of a flow table are finitely many, and no more than it holds;
/// its recency order holds each key once.
pub open spec fn flow_table_bounded(c: FlowTable) -> bool {
    &&& flow_entries(c).dom().finite()
    &&& flow_entries(c).dom().len() <= flow_capacity(c)
    &&& orders_keys(flow_order(c), flow_entries(c))
}

/// `LruCache::new`: an empty table that holds at most `cap` entries.
#[verifier::external_body]
pub(crate) fn flows_new(cap: usize) -> (r: FlowTable)
    requires
        cap > 0,
    ensures
        flow_entries(r).dom() == Set::<FlowKey>::empty(),
        flow_order(r) == Seq::<FlowKey>::empty(),
        flow_capacity(r) == cap,
{
    LruCache::new(NonZeroUsize::new(cap).unwrap())
}

/// `LruCache::get_or_insert_mut`: the entry for `key`, made by
/// `Flow::from_endpoints(a, b)` where there was none; `key` becomes the most
/// recently used. A new entry in a full table takes the place of the least
/// recently used one.
#[verifier::external_body]
pub(crate) fn flows_get_or_insert(c: &mut FlowTable, key: FlowKey, a: Endpoint, b: Endpoint) -> (r: &mut Flow)
    requires
        flow_table_bounded(*old(c)),
    ensures
        flow_capacity(*final(c)) == flow_capacity(*old(c)),
        flow_table_bounded(*final(c)),
        flow_entries(*old(c)).contains_key(key) ==> *r == flow_entries(*old(c))[key],
        !flow_entries(*old(c)).contains_key(key) ==> (*r)@ == crate::transport::frag::new_flow(a, b),
        flow_entries(*old(c)).contains_key(key) || flow_entries(*old(c)).dom().len() < flow_capacity(*old(c))
            ==> flow_entries(*final(c)) == flow_entries(*old(c)).insert(key, *final(r)),
        !flow_entries(*old(c)).contains_key(key) && flow_entries(*old(c)).dom().len() >= flow_capacity(*old(c))
            ==> flow_entries(*final(c)) == flow_entries(*old(c)).remove(flow_order(*old(c))[0]).insert(key, *final(r)),
        flow_order(*final(c)) == order_after_access(flow_order(*old(c)), key, flow_entries(*old(c)).contains_key(key),
            flow_entries(*old(c)).dom().len() >= flow_capacity(*old(c))),
{
    c.get_or_insert_mut(key, || Flow::from_endpoints(a, b))
}

/// `LruCache::pop`: removes the entry for `key` and returns it; the other keys
/// keep their recency order.
#[verifier::external_body]
pub(crate) fn flows_pop(c: &mut FlowTable, key: &FlowKey) -> (r: Option<Flow>)
    requires
        flow_table_bounded(*old(c)),
    ensures
        flow_capacity(*final(c)) == flow_capacity(*old(c)),
        flow_entries(*final(c)) == flow_entries(*old(c)).remove(*key),
        flow_order(*final(c)) == without(flow_order(*old(c)), *key),
        flow_table_bounded(*final(c)),
        r == (if flow_entries(*old(c)).contains_key(*key) { Some(flow_entries(*old(c))[*key]) } else { None }),
{
    c.pop(key)
}

/// Key of a reassembly buffer: source and destination host keys, protocol key
/// (see `crate::ip::proto_key`) and identification.
pub type FragCacheKey = (u128, u128, u16, u32);

/// A table of reassembly buffers.
pub type BufferTable = LruCache<FragCacheKey, DatagramReassemblyBuffer>;

/// The entries of a buffer table: key to buffer.
pub uninterp spec fn buffer_entries(c: BufferTable) -> Map<FragCacheKey, DatagramReassemblyBuffer>;

/// The number of entries a buffer table was made to hold.
pub uninterp spec fn buffer_capacity(c: BufferTable) -> nat;

/// The keys of a buffer table from the least to the most recently used.
pub uninterp spec fn buffer_order(c: BufferTable) -> Seq<FragCacheKey>;

/// The entries of a buffer table are finitely many, and no more than it holds;
/// its recency order holds each key once.
pub open spec fn buffer_table_bounded(c: BufferTable) -> bool {
    &&& buffer_entries(c).dom().finite()
    &&& buffer_entries(c).dom().len() <= buffer_capacity(c)
    &&& orders_keys(buffer_order(c), buffer_entries(c))
}

/// `LruCache::new`: an empty table that holds at most `cap` buffers.
#[verifier::external_body]
pub(crate) fn buffers_new(cap: usize) -> (r: BufferTable)
    requires
        cap > 0,
    ensures
        buffer_entries(r).dom() == Set::<FragCacheKey>::empty(),
        buffer_order(r) == Seq::<FragCacheKey>::empty(),
        buffer_capacity(r) == cap,
{
    LruCache::new(NonZeroUsize::new(cap).unwrap())
}

/// `LruCache::get_or_insert_mut`: the buffer for `key`, made by
/// `DatagramReassemblyBuffer::new(max_fragments)` where there was none; `key`
/// becomes the most recently used. A new entry in a full table takes the place of
/// the least recently used one.
#[verifier::external_body]
pub(crate) fn buffers_get_or_insert(c: &mut BufferTable, key: FragCacheKey, max_fragments: usize) -> (r: &mut DatagramReassemblyBuffer)
    requires
        buffer_table_bounded(*old(c)),
        max_fragments > 0,
    ensures
        buffer_capacity(*final(c)) == buffer_capacity(*old(c)),
        buffer_table_bounded(*final(c)),
        buffer_entries(*old(c)).contains_key(key) ==> *r == buffer_entries(*old(c))[key],
        !buffer_entries(*old(c)).contains_key(key) ==> (*r)@ == crate::ip::frag::empty_buffer(max_fragments as nat) && r.wf(),
        buffer_entries(*old(c)).contains_key(key) || buffer_entries(*old(c)).dom().len() < buffer_capacity(*old(c))
            ==> buffer_entries(*final(c)) == buffer_entries(*old(c)).insert(key, *final(r)),
        !buffer_entries(*old(c)).contains_key(key) && buffer_entries(*old(c)).dom().len() >= buffer_capacity(*old(c))
            ==> buffer_entries(*final(c)) == buffer_entries(*old(c)).remove(buffer_order(*old(c))[0]).insert(key, *final(r)),
        buffer_order(*final(c)) == order_after_access(buffer_order(*old(c)), key, buffer_entries(*old(c)).contains_key(key),
            buffer_entries(*old(c)).dom().len() >= buffer_capacity(*old(c))),
{
    c.get_or_insert_mut(key, || DatagramReassemblyBuffer::new(max_fragments))
}

/// `LruCache::pop`: removes the buffer for `key` and returns it; the other keys
/// keep their recency order.
#[verifier::external_body]
pub(crate) fn buffers_pop(c: &mut BufferTable, key: &FragCacheKey) -> (r: Option<DatagramReassemblyBuffer>)
    requires
        buffer_table_bounded(*old(c)),
    ensures
        buffer_capacity(*final(c)) == buffer_capacity(*old(c)),
        buffer_entries(*final(c)) == buffer_entries(*old(c)).remove(*key),
        buffer_order(*final(c)) == without(buffer_order(*old(c)), *key),
        buffer_table_bounded(*final(c)),
        r == (if buffer_entries(*old(c)).contains_key(*key) { Some(buffer_entries(*old(c))[*key]) } else { None }),
{
    c.pop(key)
}

/// How one access of a bounded table changes it: `key` now holds `v`, every other
/// key keeps its value, and only when the table was full and `key` new does one
/// key leave: the least recently used.
pub proof fn lemma_table_step<K, V>(old_e: Map<K, V>, new_e: Map<K, V>, o: Seq<K>, key: K, v: V, cap: nat)
    requires
        orders_keys(o, old_e),
        old_e.contains_key(key) || old_e.dom().len() < cap ==> new_e == old_e.insert(key, v),
        !old_e.contains_key(key) && old_e.dom().len() >= cap ==> new_e == old_e.remove(o[0]).insert(key, v),
        old_e.dom().finite(),
        cap > 0,
    ensures
        new_e.contains_key(key),
        new_e[key] == v,
        forall|k: K| k != key && #[trigger] new_e.contains_key(k) ==> old_e.contains_key(k) && new_e[k] == old_e[k],
        forall|k: K| k != key && #[trigger] old_e.contains_key(k)
            && !(!old_e.contains_key(key) && old_e.dom().len() >= cap && k == o[0]) ==> new_e.contains_key(k),
        !old_e.contains_key(key) && old_e.dom().len() >= cap ==> o.len() > 0 && o[0] != key
            && old_e.contains_key(o[0]) && !new_e.contains_key(o[0]),
{
    if !old_e.contains_key(key) && old_e.dom().len() >= cap {
        o.lemma_cardinality_of_empty_set_is_0();
        assert(o.len() > 0);
        assert(o.to_set().contains(o[0]));
    }
}

} // verus!
