//! Order facts about the keys that a `BTreeMap` hands out.
use vstd::prelude::*;
use std::collections::BTreeMap;
use vstd::std_specs::btree::{increasing_seq, spec_btree_map_iter};
use vstd::std_specs::iter::IteratorSpec;
use vstd::std_specs::cmp::OrdSpec;

verus! {

/// Every element of `s` is below every later one.
pub open spec fn strictly_increasing(s: Seq<u16>) -> bool {
    forall|i: int, j: int| 0 <= i < j < s.len() ==> s[i] < s[j]
}

/// Keys that a `BTreeMap` hands out in increasing order are strictly increasing numbers.
pub proof fn lemma_increasing_keys(s: Seq<u16>)
    requires
        increasing_seq(s),
    ensures
        strictly_increasing(s),
{
    broadcast use vstd::laws_cmp::group_laws_cmp;

    assert(vstd::laws_cmp::obeys_cmp::<u16>());
    vstd::std_specs::btree::axiom_increasing_seq_meaning::<u16>(s);
    assert forall|i: int, j: int| 0 <= i < j < s.len() implies s[i] < s[j] by {
        assert(s[i].cmp_spec(&s[j]) is Less);
    }
}

/// Two strictly increasing sequences with the same elements are equal.
pub proof fn lemma_increasing_unique(s: Seq<u16>, t: Seq<u16>)
    requires
        strictly_increasing(s),
        strictly_increasing(t),
        s.to_set() == t.to_set(),
    ensures
        s == t,
    decreases s.len() + t.len(),
{
    if s.len() == 0 {
        if t.len() > 0 {
            assert(t.to_set().contains(t[0]));
        }
        assert(s =~= t);
    } else if t.len() == 0 {
        assert(s.to_set().contains(s[0]));
    } else {
        assert(t.to_set().contains(s[0]));
        assert(s.to_set().contains(t[0]));
        let j = choose|j: int| 0 <= j < t.len() && t[j] == s[0];
        let i = choose|i: int| 0 <= i < s.len() && s[i] == t[0];
        assert(s[0] == t[0]);
        let s1 = s.drop_first();
        let t1 = t.drop_first();
        assert forall|x: u16| s1.to_set().contains(x) <==> t1.to_set().contains(x) by {
            if s1.to_set().contains(x) {
                let a = choose|a: int| 0 <= a < s1.len() && s1[a] == x;
                assert(s.to_set().contains(x));
                assert(s[a + 1] == x);
                let b = choose|b: int| 0 <= b < t.len() && t[b] == x;
                assert(b > 0);
                assert(t1[b - 1] == x);
            }
            if t1.to_set().contains(x) {
                let a = choose|a: int| 0 <= a < t1.len() && t1[a] == x;
                assert(t.to_set().contains(x));
                assert(t[a + 1] == x);
                let b = choose|b: int| 0 <= b < s.len() && s[b] == x;
                assert(b > 0);
                assert(s1[b - 1] == x);
            }
        }
        assert(s1.to_set() =~= t1.to_set());
        lemma_increasing_unique(s1, t1);
        assert(s =~= seq![s[0]] + s1);
        assert(t =~= seq![t[0]] + t1);
    }
}

/// The keys of a map in increasing order.
pub open spec fn sorted_keys<V>(m: Map<u16, V>) -> Seq<u16> {
    choose|s: Seq<u16>| strictly_increasing(s) && s.to_set() == m.dom()
}

/// The keys of the entries that iterating a map hands out.
pub open spec fn iter_keys<'a, V>(items: Seq<(&'a u16, &'a V)>) -> Seq<u16> {
    items.map_values(|kv: (&'a u16, &'a V)| *kv.0)
}

/// Iterating a `BTreeMap` hands out its entries in increasing key order, each
/// with its value.
pub proof fn lemma_btree_iter_sorted<V>(m: &BTreeMap<u16, V>)
    requires
        increasing_seq(iter_keys(spec_btree_map_iter(m).remaining())),
    ensures
        iter_keys(spec_btree_map_iter(m).remaining()) == sorted_keys(m@),
        spec_btree_map_iter(m).remaining().len() == sorted_keys(m@).len(),
        forall|i: int| 0 <= i < sorted_keys(m@).len() ==>
            m@.contains_key(#[trigger] sorted_keys(m@)[i]) && *spec_btree_map_iter(m).remaining()[i].1 == m@[sorted_keys(m@)[i]],
{
    broadcast use vstd::std_specs::btree::group_btree_axioms;
    broadcast use vstd::laws_cmp::group_laws_cmp;

    assert(vstd::laws_cmp::obeys_cmp::<u16>());
    assert(vstd::std_specs::btree::key_obeys_cmp_spec::<u16>());
    let it = spec_btree_map_iter(m);
    let v = it.remaining();
    let ks = iter_keys(v);
    lemma_increasing_keys(ks);
    assert forall|x: u16| ks.to_set().contains(x) <==> m@.dom().contains(x) by {
        if ks.to_set().contains(x) {
            let i = choose|i: int| 0 <= i < ks.len() && ks[i] == x;
            assert(m@.contains_key(*v[i].0));
        }
        if m@.dom().contains(x) {
            assert(v.contains((&x, &m@[x])));
            let i = choose|i: int| 0 <= i < v.len() && v[i] == (&x, &m@[x]);
            assert(ks[i] == x);
        }
    }
    assert(ks.to_set() =~= m@.dom());
    let s = sorted_keys(m@);
    assert(strictly_increasing(s) && s.to_set() == m@.dom());
    lemma_increasing_unique(ks, s);
    assert forall|i: int| 0 <= i < s.len() implies
        m@.contains_key(#[trigger] s[i]) && *v[i].1 == m@[s[i]] by {
        assert(ks[i] == *v[i].0);
        assert(m@.contains_key(*v[i].0) && m@[*v[i].0] == *v[i].1);
    }
}

} // verus!
