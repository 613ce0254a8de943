//! Hash maps keyed by H3 index values.
//!
//! The maps are `hashbrown` hash maps with `ahash` hashing, as in the rest of
//! the H3 tooling. Each map type is opaque to the verifier; its contents are
//! named by an uninterpreted function and every operation the library uses is
//! a trusted wrapper stating what it does to the contents.
use vstd::prelude::*;
use crate::graph::node::NodeType;
use crate::h3::CellIndex;

verus! {

/// What a filter keeps comes from the filtered sequence.
pub(crate) proof fn lemma_filter_from<A>(s: Seq<A>, pred: spec_fn(A) -> bool, i: int)
    requires
        0 <= i < s.filter(pred).len(),
    ensures
        s.contains(s.filter(pred)[i]),
    decreases s.len(),
{
    reveal(Seq::filter);
    if s.len() > 0 {
        let init = s.drop_last();
        let fi = init.filter(pred);
        if pred(s.last()) && i == fi.len() {
            assert(s[s.len() - 1] == s.last());
        } else {
            assert(s.filter(pred)[i] == fi[i]);
            lemma_filter_from(init, pred, i);
            let k = choose|k: int| 0 <= k < init.len() && init[k] == fi[i];
            assert(s[k] == init[k]);
        }
    }
}
/// Filtering a sequence without duplicates gives one without duplicates.
pub(crate) proof fn lemma_filter_no_duplicates<A>(s: Seq<A>, pred: spec_fn(A) -> bool)
    requires
        s.no_duplicates(),
    ensures
        s.filter(pred).no_duplicates(),
    decreases s.len(),
{
    reveal(Seq::filter);
    if s.len() > 0 {
        let init = s.drop_last();
        assert forall|a: int, b: int| 0 <= a < init.len() && 0 <= b < init.len() && a != b implies init[a] != init[b] by {
            assert(init[a] == s[a] && init[b] == s[b]);
        }
        lemma_filter_no_duplicates(init, pred);
        let fi = init.filter(pred);
        if pred(s.last()) {
            assert forall|k: int| 0 <= k < fi.len() implies fi[k] != s.last() by {
                lemma_filter_from(init, pred, k);
                let j = choose|j: int| 0 <= j < init.len() && init[j] == fi[k];
                assert(s[j] == init[j]);
                assert(s[s.len() - 1] == s.last());
            }
            assert forall|a: int, b: int| 0 <= a < fi.push(s.last()).len() && 0 <= b < fi.push(s.last()).len() && a != b
                implies fi.push(s.last())[a] != fi.push(s.last())[b] by {
                if a < fi.len() && b < fi.len() {
                    assert(fi.push(s.last())[a] == fi[a] && fi.push(s.last())[b] == fi[b]);
                }
            }
        }
    }
}

/// A hash map from an H3 index value to a `u64` value.
#[verifier::external_body]
pub struct U64Map {
    map: hashbrown::HashMap<u64, u64, ahash::RandomState>,
}

/// A hash map from a cell index value to the cell's role in a graph.
#[verifier::external_body]
pub struct NodeTypeMap {
    map: hashbrown::HashMap<u64, NodeType, ahash::RandomState>,
}

/// The contents of a [`U64Map`].
pub uninterp spec fn u64_map_contents(r: U64Map) -> Map<u64, u64>;

/// The contents of a [`NodeTypeMap`].
pub uninterp spec fn node_type_map_contents(r: NodeTypeMap) -> Map<u64, NodeType>;

impl View for U64Map {
    type V = Map<u64, u64>;

    open spec fn view(&self) -> Map<u64, u64> {
        u64_map_contents(*self)
    }
}

impl View for NodeTypeMap {
    type V = Map<u64, NodeType>;

    open spec fn view(&self) -> Map<u64, NodeType> {
        node_type_map_contents(*self)
    }
}

/// The empty map from index values to `u64` values.
pub open spec fn no_u64_entries() -> Map<u64, u64> {
    Map::empty()
}

/// The empty map from cell index values to node types.
pub open spec fn no_node_types() -> Map<u64, NodeType> {
    Map::empty()
}

/// The keys of a sequence of map entries.
pub open spec fn entry_keys<V>(entries: Seq<(u64, V)>) -> Seq<u64> {
    entries.map_values(|p: (u64, V)| p.0)
}

/// `entries` lists the contents of `m` exactly once each, in some order.
pub open spec fn entries_of<V>(entries: Seq<(u64, V)>, m: Map<u64, V>) -> bool {
    &&& entry_keys(entries).no_duplicates()
    &&& forall|i: int| #![trigger entries[i]] 0 <= i < entries.len() ==> m.dom().contains(entries[i].0)
        && m[entries[i].0] == entries[i].1
    &&& forall|k: u64| #[trigger] m.dom().contains(k) ==> exists|i: int|
        0 <= i < entries.len() && entries[i].0 == k
}

/// The map that `entries` lists (the first entry of a key wins).
pub open spec fn entries_map<V>(entries: Seq<(u64, V)>) -> Map<u64, V> {
    Map::new(
        |k: u64| entry_keys(entries).contains(k),
        |k: u64| entries[entry_keys(entries).index_of(k)].1,
    )
}

/// A listing of `m` lists exactly `m`.
pub proof fn lemma_entries_map<V>(entries: Seq<(u64, V)>, m: Map<u64, V>)
    requires
        entries_of(entries, m),
    ensures
        entries_map(entries) == m,
{
    let keys = entry_keys(entries);
    assert forall|k: u64| keys.contains(k) <==> m.dom().contains(k) by {
        if keys.contains(k) {
            let j = choose|j: int| 0 <= j < keys.len() && keys[j] == k;
            assert(entries[j].0 == k);
        }
        if m.dom().contains(k) {
            let j = choose|j: int| 0 <= j < entries.len() && entries[j].0 == k;
            assert(keys[j] == k);
        }
    }
    assert forall|k: u64| #[trigger] m.dom().contains(k) implies entries_map(entries)[k] == m[k] by {
        assert(keys.contains(k));
        let j = keys.index_of(k);
        assert(keys[j] == k);
        assert(entries[j].0 == k);
    }
    assert(entries_map(entries) =~= m);
}

impl U64Map {
    /// Calls `hashbrown::HashMap::with_hasher` with a fresh `ahash::RandomState`.
    ///
    /// Claims that the new map is empty.
    #[verifier::external_body]
    pub(crate) fn new() -> (r: U64Map)
        ensures
            u64_map_contents(r) == no_u64_entries(),
    {
        U64Map { map: hashbrown::HashMap::with_hasher(ahash::RandomState::new()) }
    }

    /// Calls `hashbrown::HashMap::get`.
    ///
    /// Claims that the result is the value stored under `key`, if any.
    #[verifier::external_body]
    pub(crate) fn get(&self, key: u64) -> (r: Option<u64>)
        ensures
            r == (if u64_map_contents(*self).dom().contains(key) {
                Some(u64_map_contents(*self)[key])
            } else {
                None
            }),
    {
        self.map.get(&key).copied()
    }

    /// Calls `hashbrown::HashMap::insert`.
    ///
    /// Claims that `key` now maps to `value`, the rest is unchanged, and the
    /// result is the value that was stored under `key` before.
    #[verifier::external_body]
    pub(crate) fn insert(&mut self, key: u64, value: u64) -> (r: Option<u64>)
        ensures
            u64_map_contents(*final(self)) == u64_map_contents(*old(self)).insert(key, value),
            r == (if u64_map_contents(*old(self)).dom().contains(key) {
                Some(u64_map_contents(*old(self))[key])
            } else {
                None
            }),
    {
        self.map.insert(key, value)
    }

    /// Calls `hashbrown::HashMap::len`.
    ///
    /// Claims that the result is the number of keys.
    #[verifier::external_body]
    pub(crate) fn len(&self) -> (r: usize)
        ensures
            r == u64_map_contents(*self).len(),
    {
        self.map.len()
    }

    /// Calls `hashbrown::HashMap::iter` and collects the pairs.
    ///
    /// Claims that every entry occurs exactly once; the order is left open, as
    /// it depends on the process's random hash seed.
    #[verifier::external_body]
    pub(crate) fn entries(&self) -> (r: Vec<(u64, u64)>)
        ensures
            entries_of(r@, u64_map_contents(*self)),
    {
        self.map.iter().map(|(k, v)| (*k, *v)).collect()
    }
}

impl NodeTypeMap {
    /// The role of `cell`, if it is a node.
    pub fn node_type(&self, cell: &CellIndex) -> (r: Option<NodeType>)
        ensures
            r == (if self@.dom().contains(cell@) {
                Some(self@[cell@])
            } else {
                None
            }),
    {
        self.get(cell.to_u64())
    }

    /// The number of nodes.
    pub fn num_nodes(&self) -> (r: usize)
        ensures
            r == self@.len(),
    {
        self.len()
    }

    /// Calls `hashbrown::HashMap::with_hasher` with a fresh `ahash::RandomState`.
    ///
    /// Claims that the new map is empty.
    #[verifier::external_body]
    pub(crate) fn new() -> (r: NodeTypeMap)
        ensures
            node_type_map_contents(r) == no_node_types(),
    {
        NodeTypeMap { map: hashbrown::HashMap::with_hasher(ahash::RandomState::new()) }
    }

    /// Calls `hashbrown::HashMap::get`.
    ///
    /// Claims that the result is the value stored under `key`, if any.
    #[verifier::external_body]
    pub(crate) fn get(&self, key: u64) -> (r: Option<NodeType>)
        ensures
            r == (if node_type_map_contents(*self).dom().contains(key) {
                Some(node_type_map_contents(*self)[key])
            } else {
                None
            }),
    {
        self.map.get(&key).copied()
    }

    /// Calls `hashbrown::HashMap::insert`.
    ///
    /// Claims that `key` now maps to `value` and the rest is unchanged.
    #[verifier::external_body]
    pub(crate) fn insert(&mut self, key: u64, value: NodeType)
        ensures
            node_type_map_contents(*final(self)) == node_type_map_contents(*old(self)).insert(key, value),
    {
        self.map.insert(key, value);
    }

    /// Calls `hashbrown::HashMap::len`.
    ///
    /// Claims that the result is the number of keys.
    #[verifier::external_body]
    pub(crate) fn len(&self) -> (r: usize)
        ensures
            r == node_type_map_contents(*self).len(),
    {
        self.map.len()
    }

    /// Calls `hashbrown::HashMap::iter` and collects the pairs.
    ///
    /// Claims that every entry occurs exactly once; the order is left open, as
    /// it depends on the process's random hash seed.
    #[verifier::external_body]
    pub(crate) fn entries(&self) -> (r: Vec<(u64, NodeType)>)
        ensures
            entries_of(r@, node_type_map_contents(*self)),
    {
        self.map.iter().map(|(k, v)| (*k, *v)).collect()
    }
}

/// `acc` holds the running results of applying `f` to the weights `ws`
/// one pair at a time, from the first weight on: the first weight, then `f`
/// of the previous result and the next weight.
pub open spec fn is_fold_run<F: Fn(u64, u64) -> u64>(f: F, ws: Seq<u64>, acc: Seq<u64>) -> bool {
    &&& ws.len() > 0
    &&& acc.len() == ws.len()
    &&& acc[0] == ws[0]
    &&& forall|k: int| 0 < k < ws.len() ==> f.ensures((acc[k - 1], ws[k]), #[trigger] acc[k])
}

/// `x` is what `f` gives when it is applied to the weights `ws` one pair at
/// a time, from the first weight on.
pub open spec fn selector_fold<F: Fn(u64, u64) -> u64>(f: F, ws: Seq<u64>, x: u64) -> bool {
    exists|acc: Seq<u64>| #[trigger] is_fold_run(f, ws, acc) && acc.last() == x
}

/// Folding one more weight into a fold.
pub proof fn lemma_fold_push<F: Fn(u64, u64) -> u64>(f: F, ws: Seq<u64>, y: u64, w: u64, x: u64)
    requires
        selector_fold(f, ws, y),
        f.ensures((y, w), x),
    ensures
        selector_fold(f, ws.push(w), x),
{
    let acc = choose|acc: Seq<u64>| #[trigger] is_fold_run(f, ws, acc) && acc.last() == y;
    let v = ws.push(w);
    let acc2 = acc.push(x);
    assert forall|k: int| 0 < k < v.len() implies f.ensures((acc2[k - 1], v[k]), #[trigger] acc2[k]) by {
        if k < ws.len() {
            assert(acc2[k] == acc[k] && acc2[k - 1] == acc[k - 1] && v[k] == ws[k]);
        }
    }
    assert(is_fold_run(f, v, acc2));
}

/// A single weight folds to itself.
pub proof fn lemma_fold_single<F: Fn(u64, u64) -> u64>(f: F, w: u64)
    ensures
        selector_fold(f, seq![w], w),
{
    assert(is_fold_run(f, seq![w], seq![w]));
}

} // verus!
