//! A graph prepared for routing: edges grouped by their origin cell, with
//! fast-forwards along paths without forks.
use vstd::prelude::*;
use crate::h3::{CellIndex, DirectedEdgeIndex, MAX_RESOLUTION, cells_view, index_values, sorted_dedup, h3_is_cell, h3_is_edge, h3_resolution, h3_edge_origin, h3_edge_destination, h3_edge_reverse, h3_cell_edges, strictly_increasing, edges_view, dedup_consecutive};
use crate::algorithm::edge::try_reverse_directed_edge;
use crate::graph::h3edge::{H3EdgeGraph, nodes_of, roles_match, record_edge_roles, lemma_roles_match_nodes_of};
use crate::collections::{U64Map, NodeTypeMap, entries_of, entry_keys};
use crate::graph::fastforward::FastForward;
use crate::graph::node::NodeType;
use crate::graph::{EdgeWeight, EdgeWeightView, GraphStats, GetStats, GetCellNode, GetCellEdges, HasH3Resolution, IterateCellNodes, edge_weight_view, edge_weights_view};
use crate::error::Error;
use crate::treemap::H3Treemap;
use crate::algorithm::resolution::{transform_cell, transform_resolution, lemma_transform_cells_contains};

verus! {

/// The weight of an edge as the prepared graph holds it: the weight and the
/// fast-forward starting with the edge, with the fast-forward's weight.
struct OwnedEdgeWeight {
    weight: u64,
    fastforward: Option<(FastForward, u64)>,
}

/// The view of an owned edge weight.
spec fn owned_weight_view(w: OwnedEdgeWeight) -> EdgeWeightView {
    (
        w.weight,
        match w.fastforward {
            Some((ff, ffw)) => Some((ff.path(), ffw)),
            None => None,
        },
    )
}

/// The view of a list of edges with owned weights.
spec fn owned_edges_view(s: Seq<(DirectedEdgeIndex, OwnedEdgeWeight)>) -> Seq<(u64, EdgeWeightView)> {
    s.map_values(|p: (DirectedEdgeIndex, OwnedEdgeWeight)| (p.0@, owned_weight_view(p.1)))
}

/// The edges of a list of edges with weights.
pub open spec fn edge_values(s: Seq<(u64, EdgeWeightView)>) -> Seq<u64> {
    s.map_values(|p: (u64, EdgeWeightView)| p.0)
}

/// Whether an edge starts a fast-forward.
pub open spec fn has_fastforward(p: (u64, EdgeWeightView)) -> bool {
    p.1.1 is Some
}

/// The slots of a prepared graph (a cell and the edges leaving it), found
/// by the cell through `index`: each cell of `index` names the position of
/// its slot, each slot is named by its cell, the edges of a slot leave its
/// cell and are strictly increasing.
pub open spec fn slots_wf(slots: Seq<(u64, Seq<(u64, EdgeWeightView)>)>, index: Map<u64, u64>) -> bool {
    &&& forall|c: u64| #[trigger] index.dom().contains(c) ==> index[c] < slots.len() && slots[index[c] as int].0 == c
    &&& forall|p: int| 0 <= p < slots.len() ==> index.dom().contains(#[trigger] slots[p].0) && index[slots[p].0] == p
    &&& forall|p: int, i: int| 0 <= p < slots.len() && 0 <= i < slots[p].1.len() ==> h3_edge_origin(
        #[trigger] slots[p].1[i].0,
    ) == slots[p].0
    &&& forall|p: int| 0 <= p < slots.len() ==> strictly_increasing(edge_values(#[trigger] slots[p].1))
}

/// The edge lists of the slots.
pub open spec fn slot_lists(slots: Seq<(u64, Seq<(u64, EdgeWeightView)>)>) -> Seq<Seq<(u64, EdgeWeightView)>> {
    slots.map_values(|s: (u64, Seq<(u64, EdgeWeightView)>)| s.1)
}

/// The edges of all slots, slot after slot.
pub open spec fn flat_edges(slots: Seq<(u64, Seq<(u64, EdgeWeightView)>)>) -> Seq<(u64, EdgeWeightView)> {
    slot_lists(slots).flatten()
}

/// `n`, or `usize::MAX` when `n` is larger.
pub open spec fn saturated(n: int) -> int {
    if n < usize::MAX {
        n
    } else {
        usize::MAX as int
    }
}

/// The edges of the slots up to `p + 1` are those up to `p`, then those of slot `p`.
proof fn lemma_flat_take(slots: Seq<(u64, Seq<(u64, EdgeWeightView)>)>, p: int)
    requires
        0 <= p < slots.len(),
    ensures
        flat_edges(slots.take(p + 1)) == flat_edges(slots.take(p)) + slots[p].1,
{
    assert(slot_lists(slots.take(p + 1)) == slot_lists(slots.take(p)).push(slots[p].1));
    slot_lists(slots.take(p)).lemma_flatten_push(slots[p].1);
}

/// An edge of a slot occurs among the edges of all slots.
proof fn lemma_flat_contains(slots: Seq<(u64, Seq<(u64, EdgeWeightView)>)>, p: int, i: int)
    requires
        0 <= p < slots.len(),
        0 <= i < slots[p].1.len(),
    ensures
        exists|k: int| 0 <= k < flat_edges(slots).len() && #[trigger] flat_edges(slots)[k] == slots[p].1[i],
    decreases slots.len(),
{
    let n = slots.len() as int;
    assert(slots.take(n) == slots);
    lemma_flat_take(slots, n - 1);
    let init = slots.take(n - 1);
    if p == n - 1 {
        let k = flat_edges(init).len() + i;
        assert(flat_edges(slots)[k] == slots[p].1[i]);
    } else {
        assert(init[p] == slots[p]);
        lemma_flat_contains(init, p, i);
        let k = choose|k: int| 0 <= k < flat_edges(init).len() && #[trigger] flat_edges(init)[k] == init[p].1[i];
        assert(flat_edges(slots)[k] == flat_edges(init)[k]);
    }
}

/// Every edge among the edges of all slots is an edge of some slot.
proof fn lemma_flat_index(slots: Seq<(u64, Seq<(u64, EdgeWeightView)>)>, k: int)
    requires
        0 <= k < flat_edges(slots).len(),
    ensures
        exists|p: int, i: int| 0 <= p < slots.len() && 0 <= i < slots[p].1.len() && #[trigger] slots[p].1[i]
            == flat_edges(slots)[k],
    decreases slots.len(),
{
    let n = slots.len() as int;
    if n == 0 {
        assert(slot_lists(slots) == Seq::<Seq<(u64, EdgeWeightView)>>::empty());
        assert(flat_edges(slots).len() == 0);
    } else {
        assert(slots.take(n) == slots);
        lemma_flat_take(slots, n - 1);
        let init = slots.take(n - 1);
        if k < flat_edges(init).len() {
            lemma_flat_index(init, k);
            let (p, i) = choose|p: int, i: int| 0 <= p < init.len() && 0 <= i < init[p].1.len() && #[trigger] init[p].1[i]
                == flat_edges(init)[k];
            assert(slots[p] == init[p]);
            assert(slots[p].1[i] == flat_edges(slots)[k]);
        } else {
            let i = k - flat_edges(init).len();
            assert(slots[n - 1].1[i] == flat_edges(slots)[k]);
        }
    }
}

/// Borrows an owned weight as an [`EdgeWeight`].
fn borrow_weight(w: &OwnedEdgeWeight) -> (r: EdgeWeight<'_>)
    ensures
        edge_weight_view(r) == owned_weight_view(*w),
{
    match &w.fastforward {
        Some(ff) => EdgeWeight { weight: w.weight, fastforward: Some((&ff.0, ff.1)) },
        None => EdgeWeight { weight: w.weight, fastforward: None },
    }
}

/// The edges of all slots are the entries of the slots.
proof fn lemma_flat_has(slots: Seq<(u64, Seq<(u64, EdgeWeightView)>)>)
    ensures
        forall|x: (u64, EdgeWeightView)| flat_edges(slots).contains(x) <==> has_entry(slots, x),
        forall|e: u64| edge_values(flat_edges(slots)).contains(e) <==> has_edge(slots, e),
{
    let flat = flat_edges(slots);
    assert forall|x: (u64, EdgeWeightView)| flat.contains(x) <==> has_entry(slots, x) by {
        if flat.contains(x) {
            let k = choose|k: int| 0 <= k < flat.len() && flat[k] == x;
            lemma_flat_index(slots, k);
        }
        if has_entry(slots, x) {
            let (p, i) = choose|p: int, i: int| 0 <= p < slots.len() && 0 <= i < slots[p].1.len() && #[trigger] slots[p].1[i] == x;
            lemma_flat_contains(slots, p, i);
        }
    }
    assert forall|e: u64| edge_values(flat).contains(e) <==> has_edge(slots, e) by {
        if edge_values(flat).contains(e) {
            let k = choose|k: int| 0 <= k < edge_values(flat).len() && edge_values(flat)[k] == e;
            lemma_flat_index(slots, k);
            let (p, i) = choose|p: int, i: int| 0 <= p < slots.len() && 0 <= i < slots[p].1.len() && #[trigger] slots[p].1[i] == flat[k];
            assert(slots[p].1[i].0 == e);
        }
        if has_edge(slots, e) {
            let (p, i) = choose|p: int, i: int| 0 <= p < slots.len() && 0 <= i < slots[p].1.len() && (#[trigger] slots[p].1[i]).0 == e;
            lemma_flat_contains(slots, p, i);
            let k = choose|k: int| 0 <= k < flat.len() && #[trigger] flat[k] == slots[p].1[i];
            assert(edge_values(flat)[k] == e);
        }
    }
}

/// In well-formed slots, the edges of the first `p` slots occur once each,
/// and each starts at the cell of one of these slots.
proof fn lemma_flat_unique(slots: Seq<(u64, Seq<(u64, EdgeWeightView)>)>, index: Map<u64, u64>, p: int)
    requires
        slots_wf(slots, index),
        0 <= p <= slots.len(),
    ensures
        edge_values(flat_edges(slots.take(p))).no_duplicates(),
        forall|k: int| 0 <= k < flat_edges(slots.take(p)).len() ==> exists|q: int| 0 <= q < p
            && h3_edge_origin(#[trigger] flat_edges(slots.take(p))[k].0) == slots[q].0,
    decreases p,
{
    if p == 0 {
        assert(slot_lists(slots.take(0)) =~= Seq::<Seq<(u64, EdgeWeightView)>>::empty());
        assert(flat_edges(slots.take(0)).len() == 0);
    } else {
        lemma_flat_unique(slots, index, p - 1);
        lemma_flat_take(slots, p - 1);
        let a = flat_edges(slots.take(p - 1));
        let b = slots[p - 1].1;
        let f = flat_edges(slots.take(p));
        assert(f == a + b);
        let ev = edge_values(f);
        assert(strictly_increasing(edge_values(b)));
        assert forall|i: int, j: int| 0 <= i < ev.len() && 0 <= j < ev.len() && i != j implies ev[i] != ev[j] by {
            if i < a.len() && j < a.len() {
                assert(edge_values(a)[i] == ev[i] && edge_values(a)[j] == ev[j]);
            } else if i >= a.len() && j >= a.len() {
                assert(edge_values(b)[i - a.len()] == ev[i] && edge_values(b)[j - a.len()] == ev[j]);
            } else {
                let (x, y) = if i < a.len() { (i, j) } else { (j, i) };
                assert(f[x] == a[x]);
                let q = choose|q: int| 0 <= q < p - 1 && h3_edge_origin(#[trigger] a[x].0) == slots[q].0;
                assert(f[y] == b[y - a.len()]);
                assert(h3_edge_origin(b[y - a.len()].0) == slots[p - 1].0);
                if ev[i] == ev[j] {
                    assert(slots[q].0 == slots[p - 1].0);
                    assert(index[slots[q].0] == q);
                    assert(index[slots[p - 1].0] == p - 1);
                }
            }
        }
        assert forall|k: int| 0 <= k < f.len() implies exists|q: int| 0 <= q < p && h3_edge_origin(#[trigger] f[k].0)
            == slots[q].0 by {
            if k < a.len() {
                assert(f[k] == a[k]);
                let q = choose|q: int| 0 <= q < p - 1 && h3_edge_origin(#[trigger] a[k].0) == slots[q].0;
            } else {
                assert(f[k] == b[k - a.len()]);
                assert(h3_edge_origin(b[k - a.len()].0) == slots[p - 1].0);
            }
        }
    }
}

/// The edges covered by the fast-forwards of `entries`: each edge of a
/// fast-forward's path but the first.
pub open spec fn covered_edges(entries: Seq<(u64, EdgeWeightView)>) -> Set<u64> {
    Set::new(|e: u64| exists|k: int| 0 <= k < entries.len() && covers(#[trigger] entries[k], e))
}

/// The entry starts a fast-forward whose path holds `e` after its first edge.
pub open spec fn covers(entry: (u64, EdgeWeightView), e: u64) -> bool {
    match entry.1.1 {
        Some((path, _)) => path.skip(1).contains(e),
        None => false,
    }
}

/// The view of the slots as a prepared graph holds them.
spec fn slots_view_of(v: Seq<(CellIndex, Vec<(DirectedEdgeIndex, OwnedEdgeWeight)>)>) -> Seq<(u64, Seq<(u64, EdgeWeightView)>)> {
    v.map_values(|s: (CellIndex, Vec<(DirectedEdgeIndex, OwnedEdgeWeight)>)| (s.0@, owned_edges_view(s.1@)))
}

/// Some slot holds the entry `x`.
pub open spec fn has_entry(slots: Seq<(u64, Seq<(u64, EdgeWeightView)>)>, x: (u64, EdgeWeightView)) -> bool {
    exists|p: int, i: int| 0 <= p < slots.len() && 0 <= i < slots[p].1.len() && #[trigger] slots[p].1[i] == x
}

/// Some slot holds an entry for the edge `e`.
pub open spec fn has_edge(slots: Seq<(u64, Seq<(u64, EdgeWeightView)>)>, e: u64) -> bool {
    exists|p: int, i: int| 0 <= p < slots.len() && 0 <= i < slots[p].1.len() && (#[trigger] slots[p].1[i]).0 == e
}

/// Inserts `(edge, weight)` into a list sorted by edge, unless the list
/// already holds an entry for `edge`, which is then kept.
fn insert_deduplicated(list: &mut Vec<(DirectedEdgeIndex, OwnedEdgeWeight)>, edge: DirectedEdgeIndex, weight: OwnedEdgeWeight)
    requires
        strictly_increasing(edge_values(owned_edges_view(old(list)@))),
    ensures
        strictly_increasing(edge_values(owned_edges_view(final(list)@))),
        forall|x: (u64, EdgeWeightView)| owned_edges_view(final(list)@).contains(x) <==> (owned_edges_view(old(list)@).contains(x)
            || (x == (edge@, owned_weight_view(weight)) && !edge_values(owned_edges_view(old(list)@)).contains(edge@))),
        forall|e: u64| edge_values(owned_edges_view(final(list)@)).contains(e) <==> (edge_values(owned_edges_view(old(list)@)).contains(e)
            || e == edge@),
{
    let ghost old_v = owned_edges_view(list@);
    let ghost old_e = edge_values(old_v);
    let v = edge.to_u64();
    let mut i: usize = 0;
    while i < list.len() && list[i].0.to_u64() < v
        invariant
            i <= list@.len(),
            old_v == owned_edges_view(list@),
            old_e == edge_values(old_v),
            forall|j: int| 0 <= j < i ==> old_e[j] < v,
        decreases list@.len() - i,
    {
        i += 1;
    }
    if i < list.len() && list[i].0.to_u64() == v {
        assert(old_e[i as int] == v);
        assert(old_e.contains(v));
        assert forall|e: u64| old_e.contains(e) <==> (old_e.contains(e) || e == edge@) by {
        }
    } else {
        let ghost wv = (v, owned_weight_view(weight));
        list.insert(i, (edge, weight));
        let ghost new_v = owned_edges_view(list@);
        assert(new_v == old_v.insert(i as int, wv));
        assert(edge_values(new_v) == old_e.insert(i as int, v));
        assert(!old_e.contains(v)) by {
            if old_e.contains(v) {
                let j = choose|j: int| 0 <= j < old_e.len() && old_e[j] == v;
                if j < i {
                } else {
                    assert(old_e[i as int] <= old_e[j]);
                }
            }
        }
        assert forall|a: int, b: int| 0 <= a < b < edge_values(new_v).len() implies edge_values(new_v)[a]
            < edge_values(new_v)[b] by {
            if b < i {
            } else if b == i {
            } else if a < i {
                assert(edge_values(new_v)[b] == old_e[b - 1]);
                if i < old_e.len() {
                    assert(old_e[i as int] >= v);
                }
            } else if a == i {
                assert(edge_values(new_v)[b] == old_e[b - 1]);
                assert(old_e[i as int] >= v);
            } else {
                assert(edge_values(new_v)[a] == old_e[a - 1]);
                assert(edge_values(new_v)[b] == old_e[b - 1]);
            }
        }
        assert forall|x: (u64, EdgeWeightView)| new_v.contains(x) <==> (old_v.contains(x) || x == wv) by {
            if new_v.contains(x) {
                let j = choose|j: int| 0 <= j < new_v.len() && new_v[j] == x;
                if j < i {
                    assert(old_v[j] == x);
                } else if j > i {
                    assert(old_v[j - 1] == x);
                }
            }
            if old_v.contains(x) {
                let j = choose|j: int| 0 <= j < old_v.len() && old_v[j] == x;
                if j < i {
                    assert(new_v[j] == x);
                } else {
                    assert(new_v[j + 1] == x);
                }
            }
            if x == wv {
                assert(new_v[i as int] == x);
            }
        }
        assert forall|e: u64| edge_values(new_v).contains(e) <==> (old_e.contains(e) || e == v) by {
            if edge_values(new_v).contains(e) {
                let j = choose|j: int| 0 <= j < new_v.len() && edge_values(new_v)[j] == e;
                if j < i {
                    assert(old_e[j] == e);
                } else if j > i {
                    assert(old_e[j - 1] == e);
                }
            }
            if old_e.contains(e) {
                let j = choose|j: int| 0 <= j < old_e.len() && old_e[j] == e;
                if j < i {
                    assert(edge_values(new_v)[j] == e);
                } else {
                    assert(edge_values(new_v)[j + 1] == e);
                }
            }
            if e == v {
                assert(edge_values(new_v)[i as int] == e);
            }
        }
    }
}

/// Adds `(edge, weight)` to the slot of the edge's origin cell, creating the
/// slot when the cell has none yet. An entry already present for `edge` is kept.
fn add_to_slots(
    index: &mut U64Map,
    slots: &mut Vec<(CellIndex, Vec<(DirectedEdgeIndex, OwnedEdgeWeight)>)>,
    edge: DirectedEdgeIndex,
    weight: OwnedEdgeWeight,
)
    requires
        slots_wf(slots_view_of(old(slots)@), old(index)@),
    ensures
        slots_wf(slots_view_of(final(slots)@), final(index)@),
        forall|x: (u64, EdgeWeightView)| #[trigger] has_entry(slots_view_of(final(slots)@), x) <==> (has_entry(
            slots_view_of(old(slots)@),
            x,
        ) || (x == (edge@, owned_weight_view(weight)) && !has_edge(slots_view_of(old(slots)@), edge@))),
        forall|e: u64| #[trigger] has_edge(slots_view_of(final(slots)@), e) <==> (has_edge(slots_view_of(old(slots)@), e)
            || e == edge@),
{
    let ghost old_s = slots_view_of(slots@);
    let ghost wv = (edge@, owned_weight_view(weight));
    let cell = edge.origin();
    let c = cell.to_u64();
    let n = slots.len();
    match index.get(c) {
        Some(p) => {
            assert(index@.dom().contains(c));
            assert(p < n);
            let p = p as usize;
            assert(old_s[p as int].0 == c);
            assert(has_edge(old_s, edge@) == edge_values(old_s[p as int].1).contains(edge@)) by {
                if has_edge(old_s, edge@) {
                    let (q, i) = choose|q: int, i: int| 0 <= q < old_s.len() && 0 <= i < old_s[q].1.len() && (#[trigger] old_s[q].1[i]).0 == edge@;
                    assert(h3_edge_origin(old_s[q].1[i].0) == old_s[q].0);
                    assert(index@.dom().contains(old_s[q].0));
                    assert(q == p);
                    assert(edge_values(old_s[p as int].1)[i] == edge@);
                }
                if edge_values(old_s[p as int].1).contains(edge@) {
                    let i = choose|i: int| 0 <= i < edge_values(old_s[p as int].1).len() && edge_values(old_s[p as int].1)[i] == edge@;
                    assert(old_s[p as int].1[i].0 == edge@);
                }
            }
            insert_deduplicated(&mut slots[p].1, edge, weight);
            let ghost new_s = slots_view_of(slots@);
            assert forall|q: int| 0 <= q < new_s.len() && q != p implies #[trigger] new_s[q] == old_s[q] by {
            }
            assert(new_s[p as int].0 == c);
            assert(new_s.len() == old_s.len());
            assert forall|q: int, i: int| 0 <= q < new_s.len() && 0 <= i < new_s[q].1.len() implies h3_edge_origin(
                #[trigger] new_s[q].1[i].0,
            ) == new_s[q].0 by {
                if q == p {
                    assert(edge_values(new_s[q].1)[i] == new_s[q].1[i].0);
                    assert(edge_values(new_s[q].1).contains(new_s[q].1[i].0));
                    if new_s[q].1[i].0 != edge@ {
                        let j = choose|j: int| 0 <= j < edge_values(old_s[q].1).len() && edge_values(old_s[q].1)[j] == new_s[q].1[i].0;
                        assert(old_s[q].1[j].0 == new_s[q].1[i].0);
                    }
                }
            }
            assert forall|x: (u64, EdgeWeightView)| has_entry(new_s, x) <==> (has_entry(old_s, x) || (x == wv
                && !has_edge(old_s, edge@))) by {
                if has_entry(new_s, x) {
                    let (q, i) = choose|q: int, i: int| 0 <= q < new_s.len() && 0 <= i < new_s[q].1.len() && #[trigger] new_s[q].1[i] == x;
                    if q == p {
                        assert(new_s[q].1.contains(x));
                        if old_s[q].1.contains(x) {
                            let j = choose|j: int| 0 <= j < old_s[q].1.len() && old_s[q].1[j] == x;
                            assert(old_s[q].1[j] == x);
                        }
                    } else {
                        assert(old_s[q].1[i] == x);
                    }
                }
                if has_entry(old_s, x) {
                    let (q, i) = choose|q: int, i: int| 0 <= q < old_s.len() && 0 <= i < old_s[q].1.len() && #[trigger] old_s[q].1[i] == x;
                    if q == p {
                        assert(old_s[q].1.contains(x));
                        assert(new_s[q].1.contains(x));
                        let j = choose|j: int| 0 <= j < new_s[q].1.len() && new_s[q].1[j] == x;
                        assert(new_s[q].1[j] == x);
                    } else {
                        assert(new_s[q].1[i] == x);
                    }
                }
                if x == wv && !has_edge(old_s, edge@) {
                    assert(new_s[p as int].1.contains(x));
                    let j = choose|j: int| 0 <= j < new_s[p as int].1.len() && new_s[p as int].1[j] == x;
                    assert(new_s[p as int].1[j] == x);
                }
            }
            assert forall|e: u64| has_edge(new_s, e) <==> (has_edge(old_s, e) || e == edge@) by {
                if has_edge(new_s, e) {
                    let (q, i) = choose|q: int, i: int| 0 <= q < new_s.len() && 0 <= i < new_s[q].1.len() && (#[trigger] new_s[q].1[i]).0 == e;
                    if q == p {
                        assert(edge_values(new_s[q].1)[i] == e);
                        if e != edge@ {
                            assert(edge_values(new_s[q].1).contains(e));
                            let j = choose|j: int| 0 <= j < edge_values(old_s[q].1).len() && edge_values(old_s[q].1)[j] == e;
                            assert(old_s[q].1[j].0 == e);
                        }
                    } else {
                        assert(old_s[q].1[i].0 == e);
                    }
                }
                if has_edge(old_s, e) {
                    let (q, i) = choose|q: int, i: int| 0 <= q < old_s.len() && 0 <= i < old_s[q].1.len() && (#[trigger] old_s[q].1[i]).0 == e;
                    if q == p {
                        assert(edge_values(old_s[q].1)[i] == e);
                        assert(edge_values(new_s[q].1).contains(e));
                        let j = choose|j: int| 0 <= j < edge_values(new_s[q].1).len() && edge_values(new_s[q].1)[j] == e;
                        assert(new_s[q].1[j].0 == e);
                    } else {
                        assert(new_s[q].1[i].0 == e);
                    }
                }
                if e == edge@ {
                    assert(edge_values(new_s[p as int].1).contains(e));
                    let j = choose|j: int| 0 <= j < edge_values(new_s[p as int].1).len() && edge_values(new_s[p as int].1)[j] == e;
                    assert(new_s[p as int].1[j].0 == e);
                }
            }
        },
        None => {
            assert(!has_edge(old_s, edge@)) by {
                if has_edge(old_s, edge@) {
                    let (q, i) = choose|q: int, i: int| 0 <= q < old_s.len() && 0 <= i < old_s[q].1.len() && (#[trigger] old_s[q].1[i]).0 == edge@;
                    assert(h3_edge_origin(old_s[q].1[i].0) == old_s[q].0);
                    assert(index@.dom().contains(old_s[q].0));
                }
            }
            let mut list: Vec<(DirectedEdgeIndex, OwnedEdgeWeight)> = Vec::new();
            list.push((edge, weight));
            assert(owned_edges_view(list@) =~= seq![wv]);
            slots.push((cell, list));
            index.insert(c, n as u64);
            let ghost new_s = slots_view_of(slots@);
            assert(new_s =~= old_s.push((c, seq![wv])));
            assert(edge_values(seq![wv]) == seq![edge@]);
            assert forall|x: (u64, EdgeWeightView)| has_entry(new_s, x) <==> (has_entry(old_s, x) || x == wv) by {
                if has_entry(new_s, x) {
                    let (q, i) = choose|q: int, i: int| 0 <= q < new_s.len() && 0 <= i < new_s[q].1.len() && #[trigger] new_s[q].1[i] == x;
                    if q < old_s.len() {
                        assert(old_s[q].1[i] == x);
                    }
                }
                if has_entry(old_s, x) {
                    let (q, i) = choose|q: int, i: int| 0 <= q < old_s.len() && 0 <= i < old_s[q].1.len() && #[trigger] old_s[q].1[i] == x;
                    assert(new_s[q].1[i] == x);
                }
                if x == wv {
                    assert(new_s[n as int].1[0] == x);
                }
            }
            assert forall|e: u64| has_edge(new_s, e) <==> (has_edge(old_s, e) || e == edge@) by {
                if has_edge(new_s, e) {
                    let (q, i) = choose|q: int, i: int| 0 <= q < new_s.len() && 0 <= i < new_s[q].1.len() && (#[trigger] new_s[q].1[i]).0 == e;
                    if q < old_s.len() {
                        assert(old_s[q].1[i].0 == e);
                    }
                }
                if has_edge(old_s, e) {
                    let (q, i) = choose|q: int, i: int| 0 <= q < old_s.len() && 0 <= i < old_s[q].1.len() && (#[trigger] old_s[q].1[i]).0 == e;
                    assert(new_s[q].1[i].0 == e);
                }
                if e == edge@ {
                    assert(new_s[n as int].1[0].0 == e);
                }
            }
            assert forall|p: int| 0 <= p < new_s.len() implies index@.dom().contains(#[trigger] new_s[p].0)
                && index@[new_s[p].0] == p by {
                if p < n {
                    assert(old(index)@.dom().contains(old_s[p].0));
                    assert(old_s[p].0 != c);
                }
            }
        },
    }
}

/// The number of edges leading into the origin of `edge` other than the
/// reverse of `edge`: the edges leaving the origin, `edge` aside, whose
/// reverse is one of `edges`.
pub open spec fn num_edges_leading_to(edges: Map<u64, u64>, edge: u64) -> nat {
    h3_cell_edges(h3_edge_origin(edge)).filter(
        |e: u64| e != edge && (h3_edge_reverse(e) matches Some(r) && edges.dom().contains(r)),
    ).len()
}

/// The edges of `edges` continuing `last`: those leaving its destination,
/// its reverse aside, in `h3o`'s order.
pub open spec fn following_edges(edges: Map<u64, u64>, last: u64) -> Seq<u64> {
    h3_cell_edges(h3_edge_destination(last)).filter(
        |e: u64| h3_edge_reverse(last) != Some(e) && edges.dom().contains(e),
    )
}

/// `path` extended along `edges` for as long as exactly one edge continues
/// it and that edge is not already on the path.
pub open spec fn extend_path(edges: Map<u64, u64>, path: Seq<u64>) -> Seq<u64>
    decreases edges.dom().len() - path.len(),
{
    if path.len() == 0 || path.len() >= edges.dom().len() {
        path
    } else {
        let next = following_edges(edges, path.last());
        if next.len() != 1 || path.contains(next[0]) {
            path
        } else {
            extend_path(edges, path.push(next[0]))
        }
    }
}

/// The sum of the weights of the edges of `path`.
pub open spec fn weight_sum(edges: Map<u64, u64>, path: Seq<u64>) -> nat
    decreases path.len(),
{
    if path.len() == 0 {
        0
    } else {
        weight_sum(edges, path.drop_last()) + edges[path.last()] as nat
    }
}

/// `n`, or `u64::MAX` when `n` is larger.
pub open spec fn saturated_u64(n: nat) -> u64 {
    if n < u64::MAX {
        n as u64
    } else {
        u64::MAX
    }
}

/// The fast-forward an edge of `edges` starts, with its weight: an edge that
/// is not the only continuation of a single other edge starts the longest
/// path without forks, which becomes a fast-forward when it has at least
/// `min_length` edges. Its weight is the sum of the weights, saturated.
pub open spec fn fastforward_of(edges: Map<u64, u64>, min_length: nat, edge: u64) -> Option<(Seq<u64>, u64)> {
    if num_edges_leading_to(edges, edge) != 1 {
        let path = extend_path(edges, seq![edge]);
        if path.len() >= min_length {
            Some((path, saturated_u64(weight_sum(edges, path))))
        } else {
            None
        }
    } else {
        None
    }
}

/// A sequence without repeated elements has no repeated consecutive elements.
proof fn lemma_dedup_no_duplicates(s: Seq<u64>)
    requires
        s.no_duplicates(),
    ensures
        dedup_consecutive(s) == s,
    decreases s.len(),
{
    if s.len() > 1 {
        assert(s.drop_last().no_duplicates());
        lemma_dedup_no_duplicates(s.drop_last());
        assert(s.last() != s[s.len() - 2]);
        assert(s.drop_last().push(s.last()) == s);
    }
}

/// Whether `edge` is on `path`.
fn path_contains(path: &Vec<DirectedEdgeIndex>, edge: DirectedEdgeIndex) -> (r: bool)
    ensures
        r == edges_view(path@).contains(edge@),
{
    let v = edge.to_u64();
    let n = path.len();
    for i in 0..n
        invariant
            n == path@.len(),
            v == edge@,
            forall|j: int| 0 <= j < i ==> edges_view(path@)[j] != v,
    {
        if path[i].to_u64() == v {
            assert(edges_view(path@)[i as int] == v);
            return true;
        }
    }
    false
}

/// The number of edges leading into the origin of `edge` other than its reverse.
fn count_edges_leading_to(input_edges: &U64Map, edge: DirectedEdgeIndex) -> (r: usize)
    ensures
        r == num_edges_leading_to(input_edges@, edge@),
{
    let candidates = edge.origin().edges();
    let ghost cv = edges_view(candidates@);
    let ghost pred = |e: u64| e != edge@ && (h3_edge_reverse(e) matches Some(r) && input_edges@.dom().contains(r));
    let mut count: usize = 0;
    let n = candidates.len();
    for i in 0..n
        invariant
            n == candidates@.len(),
            cv == edges_view(candidates@),
            cv == h3_cell_edges(h3_edge_origin(edge@)),
            pred == (|e: u64| e != edge@ && (h3_edge_reverse(e) matches Some(r) && input_edges@.dom().contains(r))),
            count == cv.take(i as int).filter(pred).len(),
            count <= i,
    {
        let candidate = candidates[i];
        assert(cv.take(i + 1) == cv.take(i as int).push(candidate@));
        proof {
            cv.take(i as int).lemma_filter_push(candidate@, pred);
        }
        if candidate.to_u64() != edge.to_u64() {
            match try_reverse_directed_edge(candidate) {
                Some(reverse) => {
                    if input_edges.get(reverse.to_u64()).is_some() {
                        count = count + 1;
                    }
                },
                None => {},
            }
        }
    }
    assert(cv.take(n as int) == cv);
    count
}

/// The edges of `input_edges` continuing `last`, with their weights.
fn collect_following_edges(input_edges: &U64Map, last: DirectedEdgeIndex) -> (r: Vec<(DirectedEdgeIndex, u64)>)
    ensures
        r@.map_values(|p: (DirectedEdgeIndex, u64)| p.0@) == following_edges(input_edges@, last@),
        forall|i: int| 0 <= i < r@.len() ==> (#[trigger] r@[i]).1 == input_edges@[r@[i].0@],
{
    let last_reverse = try_reverse_directed_edge(last);
    let candidates = last.destination().edges();
    let ghost cv = edges_view(candidates@);
    let ghost pred = |e: u64| h3_edge_reverse(last@) != Some(e) && input_edges@.dom().contains(e);
    let mut out: Vec<(DirectedEdgeIndex, u64)> = Vec::new();
    let n = candidates.len();
    for i in 0..n
        invariant
            n == candidates@.len(),
            cv == edges_view(candidates@),
            cv == h3_cell_edges(h3_edge_destination(last@)),
            pred == (|e: u64| h3_edge_reverse(last@) != Some(e) && input_edges@.dom().contains(e)),
            crate::h3::opt_edge_view(last_reverse) == h3_edge_reverse(last@),
            out@.map_values(|p: (DirectedEdgeIndex, u64)| p.0@) == cv.take(i as int).filter(pred),
            forall|j: int| 0 <= j < out@.len() ==> (#[trigger] out@[j]).1 == input_edges@[out@[j].0@],
    {
        let candidate = candidates[i];
        let ghost before = out@;
        assert(cv.take(i + 1) == cv.take(i as int).push(candidate@));
        proof {
            cv.take(i as int).lemma_filter_push(candidate@, pred);
        }
        let is_reverse = match last_reverse {
            Some(reverse) => reverse.to_u64() == candidate.to_u64(),
            None => false,
        };
        if !is_reverse {
            match input_edges.get(candidate.to_u64()) {
                Some(w) => {
                    out.push((candidate, w));
                    assert(out@.map_values(|p: (DirectedEdgeIndex, u64)| p.0@) == before.map_values(
                        |p: (DirectedEdgeIndex, u64)| p.0@,
                    ).push(candidate@));
                },
                None => {},
            }
        }
    }
    assert(cv.take(n as int) == cv);
    out
}

/// The entry of `edge` in the prepared graph: the edge with its weight and
/// the fast-forward it starts (see [`fastforward_of`]), keyed by its origin cell.
fn assemble_edge_with_fastforward(
    input_edges: &U64Map,
    min_fastforward_length: usize,
    edge: DirectedEdgeIndex,
    weight: u64,
) -> (r: (CellIndex, (DirectedEdgeIndex, OwnedEdgeWeight)))
    requires
        input_edges@.dom().contains(edge@),
        input_edges@[edge@] == weight,
        input_edges@.dom().finite(),
        forall|e: u64| #[trigger] input_edges@.dom().contains(e) ==> h3_is_edge(e),
        min_fastforward_length >= 2,
    ensures
        r.0@ == h3_edge_origin(edge@),
        r.1.0 == edge,
        owned_weight_view(r.1.1) == (weight, fastforward_of(input_edges@, min_fastforward_length as nat, edge@)),
{
    let ghost m = input_edges@;
    let origin_cell = edge.origin();
    let num_edges_leading_to_this_one = count_edges_leading_to(input_edges, edge);
    let mut fastforward: Option<(FastForward, u64)> = None;
    if num_edges_leading_to_this_one != 1 {
        let mut edge_path: Vec<DirectedEdgeIndex> = Vec::new();
        edge_path.push(edge);
        let mut fastforward_weight = weight;
        let mut last_edge = edge;
        assert(edges_view(edge_path@) == seq![edge@]);
        assert(seq![edge@].drop_last() =~= Seq::<u64>::empty());
        assert(seq![edge@].to_set() =~= set![edge@]);
        assert(weight_sum(m, Seq::<u64>::empty()) == 0);
        assert(weight_sum(m, seq![edge@]) == weight);
        loop
            invariant
                m == input_edges@,
                m.dom().finite(),
                forall|e: u64| #[trigger] m.dom().contains(e) ==> h3_is_edge(e),
                edges_view(edge_path@).len() >= 1,
                edges_view(edge_path@).last() == last_edge@,
                edges_view(edge_path@).no_duplicates(),
                edges_view(edge_path@).to_set().subset_of(m.dom()),
                extend_path(m, edges_view(edge_path@)) == extend_path(m, seq![edge@]),
                fastforward_weight == saturated_u64(weight_sum(m, edges_view(edge_path@))),
            ensures
                extend_path(m, seq![edge@]) == edges_view(edge_path@),
                edges_view(edge_path@).no_duplicates(),
                fastforward_weight == saturated_u64(weight_sum(m, edges_view(edge_path@))),
            decreases m.dom().len() - edge_path@.len(),
        {
            let ghost pv = edges_view(edge_path@);
            proof {
                pv.unique_seq_to_set();
                vstd::set_lib::lemma_len_subset(pv.to_set(), m.dom());
            }
            let following = collect_following_edges(input_edges, last_edge);
            let ghost fv = following@.map_values(|p: (DirectedEdgeIndex, u64)| p.0@);
            if following.len() != 1 {
                break;
            }
            let (following_edge, following_weight) = following[0];
            assert(fv[0] == following_edge@);
            if path_contains(&edge_path, following_edge) {
                break;
            }
            let ghost next = pv.push(following_edge@);
            assert(following_edges(m, pv.last()) == fv);
            assert(m.dom().contains(following_edge@)) by {
                let pred = |e: u64| h3_edge_reverse(pv.last()) != Some(e) && m.dom().contains(e);
                h3_cell_edges(h3_edge_destination(pv.last())).lemma_filter_pred(pred, 0);
            }
            assert(next.to_set() =~= pv.to_set().insert(following_edge@)) by {
                assert forall|x: u64| next.contains(x) <==> (pv.contains(x) || x == following_edge@) by {
                    if next.contains(x) {
                        let j = choose|j: int| 0 <= j < next.len() && next[j] == x;
                        if j < pv.len() {
                            assert(pv[j] == x);
                        }
                    }
                    if pv.contains(x) {
                        let j = choose|j: int| 0 <= j < pv.len() && pv[j] == x;
                        assert(next[j] == x);
                    }
                    if x == following_edge@ {
                        assert(next[pv.len() as int] == x);
                    }
                }
            }
            proof {
                next.unique_seq_to_set();
                vstd::set_lib::lemma_len_subset(next.to_set(), m.dom());
            }
            assert(pv.len() < m.dom().len());
            edge_path.push(following_edge);
            assert(edges_view(edge_path@) == next);
            assert(next.drop_last() == pv);
            fastforward_weight = following_weight.saturating_add(fastforward_weight);
            last_edge = following_edge;
        }
        if edge_path.len() >= min_fastforward_length {
            proof {
                lemma_dedup_no_duplicates(edges_view(edge_path@));
            }
            match FastForward::try_from_edges(&edge_path) {
                Ok(ff) => {
                    fastforward = Some((ff, fastforward_weight));
                },
                Err(_) => {},
            }
        }
    }
    (origin_cell, (edge, OwnedEdgeWeight { weight, fastforward }))
}

/// The entry of `edge` in a graph prepared from `edges`.
pub open spec fn prepared_entry(edges: Map<u64, u64>, min_length: nat, edge: u64) -> (u64, EdgeWeightView) {
    (edge, (edges[edge], fastforward_of(edges, min_length, edge)))
}

/// Every entry is the one prepared for its edge.
pub open spec fn entries_prepared(entries: Seq<(u64, EdgeWeightView)>, edges: Map<u64, u64>, min_length: nat) -> bool {
    forall|k: int| 0 <= k < entries.len() ==> #[trigger] entries[k] == prepared_entry(edges, min_length, entries[k].0)
}

/// Some slot entry not prepared from `edges` for its edge.
spec fn entry_is_prepared(x: (u64, EdgeWeightView), edges: Map<u64, u64>, min_length: nat) -> bool {
    x == prepared_entry(edges, min_length, x.0)
}

/// The slots of the edges of `input_graph`, each with the fast-forward it
/// starts. Fast-forwards shorter than three edges are refused with `TooShortLongEdge`.
fn to_fastforward_edges(input_graph: &H3EdgeGraph, min_fastforward_length: usize) -> (r: Result<
    (U64Map, Vec<(CellIndex, Vec<(DirectedEdgeIndex, OwnedEdgeWeight)>)>),
    Error,
>)
    ensures
        min_fastforward_length < 3 ==> r == Err::<(U64Map, Vec<(CellIndex, Vec<(DirectedEdgeIndex, OwnedEdgeWeight)>)>), Error>(
            Error::TooShortLongEdge(min_fastforward_length),
        ),
        min_fastforward_length >= 3 ==> (r matches Ok((index, slots)) && {
            &&& slots_wf(slots_view_of(slots@), index@)
            &&& forall|e: u64| #[trigger] has_edge(slots_view_of(slots@), e) <==> input_graph.edge_map().dom().contains(e)
            &&& forall|x: (u64, EdgeWeightView)| #[trigger] has_entry(slots_view_of(slots@), x) ==> entry_is_prepared(
                x,
                input_graph.edge_map(),
                min_fastforward_length as nat,
            )
        }),
{
    if min_fastforward_length < 3 {
        return Err(Error::TooShortLongEdge(min_fastforward_length));
    }
    let ghost m = input_graph.edge_map();
    let ghost min = min_fastforward_length as nat;
    let input_edges = input_graph.edge_lookup();
    let all = input_graph.iter_edges();
    let ghost entries = all@.map_values(|p: (DirectedEdgeIndex, u64)| (p.0@, p.1));
    let ghost keys = entry_keys(entries);
    let mut outgoing_index = U64Map::new();
    let mut outgoing_edges: Vec<(CellIndex, Vec<(DirectedEdgeIndex, OwnedEdgeWeight)>)> = Vec::new();
    let n = all.len();
    for i in 0..n
        invariant
            n == all@.len(),
            entries == all@.map_values(|p: (DirectedEdgeIndex, u64)| (p.0@, p.1)),
            keys == entry_keys(entries),
            entries_of(entries, m),
            m == input_edges@,
            m == input_graph.edge_map(),
            min == min_fastforward_length as nat,
            min_fastforward_length >= 3,
            m.dom().finite(),
            forall|e: u64| #[trigger] m.dom().contains(e) ==> h3_is_edge(e),
            slots_wf(slots_view_of(outgoing_edges@), outgoing_index@),
            forall|e: u64| #[trigger] has_edge(slots_view_of(outgoing_edges@), e) <==> keys.take(i as int).contains(e),
            forall|x: (u64, EdgeWeightView)| #[trigger] has_entry(slots_view_of(outgoing_edges@), x) ==> entry_is_prepared(x, m, min),
    {
        let (edge, weight) = all[i];
        assert(entries[i as int] == (edge@, weight));
        assert(keys[i as int] == edge@);
        assert(m.dom().contains(edge@) && m[edge@] == weight);
        let (_cell, (edge, owned_weight)) = assemble_edge_with_fastforward(input_edges, min_fastforward_length, edge, weight);
        let ghost slots_before = slots_view_of(outgoing_edges@);
        add_to_slots(&mut outgoing_index, &mut outgoing_edges, edge, owned_weight);
        let ghost prev = keys.take(i as int);
        let ghost next = keys.take(i + 1);
        assert(next == prev.push(edge@));
        assert forall|e: u64| #[trigger] has_edge(slots_view_of(outgoing_edges@), e) <==> next.contains(e) by {
            if e == edge@ {
                assert(next[i as int] == e);
            }
            if next.contains(e) && e != edge@ {
                let j = choose|j: int| 0 <= j < next.len() && next[j] == e;
                assert(prev[j] == e);
            }
            if prev.contains(e) {
                let j = choose|j: int| 0 <= j < prev.len() && prev[j] == e;
                assert(next[j] == e);
            }
        }
        assert forall|x: (u64, EdgeWeightView)| #[trigger] has_entry(slots_view_of(outgoing_edges@), x) implies entry_is_prepared(x, m, min) by {
            if !has_entry(slots_before, x) {
                assert(x == (edge@, owned_weight_view(owned_weight)));
            }
        }
    }
    assert(keys.take(n as int) == keys);
    assert forall|e: u64| #[trigger] has_edge(slots_view_of(outgoing_edges@), e) <==> m.dom().contains(e) by {
        if keys.contains(e) {
            let j = choose|j: int| 0 <= j < keys.len() && keys[j] == e;
            assert(entries[j].0 == e);
        }
        if m.dom().contains(e) {
            let j = choose|j: int| 0 <= j < entries.len() && entries[j].0 == e;
            assert(keys[j] == e);
        }
    }
    Ok((outgoing_index, outgoing_edges))
}

/// An edge to build a prepared graph from: the edge, its weight and
/// optionally the edge path and weight of the fast-forward starting with it.
pub type FromIterItem = (DirectedEdgeIndex, u64, Option<(Vec<DirectedEdgeIndex>, u64)>);

/// The resolution of an item's edge.
pub open spec fn item_resolution(item: FromIterItem) -> u8 {
    h3_resolution(h3_edge_origin(item.0@))
}

/// The entry an item becomes: a fast-forward's path without repeated
/// consecutive edges.
pub open spec fn item_view(item: FromIterItem) -> (u64, EdgeWeightView) {
    (
        item.0@,
        (
            item.1,
            match item.2 {
                Some((path, w)) => Some((dedup_consecutive(edges_view(path@)), w)),
                None => None,
            },
        ),
    )
}

/// Item `j` is refused: its resolution differs from the first item's, or
/// its fast-forward has fewer than two edges.
pub open spec fn item_fails(items: Seq<FromIterItem>, j: int) -> bool {
    ||| item_resolution(items[j]) != item_resolution(items[0])
    ||| (items[j].2 matches Some((path, _)) && dedup_consecutive(edges_view(path@)).len() < 2)
}

/// Item `j` is the first refused item.
pub open spec fn first_failure(items: Seq<FromIterItem>, j: int) -> bool {
    &&& 0 <= j < items.len()
    &&& item_fails(items, j)
    &&& forall|k: int| 0 <= k < j ==> !item_fails(items, k)
}

/// The error for the refused item `j`.
pub open spec fn item_error(items: Seq<FromIterItem>, j: int) -> Error {
    if item_resolution(items[j]) != item_resolution(items[0]) {
        Error::MixedH3Resolutions(item_resolution(items[0]), item_resolution(items[j]))
    } else {
        Error::InsufficientNumberOfEdges
    }
}

/// `x` is the entry of one of the first `bound` items.
pub open spec fn is_item_entry(x: (u64, EdgeWeightView), items: Seq<FromIterItem>, bound: int) -> bool {
    exists|j: int| 0 <= j < bound && j < items.len() && #[trigger] item_view(items[j]) == x
}

/// Every entry is the entry of one of the items.
pub open spec fn entries_from_items(entries: Seq<(u64, EdgeWeightView)>, items: Seq<FromIterItem>) -> bool {
    forall|k: int| 0 <= k < entries.len() ==> is_item_entry(#[trigger] entries[k], items, items.len() as int)
}

/// The edges of the items.
pub open spec fn item_edges(items: Seq<FromIterItem>) -> Seq<u64> {
    items.map_values(|item: FromIterItem| item.0@)
}

/// Every edge of a prepared graph occurs once among its edges.
pub proof fn lemma_prepared_edges_unique(g: PreparedH3EdgeGraph)
    requires
        g.well_formed(),
    ensures
        edge_values(g.all_edges()).no_duplicates(),
{
    let slots = g.slots();
    lemma_flat_unique(slots, g.slot_index(), slots.len() as int);
    assert(slots.take(slots.len() as int) == slots);
}

/// Preparing a graph and turning it back into an edge graph gives the
/// edges and weights it started with: `g` holds the edges of `edges`, each
/// prepared from `edges` (as [`PreparedH3EdgeGraph::from_h3edge_graph`]
/// ensures), and `back` holds the edges of `g` with their weights (as
/// [`PreparedH3EdgeGraph::to_h3edge_graph`] ensures).
pub proof fn lemma_prepare_roundtrip(edges: Map<u64, u64>, min_length: nat, g: PreparedH3EdgeGraph, back: Map<u64, u64>)
    requires
        g.edge_set() == edges.dom(),
        entries_prepared(g.all_edges(), edges, min_length),
        back.dom() == g.edge_set(),
        forall|k: int| 0 <= k < g.all_edges().len() ==> back[#[trigger] g.all_edges()[k].0] == g.all_edges()[k].1.0,
    ensures
        back == edges,
{
    let av = g.all_edges();
    assert forall|e: u64| #[trigger] edges.dom().contains(e) implies back[e] == edges[e] by {
        assert(edge_values(av).to_set().contains(e));
        assert(edge_values(av).contains(e));
        let k = choose|k: int| 0 <= k < edge_values(av).len() && edge_values(av)[k] == e;
        assert(av[k].0 == e);
        assert(av[k] == prepared_entry(edges, min_length, av[k].0));
    }
    assert(back =~= edges);
}

/// A graph prepared for routing.
///
/// The edges are grouped by their origin cell and sorted within the group.
/// An edge that starts a path without forks carries a [`FastForward`] along
/// that path, which lets a traversal skip the individual edges.
pub struct PreparedH3EdgeGraph {
    outgoing_index: U64Map,
    outgoing_edges: Vec<(CellIndex, Vec<(DirectedEdgeIndex, OwnedEdgeWeight)>)>,
    h3_resolution: u8,
    graph_nodes: NodeTypeMap,
}

impl PreparedH3EdgeGraph {
    /// The slots: each cell with edges and the edges leaving it.
    pub closed spec fn slots(&self) -> Seq<(u64, Seq<(u64, EdgeWeightView)>)> {
        slots_view_of(self.outgoing_edges@)
    }

    /// The position of each cell's slot.
    pub closed spec fn slot_index(&self) -> Map<u64, u64> {
        self.outgoing_index@
    }

    /// The resolution of the graph.
    pub closed spec fn resolution(&self) -> u8 {
        self.h3_resolution
    }

    /// The nodes of the graph with their roles.
    pub closed spec fn nodes_view(&self) -> Map<u64, NodeType> {
        self.graph_nodes@
    }

    /// All edges of the graph, slot after slot.
    pub open spec fn all_edges(&self) -> Seq<(u64, EdgeWeightView)> {
        flat_edges(self.slots())
    }

    /// The edges leaving `cell`, in increasing order.
    pub open spec fn outgoing_view(&self, cell: u64) -> Seq<(u64, EdgeWeightView)> {
        if self.well_formed() && self.slot_index().dom().contains(cell) {
            self.slots()[self.slot_index()[cell] as int].1
        } else {
            Seq::empty()
        }
    }

    /// The resolution is valid, the slots are well formed and the nodes are cells.
    #[verifier::type_invariant]
    closed spec fn inv(&self) -> bool {
        &&& self.h3_resolution <= MAX_RESOLUTION
        &&& slots_wf(self.slots(), self.outgoing_index@)
        &&& forall|c: u64| #[trigger] self.graph_nodes@.dom().contains(c) ==> h3_is_cell(c)
    }

    /// The slot of `cell`, if the cell has edges.
    fn slot_of(&self, cell: CellIndex) -> (r: Option<usize>)
        ensures
            match r {
                Some(p) => self.slot_index().dom().contains(cell@) && p == self.slot_index()[cell@] && p
                    < self.slots().len(),
                None => !self.slot_index().dom().contains(cell@),
            },
    {
        proof {
            use_type_invariant(self);
        }
        let n = self.outgoing_edges.len();
        match self.outgoing_index.get(cell.to_u64()) {
            Some(p) => {
                assert(self.outgoing_index@.dom().contains(cell@));
                assert(p < n);
                Some(p as usize)
            },
            None => None,
        }
    }

    /// The edges of slot `p` with their weights.
    fn borrow_slot(&self, p: usize) -> (r: Vec<(DirectedEdgeIndex, EdgeWeight<'_>)>)
        requires
            p < self.slots().len(),
        ensures
            edge_weights_view(r@) == self.slots()[p as int].1,
    {
        let edges = &self.outgoing_edges[p].1;
        let ghost v = owned_edges_view(edges@);
        let mut out: Vec<(DirectedEdgeIndex, EdgeWeight<'_>)> = Vec::new();
        let n = edges.len();
        for i in 0..n
            invariant
                n == edges@.len(),
                v == owned_edges_view(edges@),
                edge_weights_view(out@) == v.take(i as int),
        {
            let w = borrow_weight(&edges[i].1);
            out.push((edges[i].0, w));
            assert(v.take(i + 1) == v.take(i as int).push(v[i as int]));
            assert(edge_weights_view(out@) == v.take(i + 1));
        }
        assert(v.take(n as int) == v);
        out
    }

    /// Counts the edges of the graph, and among them those that start a
    /// fast-forward. Each count saturates at `usize::MAX`.
    pub fn count_edges(&self) -> (r: (usize, usize))
        ensures
            r.0 == saturated(self.all_edges().len() as int),
            r.1 == saturated(self.all_edges().filter(|x: (u64, EdgeWeightView)| has_fastforward(x)).len() as int),
    {
        let ghost slots = self.slots();
        let ghost pred = |x: (u64, EdgeWeightView)| has_fastforward(x);
        let mut num_edges: usize = 0;
        let mut num_fast_forwards: usize = 0;
        let n = self.outgoing_edges.len();
        for p in 0..n
            invariant
                n == self.outgoing_edges@.len(),
                slots == self.slots(),
                pred == (|x: (u64, EdgeWeightView)| has_fastforward(x)),
                num_edges == saturated(flat_edges(slots.take(p as int)).len() as int),
                num_fast_forwards == saturated(flat_edges(slots.take(p as int)).filter(pred).len() as int),
        {
            let edges = &self.outgoing_edges[p].1;
            let ghost v = owned_edges_view(edges@);
            assert(slots[p as int].1 == v);
            let m = edges.len();
            let mut with_ff: usize = 0;
            for i in 0..m
                invariant
                    m == edges@.len(),
                    v == owned_edges_view(edges@),
                    pred == (|x: (u64, EdgeWeightView)| has_fastforward(x)),
                    with_ff == v.take(i as int).filter(pred).len(),
                    with_ff <= i,
            {
                assert(v.take(i + 1) == v.take(i as int).push(v[i as int]));
                proof {
                    v.take(i as int).lemma_filter_push(v[i as int], pred);
                }
                if edges[i].1.fastforward.is_some() {
                    with_ff = with_ff + 1;
                }
            }
            assert(v.take(m as int) == v);
            proof {
                lemma_flat_take(slots, p as int);
                Seq::filter_distributes_over_add(flat_edges(slots.take(p as int)), v, pred);
            }
            num_edges = num_edges.saturating_add(m);
            num_fast_forwards = num_fast_forwards.saturating_add(with_ff);
        }
        assert(slots.take(n as int) == slots);
        (num_edges, num_fast_forwards)
    }

    /// All edges of the graph with their weights, slot after slot.
    pub fn iter_edges(&self) -> (r: Vec<(DirectedEdgeIndex, EdgeWeight<'_>)>)
        ensures
            edge_weights_view(r@) == self.all_edges(),
    {
        let ghost slots = self.slots();
        let mut out: Vec<(DirectedEdgeIndex, EdgeWeight<'_>)> = Vec::new();
        let n = self.outgoing_edges.len();
        for p in 0..n
            invariant
                n == self.outgoing_edges@.len(),
                slots == self.slots(),
                edge_weights_view(out@) == flat_edges(slots.take(p as int)),
        {
            let mut part = self.borrow_slot(p);
            let ghost before = out@;
            let ghost pv = part@;
            out.append(&mut part);
            proof {
                lemma_flat_take(slots, p as int);
            }
            assert(edge_weights_view(out@) =~= edge_weights_view(before) + edge_weights_view(pv));
        }
        assert(slots.take(n as int) == slots);
        out
    }

    /// The set of edges of the graph.
    pub open spec fn edge_set(&self) -> Set<u64> {
        edge_values(self.all_edges()).to_set()
    }

    /// Builds a prepared graph from edges with weights and optional
    /// fast-forwards. When an edge occurs more than once, one of its items is
    /// kept. No items are refused with `InsufficientNumberOfEdges`; otherwise
    /// the first refused item gives the error.
    pub fn try_from_iter(items: Vec<FromIterItem>) -> (r: Result<PreparedH3EdgeGraph, Error>)
        ensures
            items@.len() == 0 ==> r == Err::<PreparedH3EdgeGraph, Error>(Error::InsufficientNumberOfEdges),
            forall|j: int| first_failure(items@, j) ==> r == Err::<PreparedH3EdgeGraph, Error>(item_error(items@, j)),
            items@.len() > 0 && (forall|j: int| 0 <= j < items@.len() ==> !item_fails(items@, j)) ==> (r matches Ok(g) && {
                &&& g.resolution() == item_resolution(items@[0])
                &&& g.nodes_view() == nodes_of(item_edges(items@).to_set())
                &&& g.edge_set() == item_edges(items@).to_set()
                &&& entries_from_items(g.all_edges(), items@)
            }),
    {
        let ghost all = items@;
        let n = items.len();
        let mut h3_resolution: Option<u8> = None;
        let mut outgoing_index = U64Map::new();
        let mut outgoing_edges: Vec<(CellIndex, Vec<(DirectedEdgeIndex, OwnedEdgeWeight)>)> = Vec::new();
        let mut graph_nodes = NodeTypeMap::new();
        assert(item_edges(all).take(0) =~= Seq::<u64>::empty());
        for i in 0..n
            invariant
                n == all.len(),
                all == items@,
                i == 0 <==> h3_resolution is None,
                h3_resolution matches Some(r0) ==> r0 == item_resolution(all[0]) && r0 <= MAX_RESOLUTION,
                forall|k: int| 0 <= k < i ==> !item_fails(all, k),
                slots_wf(slots_view_of(outgoing_edges@), outgoing_index@),
                forall|c: u64| #[trigger] graph_nodes@.dom().contains(c) ==> h3_is_cell(c),
                roles_match(graph_nodes@, item_edges(all).take(i as int)),
                forall|e: u64| #[trigger] has_edge(slots_view_of(outgoing_edges@), e) <==> item_edges(all).take(i as int).contains(e),
                forall|x: (u64, EdgeWeightView)| #[trigger] has_entry(slots_view_of(outgoing_edges@), x) ==> is_item_entry(x, all, i as int),
        {
            let item = &items[i];
            let edge = item.0;
            let (origin, destination) = edge.cells();
            proof {
                use_type_invariant(&origin);
                use_type_invariant(&destination);
            }
            let res = origin.resolution();
            match h3_resolution {
                Some(r0) => {
                    if r0 != res {
                        proof {
                            assert(first_failure(all, i as int));
                            assert forall|j: int| first_failure(all, j) implies j == i by {
                                if j < i {
                                } else if j > i {
                                    assert(!item_fails(all, i as int));
                                }
                            }
                        }
                        return Err(Error::MixedH3Resolutions(r0, res));
                    }
                },
                None => {
                    h3_resolution = Some(res);
                },
            }
            let ghost nodes_before = graph_nodes@;
            record_edge_roles(&mut graph_nodes, edge, Ghost(item_edges(all).take(i as int)));
            assert forall|c: u64| #[trigger] graph_nodes@.dom().contains(c) implies h3_is_cell(c) by {
                if !nodes_before.dom().contains(c) {
                    assert(c == origin@ || c == destination@);
                }
            }
            let fastforward = match &item.2 {
                Some(components) => {
                    match FastForward::try_from_edges(&components.0) {
                        Ok(ff) => Some((ff, components.1)),
                        Err(e) => {
                            proof {
                                assert(item_fails(all, i as int));
                                assert(first_failure(all, i as int));
                                assert forall|j: int| first_failure(all, j) implies j == i by {
                                    if j < i {
                                    } else if j > i {
                                        assert(!item_fails(all, i as int));
                                    }
                                }
                            }
                            return Err(e);
                        },
                    }
                },
                None => None,
            };
            let weight = OwnedEdgeWeight { weight: item.1, fastforward };
            assert(owned_weight_view(weight) == item_view(all[i as int]).1);
            let ghost slots_before = slots_view_of(outgoing_edges@);
            add_to_slots(&mut outgoing_index, &mut outgoing_edges, edge, weight);
            assert(item_edges(all).take(i + 1) == item_edges(all).take(i as int).push(edge@));
            assert(item_edges(all)[i as int] == edge@);
            let ghost prev = item_edges(all).take(i as int);
            let ghost next = item_edges(all).take(i + 1);
            assert forall|e: u64| has_edge(slots_view_of(outgoing_edges@), e) <==> next.contains(e) by {
                if e == edge@ {
                    assert(next[i as int] == e);
                }
                if next.contains(e) && e != edge@ {
                    let j = choose|j: int| 0 <= j < next.len() && next[j] == e;
                    assert(prev[j] == e);
                }
                if prev.contains(e) {
                    let j = choose|j: int| 0 <= j < prev.len() && prev[j] == e;
                    assert(next[j] == e);
                }
            }
            assert forall|x: (u64, EdgeWeightView)| #[trigger] has_entry(slots_view_of(outgoing_edges@), x) implies is_item_entry(x, all, i + 1) by {
                if !has_entry(slots_before, x) {
                    assert(item_view(all[i as int]) == x);
                } else {
                    assert(is_item_entry(x, all, i as int));
                    let j = choose|j: int| 0 <= j < i && j < all.len() && #[trigger] item_view(all[j]) == x;
                    assert(item_view(all[j]) == x);
                }
            }
        }
        assert(item_edges(all).take(n as int) == item_edges(all));
        match h3_resolution {
            Some(h3_resolution) => {
                let ghost sv = slots_view_of(outgoing_edges@);
                let g = PreparedH3EdgeGraph { outgoing_index, outgoing_edges, h3_resolution, graph_nodes };
                proof {
                    assert(g.slots() == sv);
                    lemma_roles_match_nodes_of(g.graph_nodes@, item_edges(all));
                    lemma_flat_has(sv);
                    assert forall|e: u64| g.edge_set().contains(e) <==> item_edges(all).to_set().contains(e) by {
                        assert(g.edge_set().contains(e) <==> edge_values(g.all_edges()).contains(e));
                        assert(edge_values(g.all_edges()).contains(e) <==> has_edge(sv, e));
                        assert(has_edge(sv, e) <==> item_edges(all).contains(e));
                        assert(item_edges(all).to_set().contains(e) <==> item_edges(all).contains(e));
                    }
                    assert(g.edge_set() =~= item_edges(all).to_set());
                    assert forall|k: int| 0 <= k < g.all_edges().len() implies is_item_entry(#[trigger] g.all_edges()[k], all, all.len() as int) by {
                        assert(g.all_edges().contains(g.all_edges()[k]));
                        assert(has_entry(sv, g.all_edges()[k]));
                    }
                }
                Ok(g)
            },
            None => Err(Error::InsufficientNumberOfEdges),
        }
    }

    /// Prepares `graph`: its edges are grouped by origin cell, and every edge
    /// starting a path without forks of at least `min_fastforward_length`
    /// edges gets a fast-forward along it (see [`fastforward_of`]). A minimum
    /// below three is refused with `TooShortLongEdge`.
    pub fn from_h3edge_graph(graph: H3EdgeGraph, min_fastforward_length: usize) -> (r: Result<PreparedH3EdgeGraph, Error>)
        ensures
            min_fastforward_length < 3 ==> r == Err::<PreparedH3EdgeGraph, Error>(Error::TooShortLongEdge(min_fastforward_length)),
            min_fastforward_length >= 3 ==> (r matches Ok(g) && {
                &&& g.resolution() == graph.resolution()
                &&& g.nodes_view() == nodes_of(graph.edge_map().dom())
                &&& g.edge_set() == graph.edge_map().dom()
                &&& entries_prepared(g.all_edges(), graph.edge_map(), min_fastforward_length as nat)
            }),
    {
        let h3_resolution = graph.h3_resolution();
        let graph_nodes = graph.nodes();
        let _ = graph.edge_lookup();
        let (outgoing_index, outgoing_edges) = match to_fastforward_edges(&graph, min_fastforward_length) {
            Ok(prepared) => prepared,
            Err(e) => return Err(e),
        };
        let ghost sv = slots_view_of(outgoing_edges@);
        let g = PreparedH3EdgeGraph { outgoing_index, outgoing_edges, h3_resolution, graph_nodes };
        proof {
            let m = graph.edge_map();
            let min = min_fastforward_length as nat;
            assert(g.slots() == sv);
            lemma_flat_has(sv);
            assert forall|e: u64| g.edge_set().contains(e) <==> m.dom().contains(e) by {
                assert(g.edge_set().contains(e) <==> edge_values(g.all_edges()).contains(e));
                assert(edge_values(g.all_edges()).contains(e) <==> has_edge(sv, e));
            }
            assert(g.edge_set() =~= m.dom());
            assert forall|k: int| 0 <= k < g.all_edges().len() implies #[trigger] g.all_edges()[k] == prepared_entry(m, min, g.all_edges()[k].0) by {
                assert(g.all_edges().contains(g.all_edges()[k]));
                assert(has_entry(sv, g.all_edges()[k]));
                assert(entry_is_prepared(g.all_edges()[k], m, min));
            }
        }
        Ok(g)
    }

    /// Prepares `graph` with fast-forwards of at least four edges.
    pub fn try_from(graph: H3EdgeGraph) -> (r: Result<PreparedH3EdgeGraph, Error>)
        ensures
            r matches Ok(g) && {
                &&& g.resolution() == graph.resolution()
                &&& g.nodes_view() == nodes_of(graph.edge_map().dom())
                &&& g.edge_set() == graph.edge_map().dom()
                &&& entries_prepared(g.all_edges(), graph.edge_map(), 4)
            },
    {
        PreparedH3EdgeGraph::from_h3edge_graph(graph, 4)
    }

    /// The edge graph of the same edges and weights, without fast-forwards.
    pub fn to_h3edge_graph(&self) -> (r: H3EdgeGraph)
        ensures
            r.resolution() == self.resolution(),
            r.edge_map().dom() == self.edge_set(),
            forall|k: int| 0 <= k < self.all_edges().len() ==> r.edge_map()[#[trigger] self.all_edges()[k].0]
                == self.all_edges()[k].1.0,
    {
        proof {
            use_type_invariant(self);
            let slots = self.slots();
            lemma_flat_unique(slots, self.outgoing_index@, slots.len() as int);
            assert(slots.take(slots.len() as int) == slots);
        }
        let all = self.iter_edges();
        let ghost av = self.all_edges();
        let ghost ev = edge_values(av);
        let mut graph = H3EdgeGraph::new(self.h3_resolution);
        let n = all.len();
        for i in 0..n
            invariant
                n == all@.len(),
                av == self.all_edges(),
                av == edge_weights_view(all@),
                ev == edge_values(av),
                ev.no_duplicates(),
                graph.resolution() == self.resolution(),
                forall|e: u64| #[trigger] graph.edge_map().dom().contains(e) <==> ev.take(i as int).contains(e),
                forall|k: int| 0 <= k < i ==> graph.edge_map()[#[trigger] av[k].0] == av[k].1.0,
        {
            let (edge, weight) = (all[i].0, all[i].1.weight);
            assert(av[i as int].0 == edge@ && av[i as int].1.0 == weight);
            assert(!graph.edge_map().dom().contains(edge@)) by {
                if ev.take(i as int).contains(edge@) {
                    let j = choose|j: int| 0 <= j < i && ev.take(i as int)[j] == edge@;
                    assert(ev[j] == ev[i as int]);
                }
            }
            let ghost before = graph.edge_map();
            graph.add_edge(edge, weight);
            assert(graph.edge_map() == before.insert(edge@, weight));
            let ghost prev = ev.take(i as int);
            let ghost next = ev.take(i + 1);
            assert(next == prev.push(edge@));
            assert forall|e: u64| #[trigger] graph.edge_map().dom().contains(e) <==> next.contains(e) by {
                if e == edge@ {
                    assert(next[i as int] == e);
                }
                if next.contains(e) && e != edge@ {
                    let j = choose|j: int| 0 <= j < next.len() && next[j] == e;
                    assert(prev[j] == e);
                }
                if prev.contains(e) {
                    let j = choose|j: int| 0 <= j < prev.len() && prev[j] == e;
                    assert(next[j] == e);
                }
            }
            assert forall|k: int| 0 <= k < i + 1 implies graph.edge_map()[#[trigger] av[k].0] == av[k].1.0 by {
                if k < i {
                    assert(ev[k] != ev[i as int]);
                }
            }
        }
        assert(ev.take(n as int) == ev);
        assert(graph.edge_map().dom() =~= self.edge_set());
        graph
    }

    /// All edges of the graph, leaving out those that fast-forwards of the
    /// graph cover (every edge of a fast-forward's path but the first).
    pub fn iter_edges_non_overlapping(&self) -> (r: Result<Vec<(DirectedEdgeIndex, EdgeWeight<'_>)>, Error>)
        ensures
            r matches Ok(v) && edge_weights_view(v@) == self.all_edges().filter(
                |x: (u64, EdgeWeightView)| !covered_edges(self.all_edges()).contains(x.0),
            ),
    {
        let all = self.iter_edges();
        let ghost av = self.all_edges();
        let mut covered: H3Treemap<DirectedEdgeIndex> = H3Treemap::new();
        let n = all.len();
        for k in 0..n
            invariant
                n == all@.len(),
                av == edge_weights_view(all@),
                covered@ == covered_edges(av.take(k as int)),
        {
            let ghost before = covered@;
            let ghost prev = av.take(k as int);
            let ghost next = av.take(k + 1);
            assert forall|e: u64| #[trigger] covered_edges(next).contains(e) <==> (before.contains(e) || covers(av[k as int], e)) by {
                if covered_edges(next).contains(e) {
                    let k2 = choose|k2: int| 0 <= k2 < next.len() && covers(#[trigger] next[k2], e);
                    if k2 < k {
                        assert(prev[k2] == next[k2]);
                    }
                }
                if before.contains(e) {
                    let k2 = choose|k2: int| 0 <= k2 < prev.len() && covers(#[trigger] prev[k2], e);
                    assert(prev[k2] == next[k2]);
                }
                if covers(av[k as int], e) {
                    assert(next[k as int] == av[k as int]);
                }
            }
            match all[k].1.fastforward {
                Some((ff, _)) => {
                    let path = ff.edge_path();
                    let ghost pv = edges_view(path@);
                    assert(av[k as int].1.1 is Some);
                    assert((av[k as int].1.1->0).0 == pv);
                    let m = path.len();
                    assert(pv.subrange(1, 1) =~= Seq::<u64>::empty());
                    assert(covered@ =~= before + pv.subrange(1, 1).to_set());
                    for j in 1..m
                        invariant
                            m == path@.len(),
                            pv == edges_view(path@),
                            covered@ == before + pv.subrange(1, j as int).to_set(),
                            av[k as int].1.1 is Some,
                            (av[k as int].1.1->0).0 == pv,
                            k < av.len(),
                            forall|e: u64| #[trigger] covered_edges(next).contains(e) <==> (before.contains(e) || covers(av[k as int], e)),
                    {
                        covered.insert(path[j]);
                        let ghost lo = pv.subrange(1, j as int);
                        let ghost hi = pv.subrange(1, j + 1);
                        assert(hi.to_set() =~= lo.to_set().insert(pv[j as int])) by {
                            assert forall|e: u64| hi.contains(e) <==> (lo.contains(e) || e == pv[j as int]) by {
                                if hi.contains(e) {
                                    let x = choose|x: int| 0 <= x < hi.len() && hi[x] == e;
                                    if x < j - 1 {
                                        assert(lo[x] == e);
                                    }
                                }
                                if lo.contains(e) {
                                    let x = choose|x: int| 0 <= x < lo.len() && lo[x] == e;
                                    assert(hi[x] == e);
                                }
                                if e == pv[j as int] {
                                    assert(hi[j - 1] == e);
                                }
                            }
                        }
                        assert(covered@ =~= before + pv.subrange(1, j + 1).to_set());
                    }
                    assert(pv.subrange(1, m as int) =~= pv.skip(1));
                    assert(covered@ =~= covered_edges(av.take(k + 1))) by {
                        assert forall|e: u64| covered@.contains(e) <==> covered_edges(av.take(k + 1)).contains(e) by {
                            assert(pv.skip(1).to_set().contains(e) <==> pv.skip(1).contains(e));
                            assert(covers(av[k as int], e) == (av[k as int].1.1->0).0.skip(1).contains(e));
                            assert(covers(av[k as int], e) <==> pv.skip(1).contains(e));
                            assert(covered_edges(next).contains(e) <==> (before.contains(e) || covers(av[k as int], e)));
                        }
                    }
                },
                None => {
                    assert(covered@ =~= covered_edges(av.take(k + 1)));
                },
            }
        }
        assert(av.take(n as int) == av);
        let ghost pred = |x: (u64, EdgeWeightView)| !covered_edges(av).contains(x.0);
        let mut out: Vec<(DirectedEdgeIndex, EdgeWeight<'_>)> = Vec::new();
        for i in 0..n
            invariant
                n == all@.len(),
                av == edge_weights_view(all@),
                covered@ == covered_edges(av),
                pred == (|x: (u64, EdgeWeightView)| !covered_edges(av).contains(x.0)),
                edge_weights_view(out@) == av.take(i as int).filter(pred),
        {
            let ghost before = out@;
            assert(av.take(i + 1) == av.take(i as int).push(av[i as int]));
            proof {
                av.take(i as int).lemma_filter_push(av[i as int], pred);
            }
            if !covered.contains(&all[i].0) {
                out.push(all[i]);
                assert(edge_weights_view(out@) == edge_weights_view(before).push(av[i as int]));
            }
        }
        assert(av.take(n as int) == av);
        Ok(out)
    }

    /// The cells covering the area of the graph at a resolution reduced by
    /// `reduce_resolution_by` (at most down to zero), each once and in
    /// increasing order: the cells standing for the graph's nodes there.
    /// The outline of the area is drawn from these cells.
    pub fn covered_area_cells(&self, reduce_resolution_by: u8) -> (r: Vec<CellIndex>)
        ensures
            strictly_increasing(index_values(r@)),
            forall|x: u64| index_values(r@).contains(x) <==> exists|c: u64| #[trigger] self.nodes_view().dom().contains(c)
                && transform_cell(c, (if self.resolution() >= reduce_resolution_by { (self.resolution() - reduce_resolution_by) as u8 } else { 0u8 })).contains(x),
    {
        proof {
            use_type_invariant(self);
        }
        let nodes = self.iter_cell_nodes();
        let ghost nv = nodes@.map_values(|p: (CellIndex, NodeType)| (p.0@, p.1));
        let mut cells: Vec<CellIndex> = Vec::new();
        let n = nodes.len();
        for i in 0..n
            invariant
                n == nodes@.len(),
                nv == nodes@.map_values(|p: (CellIndex, NodeType)| (p.0@, p.1)),
                cells_view(cells@) == entry_keys(nv).take(i as int),
        {
            cells.push(nodes[i].0);
            assert(entry_keys(nv).take(i + 1) == entry_keys(nv).take(i as int).push(nodes@[i as int].0@));
        }
        assert(entry_keys(nv).take(n as int) == entry_keys(nv));
        let target = self.h3_resolution.saturating_sub(reduce_resolution_by);
        let transformed = transform_resolution(&cells, target);
        let r = sorted_dedup(&transformed);
        proof {
            assert(index_values(transformed@) == cells_view(transformed@));
            let keys = entry_keys(nv);
            assert forall|x: u64| index_values(r@).contains(x) <==> exists|c: u64| #[trigger] self.nodes_view().dom().contains(c)
                && transform_cell(c, target).contains(x) by {
                lemma_transform_cells_contains(keys, target, x);
                if exists|c: u64| #[trigger] self.nodes_view().dom().contains(c) && transform_cell(c, target).contains(x) {
                    let c = choose|c: u64| #[trigger] self.nodes_view().dom().contains(c) && transform_cell(c, target).contains(x);
                    let j = choose|j: int| 0 <= j < nv.len() && nv[j].0 == c;
                    assert(keys[j] == c);
                }
                if exists|i: int| 0 <= i < keys.len() && #[trigger] transform_cell(keys[i], target).contains(x) {
                    let i = choose|i: int| 0 <= i < keys.len() && #[trigger] transform_cell(keys[i], target).contains(x);
                    assert(nv[i].0 == keys[i]);
                    assert(self.nodes_view().dom().contains(keys[i]));
                }
            }
        }
        r
    }

    /// The invariant of the type, stated over its views.
    pub open spec fn well_formed(&self) -> bool {
        &&& self.resolution() <= MAX_RESOLUTION
        &&& slots_wf(self.slots(), self.slot_index())
        &&& forall|c: u64| #[trigger] self.nodes_view().dom().contains(c) ==> h3_is_cell(c)
    }
}

impl IterateCellNodes for PreparedH3EdgeGraph {
    open spec fn cell_nodes_view(&self) -> Map<u64, NodeType> {
        self.nodes_view()
    }

    fn iter_cell_nodes(&self) -> (r: Vec<(CellIndex, NodeType)>) {
        proof {
            use_type_invariant(self);
        }
        let entries = self.graph_nodes.entries();
        let mut out: Vec<(CellIndex, NodeType)> = Vec::new();
        let n = entries.len();
        for i in 0..n
            invariant
                n == entries@.len(),
                entries_of(entries@, self.nodes_view()),
                forall|c: u64| #[trigger] self.nodes_view().dom().contains(c) ==> h3_is_cell(c),
                out@.map_values(|p: (CellIndex, NodeType)| (p.0@, p.1)) == entries@.take(i as int),
        {
            let (key, role) = entries[i];
            let ghost before = out@;
            out.push((CellIndex::from_valid(key), role));
            assert(entries@.take(i + 1) == entries@.take(i as int).push((key, role)));
            assert(out@.map_values(|p: (CellIndex, NodeType)| (p.0@, p.1)) == before.map_values(
                |p: (CellIndex, NodeType)| (p.0@, p.1),
            ).push((key, role)));
        }
        assert(entries@.take(n as int) == entries@);
        out
    }
}

impl HasH3Resolution for PreparedH3EdgeGraph {
    open spec fn resolution_view(&self) -> u8 {
        self.resolution()
    }

    fn h3_resolution(&self) -> (r: u8) {
        self.h3_resolution
    }
}

impl GetStats for PreparedH3EdgeGraph {
    open spec fn stats_view(&self) -> GraphStats {
        GraphStats {
            h3_resolution: self.resolution(),
            num_nodes: self.nodes_view().len() as usize,
            num_edges: saturated(self.all_edges().len() as int) as usize,
        }
    }

    fn get_stats(&self) -> (r: Result<GraphStats, Error>) {
        Ok(GraphStats {
            h3_resolution: self.h3_resolution,
            num_nodes: self.graph_nodes.len(),
            num_edges: self.count_edges().0,
        })
    }
}

impl GetCellNode for PreparedH3EdgeGraph {
    open spec fn cell_node_view(&self, cell: u64) -> Option<NodeType> {
        if self.nodes_view().dom().contains(cell) {
            Some(self.nodes_view()[cell])
        } else {
            None
        }
    }

    fn get_cell_node(&self, cell: CellIndex) -> (r: Option<NodeType>) {
        self.graph_nodes.get(cell.to_u64())
    }
}

impl GetCellEdges for PreparedH3EdgeGraph {
    open spec fn cell_edges_view(&self, cell: u64) -> Seq<(u64, EdgeWeightView)> {
        self.outgoing_view(cell)
    }

    open spec fn cells_bound(&self) -> Set<u64> {
        self.all_edges().map_values(|x: (u64, EdgeWeightView)| h3_edge_destination(x.0)).to_set()
    }

    proof fn lemma_cell_edges(&self, cell: u64) {
        let dests = self.all_edges().map_values(|x: (u64, EdgeWeightView)| h3_edge_destination(x.0));
        assert(dests.to_set().finite());
        if self.well_formed() && self.slot_index().dom().contains(cell) {
            let p = self.slot_index()[cell] as int;
            let slots = self.slots();
            assert forall|i: int| 0 <= i < self.outgoing_view(cell).len() implies h3_edge_origin(
                (#[trigger] self.outgoing_view(cell)[i]).0,
            ) == cell && dests.to_set().contains(h3_edge_destination(self.outgoing_view(cell)[i].0)) by {
                lemma_flat_contains(slots, p, i);
                let k = choose|k: int| 0 <= k < flat_edges(slots).len() && #[trigger] flat_edges(slots)[k]
                    == slots[p].1[i];
                assert(dests[k] == h3_edge_destination(slots[p].1[i].0));
            }
        }
    }

    fn get_edges_originating_from(&self, cell: CellIndex) -> (r: Vec<(DirectedEdgeIndex, EdgeWeight<'_>)>) {
        proof {
            use_type_invariant(self);
        }
        match self.slot_of(cell) {
            Some(p) => self.borrow_slot(p),
            None => Vec::new(),
        }
    }
}

} // verus!
