//! The cells a graph reaches from an origin within a weight threshold.
use vstd::prelude::*;
use crate::h3::{CellIndex, h3_is_cell, h3_edge_destination};
use crate::collections::{U64Map, entries_of, entry_keys, entries_map, lemma_entries_map, selector_fold, lemma_fold_push, lemma_fold_single};
use crate::treemap::H3Treemap;
use crate::graph::GetCellEdges;
use crate::error::Error;

verus! {

/// The graph has an edge from `c` to `d` of weight `w`.
pub open spec fn edge_step<G: GetCellEdges>(g: &G, c: u64, d: u64, w: u64) -> bool {
    exists|i: int| 0 <= i < g.cell_edges_view(c).len() && h3_edge_destination(#[trigger] g.cell_edges_view(c)[i].0) == d
        && g.cell_edges_view(c)[i].1.0 == w
}

/// The sum of a sequence of weights.
pub open spec fn weight_total(weights: Seq<u64>) -> nat
    decreases weights.len(),
{
    if weights.len() == 0 {
        0
    } else {
        weight_total(weights.drop_last()) + weights.last() as nat
    }
}

/// `cells` is a walk along edges of `g`, `weights` being the weights of its
/// steps.
pub open spec fn is_walk<G: GetCellEdges>(g: &G, cells: Seq<u64>, weights: Seq<u64>) -> bool {
    &&& cells.len() == weights.len() + 1
    &&& forall|k: int| #![trigger weights[k]] 0 <= k < weights.len() ==> edge_step(g, cells[k], cells[k + 1], weights[k])
}

/// Every cell of `m` is at most `threshold` and the total weight of some walk
/// from `origin` to it.
pub open spec fn sound_weights<G: GetCellEdges>(g: &G, origin: u64, threshold: u64, m: Map<u64, u64>) -> bool {
    forall|c: u64| #[trigger] m.dom().contains(c) ==> m[c] <= threshold && exists|cells: Seq<u64>, weights: Seq<u64>|
        #[trigger] is_walk(g, cells, weights) && cells[0] == origin && cells.last() == c && weight_total(weights) == m[c]
}

/// Every edge leaving a cell of `m` that stays within `threshold` leads to a
/// cell of `m` whose weight it does not improve.
pub open spec fn closed_weights<G: GetCellEdges>(g: &G, threshold: u64, m: Map<u64, u64>) -> bool {
    forall|c: u64, i: int| #![trigger m.dom().contains(c), g.cell_edges_view(c)[i]] m.dom().contains(c) && 0 <= i < g.cell_edges_view(c).len()
        && m[c] + g.cell_edges_view(c)[i].1.0 <= threshold ==> m.dom().contains(
        h3_edge_destination(g.cell_edges_view(c)[i].0),
    ) && m[h3_edge_destination(g.cell_edges_view(c)[i].0)] <= m[c] + g.cell_edges_view(c)[i].1.0
}

/// `m` is the result of a threshold search from `origin`: the origin has
/// weight zero, every weight is that of a walk within the threshold, and no
/// edge within the threshold improves a weight.
pub open spec fn within_threshold_weights<G: GetCellEdges>(g: &G, origin: u64, threshold: u64, m: Map<u64, u64>) -> bool {
    &&& m.dom().contains(origin)
    &&& m[origin] == 0
    &&& sound_weights(g, origin, threshold, m)
    &&& closed_weights(g, threshold, m)
}

/// The weights of a threshold search are the least total weights: every cell
/// a walk from the origin reaches within the threshold is in the result,
/// with a weight no greater than the walk's.
pub proof fn lemma_within_threshold_minimal<G: GetCellEdges>(
    g: &G,
    origin: u64,
    threshold: u64,
    m: Map<u64, u64>,
    cells: Seq<u64>,
    weights: Seq<u64>,
)
    requires
        within_threshold_weights(g, origin, threshold, m),
        is_walk(g, cells, weights),
        cells[0] == origin,
        weight_total(weights) <= threshold,
    ensures
        m.dom().contains(cells.last()),
        m[cells.last()] <= weight_total(weights),
    decreases weights.len(),
{
    if weights.len() > 0 {
        let n = weights.len() as int;
        let pc = cells.drop_last();
        let pw = weights.drop_last();
        assert forall|k: int| #![trigger pw[k]] 0 <= k < pw.len() implies edge_step(g, pc[k], pc[k + 1], pw[k]) by {
            assert(weights[k] == pw[k]);
        }
        lemma_within_threshold_minimal(g, origin, threshold, m, pc, pw);
        let prev = cells[n - 1];
        assert(pc.last() == prev);
        assert(edge_step(g, cells[n - 1], cells[n], weights[n - 1]));
        let i = choose|i: int| 0 <= i < g.cell_edges_view(prev).len() && h3_edge_destination(
            #[trigger] g.cell_edges_view(prev)[i].0,
        ) == cells[n] && g.cell_edges_view(prev)[i].1.0 == weights[n - 1];
        assert(m.dom().contains(prev));
        assert(m[prev] + g.cell_edges_view(prev)[i].1.0 <= threshold);
    }
}

/// The total weight of a walk extended by one step.
proof fn lemma_walk_push<G: GetCellEdges>(g: &G, cells: Seq<u64>, weights: Seq<u64>, d: u64, w: u64)
    requires
        is_walk(g, cells, weights),
        edge_step(g, cells.last(), d, w),
    ensures
        is_walk(g, cells.push(d), weights.push(w)),
        weight_total(weights.push(w)) == weight_total(weights) + w,
        cells.push(d)[0] == cells[0],
        cells.push(d).last() == d,
{
    let nc = cells.push(d);
    let nw = weights.push(w);
    assert(nw.drop_last() == weights);
    assert forall|k: int| #![trigger nw[k]] 0 <= k < nw.len() implies edge_step(g, nc[k], nc[k + 1], nw[k]) by {
        if k < weights.len() {
            assert(weights[k] == nw[k]);
            assert(cells[k] == nc[k] && cells[k + 1] == nc[k + 1]);
        } else {
            assert(nc[k] == cells.last());
        }
    }
}

/// The weights of all cells `graph` reaches from `origin_cell` within
/// `weight_threshold`, as a map from the cell index.
///
/// The search settles one cell at a time, the labelled cell of least weight
/// first, and relaxes the edges leaving it; fast-forwards are not followed.
#[verifier::loop_isolation(false)]
fn threshold_weights<G: GetCellEdges>(graph: &G, origin_cell: CellIndex, weight_threshold: u64) -> (r: U64Map)
    ensures
        within_threshold_weights(graph, origin_cell@, weight_threshold, r@),
        forall|c: u64| #[trigger] r@.dom().contains(c) ==> h3_is_cell(c),
{
    proof {
        use_type_invariant(&origin_cell);
        graph.lemma_cell_edges(origin_cell@);
    }
    let ghost o = origin_cell@;
    let ghost bound = graph.cells_bound().insert(o);
    let mut labels = U64Map::new();
    labels.insert(origin_cell.to_u64(), 0);
    let mut settled: H3Treemap<CellIndex> = H3Treemap::new();
    let mut frontier: Vec<CellIndex> = Vec::new();
    frontier.push(origin_cell);
    proof {
        let cells = seq![o];
        let weights = Seq::<u64>::empty();
        assert(is_walk(graph, cells, weights));
        assert(weight_total(weights) == 0);
        assert(frontier@[0]@ == o);
    }
    while frontier.len() > 0
        invariant
            bound.finite(),
            labels@.dom().contains(o),
            labels@[o] == 0,
            forall|c: u64| #[trigger] labels@.dom().contains(c) ==> h3_is_cell(c) && bound.contains(c),
            settled@.subset_of(labels@.dom()),
            forall|k: int| 0 <= k < frontier@.len() ==> labels@.dom().contains(#[trigger] frontier@[k]@) && !settled@.contains(
                frontier@[k]@,
            ),
            forall|a: int, b: int| 0 <= a < b < frontier@.len() ==> frontier@[a]@ != frontier@[b]@,
            forall|c: u64| #[trigger] labels@.dom().contains(c) && !settled@.contains(c) ==> exists|k: int|
                0 <= k < frontier@.len() && #[trigger] frontier@[k]@ == c,
            forall|s: u64, k: int| #![trigger settled@.contains(s), frontier@[k]] settled@.contains(s) && 0 <= k < frontier@.len()
                ==> labels@[s] <= labels@[frontier@[k]@],
            forall|c: u64, i: int| #![trigger settled@.contains(c), graph.cell_edges_view(c)[i]] settled@.contains(c) && 0 <= i
                < graph.cell_edges_view(c).len() && labels@[c] + graph.cell_edges_view(c)[i].1.0 <= weight_threshold
                ==> labels@.dom().contains(h3_edge_destination(graph.cell_edges_view(c)[i].0)) && labels@[h3_edge_destination(
                graph.cell_edges_view(c)[i].0,
            )] <= labels@[c] + graph.cell_edges_view(c)[i].1.0,
            sound_weights(graph, o, weight_threshold, labels@),
        decreases bound.len() - settled@.len(),
    {
        // the frontier cell of least weight
        let mut best: usize = 0;
        let mut best_weight: u64 = match labels.get(frontier[0].to_u64()) {
            Some(w) => w,
            None => 0,
        };
        let fl = frontier.len();
        for k in 1..fl
            invariant
                fl == frontier@.len(),
                best < fl,
                best_weight == labels@[frontier@[best as int]@],
                forall|j: int| 0 <= j < k ==> best_weight <= labels@[#[trigger] frontier@[j]@],
        {
            match labels.get(frontier[k].to_u64()) {
                Some(w) => {
                    if w < best_weight {
                        best = k;
                        best_weight = w;
                    }
                },
                None => {},
            }
        }
        let ghost old_frontier = frontier@;
        let ghost old_settled = settled@;
        let ghost before_relax = labels@;
        let cell = frontier.remove(best);
        let ghost removed = frontier@;
        let c = cell.to_u64();
        proof {
            use_type_invariant(&cell);
            graph.lemma_cell_edges(c);
            assert(old_frontier[best as int]@ == c);
            assert(labels@.dom().contains(c));
            assert(!settled@.contains(c));
            vstd::set_lib::lemma_len_subset(old_settled, bound);
        }
        settled.insert(cell);
        proof {
            assert(settled@.subset_of(bound));
            vstd::set_lib::lemma_len_subset(settled@, bound);
        }
        let edges = graph.get_edges_originating_from(cell);
        let ghost ev = crate::graph::edge_weights_view(edges@);
        assert(ev == graph.cell_edges_view(c));
        let en = edges.len();
        for j in 0..en
            invariant
                en == edges@.len(),
                settled@ == old_settled.insert(c),
                labels@.dom().contains(o),
                labels@[o] == 0,
                forall|x: u64| #[trigger] labels@.dom().contains(x) ==> h3_is_cell(x) && bound.contains(x),
                forall|x: u64| #[trigger] before_relax.dom().contains(x) ==> labels@.dom().contains(x) && labels@[x] <= before_relax[x],
                forall|x: u64| #[trigger] settled@.contains(x) ==> labels@[x] == before_relax[x],
                forall|x: u64| #[trigger] labels@.dom().contains(x) ==> labels@[x] >= best_weight || (before_relax.dom().contains(x)
                    && labels@[x] == before_relax[x]),
                frontier@.len() >= removed.len(),
                forall|k: int| 0 <= k < removed.len() ==> #[trigger] frontier@[k] == removed[k],
                forall|k: int| removed.len() <= k < frontier@.len() ==> !before_relax.dom().contains(#[trigger] frontier@[k]@),
                forall|x: u64| #[trigger] labels@.dom().contains(x) && !before_relax.dom().contains(x) ==> exists|k: int|
                    0 <= k < frontier@.len() && #[trigger] frontier@[k]@ == x,
                forall|k: int| 0 <= k < frontier@.len() ==> labels@.dom().contains(#[trigger] frontier@[k]@) && !settled@.contains(
                    frontier@[k]@,
                ),
                forall|a: int, b: int| 0 <= a < b < frontier@.len() ==> frontier@[a]@ != frontier@[b]@,
                forall|k: int| 0 <= k < j ==> best_weight + (#[trigger] ev[k]).1.0 <= weight_threshold ==> labels@.dom().contains(
                    h3_edge_destination(ev[k].0),
                ) && labels@[h3_edge_destination(ev[k].0)] <= best_weight + ev[k].1.0,
                sound_weights(graph, o, weight_threshold, labels@),
        {
            let (edge, edge_weight) = edges[j];
            assert(ev[j as int] == (edge@, crate::graph::edge_weight_view(edge_weight)));
            let destination = edge.destination();
            proof {
                use_type_invariant(&destination);
            }
            let d = destination.to_u64();
            assert(graph.cells_bound().contains(d)) by {
                assert(graph.cell_edges_view(c)[j as int] == ev[j as int]);
            }
            match best_weight.checked_add(edge_weight.weight) {
                Some(new_weight) => {
                    if new_weight <= weight_threshold {
                        let ghost before = labels@;
                        let ghost fr_before = frontier@;
                        let ghost walk = choose|wc: Seq<u64>, ww: Seq<u64>| #[trigger] is_walk(graph, wc, ww) && wc[0] == o
                            && wc.last() == c && weight_total(ww) == before[c];
                        proof {
                            assert(before.dom().contains(c));
                            assert(edge_step(graph, c, d, edge_weight.weight)) by {
                                assert(h3_edge_destination(graph.cell_edges_view(c)[j as int].0) == d);
                            }
                            lemma_walk_push(graph, walk.0, walk.1, d, edge_weight.weight);
                        }
                        match labels.get(d) {
                            Some(existing) => {
                                if new_weight < existing {
                                    proof {
                                        if settled@.contains(d) {
                                            if d != c {
                                                assert(old_settled.contains(d));
                                                assert(before_relax[d] <= before_relax[c]);
                                            }
                                            assert(false);
                                        }
                                    }
                                    labels.insert(d, new_weight);
                                }
                            },
                            None => {
                                proof {
                                    assert(!before_relax.dom().contains(d));
                                    assert(!settled@.contains(d));
                                }
                                labels.insert(d, new_weight);
                                frontier.push(destination);
                            },
                        }
                        proof {
                            assert forall|x: u64| #[trigger] labels@.dom().contains(x) implies labels@[x] <= weight_threshold
                                && exists|cells: Seq<u64>, weights: Seq<u64>| #[trigger] is_walk(graph, cells, weights)
                                && cells[0] == o && cells.last() == x && weight_total(weights) == labels@[x] by {
                                if x == d && labels@[x] == new_weight {
                                    assert(is_walk(graph, walk.0.push(d), walk.1.push(edge_weight.weight)));
                                } else {
                                    assert(before.dom().contains(x));
                                }
                            }
                            assert forall|x: u64| #[trigger] labels@.dom().contains(x) && !before_relax.dom().contains(x) implies exists|k: int|
                                0 <= k < frontier@.len() && #[trigger] frontier@[k]@ == x by {
                                if before.dom().contains(x) {
                                    let k = choose|k: int| 0 <= k < fr_before.len() && #[trigger] fr_before[k]@ == x;
                                    assert(frontier@[k] == fr_before[k]);
                                } else {
                                    assert(x == d);
                                    assert(frontier@[frontier@.len() - 1]@ == d);
                                }
                            }
                        }
                    }
                },
                None => {},
            }
        }
        proof {
            assert forall|x: u64| #[trigger] labels@.dom().contains(x) && !settled@.contains(x) implies exists|k: int|
                0 <= k < frontier@.len() && #[trigger] frontier@[k]@ == x by {
                if before_relax.dom().contains(x) {
                    assert(x != c);
                    assert(!old_settled.contains(x));
                    let k = choose|k: int| 0 <= k < old_frontier.len() && #[trigger] old_frontier[k]@ == x;
                    assert(k != best);
                    let idx = if k < best { k } else { k - 1 };
                    assert(removed[idx] == old_frontier[k]);
                    assert(frontier@[idx] == removed[idx]);
                }
            }
            assert forall|s: u64, k: int| #![trigger settled@.contains(s), frontier@[k]] settled@.contains(s) && 0 <= k < frontier@.len()
                implies labels@[s] <= labels@[frontier@[k]@] by {
                assert(labels@[s] == before_relax[s]);
                if s != c {
                    assert(old_settled.contains(s));
                    assert(before_relax[s] <= before_relax[old_frontier[best as int]@]);
                }
                if k < removed.len() {
                    let idx = if k < best { k } else { k + 1 };
                    assert(frontier@[k] == removed[k]);
                    assert(removed[k] == old_frontier[idx]);
                    assert(best_weight <= before_relax[old_frontier[idx]@]);
                }
            }
            assert forall|s: u64, i: int| #![trigger settled@.contains(s), graph.cell_edges_view(s)[i]] settled@.contains(s) && 0 <= i
                < graph.cell_edges_view(s).len() && labels@[s] + graph.cell_edges_view(s)[i].1.0 <= weight_threshold
                implies labels@.dom().contains(h3_edge_destination(graph.cell_edges_view(s)[i].0)) && labels@[h3_edge_destination(
                graph.cell_edges_view(s)[i].0,
            )] <= labels@[s] + graph.cell_edges_view(s)[i].1.0 by {
                if s == c {
                    assert(ev[i] == graph.cell_edges_view(s)[i]);
                } else {
                    assert(old_settled.contains(s));
                }
            }
        }
    }
    labels
}

/// Some walk of `g` from `origin` to `cell` has the total weight `weight`.
pub open spec fn walk_weight<G: GetCellEdges>(g: &G, origin: u64, cell: u64, weight: nat) -> bool {
    exists|cells: Seq<u64>, weights: Seq<u64>| #[trigger] is_walk(g, cells, weights) && cells[0] == origin && cells.last()
        == cell && weight_total(weights) == weight
}

/// Some walk of `g` from `origin` reaches `cell` within `threshold`.
pub open spec fn reachable_within<G: GetCellEdges>(g: &G, origin: u64, threshold: u64, cell: u64) -> bool {
    exists|cells: Seq<u64>, weights: Seq<u64>| #[trigger] is_walk(g, cells, weights) && cells[0] == origin && cells.last()
        == cell && weight_total(weights) <= threshold
}

/// No walk of `g` from `origin` to `cell` within `threshold` weighs less than `weight`.
pub open spec fn bounds_walks<G: GetCellEdges>(g: &G, origin: u64, threshold: u64, cell: u64, weight: u64) -> bool {
    forall|cells: Seq<u64>, weights: Seq<u64>| #[trigger] is_walk(g, cells, weights) && cells[0] == origin && cells.last()
        == cell && weight_total(weights) <= threshold ==> weight <= weight_total(weights)
}

/// What a threshold search result says of each cell: it holds exactly the
/// reachable cells, each with the weight of a walk and no more than any walk.
proof fn lemma_threshold_facts<G: GetCellEdges>(g: &G, origin: u64, threshold: u64, m: Map<u64, u64>)
    requires
        within_threshold_weights(g, origin, threshold, m),
    ensures
        forall|c: u64| #[trigger] m.dom().contains(c) <==> reachable_within(g, origin, threshold, c),
        forall|c: u64| #[trigger] m.dom().contains(c) ==> walk_weight(g, origin, c, m[c] as nat) && bounds_walks(
            g,
            origin,
            threshold,
            c,
            m[c],
        ),
{
    assert forall|c: u64| #[trigger] m.dom().contains(c) <==> reachable_within(g, origin, threshold, c) by {
        if reachable_within(g, origin, threshold, c) {
            let (cells, weights) = choose|cells: Seq<u64>, weights: Seq<u64>| #[trigger] is_walk(g, cells, weights)
                && cells[0] == origin && cells.last() == c && weight_total(weights) <= threshold;
            lemma_within_threshold_minimal(g, origin, threshold, m, cells, weights);
        }
    }
    assert forall|c: u64| #[trigger] m.dom().contains(c) implies walk_weight(g, origin, c, m[c] as nat) && bounds_walks(
        g,
        origin,
        threshold,
        c,
        m[c],
    ) by {
        assert forall|cells: Seq<u64>, weights: Seq<u64>| #[trigger] is_walk(g, cells, weights) && cells[0] == origin
            && cells.last() == c && weight_total(weights) <= threshold implies m[c] <= weight_total(weights) by {
            lemma_within_threshold_minimal(g, origin, threshold, m, cells, weights);
        }
    }
}

/// `ws` are the least weights with which the first `n` origins that reach
/// `cell` within `threshold` reach it, in the order of the origins: `js` are
/// the positions of those origins, and `ws[k]` is the weight of a walk from
/// the origin at `js[k]` that no walk from it within the threshold undercuts.
pub open spec fn origin_least_weights<G: GetCellEdges>(
    g: &G,
    origins: Seq<CellIndex>,
    n: int,
    threshold: u64,
    cell: u64,
    js: Seq<int>,
    ws: Seq<u64>,
) -> bool {
    &&& js.len() == ws.len()
    &&& forall|a: int, b: int| 0 <= a < b < js.len() ==> js[a] < js[b]
    &&& forall|k: int| 0 <= k < js.len() ==> 0 <= #[trigger] js[k] < n
    &&& forall|j: int| 0 <= j < n ==> (reachable_within(g, #[trigger] origins[j]@, threshold, cell) <==> js.contains(j))
    &&& forall|k: int| #![trigger js[k]] 0 <= k < js.len() ==> walk_weight(g, origins[js[k]]@, cell, ws[k] as nat)
        && bounds_walks(g, origins[js[k]]@, threshold, cell, ws[k])
}

/// An origin that does not reach the cell adds no weight.
proof fn lemma_least_weights_unreached<G: GetCellEdges>(
    g: &G,
    origins: Seq<CellIndex>,
    n: int,
    threshold: u64,
    cell: u64,
    js: Seq<int>,
    ws: Seq<u64>,
)
    requires
        0 <= n < origins.len(),
        origin_least_weights(g, origins, n, threshold, cell, js, ws),
        !reachable_within(g, origins[n]@, threshold, cell),
    ensures
        origin_least_weights(g, origins, n + 1, threshold, cell, js, ws),
{
    assert(!js.contains(n)) by {
        if js.contains(n) {
            let k = choose|k: int| 0 <= k < js.len() && js[k] == n;
            assert(0 <= js[k] < n);
        }
    }
}

/// An origin that reaches the cell adds its least weight at the end.
proof fn lemma_least_weights_reached<G: GetCellEdges>(
    g: &G,
    origins: Seq<CellIndex>,
    n: int,
    threshold: u64,
    cell: u64,
    js: Seq<int>,
    ws: Seq<u64>,
    w: u64,
)
    requires
        0 <= n < origins.len(),
        origin_least_weights(g, origins, n, threshold, cell, js, ws),
        reachable_within(g, origins[n]@, threshold, cell),
        walk_weight(g, origins[n]@, cell, w as nat),
        bounds_walks(g, origins[n]@, threshold, cell, w),
    ensures
        origin_least_weights(g, origins, n + 1, threshold, cell, js.push(n), ws.push(w)),
{
    let js2 = js.push(n);
    let ws2 = ws.push(w);
    assert forall|a: int, b: int| 0 <= a < b < js2.len() implies js2[a] < js2[b] by {
        if b < js.len() {
            assert(js2[a] == js[a] && js2[b] == js[b]);
        } else {
            assert(js2[a] == js[a]);
            assert(0 <= js[a] < n);
        }
    }
    assert forall|k: int| 0 <= k < js2.len() implies 0 <= #[trigger] js2[k] < n + 1 by {
        if k < js.len() {
            assert(js2[k] == js[k]);
        }
    }
    assert forall|j: int| 0 <= j < n + 1 implies (reachable_within(g, #[trigger] origins[j]@, threshold, cell) <==> js2.contains(j)) by {
        if j < n {
            if js.contains(j) {
                let k = choose|k: int| 0 <= k < js.len() && js[k] == j;
                assert(js2[k] == j);
            }
            if js2.contains(j) {
                let k = choose|k: int| 0 <= k < js2.len() && js2[k] == j;
                assert(k < js.len());
                assert(js[k] == j);
            }
        } else {
            assert(js2[js.len() as int] == n);
        }
    }
    assert forall|k: int| #![trigger js2[k]] 0 <= k < js2.len() implies walk_weight(g, origins[js2[k]]@, cell, ws2[k] as nat)
        && bounds_walks(g, origins[js2[k]]@, threshold, cell, ws2[k]) by {
        if k < js.len() {
            assert(js2[k] == js[k] && ws2[k] == ws[k]);
        }
    }
}

/// The first origin that reaches the cell starts its weights.
proof fn lemma_least_weights_first<G: GetCellEdges>(
    g: &G,
    origins: Seq<CellIndex>,
    n: int,
    threshold: u64,
    cell: u64,
    w: u64,
)
    requires
        0 <= n < origins.len(),
        forall|j: int| 0 <= j < n ==> !reachable_within(g, #[trigger] origins[j]@, threshold, cell),
        reachable_within(g, origins[n]@, threshold, cell),
        walk_weight(g, origins[n]@, cell, w as nat),
        bounds_walks(g, origins[n]@, threshold, cell, w),
    ensures
        origin_least_weights(g, origins, n + 1, threshold, cell, seq![n], seq![w]),
{
    assert(origin_least_weights(g, origins, n, threshold, cell, Seq::<int>::empty(), Seq::<u64>::empty()));
    lemma_least_weights_reached(g, origins, n, threshold, cell, Seq::<int>::empty(), Seq::<u64>::empty(), w);
    assert(Seq::<int>::empty().push(n) =~= seq![n]);
    assert(Seq::<u64>::empty().push(w) =~= seq![w]);
}

/// The `(cell index, weight)` pairs of a list of cells with weights.
pub open spec fn cell_weights_view(v: Seq<(CellIndex, u64)>) -> Seq<(u64, u64)> {
    v.map_values(|p: (CellIndex, u64)| (p.0@, p.1))
}

/// Lists the entries of a map of cell weights.
fn list_cell_weights(m: &U64Map) -> (r: Vec<(CellIndex, u64)>)
    requires
        forall|c: u64| #[trigger] m@.dom().contains(c) ==> h3_is_cell(c),
    ensures
        entries_of(cell_weights_view(r@), m@),
        entries_map(cell_weights_view(r@)) == m@,
        entry_keys(cell_weights_view(r@)).no_duplicates(),
{
    let entries = m.entries();
    let mut out: Vec<(CellIndex, u64)> = Vec::new();
    let n = entries.len();
    for i in 0..n
        invariant
            n == entries@.len(),
            entries_of(entries@, m@),
            forall|c: u64| #[trigger] m@.dom().contains(c) ==> h3_is_cell(c),
            cell_weights_view(out@) == entries@.take(i as int),
    {
        let (key, weight) = entries[i];
        assert(entries@[i as int].0 == key);
        let ghost before = out@;
        out.push((CellIndex::from_valid(key), weight));
        assert(entries@.take(i + 1) == entries@.take(i as int).push((key, weight)));
        assert(cell_weights_view(out@) == cell_weights_view(before).push((key, weight)));
    }
    assert(entries@.take(n as int) == entries@);
    proof {
        lemma_entries_map(cell_weights_view(out@), m@);
    }
    out
}

/// All cells `graph` reaches from `origin_cell` within `weight_threshold`,
/// each with the least total weight of the edges leading there (see
/// [`lemma_within_threshold_minimal`]). Fast-forwards are not followed.
pub fn cells_within_weight_threshold<G: GetCellEdges>(graph: &G, origin_cell: CellIndex, weight_threshold: u64) -> (r: Result<
    Vec<(CellIndex, u64)>,
    Error,
>)
    ensures
        r matches Ok(v) && {
            &&& entry_keys(cell_weights_view(v@)).no_duplicates()
            &&& within_threshold_weights(graph, origin_cell@, weight_threshold, entries_map(cell_weights_view(v@)))
        },
{
    let labels = threshold_weights(graph, origin_cell, weight_threshold);
    Ok(list_cell_weights(&labels))
}

/// All cells `graph` reaches within `weight_threshold` from any of
/// `origin_cells`. The weights found from several origins for the same cell
/// are combined with `agg_fn`, called with the weight found so far and the
/// new one; with the minimum, each cell gets its least weight over all origins.
pub fn cells_within_weight_threshold_many<G: GetCellEdges, F: Fn(u64, u64) -> u64>(
    graph: &G,
    origin_cells: &Vec<CellIndex>,
    weight_threshold: u64,
    agg_fn: F,
) -> (r: Result<Vec<(CellIndex, u64)>, Error>)
    requires
        forall|a: u64, b: u64| agg_fn.requires((a, b)),
    ensures
        r matches Ok(v) && {
            let m = entries_map(cell_weights_view(v@));
            &&& entry_keys(cell_weights_view(v@)).no_duplicates()
            &&& forall|c: u64| #[trigger] m.dom().contains(c) <==> exists|i: int| 0 <= i < origin_cells@.len()
                && reachable_within(graph, #[trigger] origin_cells@[i]@, weight_threshold, c)
            &&& (forall|a: u64, b: u64, x: u64| #[trigger] agg_fn.ensures((a, b), x) ==> x == a || x == b) ==> forall|c: u64|
                #[trigger] m.dom().contains(c) ==> exists|i: int| 0 <= i < origin_cells@.len() && walk_weight(
                graph,
                #[trigger] origin_cells@[i]@,
                c,
                m[c] as nat,
            )
            &&& (forall|a: u64, b: u64, x: u64| #[trigger] agg_fn.ensures((a, b), x) ==> x == (if a <= b { a } else { b }))
                ==> forall|c: u64, i: int| #![trigger m.dom().contains(c), origin_cells@[i]] m.dom().contains(c) && 0 <= i
                < origin_cells@.len() ==> bounds_walks(graph, origin_cells@[i]@, weight_threshold, c, m[c])
            &&& forall|c: u64| #[trigger] m.dom().contains(c) ==> exists|js: Seq<int>, ws: Seq<u64>|
                #[trigger] origin_least_weights(graph, origin_cells@, origin_cells@.len() as int, weight_threshold, c, js, ws)
                && selector_fold(agg_fn, ws, m[c])
        },
{
    let ghost picks = forall|a: u64, b: u64, x: u64| #[trigger] agg_fn.ensures((a, b), x) ==> x == a || x == b;
    let ghost is_min = forall|a: u64, b: u64, x: u64| #[trigger] agg_fn.ensures((a, b), x) ==> x == (if a <= b { a } else { b });
    let mut acc = U64Map::new();
    let ghost mut jm: Map<u64, Seq<int>> = Map::empty();
    let ghost mut wm: Map<u64, Seq<u64>> = Map::empty();
    let n = origin_cells.len();
    for i in 0..n
        invariant
            n == origin_cells@.len(),
            forall|c: u64| #[trigger] acc@.dom().contains(c) ==> jm.dom().contains(c) && wm.dom().contains(c)
                && origin_least_weights(graph, origin_cells@, i as int, weight_threshold, c, jm[c], wm[c])
                && selector_fold(agg_fn, wm[c], acc@[c]),
            forall|a: u64, b: u64| agg_fn.requires((a, b)),
            picks == (forall|a: u64, b: u64, x: u64| #[trigger] agg_fn.ensures((a, b), x) ==> x == a || x == b),
            is_min == (forall|a: u64, b: u64, x: u64| #[trigger] agg_fn.ensures((a, b), x) ==> x == (if a <= b { a } else { b })),
            forall|c: u64| #[trigger] acc@.dom().contains(c) ==> h3_is_cell(c),
            forall|c: u64| #[trigger] acc@.dom().contains(c) <==> exists|j: int| 0 <= j < i
                && reachable_within(graph, #[trigger] origin_cells@[j]@, weight_threshold, c),
            picks ==> forall|c: u64| #[trigger] acc@.dom().contains(c) ==> exists|j: int| 0 <= j < i && walk_weight(
                graph,
                #[trigger] origin_cells@[j]@,
                c,
                acc@[c] as nat,
            ),
            is_min ==> forall|c: u64, j: int| #![trigger acc@.dom().contains(c), origin_cells@[j]] acc@.dom().contains(c) && 0 <= j < i
                ==> bounds_walks(graph, origin_cells@[j]@, weight_threshold, c, acc@[c]),
    {
        let origin = origin_cells[i];
        let m = threshold_weights(graph, origin, weight_threshold);
        proof {
            lemma_threshold_facts(graph, origin@, weight_threshold, m@);
        }
        let entries = m.entries();
        let ghost keys = entry_keys(entries@);
        let ghost acc0 = acc@;
        let ghost jm0 = jm;
        let ghost wm0 = wm;
        let en = entries.len();
        for k in 0..en
            invariant
                en == entries@.len(),
                forall|c: u64| #[trigger] acc0.dom().contains(c) ==> jm0.dom().contains(c) && wm0.dom().contains(c)
                    && origin_least_weights(graph, origin_cells@, i as int, weight_threshold, c, jm0[c], wm0[c])
                    && selector_fold(agg_fn, wm0[c], acc0[c]),
                forall|c: u64| #[trigger] acc@.dom().contains(c) ==> jm.dom().contains(c) && wm.dom().contains(c)
                    && selector_fold(agg_fn, wm[c], acc@[c])
                    && (keys.take(k as int).contains(c) ==> origin_least_weights(graph, origin_cells@, i + 1, weight_threshold, c, jm[c], wm[c]))
                    && (!keys.take(k as int).contains(c) ==> jm[c] == jm0[c] && wm[c] == wm0[c]),
                keys == entry_keys(entries@),
                entries_of(entries@, m@),
                origin == origin_cells@[i as int],
                i < n,
                n == origin_cells@.len(),
                forall|a: u64, b: u64| agg_fn.requires((a, b)),
                picks == (forall|a: u64, b: u64, x: u64| #[trigger] agg_fn.ensures((a, b), x) ==> x == a || x == b),
                is_min == (forall|a: u64, b: u64, x: u64| #[trigger] agg_fn.ensures((a, b), x) ==> x == (if a <= b { a } else { b })),
                forall|c: u64| #[trigger] m@.dom().contains(c) ==> h3_is_cell(c),
                forall|c: u64| #[trigger] m@.dom().contains(c) <==> reachable_within(graph, origin@, weight_threshold, c),
                forall|c: u64| #[trigger] m@.dom().contains(c) ==> walk_weight(graph, origin@, c, m@[c] as nat) && bounds_walks(
                    graph,
                    origin@,
                    weight_threshold,
                    c,
                    m@[c],
                ),
                forall|c: u64| #[trigger] acc0.dom().contains(c) ==> h3_is_cell(c),
                forall|c: u64| #[trigger] acc0.dom().contains(c) <==> exists|j: int| 0 <= j < i
                    && reachable_within(graph, #[trigger] origin_cells@[j]@, weight_threshold, c),
                picks ==> forall|c: u64| #[trigger] acc0.dom().contains(c) ==> exists|j: int| 0 <= j < i && walk_weight(
                    graph,
                    #[trigger] origin_cells@[j]@,
                    c,
                    acc0[c] as nat,
                ),
                is_min ==> forall|c: u64, j: int| #![trigger acc0.dom().contains(c), origin_cells@[j]] acc0.dom().contains(c) && 0 <= j < i
                    ==> bounds_walks(graph, origin_cells@[j]@, weight_threshold, c, acc0[c]),
                forall|c: u64| #[trigger] acc@.dom().contains(c) <==> acc0.dom().contains(c) || keys.take(k as int).contains(c),
                forall|c: u64| #[trigger] acc@.dom().contains(c) && !keys.take(k as int).contains(c) ==> acc@[c] == acc0[c],
                picks ==> forall|c: u64| #[trigger] acc@.dom().contains(c) ==> exists|j: int| 0 <= j <= i && walk_weight(
                    graph,
                    #[trigger] origin_cells@[j]@,
                    c,
                    acc@[c] as nat,
                ),
                is_min ==> forall|c: u64, j: int| #![trigger acc@.dom().contains(c), origin_cells@[j]] acc@.dom().contains(c) && 0 <= j < i
                    ==> bounds_walks(graph, origin_cells@[j]@, weight_threshold, c, acc@[c]),
                is_min ==> forall|c: u64| #[trigger] acc@.dom().contains(c) && keys.take(k as int).contains(c) ==> bounds_walks(
                    graph,
                    origin@,
                    weight_threshold,
                    c,
                    acc@[c],
                ),
        {
            let (c, w) = entries[k];
            assert(keys[k as int] == c);
            assert(m@.dom().contains(c) && m@[c] == w);
            let ghost before = acc@;
            let ghost prev = keys.take(k as int);
            let ghost next = keys.take(k + 1);
            assert(next == prev.push(c));
            assert(!prev.contains(c)) by {
                if prev.contains(c) {
                    let j = choose|j: int| 0 <= j < prev.len() && prev[j] == c;
                    assert(keys[j] == keys[k as int]);
                }
            }
            match acc.get(c) {
                Some(existing) => {
                    let combined = agg_fn(existing, w);
                    acc.insert(c, combined);
                    proof {
                        assert(before[c] == acc0[c]);
                        assert(acc0.dom().contains(c));
                        lemma_least_weights_reached(graph, origin_cells@, i as int, weight_threshold, c, jm0[c], wm0[c], w);
                        lemma_fold_push(agg_fn, wm[c], existing, w, combined);
                        jm = jm.insert(c, jm[c].push(i as int));
                        wm = wm.insert(c, wm[c].push(w));
                        if picks {
                            if combined == w {
                                assert(walk_weight(graph, origin_cells@[i as int]@, c, acc@[c] as nat));
                            } else {
                                assert(combined == existing);
                                let j = choose|j: int| 0 <= j < i && walk_weight(graph, #[trigger] origin_cells@[j]@, c, acc0[c] as nat);
                                assert(walk_weight(graph, origin_cells@[j]@, c, acc@[c] as nat));
                            }
                        }
                        if is_min {
                            assert(combined <= existing && combined <= w);
                            assert forall|j: int| 0 <= j < i implies bounds_walks(graph, #[trigger] origin_cells@[j]@, weight_threshold, c, acc@[c]) by {
                                assert(bounds_walks(graph, origin_cells@[j]@, weight_threshold, c, acc0[c]));
                            }
                            assert(bounds_walks(graph, origin@, weight_threshold, c, acc@[c]));
                        }
                    }
                },
                None => {
                    acc.insert(c, w);
                    proof {
                        assert(!acc0.dom().contains(c));
                        assert forall|j: int| 0 <= j < i implies !reachable_within(graph, #[trigger] origin_cells@[j]@, weight_threshold, c) by {}
                        lemma_least_weights_first(graph, origin_cells@, i as int, weight_threshold, c, w);
                        lemma_fold_single(agg_fn, w);
                        jm = jm.insert(c, seq![i as int]);
                        wm = wm.insert(c, seq![w]);
                        if picks {
                            assert(walk_weight(graph, origin_cells@[i as int]@, c, acc@[c] as nat));
                        }
                        if is_min {
                            assert forall|j: int| 0 <= j < i implies bounds_walks(graph, #[trigger] origin_cells@[j]@, weight_threshold, c, acc@[c]) by {
                                assert(!reachable_within(graph, origin_cells@[j]@, weight_threshold, c));
                            }
                        }
                    }
                },
            }
            assert forall|x: u64| #[trigger] acc@.dom().contains(x) <==> acc0.dom().contains(x) || next.contains(x) by {
                if x == c {
                    assert(next[k as int] == c);
                }
                if next.contains(x) && x != c {
                    let j = choose|j: int| 0 <= j < next.len() && next[j] == x;
                    assert(prev[j] == x);
                }
                if prev.contains(x) {
                    let j = choose|j: int| 0 <= j < prev.len() && prev[j] == x;
                    assert(next[j] == x);
                }
            }
            assert forall|x: u64| #[trigger] acc@.dom().contains(x) implies jm.dom().contains(x) && wm.dom().contains(x)
                && selector_fold(agg_fn, wm[x], acc@[x])
                && (next.contains(x) ==> origin_least_weights(graph, origin_cells@, i + 1, weight_threshold, x, jm[x], wm[x]))
                && (!next.contains(x) ==> jm[x] == jm0[x] && wm[x] == wm0[x]) by {
                if x != c {
                    assert(before.dom().contains(x));
                    if next.contains(x) {
                        let j = choose|j: int| 0 <= j < next.len() && next[j] == x;
                        assert(prev[j] == x);
                    }
                    if prev.contains(x) {
                        let j = choose|j: int| 0 <= j < prev.len() && prev[j] == x;
                        assert(next[j] == x);
                    }
                } else {
                    assert(next[k as int] == c);
                }
            }
            assert forall|x: u64| #[trigger] acc@.dom().contains(x) && !next.contains(x) implies acc@[x] == acc0[x] by {
                assert(x != c) by {
                    if x == c {
                        assert(next[k as int] == c);
                    }
                }
                assert(!prev.contains(x)) by {
                    if prev.contains(x) {
                        let j = choose|j: int| 0 <= j < prev.len() && prev[j] == x;
                        assert(next[j] == x);
                    }
                }
            }
            assert(is_min ==> forall|x: u64| #[trigger] acc@.dom().contains(x) && next.contains(x) ==> bounds_walks(
                graph,
                origin@,
                weight_threshold,
                x,
                acc@[x],
            )) by {
                if is_min {
                    assert forall|x: u64| #[trigger] acc@.dom().contains(x) && next.contains(x) implies bounds_walks(
                        graph,
                        origin@,
                        weight_threshold,
                        x,
                        acc@[x],
                    ) by {
                        if x != c {
                            let j = choose|j: int| 0 <= j < next.len() && next[j] == x;
                            assert(prev[j] == x);
                        }
                    }
                }
            }
        }
        proof {
            assert(keys.take(en as int) == keys);
            assert forall|c: u64| keys.contains(c) <==> m@.dom().contains(c) by {
                if keys.contains(c) {
                    let j = choose|j: int| 0 <= j < keys.len() && keys[j] == c;
                    assert(entries@[j].0 == c);
                }
                if m@.dom().contains(c) {
                    let j = choose|j: int| 0 <= j < entries@.len() && entries@[j].0 == c;
                    assert(keys[j] == c);
                }
            }
            assert forall|c: u64| #[trigger] acc@.dom().contains(c) <==> exists|j: int| 0 <= j < i + 1
                && reachable_within(graph, #[trigger] origin_cells@[j]@, weight_threshold, c) by {
                if acc@.dom().contains(c) && !acc0.dom().contains(c) {
                    assert(reachable_within(graph, origin_cells@[i as int]@, weight_threshold, c));
                }
                if exists|j: int| 0 <= j < i + 1 && reachable_within(graph, #[trigger] origin_cells@[j]@, weight_threshold, c) {
                    let j = choose|j: int| 0 <= j < i + 1 && reachable_within(graph, #[trigger] origin_cells@[j]@, weight_threshold, c);
                    if j == i {
                        assert(m@.dom().contains(c));
                    }
                }
            }
            assert forall|c: u64| #[trigger] acc@.dom().contains(c) implies jm.dom().contains(c) && wm.dom().contains(c)
                && origin_least_weights(graph, origin_cells@, i + 1, weight_threshold, c, jm[c], wm[c])
                && selector_fold(agg_fn, wm[c], acc@[c]) by {
                if !keys.contains(c) {
                    assert(acc0.dom().contains(c));
                    assert(!m@.dom().contains(c));
                    lemma_least_weights_unreached(graph, origin_cells@, i as int, weight_threshold, c, jm[c], wm[c]);
                }
            }
            if is_min {
                assert forall|c: u64, j: int| #![trigger acc@.dom().contains(c), origin_cells@[j]] acc@.dom().contains(c) && 0 <= j < i + 1
                    implies bounds_walks(graph, origin_cells@[j]@, weight_threshold, c, acc@[c]) by {
                    if j == i && !keys.contains(c) {
                        assert(!reachable_within(graph, origin@, weight_threshold, c));
                    }
                }
            }
        }
    }
    let listed = list_cell_weights(&acc);
    proof {
        assert forall|c: u64| #[trigger] acc@.dom().contains(c) implies exists|js: Seq<int>, ws: Seq<u64>|
            #[trigger] origin_least_weights(graph, origin_cells@, origin_cells@.len() as int, weight_threshold, c, js, ws)
            && selector_fold(agg_fn, ws, acc@[c]) by {
            assert(origin_least_weights(graph, origin_cells@, n as int, weight_threshold, c, jm[c], wm[c]));
        }
    }
    Ok(listed)
}

} // verus!
