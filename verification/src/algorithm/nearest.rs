//! The graph nodes nearest to a cell.
use vstd::prelude::*;
use crate::h3::{CellIndex, h3_grid_disk_distances};
use crate::graph::node::NodeType;
use crate::graph::GetCellNode;
use crate::error::Error;
use crate::treemap::H3Treemap;
use crate::collections::lemma_filter_from;

verus! {

/// The cells of a disk.
pub open spec fn disk_cells(disk: Seq<(u64, u32)>) -> Seq<u64> {
    disk.map_values(|p: (u64, u32)| p.0)
}

/// The cells of found nodes.
pub open spec fn found_cells(v: Seq<(CellIndex, NodeType, u32)>) -> Seq<u64> {
    v.map_values(|t: (CellIndex, NodeType, u32)| t.0@)
}

/// A disk with each cell once, at its first listed distance.
pub open spec fn dedup_disk(disk: Seq<(u64, u32)>) -> Seq<(u64, u32)>
    decreases disk.len(),
{
    if disk.len() == 0 {
        Seq::empty()
    } else {
        let r = dedup_disk(disk.drop_last());
        if disk_cells(r).contains(disk.last().0) {
            r
        } else {
            r.push(disk.last())
        }
    }
}

/// The deduplicated disk lists each cell once, holds only entries of the
/// disk, and holds an entry for every cell of the disk.
proof fn lemma_dedup_disk(disk: Seq<(u64, u32)>)
    ensures
        disk_cells(dedup_disk(disk)).no_duplicates(),
        forall|x: (u64, u32)| #[trigger] dedup_disk(disk).contains(x) ==> disk.contains(x),
        forall|c: u64| #[trigger] disk_cells(disk).contains(c) ==> disk_cells(dedup_disk(disk)).contains(c),
    decreases disk.len(),
{
    if disk.len() > 0 {
        let init = disk.drop_last();
        lemma_dedup_disk(init);
        let r = dedup_disk(init);
        let x = disk.last();
        assert(disk == init.push(x));
        if !disk_cells(r).contains(x.0) {
            assert(disk_cells(r.push(x)) == disk_cells(r).push(x.0));
        }
        assert forall|y: (u64, u32)| #[trigger] dedup_disk(disk).contains(y) implies disk.contains(y) by {
            if r.contains(y) {
                let j = choose|j: int| 0 <= j < init.len() && init[j] == y;
                assert(disk[j] == y);
            } else {
                assert(disk[disk.len() - 1] == y);
            }
        }
        assert forall|c: u64| #[trigger] disk_cells(disk).contains(c) implies disk_cells(dedup_disk(disk)).contains(c) by {
            let j = choose|j: int| 0 <= j < disk_cells(disk).len() && disk_cells(disk)[j] == c;
            if j < init.len() {
                assert(disk_cells(init)[j] == c);
                assert(disk_cells(init).contains(c));
                let l = choose|l: int| 0 <= l < disk_cells(r).len() && disk_cells(r)[l] == c;
                if !disk_cells(r).contains(x.0) {
                    assert(disk_cells(dedup_disk(disk))[l] == c);
                }
            } else {
                assert(c == x.0);
                if !disk_cells(r).contains(x.0) {
                    assert(disk_cells(dedup_disk(disk))[r.len() as int] == c);
                }
            }
        }
    }
}

/// The least grid distance of `disk` at which a cell is a node of `g`.
pub open spec fn nearest_node_distance<G: GetCellNode>(g: &G, disk: Seq<(u64, u32)>) -> Option<u32>
    decreases disk.len(),
{
    if disk.len() == 0 {
        None
    } else {
        let rest = nearest_node_distance(g, disk.drop_last());
        let (c, k) = disk.last();
        if g.cell_node_view(c) is Some {
            match rest {
                Some(r) => Some(if k < r { k } else { r }),
                None => Some(k),
            }
        } else {
            rest
        }
    }
}

/// The cells of `disk` that are nodes of `g` at the least such distance,
/// with their role and distance, in the order of `disk`.
pub open spec fn nearest_nodes<G: GetCellNode>(g: &G, disk: Seq<(u64, u32)>) -> Seq<(u64, NodeType, u32)> {
    disk.filter(|p: (u64, u32)| g.cell_node_view(p.0) is Some && nearest_node_distance(g, disk) == Some(p.1)).map_values(
        |p: (u64, u32)| (p.0, g.cell_node_view(p.0)->0, p.1),
    )
}

/// The least node distance is that of some node of `disk`, and no node of
/// `disk` is nearer; there is none exactly when `disk` holds no node.
proof fn lemma_nearest_node_distance<G: GetCellNode>(g: &G, disk: Seq<(u64, u32)>)
    ensures
        nearest_node_distance(g, disk) is None <==> forall|i: int| 0 <= i < disk.len() ==> g.cell_node_view(
            #[trigger] disk[i].0,
        ) is None,
        forall|i: int| 0 <= i < disk.len() && g.cell_node_view(#[trigger] disk[i].0) is Some
            ==> nearest_node_distance(g, disk)->0 <= disk[i].1,
    decreases disk.len(),
{
    if disk.len() > 0 {
        let init = disk.drop_last();
        lemma_nearest_node_distance(g, init);
        assert forall|i: int| 0 <= i < init.len() implies #[trigger] init[i] == disk[i] by {}
        if nearest_node_distance(g, disk) is None {
            assert forall|i: int| 0 <= i < disk.len() implies g.cell_node_view(#[trigger] disk[i].0) is None by {
                if i < init.len() {
                    assert(init[i] == disk[i]);
                }
            }
        }
        assert forall|i: int| 0 <= i < disk.len() && g.cell_node_view(#[trigger] disk[i].0) is Some
            implies nearest_node_distance(g, disk)->0 <= disk[i].1 by {
            if i < init.len() {
                assert(init[i] == disk[i]);
                assert(g.cell_node_view(init[i].0) is Some);
            }
        }
    }
}

/// When a disk holds the cell at distance zero and no other cell at that
/// distance, and the cell is a node, the nearest nodes of the disk are the
/// cell, at distance zero, with its role.
proof fn lemma_nearest_in_disk_is_cell<G: GetCellNode>(g: &G, cell: u64, disk: Seq<(u64, u32)>)
    requires
        disk.contains((cell, 0u32)),
        forall|i: int| 0 <= i < disk.len() && (#[trigger] disk[i]).1 == 0 ==> disk[i].0 == cell,
        g.cell_node_view(cell) is Some,
    ensures
        nearest_node_distance(g, disk) == Some(0u32),
        nearest_nodes(g, disk).len() > 0,
        forall|i: int| 0 <= i < nearest_nodes(g, disk).len() ==> #[trigger] nearest_nodes(g, disk)[i] == (
            cell,
            g.cell_node_view(cell)->0,
            0u32,
        ),
{
    lemma_nearest_node_distance(g, disk);
    let j = choose|j: int| 0 <= j < disk.len() && disk[j] == (cell, 0u32);
    assert(g.cell_node_view(disk[j].0) is Some);
    let pred = |p: (u64, u32)| g.cell_node_view(p.0) is Some && nearest_node_distance(g, disk) == Some(p.1);
    let f = disk.filter(pred);
    disk.lemma_filter_contains(pred, j);
    assert(f.contains(disk[j]));
    assert forall|i: int| 0 <= i < f.len() implies #[trigger] f[i] == (cell, 0u32) by {
        disk.lemma_filter_pred(pred, i);
        lemma_filter_from(disk, pred, i);
        let k = choose|k: int| 0 <= k < disk.len() && disk[k] == f[i];
        assert(disk[k].1 == 0);
    }
}


/// A graph node at the cell itself is what the search finds: when the disk
/// around the cell holds the cell at distance zero, no other cell at that
/// distance and the cell at no other distance (as the grid disk does), and
/// the cell is a node, the nearest nodes are the cell alone, at distance
/// zero, with its role.
pub proof fn lemma_nearest_finds_cell_itself<G: GetCellNode>(g: &G, cell: u64, disk: Seq<(u64, u32)>)
    requires
        disk.contains((cell, 0u32)),
        forall|i: int| 0 <= i < disk.len() ==> ((#[trigger] disk[i]).1 == 0 <==> disk[i].0 == cell),
        g.cell_node_view(cell) is Some,
    ensures
        nearest_node_distance(g, dedup_disk(disk)) == Some(0u32),
        nearest_nodes(g, dedup_disk(disk)).len() > 0,
        forall|i: int| 0 <= i < nearest_nodes(g, dedup_disk(disk)).len() ==> #[trigger] nearest_nodes(g, dedup_disk(disk))[i] == (
            cell,
            g.cell_node_view(cell)->0,
            0u32,
        ),
{
    let dd = dedup_disk(disk);
    lemma_dedup_disk(disk);
    let j = choose|j: int| 0 <= j < disk.len() && disk[j] == (cell, 0u32);
    assert(disk_cells(disk)[j] == cell);
    assert(disk_cells(disk).contains(cell));
    assert(disk_cells(dd).contains(cell));
    let l = choose|l: int| 0 <= l < disk_cells(dd).len() && disk_cells(dd)[l] == cell;
    assert(dd.contains(dd[l]));
    assert(disk.contains(dd[l]));
    let m = choose|m: int| 0 <= m < disk.len() && disk[m] == dd[l];
    assert(dd[l] == (cell, 0u32));
    assert forall|i: int| 0 <= i < dd.len() && (#[trigger] dd[i]).1 == 0 implies dd[i].0 == cell by {
        assert(dd.contains(dd[i]));
        let k = choose|k: int| 0 <= k < disk.len() && disk[k] == dd[i];
    }
    lemma_nearest_in_disk_is_cell(g, cell, dd);
}

/// The view of found nodes.
pub open spec fn found_nodes_view(v: Seq<(CellIndex, NodeType, u32)>) -> Seq<(u64, NodeType, u32)> {
    v.map_values(|t: (CellIndex, NodeType, u32)| (t.0@, t.1, t.2))
}

/// The nodes of `graph` nearest to the cell whose disk is `neighbors`: the
/// nodes at the smallest listed distance at which there is one, in the
/// order of the disk. Cells listed once give nodes listed once.
fn nearest_in_disk<G: GetCellNode>(graph: &G, neighbors: &Vec<(CellIndex, u32)>) -> (r: Vec<(CellIndex, NodeType, u32)>)
    ensures
        found_nodes_view(r@) == nearest_nodes(graph, neighbors@.map_values(|p: (CellIndex, u32)| (p.0@, p.1))),
        disk_cells(neighbors@.map_values(|p: (CellIndex, u32)| (p.0@, p.1))).no_duplicates() ==> found_cells(r@).no_duplicates(),
{
    let ghost disk = neighbors@.map_values(|p: (CellIndex, u32)| (p.0@, p.1));
    let n = neighbors.len();
    let mut nearest: Option<u32> = None;
    let mut roles: Vec<Option<NodeType>> = Vec::new();
    for i in 0..n
        invariant
            n == neighbors@.len(),
            disk == neighbors@.map_values(|p: (CellIndex, u32)| (p.0@, p.1)),
            nearest == nearest_node_distance(graph, disk.take(i as int)),
            roles@.len() == i,
            forall|j: int| 0 <= j < i ==> #[trigger] roles@[j] == graph.cell_node_view(disk[j].0),
    {
        let (neighbor_cell, neighbor_k) = neighbors[i];
        let role = graph.get_cell_node(neighbor_cell);
        assert(disk.take(i + 1).drop_last() == disk.take(i as int));
        assert(disk.take(i + 1).last() == (neighbor_cell@, neighbor_k));
        if role.is_some() {
            nearest = match nearest {
                Some(k) => Some(if neighbor_k < k { neighbor_k } else { k }),
                None => Some(neighbor_k),
            };
        }
        roles.push(role);
    }
    assert(disk.take(n as int) == disk);
    let ghost pred = |p: (u64, u32)| graph.cell_node_view(p.0) is Some && nearest_node_distance(graph, disk) == Some(p.1);
    let ghost to_found = |p: (u64, u32)| (p.0, graph.cell_node_view(p.0)->0, p.1);
    let mut found: Vec<(CellIndex, NodeType, u32)> = Vec::new();
    for i in 0..n
        invariant
            n == neighbors@.len(),
            disk == neighbors@.map_values(|p: (CellIndex, u32)| (p.0@, p.1)),
            nearest == nearest_node_distance(graph, disk),
            roles@.len() == n,
            forall|j: int| 0 <= j < n ==> #[trigger] roles@[j] == graph.cell_node_view(disk[j].0),
            pred == (|p: (u64, u32)| graph.cell_node_view(p.0) is Some && nearest_node_distance(graph, disk) == Some(p.1)),
            to_found == (|p: (u64, u32)| (p.0, graph.cell_node_view(p.0)->0, p.1)),
            found_nodes_view(found@) == disk.take(i as int).filter(pred).map_values(to_found),
            forall|j: int| 0 <= j < found@.len() ==> exists|l: int| 0 <= l < i && #[trigger] disk[l].0 == (#[trigger] found@[j]).0@,
            disk_cells(disk).no_duplicates() ==> found_cells(found@).no_duplicates(),
    {
        let (neighbor_cell, neighbor_k) = neighbors[i];
        assert(disk[i as int] == (neighbor_cell@, neighbor_k));
        assert(disk.take(i + 1) == disk.take(i as int).push(disk[i as int]));
        proof {
            disk.take(i as int).lemma_filter_push(disk[i as int], pred);
        }
        let ghost before = found@;
        match roles[i] {
            Some(role) => {
                match nearest {
                    Some(k) => {
                        if k == neighbor_k {
                            proof {
                                if disk_cells(disk).no_duplicates() {
                                    assert forall|j: int| 0 <= j < found@.len() implies found@[j].0@ != neighbor_cell@ by {
                                        let l = choose|l: int| 0 <= l < i && #[trigger] disk[l].0 == found@[j].0@;
                                        assert(disk_cells(disk)[l] == disk[l].0);
                                        assert(disk_cells(disk)[i as int] == disk[i as int].0);
                                    }
                                }
                            }
                            found.push((neighbor_cell, role, neighbor_k));
                            proof {
                                assert forall|j: int| 0 <= j < found@.len() implies exists|l: int| 0 <= l < i + 1 && #[trigger] disk[l].0 == (#[trigger] found@[j]).0@ by {
                                    if j < before.len() {
                                        assert(found@[j] == before[j]);
                                    } else {
                                        assert(disk[i as int].0 == found@[j].0@);
                                    }
                                }
                                if disk_cells(disk).no_duplicates() {
                                    assert forall|a: int, b: int| 0 <= a < found_cells(found@).len() && 0 <= b < found_cells(found@).len() && a != b
                                        implies found_cells(found@)[a] != found_cells(found@)[b] by {
                                        if a < before.len() && b < before.len() {
                                            assert(found_cells(before)[a] == found_cells(found@)[a]);
                                            assert(found_cells(before)[b] == found_cells(found@)[b]);
                                        }
                                    }
                                }
                            }
                            assert(found_nodes_view(found@) == found_nodes_view(before).push(to_found(disk[i as int])));
                            assert(disk.take(i as int).filter(pred).push(disk[i as int]).map_values(to_found)
                                == disk.take(i as int).filter(pred).map_values(to_found).push(to_found(disk[i as int])));
                        }
                    },
                    None => {},
                }
            },
            None => {},
        }
    }
    assert(disk.take(n as int) == disk);
    found
}

/// The nodes of `graph` nearest to `cell`, looking no further than
/// `max_distance_k` grid steps: all nodes at the smallest grid distance at
/// which there is one, each once, with their role and that distance.
pub fn nearest_graph_nodes<G: GetCellNode>(graph: &G, cell: CellIndex, max_distance_k: u32) -> (r: Result<
    Vec<(CellIndex, NodeType, u32)>,
    Error,
>)
    ensures
        r matches Ok(v) && found_nodes_view(v@) == nearest_nodes(graph, dedup_disk(h3_grid_disk_distances(cell@, max_distance_k)))
            && found_cells(v@).no_duplicates(),
{
    let neighbors = cell.grid_disk_distances(max_distance_k);
    let deduped = dedup_neighbors(&neighbors);
    proof {
        lemma_dedup_disk(neighbors@.map_values(|p: (CellIndex, u32)| (p.0@, p.1)));
    }
    Ok(nearest_in_disk(graph, &deduped))
}

/// Each cell of `neighbors` at its first listed distance, in their order.
fn dedup_neighbors(neighbors: &Vec<(CellIndex, u32)>) -> (r: Vec<(CellIndex, u32)>)
    ensures
        r@.map_values(|p: (CellIndex, u32)| (p.0@, p.1)) == dedup_disk(neighbors@.map_values(|p: (CellIndex, u32)| (p.0@, p.1))),
{
    let ghost disk = neighbors@.map_values(|p: (CellIndex, u32)| (p.0@, p.1));
    let mut seen: H3Treemap<CellIndex> = H3Treemap::new();
    let mut out: Vec<(CellIndex, u32)> = Vec::new();
    let n = neighbors.len();
    for i in 0..n
        invariant
            n == neighbors@.len(),
            disk == neighbors@.map_values(|p: (CellIndex, u32)| (p.0@, p.1)),
            out@.map_values(|p: (CellIndex, u32)| (p.0@, p.1)) == dedup_disk(disk.take(i as int)),
            seen@ == disk_cells(dedup_disk(disk.take(i as int))).to_set(),
    {
        let (c, k) = neighbors[i];
        let ghost prev = disk.take(i as int);
        let ghost next = disk.take(i + 1);
        assert(next.drop_last() == prev);
        assert(next.last() == (c@, k));
        let ghost before = out@;
        if !seen.contains(&c) {
            seen.insert(c);
            out.push((c, k));
            assert(out@.map_values(|p: (CellIndex, u32)| (p.0@, p.1)) == before.map_values(|p: (CellIndex, u32)| (p.0@, p.1)).push((c@, k)));
            assert(disk_cells(dedup_disk(next)) == disk_cells(dedup_disk(prev)).push(c@));
            assert(disk_cells(dedup_disk(next)).to_set() =~= disk_cells(dedup_disk(prev)).to_set().insert(c@)) by {
                disk_cells(dedup_disk(prev)).lemma_push_to_set_commute(c@);
            }
        }
    }
    assert(disk.take(n as int) == disk);
    out
}

} // verus!
