//! Changing the resolution of cells.
use vstd::prelude::*;
use crate::h3::{CellIndex, MAX_RESOLUTION, cells_view, h3_children, h3_parent, h3_resolution};

verus! {

/// The cells standing for `cell` at resolution `resolution`: the cell itself
/// at its own resolution, its children at a finer resolution, its parent at
/// a coarser one.
pub open spec fn transform_cell(cell: u64, resolution: u8) -> Seq<u64> {
    if h3_resolution(cell) == resolution {
        seq![cell]
    } else if h3_resolution(cell) < resolution {
        h3_children(cell, resolution)
    } else {
        match h3_parent(cell, resolution) {
            Some(p) => seq![p],
            None => Seq::empty(),
        }
    }
}

/// The cells standing for `cells` at resolution `resolution`, cell by cell.
pub open spec fn transform_cells(cells: Seq<u64>, resolution: u8) -> Seq<u64>
    decreases cells.len(),
{
    if cells.len() == 0 {
        Seq::empty()
    } else {
        transform_cells(cells.drop_last(), resolution) + transform_cell(cells.last(), resolution)
    }
}

/// A cell stands for some cell of `cells` exactly when it stands for one of them.
pub proof fn lemma_transform_cells_contains(cells: Seq<u64>, resolution: u8, x: u64)
    ensures
        transform_cells(cells, resolution).contains(x) <==> exists|i: int| 0 <= i < cells.len()
            && #[trigger] transform_cell(cells[i], resolution).contains(x),
    decreases cells.len(),
{
    if cells.len() > 0 {
        let init = cells.drop_last();
        lemma_transform_cells_contains(init, resolution, x);
        let a = transform_cells(init, resolution);
        let b = transform_cell(cells.last(), resolution);
        assert(transform_cells(cells, resolution) == a + b);
        if (a + b).contains(x) {
            let k = choose|k: int| 0 <= k < (a + b).len() && (a + b)[k] == x;
            if k < a.len() {
                assert(a[k] == x);
                let i = choose|i: int| 0 <= i < init.len() && #[trigger] transform_cell(init[i], resolution).contains(x);
                assert(cells[i] == init[i]);
            } else {
                assert(b[k - a.len()] == x);
                assert(cells[cells.len() - 1] == cells.last());
                assert(transform_cell(cells[cells.len() - 1], resolution).contains(x));
            }
        }
        if exists|i: int| 0 <= i < cells.len() && #[trigger] transform_cell(cells[i], resolution).contains(x) {
            let i = choose|i: int| 0 <= i < cells.len() && #[trigger] transform_cell(cells[i], resolution).contains(x);
            if i < init.len() {
                assert(init[i] == cells[i]);
                let k = choose|k: int| 0 <= k < a.len() && a[k] == x;
                assert((a + b)[k] == x);
            } else {
                let k = choose|k: int| 0 <= k < b.len() && b[k] == x;
                assert((a + b)[a.len() + k] == x);
            }
        }
    }
}

/// Cells that all have the target resolution are left as they are.
pub proof fn lemma_transform_same_resolution(cells: Seq<u64>, resolution: u8)
    requires
        forall|i: int| 0 <= i < cells.len() ==> h3_resolution(#[trigger] cells[i]) == resolution,
    ensures
        transform_cells(cells, resolution) == cells,
    decreases cells.len(),
{
    if cells.len() > 0 {
        let init = cells.drop_last();
        assert forall|i: int| 0 <= i < init.len() implies h3_resolution(#[trigger] init[i]) == resolution by {
            assert(init[i] == cells[i]);
        }
        lemma_transform_same_resolution(init, resolution);
        assert(h3_resolution(cells[cells.len() - 1]) == resolution);
        assert(transform_cell(cells.last(), resolution) == seq![cells.last()]);
        assert(init.push(cells.last()) =~= cells);
    }
}

/// Changes the resolution of the given cells to `output_h3_resolution`:
/// coarser cells are replaced by their children, finer cells by their parent.
pub fn transform_resolution(cells: &Vec<CellIndex>, output_h3_resolution: u8) -> (r: Vec<CellIndex>)
    requires
        output_h3_resolution <= MAX_RESOLUTION,
    ensures
        cells_view(r@) == transform_cells(cells_view(cells@), output_h3_resolution),
        forall|i: int| 0 <= i < r@.len() ==> h3_resolution(#[trigger] r@[i]@) == output_h3_resolution,
{
    let mut out: Vec<CellIndex> = Vec::new();
    let n = cells.len();
    for i in 0..n
        invariant
            n == cells@.len(),
            output_h3_resolution <= MAX_RESOLUTION,
            cells_view(out@) == transform_cells(cells_view(cells@).take(i as int), output_h3_resolution),
            forall|j: int| 0 <= j < out@.len() ==> h3_resolution(#[trigger] out@[j]@) == output_h3_resolution,
    {
        let cell = cells[i];
        let cell_r = cell.resolution();
        let ghost before = out@;
        assert(cells_view(cells@).take(i + 1).drop_last() == cells_view(cells@).take(i as int));
        if cell_r == output_h3_resolution {
            out.push(cell);
            assert(cells_view(out@) == cells_view(before) + seq![cell@]);
        } else if cell_r < output_h3_resolution {
            let mut children = cell.children(output_h3_resolution);
            let ghost ch = children@;
            out.append(&mut children);
            assert(out@ == before + ch);
            assert(cells_view(out@) == cells_view(before) + cells_view(ch));
            assert forall|j: int| 0 <= j < out@.len() implies h3_resolution(#[trigger] out@[j]@) == output_h3_resolution by {
                if j >= before.len() {
                    assert(out@[j] == ch[j - before.len()]);
                }
            }
        } else {
            match cell.parent(output_h3_resolution) {
                Some(p) => {
                    out.push(p);
                    assert(cells_view(out@) == cells_view(before) + seq![p@]);
                },
                None => {
                    assert(cells_view(out@) == cells_view(before) + Seq::<u64>::empty());
                },
            }
        }
    }
    assert(cells_view(cells@).take(n as int) == cells_view(cells@));
    out
}

} // verus!
