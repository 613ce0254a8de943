//! H3 cell and directed edge indexes.
//!
//! The library holds H3 indexes as their `u64` values inside the types
//! [`CellIndex`] and [`DirectedEdgeIndex`], whose invariant is that the value
//! is a valid index of that kind. Everything that depends on the H3 grid
//! geometry is computed by `h3o` behind the trusted functions of this module.
use vstd::prelude::*;

verus! {

/// Whether `v` is a valid H3 cell index (what `h3o::CellIndex::try_from` accepts).
pub uninterp spec fn h3_is_cell(v: u64) -> bool;

/// Whether `v` is a valid H3 directed edge index (what `h3o::DirectedEdgeIndex::try_from` accepts).
pub uninterp spec fn h3_is_edge(v: u64) -> bool;

/// The origin cell of a directed edge (`h3o::DirectedEdgeIndex::origin`).
pub uninterp spec fn h3_edge_origin(e: u64) -> u64;

/// The destination cell of a directed edge (`h3o::DirectedEdgeIndex::destination`).
pub uninterp spec fn h3_edge_destination(e: u64) -> u64;

/// The directed edge between two cells, if they are neighbors (`h3o::CellIndex::edge`).
pub uninterp spec fn h3_edge_between(origin: u64, destination: u64) -> Option<u64>;

/// The resolution of a cell (`h3o::CellIndex::resolution`): the four bits
/// of the index starting at bit 52.
pub open spec fn h3_resolution(cell: u64) -> u8 {
    ((cell & 0xf0_0000_0000_0000u64) >> 52u64) as u8
}

/// The parent of a cell at a resolution (`h3o::CellIndex::parent`).
pub uninterp spec fn h3_parent(cell: u64, resolution: u8) -> Option<u64>;

/// The children of a cell at a resolution, in `h3o`'s order (`h3o::CellIndex::children`).
pub uninterp spec fn h3_children(cell: u64, resolution: u8) -> Seq<u64>;

/// The outgoing directed edges of a cell, in `h3o`'s order (`h3o::CellIndex::edges`).
pub uninterp spec fn h3_cell_edges(cell: u64) -> Seq<u64>;

/// The cells within grid distance `k` of a cell together with their distance,
/// in `h3o`'s order (`h3o::CellIndex::grid_disk_distances`).
pub uninterp spec fn h3_grid_disk_distances(cell: u64, k: u32) -> Seq<(u64, u32)>;

/// The highest H3 resolution.
pub const MAX_RESOLUTION: u8 = 15;

/// A valid H3 cell index.
#[derive(Clone, Copy, PartialEq, Eq, Structural, Debug, Hash)]
pub struct CellIndex {
    index: u64,
}

/// A valid H3 directed edge index.
#[derive(Clone, Copy, PartialEq, Eq, Structural, Debug, Hash)]
pub struct DirectedEdgeIndex {
    index: u64,
}

impl View for CellIndex {
    type V = u64;

    open spec fn view(&self) -> u64 {
        self.spec_index()
    }
}

impl View for DirectedEdgeIndex {
    type V = u64;

    open spec fn view(&self) -> u64 {
        self.spec_index()
    }
}

/// The `u64` values of a sequence of cells.
pub open spec fn cells_view(cells: Seq<CellIndex>) -> Seq<u64> {
    cells.map_values(|c: CellIndex| c@)
}

/// The `u64` values of a sequence of directed edges.
pub open spec fn edges_view(edges: Seq<DirectedEdgeIndex>) -> Seq<u64> {
    edges.map_values(|e: DirectedEdgeIndex| e@)
}

/// The `u64` value of an optional cell.
pub open spec fn opt_cell_view(c: Option<CellIndex>) -> Option<u64> {
    match c {
        Some(c) => Some(c@),
        None => None,
    }
}

/// The `u64` value of an optional directed edge.
pub open spec fn opt_edge_view(e: Option<DirectedEdgeIndex>) -> Option<u64> {
    match e {
        Some(e) => Some(e@),
        None => None,
    }
}

/// The reverse of a directed edge, if the destination and origin are neighbors.
pub open spec fn h3_edge_reverse(e: u64) -> Option<u64> {
    h3_edge_between(h3_edge_destination(e), h3_edge_origin(e))
}

impl CellIndex {
    pub closed spec fn spec_index(&self) -> u64 {
        self.index
    }

    /// The index is a valid H3 index of this kind.
    #[verifier::type_invariant]
    pub open spec fn inv(&self) -> bool {
        h3_is_cell(self@)
    }

    /// Builds a cell from an index known to be valid.
    pub(crate) fn from_valid(index: u64) -> (c: CellIndex)
        requires
            h3_is_cell(index),
        ensures
            c@ == index,
    {
        CellIndex { index }
    }

    /// The cell with the given index, or `None` when `index` is not a valid cell index.
    pub fn try_from_u64(index: u64) -> (r: Option<CellIndex>)
        ensures
            r is Some <==> h3_is_cell(index),
            r matches Some(c) ==> c@ == index,
    {
        if check_cell_index(index) {
            Some(CellIndex { index })
        } else {
            None
        }
    }

    /// The cell's `u64` index.
    pub fn to_u64(&self) -> (v: u64)
        ensures
            v == self@,
    {
        self.index
    }

    /// The cell's resolution.
    pub fn resolution(&self) -> (r: u8)
        ensures
            r == h3_resolution(self@),
            r <= MAX_RESOLUTION,
    {
        cell_resolution(*self)
    }
}

impl DirectedEdgeIndex {
    pub closed spec fn spec_index(&self) -> u64 {
        self.index
    }

    /// The index is a valid H3 index of this kind.
    #[verifier::type_invariant]
    pub open spec fn inv(&self) -> bool {
        h3_is_edge(self@)
    }

    /// Builds an edge from an index known to be valid.
    pub(crate) fn from_valid(index: u64) -> (e: DirectedEdgeIndex)
        requires
            h3_is_edge(index),
        ensures
            e@ == index,
    {
        DirectedEdgeIndex { index }
    }

    /// The edge with the given index, or `None` when `index` is not a valid directed edge index.
    pub fn try_from_u64(index: u64) -> (r: Option<DirectedEdgeIndex>)
        ensures
            r is Some <==> h3_is_edge(index),
            r matches Some(e) ==> e@ == index,
    {
        if check_directed_edge_index(index) {
            Some(DirectedEdgeIndex { index })
        } else {
            None
        }
    }

    /// The edge's `u64` index.
    pub fn to_u64(&self) -> (v: u64)
        ensures
            v == self@,
    {
        self.index
    }

    /// The origin cell of the edge.
    pub fn origin(&self) -> (c: CellIndex)
        ensures
            c@ == h3_edge_origin(self@),
    {
        edge_origin(*self)
    }

    /// The destination cell of the edge.
    pub fn destination(&self) -> (c: CellIndex)
        ensures
            c@ == h3_edge_destination(self@),
            c@ != h3_edge_origin(self@),
    {
        edge_destination(*self)
    }

    /// The `(origin, destination)` cells of the edge.
    pub fn cells(&self) -> (r: (CellIndex, CellIndex))
        ensures
            r.0@ == h3_edge_origin(self@),
            r.1@ == h3_edge_destination(self@),
            r.0@ != r.1@,
    {
        (edge_origin(*self), edge_destination(*self))
    }
}

/// Checks an index with `h3o::CellIndex::try_from`.
///
/// Claims that the result is `true` exactly when `h3o` accepts `v` as a cell index.
#[verifier::external_body]
fn check_cell_index(v: u64) -> (b: bool)
    ensures
        b == h3_is_cell(v),
{
    h3o::CellIndex::try_from(v).is_ok()
}

/// Checks an index with `h3o::DirectedEdgeIndex::try_from`.
///
/// Claims that the result is `true` exactly when `h3o` accepts `v` as a directed edge index.
#[verifier::external_body]
fn check_directed_edge_index(v: u64) -> (b: bool)
    ensures
        b == h3_is_edge(v),
{
    h3o::DirectedEdgeIndex::try_from(v).is_ok()
}

/// Calls `h3o::DirectedEdgeIndex::origin`.
///
/// Claims that the result is the named origin of `e`; the result is a valid
/// cell as it comes out of `h3o` as a `CellIndex`.
#[verifier::external_body]
fn edge_origin(e: DirectedEdgeIndex) -> (c: CellIndex)
    ensures
        c@ == h3_edge_origin(e@),
{
    let edge = h3o::DirectedEdgeIndex::try_from(e.index).expect("valid directed edge index");
    CellIndex { index: u64::from(edge.origin()) }
}

/// Calls `h3o::DirectedEdgeIndex::destination`.
///
/// Claims that the result is the named destination of `e`, and that it is
/// not the origin of `e`: `h3o` takes the neighbor of the origin in the
/// edge's direction, one of the six directions away from the cell itself.
/// The result is a valid cell as it comes out of `h3o` as a `CellIndex`.
#[verifier::external_body]
fn edge_destination(e: DirectedEdgeIndex) -> (c: CellIndex)
    ensures
        c@ == h3_edge_destination(e@),
        c@ != h3_edge_origin(e@),
{
    let edge = h3o::DirectedEdgeIndex::try_from(e.index).expect("valid directed edge index");
    CellIndex { index: u64::from(edge.destination()) }
}

/// Calls `h3o::CellIndex::edge`.
///
/// Claims that the result is the named edge between the cells, and, as the
/// documentation describes it as the edge between `origin` and `destination`,
/// that a returned edge has these two cells as origin and destination.
#[verifier::external_body]
fn cell_edge(origin: CellIndex, destination: CellIndex) -> (r: Option<DirectedEdgeIndex>)
    ensures
        opt_edge_view(r) == h3_edge_between(origin@, destination@),
        r matches Some(e) ==> h3_edge_origin(e@) == origin@ && h3_edge_destination(e@)
            == destination@,
{
    let o = h3o::CellIndex::try_from(origin.index).expect("valid cell index");
    let d = h3o::CellIndex::try_from(destination.index).expect("valid cell index");
    o.edge(d).map(|edge| DirectedEdgeIndex { index: u64::from(edge) })
}

/// Calls `h3o::CellIndex::resolution`.
///
/// Claims what the source shows: the result is the four bits of the index
/// starting at bit 52, which are at most 15.
#[verifier::external_body]
fn cell_resolution(c: CellIndex) -> (r: u8)
    ensures
        r == h3_resolution(c@),
        r <= MAX_RESOLUTION,
{
    let cell = h3o::CellIndex::try_from(c.index).expect("valid cell index");
    u8::from(cell.resolution())
}

/// Calls `h3o::CellIndex::parent`.
///
/// Claims that the result is the named parent; following the source, that
/// there is a parent exactly when `resolution` is not finer than the cell's
/// resolution, and that the parent has resolution `resolution`.
#[verifier::external_body]
fn cell_parent(c: CellIndex, resolution: u8) -> (r: Option<CellIndex>)
    requires
        resolution <= MAX_RESOLUTION,
    ensures
        opt_cell_view(r) == h3_parent(c@, resolution),
        r is Some <==> resolution <= h3_resolution(c@),
        r matches Some(p) ==> h3_resolution(p@) == resolution,
{
    let cell = h3o::CellIndex::try_from(c.index).expect("valid cell index");
    let res = h3o::Resolution::try_from(resolution).expect("valid resolution");
    cell.parent(res).map(|p| CellIndex { index: u64::from(p) })
}

/// Calls `h3o::CellIndex::children` and collects the iterator.
///
/// Claims that the result is the named sequence of children, that every child
/// has resolution `resolution`, and that there are none when `resolution` is
/// coarser than the cell's resolution (the source counts zero children then).
#[verifier::external_body]
fn cell_children(c: CellIndex, resolution: u8) -> (r: Vec<CellIndex>)
    requires
        resolution <= MAX_RESOLUTION,
    ensures
        cells_view(r@) == h3_children(c@, resolution),
        forall|i: int| 0 <= i < r@.len() ==> h3_resolution(#[trigger] r@[i]@) == resolution,
        resolution < h3_resolution(c@) ==> r@.len() == 0,
{
    let cell = h3o::CellIndex::try_from(c.index).expect("valid cell index");
    let res = h3o::Resolution::try_from(resolution).expect("valid resolution");
    cell.children(res).map(|ch| CellIndex { index: u64::from(ch) }).collect()
}

/// Calls `h3o::CellIndex::edges` and collects the iterator.
///
/// Claims that the result is the named sequence of outgoing edges, each of
/// which has `c` as its origin.
#[verifier::external_body]
fn cell_edges(c: CellIndex) -> (r: Vec<DirectedEdgeIndex>)
    ensures
        edges_view(r@) == h3_cell_edges(c@),
        forall|i: int| 0 <= i < r@.len() ==> h3_edge_origin(#[trigger] r@[i]@) == c@,
{
    let cell = h3o::CellIndex::try_from(c.index).expect("valid cell index");
    cell.edges().map(|e| DirectedEdgeIndex { index: u64::from(e) }).collect()
}

/// Calls `h3o::CellIndex::grid_disk_distances`.
///
/// Claims that the result is the named sequence of cells and distances,
/// that no distance exceeds `k`, and that the ring of distance zero is the
/// cell itself (as the documentation defines the 0-ring): it occurs with
/// distance zero, no other cell has distance zero, and the cell has no
/// other distance.
#[verifier::external_body]
fn cell_grid_disk_distances(c: CellIndex, k: u32) -> (r: Vec<(CellIndex, u32)>)
    ensures
        r@.map_values(|p: (CellIndex, u32)| (p.0@, p.1)) == h3_grid_disk_distances(c@, k),
        forall|i: int| 0 <= i < r@.len() ==> (#[trigger] r@[i]).1 <= k,
        exists|i: int| 0 <= i < r@.len() && #[trigger] r@[i] == (c, 0u32),
        forall|i: int| 0 <= i < r@.len() ==> ((#[trigger] r@[i]).1 == 0 <==> r@[i].0 == c),
{
    let cell = h3o::CellIndex::try_from(c.index).expect("valid cell index");
    let disk: Vec<(h3o::CellIndex, u32)> = cell.grid_disk_distances(k);
    disk.into_iter().map(|(d, dist)| (CellIndex { index: u64::from(d) }, dist)).collect()
}

impl CellIndex {
    /// The directed edge from this cell to `destination`, or `None` when the
    /// cells are not neighbors.
    pub fn edge(&self, destination: CellIndex) -> (r: Option<DirectedEdgeIndex>)
        ensures
            opt_edge_view(r) == h3_edge_between(self@, destination@),
            r matches Some(e) ==> h3_edge_origin(e@) == self@ && h3_edge_destination(e@)
                == destination@,
    {
        cell_edge(*self, destination)
    }

    /// The parent of this cell at `resolution`, or `None` when `resolution` is
    /// finer than the cell's resolution.
    pub fn parent(&self, resolution: u8) -> (r: Option<CellIndex>)
        requires
            resolution <= MAX_RESOLUTION,
        ensures
            opt_cell_view(r) == h3_parent(self@, resolution),
            r is Some <==> resolution <= h3_resolution(self@),
            r matches Some(p) ==> h3_resolution(p@) == resolution,
    {
        cell_parent(*self, resolution)
    }

    /// The children of this cell at `resolution`.
    pub fn children(&self, resolution: u8) -> (r: Vec<CellIndex>)
        requires
            resolution <= MAX_RESOLUTION,
        ensures
            cells_view(r@) == h3_children(self@, resolution),
            forall|i: int| 0 <= i < r@.len() ==> h3_resolution(#[trigger] r@[i]@) == resolution,
            resolution < h3_resolution(self@) ==> r@.len() == 0,
    {
        cell_children(*self, resolution)
    }

    /// All directed edges leaving this cell.
    pub fn edges(&self) -> (r: Vec<DirectedEdgeIndex>)
        ensures
            edges_view(r@) == h3_cell_edges(self@),
            forall|i: int| 0 <= i < r@.len() ==> h3_edge_origin(#[trigger] r@[i]@) == self@,
    {
        cell_edges(*self)
    }

    /// The cells within grid distance `k` together with their distance.
    pub fn grid_disk_distances(&self, k: u32) -> (r: Vec<(CellIndex, u32)>)
        ensures
            r@.map_values(|p: (CellIndex, u32)| (p.0@, p.1)) == h3_grid_disk_distances(self@, k),
            forall|i: int| 0 <= i < r@.len() ==> (#[trigger] r@[i]).1 <= k,
            exists|i: int| 0 <= i < r@.len() && #[trigger] r@[i] == (*self, 0u32),
            forall|i: int| 0 <= i < r@.len() ==> ((#[trigger] r@[i]).1 == 0 <==> r@[i].0 == *self),
    {
        cell_grid_disk_distances(*self, k)
    }
}

/// A hexadecimal digit in lower case.
pub open spec fn hex_digit(d: nat) -> char {
    if d < 10 {
        (('0' as u32) + d) as char
    } else {
        (('a' as u32) + (d - 10)) as char
    }
}

/// The lower-case hexadecimal representation of `n`, without leading zeros.
pub open spec fn lower_hex(n: nat) -> Seq<char>
    decreases n,
{
    if n < 16 {
        seq![hex_digit(n)]
    } else {
        lower_hex(n / 16).push(hex_digit(n % 16))
    }
}

/// Formats a cell with `h3o`'s `Display` for `CellIndex`.
///
/// Claims that the text is the index in lower-case hexadecimal, which the
/// source writes with `{:x}` of the index's integer.
#[verifier::external_body]
fn cell_to_string(c: CellIndex) -> (r: String)
    ensures
        r@ == lower_hex(c@ as nat),
{
    let cell = h3o::CellIndex::try_from(c.index).expect("valid cell index");
    cell.to_string()
}

impl CellIndex {
    /// The cell's index in lower-case hexadecimal.
    pub fn to_string(&self) -> (r: String)
        ensures
            r@ == lower_hex(self@ as nat),
    {
        cell_to_string(*self)
    }
}

/// Behaviour shared by H3 cell and directed edge indexes.
pub trait H3Index: Copy + Sized {
    /// Whether `v` is a valid index of this kind.
    spec fn valid_index(v: u64) -> bool;

    /// The index's `u64` value.
    spec fn index_value(&self) -> u64;

    /// The index's `u64` value.
    fn index_u64(&self) -> (v: u64)
        ensures
            v == self.index_value(),
            Self::valid_index(v),
    ;

    /// Builds an index from a value known to be valid.
    fn from_valid_u64(v: u64) -> (r: Self)
        requires
            Self::valid_index(v),
        ensures
            r.index_value() == v,
    ;
}

impl H3Index for CellIndex {
    open spec fn valid_index(v: u64) -> bool {
        h3_is_cell(v)
    }

    open spec fn index_value(&self) -> u64 {
        self@
    }

    fn index_u64(&self) -> (v: u64) {
        proof {
            use_type_invariant(self);
        }
        self.index
    }

    fn from_valid_u64(v: u64) -> (r: Self) {
        CellIndex { index: v }
    }
}

impl H3Index for DirectedEdgeIndex {
    open spec fn valid_index(v: u64) -> bool {
        h3_is_edge(v)
    }

    open spec fn index_value(&self) -> u64 {
        self@
    }

    fn index_u64(&self) -> (v: u64) {
        proof {
            use_type_invariant(self);
        }
        self.index
    }

    fn from_valid_u64(v: u64) -> (r: Self) {
        DirectedEdgeIndex { index: v }
    }
}

/// The `u64` values of a sequence of indexes.
pub open spec fn index_values<T: H3Index>(s: Seq<T>) -> Seq<u64> {
    s.map_values(|t: T| t.index_value())
}

/// A sequence of values in strictly increasing order.
pub open spec fn strictly_increasing(s: Seq<u64>) -> bool {
    forall|i: int, j: int| 0 <= i < j < s.len() ==> s[i] < s[j]
}

/// `s` without the elements equal to their predecessor.
pub open spec fn dedup_consecutive(s: Seq<u64>) -> Seq<u64>
    decreases s.len(),
{
    if s.len() <= 1 {
        s
    } else {
        let prefix = dedup_consecutive(s.drop_last());
        if s.last() == s[s.len() - 2] {
            prefix
        } else {
            prefix.push(s.last())
        }
    }
}

/// Removes consecutive repeated indexes, keeping the first of each run.
pub fn dedup<T: H3Index>(values: &Vec<T>) -> (r: Vec<T>)
    ensures
        index_values(r@) == dedup_consecutive(index_values(values@)),
{
    let mut r: Vec<T> = Vec::new();
    let n = values.len();
    let mut last: u64 = 0;
    for i in 0..n
        invariant
            n == values@.len(),
            index_values(r@) == dedup_consecutive(index_values(values@).take(i as int)),
            i > 0 ==> last == index_values(values@)[i - 1],
    {
        let v = values[i].index_u64();
        let ghost s = index_values(values@).take(i + 1);
        assert(s.drop_last() == index_values(values@).take(i as int));
        let ghost before = r@;
        if i == 0 || v != last {
            r.push(values[i]);
            assert(index_values(r@) == index_values(before).push(v));
        }
        last = v;
    }
    assert(index_values(values@).take(n as int) == index_values(values@));
    r
}

/// The indexes of `values` in increasing order of their `u64` value, each once.
pub fn sorted_dedup<T: H3Index>(values: &Vec<T>) -> (r: Vec<T>)
    ensures
        strictly_increasing(index_values(r@)),
        forall|x: u64| index_values(r@).contains(x) <==> index_values(values@).contains(x),
        forall|i: int| 0 <= i < r@.len() ==> values@.contains(#[trigger] r@[i]),
{
    let mut r: Vec<T> = Vec::new();
    let n = values.len();
    for k in 0..n
        invariant
            n == values@.len(),
            strictly_increasing(index_values(r@)),
            forall|x: u64| index_values(r@).contains(x) <==> index_values(values@.take(k as int)).contains(x),
            forall|i: int| 0 <= i < r@.len() ==> values@.contains(#[trigger] r@[i]),
    {
        let v = values[k];
        let vi = v.index_u64();
        let mut i: usize = 0;
        while i < r.len() && r[i].index_u64() < vi
            invariant
                i <= r@.len(),
                forall|j: int| 0 <= j < i ==> index_values(r@)[j] < vi,
            decreases r@.len() - i,
        {
            i += 1;
        }
        let ghost old_r = r@;
        assert(values@.take(k + 1) == values@.take(k as int).push(v));
        assert(index_values(values@.take(k + 1)) == index_values(values@.take(k as int)).push(vi));
        if i < r.len() && r[i].index_u64() == vi {
            assert(index_values(r@)[i as int] == vi);
            assert forall|x: u64| index_values(r@).contains(x) <==> index_values(values@.take(k + 1)).contains(x) by {
                if x == vi {
                    assert(index_values(r@)[i as int] == x);
                }
                if index_values(values@.take(k as int)).contains(x) {
                    let j = choose|j: int| 0 <= j < index_values(values@.take(k as int)).len() && #[trigger] index_values(values@.take(k as int))[j] == x;
                    assert(index_values(values@.take(k + 1))[j] == x);
                }
                if index_values(values@.take(k + 1)).contains(x) && x != vi {
                    let j = choose|j: int| 0 <= j < index_values(values@.take(k + 1)).len() && #[trigger] index_values(values@.take(k + 1))[j] == x;
                    assert(index_values(values@.take(k as int))[j] == x);
                }
            }
        } else {
            r.insert(i, v);
            assert(index_values(r@) == index_values(old_r).insert(i as int, vi));
            assert forall|a: int, b: int| 0 <= a < b < index_values(r@).len() implies index_values(r@)[a] < index_values(r@)[b] by {
                if b < i {
                } else if b == i {
                } else if a < i {
                    assert(index_values(r@)[b] == index_values(old_r)[b - 1]);
                    if a < i && i < old_r.len() {
                        assert(index_values(old_r)[i as int] >= vi);
                    }
                } else if a == i {
                    assert(index_values(r@)[b] == index_values(old_r)[b - 1]);
                    assert(index_values(old_r)[i as int] >= vi);
                    assert(index_values(old_r)[i as int] != vi);
                } else {
                    assert(index_values(r@)[a] == index_values(old_r)[a - 1]);
                    assert(index_values(r@)[b] == index_values(old_r)[b - 1]);
                }
            }
            assert forall|x: u64| index_values(r@).contains(x) <==> index_values(values@.take(k + 1)).contains(x) by {
                if x == vi {
                    assert(index_values(r@)[i as int] == x);
                    assert(index_values(values@.take(k + 1))[k as int] == x);
                }
                if index_values(old_r).contains(x) {
                    let j = choose|j: int| 0 <= j < index_values(old_r).len() && #[trigger] index_values(old_r)[j] == x;
                    if j < i {
                        assert(index_values(r@)[j] == x);
                    } else {
                        assert(index_values(r@)[j + 1] == x);
                    }
                }
                if index_values(r@).contains(x) && x != vi {
                    let j = choose|j: int| 0 <= j < index_values(r@).len() && #[trigger] index_values(r@)[j] == x;
                    if j < i {
                        assert(index_values(old_r)[j] == x);
                    } else {
                        assert(index_values(old_r)[j - 1] == x);
                    }
                }
                if index_values(values@.take(k as int)).contains(x) {
                    let j = choose|j: int| 0 <= j < index_values(values@.take(k as int)).len() && #[trigger] index_values(values@.take(k as int))[j] == x;
                    assert(index_values(values@.take(k + 1))[j] == x);
                }
                if index_values(values@.take(k + 1)).contains(x) && x != vi {
                    let j = choose|j: int| 0 <= j < index_values(values@.take(k + 1)).len() && #[trigger] index_values(values@.take(k + 1))[j] == x;
                    assert(index_values(values@.take(k as int))[j] == x);
                }
            }
            assert forall|a: int| 0 <= a < r@.len() implies values@.contains(#[trigger] r@[a]) by {
                if a < i {
                    assert(r@[a] == old_r[a]);
                } else if a == i {
                    assert(values@[k as int] == r@[a]);
                } else {
                    assert(r@[a] == old_r[a - 1]);
                }
            }
        }
    }
    assert(values@.take(n as int) == values@);
    r
}

} // verus!
