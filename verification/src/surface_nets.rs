//! Naive surface nets over a sampled distance field.
//!
//! A sample is the bits of the signed distance at a grid point, or `None`
//! where the field is unknown. Cells that touch an unknown point produce no
//! geometry, which keeps phantom surfaces out of unobserved space.

use crate::grid::{self, voxel_index, Point};
use crate::ieee::{self, is_below_zero};
use vstd::prelude::*;

verus! {

/// The sample at a grid point.
pub open spec fn sample(dims: [usize; 3], s: Seq<Option<u32>>, p: Point) -> Option<u32> {
    s[grid::linear(dims, p)]
}

/// Is the field known at the point?
pub open spec fn known(dims: [usize; 3], s: Seq<Option<u32>>, p: Point) -> bool {
    sample(dims, s, p) is Some
}

/// Does the point lie on the inner side, where the distance is below zero?
pub open spec fn inside(dims: [usize; 3], s: Seq<Option<u32>>, p: Point) -> bool {
    sample(dims, s, p) matches Some(v) && ieee::below_zero(v)
}

/// Corner `c` of the cell whose lowest corner is `p`: bit `i` of `c` steps
/// along axis `i`.
pub open spec fn corner(p: Point, c: int) -> Point {
    (p.0 + c % 2, p.1 + (c / 2) % 2, p.2 + c / 4)
}

/// The two corners of edge `e` of a cell: four edges along x, four along y,
/// four along z.
pub open spec fn edge_corners(e: int) -> (int, int) {
    if e < 4 {
        (2 * e, 2 * e + 1)
    } else if e < 8 {
        (((e - 4) / 2) * 4 + e % 2, ((e - 4) / 2) * 4 + e % 2 + 2)
    } else {
        (e - 8, e - 4)
    }
}

/// Does the surface cross edge `e` of the cell at `p`?
pub open spec fn crosses(dims: [usize; 3], s: Seq<Option<u32>>, p: Point, e: int) -> bool {
    inside(dims, s, corner(p, edge_corners(e).0)) != inside(dims, s, corner(p, edge_corners(e).1))
}

/// Does the cell carry a vertex: all corners known, and an edge crossed?
pub open spec fn active(dims: [usize; 3], s: Seq<Option<u32>>, p: Point) -> bool {
    &&& forall|c: int| 0 <= c < 8 ==> known(dims, s, #[trigger] corner(p, c))
    &&& exists|e: int| 0 <= e < 12 && #[trigger] crosses(dims, s, p, e)
}

/// The sizes of the grid of cells, one less than those of the grid of points.
pub open spec fn cells_along(dims: [usize; 3], axis: int) -> int {
    dims@[axis] - 1
}

/// Is there a cell whose lowest corner is `p`?
pub open spec fn is_cell(dims: [usize; 3], p: Point) -> bool {
    &&& 0 <= p.0 < cells_along(dims, 0)
    &&& 0 <= p.1 < cells_along(dims, 1)
    &&& 0 <= p.2 < cells_along(dims, 2)
}

/// The cell, once, where it carries a vertex.
pub open spec fn cell_entry(dims: [usize; 3], s: Seq<Option<u32>>, p: Point) -> Seq<Point> {
    if active(dims, s, p) {
        seq![p]
    } else {
        Seq::empty()
    }
}

/// The cells with a vertex among the first `x` of row `y` of layer `z`.
pub open spec fn row_cells(dims: [usize; 3], s: Seq<Option<u32>>, x: int, y: int, z: int) -> Seq<
    Point,
>
    decreases x,
{
    if x <= 0 {
        Seq::empty()
    } else {
        row_cells(dims, s, x - 1, y, z) + cell_entry(dims, s, (x - 1, y, z))
    }
}

/// The cells with a vertex in the first `y` rows of layer `z`.
pub open spec fn layer_cells(dims: [usize; 3], s: Seq<Option<u32>>, y: int, z: int) -> Seq<Point>
    decreases y,
{
    if y <= 0 {
        Seq::empty()
    } else {
        layer_cells(dims, s, y - 1, z) + row_cells(dims, s, cells_along(dims, 0), y - 1, z)
    }
}

/// The cells with a vertex in the first `z` layers.
pub open spec fn first_cells(dims: [usize; 3], s: Seq<Option<u32>>, z: int) -> Seq<Point>
    decreases z,
{
    if z <= 0 {
        Seq::empty()
    } else {
        first_cells(dims, s, z - 1) + layer_cells(dims, s, cells_along(dims, 1), z - 1)
    }
}

/// The cells with a vertex that come before the cell `p`.
pub open spec fn cells_before(dims: [usize; 3], s: Seq<Option<u32>>, p: Point) -> Seq<Point> {
    first_cells(dims, s, p.2) + layer_cells(dims, s, p.1, p.2) + row_cells(dims, s, p.0, p.1, p.2)
}

/// The number of the vertex of a cell.
pub open spec fn vertex_id(dims: [usize; 3], s: Seq<Option<u32>>, p: Point) -> int {
    cells_before(dims, s, p).len() as int
}

/// All cells that carry a vertex, in the order of their vertices.
pub open spec fn net_cells(dims: [usize; 3], s: Seq<Option<u32>>) -> Seq<Point> {
    first_cells(dims, s, cells_along(dims, 2))
}

/// The other end of the grid edge that leaves `p` along `axis`.
pub open spec fn far_end(p: Point, axis: int) -> Point {
    if axis == 0 {
        (p.0 + 1, p.1, p.2)
    } else if axis == 1 {
        (p.0, p.1 + 1, p.2)
    } else {
        (p.0, p.1, p.2 + 1)
    }
}

/// The four cells around the grid edge that leaves `p` along `axis`, in turn.
pub open spec fn cells_around(p: Point, axis: int) -> (Point, Point, Point, Point) {
    let (x, y, z) = p;
    if axis == 0 {
        ((x, y, z), (x, y - 1, z), (x, y - 1, z - 1), (x, y, z - 1))
    } else if axis == 1 {
        ((x, y, z), (x, y, z - 1), (x - 1, y, z - 1), (x - 1, y, z))
    } else {
        ((x, y, z), (x - 1, y, z), (x - 1, y - 1, z), (x, y - 1, z))
    }
}

/// Do four cells share the grid edge that leaves the cell corner `p` along
/// `axis`: does it lie on no lower face of the grid?
pub open spec fn is_shared(p: Point, axis: int) -> bool {
    &&& axis == 0 || p.0 >= 1
    &&& axis == 1 || p.1 >= 1
    &&& axis == 2 || p.2 >= 1
}

/// Does the grid edge get a quad: both ends known, the surface between them,
/// and a vertex in each of the four cells that share it?
pub open spec fn has_quad(dims: [usize; 3], s: Seq<Option<u32>>, p: Point, axis: int) -> bool {
    let q = cells_around(p, axis);
    &&& is_shared(p, axis)
    &&& known(dims, s, p)
    &&& known(dims, s, far_end(p, axis))
    &&& inside(dims, s, p) != inside(dims, s, far_end(p, axis))
    &&& active(dims, s, q.0)
    &&& active(dims, s, q.1)
    &&& active(dims, s, q.2)
    &&& active(dims, s, q.3)
}

/// The two triangles of a quad, wound so that they face out of the inside.
pub open spec fn quad_triangles(a: int, b: int, c: int, e: int, from_inside: bool) -> Seq<int> {
    if from_inside {
        seq![a, b, c, a, c, e]
    } else {
        seq![a, c, b, a, e, c]
    }
}

/// The triangles of one grid edge.
#[verifier::opaque]
pub open spec fn edge_triangles(
    dims: [usize; 3],
    s: Seq<Option<u32>>,
    p: Point,
    axis: int,
) -> Seq<int> {
    if has_quad(dims, s, p, axis) {
        let q = cells_around(p, axis);
        quad_triangles(
            vertex_id(dims, s, q.0),
            vertex_id(dims, s, q.1),
            vertex_id(dims, s, q.2),
            vertex_id(dims, s, q.3),
            inside(dims, s, p),
        )
    } else {
        Seq::empty()
    }
}

/// The triangles of the three grid edges that leave `p` upward.
pub open spec fn point_triangles(dims: [usize; 3], s: Seq<Option<u32>>, p: Point) -> Seq<int> {
    edge_triangles(dims, s, p, 0) + edge_triangles(dims, s, p, 1) + edge_triangles(dims, s, p, 2)
}

/// The triangles of the first `x` points of row `y` of layer `z`.
pub open spec fn row_triangles(
    dims: [usize; 3],
    s: Seq<Option<u32>>,
    x: int,
    y: int,
    z: int,
) -> Seq<int>
    decreases x,
{
    if x <= 0 {
        Seq::empty()
    } else {
        row_triangles(dims, s, x - 1, y, z) + point_triangles(dims, s, (x - 1, y, z))
    }
}

/// The triangles of the first `y` rows of layer `z`.
pub open spec fn layer_triangles(dims: [usize; 3], s: Seq<Option<u32>>, y: int, z: int) -> Seq<int>
    decreases y,
{
    if y <= 0 {
        Seq::empty()
    } else {
        layer_triangles(dims, s, y - 1, z) + row_triangles(
            dims,
            s,
            cells_along(dims, 0),
            y - 1,
            z,
        )
    }
}

/// The triangles of the first `z` layers.
pub open spec fn first_triangles(dims: [usize; 3], s: Seq<Option<u32>>, z: int) -> Seq<int>
    decreases z,
{
    if z <= 0 {
        Seq::empty()
    } else {
        first_triangles(dims, s, z - 1) + layer_triangles(dims, s, cells_along(dims, 1), z - 1)
    }
}

/// All triangles of the net, three vertex numbers each.
pub open spec fn net_triangles(dims: [usize; 3], s: Seq<Option<u32>>) -> Seq<int> {
    first_triangles(dims, s, cells_along(dims, 2))
}

/// Vertex numbers as mathematical integers.
pub open spec fn ids(v: Seq<u32>) -> Seq<int> {
    v.map_values(|i: u32| i as int)
}

/// A vertex of the net: the cell that it stands for, by its lowest corner,
/// and the bits of the distances at the eight corners.
#[derive(Debug, Clone, Copy)]
pub struct NetVertex {
    pub cell: (usize, usize, usize),
    pub values: [u32; 8],
}

/// Does the surface cross edge `e`, judged by the corner values?
pub open spec fn value_crosses(values: [u32; 8], e: int) -> bool {
    ieee::below_zero(values@[edge_corners(e).0]) != ieee::below_zero(values@[edge_corners(e).1])
}

/// The crossed edges among the first `n`, each by its corners.
pub open spec fn crossed_edges(values: [u32; 8], n: int) -> Seq<(int, int)>
    decreases n,
{
    if n <= 0 {
        Seq::empty()
    } else if value_crosses(values, n - 1) {
        crossed_edges(values, n - 1).push(edge_corners(n - 1))
    } else {
        crossed_edges(values, n - 1)
    }
}

fn edge_ends(e: usize) -> (ends: (usize, usize))
    requires
        e < 12,
    ensures
        ends.0 == edge_corners(e as int).0,
        ends.1 == edge_corners(e as int).1,
        ends.0 < 8,
        ends.1 < 8,
{
    if e < 4 {
        (2 * e, 2 * e + 1)
    } else if e < 8 {
        let low: usize = ((e - 4) / 2) * 4 + e % 2;
        (low, low + 2)
    } else {
        (e - 8, e - 4)
    }
}

impl NetVertex {
    /// The edges of the cell that the surface crosses, each by the numbers of
    /// its two corners. The vertex sits at the mean of the crossings.
    pub fn crossings(&self) -> (edges: Vec<(usize, usize)>)
        ensures
            edges@.map_values(|e: (usize, usize)| (e.0 as int, e.1 as int)) == crossed_edges(
                self.values,
                12,
            ),
    {
        let ghost pair = |e: (usize, usize)| (e.0 as int, e.1 as int);
        let mut edges: Vec<(usize, usize)> = Vec::new();
        assert(edges@.map_values(pair) =~= Seq::empty());
        for e in 0..12usize
            invariant
                pair == (|e: (usize, usize)| (e.0 as int, e.1 as int)),
                edges@.map_values(pair) == crossed_edges(self.values, e as int),
        {
            let ends = edge_ends(e);
            let ghost before = edges@;
            if is_below_zero(self.values[ends.0]) != is_below_zero(self.values[ends.1]) {
                edges.push(ends);
                assert(edges@.map_values(pair) =~= before.map_values(pair).push(pair(ends)));
            }
        }
        edges
    }
}

/// What a vertex of the net holds.
pub open spec fn vertex_holds(
    dims: [usize; 3],
    s: Seq<Option<u32>>,
    v: NetVertex,
    p: Point,
) -> bool {
    &&& (v.cell.0 as int, v.cell.1 as int, v.cell.2 as int) == p
    &&& forall|c: int|
        #![trigger v.values@[c]]
        0 <= c < 8 ==> sample(dims, s, corner(p, c)) == Some(v.values@[c])
}

/// A corner of a cell is a point of the grid.
proof fn corner_in_grid(dims: [usize; 3], p: Point, c: int)
    requires
        is_cell(dims, p),
        0 <= c < 8,
    ensures
        grid::in_grid(dims, corner(p, c)),
{
}

/// The values at the corners of a cell, where all are known.
fn corner_values(
    dims: &[usize; 3],
    samples: &Vec<Option<u32>>,
    x: usize,
    y: usize,
    z: usize,
) -> (values: Option<[u32; 8]>)
    requires
        is_cell(*dims, (x as int, y as int, z as int)),
        samples@.len() == grid::volume(*dims),
    ensures
        match values {
            Some(v) => forall|c: int|
                #![trigger v@[c]]
                0 <= c < 8 ==> sample(
                    *dims,
                    samples@,
                    corner((x as int, y as int, z as int), c),
                ) == Some(v@[c]),
            None => exists|c: int|
                0 <= c < 8 && !known(
                    *dims,
                    samples@,
                    #[trigger] corner((x as int, y as int, z as int), c),
                ),
        },
{
    let ghost p = (x as int, y as int, z as int);
    let n: usize = samples.len();
    let mut values: [u32; 8] = [0;8];
    for c in 0..8usize
        invariant
            n == samples@.len(),
            p == (x as int, y as int, z as int),
            is_cell(*dims, p),
            samples@.len() == grid::volume(*dims),
            forall|k: int|
                #![trigger values@[k]]
                0 <= k < c ==> sample(*dims, samples@, corner(p, k)) == Some(values@[k]),
    {
        proof {
            corner_in_grid(*dims, p, c as int);
            grid::linear_in_volume(*dims, corner(p, c as int));
        }
        match samples[voxel_index(dims, x + c % 2, y + (c / 2) % 2, z + c / 4)] {
            Some(v) => {
                values[c] = v;
            },
            None => {
                assert(!known(*dims, samples@, corner(p, c as int)));
                return None;
            },
        }
    }
    Some(values)
}

/// Does the surface cross any edge?
fn any_crossing(values: &[u32; 8]) -> (found: bool)
    ensures
        found <==> exists|e: int| 0 <= e < 12 && #[trigger] value_crosses(*values, e),
{
    for e in 0..12usize
        invariant
            forall|k: int| 0 <= k < e ==> !#[trigger] value_crosses(*values, k),
    {
        let ends = edge_ends(e);
        if is_below_zero(values[ends.0]) != is_below_zero(values[ends.1]) {
            assert(value_crosses(*values, e as int));
            return true;
        }
    }
    false
}

/// A vertex with known corners is active exactly where its values cross.
proof fn active_by_values(dims: [usize; 3], s: Seq<Option<u32>>, p: Point, values: [u32; 8])
    requires
        forall|c: int|
            #![trigger values@[c]]
            0 <= c < 8 ==> sample(dims, s, corner(p, c)) == Some(values@[c]),
    ensures
        active(dims, s, p) <==> exists|e: int|
            0 <= e < 12 && #[trigger] value_crosses(values, e),
{
    assert forall|e: int| 0 <= e < 12 implies #[trigger] value_crosses(values, e) == crosses(
        dims,
        s,
        p,
        e,
    ) by {
        let (a, b) = edge_corners(e);
        assert(sample(dims, s, corner(p, a)) == Some(values@[a]));
        assert(sample(dims, s, corner(p, b)) == Some(values@[b]));
    }
    assert forall|c: int| 0 <= c < 8 implies known(dims, s, #[trigger] corner(p, c)) by {
        assert(sample(dims, s, corner(p, c)) == Some(values@[c]));
    }
    if exists|e: int| 0 <= e < 12 && #[trigger] value_crosses(values, e) {
        let e = choose|e: int| 0 <= e < 12 && #[trigger] value_crosses(values, e);
        assert(crosses(dims, s, p, e));
    }
    if active(dims, s, p) {
        let e = choose|e: int| 0 <= e < 12 && #[trigger] crosses(dims, s, p, e);
        assert(value_crosses(values, e));
    }
}

/// No more vertices than cells.
proof fn row_cells_bound(dims: [usize; 3], s: Seq<Option<u32>>, x: int, y: int, z: int)
    requires
        0 <= x,
    ensures
        row_cells(dims, s, x, y, z).len() <= x,
    decreases x,
{
    if x > 0 {
        row_cells_bound(dims, s, x - 1, y, z);
    }
}

proof fn layer_cells_bound(dims: [usize; 3], s: Seq<Option<u32>>, y: int, z: int)
    requires
        0 <= y,
        0 <= cells_along(dims, 0),
    ensures
        layer_cells(dims, s, y, z).len() <= y * cells_along(dims, 0),
    decreases y,
{
    let cx = cells_along(dims, 0);
    if y > 0 {
        layer_cells_bound(dims, s, y - 1, z);
        row_cells_bound(dims, s, cx, y - 1, z);
        assert(y * cx == (y - 1) * cx + cx) by (nonlinear_arith);
    } else {
        assert(0 * cx == 0);
    }
}

proof fn first_cells_bound(dims: [usize; 3], s: Seq<Option<u32>>, z: int)
    requires
        0 <= z,
        0 <= cells_along(dims, 0),
        0 <= cells_along(dims, 1),
    ensures
        first_cells(dims, s, z).len() <= z * cells_along(dims, 1) * cells_along(dims, 0),
    decreases z,
{
    let cx = cells_along(dims, 0);
    let cy = cells_along(dims, 1);
    if z > 0 {
        first_cells_bound(dims, s, z - 1);
        layer_cells_bound(dims, s, cy, z - 1);
        assert(z * cy * cx == (z - 1) * cy * cx + cy * cx) by (nonlinear_arith);
    } else {
        assert(0 * cy * cx == 0) by (nonlinear_arith);
    }
}

/// The number of a vertex is below the number of points of the grid.
pub proof fn vertex_id_bound(dims: [usize; 3], s: Seq<Option<u32>>, p: Point)
    requires
        is_cell(dims, p),
    ensures
        0 <= vertex_id(dims, s, p) < grid::volume(dims) - 1,
{
    let (cx, cy, cz) = (cells_along(dims, 0), cells_along(dims, 1), cells_along(dims, 2));
    first_cells_bound(dims, s, p.2);
    layer_cells_bound(dims, s, p.1, p.2);
    row_cells_bound(dims, s, p.0, p.1, p.2);
    let n = p.2 * cy * cx + p.1 * cx + p.0;
    assert(n < cx * cy * cz) by (nonlinear_arith)
        requires
            n == p.2 * cy * cx + p.1 * cx + p.0,
            0 <= p.0 < cx,
            0 <= p.1 < cy,
            0 <= p.2 < cz,
    ;
    assert(cx * cy * cz < (cx + 1) * (cy + 1) * (cz + 1) - 1) by (nonlinear_arith)
        requires
            cx >= 1,
            cy >= 1,
            cz >= 1,
    ;
}

/// Was the cell `p` visited before the scan reached `q`?
spec fn visited(p: Point, q: Point) -> bool {
    p.2 < q.2 || (p.2 == q.2 && (p.1 < q.1 || (p.1 == q.1 && p.0 < q.0)))
}

/// The entry of a cell in the table of vertex numbers: `u32::MAX` stands for
/// no vertex.
spec fn table_entry(dims: [usize; 3], s: Seq<Option<u32>>, p: Point) -> int {
    if active(dims, s, p) {
        vertex_id(dims, s, p)
    } else {
        u32::MAX as int
    }
}

/// The table up to where the scan stands.
spec fn table_holds(
    dims: [usize; 3],
    cell_dims: [usize; 3],
    s: Seq<Option<u32>>,
    table: Seq<u32>,
    q: Point,
) -> bool {
    &&& table.len() == grid::volume(cell_dims)
    &&& forall|p: Point|
        is_cell(dims, p) ==> #[trigger] table[grid::linear(cell_dims, p)] == if visited(p, q) {
            table_entry(dims, s, p)
        } else {
            u32::MAX as int
        }
}

/// The vertices up to where the scan stands.
spec fn vertices_hold(
    dims: [usize; 3],
    s: Seq<Option<u32>>,
    vertices: Seq<NetVertex>,
    cells: Seq<Point>,
) -> bool {
    &&& vertices.len() == cells.len()
    &&& forall|k: int|
        0 <= k < cells.len() ==> vertex_holds(dims, s, #[trigger] vertices[k], cells[k])
}

/// The vertices of the net, and the table of vertex numbers by cell.
#[verifier::spinoff_prover]
fn place_vertices(
    dims: &[usize; 3],
    cell_dims: &[usize; 3],
    samples: &Vec<Option<u32>>,
) -> (r: (Vec<NetVertex>, Vec<u32>))
    requires
        forall|a: int| 0 <= a < 3 ==> #[trigger] dims@[a] >= 2 && cell_dims@[a] == dims@[a] - 1,
        samples@.len() == grid::volume(*dims),
        samples@.len() <= u32::MAX,
        grid::volume(*cell_dims) <= samples@.len(),
    ensures
        vertices_hold(*dims, samples@, r.0@, net_cells(*dims, samples@)),
        table_holds(*dims, *cell_dims, samples@, r.1@, (0, 0, dims@[2] - 1)),
{
    let (cx, cy, cz) = (cell_dims[0], cell_dims[1], cell_dims[2]);
    let ghost s = samples@;
    proof {
        let (a, b) = (cx * cy, cz as int);
        assert(a <= a * b) by (nonlinear_arith)
            requires
                a >= 0,
                b >= 1,
        ;
        assert forall|p: Point| is_cell(*dims, p) implies 0 <= #[trigger] grid::linear(
            *cell_dims,
            p,
        ) < grid::volume(*cell_dims) by {
            grid::linear_in_volume(*cell_dims, p);
        }
    }
    let mut table: Vec<u32> = vec![u32::MAX; cx * cy * cz];
    let mut vertices: Vec<NetVertex> = Vec::new();
    for z in 0..cz
        invariant
            forall|a: int|
                0 <= a < 3 ==> #[trigger] dims@[a] >= 2 && cell_dims@[a] == dims@[a] - 1,
            cx == cell_dims@[0],
            cy == cell_dims@[1],
            cz == cell_dims@[2],
            s == samples@,
            s.len() == grid::volume(*dims),
            s.len() <= u32::MAX,
            grid::volume(*cell_dims) <= s.len(),
            vertices_hold(*dims, s, vertices@, first_cells(*dims, s, z as int)),
            table_holds(*dims, *cell_dims, s, table@, (0, 0, z as int)),
    {
        proof {
            assert(layer_cells(*dims, s, 0, z as int) =~= Seq::empty());
            assert(first_cells(*dims, s, z as int) + Seq::empty() =~= first_cells(
                *dims,
                s,
                z as int,
            ));
        }
        for y in 0..cy
            invariant
                forall|a: int|
                    0 <= a < 3 ==> #[trigger] dims@[a] >= 2 && cell_dims@[a] == dims@[a] - 1,
                cx == cell_dims@[0],
                cy == cell_dims@[1],
                cz == cell_dims@[2],
                z < cz,
                s == samples@,
                s.len() == grid::volume(*dims),
                s.len() <= u32::MAX,
                grid::volume(*cell_dims) <= s.len(),
                vertices_hold(
                    *dims,
                    s,
                    vertices@,
                    first_cells(*dims, s, z as int) + layer_cells(*dims, s, y as int, z as int),
                ),
                table_holds(*dims, *cell_dims, s, table@, (0, y as int, z as int)),
        {
            let ghost base = first_cells(*dims, s, z as int) + layer_cells(
                *dims,
                s,
                y as int,
                z as int,
            );
            proof {
                assert(row_cells(*dims, s, 0, y as int, z as int) =~= Seq::empty());
                assert(base + Seq::empty() =~= base);
            }
            for x in 0..cx
                invariant
                    forall|a: int|
                        0 <= a < 3 ==> #[trigger] dims@[a] >= 2 && cell_dims@[a] == dims@[a] - 1,
                    cx == cell_dims@[0],
                    cy == cell_dims@[1],
                    cz == cell_dims@[2],
                    z < cz,
                    y < cy,
                    s == samples@,
                    s.len() == grid::volume(*dims),
                    s.len() <= u32::MAX,
                    grid::volume(*cell_dims) <= s.len(),
                    base == first_cells(*dims, s, z as int) + layer_cells(
                        *dims,
                        s,
                        y as int,
                        z as int,
                    ),
                    vertices_hold(
                        *dims,
                        s,
                        vertices@,
                        base + row_cells(*dims, s, x as int, y as int, z as int),
                    ),
                    table_holds(*dims, *cell_dims, s, table@, (x as int, y as int, z as int)),
            {
                let ghost p = (x as int, y as int, z as int);
                let ghost cells = base + row_cells(*dims, s, x as int, y as int, z as int);
                let ghost vertices0 = vertices@;
                let ghost table0 = table@;
                proof {
                    assert(cells == cells_before(*dims, s, p));
                    vertex_id_bound(*dims, s, p);
                    assert(grid::in_grid(*cell_dims, p));
                    grid::linear_in_volume(*cell_dims, p);
                    assert(base + row_cells(*dims, s, x + 1, y as int, z as int) =~= cells
                        + cell_entry(*dims, s, p));
                    assert(cells + Seq::empty() =~= cells);
                }
                if let Some(values) = corner_values(dims, samples, x, y, z) {
                    proof {
                        active_by_values(*dims, s, p, values);
                    }
                    if any_crossing(&values) {
                        let i = voxel_index(cell_dims, x, y, z);
                        table.set(i, vertices.len() as u32);
                        vertices.push(NetVertex { cell: (x, y, z), values });
                        proof {
                            assert forall|k: int| 0 <= k < cells.push(p).len() implies vertex_holds(
                                *dims,
                                s,
                                #[trigger] vertices@[k],
                                (cells + cell_entry(*dims, s, p))[k],
                            ) by {
                                if k < cells.len() {
                                    assert(vertices@[k] == vertices0[k]);
                                }
                            }
                        }
                    }
                } else {
                    assert(!active(*dims, s, p));
                }
                proof {
                    assert forall|q: Point| is_cell(*dims, q) implies #[trigger] table@[grid::linear(
                        *cell_dims,
                        q,
                    )] == if visited(q, (x + 1, y as int, z as int)) {
                        table_entry(*dims, s, q)
                    } else {
                        u32::MAX as int
                    } by {
                        assert(grid::in_grid(*cell_dims, q));
                        grid::linear_in_volume(*cell_dims, q);
                        if q != p {
                            if grid::linear(*cell_dims, q) == grid::linear(*cell_dims, p) {
                                grid::linear_is_injective(*cell_dims, p, q);
                            }
                            assert(table@[grid::linear(*cell_dims, q)] == table0[grid::linear(
                                *cell_dims,
                                q,
                            )]);
                        }
                    }
                }
            }
            proof {
                assert(base + row_cells(*dims, s, cx as int, y as int, z as int) =~= first_cells(
                    *dims,
                    s,
                    z as int,
                ) + layer_cells(*dims, s, y + 1, z as int));
                assert(table_holds(*dims, *cell_dims, s, table@, (0, y + 1, z as int))) by {
                    assert forall|q: Point| is_cell(*dims, q) implies #[trigger] table@[grid::linear(
                        *cell_dims,
                        q,
                    )] == if visited(q, (0, y + 1, z as int)) {
                        table_entry(*dims, s, q)
                    } else {
                        u32::MAX as int
                    } by {
                        assert(visited(q, (0, y + 1, z as int)) == visited(
                            q,
                            (cx as int, y as int, z as int),
                        ));
                    }
                }
            }
        }
        proof {
            assert(first_cells(*dims, s, z as int) + layer_cells(*dims, s, cy as int, z as int)
                =~= first_cells(*dims, s, z + 1));
            assert(table_holds(*dims, *cell_dims, s, table@, (0, 0, z + 1))) by {
                assert forall|q: Point| is_cell(*dims, q) implies #[trigger] table@[grid::linear(
                    *cell_dims,
                    q,
                )] == if visited(q, (0, 0, z + 1)) {
                    table_entry(*dims, s, q)
                } else {
                    u32::MAX as int
                } by {
                    assert(visited(q, (0, 0, z + 1)) == visited(q, (0, cy as int, z as int)));
                }
            }
        }
    }
    (vertices, table)
}

/// Reads the vertex number of a cell from the table.
fn table_at(
    dims: &[usize; 3],
    cell_dims: &[usize; 3],
    samples: &Vec<Option<u32>>,
    table: &Vec<u32>,
    x: usize,
    y: usize,
    z: usize,
) -> (id: u32)
    requires
        forall|a: int| 0 <= a < 3 ==> #[trigger] dims@[a] >= 2 && cell_dims@[a] == dims@[a] - 1,
        is_cell(*dims, (x as int, y as int, z as int)),
        samples@.len() == grid::volume(*dims),
        samples@.len() <= u32::MAX,
        table_holds(*dims, *cell_dims, samples@, table@, (0, 0, dims@[2] - 1)),
    ensures
        id == table_entry(*dims, samples@, (x as int, y as int, z as int)),
        id == u32::MAX <==> !active(*dims, samples@, (x as int, y as int, z as int)),
{
    let ghost p = (x as int, y as int, z as int);
    let n: usize = table.len();
    proof {
        assert(grid::in_grid(*cell_dims, p));
        grid::linear_in_volume(*cell_dims, p);
        vertex_id_bound(*dims, samples@, p);
        assert(table@[grid::linear(*cell_dims, p)] == table_entry(*dims, samples@, p));
    }
    table[voxel_index(cell_dims, x, y, z)]
}

/// Reads the sample at a point.
fn sample_at(
    dims: &[usize; 3],
    samples: &Vec<Option<u32>>,
    x: usize,
    y: usize,
    z: usize,
) -> (v: Option<u32>)
    requires
        grid::in_grid(*dims, (x as int, y as int, z as int)),
        samples@.len() == grid::volume(*dims),
    ensures
        v == sample(*dims, samples@, (x as int, y as int, z as int)),
{
    let n: usize = samples.len();
    proof {
        grid::linear_in_volume(*dims, (x as int, y as int, z as int));
    }
    samples[voxel_index(dims, x, y, z)]
}

/// Adds the two triangles of a quad.
fn push_quad(indices: &mut Vec<u32>, a: u32, b: u32, c: u32, e: u32, from_inside: bool)
    ensures
        ids(final(indices)@) == ids(old(indices)@) + quad_triangles(
            a as int,
            b as int,
            c as int,
            e as int,
            from_inside,
        ),
{
    let ghost before = indices@;
    if from_inside {
        indices.push(a);
        indices.push(b);
        indices.push(c);
        indices.push(a);
        indices.push(c);
        indices.push(e);
    } else {
        indices.push(a);
        indices.push(c);
        indices.push(b);
        indices.push(a);
        indices.push(e);
        indices.push(c);
    }
    assert(ids(indices@) =~= ids(before) + quad_triangles(
        a as int,
        b as int,
        c as int,
        e as int,
        from_inside,
    ));
}

/// Adds the triangles of one grid edge.
fn connect_edge(
    dims: &[usize; 3],
    cell_dims: &[usize; 3],
    samples: &Vec<Option<u32>>,
    table: &Vec<u32>,
    at: (usize, usize, usize),
    axis: usize,
    indices: &mut Vec<u32>,
)
    requires
        forall|a: int| 0 <= a < 3 ==> #[trigger] dims@[a] >= 2 && cell_dims@[a] == dims@[a] - 1,
        samples@.len() == grid::volume(*dims),
        samples@.len() <= u32::MAX,
        table_holds(*dims, *cell_dims, samples@, table@, (0, 0, dims@[2] - 1)),
        at.0 < dims@[0] - 1,
        at.1 < dims@[1] - 1,
        at.2 < dims@[2] - 1,
        axis < 3,
    ensures
        ids(final(indices)@) == ids(old(indices)@) + edge_triangles(
            *dims,
            samples@,
            (at.0 as int, at.1 as int, at.2 as int),
            axis as int,
        ),
{
    reveal(edge_triangles);
    let ghost s = samples@;
    let (x, y, z) = at;
    let ghost p = (x as int, y as int, z as int);
    assert(ids(indices@) + Seq::empty() =~= ids(indices@));
    if (axis != 0 && x == 0) || (axis != 1 && y == 0) || (axis != 2 && z == 0) {
        return ;
    }
    let v0: u32 = match sample_at(dims, samples, x, y, z) {
        Some(v) => v,
        None => return ,
    };
    let far = if axis == 0 {
        sample_at(dims, samples, x + 1, y, z)
    } else if axis == 1 {
        sample_at(dims, samples, x, y + 1, z)
    } else {
        sample_at(dims, samples, x, y, z + 1)
    };
    assert(far == sample(*dims, s, far_end(p, axis as int)));
    let v1: u32 = match far {
        Some(v) => v,
        None => return ,
    };
    let inner = is_below_zero(v0);
    if is_below_zero(v1) == inner {
        return ;
    }
    let a: u32 = table_at(dims, cell_dims, samples, table, x, y, z);
    let (b, c, e): (u32, u32, u32) = if axis == 0 {
        (
            table_at(dims, cell_dims, samples, table, x, y - 1, z),
            table_at(dims, cell_dims, samples, table, x, y - 1, z - 1),
            table_at(dims, cell_dims, samples, table, x, y, z - 1),
        )
    } else if axis == 1 {
        (
            table_at(dims, cell_dims, samples, table, x, y, z - 1),
            table_at(dims, cell_dims, samples, table, x - 1, y, z - 1),
            table_at(dims, cell_dims, samples, table, x - 1, y, z),
        )
    } else {
        (
            table_at(dims, cell_dims, samples, table, x - 1, y, z),
            table_at(dims, cell_dims, samples, table, x - 1, y - 1, z),
            table_at(dims, cell_dims, samples, table, x, y - 1, z),
        )
    };
    if a == u32::MAX || b == u32::MAX || c == u32::MAX || e == u32::MAX {
        return ;
    }
    push_quad(indices, a, b, c, e, inner);
}

/// Adds the triangles of the three grid edges that leave a point upward.
fn connect_point(
    dims: &[usize; 3],
    cell_dims: &[usize; 3],
    samples: &Vec<Option<u32>>,
    table: &Vec<u32>,
    at: (usize, usize, usize),
    indices: &mut Vec<u32>,
)
    requires
        forall|a: int| 0 <= a < 3 ==> #[trigger] dims@[a] >= 2 && cell_dims@[a] == dims@[a] - 1,
        samples@.len() == grid::volume(*dims),
        samples@.len() <= u32::MAX,
        table_holds(*dims, *cell_dims, samples@, table@, (0, 0, dims@[2] - 1)),
        at.0 < dims@[0] - 1,
        at.1 < dims@[1] - 1,
        at.2 < dims@[2] - 1,
    ensures
        ids(final(indices)@) == ids(old(indices)@) + point_triangles(
            *dims,
            samples@,
            (at.0 as int, at.1 as int, at.2 as int),
        ),
{
    let ghost p = (at.0 as int, at.1 as int, at.2 as int);
    let ghost now = ids(indices@);
    connect_edge(dims, cell_dims, samples, table, at, 0, indices);
    connect_edge(dims, cell_dims, samples, table, at, 1, indices);
    connect_edge(dims, cell_dims, samples, table, at, 2, indices);
    proof {
        let (a, b, c) = (
            edge_triangles(*dims, samples@, p, 0),
            edge_triangles(*dims, samples@, p, 1),
            edge_triangles(*dims, samples@, p, 2),
        );
        assert(now + a + b + c =~= now + (a + b + c));
    }
}

/// Adds the triangles of a row of points.
fn connect_row(
    dims: &[usize; 3],
    cell_dims: &[usize; 3],
    samples: &Vec<Option<u32>>,
    table: &Vec<u32>,
    y: usize,
    z: usize,
    indices: &mut Vec<u32>,
)
    requires
        forall|a: int| 0 <= a < 3 ==> #[trigger] dims@[a] >= 2 && cell_dims@[a] == dims@[a] - 1,
        samples@.len() == grid::volume(*dims),
        samples@.len() <= u32::MAX,
        table_holds(*dims, *cell_dims, samples@, table@, (0, 0, dims@[2] - 1)),
        y < dims@[1] - 1,
        z < dims@[2] - 1,
    ensures
        ids(final(indices)@) == ids(old(indices)@) + row_triangles(
            *dims,
            samples@,
            dims@[0] - 1,
            y as int,
            z as int,
        ),
{
    let ghost s = samples@;
    let ghost start = ids(indices@);
    let n: usize = cell_dims[0];
    assert(start + row_triangles(*dims, s, 0, y as int, z as int) =~= start);
    for x in 0..n
        invariant
            forall|a: int|
                0 <= a < 3 ==> #[trigger] dims@[a] >= 2 && cell_dims@[a] == dims@[a] - 1,
            n == cell_dims@[0],
            s == samples@,
            s.len() == grid::volume(*dims),
            s.len() <= u32::MAX,
            table_holds(*dims, *cell_dims, s, table@, (0, 0, dims@[2] - 1)),
            y < dims@[1] - 1,
            z < dims@[2] - 1,
            ids(indices@) == start + row_triangles(*dims, s, x as int, y as int, z as int),
    {
        connect_point(dims, cell_dims, samples, table, (x, y, z), indices);
        proof {
            let row = row_triangles(*dims, s, x as int, y as int, z as int);
            let more = point_triangles(*dims, s, (x as int, y as int, z as int));
            assert((start + row) + more =~= start + (row + more));
        }
    }
}

/// Adds the triangles of a layer of points.
fn connect_layer(
    dims: &[usize; 3],
    cell_dims: &[usize; 3],
    samples: &Vec<Option<u32>>,
    table: &Vec<u32>,
    z: usize,
    indices: &mut Vec<u32>,
)
    requires
        forall|a: int| 0 <= a < 3 ==> #[trigger] dims@[a] >= 2 && cell_dims@[a] == dims@[a] - 1,
        samples@.len() == grid::volume(*dims),
        samples@.len() <= u32::MAX,
        table_holds(*dims, *cell_dims, samples@, table@, (0, 0, dims@[2] - 1)),
        z < dims@[2] - 1,
    ensures
        ids(final(indices)@) == ids(old(indices)@) + layer_triangles(
            *dims,
            samples@,
            dims@[1] - 1,
            z as int,
        ),
{
    let ghost s = samples@;
    let ghost start = ids(indices@);
    let n: usize = cell_dims[1];
    assert(start + layer_triangles(*dims, s, 0, z as int) =~= start);
    for y in 0..n
        invariant
            forall|a: int|
                0 <= a < 3 ==> #[trigger] dims@[a] >= 2 && cell_dims@[a] == dims@[a] - 1,
            n == cell_dims@[1],
            s == samples@,
            s.len() == grid::volume(*dims),
            s.len() <= u32::MAX,
            table_holds(*dims, *cell_dims, s, table@, (0, 0, dims@[2] - 1)),
            z < dims@[2] - 1,
            ids(indices@) == start + layer_triangles(*dims, s, y as int, z as int),
    {
        connect_row(dims, cell_dims, samples, table, y, z, indices);
        proof {
            let row = layer_triangles(*dims, s, y as int, z as int);
            let more = row_triangles(*dims, s, dims@[0] - 1, y as int, z as int);
            assert((start + row) + more =~= start + (row + more));
        }
    }
}

/// Extracts the surface of a sampled field: the vertices of the net, and its
/// triangles as vertex numbers, three each.
///
/// Vertices follow the cells in storage order. Every grid edge that the
/// surface crosses connects the four cells that share it into two triangles.
pub fn surface_nets(dims: &[usize; 3], samples: &Vec<Option<u32>>) -> (net: (
    Vec<NetVertex>,
    Vec<u32>,
))
    requires
        samples@.len() == grid::volume(*dims),
        samples@.len() <= u32::MAX,
    ensures
        net.0@.len() == net_cells(*dims, samples@).len(),
        forall|k: int|
            0 <= k < net.0@.len() ==> vertex_holds(
                *dims,
                samples@,
                #[trigger] net.0@[k],
                net_cells(*dims, samples@)[k],
            ),
        ids(net.1@) == net_triangles(*dims, samples@),
{
    let ghost s = samples@;
    let mut indices: Vec<u32> = Vec::new();
    assert(ids(indices@) =~= Seq::empty());
    if dims[0] < 2 || dims[1] < 2 || dims[2] < 2 {
        proof {
            thin_grid_is_empty(*dims, s);
        }
        return (Vec::new(), indices);
    }
    let cell_dims: [usize; 3] = [dims[0] - 1, dims[1] - 1, dims[2] - 1];
    let cz: usize = cell_dims[2];
    proof {
        let (nx, ny, nz) = (dims@[0] as int, dims@[1] as int, dims@[2] as int);
        assert((nx - 1) * (ny - 1) * (nz - 1) <= nx * ny * nz) by (nonlinear_arith)
            requires
                nx >= 2,
                ny >= 2,
                nz >= 2,
        ;
    }
    let (vertices, table) = place_vertices(dims, &cell_dims, samples);
    for z in 0..cz
        invariant
            forall|a: int|
                0 <= a < 3 ==> #[trigger] dims@[a] >= 2 && cell_dims@[a] == dims@[a] - 1,
            cz == cell_dims@[2],
            s == samples@,
            s.len() == grid::volume(*dims),
            s.len() <= u32::MAX,
            table_holds(*dims, cell_dims, s, table@, (0, 0, dims@[2] - 1)),
            ids(indices@) == first_triangles(*dims, s, z as int),
    {
        connect_layer(dims, &cell_dims, samples, &table, z, &mut indices);
    }
    (vertices, indices)
}

/// A grid with fewer than two points along an axis has no cells.
proof fn thin_grid_is_empty(dims: [usize; 3], s: Seq<Option<u32>>)
    requires
        dims@[0] < 2 || dims@[1] < 2 || dims@[2] < 2,
    ensures
        net_cells(dims, s) == Seq::<Point>::empty(),
        net_triangles(dims, s) == Seq::<int>::empty(),
{
    thin_cells(dims, s, cells_along(dims, 2));
    thin_triangles(dims, s, cells_along(dims, 2));
}

proof fn thin_cells(dims: [usize; 3], s: Seq<Option<u32>>, z: int)
    requires
        dims@[0] < 2 || dims@[1] < 2 || z <= 0,
    ensures
        first_cells(dims, s, z) == Seq::<Point>::empty(),
    decreases z,
{
    if z > 0 {
        thin_cells(dims, s, z - 1);
        thin_layer_cells(dims, s, cells_along(dims, 1), z - 1);
    }
}

proof fn thin_layer_cells(dims: [usize; 3], s: Seq<Option<u32>>, y: int, z: int)
    requires
        dims@[0] < 2 || y <= 0,
    ensures
        layer_cells(dims, s, y, z) == Seq::<Point>::empty(),
    decreases y,
{
    if y > 0 {
        thin_layer_cells(dims, s, y - 1, z);
    }
}

proof fn thin_triangles(dims: [usize; 3], s: Seq<Option<u32>>, z: int)
    requires
        dims@[0] < 2 || dims@[1] < 2 || z <= 0,
    ensures
        first_triangles(dims, s, z) == Seq::<int>::empty(),
    decreases z,
{
    if z > 0 {
        thin_triangles(dims, s, z - 1);
        thin_layer_triangles(dims, s, cells_along(dims, 1), z - 1);
    }
}

proof fn thin_layer_triangles(dims: [usize; 3], s: Seq<Option<u32>>, y: int, z: int)
    requires
        dims@[0] < 2 || y <= 0,
    ensures
        layer_triangles(dims, s, y, z) == Seq::<int>::empty(),
    decreases y,
{
    if y > 0 {
        thin_layer_triangles(dims, s, y - 1, z);
    }
}

} // verus!
