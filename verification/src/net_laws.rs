//! What holds of every surface net: its triangles name its vertices, vertices
//! stand only where the field is known, and a surface that keeps away from the
//! border of a fully known grid is closed.

use crate::grid::{self, Point};
use crate::surface_nets::{self as nets, NetVertex};
use vstd::prelude::*;

verus! {

proof fn row_cell_at(dims: [usize; 3], s: Seq<Option<u32>>, p: Point, m: int)
    requires
        0 <= p.0 < m,
        nets::active(dims, s, p),
    ensures
        nets::row_cells(dims, s, p.0, p.1, p.2).len() < nets::row_cells(
            dims,
            s,
            m,
            p.1,
            p.2,
        ).len(),
        nets::row_cells(dims, s, m, p.1, p.2)[nets::row_cells(dims, s, p.0, p.1, p.2).len() as int]
            == p,
    decreases m,
{
    if p.0 < m - 1 {
        row_cell_at(dims, s, p, m - 1);
    }
}

proof fn layer_cell_at(dims: [usize; 3], s: Seq<Option<u32>>, y: int, z: int, k: int, m: int)
    requires
        0 <= y < m,
        0 <= k < nets::row_cells(dims, s, nets::cells_along(dims, 0), y, z).len(),
    ensures
        nets::layer_cells(dims, s, y, z).len() + k < nets::layer_cells(dims, s, m, z).len(),
        nets::layer_cells(dims, s, m, z)[nets::layer_cells(dims, s, y, z).len() + k]
            == nets::row_cells(dims, s, nets::cells_along(dims, 0), y, z)[k],
    decreases m,
{
    if y < m - 1 {
        layer_cell_at(dims, s, y, z, k, m - 1);
    }
}

proof fn first_cell_at(dims: [usize; 3], s: Seq<Option<u32>>, z: int, k: int, m: int)
    requires
        0 <= z < m,
        0 <= k < nets::layer_cells(dims, s, nets::cells_along(dims, 1), z).len(),
    ensures
        nets::first_cells(dims, s, z).len() + k < nets::first_cells(dims, s, m).len(),
        nets::first_cells(dims, s, m)[nets::first_cells(dims, s, z).len() + k]
            == nets::layer_cells(dims, s, nets::cells_along(dims, 1), z)[k],
    decreases m,
{
    if z < m - 1 {
        first_cell_at(dims, s, z, k, m - 1);
    }
}

/// Every cell that carries a vertex is listed, under the number of its vertex.
pub proof fn active_cells_are_listed(dims: [usize; 3], s: Seq<Option<u32>>, p: Point)
    requires
        nets::is_cell(dims, p),
        nets::active(dims, s, p),
    ensures
        0 <= nets::vertex_id(dims, s, p) < nets::net_cells(dims, s).len(),
        nets::net_cells(dims, s)[nets::vertex_id(dims, s, p)] == p,
{
    row_cell_at(dims, s, p, nets::cells_along(dims, 0));
    let k = nets::row_cells(dims, s, p.0, p.1, p.2).len() as int;
    layer_cell_at(dims, s, p.1, p.2, k, nets::cells_along(dims, 1));
    let j = nets::layer_cells(dims, s, p.1, p.2).len() + k;
    first_cell_at(dims, s, p.2, j, nets::cells_along(dims, 2));
}

/// No two cells share a vertex.
pub proof fn vertex_ids_are_distinct(dims: [usize; 3], s: Seq<Option<u32>>, p: Point, q: Point)
    requires
        nets::is_cell(dims, p),
        nets::is_cell(dims, q),
        nets::active(dims, s, p),
        nets::active(dims, s, q),
        nets::vertex_id(dims, s, p) == nets::vertex_id(dims, s, q),
    ensures
        p == q,
{
    active_cells_are_listed(dims, s, p);
    active_cells_are_listed(dims, s, q);
}

proof fn row_cells_are_cells(
    dims: [usize; 3],
    s: Seq<Option<u32>>,
    x: int,
    y: int,
    z: int,
    k: int,
)
    requires
        0 <= k < nets::row_cells(dims, s, x, y, z).len(),
    ensures
        ({
            let p = nets::row_cells(dims, s, x, y, z)[k];
            0 <= p.0 < x && p.1 == y && p.2 == z && nets::active(dims, s, p) && nets::row_cells(
                dims,
                s,
                p.0,
                y,
                z,
            ).len() == k
        }),
    decreases x,
{
    if x > 0 && k < nets::row_cells(dims, s, x - 1, y, z).len() {
        row_cells_are_cells(dims, s, x - 1, y, z, k);
    }
}

proof fn layer_cells_are_cells(dims: [usize; 3], s: Seq<Option<u32>>, y: int, z: int, k: int)
    requires
        0 <= k < nets::layer_cells(dims, s, y, z).len(),
    ensures
        ({
            let p = nets::layer_cells(dims, s, y, z)[k];
            &&& 0 <= p.0 < nets::cells_along(dims, 0) && 0 <= p.1 < y && p.2 == z
            &&& nets::active(dims, s, p)
            &&& nets::layer_cells(dims, s, p.1, z).len() + nets::row_cells(
                dims,
                s,
                p.0,
                p.1,
                z,
            ).len() == k
        }),
    decreases y,
{
    if y > 0 {
        let n = nets::layer_cells(dims, s, y - 1, z).len();
        if k < n {
            layer_cells_are_cells(dims, s, y - 1, z, k);
        } else {
            row_cells_are_cells(dims, s, nets::cells_along(dims, 0), y - 1, z, k - n);
        }
    }
}

proof fn first_cells_are_cells(dims: [usize; 3], s: Seq<Option<u32>>, z: int, k: int)
    requires
        0 <= k < nets::first_cells(dims, s, z).len(),
    ensures
        ({
            let p = nets::first_cells(dims, s, z)[k];
            &&& 0 <= p.0 < nets::cells_along(dims, 0) && 0 <= p.1 < nets::cells_along(dims, 1)
            &&& 0 <= p.2 < z && nets::active(dims, s, p)
            &&& nets::vertex_id(dims, s, p) == k
        }),
    decreases z,
{
    if z > 0 {
        let n = nets::first_cells(dims, s, z - 1).len();
        if k < n {
            first_cells_are_cells(dims, s, z - 1, k);
        } else {
            layer_cells_are_cells(dims, s, nets::cells_along(dims, 1), z - 1, k - n);
        }
    }
}

/// Only cells with all corners known and a crossed edge carry a vertex, and
/// each carries one.
pub proof fn listed_cells_are_active(dims: [usize; 3], s: Seq<Option<u32>>, k: int)
    requires
        0 <= k < nets::net_cells(dims, s).len(),
    ensures
        nets::is_cell(dims, nets::net_cells(dims, s)[k]),
        nets::active(dims, s, nets::net_cells(dims, s)[k]),
        nets::vertex_id(dims, s, nets::net_cells(dims, s)[k]) == k,
{
    first_cells_are_cells(dims, s, nets::cells_along(dims, 2), k);
}

proof fn crossed_edges_found(values: [u32; 8], e: int, n: int)
    requires
        0 <= e < n,
        nets::value_crosses(values, e),
    ensures
        nets::crossed_edges(values, n).len() > 0,
    decreases n,
{
    if e < n - 1 {
        crossed_edges_found(values, e, n - 1);
    }
}

/// A vertex of the net has a crossing, so that the mean of its crossings is
/// defined.
pub proof fn vertices_have_crossings(
    dims: [usize; 3],
    s: Seq<Option<u32>>,
    v: NetVertex,
    k: int,
)
    requires
        0 <= k < nets::net_cells(dims, s).len(),
        nets::vertex_holds(dims, s, v, nets::net_cells(dims, s)[k]),
    ensures
        nets::crossed_edges(v.values, 12).len() > 0,
{
    let p = nets::net_cells(dims, s)[k];
    listed_cells_are_active(dims, s, k);
    let e = choose|e: int| 0 <= e < 12 && #[trigger] nets::crosses(dims, s, p, e);
    let (a, b) = nets::edge_corners(e);
    assert(nets::sample(dims, s, nets::corner(p, a)) == Some(v.values@[a]));
    assert(nets::sample(dims, s, nets::corner(p, b)) == Some(v.values@[b]));
    crossed_edges_found(v.values, e, 12);
}

/// Are these whole triangles over vertices below `n`?
pub open spec fn whole_triangles(t: Seq<int>, n: int) -> bool {
    &&& t.len() % 3 == 0
    &&& forall|k: int| 0 <= k < t.len() ==> 0 <= #[trigger] t[k] < n
}

proof fn whole_triangles_join(a: Seq<int>, b: Seq<int>, n: int)
    requires
        whole_triangles(a, n),
        whole_triangles(b, n),
    ensures
        whole_triangles(a + b, n),
{
}

proof fn quad_is_whole(a: int, b: int, c: int, e: int, from_inside: bool, n: int)
    requires
        0 <= a < n && 0 <= b < n && 0 <= c < n && 0 <= e < n,
    ensures
        whole_triangles(nets::quad_triangles(a, b, c, e, from_inside), n),
{
}

/// The cells that share a grid edge are cells of the grid.
proof fn cells_around_are_cells(dims: [usize; 3], p: Point, axis: int)
    requires
        nets::is_cell(dims, p),
        nets::is_shared(p, axis),
    ensures
        nets::is_cell(dims, nets::cells_around(p, axis).0),
        nets::is_cell(dims, nets::cells_around(p, axis).1),
        nets::is_cell(dims, nets::cells_around(p, axis).2),
        nets::is_cell(dims, nets::cells_around(p, axis).3),
{
}

/// The numbers of the four vertices round a grid edge with a quad.
proof fn quad_ids(dims: [usize; 3], s: Seq<Option<u32>>, p: Point, axis: int) -> (ids: (
    int,
    int,
    int,
    int,
))
    requires
        nets::is_cell(dims, p),
        nets::has_quad(dims, s, p, axis),
    ensures
        ids.0 == nets::vertex_id(dims, s, nets::cells_around(p, axis).0),
        ids.1 == nets::vertex_id(dims, s, nets::cells_around(p, axis).1),
        ids.2 == nets::vertex_id(dims, s, nets::cells_around(p, axis).2),
        ids.3 == nets::vertex_id(dims, s, nets::cells_around(p, axis).3),
        0 <= ids.0 < nets::net_cells(dims, s).len(),
        0 <= ids.1 < nets::net_cells(dims, s).len(),
        0 <= ids.2 < nets::net_cells(dims, s).len(),
        0 <= ids.3 < nets::net_cells(dims, s).len(),
        nets::edge_triangles(dims, s, p, axis) == nets::quad_triangles(
            ids.0,
            ids.1,
            ids.2,
            ids.3,
            nets::inside(dims, s, p),
        ),
{
    reveal(nets::edge_triangles);
    let q = nets::cells_around(p, axis);
    cells_around_are_cells(dims, p, axis);
    active_cells_are_listed(dims, s, q.0);
    active_cells_are_listed(dims, s, q.1);
    active_cells_are_listed(dims, s, q.2);
    active_cells_are_listed(dims, s, q.3);
    (
        nets::vertex_id(dims, s, q.0),
        nets::vertex_id(dims, s, q.1),
        nets::vertex_id(dims, s, q.2),
        nets::vertex_id(dims, s, q.3),
    )
}

proof fn edge_triangles_are_whole(dims: [usize; 3], s: Seq<Option<u32>>, p: Point, axis: int)
    requires
        nets::is_cell(dims, p),
    ensures
        whole_triangles(
            nets::edge_triangles(dims, s, p, axis),
            nets::net_cells(dims, s).len() as int,
        ),
{
    let n = nets::net_cells(dims, s).len() as int;
    if nets::has_quad(dims, s, p, axis) {
        let (a, b, c, e) = quad_ids(dims, s, p, axis);
        quad_is_whole(a, b, c, e, nets::inside(dims, s, p), n);
    } else {
        reveal(nets::edge_triangles);
    }
}

proof fn row_triangles_are_whole(dims: [usize; 3], s: Seq<Option<u32>>, x: int, y: int, z: int)
    requires
        x <= nets::cells_along(dims, 0),
        0 <= y < nets::cells_along(dims, 1),
        0 <= z < nets::cells_along(dims, 2),
    ensures
        whole_triangles(
            nets::row_triangles(dims, s, x, y, z),
            nets::net_cells(dims, s).len() as int,
        ),
    decreases x,
{
    if x > 0 {
        let p = (x - 1, y, z);
        let n = nets::net_cells(dims, s).len() as int;
        row_triangles_are_whole(dims, s, x - 1, y, z);
        edge_triangles_are_whole(dims, s, p, 0);
        edge_triangles_are_whole(dims, s, p, 1);
        edge_triangles_are_whole(dims, s, p, 2);
        let (a, b, c) = (
            nets::edge_triangles(dims, s, p, 0),
            nets::edge_triangles(dims, s, p, 1),
            nets::edge_triangles(dims, s, p, 2),
        );
        whole_triangles_join(a, b, n);
        whole_triangles_join(a + b, c, n);
        whole_triangles_join(nets::row_triangles(dims, s, x - 1, y, z), a + b + c, n);
    }
}

proof fn layer_triangles_are_whole(dims: [usize; 3], s: Seq<Option<u32>>, y: int, z: int)
    requires
        y <= nets::cells_along(dims, 1),
        0 <= z < nets::cells_along(dims, 2),
    ensures
        whole_triangles(
            nets::layer_triangles(dims, s, y, z),
            nets::net_cells(dims, s).len() as int,
        ),
    decreases y,
{
    if y > 0 {
        layer_triangles_are_whole(dims, s, y - 1, z);
        row_triangles_are_whole(dims, s, nets::cells_along(dims, 0), y - 1, z);
        whole_triangles_join(
            nets::layer_triangles(dims, s, y - 1, z),
            nets::row_triangles(dims, s, nets::cells_along(dims, 0), y - 1, z),
            nets::net_cells(dims, s).len() as int,
        );
    }
}

proof fn first_triangles_are_whole(dims: [usize; 3], s: Seq<Option<u32>>, z: int)
    requires
        z <= nets::cells_along(dims, 2),
    ensures
        whole_triangles(
            nets::first_triangles(dims, s, z),
            nets::net_cells(dims, s).len() as int,
        ),
    decreases z,
{
    if z > 0 {
        first_triangles_are_whole(dims, s, z - 1);
        layer_triangles_are_whole(dims, s, nets::cells_along(dims, 1), z - 1);
        whole_triangles_join(
            nets::first_triangles(dims, s, z - 1),
            nets::layer_triangles(dims, s, nets::cells_along(dims, 1), z - 1),
            nets::net_cells(dims, s).len() as int,
        );
    }
}

/// The triangles of a net come in threes and name vertices of the net.
pub proof fn net_triangles_are_whole(dims: [usize; 3], s: Seq<Option<u32>>)
    ensures
        whole_triangles(nets::net_triangles(dims, s), nets::net_cells(dims, s).len() as int),
{
    first_triangles_are_whole(dims, s, nets::cells_along(dims, 2));
}

/// Where no cell has all its corners known, there is no geometry.
pub proof fn unknown_field_has_no_surface(dims: [usize; 3], s: Seq<Option<u32>>)
    requires
        forall|p: Point|
            nets::is_cell(dims, p) ==> exists|c: int|
                0 <= c < 8 && !nets::known(dims, s, #[trigger] nets::corner(p, c)),
    ensures
        nets::net_cells(dims, s).len() == 0,
        nets::net_triangles(dims, s).len() == 0,
{
    if nets::net_cells(dims, s).len() > 0 {
        listed_cells_are_active(dims, s, 0);
        let p = nets::net_cells(dims, s)[0];
        let c = choose|c: int|
            0 <= c < 8 && !nets::known(dims, s, #[trigger] nets::corner(p, c));
        assert(nets::known(dims, s, nets::corner(p, c)));
    }
    net_triangles_are_whole(dims, s);
    let t = nets::net_triangles(dims, s);
    if t.len() > 0 {
        assert(0 <= t[0] < nets::net_cells(dims, s).len());
    }
}

// ---- closedness ----

/// Does the triangle `a`, `b`, `c` run from `u` to `v`, and how often?
pub open spec fn sides(a: int, b: int, c: int, u: int, v: int) -> int {
    (if a == u && b == v {
        1int
    } else {
        0
    }) + (if b == u && c == v {
        1int
    } else {
        0
    }) + (if c == u && a == v {
        1int
    } else {
        0
    })
}

/// How often the triangles run from `u` to `v`.
pub open spec fn side_count(t: Seq<int>, u: int, v: int) -> int
    decreases t.len(),
{
    if t.len() < 3 {
        0
    } else {
        sides(t[0], t[1], t[2], u, v) + side_count(t.skip(3), u, v)
    }
}

/// A mesh is closed where every side of a triangle is matched by one that runs
/// the other way.
pub open spec fn closed(t: Seq<int>, n: int) -> bool {
    forall|u: int, v: int|
        0 <= u < n && 0 <= v < n ==> #[trigger] side_count(t, u, v) == side_count(t, v, u)
}

#[verifier::opaque]
spec fn balance(t: Seq<int>, u: int, v: int) -> int {
    side_count(t, u, v) - side_count(t, v, u)
}

/// Are `u` and `v` the vertices of the cells `c` and `d`?
#[verifier::opaque]
spec fn vertices_of(
    dims: [usize; 3],
    s: Seq<Option<u32>>,
    c: Point,
    d: Point,
    u: int,
    v: int,
) -> bool {
    &&& nets::is_cell(dims, c) && nets::active(dims, s, c)
    &&& nets::is_cell(dims, d) && nets::active(dims, s, d)
    &&& u == nets::vertex_id(dims, s, c)
    &&& v == nets::vertex_id(dims, s, d)
}

proof fn side_count_joins(a: Seq<int>, b: Seq<int>, u: int, v: int)
    requires
        a.len() % 3 == 0,
    ensures
        side_count(a + b, u, v) == side_count(a, u, v) + side_count(b, u, v),
    decreases a.len(),
{
    if a.len() == 0 {
        assert(a + b =~= b);
    } else {
        assert((a + b).skip(3) =~= a.skip(3) + b);
        side_count_joins(a.skip(3), b, u, v);
    }
}

proof fn balance_joins(a: Seq<int>, b: Seq<int>, u: int, v: int)
    requires
        a.len() % 3 == 0,
    ensures
        balance(a + b, u, v) == balance(a, u, v) + balance(b, u, v),
{
    reveal(balance);
    side_count_joins(a, b, u, v);
    side_count_joins(a, b, v, u);
}

proof fn balance_of_none(u: int, v: int)
    ensures
        balance(Seq::<int>::empty(), u, v) == 0,
{
    reveal(balance);
}

/// One for a step from `p` to `q`, minus one for the way back.
spec fn arc(p: Point, q: Point, c: Point, d: Point) -> int {
    (if c == p && d == q {
        1int
    } else {
        0
    }) - (if c == q && d == p {
        1int
    } else {
        0
    })
}

/// The walk round the four cells of a grid edge, as seen from `c` to `d`.
spec fn turn(p: Point, axis: int, c: Point, d: Point) -> int {
    let q = nets::cells_around(p, axis);
    arc(q.0, q.1, c, d) + arc(q.1, q.2, c, d) + arc(q.2, q.3, c, d) + arc(q.3, q.0, c, d)
}

spec fn weight(dims: [usize; 3], s: Seq<Option<u32>>, p: Point) -> int {
    if nets::inside(dims, s, p) {
        1
    } else {
        0
    }
}

/// How the field changes along a grid edge.
spec fn drop_along(dims: [usize; 3], s: Seq<Option<u32>>, p: Point, axis: int) -> int {
    weight(dims, s, p) - weight(dims, s, nets::far_end(p, axis))
}

/// How the field changes along a grid edge that four cells share.
spec fn pull(dims: [usize; 3], s: Seq<Option<u32>>, p: Point, axis: int) -> int {
    if nets::is_shared(p, axis) {
        drop_along(dims, s, p, axis)
    } else {
        0
    }
}

/// The balance of the triangles of a point, in terms of the field.
#[verifier::opaque]
spec fn flow(dims: [usize; 3], s: Seq<Option<u32>>, p: Point, c: Point, d: Point) -> int {
    pull(dims, s, p, 0) * turn(p, 0, c, d) + pull(dims, s, p, 1) * turn(p, 1, c, d) + pull(
        dims,
        s,
        p,
        2,
    ) * turn(p, 2, c, d)
}

proof fn quad_balance(a: int, b: int, c: int, e: int, from_inside: bool, u: int, v: int)
    ensures
        ({
            let t = nets::quad_triangles(a, b, c, e, from_inside);
            let step = |p: int, q: int|
                (if u == p && v == q {
                    1int
                } else {
                    0
                }) - (if u == q && v == p {
                    1int
                } else {
                    0
                });
            let round = step(a, b) + step(b, c) + step(c, e) + step(e, a);
            t.len() == 6 && balance(t, u, v) == if from_inside {
                round
            } else {
                -round
            }
        }),
{
    let t = nets::quad_triangles(a, b, c, e, from_inside);
    assert(t.skip(3).len() == 3);
    assert(t.skip(3).skip(3).len() == 0);
    reveal(balance);
    reveal_with_fuel(side_count, 3);
}

/// Is the field known at every point of the grid?
pub open spec fn fully_known(dims: [usize; 3], s: Seq<Option<u32>>) -> bool {
    forall|p: Point| #[trigger] grid::in_grid(dims, p) ==> nets::known(dims, s, p)
}

/// Does the surface keep off the border: does it cross no grid edge that lies on
/// a face of the grid?
pub open spec fn surface_keeps_off_border(dims: [usize; 3], s: Seq<Option<u32>>) -> bool {
    forall|p: Point, axis: int|
        #![trigger nets::far_end(p, axis)]
        0 <= axis < 3 && grid::in_grid(dims, p) && grid::in_grid(dims, nets::far_end(p, axis))
            && nets::inside(dims, s, p) != nets::inside(dims, s, nets::far_end(p, axis)) ==> {
            &&& axis == 0 || 1 <= p.0 <= dims@[0] - 2
            &&& axis == 1 || 1 <= p.1 <= dims@[1] - 2
            &&& axis == 2 || 1 <= p.2 <= dims@[2] - 2
        }
}

/// The cell has all corners known, and edge `e` crossed.
proof fn crossed_cell_is_active(dims: [usize; 3], s: Seq<Option<u32>>, q: Point, e: int)
    requires
        fully_known(dims, s),
        nets::is_cell(dims, q),
        0 <= e < 12,
        nets::crosses(dims, s, q, e),
    ensures
        nets::active(dims, s, q),
{
    assert forall|c: int| 0 <= c < 8 implies nets::known(dims, s, #[trigger] nets::corner(q, c)) by {
        assert(grid::in_grid(dims, nets::corner(q, c)));
    }
}

/// In a fully known grid every shared grid edge with a change has its quad.
proof fn changes_have_quads(dims: [usize; 3], s: Seq<Option<u32>>, p: Point, axis: int)
    requires
        fully_known(dims, s),
        nets::is_cell(dims, p),
        0 <= axis < 3,
    ensures
        nets::has_quad(dims, s, p, axis) <==> pull(dims, s, p, axis) != 0,
{
    assert(grid::in_grid(dims, p));
    assert(grid::in_grid(dims, nets::far_end(p, axis)));
    if pull(dims, s, p, axis) != 0 {
        let q = nets::cells_around(p, axis);
        cells_around_are_cells(dims, p, axis);
        if axis == 0 {
            assert(nets::corner(q.0, 0) == p && nets::corner(q.0, 1) == nets::far_end(p, axis));
            assert(nets::corner(q.1, 2) == p && nets::corner(q.1, 3) == nets::far_end(p, axis));
            assert(nets::corner(q.2, 6) == p && nets::corner(q.2, 7) == nets::far_end(p, axis));
            assert(nets::corner(q.3, 4) == p && nets::corner(q.3, 5) == nets::far_end(p, axis));
            crossed_cell_is_active(dims, s, q.0, 0);
            crossed_cell_is_active(dims, s, q.1, 1);
            crossed_cell_is_active(dims, s, q.2, 3);
            crossed_cell_is_active(dims, s, q.3, 2);
        } else if axis == 1 {
            assert(nets::corner(q.0, 0) == p && nets::corner(q.0, 2) == nets::far_end(p, axis));
            assert(nets::corner(q.1, 4) == p && nets::corner(q.1, 6) == nets::far_end(p, axis));
            assert(nets::corner(q.2, 5) == p && nets::corner(q.2, 7) == nets::far_end(p, axis));
            assert(nets::corner(q.3, 1) == p && nets::corner(q.3, 3) == nets::far_end(p, axis));
            crossed_cell_is_active(dims, s, q.0, 4);
            crossed_cell_is_active(dims, s, q.1, 6);
            crossed_cell_is_active(dims, s, q.2, 7);
            crossed_cell_is_active(dims, s, q.3, 5);
        } else {
            assert(nets::corner(q.0, 0) == p && nets::corner(q.0, 4) == nets::far_end(p, axis));
            assert(nets::corner(q.1, 1) == p && nets::corner(q.1, 5) == nets::far_end(p, axis));
            assert(nets::corner(q.2, 3) == p && nets::corner(q.2, 7) == nets::far_end(p, axis));
            assert(nets::corner(q.3, 2) == p && nets::corner(q.3, 6) == nets::far_end(p, axis));
            crossed_cell_is_active(dims, s, q.0, 8);
            crossed_cell_is_active(dims, s, q.1, 9);
            crossed_cell_is_active(dims, s, q.2, 11);
            crossed_cell_is_active(dims, s, q.3, 10);
        }
    }
}

/// Steps between vertices are steps between their cells.
proof fn step_is_arc(
    dims: [usize; 3],
    s: Seq<Option<u32>>,
    p: Point,
    q: Point,
    c: Point,
    d: Point,
)
    requires
        nets::is_cell(dims, p) && nets::active(dims, s, p),
        nets::is_cell(dims, q) && nets::active(dims, s, q),
        nets::is_cell(dims, c) && nets::active(dims, s, c),
        nets::is_cell(dims, d) && nets::active(dims, s, d),
    ensures
        (nets::vertex_id(dims, s, c) == nets::vertex_id(dims, s, p)) == (c == p),
        (nets::vertex_id(dims, s, d) == nets::vertex_id(dims, s, q)) == (d == q),
        (nets::vertex_id(dims, s, c) == nets::vertex_id(dims, s, q)) == (c == q),
        (nets::vertex_id(dims, s, d) == nets::vertex_id(dims, s, p)) == (d == p),
{
    active_cells_are_listed(dims, s, p);
    active_cells_are_listed(dims, s, q);
    active_cells_are_listed(dims, s, c);
    active_cells_are_listed(dims, s, d);
}

proof fn edge_balance(
    dims: [usize; 3],
    s: Seq<Option<u32>>,
    p: Point,
    axis: int,
    c: Point,
    d: Point,
    u: int,
    v: int,
)
    requires
        fully_known(dims, s),
        nets::is_cell(dims, p),
        0 <= axis < 3,
        vertices_of(dims, s, c, d, u, v),
    ensures
        nets::edge_triangles(dims, s, p, axis).len() % 3 == 0,
        balance(
            nets::edge_triangles(dims, s, p, axis),
            u,
            v,
        ) == pull(dims, s, p, axis) * turn(p, axis, c, d),
{
    reveal(vertices_of);
    changes_have_quads(dims, s, p, axis);
    let round = turn(p, axis, c, d);
    if nets::has_quad(dims, s, p, axis) {
        let q = nets::cells_around(p, axis);
        let (i0, i1, i2, i3) = quad_ids(dims, s, p, axis);
        quad_balance(i0, i1, i2, i3, nets::inside(dims, s, p), u, v);
        cells_around_are_cells(dims, p, axis);
        step_is_arc(dims, s, q.0, q.1, c, d);
        step_is_arc(dims, s, q.2, q.3, c, d);
        assert(1 * round == round && (-1) * round == -round) by (nonlinear_arith);
    } else {
        reveal(nets::edge_triangles);
        balance_of_none(u, v);
        assert(0 * round == 0);
    }
}

spec fn row_sum(f: spec_fn(Point) -> int, x: int, y: int, z: int) -> int
    decreases x,
{
    if x <= 0 {
        0
    } else {
        row_sum(f, x - 1, y, z) + f((x - 1, y, z))
    }
}

spec fn layer_sum(dims: [usize; 3], f: spec_fn(Point) -> int, y: int, z: int) -> int
    decreases y,
{
    if y <= 0 {
        0
    } else {
        layer_sum(dims, f, y - 1, z) + row_sum(f, nets::cells_along(dims, 0), y - 1, z)
    }
}

spec fn first_sum(dims: [usize; 3], f: spec_fn(Point) -> int, z: int) -> int
    decreases z,
{
    if z <= 0 {
        0
    } else {
        first_sum(dims, f, z - 1) + layer_sum(dims, f, nets::cells_along(dims, 1), z - 1)
    }
}

spec fn flow_of(dims: [usize; 3], s: Seq<Option<u32>>, c: Point, d: Point) -> spec_fn(
    Point,
) -> int {
    |p: Point| flow(dims, s, p, c, d)
}

proof fn point_balance(
    dims: [usize; 3],
    s: Seq<Option<u32>>,
    p: Point,
    c: Point,
    d: Point,
    u: int,
    v: int,
)
    requires
        fully_known(dims, s),
        nets::is_cell(dims, p),
        vertices_of(dims, s, c, d, u, v),
    ensures
        nets::point_triangles(dims, s, p).len() % 3 == 0,
        balance(nets::point_triangles(dims, s, p), u, v) == flow(dims, s, p, c, d),
{
    reveal(flow);
    edge_balance(dims, s, p, 0, c, d, u, v);
    edge_balance(dims, s, p, 1, c, d, u, v);
    edge_balance(dims, s, p, 2, c, d, u, v);
    let (e0, e1, e2) = (
        nets::edge_triangles(dims, s, p, 0),
        nets::edge_triangles(dims, s, p, 1),
        nets::edge_triangles(dims, s, p, 2),
    );
    balance_joins(e0, e1, u, v);
    balance_joins(e0 + e1, e2, u, v);
}

proof fn row_balance(
    dims: [usize; 3],
    s: Seq<Option<u32>>,
    x: int,
    y: int,
    z: int,
    c: Point,
    d: Point,
    u: int,
    v: int,
)
    requires
        fully_known(dims, s),
        x <= nets::cells_along(dims, 0),
        0 <= y < nets::cells_along(dims, 1),
        0 <= z < nets::cells_along(dims, 2),
        vertices_of(dims, s, c, d, u, v),
    ensures
        nets::row_triangles(dims, s, x, y, z).len() % 3 == 0,
        balance(
            nets::row_triangles(dims, s, x, y, z),
            u,
            v,
        ) == row_sum(flow_of(dims, s, c, d), x, y, z),
    decreases x,
{
    balance_of_none(u, v);
    if x > 0 {
        let p = (x - 1, y, z);
        row_balance(dims, s, x - 1, y, z, c, d, u, v);
        point_balance(dims, s, p, c, d, u, v);
        let row = nets::row_triangles(dims, s, x - 1, y, z);
        balance_joins(row, nets::point_triangles(dims, s, p), u, v);
    }
}

proof fn layer_balance(dims: [usize; 3], s: Seq<Option<u32>>, y: int, z: int, c: Point, d: Point, u: int, v: int)
    requires
        fully_known(dims, s),
        y <= nets::cells_along(dims, 1),
        0 <= z < nets::cells_along(dims, 2),
        vertices_of(dims, s, c, d, u, v),
    ensures
        nets::layer_triangles(dims, s, y, z).len() % 3 == 0,
        balance(
            nets::layer_triangles(dims, s, y, z),
            u,
            v,
        ) == layer_sum(dims, flow_of(dims, s, c, d), y, z),
    decreases y,
{
    balance_of_none(u, v);
    if y > 0 {
        layer_balance(dims, s, y - 1, z, c, d, u, v);
        row_balance(dims, s, nets::cells_along(dims, 0), y - 1, z, c, d, u, v);
        let a = nets::layer_triangles(dims, s, y - 1, z);
        let b = nets::row_triangles(dims, s, nets::cells_along(dims, 0), y - 1, z);
        balance_joins(a, b, u, v);
    }
}

proof fn first_balance(dims: [usize; 3], s: Seq<Option<u32>>, z: int, c: Point, d: Point, u: int, v: int)
    requires
        fully_known(dims, s),
        z <= nets::cells_along(dims, 2),
        vertices_of(dims, s, c, d, u, v),
    ensures
        nets::first_triangles(dims, s, z).len() % 3 == 0,
        balance(
            nets::first_triangles(dims, s, z),
            u,
            v,
        ) == first_sum(dims, flow_of(dims, s, c, d), z),
    decreases z,
{
    balance_of_none(u, v);
    if z > 0 {
        first_balance(dims, s, z - 1, c, d, u, v);
        layer_balance(dims, s, nets::cells_along(dims, 1), z - 1, c, d, u, v);
        let a = nets::first_triangles(dims, s, z - 1);
        let b = nets::layer_triangles(dims, s, nets::cells_along(dims, 1), z - 1);
        balance_joins(a, b, u, v);
    }
}

/// Is the point among those that the connecting pass visits below `q`?
spec fn in_pass(dims: [usize; 3], p: Point, z: int) -> bool {
    &&& 0 <= p.0 < nets::cells_along(dims, 0)
    &&& 0 <= p.1 < nets::cells_along(dims, 1)
    &&& 0 <= p.2 < z
}

/// The value of `f` at a point that the pass visits.
spec fn share(dims: [usize; 3], f: spec_fn(Point) -> int, p: Point, z: int) -> int {
    if in_pass(dims, p, z) {
        f(p)
    } else {
        0
    }
}

proof fn row_sum_of_three(f: spec_fn(Point) -> int, a: Point, b: Point, c: Point, x: int, y: int, z: int)
    requires
        a != b && b != c && a != c,
        forall|p: Point| p != a && p != b && p != c ==> #[trigger] f(p) == 0,
    ensures
        row_sum(f, x, y, z) == (if 0 <= a.0 < x && a.1 == y && a.2 == z {
            f(a)
        } else {
            0
        }) + (if 0 <= b.0 < x && b.1 == y && b.2 == z {
            f(b)
        } else {
            0
        }) + (if 0 <= c.0 < x && c.1 == y && c.2 == z {
            f(c)
        } else {
            0
        }),
    decreases x,
{
    if x > 0 {
        row_sum_of_three(f, a, b, c, x - 1, y, z);
        let p = (x - 1, y, z);
        assert(p == a || p == b || p == c || f(p) == 0);
    }
}

proof fn layer_sum_of_three(
    dims: [usize; 3],
    f: spec_fn(Point) -> int,
    a: Point,
    b: Point,
    c: Point,
    y: int,
    z: int,
)
    requires
        a != b && b != c && a != c,
        forall|p: Point| p != a && p != b && p != c ==> #[trigger] f(p) == 0,
    ensures
        ({
            let n = nets::cells_along(dims, 0);
            layer_sum(dims, f, y, z) == (if 0 <= a.0 < n && 0 <= a.1 < y && a.2 == z {
                f(a)
            } else {
                0
            }) + (if 0 <= b.0 < n && 0 <= b.1 < y && b.2 == z {
                f(b)
            } else {
                0
            }) + (if 0 <= c.0 < n && 0 <= c.1 < y && c.2 == z {
                f(c)
            } else {
                0
            })
        }),
    decreases y,
{
    if y > 0 {
        layer_sum_of_three(dims, f, a, b, c, y - 1, z);
        row_sum_of_three(f, a, b, c, nets::cells_along(dims, 0), y - 1, z);
    }
}

proof fn first_sum_of_three(
    dims: [usize; 3],
    f: spec_fn(Point) -> int,
    a: Point,
    b: Point,
    c: Point,
    z: int,
)
    requires
        a != b && b != c && a != c,
        forall|p: Point| p != a && p != b && p != c ==> #[trigger] f(p) == 0,
    ensures
        first_sum(dims, f, z) == share(dims, f, a, z) + share(dims, f, b, z) + share(
            dims,
            f,
            c,
            z,
        ),
    decreases z,
{
    if z > 0 {
        first_sum_of_three(dims, f, a, b, c, z - 1);
        layer_sum_of_three(dims, f, a, b, c, nets::cells_along(dims, 1), z - 1);
    }
}

/// Where the field changes, four cells share the edge, and the pass looks there.
proof fn changes_are_shared(dims: [usize; 3], s: Seq<Option<u32>>, p: Point, axis: int)
    requires
        surface_keeps_off_border(dims, s),
        grid::in_grid(dims, p),
        grid::in_grid(dims, nets::far_end(p, axis)),
        0 <= axis < 3,
    ensures
        pull(dims, s, p, axis) == drop_along(dims, s, p, axis),
        !in_pass(dims, p, nets::cells_along(dims, 2)) ==> pull(dims, s, p, axis) == 0,
{
    let q = nets::far_end(p, axis);
    if nets::inside(dims, s, p) != nets::inside(dims, s, q) {
        assert(nets::is_shared(p, axis));
    }
}

/// The flow at a point of the face between two cells, whether or not the
/// connecting pass visits it.
proof fn face_point_share(
    dims: [usize; 3],
    s: Seq<Option<u32>>,
    p: Point,
    c: Point,
    d: Point,
)
    requires
        surface_keeps_off_border(dims, s),
        grid::in_grid(dims, p),
        forall|axis: int|
            0 <= axis < 3 && #[trigger] turn(p, axis, c, d) != 0 ==> grid::in_grid(
                dims,
                nets::far_end(p, axis),
            ),
    ensures
        share(dims, flow_of(dims, s, c, d), p, nets::cells_along(dims, 2)) == flow(
            dims,
            s,
            p,
            c,
            d,
        ),
{
    reveal(flow);
    if !in_pass(dims, p, nets::cells_along(dims, 2)) {
        assert forall|axis: int| 0 <= axis < 3 implies pull(dims, s, p, axis)
            * #[trigger] turn(p, axis, c, d) == 0 by {
            if turn(p, axis, c, d) != 0 {
                changes_are_shared(dims, s, p, axis);
                assert(0 * turn(p, axis, c, d) == 0);
            } else {
                assert(pull(dims, s, p, axis) * 0 == 0);
            }
        }
        assert(pull(dims, s, p, 0) * turn(p, 0, c, d) == 0);
        assert(pull(dims, s, p, 1) * turn(p, 1, c, d) == 0);
        assert(pull(dims, s, p, 2) * turn(p, 2, c, d) == 0);
    }
}

/// Round the face between two cells the changes of the field cancel.
proof fn face_flow_cancels(
    dims: [usize; 3],
    s: Seq<Option<u32>>,
    c: Point,
    axis: int,
)
    requires
        surface_keeps_off_border(dims, s),
        nets::is_cell(dims, c),
        0 <= axis < 3,
    ensures
        ({
            let d = if axis == 0 {
                (c.0 - 1, c.1, c.2)
            } else if axis == 1 {
                (c.0, c.1 - 1, c.2)
            } else {
                (c.0, c.1, c.2 - 1)
            };
            first_sum(dims, flow_of(dims, s, c, d), nets::cells_along(dims, 2)) == 0
        }),
{
    let z = nets::cells_along(dims, 2);
    let d = if axis == 0 {
        (c.0 - 1, c.1, c.2)
    } else if axis == 1 {
        (c.0, c.1 - 1, c.2)
    } else {
        (c.0, c.1, c.2 - 1)
    };
    let f = flow_of(dims, s, c, d);
    let (cx, cy, cz) = ((c.0 + 1, c.1, c.2), (c.0, c.1 + 1, c.2), (c.0, c.1, c.2 + 1));
    let (a, b) = if axis == 0 {
        (cy, cz)
    } else if axis == 1 {
        (cx, cz)
    } else {
        (cx, cy)
    };
    assert forall|p: Point| p != c && p != a && p != b implies #[trigger] f(p) == 0 by {
        reveal(flow);
        assert(turn(p, 0, c, d) == 0);
        assert(turn(p, 1, c, d) == 0);
        assert(turn(p, 2, c, d) == 0);
        assert(pull(dims, s, p, 0) * 0 == 0);
        assert(pull(dims, s, p, 1) * 0 == 0);
        assert(pull(dims, s, p, 2) * 0 == 0);
    }
    first_sum_of_three(dims, f, c, a, b, z);
    face_point_share(dims, s, c, c, d);
    face_point_share(dims, s, a, c, d);
    face_point_share(dims, s, b, c, d);
    face_turns(c, axis);
    reveal(flow);
    let (cyz, cxz, cxy) = (
        (c.0, c.1 + 1, c.2 + 1),
        (c.0 + 1, c.1, c.2 + 1),
        (c.0 + 1, c.1 + 1, c.2),
    );
    assert(grid::in_grid(dims, c) && grid::in_grid(dims, cx) && grid::in_grid(dims, cy)
        && grid::in_grid(dims, cz));
    assert(grid::in_grid(dims, cyz) && grid::in_grid(dims, cxz) && grid::in_grid(dims, cxy));
    changes_are_shared(dims, s, c, 0);
    changes_are_shared(dims, s, c, 1);
    changes_are_shared(dims, s, c, 2);
    changes_are_shared(dims, s, cx, 1);
    changes_are_shared(dims, s, cx, 2);
    changes_are_shared(dims, s, cy, 0);
    changes_are_shared(dims, s, cy, 2);
    changes_are_shared(dims, s, cz, 0);
    changes_are_shared(dims, s, cz, 1);
    if axis == 0 {
        let (g1, g2) = (pull(dims, s, c, 1), pull(dims, s, c, 2));
        let (g3, g4) = (pull(dims, s, cz, 1), pull(dims, s, cy, 2));
        assert(flow(dims, s, c, c, d) == -g1 + g2) by (nonlinear_arith)
            requires
                flow(dims, s, c, c, d) == pull(dims, s, c, 0) * 0 + g1 * (-1) + g2 * 1,
        ;
        assert(flow(dims, s, cz, c, d) == g3) by (nonlinear_arith)
            requires
                flow(dims, s, cz, c, d) == pull(dims, s, cz, 0) * 0 + g3 * 1 + pull(
                    dims,
                    s,
                    cz,
                    2,
                ) * 0,
        ;
        assert(flow(dims, s, cy, c, d) == -g4) by (nonlinear_arith)
            requires
                flow(dims, s, cy, c, d) == pull(dims, s, cy, 0) * 0 + pull(
                    dims,
                    s,
                    cy,
                    1,
                ) * 0 + g4 * (-1),
        ;
        assert(-g1 + g2 + g3 - g4 == 0);
    } else if axis == 1 {
        let (g1, g2) = (pull(dims, s, c, 0), pull(dims, s, c, 2));
        let (g3, g4) = (pull(dims, s, cz, 0), pull(dims, s, cx, 2));
        assert(flow(dims, s, c, c, d) == g1 - g2) by (nonlinear_arith)
            requires
                flow(dims, s, c, c, d) == g1 * 1 + pull(dims, s, c, 1) * 0 + g2 * (-1),
        ;
        assert(flow(dims, s, cz, c, d) == -g3) by (nonlinear_arith)
            requires
                flow(dims, s, cz, c, d) == g3 * (-1) + pull(dims, s, cz, 1) * 0 + pull(
                    dims,
                    s,
                    cz,
                    2,
                ) * 0,
        ;
        assert(flow(dims, s, cx, c, d) == g4) by (nonlinear_arith)
            requires
                flow(dims, s, cx, c, d) == pull(dims, s, cx, 0) * 0 + pull(
                    dims,
                    s,
                    cx,
                    1,
                ) * 0 + g4 * 1,
        ;
        assert(g1 - g2 - g3 + g4 == 0);
    } else {
        let (g1, g2) = (pull(dims, s, c, 0), pull(dims, s, c, 1));
        let (g3, g4) = (pull(dims, s, cy, 0), pull(dims, s, cx, 1));
        assert(flow(dims, s, c, c, d) == -g1 + g2) by (nonlinear_arith)
            requires
                flow(dims, s, c, c, d) == g1 * (-1) + g2 * 1 + pull(dims, s, c, 2) * 0,
        ;
        assert(flow(dims, s, cy, c, d) == g3) by (nonlinear_arith)
            requires
                flow(dims, s, cy, c, d) == g3 * 1 + pull(dims, s, cy, 1) * 0 + pull(
                    dims,
                    s,
                    cy,
                    2,
                ) * 0,
        ;
        assert(flow(dims, s, cx, c, d) == -g4) by (nonlinear_arith)
            requires
                flow(dims, s, cx, c, d) == pull(dims, s, cx, 0) * 0 + g4 * (-1) + pull(
                    dims,
                    s,
                    cx,
                    2,
                ) * 0,
        ;
        assert(-g1 + g2 + g3 - g4 == 0);
    }
}

/// The turns round the grid edges of the face below a cell along an axis.
proof fn face_turns(c: Point, axis: int)
    requires
        0 <= axis < 3,
    ensures
        ({
            let (x, y, z) = ((c.0 + 1, c.1, c.2), (c.0, c.1 + 1, c.2), (c.0, c.1, c.2 + 1));
            if axis == 0 {
                let d = (c.0 - 1, c.1, c.2);
                &&& turn(c, 0, c, d) == 0 && turn(c, 1, c, d) == -1 && turn(c, 2, c, d) == 1
                &&& turn(z, 0, c, d) == 0 && turn(z, 1, c, d) == 1 && turn(z, 2, c, d) == 0
                &&& turn(y, 0, c, d) == 0 && turn(y, 1, c, d) == 0 && turn(y, 2, c, d) == -1
            } else if axis == 1 {
                let d = (c.0, c.1 - 1, c.2);
                &&& turn(c, 0, c, d) == 1 && turn(c, 1, c, d) == 0 && turn(c, 2, c, d) == -1
                &&& turn(z, 0, c, d) == -1 && turn(z, 1, c, d) == 0 && turn(z, 2, c, d) == 0
                &&& turn(x, 0, c, d) == 0 && turn(x, 1, c, d) == 0 && turn(x, 2, c, d) == 1
            } else {
                let d = (c.0, c.1, c.2 - 1);
                &&& turn(c, 0, c, d) == -1 && turn(c, 1, c, d) == 1 && turn(c, 2, c, d) == 0
                &&& turn(y, 0, c, d) == 1 && turn(y, 1, c, d) == 0 && turn(y, 2, c, d) == 0
                &&& turn(x, 0, c, d) == 0 && turn(x, 1, c, d) == -1 && turn(x, 2, c, d) == 0
            }
        }),
{
}

proof fn row_sum_of_none(f: spec_fn(Point) -> int, x: int, y: int, z: int)
    requires
        forall|p: Point| #[trigger] f(p) == 0,
    ensures
        row_sum(f, x, y, z) == 0,
    decreases x,
{
    if x > 0 {
        row_sum_of_none(f, x - 1, y, z);
    }
}

proof fn layer_sum_of_none(dims: [usize; 3], f: spec_fn(Point) -> int, y: int, z: int)
    requires
        forall|p: Point| #[trigger] f(p) == 0,
    ensures
        layer_sum(dims, f, y, z) == 0,
    decreases y,
{
    if y > 0 {
        layer_sum_of_none(dims, f, y - 1, z);
        row_sum_of_none(f, nets::cells_along(dims, 0), y - 1, z);
    }
}

proof fn first_sum_of_none(dims: [usize; 3], f: spec_fn(Point) -> int, z: int)
    requires
        forall|p: Point| #[trigger] f(p) == 0,
    ensures
        first_sum(dims, f, z) == 0,
    decreases z,
{
    if z > 0 {
        first_sum_of_none(dims, f, z - 1);
        layer_sum_of_none(dims, f, nets::cells_along(dims, 1), z - 1);
    }
}

proof fn cell_pair_balances(dims: [usize; 3], s: Seq<Option<u32>>, c: Point, d: Point)
    requires
        fully_known(dims, s),
        surface_keeps_off_border(dims, s),
        nets::is_cell(dims, c) && nets::active(dims, s, c),
        nets::is_cell(dims, d) && nets::active(dims, s, d),
    ensures
        balance(
            nets::net_triangles(dims, s),
            nets::vertex_id(dims, s, c),
            nets::vertex_id(dims, s, d),
        ) == 0,
{
    let z = nets::cells_along(dims, 2);
    let (u, v) = (nets::vertex_id(dims, s, c), nets::vertex_id(dims, s, d));
    assert(vertices_of(dims, s, c, d, u, v) && vertices_of(dims, s, d, c, v, u)) by {
        reveal(vertices_of);
    }
    assert(balance(nets::net_triangles(dims, s), u, v) == -balance(
        nets::net_triangles(dims, s),
        v,
        u,
    )) by {
        reveal(balance);
    }
    if d == (c.0 - 1, c.1, c.2) {
        first_balance(dims, s, z, c, d, u, v);
        face_flow_cancels(dims, s, c, 0);
    } else if d == (c.0, c.1 - 1, c.2) {
        first_balance(dims, s, z, c, d, u, v);
        face_flow_cancels(dims, s, c, 1);
    } else if d == (c.0, c.1, c.2 - 1) {
        first_balance(dims, s, z, c, d, u, v);
        face_flow_cancels(dims, s, c, 2);
    } else if c == (d.0 - 1, d.1, d.2) {
        first_balance(dims, s, z, d, c, v, u);
        face_flow_cancels(dims, s, d, 0);
    } else if c == (d.0, d.1 - 1, d.2) {
        first_balance(dims, s, z, d, c, v, u);
        face_flow_cancels(dims, s, d, 1);
    } else if c == (d.0, d.1, d.2 - 1) {
        first_balance(dims, s, z, d, c, v, u);
        face_flow_cancels(dims, s, d, 2);
    } else {
        first_balance(dims, s, z, c, d, u, v);
        let f = flow_of(dims, s, c, d);
        assert forall|p: Point| #[trigger] f(p) == 0 by {
            reveal(flow);
            assert(turn(p, 0, c, d) == 0);
            assert(turn(p, 1, c, d) == 0);
            assert(turn(p, 2, c, d) == 0);
            assert(pull(dims, s, p, 0) * 0 == 0);
            assert(pull(dims, s, p, 1) * 0 == 0);
            assert(pull(dims, s, p, 2) * 0 == 0);
        }
        first_sum_of_none(dims, f, z);
    }
}

/// The net of a fully known field whose surface keeps off the border of the
/// grid is closed: every side of a triangle is matched by one that runs the
/// other way.
pub proof fn net_is_closed(dims: [usize; 3], s: Seq<Option<u32>>)
    requires
        fully_known(dims, s),
        surface_keeps_off_border(dims, s),
    ensures
        closed(nets::net_triangles(dims, s), nets::net_cells(dims, s).len() as int),
{
    let t = nets::net_triangles(dims, s);
    let n = nets::net_cells(dims, s).len() as int;
    assert forall|u: int, v: int| 0 <= u < n && 0 <= v < n implies #[trigger] side_count(t, u, v)
        == side_count(t, v, u) by {
        let (c, d) = (nets::net_cells(dims, s)[u], nets::net_cells(dims, s)[v]);
        listed_cells_are_active(dims, s, u);
        listed_cells_are_active(dims, s, v);
        cell_pair_balances(dims, s, c, d);
        reveal(balance);
    }
}

} // verus!
