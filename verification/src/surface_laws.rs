//! What a surface net is, said of the samples themselves: where its vertices stand,
//! what they hold, and which triangles join them.

use crate::grid::{self, Point};
use crate::ieee;
use crate::net_laws;
use crate::surface_nets::{self as nets, NetVertex};
use vstd::prelude::*;

verus! {

/// The sample of the point (x, y, z): storage runs along x, then y, then z.
pub open spec fn at(dims: [usize; 3], s: Seq<Option<u32>>, x: int, y: int, z: int) -> Option<u32> {
    s[x + dims@[0] * (y + dims@[1] * z)]
}

/// Is the sample there, and below zero?
pub open spec fn solid(v: Option<u32>) -> bool {
    v matches Some(d) && ieee::less(d, 0)
}

/// The sample of the corner of a cell that is so many steps along each axis.
pub open spec fn at_corner(
    dims: [usize; 3],
    s: Seq<Option<u32>>,
    cell: Point,
    a: int,
    b: int,
    c: int,
) -> Option<u32> {
    at(dims, s, cell.0 + a, cell.1 + b, cell.2 + c)
}

/// Is the number zero or one?
pub open spec fn bit(a: int) -> bool {
    a == 0 || a == 1
}

/// Is the sample of every corner of the cell there?
pub open spec fn all_there(dims: [usize; 3], s: Seq<Option<u32>>, cell: Point) -> bool {
    forall|a: int, b: int, c: int|
        bit(a) && bit(b) && bit(c) ==> (#[trigger] at_corner(dims, s, cell, a, b, c)) is Some
}

/// Does the cell have a corner below zero, and one that is not?
pub open spec fn is_cut(dims: [usize; 3], s: Seq<Option<u32>>, cell: Point) -> bool {
    &&& exists|a: int, b: int, c: int|
        bit(a) && bit(b) && bit(c) && solid(#[trigger] at_corner(dims, s, cell, a, b, c))
    &&& exists|a: int, b: int, c: int|
        bit(a) && bit(b) && bit(c) && !solid(#[trigger] at_corner(dims, s, cell, a, b, c))
}

/// Do all corners of the cell lie in the grid?
pub open spec fn cell_in_grid(dims: [usize; 3], p: Point) -> bool {
    0 <= p.0 && p.0 + 1 < dims@[0] && 0 <= p.1 && p.1 + 1 < dims@[1] && 0 <= p.2 && p.2 + 1
        < dims@[2]
}

proof fn sample_is_at(dims: [usize; 3], s: Seq<Option<u32>>, x: int, y: int, z: int)
    ensures
        nets::sample(dims, s, (x, y, z)) == at(dims, s, x, y, z),
        nets::known(dims, s, (x, y, z)) == (at(dims, s, x, y, z) is Some),
        nets::inside(dims, s, (x, y, z)) == solid(at(dims, s, x, y, z)),
{
    let (nx, ny) = (dims@[0] as int, dims@[1] as int);
    assert((z * ny + y) * nx + x == x + nx * (y + ny * z)) by (nonlinear_arith);
}

/// The corner that is so many steps along each axis, by its number.
proof fn corner_steps(dims: [usize; 3], s: Seq<Option<u32>>, p: Point, a: int, b: int, c: int)
    requires
        bit(a),
        bit(b),
        bit(c),
    ensures
        ({
            let q = nets::corner(p, a + 2 * b + 4 * c);
            &&& q == (p.0 + a, p.1 + b, p.2 + c)
            &&& nets::sample(dims, s, q) == at_corner(dims, s, p, a, b, c)
            &&& nets::known(dims, s, q) == (at_corner(dims, s, p, a, b, c) is Some)
            &&& nets::inside(dims, s, q) == solid(at_corner(dims, s, p, a, b, c))
        }),
{
    sample_is_at(dims, s, p.0 + a, p.1 + b, p.2 + c);
}

proof fn corner_of_number(c: int)
    requires
        0 <= c < 8,
    ensures
        bit(c % 2),
        bit((c / 2) % 2),
        bit(c / 4),
        c == c % 2 + 2 * ((c / 2) % 2) + 4 * (c / 4),
{
}

proof fn uncrossed_cell_is_uniform(dims: [usize; 3], s: Seq<Option<u32>>, p: Point, c: int)
    requires
        forall|e: int| 0 <= e < 12 ==> !#[trigger] nets::crosses(dims, s, p, e),
        0 <= c < 8,
    ensures
        nets::inside(dims, s, nets::corner(p, c)) == nets::inside(dims, s, nets::corner(p, 0)),
{
    assert(!nets::crosses(dims, s, p, 0) && !nets::crosses(dims, s, p, 1));
    assert(!nets::crosses(dims, s, p, 2) && !nets::crosses(dims, s, p, 3));
    assert(!nets::crosses(dims, s, p, 4) && !nets::crosses(dims, s, p, 5));
    assert(!nets::crosses(dims, s, p, 6) && !nets::crosses(dims, s, p, 7));
    assert(!nets::crosses(dims, s, p, 8) && !nets::crosses(dims, s, p, 9));
    assert(!nets::crosses(dims, s, p, 10) && !nets::crosses(dims, s, p, 11));
}

proof fn active_cells_are_cut(dims: [usize; 3], s: Seq<Option<u32>>, p: Point)
    requires
        nets::active(dims, s, p),
    ensures
        all_there(dims, s, p),
        is_cut(dims, s, p),
{
    assert forall|a: int, b: int, c: int| bit(a) && bit(b) && bit(c) implies (#[trigger] at_corner(
        dims,
        s,
        p,
        a,
        b,
        c,
    )) is Some by {
        corner_steps(dims, s, p, a, b, c);
        assert(nets::known(dims, s, nets::corner(p, a + 2 * b + 4 * c)));
    }
    let e = choose|e: int| 0 <= e < 12 && #[trigger] nets::crosses(dims, s, p, e);
    let (m, n) = nets::edge_corners(e);
    assert(0 <= m < 8 && 0 <= n < 8);
    corner_of_number(m);
    corner_of_number(n);
    corner_steps(dims, s, p, m % 2, (m / 2) % 2, m / 4);
    corner_steps(dims, s, p, n % 2, (n / 2) % 2, n / 4);
    let u = at_corner(dims, s, p, m % 2, (m / 2) % 2, m / 4);
    let v = at_corner(dims, s, p, n % 2, (n / 2) % 2, n / 4);
    assert(solid(u) != solid(v));
}

proof fn cut_cells_are_active(dims: [usize; 3], s: Seq<Option<u32>>, p: Point)
    requires
        all_there(dims, s, p),
        is_cut(dims, s, p),
    ensures
        nets::active(dims, s, p),
{
    assert forall|n: int| 0 <= n < 8 implies nets::known(dims, s, #[trigger] nets::corner(p, n)) by {
        corner_of_number(n);
        corner_steps(dims, s, p, n % 2, (n / 2) % 2, n / 4);
        assert(at_corner(dims, s, p, n % 2, (n / 2) % 2, n / 4) is Some);
    }
    let (a, b, c) = choose|a: int, b: int, c: int|
        bit(a) && bit(b) && bit(c) && solid(#[trigger] at_corner(dims, s, p, a, b, c));
    let (d, e, f) = choose|a: int, b: int, c: int|
        bit(a) && bit(b) && bit(c) && !solid(#[trigger] at_corner(dims, s, p, a, b, c));
    corner_steps(dims, s, p, a, b, c);
    corner_steps(dims, s, p, d, e, f);
    if forall|k: int| 0 <= k < 12 ==> !#[trigger] nets::crosses(dims, s, p, k) {
        uncrossed_cell_is_uniform(dims, s, p, a + 2 * b + 4 * c);
        uncrossed_cell_is_uniform(dims, s, p, d + 2 * e + 4 * f);
    }
}

/// A cell carries a vertex exactly where every corner has a sample and the samples
/// are not all on one side of zero.
pub proof fn cut_cells_carry_vertices(dims: [usize; 3], s: Seq<Option<u32>>, cell: Point)
    ensures
        nets::net_cells(dims, s).contains(cell) <==> cell_in_grid(dims, cell) && all_there(
            dims,
            s,
            cell,
        ) && is_cut(dims, s, cell),
{
    let cells = nets::net_cells(dims, s);
    if cells.contains(cell) {
        let k = choose|k: int| 0 <= k < cells.len() && cells[k] == cell;
        net_laws::listed_cells_are_active(dims, s, k);
        active_cells_are_cut(dims, s, cell);
    }
    if cell_in_grid(dims, cell) && all_there(dims, s, cell) && is_cut(dims, s, cell) {
        cut_cells_are_active(dims, s, cell);
        net_laws::active_cells_are_listed(dims, s, cell);
    }
}

/// A grid edge between two samples of opposite sign, in a cell all of whose corners
/// have a sample, has a vertex in that cell.
pub proof fn crossed_edges_have_vertices(
    dims: [usize; 3],
    s: Seq<Option<u32>>,
    cell: Point,
    a: Point,
    b: Point,
)
    requires
        cell_in_grid(dims, cell),
        all_there(dims, s, cell),
        bit(a.0) && bit(a.1) && bit(a.2),
        bit(b.0) && bit(b.1) && bit(b.2),
        solid(at(dims, s, cell.0 + a.0, cell.1 + a.1, cell.2 + a.2)),
        !solid(at(dims, s, cell.0 + b.0, cell.1 + b.1, cell.2 + b.2)),
    ensures
        nets::net_cells(dims, s).contains(cell),
{
    assert(solid(at_corner(dims, s, cell, a.0, a.1, a.2)));
    assert(!solid(at_corner(dims, s, cell, b.0, b.1, b.2)));
    cut_cells_carry_vertices(dims, s, cell);
}

/// Each cell is listed once, in the order of storage: along x, then y, then z.
pub proof fn cells_are_listed_in_order(dims: [usize; 3], s: Seq<Option<u32>>, j: int, k: int)
    requires
        0 <= j < k < nets::net_cells(dims, s).len(),
    ensures
        ({
            let (p, q) = (nets::net_cells(dims, s)[j], nets::net_cells(dims, s)[k]);
            p.2 < q.2 || (p.2 == q.2 && (p.1 < q.1 || (p.1 == q.1 && p.0 < q.0)))
        }),
{
    first_cells_in_order(dims, s, nets::cells_along(dims, 2), j, k);
}

proof fn row_cells_in_order(
    dims: [usize; 3],
    s: Seq<Option<u32>>,
    x: int,
    y: int,
    z: int,
    j: int,
    k: int,
)
    requires
        0 <= j < k < nets::row_cells(dims, s, x, y, z).len(),
    ensures
        nets::row_cells(dims, s, x, y, z)[j].0 < nets::row_cells(dims, s, x, y, z)[k].0,
    decreases x,
{
    let n = nets::row_cells(dims, s, x - 1, y, z).len();
    if k < n {
        row_cells_in_order(dims, s, x - 1, y, z, j, k);
    } else {
        row_cell_bounds(dims, s, x - 1, y, z, j);
    }
}

proof fn row_cell_bounds(dims: [usize; 3], s: Seq<Option<u32>>, x: int, y: int, z: int, k: int)
    requires
        0 <= k < nets::row_cells(dims, s, x, y, z).len(),
    ensures
        ({
            let p = nets::row_cells(dims, s, x, y, z)[k];
            0 <= p.0 < x && p.1 == y && p.2 == z
        }),
    decreases x,
{
    if k < nets::row_cells(dims, s, x - 1, y, z).len() {
        row_cell_bounds(dims, s, x - 1, y, z, k);
    }
}

proof fn layer_cell_bounds(dims: [usize; 3], s: Seq<Option<u32>>, y: int, z: int, k: int)
    requires
        0 <= k < nets::layer_cells(dims, s, y, z).len(),
    ensures
        ({
            let p = nets::layer_cells(dims, s, y, z)[k];
            0 <= p.1 < y && p.2 == z
        }),
    decreases y,
{
    let n = nets::layer_cells(dims, s, y - 1, z).len();
    if k < n {
        layer_cell_bounds(dims, s, y - 1, z, k);
    } else {
        row_cell_bounds(dims, s, nets::cells_along(dims, 0), y - 1, z, k - n);
    }
}

proof fn layer_cells_in_order(
    dims: [usize; 3],
    s: Seq<Option<u32>>,
    y: int,
    z: int,
    j: int,
    k: int,
)
    requires
        0 <= j < k < nets::layer_cells(dims, s, y, z).len(),
    ensures
        ({
            let c = nets::layer_cells(dims, s, y, z);
            c[j].1 < c[k].1 || (c[j].1 == c[k].1 && c[j].0 < c[k].0)
        }),
    decreases y,
{
    let n = nets::layer_cells(dims, s, y - 1, z).len();
    let m = nets::cells_along(dims, 0);
    if k < n {
        layer_cells_in_order(dims, s, y - 1, z, j, k);
    } else {
        row_cell_bounds(dims, s, m, y - 1, z, k - n);
        if j < n {
            layer_cell_bounds(dims, s, y - 1, z, j);
        } else {
            row_cell_bounds(dims, s, m, y - 1, z, j - n);
            row_cells_in_order(dims, s, m, y - 1, z, j - n, k - n);
        }
    }
}

proof fn first_cell_bounds(dims: [usize; 3], s: Seq<Option<u32>>, z: int, k: int)
    requires
        0 <= k < nets::first_cells(dims, s, z).len(),
    ensures
        0 <= nets::first_cells(dims, s, z)[k].2 < z,
    decreases z,
{
    let n = nets::first_cells(dims, s, z - 1).len();
    if k < n {
        first_cell_bounds(dims, s, z - 1, k);
    } else {
        layer_cell_bounds(dims, s, nets::cells_along(dims, 1), z - 1, k - n);
    }
}

proof fn first_cells_in_order(dims: [usize; 3], s: Seq<Option<u32>>, z: int, j: int, k: int)
    requires
        0 <= j < k < nets::first_cells(dims, s, z).len(),
    ensures
        ({
            let (p, q) = (nets::first_cells(dims, s, z)[j], nets::first_cells(dims, s, z)[k]);
            p.2 < q.2 || (p.2 == q.2 && (p.1 < q.1 || (p.1 == q.1 && p.0 < q.0)))
        }),
    decreases z,
{
    let n = nets::first_cells(dims, s, z - 1).len();
    let m = nets::cells_along(dims, 1);
    if k < n {
        first_cells_in_order(dims, s, z - 1, j, k);
    } else {
        layer_cell_bounds(dims, s, m, z - 1, k - n);
        if j < n {
            first_cell_bounds(dims, s, z - 1, j);
        } else {
            layer_cell_bounds(dims, s, m, z - 1, j - n);
            layer_cells_in_order(dims, s, m, z - 1, j - n, k - n);
        }
    }
}

/// A vertex holds the samples of its cell's corners: the corner that is `a`, `b` and
/// `c` steps along the axes under the number `a + 2 * b + 4 * c`.
pub proof fn vertices_hold_their_corners(
    dims: [usize; 3],
    s: Seq<Option<u32>>,
    v: NetVertex,
    p: Point,
    a: int,
    b: int,
    c: int,
)
    requires
        nets::vertex_holds(dims, s, v, p),
        bit(a),
        bit(b),
        bit(c),
    ensures
        at(dims, s, v.cell.0 + a, v.cell.1 + b, v.cell.2 + c) == Some(v.values@[a + 2 * b + 4 * c]),
{
    corner_steps(dims, s, p, a, b, c);
    let n = a + 2 * b + 4 * c;
    assert(nets::sample(dims, s, nets::corner(p, n)) == Some(v.values@[n]));
}

/// Is the pair one of the first `n` edges, crossed?
spec fn is_crossed(values: [u32; 8], n: int, pair: (int, int)) -> bool {
    exists|f: int|
        0 <= f < n && #[trigger] nets::edge_corners(f) == pair && nets::value_crosses(values, f)
}

/// Are these the numbers of two corners of a cell one step apart, the lower first?
pub open spec fn is_edge(a: int, b: int) -> bool {
    &&& 0 <= a < b < 8
    &&& (b - a == 1 && a % 2 == 0) || (b - a == 2 && (a / 2) % 2 == 0) || (b - a == 4 && a < 4)
}

/// The surface crosses exactly the edges whose ends are on two sides of zero, and
/// each is listed once.
pub proof fn crossings_are_sign_changes(values: [u32; 8], a: int, b: int)
    requires
        is_edge(a, b),
    ensures
        nets::crossed_edges(values, 12).contains((a, b)) <==> ieee::less(values@[a], 0)
            != ieee::less(values@[b], 0),
        nets::crossed_edges(values, 12).no_duplicates(),
        forall|k: int|
            0 <= k < nets::crossed_edges(values, 12).len() ==> is_edge(
                (#[trigger] nets::crossed_edges(values, 12)[k]).0,
                nets::crossed_edges(values, 12)[k].1,
            ),
{
    let e = if b - a == 1 {
        a / 2
    } else if b - a == 2 {
        4 + (a / 4) * 2 + a % 2
    } else {
        8 + a
    };
    assert(nets::edge_corners(e) == (a, b));
    crossed_edges_are(values, 12);
    let list = nets::crossed_edges(values, 12);
    if list.contains((a, b)) {
        let k = choose|k: int| 0 <= k < list.len() && list[k] == (a, b);
        let f = choose|f: int|
            0 <= f < 12 && #[trigger] nets::edge_corners(f) == list[k] && nets::value_crosses(
                values,
                f,
            );
        edge_numbers_differ(e, f);
    }
    if nets::value_crosses(values, e) {
        crossed_edge_is_listed(values, e, 12);
    }
}

proof fn edge_numbers_differ(e: int, f: int)
    requires
        0 <= e < 12,
        0 <= f < 12,
        nets::edge_corners(e) == nets::edge_corners(f),
    ensures
        e == f,
{
}

proof fn crossed_edge_is_listed(values: [u32; 8], e: int, n: int)
    requires
        0 <= e < n,
        nets::value_crosses(values, e),
    ensures
        nets::crossed_edges(values, n).contains(nets::edge_corners(e)),
    decreases n,
{
    let before = nets::crossed_edges(values, n - 1);
    let all = nets::crossed_edges(values, n);
    if e == n - 1 {
        assert(all[before.len() as int] == nets::edge_corners(e));
    } else {
        crossed_edge_is_listed(values, e, n - 1);
        let k = choose|k: int| 0 <= k < before.len() && before[k] == nets::edge_corners(e);
        assert(all[k] == nets::edge_corners(e));
    }
}

proof fn crossed_edges_are(values: [u32; 8], n: int)
    requires
        n <= 12,
    ensures
        nets::crossed_edges(values, n).no_duplicates(),
        forall|k: int|
            0 <= k < nets::crossed_edges(values, n).len() ==> is_crossed(
                values,
                n,
                #[trigger] nets::crossed_edges(values, n)[k],
            ),
        forall|k: int|
            0 <= k < nets::crossed_edges(values, n).len() ==> is_edge(
                (#[trigger] nets::crossed_edges(values, n)[k]).0,
                nets::crossed_edges(values, n)[k].1,
            ),
    decreases n,
{
    if n > 0 {
        crossed_edges_are(values, n - 1);
        let before = nets::crossed_edges(values, n - 1);
        let all = nets::crossed_edges(values, n);
        assert(is_edge(nets::edge_corners(n - 1).0, nets::edge_corners(n - 1).1));
        assert forall|k: int| 0 <= k < all.len() implies is_crossed(
            values,
            n,
            #[trigger] all[k],
        ) by {
            if k < before.len() {
                assert(all[k] == before[k]);
                let f = choose|f: int|
                    0 <= f < n - 1 && #[trigger] nets::edge_corners(f) == before[k]
                        && nets::value_crosses(values, f);
                assert(0 <= f < n && nets::edge_corners(f) == all[k]);
            } else {
                assert(nets::edge_corners(n - 1) == all[k]);
            }
        }
        assert forall|i: int, j: int| 0 <= i < all.len() && 0 <= j < all.len() && i != j implies all[i]
            != all[j] by {
            if i < before.len() && j < before.len() {
                assert(all[i] == before[i] && all[j] == before[j]);
            } else {
                let k = if i < before.len() {
                    i
                } else {
                    j
                };
                assert(all[k] == before[k]);
                let f = choose|f: int|
                    0 <= f < n - 1 && #[trigger] nets::edge_corners(f) == before[k]
                        && nets::value_crosses(values, f);
                if all[i] == all[j] {
                    edge_numbers_differ(f, n - 1);
                }
            }
        }
    }
}

/// The point so many steps along an axis.
pub open spec fn stepped(p: Point, axis: int, n: int) -> Point {
    (
        p.0 + if axis == 0 {
            n
        } else {
            0
        },
        p.1 + if axis == 1 {
            n
        } else {
            0
        },
        p.2 + if axis == 2 {
            n
        } else {
            0
        },
    )
}

/// The four cells round the grid edge that leaves `p` along `axis`, the way from
/// the next axis to the one after it turns.
pub open spec fn round_edge(p: Point, axis: int) -> (Point, Point, Point, Point) {
    let (u, v) = ((axis + 1) % 3, (axis + 2) % 3);
    (p, stepped(p, u, -1), stepped(stepped(p, u, -1), v, -1), stepped(p, v, -1))
}

/// Does the list, cut in sixes, hold these six?
pub open spec fn holds_six(t: Seq<int>, six: Seq<int>) -> bool {
    exists|k: int|
        0 <= k && 6 * k + 6 <= t.len() && six == #[trigger] six_at(t, k)
}

/// The six numbers under `k` of the list cut in sixes.
pub open spec fn six_at(t: Seq<int>, k: int) -> Seq<int> {
    t.subrange(6 * k, 6 * k + 6)
}

/// Two triangles over a quad, facing the side that the quad turns about, or the
/// other.
pub open spec fn two_triangles(a: int, b: int, c: int, d: int, forward: bool) -> Seq<int> {
    if forward {
        seq![a, b, c, a, c, d]
    } else {
        seq![a, c, b, a, d, c]
    }
}

proof fn sixes_join(a: Seq<int>, b: Seq<int>, six: Seq<int>)
    requires
        a.len() % 6 == 0,
        b.len() % 6 == 0,
    ensures
        (a + b).len() % 6 == 0,
        holds_six(a, six) ==> holds_six(a + b, six),
        holds_six(b, six) ==> holds_six(a + b, six),
{
    if holds_six(a, six) {
        let k = choose|k: int| 0 <= k && 6 * k + 6 <= a.len() && six == #[trigger] six_at(a, k);
        assert(six_at(a + b, k) =~= six_at(a, k));
        assert(6 * k + 6 <= (a + b).len());
    }
    if holds_six(b, six) {
        let k = choose|k: int| 0 <= k && 6 * k + 6 <= b.len() && six == #[trigger] six_at(b, k);
        let m = (a.len() / 6) as int;
        assert(a.len() == 6 * m);
        assert(six_at(a + b, m + k) =~= six_at(b, k));
        assert(6 * (m + k) + 6 <= (a + b).len());
    }
}

proof fn edge_makes_six(dims: [usize; 3], s: Seq<Option<u32>>, p: Point, axis: int)
    ensures
        nets::edge_triangles(dims, s, p, axis).len() % 6 == 0,
        nets::has_quad(dims, s, p, axis) ==> nets::edge_triangles(dims, s, p, axis).len() == 6
            && holds_six(
            nets::edge_triangles(dims, s, p, axis),
            nets::edge_triangles(dims, s, p, axis),
        ),
        !nets::has_quad(dims, s, p, axis) ==> nets::edge_triangles(dims, s, p, axis).len() == 0,
{
    edge_size(dims, s, p, axis);
    let t = nets::edge_triangles(dims, s, p, axis);
    if t.len() == 6 {
        assert(six_at(t, 0) =~= t);
    }
}

proof fn quad_size(a: int, b: int, c: int, d: int, from_inside: bool)
    ensures
        nets::quad_triangles(a, b, c, d, from_inside).len() == 6,
{
}

proof fn edge_size(dims: [usize; 3], s: Seq<Option<u32>>, p: Point, axis: int)
    ensures
        nets::edge_triangles(dims, s, p, axis).len() == if nets::has_quad(dims, s, p, axis) {
            6nat
        } else {
            0
        },
{
    reveal(nets::edge_triangles);
    if nets::has_quad(dims, s, p, axis) {
        let q = nets::cells_around(p, axis);
        quad_size(
            nets::vertex_id(dims, s, q.0),
            nets::vertex_id(dims, s, q.1),
            nets::vertex_id(dims, s, q.2),
            nets::vertex_id(dims, s, q.3),
            nets::inside(dims, s, p),
        );
    }
}

proof fn point_holds_edge(dims: [usize; 3], s: Seq<Option<u32>>, p: Point, axis: int, six: Seq<int>)
    requires
        0 <= axis < 3,
    ensures
        nets::point_triangles(dims, s, p).len() % 6 == 0,
        holds_six(nets::edge_triangles(dims, s, p, axis), six) ==> holds_six(
            nets::point_triangles(dims, s, p),
            six,
        ),
{
    edge_makes_six(dims, s, p, 0);
    edge_makes_six(dims, s, p, 1);
    edge_makes_six(dims, s, p, 2);
    let (a, b, c) = (
        nets::edge_triangles(dims, s, p, 0),
        nets::edge_triangles(dims, s, p, 1),
        nets::edge_triangles(dims, s, p, 2),
    );
    sixes_join(a, b, six);
    sixes_join(a + b, c, six);
}

proof fn row_holds_point(
    dims: [usize; 3],
    s: Seq<Option<u32>>,
    m: int,
    p: Point,
    six: Seq<int>,
)
    ensures
        nets::row_triangles(dims, s, m, p.1, p.2).len() % 6 == 0,
        0 <= p.0 < m && holds_six(nets::point_triangles(dims, s, p), six) ==> holds_six(
            nets::row_triangles(dims, s, m, p.1, p.2),
            six,
        ),
    decreases m,
{
    if m > 0 {
        row_holds_point(dims, s, m - 1, p, six);
        point_holds_edge(dims, s, (m - 1, p.1, p.2), 0, six);
        sixes_join(
            nets::row_triangles(dims, s, m - 1, p.1, p.2),
            nets::point_triangles(dims, s, (m - 1, p.1, p.2)),
            six,
        );
    }
}

proof fn layer_holds_row(
    dims: [usize; 3],
    s: Seq<Option<u32>>,
    m: int,
    p: Point,
    six: Seq<int>,
)
    ensures
        nets::layer_triangles(dims, s, m, p.2).len() % 6 == 0,
        0 <= p.1 < m && holds_six(
            nets::row_triangles(dims, s, nets::cells_along(dims, 0), p.1, p.2),
            six,
        ) ==> holds_six(nets::layer_triangles(dims, s, m, p.2), six),
    decreases m,
{
    if m > 0 {
        layer_holds_row(dims, s, m - 1, p, six);
        row_holds_point(dims, s, nets::cells_along(dims, 0), (p.0, m - 1, p.2), six);
        sixes_join(
            nets::layer_triangles(dims, s, m - 1, p.2),
            nets::row_triangles(dims, s, nets::cells_along(dims, 0), m - 1, p.2),
            six,
        );
    }
}

proof fn first_holds_layer(
    dims: [usize; 3],
    s: Seq<Option<u32>>,
    m: int,
    p: Point,
    six: Seq<int>,
)
    ensures
        nets::first_triangles(dims, s, m).len() % 6 == 0,
        0 <= p.2 < m && holds_six(
            nets::layer_triangles(dims, s, nets::cells_along(dims, 1), p.2),
            six,
        ) ==> holds_six(nets::first_triangles(dims, s, m), six),
    decreases m,
{
    if m > 0 {
        first_holds_layer(dims, s, m - 1, p, six);
        layer_holds_row(dims, s, nets::cells_along(dims, 1), (p.0, p.1, m - 1), six);
        sixes_join(
            nets::first_triangles(dims, s, m - 1),
            nets::layer_triangles(dims, s, nets::cells_along(dims, 1), m - 1),
            six,
        );
    }
}

proof fn listed_cell(dims: [usize; 3], s: Seq<Option<u32>>, k: int, cell: Point)
    requires
        0 <= k < nets::net_cells(dims, s).len(),
        nets::net_cells(dims, s)[k] == cell,
    ensures
        nets::is_cell(dims, cell),
        nets::active(dims, s, cell),
        nets::vertex_id(dims, s, cell) == k,
        all_there(dims, s, cell),
{
    net_laws::listed_cells_are_active(dims, s, k);
    active_cells_are_cut(dims, s, cell);
}

/// Where a grid edge runs from one side of zero to the other, and the four cells
/// round it carry the vertices `a`, `b`, `c` and `d`, two triangles join these,
/// facing the end that is not below zero.
pub proof fn crossed_edges_have_triangles(
    dims: [usize; 3],
    s: Seq<Option<u32>>,
    p: Point,
    axis: int,
    a: int,
    b: int,
    c: int,
    d: int,
)
    requires
        0 <= axis < 3,
        ({
            let cells = nets::net_cells(dims, s);
            let q = round_edge(p, axis);
            &&& 0 <= a < cells.len() && cells[a] == q.0
            &&& 0 <= b < cells.len() && cells[b] == q.1
            &&& 0 <= c < cells.len() && cells[c] == q.2
            &&& 0 <= d < cells.len() && cells[d] == q.3
        }),
        ({
            let q = stepped(p, axis, 1);
            solid(at(dims, s, p.0, p.1, p.2)) != solid(at(dims, s, q.0, q.1, q.2))
        }),
    ensures
        nets::net_triangles(dims, s).len() % 6 == 0,
        holds_six(
            nets::net_triangles(dims, s),
            two_triangles(a, b, c, d, solid(at(dims, s, p.0, p.1, p.2))),
        ),
{
    let q = round_edge(p, axis);
    let far = stepped(p, axis, 1);
    assert(far == nets::far_end(p, axis));
    assert(q == nets::cells_around(p, axis));
    listed_cell(dims, s, a, q.0);
    listed_cell(dims, s, b, q.1);
    listed_cell(dims, s, c, q.2);
    listed_cell(dims, s, d, q.3);
    sample_is_at(dims, s, p.0, p.1, p.2);
    sample_is_at(dims, s, far.0, far.1, far.2);
    assert(at_corner(dims, s, p, 0, 0, 0) is Some);
    assert(at_corner(dims, s, p, 1, 0, 0) is Some);
    assert(at_corner(dims, s, p, 0, 1, 0) is Some);
    assert(at_corner(dims, s, p, 0, 0, 1) is Some);
    assert(nets::has_quad(dims, s, p, axis));
    let six = nets::edge_triangles(dims, s, p, axis);
    edge_makes_six(dims, s, p, axis);
    point_holds_edge(dims, s, p, axis, six);
    row_holds_point(dims, s, nets::cells_along(dims, 0), p, six);
    layer_holds_row(dims, s, nets::cells_along(dims, 1), p, six);
    first_holds_layer(dims, s, nets::cells_along(dims, 2), p, six);
    reveal(nets::edge_triangles);
    assert(six =~= two_triangles(a, b, c, d, solid(at(dims, s, p.0, p.1, p.2))));
}

/// Are these the two triangles round a grid edge that the surface crosses?
pub open spec fn joins_edge(
    dims: [usize; 3],
    s: Seq<Option<u32>>,
    six: Seq<int>,
    p: Point,
    axis: int,
) -> bool {
    let cells = nets::net_cells(dims, s);
    let q = round_edge(p, axis);
    let far = stepped(p, axis, 1);
    &&& 0 <= axis < 3
    &&& six.len() == 6
    &&& 0 <= six[0] < cells.len() && cells[six[0]] == q.0
    &&& solid(at(dims, s, p.0, p.1, p.2)) != solid(at(dims, s, far.0, far.1, far.2))
    &&& exists|b: int, c: int, d: int|
        0 <= b < cells.len() && 0 <= c < cells.len() && 0 <= d < cells.len() && cells[b] == q.1
            && cells[c] == q.2 && cells[d] == q.3 && six == #[trigger] two_triangles(
            six[0],
            b,
            c,
            d,
            solid(at(dims, s, p.0, p.1, p.2)),
        )
}

/// Are these two triangles round some grid edge that the surface crosses?
pub open spec fn joins_some_edge(dims: [usize; 3], s: Seq<Option<u32>>, six: Seq<int>) -> bool {
    exists|p: Point, axis: int| #[trigger] joins_edge(dims, s, six, p, axis)
}

/// Is every six of the list round a crossed grid edge?
spec fn all_join(dims: [usize; 3], s: Seq<Option<u32>>, t: Seq<int>) -> bool {
    &&& t.len() % 6 == 0
    &&& forall|k: int|
        0 <= k && 6 * k + 6 <= t.len() ==> joins_some_edge(dims, s, #[trigger] six_at(t, k))
}

proof fn all_join_joined(dims: [usize; 3], s: Seq<Option<u32>>, a: Seq<int>, b: Seq<int>)
    requires
        all_join(dims, s, a),
        all_join(dims, s, b),
    ensures
        all_join(dims, s, a + b),
{
    let m = (a.len() / 6) as int;
    assert(a.len() == 6 * m);
    assert forall|k: int| 0 <= k && 6 * k + 6 <= (a + b).len() implies joins_some_edge(
        dims,
        s,
        #[trigger] six_at(a + b, k),
    ) by {
        if k < m {
            assert(six_at(a + b, k) =~= six_at(a, k));
        } else {
            assert(six_at(a + b, k) =~= six_at(b, k - m));
        }
    }
}

proof fn edge_is_two_triangles(dims: [usize; 3], s: Seq<Option<u32>>, p: Point, axis: int)
    requires
        nets::has_quad(dims, s, p, axis),
        0 <= axis < 3,
    ensures
        ({
            let q = round_edge(p, axis);
            nets::edge_triangles(dims, s, p, axis) == two_triangles(
                nets::vertex_id(dims, s, q.0),
                nets::vertex_id(dims, s, q.1),
                nets::vertex_id(dims, s, q.2),
                nets::vertex_id(dims, s, q.3),
                nets::inside(dims, s, p),
            )
        }),
{
    reveal(nets::edge_triangles);
    assert(nets::cells_around(p, axis) == round_edge(p, axis));
}

proof fn quad_facts(dims: [usize; 3], s: Seq<Option<u32>>, p: Point, axis: int)
    requires
        nets::is_cell(dims, p),
        0 <= axis < 3,
        nets::has_quad(dims, s, p, axis),
    ensures
        ({
            let q = round_edge(p, axis);
            let far = stepped(p, axis, 1);
            &&& nets::is_cell(dims, q.0) && nets::active(dims, s, q.0)
            &&& nets::is_cell(dims, q.1) && nets::active(dims, s, q.1)
            &&& nets::is_cell(dims, q.2) && nets::active(dims, s, q.2)
            &&& nets::is_cell(dims, q.3) && nets::active(dims, s, q.3)
            &&& nets::inside(dims, s, p) == solid(at(dims, s, p.0, p.1, p.2))
            &&& solid(at(dims, s, p.0, p.1, p.2)) != solid(at(dims, s, far.0, far.1, far.2))
        }),
{
    assert(nets::cells_around(p, axis) == round_edge(p, axis));
    assert(nets::far_end(p, axis) == stepped(p, axis, 1));
    let far = stepped(p, axis, 1);
    sample_is_at(dims, s, p.0, p.1, p.2);
    sample_is_at(dims, s, far.0, far.1, far.2);
}

proof fn two_triangles_join(
    dims: [usize; 3],
    s: Seq<Option<u32>>,
    p: Point,
    axis: int,
    a: int,
    b: int,
    c: int,
    d: int,
)
    requires
        0 <= axis < 3,
        ({
            let cells = nets::net_cells(dims, s);
            let q = round_edge(p, axis);
            &&& 0 <= a < cells.len() && cells[a] == q.0
            &&& 0 <= b < cells.len() && cells[b] == q.1
            &&& 0 <= c < cells.len() && cells[c] == q.2
            &&& 0 <= d < cells.len() && cells[d] == q.3
        }),
        ({
            let far = stepped(p, axis, 1);
            solid(at(dims, s, p.0, p.1, p.2)) != solid(at(dims, s, far.0, far.1, far.2))
        }),
    ensures
        joins_edge(
            dims,
            s,
            two_triangles(a, b, c, d, solid(at(dims, s, p.0, p.1, p.2))),
            p,
            axis,
        ),
{
    let six = two_triangles(a, b, c, d, solid(at(dims, s, p.0, p.1, p.2)));
    assert(six.len() == 6 && six[0] == a);
    assert(six == two_triangles(six[0], b, c, d, solid(at(dims, s, p.0, p.1, p.2))));
}

proof fn quad_joins(dims: [usize; 3], s: Seq<Option<u32>>, p: Point, axis: int)
    requires
        nets::is_cell(dims, p),
        0 <= axis < 3,
        nets::has_quad(dims, s, p, axis),
    ensures
        joins_edge(dims, s, nets::edge_triangles(dims, s, p, axis), p, axis),
{
    let q = round_edge(p, axis);
    edge_is_two_triangles(dims, s, p, axis);
    quad_facts(dims, s, p, axis);
    let (a, b, c, d) = (
        nets::vertex_id(dims, s, q.0),
        nets::vertex_id(dims, s, q.1),
        nets::vertex_id(dims, s, q.2),
        nets::vertex_id(dims, s, q.3),
    );
    cell_number(dims, s, q.0);
    cell_number(dims, s, q.1);
    cell_number(dims, s, q.2);
    cell_number(dims, s, q.3);
    two_triangles_join(dims, s, p, axis, a, b, c, d);
}

proof fn cell_number(dims: [usize; 3], s: Seq<Option<u32>>, q: Point)
    requires
        nets::is_cell(dims, q),
        nets::active(dims, s, q),
    ensures
        0 <= nets::vertex_id(dims, s, q) < nets::net_cells(dims, s).len(),
        nets::net_cells(dims, s)[nets::vertex_id(dims, s, q)] == q,
{
    net_laws::active_cells_are_listed(dims, s, q);
}

proof fn edge_joins(dims: [usize; 3], s: Seq<Option<u32>>, p: Point, axis: int)
    requires
        nets::is_cell(dims, p),
        0 <= axis < 3,
    ensures
        all_join(dims, s, nets::edge_triangles(dims, s, p, axis)),
{
    let t = nets::edge_triangles(dims, s, p, axis);
    edge_size(dims, s, p, axis);
    if nets::has_quad(dims, s, p, axis) {
        quad_joins(dims, s, p, axis);
        assert(joins_some_edge(dims, s, t));
        assert forall|k: int| 0 <= k && 6 * k + 6 <= t.len() implies joins_some_edge(
            dims,
            s,
            #[trigger] six_at(t, k),
        ) by {
            assert(six_at(t, k) =~= t);
        }
    }
}

proof fn row_joins(dims: [usize; 3], s: Seq<Option<u32>>, x: int, y: int, z: int)
    requires
        x <= nets::cells_along(dims, 0),
        0 <= y < nets::cells_along(dims, 1),
        0 <= z < nets::cells_along(dims, 2),
    ensures
        all_join(dims, s, nets::row_triangles(dims, s, x, y, z)),
    decreases x,
{
    if x > 0 {
        let p = (x - 1, y, z);
        row_joins(dims, s, x - 1, y, z);
        edge_joins(dims, s, p, 0);
        edge_joins(dims, s, p, 1);
        edge_joins(dims, s, p, 2);
        let (a, b, c) = (
            nets::edge_triangles(dims, s, p, 0),
            nets::edge_triangles(dims, s, p, 1),
            nets::edge_triangles(dims, s, p, 2),
        );
        all_join_joined(dims, s, a, b);
        all_join_joined(dims, s, a + b, c);
        all_join_joined(dims, s, nets::row_triangles(dims, s, x - 1, y, z), a + b + c);
    }
}

proof fn layer_joins(dims: [usize; 3], s: Seq<Option<u32>>, y: int, z: int)
    requires
        y <= nets::cells_along(dims, 1),
        0 <= z < nets::cells_along(dims, 2),
    ensures
        all_join(dims, s, nets::layer_triangles(dims, s, y, z)),
    decreases y,
{
    if y > 0 {
        layer_joins(dims, s, y - 1, z);
        row_joins(dims, s, nets::cells_along(dims, 0), y - 1, z);
        all_join_joined(
            dims,
            s,
            nets::layer_triangles(dims, s, y - 1, z),
            nets::row_triangles(dims, s, nets::cells_along(dims, 0), y - 1, z),
        );
    }
}

proof fn first_joins(dims: [usize; 3], s: Seq<Option<u32>>, z: int)
    requires
        z <= nets::cells_along(dims, 2),
    ensures
        all_join(dims, s, nets::first_triangles(dims, s, z)),
    decreases z,
{
    if z > 0 {
        first_joins(dims, s, z - 1);
        layer_joins(dims, s, nets::cells_along(dims, 1), z - 1);
        all_join_joined(
            dims,
            s,
            nets::first_triangles(dims, s, z - 1),
            nets::layer_triangles(dims, s, nets::cells_along(dims, 1), z - 1),
        );
    }
}

/// The triangles come in pairs, each pair round a grid edge that runs from one side
/// of zero to the other, over the vertices of the four cells round it.
pub proof fn triangles_join_crossed_edges(dims: [usize; 3], s: Seq<Option<u32>>, k: int)
    requires
        0 <= k,
        6 * k + 6 <= nets::net_triangles(dims, s).len(),
    ensures
        joins_some_edge(dims, s, six_at(nets::net_triangles(dims, s), k)),
{
    first_joins(dims, s, nets::cells_along(dims, 2));
    assert(all_join(dims, s, nets::net_triangles(dims, s)));
}

} // verus!
