//! A field turned inside out: the net keeps its vertices, and its triangles face
//! the other way.

use crate::grid::{self, Point};
use crate::ieee;
use crate::surface_nets::{self as nets, NetVertex};
use vstd::prelude::*;

verus! {

/// The field with the sign of every distance turned.
pub open spec fn negated(s: Seq<Option<u32>>) -> Seq<Option<u32>> {
    s.map_values(
        |v: Option<u32>|
            match v {
                Some(d) => Some(ieee::opposite(d)),
                None => None,
            },
    )
}

/// Does every known distance say on which side the point lies: is none zero, and
/// none a NaN?
pub open spec fn takes_sides(s: Seq<Option<u32>>) -> bool {
    forall|i: int|
        0 <= i < s.len() ==> (#[trigger] s[i] matches Some(d) ==> !ieee::nan(d) && ieee::rank(d)
            != 0)
}

/// The triangles, each turned over: its last two vertices change places.
pub open spec fn turned_over(t: Seq<int>) -> Seq<int> {
    Seq::new(
        t.len(),
        |k: int|
            if k % 3 == 0 {
                t[k]
            } else if k % 3 == 1 {
                t[k + 1]
            } else {
                t[k - 1]
            },
    )
}

/// A point that was inside is outside, and the other way round.
proof fn sides_change(dims: [usize; 3], s: Seq<Option<u32>>, p: Point)
    requires
        s.len() == grid::volume(dims),
        takes_sides(s),
        grid::in_grid(dims, p),
    ensures
        nets::known(dims, negated(s), p) == nets::known(dims, s, p),
        nets::known(dims, s, p) ==> nets::inside(dims, negated(s), p) != nets::inside(dims, s, p),
        nets::sample(dims, s, p) matches Some(d) ==> nets::sample(dims, negated(s), p) == Some(
            ieee::opposite(d),
        ),
{
    grid::linear_in_volume(dims, p);
    let v = s[grid::linear(dims, p)];
    assert(negated(s)[grid::linear(dims, p)] == match v {
        Some(d) => Some(ieee::opposite(d)),
        None => None,
    });
    if let Some(d) = v {
        ieee::opposite_is_involutive(d);
        ieee::opposite_is_involutive(ieee::opposite(d));
    }
}

proof fn same_activity(dims: [usize; 3], s: Seq<Option<u32>>, p: Point)
    requires
        s.len() == grid::volume(dims),
        takes_sides(s),
        nets::is_cell(dims, p),
    ensures
        nets::active(dims, negated(s), p) == nets::active(dims, s, p),
{
    let t = negated(s);
    assert forall|c: int| 0 <= c < 8 implies {
        &&& nets::known(dims, t, #[trigger] nets::corner(p, c)) == nets::known(
            dims,
            s,
            nets::corner(p, c),
        )
        &&& nets::known(dims, s, nets::corner(p, c)) ==> nets::inside(
            dims,
            t,
            nets::corner(p, c),
        ) != nets::inside(dims, s, nets::corner(p, c))
    } by {
        sides_change(dims, s, nets::corner(p, c));
    }
    if forall|c: int| 0 <= c < 8 ==> nets::known(dims, s, #[trigger] nets::corner(p, c)) {
        assert forall|e: int| 0 <= e < 12 implies #[trigger] nets::crosses(dims, t, p, e)
            == nets::crosses(dims, s, p, e) by {
            let (a, b) = nets::edge_corners(e);
            assert(0 <= a < 8 && 0 <= b < 8);
            let (ca, cb) = (nets::corner(p, a), nets::corner(p, b));
            assert(nets::known(dims, s, ca) && nets::known(dims, s, cb));
        }
        if nets::active(dims, s, p) {
            let e = choose|e: int| 0 <= e < 12 && #[trigger] nets::crosses(dims, s, p, e);
            assert(nets::crosses(dims, t, p, e));
        }
    }
}

proof fn same_row(dims: [usize; 3], s: Seq<Option<u32>>, x: int, y: int, z: int)
    requires
        s.len() == grid::volume(dims),
        takes_sides(s),
        x <= nets::cells_along(dims, 0),
        0 <= y < nets::cells_along(dims, 1),
        0 <= z < nets::cells_along(dims, 2),
    ensures
        nets::row_cells(dims, negated(s), x, y, z) == nets::row_cells(dims, s, x, y, z),
    decreases x,
{
    if x > 0 {
        same_row(dims, s, x - 1, y, z);
        same_activity(dims, s, (x - 1, y, z));
    }
}

proof fn same_layer(dims: [usize; 3], s: Seq<Option<u32>>, y: int, z: int)
    requires
        s.len() == grid::volume(dims),
        takes_sides(s),
        y <= nets::cells_along(dims, 1),
        0 <= z < nets::cells_along(dims, 2),
    ensures
        nets::layer_cells(dims, negated(s), y, z) == nets::layer_cells(dims, s, y, z),
    decreases y,
{
    if y > 0 {
        same_layer(dims, s, y - 1, z);
        same_row(dims, s, nets::cells_along(dims, 0), y - 1, z);
    }
}

proof fn same_first(dims: [usize; 3], s: Seq<Option<u32>>, z: int)
    requires
        s.len() == grid::volume(dims),
        takes_sides(s),
        z <= nets::cells_along(dims, 2),
    ensures
        nets::first_cells(dims, negated(s), z) == nets::first_cells(dims, s, z),
    decreases z,
{
    if z > 0 {
        same_first(dims, s, z - 1);
        same_layer(dims, s, nets::cells_along(dims, 1), z - 1);
    }
}

proof fn same_number(dims: [usize; 3], s: Seq<Option<u32>>, p: Point)
    requires
        s.len() == grid::volume(dims),
        takes_sides(s),
        nets::is_cell(dims, p),
    ensures
        nets::vertex_id(dims, negated(s), p) == nets::vertex_id(dims, s, p),
        nets::active(dims, negated(s), p) == nets::active(dims, s, p),
{
    same_first(dims, s, p.2);
    same_layer(dims, s, p.1, p.2);
    same_row(dims, s, p.0, p.1, p.2);
    same_activity(dims, s, p);
}

proof fn quad_turns(a: int, b: int, c: int, e: int, from_inside: bool)
    ensures
        nets::quad_triangles(a, b, c, e, !from_inside) == turned_over(
            nets::quad_triangles(a, b, c, e, from_inside),
        ),
        nets::quad_triangles(a, b, c, e, from_inside).len() == 6,
{
    let t = nets::quad_triangles(a, b, c, e, from_inside);
    let u = nets::quad_triangles(a, b, c, e, !from_inside);
    assert forall|k: int| 0 <= k < 6 implies u[k] == turned_over(t)[k] by {
        assert(k == 0 || k == 1 || k == 2 || k == 3 || k == 4 || k == 5);
    }
    assert(u =~= turned_over(t));
}

proof fn same_quad(dims: [usize; 3], s: Seq<Option<u32>>, p: Point, axis: int)
    requires
        s.len() == grid::volume(dims),
        takes_sides(s),
        nets::is_cell(dims, p),
        0 <= axis < 3,
    ensures
        nets::has_quad(dims, negated(s), p, axis) == nets::has_quad(dims, s, p, axis),
        nets::has_quad(dims, s, p, axis) ==> nets::inside(dims, negated(s), p) != nets::inside(
            dims,
            s,
            p,
        ),
        nets::is_shared(p, axis) ==> ({
            let q = nets::cells_around(p, axis);
            &&& nets::vertex_id(dims, negated(s), q.0) == nets::vertex_id(dims, s, q.0)
            &&& nets::vertex_id(dims, negated(s), q.1) == nets::vertex_id(dims, s, q.1)
            &&& nets::vertex_id(dims, negated(s), q.2) == nets::vertex_id(dims, s, q.2)
            &&& nets::vertex_id(dims, negated(s), q.3) == nets::vertex_id(dims, s, q.3)
        }),
{
    sides_change(dims, s, p);
    sides_change(dims, s, nets::far_end(p, axis));
    if nets::is_shared(p, axis) {
        let q = nets::cells_around(p, axis);
        same_number(dims, s, q.0);
        same_number(dims, s, q.1);
        same_number(dims, s, q.2);
        same_number(dims, s, q.3);
    }
}

proof fn edge_turns(dims: [usize; 3], s: Seq<Option<u32>>, p: Point, axis: int)
    requires
        s.len() == grid::volume(dims),
        takes_sides(s),
        nets::is_cell(dims, p),
        0 <= axis < 3,
    ensures
        nets::edge_triangles(dims, negated(s), p, axis) == turned_over(
            nets::edge_triangles(dims, s, p, axis),
        ),
        nets::edge_triangles(dims, s, p, axis).len() % 3 == 0,
{
    reveal(nets::edge_triangles);
    same_quad(dims, s, p, axis);
    if nets::has_quad(dims, s, p, axis) {
        let q = nets::cells_around(p, axis);
        quad_turns(
            nets::vertex_id(dims, s, q.0),
            nets::vertex_id(dims, s, q.1),
            nets::vertex_id(dims, s, q.2),
            nets::vertex_id(dims, s, q.3),
            nets::inside(dims, s, p),
        );
    } else {
        assert(turned_over(Seq::<int>::empty()) =~= Seq::<int>::empty());
    }
}

proof fn joined_turns(a: Seq<int>, b: Seq<int>)
    requires
        a.len() % 3 == 0,
        b.len() % 3 == 0,
    ensures
        turned_over(a + b) == turned_over(a) + turned_over(b),
        (a + b).len() % 3 == 0,
{
    assert(turned_over(a + b) =~= turned_over(a) + turned_over(b));
}

proof fn row_turns(dims: [usize; 3], s: Seq<Option<u32>>, x: int, y: int, z: int)
    requires
        s.len() == grid::volume(dims),
        takes_sides(s),
        x <= nets::cells_along(dims, 0),
        0 <= y < nets::cells_along(dims, 1),
        0 <= z < nets::cells_along(dims, 2),
    ensures
        nets::row_triangles(dims, negated(s), x, y, z) == turned_over(
            nets::row_triangles(dims, s, x, y, z),
        ),
        nets::row_triangles(dims, s, x, y, z).len() % 3 == 0,
    decreases x,
{
    if x <= 0 {
        assert(turned_over(Seq::<int>::empty()) =~= Seq::<int>::empty());
    } else {
        row_turns(dims, s, x - 1, y, z);
        let p = (x - 1, y, z);
        edge_turns(dims, s, p, 0);
        edge_turns(dims, s, p, 1);
        edge_turns(dims, s, p, 2);
        let (a, b, c) = (
            nets::edge_triangles(dims, s, p, 0),
            nets::edge_triangles(dims, s, p, 1),
            nets::edge_triangles(dims, s, p, 2),
        );
        joined_turns(a, b);
        joined_turns(a + b, c);
        joined_turns(nets::row_triangles(dims, s, x - 1, y, z), a + b + c);
    }
}

proof fn layer_turns(dims: [usize; 3], s: Seq<Option<u32>>, y: int, z: int)
    requires
        s.len() == grid::volume(dims),
        takes_sides(s),
        y <= nets::cells_along(dims, 1),
        0 <= z < nets::cells_along(dims, 2),
    ensures
        nets::layer_triangles(dims, negated(s), y, z) == turned_over(
            nets::layer_triangles(dims, s, y, z),
        ),
        nets::layer_triangles(dims, s, y, z).len() % 3 == 0,
    decreases y,
{
    if y <= 0 {
        assert(turned_over(Seq::<int>::empty()) =~= Seq::<int>::empty());
    } else {
        layer_turns(dims, s, y - 1, z);
        row_turns(dims, s, nets::cells_along(dims, 0), y - 1, z);
        joined_turns(
            nets::layer_triangles(dims, s, y - 1, z),
            nets::row_triangles(dims, s, nets::cells_along(dims, 0), y - 1, z),
        );
    }
}

proof fn first_turns(dims: [usize; 3], s: Seq<Option<u32>>, z: int)
    requires
        s.len() == grid::volume(dims),
        takes_sides(s),
        z <= nets::cells_along(dims, 2),
    ensures
        nets::first_triangles(dims, negated(s), z) == turned_over(
            nets::first_triangles(dims, s, z),
        ),
        nets::first_triangles(dims, s, z).len() % 3 == 0,
    decreases z,
{
    if z <= 0 {
        assert(turned_over(Seq::<int>::empty()) =~= Seq::<int>::empty());
    } else {
        first_turns(dims, s, z - 1);
        layer_turns(dims, s, nets::cells_along(dims, 1), z - 1);
        joined_turns(
            nets::first_triangles(dims, s, z - 1),
            nets::layer_triangles(dims, s, nets::cells_along(dims, 1), z - 1),
        );
    }
}

/// Turning the sign of every distance, where none is zero, leaves the vertices of
/// the net in the cells where they were and turns every triangle over.
pub proof fn negated_net_is_turned_over(dims: [usize; 3], s: Seq<Option<u32>>)
    requires
        s.len() == grid::volume(dims),
        takes_sides(s),
    ensures
        nets::net_cells(dims, negated(s)) == nets::net_cells(dims, s),
        nets::net_triangles(dims, negated(s)) == turned_over(nets::net_triangles(dims, s)),
{
    same_first(dims, s, nets::cells_along(dims, 2));
    first_turns(dims, s, nets::cells_along(dims, 2));
}

/// Turning the sign of every distance, where none is zero, turns the corner values
/// of a vertex and leaves it the edges that the surface crosses.
pub proof fn negated_vertex_keeps_crossings(
    dims: [usize; 3],
    s: Seq<Option<u32>>,
    p: Point,
    v: NetVertex,
    w: NetVertex,
)
    requires
        s.len() == grid::volume(dims),
        takes_sides(s),
        nets::is_cell(dims, p),
        nets::vertex_holds(dims, s, v, p),
        nets::vertex_holds(dims, negated(s), w, p),
    ensures
        forall|c: int|
            0 <= c < 8 ==> #[trigger] w.values@[c] == ieee::opposite(v.values@[c]),
        nets::crossed_edges(w.values, 12) == nets::crossed_edges(v.values, 12),
{
    assert forall|c: int| 0 <= c < 8 implies #[trigger] w.values@[c] == ieee::opposite(
        v.values@[c],
    ) && ieee::below_zero(w.values@[c]) != ieee::below_zero(v.values@[c]) by {
        sides_change(dims, s, nets::corner(p, c));
        assert(nets::sample(dims, s, nets::corner(p, c)) == Some(v.values@[c]));
        assert(nets::sample(dims, negated(s), nets::corner(p, c)) == Some(w.values@[c]));
    }
    same_crossings(v.values, w.values, 12);
}

proof fn same_crossings(v: [u32; 8], w: [u32; 8], n: int)
    requires
        n <= 12,
        forall|c: int|
            0 <= c < 8 ==> ieee::below_zero(#[trigger] w@[c]) != ieee::below_zero(v@[c]),
    ensures
        nets::crossed_edges(w, n) == nets::crossed_edges(v, n),
    decreases n,
{
    if n > 0 {
        same_crossings(v, w, n - 1);
        let (a, b) = nets::edge_corners(n - 1);
        assert(0 <= a < 8 && 0 <= b < 8);
        assert(ieee::below_zero(w@[a]) != ieee::below_zero(v@[a]));
        assert(ieee::below_zero(w@[b]) != ieee::below_zero(v@[b]));
    }
}

} // verus!
