//! What holds of neighbours: of points in cells, of vertices in triangles, and of
//! values in order.

use crate::cells::{self, Cell};
use crate::ieee;
use crate::mesh;
use crate::sorting;
use crate::splat_ply::SplatCloud;
use crate::surface_laws;
use crate::surface_nets::{self as nets, NetVertex};
use crate::tsdf;
use vstd::prelude::*;

verus! {

/// Is this corner of the triangle the vertex?
pub open spec fn corner_is(indices: Seq<u32>, t: int, corner: int, v: int) -> bool {
    indices[3 * t + corner] == v
}

/// Do two different corners of the triangle stand at the two vertices?
pub open spec fn in_triangle(indices: Seq<u32>, t: int, u: int, v: int) -> bool {
    exists|j: int, k: int|
        0 <= j < 3 && 0 <= k < 3 && j != k && #[trigger] corner_is(indices, t, j, u)
            && #[trigger] corner_is(indices, t, k, v)
}

/// Two vertices are neighbours if and only if they are different corners of one
/// triangle.
pub proof fn neighbors_share_a_triangle(indices: Seq<u32>, n: int, u: int, v: int)
    ensures
        mesh::linked(indices, n, u, v) <==> exists|t: int|
            0 <= t < n && #[trigger] in_triangle(indices, t, u, v),
{
    if mesh::linked(indices, n, u, v) {
        let t = choose|t: int| 0 <= t < n && #[trigger] mesh::side_in(indices, t, u, v);
        side_has_two_corners(indices, t, u, v);
        assert(in_triangle(indices, t, u, v));
    }
    assert forall|t: int|
        0 <= t < n && #[trigger] in_triangle(indices, t, u, v) implies mesh::linked(
        indices,
        n,
        u,
        v,
    ) by {
        side_has_two_corners(indices, t, u, v);
        assert(mesh::side_in(indices, t, u, v));
    }
}

proof fn side_has_two_corners(indices: Seq<u32>, t: int, u: int, v: int)
    ensures
        mesh::side_in(indices, t, u, v) <==> in_triangle(indices, t, u, v),
{
    let (a, b, c) = (indices[3 * t] as int, indices[3 * t + 1] as int, indices[3 * t + 2] as int);
    assert(corner_is(indices, t, 0, u) == (a == u));
    assert(corner_is(indices, t, 1, u) == (b == u));
    assert(corner_is(indices, t, 2, u) == (c == u));
    assert(corner_is(indices, t, 0, v) == (a == v));
    assert(corner_is(indices, t, 1, v) == (b == v));
    assert(corner_is(indices, t, 2, v) == (c == v));
    if in_triangle(indices, t, u, v) {
        let (j, k) = choose|j: int, k: int|
            0 <= j < 3 && 0 <= k < 3 && j != k && #[trigger] corner_is(indices, t, j, u)
                && #[trigger] corner_is(indices, t, k, v);
        assert(j == 0 || j == 1 || j == 2);
        assert(k == 0 || k == 1 || k == 2);
    }
}

/// A cell holds the items that lie in it, in the order in which they come: one more
/// item is found behind the others in its own cell, and changes no other.
pub proof fn cells_hold_their_items(cells: Seq<Cell>, ids: Seq<u32>, d: Cell, id: u32, c: Cell)
    requires
        cells.len() == ids.len(),
    ensures
        cells::items_in(cells.push(d), ids.push(id), c) == if c == d {
            cells::items_in(cells, ids, c).push(id)
        } else {
            cells::items_in(cells, ids, c)
        },
        cells::items_in(Seq::<Cell>::empty(), Seq::<u32>::empty(), c) == Seq::<u32>::empty(),
{
    assert(cells.push(d).drop_last() =~= cells);
    more_ids_change_nothing(cells, ids, ids.push(id), c);
}

proof fn more_ids_change_nothing(cells: Seq<Cell>, ids: Seq<u32>, more: Seq<u32>, c: Cell)
    requires
        cells.len() <= ids.len(),
        cells.len() <= more.len(),
        forall|k: int| 0 <= k < cells.len() ==> ids[k] == more[k],
    ensures
        cells::items_in(cells, ids, c) == cells::items_in(cells, more, c),
    decreases cells.len(),
{
    if cells.len() > 0 {
        more_ids_change_nothing(cells.drop_last(), ids, more, c);
    }
}

/// Does an item with this number lie as far from `c` as the shell, or anywhere within
/// the first shell?
pub open spec fn lies_in_shell(
    cells: Seq<Cell>,
    ids: Seq<u32>,
    c: Cell,
    shell: int,
    id: u32,
) -> bool {
    exists|j: int|
        0 <= j < cells.len() && #[trigger] ids[j] == id && cells::apart(c, cells[j]) <= shell && (
        shell <= 1 || cells::apart(c, cells[j]) == shell)
}

/// Every candidate lies as far off as the shell that it was found in, or anywhere
/// within the first.
pub proof fn candidates_lie_in_their_shell(
    cells: Seq<Cell>,
    ids: Seq<u32>,
    c: Cell,
    shell: int,
    id: u32,
)
    requires
        cells.len() == ids.len(),
        1 <= shell,
        cells::around(cells, ids, c, shell).contains(id),
    ensures
        lies_in_shell(cells, ids, c, shell, id),
{
    let w = cells::cube_width(shell);
    step_finds(cells, ids, c, shell, w * w * w, id);
    let k = choose|k: int|
        0 <= k < w * w * w && (#[trigger] cells::found_at_step(cells, ids, c, shell, k)).contains(id);
    let o = cells::cube_offset(shell, k);
    offsets_are_within(shell, k);
    let d = cells::cell_at(c, o)->0;
    item_has_a_place(cells, ids, d, id);
    let j = choose|j: int| 0 <= j < cells.len() && #[trigger] ids[j] == id && cells[j] == d;
    assert(cells::apart(c, cells[j]) <= shell);
    assert(ids[j] == id);
}

proof fn offsets_are_within(shell: int, k: int)
    requires
        1 <= shell,
        0 <= k < cells::cube_width(shell) * cells::cube_width(shell) * cells::cube_width(shell),
    ensures
        ({
            let o = cells::cube_offset(shell, k);
            -shell <= o.0 <= shell && -shell <= o.1 <= shell && -shell <= o.2 <= shell
        }),
{
    let w = cells::cube_width(shell);
    let s = w * w;
    assert(s > 0) by (nonlinear_arith)
        requires
            s == w * w,
            w >= 3,
    ;
    vstd::arithmetic::div_mod::lemma_mod_bound(k, w);
    vstd::arithmetic::div_mod::lemma_mod_bound(k / w, w);
    assert(0 <= k / s < w) by (nonlinear_arith)
        requires
            0 <= k < s * w,
            s > 0,
            w > 0,
    ;
}

proof fn step_finds(cells: Seq<Cell>, ids: Seq<u32>, c: Cell, shell: int, n: int, id: u32)
    requires
        cells::found_within(cells, ids, c, shell, n).contains(id),
    ensures
        exists|k: int|
            0 <= k < n && (#[trigger] cells::found_at_step(cells, ids, c, shell, k)).contains(id),
    decreases n,
{
    let all = cells::found_within(cells, ids, c, shell, n);
    let a = choose|a: int| 0 <= a < all.len() && all[a] == id;
    if n > 0 {
        let before = cells::found_within(cells, ids, c, shell, n - 1);
        let here = cells::found_at_step(cells, ids, c, shell, n - 1);
        if a < before.len() {
            assert(before[a] == id);
            step_finds(cells, ids, c, shell, n - 1, id);
        } else {
            assert(here[a - before.len()] == id);
        }
    }
}

proof fn item_has_a_place(cells: Seq<Cell>, ids: Seq<u32>, c: Cell, id: u32)
    requires
        cells.len() <= ids.len(),
        cells::items_in(cells, ids, c).contains(id),
    ensures
        exists|j: int| 0 <= j < cells.len() && #[trigger] ids[j] == id && cells[j] == c,
    decreases cells.len(),
{
    let all = cells::items_in(cells, ids, c);
    let a = choose|a: int| 0 <= a < all.len() && all[a] == id;
    if cells.len() > 0 {
        let before = cells::items_in(cells.drop_last(), ids, c);
        if a < before.len() {
            assert(before[a] == id);
            item_has_a_place(cells.drop_last(), ids, c, id);
            let j = choose|j: int|
                0 <= j < cells.len() - 1 && #[trigger] ids[j] == id && cells.drop_last()[j] == c;
            assert(cells[j] == c);
            assert(ids[j] == id);
        } else {
            assert(ids[cells.len() - 1] == id);
        }
    }
}

/// The search goes on up to the third shell, unless something was found that is no
/// farther off than all that was searched.
pub proof fn search_goes_three_shells_out(shell: u32, best: u32, reach: u32)
    ensures
        cells::search_ends(shell, None, reach) <==> shell >= 3,
        cells::search_ends(shell, Some(best), reach) <==> shell >= 3 || (!ieee::nan(best)
            && !ieee::nan(reach) && !ieee::less(reach, best)),
{
}

/// Of distances that are as small, the first is picked.
pub proof fn first_nearest_is_picked(d2: Seq<u32>, n: int, k: int)
    requires
        0 <= n <= d2.len(),
        cells::nearest_of(d2, n) is Some,
        0 <= k < cells::nearest_of(d2, n)->0,
    ensures
        ieee::nan(d2[k]) || ieee::less(d2[cells::nearest_of(d2, n)->0], d2[k]),
    decreases n,
{
    if n > 0 {
        cells::nearest_is_smallest(d2, n - 1);
        cells::nearest_is_smallest(d2, n);
        let best = cells::nearest_of(d2, n)->0;
        if best == n - 1 {
            match cells::nearest_of(d2, n - 1) {
                Some(b) => {
                    assert(!ieee::less(d2[k], d2[b]));
                },
                None => {
                    assert(!ieee::less(d2[k], ieee::INFINITY));
                },
            }
        } else {
            first_nearest_is_picked(d2, n - 1, k);
        }
    }
}

/// What stands at place `k` of the sorted values has `k` values of which none is
/// above it, and none of the others is below it.
pub proof fn sorted_values_part_at_their_place(values: Seq<u32>, k: int, v: u32)
    requires
        0 <= k < values.len(),
        tsdf::stands_at(values, k, v),
    ensures
        exists|order: Seq<usize>|
            #![trigger sorting::each_once(order, values.len() as int)]
            sorting::each_once(order, values.len() as int) && values[order[k] as int] == v && (
            forall|a: int|
                0 <= a < k ==> ieee::total_rank(values[#[trigger] order[a] as int])
                    <= ieee::total_rank(v)) && (forall|a: int|
                k < a < values.len() ==> ieee::total_rank(v) <= ieee::total_rank(
                    values[#[trigger] order[a] as int],
                )),
{
    let order = choose|order: Seq<usize>| #[trigger]
        tsdf::sorted_values(values, order) && v == values[order[k] as int];
    assert(sorting::each_once(order, values.len() as int));
    assert forall|a: int| 0 <= a < k implies ieee::total_rank(values[#[trigger] order[a] as int])
        <= ieee::total_rank(v) by {
        assert(order[k] == order[k]);
    }
    assert forall|a: int| k < a < values.len() implies ieee::total_rank(v) <= ieee::total_rank(
        values[#[trigger] order[a] as int],
    ) by {
        assert(order[k] == order[k]);
    }
}

/// The phases follow each other as they are told, and closing is one of them only
/// where the mesh is to be watertight.
pub proof fn phases_follow_each_other()
    ensures
        tsdf::phases_of(false) == seq![
            "Filtering gaussians"@,
            "Fusing TSDF"@,
            "Extracting surface"@,
            "Smoothing"@,
            "Transferring colors"@,
        ],
        tsdf::phases_of(true) == seq![
            "Filtering gaussians"@,
            "Fusing TSDF"@,
            "Closing surface"@,
            "Extracting surface"@,
            "Smoothing"@,
            "Transferring colors"@,
        ],
{
    assert(tsdf::phases_of(false) =~= seq![
        "Filtering gaussians"@,
        "Fusing TSDF"@,
        "Extracting surface"@,
        "Smoothing"@,
        "Transferring colors"@,
    ]);
    assert(tsdf::phases_of(true) =~= seq![
        "Filtering gaussians"@,
        "Fusing TSDF"@,
        "Closing surface"@,
        "Extracting surface"@,
        "Smoothing"@,
        "Transferring colors"@,
    ]);
}

/// A gaussian that is kept keeps its position, scale, rotation, opacity and colour.
pub proof fn gaussians_are_kept_whole(
    part: SplatCloud,
    whole: SplatCloud,
    places: Seq<int>,
    k: int,
)
    requires
        tsdf::is_part(part, whole, places),
        0 <= k < places.len(),
    ensures
        part.positions@.len() == places.len(),
        part.positions@[k] == whole.positions@[places[k]],
        part.scales@[k] == whole.scales@[places[k]],
        part.rotations@[k] == whole.rotations@[places[k]],
        part.opacities@[k] == whole.opacities@[places[k]],
        part.colors@[k] == whole.colors@[places[k]],
{
}

/// Each step of the way round a cell finds the items of the cell at its offset, if
/// that lies in the first cube or on the outside of a larger one, and nothing
/// otherwise; and what it finds comes behind what the steps before it found.
pub proof fn steps_find_their_cells(
    cells: Seq<Cell>,
    ids: Seq<u32>,
    c: Cell,
    d: Cell,
    shell: int,
)
    requires
        1 <= shell,
        -shell <= d.0 - c.0 <= shell,
        -shell <= d.1 - c.1 <= shell,
        -shell <= d.2 - c.2 <= shell,
    ensures
        ({
            let w = 2 * shell + 1;
            let k = ((d.2 - c.2 + shell) * w + (d.1 - c.1 + shell)) * w + (d.0 - c.0 + shell);
            let here = if shell == 1 || cells::apart(c, d) == shell {
                cells::items_in(cells, ids, d)
            } else {
                Seq::<u32>::empty()
            };
            &&& 0 <= k < w * w * w
            &&& cells::found_within(cells, ids, c, shell, k + 1) == cells::found_within(
                cells,
                ids,
                c,
                shell,
                k,
            ) + here
        }),
        cells::found_within(cells, ids, c, shell, 0).len() == 0,
        cells::around(cells, ids, c, shell) == cells::found_within(
            cells,
            ids,
            c,
            shell,
            (2 * shell + 1) * (2 * shell + 1) * (2 * shell + 1),
        ),
{
    cells::cube_step_of(shell, d.0 - c.0 + shell, d.1 - c.1 + shell, d.2 - c.2 + shell);
}

/// A net has one vertex in each cell that the surface cuts, in their order, with the
/// distances at the eight corners of that cell; and its triangles are those that join
/// the vertices round the edges that the surface crosses, in their order.
pub proof fn nets_are_whole(
    dims: [usize; 3],
    samples: Seq<Option<u32>>,
    vertices: Seq<NetVertex>,
    indices: Seq<u32>,
    k: int,
    a: int,
    b: int,
    c: int,
    i: int,
)
    requires
        tsdf::is_net(dims, samples, vertices, indices),
        0 <= k < vertices.len(),
        surface_laws::bit(a),
        surface_laws::bit(b),
        surface_laws::bit(c),
        0 <= i < indices.len(),
    ensures
        vertices.len() == nets::net_cells(dims, samples).len(),
        ({
            let cell = nets::net_cells(dims, samples)[k];
            let v = vertices[k];
            &&& v.cell.0 == cell.0 && v.cell.1 == cell.1 && v.cell.2 == cell.2
            &&& surface_laws::at(dims, samples, cell.0 + a, cell.1 + b, cell.2 + c) == Some(
                v.values@[a + 2 * b + 4 * c],
            )
        }),
        indices.len() == nets::net_triangles(dims, samples).len(),
        indices[i] == nets::net_triangles(dims, samples)[i],
{
    let cell = nets::net_cells(dims, samples)[k];
    assert(nets::vertex_holds(dims, samples, vertices[k], cell));
    surface_laws::vertices_hold_their_corners(dims, samples, vertices[k], cell, a, b, c);
    assert(nets::ids(indices)[i] == indices[i]);
}

/// A list has a vertex if and only if the vertex stands in it.
pub proof fn lists_have_what_stands_in_them(list: Seq<u32>, v: u32)
    ensures
        mesh::has(list, v as int) <==> list.contains(v),
{
    if mesh::has(list, v as int) {
        let k = choose|k: int| 0 <= k < list.len() && #[trigger] list[k] == v as int;
        assert(list[k] == v);
    }
    if list.contains(v) {
        let k = choose|k: int| 0 <= k < list.len() && list[k] == v;
        assert(list[k] == v as int);
    }
}

} // verus!
