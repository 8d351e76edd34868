//! The voxel grid: coordinates, linear indices and neighbours.

use vstd::prelude::*;

verus! {

/// A grid point.
pub type Point = (int, int, int);

/// The number of points of a grid.
pub open spec fn volume(dims: [usize; 3]) -> int {
    dims@[0] * dims@[1] * dims@[2]
}

/// Does the point lie in the grid?
pub open spec fn in_grid(dims: [usize; 3], p: Point) -> bool {
    &&& 0 <= p.0 < dims@[0]
    &&& 0 <= p.1 < dims@[1]
    &&& 0 <= p.2 < dims@[2]
}

/// The place of a point in storage: x runs fastest, then y, then z.
pub open spec fn linear(dims: [usize; 3], p: Point) -> int {
    (p.2 * dims@[1] + p.1) * dims@[0] + p.0
}

/// The point that is stored at a place.
pub open spec fn point_at(dims: [usize; 3], i: int) -> Point {
    (i % (dims@[0] as int), (i / (dims@[0] as int)) % (dims@[1] as int), i / (dims@[0] * dims@[1]))
}

/// A point of the grid is stored within it.
pub proof fn linear_in_volume(dims: [usize; 3], p: Point)
    requires
        in_grid(dims, p),
    ensures
        0 <= linear(dims, p) < volume(dims),
        0 <= p.2 * dims@[1] + p.1 < dims@[1] * dims@[2],
        0 <= p.2 * dims@[1],
{
    let (nx, ny, nz) = (dims@[0] as int, dims@[1] as int, dims@[2] as int);
    let row = p.2 * ny + p.1;
    assert(0 <= p.2 * ny) by (nonlinear_arith)
        requires
            0 <= p.2,
            0 <= ny,
    ;
    assert(row <= ny * nz - 1) by (nonlinear_arith)
        requires
            row == p.2 * ny + p.1,
            0 <= p.1 < ny,
            0 <= p.2 < nz,
    ;
    assert(0 <= row * nx) by (nonlinear_arith)
        requires
            0 <= row,
            0 <= nx,
    ;
    assert(row * nx + p.0 < nx * ny * nz) by (nonlinear_arith)
        requires
            row <= ny * nz - 1,
            0 <= p.0 < nx,
    ;
}

/// Storage and coordinates name the same points.
pub proof fn point_at_linear(dims: [usize; 3], p: Point)
    requires
        in_grid(dims, p),
    ensures
        point_at(dims, linear(dims, p)) == p,
{
    let (nx, ny, nz) = (dims@[0] as int, dims@[1] as int, dims@[2] as int);
    let i = linear(dims, p);
    let row = p.2 * ny + p.1;
    vstd::arithmetic::div_mod::lemma_fundamental_div_mod_converse(i, nx, row, p.0);
    vstd::arithmetic::div_mod::lemma_fundamental_div_mod_converse(row, ny, p.2, p.1);
    let rest = p.1 * nx + p.0;
    assert(i == p.2 * (nx * ny) + rest) by (nonlinear_arith)
        requires
            i == (p.2 * ny + p.1) * nx + p.0,
            rest == p.1 * nx + p.0,
    ;
    assert(0 <= rest < nx * ny) by (nonlinear_arith)
        requires
            rest == p.1 * nx + p.0,
            0 <= p.0 < nx,
            0 <= p.1 < ny,
    ;
    vstd::arithmetic::div_mod::lemma_fundamental_div_mod_converse(i, nx * ny, p.2, rest);
}

/// Every place of the storage holds a point of the grid.
pub proof fn linear_point_at(dims: [usize; 3], i: int)
    requires
        0 <= i < volume(dims),
    ensures
        in_grid(dims, point_at(dims, i)),
        linear(dims, point_at(dims, i)) == i,
        dims@[0] > 0,
        dims@[1] > 0,
        dims@[2] > 0,
        dims@[0] * dims@[1] > 0,
{
    let (nx, ny, nz) = (dims@[0] as int, dims@[1] as int, dims@[2] as int);
    assert(nx > 0 && ny > 0 && nz > 0) by (nonlinear_arith)
        requires
            nx >= 0,
            ny >= 0,
            nz >= 0,
            nx * ny * nz > 0,
    ;
    assert(nx * ny > 0) by (nonlinear_arith)
        requires
            nx > 0,
            ny > 0,
    ;
    let x = i % nx;
    let row = i / nx;
    let y = row % ny;
    let z = row / ny;
    assert(i == row * nx + x && 0 <= x < nx) by (nonlinear_arith)
        requires
            x == i % nx,
            row == i / nx,
            nx > 0,
    ;
    assert(row == z * ny + y && 0 <= y < ny) by (nonlinear_arith)
        requires
            y == row % ny,
            z == row / ny,
            ny > 0,
    ;
    assert(row >= 0) by (nonlinear_arith)
        requires
            row == i / nx,
            i >= 0,
            nx > 0,
    ;
    assert(z >= 0) by (nonlinear_arith)
        requires
            z == row / ny,
            row >= 0,
            ny > 0,
    ;
    assert(z < nz) by (nonlinear_arith)
        requires
            i == row * nx + x,
            row == z * ny + y,
            x >= 0,
            y >= 0,
            nx > 0,
            ny > 0,
            z >= 0,
            i < nx * ny * nz,
    ;
    point_at_linear(dims, (x, y, z));
    assert(linear(dims, (x, y, z)) == i);
}

/// Two points are stored at the same place only if they are the same.
pub proof fn linear_is_injective(dims: [usize; 3], p: Point, q: Point)
    requires
        in_grid(dims, p),
        in_grid(dims, q),
        linear(dims, p) == linear(dims, q),
    ensures
        p == q,
{
    point_at_linear(dims, p);
    point_at_linear(dims, q);
}

/// Do the points differ by one step along one axis?
pub open spec fn adjacent(p: Point, q: Point) -> bool {
    ||| (p.1 == q.1 && p.2 == q.2 && (p.0 == q.0 + 1 || q.0 == p.0 + 1))
    ||| (p.0 == q.0 && p.2 == q.2 && (p.1 == q.1 + 1 || q.1 == p.1 + 1))
    ||| (p.0 == q.0 && p.1 == q.1 && (p.2 == q.2 + 1 || q.2 == p.2 + 1))
}

/// Are the points that are stored at the two places neighbours in the grid?
pub open spec fn touching(dims: [usize; 3], i: int, j: int) -> bool {
    &&& 0 <= i < volume(dims)
    &&& 0 <= j < volume(dims)
    &&& adjacent(point_at(dims, i), point_at(dims, j))
}

/// Does the point lie on the outer layer of the grid?
pub open spec fn on_boundary(dims: [usize; 3], p: Point) -> bool {
    ||| p.0 == 0
    ||| p.1 == 0
    ||| p.2 == 0
    ||| p.0 == dims@[0] - 1
    ||| p.1 == dims@[1] - 1
    ||| p.2 == dims@[2] - 1
}

/// The place of `p` in storage, once, where it lies in the grid.
pub open spec fn place(dims: [usize; 3], p: Point) -> Seq<int> {
    if in_grid(dims, p) {
        seq![linear(dims, p)]
    } else {
        Seq::empty()
    }
}

/// The places of the neighbours of `p`: x down, x up, y down, y up, z down,
/// z up, leaving out those beyond the grid.
pub open spec fn neighbor_places(dims: [usize; 3], p: Point) -> Seq<int> {
    place(dims, (p.0 - 1, p.1, p.2)) + place(dims, (p.0 + 1, p.1, p.2)) + place(
        dims,
        (p.0, p.1 - 1, p.2),
    ) + place(dims, (p.0, p.1 + 1, p.2)) + place(dims, (p.0, p.1, p.2 - 1)) + place(
        dims,
        (p.0, p.1, p.2 + 1),
    )
}

/// Places as mathematical integers.
pub open spec fn as_ints(v: Seq<usize>) -> Seq<int> {
    v.map_values(|i: usize| i as int)
}

/// The stored grid: how many voxels there are along each axis, the bits of
/// the coordinates of its lowest corner and of the edge length of a voxel.
#[derive(Debug, Clone, Copy)]
pub struct Grid {
    pub dims: [usize; 3],
    pub origin: [u32; 3],
    pub voxel: u32,
}

impl Grid {
    /// The place of a voxel in storage.
    pub fn index(&self, x: usize, y: usize, z: usize) -> (i: usize)
        requires
            in_grid(self.dims, (x as int, y as int, z as int)),
            volume(self.dims) <= usize::MAX,
        ensures
            i == linear(self.dims, (x as int, y as int, z as int)),
            i < volume(self.dims),
    {
        voxel_index(&self.dims, x, y, z)
    }

    /// The number of voxels.
    pub fn num_voxels(&self) -> (n: usize)
        requires
            volume(self.dims) <= usize::MAX,
            self.dims@[0] * self.dims@[1] <= usize::MAX,
        ensures
            n == volume(self.dims),
    {
        self.dims[0] * self.dims[1] * self.dims[2]
    }
}

/// The place of a voxel in storage.
pub fn voxel_index(dims: &[usize; 3], x: usize, y: usize, z: usize) -> (i: usize)
    requires
        in_grid(*dims, (x as int, y as int, z as int)),
        volume(*dims) <= usize::MAX,
    ensures
        i == linear(*dims, (x as int, y as int, z as int)),
        i < volume(*dims),
{
    proof {
        let p = (x as int, y as int, z as int);
        linear_in_volume(*dims, p);
        let (nx, row) = (dims@[0] as int, p.2 * dims@[1] + p.1);
        assert(row <= row * nx) by (nonlinear_arith)
            requires
                row >= 0,
                nx >= 1,
        ;
    }
    (z * dims[1] + y) * dims[0] + x
}

/// The voxel that is stored at a place.
pub fn coords(dims: &[usize; 3], i: usize) -> (p: (usize, usize, usize))
    requires
        i < volume(*dims) <= usize::MAX,
    ensures
        (p.0 as int, p.1 as int, p.2 as int) == point_at(*dims, i as int),
        in_grid(*dims, (p.0 as int, p.1 as int, p.2 as int)),
{
    proof {
        linear_point_at(*dims, i as int);
        let (a, nz) = (dims@[0] * dims@[1], dims@[2] as int);
        assert(a <= a * nz) by (nonlinear_arith)
            requires
                a >= 0,
                nz >= 1,
        ;
    }
    (i % dims[0], (i / dims[0]) % dims[1], i / (dims[0] * dims[1]))
}

/// Adds the place of a voxel to a list.
fn add_place(dims: &[usize; 3], x: usize, y: usize, z: usize, places: &mut Vec<usize>)
    requires
        in_grid(*dims, (x as int, y as int, z as int)),
        volume(*dims) <= usize::MAX,
    ensures
        as_ints(final(places)@) == as_ints(old(places)@) + place(
            *dims,
            (x as int, y as int, z as int),
        ),
{
    let ghost before = places@;
    let i = voxel_index(dims, x, y, z);
    places.push(i);
    assert(as_ints(places@) =~= as_ints(before).push(i as int));
}

/// The places of the up to six neighbours of a voxel.
pub fn neighbors6(x: usize, y: usize, z: usize, dims: &[usize; 3]) -> (places: Vec<usize>)
    requires
        in_grid(*dims, (x as int, y as int, z as int)),
        volume(*dims) <= usize::MAX,
    ensures
        as_ints(places@) == neighbor_places(*dims, (x as int, y as int, z as int)),
{
    let ghost p = (x as int, y as int, z as int);
    let mut places: Vec<usize> = Vec::new();
    assert(as_ints(places@) =~= Seq::empty());
    if x > 0 {
        add_place(dims, x - 1, y, z, &mut places);
    }
    let ghost a = place(*dims, (p.0 - 1, p.1, p.2));
    assert(as_ints(places@) =~= a);
    if x < dims[0] - 1 {
        add_place(dims, x + 1, y, z, &mut places);
    }
    let ghost b = a + place(*dims, (p.0 + 1, p.1, p.2));
    assert(as_ints(places@) =~= b);
    if y > 0 {
        add_place(dims, x, y - 1, z, &mut places);
    }
    let ghost c = b + place(*dims, (p.0, p.1 - 1, p.2));
    assert(as_ints(places@) =~= c);
    if y < dims[1] - 1 {
        add_place(dims, x, y + 1, z, &mut places);
    }
    let ghost d = c + place(*dims, (p.0, p.1 + 1, p.2));
    assert(as_ints(places@) =~= d);
    if z > 0 {
        add_place(dims, x, y, z - 1, &mut places);
    }
    let ghost e = d + place(*dims, (p.0, p.1, p.2 - 1));
    assert(as_ints(places@) =~= e);
    if z < dims[2] - 1 {
        add_place(dims, x, y, z + 1, &mut places);
    }
    assert(as_ints(places@) =~= e + place(*dims, (p.0, p.1, p.2 + 1)));
    places
}

/// The listed places are exactly those of the neighbours in the grid.
pub proof fn neighbor_places_are_touching(dims: [usize; 3], i: int, j: int)
    requires
        0 <= i < volume(dims),
    ensures
        neighbor_places(dims, point_at(dims, i)).contains(j) <==> touching(dims, i, j),
{
    let p = point_at(dims, i);
    linear_point_at(dims, i);
    let s = neighbor_places(dims, p);
    let a = place(dims, (p.0 - 1, p.1, p.2));
    let b = place(dims, (p.0 + 1, p.1, p.2));
    let c = place(dims, (p.0, p.1 - 1, p.2));
    let d = place(dims, (p.0, p.1 + 1, p.2));
    let e = place(dims, (p.0, p.1, p.2 - 1));
    let f = place(dims, (p.0, p.1, p.2 + 1));
    if s.contains(j) {
        let k = choose|k: int| 0 <= k < s.len() && s[k] == j;
        let q = if k < a.len() {
            (p.0 - 1, p.1, p.2)
        } else if k < a.len() + b.len() {
            (p.0 + 1, p.1, p.2)
        } else if k < a.len() + b.len() + c.len() {
            (p.0, p.1 - 1, p.2)
        } else if k < a.len() + b.len() + c.len() + d.len() {
            (p.0, p.1 + 1, p.2)
        } else if k < a.len() + b.len() + c.len() + d.len() + e.len() {
            (p.0, p.1, p.2 - 1)
        } else {
            (p.0, p.1, p.2 + 1)
        };
        assert(in_grid(dims, q) && j == linear(dims, q));
        linear_in_volume(dims, q);
        point_at_linear(dims, q);
    }
    if touching(dims, i, j) {
        let q = point_at(dims, j);
        linear_point_at(dims, j);
        let one = place(dims, q);
        assert(one == seq![j]);
        let k = if q == (p.0 - 1, p.1, p.2) {
            0int
        } else if q == (p.0 + 1, p.1, p.2) {
            a.len() as int
        } else if q == (p.0, p.1 - 1, p.2) {
            (a.len() + b.len()) as int
        } else if q == (p.0, p.1 + 1, p.2) {
            (a.len() + b.len() + c.len()) as int
        } else if q == (p.0, p.1, p.2 - 1) {
            (a.len() + b.len() + c.len() + d.len()) as int
        } else {
            (a.len() + b.len() + c.len() + d.len() + e.len()) as int
        };
        assert(s[k] == j);
    }
}

/// Storage runs along x, then y, then z, one place for each point.
pub proof fn storage_runs_along_axes(dims: [usize; 3], x: int, y: int, z: int)
    requires
        in_grid(dims, (x, y, z)),
    ensures
        linear(dims, (0, 0, 0)) == 0,
        linear(dims, (x + 1, y, z)) == linear(dims, (x, y, z)) + 1,
        linear(dims, (x, y + 1, z)) == linear(dims, (x, y, z)) + dims@[0],
        linear(dims, (x, y, z + 1)) == linear(dims, (x, y, z)) + dims@[0] * dims@[1],
{
    let (nx, ny) = (dims@[0] as int, dims@[1] as int);
    assert((z * ny + y + 1) * nx + x == (z * ny + y) * nx + x + nx) by (nonlinear_arith);
    assert(((z + 1) * ny + y) * nx + x == (z * ny + y) * nx + x + nx * ny) by (nonlinear_arith);
    assert((0 * ny + 0) * nx + 0 == 0) by (nonlinear_arith);
}

/// Two places touch exactly where they hold points of the grid one step apart.
pub proof fn touching_is_one_step(dims: [usize; 3], p: Point, q: Point)
    requires
        in_grid(dims, p),
        in_grid(dims, q),
    ensures
        touching(dims, linear(dims, p), linear(dims, q)) <==> ({
            let (x, y, z) = (p.0 - q.0, p.1 - q.1, p.2 - q.2);
            x * x + y * y + z * z == 1
        }),
        touching(dims, linear(dims, p), linear(dims, q)) <==> touching(
            dims,
            linear(dims, q),
            linear(dims, p),
        ),
{
    linear_in_volume(dims, p);
    linear_in_volume(dims, q);
    point_at_linear(dims, p);
    point_at_linear(dims, q);
    let (x, y, z) = (p.0 - q.0, p.1 - q.1, p.2 - q.2);
    square_of(x);
    square_of(y);
    square_of(z);
}

proof fn square_of(x: int)
    ensures
        x == 0 ==> x * x == 0,
        x == 1 || x == -1 ==> x * x == 1,
        x > 1 || x < -1 ==> x * x > 1,
{
    if x == 1 || x == -1 {
        assert(x * x == 1) by (nonlinear_arith)
            requires
                x == 1 || x == -1,
        ;
    }
    if x > 1 || x < -1 {
        assert(x * x > 1) by (nonlinear_arith)
            requires
                x > 1 || x < -1,
        ;
    }
}

/// A grid has as many voxels as the product of its sides, and a point lies in it if each
/// of its numbers is below that side; places are seen as they are.
pub proof fn grids_hold_their_voxels(dims: [usize; 3], p: Point, v: Seq<usize>, k: int)
    ensures
        volume(dims) == dims@[0] * dims@[1] * dims@[2],
        in_grid(dims, p) <==> 0 <= p.0 && p.0 < dims@[0] && 0 <= p.1 && p.1 < dims@[1] && 0 <= p.2
            && p.2 < dims@[2],
        as_ints(v).len() == v.len(),
        0 <= k < v.len() ==> as_ints(v)[k] == v[k],
{
}

} // verus!
