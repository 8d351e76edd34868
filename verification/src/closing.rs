//! Completing a partly observed distance field into a closed one.
//!
//! Observed voxels keep their distance. The others are told apart by flooding
//! the exterior inward from the outer layer of the grid: what the flood reaches
//! is empty, the rest is enclosed.

use crate::grid::{self, coords, neighbors6};
use crate::ieee::{self, is_below_zero, negate};
use vstd::prelude::*;

verus! {

/// The observed voxels whose distance is below zero.
pub open spec fn observed_solid(known: Seq<Option<u32>>) -> Seq<bool> {
    Seq::new(known.len(), |i: int| known[i] matches Some(d) && ieee::below_zero(d))
}

/// Is the voxel unobserved, not yet solid, and next to a solid one?
pub open spec fn joins(
    dims: [usize; 3],
    known: Seq<Option<u32>>,
    solid: Seq<bool>,
    i: int,
) -> bool {
    &&& !solid[i]
    &&& known[i] is None
    &&& exists|j: int| #[trigger] grid::touching(dims, i, j) && solid[j]
}

/// The solid region grown by one step into the unobserved voxels around it.
pub open spec fn grown(dims: [usize; 3], known: Seq<Option<u32>>, solid: Seq<bool>) -> Seq<bool> {
    Seq::new(solid.len(), |i: int| solid[i] || joins(dims, known, solid, i))
}

/// The solid region grown by `steps` steps.
pub open spec fn dilated(
    dims: [usize; 3],
    known: Seq<Option<u32>>,
    solid: Seq<bool>,
    steps: nat,
) -> Seq<bool>
    decreases steps,
{
    if steps == 0 {
        solid
    } else {
        grown(dims, known, dilated(dims, known, solid, (steps - 1) as nat))
    }
}

/// A walk from the outer layer over voxels that are not solid, one neighbour
/// at a time.
pub open spec fn outside_walk(dims: [usize; 3], solid: Seq<bool>, walk: Seq<int>) -> bool {
    &&& walk.len() > 0
    &&& grid::on_boundary(dims, grid::point_at(dims, walk[0]))
    &&& forall|k: int|
        0 <= k < walk.len() ==> 0 <= #[trigger] walk[k] < grid::volume(dims) && !solid[walk[k]]
    &&& forall|k: int|
        #![trigger walk[k]]
        0 <= k < walk.len() - 1 ==> grid::touching(dims, walk[k], walk[k + 1])
}

/// Can the voxel be reached from the outer layer without crossing a solid one?
pub open spec fn exterior(dims: [usize; 3], solid: Seq<bool>, i: int) -> bool {
    exists|walk: Seq<int>| #[trigger] outside_walk(dims, solid, walk) && walk.last() == i
}

/// The solid region that stops the flood.
pub open spec fn barrier(dims: [usize; 3], known: Seq<Option<u32>>, close_voxels: nat) -> Seq<bool> {
    dilated(dims, known, observed_solid(known), close_voxels)
}

/// The closed field at a voxel: the observed distance, else `trunc` outside
/// and its opposite in the enclosed interior.
pub open spec fn closed_value(
    dims: [usize; 3],
    known: Seq<Option<u32>>,
    close_voxels: nat,
    trunc: u32,
    i: int,
) -> u32 {
    match known[i] {
        Some(d) => d,
        None => if exterior(dims, barrier(dims, known, close_voxels), i) {
            trunc
        } else {
            ieee::opposite(trunc)
        },
    }
}

/// How many of the first `n` flags are down.
spec fn unset(flags: Seq<bool>, n: nat) -> nat
    decreases n,
{
    if n == 0 {
        0
    } else {
        unset(flags, (n - 1) as nat) + if flags[n - 1] {
            0nat
        } else {
            1nat
        }
    }
}

proof fn unset_drops(flags: Seq<bool>, j: int, n: nat)
    requires
        0 <= j < flags.len(),
        n <= flags.len(),
        !flags[j],
    ensures
        unset(flags.update(j, true), n) == unset(flags, n) - if j < n {
            1int
        } else {
            0int
        },
    decreases n,
{
    if n > 0 {
        unset_drops(flags, j, (n - 1) as nat);
    }
}

/// The flags of the voxels that a growing step adds.
fn additions(dims: &[usize; 3], known: &Vec<Option<u32>>, solid: &Vec<bool>) -> (add: Vec<usize>)
    requires
        known@.len() == grid::volume(*dims),
        solid@.len() == known@.len(),
    ensures
        forall|k: int| 0 <= k < add@.len() ==> #[trigger] add@[k] < known@.len(),
        forall|i: int|
            0 <= i < known@.len() ==> (joins(*dims, known@, solid@, i) <==> exists|k: int|
                0 <= k < add@.len() && #[trigger] add@[k] == i),
{
    let n: usize = known.len();
    let mut add: Vec<usize> = Vec::new();
    for i in 0..n
        invariant
            n == known@.len(),
            known@.len() == grid::volume(*dims),
            solid@.len() == known@.len(),
            forall|k: int| 0 <= k < add@.len() ==> #[trigger] add@[k] < i,
            forall|m: int|
                0 <= m < i ==> (joins(*dims, known@, solid@, m) <==> exists|k: int|
                    0 <= k < add@.len() && #[trigger] add@[k] == m),
    {
        let ghost before = add@;
        let mut joined = false;
        if !solid[i] && known[i].is_none() {
            let (x, y, z) = coords(dims, i);
            let around = neighbors6(x, y, z, dims);
            let ghost places = grid::neighbor_places(*dims, grid::point_at(*dims, i as int));
            let mut k: usize = 0;
            while k < around.len()
                invariant
                    0 <= k <= around@.len(),
                    i < n,
                    n == solid@.len(),
                    solid@.len() == grid::volume(*dims),
                    grid::as_ints(around@) == places,
                    places == grid::neighbor_places(*dims, grid::point_at(*dims, i as int)),
                    joined <==> exists|m: int| 0 <= m < k && solid@[#[trigger] places[m]],
                decreases around@.len() - k,
            {
                proof {
                    assert(places[k as int] == around@[k as int]);
                    assert(places.contains(places[k as int]));
                    grid::neighbor_places_are_touching(*dims, i as int, places[k as int]);
                }
                if solid[around[k]] {
                    joined = true;
                }
                k = k + 1;
            }
            proof {
                if joined {
                    let m = choose|m: int| 0 <= m < k && solid@[#[trigger] places[m]];
                    assert(places.contains(places[m]));
                    grid::neighbor_places_are_touching(*dims, i as int, places[m]);
                    assert(grid::touching(*dims, i as int, places[m]) && solid@[places[m]]);
                }
                if exists|j: int| #[trigger] grid::touching(*dims, i as int, j) && solid@[j] {
                    let j = choose|j: int| #[trigger] grid::touching(*dims, i as int, j) && solid@[j];
                    grid::neighbor_places_are_touching(*dims, i as int, j);
                    let m = choose|m: int| 0 <= m < places.len() && places[m] == j;
                    assert(solid@[places[m]]);
                }
            }
        }
        assert(joined <==> joins(*dims, known@, solid@, i as int));
        if joined {
            add.push(i);
        }
        proof {
            assert forall|m: int| 0 <= m < i + 1 implies (joins(*dims, known@, solid@, m)
                <==> exists|k: int| 0 <= k < add@.len() && #[trigger] add@[k] == m) by {
                if m < i {
                    if joins(*dims, known@, solid@, m) {
                        let k = choose|k: int| 0 <= k < before.len() && #[trigger] before[k] == m;
                        assert(add@[k] == m);
                    }
                    if exists|k: int| 0 <= k < add@.len() && #[trigger] add@[k] == m {
                        let k = choose|k: int| 0 <= k < add@.len() && #[trigger] add@[k] == m;
                        assert(before[k] == m);
                    }
                } else {
                    if joined {
                        assert(add@[add@.len() - 1] == m);
                    }
                }
            }
        }
    }
    add
}

/// One growing step.
fn grow(dims: &[usize; 3], known: &Vec<Option<u32>>, solid: Vec<bool>) -> (result: Vec<bool>)
    requires
        known@.len() == grid::volume(*dims),
        solid@.len() == known@.len(),
    ensures
        result@ == grown(*dims, known@, solid@),
{
    let add = additions(dims, known, &solid);
    let mut result = solid;
    let ghost before = result@;
    for k in 0..add.len()
        invariant
            before.len() == known@.len(),
            result@.len() == before.len(),
            forall|m: int| 0 <= m < add@.len() ==> #[trigger] add@[m] < known@.len(),
            forall|i: int|
                0 <= i < before.len() ==> (#[trigger] result@[i] <==> (before[i] || exists|m: int|
                    0 <= m < k && #[trigger] add@[m] == i)),
    {
        let ghost now = result@;
        result.set(add[k], true);
        proof {
            assert forall|i: int| 0 <= i < before.len() implies (#[trigger] result@[i] <==> (
            before[i] || exists|m: int| 0 <= m < k + 1 && #[trigger] add@[m] == i)) by {
                if i == add@[k as int] {
                    assert(0 <= k < k + 1 && add@[k as int] == i);
                } else if now[i] && !before[i] {
                    let m = choose|m: int| 0 <= m < k && #[trigger] add@[m] == i;
                    assert(0 <= m < k + 1 && add@[m] == i);
                }
            }
        }
    }
    assert(result@ =~= grown(*dims, known@, before));
    result
}

/// A walk may be prolonged by any neighbour that is not solid.
proof fn exterior_spreads(dims: [usize; 3], solid: Seq<bool>, i: int, j: int)
    requires
        exterior(dims, solid, i),
        grid::touching(dims, i, j),
        !solid[j],
    ensures
        exterior(dims, solid, j),
{
    let walk = choose|walk: Seq<int>| #[trigger]
        outside_walk(dims, solid, walk) && walk.last() == i;
    let longer = walk.push(j);
    assert forall|k: int| #![trigger longer[k]] 0 <= k < longer.len() - 1 implies grid::touching(
        dims,
        longer[k],
        longer[k + 1],
    ) by {
        if k < walk.len() - 1 {
            assert(longer[k] == walk[k] && longer[k + 1] == walk[k + 1]);
        }
    }
    assert forall|k: int| 0 <= k < longer.len() implies 0 <= #[trigger] longer[k] < grid::volume(dims)
        && !solid[longer[k]] by {
        if k < walk.len() {
            assert(longer[k] == walk[k]);
        }
    }
    assert(longer[0] == walk[0]);
    assert(outside_walk(dims, solid, longer) && longer.last() == j);
}

/// Flags that hold the open part of the outer layer and every open neighbour
/// of a flagged voxel hold every voxel of every walk.
proof fn walk_is_flagged(dims: [usize; 3], solid: Seq<bool>, flags: Seq<bool>, walk: Seq<int>, k: int)
    requires
        outside_walk(dims, solid, walk),
        0 <= k < walk.len(),
        forall|i: int|
            0 <= i < grid::volume(dims) && grid::on_boundary(dims, grid::point_at(dims, i)) && !solid[i]
                ==> #[trigger] flags[i],
        forall|i: int, j: int|
            #![trigger flags[i], grid::touching(dims, i, j)]
            0 <= i < grid::volume(dims) && flags[i] && grid::touching(dims, i, j) && !solid[j] ==> flags[j],
    ensures
        flags[walk[k]],
    decreases k,
{
    if k > 0 {
        walk_is_flagged(dims, solid, flags, walk, k - 1);
        let i = walk[k - 1];
        assert(grid::touching(dims, i, walk[k - 1 + 1]));
        assert(flags[i]);
    }
}

/// Marks every voxel that the outside reaches.
fn flood(dims: &[usize; 3], solid: &Vec<bool>) -> (outside: Vec<bool>)
    requires
        solid@.len() == grid::volume(*dims),
    ensures
        outside@.len() == solid@.len(),
        forall|i: int|
            0 <= i < solid@.len() ==> (#[trigger] outside@[i] <==> exterior(*dims, solid@, i)),
{
    let n: usize = solid.len();
    let mut outside: Vec<bool> = vec![false; n];
    let mut stack: Vec<usize> = Vec::new();
    for i in 0..n
        invariant
            n == solid@.len(),
            solid@.len() == grid::volume(*dims),
            outside@.len() == n,
            forall|m: int| 0 <= m < n && #[trigger] outside@[m] ==> m < i && exterior(
                *dims,
                solid@,
                m,
            ) && stack@.contains(m as usize),
            forall|m: int|
                0 <= m < i && grid::on_boundary(*dims, grid::point_at(*dims, m)) && !solid@[m]
                    ==> #[trigger] outside@[m],
            forall|k: int|
                0 <= k < stack@.len() ==> #[trigger] stack@[k] < n && outside@[stack@[k] as int],
    {
        let (x, y, z) = coords(dims, i);
        let edge = x == 0 || y == 0 || z == 0 || x == dims[0] - 1 || y == dims[1] - 1 || z
            == dims[2] - 1;
        if edge && !solid[i] {
            let ghost before = stack@;
            outside.set(i, true);
            stack.push(i);
            proof {
                let walk = seq![i as int];
                assert(outside_walk(*dims, solid@, walk) && walk.last() == i);
                assert(stack@[stack@.len() - 1] == i);
                assert forall|m: int| 0 <= m < n && #[trigger] outside@[m] implies stack@.contains(
                    m as usize,
                ) by {
                    if m != i {
                        assert(before.contains(m as usize));
                        let k = choose|k: int| 0 <= k < before.len() && before[k] == m as usize;
                        assert(stack@[k] == m as usize);
                    }
                }
            }
        }
    }
    while stack.len() > 0
        invariant
            n == solid@.len(),
            solid@.len() == grid::volume(*dims),
            outside@.len() == n,
            forall|m: int| 0 <= m < n && #[trigger] outside@[m] ==> exterior(*dims, solid@, m),
            forall|m: int|
                0 <= m < n && grid::on_boundary(*dims, grid::point_at(*dims, m)) && !solid@[m]
                    ==> #[trigger] outside@[m],
            forall|k: int|
                0 <= k < stack@.len() ==> #[trigger] stack@[k] < n && outside@[stack@[k] as int],
            forall|m: int, j: int|
                #![trigger outside@[m], grid::touching(*dims, m, j)]
                0 <= m < n && outside@[m] && !stack@.contains(m as usize) && grid::touching(*dims, m, j)
                    && !solid@[j] ==> outside@[j],
        decreases unset(outside@, n as nat), stack@.len(),
    {
        let ghost stack0 = stack@;
        let ghost outside0 = outside@;
        let i: usize = stack.pop().unwrap();
        proof {
            assert(stack0[stack0.len() - 1] == i);
            assert forall|m: usize| #[trigger] stack0.contains(m) && m != i implies stack@.contains(
                m,
            ) by {
                let q = choose|q: int| 0 <= q < stack0.len() && stack0[q] == m;
                assert(stack@[q] == m);
            }
        }
        let (x, y, z) = coords(dims, i);
        let around = neighbors6(x, y, z, dims);
        let ghost places = grid::neighbor_places(*dims, grid::point_at(*dims, i as int));
        proof {
            assert forall|q: int| 0 <= q < places.len() implies 0 <= #[trigger] places[q] < n by {
                assert(places.contains(places[q]));
                grid::neighbor_places_are_touching(*dims, i as int, places[q]);
            }
        }
        let mut k: usize = 0;
        while k < around.len()
            invariant
                0 <= k <= around@.len(),
                n == solid@.len(),
                solid@.len() == grid::volume(*dims),
                outside@.len() == n,
                outside0.len() == n,
                i < n,
                outside0[i as int],
                grid::as_ints(around@) == places,
                places == grid::neighbor_places(*dims, grid::point_at(*dims, i as int)),
                forall|q: int| 0 <= q < places.len() ==> 0 <= #[trigger] places[q] < n,
                forall|m: int| 0 <= m < n && #[trigger] outside@[m] ==> exterior(*dims, solid@, m),
                forall|m: int| 0 <= m < n && #[trigger] outside0[m] ==> outside@[m],
                forall|m: int|
                    0 <= m < n && #[trigger] outside@[m] ==> outside0[m] || stack@.contains(
                        m as usize,
                    ),
                forall|m: usize|
                    #[trigger] stack0.contains(m) && m != i ==> stack@.contains(m),
                forall|q: int|
                    0 <= q < stack@.len() ==> #[trigger] stack@[q] < n
                        && outside@[stack@[q] as int],
                forall|q: int|
                    0 <= q < k && !solid@[#[trigger] places[q]] ==> outside@[places[q]],
                unset(outside@, n as nat) < unset(outside0, n as nat) || (outside@ == outside0
                    && stack@.len() < stack0.len()),
            decreases around@.len() - k,
        {
            let j: usize = around[k];
            proof {
                assert(places[k as int] == around@[k as int]);
                assert(places.contains(places[k as int]));
                grid::neighbor_places_are_touching(*dims, i as int, j as int);
            }
            let ghost before = stack@;
            let ghost flags = outside@;
            if !solid[j] && !outside[j] {
                proof {
                    exterior_spreads(*dims, solid@, i as int, j as int);
                    unset_drops(outside@, j as int, n as nat);
                }
                outside.set(j, true);
                stack.push(j);
                proof {
                    assert(stack@[stack@.len() - 1] == j);
                    assert forall|m: usize| #[trigger] before.contains(m) implies stack@.contains(
                        m,
                    ) by {
                        let q = choose|q: int| 0 <= q < before.len() && before[q] == m;
                        assert(stack@[q] == m);
                    }
                    assert forall|q: int|
                        0 <= q < stack@.len() implies #[trigger] stack@[q] < n
                        && outside@[stack@[q] as int] by {
                        if q < before.len() {
                            assert(stack@[q] == before[q]);
                        }
                    }
                    assert forall|m: int| 0 <= m < n && #[trigger] outside@[m] implies outside0[m]
                        || stack@.contains(m as usize) by {
                        if m != j {
                            assert(flags[m]);
                        }
                    }
                }
            }
            k = k + 1;
        }
        proof {
            assert forall|m: int|
                0 <= m < n && grid::on_boundary(*dims, grid::point_at(*dims, m)) && !solid@[m] implies
                #[trigger] outside@[m] by {
                assert(outside0[m]);
            }
            assert forall|m: int, j: int|
                #![trigger outside@[m], grid::touching(*dims, m, j)]
                0 <= m < n && outside@[m] && !stack@.contains(m as usize) && grid::touching(*dims, m, j)
                    && !solid@[j] implies outside@[j] by {
                if m == i {
                    grid::neighbor_places_are_touching(*dims, i as int, j);
                    let q = choose|q: int| 0 <= q < places.len() && places[q] == j;
                    assert(!solid@[places[q]]);
                } else {
                    assert(outside0[m]);
                    assert(!stack0.contains(m as usize));
                    assert(outside0[j]);
                }
            }
        }
    }
    proof {
        assert forall|i: int| 0 <= i < n && exterior(*dims, solid@, i) implies #[trigger] outside@[i] by {
            let walk = choose|walk: Seq<int>| #[trigger]
                outside_walk(*dims, solid@, walk) && walk.last() == i;
            walk_is_flagged(*dims, solid@, outside@, walk, walk.len() - 1);
        }
    }
    outside
}

/// Completes the distances of the observed voxels into a closed field.
///
/// The solid region is first grown by `close_voxels` steps, so that the flood
/// cannot leak through small gaps.
pub fn close_field(
    known: &Vec<Option<u32>>,
    dims: &[usize; 3],
    close_voxels: u32,
    trunc: u32,
) -> (field: Vec<u32>)
    requires
        known@.len() == grid::volume(*dims),
    ensures
        field@.len() == known@.len(),
        forall|i: int|
            0 <= i < known@.len() ==> #[trigger] field@[i] == closed_value(
                *dims,
                known@,
                close_voxels as nat,
                trunc,
                i,
            ),
{
    let n: usize = known.len();
    let mut solid: Vec<bool> = Vec::with_capacity(n);
    for i in 0..n
        invariant
            n == known@.len(),
            solid@ == observed_solid(known@).take(i as int),
    {
        let s = match known[i] {
            Some(d) => is_below_zero(d),
            None => false,
        };
        solid.push(s);
        assert(solid@ =~= observed_solid(known@).take(i + 1));
    }
    assert(solid@ =~= observed_solid(known@));
    for step in 0..close_voxels
        invariant
            known@.len() == grid::volume(*dims),
            solid@.len() == known@.len(),
            solid@ == dilated(*dims, known@, observed_solid(known@), step as nat),
    {
        solid = grow(dims, known, solid);
    }
    let outside = flood(dims, &solid);
    let mut field: Vec<u32> = Vec::with_capacity(n);
    for i in 0..n
        invariant
            n == known@.len(),
            n == outside@.len(),
            solid@ == barrier(*dims, known@, close_voxels as nat),
            solid@.len() == n,
            forall|m: int|
                0 <= m < n ==> (#[trigger] outside@[m] <==> exterior(*dims, solid@, m)),
            field@.len() == i,
            forall|m: int|
                0 <= m < i ==> #[trigger] field@[m] == closed_value(
                    *dims,
                    known@,
                    close_voxels as nat,
                    trunc,
                    m,
                ),
    {
        let value: u32 = match known[i] {
            Some(d) => d,
            None => if outside[i] {
                trunc
            } else {
                negate(trunc)
            },
        };
        field.push(value);
    }
    field
}

/// Growing keeps what is solid and never claims an observed voxel.
pub proof fn dilation_keeps_observations(
    dims: [usize; 3],
    known: Seq<Option<u32>>,
    steps: nat,
    i: int,
)
    requires
        0 <= i < known.len(),
    ensures
        barrier(dims, known, steps).len() == known.len(),
        observed_solid(known)[i] ==> barrier(dims, known, steps)[i],
        known[i] is Some ==> barrier(dims, known, steps)[i] == observed_solid(known)[i],
    decreases steps,
{
    if steps > 0 {
        dilation_keeps_observations(dims, known, (steps - 1) as nat, i);
    }
}

/// The more steps, the larger the solid region.
pub proof fn dilation_is_monotone(
    dims: [usize; 3],
    known: Seq<Option<u32>>,
    fewer: nat,
    more: nat,
    i: int,
)
    requires
        0 <= i < known.len(),
        fewer <= more,
        barrier(dims, known, fewer)[i],
    ensures
        barrier(dims, known, more)[i],
    decreases more,
{
    if fewer < more {
        dilation_is_monotone(dims, known, fewer, (more - 1) as nat, i);
        dilation_keeps_observations(dims, known, (more - 1) as nat, i);
    }
}

/// Growing more can only seal: what the flood still reaches it reached before.
pub proof fn dilation_only_seals(
    dims: [usize; 3],
    known: Seq<Option<u32>>,
    fewer: nat,
    more: nat,
    i: int,
)
    requires
        known.len() == grid::volume(dims),
        fewer <= more,
        exterior(dims, barrier(dims, known, more), i),
    ensures
        exterior(dims, barrier(dims, known, fewer), i),
{
    let (a, b) = (barrier(dims, known, fewer), barrier(dims, known, more));
    let walk = choose|walk: Seq<int>| #[trigger] outside_walk(dims, b, walk) && walk.last() == i;
    assert forall|k: int| 0 <= k < walk.len() implies 0 <= #[trigger] walk[k] < grid::volume(dims)
        && !a[walk[k]] by {
        if a[walk[k]] {
            dilation_is_monotone(dims, known, fewer, more, walk[k]);
        }
    }
    assert(outside_walk(dims, a, walk));
}

/// The closed field leaves no gap: next to a voxel that the flood reaches
/// stands another that it reaches, or the solid region.
pub proof fn closed_field_is_sealed(
    dims: [usize; 3],
    known: Seq<Option<u32>>,
    steps: nat,
    i: int,
    j: int,
)
    requires
        known.len() == grid::volume(dims),
        grid::touching(dims, i, j),
        exterior(dims, barrier(dims, known, steps), i),
    ensures
        exterior(dims, barrier(dims, known, steps), j) || barrier(dims, known, steps)[j],
{
    if !barrier(dims, known, steps)[j] {
        exterior_spreads(dims, barrier(dims, known, steps), i, j);
    }
}

/// On the outer layer an unobserved voxel is empty unless growing made it
/// solid; with no growing it is always empty.
pub proof fn outer_layer_is_empty(
    dims: [usize; 3],
    known: Seq<Option<u32>>,
    steps: nat,
    trunc: u32,
    i: int,
)
    requires
        known.len() == grid::volume(dims),
        0 <= i < known.len(),
        grid::on_boundary(dims, grid::point_at(dims, i)),
        known[i] is None,
    ensures
        !barrier(dims, known, steps)[i] ==> closed_value(dims, known, steps, trunc, i) == trunc,
        closed_value(dims, known, 0, trunc, i) == trunc,
{
    let solid = barrier(dims, known, steps);
    let walk = seq![i];
    if !solid[i] {
        assert(outside_walk(dims, solid, walk) && walk.last() == i);
    }
    let bare = barrier(dims, known, 0);
    assert(!bare[i]);
    assert(outside_walk(dims, bare, walk) && walk.last() == i);
}

/// Closing keeps what was observed, and an unobserved voxel ends up inside
/// exactly where no walk from the outer layer reaches it.
pub proof fn closing_keeps_and_fills(
    dims: [usize; 3],
    known: Seq<Option<u32>>,
    steps: nat,
    trunc: u32,
    i: int,
)
    requires
        0 <= i < known.len(),
        ieee::less(0, trunc),
    ensures
        known[i] matches Some(d) ==> closed_value(dims, known, steps, trunc, i) == d,
        known[i] is None ==> (ieee::below_zero(closed_value(dims, known, steps, trunc, i))
            <==> !exterior(dims, barrier(dims, known, steps), i)),
{
    ieee::opposite_is_involutive(trunc);
}

/// The solid region begins with what was observed below zero, and each step adds
/// the unobserved voxels that touch it and no others.
pub proof fn each_step_adds_what_touches(
    dims: [usize; 3],
    known: Seq<Option<u32>>,
    steps: nat,
    i: int,
)
    requires
        known.len() == grid::volume(dims),
        0 <= i < known.len(),
    ensures
        barrier(dims, known, 0)[i] <==> (known[i] matches Some(d) && ieee::less(d, 0)),
        barrier(dims, known, steps + 1)[i] <==> barrier(dims, known, steps)[i] || (known[i] is None
            && exists|j: int| #[trigger]
            grid::touching(dims, i, j) && barrier(dims, known, steps)[j]),
{
    dilation_keeps_observations(dims, known, steps, i);
}

/// A walk of neighbours from an observed solid voxel over unobserved ones.
pub open spec fn growing_walk(
    dims: [usize; 3],
    known: Seq<Option<u32>>,
    walk: Seq<int>,
) -> bool {
    &&& walk.len() > 0
    &&& 0 <= walk[0] < known.len()
    &&& known[walk[0]] matches Some(d) && ieee::less(d, 0)
    &&& forall|k: int|
        #![trigger walk[k]]
        0 < k < walk.len() ==> 0 <= walk[k] < known.len() && known[walk[k]] is None
            && grid::touching(dims, walk[k], walk[k - 1])
}

/// Can the voxel be reached within so many steps?
pub open spec fn grown_over(
    dims: [usize; 3],
    known: Seq<Option<u32>>,
    steps: nat,
    i: int,
) -> bool {
    exists|walk: Seq<int>| #[trigger]
        growing_walk(dims, known, walk) && walk.last() == i && walk.len() <= steps + 1
}

proof fn walk_is_barrier(dims: [usize; 3], known: Seq<Option<u32>>, walk: Seq<int>)
    requires
        known.len() == grid::volume(dims),
        growing_walk(dims, known, walk),
    ensures
        0 <= walk.last() < known.len(),
        barrier(dims, known, (walk.len() - 1) as nat)[walk.last()],
    decreases walk.len(),
{
    let n = walk.len() as int;
    if n == 1 {
        each_step_adds_what_touches(dims, known, 0, walk[0]);
    } else {
        let before = walk.drop_last();
        assert(growing_walk(dims, known, before)) by {
            assert forall|k: int| #![trigger before[k]] 0 < k < before.len() implies 0 <= before[k]
                < known.len() && known[before[k]] is None && grid::touching(
                dims,
                before[k],
                before[k - 1],
            ) by {
                assert(walk[k] == before[k] && walk[k - 1] == before[k - 1]);
            }
        }
        walk_is_barrier(dims, known, before);
        assert(walk[n - 1] == walk.last());
        assert(before.last() == walk[n - 2]);
        assert(grid::touching(dims, walk[n - 1], walk[n - 2]));
        each_step_adds_what_touches(dims, known, (n - 2) as nat, walk.last());
    }
}

/// The solid region reaches exactly as far as it is grown: a voxel belongs to it
/// where a walk of no more steps leads there from an observed solid voxel over
/// unobserved ones.
pub proof fn solid_reaches_as_far_as_grown(
    dims: [usize; 3],
    known: Seq<Option<u32>>,
    steps: nat,
    i: int,
)
    requires
        known.len() == grid::volume(dims),
        0 <= i < known.len(),
    ensures
        barrier(dims, known, steps)[i] <==> grown_over(dims, known, steps, i),
    decreases steps,
{
    if grown_over(dims, known, steps, i) {
        let walk = choose|walk: Seq<int>| #[trigger]
            growing_walk(dims, known, walk) && walk.last() == i && walk.len() <= steps + 1;
        walk_is_barrier(dims, known, walk);
        dilation_is_monotone(dims, known, (walk.len() - 1) as nat, steps, i);
    }
    if barrier(dims, known, steps)[i] {
        if steps == 0 {
            each_step_adds_what_touches(dims, known, 0, i);
            let walk = seq![i];
            assert(growing_walk(dims, known, walk) && walk.last() == i);
        } else {
            let fewer = (steps - 1) as nat;
            each_step_adds_what_touches(dims, known, fewer, i);
            if barrier(dims, known, fewer)[i] {
                solid_reaches_as_far_as_grown(dims, known, fewer, i);
                let walk = choose|walk: Seq<int>| #[trigger]
                    growing_walk(dims, known, walk) && walk.last() == i && walk.len() <= fewer + 1;
                assert(growing_walk(dims, known, walk) && walk.len() <= steps + 1);
            } else {
                let j = choose|j: int| #[trigger]
                    grid::touching(dims, i, j) && barrier(dims, known, fewer)[j];
                solid_reaches_as_far_as_grown(dims, known, fewer, j);
                let walk = choose|walk: Seq<int>| #[trigger]
                    growing_walk(dims, known, walk) && walk.last() == j && walk.len() <= fewer + 1;
                let longer = walk.push(i);
                assert forall|k: int| #![trigger longer[k]] 0 < k < longer.len() implies 0
                    <= longer[k] < known.len() && known[longer[k]] is None && grid::touching(
                    dims,
                    longer[k],
                    longer[k - 1],
                ) by {
                    if k < walk.len() {
                        assert(longer[k] == walk[k] && longer[k - 1] == walk[k - 1]);
                    }
                }
                assert(longer[0] == walk[0]);
                assert(growing_walk(dims, known, longer) && longer.last() == i);
            }
        }
    }
}

/// Is the set of voxels open to the outside: does it hold every voxel of the six
/// faces of the grid that is not solid, and with a voxel each neighbour that is
/// not?
pub open spec fn open_to_outside(dims: [usize; 3], solid: Seq<bool>, s: Set<int>) -> bool {
    &&& forall|p: grid::Point| #[trigger]
        grid::in_grid(dims, p) && (p.0 == 0 || p.1 == 0 || p.2 == 0 || p.0 + 1 == dims@[0] || p.1
            + 1 == dims@[1] || p.2 + 1 == dims@[2]) && !solid[grid::linear(dims, p)] ==> s.contains(
            grid::linear(dims, p),
        )
    &&& forall|i: int, j: int|
        s.contains(i) && #[trigger] grid::touching(dims, i, j) && !solid[j] ==> s.contains(j)
}

/// What the flood reaches is the smallest set that is open to the outside, and
/// nothing solid is in it.
pub proof fn flood_is_what_is_open(dims: [usize; 3], solid: Seq<bool>, s: Set<int>, i: int)
    requires
        solid.len() == grid::volume(dims),
        open_to_outside(dims, solid, s),
        exterior(dims, solid, i),
    ensures
        s.contains(i),
        0 <= i < solid.len(),
        !solid[i],
        open_to_outside(dims, solid, Set::new(|k: int| exterior(dims, solid, k))),
{
    let walk = choose|walk: Seq<int>| #[trigger]
        outside_walk(dims, solid, walk) && walk.last() == i;
    walk_stays_open(dims, solid, s, walk, walk.len() - 1);
    assert(walk[walk.len() - 1] == i);
    outside_is_open(dims, solid);
}

proof fn walk_stays_open(
    dims: [usize; 3],
    solid: Seq<bool>,
    s: Set<int>,
    walk: Seq<int>,
    k: int,
)
    requires
        solid.len() == grid::volume(dims),
        open_to_outside(dims, solid, s),
        outside_walk(dims, solid, walk),
        0 <= k < walk.len(),
    ensures
        s.contains(walk[k]),
    decreases k,
{
    if k == 0 {
        let p = grid::point_at(dims, walk[0]);
        grid::linear_point_at(dims, walk[0]);
        assert(grid::in_grid(dims, p));
    } else {
        walk_stays_open(dims, solid, s, walk, k - 1);
        assert(walk[k - 1] == walk[k - 1] && grid::touching(dims, walk[k - 1], walk[k - 1 + 1]));
    }
}

/// Every voxel of a face that is not solid is reached, and so is every neighbour
/// of one that is reached, unless it is solid.
pub proof fn outside_is_open(dims: [usize; 3], solid: Seq<bool>)
    requires
        solid.len() == grid::volume(dims),
    ensures
        open_to_outside(dims, solid, Set::new(|k: int| exterior(dims, solid, k))),
{
    let s = Set::new(|k: int| exterior(dims, solid, k));
    assert forall|p: grid::Point| #[trigger]
        grid::in_grid(dims, p) && (p.0 == 0 || p.1 == 0 || p.2 == 0 || p.0 + 1 == dims@[0] || p.1
            + 1 == dims@[1] || p.2 + 1 == dims@[2]) && !solid[grid::linear(
            dims,
            p,
        )] implies s.contains(grid::linear(dims, p)) by {
        let i = grid::linear(dims, p);
        grid::linear_in_volume(dims, p);
        grid::point_at_linear(dims, p);
        let walk = seq![i];
        assert(outside_walk(dims, solid, walk) && walk.last() == i);
    }
    assert forall|i: int, j: int|
        s.contains(i) && #[trigger] grid::touching(dims, i, j) && !solid[j] implies s.contains(
        j,
    ) by {
        exterior_spreads(dims, solid, i, j);
    }
}

/// Where nothing was observed, the field is `trunc` where the flood reaches and
/// as far below zero where it does not.
pub proof fn unobserved_is_full_or_empty(
    dims: [usize; 3],
    known: Seq<Option<u32>>,
    steps: nat,
    trunc: u32,
    i: int,
)
    requires
        0 <= i < known.len(),
        known[i] is None,
        !ieee::nan(trunc),
    ensures
        ({
            let v = closed_value(dims, known, steps, trunc, i);
            &&& exterior(dims, barrier(dims, known, steps), i) ==> v == trunc
            &&& !exterior(dims, barrier(dims, known, steps), i) ==> !ieee::nan(v) && ieee::rank(v)
                == -ieee::rank(trunc)
        }),
{
    ieee::opposite_is_involutive(trunc);
}

} // verus!
