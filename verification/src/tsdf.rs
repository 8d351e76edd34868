//! From gaussians to a surface: which gaussians count, the size of the grid, how
//! the work is cut into slabs, and how the surface is taken from the fused field.
//!
//! What is fused into the grid is arithmetic on floats and is left to the
//! caller. Floats that decide something come here as the bits of singles.

use crate::closing::{self, close_field};
use crate::grid;
use crate::ieee;
use crate::net_laws;
use crate::sorting::{self, sorted_order, ByKey};
use crate::splat_ply::SplatCloud;
use crate::surface_laws;
use crate::surface_nets::{self as nets, surface_nets, NetVertex};
use crate::text::{self, decimal_text};
use vstd::prelude::*;

verus! {

/// What meshing is run with. Fractions are the bits of singles.
#[derive(Debug, Clone, Copy)]
pub struct MeshParams {
    /// Voxels along the longest axis of the bounding box.
    pub grid_res: u32,
    /// Gaussians more transparent than this are left out.
    pub opacity_min: u32,
    /// The reach of the distance field, in voxels.
    pub trunc_voxels: u32,
    /// The share of outliers that the bounding box leaves out at each end.
    pub bbox_percentile: u32,
    /// The weight from which a voxel counts as observed.
    pub min_weight: u32,
    /// How often the mesh is smoothed.
    pub smooth_iters: u32,
    /// Is the surface closed into a solid?
    pub watertight: bool,
    /// How many voxels the solid is grown by to bridge holes before it is closed.
    pub close_voxels: u32,
}

impl Default for MeshParams {
    fn default() -> (p: MeshParams)
        ensures
            p == (MeshParams {
                grid_res: 256,
                opacity_min: 0x3EB3_3333,
                trunc_voxels: 0x4020_0000,
                bbox_percentile: 0x3C23_D70A,
                min_weight: 0x3E80_0000,
                smooth_iters: 2,
                watertight: false,
                close_voxels: 2,
            }),
    {
        MeshParams {
            grid_res: 256,
            opacity_min: 0x3EB3_3333,
            trunc_voxels: 0x4020_0000,
            bbox_percentile: 0x3C23_D70A,
            min_weight: 0x3E80_0000,
            smooth_iters: 2,
            watertight: false,
            close_voxels: 2,
        }
    }
}

/// How far meshing is.
#[derive(Debug, Clone, Copy)]
pub enum ExtractProgress {
    Phase(&'static str),
    /// So many slabs of so many are fused.
    Fusing { done: usize, total: usize },
}

/// The phases of meshing, in order.
pub open spec fn phases_of(watertight: bool) -> Seq<Seq<char>> {
    seq!["Filtering gaussians"@, "Fusing TSDF"@] + (if watertight {
        seq!["Closing surface"@]
    } else {
        Seq::empty()
    }) + seq!["Extracting surface"@, "Smoothing"@, "Transferring colors"@]
}

/// The phases of meshing, in order.
pub fn phases(watertight: bool) -> (out: Vec<&'static str>)
    ensures
        out@.map_values(|t: &'static str| t@) == phases_of(watertight),
{
    let mut out: Vec<&'static str> = Vec::new();
    out.push("Filtering gaussians");
    out.push("Fusing TSDF");
    if watertight {
        out.push("Closing surface");
    }
    out.push("Extracting surface");
    out.push("Smoothing");
    out.push("Transferring colors");
    assert(out@.map_values(|t: &'static str| t@) =~= phases_of(watertight));
    out
}

/// Why there is no mesh.
#[derive(Debug)]
pub enum MeshError {
    /// So few gaussians are opaque enough.
    TooSparse(usize),
    /// The grid would take so many gigabytes.
    TooLarge(usize),
    NoSurface,
}

/// What a user is told of the error; `threshold` is the opacity threshold as it
/// is printed.
pub open spec fn mesh_error_text(e: MeshError, threshold: Seq<char>) -> Seq<char> {
    match e {
        MeshError::TooSparse(n) => "Only "@ + text::decimal(n as nat)
            + " gaussians pass the opacity threshold "@ + threshold
            + " — splat too sparse to mesh. Try lowering --opacity-min."@,
        MeshError::TooLarge(gb) => "TSDF grid would need "@ + text::decimal(gb as nat)
            + " GB; lower --grid-res"@,
        MeshError::NoSurface => "No surface found. The splat may be too sparse or the opacity threshold too strict (try --opacity-min 0.1 or a higher --grid-res)."@,
    }
}

impl MeshError {
    /// What a user is told of the error.
    pub fn message(&self, threshold: &str) -> (t: String)
        ensures
            t@ == mesh_error_text(*self, threshold@),
    {
        match self {
            MeshError::TooSparse(n) => {
                let mut t = "Only ".to_owned();
                t.append(decimal_text(*n as u64).as_str());
                t.append(" gaussians pass the opacity threshold ");
                t.append(threshold);
                t.append(" — splat too sparse to mesh. Try lowering --opacity-min.");
                t
            },
            MeshError::TooLarge(gb) => {
                let mut t = "TSDF grid would need ".to_owned();
                t.append(decimal_text(*gb as u64).as_str());
                t.append(" GB; lower --grid-res");
                t
            },
            MeshError::NoSurface => "No surface found. The splat may be too sparse or the opacity threshold too strict (try --opacity-min 0.1 or a higher --grid-res).".to_owned(),
        }
    }
}

/// How many gaussians a mesh takes at least.
pub const MIN_GAUSSIANS: usize = 100;

/// The numbers of the gaussians that are opaque enough, in order.
pub open spec fn opaque(opacities: Seq<u32>, least: u32) -> Seq<int>
    decreases opacities.len(),
{
    if opacities.len() == 0 {
        Seq::empty()
    } else {
        let before = opaque(opacities.drop_last(), least);
        if ieee::at_least(opacities.last(), least) {
            before.push(opacities.len() - 1)
        } else {
            before
        }
    }
}

/// The numbers of the gaussians that are opaque enough, if there are enough of
/// them.
pub fn kept_gaussians(opacities: &Vec<u32>, least: u32) -> (r: Result<Vec<usize>, MeshError>)
    ensures
        match r {
            Ok(kept) => grid::as_ints(kept@) == opaque(opacities@, least) && kept@.len()
                >= MIN_GAUSSIANS,
            Err(e) => e matches MeshError::TooSparse(n) && n == opaque(opacities@, least).len() && n
                < MIN_GAUSSIANS,
        },
        r is Ok <==> opaque(opacities@, least).len() >= 100,
{
    let mut kept: Vec<usize> = Vec::new();
    assert(grid::as_ints(kept@) =~= Seq::<int>::empty());
    for i in 0..opacities.len()
        invariant
            grid::as_ints(kept@) == opaque(opacities@.take(i as int), least),
    {
        assert(opacities@.take(i as int + 1).drop_last() =~= opacities@.take(i as int));
        if ieee::is_at_least(opacities[i], least) {
            let ghost before = grid::as_ints(kept@);
            kept.push(i);
            assert(grid::as_ints(kept@) =~= before.push(i as int));
        }
    }
    assert(opacities@.take(opacities@.len() as int) =~= opacities@);
    assert(grid::as_ints(kept@).len() == kept@.len());
    if kept.len() < MIN_GAUSSIANS {
        return Err(MeshError::TooSparse(kept.len()));
    }
    Ok(kept)
}

/// Every gaussian that is kept is opaque enough, and every other is not.
pub proof fn opaque_is_exact(opacities: Seq<u32>, least: u32, i: int)
    requires
        0 <= i < opacities.len(),
    ensures
        opaque(opacities, least).contains(i) <==> ieee::at_least(opacities[i], least),
    decreases opacities.len(),
{
    let before = opaque(opacities.drop_last(), least);
    let all = opaque(opacities, least);
    opaque_is_below(opacities.drop_last(), least);
    if i < opacities.len() - 1 {
        opaque_is_exact(opacities.drop_last(), least, i);
        if before.contains(i) {
            let k = choose|k: int| 0 <= k < before.len() && before[k] == i;
            assert(all[k] == i);
        }
        if all.contains(i) {
            let k = choose|k: int| 0 <= k < all.len() && all[k] == i;
            assert(before[k] == i);
        }
    } else {
        if ieee::at_least(opacities[i], least) {
            assert(all[all.len() - 1] == i);
        } else if all.contains(i) {
            let k = choose|k: int| 0 <= k < all.len() && all[k] == i;
            assert(before[k] < opacities.len() - 1);
        }
    }
}

proof fn opaque_is_below(opacities: Seq<u32>, least: u32)
    ensures
        forall|k: int|
            0 <= k < opaque(opacities, least).len() ==> 0 <= #[trigger] opaque(opacities, least)[k]
                < opacities.len(),
    decreases opacities.len(),
{
    if opacities.len() > 0 {
        let before = opaque(opacities.drop_last(), least);
        opaque_is_below(opacities.drop_last(), least);
        assert forall|k: int| 0 <= k < opaque(opacities, least).len() implies 0
            <= #[trigger] opaque(opacities, least)[k] < opacities.len() by {
            if k < before.len() {
                assert(opaque(opacities, least)[k] == before[k]);
            }
        }
    }
}

/// What stands at the given places, in their order.
pub open spec fn picked<T>(s: Seq<T>, places: Seq<int>) -> Seq<T> {
    Seq::new(places.len(), |k: int| s[places[k]])
}

proof fn picked_next<T>(s: Seq<T>, places: Seq<int>, k: int)
    requires
        0 <= k < places.len(),
    ensures
        picked(s, places.take(k + 1)) == picked(s, places.take(k)).push(s[places[k]]),
{
    assert(picked(s, places.take(k + 1)) =~= picked(s, places.take(k)).push(s[places[k]]));
}

/// Is this the part of a cloud that stands at the given places?
pub open spec fn is_part(part: SplatCloud, whole: SplatCloud, places: Seq<int>) -> bool {
    &&& part.positions@ == picked(whole.positions@, places)
    &&& part.scales@ == picked(whole.scales@, places)
    &&& part.rotations@ == picked(whole.rotations@, places)
    &&& part.opacities@ == picked(whole.opacities@, places)
    &&& part.colors@ == picked(whole.colors@, places)
}

/// The gaussians that are opaque enough, if there are enough of them. Nothing else
/// of the cloud goes into a mesh.
pub fn visible_gaussians(cloud: &SplatCloud, least: u32) -> (r: Result<SplatCloud, MeshError>)
    requires
        cloud.well_formed(),
    ensures
        match r {
            Ok(visible) => {
                &&& visible.well_formed()
                &&& is_part(visible, *cloud, opaque(cloud.opacities@, least))
                &&& visible.positions@.len() >= MIN_GAUSSIANS
            },
            Err(e) => e matches MeshError::TooSparse(n) && n == opaque(
                cloud.opacities@,
                least,
            ).len() && n < MIN_GAUSSIANS,
        },
        r is Ok <==> opaque(cloud.opacities@, least).len() >= 100,
{
    let kept = match kept_gaussians(&cloud.opacities, least) {
        Ok(kept) => kept,
        Err(e) => return Err(e),
    };
    let ghost places = opaque(cloud.opacities@, least);
    proof {
        opaque_is_below(cloud.opacities@, least);
    }
    let mut visible = SplatCloud::new();
    assert(visible.positions@ =~= picked(cloud.positions@, places.take(0)));
    assert(visible.scales@ =~= picked(cloud.scales@, places.take(0)));
    assert(visible.rotations@ =~= picked(cloud.rotations@, places.take(0)));
    assert(visible.opacities@ =~= picked(cloud.opacities@, places.take(0)));
    assert(visible.colors@ =~= picked(cloud.colors@, places.take(0)));
    for k in 0..kept.len()
        invariant
            cloud.well_formed(),
            grid::as_ints(kept@) == places,
            forall|a: int| 0 <= a < places.len() ==> 0 <= #[trigger] places[a]
                < cloud.opacities@.len(),
            visible.well_formed(),
            is_part(visible, *cloud, places.take(k as int)),
    {
        let i: usize = kept[k];
        assert(grid::as_ints(kept@)[k as int] == i);
        assert(places[k as int] == i);
        visible.push(
            cloud.positions[i],
            cloud.scales[i],
            cloud.rotations[i],
            cloud.opacities[i],
            cloud.colors[i],
        );
        proof {
            picked_next(cloud.positions@, places, k as int);
            picked_next(cloud.scales@, places, k as int);
            picked_next(cloud.rotations@, places, k as int);
            picked_next(cloud.opacities@, places, k as int);
            picked_next(cloud.colors@, places, k as int);
        }
    }
    assert(grid::as_ints(kept@).len() == kept@.len());
    assert(places.take(kept@.len() as int) =~= places);
    Ok(visible)
}

/// The numbers of the gaussians that are not more transparent than the threshold,
/// in order.
pub open spec fn not_transparent(opacities: Seq<u32>, least: u32) -> Seq<int>
    decreases opacities.len(),
{
    if opacities.len() == 0 {
        Seq::empty()
    } else {
        let before = not_transparent(opacities.drop_last(), least);
        if ieee::less(opacities.last(), least) {
            before
        } else {
            before.push(opacities.len() - 1)
        }
    }
}

proof fn not_transparent_is_below(opacities: Seq<u32>, least: u32)
    ensures
        forall|k: int|
            0 <= k < not_transparent(opacities, least).len() ==> 0 <= #[trigger] not_transparent(
                opacities,
                least,
            )[k] < opacities.len(),
    decreases opacities.len(),
{
    if opacities.len() > 0 {
        let before = not_transparent(opacities.drop_last(), least);
        let all = not_transparent(opacities, least);
        not_transparent_is_below(opacities.drop_last(), least);
        assert forall|k: int| 0 <= k < all.len() implies 0 <= #[trigger] all[k]
            < opacities.len() by {
            if k < before.len() {
                assert(all[k] == before[k]);
            }
        }
    }
}

/// Taking out gaussians that are more transparent than the threshold leaves the
/// same ones kept, from where they stood.
pub proof fn transparent_are_not_kept(opacities: Seq<u32>, least: u32)
    ensures
        ({
            let places = not_transparent(opacities, least);
            picked(places, opaque(picked(opacities, places), least)) == opaque(opacities, least)
        }),
    decreases opacities.len(),
{
    let places = not_transparent(opacities, least);
    let rest = picked(opacities, places);
    if opacities.len() == 0 {
        assert(rest =~= Seq::<u32>::empty());
        assert(picked(places, opaque(rest, least)) =~= Seq::<int>::empty());
    } else {
        let short = opacities.drop_last();
        let before = not_transparent(short, least);
        let rest_before = picked(short, before);
        transparent_are_not_kept(short, least);
        not_transparent_is_below(short, least);
        opaque_is_below(rest_before, least);
        if ieee::less(opacities.last(), least) {
            assert(rest =~= rest_before);
        } else {
            assert(rest.drop_last() =~= rest_before);
            assert(rest.last() == opacities.last());
            let kept_before = opaque(rest_before, least);
            let kept = opaque(rest, least);
            assert(picked(places, kept_before) =~= picked(before, kept_before));
            if ieee::at_least(opacities.last(), least) {
                assert(picked(places, kept) =~= picked(places, kept_before).push(
                    opacities.len() - 1,
                ));
            }
        }
    }
}

/// Gaussians that are more transparent than the threshold have no influence: with
/// them or without, the visible gaussians are the same, or too few alike.
pub proof fn transparent_gaussians_are_ignored(
    whole: SplatCloud,
    part: SplatCloud,
    least: u32,
    seen: SplatCloud,
    seen_of_part: SplatCloud,
)
    requires
        whole.well_formed(),
        is_part(part, whole, not_transparent(whole.opacities@, least)),
    ensures
        opaque(part.opacities@, least).len() == opaque(whole.opacities@, least).len(),
        is_part(seen, whole, opaque(whole.opacities@, least)) && is_part(
            seen_of_part,
            part,
            opaque(part.opacities@, least),
        ) ==> {
            &&& seen_of_part.positions@ == seen.positions@
            &&& seen_of_part.scales@ == seen.scales@
            &&& seen_of_part.rotations@ == seen.rotations@
            &&& seen_of_part.opacities@ == seen.opacities@
            &&& seen_of_part.colors@ == seen.colors@
        },
{
    let places = not_transparent(whole.opacities@, least);
    let kept = opaque(part.opacities@, least);
    transparent_are_not_kept(whole.opacities@, least);
    opaque_is_below(part.opacities@, least);
    assert(picked(places, kept).len() == kept.len());
    picked_twice(whole.positions@, places, kept);
    picked_twice(whole.scales@, places, kept);
    picked_twice(whole.rotations@, places, kept);
    picked_twice(whole.opacities@, places, kept);
    picked_twice(whole.colors@, places, kept);
}

proof fn picked_twice<T>(s: Seq<T>, places: Seq<int>, kept: Seq<int>)
    requires
        forall|k: int| 0 <= k < kept.len() ==> 0 <= #[trigger] kept[k] < places.len(),
    ensures
        picked(picked(s, places), kept) == picked(s, picked(places, kept)),
{
    assert(picked(picked(s, places), kept) =~= picked(s, picked(places, kept)));
}

/// About how many gaussians the bounding box is taken from.
pub const BOX_SAMPLES: usize = 500_000;

/// How far apart the gaussians are that the bounding box is taken from.
pub open spec fn sample_stride(n: nat) -> int {
    if n / BOX_SAMPLES as nat == 0 {
        1
    } else {
        (n / BOX_SAMPLES as nat) as int
    }
}

/// Every so many of the first `n` numbers, from zero on.
pub open spec fn every(n: int, stride: int) -> Seq<int>
    recommends
        stride > 0,
{
    Seq::new(((n + stride - 1) / stride) as nat, |k: int| k * stride)
}

/// The numbers of the gaussians, of `n`, that the bounding box is taken from.
pub fn box_samples(n: usize) -> (out: Vec<usize>)
    ensures
        grid::as_ints(out@) == every(n as int, sample_stride(n as nat)),
{
    let stride: usize = if n / BOX_SAMPLES == 0 {
        1
    } else {
        n / BOX_SAMPLES
    };
    let mut out: Vec<usize> = Vec::new();
    let mut i: usize = 0;
    let ghost want = every(n as int, stride as int);
    let ghost mut k: int = 0;
    while i < n
        invariant
            stride > 0,
            stride <= n || stride == 1,
            k >= 0,
            i == k * stride || i == n,
            i < n ==> i == k * stride,
            i == n ==> k == (n + stride - 1) / (stride as int),
            i <= n,
            out@.len() == k,
            forall|a: int| 0 <= a < k ==> #[trigger] out@[a] == a * stride,
        decreases n - i,
    {
        out.push(i);
        proof {
            assert((k + 1) * stride == k * stride + stride) by (nonlinear_arith);
            k = k + 1;
            if i + stride >= n {
                let q = (n + stride - 1) / (stride as int);
                assert(k == q) by (nonlinear_arith)
                    requires
                        stride > 0,
                        k * stride >= n,
                        (k - 1) * stride < n,
                        q == (n + stride - 1) / (stride as int),
                ;
            }
        }
        if n - i <= stride {
            i = n;
        } else {
            i += stride;
        }
    }
    assert(grid::as_ints(out@) =~= want);
    out
}

/// Is `v` what stands at place `k` when the values are sorted?
pub open spec fn stands_at(values: Seq<u32>, k: int, v: u32) -> bool {
    exists|order: Seq<usize>| #[trigger]
        sorted_values(values, order) && v == values[order[k] as int]
}

/// Does the list hold each value once, in the total order of singles?
pub open spec fn sorted_values(values: Seq<u32>, order: Seq<usize>) -> bool {
    &&& sorting::each_once(order, values.len() as int)
    &&& forall|a: int, b: int|
        0 <= a < b < order.len() ==> ieee::total_rank(values[#[trigger] order[a] as int])
            <= ieee::total_rank(values[#[trigger] order[b] as int])
}

/// What stands at two places when the values are sorted.
pub fn percentile_range(values: &Vec<u32>, lo: usize, hi: usize) -> (range: (u32, u32))
    requires
        lo < values@.len(),
        hi < values@.len(),
    ensures
        stands_at(values@, lo as int, range.0),
        stands_at(values@, hi as int, range.1),
        lo <= hi ==> ieee::total_rank(range.0) <= ieee::total_rank(range.1),
{
    let mut keys: Vec<i64> = Vec::new();
    for i in 0..values.len()
        invariant
            keys@.len() == i,
            forall|k: int| 0 <= k < i ==> #[trigger] keys@[k] == ieee::total_rank(values@[k]),
    {
        keys.push(ieee::to_total_rank(values[i]) as i64);
    }
    let by_key = ByKey { keys };
    let order = sorted_order(&by_key);
    proof {
        sorting::order_lists_each_once(&by_key, order@, values@.len() as int);
        assert forall|a: int, b: int| 0 <= a < b < order@.len() implies ieee::total_rank(
            values@[#[trigger] order@[a] as int],
        ) <= ieee::total_rank(values@[#[trigger] order@[b] as int]) by {
            assert(sorting::comes_before(&by_key, order@[a] as int, order@[b] as int));
        }
        assert(sorted_values(values@, order@));
        assert(order@[lo as int] < values@.len() && order@[hi as int] < values@.len());
    }
    (values[order[lo]], values[order[hi]])
}

/// One value only stands at a place of the sorted values.
pub proof fn percentile_is_unique(values: Seq<u32>, k: int, v: u32, w: u32)
    requires
        0 <= k < values.len(),
        stands_at(values, k, v),
        stands_at(values, k, w),
    ensures
        v == w,
{
    let p = choose|order: Seq<usize>| #[trigger]
        sorted_values(values, order) && v == values[order[k] as int];
    let q = choose|order: Seq<usize>| #[trigger]
        sorted_values(values, order) && w == values[order[k] as int];
    let ranks = values.map_values(|x: u32| ieee::total_rank(x));
    let (a, b) = (sorting::arranged(ranks, p), sorting::arranged(ranks, q));
    let leq = |x: int, y: int| x <= y;
    assert(vstd::relations::sorted_by(a, leq)) by {
        assert forall|i: int, j: int| 0 <= i < j < a.len() implies #[trigger] leq(a[i], a[j]) by {
            assert(ieee::total_rank(values[p[i] as int]) <= ieee::total_rank(values[p[j] as int]));
        }
    }
    assert(vstd::relations::sorted_by(b, leq)) by {
        assert forall|i: int, j: int| 0 <= i < j < b.len() implies #[trigger] leq(b[i], b[j]) by {
            assert(ieee::total_rank(values[q[i] as int]) <= ieee::total_rank(values[q[j] as int]));
        }
    }
    sorting::arranged_keeps_items(ranks, p);
    sorting::arranged_keeps_items(ranks, q);
    vstd::seq_lib::lemma_sorted_unique(a, b, leq);
    assert(a[k] == ieee::total_rank(v) && b[k] == ieee::total_rank(w)) by {
        assert(p[k] < values.len() && q[k] < values.len());
    }
    ieee::total_rank_is_injective(v, w);
}

/// Can a grid be laid over a box whose longest side is this single: is it finite
/// and above zero?
pub fn box_is_usable(longest: u32) -> (b: bool)
    ensures
        b == (ieee::finite(longest) && ieee::less(0, longest)),
{
    ieee::is_finite(longest) && ieee::is_less(0, longest)
}

/// The bytes of a voxel.
pub const VOXEL_BYTES: usize = 8;

/// The bytes of the largest grid, and those from which a user is warned.
pub const MAX_GRID_BYTES: u64 = 6442450944;

pub const LARGE_GRID_BYTES: u64 = 1073741824;

/// Checks that a grid of this size fits in memory. The number of megabytes comes
/// back where it is large.
pub fn check_grid(dims: &[usize; 3]) -> (r: Result<Option<u64>, MeshError>)
    requires
        dims@[0] * dims@[1] <= usize::MAX,
        grid::volume(*dims) * VOXEL_BYTES <= usize::MAX,
    ensures
        ({
            let bytes = grid::volume(*dims) * VOXEL_BYTES;
            match r {
                Err(e) => bytes > MAX_GRID_BYTES && e == MeshError::TooLarge(
                    (bytes / 0x4000_0000) as usize,
                ),
                Ok(None) => bytes <= LARGE_GRID_BYTES,
                Ok(Some(mb)) => LARGE_GRID_BYTES < bytes <= MAX_GRID_BYTES && mb == bytes
                    / 0x10_0000,
            }
        }),
        r is Err <==> grid::volume(*dims) * 8 > 6 * 1024 * 1024 * 1024,
        r == Ok::<Option<u64>, MeshError>(None) <==> grid::volume(*dims) * 8 <= 1024 * 1024 * 1024,
{
    let voxels: usize = dims[0] * dims[1] * dims[2];
    let bytes: u64 = (voxels * VOXEL_BYTES) as u64;
    if bytes > MAX_GRID_BYTES {
        return Err(MeshError::TooLarge((bytes / 0x4000_0000) as usize));
    }
    if bytes > LARGE_GRID_BYTES {
        return Ok(Some(bytes / 0x10_0000));
    }
    Ok(None)
}

/// A grid that passes has fewer voxels than vertex numbers can count.
pub proof fn checked_grids_can_be_numbered(bytes: int, voxels: int)
    requires
        bytes == voxels * VOXEL_BYTES,
        bytes <= MAX_GRID_BYTES,
    ensures
        voxels <= u32::MAX,
{
}

/// The axis along which a gaussian is flattest, the first of equal ones: its
/// normal.
pub open spec fn flattest(x: u32, y: u32, z: u32) -> int {
    if ieee::at_least(y, x) && ieee::at_least(z, x) {
        0
    } else if ieee::at_least(z, y) {
        1
    } else {
        2
    }
}

/// The axis along which a gaussian is flattest.
pub fn flattest_axis(x: u32, y: u32, z: u32) -> (axis: usize)
    ensures
        axis == flattest(x, y, z),
{
    if ieee::is_at_least(y, x) && ieee::is_at_least(z, x) {
        0
    } else if ieee::is_at_least(z, y) {
        1
    } else {
        2
    }
}

/// Along no axis is a gaussian flatter than along its normal.
pub proof fn normal_axis_is_flattest(x: u32, y: u32, z: u32)
    requires
        !ieee::nan(x),
        !ieee::nan(y),
        !ieee::nan(z),
    ensures
        ({
            let s = seq![x, y, z];
            let a = flattest(x, y, z);
            ieee::at_least(x, s[a]) && ieee::at_least(y, s[a]) && ieee::at_least(z, s[a])
        }),
{
    let s = seq![x, y, z];
    assert(s[0] == x && s[1] == y && s[2] == z);
}

/// The layers of a slab.
pub const SLAB: usize = 8;

/// How many slabs a grid of `nz` layers has.
pub open spec fn slab_count(nz: int) -> int {
    (nz + SLAB - 1) / SLAB as int
}

/// Does a gaussian that reaches from layer to layer reach the slab?
pub open spec fn reaches(span: (usize, usize), slab: int) -> bool {
    span.0 / SLAB <= slab <= span.1 / SLAB
}

/// The numbers of the gaussians that reach a slab, in order.
pub open spec fn slab_members(spans: Seq<(usize, usize)>, slab: int) -> Seq<u32>
    decreases spans.len(),
{
    if spans.len() == 0 {
        Seq::empty()
    } else {
        let before = slab_members(spans.drop_last(), slab);
        if reaches(spans.last(), slab) {
            before.push((spans.len() - 1) as u32)
        } else {
            before
        }
    }
}

/// How many slabs a grid of `nz` layers has.
pub fn num_slabs(nz: usize) -> (n: usize)
    ensures
        n == slab_count(nz as int),
{
    if nz % SLAB == 0 {
        nz / SLAB
    } else {
        nz / SLAB + 1
    }
}

/// The gaussians of each slab, given the first and the last layer that each
/// reaches.
pub fn bucket_splats(spans: &Vec<(usize, usize)>, nz: usize) -> (slabs: Vec<Vec<u32>>)
    requires
        spans@.len() <= u32::MAX,
        forall|i: int| 0 <= i < spans@.len() ==> (#[trigger] spans@[i]).0 <= spans@[i].1 < nz,
    ensures
        slabs@.len() == slab_count(nz as int),
        forall|s: int|
            0 <= s < slabs@.len() ==> (#[trigger] slabs@[s])@ == slab_members(spans@, s),
{
    let n: usize = num_slabs(nz);
    let mut slabs: Vec<Vec<u32>> = Vec::new();
    for s in 0..n
        invariant
            slabs@.len() == s,
            forall|t: int| 0 <= t < s ==> (#[trigger] slabs@[t])@ == slab_members(spans@.take(0), t),
    {
        slabs.push(Vec::new());
        assert(slabs@[s as int]@ =~= slab_members(spans@.take(0), s as int));
    }
    let count: usize = spans.len();
    for i in 0..count
        invariant
            count == spans@.len(),
            count <= u32::MAX,
            n == slab_count(nz as int),
            slabs@.len() == n,
            forall|j: int| 0 <= j < spans@.len() ==> (#[trigger] spans@[j]).0 <= spans@[j].1 < nz,
            forall|t: int|
                0 <= t < n ==> (#[trigger] slabs@[t])@ == slab_members(spans@.take(i as int), t),
    {
        let (from, to): (usize, usize) = spans[i];
        let ghost upto = spans@.take(i as int + 1);
        assert(upto.drop_last() =~= spans@.take(i as int));
        assert(upto.last() == spans@[i as int]);
        assert(spans@[i as int].1 < nz);
        let last: usize = to / SLAB;
        let mut s: usize = from / SLAB;
        while s <= last
            invariant
                from / SLAB <= s <= last + 1,
                last == to / SLAB,
                last < n,
                n == slabs@.len(),
                i < count,
                count <= u32::MAX,
                from <= to,
                upto == spans@.take(i as int + 1),
                upto.len() == i + 1,
                upto.drop_last() == spans@.take(i as int),
                upto.last() == (from, to),
                forall|t: int|
                    0 <= t < n ==> (#[trigger] slabs@[t])@ == if from / SLAB <= t < s {
                        slab_members(upto, t)
                    } else {
                        slab_members(spans@.take(i as int), t)
                    },
            decreases last + 1 - s,
        {
            let mut list: Vec<u32> = Vec::new();
            std::mem::swap(&mut list, &mut slabs[s]);
            list.push(i as u32);
            std::mem::swap(&mut list, &mut slabs[s]);
            s += 1;
        }
        assert forall|t: int| 0 <= t < n implies (#[trigger] slabs@[t])@ == slab_members(
            upto,
            t,
        ) by {
            if !(from / SLAB <= t <= last) {
                assert(!reaches(upto.last(), t));
            }
        }
    }
    assert(spans@.take(spans@.len() as int) =~= spans@);
    slabs
}

/// The layers of a slab that a gaussian reaches.
pub open spec fn window(span: (usize, usize), slab: int, nz: int) -> (int, int) {
    let base = slab * SLAB;
    (
        if span.0 > base {
            span.0 as int
        } else {
            base
        },
        if span.1 < base + SLAB - 1 {
            span.1 as int
        } else if nz - 1 < base + SLAB - 1 {
            nz - 1
        } else {
            base + SLAB - 1
        },
    )
}

/// The first and the last layer of a slab that a gaussian reaches, if any.
pub fn slab_window(span: (usize, usize), slab: usize, nz: usize) -> (w: Option<(usize, usize)>)
    requires
        span.0 <= span.1 < nz,
        slab < slab_count(nz as int),
    ensures
        match w {
            Some((z0, z1)) => (z0 as int, z1 as int) == window(span, slab as int, nz as int) && z0
                <= z1 < nz,
            None => window(span, slab as int, nz as int).0 > window(
                span,
                slab as int,
                nz as int,
            ).1,
        },
{
    assert(slab * SLAB < nz);
    let base: usize = slab * SLAB;
    let end: usize = if nz - base < SLAB {
        nz - 1
    } else {
        base + (SLAB - 1)
    };
    let z0: usize = if span.0 > base {
        span.0
    } else {
        base
    };
    let z1: usize = if span.1 < end {
        span.1
    } else {
        end
    };
    if z0 > z1 {
        None
    } else {
        Some((z0, z1))
    }
}

/// The slabs cut a gaussian's layers apart: each layer that it reaches lies in
/// one slab only, that slab has the gaussian among its members, and no window
/// goes beyond what the gaussian reaches.
pub proof fn windows_partition_layers(span: (usize, usize), nz: int, z: int, slab: int)
    requires
        span.0 <= span.1 < nz,
        0 <= slab < slab_count(nz),
        0 <= z < nz,
    ensures
        span.0 <= z <= span.1 && slab == z / (SLAB as int) ==> reaches(span, slab) && window(
            span,
            slab,
            nz,
        ).0 <= z <= window(span, slab, nz).1,
        window(span, slab, nz).0 <= z <= window(span, slab, nz).1 ==> span.0 <= z <= span.1 && slab
            == z / (SLAB as int),
{
}

/// Where a voxel stands within its slab.
pub open spec fn slab_place(dims: [usize; 3], slab: int, p: grid::Point) -> int {
    (p.2 - slab * SLAB) * dims@[1] * dims@[0] + p.1 * dims@[0] + p.0
}

/// The slabs lie one behind the other in the grid: a voxel's place in its slab,
/// behind the slabs before, is its place in the grid.
pub proof fn slabs_tile_grid(dims: [usize; 3], slab: int, p: grid::Point)
    ensures
        slab * (dims@[0] * dims@[1] * SLAB) + slab_place(dims, slab, p) == grid::linear(dims, p),
{
    let (nx, ny) = (dims@[0] as int, dims@[1] as int);
    assert(slab * (nx * ny * 8) + ((p.2 - slab * 8) * ny * nx + p.1 * nx + p.0) == (p.2 * ny + p.1)
        * nx + p.0) by (nonlinear_arith);
}

/// Where a voxel stands within its slab.
pub fn slab_voxel(dims: &[usize; 3], slab: usize, x: usize, y: usize, z: usize) -> (i: usize)
    requires
        grid::in_grid(*dims, (x as int, y as int, z as int)),
        grid::volume(*dims) <= usize::MAX,
        slab * SLAB <= z,
    ensures
        i == slab_place(*dims, slab as int, (x as int, y as int, z as int)),
{
    let whole: usize = grid::voxel_index(dims, x, y, z);
    let (nx, ny): (usize, usize) = (dims[0], dims[1]);
    let base: usize = slab * SLAB;
    proof {
        let p = (x as int, y as int, z as int);
        slabs_tile_grid(*dims, slab as int, p);
        slab_start_bound(nx as int, ny as int, dims@[2] as int, base as int);
        assert(slab * (nx * ny * SLAB) == base * (ny * nx)) by (nonlinear_arith)
            requires
                base == slab * 8,
                SLAB == 8,
        ;
        assert(0 <= slab_place(*dims, slab as int, p)) by (nonlinear_arith)
            requires
                slab_place(*dims, slab as int, p) == (p.2 - slab * SLAB) * ny * nx + p.1 * nx + p.0,
                p.2 >= slab * SLAB,
                p.1 >= 0,
                p.0 >= 0,
                nx >= 0,
                ny >= 0,
        ;
    }
    whole - base * (ny * nx)
}

proof fn slab_start_bound(nx: int, ny: int, nz: int, base: int)
    requires
        nx > 0,
        ny > 0,
        0 <= base < nz,
        nx * ny * nz <= usize::MAX,
    ensures
        ny * nx <= usize::MAX,
        base * (ny * nx) <= usize::MAX,
        0 <= ny * nx,
        0 <= base * (ny * nx),
{
    assert(ny * nx == nx * ny) by (nonlinear_arith);
    assert(0 < nx * ny) by (nonlinear_arith)
        requires
            nx > 0,
            ny > 0,
    ;
    assert(nx * ny <= nx * ny * nz) by (nonlinear_arith)
        requires
            0 < nx * ny,
            nz >= 1,
    ;
    assert(0 <= base * (nx * ny) <= nx * ny * nz) by (nonlinear_arith)
        requires
            0 < nx * ny,
            0 <= base <= nz,
    ;
}

/// Does the number lie in the range, if there is one?
pub open spec fn in_range(r: Option<(usize, usize)>, v: int) -> bool {
    r matches Some((a, b)) && a <= v <= b
}

/// A range of voxels along an axis of `n`, cut off at the end of the grid, if
/// anything of it is left.
pub fn clip_range(lo: usize, hi: usize, n: usize) -> (r: Option<(usize, usize)>)
    requires
        n > 0,
    ensures
        ({
            let end = if hi < n {
                hi as int
            } else {
                n - 1
            };
            match r {
                Some((a, b)) => a == lo && b == end && a <= b < n,
                None => lo > end,
            }
        }),
        forall|v: int|
            #![trigger in_range(r, v)]
            in_range(r, v) <==> lo <= v <= hi && v < n,
{
    let end: usize = if hi < n {
        hi
    } else {
        n - 1
    };
    if lo > end {
        None
    } else {
        Some((lo, end))
    }
}

/// The samples that the surface is taken from: the field as observed, or closed
/// into a solid.
pub open spec fn surface_samples(
    known: Seq<Option<u32>>,
    dims: [usize; 3],
    watertight: bool,
    close_voxels: u32,
    trunc: u32,
) -> Seq<Option<u32>> {
    if watertight {
        Seq::new(
            known.len(),
            |i: int| Some(closing::closed_value(dims, known, close_voxels as nat, trunc, i)),
        )
    } else {
        known
    }
}

/// Is this the net over the samples?
pub open spec fn is_net(
    dims: [usize; 3],
    samples: Seq<Option<u32>>,
    vertices: Seq<NetVertex>,
    indices: Seq<u32>,
) -> bool {
    &&& vertices.len() == nets::net_cells(dims, samples).len()
    &&& forall|k: int|
        0 <= k < vertices.len() ==> nets::vertex_holds(
            dims,
            samples,
            #[trigger] vertices[k],
            nets::net_cells(dims, samples)[k],
        )
    &&& nets::ids(indices) == nets::net_triangles(dims, samples)
}

/// The samples that the surface is taken from: the field as observed, or closed
/// into a solid.
pub fn surface_field(
    known: Vec<Option<u32>>,
    dims: &[usize; 3],
    watertight: bool,
    close_voxels: u32,
    trunc: u32,
) -> (samples: Vec<Option<u32>>)
    requires
        known@.len() == grid::volume(*dims),
        known@.len() <= u32::MAX,
    ensures
        samples@ == surface_samples(known@, *dims, watertight, close_voxels, trunc),
        !watertight ==> samples@ == known@,
        watertight ==> samples@.len() == known@.len() && forall|i: int|
            #![trigger samples@[i]]
            0 <= i < known@.len() ==> samples@[i] is Some && (known@[i] is Some ==> samples@[i]
                == known@[i]),
{
    if !watertight {
        return known;
    }
    let field = close_field(&known, dims, close_voxels, trunc);
    let mut closed: Vec<Option<u32>> = Vec::new();
    for i in 0..field.len()
        invariant
            closed@.len() == i,
            forall|k: int| 0 <= k < i ==> #[trigger] closed@[k] == Some(field@[k]),
    {
        closed.push(Some(field[i]));
    }
    assert(closed@ =~= surface_samples(known@, *dims, watertight, close_voxels, trunc));
    closed
}

/// Takes the surface from its samples. It is an error if there is none.
pub fn surface_of(samples: &Vec<Option<u32>>, dims: &[usize; 3]) -> (r: Result<
    (Vec<NetVertex>, Vec<u32>),
    MeshError,
>)
    requires
        samples@.len() == grid::volume(*dims),
        samples@.len() <= u32::MAX,
    ensures
        match r {
            Ok((vertices, indices)) => vertices@.len() > 0 && is_net(
                *dims,
                samples@,
                vertices@,
                indices@,
            ),
            Err(e) => e is NoSurface && nets::net_cells(*dims, samples@).len() == 0,
        },
{
    let (vertices, indices) = surface_nets(dims, samples);
    if vertices.len() == 0 {
        return Err(MeshError::NoSurface);
    }
    Ok((vertices, indices))
}

/// Does the solid region, grown to bridge holes, keep off the outer layer of the
/// grid?
pub open spec fn solid_keeps_off_border(
    dims: [usize; 3],
    known: Seq<Option<u32>>,
    close_voxels: nat,
) -> bool {
    forall|p: grid::Point| #[trigger]
        grid::in_grid(dims, p) && grid::on_boundary(dims, p) ==> !closing::barrier(
            dims,
            known,
            close_voxels,
        )[grid::linear(dims, p)]
}

/// On the outer layer a closed field is outside, where the solid region keeps
/// off it.
proof fn border_is_outside(
    dims: [usize; 3],
    known: Seq<Option<u32>>,
    close_voxels: u32,
    trunc: u32,
    p: grid::Point,
)
    requires
        known.len() == grid::volume(dims),
        !ieee::below_zero(trunc),
        solid_keeps_off_border(dims, known, close_voxels as nat),
        grid::in_grid(dims, p),
        grid::on_boundary(dims, p),
    ensures
        !nets::inside(dims, surface_samples(known, dims, true, close_voxels, trunc), p),
{
    let n = close_voxels as nat;
    let i = grid::linear(dims, p);
    grid::linear_in_volume(dims, p);
    grid::point_at_linear(dims, p);
    closing::dilation_keeps_observations(dims, known, n, i);
    if known[i] is None {
        closing::outer_layer_is_empty(dims, known, n, trunc, i);
    }
}

/// A watertight mesh is closed: every side of a triangle is matched by one that
/// runs the other way. It takes that the solid region keeps off the outer layer
/// of the grid, beyond which there is nothing to close it with.
pub proof fn watertight_mesh_is_closed(
    dims: [usize; 3],
    known: Seq<Option<u32>>,
    close_voxels: u32,
    trunc: u32,
)
    requires
        known.len() == grid::volume(dims),
        !ieee::below_zero(trunc),
        solid_keeps_off_border(dims, known, close_voxels as nat),
    ensures
        ({
            let s = surface_samples(known, dims, true, close_voxels, trunc);
            net_laws::closed(
                nets::net_triangles(dims, s),
                nets::net_cells(dims, s).len() as int,
            )
        }),
{
    let s = surface_samples(known, dims, true, close_voxels, trunc);
    assert forall|p: grid::Point| #[trigger] grid::in_grid(dims, p) implies nets::known(
        dims,
        s,
        p,
    ) by {
        grid::linear_in_volume(dims, p);
    }
    assert forall|p: grid::Point, axis: int|
        #![trigger nets::far_end(p, axis)]
        0 <= axis < 3 && grid::in_grid(dims, p) && grid::in_grid(dims, nets::far_end(p, axis))
            && nets::inside(dims, s, p) != nets::inside(
            dims,
            s,
            nets::far_end(p, axis),
        ) implies {
        &&& axis == 0 || 1 <= p.0 <= dims@[0] - 2
        &&& axis == 1 || 1 <= p.1 <= dims@[1] - 2
        &&& axis == 2 || 1 <= p.2 <= dims@[2] - 2
    } by {
        let q = nets::far_end(p, axis);
        let kept = (axis == 0 || 1 <= p.0 <= dims@[0] - 2) && (axis == 1 || 1 <= p.1 <= dims@[1]
            - 2) && (axis == 2 || 1 <= p.2 <= dims@[2] - 2);
        if !kept {
            border_is_outside(dims, known, close_voxels, trunc, p);
            border_is_outside(dims, known, close_voxels, trunc, q);
        }
    }
    net_laws::net_is_closed(dims, s);
}

/// Without closing, the surface is taken from the observed distances, voxel by
/// voxel and unchanged; with it, every voxel has a distance, and those observed
/// keep theirs.
pub proof fn observed_distances_are_kept(
    known: Seq<Option<u32>>,
    dims: [usize; 3],
    close_voxels: u32,
    trunc: u32,
    i: int,
)
    requires
        0 <= i < known.len(),
    ensures
        surface_samples(known, dims, false, close_voxels, trunc).len() == known.len(),
        surface_samples(known, dims, false, close_voxels, trunc)[i] == known[i],
        surface_samples(known, dims, true, close_voxels, trunc).len() == known.len(),
        surface_samples(known, dims, true, close_voxels, trunc)[i] is Some,
        known[i] is Some ==> surface_samples(known, dims, true, close_voxels, trunc)[i] == known[i],
{
}

/// Without closing, a grid edge between observed voxels on two sides of zero, in a
/// cell with all corners observed, has a vertex in that cell.
pub proof fn observed_surface_is_found(
    known: Seq<Option<u32>>,
    dims: [usize; 3],
    close_voxels: u32,
    trunc: u32,
    vertices: Seq<NetVertex>,
    indices: Seq<u32>,
    cell: grid::Point,
    a: grid::Point,
    b: grid::Point,
)
    requires
        is_net(
            dims,
            surface_samples(known, dims, false, close_voxels, trunc),
            vertices,
            indices,
        ),
        surface_laws::cell_in_grid(dims, cell),
        surface_laws::all_there(dims, known, cell),
        surface_laws::bit(a.0) && surface_laws::bit(a.1) && surface_laws::bit(a.2),
        surface_laws::bit(b.0) && surface_laws::bit(b.1) && surface_laws::bit(b.2),
        surface_laws::solid(
            surface_laws::at(dims, known, cell.0 + a.0, cell.1 + a.1, cell.2 + a.2),
        ),
        !surface_laws::solid(
            surface_laws::at(dims, known, cell.0 + b.0, cell.1 + b.1, cell.2 + b.2),
        ),
    ensures
        exists|k: int|
            0 <= k < vertices.len() && (#[trigger] vertices[k]).cell.0 == cell.0
                && vertices[k].cell.1 == cell.1 && vertices[k].cell.2 == cell.2,
{
    surface_laws::crossed_edges_have_vertices(dims, known, cell, a, b);
    let cells = nets::net_cells(dims, known);
    let k = choose|k: int| 0 <= k < cells.len() && cells[k] == cell;
    assert(nets::vertex_holds(dims, known, vertices[k], cells[k]));
}

/// The gaussians that are kept stand in order.
pub proof fn opaque_stand_in_order(opacities: Seq<u32>, least: u32, j: int, k: int)
    requires
        0 <= j < k < opaque(opacities, least).len(),
    ensures
        0 <= opaque(opacities, least)[j] < opaque(opacities, least)[k] < opacities.len(),
    decreases opacities.len(),
{
    let short = opacities.drop_last();
    let n = opaque(short, least).len();
    opaque_is_below(short, least);
    opaque_is_below(opacities, least);
    if k < n {
        opaque_stand_in_order(short, least, j, k);
        assert(opaque(opacities, least)[j] == opaque(short, least)[j]);
        assert(opaque(opacities, least)[k] == opaque(short, least)[k]);
    } else {
        assert(opaque(opacities, least)[j] == opaque(short, least)[j]);
    }
}

/// The gaussians that the bounding box is taken from are spread evenly: from the
/// first on, as many apart as half a million goes into their number, to the last
/// that this leads to.
pub proof fn box_samples_are_spread(n: nat, k: int)
    requires
        0 <= k < every(n as int, sample_stride(n)).len(),
    ensures
        ({
            let step: int = if n < 1_000_000 {
                1
            } else {
                (n / 500_000) as int
            };
            let places = every(n as int, sample_stride(n));
            &&& places[0] == 0
            &&& 0 <= places[k] < n
            &&& k + 1 < places.len() ==> places[k + 1] == places[k] + step
            &&& k + 1 == places.len() ==> places[k] + step >= n
        }),
{
    let step = sample_stride(n);
    assert(step >= 1);
    let places = every(n as int, step);
    let count = (n + step - 1) / step;
    assert(places.len() == count) by {
        assert(count >= 0) by (nonlinear_arith)
            requires
                count == (n + step - 1) / step,
                n >= 0,
                step >= 1,
        ;
    }
    assert(0 * step == 0);
    assert((k + 1) * step == k * step + step) by (nonlinear_arith);
    assert(k * step < n && (k + 1 == count ==> k * step + step >= n)) by (nonlinear_arith)
        requires
            0 <= k < count,
            count == (n + step - 1) / step,
            step >= 1,
            n >= 0,
    ;
    assert(k * step >= 0) by (nonlinear_arith)
        requires
            k >= 0,
            step >= 1,
    ;
}

/// Of axes along which a gaussian is as flat, the first is taken.
pub proof fn first_flattest_axis_is_taken(x: u32, y: u32, z: u32)
    requires
        !ieee::nan(x),
        !ieee::nan(y),
        !ieee::nan(z),
    ensures
        flattest(x, y, z) == 0 <==> ieee::rank(x) <= ieee::rank(y) && ieee::rank(x) <= ieee::rank(
            z,
        ),
        flattest(x, y, z) == 1 <==> ieee::rank(y) < ieee::rank(x) && ieee::rank(y) <= ieee::rank(
            z,
        ) || (ieee::rank(z) < ieee::rank(x) && ieee::rank(y) == ieee::rank(z)),
        flattest(x, y, z) == 2 <==> ieee::rank(z) < ieee::rank(x) && ieee::rank(z) < ieee::rank(y),
{
}

/// A gaussian is dealt to a slab, once and in order, exactly where a layer that it
/// reaches is one of the slab's eight.
pub proof fn slabs_hold_who_reaches_them(spans: Seq<(usize, usize)>, slab: int, i: int)
    requires
        0 <= slab,
        spans.len() <= u32::MAX,
        0 <= i < spans.len(),
        spans[i].0 <= spans[i].1,
    ensures
        slab_members(spans, slab).contains(i as u32) <==> exists|z: int|
            spans[i].0 <= z <= spans[i].1 && #[trigger] in_slab(z, slab),
        forall|j: int, k: int|
            0 <= j < k < slab_members(spans, slab).len() ==> #[trigger] slab_members(spans, slab)[j]
                < #[trigger] slab_members(spans, slab)[k],
{
    slab_members_are(spans, slab, i);
    slab_members_in_order(spans, slab);
    if reaches(spans[i], slab) {
        let z = if spans[i].0 >= slab * 8 {
            spans[i].0 as int
        } else {
            slab * 8
        };
        assert(in_slab(z, slab));
    }
}

/// Is the layer one of the eight of the slab?
pub open spec fn in_slab(z: int, slab: int) -> bool {
    8 * slab <= z < 8 * slab + 8
}

proof fn slab_members_are(spans: Seq<(usize, usize)>, slab: int, i: int)
    requires
        spans.len() <= u32::MAX,
        0 <= i < spans.len(),
    ensures
        slab_members(spans, slab).contains(i as u32) <==> reaches(spans[i], slab),
    decreases spans.len(),
{
    let short = spans.drop_last();
    let (before, all) = (slab_members(short, slab), slab_members(spans, slab));
    slab_members_in_order(short, slab);
    if i < spans.len() - 1 {
        slab_members_are(short, slab, i);
        if before.contains(i as u32) {
            let k = choose|k: int| 0 <= k < before.len() && before[k] == i as u32;
            assert(all[k] == i as u32);
        }
        if all.contains(i as u32) {
            let k = choose|k: int| 0 <= k < all.len() && all[k] == i as u32;
            assert(before[k] == i as u32);
        }
    } else {
        if reaches(spans[i], slab) {
            assert(all[before.len() as int] == i as u32);
        } else if all.contains(i as u32) {
            let k = choose|k: int| 0 <= k < all.len() && all[k] == i as u32;
            assert(before[k] < short.len());
        }
    }
}

proof fn slab_members_in_order(spans: Seq<(usize, usize)>, slab: int)
    requires
        spans.len() <= u32::MAX,
    ensures
        forall|j: int, k: int|
            0 <= j < k < slab_members(spans, slab).len() ==> #[trigger] slab_members(spans, slab)[j]
                < #[trigger] slab_members(spans, slab)[k],
        forall|k: int|
            0 <= k < slab_members(spans, slab).len() ==> (#[trigger] slab_members(spans, slab)[k])
                < spans.len(),
    decreases spans.len(),
{
    if spans.len() > 0 {
        let short = spans.drop_last();
        slab_members_in_order(short, slab);
        let (before, all) = (slab_members(short, slab), slab_members(spans, slab));
        assert forall|k: int| 0 <= k < all.len() implies (#[trigger] all[k]) < spans.len() by {
            if k < before.len() {
                assert(all[k] == before[k]);
            }
        }
        assert forall|j: int, k: int| 0 <= j < k < all.len() implies #[trigger] all[j]
            < #[trigger] all[k] by {
            assert(all[j] == before[j]);
            if k < before.len() {
                assert(all[k] == before[k]);
            }
        }
    }
}

} // verus!
