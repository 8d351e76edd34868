//! From gaussians to a grid: which are kept, how they are dealt out, and how
//! neighbours are found.

use meshsplat::cells::{
    nearest, nearest_few, next_shell, without, Cell, CellIndex, LAST_SHELL, MAX_NEIGHBORS,
};
use meshsplat::ieee::{
    clamp_to_unit, from_total_rank, is_at_least, is_below_zero, is_finite, is_less, is_nan, negate, to_total_rank,
};
use meshsplat::mesh::{neighbor_lists, TriMesh};
use meshsplat::sorting::{sorted_order, ByKey, ByName};
use meshsplat::splat_ply::SplatCloud;
use meshsplat::tsdf::{
    box_is_usable, box_samples, bucket_splats, check_grid, clip_range, flattest_axis,
    kept_gaussians, num_slabs, percentile_range, phases, slab_voxel, slab_window,
    visible_gaussians, MeshError, MeshParams, BOX_SAMPLES,
};

fn bits(values: &[f32]) -> Vec<u32> {
    values.iter().map(|v| v.to_bits()).collect()
}

const SAMPLES: [f32; 12] = [
    0.0,
    -0.0,
    1.0,
    -1.0,
    f32::INFINITY,
    f32::NEG_INFINITY,
    f32::MIN_POSITIVE,
    1e-45,
    -1e-45,
    f32::MAX,
    3.5,
    f32::NAN,
];

#[test]
fn bits_compare_like_the_numbers() {
    for a in SAMPLES {
        let x = a.to_bits();
        assert_eq!(is_nan(x), a.is_nan());
        assert_eq!(is_finite(x), a.is_finite());
        assert_eq!(is_below_zero(x), a < 0.0);
        assert_eq!(negate(x), (-a).to_bits());
        assert_eq!(from_total_rank(to_total_rank(x)), x);
        for b in SAMPLES {
            let y = b.to_bits();
            assert_eq!(is_less(x, y), a < b);
            assert_eq!(is_at_least(x, y), a >= b);
            assert_eq!(
                to_total_rank(x) < to_total_rank(y),
                a.total_cmp(&b).is_lt(),
                "{a} {b}"
            );
        }
    }
}

#[test]
fn channels_are_held_between_zero_and_one() {
    let held = |v: f32| f32::from_bits(clamp_to_unit(v.to_bits()));
    for v in SAMPLES.into_iter().chain([0.25, 1.0, 1.0000001, 255.0, -1e-9]) {
        assert_eq!(held(v).to_bits(), v.clamp(0.0, 1.0).to_bits(), "{v}");
    }
    assert_eq!(held(-3.0), 0.0);
    assert_eq!(held(f32::INFINITY), 1.0);
    assert!(held(f32::NAN).is_nan());
}

#[test]
fn sorting_is_stable() {
    let order = sorted_order(&ByKey {
        keys: vec![3, 1, 2, 1, 3, -7],
    });
    assert_eq!(order, vec![5, 1, 3, 2, 0, 4]);
    let names = ["b", "", "ab", "a"].map(|n| n.as_bytes().to_vec()).to_vec();
    assert_eq!(sorted_order(&ByName { names }), vec![1, 3, 2, 0]);
}

#[test]
fn defaults_of_meshing() {
    let p = MeshParams::default();
    assert_eq!(p.grid_res, 256);
    assert_eq!(f32::from_bits(p.opacity_min), 0.35);
    assert_eq!(f32::from_bits(p.trunc_voxels), 2.5);
    assert_eq!(f32::from_bits(p.bbox_percentile), 0.01);
    assert_eq!(f32::from_bits(p.min_weight), 0.25);
    assert_eq!(p.smooth_iters, 2);
    assert!(!p.watertight);
    assert_eq!(p.close_voxels, 2);
}

#[test]
fn opaque_gaussians_are_kept() {
    let mut opacities = vec![0.9f32; 100];
    opacities[3] = 0.25;
    opacities.insert(0, 0.2);
    opacities.push(f32::NAN);
    let kept = kept_gaussians(&bits(&opacities), 0.25f32.to_bits()).unwrap();
    assert_eq!(kept, (1..101).collect::<Vec<usize>>());
    opacities.remove(1);
    let e = kept_gaussians(&bits(&opacities), 0.25f32.to_bits()).unwrap_err();
    assert_eq!(
        e.message("0.25"),
        "Only 99 gaussians pass the opacity threshold 0.25 — splat too sparse to mesh. Try lowering --opacity-min."
    );
    assert!(matches!(
        kept_gaussians(&Vec::new(), 0),
        Err(MeshError::TooSparse(0))
    ));
}

/// Gaussians that tell themselves apart by all of their parts.
fn cloud_of(opacities: &[(u32, f32)]) -> SplatCloud {
    let mut cloud = SplatCloud::new();
    for &(i, o) in opacities {
        cloud.push([i, 1, 2], [3, i, 5], [6, 7, i, 9], o.to_bits(), [10, 11, i]);
    }
    cloud
}

#[test]
fn transparent_gaussians_have_no_influence() {
    let least = 0.35f32;
    let all: Vec<(u32, f32)> = (0..300)
        .map(|i| (i, [0.1, 0.35, 0.9, f32::NAN, 0.349][i as usize % 5]))
        .collect();
    let rest: Vec<(u32, f32)> = all.iter().copied().filter(|g| !(g.1 < least)).collect();
    assert_eq!(rest.len(), 180);
    let seen = visible_gaussians(&cloud_of(&all), least.to_bits()).unwrap();
    let again = visible_gaussians(&cloud_of(&rest), least.to_bits()).unwrap();
    assert_eq!(seen.len(), 120);
    assert_eq!(seen.positions[..3], [[1, 1, 2], [2, 1, 2], [6, 1, 2]]);
    assert_eq!(seen.scales[1], [3, 2, 5]);
    assert_eq!(seen.rotations[2], [6, 7, 6, 9]);
    assert_eq!(seen.opacities[..2], [0.35f32.to_bits(), 0.9f32.to_bits()]);
    assert_eq!(seen.colors[2], [10, 11, 6]);
    assert_eq!(seen.positions, again.positions);
    assert_eq!(seen.scales, again.scales);
    assert_eq!(seen.rotations, again.rotations);
    assert_eq!(seen.opacities, again.opacities);
    assert_eq!(seen.colors, again.colors);
    // Too few, they are as few without the transparent ones.
    for few in [&all[..200], &rest[..150]] {
        let e = visible_gaussians(&cloud_of(few), 0.5f32.to_bits()).unwrap_err();
        assert!(matches!(e, MeshError::TooSparse(n) if n < 100));
    }
    let few = |g: &[(u32, f32)]| visible_gaussians(&cloud_of(g), least.to_bits()).unwrap_err();
    let kept: Vec<(u32, f32)> = all[..200].iter().copied().filter(|g| !(g.1 < least)).collect();
    assert_eq!(few(&all[..200]).message(""), few(&kept).message(""));
}

#[test]
fn boxes_leave_out_the_outliers() {
    let values: Vec<f32> = (0..200).rev().map(|v| v as f32 - 100.0).collect();
    let (lo, hi) = percentile_range(&bits(&values), 1, 198);
    assert_eq!((f32::from_bits(lo), f32::from_bits(hi)), (-99.0, 98.0));
    let (lo, hi) = percentile_range(&bits(&[7.0]), 0, 0);
    assert_eq!((lo, hi), (7.0f32.to_bits(), 7.0f32.to_bits()));
    assert!(box_is_usable(1.0f32.to_bits()));
    for bad in [0.0, -1.0, f32::NAN, f32::INFINITY] {
        assert!(!box_is_usable(f32::to_bits(bad)), "{bad}");
    }
    assert_eq!(box_samples(10), (0..10).collect::<Vec<usize>>());
    assert!(box_samples(0).is_empty());
    let taken = box_samples(3 * BOX_SAMPLES);
    assert_eq!(taken.len(), BOX_SAMPLES);
    assert_eq!(taken[..3], [0, 3, 6]);
}

#[test]
fn grids_are_bounded() {
    assert_eq!(check_grid(&[256, 256, 256]).unwrap(), None);
    assert_eq!(check_grid(&[512, 512, 513]).unwrap(), Some(1026));
    assert_eq!(check_grid(&[1024, 1024, 768]).unwrap(), Some(6144));
    let e = check_grid(&[1024, 1024, 769]).unwrap_err();
    assert!(matches!(e, MeshError::TooLarge(_)));
    assert_eq!(e.message(""), "TSDF grid would need 6 GB; lower --grid-res");
    assert_eq!(
        MeshError::NoSurface.message(""),
        "No surface found. The splat may be too sparse or the opacity threshold too strict (try --opacity-min 0.1 or a higher --grid-res)."
    );
}

#[test]
fn normals_run_along_the_flattest_axis() {
    let axis = |x: f32, y: f32, z: f32| flattest_axis(x.to_bits(), y.to_bits(), z.to_bits());
    assert_eq!(axis(1.0, 2.0, 3.0), 0);
    assert_eq!(axis(2.0, 1.0, 3.0), 1);
    assert_eq!(axis(2.0, 3.0, 1.0), 2);
    assert_eq!(axis(1.0, 1.0, 1.0), 0);
    assert_eq!(axis(2.0, 1.0, 1.0), 1);
}

#[test]
fn slabs_cover_what_a_splat_covers() {
    assert_eq!(num_slabs(0), 0);
    assert_eq!(num_slabs(8), 1);
    assert_eq!(num_slabs(9), 2);
    let spans = vec![(0, 0), (7, 8), (0, 19), (16, 19)];
    let slabs = bucket_splats(&spans, 20);
    assert_eq!(slabs, vec![vec![0, 1, 2], vec![1, 2], vec![2, 3]]);
    assert_eq!(slab_window((7, 8), 0, 20), Some((7, 7)));
    assert_eq!(slab_window((7, 8), 1, 20), Some((8, 8)));
    assert_eq!(slab_window((7, 8), 2, 20), None);
    assert_eq!(slab_window((0, 19), 2, 20), Some((16, 19)));
    // Every layer of a span stands in one window.
    let mut layers = Vec::new();
    for s in 0..num_slabs(20) {
        if let Some((a, b)) = slab_window((3, 17), s, 20) {
            layers.extend(a..=b);
        }
    }
    assert_eq!(layers, (3..=17).collect::<Vec<usize>>());
    assert_eq!(slab_voxel(&[4, 5, 20], 1, 1, 2, 9), (1 * 5 + 2) * 4 + 1);
}

#[test]
fn ranges_are_clipped_to_the_grid() {
    assert_eq!(clip_range(2, 5, 10), Some((2, 5)));
    assert_eq!(clip_range(2, 50, 10), Some((2, 9)));
    assert_eq!(clip_range(9, 50, 10), Some((9, 9)));
    assert_eq!(clip_range(10, 50, 10), None);
    assert_eq!(clip_range(5, 4, 10), None);
}

#[test]
fn phases_are_told_in_order() {
    let mut want = vec![
        "Filtering gaussians",
        "Fusing TSDF",
        "Closing surface",
        "Extracting surface",
        "Smoothing",
        "Transferring colors",
    ];
    assert_eq!(phases(true), want);
    want.remove(2);
    assert_eq!(phases(false), want);
}

fn index_of(cells: &[Cell]) -> CellIndex {
    let ids: Vec<u32> = (0..cells.len() as u32).collect();
    CellIndex::build(&cells.to_vec(), &ids)
}

#[test]
fn cells_keep_their_items() {
    let index = index_of(&[(0, 0, 0), (1, 0, 0), (0, 0, 0), (-1, 2, 3)]);
    assert_eq!(index.items((0, 0, 0)), vec![0, 2]);
    assert_eq!(index.items((-1, 2, 3)), vec![3]);
    assert_eq!(index.items((3, 2, -1)), Vec::<u32>::new());
}

#[test]
fn shells_reach_further_and_further() {
    let index = index_of(&[(0, 0, 0), (1, -1, 1), (2, 0, 0), (3, 3, -3), (4, 0, 0)]);
    let sorted = |shell: u32| {
        let mut found = index.candidates((0, 0, 0), shell);
        found.sort();
        found
    };
    assert_eq!(sorted(1), vec![0, 1]);
    // Later shells hold only what is new.
    assert_eq!(sorted(2), vec![2]);
    assert_eq!(sorted(LAST_SHELL), vec![3]);
    // At the end of the range of cells nothing wraps round.
    let edge = index_of(&[(i32::MAX, 0, 0), (i32::MIN, 0, 0)]);
    assert_eq!(edge.candidates((i32::MAX, 0, 0), 1), vec![0]);
}

#[test]
fn search_goes_on_while_something_may_be_nearer() {
    let next = |shell: u32, best: Option<f32>, reach: f32| {
        next_shell(shell, best.map(f32::to_bits), reach.to_bits())
    };
    assert_eq!(next(1, None, 1.0), Some(2));
    assert_eq!(next(2, None, 4.0), Some(3));
    assert_eq!(next(LAST_SHELL, None, 9.0), None);
    assert_eq!(next(1, Some(1.21), 1.21), None);
    assert_eq!(next(1, Some(1.22), 1.21), Some(2));
    assert_eq!(next(LAST_SHELL, Some(50.0), 9.0), None);
    // Where the reach is not known, nothing is near enough.
    assert_eq!(next(1, Some(0.0), f32::NAN), Some(2));
}

#[test]
fn nearer_item_in_a_later_shell_wins() {
    // One item lies in the next cell but 1.8 away, the other 1.2 away two cells on.
    let items = [[-0.9f32, 0.5, 0.5], [2.1, 0.5, 0.5]];
    let v = [0.9f32, 0.5, 0.5];
    let index = index_of(&[(-1, 0, 0), (2, 0, 0)]);
    let (mut near, mut d2): (Vec<u32>, Vec<u32>) = (Vec::new(), Vec::new());
    let mut searched = Vec::new();
    let mut best = None;
    let mut shell = Some(1);
    while let Some(s) = shell {
        searched.push(s);
        for i in index.candidates((0, 0, 0), s) {
            near.push(i);
            d2.push((items[i as usize][0] - v[0]).powi(2).to_bits());
        }
        best = nearest(&d2);
        // The nearest side of the vertex's own cell is 0.1 away.
        let reach = s as f32 + 0.1;
        shell = next_shell(s, best.map(|b| d2[b]), (reach * reach).to_bits());
    }
    assert_eq!(searched, vec![1, 2]);
    assert_eq!(near[best.unwrap()], 1);
}

#[test]
fn nearest_is_the_first_of_the_smallest() {
    assert_eq!(nearest(&bits(&[4.0, 1.0, 1.0, 9.0])), Some(1));
    assert_eq!(nearest(&Vec::new()), None);
    assert_eq!(nearest(&bits(&[f32::NAN, 2.0])), Some(1));
    assert_eq!(nearest_few(&bits(&[1.0, 2.0])), None);
    let mut few = nearest_few(&bits(&[3.0, 1.0, 2.0])).unwrap();
    few.sort();
    assert_eq!(few, vec![0, 1, 2]);
    let many: Vec<f32> = (0..100).map(|i| ((i * 37) % 100) as f32).collect();
    let few = nearest_few(&bits(&many)).unwrap();
    assert_eq!(few.len(), MAX_NEIGHBORS);
    assert!(few.iter().all(|&i| many[i] < MAX_NEIGHBORS as f32));
    assert_eq!(without(&vec![4, 5, 4, 6], 4), vec![5, 6]);
}

#[test]
fn vertices_know_their_neighbours() {
    let mesh = TriMesh {
        positions: vec![[0; 3]; 4],
        normals: Vec::new(),
        colors: Vec::new(),
        indices: vec![0, 1, 2, 2, 1, 3],
    };
    assert_eq!((mesh.num_vertices(), mesh.num_triangles()), (4, 2));
    let mut lists = neighbor_lists(4, &mesh.indices);
    for l in &mut lists {
        l.sort();
    }
    assert_eq!(lists, vec![vec![1, 2], vec![0, 2, 3], vec![0, 1, 3], vec![1, 2]]);
    assert_eq!(neighbor_lists(2, &Vec::new()), vec![Vec::<u32>::new(); 2]);
}
