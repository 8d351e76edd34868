//! Surface nets and the closing of fields.

use meshsplat::closing::close_field;
use meshsplat::grid::{coords, neighbors6, voxel_index, Grid};
use meshsplat::surface_nets::{surface_nets, NetVertex};
use meshsplat::tsdf::{surface_field, surface_of, MeshError};

/// The mean of a vertex's crossings, in voxels.
fn position(v: &NetVertex) -> [f32; 3] {
    let corner = |c: usize| [(c & 1) as f32, ((c >> 1) & 1) as f32, (c >> 2) as f32];
    let mut sum = [0.0f32; 3];
    let crossings = v.crossings();
    assert!(!crossings.is_empty());
    for &(a, b) in &crossings {
        let (va, vb) = (f32::from_bits(v.values[a]), f32::from_bits(v.values[b]));
        let t = va / (va - vb);
        let (pa, pb) = (corner(a), corner(b));
        for i in 0..3 {
            sum[i] += pa[i] + (pb[i] - pa[i]) * t;
        }
    }
    let n = crossings.len() as f32;
    [
        v.cell.0 as f32 + sum[0] / n,
        v.cell.1 as f32 + sum[1] / n,
        v.cell.2 as f32 + sum[2] / n,
    ]
}

fn samples(dims: [usize; 3], f: impl Fn(usize, usize, usize) -> Option<f32>) -> Vec<Option<u32>> {
    let mut out = Vec::new();
    for z in 0..dims[2] {
        for y in 0..dims[1] {
            for x in 0..dims[0] {
                out.push(f(x, y, z).map(f32::to_bits));
            }
        }
    }
    out
}

fn length(v: [f32; 3]) -> f32 {
    (v[0] * v[0] + v[1] * v[1] + v[2] * v[2]).sqrt()
}

fn sub(a: [f32; 3], b: [f32; 3]) -> [f32; 3] {
    [a[0] - b[0], a[1] - b[1], a[2] - b[2]]
}

/// A sphere must produce a closed mesh with sane bounds.
#[test]
fn sphere_mesh() {
    let dims = [32, 32, 32];
    let center = [15.5f32; 3];
    let radius = 10.0f32;
    let field = samples(dims, |x, y, z| {
        Some(length(sub([x as f32, y as f32, z as f32], center)) - radius)
    });
    let (net, tris) = surface_nets(&dims, &field);
    let verts: Vec<[f32; 3]> = net.iter().map(position).collect();

    assert!(!verts.is_empty(), "sphere produced no vertices");
    assert_eq!(tris.len() % 3, 0);
    assert!(!tris.is_empty(), "sphere produced no triangles");

    for v in &verts {
        let r = length(sub(*v, center));
        assert!(
            (r - radius).abs() < 1.0,
            "vertex at radius {r}, expected ~{radius}"
        );
    }
    // Euler characteristic of a sphere: V - E + F = 2 (E = 3F/2 for tris).
    let f = (tris.len() / 3) as i64;
    let mut edges = std::collections::HashSet::new();
    for t in tris.chunks_exact(3) {
        for (a, b) in [(t[0], t[1]), (t[1], t[2]), (t[2], t[0])] {
            edges.insert((a.min(b), a.max(b)));
        }
    }
    let euler = verts.len() as i64 - edges.len() as i64 + f;
    assert_eq!(euler, 2, "sphere mesh is not closed");

    // Signed volume (divergence theorem) checks outward winding and size.
    let vol: f64 = tris
        .chunks_exact(3)
        .map(|t| {
            let a = sub(verts[t[0] as usize], center);
            let b = sub(verts[t[1] as usize], center);
            let c = sub(verts[t[2] as usize], center);
            let cross = [
                a[1] * b[2] - a[2] * b[1],
                a[2] * b[0] - a[0] * b[2],
                a[0] * b[1] - a[1] * b[0],
            ];
            (cross[0] * c[0] + cross[1] * c[1] + cross[2] * c[2]) as f64 / 6.0
        })
        .sum();
    let expected = 4.0 / 3.0 * std::f64::consts::PI * (radius as f64).powi(3);
    assert!(
        vol > 0.85 * expected && vol < 1.15 * expected,
        "sphere volume {vol:.1}, expected ~{expected:.1} (negative → winding flipped)"
    );
}

/// Unknown samples must suppress geometry rather than crash or emit junk.
#[test]
fn unknown_regions_are_skipped() {
    let dims = [16, 16, 16];
    let field = samples(dims, |x, _, _| {
        if x > 8 {
            None
        } else {
            Some(x as f32 - 4.5)
        }
    });
    let (net, tris) = surface_nets(&dims, &field);
    let verts: Vec<[f32; 3]> = net.iter().map(position).collect();
    assert!(!verts.is_empty());
    // All vertices sit on the known x≈4.5 plane.
    for v in &verts {
        assert!((v[0] - 4.5).abs() < 0.6, "vertex off the plane: {v:?}");
    }
    assert_eq!(tris.len() % 3, 0);
}

/// Every side of a triangle is matched by one that runs the other way.
#[test]
fn net_of_a_known_field_is_closed() {
    let dims = [9, 8, 7];
    let field = samples(dims, |x, y, z| {
        let solid = (2..=7).contains(&x) && (2..=6).contains(&y) && (2..=5).contains(&z);
        let hole = x == 4 && y == 4;
        Some(if solid && !hole { -1.0 } else { 0.5 })
    });
    let (net, tris) = surface_nets(&dims, &field);
    assert!(!tris.is_empty());
    assert!(tris.iter().all(|&i| (i as usize) < net.len()));
    assert!(is_closed(&tris));
    // It is enough that the outer layer is outside.
    let inner = |v: usize| v == 1 || v == 2;
    let block = samples([4, 4, 4], |x, y, z| {
        Some(if inner(x) && inner(y) && inner(z) { -1.0 } else { 1.0 })
    });
    let (net, tris) = surface_nets(&[4, 4, 4], &block);
    assert_eq!((net.len(), tris.len()), (26, 144));
    assert!(is_closed(&tris));
}

#[test]
fn every_shared_edge_gets_its_quad() {
    // Two layers of points along x with the surface between them: the one edge
    // along x that four cells share.
    let dims = [2, 3, 3];
    let field = samples(dims, |x, _, _| Some(x as f32 - 0.5));
    let (net, tris) = surface_nets(&dims, &field);
    assert_eq!(net.len(), 4);
    assert_eq!(tris.len(), 6);
    let dims = [3, 2, 3];
    let field = samples(dims, |_, y, _| Some(y as f32 - 0.5));
    assert_eq!(surface_nets(&dims, &field).1.len(), 6);
    let dims = [3, 3, 2];
    let field = samples(dims, |_, _, z| Some(z as f32 - 0.5));
    assert_eq!(surface_nets(&dims, &field).1.len(), 6);
}

#[test]
fn negated_fields_are_turned_over() {
    let dims = [6, 5, 7];
    let distance = |x: usize, y: usize, z: usize| {
        let unseen = (x, y, z) == (5, 0, 3);
        (!unseen).then_some(length(sub([x as f32, y as f32, z as f32], [2.6, 2.1, 3.3])) - 1.7)
    };
    let (net, tris) = surface_nets(&dims, &samples(dims, distance));
    let (turned, back) = surface_nets(&dims, &samples(dims, |x, y, z| distance(x, y, z).map(|d| -d)));
    assert!(!tris.is_empty());
    assert_eq!(net.len(), turned.len());
    for (v, w) in net.iter().zip(&turned) {
        assert_eq!(v.cell, w.cell);
        assert_eq!(v.crossings(), w.crossings());
        assert_eq!(position(v), position(w));
    }
    let over: Vec<u32> = tris.chunks_exact(3).flat_map(|t| [t[0], t[2], t[1]]).collect();
    assert_eq!(back, over);
}

#[test]
fn one_inner_point_makes_a_cube_of_eight_vertices() {
    let dims = [5, 5, 5];
    let field = samples(dims, |x, y, z| {
        Some(if (x, y, z) == (2, 2, 2) { -1.0 } else { 1.0 })
    });
    let (net, tris) = surface_nets(&dims, &field);
    let cells: Vec<_> = net.iter().map(|v| v.cell).collect();
    assert_eq!(
        cells,
        vec![
            (1, 1, 1),
            (2, 1, 1),
            (1, 2, 1),
            (2, 2, 1),
            (1, 1, 2),
            (2, 1, 2),
            (1, 2, 2),
            (2, 2, 2)
        ]
    );
    assert_eq!(tris.len(), 36);
    // Three crossings halfway along the edges of the cell at (1, 1, 1).
    let p = position(&net[0]);
    for x in p {
        assert!((x - (1.0 + 2.5 / 3.0)).abs() < 1e-6);
    }
}

#[test]
fn thin_and_unknown_grids_have_no_surface() {
    let (net, tris) = surface_nets(&[1, 4, 4], &vec![Some(0xBF80_0000); 16]);
    assert!(net.is_empty() && tris.is_empty());
    let (net, tris) = surface_nets(&[3, 3, 3], &vec![None; 27]);
    assert!(net.is_empty() && tris.is_empty());
}

/// A 7³ grid; a closed shell on the faces of the inner [1,5]³ cube.
fn shell_grid(gap: bool) -> (Grid, Vec<Option<u32>>) {
    let grid = Grid {
        dims: [7, 7, 7],
        origin: [0; 3],
        voxel: 1.0f32.to_bits(),
    };
    let mut known = vec![None; grid.num_voxels()];
    for z in 1..=5 {
        for y in 1..=5 {
            for x in 1..=5 {
                let on_face = x == 1 || x == 5 || y == 1 || y == 5 || z == 1 || z == 5;
                if on_face {
                    known[grid.index(x, y, z)] = Some((-1.0f32).to_bits()); // inside
                }
            }
        }
    }
    if gap {
        // Punch a one-voxel hole in the top face.
        known[grid.index(3, 3, 5)] = None;
    }
    (grid, known)
}

fn value(field: &[u32], i: usize) -> f32 {
    f32::from_bits(field[i])
}

#[test]
fn watertight_fills_enclosed_interior() {
    let (grid, known) = shell_grid(false);
    let field = close_field(&known, &grid.dims, 0, 2.5f32.to_bits());
    // The hollow centre is enclosed → filled solid (negative).
    assert!(value(&field, grid.index(3, 3, 3)) < 0.0);
    // A voxel outside the shell stays empty (positive).
    assert!(value(&field, grid.index(0, 0, 0)) > 0.0);

    assert_eq!(value(&field, grid.index(3, 3, 3)), -2.5);
    assert_eq!(value(&field, grid.index(0, 0, 0)), 2.5);
    assert_eq!(value(&field, grid.index(1, 3, 3)), -1.0);
}

#[test]
fn close_voxels_bridges_a_gap() {
    let (grid, known) = shell_grid(true);
    let c = grid.index(3, 3, 3);
    // With no bridging the flood leaks through the hole → centre is exterior.
    let leaky = close_field(&known, &grid.dims, 0, 2.5f32.to_bits());
    assert!(value(&leaky, c) > 0.0, "gap should leak without bridging");
    // One dilation step seals the 1-voxel gap → centre fills solid.
    let sealed = close_field(&known, &grid.dims, 1, 2.5f32.to_bits());
    assert!(value(&sealed, c) < 0.0, "close_voxels should bridge the gap");
}

#[test]
fn surface_is_closed_only_when_watertight() {
    let (grid, known) = shell_grid(false);
    let trunc = 2.5f32.to_bits();
    // Observed voxels alone: the shell has no known outside.
    let observed = surface_field(known.clone(), &grid.dims, false, 0, trunc);
    assert_eq!(observed, known);
    assert!(matches!(surface_of(&observed, &grid.dims), Err(MeshError::NoSurface)));
    let solid = surface_field(known, &grid.dims, true, 0, trunc);
    assert!(solid.iter().all(|v| v.is_some()));
    let (vertices, indices) = surface_of(&solid, &grid.dims).unwrap();
    assert!(!vertices.is_empty());
    assert_eq!(indices.len() % 3, 0);
}

/// Is every side of a triangle matched by one that runs the other way?
fn is_closed(indices: &[u32]) -> bool {
    let mut sides = std::collections::HashMap::new();
    for t in indices.chunks_exact(3) {
        for (a, b) in [(t[0], t[1]), (t[1], t[2]), (t[2], t[0])] {
            *sides.entry((a, b)).or_insert(0i32) += 1;
            *sides.entry((b, a)).or_insert(0) -= 1;
        }
    }
    sides.values().all(|&n| n == 0)
}

#[test]
fn watertight_meshes_are_closed() {
    // A shell with holes, away from the border.
    let dims = [10, 10, 10];
    let known = samples(dims, |x, y, z| {
        let within = |v: usize| (3..=6).contains(&v);
        let edge = |v: usize| v == 3 || v == 6;
        let on_face = edge(x) || edge(y) || edge(z);
        let hole = (x + 2 * y + 3 * z) % 7 == 0;
        (within(x) && within(y) && within(z) && on_face && !hole).then_some(-0.5)
    });
    let trunc = 2.5f32.to_bits();
    for close_voxels in [0, 1] {
        let field = surface_field(known.clone(), &dims, true, close_voxels, trunc);
        let (net, indices) = surface_of(&field, &dims).unwrap();
        assert!(!net.is_empty() && !indices.is_empty());
        assert!(is_closed(&indices), "{close_voxels}");
    }
    // Solid up to the border of the grid, there is nothing to close it with.
    let solid = samples([4, 4, 4], |x, _, _| Some(if x < 2 { -1.0 } else { 1.0 }));
    let field = surface_field(solid, &[4, 4, 4], true, 0, trunc);
    let (_, indices) = surface_of(&field, &[4, 4, 4]).unwrap();
    assert!(!indices.is_empty() && !is_closed(&indices));
}

#[test]
fn places_and_coordinates_agree() {
    let dims = [3, 4, 5];
    assert_eq!(voxel_index(&dims, 2, 1, 3), (3 * 4 + 1) * 3 + 2);
    assert_eq!(coords(&dims, voxel_index(&dims, 2, 1, 3)), (2, 1, 3));
    assert_eq!(neighbors6(0, 0, 0, &dims), vec![1, 3, 12]);
    assert_eq!(
        neighbors6(1, 1, 1, &dims),
        vec![
            voxel_index(&dims, 0, 1, 1),
            voxel_index(&dims, 2, 1, 1),
            voxel_index(&dims, 1, 0, 1),
            voxel_index(&dims, 1, 2, 1),
            voxel_index(&dims, 1, 1, 0),
            voxel_index(&dims, 1, 1, 2),
        ]
    );
}
