//! Splat files, point clouds and lists of cameras.

use meshsplat::ply::{PlyError, PropType, PropValue};
use meshsplat::point_cloud::{
    camera_fields, camera_positions, channels_run_to_255, cloud_format, obj_points,
    obj_vertex_words, read_point_ply, text_points, CloudFormat, PointBody, PointCloud, RawPoint,
    SinglePoint, DEFAULT_GRAY,
};
use meshsplat::splat_ply::{holds_splats, load_splat_ply, SplatCloud};

const FIELDS: [&str; 14] = [
    "x", "y", "z", "f_dc_0", "f_dc_1", "f_dc_2", "opacity", "scale_0", "scale_1", "scale_2",
    "rot_0", "rot_1", "rot_2", "rot_3",
];

fn splat_file(fields: &[&str], rows: &[Vec<f32>]) -> Vec<u8> {
    let mut text = format!(
        "ply\nformat binary_little_endian 1.0\nelement vertex {}\n",
        rows.len()
    );
    for f in fields {
        text.push_str(&format!("property float {f}\n"));
    }
    text.push_str("end_header\n");
    let mut bytes = text.into_bytes();
    for row in rows {
        for v in row {
            bytes.extend_from_slice(&v.to_le_bytes());
        }
    }
    bytes
}

fn row(x: f32, opacity: f32) -> Vec<f32> {
    vec![
        x, 2.0, 3.0, 0.5, -0.2, 0.1, opacity, -4.0, -3.0, -2.0, 1.0, 0.0, 0.0, 0.25,
    ]
}

fn single(v: f32) -> PropValue {
    PropValue::Single(v.to_bits())
}

fn numbers(words: &[String]) -> Vec<Option<u32>> {
    words
        .iter()
        .map(|w| w.parse::<f32>().ok().map(f32::to_bits))
        .collect()
}

fn as_f32(v: PropValue) -> f32 {
    match v {
        PropValue::Single(bits) => f32::from_bits(bits),
        PropValue::Double(bits) => f64::from_bits(bits) as f32,
        PropValue::Int(i) => i as f32,
    }
}

#[test]
fn splats_are_read_as_stored() {
    let cloud = load_splat_ply(&splat_file(&FIELDS, &[row(1.0, 4.0), row(9.0, -1.0)])).unwrap();
    assert_eq!(cloud.splats.len(), 2);
    assert!(!cloud.linear);
    let s = &cloud.splats[1];
    assert_eq!(s.position, (single(9.0), single(2.0), single(3.0)));
    assert_eq!(s.opacity, single(-1.0));
    assert_eq!(s.scale, (single(-4.0), single(-3.0), single(-2.0)));
    assert_eq!(
        s.rotation,
        (single(1.0), single(0.0), single(0.0), single(0.25))
    );
    assert_eq!(s.color, Some((single(0.5), single(-0.2), single(0.1))));
}

#[test]
fn splats_without_a_place_are_left_out() {
    let rows = [
        row(f32::NAN, 0.5),
        row(1.0, 0.5),
        row(f32::INFINITY, 0.5),
        row(2.0, 0.5),
    ];
    let cloud = load_splat_ply(&splat_file(&FIELDS, &rows)).unwrap();
    assert_eq!(cloud.splats.len(), 2);
    assert_eq!(cloud.splats[0].position.0, single(1.0));
    assert_eq!(cloud.splats[1].position.0, single(2.0));
}

#[test]
fn linear_opacities_are_told_by_their_range() {
    let linear = |o: &[f32]| {
        let rows: Vec<Vec<f32>> = o.iter().map(|&v| row(0.0, v)).collect();
        load_splat_ply(&splat_file(&FIELDS, &rows)).unwrap().linear
    };
    assert!(linear(&[0.0, 0.5, 1.0]));
    assert!(linear(&[-0.01, 1.01, f32::NAN]));
    assert!(!linear(&[0.5, 1.02]));
    assert!(!linear(&[0.5, -0.011]));
    assert!(!linear(&[0.5, f32::NEG_INFINITY]));
}

#[test]
fn doubles_round_like_singles() {
    let header = "ply\nformat binary_little_endian 1.0\nelement vertex 1\n\
                  property double x\nproperty double y\nproperty double z\n\
                  property double opacity\nproperty uchar scale_0\nproperty uchar scale_1\n\
                  property uchar scale_2\nproperty char rot_0\nproperty short rot_1\n\
                  property int rot_2\nproperty ushort rot_3\nend_header\n";
    let file = |x: f64, opacity: f64| {
        let mut b = header.as_bytes().to_vec();
        for v in [x, 1.0, 2.0, opacity] {
            b.extend_from_slice(&v.to_le_bytes());
        }
        b.extend_from_slice(&[1, 2, 255]);
        b.push(0xFE);
        b.extend_from_slice(&(-300i16).to_le_bytes());
        b.extend_from_slice(&(-70000i32).to_le_bytes());
        b.extend_from_slice(&65535u16.to_le_bytes());
        b
    };
    let cloud = load_splat_ply(&file(0.5, 0.25)).unwrap();
    let s = &cloud.splats[0];
    assert!(cloud.linear);
    assert_eq!(s.position.0, PropValue::Double(0.5f64.to_bits()));
    assert_eq!(
        s.scale,
        (PropValue::Int(1), PropValue::Int(2), PropValue::Int(255))
    );
    assert_eq!(
        s.rotation,
        (
            PropValue::Int(-2),
            PropValue::Int(-300),
            PropValue::Int(-70000),
            PropValue::Int(65535)
        )
    );
    assert_eq!(s.color, None);

    // What a reader of singles would see decides.
    let mut v = 1.0f64;
    for k in 0..2000 {
        v = 1.01 + (k as f64 - 1000.0) * 1e-10;
        let as_single = v as f32;
        let linear = load_splat_ply(&file(0.0, v)).unwrap().linear;
        assert_eq!(linear, as_single <= 1.01, "{v}");
        let low = -0.01 - (k as f64 - 1000.0) * 1e-12;
        let linear = load_splat_ply(&file(0.0, low)).unwrap().linear;
        assert_eq!(linear, low as f32 >= -0.01, "{low}");
    }
    assert!(v > 1.01);
    for x in [3.4e38f64, 3.4028235e38, 3.4028236e38, 1e39, -1e300, f64::NAN] {
        let read = load_splat_ply(&file(x, 0.5));
        assert_eq!(read.is_ok(), (x as f32).is_finite(), "{x}");
    }
}

#[test]
fn broken_splat_files_are_refused() {
    let err = |b: &[u8]| load_splat_ply(&b.to_vec()).unwrap_err().message(false, "f.ply");
    assert_eq!(err(b""), "Not a PLY file (missing 'ply' magic)");
    assert_eq!(err(b"obj\n"), "Not a PLY file (missing 'ply' magic)");
    assert_eq!(err(b"ply\xFF\n"), "stream did not contain valid UTF-8");
    assert_eq!(err(b"ply\n"), "PLY header ended unexpectedly");
    assert_eq!(err(b"ply\ncomment \xC3\n"), "stream did not contain valid UTF-8");
    assert_eq!(
        err(b"ply\nformat ascii 1.0\n"),
        "Unsupported PLY format 'ascii' (need binary_little_endian)"
    );
    assert_eq!(err(b"ply\nelement vertex many\n"), "Bad vertex count");
    assert_eq!(err(b"ply\nelement vertex -1\n"), "Bad vertex count");
    assert_eq!(
        err(b"ply\nelement vertex 1\nproperty list uchar int i\n"),
        "List properties on vertices are not supported"
    );
    assert_eq!(
        err(b"ply\nelement vertex 1\nproperty half x\n"),
        "Unknown PLY property type 'half'"
    );
    assert_eq!(err(b"ply\nend_header\n"), "PLY header has no format line");
    assert_eq!(
        err(b"ply\nformat binary_little_endian 1.0\nend_header\n"),
        "PLY has no vertex element"
    );
    assert_eq!(
        err(b"ply\nformat binary_little_endian 1.0\nelement vertex 1\nproperty float x\nproperty float red\nend_header\n"),
        "PLY is missing the 'y' property — not a 3D gaussian splatting file? \
         Found properties: x, red"
    );
    let mut cut = splat_file(&FIELDS, &[row(1.0, 0.5)]);
    cut.pop();
    assert_eq!(err(&cut), "PLY ended early — file truncated?");
    assert_eq!(
        err(&splat_file(&FIELDS, &[row(f32::NAN, 0.5)])),
        "No finite gaussians found in f.ply"
    );
    assert_eq!(
        err(&splat_file(&FIELDS, &[])),
        "No finite gaussians found in f.ply"
    );
}

#[test]
fn headers_pass_over_what_they_do_not_know() {
    let header = b"ply\r\nformat binary_little_endian 1.0\ncomment by hand\nobj_info x\n\
                   element face 3\nproperty list uchar int vertex_indices\nproperty half odd\n\
                   element vertex +1\nproperty float x\nproperty float y\nproperty float z\n\
                   property float opacity\nproperty float scale_0\nproperty float scale_1\n\
                   property float scale_2\nproperty float rot_0\nproperty float rot_1\n\
                   property float rot_2\nproperty float rot_3\nproperty float x\nend_header\n";
    let mut bytes = header.to_vec();
    for v in 0..12 {
        bytes.extend_from_slice(&(v as f32).to_le_bytes());
    }
    assert!(holds_splats(&bytes));
    let cloud = load_splat_ply(&bytes).unwrap();
    // The first of two properties of the same name counts.
    assert_eq!(cloud.splats[0].position.0, single(0.0));
    assert_eq!(cloud.splats[0].color, None);
    assert!(!holds_splats(&b"ply\nformat ascii 1.0\n".to_vec()));
}

#[test]
fn property_types_go_by_two_names() {
    for (a, b, ty, size) in [
        ("float", "float32", PropType::F32, 4),
        ("double", "float64", PropType::F64, 8),
        ("char", "int8", PropType::I8, 1),
        ("uchar", "uint8", PropType::U8, 1),
        ("short", "int16", PropType::I16, 2),
        ("ushort", "uint16", PropType::U16, 2),
        ("int", "int32", PropType::I32, 4),
        ("uint", "uint32", PropType::U32, 4),
    ] {
        assert_eq!(PropType::parse(a), Some(ty));
        assert_eq!(PropType::parse(b), Some(ty));
        assert_eq!(ty.size(), size);
        assert_eq!(ty.is_integer(), ty != PropType::F32 && ty != PropType::F64);
    }
    assert_eq!(PropType::parse("Float"), None);
}

/// The points of a text file, by way of the numbers that its words spell.
fn text_cloud(bytes: &[u8]) -> Result<(Vec<RawPoint>, bool), PlyError<String>> {
    let file = read_point_ply(&bytes.to_vec())?;
    let lines = match file.body {
        PointBody::Lines(lines) => lines,
        PointBody::Points(points) => return Ok((points, file.columns.integer)),
    };
    let spelled: Vec<Option<Vec<Option<u32>>>> =
        lines.iter().map(|l| l.as_ref().map(|w| numbers(w))).collect();
    let points = text_points(&spelled, &file.columns, file.width, file.count)?;
    Ok((points, file.columns.integer))
}

#[test]
fn ascii_ply_with_colors_round_trips() {
    let bytes = b"ply\nformat ascii 1.0\nelement vertex 2\n\
        property float x\nproperty float y\nproperty float z\n\
        property uchar red\nproperty uchar green\nproperty uchar blue\n\
        end_header\n0 0 0 255 0 0\n1 2 3 0 128 255\n";
    let (points, integer) = text_cloud(bytes).unwrap();
    assert_eq!(points.len(), 2);
    let scale = if channels_run_to_255(&points, integer) {
        1.0 / 255.0
    } else {
        1.0
    };
    let red = as_f32(points[0].color.unwrap().0) * scale;
    assert!((red - 1.0f32).abs() < 1e-6);
    let p = points[1].position;
    assert!((as_f32(p.0) - 1.0).abs() < 1e-6);
    assert!((as_f32(p.1) - 2.0).abs() < 1e-6);
    assert!((as_f32(p.2) - 3.0).abs() < 1e-6);
    assert!(points[0].normal.is_none());
    assert!(integer);
}

#[test]
fn text_rows_end_with_the_declared_count() {
    let body = "1 2 3\n\nx y\n4 5 6 7\n7 8 9\n";
    let file = |n: usize| {
        format!(
            "ply\nformat ascii 1.0\nelement vertex {n}\nproperty float x\nproperty float y\n\
             property float z\nend_header\n{body}"
        )
        .into_bytes()
    };
    assert_eq!(text_cloud(&file(2)).unwrap().0.len(), 2);
    assert_eq!(text_cloud(&file(9)).unwrap().0.len(), 3);
    // No count: every row.
    assert_eq!(text_cloud(&file(0)).unwrap().0.len(), 3);
    // A line that is not text matters only if it is reached.
    let mut cut = file(3);
    cut.extend_from_slice(b"\xFF\n");
    assert_eq!(text_cloud(&cut).unwrap().0.len(), 3);
    let mut cut = file(4);
    cut.extend_from_slice(b"\xFF\n");
    assert!(matches!(text_cloud(&cut), Err(PlyError::NotText)));
}

#[test]
fn binary_clouds_know_their_columns_by_any_name() {
    let mut bytes = b"ply\nformat binary_little_endian 1.0\nelement vertex 2\n\
        property double X\nproperty float y\nproperty float Z\n\
        property uchar diffuse_red\nproperty uchar g\nproperty uchar BLUE\n\
        property float normal_x\nproperty float ny\nproperty float nz\n\
        property list uchar int ignored\nend_header\n"
        .to_vec();
    for k in 0..2u8 {
        bytes.extend_from_slice(&(k as f64 + 0.5).to_le_bytes());
        bytes.extend_from_slice(&2.0f32.to_le_bytes());
        bytes.extend_from_slice(&3.0f32.to_le_bytes());
        bytes.extend_from_slice(&[k, 1, 2]);
        for v in [0.0f32, 0.0, 1.0] {
            bytes.extend_from_slice(&v.to_le_bytes());
        }
    }
    let (points, integer) = text_cloud(&bytes).unwrap();
    assert!(integer);
    assert_eq!(points.len(), 2);
    assert_eq!(points[1].position.0, PropValue::Double(1.5f64.to_bits()));
    assert_eq!(
        points[1].color,
        Some((PropValue::Int(1), PropValue::Int(1), PropValue::Int(2)))
    );
    assert_eq!(
        points[0].normal,
        Some((single(0.0), single(0.0), single(1.0)))
    );
    bytes.pop();
    let err = text_cloud(&bytes).unwrap_err();
    assert_eq!(err.message(true, "c.ply"), "PLY ended early — truncated?");
}

#[test]
fn order_and_case_of_properties_do_not_matter() {
    // Each property with its bytes in two rows and its words.
    let columns: [(&str, &str, [f32; 2]); 9] = [
        ("float", "x", [1.0, 4.0]),
        ("float", "y", [2.0, 5.0]),
        ("float", "z", [3.0, 6.0]),
        ("uchar", "red", [10.0, 40.0]),
        ("uchar", "green", [20.0, 50.0]),
        ("uchar", "blue", [30.0, 60.0]),
        ("float", "nx", [0.0, 0.6]),
        ("float", "ny", [0.0, 0.8]),
        ("float", "nz", [1.0, 0.0]),
    ];
    let file = |format: &str, order: &[usize], upper: bool| {
        let mut bytes = format!("ply\nformat {format} 1.0\nelement vertex 2\n").into_bytes();
        for &k in order {
            let (ty, name, _) = columns[k];
            let name = if upper { name.to_uppercase() } else { name.to_owned() };
            bytes.extend_from_slice(format!("property {ty} {name}\n").as_bytes());
        }
        bytes.extend_from_slice(b"end_header\n");
        for r in 0..2 {
            for &k in order {
                let (ty, _, values) = columns[k];
                if format == "ascii" {
                    bytes.extend_from_slice(format!("{} ", values[r]).as_bytes());
                } else if ty == "uchar" {
                    bytes.push(values[r] as u8);
                } else {
                    bytes.extend_from_slice(&values[r].to_le_bytes());
                }
            }
            if format == "ascii" {
                bytes.push(b'\n');
            }
        }
        let (points, integer) = text_cloud(&bytes).unwrap();
        let points: Vec<_> = points.iter().map(|p| (p.position, p.color, p.normal)).collect();
        (points, integer)
    };
    for format in ["ascii", "binary_little_endian"] {
        let plain = file(format, &[0, 1, 2, 3, 4, 5, 6, 7, 8], false);
        assert_eq!(plain.0.len(), 2);
        assert!(plain.0[1].1.is_some() && plain.0[1].2.is_some());
        assert_eq!(plain, file(format, &[8, 3, 0, 6, 4, 2, 1, 5, 7], false));
        assert_eq!(plain, file(format, &[0, 1, 2, 3, 4, 5, 6, 7, 8], true));
        assert_eq!(plain, file(format, &[5, 7, 2, 0, 8, 1, 3, 4, 6], true));
        // Two thirds of a normal are none.
        let partial = file(format, &[0, 1, 2, 3, 4, 5, 6, 7], false);
        assert!(partial.0.iter().all(|p| p.1.is_some() && p.2.is_none()));
    }
}

#[test]
fn reordered_clouds_are_refused_alike() {
    let file = |names: [&str; 3], rows: usize| {
        let mut bytes = b"ply\nformat binary_little_endian 1.0\nelement vertex 2\n".to_vec();
        for (name, ty) in names.iter().zip(["double", "float", "uchar"]) {
            bytes.extend_from_slice(format!("property {ty} {name}\n").as_bytes());
        }
        bytes.extend_from_slice(b"end_header\n");
        bytes.extend(vec![0u8; 13 * rows]);
        text_cloud(&bytes).map(|(points, _)| points.len())
    };
    for names in [["x", "y", "z"], ["Z", "x", "y"], ["y", "z", "X"]] {
        assert_eq!(file(names, 2).unwrap(), 2);
        assert!(matches!(file(names, 1), Err(PlyError::Truncated)));
    }
    for names in [["x", "z", "a"], ["A", "X", "Z"]] {
        assert!(matches!(file(names, 2), Err(PlyError::MissingProperty(n, _)) if n == "y"));
    }
}

#[test]
fn clouds_are_made_of_their_points() {
    let point = |v: f32, color: Option<[f32; 3]>, normal: Option<[f32; 3]>| SinglePoint {
        position: [v, v + 1.0, v + 2.0].map(f32::to_bits),
        color: color.map(|c| c.map(f32::to_bits)),
        normal: normal.map(|n| n.map(f32::to_bits)),
    };
    let up = Some([0.0, 0.0, 1.0]);
    let cloud = PointCloud::of(&vec![
        point(1.0, Some([0.5, -0.25, 1.5]), up),
        point(5.0, None, up),
    ]);
    assert_eq!(cloud.positions[1], [5.0, 6.0, 7.0f32].map(f32::to_bits));
    assert_eq!(cloud.colors[0], [0.5, 0.0, 1.0f32].map(f32::to_bits));
    assert_eq!(cloud.colors[1], [DEFAULT_GRAY; 3]);
    assert_eq!(cloud.normals.unwrap(), vec![[0.0, 0.0, 1.0f32].map(f32::to_bits); 2]);
    // One point without a normal, and there are none.
    let cloud = PointCloud::of(&vec![point(1.0, None, up), point(2.0, None, None)]);
    assert_eq!((cloud.positions.len(), cloud.colors.len()), (2, 2));
    assert!(cloud.normals.is_none());
    let odd = PointCloud::of(&vec![point(1.0, Some([f32::NAN, f32::INFINITY, 0.0]), None)]);
    assert!(f32::from_bits(odd.colors[0][0]).is_nan());
    assert_eq!(odd.colors[0][1..], [1.0f32.to_bits(), 0]);
}

#[test]
fn broken_clouds_are_refused() {
    let err = |b: &[u8]| text_cloud(b).unwrap_err().message(true, "c.ply");
    assert_eq!(
        err(b"ply\nformat binary_big_endian 1.0\n"),
        "Unsupported PLY format 'binary_big_endian'"
    );
    assert_eq!(
        err(b"ply\nelement vertex 1\nproperty half x\n"),
        "Unknown PLY type 'half'"
    );
    assert_eq!(
        err(b"ply\nformat ascii 1.0\nelement vertex 1\nproperty float x\nproperty float z\nend_header\n"),
        "PLY vertex has no 'y'"
    );
    assert_eq!(
        err(b"ply\nformat ascii 1.0\nelement vertex 1\nproperty float x\nproperty float y\nproperty float z\nend_header\n"),
        "No points found in c.ply"
    );
    assert_eq!(
        err(b"ply\nelement vertex 0\nproperty float x\nproperty float y\nproperty float z\nend_header\n"),
        "No points found in c.ply"
    );
    assert_eq!(err(b"ply\nend_header\n"), "PLY has no vertex element");
}

#[test]
fn obj_vertices_carry_colours_if_any_does() {
    let points = |text: &[u8]| {
        let words = obj_vertex_words(&text.to_vec()).unwrap();
        let spelled: Vec<Vec<Option<u32>>> = words.iter().map(|w| numbers(w)).collect();
        obj_points(&spelled)
    };
    let plain = points(b"# c\nv 1 2 3\nvn 0 0 1\nv 4 5\nv 6 7 8 1.0\nf 1 2 3\n").unwrap();
    assert_eq!(plain.len(), 2);
    assert_eq!(plain[1].position, (single(6.0), single(7.0), single(8.0)));
    assert!(plain.iter().all(|p| p.color.is_none()));

    let colored = points(b"v 1 2 3 255 0 0\nv 4 5 6\n").unwrap();
    assert_eq!(
        colored[0].color,
        Some((single(255.0), single(0.0), single(0.0)))
    );
    let gray = PropValue::Single(DEFAULT_GRAY);
    assert_eq!(colored[1].color, Some((gray, gray, gray)));
    assert!(channels_run_to_255(&colored, false));

    assert!(matches!(points(b"f 1 2 3\n"), Err(PlyError::Empty)));
    assert!(matches!(
        obj_vertex_words(&b"v 1 2 3\n\xFF\n".to_vec()),
        Err(PlyError::NotText)
    ));
}

#[test]
fn channels_are_told_by_their_range() {
    let cloud = |c: PropValue| {
        vec![RawPoint {
            position: (single(0.0), single(0.0), single(0.0)),
            color: Some((single(0.0), c, single(1.0))),
            normal: None,
        }]
    };
    assert!(!channels_run_to_255(&cloud(single(1.5)), false));
    assert!(channels_run_to_255(&cloud(single(1.6)), false));
    assert!(!channels_run_to_255(&cloud(single(f32::NAN)), false));
    assert!(channels_run_to_255(&cloud(single(0.0)), true));
    assert!(channels_run_to_255(&cloud(PropValue::Int(2)), false));
    for d in [1.5f64, 1.50000005, 1.50000007, 2.0] {
        let v = PropValue::Double(d.to_bits());
        assert_eq!(channels_run_to_255(&cloud(v), false), d as f32 > 1.5);
    }
    // Only the first colours are looked at.
    let mut many = vec![cloud(single(0.5))[0]; 4096];
    many.push(cloud(single(200.0))[0]);
    assert!(!channels_run_to_255(&many, false));
    many.remove(0);
    assert!(channels_run_to_255(&many, false));
}

#[test]
fn camera_centers_skip_labels_and_comments() {
    let text = b"# label x y z ...\nIMG_001 1.0 2.0 3.0 0.1 0.2\nIMG_002, 4, 5, 6\n";
    let fields = camera_fields(&text.to_vec()).unwrap();
    let spelled: Vec<Vec<Option<u32>>> = fields.iter().map(|w| numbers(w)).collect();
    let c = camera_positions(&spelled).unwrap();
    assert_eq!(c.len(), 2);
    for (got, want) in [(c[0], [1.0f32, 2.0, 3.0]), (c[1], [4.0, 5.0, 6.0])] {
        assert!((f32::from_bits(got.0) - want[0]).abs() < 1e-6);
        assert!((f32::from_bits(got.1) - want[1]).abs() < 1e-6);
        assert!((f32::from_bits(got.2) - want[2]).abs() < 1e-6);
    }
}

#[test]
fn camera_lists_need_three_finite_numbers() {
    let positions = |text: &[u8]| {
        let fields = camera_fields(&text.to_vec()).unwrap();
        let spelled: Vec<Vec<Option<u32>>> = fields.iter().map(|w| numbers(w)).collect();
        camera_positions(&spelled)
    };
    assert_eq!(positions(b"\n  # only a comment\na b 1 2\n"), None);
    let c = positions(b"cam;inf;1;nan;2;3;4\n").unwrap();
    assert_eq!(
        c,
        vec![(1.0f32.to_bits(), 2.0f32.to_bits(), 3.0f32.to_bits())]
    );
    assert!(matches!(
        camera_fields(&b"\xFF".to_vec()),
        Err(PlyError::NotText)
    ));
}

#[test]
fn cloud_files_are_told_by_extension() {
    let ext = |e: &str| Some(e.to_owned());
    assert_eq!(cloud_format(&ext("PLY")), Ok(CloudFormat::Ply));
    assert_eq!(cloud_format(&ext("obj")), Ok(CloudFormat::Obj));
    assert_eq!(cloud_format(&ext("XYZ")), Err(ext("xyz")));
    assert_eq!(cloud_format(&None), Err(None));
}

#[test]
fn clouds_count_their_points() {
    let mut c = SplatCloud::new();
    assert!(c.is_empty());
    c.push([1; 3], [2; 3], [3; 4], 4, [5; 3]);
    assert_eq!(c.len(), 1);
    assert!(!c.is_empty());
    let p = PointCloud {
        positions: vec![[0; 3]; 2],
        colors: Vec::new(),
        normals: None,
    };
    assert_eq!(p.len(), 2);
    assert!(!p.is_empty());
}
