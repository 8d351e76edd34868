//! What the user asks for, the stages of a run, and its report.

use meshsplat::cli::{
    artifact_name, classify_input, resolve, sanitize_tag, sfm_options, sparse_place,
    train_settings, InputFacts, InputKind, Overrides, PathKind, PoseSource, Quality, SparsePlace,
};
use meshsplat::colmap::pipeline::{CaptureMode, MapperKind, SfmStats};
use meshsplat::colmap::progress::SfmEvent;
use meshsplat::ffpose::pipeline::FfBackend;
use meshsplat::report::{method_text, RunReport, SfmReport, TrainReport};
use meshsplat::run::{
    bar_update, doctor_colmap, done_line, done_line_with, mesh_headline, mesh_line, mesh_line_with,
    mesh_names, plan, poses_headline, poses_line, poses_line_with, splat_name, train_headline,
    train_line, train_line_with, RunStep,
};
use meshsplat::timing::Elapsed;
use meshsplat::train::{
    begin_training, finish_training, follow_training, TrainEvent, TrainOutcome,
};

fn own(s: &str) -> String {
    s.to_owned()
}

fn took(secs: u64) -> Elapsed {
    Elapsed { secs, nanos: 0 }
}

fn stats(secs: u64) -> SfmStats {
    SfmStats {
        input_images: 120,
        registered_images: 118,
        sparse_points: 45012,
        elapsed: took(secs),
    }
}

fn photos() -> InputKind {
    InputKind::Photos(own("p"))
}

#[test]
fn presets_hold_their_values() {
    let none = Overrides {
        iters: None,
        max_splats: None,
        max_resolution: None,
        grid_res: None,
    };
    let values = |q: Quality| {
        let p = resolve(q, &none);
        assert_eq!(p, q.preset());
        (p.iters, p.max_splats, p.max_resolution, p.grid_res)
    };
    assert_eq!(values(Quality::Fast), (7_000, 1_500_000, 1024, 192));
    assert_eq!(values(Quality::Balanced), (18_000, 4_000_000, 1600, 256));
    assert_eq!(values(Quality::High), (30_000, 8_000_000, 1920, 320));
    let p = resolve(
        Quality::Fast,
        &Overrides {
            iters: Some(10),
            grid_res: Some(64),
            ..none
        },
    );
    assert_eq!((p.iters, p.max_splats, p.max_resolution, p.grid_res), (10, 1_500_000, 1024, 64));
    let t = train_settings(&p, 42, own("out"));
    assert_eq!((t.iters, t.seed, t.export_dir.as_str()), (10, 42, "out"));
    assert_eq!(t.export_every(), 10);
}

#[test]
fn ordered_photos_share_a_camera() {
    let o = sfm_options(CaptureMode::Sequential, false, true, None, MapperKind::Auto);
    assert!(o.single_camera && o.cpu_only);
    assert_eq!((o.max_image_size, o.exhaustive_limit), (3200, 150));
    let o = sfm_options(CaptureMode::Auto, false, false, Some(own("m")), MapperKind::Global);
    assert!(!o.single_camera);
    assert_eq!(o.mask_dir, Some(own("m")));
    assert_eq!(o.mapper, MapperKind::Global);
    assert!(sfm_options(CaptureMode::Auto, true, false, None, MapperKind::Auto).single_camera);
}

#[test]
fn inputs_are_told_apart() {
    let facts = |kind: PathKind, extension: Option<&str>, sparse: bool, images: usize| InputFacts {
        path: own("x"),
        kind,
        extension: extension.map(own),
        has_sparse: sparse,
        has_transforms: false,
        images,
    };
    let file = |e: Option<&str>| classify_input(&facts(PathKind::File, e, false, 0), false);
    assert!(matches!(file(Some("ply")), Ok(InputKind::SplatPly(p)) if p == "x"));
    // A point cloud can only be meshed.
    assert!(matches!(
        classify_input(&facts(PathKind::File, Some("obj"), false, 0), true),
        Ok(InputKind::PointCloud(p)) if p == "x"
    ));
    assert_eq!(
        file(Some("obj")).unwrap_err().message(),
        "Input file x is not a .ply — pass a photo directory or a splat file"
    );
    assert_eq!(
        file(Some("PLY")).unwrap_err().message(),
        "Input file x is not a .ply — pass a photo directory or a splat file"
    );
    assert!(file(None).is_err());
    let dir = |sparse: bool, images: usize, mesh_only: bool| {
        classify_input(&facts(PathKind::Dir, None, sparse, images), mesh_only)
    };
    assert!(matches!(dir(true, 0, false), Ok(InputKind::Dataset(_))));
    assert!(matches!(dir(false, 4, false), Ok(InputKind::Photos(_))));
    let mut nerf = facts(PathKind::Dir, None, false, 4);
    nerf.has_transforms = true;
    assert!(matches!(classify_input(&nerf, false), Ok(InputKind::Dataset(_))));
    assert_eq!(
        dir(false, 0, false).unwrap_err().message(),
        "No images found in x (looked for jpg/jpeg/png/tif/tiff/bmp). Point meshsplat at a folder of photos."
    );
    assert_eq!(
        dir(true, 9, true).unwrap_err().message(),
        "--mesh-only expects a splat .ply file as input"
    );
    let missing = classify_input(&facts(PathKind::Missing, Some("ply"), false, 0), true);
    assert_eq!(missing.unwrap_err().message(), "Input path x does not exist");
}

#[test]
fn posed_datasets_come_in_two_shapes() {
    assert_eq!(sparse_place(true, true), Some(SparsePlace::Zero));
    assert_eq!(sparse_place(true, false), Some(SparsePlace::Top));
    assert_eq!(sparse_place(false, false), None);
}

#[test]
fn tags_name_the_method() {
    assert_eq!(PoseSource::from_str("COLMAP"), Ok(PoseSource::Colmap));
    assert_eq!(
        PoseSource::from_str("mast3r"),
        Ok(PoseSource::FeedForward(FfBackend::Mast3r))
    );
    assert_eq!(
        PoseSource::from_str("vggt"),
        Err(own(
            "unknown pose backend 'vggt' (expected colmap|mapanything|mast3r)"
        ))
    );
    assert_eq!(PoseSource::Colmap.default_tag(), "colmap");
    assert_eq!(
        PoseSource::FeedForward(FfBackend::MapAnything).default_tag(),
        "mapanything"
    );
}

#[test]
fn tags_are_made_safe_for_file_names() {
    assert_eq!(sanitize_tag("a b/c\\ü.v1_x-2"), "a-b-c--.v1_x-2");
    assert_eq!(sanitize_tag(&sanitize_tag("é?")), "--");
    assert_eq!(artifact_name("mesh", "colmap", "obj"), "mesh.colmap.obj");
    assert_eq!(artifact_name("mesh", "", "obj"), "mesh.obj");
    assert_eq!(
        mesh_names("t"),
        vec!["mesh.t.ply", "mesh.t.obj", "mesh.t.glb"]
    );
    assert_eq!(splat_name("t"), "splat.t.ply");
    assert_ne!(splat_name("t"), splat_name("u"));
}

#[test]
fn tagged_runs_share_a_directory() {
    let outputs = |tag: &str| {
        let mut names = mesh_names(tag);
        names.push(splat_name(tag));
        names.extend(RunReport::new(own("v"), own("m"), own(tag)).save(tag));
        names.retain(|n| n != "report.json");
        names
    };
    let tags = ["colmap", "mapanything", "mast3r", "", "ply", "json"];
    for a in tags {
        for b in tags {
            let shared = outputs(a).iter().any(|n| outputs(b).contains(n));
            assert_eq!(shared, a == b, "{a} {b}");
        }
    }
}

#[test]
fn stages_follow_the_input() {
    use_steps(
        &photos(),
        false,
        &[
            RunStep::Gpu,
            RunStep::Poses,
            RunStep::Train,
            RunStep::Mesh,
            RunStep::Save,
        ],
    );
    use_steps(
        &InputKind::Dataset(own("d")),
        true,
        &[RunStep::Gpu, RunStep::Train, RunStep::Save],
    );
    for kind in [InputKind::SplatPly(own("s")), InputKind::PointCloud(own("c"))] {
        use_steps(&kind, false, &[RunStep::Mesh, RunStep::Save]);
        use_steps(&kind, true, &[RunStep::Save]);
    }
}

fn use_steps(kind: &InputKind, splat_only: bool, want: &[RunStep]) {
    assert_eq!(plan(kind, splat_only), want);
}

#[test]
fn headlines_name_the_stages() {
    assert_eq!(
        poses_headline(&photos(), PoseSource::Colmap),
        Some(own("\n■ Stage 1/3 — camera poses (COLMAP)"))
    );
    assert_eq!(
        poses_headline(&photos(), PoseSource::FeedForward(FfBackend::Mast3r)),
        Some(own("\n■ Stage 1/3 — camera poses (mast3r)"))
    );
    let dataset = InputKind::Dataset(own("d"));
    assert_eq!(
        poses_headline(&dataset, PoseSource::Colmap),
        Some(own(
            "\n■ Stage 1/3 — camera poses: dataset already posed, skipping"
        ))
    );
    let splat = InputKind::SplatPly(own("s"));
    assert_eq!(poses_headline(&splat, PoseSource::Colmap), None);
    assert_eq!(
        train_headline(&dataset),
        "\n■ Stage 2/3 — training gaussian splat (Brush · wgpu)"
    );
    assert_eq!(
        train_headline(&splat),
        "\n■ Stage 2/3 — training: skipped (--mesh-only)"
    );
    assert_eq!(mesh_headline(true), "\n■ Stage 3/3 — mesh: skipped (--splat-only)");
    assert_eq!(
        mesh_headline(false),
        "\n■ Stage 3/3 — extracting mesh (TSDF + surface nets)"
    );
}

#[test]
fn times_are_told_in_words() {
    assert_eq!(
        poses_line(&stats(9420)),
        "  registered 118/120 photos, 45012 sparse points in 2h 37m"
    );
    assert_eq!(poses_line(&stats(0)), poses_line_with(&stats(0), "0s"));
    assert_eq!(train_line(7, 61, &None), "  trained 7 splats in 1m 1s");
    assert_eq!(
        train_line(7, 59, &Some(own("27.31"))),
        "  trained 7 splats in 59s, PSNR 27.31"
    );
    assert_eq!(
        train_line_with(7, "no time", &None),
        "  trained 7 splats in no time"
    );
    assert_eq!(mesh_line(8, 12, 3600), "  8 vertices, 12 triangles in 1h");
    assert_eq!(mesh_line_with(8, 12, "T"), "  8 vertices, 12 triangles in T");
    assert_eq!(
        done_line(86_400 + 1, "out"),
        "\n✔ Done in 1day 1s. Outputs in out:"
    );
    assert_eq!(done_line_with("T", "out"), "\n✔ Done in T. Outputs in out:");
}

#[test]
fn events_move_the_bar() {
    let b = bar_update(SfmEvent::StageStarted {
        name: own("Extracting features"),
        index: 1,
        total: 3,
    });
    assert_eq!((b.position, b.length), (Some(0), Some(1)));
    assert_eq!(b.message, Some(own("[1/3] Extracting features")));
    let b = bar_update(SfmEvent::Progress { done: 4, total: 9 });
    assert_eq!((b.position, b.length, b.message), (Some(4), Some(9), None));
    let b = bar_update(SfmEvent::Status(own("s")));
    assert_eq!((b.position, b.length, b.message), (None, None, Some(own("s"))));
}

#[test]
fn doctor_tells_of_colmap() {
    assert_eq!(
        doctor_colmap(&Some((own("/c"), Some(own("COLMAP 3.9"))))),
        "COLMAP: /c (COLMAP 3.9)"
    );
    assert_eq!(
        doctor_colmap(&Some((own("/c"), None))),
        "COLMAP: /c (version unknown)"
    );
    assert!(doctor_colmap(&None).starts_with("COLMAP: not found — it will be downloaded"));
}

#[test]
fn training_is_followed_to_its_end() {
    let bits = |v: f32| v.to_bits();
    let mut s = begin_training();
    let mut seen = Vec::new();
    for e in [
        TrainEvent::Loading { training: true },
        TrainEvent::Views(30),
        TrainEvent::Step(1),
        TrainEvent::Splats(1000),
        TrainEvent::Quality(bits(20.0)),
        TrainEvent::Splats(5000),
        TrainEvent::Quality(bits(27.5)),
        TrainEvent::Other,
        TrainEvent::Finished,
    ] {
        let (next, view) = follow_training(s, e, 700, "d").unwrap();
        s = next;
        seen.push((view.position, view.message));
    }
    assert_eq!(
        seen,
        vec![
            (None, Some(own("loading dataset"))),
            (None, Some(own("30 views"))),
            (Some(1), None),
            (None, Some(own("1000 splats"))),
            (None, None),
            (None, Some(own("5000 splats"))),
            (None, None),
            (None, None),
            (Some(700), None),
        ]
    );
    let out = finish_training(s, own("out/splat.ply"), true, took(8)).unwrap();
    assert_eq!(out.final_splats, 5000);
    assert_eq!(out.last_psnr, Some(bits(27.5)));
    assert_eq!(
        finish_training(s, own("out/splat.ply"), false, took(8)).unwrap_err(),
        "Training finished but no splat was exported to out/splat.ply"
    );
    assert_eq!(
        follow_training(s, TrainEvent::Loading { training: false }, 700, "d").unwrap_err(),
        "Dataset at d loaded as a viewable splat, not a trainable dataset"
    );
}

#[test]
fn splats_are_exported_at_least_once() {
    let mut t = train_settings(&Quality::Fast.preset(), 1, own("o"));
    assert_eq!(t.export_every(), 7_000);
    t.iters = 0;
    assert_eq!(t.export_every(), 1);
}

#[test]
fn reports_gather_the_numbers() {
    let r = SfmReport::of(own("mapanything"), Some(own("a/b")), &stats(3));
    assert_eq!((r.input_images, r.registered_images, r.sparse_points), (120, 118, 45012));
    assert_eq!((r.backend.as_str(), r.model), ("mapanything", Some(own("a/b"))));
    let out = TrainOutcome {
        splat_path: own("s"),
        final_splats: 9,
        last_psnr: None,
        elapsed: took(2),
    };
    let t = TrainReport::of(700, &out);
    assert_eq!((t.iterations, t.final_splat_count, t.last_psnr), (700, 9, None));
    assert_eq!(
        method_text("colmap", 3, "tsdf"),
        "poses=colmap · train=brush(sh3) · mesh=tsdf"
    );
    let report = RunReport::new(own("0.1.3"), own("m"), own("t"));
    assert!(report.outputs.is_empty() && report.mesh.is_none() && report.gpu.is_none());
    assert_eq!(report.save("t"), vec!["report.t.json", "report.json"]);
    assert_eq!(report.save(""), vec!["report.json"]);
}
