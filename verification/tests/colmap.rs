//! Finding COLMAP, running its stages, and choosing among its results.

use meshsplat::colmap::fetch::{
    after_unpacking, ensure_colmap, ColmapBuild, FetchError, FetchEvent, FetchFacts, FetchPlan,
};
use meshsplat::colmap::images::{image_extension_list, is_image_name, list_images};
use meshsplat::colmap::locate::{binary_names, locate, search_dir, ColmapBinary, DirTree, Places};
use meshsplat::colmap::pipeline::{
    advance_sfm, attempt_name, best_model, command_failure, finish_sfm, flag_for, keep_tail,
    pick_best_model, sfm_command, start_sfm, CaptureMode, MapperKind, SfmError, SfmJob, SfmOptions,
    SfmOutcome, SfmRun, SfmStep, SparseChoice, TAIL_LINES,
};
use meshsplat::colmap::progress::{
    parse_bracket_progress, report_extract_progress, report_mapper_progress, report_match_progress,
    SfmEvent,
};
use meshsplat::colmap::sparse::{export_file, model_files, stems};
use meshsplat::timing::Elapsed;

const NEW_HELP: &str = "  --FeatureExtraction.use_gpu arg (=1)\n  --FeatureExtraction.max_image_size arg (=-1)\n  --SiftExtraction.max_num_features arg (=8192)\n";
const OLD_HELP: &str = "  --SiftExtraction.max_image_size arg (=3200)\n  --SiftExtraction.use_gpu arg (=1)\n";

fn own(s: &str) -> String {
    s.to_owned()
}

fn job(images: usize, capture: CaptureMode) -> SfmJob {
    SfmJob {
        images,
        images_dir: own("photos"),
        database: own("work/database.db"),
        opts: SfmOptions {
            capture,
            ..SfmOptions::default()
        },
        masks_found: false,
        extract_help: own(NEW_HELP),
        exhaustive_help: String::new(),
        sequential_help: own("--SequentialPairing.overlap --FeatureMatching.use_gpu"),
        major_version: Some(4),
        has_global: true,
    }
}

fn choice(dir: &str, registered: usize, points: usize) -> SparseChoice {
    SparseChoice {
        dir: own(dir),
        registered,
        points,
    }
}

fn stage_of(event: &SfmEvent) -> String {
    match event {
        SfmEvent::StageStarted { name, index, total } => format!("[{index}/{total}] {name}"),
        SfmEvent::Progress { done, total } => format!("{done} of {total}"),
        SfmEvent::Status(t) => t.clone(),
    }
}

fn told(events: &[SfmEvent]) -> Vec<String> {
    events.iter().map(stage_of).collect()
}

/// Runs to the end, with mapping coming to the models given.
fn run(job: &SfmJob, models: Vec<SparseChoice>) -> Result<(SfmRun, Vec<SfmStep>), SfmError> {
    let (mut run, _) = start_sfm(job)?;
    let mut models = models.into_iter();
    let mut steps = vec![run.step];
    while run.step != SfmStep::Assemble {
        let outcome = match run.step {
            SfmStep::Reconstruct { .. } => SfmOutcome::Mapped(models.next().unwrap()),
            _ => SfmOutcome::Done,
        };
        run = advance_sfm(job, run, outcome)?.0;
        steps.push(run.step);
        assert!(steps.len() <= 9);
    }
    Ok((run, steps))
}

#[test]
fn capture_modes_and_mappers_have_names() {
    assert_eq!(CaptureMode::from_str("AUTO"), Ok(CaptureMode::Auto));
    assert_eq!(CaptureMode::from_str("unordered"), Ok(CaptureMode::Unordered));
    for s in ["sequential", "Turntable", "video"] {
        assert_eq!(CaptureMode::from_str(s), Ok(CaptureMode::Sequential));
    }
    assert_eq!(
        CaptureMode::from_str("Orbit"),
        Err(own(
            "unknown capture mode 'orbit' (expected auto|unordered|sequential)"
        ))
    );
    assert_eq!(MapperKind::from_str("auto"), Ok(MapperKind::Auto));
    assert_eq!(MapperKind::from_str("Incremental"), Ok(MapperKind::Incremental));
    assert_eq!(MapperKind::from_str("GLOMAP"), Ok(MapperKind::Global));
    assert_eq!(
        MapperKind::from_str("x"),
        Err(own("unknown mapper 'x' (expected auto|global|incremental)"))
    );
}

#[test]
fn flags_are_spelled_as_the_help_shows() {
    assert_eq!(
        flag_for(NEW_HELP, "max_image_size", "--SiftExtraction.max_image_size"),
        "--FeatureExtraction.max_image_size"
    );
    assert_eq!(
        flag_for(OLD_HELP, "max_image_size", "--X.max_image_size"),
        "--SiftExtraction.max_image_size"
    );
    assert_eq!(flag_for("", "use_gpu", "--A.use_gpu"), "--A.use_gpu");
    assert_eq!(
        flag_for("use_gpu --use_gpu X.use_gpu", "use_gpu", "--A.use_gpu"),
        "--A.use_gpu"
    );
    // An unknown version falls back on the older spelling.
    let mut j = job(3, CaptureMode::Auto);
    j.extract_help = String::new();
    let (run, _) = start_sfm(&j).unwrap();
    let args = sfm_command(&j, &run, "").unwrap();
    assert_eq!(args[9], "--FeatureExtraction.max_image_size");
    j.major_version = None;
    let args = sfm_command(&j, &run, "").unwrap();
    assert_eq!(args[9], "--SiftExtraction.max_image_size");
    assert_eq!(args[11], "--SiftExtraction.use_gpu");
}

#[test]
fn commands_carry_the_options() {
    let mut j = job(200, CaptureMode::Auto);
    j.opts.single_camera = true;
    j.opts.mask_dir = Some(own("masks"));
    let (run, event) = start_sfm(&j).unwrap();
    assert_eq!(stage_of(&event), "[1/3] Extracting features");
    let refused = sfm_command(&j, &run, "").unwrap_err();
    assert_eq!(refused.message(), "--masks directory masks does not exist");
    j.masks_found = true;
    assert_eq!(
        sfm_command(&j, &run, "").unwrap(),
        vec![
            "feature_extractor",
            "--database_path",
            "work/database.db",
            "--image_path",
            "photos",
            "--ImageReader.camera_model",
            "SIMPLE_RADIAL",
            "--ImageReader.single_camera",
            "1",
            "--FeatureExtraction.max_image_size",
            "3200",
            "--ImageReader.mask_path",
            "masks",
            "--FeatureExtraction.use_gpu",
            "1",
        ]
    );
    let (run, events) = advance_sfm(&j, run, SfmOutcome::Done).unwrap();
    assert_eq!(told(&events), vec!["[2/3] Matching images (sequential)"]);
    assert_eq!(
        sfm_command(&j, &run, "").unwrap(),
        vec![
            "sequential_matcher",
            "--database_path",
            "work/database.db",
            "--SequentialPairing.overlap",
            "15",
            "--FeatureMatching.use_gpu",
            "1",
        ]
    );
    let (run, events) = advance_sfm(&j, run, SfmOutcome::Done).unwrap();
    assert_eq!(told(&events), vec!["[3/3] Reconstructing camera poses"]);
    assert_eq!(attempt_name(&run), "run1");
    assert_eq!(
        sfm_command(&j, &run, "work/sparse/run1").unwrap(),
        vec![
            "global_mapper",
            "--database_path",
            "work/database.db",
            "--image_path",
            "photos",
            "--output_path",
            "work/sparse/run1",
        ]
    );
}

#[test]
fn mappers_are_taken_as_asked() {
    let mapper = |kind: MapperKind, has_global: bool| {
        let mut j = job(3, CaptureMode::Auto);
        j.opts.mapper = kind;
        j.has_global = has_global;
        let run = SfmRun {
            step: SfmStep::Reconstruct { exhaustive: true },
            attempt: 1,
            models: Vec::new(),
        };
        sfm_command(&j, &run, "d").map(|args| args[0].clone())
    };
    assert_eq!(mapper(MapperKind::Auto, true).unwrap(), "global_mapper");
    assert_eq!(mapper(MapperKind::Auto, false).unwrap(), "mapper");
    assert_eq!(mapper(MapperKind::Incremental, true).unwrap(), "mapper");
    assert_eq!(mapper(MapperKind::Global, true).unwrap(), "global_mapper");
    let refused = mapper(MapperKind::Global, false).unwrap_err();
    assert!(matches!(refused, SfmError::NoGlobalMapper));
    assert!(refused
        .message()
        .starts_with("--sfm-mapper global needs COLMAP 4.0+"));
}

#[test]
fn three_photos_are_needed() {
    let e = start_sfm(&job(2, CaptureMode::Auto)).unwrap_err();
    assert_eq!(
        e.message(),
        "Need at least 3 images to reconstruct, found 2 in photos"
    );
    assert!(start_sfm(&job(3, CaptureMode::Auto)).is_ok());
}

#[test]
fn small_sets_are_matched_pair_by_pair() {
    let matching = |images: usize, capture: CaptureMode| {
        let (run, _) = start_sfm(&job(images, capture)).unwrap();
        let (run, _) = advance_sfm(&job(images, capture), run, SfmOutcome::Done).unwrap();
        run.step
    };
    let exhaustive = SfmStep::Match { exhaustive: true, gpu: true };
    let sequential = SfmStep::Match { exhaustive: false, gpu: true };
    assert_eq!(matching(150, CaptureMode::Auto), exhaustive);
    assert_eq!(matching(151, CaptureMode::Auto), sequential);
    assert_eq!(matching(900, CaptureMode::Unordered), exhaustive);
    assert_eq!(matching(5, CaptureMode::Sequential), sequential);
}

#[test]
fn gpu_failures_are_retried_on_the_cpu() {
    let j = job(10, CaptureMode::Auto);
    let (run, _) = start_sfm(&j).unwrap();
    let with_gpu = sfm_command(&j, &run, "").unwrap();
    let (run, events) = advance_sfm(&j, run, SfmOutcome::Failed(own("no GL"))).unwrap();
    assert!(events.is_empty());
    assert_eq!(run.step, SfmStep::Extract { gpu: false });
    let without = sfm_command(&j, &run, "").unwrap();
    let n = without.len() - 1;
    assert_eq!(with_gpu[..n], without[..n]);
    assert_eq!((with_gpu[n].as_str(), without[n].as_str()), ("1", "0"));
    let e = advance_sfm(&j, run, SfmOutcome::Failed(own("broken"))).unwrap_err();
    assert_eq!(e.message(), "COLMAP feature extraction failed: broken");

    let run = SfmRun {
        step: SfmStep::Match { exhaustive: true, gpu: true },
        attempt: 1,
        models: Vec::new(),
    };
    let (run, _) = advance_sfm(&j, run, SfmOutcome::Failed(own("no GL"))).unwrap();
    assert_eq!(run.step, SfmStep::Match { exhaustive: true, gpu: false });
    let e = advance_sfm(&j, run, SfmOutcome::Failed(own("broken"))).unwrap_err();
    assert_eq!(e.message(), "COLMAP feature matching failed: broken");
}

#[test]
fn cpu_only_never_tries_the_gpu() {
    let mut j = job(10, CaptureMode::Auto);
    j.opts.cpu_only = true;
    let (_, steps) = run(&j, vec![choice("m", 10, 5)]).unwrap();
    assert_eq!(
        steps,
        vec![
            SfmStep::Extract { gpu: false },
            SfmStep::Match { exhaustive: true, gpu: false },
            SfmStep::Reconstruct { exhaustive: true },
            SfmStep::Assemble,
        ]
    );
}

#[test]
fn collapsed_sequences_are_matched_again() {
    let j = job(200, CaptureMode::Auto);
    let (done, steps) = run(&j, vec![choice("run1/0", 99, 7), choice("run2/0", 180, 900)]).unwrap();
    assert_eq!(
        steps,
        vec![
            SfmStep::Extract { gpu: true },
            SfmStep::Match { exhaustive: false, gpu: true },
            SfmStep::Reconstruct { exhaustive: false },
            SfmStep::Match { exhaustive: true, gpu: true },
            SfmStep::Reconstruct { exhaustive: true },
            SfmStep::Assemble,
        ]
    );
    assert_eq!(attempt_name(&done), "run2");
    assert_eq!(done.models[best_model(&done.models)].dir, "run2/0");
    let took = Elapsed { secs: 5, nanos: 0 };
    let out = finish_sfm(&j, &done, own("data"), own("data/sparse/0"), took);
    assert_eq!(out.stats.input_images, 200);
    assert_eq!(out.stats.registered_images, 180);
    assert_eq!(out.stats.sparse_points, 900);
    assert_eq!(out.stats.elapsed, took);
    assert_eq!(out.sparse_dir, "data/sparse/0");

    // The larger model wins even if it is the first one.
    let (done, _) = run(&j, vec![choice("run1/0", 40, 7), choice("run2/0", 40, 8)]).unwrap();
    assert_eq!(done.models[best_model(&done.models)].dir, "run1/0");
    // Half is enough, and so is what the user asked for.
    assert_eq!(run(&j, vec![choice("m", 100, 1)]).unwrap().1.len(), 4);
    // Of an odd number the smaller half is under half.
    let odd = job(151, CaptureMode::Auto);
    assert_eq!(run(&odd, vec![choice("m", 76, 1)]).unwrap().1.len(), 4);
    assert_eq!(run(&odd, vec![choice("m", 75, 1), choice("n", 75, 1)]).unwrap().1.len(), 6);
    let asked = job(200, CaptureMode::Sequential);
    assert_eq!(run(&asked, vec![choice("m", 1, 1)]).unwrap().1.len(), 4);
}

#[test]
fn retries_are_told_to_the_user() {
    let j = job(200, CaptureMode::Auto);
    let mapping = SfmRun {
        step: SfmStep::Reconstruct { exhaustive: false },
        attempt: 1,
        models: Vec::new(),
    };
    let (again, events) = advance_sfm(&j, mapping, SfmOutcome::Mapped(choice("m", 3, 1))).unwrap();
    assert_eq!(
        told(&events),
        vec![
            "Sequential matching underperformed — retrying exhaustively",
            "[2/3] Matching images (exhaustive)"
        ]
    );
    assert_eq!(again.attempt, 2);
    let mapping = SfmRun {
        step: SfmStep::Reconstruct { exhaustive: true },
        ..again
    };
    let (_, events) = advance_sfm(&j, mapping, SfmOutcome::Mapped(choice("n", 2, 1))).unwrap();
    assert_eq!(told(&events), vec!["Assembling dataset"]);
}

#[test]
fn mapping_can_fail_in_three_ways() {
    let j = job(5, CaptureMode::Auto);
    let mapping = || SfmRun {
        step: SfmStep::Reconstruct { exhaustive: true },
        attempt: 1,
        models: Vec::new(),
    };
    let message = |o: SfmOutcome| advance_sfm(&j, mapping(), o).unwrap_err().message();
    assert_eq!(
        message(SfmOutcome::Failed(own("crashed"))),
        "COLMAP mapping failed: crashed"
    );
    assert_eq!(message(SfmOutcome::Unreadable(own("no model"))), "no model");
    assert!(message(SfmOutcome::Mapped(choice("m", 0, 0)))
        .starts_with("COLMAP could not register any cameras."));
}

#[test]
fn fullest_model_is_picked() {
    let models = vec![
        (10, own("0")),
        (30, own("1")),
        (30, own("2")),
        (5, own("3")),
    ];
    // Of equal ones the last.
    assert_eq!(pick_best_model(&models, "d"), Ok(2));
    assert_eq!(pick_best_model(&vec![(12, own("0")), (10, own("1"))], "d"), Ok(0));
    assert_eq!(pick_best_model(&vec![(10, own("0")), (12, own("1"))], "d"), Ok(1));
    assert_eq!(
        pick_best_model(&Vec::new(), "work/sparse/run1"),
        Err(own(
            "COLMAP produced no reconstruction in work/sparse/run1. The photos may not have enough overlap or texture."
        ))
    );
}

#[test]
fn tail_of_an_error_output_is_kept() {
    let mut tail = Vec::new();
    for i in 0..50 {
        tail = keep_tail(tail, format!("line {i}"));
    }
    assert_eq!(tail.len(), TAIL_LINES);
    assert_eq!(tail[0], "line 30");
    assert_eq!(tail[19], "line 49");
    assert_eq!(
        command_failure(&vec![own("mapper"), own("--x")], "exit status: 1", &tail[18..].to_vec()),
        "colmap mapper exited with exit status: 1:\nline 48\nline 49"
    );
    assert_eq!(
        command_failure(&Vec::new(), "signal: 9", &Vec::new()),
        "colmap  exited with signal: 9:\n"
    );
}

#[test]
fn progress_is_read_from_output_lines() {
    assert_eq!(
        parse_bracket_progress("  Processed file [ 12 /456]", "Processed file ["),
        Some(12)
    );
    assert_eq!(parse_bracket_progress("Processed file [12]", "Processed file ["), None);
    assert_eq!(parse_bracket_progress("Processed file [x/2]", "Processed file ["), None);
    let e = report_extract_progress("Processed file [3/9]", 9).unwrap();
    assert_eq!(stage_of(&e), "3 of 9");
    assert!(report_extract_progress("Name: a.jpg", 9).is_none());
    let e = report_match_progress(" Matching block [1/9, 3/9] in 0.2s ").unwrap();
    assert_eq!(stage_of(&e), "Matching block [1/9, 3/9] in 0.2s");
    assert!(report_match_progress("Matching image [12/100]").is_some());
    assert!(report_match_progress("Exhaustive matching").is_none());
    assert_eq!(
        told(&report_mapper_progress("Registering image #42 (17)", 60)),
        vec!["17 of 60", "Registering image #42 (17)"]
    );
    assert_eq!(
        told(&report_mapper_progress("Registering image #42 (a)", 60)),
        vec!["Registering image #42 (a)"]
    );
    assert_eq!(
        told(&report_mapper_progress("Global bundle adjustment (3)", 60)),
        vec!["Global bundle adjustment"]
    );
    assert!(report_mapper_progress("Elapsed time", 60).is_empty());
}

#[test]
fn images_are_listed_by_name() {
    let entry = |n: &str, f: bool| (n.as_bytes().to_vec(), f);
    let found = list_images(&vec![
        entry("b.JPG", true),
        entry("notes.txt", true),
        entry("a.tiff", true),
        entry("dir.png", false),
        entry(".jpg", true),
        entry("B.jpeg", true),
        (b"\xFF.bmp".to_vec(), true),
    ]);
    let want: Vec<Vec<u8>> = vec![
        b"B.jpeg".to_vec(),
        b"a.tiff".to_vec(),
        b"b.JPG".to_vec(),
        b"\xFF.bmp".to_vec(),
    ];
    assert_eq!(found, want);
    assert!(is_image_name(&b"x.y.tif".to_vec()));
    assert!(!is_image_name(&b"jpg".to_vec()));
    assert!(!is_image_name(&b"x.jpg.png2".to_vec()));
    assert_eq!(image_extension_list(), "jpg/jpeg/png/tif/tiff/bmp");
}

#[test]
fn banners_tell_the_version() {
    let b = ColmapBinary::new(own("colmap"));
    let help = Some(own(
        "\nCOLMAP 4.0.3 -- Structure-from-Motion and Multi-View Stereo\n(Commit abc)\n\nAvailable commands:\n  help\n  mapper\n  global_mapper x\n",
    ));
    assert_eq!(b.version(&help), Some(own("COLMAP 4.0.3")));
    assert_eq!(b.major_version(&help), Some(4));
    assert!(b.has_command("global_mapper", &help));
    assert!(!b.has_command("x", &help));
    assert!(!b.has_command("mapper", &None));
    assert_eq!(b.version(&Some(own("no banner"))), None);
    assert_eq!(b.major_version(&Some(own("COLMAP"))), None);
    assert_eq!(b.version(&None), None);
    assert_eq!(b.major_version(&None), None);
    assert_eq!(
        b.subcommand_help(Some((own("out"), own("err")))),
        "outerr"
    );
    assert_eq!(b.subcommand_help(None), "");
}

#[test]
fn colmap_is_looked_for_in_order() {
    let mut places = Places {
        explicit: Some(own("/mine")),
        environment: Some((own("/env"), true)),
        search_path: vec![None, Some(own("/usr/bin/colmap"))],
        cached: Some(own("/cache/colmap")),
    };
    let path = |p: &Places| locate(p).map(|b| b.path);
    assert_eq!(path(&places), Some(own("/mine")));
    places.explicit = None;
    assert_eq!(path(&places), Some(own("/env")));
    places.environment = Some((own("/env"), false));
    assert_eq!(path(&places), Some(own("/usr/bin/colmap")));
    places.search_path = vec![None];
    assert_eq!(path(&places), Some(own("/cache/colmap")));
    places.cached = None;
    assert_eq!(path(&places), None);
    assert_eq!(binary_names(false), vec!["colmap"]);
    assert_eq!(
        binary_names(true),
        vec!["COLMAP.bat", "colmap.bat", "colmap.exe"]
    );
}

#[test]
fn directories_are_searched_in_depth() {
    let leaf = |files: &[&str]| DirTree {
        files: files.iter().map(|f| own(f)).collect(),
        dirs: Vec::new(),
    };
    let tree = DirTree {
        files: vec![own("readme")],
        dirs: vec![
            (own("empty"), leaf(&[])),
            (
                own("a"),
                DirTree {
                    files: Vec::new(),
                    dirs: vec![(own("bin"), leaf(&["colmap.exe", "colmap.bat"]))],
                },
            ),
            (own("b"), leaf(&["colmap.exe"])),
        ],
    };
    let names = binary_names(true);
    assert_eq!(
        search_dir(&tree, 3, &names),
        Some(vec![own("a"), own("bin"), own("colmap.bat")])
    );
    // Not so deep, the next directory has it.
    assert_eq!(
        search_dir(&tree, 1, &names),
        Some(vec![own("b"), own("colmap.exe")])
    );
    assert_eq!(search_dir(&tree, 0, &names), None);
}

#[test]
fn colmap_is_used_or_fetched() {
    let facts = |located: Option<&str>, works: bool, windows: bool, dir: Option<&str>| FetchFacts {
        located: located.map(|p| ColmapBinary::new(own(p))),
        help: located.map(|_| own("COLMAP 4.0.4 -- Structure-from-Motion\n")),
        works,
        windows,
        prefer_cuda: true,
        url: None,
        install_dir: dir.map(own),
    };
    match ensure_colmap(facts(Some("/c"), true, false, None)) {
        Ok(FetchPlan::Use(b, event)) => {
            assert_eq!(b.path, "/c");
            assert_eq!(event.message(), "COLMAP: COLMAP 4.0.4 (/c)");
        }
        other => panic!("{other:?}"),
    }
    let mut silent = facts(Some("/c"), true, false, None);
    silent.help = None;
    assert!(matches!(
        ensure_colmap(silent),
        Ok(FetchPlan::Use(_, FetchEvent::Found { path, version: None })) if path == "/c"
    ));
    assert_eq!(
        ensure_colmap(facts(Some("/c"), false, true, Some("d"))).unwrap_err().message(),
        "COLMAP at /c exists but failed to run (`colmap help`). Check the install or pass a different --colmap path."
    );
    assert!(ensure_colmap(facts(None, false, false, Some("d")))
        .unwrap_err()
        .message()
        .starts_with("COLMAP was not found on this system"));
    assert_eq!(
        ensure_colmap(facts(None, false, true, None)).unwrap_err().message(),
        "No usable cache directory on this system"
    );
    let url = |f: FetchFacts| match ensure_colmap(f) {
        Ok(FetchPlan::Download { url, dest }) => (url, dest),
        other => panic!("{other:?}"),
    };
    assert_eq!(
        url(facts(None, false, true, Some("d"))),
        (
            own("https://github.com/colmap/colmap/releases/download/4.0.4/colmap-x64-windows-cuda.zip"),
            own("d")
        )
    );
    let mut plain = facts(None, false, true, Some("d"));
    plain.prefer_cuda = false;
    assert!(url(plain).0.ends_with("colmap-x64-windows-nocuda.zip"));
    let mut chosen = facts(None, false, true, Some("d"));
    chosen.url = Some(own("http://here/c.zip"));
    assert_eq!(url(chosen).0, "http://here/c.zip");

    assert!(matches!(
        after_unpacking(None, &None, own("d")),
        Err(FetchError::NotInArchive(_))
    ));
    assert_eq!(
        after_unpacking(None, &None, own("d")).unwrap_err().message(),
        "COLMAP archive extracted to d but no COLMAP binary was found inside"
    );
    let unpacked = ColmapBinary::new(own("/c"));
    let (b, event) =
        after_unpacking(Some(unpacked), &Some(own("COLMAP 3.9\n")), own("d")).unwrap();
    assert_eq!(b.path, "/c");
    assert_eq!(event.message(), "COLMAP: COLMAP 3.9 (/c)");
}

#[test]
fn builds_follow_the_gpu() {
    assert_eq!(ColmapBuild::from_str("CUDA"), Ok(ColmapBuild::Cuda));
    assert_eq!(ColmapBuild::from_str("nocuda"), Ok(ColmapBuild::NoCuda));
    assert_eq!(
        ColmapBuild::from_str("best"),
        Err(own("unknown COLMAP build 'best' (expected auto|cuda|nocuda)"))
    );
    for nvidia in [true, false] {
        assert_eq!(ColmapBuild::Auto.prefer_cuda(nvidia), nvidia);
        assert!(ColmapBuild::Cuda.prefer_cuda(nvidia));
        assert!(!ColmapBuild::NoCuda.prefer_cuda(nvidia));
    }
}

#[test]
fn fetching_is_told_in_megabytes() {
    let found = |version: Option<&str>| FetchEvent::Found {
        path: own("/c"),
        version: version.map(own),
    };
    assert_eq!(found(Some("COLMAP 3.9")).message(), "COLMAP: COLMAP 3.9 (/c)");
    assert_eq!(found(None).message(), "COLMAP: found (/c)");
    let loading = |total: Option<u64>| FetchEvent::Downloading {
        received: 5 * 1024 * 1024 + 1,
        total,
    };
    assert_eq!(
        loading(Some(10 * 1024 * 1024 - 1)).message(),
        "Downloading COLMAP... 5/9 MB"
    );
    assert_eq!(loading(None).message(), "Downloading COLMAP... 5 MB");
    assert_eq!(FetchEvent::Extracting.message(), "Extracting COLMAP...");
}

#[test]
fn model_files_are_binary_or_text() {
    assert_eq!(stems(), vec!["cameras", "images", "points3D"]);
    assert_eq!(
        model_files(true),
        vec!["cameras.bin", "images.bin", "points3D.bin"]
    );
    assert_eq!(
        model_files(false),
        vec!["cameras.txt", "images.txt", "points3D.txt"]
    );
    assert_eq!(export_file("images", true, true, "d"), Ok(own("images.bin")));
    assert_eq!(export_file("images", false, true, "d"), Ok(own("images.txt")));
    assert_eq!(
        export_file("images", false, false, "d"),
        Err(own(
            "The export at d has no images.bin/.txt — incomplete COLMAP model"
        ))
    );
}
