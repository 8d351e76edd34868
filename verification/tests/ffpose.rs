//! Poses from a feed-forward model.

use meshsplat::colmap::progress::SfmEvent;
use meshsplat::ffpose::locate::{locate, PyRuntime, RuntimePlaces};
use meshsplat::ffpose::pipeline::{
    ffpose_command, finish_ffpose, handle_line, script_failure, FfBackend, FfposeError,
    FfposeOptions, ModelChoice, ScriptEvent, ScriptPaths,
};
use meshsplat::timing::Elapsed;

fn own(s: &str) -> String {
    s.to_owned()
}

fn nowhere() -> RuntimePlaces {
    RuntimePlaces {
        explicit_uv: None,
        env_uv: None,
        path_uv: None,
        env_python: None,
        path_python: None,
    }
}

#[test]
fn locate_resolution_order() {
    // Explicit path wins unconditionally, even if it doesn't exist.
    let explicit = locate(&RuntimePlaces {
        explicit_uv: Some(own("/nonexistent/uv")),
        ..nowhere()
    });
    assert!(matches!(explicit, Some(PyRuntime::Uv(p)) if p == "/nonexistent/uv"));

    // MESHSPLAT_FFPOSE_PYTHON is honored when uv is absent.
    let this_file = "src/locate.rs";
    let with_python = || RuntimePlaces {
        env_python: Some((own(this_file), true)),
        ..nowhere()
    };
    match locate(&with_python()) {
        Some(PyRuntime::Python(p)) => assert_eq!(p, this_file),
        other => panic!("python fallback should have been found: {other:?}"),
    }
    // A real uv on PATH takes precedence over the python fallback.
    let both = locate(&RuntimePlaces {
        path_uv: Some(own("/usr/bin/uv")),
        ..with_python()
    });
    assert!(matches!(both, Some(PyRuntime::Uv(p)) if p == "/usr/bin/uv"));
}

#[test]
fn environment_names_a_runtime() {
    let found = |p: RuntimePlaces| locate(&p).map(|r| own(r.binary()));
    assert_eq!(found(nowhere()), None);
    assert_eq!(
        found(RuntimePlaces {
            env_uv: Some((own("/e/uv"), true)),
            path_uv: Some(own("/p/uv")),
            ..nowhere()
        }),
        Some(own("/e/uv"))
    );
    assert_eq!(
        found(RuntimePlaces {
            env_uv: Some((own("/e/uv"), false)),
            path_uv: Some(own("/p/uv")),
            ..nowhere()
        }),
        Some(own("/p/uv"))
    );
    // A Python that is no file may be a name on the search path.
    assert_eq!(
        found(RuntimePlaces {
            env_python: Some((own("python3"), false)),
            path_python: Some(own("/usr/bin/python3")),
            ..nowhere()
        }),
        Some(own("/usr/bin/python3"))
    );
    assert_eq!(
        found(RuntimePlaces {
            env_python: Some((own("python3"), false)),
            ..nowhere()
        }),
        None
    );
}

#[test]
fn runtimes_are_described() {
    let uv = PyRuntime::Uv(own("/u"));
    assert_eq!(uv.describe(&Some(own("uv 0.5.1\n"))), "uv 0.5.1 (/u)");
    assert_eq!(uv.describe(&Some(own(" \n"))), "uv (/u)");
    let python = PyRuntime::Python(own("/p"));
    assert_eq!(
        python.describe(&None),
        "python (/p, MESHSPLAT_FFPOSE_PYTHON)"
    );
}

#[test]
fn backends_and_weights_have_names() {
    for b in [FfBackend::MapAnything, FfBackend::Mast3r] {
        assert_eq!(FfBackend::from_str(b.name()), Ok(b));
    }
    assert_eq!(
        FfBackend::from_str("Map-Anything"),
        Ok(FfBackend::MapAnything)
    );
    assert_eq!(
        FfBackend::from_str("VGGT"),
        Err(own(
            "unknown pose backend 'vggt' (expected colmap|mapanything|mast3r)"
        ))
    );
    assert_eq!(ModelChoice::from_str("Apache").hf_id(), "facebook/map-anything-apache");
    assert_eq!(ModelChoice::from_str("best").hf_id(), "facebook/map-anything");
    assert_eq!(ModelChoice::from_str("Me/Mine").hf_id(), "Me/Mine");
}

#[test]
fn licences_follow_backend_and_weights() {
    let with = |backend: FfBackend, model: ModelChoice| FfposeOptions {
        backend,
        model,
        ..FfposeOptions::default()
    };
    assert!(!FfposeOptions::default().non_commercial());
    assert!(with(FfBackend::MapAnything, ModelChoice::Best).non_commercial());
    assert!(with(FfBackend::Mast3r, ModelChoice::Apache).non_commercial());
    assert!(!with(FfBackend::MapAnything, ModelChoice::Custom(own("a/b"))).non_commercial());
}

#[test]
fn script_is_called_with_its_options() {
    let paths = |cache: Option<&str>| ScriptPaths {
        script: own("s.py"),
        images: own("in"),
        output: own("out"),
        cache: cache.map(own),
    };
    let usual = FfposeOptions::default();
    let args = ffpose_command(2, &PyRuntime::Uv(own("uv")), &paths(Some("c")), &usual).unwrap();
    assert_eq!(
        args,
        vec![
            "run",
            "--no-progress",
            "s.py",
            "--images-dir",
            "in",
            "--output-dir",
            "out",
            "--backend",
            "mapanything",
            "--model-id",
            "facebook/map-anything-apache",
            "--device",
            "auto",
            "--cache-dir",
            "c",
        ]
    );
    let slow = FfposeOptions {
        backend: FfBackend::Mast3r,
        model: ModelChoice::Best,
        device: own("cpu"),
        allow_cpu: true,
        exif_intrinsics: false,
    };
    let args = ffpose_command(3, &PyRuntime::Python(own("py")), &paths(None), &slow).unwrap();
    assert_eq!(
        args[5..],
        [
            "--backend",
            "mast3r",
            "--model-id",
            "facebook/map-anything",
            "--device",
            "cpu",
            "--allow-cpu",
            "--no-exif-intrinsics"
        ]
    );
    assert_eq!(args[0], "s.py");
    let e = ffpose_command(1, &PyRuntime::Uv(own("uv")), &paths(None), &usual).unwrap_err();
    assert_eq!(
        e.message(),
        "Need at least 2 images for feed-forward pose estimation, found 1 in in"
    );
}

#[test]
fn lines_of_the_script_become_events() {
    let (e, err) = handle_line(
        Some(ScriptEvent::Stage {
            name: own("Loading PyTorch"),
            index: 1,
            total: 4,
        }),
        None,
    );
    assert!(matches!(
        e,
        Some(SfmEvent::StageStarted { name, index: 1, total: 4 }) if name == "Loading PyTorch"
    ));
    assert!(err.is_none());
    let (e, _) = handle_line(Some(ScriptEvent::Progress { done: 2, total: 3 }), None);
    assert!(matches!(e, Some(SfmEvent::Progress { done: 2, total: 3 })));
    let (e, _) = handle_line(Some(ScriptEvent::Status { message: own("m") }), None);
    assert!(matches!(e, Some(SfmEvent::Status(m)) if m == "m"));
    assert!(handle_line(Some(ScriptEvent::Done { views: 3 }), None).0.is_none());
    assert!(handle_line(None, None).0.is_none());
}

#[test]
fn reported_errors_outlive_later_lines() {
    let error = |m: &str, hint: Option<&str>| {
        Some(ScriptEvent::Error {
            message: own(m),
            hint: hint.map(own),
        })
    };
    let mut reported = None;
    for event in [
        None,
        error("first", None),
        error("synthetic failure", Some("this is a test")),
        Some(ScriptEvent::Status { message: own("later") }),
        Some(ScriptEvent::Done { views: 0 }),
        None,
    ] {
        reported = handle_line(event, reported).1;
    }
    let tail = vec![own("Traceback"), own("KeyError")];
    let cause = script_failure(reported, "exit status: 1", &tail);
    assert_eq!(cause, "synthetic failure\n  hint: this is a test");
    let told = FfposeError::Script {
        backend: FfBackend::MapAnything,
        cause,
    };
    assert_eq!(
        told.message(),
        "mapanything pose estimation failed: synthetic failure\n  hint: this is a test"
    );
    assert_eq!(
        script_failure(Some((own("bare"), None)), "exit status: 1", &tail),
        "bare"
    );
    assert_eq!(
        script_failure(None, "exit status: 1", &tail),
        "pose-estimation script exited with exit status: 1:\nTraceback\nKeyError"
    );
}

#[test]
fn empty_exports_are_refused() {
    let took = Elapsed { secs: 9, nanos: 1 };
    let out = finish_ffpose(3, 3, 5, own("d"), own("d/sparse/0"), took).unwrap();
    assert_eq!(out.stats.input_images, 3);
    assert_eq!(out.stats.registered_images, 3);
    assert_eq!(out.stats.sparse_points, 5);
    assert_eq!(out.dataset_dir, "d");
    let e = finish_ffpose(3, 0, 5, own("d"), own("d/sparse/0"), took).unwrap_err();
    assert_eq!(
        e.message(),
        "The model produced no camera poses — the export is empty."
    );
}
