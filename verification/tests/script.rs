//! The script that runs the pose model.

use meshsplat::ffpose::pipeline::FfBackend;
use meshsplat::ffpose::script::{fnv1a, materialize_script, script_body, script_file_name, ScriptPlan};
use meshsplat::text::{has_part, replace};

const SCRIPT: &str = "# /// script\n# requires-python = \">=3.10\"\n# dependencies = [\n#     \"mapanything{{EXTRAS}} @ git+https://github.com/facebookresearch/map-anything.git\",\n# ]\n# ///\nimport argparse\n";

#[test]
fn extras_are_substituted_per_backend() {
    assert!(has_part(SCRIPT, "{{EXTRAS}}"), "template token missing");
    // MapAnything needs no pip extra; only MASt3R pulls one.
    let map_anything = replace(SCRIPT, "{{EXTRAS}}", "");
    let mast3r = replace(SCRIPT, "{{EXTRAS}}", "[mast3r]");
    assert!(has_part(&map_anything, "mapanything @ "));
    assert!(has_part(&mast3r, "mapanything[mast3r] @ "));
    // Different content must produce different cache filenames.
    assert_ne!(fnv1a(&map_anything), fnv1a(&mast3r));

    assert_eq!(script_body(SCRIPT, FfBackend::MapAnything), map_anything);
    assert_eq!(script_body(SCRIPT, FfBackend::Mast3r), mast3r);
    assert_ne!(script_file_name(&map_anything), script_file_name(&mast3r));
}

#[test]
fn bundled_scripts_are_told_apart_by_what_they_hold() {
    let plan = |template: &str, backend: FfBackend| {
        match materialize_script(template, backend, None, true) {
            Ok(ScriptPlan::Bundled { name, body }) => (name, body),
            other => panic!("{other:?}"),
        }
    };
    let first = plan(SCRIPT, FfBackend::MapAnything);
    assert_eq!(first, plan(SCRIPT, FfBackend::MapAnything));
    let other = plan(SCRIPT, FfBackend::Mast3r);
    assert_ne!(first.0, other.0);
    assert_ne!(first.1, other.1);
    // Whatever stands around the places, an odd number of them makes two names.
    for template in ["{{EXTRAS}}", "a{{EXTRAS}}", "{{EXTRAS}}é\n", "{{EXTRAS}}{{EXTRAS}} {{EXTRAS}}"] {
        let (one, other) = (plan(template, FfBackend::MapAnything), plan(template, FfBackend::Mast3r));
        assert_ne!(one.0, other.0, "{template}");
        assert_eq!(fnv1a(&one.1) % 8, (fnv1a(&other.1) + 4) % 8);
    }
    // Without a place for the extra there is only one script.
    let plain = "import argparse\n";
    assert_eq!(plan(plain, FfBackend::MapAnything), plan(plain, FfBackend::Mast3r));
}

#[test]
fn fnv1a_has_its_published_values() {
    assert_eq!(fnv1a(""), 0xcbf29ce484222325);
    assert_eq!(fnv1a("a"), 0xaf63dc4c8601ec8c);
    assert_eq!(fnv1a("foobar"), 0x85944171f73967e8);
}

#[test]
fn script_names_are_sixteen_hex_digits() {
    assert_eq!(script_file_name(""), "mapanything_poses-cbf29ce484222325.py");
    assert_eq!(script_file_name("foobar"), "mapanything_poses-85944171f73967e8.py");
}

#[test]
fn own_script_wins_and_must_exist() {
    let plan = materialize_script(SCRIPT, FfBackend::Mast3r, Some(("/s.py".to_owned(), true)), false);
    assert!(matches!(plan, Ok(ScriptPlan::Own(p)) if p == "/s.py"));
    let plan = materialize_script(SCRIPT, FfBackend::Mast3r, Some(("/s.py".to_owned(), false)), true);
    assert_eq!(
        plan.unwrap_err(),
        "MESHSPLAT_FFPOSE_SCRIPT points at /s.py, which is not a file"
    );
    let plan = materialize_script(SCRIPT, FfBackend::Mast3r, None, false);
    assert_eq!(plan.unwrap_err(), "No user cache directory available");
    match materialize_script(SCRIPT, FfBackend::Mast3r, None, true) {
        Ok(ScriptPlan::Bundled { name, body }) => {
            assert_eq!(body, SCRIPT.replace("{{EXTRAS}}", "[mast3r]"));
            assert_eq!(name, format!("mapanything_poses-{:016x}.py", fnv1a(&body)));
        }
        other => panic!("{other:?}"),
    }
}
