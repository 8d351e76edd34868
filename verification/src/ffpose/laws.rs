//! What holds of how the script is found, called and listened to.

use super::locate::{self, PyRuntime, RuntimePlaces};
use super::pipeline::{self, FfBackend, FfposeOptions, ModelChoice, ScriptEvent, ScriptPaths};
use super::script;
use crate::colmap::laws;
use crate::colmap::progress::EventModel;
use crate::text;
use crate::text_laws;
use vstd::prelude::*;

verus! {

/// Without a path from the user, a `uv` of the environment that is a file goes
/// before one on the search path, and both before any Python.
pub proof fn runtimes_are_tried_in_turn(p: RuntimePlaces)
    requires
        p.explicit_uv is None,
    ensures
        p.env_uv is Some && (p.env_uv->0).1 ==> locate::runtime_at(p) == Some(
            (true, (p.env_uv->0).0@),
        ),
        !(p.env_uv is Some && (p.env_uv->0).1) && p.path_uv is Some ==> locate::runtime_at(p)
            == Some((true, (p.path_uv->0)@)),
        !(p.env_uv is Some && (p.env_uv->0).1) && p.path_uv is None ==> {
            &&& p.env_python is None ==> locate::runtime_at(p) is None
            &&& p.env_python is Some && (p.env_python->0).1 ==> locate::runtime_at(p) == Some(
                (false, (p.env_python->0).0@),
            )
            &&& p.env_python is Some && !(p.env_python->0).1 ==> locate::runtime_at(p) == (
            match p.path_python {
                Some(found) => Some((false, found@)),
                None => None,
            })
        },
{
}

/// A runtime is called by the version that it prints, without the blanks around
/// it, or by its kind where it prints none, and by its path.
pub proof fn runtimes_are_called_by_version(path: String, printed: Seq<char>)
    ensures
        text::trimmed(printed).len() > 0 ==> locate::runtime_text(
            PyRuntime::Uv(path),
            Some(printed),
        ) == text::trimmed(printed) + " ("@ + path@ + ")"@,
        text::trimmed(printed).len() == 0 ==> locate::runtime_text(
            PyRuntime::Uv(path),
            Some(printed),
        ) == "uv"@ + " ("@ + path@ + ")"@,
        locate::runtime_text(PyRuntime::Uv(path), None) == "uv"@ + " ("@ + path@ + ")"@,
        text::trimmed(printed).len() > 0 ==> locate::runtime_text(
            PyRuntime::Python(path),
            Some(printed),
        ) == text::trimmed(printed) + " ("@ + path@ + ", MESHSPLAT_FFPOSE_PYTHON)"@,
        locate::runtime_text(PyRuntime::Python(path), None) == "python"@ + " ("@ + path@
            + ", MESHSPLAT_FFPOSE_PYTHON)"@,
        locate::runtime_path(PyRuntime::Uv(path)) == path@,
        locate::runtime_path(PyRuntime::Python(path)) == path@,
{
}

/// The words for the backends, in letters of any case, and no others.
pub proof fn backends_are_told_by_word(s: Seq<char>)
    ensures
        pipeline::backend_named(s) == Some(FfBackend::Mast3r) <==> text::lower(s) == "mast3r"@,
        pipeline::backend_named(s) == Some(FfBackend::MapAnything) <==> (text::lower(s)
            == "mapanything"@ || text::lower(s) == "map-anything"@),
{
    reveal_strlit("mast3r");
    reveal_strlit("mapanything");
    reveal_strlit("map-anything");
    assert("mapanything"@.len() == 11 && "map-anything"@.len() == 12 && "mast3r"@.len() == 6);
}

/// The models go by these names on the hub.
pub proof fn models_are_called_by_hub_name(id: String)
    ensures
        pipeline::hub_name(ModelChoice::Apache) == "facebook/map-anything-apache"@,
        pipeline::hub_name(ModelChoice::Best) == "facebook/map-anything"@,
        pipeline::hub_name(ModelChoice::Custom(id)) == id@,
{
}

proof fn is_passed(args: Seq<Seq<char>>, i: int)
    requires
        0 <= i < args.len() - 1,
    ensures
        laws::passed(args, args[i], args[i + 1]),
{
}

/// The script is told where photos lie, where poses go, the backend, the model
/// and the device; and where weights are kept, if the user says so.
pub proof fn script_is_told_the_options(paths: ScriptPaths, opts: FfposeOptions)
    ensures
        laws::passed(pipeline::script_args(paths, opts), "--images-dir"@, paths.images@),
        laws::passed(pipeline::script_args(paths, opts), "--output-dir"@, paths.output@),
        laws::passed(
            pipeline::script_args(paths, opts),
            "--backend"@,
            if opts.backend is Mast3r {
                "mast3r"@
            } else {
                "mapanything"@
            },
        ),
        laws::passed(
            pipeline::script_args(paths, opts),
            "--model-id"@,
            pipeline::hub_name(opts.model),
        ),
        laws::passed(pipeline::script_args(paths, opts), "--device"@, opts.device@),
        paths.cache matches Some(dir) ==> laws::passed(
            pipeline::script_args(paths, opts),
            "--cache-dir"@,
            dir@,
        ),
{
    let args = pipeline::script_args(paths, opts);
    is_passed(args, 0);
    is_passed(args, 2);
    is_passed(args, 4);
    is_passed(args, 6);
    is_passed(args, 8);
    if paths.cache is Some {
        is_passed(args, args.len() - 2);
    }
}

/// Behind the options that have values, the CPU is allowed if and only if the
/// user allows it, and lenses are not read from the photos if and only if the
/// user does not want that.
pub proof fn switches_follow_the_options(paths: ScriptPaths, opts: FfposeOptions)
    ensures
        ({
            let args = pipeline::script_args(paths, opts);
            let cache = match paths.cache {
                Some(dir) => seq!["--cache-dir"@, dir@],
                None => Seq::<Seq<char>>::empty(),
            };
            &&& opts.allow_cpu && opts.exif_intrinsics ==> args.skip(10) == seq!["--allow-cpu"@]
                + cache
            &&& opts.allow_cpu && !opts.exif_intrinsics ==> args.skip(10) == seq![
                "--allow-cpu"@,
                "--no-exif-intrinsics"@,
            ] + cache
            &&& !opts.allow_cpu && opts.exif_intrinsics ==> args.skip(10) == cache
            &&& !opts.allow_cpu && !opts.exif_intrinsics ==> args.skip(10) == seq![
                "--no-exif-intrinsics"@,
            ] + cache
        }),
{
    let args = pipeline::script_args(paths, opts);
    let cache = match paths.cache {
        Some(dir) => seq!["--cache-dir"@, dir@],
        None => Seq::<Seq<char>>::empty(),
    };
    if opts.allow_cpu && opts.exif_intrinsics {
        assert(args.skip(10) =~= seq!["--allow-cpu"@] + cache);
    } else if opts.allow_cpu {
        assert(args.skip(10) =~= seq!["--allow-cpu"@, "--no-exif-intrinsics"@] + cache);
    } else if opts.exif_intrinsics {
        assert(args.skip(10) =~= cache);
    } else {
        assert(args.skip(10) =~= seq!["--no-exif-intrinsics"@] + cache);
    }
}

/// `uv` is told to run the script, and a Python is given the script itself.
pub proof fn runtimes_are_given_the_script(path: String, script: Seq<char>)
    ensures
        pipeline::launch_args(PyRuntime::Uv(path), script) == seq![
            "run"@,
            "--no-progress"@,
            script,
        ],
        pipeline::launch_args(PyRuntime::Python(path), script) == seq![script],
{
}

/// Stages, progress and messages of the script are told as they are, with their
/// numbers in their places; nothing else is told, and only an error changes the
/// error that is remembered.
pub proof fn script_lines_are_told(
    event: ScriptEvent,
    before: Option<(Seq<char>, Option<Seq<char>>)>,
)
    ensures
        event matches ScriptEvent::Stage { name, index, total } ==> pipeline::told(Some(event))
            == Some(EventModel::Stage(name@, index as int, total as int)),
        event matches ScriptEvent::Progress { done, total } ==> pipeline::told(Some(event)) == Some(
            EventModel::Progress(done as int, total as int),
        ),
        event matches ScriptEvent::Status { message } ==> pipeline::told(Some(event)) == Some(
            EventModel::Status(message@),
        ),
        event is Error || event is Done ==> pipeline::told(Some(event)) is None,
        pipeline::told(None) is None,
        event matches ScriptEvent::Error { message, hint } ==> pipeline::reported(
            before,
            Some(event),
        ) == Some((message@, match hint {
            Some(h) => Some(h@),
            None => None,
        })),
        !(event is Error) ==> pipeline::reported(before, Some(event)) == before,
        pipeline::reported(before, None) == before,
{
}

/// A script that fails without an error of its own is told by how it ended and by
/// its last lines.
pub proof fn silent_failures_are_told(status: Seq<char>, tail: Seq<Seq<char>>)
    ensures
        pipeline::failure_text(None, status, tail) == "pose-estimation script exited with "@
            + status + ":\n"@ + text::joined(tail, "\n"@),
{
}

/// A hash starts at the FNV offset, and each byte is mixed in and multiplied by the
/// FNV prime, in 64 bits.
pub proof fn hashes_take_in_bytes_in_turn(b: Seq<u8>, x: u8)
    ensures
        script::fnv(Seq::<u8>::empty()) == 14695981039346656037,
        script::fnv(b.push(x)) as int == ((script::fnv(b) ^ (x as u64)) * 1099511628211)
            % 0x1_0000_0000_0000_0000,
{
    assert(b.push(x).drop_last() =~= b);
}

/// A script is kept under the sixteen hexadecimal digits of its hash.
pub proof fn scripts_are_named_by_hash(body: Seq<char>)
    ensures
        script::script_name(body) == "mapanything_poses-"@ + text::hex(
            script::fnv(vstd::utf8::encode_utf8(body)) as nat,
            16,
        ) + ".py"@,
{
}

/// Up to and at the first place for it, the script is the template with the
/// backend's extra in place of the mark: none for MapAnything, "[mast3r]" for
/// MASt3R.
pub proof fn extras_are_filled_in(template: Seq<char>, i: int)
    requires
        text::part_at(template, "{{EXTRAS}}"@, i),
        forall|k: int| 0 <= k < i ==> !#[trigger] text::part_at(template, "{{EXTRAS}}"@, k),
    ensures
        script::script_text(template, FfBackend::MapAnything) == template.take(i)
            + script::script_text(template.skip(i + 10), FfBackend::MapAnything),
        script::script_text(template, FfBackend::Mast3r) == template.take(i) + "[mast3r]"@
            + script::script_text(template.skip(i + 10), FfBackend::Mast3r),
{
    reveal_strlit("{{EXTRAS}}");
    reveal_strlit("");
    assert("{{EXTRAS}}"@.len() == 10);
    text_laws::occurrences_are_replaced(template, "{{EXTRAS}}"@, ""@, i);
    text_laws::occurrences_are_replaced(template, "{{EXTRAS}}"@, "[mast3r]"@, i);
    assert(template.take(i) + ""@ =~= template.take(i));
}

/// An error that the script reports is seen with its own message and hint.
pub proof fn errors_are_seen_as_they_are(message: String, hint: Option<String>)
    ensures
        pipeline::error_view(Some((message, hint))) == Some((message@, match hint {
            Some(h) => Some(h@),
            None => None,
        })),
        pipeline::error_view(None) is None,
{
}

} // verus!
