//! What holds of a run as its user sees it: which input is taken for what, which
//! stages follow, what is told of them and what the outputs are called.

use crate::cli::{self, InputError, InputFacts, InputKind, PathKind, PoseSource, Preset, Quality};
use crate::colmap::pipeline::SfmStats;
use crate::ffpose::pipeline::FfBackend;
use crate::report;
use crate::run::{self, RunStep};
use crate::text;
use crate::train::{self, TrainEvent, TrainState};
use vstd::prelude::*;

verus! {

/// Is every setting of the first preset below the second's?
pub open spec fn takes_less(p: Preset, q: Preset) -> bool {
    p.iters < q.iters && p.max_splats < q.max_splats && p.max_resolution < q.max_resolution
        && p.grid_res < q.grid_res
}

/// A better quality takes more of everything; and these are the settings.
pub proof fn quality_takes_effort()
    ensures
        takes_less(cli::preset_of(Quality::Fast), cli::preset_of(Quality::Balanced)),
        takes_less(cli::preset_of(Quality::Balanced), cli::preset_of(Quality::High)),
        cli::preset_of(Quality::Fast).iters == 7000 && cli::preset_of(Quality::Balanced).iters
            == 18000 && cli::preset_of(Quality::High).iters == 30000,
        cli::preset_of(Quality::Fast).max_splats == 1500000 && cli::preset_of(
            Quality::Balanced,
        ).max_splats == 4000000 && cli::preset_of(Quality::High).max_splats == 8000000,
        cli::preset_of(Quality::Fast).max_resolution == 1024 && cli::preset_of(
            Quality::Balanced,
        ).max_resolution == 1600 && cli::preset_of(Quality::High).max_resolution == 1920,
        cli::preset_of(Quality::Fast).grid_res == 192 && cli::preset_of(Quality::Balanced).grid_res
            == 256 && cli::preset_of(Quality::High).grid_res == 320,
{
}

/// A value that the user sets wins over the preset's, whatever it is.
pub proof fn set_values_win(v: u32, preset: u32)
    ensures
        cli::set_or(Some(v), preset) == v,
        cli::set_or(None, preset) == preset,
{
}

/// A file with the extension "ply" is a splat, one with "obj" a point cloud if
/// only a mesh is asked for, and any other file is refused.
pub proof fn files_are_told_by_extension(
    f: InputFacts,
    mesh_only: bool,
    r: Result<InputKind, InputError>,
)
    requires
        cli::classified(f, mesh_only, r),
        f.kind == PathKind::File,
    ensures
        r is Ok && r->Ok_0 is SplatPly <==> f.extension is Some && (f.extension->0)@ == "ply"@,
        r is Ok && r->Ok_0 is PointCloud <==> mesh_only && f.extension is Some && (
        f.extension->0)@ == "obj"@,
        r is Ok ==> r->Ok_0 is SplatPly || r->Ok_0 is PointCloud,
        r matches Ok(InputKind::SplatPly(p)) ==> p@ == f.path@,
        r matches Ok(InputKind::PointCloud(p)) ==> p@ == f.path@,
        r is Err ==> (r->Err_0 matches InputError::NotAModel(p) && p@ == f.path@),
{
    reveal_strlit("ply");
    reveal_strlit("obj");
    assert("ply"@[0] != "obj"@[0]);
}

/// A directory is a dataset if it has camera poses and photos if it has images
/// but no poses; one that has neither is refused, and so is every one if only a
/// mesh is asked for.
pub proof fn directories_are_told_by_contents(
    f: InputFacts,
    mesh_only: bool,
    r: Result<InputKind, InputError>,
)
    requires
        cli::classified(f, mesh_only, r),
        f.kind == PathKind::Dir,
    ensures
        r is Ok && r->Ok_0 is Dataset <==> !mesh_only && (f.has_sparse || f.has_transforms),
        r is Ok && r->Ok_0 is Photos <==> !mesh_only && !f.has_sparse && !f.has_transforms
            && f.images > 0,
        r is Ok ==> r->Ok_0 is Dataset || r->Ok_0 is Photos,
        r matches Ok(InputKind::Dataset(p)) ==> p@ == f.path@,
        r matches Ok(InputKind::Photos(p)) ==> p@ == f.path@,
        mesh_only ==> r is Err && r->Err_0 is MeshOnlyNeedsFile,
        !mesh_only && r is Err ==> (r->Err_0 matches InputError::NoImages(p) && p@ == f.path@),
{
}

/// A path at which nothing stands is refused by name.
pub proof fn missing_paths_are_refused(
    f: InputFacts,
    mesh_only: bool,
    r: Result<InputKind, InputError>,
)
    requires
        cli::classified(f, mesh_only, r),
        f.kind == PathKind::Missing,
    ensures
        r is Err && (r->Err_0 matches InputError::Missing(p) && p@ == f.path@),
{
}

/// The words for the sources of poses, in letters of any case, and no others.
pub proof fn sources_are_told_by_word(s: Seq<char>)
    ensures
        cli::source_named(s) == Some(PoseSource::Colmap) <==> text::lower(s) == "colmap"@,
        cli::source_named(s) == Some(PoseSource::FeedForward(FfBackend::Mast3r)) <==> text::lower(s)
            == "mast3r"@,
        cli::source_named(s) == Some(PoseSource::FeedForward(FfBackend::MapAnything)) <==> (
        text::lower(s) == "mapanything"@ || text::lower(s) == "map-anything"@),
{
    reveal_strlit("colmap");
    reveal_strlit("mast3r");
    reveal_strlit("mapanything");
    reveal_strlit("map-anything");
    assert("colmap"@[0] != "mast3r"@[0]);
    assert("mapanything"@.len() == 11 && "map-anything"@.len() == 12 && "mast3r"@.len() == 6
        && "colmap"@.len() == 6);
}

/// A source's tag is the word that names it.
pub proof fn tags_name_their_source(source: PoseSource)
    ensures
        cli::source_named(cli::tag_of(source)) == Some(source),
        cli::tag_of(source) == (match source {
            PoseSource::Colmap => "colmap"@,
            PoseSource::FeedForward(FfBackend::MapAnything) => "mapanything"@,
            PoseSource::FeedForward(FfBackend::Mast3r) => "mast3r"@,
        }),
{
    reveal_strlit("colmap");
    reveal_strlit("mast3r");
    reveal_strlit("mapanything");
    assert(text::lower("colmap"@) =~= "colmap"@);
    assert(text::lower("mast3r"@) =~= "mast3r"@);
    assert(text::lower("mapanything"@) =~= "mapanything"@);
    sources_are_told_by_word(cli::tag_of(source));
}

/// In a tag ASCII letters, digits, dots, hyphens and underscores are kept, and
/// anything else becomes a hyphen, character by character.
pub proof fn unsafe_characters_become_hyphens(s: Seq<char>, k: int)
    requires
        0 <= k < s.len(),
    ensures
        cli::sanitized(s)[k] == if 'a' <= s[k] <= 'z' || 'A' <= s[k] <= 'Z' || '0' <= s[k] <= '9'
            || s[k] == '.' || s[k] == '-' || s[k] == '_' {
            s[k]
        } else {
            '-'
        },
{
}

/// An output is called by its stem and extension, with the tag between them if
/// there is one, parted by dots.
pub proof fn outputs_are_named_by_stem_and_tag(stem: Seq<char>, tag: Seq<char>, ext: Seq<char>)
    ensures
        tag.len() > 0 ==> cli::artifact(stem, tag, ext) == stem.push('.') + tag.push('.') + ext,
        tag.len() == 0 ==> cli::artifact(stem, tag, ext) == stem.push('.') + ext,
{
    reveal_strlit(".");
    assert("."@ =~= seq!['.']);
    if tag.len() > 0 {
        assert(cli::artifact(stem, tag, ext) =~= stem.push('.') + tag.push('.') + ext);
    } else {
        assert(cli::artifact(stem, tag, ext) =~= stem.push('.') + ext);
    }
}

/// Photos go through every stage, a dataset leaves out the poses, and a splat or
/// a point cloud is only meshed; and nothing is meshed if only the splat is
/// asked for.
pub proof fn stages_follow_the_input(kind: InputKind, splat_only: bool)
    ensures
        kind is Photos && !splat_only ==> run::steps_of(kind, splat_only) == seq![
            RunStep::Gpu,
            RunStep::Poses,
            RunStep::Train,
            RunStep::Mesh,
            RunStep::Save,
        ],
        kind is Photos && splat_only ==> run::steps_of(kind, splat_only) == seq![
            RunStep::Gpu,
            RunStep::Poses,
            RunStep::Train,
            RunStep::Save,
        ],
        kind is Dataset && !splat_only ==> run::steps_of(kind, splat_only) == seq![
            RunStep::Gpu,
            RunStep::Train,
            RunStep::Mesh,
            RunStep::Save,
        ],
        kind is Dataset && splat_only ==> run::steps_of(kind, splat_only) == seq![
            RunStep::Gpu,
            RunStep::Train,
            RunStep::Save,
        ],
        (kind is SplatPly || kind is PointCloud) && !splat_only ==> run::steps_of(kind, splat_only)
            == seq![RunStep::Mesh, RunStep::Save],
        (kind is SplatPly || kind is PointCloud) && splat_only ==> run::steps_of(kind, splat_only)
            == seq![RunStep::Save],
{
    let steps = run::steps_of(kind, splat_only);
    if kind is Photos {
        if splat_only {
            assert(steps =~= seq![RunStep::Gpu, RunStep::Poses, RunStep::Train, RunStep::Save]);
        } else {
            assert(steps =~= seq![
                RunStep::Gpu,
                RunStep::Poses,
                RunStep::Train,
                RunStep::Mesh,
                RunStep::Save,
            ]);
        }
    } else if kind is Dataset {
        if splat_only {
            assert(steps =~= seq![RunStep::Gpu, RunStep::Train, RunStep::Save]);
        } else {
            assert(steps =~= seq![RunStep::Gpu, RunStep::Train, RunStep::Mesh, RunStep::Save]);
        }
    } else if splat_only {
        assert(steps =~= seq![RunStep::Save]);
    } else {
        assert(steps =~= seq![RunStep::Mesh, RunStep::Save]);
    }
}

/// Poses are told as photos registered of photos given, and points, in this
/// order.
pub proof fn poses_are_told_in_numbers(s: SfmStats, took: Seq<char>)
    ensures
        run::poses_text(s, took) == "  registered "@ + text::decimal(s.registered_images as nat)
            + "/"@ + text::decimal(s.input_images as nat) + " photos, "@ + text::decimal(
            s.sparse_points as nat,
        ) + " sparse points in "@ + took,
{
}

/// Training and meshing are told in numbers, in this order, and the quality only
/// where it was measured.
pub proof fn results_are_told_in_numbers(n: u32, m: usize, k: usize, took: Seq<char>, q: Seq<char>)
    ensures
        run::train_text(n, took, Some(q)) == "  trained "@ + text::decimal(n as nat)
            + " splats in "@ + took + (", PSNR "@ + q),
        run::train_text(n, took, None) == "  trained "@ + text::decimal(n as nat)
            + " splats in "@ + took,
        run::mesh_text(m, k, took) == "  "@ + text::decimal(m as nat) + " vertices, "@
            + text::decimal(k as nat) + " triangles in "@ + took,
{
    reveal_strlit("");
    assert(run::train_text(n, took, None) =~= "  trained "@ + text::decimal(n as nat)
        + " splats in "@ + took);
}

/// A run leaves a splat, a mesh in three formats and, if it has a tag, a report,
/// all under its tag.
pub proof fn runs_leave_these_outputs(tag: Seq<char>)
    ensures
        run::mesh_names_of(tag) == seq![
            cli::artifact("mesh"@, tag, "ply"@),
            cli::artifact("mesh"@, tag, "obj"@),
            cli::artifact("mesh"@, tag, "glb"@),
        ],
        run::own_outputs(tag).len() == if tag.len() > 0 {
            5int
        } else {
            4
        },
        run::own_outputs(tag)[0] == cli::artifact("splat"@, tag, "ply"@),
        run::own_outputs(tag).subrange(1, 4) == run::mesh_names_of(tag),
        tag.len() > 0 ==> run::own_outputs(tag)[4] == "report."@ + tag + ".json"@,
        tag.len() > 0 ==> report::report_names(tag) == seq![
            "report."@ + tag + ".json"@,
            "report.json"@,
        ],
        tag.len() == 0 ==> report::report_names(tag) == seq!["report.json"@],
{
    assert(run::own_outputs(tag).subrange(1, 4) =~= run::mesh_names_of(tag));
}

/// Only a count of splats changes the count, and only a measurement changes the
/// quality.
pub proof fn counts_and_qualities_are_kept_apart(s: TrainState, e: TrainEvent)
    ensures
        train::trained(s, e).splats == if e is Splats {
            e->Splats_0
        } else {
            s.splats
        },
        train::trained(s, e).psnr == if e is Quality {
            Some(e->Quality_0)
        } else {
            s.psnr
        },
        train::untrained().splats == 0 && train::untrained().psnr is None,
{
}

/// Training is as far as its last step, and at its end once it is finished.
pub proof fn steps_tell_how_far_training_is(e: TrainEvent, iters: u32)
    ensures
        train::position_after(e, iters) is Some <==> e is Step || e is Finished,
        e is Step ==> train::position_after(e, iters) == Some(e->Step_0 as int),
        e is Finished ==> train::position_after(e, iters) == Some(iters as int),
        train::message_after(e) is Some <==> e is Loading || e is Views || e is Splats,
        e is Views ==> train::message_after(e) == Some(text::decimal(e->Views_0 as nat) + " views"@),
        e is Splats ==> train::message_after(e) == Some(
            text::decimal(e->Splats_0 as nat) + " splats"@,
        ),
{
}

/// The poses of photos are announced with their source, those of a dataset are said to
/// be there, and of anything else nothing is said.
pub proof fn poses_are_announced(path: String, source: PoseSource)
    ensures
        run::poses_headline_of(InputKind::Photos(path), source) == Some(
            "\n■ Stage 1/3 — camera poses ("@ + (match source {
                PoseSource::Colmap => "COLMAP"@,
                PoseSource::FeedForward(FfBackend::MapAnything) => "mapanything"@,
                PoseSource::FeedForward(FfBackend::Mast3r) => "mast3r"@,
            }) + ")"@,
        ),
        run::poses_headline_of(InputKind::Dataset(path), source) == Some(
            "\n■ Stage 1/3 — camera poses: dataset already posed, skipping"@,
        ),
        run::poses_headline_of(InputKind::SplatPly(path), source) is None,
        run::poses_headline_of(InputKind::PointCloud(path), source) is None,
{
}

/// The end is told with the time before the directory, and the methods are told in
/// the order in which they are used.
pub proof fn ends_and_methods_are_told(a: Seq<char>, n: nat, b: Seq<char>)
    ensures
        run::done_text(a, b) == "\n✔ Done in "@ + a + ". Outputs in "@ + b + ":"@,
        report::method_words(a, n, b) == "poses="@ + a + " · train=brush(sh"@ + text::decimal(n)
            + ") · mesh="@ + b,
{
}

} // verus!
