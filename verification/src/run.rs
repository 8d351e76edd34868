//! A run from input to outputs: which stages it has, and what the user is told
//! of them.

use crate::cli::{self, artifact_name, InputKind, PoseSource};
use crate::colmap::pipeline::SfmStats;
use crate::colmap::progress::SfmEvent;
use crate::report;
use crate::text::{self, decimal_text};
use crate::timing::{self, duration_text};
use vstd::prelude::*;

verus! {

/// A stage of a run.
#[derive(Debug, Clone, Copy, PartialEq, Eq, Structural)]
pub enum RunStep {
    /// An adapter is brought up for training.
    Gpu,
    /// Camera poses are estimated.
    Poses,
    /// The splat is trained.
    Train,
    /// The mesh is extracted.
    Mesh,
    /// The report is written.
    Save,
}

/// Is there a splat to train: is the input neither a splat nor a point cloud?
pub open spec fn trains(kind: InputKind) -> bool {
    kind is Photos || kind is Dataset
}

/// The stages of a run, in order.
pub open spec fn steps_of(kind: InputKind, splat_only: bool) -> Seq<RunStep> {
    (if trains(kind) {
        seq![RunStep::Gpu]
    } else {
        Seq::empty()
    }) + (if kind is Photos {
        seq![RunStep::Poses]
    } else {
        Seq::empty()
    }) + (if trains(kind) {
        seq![RunStep::Train]
    } else {
        Seq::empty()
    }) + (if splat_only {
        Seq::empty()
    } else {
        seq![RunStep::Mesh]
    }) + seq![RunStep::Save]
}

/// The stages of a run, in order. What trains brings up the GPU first: a machine
/// that cannot train fails before poses are estimated, not after.
pub fn plan(kind: &InputKind, splat_only: bool) -> (steps: Vec<RunStep>)
    ensures
        steps@ == steps_of(*kind, splat_only),
{
    let photos = match kind {
        InputKind::Photos(_) => true,
        _ => false,
    };
    let training = match kind {
        InputKind::Photos(_) | InputKind::Dataset(_) => true,
        _ => false,
    };
    let mut steps: Vec<RunStep> = Vec::new();
    if training {
        steps.push(RunStep::Gpu);
    }
    if photos {
        steps.push(RunStep::Poses);
    }
    if training {
        steps.push(RunStep::Train);
    }
    if !splat_only {
        steps.push(RunStep::Mesh);
    }
    steps.push(RunStep::Save);
    assert(steps@ =~= steps_of(*kind, splat_only));
    steps
}

/// Whatever needs the GPU comes after it was brought up, and that is the first
/// thing done.
pub proof fn gpu_comes_first(kind: InputKind, splat_only: bool)
    ensures
        steps_of(kind, splat_only).contains(RunStep::Train) ==> steps_of(kind, splat_only)[0]
            == RunStep::Gpu,
        steps_of(kind, splat_only).contains(RunStep::Poses) ==> steps_of(kind, splat_only)[0]
            == RunStep::Gpu,
{
}

/// Meshing a splat or a point cloud needs no GPU and no poses.
pub proof fn meshing_needs_no_gpu(kind: InputKind, splat_only: bool)
    requires
        !trains(kind),
    ensures
        !steps_of(kind, splat_only).contains(RunStep::Gpu),
        !steps_of(kind, splat_only).contains(RunStep::Poses),
        !steps_of(kind, splat_only).contains(RunStep::Train),
{
}

/// A run always ends with its report.
pub proof fn report_comes_last(kind: InputKind, splat_only: bool)
    ensures
        steps_of(kind, splat_only).len() > 0,
        steps_of(kind, splat_only).last() == RunStep::Save,
{
}

/// What a user is told before poses are estimated, or in place of it.
pub open spec fn poses_headline_of(kind: InputKind, source: PoseSource) -> Option<Seq<char>> {
    match kind {
        InputKind::Photos(_) => Some(
            "\n■ Stage 1/3 — camera poses ("@ + (match source {
                PoseSource::Colmap => "COLMAP"@,
                PoseSource::FeedForward(_) => cli::tag_of(source),
            }) + ")"@,
        ),
        InputKind::Dataset(_) => Some(
            "\n■ Stage 1/3 — camera poses: dataset already posed, skipping"@,
        ),
        _ => None,
    }
}

/// What a user is told before poses are estimated, or in place of it.
pub fn poses_headline(kind: &InputKind, source: PoseSource) -> (t: Option<String>)
    ensures
        text::view_of(t) == poses_headline_of(*kind, source),
{
    match kind {
        InputKind::Photos(_) => {
            let mut t = "\n■ Stage 1/3 — camera poses (".to_owned();
            match source {
                PoseSource::Colmap => t.append("COLMAP"),
                PoseSource::FeedForward(_) => t.append(source.default_tag().as_str()),
            }
            t.append(")");
            Some(t)
        },
        InputKind::Dataset(_) => Some(
            "\n■ Stage 1/3 — camera poses: dataset already posed, skipping".to_owned(),
        ),
        _ => None,
    }
}

/// What a user is told before training, or in place of it.
pub fn train_headline(kind: &InputKind) -> (t: String)
    ensures
        t@ == if trains(*kind) {
            "\n■ Stage 2/3 — training gaussian splat (Brush · wgpu)"@
        } else {
            "\n■ Stage 2/3 — training: skipped (--mesh-only)"@
        },
{
    match kind {
        InputKind::Photos(_)
        | InputKind::Dataset(_) => "\n■ Stage 2/3 — training gaussian splat (Brush · wgpu)".to_owned(),
        _ => "\n■ Stage 2/3 — training: skipped (--mesh-only)".to_owned(),
    }
}

/// What a user is told before meshing, or in place of it.
pub fn mesh_headline(splat_only: bool) -> (t: String)
    ensures
        t@ == if splat_only {
            "\n■ Stage 3/3 — mesh: skipped (--splat-only)"@
        } else {
            "\n■ Stage 3/3 — extracting mesh (TSDF + surface nets)"@
        },
{
    if splat_only {
        "\n■ Stage 3/3 — mesh: skipped (--splat-only)".to_owned()
    } else {
        "\n■ Stage 3/3 — extracting mesh (TSDF + surface nets)".to_owned()
    }
}

/// Poses in one line, with how long they took.
pub open spec fn poses_text(s: SfmStats, took: Seq<char>) -> Seq<char> {
    "  registered "@ + text::decimal(s.registered_images as nat) + "/"@ + text::decimal(
        s.input_images as nat,
    ) + " photos, "@ + text::decimal(s.sparse_points as nat) + " sparse points in "@ + took
}

/// Poses in one line, given how long they took in words.
pub fn poses_line_with(s: &SfmStats, took: &str) -> (t: String)
    ensures
        t@ == poses_text(*s, took@),
{
    let mut t = "  registered ".to_owned();
    t.append(decimal_text(s.registered_images as u64).as_str());
    t.append("/");
    t.append(decimal_text(s.input_images as u64).as_str());
    t.append(" photos, ");
    t.append(decimal_text(s.sparse_points as u64).as_str());
    t.append(" sparse points in ");
    t.append(took);
    t
}

/// Poses in one line.
pub fn poses_line(s: &SfmStats) -> (t: String)
    ensures
        t@ == poses_text(*s, timing::human_duration(s.elapsed.secs)),
{
    poses_line_with(s, duration_text(s.elapsed.secs).as_str())
}

/// Training in one line: how many splats, how long it took, and the quality as
/// it is printed, if it was measured.
pub open spec fn train_text(splats: u32, took: Seq<char>, psnr: Option<Seq<char>>) -> Seq<char> {
    "  trained "@ + text::decimal(splats as nat) + " splats in "@ + took + (match psnr {
        Some(p) => ", PSNR "@ + p,
        None => ""@,
    })
}

/// Training in one line, given how long it took in words.
pub fn train_line_with(splats: u32, took: &str, psnr: &Option<String>) -> (t: String)
    ensures
        t@ == train_text(splats, took@, text::view_of(*psnr)),
{
    let mut t = "  trained ".to_owned();
    t.append(decimal_text(splats as u64).as_str());
    t.append(" splats in ");
    t.append(took);
    match psnr {
        Some(p) => {
            let mut quality = ", PSNR ".to_owned();
            quality.append(p.as_str());
            t.append(quality.as_str());
        },
        None => t.append(""),
    }
    t
}

/// Training in one line.
pub fn train_line(splats: u32, secs: u64, psnr: &Option<String>) -> (t: String)
    ensures
        t@ == train_text(splats, timing::human_duration(secs), text::view_of(*psnr)),
{
    train_line_with(splats, duration_text(secs).as_str(), psnr)
}

/// Meshing in one line.
pub open spec fn mesh_text(vertices: usize, triangles: usize, took: Seq<char>) -> Seq<char> {
    "  "@ + text::decimal(vertices as nat) + " vertices, "@ + text::decimal(triangles as nat)
        + " triangles in "@ + took
}

/// Meshing in one line, given how long it took in words.
pub fn mesh_line_with(vertices: usize, triangles: usize, took: &str) -> (t: String)
    ensures
        t@ == mesh_text(vertices, triangles, took@),
{
    let mut t = "  ".to_owned();
    t.append(decimal_text(vertices as u64).as_str());
    t.append(" vertices, ");
    t.append(decimal_text(triangles as u64).as_str());
    t.append(" triangles in ");
    t.append(took);
    t
}

/// Meshing in one line.
pub fn mesh_line(vertices: usize, triangles: usize, secs: u64) -> (t: String)
    ensures
        t@ == mesh_text(vertices, triangles, timing::human_duration(secs)),
{
    mesh_line_with(vertices, triangles, duration_text(secs).as_str())
}

/// The end of a run in one line.
pub open spec fn done_text(took: Seq<char>, out_dir: Seq<char>) -> Seq<char> {
    "\n✔ Done in "@ + took + ". Outputs in "@ + out_dir + ":"@
}

/// The end of a run in one line, given how long it took in words.
pub fn done_line_with(took: &str, out_dir: &str) -> (t: String)
    ensures
        t@ == done_text(took@, out_dir@),
{
    let mut t = "\n✔ Done in ".to_owned();
    t.append(took);
    t.append(". Outputs in ");
    t.append(out_dir);
    t.append(":");
    t
}

/// The end of a run in one line.
pub fn done_line(secs: u64, out_dir: &str) -> (t: String)
    ensures
        t@ == done_text(timing::human_duration(secs), out_dir@),
{
    done_line_with(duration_text(secs).as_str(), out_dir)
}

/// What becomes of a progress bar: its place, its length and its message, where
/// they change.
#[derive(Debug)]
pub struct BarUpdate {
    pub position: Option<u64>,
    pub length: Option<u64>,
    pub message: Option<String>,
}

/// What an event of pose estimation does to the progress bar: a stage starts it
/// anew, progress moves it, and a status is its message.
pub fn bar_update(event: SfmEvent) -> (b: BarUpdate)
    ensures
        match event {
            SfmEvent::StageStarted { name, index, total } => {
                &&& b.position == Some(0u64)
                &&& b.length == Some(1u64)
                &&& text::view_of(b.message) == Some(
                    "["@ + text::decimal(index as nat) + "/"@ + text::decimal(total as nat) + "] "@
                        + name@,
                )
            },
            SfmEvent::Progress { done, total } => b.position == Some(done) && b.length == Some(
                total,
            ) && b.message is None,
            SfmEvent::Status(t) => b.position is None && b.length is None && text::view_of(
                b.message,
            ) == Some(t@),
        },
{
    match event {
        SfmEvent::StageStarted { name, index, total } => {
            let mut t = "[".to_owned();
            t.append(decimal_text(index as u64).as_str());
            t.append("/");
            t.append(decimal_text(total as u64).as_str());
            t.append("] ");
            t.append(name.as_str());
            BarUpdate { position: Some(0), length: Some(1), message: Some(t) }
        },
        SfmEvent::Progress { done, total } => BarUpdate {
            position: Some(done),
            length: Some(total),
            message: None,
        },
        SfmEvent::Status(t) => BarUpdate { position: None, length: None, message: Some(t) },
    }
}

/// The names of the files that a mesh is written to.
pub open spec fn mesh_names_of(tag: Seq<char>) -> Seq<Seq<char>> {
    seq![
        cli::artifact("mesh"@, tag, "ply"@),
        cli::artifact("mesh"@, tag, "obj"@),
        cli::artifact("mesh"@, tag, "glb"@),
    ]
}

/// The names of the files that a mesh is written to.
pub fn mesh_names(tag: &str) -> (names: Vec<String>)
    ensures
        text::views(names@) == mesh_names_of(tag@),
{
    let mut names: Vec<String> = Vec::new();
    names.push(artifact_name("mesh", tag, "ply"));
    names.push(artifact_name("mesh", tag, "obj"));
    names.push(artifact_name("mesh", tag, "glb"));
    assert(text::views(names@) =~= mesh_names_of(tag@));
    names
}

/// The name of the file that a trained splat is written to.
pub fn splat_name(tag: &str) -> (name: String)
    ensures
        name@ == cli::artifact("splat"@, tag@, "ply"@),
{
    artifact_name("splat", tag, "ply")
}

/// The files that a run of a tag leaves for itself: the splat, the mesh in its
/// three formats and, where there is a tag, the report.
pub open spec fn own_outputs(tag: Seq<char>) -> Seq<Seq<char>> {
    seq![cli::artifact("splat"@, tag, "ply"@)] + mesh_names_of(tag) + (if tag.len() > 0 {
        seq![report::report_names(tag)[0]]
    } else {
        Seq::empty()
    })
}

/// Runs of different tags in one directory leave each other's files alone.
pub proof fn runs_do_not_clobber(a: Seq<char>, b: Seq<char>, i: int, j: int)
    requires
        a != b,
        0 <= i < own_outputs(a).len(),
        0 <= j < own_outputs(b).len(),
    ensures
        own_outputs(a)[i] != own_outputs(b)[j],
{
    reveal_strlit("splat");
    reveal_strlit("mesh");
    reveal_strlit("report.");
    reveal_strlit("ply");
    reveal_strlit("obj");
    reveal_strlit("glb");
    reveal_strlit(".json");
    let (x, y) = (own_outputs(a)[i], own_outputs(b)[j]);
    if x == y {
        assert(x[0] == y[0] && x.last() == y.last());
        assert(i == j);
        if i == 0 {
            cli::tags_keep_outputs_apart("splat"@, "ply"@, a, b);
        } else if i == 1 {
            cli::tags_keep_outputs_apart("mesh"@, "ply"@, a, b);
        } else if i == 2 {
            cli::tags_keep_outputs_apart("mesh"@, "obj"@, a, b);
        } else if i == 3 {
            cli::tags_keep_outputs_apart("mesh"@, "glb"@, a, b);
        } else {
            assert(x.len() == 7 + a.len() + 5 && y.len() == 7 + b.len() + 5);
            assert(x.subrange(7, 7 + a.len() as int) =~= a);
            assert(y.subrange(7, 7 + b.len() as int) =~= b);
        }
    }
}

/// What the check of a machine says of COLMAP: where it is and which version, or
/// that it is not found.
pub fn doctor_colmap(found: &Option<(String, Option<String>)>) -> (t: String)
    ensures
        t@ == (match *found {
            Some((path, version)) => "COLMAP: "@ + path@ + " ("@ + (match version {
                Some(v) => v@,
                None => "version unknown"@,
            }) + ")"@,
            None => "COLMAP: not found — it will be downloaded automatically on Windows, or install it via your package manager (apt/brew install colmap)."@,
        }),
{
    match found {
        Some((path, version)) => {
            let mut t = "COLMAP: ".to_owned();
            t.append(path.as_str());
            t.append(" (");
            match version {
                Some(v) => t.append(v.as_str()),
                None => t.append("version unknown"),
            }
            t.append(")");
            t
        },
        None => "COLMAP: not found — it will be downloaded automatically on Windows, or install it via your package manager (apt/brew install colmap).".to_owned(),
    }
}

} // verus!
