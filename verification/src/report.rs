//! The summary that a run leaves beside its outputs.

use crate::colmap::pipeline::SfmStats;
use crate::text::{self, decimal_text};
use crate::timing::Elapsed;
use crate::train::TrainOutcome;
use vstd::prelude::*;

verus! {

/// A run in numbers.
#[derive(Debug)]
pub struct RunReport {
    /// The version of the program.
    pub meshsplat_version: String,
    /// The methods that were used, in words.
    pub method: String,
    /// The tag in the names of the outputs.
    pub tag: String,
    pub gpu: Option<String>,
    pub sfm: Option<SfmReport>,
    pub training: Option<TrainReport>,
    pub mesh: Option<MeshReport>,
    pub outputs: Vec<String>,
}

/// Pose estimation in numbers.
#[derive(Debug)]
pub struct SfmReport {
    /// "colmap", "mapanything" or "mast3r".
    pub backend: String,
    /// The model, of backends that have one.
    pub model: Option<String>,
    pub input_images: usize,
    pub registered_images: usize,
    pub sparse_points: usize,
    pub elapsed: Elapsed,
}

/// Training in numbers.
#[derive(Debug, Clone, Copy)]
pub struct TrainReport {
    pub iterations: u32,
    pub final_splat_count: u32,
    /// The bits of a single.
    pub last_psnr: Option<u32>,
    pub elapsed: Elapsed,
}

/// Meshing in numbers.
#[derive(Debug, Clone, Copy)]
pub struct MeshReport {
    pub vertices: usize,
    pub triangles: usize,
    pub elapsed: Elapsed,
}

/// The methods of a run in words.
pub open spec fn method_words(poses: Seq<char>, sh_degree: nat, mesh: Seq<char>) -> Seq<char> {
    "poses="@ + poses + " · train=brush(sh"@ + text::decimal(sh_degree) + ") · mesh="@ + mesh
}

/// The methods of a run in words.
pub fn method_text(poses: &str, sh_degree: u32, mesh: &str) -> (t: String)
    ensures
        t@ == method_words(poses@, sh_degree as nat, mesh@),
{
    let mut t = "poses=".to_owned();
    t.append(poses);
    t.append(" · train=brush(sh");
    t.append(decimal_text(sh_degree as u64).as_str());
    t.append(") · mesh=");
    t.append(mesh);
    t
}

impl SfmReport {
    /// Pose estimation by a backend in numbers.
    pub fn of(backend: String, model: Option<String>, stats: &SfmStats) -> (r: SfmReport)
        ensures
            r.backend@ == backend@,
            r.model == model,
            r.input_images == stats.input_images,
            r.registered_images == stats.registered_images,
            r.sparse_points == stats.sparse_points,
            r.elapsed == stats.elapsed,
    {
        SfmReport {
            backend,
            model,
            input_images: stats.input_images,
            registered_images: stats.registered_images,
            sparse_points: stats.sparse_points,
            elapsed: stats.elapsed,
        }
    }
}

impl TrainReport {
    /// Training of `iterations` steps in numbers.
    pub fn of(iterations: u32, out: &TrainOutcome) -> (r: TrainReport)
        ensures
            r == (TrainReport {
                iterations,
                final_splat_count: out.final_splats,
                last_psnr: out.last_psnr,
                elapsed: out.elapsed,
            }),
    {
        TrainReport {
            iterations,
            final_splat_count: out.final_splats,
            last_psnr: out.last_psnr,
            elapsed: out.elapsed,
        }
    }
}

/// The names of the files that a report is written to: one with the tag, so that
/// several runs can be compared, and one that is always the same.
pub open spec fn report_names(tag: Seq<char>) -> Seq<Seq<char>> {
    if tag.len() == 0 {
        seq!["report.json"@]
    } else {
        seq!["report."@ + tag + ".json"@, "report.json"@]
    }
}

impl RunReport {
    /// A report in which nothing has been done yet.
    pub fn new(meshsplat_version: String, method: String, tag: String) -> (r: RunReport)
        ensures
            r.meshsplat_version@ == meshsplat_version@,
            r.method@ == method@,
            r.tag@ == tag@,
            r.gpu is None,
            r.sfm is None,
            r.training is None,
            r.mesh is None,
            r.outputs@.len() == 0,
    {
        RunReport {
            meshsplat_version,
            method,
            tag,
            gpu: None,
            sfm: None,
            training: None,
            mesh: None,
            outputs: Vec::new(),
        }
    }

    /// The names of the files that the report is written to.
    pub fn save(&self, tag: &str) -> (names: Vec<String>)
        ensures
            text::views(names@) == report_names(tag@),
    {
        let mut names: Vec<String> = Vec::new();
        if !tag.is_empty() {
            let mut name = "report.".to_owned();
            name.append(tag);
            name.append(".json");
            names.push(name);
        }
        names.push("report.json".to_owned());
        assert(text::views(names@) =~= report_names(tag@));
        names
    }
}

} // verus!
