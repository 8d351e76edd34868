//! What the user asks for: presets, the kind of the input, and the names of the
//! outputs.

use crate::colmap::images::image_extension_list;
use crate::colmap::pipeline::{CaptureMode, MapperKind, SfmOptions};
use crate::ffpose::pipeline::{self as ffpose, FfBackend};
use crate::text::{self, lower_text, same_text, to_chars};
use crate::train::TrainSettings;
use vstd::prelude::*;

verus! {

/// How much effort a run takes.
#[derive(Debug, Clone, Copy, PartialEq, Eq, Structural)]
pub enum Quality {
    Fast,
    Balanced,
    High,
}

/// The settings that a quality stands for.
#[derive(Debug, Clone, Copy, PartialEq, Eq, Structural)]
pub struct Preset {
    pub iters: u32,
    pub max_splats: u32,
    pub max_resolution: u32,
    pub grid_res: u32,
}

/// The settings that a quality stands for.
pub open spec fn preset_of(q: Quality) -> Preset {
    match q {
        Quality::Fast => Preset {
            iters: 7_000,
            max_splats: 1_500_000,
            max_resolution: 1024,
            grid_res: 192,
        },
        Quality::Balanced => Preset {
            iters: 18_000,
            max_splats: 4_000_000,
            max_resolution: 1600,
            grid_res: 256,
        },
        Quality::High => Preset {
            iters: 30_000,
            max_splats: 8_000_000,
            max_resolution: 1920,
            grid_res: 320,
        },
    }
}

impl Quality {
    /// The settings that the quality stands for.
    pub fn preset(self) -> (p: Preset)
        ensures
            p == preset_of(self),
    {
        match self {
            Quality::Fast => Preset {
                iters: 7_000,
                max_splats: 1_500_000,
                max_resolution: 1024,
                grid_res: 192,
            },
            Quality::Balanced => Preset {
                iters: 18_000,
                max_splats: 4_000_000,
                max_resolution: 1600,
                grid_res: 256,
            },
            Quality::High => Preset {
                iters: 30_000,
                max_splats: 8_000_000,
                max_resolution: 1920,
                grid_res: 320,
            },
        }
    }
}

/// What the user set in place of a preset's values.
#[derive(Debug, Clone, Copy)]
pub struct Overrides {
    pub iters: Option<u32>,
    pub max_splats: Option<u32>,
    pub max_resolution: Option<u32>,
    pub grid_res: Option<u32>,
}

/// A value that the user set, or else the preset's.
pub open spec fn set_or(value: Option<u32>, preset: u32) -> u32 {
    match value {
        Some(v) => v,
        None => preset,
    }
}

fn choose_value(value: Option<u32>, preset: u32) -> (v: u32)
    ensures
        v == set_or(value, preset),
{
    match value {
        Some(v) => v,
        None => preset,
    }
}

/// The settings of a run: the preset's, but for what the user set.
pub fn resolve(quality: Quality, set: &Overrides) -> (p: Preset)
    ensures
        p == (Preset {
            iters: set_or(set.iters, preset_of(quality).iters),
            max_splats: set_or(set.max_splats, preset_of(quality).max_splats),
            max_resolution: set_or(set.max_resolution, preset_of(quality).max_resolution),
            grid_res: set_or(set.grid_res, preset_of(quality).grid_res),
        }),
{
    let preset = quality.preset();
    Preset {
        iters: choose_value(set.iters, preset.iters),
        max_splats: choose_value(set.max_splats, preset.max_splats),
        max_resolution: choose_value(set.max_resolution, preset.max_resolution),
        grid_res: choose_value(set.grid_res, preset.grid_res),
    }
}

/// The settings of training.
pub fn train_settings(p: &Preset, seed: u64, export_dir: String) -> (t: TrainSettings)
    ensures
        t.iters == p.iters,
        t.max_splats == p.max_splats,
        t.max_resolution == p.max_resolution,
        t.seed == seed,
        t.export_dir@ == export_dir@,
{
    TrainSettings {
        iters: p.iters,
        max_splats: p.max_splats,
        max_resolution: p.max_resolution,
        seed,
        export_dir,
    }
}

/// The options of pose estimation. Photos in order come from one camera, and
/// sharing its lens among them makes the reconstruction much more robust.
pub fn sfm_options(
    capture: CaptureMode,
    single_camera: bool,
    cpu_only: bool,
    mask_dir: Option<String>,
    mapper: MapperKind,
) -> (o: SfmOptions)
    ensures
        o.capture == capture,
        o.single_camera == (single_camera || capture == CaptureMode::Sequential),
        o.cpu_only == cpu_only,
        o.max_image_size == 3200,
        o.exhaustive_limit == 150,
        o.mask_dir == mask_dir,
        o.mapper == mapper,
{
    let usual = SfmOptions::default();
    SfmOptions {
        capture,
        single_camera: single_camera || capture == CaptureMode::Sequential,
        cpu_only,
        max_image_size: usual.max_image_size,
        exhaustive_limit: usual.exhaustive_limit,
        mask_dir,
        mapper,
    }
}

/// What stands at the path of the input.
#[derive(Debug, Clone, Copy, PartialEq, Eq, Structural)]
pub enum PathKind {
    File,
    Dir,
    Missing,
}

/// What was found at the path of the input.
#[derive(Debug)]
pub struct InputFacts {
    pub path: String,
    pub kind: PathKind,
    /// The extension of a file's name.
    pub extension: Option<String>,
    /// Does a directory hold a directory `sparse`?
    pub has_sparse: bool,
    /// Does a directory hold a file of camera transforms?
    pub has_transforms: bool,
    /// The number of images in a directory.
    pub images: usize,
}

/// What the input is.
#[derive(Debug)]
pub enum InputKind {
    /// Photos, with everything still to do.
    Photos(String),
    /// A dataset that has camera poses.
    Dataset(String),
    /// A trained splat, or a point cloud of the same extension.
    SplatPly(String),
    /// A point cloud.
    PointCloud(String),
}

/// Why an input was refused.
#[derive(Debug)]
pub enum InputError {
    NotAModel(String),
    Missing(String),
    MeshOnlyNeedsFile,
    NoImages(String),
}

/// What the input is, or why it is refused.
pub open spec fn classified(
    f: InputFacts,
    mesh_only: bool,
    r: Result<InputKind, InputError>,
) -> bool {
    match f.kind {
        PathKind::File => if text::view_of(f.extension) == Some("ply"@) {
            r matches Ok(InputKind::SplatPly(p)) && p@ == f.path@
        } else if text::view_of(f.extension) == Some("obj"@) && mesh_only {
            r matches Ok(InputKind::PointCloud(p)) && p@ == f.path@
        } else {
            r matches Err(InputError::NotAModel(p)) && p@ == f.path@
        },
        PathKind::Missing => r matches Err(InputError::Missing(p)) && p@ == f.path@,
        PathKind::Dir => if mesh_only {
            r matches Err(InputError::MeshOnlyNeedsFile)
        } else if f.has_sparse || f.has_transforms {
            r matches Ok(InputKind::Dataset(p)) && p@ == f.path@
        } else if f.images == 0 {
            r matches Err(InputError::NoImages(p)) && p@ == f.path@
        } else {
            r matches Ok(InputKind::Photos(p)) && p@ == f.path@
        },
    }
}

/// Tells what the input is. Point clouds in `.obj` files are for meshing only.
pub fn classify_input(f: &InputFacts, mesh_only: bool) -> (r: Result<InputKind, InputError>)
    ensures
        classified(*f, mesh_only, r),
{
    match f.kind {
        PathKind::File => {
            match &f.extension {
                Some(e) => {
                    if same_text(e.as_str(), "ply") {
                        return Ok(InputKind::SplatPly(f.path.clone()));
                    }
                    if mesh_only && same_text(e.as_str(), "obj") {
                        return Ok(InputKind::PointCloud(f.path.clone()));
                    }
                },
                None => {},
            }
            Err(InputError::NotAModel(f.path.clone()))
        },
        PathKind::Missing => Err(InputError::Missing(f.path.clone())),
        PathKind::Dir => {
            if mesh_only {
                Err(InputError::MeshOnlyNeedsFile)
            } else if f.has_sparse || f.has_transforms {
                Ok(InputKind::Dataset(f.path.clone()))
            } else if f.images == 0 {
                Err(InputError::NoImages(f.path.clone()))
            } else {
                Ok(InputKind::Photos(f.path.clone()))
            }
        },
    }
}

/// What a user is told of a refused input.
pub open spec fn input_error_text(e: InputError) -> Seq<char> {
    match e {
        InputError::NotAModel(p) => "Input file "@ + p@
            + " is not a .ply — pass a photo directory or a splat file"@,
        InputError::Missing(p) => "Input path "@ + p@ + " does not exist"@,
        InputError::MeshOnlyNeedsFile => "--mesh-only expects a splat .ply file as input"@,
        InputError::NoImages(p) => "No images found in "@ + p@
            + " (looked for "@ + "jpg/jpeg/png/tif/tiff/bmp"@
            + "). Point meshsplat at a folder of photos."@,
    }
}

impl InputError {
    /// What a user is told of the refused input.
    pub fn message(&self) -> (t: String)
        ensures
            t@ == input_error_text(*self),
    {
        match self {
            InputError::NotAModel(p) => {
                let mut t = "Input file ".to_owned();
                t.append(p.as_str());
                t.append(" is not a .ply — pass a photo directory or a splat file");
                t
            },
            InputError::Missing(p) => {
                let mut t = "Input path ".to_owned();
                t.append(p.as_str());
                t.append(" does not exist");
                t
            },
            InputError::MeshOnlyNeedsFile => "--mesh-only expects a splat .ply file as input".to_owned(),
            InputError::NoImages(p) => {
                let mut t = "No images found in ".to_owned();
                t.append(p.as_str());
                t.append(" (looked for ");
                t.append(image_extension_list().as_str());
                t.append("). Point meshsplat at a folder of photos.");
                t
            },
        }
    }
}

/// Where the camera poses of a dataset lie.
#[derive(Debug, Clone, Copy, PartialEq, Eq, Structural)]
pub enum SparsePlace {
    /// In `sparse/0`.
    Zero,
    /// In `sparse` itself.
    Top,
}

/// Where the camera poses of a dataset lie, given which directories there are.
pub fn sparse_place(has_sparse: bool, has_sparse_zero: bool) -> (p: Option<SparsePlace>)
    ensures
        p == (if has_sparse_zero {
            Some(SparsePlace::Zero)
        } else if has_sparse {
            Some(SparsePlace::Top)
        } else {
            None
        }),
{
    if has_sparse_zero {
        Some(SparsePlace::Zero)
    } else if has_sparse {
        Some(SparsePlace::Top)
    } else {
        None
    }
}

/// Where camera poses come from.
#[derive(Debug, Clone, Copy, PartialEq, Eq, Structural)]
pub enum PoseSource {
    Colmap,
    FeedForward(FfBackend),
}

/// The source that a word stands for, letters in any case.
pub open spec fn source_named(s: Seq<char>) -> Option<PoseSource> {
    if text::lower(s) == "colmap"@ {
        Some(PoseSource::Colmap)
    } else {
        match ffpose::backend_named(s) {
            Some(b) => Some(PoseSource::FeedForward(b)),
            None => None,
        }
    }
}

/// The tag of runs with poses from a source.
pub open spec fn tag_of(source: PoseSource) -> Seq<char> {
    match source {
        PoseSource::Colmap => "colmap"@,
        PoseSource::FeedForward(b) => ffpose::backend_name(b),
    }
}

impl PoseSource {
    /// The source that `s` names.
    pub fn from_str(s: &str) -> (r: Result<PoseSource, String>)
        ensures
            match r {
                Ok(p) => source_named(s@) == Some(p),
                Err(e) => source_named(s@) is None && e@ == "unknown pose backend '"@ + text::lower(
                    s@,
                ) + "' (expected colmap|mapanything|mast3r)"@,
            },
    {
        if same_text(lower_text(s).as_str(), "colmap") {
            return Ok(PoseSource::Colmap);
        }
        match FfBackend::from_str(s) {
            Ok(b) => Ok(PoseSource::FeedForward(b)),
            Err(e) => Err(e),
        }
    }

    /// The tag that runs with poses from this source have of themselves.
    pub fn default_tag(self) -> (t: String)
        ensures
            t@ == tag_of(self),
    {
        match self {
            PoseSource::Colmap => "colmap".to_owned(),
            PoseSource::FeedForward(b) => b.name().to_owned(),
        }
    }
}

/// Can the character stand in a file name anywhere: an ASCII letter or digit, a
/// dot, a hyphen or an underscore?
pub open spec fn name_safe(c: char) -> bool {
    ||| 'a' <= c && c <= 'z'
    ||| 'A' <= c && c <= 'Z'
    ||| '0' <= c && c <= '9'
    ||| c == '.'
    ||| c == '-'
    ||| c == '_'
}

/// The character, or a hyphen in its place.
pub open spec fn safe_char(c: char) -> char {
    if name_safe(c) {
        c
    } else {
        '-'
    }
}

/// A tag as it can stand in file names.
pub open spec fn sanitized(s: Seq<char>) -> Seq<char> {
    s.map_values(|c: char| safe_char(c))
}

/// The tag as it can stand in file names.
pub fn sanitize_tag(tag: &str) -> (t: String)
    ensures
        t@ == sanitized(tag@),
{
    let c = to_chars(tag);
    let mut t = String::new();
    for i in 0..c.len()
        invariant
            c@ == tag@,
            t@ == sanitized(c@.take(i as int)),
    {
        let x = c[i];
        let safe = ('a' <= x && x <= 'z') || ('A' <= x && x <= 'Z') || ('0' <= x && x <= '9') || x
            == '.' || x == '-' || x == '_';
        t.push(
            if safe {
                x
            } else {
                '-'
            },
        );
        assert(sanitized(c@.take(i as int + 1)) =~= sanitized(c@.take(i as int)).push(
            safe_char(c@[i as int]),
        ));
    }
    assert(c@.take(c@.len() as int) =~= c@);
    t
}

/// A tag that is made safe for file names holds nothing else than what is safe,
/// and making it safe again changes nothing.
pub proof fn sanitized_tags_are_safe(s: Seq<char>)
    ensures
        forall|i: int| 0 <= i < sanitized(s).len() ==> name_safe(#[trigger] sanitized(s)[i]),
        sanitized(s).len() == s.len(),
        sanitized(sanitized(s)) == sanitized(s),
{
    assert(sanitized(sanitized(s)) =~= sanitized(s));
}

/// A tag that is safe already is kept as it is.
pub proof fn safe_tags_are_kept(s: Seq<char>)
    requires
        forall|i: int| 0 <= i < s.len() ==> name_safe(#[trigger] s[i]),
    ensures
        sanitized(s) == s,
{
    assert(sanitized(s) =~= s);
}

/// The name of an output: its stem, the tag if there is one, and its extension.
pub open spec fn artifact(stem: Seq<char>, tag: Seq<char>, extension: Seq<char>) -> Seq<char> {
    if tag.len() == 0 {
        stem + "."@ + extension
    } else {
        stem + "."@ + tag + "."@ + extension
    }
}

/// The name of an output.
pub fn artifact_name(stem: &str, tag: &str, extension: &str) -> (name: String)
    ensures
        name@ == artifact(stem@, tag@, extension@),
{
    let mut name = stem.to_owned();
    name.append(".");
    if !tag.is_empty() {
        name.append(tag);
        name.append(".");
    }
    name.append(extension);
    name
}

/// Runs with different tags write different files: neither overwrites what the
/// other left.
pub proof fn tags_keep_outputs_apart(
    stem: Seq<char>,
    extension: Seq<char>,
    a: Seq<char>,
    b: Seq<char>,
)
    requires
        artifact(stem, a, extension) == artifact(stem, b, extension),
    ensures
        a == b,
{
    reveal_strlit(".");
    let (x, y) = (artifact(stem, a, extension), artifact(stem, b, extension));
    let from = stem.len() as int + 1;
    if a.len() > 0 && b.len() > 0 {
        assert(x.len() == from + a.len() + 1 + extension.len());
        assert(y.len() == from + b.len() + 1 + extension.len());
        assert(x.subrange(from, from + a.len()) =~= a);
        assert(y.subrange(from, from + b.len()) =~= b);
    } else if a.len() > 0 {
        assert(x.len() == from + a.len() + 1 + extension.len());
        assert(y.len() == from + extension.len());
    } else if b.len() > 0 {
        assert(y.len() == from + b.len() + 1 + extension.len());
        assert(x.len() == from + extension.len());
    } else {
        assert(a =~= b);
    }
}

} // verus!
