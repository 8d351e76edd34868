//! Running the script and making sense of what it says.

use super::locate::PyRuntime;
use crate::colmap::pipeline::{SfmOutput, SfmStats};
use crate::colmap::progress::{EventModel, SfmEvent};
use crate::text::{self, decimal_text, lower_text, same_text};
use crate::timing::Elapsed;
use vstd::prelude::*;

verus! {

/// Which model produces the poses.
#[derive(Debug, Clone, Copy, PartialEq, Eq, Structural)]
pub enum FfBackend {
    MapAnything,
    /// MASt3R; for non-commercial use only.
    Mast3r,
}

/// The name of a backend.
pub open spec fn backend_name(b: FfBackend) -> Seq<char> {
    match b {
        FfBackend::MapAnything => "mapanything"@,
        FfBackend::Mast3r => "mast3r"@,
    }
}

/// The backend that a word stands for, letters in any case.
pub open spec fn backend_named(s: Seq<char>) -> Option<FfBackend> {
    let l = text::lower(s);
    if l == "mapanything"@ || l == "map-anything"@ {
        Some(FfBackend::MapAnything)
    } else if l == "mast3r"@ {
        Some(FfBackend::Mast3r)
    } else {
        None
    }
}

impl FfBackend {
    /// The name of the backend.
    pub fn name(self) -> (n: &'static str)
        ensures
            n@ == backend_name(self),
    {
        match self {
            FfBackend::MapAnything => "mapanything",
            FfBackend::Mast3r => "mast3r",
        }
    }

    /// The backend that `s` names.
    pub fn from_str(s: &str) -> (r: Result<FfBackend, String>)
        ensures
            match r {
                Ok(b) => backend_named(s@) == Some(b),
                Err(e) => backend_named(s@) is None && e@ == "unknown pose backend '"@
                    + text::lower(s@) + "' (expected colmap|mapanything|mast3r)"@,
            },
    {
        let l = lower_text(s);
        if same_text(l.as_str(), "mapanything") || same_text(l.as_str(), "map-anything") {
            Ok(FfBackend::MapAnything)
        } else if same_text(l.as_str(), "mast3r") {
            Ok(FfBackend::Mast3r)
        } else {
            let mut e = "unknown pose backend '".to_owned();
            e.append(l.as_str());
            e.append("' (expected colmap|mapanything|mast3r)");
            Err(e)
        }
    }
}

/// A backend's name names it.
pub proof fn backend_name_reads_back(b: FfBackend)
    ensures
        backend_named(backend_name(b)) == Some(b),
{
    reveal_strlit("mapanything");
    reveal_strlit("map-anything");
    reveal_strlit("mast3r");
    assert(text::lower("mapanything"@) =~= "mapanything"@);
    assert(text::lower("mast3r"@) =~= "mast3r"@);
    assert("mast3r"@.len() == 6 && "mapanything"@.len() == 11 && "map-anything"@.len() == 12);
}

/// Which weights are loaded.
#[derive(Debug)]
pub enum ModelChoice {
    /// Weights that may be used commercially.
    Apache,
    /// The best weights, for non-commercial use only.
    Best,
    /// Any model of the hub, by its name.
    Custom(String),
}

/// The name of the model on the hub.
pub open spec fn hub_name(m: ModelChoice) -> Seq<char> {
    match m {
        ModelChoice::Apache => "facebook/map-anything-apache"@,
        ModelChoice::Best => "facebook/map-anything"@,
        ModelChoice::Custom(id) => id@,
    }
}

impl ModelChoice {
    /// The name of the model on the hub.
    pub fn hf_id(&self) -> (id: &str)
        ensures
            id@ == hub_name(*self),
    {
        match self {
            ModelChoice::Apache => "facebook/map-anything-apache",
            ModelChoice::Best => "facebook/map-anything",
            ModelChoice::Custom(id) => id.as_str(),
        }
    }

    /// May the weights not be used commercially?
    pub fn non_commercial(&self) -> (b: bool)
        ensures
            b == (*self is Best),
    {
        match self {
            ModelChoice::Best => true,
            _ => false,
        }
    }

    /// The weights that `s` names: two words, or else the name of a model.
    pub fn from_str(s: &str) -> (m: ModelChoice)
        ensures
            if text::lower(s@) == "apache"@ {
                m is Apache
            } else if text::lower(s@) == "best"@ {
                m is Best
            } else {
                m matches ModelChoice::Custom(id) && id@ == s@
            },
    {
        let l = lower_text(s);
        if same_text(l.as_str(), "apache") {
            ModelChoice::Apache
        } else if same_text(l.as_str(), "best") {
            ModelChoice::Best
        } else {
            ModelChoice::Custom(s.to_owned())
        }
    }
}

/// What the user can choose.
#[derive(Debug)]
pub struct FfposeOptions {
    pub backend: FfBackend,
    pub model: ModelChoice,
    /// "auto", "cuda", "mps" or "cpu".
    pub device: String,
    /// Is the CPU used where there is no GPU?
    pub allow_cpu: bool,
    /// Are focal lengths taken from the photos?
    pub exif_intrinsics: bool,
}

impl Default for FfposeOptions {
    fn default() -> (o: FfposeOptions)
        ensures
            o.backend == FfBackend::MapAnything,
            o.model is Apache,
            o.device@ == "auto"@,
            !o.allow_cpu,
            o.exif_intrinsics,
    {
        FfposeOptions {
            backend: FfBackend::MapAnything,
            model: ModelChoice::Apache,
            device: "auto".to_owned(),
            allow_cpu: false,
            exif_intrinsics: true,
        }
    }
}

impl FfposeOptions {
    /// Is a backend or are weights chosen that may not be used commercially?
    pub fn non_commercial(&self) -> (b: bool)
        ensures
            b == (self.backend == FfBackend::Mast3r || self.model is Best),
    {
        self.backend == FfBackend::Mast3r || self.model.non_commercial()
    }
}

/// What the script says in one line of its output.
#[derive(Debug)]
#[allow(inconsistent_fields)]
pub enum ScriptEvent {
    Stage { name: String, index: usize, total: usize },
    Progress { done: u64, total: u64 },
    Status { message: String },
    Error { message: String, hint: Option<String> },
    Done { views: usize },
}

/// What a user is told of a line of the script. A line that is none of the
/// script's own, here `None`, is passed over.
pub open spec fn told(event: Option<ScriptEvent>) -> Option<EventModel> {
    match event {
        Some(ScriptEvent::Stage { name, index, total }) => Some(
            EventModel::Stage(name@, index as int, total as int),
        ),
        Some(ScriptEvent::Progress { done, total }) => Some(
            EventModel::Progress(done as int, total as int),
        ),
        Some(ScriptEvent::Status { message }) => Some(EventModel::Status(message@)),
        _ => None,
    }
}

/// The error that the script has reported so far: the last one.
pub open spec fn reported(
    before: Option<(Seq<char>, Option<Seq<char>>)>,
    event: Option<ScriptEvent>,
) -> Option<(Seq<char>, Option<Seq<char>>)> {
    match event {
        Some(ScriptEvent::Error { message, hint }) => Some((message@, text::view_of(hint))),
        _ => before,
    }
}

/// A reported error with its texts as characters.
pub open spec fn error_view(e: Option<(String, Option<String>)>) -> Option<
    (Seq<char>, Option<Seq<char>>),
> {
    match e {
        Some((message, hint)) => Some((message@, text::view_of(hint))),
        None => None,
    }
}

/// Takes in one line of the script: what a user is told of it, and the error
/// that the script has reported so far.
pub fn handle_line(event: Option<ScriptEvent>, error: Option<(String, Option<String>)>) -> (r: (
    Option<SfmEvent>,
    Option<(String, Option<String>)>,
))
    ensures
        (match r.0 {
            Some(e) => Some(e@),
            None => None,
        }) == told(event),
        error_view(r.1) == reported(error_view(error), event),
{
    match event {
        Some(ScriptEvent::Stage { name, index, total }) => (
            Some(SfmEvent::StageStarted { name, index, total }),
            error,
        ),
        Some(ScriptEvent::Progress { done, total }) => (
            Some(SfmEvent::Progress { done, total }),
            error,
        ),
        Some(ScriptEvent::Status { message }) => (Some(SfmEvent::Status(message)), error),
        Some(ScriptEvent::Error { message, hint }) => (None, Some((message, hint))),
        Some(ScriptEvent::Done { .. }) => (None, error),
        None => (None, error),
    }
}

/// What is told of a script that failed: what it reported itself, with its
/// hint, or else how it ended and the last lines of its error output.
pub open spec fn failure_text(
    error: Option<(Seq<char>, Option<Seq<char>>)>,
    status: Seq<char>,
    tail: Seq<Seq<char>>,
) -> Seq<char> {
    match error {
        Some((message, Some(hint))) => message + "\n  hint: "@ + hint,
        Some((message, None)) => message,
        None => "pose-estimation script exited with "@ + status + ":\n"@ + text::joined(
            tail,
            "\n"@,
        ),
    }
}

/// What is told of a script that failed.
pub fn script_failure(
    error: Option<(String, Option<String>)>,
    status: &str,
    tail: &Vec<String>,
) -> (t: String)
    ensures
        t@ == failure_text(error_view(error), status@, text::views(tail@)),
{
    match error {
        Some((message, hint)) => {
            let mut t = message;
            match hint {
                Some(h) => {
                    t.append("\n  hint: ");
                    t.append(h.as_str());
                },
                None => {},
            }
            t
        },
        None => {
            let mut t = "pose-estimation script exited with ".to_owned();
            t.append(status);
            t.append(":\n");
            t.append(text::join(tail, "\n").as_str());
            t
        },
    }
}

/// Why no poses were estimated.
#[derive(Debug)]
pub enum FfposeError {
    TooFewImages { found: usize, dir: String },
    /// The script failed.
    Script { backend: FfBackend, cause: String },
    NoPoses,
}

/// What a user is told of the error.
pub open spec fn ffpose_error_text(e: FfposeError) -> Seq<char> {
    match e {
        FfposeError::TooFewImages { found, dir } =>
            "Need at least 2 images for feed-forward pose estimation, found "@ + text::decimal(
            found as nat,
        ) + " in "@ + dir@,
        FfposeError::Script { backend, cause } => backend_name(backend)
            + " pose estimation failed: "@ + cause@,
        FfposeError::NoPoses => "The model produced no camera poses — the export is empty."@,
    }
}

impl FfposeError {
    /// What a user is told of the error.
    pub fn message(&self) -> (t: String)
        ensures
            t@ == ffpose_error_text(*self),
    {
        match self {
            FfposeError::TooFewImages { found, dir } => {
                let mut t =
                    "Need at least 2 images for feed-forward pose estimation, found ".to_owned();
                t.append(decimal_text(*found as u64).as_str());
                t.append(" in ");
                t.append(dir.as_str());
                t
            },
            FfposeError::Script { backend, cause } => {
                let mut t = backend.name().to_owned();
                t.append(" pose estimation failed: ");
                t.append(cause.as_str());
                t
            },
            FfposeError::NoPoses => "The model produced no camera poses — the export is empty.".to_owned(),
        }
    }
}

/// Where the script reads and writes.
#[derive(Debug)]
pub struct ScriptPaths {
    pub script: String,
    pub images: String,
    pub output: String,
    pub cache: Option<String>,
}

/// How the script is called.
pub open spec fn launch_args(runtime: PyRuntime, script: Seq<char>) -> Seq<Seq<char>> {
    match runtime {
        PyRuntime::Uv(_) => seq!["run"@, "--no-progress"@, script],
        PyRuntime::Python(_) => seq![script],
    }
}

/// What the script is told.
pub open spec fn script_args(paths: ScriptPaths, opts: FfposeOptions) -> Seq<Seq<char>> {
    seq![
        "--images-dir"@,
        paths.images@,
        "--output-dir"@,
        paths.output@,
        "--backend"@,
        backend_name(opts.backend),
        "--model-id"@,
        hub_name(opts.model),
        "--device"@,
        opts.device@,
    ] + (if opts.allow_cpu {
        seq!["--allow-cpu"@]
    } else {
        Seq::empty()
    }) + (if opts.exif_intrinsics {
        Seq::empty()
    } else {
        seq!["--no-exif-intrinsics"@]
    }) + (match paths.cache {
        Some(dir) => seq!["--cache-dir"@, dir@],
        None => Seq::empty(),
    })
}

/// The arguments with which the runtime is called, if there are two photos at
/// least.
pub fn ffpose_command(
    images: usize,
    runtime: &PyRuntime,
    paths: &ScriptPaths,
    opts: &FfposeOptions,
) -> (r: Result<Vec<String>, FfposeError>)
    ensures
        if images < 2 {
            r matches Err(FfposeError::TooFewImages { found, dir }) && found == images && dir@
                == paths.images@
        } else {
            r matches Ok(args) && text::views(args@) == launch_args(*runtime, paths.script@)
                + script_args(*paths, *opts)
        },
{
    if images < 2 {
        return Err(FfposeError::TooFewImages { found: images, dir: paths.images.clone() });
    }
    let mut args: Vec<String> = Vec::new();
    match runtime {
        PyRuntime::Uv(_) => {
            args.push("run".to_owned());
            args.push("--no-progress".to_owned());
        },
        PyRuntime::Python(_) => {},
    }
    args.push(paths.script.clone());
    args.push("--images-dir".to_owned());
    args.push(paths.images.clone());
    args.push("--output-dir".to_owned());
    args.push(paths.output.clone());
    args.push("--backend".to_owned());
    args.push(opts.backend.name().to_owned());
    args.push("--model-id".to_owned());
    args.push(opts.model.hf_id().to_owned());
    args.push("--device".to_owned());
    args.push(opts.device.clone());
    if opts.allow_cpu {
        args.push("--allow-cpu".to_owned());
    }
    if !opts.exif_intrinsics {
        args.push("--no-exif-intrinsics".to_owned());
    }
    match &paths.cache {
        Some(dir) => {
            args.push("--cache-dir".to_owned());
            args.push(dir.clone());
        },
        None => {},
    }
    assert(text::views(args@) =~= launch_args(*runtime, paths.script@) + script_args(
        *paths,
        *opts,
    ));
    Ok(args)
}

/// What the export amounts to: an error if it has no poses.
pub fn finish_ffpose(
    images: usize,
    registered: usize,
    points: usize,
    dataset_dir: String,
    sparse_dir: String,
    elapsed: Elapsed,
) -> (r: Result<SfmOutput, FfposeError>)
    ensures
        match r {
            Ok(out) => {
                &&& registered > 0
                &&& out.dataset_dir@ == dataset_dir@
                &&& out.sparse_dir@ == sparse_dir@
                &&& out.stats.input_images == images
                &&& out.stats.registered_images == registered
                &&& out.stats.sparse_points == points
                &&& out.stats.elapsed == elapsed
            },
            Err(e) => registered == 0 && e is NoPoses,
        },
{
    if registered == 0 {
        return Err(FfposeError::NoPoses);
    }
    Ok(
        SfmOutput {
            dataset_dir,
            sparse_dir,
            stats: SfmStats {
                input_images: images,
                registered_images: registered,
                sparse_points: points,
                elapsed,
            },
        },
    )
}

/// All lines of the script, one after the other: the error that stands at the
/// end.
pub open spec fn error_after(events: Seq<Option<ScriptEvent>>) -> Option<
    (Seq<char>, Option<Seq<char>>),
>
    decreases events.len(),
{
    if events.len() == 0 {
        None
    } else {
        reported(error_after(events.drop_last()), events.last())
    }
}

/// An error that the script reports is what the user is told if the script
/// fails, however it ends and whatever it writes afterwards short of another
/// error.
pub proof fn reported_error_is_told(
    events: Seq<Option<ScriptEvent>>,
    i: int,
    status: Seq<char>,
    tail: Seq<Seq<char>>,
)
    requires
        0 <= i < events.len(),
        events[i] matches Some(ScriptEvent::Error { .. }),
        forall|k: int|
            i < k < events.len() ==> !(#[trigger] events[k] matches Some(ScriptEvent::Error { .. })),
    ensures
        events[i] matches Some(ScriptEvent::Error { message, hint }) && error_after(events) == Some(
            (message@, text::view_of(hint)),
        ) && failure_text(error_after(events), status, tail) == (match hint {
            Some(h) => message@ + "\n  hint: "@ + h@,
            None => message@,
        }),
    decreases events.len(),
{
    if i < events.len() - 1 {
        let before = events.drop_last();
        assert forall|k: int| i < k < before.len() implies !(#[trigger] before[k] matches Some(
            ScriptEvent::Error { .. },
        )) by {
            assert(before[k] == events[k]);
        }
        reported_error_is_told(before, i, status, tail);
        assert(!(events[events.len() - 1] matches Some(ScriptEvent::Error { .. })));
    }
}

} // verus!
