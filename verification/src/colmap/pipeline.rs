//! The stages of pose estimation with COLMAP, and what comes after each.
//!
//! Running programs and reading directories is left to the caller. A run is
//! asked for its next command, the caller runs it and reports the outcome, and
//! the run moves on: features are extracted once, then images are matched and
//! mapped. Where matching in sequence leaves most photos out, matching and
//! mapping are done once more, every pair of photos this time.

use super::progress::{self, EventModel, SfmEvent};
use crate::text::{self, decimal_text, has_prefix, has_suffix, lower_text, same_text, split_words};
use crate::timing::Elapsed;
use vstd::prelude::*;

verus! {

/// How the photos were captured.
#[derive(Debug, Clone, Copy, PartialEq, Eq, Structural)]
pub enum CaptureMode {
    /// Every pair of a small set is matched, a large set in sequence; and where
    /// that registers under half the photos, once more every pair.
    Auto,
    /// Photos from anywhere in any order.
    Unordered,
    /// Photos in order: video frames, turntables.
    Sequential,
}

/// The capture mode that a word stands for, letters in any case.
pub open spec fn capture_named(s: Seq<char>) -> Option<CaptureMode> {
    let l = text::lower(s);
    if l == "auto"@ {
        Some(CaptureMode::Auto)
    } else if l == "unordered"@ {
        Some(CaptureMode::Unordered)
    } else if l == "sequential"@ || l == "turntable"@ || l == "video"@ {
        Some(CaptureMode::Sequential)
    } else {
        None
    }
}

impl CaptureMode {
    /// The capture mode that `s` names.
    pub fn from_str(s: &str) -> (r: Result<CaptureMode, String>)
        ensures
            match r {
                Ok(m) => capture_named(s@) == Some(m),
                Err(e) => capture_named(s@) is None && e@ == "unknown capture mode '"@
                    + text::lower(s@) + "' (expected auto|unordered|sequential)"@,
            },
    {
        let l = lower_text(s);
        if same_text(l.as_str(), "auto") {
            Ok(CaptureMode::Auto)
        } else if same_text(l.as_str(), "unordered") {
            Ok(CaptureMode::Unordered)
        } else if same_text(l.as_str(), "sequential") || same_text(l.as_str(), "turntable")
            || same_text(l.as_str(), "video") {
            Ok(CaptureMode::Sequential)
        } else {
            let mut e = "unknown capture mode '".to_owned();
            e.append(l.as_str());
            e.append("' (expected auto|unordered|sequential)");
            Err(e)
        }
    }
}

/// How camera poses are reconstructed.
#[derive(Debug, Clone, Copy, PartialEq, Eq, Structural)]
pub enum MapperKind {
    /// The global mapper where COLMAP offers it, else the incremental one.
    Auto,
    Incremental,
    /// The global mapper; a COLMAP without it is an error.
    Global,
}

/// The mapper that a word stands for, letters in any case.
pub open spec fn mapper_named(s: Seq<char>) -> Option<MapperKind> {
    let l = text::lower(s);
    if l == "auto"@ {
        Some(MapperKind::Auto)
    } else if l == "incremental"@ {
        Some(MapperKind::Incremental)
    } else if l == "global"@ || l == "glomap"@ {
        Some(MapperKind::Global)
    } else {
        None
    }
}

impl MapperKind {
    /// The mapper that `s` names.
    pub fn from_str(s: &str) -> (r: Result<MapperKind, String>)
        ensures
            match r {
                Ok(m) => mapper_named(s@) == Some(m),
                Err(e) => mapper_named(s@) is None && e@ == "unknown mapper '"@ + text::lower(s@)
                    + "' (expected auto|global|incremental)"@,
            },
    {
        let l = lower_text(s);
        if same_text(l.as_str(), "auto") {
            Ok(MapperKind::Auto)
        } else if same_text(l.as_str(), "incremental") {
            Ok(MapperKind::Incremental)
        } else if same_text(l.as_str(), "global") || same_text(l.as_str(), "glomap") {
            Ok(MapperKind::Global)
        } else {
            let mut e = "unknown mapper '".to_owned();
            e.append(l.as_str());
            e.append("' (expected auto|global|incremental)");
            Err(e)
        }
    }
}

/// The command that maps, if COLMAP offers the mapper that is asked for.
pub open spec fn mapper_command(kind: MapperKind, has_global: bool) -> Option<Seq<char>> {
    match kind {
        MapperKind::Incremental => Some("mapper"@),
        MapperKind::Auto => Some(
            if has_global {
                "global_mapper"@
            } else {
                "mapper"@
            },
        ),
        MapperKind::Global => if has_global {
            Some("global_mapper"@)
        } else {
            None
        },
    }
}

/// What the user can choose.
#[derive(Debug)]
pub struct SfmOptions {
    pub capture: CaptureMode,
    /// All photos share one camera and lens.
    pub single_camera: bool,
    /// Features are extracted and matched on the CPU only.
    pub cpu_only: bool,
    /// Larger images are scaled down to this for feature extraction.
    pub max_image_size: u32,
    /// The largest set of which every pair is matched of itself.
    pub exhaustive_limit: usize,
    /// A directory with a mask for each image.
    pub mask_dir: Option<String>,
    pub mapper: MapperKind,
}

impl Default for SfmOptions {
    fn default() -> (o: SfmOptions)
        ensures
            o.capture == CaptureMode::Auto,
            !o.single_camera,
            !o.cpu_only,
            o.max_image_size == 3200,
            o.exhaustive_limit == 150,
            o.mask_dir is None,
            o.mapper == MapperKind::Auto,
    {
        SfmOptions {
            capture: CaptureMode::Auto,
            single_camera: false,
            cpu_only: false,
            max_image_size: 3200,
            exhaustive_limit: 150,
            mask_dir: None,
            mapper: MapperKind::Auto,
        }
    }
}

/// What a reconstruction came to.
#[derive(Debug, Clone, Copy)]
pub struct SfmStats {
    pub input_images: usize,
    pub registered_images: usize,
    pub sparse_points: usize,
    pub elapsed: Elapsed,
}

/// A finished reconstruction: a dataset directory with `images/` and
/// `sparse/0/`, and the latter.
#[derive(Debug)]
pub struct SfmOutput {
    pub dataset_dir: String,
    pub sparse_dir: String,
    pub stats: SfmStats,
}

/// Is the word an option whose last part is `leaf`?
pub open spec fn is_flag(word: Seq<char>, leaf: Seq<char>) -> bool {
    "--"@.is_prefix_of(word) && ("."@ + leaf).is_suffix_of(word)
}

/// The first word that is an option whose last part is `leaf`.
pub open spec fn flag_among(words: Seq<Seq<char>>, leaf: Seq<char>) -> Option<Seq<char>>
    decreases words.len(),
{
    if words.len() == 0 {
        None
    } else if is_flag(words[0], leaf) {
        Some(words[0])
    } else {
        flag_among(words.skip(1), leaf)
    }
}

/// The spelling that this COLMAP has for an option: what its help text shows,
/// or `fallback` where it shows none.
pub open spec fn flag_spelling(help: Seq<char>, leaf: Seq<char>, fallback: Seq<char>) -> Seq<char> {
    match flag_among(text::words(help), leaf) {
        Some(flag) => flag,
        None => fallback,
    }
}

/// The spelling that this COLMAP has for the option whose last part is `leaf`.
pub fn flag_for(help: &str, leaf: &str, fallback: &str) -> (flag: String)
    ensures
        flag@ == flag_spelling(help@, leaf@, fallback@),
{
    let words = split_words(help);
    let mut ending = ".".to_owned();
    ending.append(leaf);
    let ghost all = text::views(words@);
    assert(all.skip(0) =~= all);
    for i in 0..words.len()
        invariant
            all == text::views(words@),
            all == text::words(help@),
            ending@ == "."@ + leaf@,
            flag_among(all, leaf@) == flag_among(all.skip(i as int), leaf@),
    {
        assert(all.skip(i as int)[0] == words@[i as int]@);
        assert(all.skip(i as int).skip(1) =~= all.skip(i as int + 1));
        let word = words[i].as_str();
        if has_prefix(word, "--") && has_suffix(word, ending.as_str()) {
            return words[i].clone();
        }
    }
    fallback.to_owned()
}

/// Where a help text shows the option, its spelling there is used, whatever
/// the fallback.
pub proof fn shown_flag_is_used(help: Seq<char>, leaf: Seq<char>, a: Seq<char>, b: Seq<char>, i: int)
    requires
        0 <= i < text::words(help).len(),
        is_flag(text::words(help)[i], leaf),
    ensures
        flag_spelling(help, leaf, a) == flag_spelling(help, leaf, b),
        is_flag(flag_spelling(help, leaf, a), leaf),
{
    flag_is_found(text::words(help), leaf, i);
}

proof fn flag_is_found(words: Seq<Seq<char>>, leaf: Seq<char>, i: int)
    requires
        0 <= i < words.len(),
        is_flag(words[i], leaf),
    ensures
        flag_among(words, leaf) matches Some(f) && is_flag(f, leaf),
    decreases words.len(),
{
    if !is_flag(words[0], leaf) {
        assert(words.skip(1)[i - 1] == words[i]);
        flag_is_found(words.skip(1), leaf, i - 1);
    }
}

/// All that a reconstruction is run on.
#[derive(Debug)]
pub struct SfmJob {
    /// The number of photos.
    pub images: usize,
    pub images_dir: String,
    pub database: String,
    pub opts: SfmOptions,
    /// Is the directory of masks there, if one is given?
    pub masks_found: bool,
    /// The help texts of the three commands whose options moved between
    /// versions.
    pub extract_help: String,
    pub exhaustive_help: String,
    pub sequential_help: String,
    pub major_version: Option<u32>,
    /// Does COLMAP offer the global mapper?
    pub has_global: bool,
}

/// Why a reconstruction failed.
#[derive(Debug)]
pub enum SfmError {
    TooFewImages { found: usize, dir: String },
    NoMasks(String),
    Extraction(String),
    Matching(String),
    NoGlobalMapper,
    Mapping(String),
    /// The result of mapping could not be read.
    Model(String),
    NothingRegistered,
}

/// What a user is told of the error.
pub open spec fn sfm_error_text(e: SfmError) -> Seq<char> {
    match e {
        SfmError::TooFewImages { found, dir } => "Need at least 3 images to reconstruct, found "@
            + text::decimal(found as nat) + " in "@ + dir@,
        SfmError::NoMasks(dir) => "--masks directory "@ + dir@ + " does not exist"@,
        SfmError::Extraction(cause) => "COLMAP feature extraction failed: "@ + cause@,
        SfmError::Matching(cause) => "COLMAP feature matching failed: "@ + cause@,
        SfmError::NoGlobalMapper => "--sfm-mapper global needs COLMAP 4.0+ (the GLOMAP global SfM pipeline was merged into COLMAP in 4.0.0; the standalone glomap project is now archived). This COLMAP build exposes no `global_mapper` command — upgrade COLMAP, or rerun with --sfm-mapper incremental."@,
        SfmError::Mapping(cause) => "COLMAP mapping failed: "@ + cause@,
        SfmError::Model(cause) => cause@,
        SfmError::NothingRegistered => "COLMAP could not register any cameras. The photos may lack overlap, texture, or coverage. Try more photos with ~70% overlap between views."@,
    }
}

impl SfmError {
    /// What a user is told of the error.
    pub fn message(&self) -> (t: String)
        ensures
            t@ == sfm_error_text(*self),
    {
        match self {
            SfmError::TooFewImages { found, dir } => {
                let mut t = "Need at least 3 images to reconstruct, found ".to_owned();
                t.append(decimal_text(*found as u64).as_str());
                t.append(" in ");
                t.append(dir.as_str());
                t
            },
            SfmError::NoMasks(dir) => {
                let mut t = "--masks directory ".to_owned();
                t.append(dir.as_str());
                t.append(" does not exist");
                t
            },
            SfmError::Extraction(cause) => {
                let mut t = "COLMAP feature extraction failed: ".to_owned();
                t.append(cause.as_str());
                t
            },
            SfmError::Matching(cause) => {
                let mut t = "COLMAP feature matching failed: ".to_owned();
                t.append(cause.as_str());
                t
            },
            SfmError::NoGlobalMapper => "--sfm-mapper global needs COLMAP 4.0+ (the GLOMAP global SfM pipeline was merged into COLMAP in 4.0.0; the standalone glomap project is now archived). This COLMAP build exposes no `global_mapper` command — upgrade COLMAP, or rerun with --sfm-mapper incremental.".to_owned(),
            SfmError::Mapping(cause) => {
                let mut t = "COLMAP mapping failed: ".to_owned();
                t.append(cause.as_str());
                t
            },
            SfmError::Model(cause) => cause.clone(),
            SfmError::NothingRegistered => "COLMAP could not register any cameras. The photos may lack overlap, texture, or coverage. Try more photos with ~70% overlap between views.".to_owned(),
        }
    }
}

/// What is to be done next.
#[derive(Debug, Clone, Copy, PartialEq, Eq, Structural)]
pub enum SfmStep {
    /// Features are extracted, on the GPU or not.
    Extract { gpu: bool },
    /// Images are matched, every pair or in sequence.
    Match { exhaustive: bool, gpu: bool },
    /// Camera poses are reconstructed from the matches.
    Reconstruct { exhaustive: bool },
    /// The dataset is put together from the best model.
    Assemble,
}

/// A model that mapping came to: its directory, how many photos it registers,
/// and how many points it has.
#[derive(Debug)]
pub struct SparseChoice {
    pub dir: String,
    pub registered: usize,
    pub points: usize,
}

/// Where a reconstruction stands: its step, whether matching and mapping are
/// done for the first or the second time, and the models of the times before.
#[derive(Debug)]
pub struct SfmRun {
    pub step: SfmStep,
    pub attempt: u32,
    pub models: Vec<SparseChoice>,
}

/// How a step came out.
#[derive(Debug)]
pub enum SfmOutcome {
    /// The command succeeded.
    Done,
    /// The command failed, with this message.
    Failed(String),
    /// Mapping succeeded; the model of its that registers the most photos.
    Mapped(SparseChoice),
    /// Mapping succeeded but left no model that can be read.
    Unreadable(String),
}

/// The first model that registers the most photos.
pub open spec fn best_index(models: Seq<SparseChoice>) -> int
    decreases models.len(),
{
    if models.len() <= 1 {
        0
    } else {
        let b = best_index(models.drop_last());
        if models.last().registered > models[b].registered {
            models.len() - 1
        } else {
            b
        }
    }
}

/// Is every pair of photos matched the first time?
pub open spec fn exhaustive_at_first(job: SfmJob) -> bool {
    match job.opts.capture {
        CaptureMode::Unordered => true,
        CaptureMode::Sequential => false,
        CaptureMode::Auto => job.images <= job.opts.exhaustive_limit,
    }
}

/// Are matching and mapping done once more, every pair this time: after a first
/// time in sequence, not asked for by the user, that left more than half the
/// photos out?
pub open spec fn escalates(job: SfmJob, run: SfmRun, model: SparseChoice) -> bool {
    &&& run.attempt == 1
    &&& run.step == (SfmStep::Reconstruct { exhaustive: false })
    &&& job.opts.capture == CaptureMode::Auto
    &&& 2 * model.registered < job.images
}

impl SfmRun {
    /// What holds of a run of `job` at every step.
    pub open spec fn well_formed(self, job: SfmJob) -> bool {
        &&& job.images >= 3
        &&& self.attempt == 1 || self.attempt == 2
        &&& match self.step {
            SfmStep::Extract { gpu } => self.attempt == 1 && self.models@.len() == 0 && (gpu
                ==> !job.opts.cpu_only),
            SfmStep::Match { exhaustive, gpu } => self.models@.len() == self.attempt - 1 && (gpu
                ==> !job.opts.cpu_only) && exhaustive == (self.attempt == 2 || exhaustive_at_first(
                job,
            )),
            SfmStep::Reconstruct { exhaustive } => self.models@.len() == self.attempt - 1 && exhaustive == (
            self.attempt == 2 || exhaustive_at_first(job)),
            SfmStep::Assemble => self.models@.len() == self.attempt
                && self.models@[best_index(self.models@)].registered > 0,
        }
        &&& self.attempt == 2 ==> {
            &&& job.opts.capture == CaptureMode::Auto
            &&& !exhaustive_at_first(job)
            &&& self.models@.len() >= 1
            &&& 2 * self.models@[0].registered < job.images
        }
    }
}

/// Can the step come out like this?
pub open spec fn fits(step: SfmStep, outcome: SfmOutcome) -> bool {
    match step {
        SfmStep::Extract { .. } | SfmStep::Match { .. } => outcome is Done || outcome is Failed,
        SfmStep::Reconstruct { .. } => !(outcome is Done),
        SfmStep::Assemble => false,
    }
}

/// The step that follows, and whether the first time is over.
pub open spec fn next_step(job: SfmJob, run: SfmRun, outcome: SfmOutcome) -> Result<
    (SfmStep, u32),
    SfmError,
> {
    match (run.step, outcome) {
        (SfmStep::Extract { gpu }, SfmOutcome::Failed(cause)) => if gpu {
            Ok((SfmStep::Extract { gpu: false }, run.attempt))
        } else {
            Err(SfmError::Extraction(cause))
        },
        (SfmStep::Extract { .. }, _) => Ok(
            (
                SfmStep::Match {
                    exhaustive: exhaustive_at_first(job),
                    gpu: !job.opts.cpu_only,
                },
                run.attempt,
            ),
        ),
        (SfmStep::Match { exhaustive, gpu }, SfmOutcome::Failed(cause)) => if gpu {
            Ok((SfmStep::Match { exhaustive, gpu: false }, run.attempt))
        } else {
            Err(SfmError::Matching(cause))
        },
        (SfmStep::Match { exhaustive, .. }, _) => Ok((SfmStep::Reconstruct { exhaustive }, run.attempt)),
        (SfmStep::Reconstruct { .. }, SfmOutcome::Mapped(model)) => {
            let models = run.models@.push(model);
            if escalates(job, run, model) {
                Ok((SfmStep::Match { exhaustive: true, gpu: !job.opts.cpu_only }, 2))
            } else if models[best_index(models)].registered == 0 {
                Err(SfmError::NothingRegistered)
            } else {
                Ok((SfmStep::Assemble, run.attempt))
            }
        },
        (SfmStep::Reconstruct { .. }, SfmOutcome::Unreadable(cause)) => Err(SfmError::Model(cause)),
        (SfmStep::Reconstruct { .. }, SfmOutcome::Failed(cause)) => Err(SfmError::Mapping(cause)),
        _ => Ok((run.step, run.attempt)),
    }
}

/// The models after the step.
pub open spec fn next_models(run: SfmRun, outcome: SfmOutcome) -> Seq<SparseChoice> {
    match (run.step, outcome) {
        (SfmStep::Reconstruct { .. }, SfmOutcome::Mapped(model)) => run.models@.push(model),
        _ => run.models@,
    }
}

/// The name of the matching stage.
pub open spec fn matching_name(exhaustive: bool) -> Seq<char> {
    if exhaustive {
        "Matching images (exhaustive)"@
    } else {
        "Matching images (sequential)"@
    }
}

/// What is told to the user as the run moves on.
pub open spec fn next_events(job: SfmJob, run: SfmRun, outcome: SfmOutcome) -> Seq<EventModel> {
    match (run.step, outcome) {
        (SfmStep::Extract { .. }, SfmOutcome::Done) => seq![
            EventModel::Stage(matching_name(exhaustive_at_first(job)), 2, 3),
        ],
        (SfmStep::Match { .. }, SfmOutcome::Done) => seq![
            EventModel::Stage("Reconstructing camera poses"@, 3, 3),
        ],
        (SfmStep::Reconstruct { .. }, SfmOutcome::Mapped(model)) => if escalates(job, run, model) {
            seq![
                EventModel::Status(
                    "Sequential matching underperformed — retrying exhaustively"@,
                ),
                EventModel::Stage(matching_name(true), 2, 3),
            ]
        } else {
            seq![EventModel::Status("Assembling dataset"@)]
        },
        _ => Seq::empty(),
    }
}

/// Begins a reconstruction. It takes three photos.
pub fn start_sfm(job: &SfmJob) -> (r: Result<(SfmRun, SfmEvent), SfmError>)
    ensures
        match r {
            Ok((run, event)) => {
                &&& job.images >= 3
                &&& run.step == (SfmStep::Extract { gpu: !job.opts.cpu_only })
                &&& run.attempt == 1
                &&& run.models@.len() == 0
                &&& run.well_formed(*job)
                &&& event@ == EventModel::Stage("Extracting features"@, 1, 3)
            },
            Err(e) => {
                &&& job.images < 3
                &&& e matches SfmError::TooFewImages { found, dir }
                &&& found == job.images
                &&& dir@ == job.images_dir@
            },
        },
{
    if job.images < 3 {
        return Err(SfmError::TooFewImages { found: job.images, dir: job.images_dir.clone() });
    }
    let run = SfmRun {
        step: SfmStep::Extract { gpu: !job.opts.cpu_only },
        attempt: 1,
        models: Vec::new(),
    };
    let event = SfmEvent::StageStarted {
        name: "Extracting features".to_owned(),
        index: 1,
        total: 3,
    };
    Ok((run, event))
}

fn stage(name: &str, index: usize) -> (e: SfmEvent)
    ensures
        e@ == EventModel::Stage(name@, index as int, 3),
{
    SfmEvent::StageStarted { name: name.to_owned(), index, total: 3 }
}

fn matching_stage(exhaustive: bool) -> (e: SfmEvent)
    ensures
        e@ == EventModel::Stage(matching_name(exhaustive), 2, 3),
{
    if exhaustive {
        stage("Matching images (exhaustive)", 2)
    } else {
        stage("Matching images (sequential)", 2)
    }
}

fn matches_all_pairs_at_first(job: &SfmJob) -> (b: bool)
    ensures
        b == exhaustive_at_first(*job),
{
    match job.opts.capture {
        CaptureMode::Unordered => true,
        CaptureMode::Sequential => false,
        CaptureMode::Auto => job.images <= job.opts.exhaustive_limit,
    }
}

/// The number of the first model that registers the most photos.
pub fn best_model(models: &Vec<SparseChoice>) -> (best: usize)
    requires
        models@.len() > 0,
    ensures
        best == best_index(models@),
        best < models@.len(),
{
    let mut best: usize = 0;
    assert(models@.take(1).len() == 1);
    for i in 1..models.len()
        invariant
            1 <= i <= models@.len(),
            best < i,
            best == best_index(models@.take(i as int)),
    {
        let ghost upto = models@.take(i as int + 1);
        assert(upto.drop_last() =~= models@.take(i as int));
        assert(upto[best as int] == models@[best as int]);
        if models[i].registered > models[best].registered {
            best = i;
        }
    }
    assert(models@.take(models@.len() as int) =~= models@);
    best
}

/// Moves a reconstruction on, by how its step came out.
pub fn advance_sfm(job: &SfmJob, run: SfmRun, outcome: SfmOutcome) -> (r: Result<
    (SfmRun, Vec<SfmEvent>),
    SfmError,
>)
    requires
        run.well_formed(*job),
        fits(run.step, outcome),
    ensures
        match r {
            Ok((next, events)) => {
                &&& next_step(*job, run, outcome) == Ok::<(SfmStep, u32), SfmError>(
                    (next.step, next.attempt),
                )
                &&& next.models@ == next_models(run, outcome)
                &&& progress::event_views(events@) == next_events(*job, run, outcome)
                &&& next.well_formed(*job)
            },
            Err(e) => next_step(*job, run, outcome) == Err::<(SfmStep, u32), SfmError>(e),
        },
{
    let mut events: Vec<SfmEvent> = Vec::new();
    let gpu = !job.opts.cpu_only;
    let SfmRun { step, attempt, models } = run;
    let mut models = models;
    match (step, outcome) {
        (SfmStep::Extract { gpu: on_gpu }, SfmOutcome::Failed(cause)) => {
            if !on_gpu {
                return Err(SfmError::Extraction(cause));
            }
            assert(progress::event_views(events@) =~= Seq::<EventModel>::empty());
            Ok((SfmRun { step: SfmStep::Extract { gpu: false }, attempt, models }, events))
        },
        (SfmStep::Extract { .. }, _) => {
            let exhaustive = matches_all_pairs_at_first(job);
            events.push(matching_stage(exhaustive));
            assert(progress::event_views(events@) =~= next_events(*job, run, outcome));
            Ok((SfmRun { step: SfmStep::Match { exhaustive, gpu }, attempt, models }, events))
        },
        (SfmStep::Match { exhaustive, gpu: on_gpu }, SfmOutcome::Failed(cause)) => {
            if !on_gpu {
                return Err(SfmError::Matching(cause));
            }
            assert(progress::event_views(events@) =~= Seq::<EventModel>::empty());
            Ok(
                (
                    SfmRun { step: SfmStep::Match { exhaustive, gpu: false }, attempt, models },
                    events,
                ),
            )
        },
        (SfmStep::Match { exhaustive, .. }, _) => {
            events.push(stage("Reconstructing camera poses", 3));
            assert(progress::event_views(events@) =~= next_events(*job, run, outcome));
            Ok((SfmRun { step: SfmStep::Reconstruct { exhaustive }, attempt, models }, events))
        },
        (SfmStep::Reconstruct { exhaustive }, SfmOutcome::Mapped(model)) => {
            let registered: usize = model.registered;
            let again = attempt == 1 && !exhaustive && job.opts.capture == CaptureMode::Auto
                && registered < job.images - job.images / 2;
            assert(again == escalates(*job, run, model));
            models.push(model);
            if again {
                events.push(
                    SfmEvent::Status(
                        "Sequential matching underperformed — retrying exhaustively".to_owned(),
                    ),
                );
                events.push(matching_stage(true));
                assert(progress::event_views(events@) =~= next_events(*job, run, outcome));
                let next = SfmRun {
                    step: SfmStep::Match { exhaustive: true, gpu },
                    attempt: 2,
                    models,
                };
                return Ok((next, events));
            }
            let best: usize = best_model(&models);
            if models[best].registered == 0 {
                return Err(SfmError::NothingRegistered);
            }
            events.push(SfmEvent::Status("Assembling dataset".to_owned()));
            assert(progress::event_views(events@) =~= next_events(*job, run, outcome));
            Ok((SfmRun { step: SfmStep::Assemble, attempt, models }, events))
        },
        (SfmStep::Reconstruct { .. }, SfmOutcome::Unreadable(cause)) => Err(SfmError::Model(cause)),
        (SfmStep::Reconstruct { .. }, SfmOutcome::Failed(cause)) => Err(SfmError::Mapping(cause)),
        _ => {
            // No other outcome fits the step.
            assert(false);
            Ok((SfmRun { step, attempt, models }, events))
        },
    }
}

/// The spelling of a switch.
pub open spec fn switch(on: bool) -> Seq<char> {
    if on {
        "1"@
    } else {
        "0"@
    }
}

/// The option that limits the size of images: as the help text shows it, or by
/// the version where it shows none.
pub open spec fn max_size_flag(job: SfmJob) -> Seq<char> {
    flag_spelling(
        job.extract_help@,
        "max_image_size"@,
        if job.major_version matches Some(v) && v >= 4 {
            "--FeatureExtraction.max_image_size"@
        } else {
            "--SiftExtraction.max_image_size"@
        },
    )
}

/// The command that extracts features.
pub open spec fn extract_args(job: SfmJob, gpu: bool) -> Seq<Seq<char>> {
    seq![
        "feature_extractor"@,
        "--database_path"@,
        job.database@,
        "--image_path"@,
        job.images_dir@,
        "--ImageReader.camera_model"@,
        "SIMPLE_RADIAL"@,
        "--ImageReader.single_camera"@,
        switch(job.opts.single_camera),
        max_size_flag(job),
        text::decimal(job.opts.max_image_size as nat),
    ] + (match job.opts.mask_dir {
        Some(dir) => seq!["--ImageReader.mask_path"@, dir@],
        None => Seq::empty(),
    }) + seq![
        flag_spelling(job.extract_help@, "use_gpu"@, "--SiftExtraction.use_gpu"@),
        switch(gpu),
    ]
}

/// The command that matches images.
pub open spec fn match_args(job: SfmJob, exhaustive: bool, gpu: bool) -> Seq<Seq<char>> {
    if exhaustive {
        seq![
            "exhaustive_matcher"@,
            "--database_path"@,
            job.database@,
            flag_spelling(job.exhaustive_help@, "use_gpu"@, "--SiftMatching.use_gpu"@),
            switch(gpu),
        ]
    } else {
        seq![
            "sequential_matcher"@,
            "--database_path"@,
            job.database@,
            flag_spelling(job.sequential_help@, "overlap"@, "--SequentialMatching.overlap"@),
            "15"@,
            flag_spelling(job.sequential_help@, "use_gpu"@, "--SiftMatching.use_gpu"@),
            switch(gpu),
        ]
    }
}

/// The command that reconstructs camera poses into a directory.
pub open spec fn map_args(job: SfmJob, mapper: Seq<char>, dir: Seq<char>) -> Seq<Seq<char>> {
    seq![
        mapper,
        "--database_path"@,
        job.database@,
        "--image_path"@,
        job.images_dir@,
        "--output_path"@,
        dir,
    ]
}

fn switch_text(on: bool) -> (t: String)
    ensures
        t@ == switch(on),
{
    if on {
        "1".to_owned()
    } else {
        "0".to_owned()
    }
}

fn extract_command(job: &SfmJob, gpu: bool) -> (args: Vec<String>)
    ensures
        text::views(args@) == extract_args(*job, gpu),
{
    let mut args: Vec<String> = Vec::new();
    args.push("feature_extractor".to_owned());
    args.push("--database_path".to_owned());
    args.push(job.database.clone());
    args.push("--image_path".to_owned());
    args.push(job.images_dir.clone());
    args.push("--ImageReader.camera_model".to_owned());
    args.push("SIMPLE_RADIAL".to_owned());
    args.push("--ImageReader.single_camera".to_owned());
    args.push(switch_text(job.opts.single_camera));
    let newer = match job.major_version {
        Some(v) => v >= 4,
        None => false,
    };
    let fallback = if newer {
        "--FeatureExtraction.max_image_size"
    } else {
        "--SiftExtraction.max_image_size"
    };
    args.push(flag_for(job.extract_help.as_str(), "max_image_size", fallback));
    args.push(decimal_text(job.opts.max_image_size as u64));
    match &job.opts.mask_dir {
        Some(dir) => {
            args.push("--ImageReader.mask_path".to_owned());
            args.push(dir.clone());
        },
        None => {},
    }
    args.push(flag_for(job.extract_help.as_str(), "use_gpu", "--SiftExtraction.use_gpu"));
    args.push(switch_text(gpu));
    assert(text::views(args@) =~= extract_args(*job, gpu));
    args
}

fn match_command(job: &SfmJob, exhaustive: bool, gpu: bool) -> (args: Vec<String>)
    ensures
        text::views(args@) == match_args(*job, exhaustive, gpu),
{
    let mut args: Vec<String> = Vec::new();
    if exhaustive {
        args.push("exhaustive_matcher".to_owned());
        args.push("--database_path".to_owned());
        args.push(job.database.clone());
        args.push(flag_for(job.exhaustive_help.as_str(), "use_gpu", "--SiftMatching.use_gpu"));
    } else {
        args.push("sequential_matcher".to_owned());
        args.push("--database_path".to_owned());
        args.push(job.database.clone());
        args.push(
            flag_for(job.sequential_help.as_str(), "overlap", "--SequentialMatching.overlap"),
        );
        args.push("15".to_owned());
        args.push(flag_for(job.sequential_help.as_str(), "use_gpu", "--SiftMatching.use_gpu"));
    }
    args.push(switch_text(gpu));
    assert(text::views(args@) =~= match_args(*job, exhaustive, gpu));
    args
}

/// The arguments with which COLMAP is run next. `dir` is where models go.
pub fn sfm_command(job: &SfmJob, run: &SfmRun, dir: &str) -> (r: Result<Vec<String>, SfmError>)
    requires
        !(run.step is Assemble),
    ensures
        match run.step {
            SfmStep::Extract { gpu } => match job.opts.mask_dir {
                Some(masks) if !job.masks_found => r matches Err(SfmError::NoMasks(d)) && d@
                    == masks@,
                _ => r matches Ok(args) && text::views(args@) == extract_args(*job, gpu),
            },
            SfmStep::Match { exhaustive, gpu } => r matches Ok(args) && text::views(args@)
                == match_args(*job, exhaustive, gpu),
            _ => match mapper_command(job.opts.mapper, job.has_global) {
                Some(mapper) => r matches Ok(args) && text::views(args@) == map_args(
                    *job,
                    mapper,
                    dir@,
                ),
                None => r matches Err(SfmError::NoGlobalMapper),
            },
        },
{
    match run.step {
        SfmStep::Extract { gpu } => {
            match &job.opts.mask_dir {
                Some(masks) => {
                    if !job.masks_found {
                        return Err(SfmError::NoMasks(masks.clone()));
                    }
                },
                None => {},
            }
            Ok(extract_command(job, gpu))
        },
        SfmStep::Match { exhaustive, gpu } => Ok(match_command(job, exhaustive, gpu)),
        _ => {
            let mapper = match job.opts.mapper {
                MapperKind::Incremental => "mapper",
                MapperKind::Auto => if job.has_global {
                    "global_mapper"
                } else {
                    "mapper"
                },
                MapperKind::Global => {
                    if !job.has_global {
                        return Err(SfmError::NoGlobalMapper);
                    }
                    "global_mapper"
                },
            };
            let mut args: Vec<String> = Vec::new();
            args.push(mapper.to_owned());
            args.push("--database_path".to_owned());
            args.push(job.database.clone());
            args.push("--image_path".to_owned());
            args.push(job.images_dir.clone());
            args.push("--output_path".to_owned());
            args.push(dir.to_owned());
            assert(text::views(args@) =~= map_args(*job, mapper@, dir@));
            Ok(args)
        },
    }
}

/// The name of the directory that this time's models go to.
pub fn attempt_name(run: &SfmRun) -> (name: String)
    ensures
        name@ == "run"@ + text::decimal(run.attempt as nat),
{
    let mut name = "run".to_owned();
    name.append(decimal_text(run.attempt as u64).as_str());
    name
}

/// What a finished run amounts to, once the dataset is in its directories.
pub fn finish_sfm(
    job: &SfmJob,
    run: &SfmRun,
    dataset_dir: String,
    sparse_dir: String,
    elapsed: Elapsed,
) -> (out: SfmOutput)
    requires
        run.well_formed(*job),
        run.step is Assemble,
    ensures
        out.dataset_dir@ == dataset_dir@,
        out.sparse_dir@ == sparse_dir@,
        out.stats.input_images == job.images,
        out.stats.registered_images == run.models@[best_index(run.models@)].registered,
        out.stats.registered_images > 0,
        out.stats.sparse_points == run.models@[best_index(run.models@)].points,
        out.stats.elapsed == elapsed,
{
    let best: usize = best_model(&run.models);
    SfmOutput {
        dataset_dir,
        sparse_dir,
        stats: SfmStats {
            input_images: job.images,
            registered_images: run.models[best].registered,
            sparse_points: run.models[best].points,
            elapsed,
        },
    }
}

/// The last model among those that register the most photos.
pub open spec fn fullest_index(candidates: Seq<(usize, String)>) -> int
    decreases candidates.len(),
{
    if candidates.len() <= 1 {
        0
    } else {
        let b = fullest_index(candidates.drop_last());
        if candidates.last().0 >= candidates[b].0 {
            candidates.len() - 1
        } else {
            b
        }
    }
}

/// The model to take of those that mapping left, given how many photos each
/// registers and its directory: the one that registers the most, the last of
/// equal ones. It is an error that names `dir` if there is none.
pub fn pick_best_model(candidates: &Vec<(usize, String)>, dir: &str) -> (r: Result<usize, String>)
    ensures
        match r {
            Ok(i) => {
                &&& i < candidates@.len()
                &&& i == fullest_index(candidates@)
                &&& forall|k: int|
                    0 <= k < candidates@.len() ==> (#[trigger] candidates@[k]).0
                        <= candidates@[i as int].0
            },
            Err(e) => candidates@.len() == 0 && e@ == "COLMAP produced no reconstruction in "@
                + dir@ + ". The photos may not have enough overlap or texture."@,
        },
{
    if candidates.len() == 0 {
        let mut e = "COLMAP produced no reconstruction in ".to_owned();
        e.append(dir);
        e.append(". The photos may not have enough overlap or texture.");
        return Err(e);
    }
    let mut best: usize = 0;
    for i in 1..candidates.len()
        invariant
            1 <= i <= candidates@.len(),
            best < i,
            best == fullest_index(candidates@.take(i as int)),
    {
        let ghost upto = candidates@.take(i as int + 1);
        assert(upto.drop_last() =~= candidates@.take(i as int));
        assert(upto[best as int] == candidates@[best as int]);
        if candidates[i].0 >= candidates[best].0 {
            best = i;
        }
    }
    assert(candidates@.take(candidates@.len() as int) =~= candidates@);
    proof {
        picked_model_is_fullest(candidates@);
    }
    Ok(best)
}

/// How many lines of a failed program's error output are kept.
pub const TAIL_LINES: usize = 20;

/// The last lines of all.
pub open spec fn tail_of<T>(all: Seq<T>) -> Seq<T> {
    if all.len() <= TAIL_LINES {
        all
    } else {
        all.skip(all.len() - TAIL_LINES)
    }
}

/// Adds a line to the last lines that are kept.
pub fn keep_tail(tail: Vec<String>, line: String) -> (out: Vec<String>)
    requires
        tail@.len() <= TAIL_LINES,
    ensures
        out@ == tail_of(tail@.push(line)),
        out@.len() <= TAIL_LINES,
{
    let mut out = tail;
    let ghost all = tail@.push(line);
    out.push(line);
    if out.len() > TAIL_LINES {
        out.remove(0);
        assert(out@ =~= all.skip(1));
    }
    out
}

/// What is told of a COLMAP command that failed: its name, how it ended, and
/// the last lines of its error output.
pub fn command_failure(args: &Vec<String>, status: &str, tail: &Vec<String>) -> (t: String)
    ensures
        t@ == "colmap "@ + (if args@.len() > 0 {
            args@[0]@
        } else {
            ""@
        }) + " exited with "@ + status@ + ":\n"@ + text::joined(text::views(tail@), "\n"@),
{
    let mut t = "colmap ".to_owned();
    if args.len() > 0 {
        t.append(args[0].as_str());
    } else {
        t.append("");
    }
    t.append(" exited with ");
    t.append(status);
    t.append(":\n");
    t.append(text::join(tail, "\n").as_str());
    t
}

// ---- what holds of every run ----

/// How many steps a run can still take.
pub open spec fn steps_left(run: SfmRun) -> int {
    match run.step {
        SfmStep::Extract { gpu } => if gpu {
            9
        } else {
            8
        },
        SfmStep::Match { gpu, .. } => (if run.attempt == 1 {
            6int
        } else {
            3
        }) + if gpu {
            1int
        } else {
            0
        },
        SfmStep::Reconstruct { .. } => if run.attempt == 1 {
            5
        } else {
            2
        },
        SfmStep::Assemble => 1,
    }
}

/// Every step brings a run nearer to its end, so that it takes nine at most,
/// and each step keeps what holds of a run.
pub proof fn runs_end(job: SfmJob, run: SfmRun, outcome: SfmOutcome, next: SfmRun)
    requires
        run.well_formed(job),
        fits(run.step, outcome),
        next_step(job, run, outcome) == Ok::<(SfmStep, u32), SfmError>((next.step, next.attempt)),
        next.models@ == next_models(run, outcome),
    ensures
        next.well_formed(job),
        0 < steps_left(next) < steps_left(run) <= 9,
{
}

/// Features are extracted before anything else and never again.
pub proof fn extraction_is_not_repeated(
    job: SfmJob,
    run: SfmRun,
    outcome: SfmOutcome,
    next: SfmRun,
)
    requires
        run.well_formed(job),
        fits(run.step, outcome),
        !(run.step is Extract),
        next_step(job, run, outcome) == Ok::<(SfmStep, u32), SfmError>((next.step, next.attempt)),
    ensures
        !(next.step is Extract),
{
}

/// No model registers more photos than the one that is taken, and those before
/// it register fewer.
pub proof fn best_model_is_largest(models: Seq<SparseChoice>)
    requires
        models.len() > 0,
    ensures
        0 <= best_index(models) < models.len(),
        forall|k: int|
            0 <= k < models.len() ==> (#[trigger] models[k]).registered
                <= models[best_index(models)].registered,
        forall|k: int|
            0 <= k < best_index(models) ==> (#[trigger] models[k]).registered
                < models[best_index(models)].registered,
    decreases models.len(),
{
    if models.len() > 1 {
        let before = models.drop_last();
        best_model_is_largest(before);
        assert forall|k: int| 0 <= k < models.len() implies (#[trigger] models[k]).registered
            <= models[best_index(models)].registered by {
            if k < before.len() {
                assert(before[k] == models[k]);
            }
        }
        assert forall|k: int| 0 <= k < best_index(models) implies (#[trigger] models[k]).registered
            < models[best_index(models)].registered by {
            assert(before[k] == models[k]);
        }
    }
}

/// Of the models that mapping leaves, none registers more photos than the one
/// that is taken, and those behind it register fewer.
pub proof fn picked_model_is_fullest(candidates: Seq<(usize, String)>)
    requires
        candidates.len() > 0,
    ensures
        0 <= fullest_index(candidates) < candidates.len(),
        forall|k: int|
            0 <= k < candidates.len() ==> (#[trigger] candidates[k]).0
                <= candidates[fullest_index(candidates)].0,
        forall|k: int|
            fullest_index(candidates) < k < candidates.len() ==> (#[trigger] candidates[k]).0
                < candidates[fullest_index(candidates)].0,
    decreases candidates.len(),
{
    if candidates.len() > 1 {
        let before = candidates.drop_last();
        picked_model_is_fullest(before);
        assert forall|k: int| 0 <= k < candidates.len() implies (#[trigger] candidates[k]).0
            <= candidates[fullest_index(candidates)].0 by {
            if k < before.len() {
                assert(before[k] == candidates[k]);
            }
        }
        assert forall|k: int| fullest_index(candidates) < k < candidates.len() implies (
        #[trigger] candidates[k]).0 < candidates[fullest_index(candidates)].0 by {
            if k < before.len() {
                assert(before[k] == candidates[k]);
            }
        }
    }
}

/// A GPU command that fails is run once more in the same words but for the
/// switch, which is then off.
pub proof fn gpu_failure_falls_back(job: SfmJob, run: SfmRun, cause: String)
    requires
        run.well_formed(job),
        run.step matches SfmStep::Extract { gpu: true } || run.step matches SfmStep::Match {
            gpu: true,
            ..
        },
    ensures
        match run.step {
            SfmStep::Extract { .. } => {
                &&& next_step(job, run, SfmOutcome::Failed(cause)) == Ok::<(SfmStep, u32), SfmError>(
                    (SfmStep::Extract { gpu: false }, run.attempt),
                )
                &&& extract_args(job, false).drop_last() == extract_args(job, true).drop_last()
                &&& extract_args(job, false).last() == "0"@
            },
            SfmStep::Match { exhaustive, .. } => {
                &&& next_step(job, run, SfmOutcome::Failed(cause)) == Ok::<(SfmStep, u32), SfmError>(
                    (SfmStep::Match { exhaustive, gpu: false }, run.attempt),
                )
                &&& match_args(job, exhaustive, false).drop_last() == match_args(
                    job,
                    exhaustive,
                    true,
                ).drop_last()
                &&& match_args(job, exhaustive, false).last() == "0"@
            },
            _ => false,
        },
{
    match run.step {
        SfmStep::Match { exhaustive, .. } => {
            assert(match_args(job, exhaustive, false).drop_last() =~= match_args(
                job,
                exhaustive,
                true,
            ).drop_last());
        },
        _ => {
            assert(extract_args(job, false).drop_last() =~= extract_args(job, true).drop_last());
        },
    }
}

/// Where the user asks for the CPU, no command is run on the GPU.
pub proof fn cpu_only_is_kept(job: SfmJob, run: SfmRun)
    requires
        run.well_formed(job),
        job.opts.cpu_only,
    ensures
        match run.step {
            SfmStep::Extract { gpu } => !gpu && extract_args(job, gpu).last() == "0"@,
            SfmStep::Match { exhaustive, gpu } => !gpu && match_args(job, exhaustive, gpu).last()
                == "0"@,
            _ => true,
        },
{
}

/// What is kept line by line is the last lines of all that came.
pub proof fn tail_is_last_lines<T>(all: Seq<T>, line: T)
    ensures
        tail_of(tail_of(all).push(line)) == tail_of(all.push(line)),
{
    assert(tail_of(tail_of(all).push(line)) =~= tail_of(all.push(line)));
}

} // verus!
