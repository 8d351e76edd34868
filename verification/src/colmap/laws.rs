//! What holds of COLMAP's commands, of the course of a run and of what the
//! program prints, in words that a user of COLMAP would use.

use super::fetch::{self, ColmapBuild};
use super::locate::{self, ColmapBinary, DirTree, Places};
use super::pipeline::{
    self, CaptureMode, MapperKind, SfmError, SfmJob, SfmOutcome, SfmRun, SfmStep, SparseChoice,
};
use super::progress::{self, EventModel, SfmEvent};
use super::sparse;
use crate::text;
use crate::text_laws;
use vstd::prelude::*;

verus! {

/// Does the value stand behind the option?
pub open spec fn passed(args: Seq<Seq<char>>, option: Seq<char>, value: Seq<char>) -> bool {
    exists|i: int| 0 <= i < args.len() - 1 && #[trigger] args[i] == option && args[i + 1] == value
}

/// The word for a switch that is on or off.
pub open spec fn on_off(on: bool) -> Seq<char> {
    if on {
        "1"@
    } else {
        "0"@
    }
}

/// Is the word an option such as "--Group.leaf"?
pub open spec fn spells(word: Seq<char>, leaf: Seq<char>) -> bool {
    &&& word.len() >= 2 && word[0] == '-' && word[1] == '-'
    &&& word.len() > leaf.len()
    &&& word[word.len() - leaf.len() - 1] == '.'
    &&& word.skip(word.len() - leaf.len()) == leaf
}

proof fn flags_are_spelled(word: Seq<char>, leaf: Seq<char>)
    ensures
        pipeline::is_flag(word, leaf) == spells(word, leaf),
{
    reveal_strlit("--");
    reveal_strlit(".");
    let end = "."@ + leaf;
    if spells(word, leaf) {
        assert("--"@ =~= word.subrange(0, 2));
        let tail = word.subrange(word.len() - end.len(), word.len() as int);
        assert forall|k: int| 0 <= k < end.len() implies end[k] == tail[k] by {
            if k > 0 {
                assert(word.skip(word.len() - leaf.len())[k - 1] == leaf[k - 1]);
            }
        }
        assert(end =~= tail);
    }
    if pipeline::is_flag(word, leaf) {
        assert(word.subrange(0, 2)[0] == "--"@[0] && word.subrange(0, 2)[1] == "--"@[1]);
        let tail = word.subrange(word.len() - end.len(), word.len() as int);
        assert(tail == end);
        assert(tail[0] == end[0]);
        assert(word.skip(word.len() - leaf.len()) =~= tail.skip(1));
        assert(end.skip(1) =~= leaf);
    }
}

/// The spelling of an option is the first word of the help text that spells it,
/// and the fallback where no word does.
pub proof fn first_spelling_is_used(
    help: Seq<char>,
    leaf: Seq<char>,
    fallback: Seq<char>,
    i: int,
)
    requires
        0 <= i <= text::words(help).len(),
        forall|k: int| 0 <= k < i ==> !spells(#[trigger] text::words(help)[k], leaf),
        i < text::words(help).len() ==> spells(text::words(help)[i], leaf),
    ensures
        pipeline::flag_spelling(help, leaf, fallback) == if i < text::words(help).len() {
            text::words(help)[i]
        } else {
            fallback
        },
{
    first_flag_is(text::words(help), leaf, i);
}

proof fn first_flag_is(words: Seq<Seq<char>>, leaf: Seq<char>, i: int)
    requires
        0 <= i <= words.len(),
        forall|k: int| 0 <= k < i ==> !spells(#[trigger] words[k], leaf),
        i < words.len() ==> spells(words[i], leaf),
    ensures
        pipeline::flag_among(words, leaf) == if i < words.len() {
            Some(words[i])
        } else {
            None
        },
    decreases i,
{
    if words.len() > 0 {
        flags_are_spelled(words[0], leaf);
        if i > 0 {
            assert(!spells(words[0], leaf));
            let rest = words.skip(1);
            assert forall|k: int| 0 <= k < i - 1 implies !spells(#[trigger] rest[k], leaf) by {
                assert(rest[k] == words[k + 1]);
            }
            first_flag_is(rest, leaf, i - 1);
        }
    }
}

proof fn is_passed(args: Seq<Seq<char>>, i: int)
    requires
        0 <= i < args.len() - 1,
    ensures
        passed(args, args[i], args[i + 1]),
{
}

/// Features are extracted into the job's database, from its images, with a
/// simple radial camera, one for all photos if the user says so, images no
/// larger than the user's limit, the user's masks and no others, and on the GPU
/// or not.
pub proof fn extraction_is_told_the_options(job: SfmJob, gpu: bool)
    ensures
        pipeline::extract_args(job, gpu)[0] == "feature_extractor"@,
        passed(pipeline::extract_args(job, gpu), "--database_path"@, job.database@),
        passed(pipeline::extract_args(job, gpu), "--image_path"@, job.images_dir@),
        passed(
            pipeline::extract_args(job, gpu),
            "--ImageReader.camera_model"@,
            "SIMPLE_RADIAL"@,
        ),
        passed(
            pipeline::extract_args(job, gpu),
            "--ImageReader.single_camera"@,
            on_off(job.opts.single_camera),
        ),
        passed(
            pipeline::extract_args(job, gpu),
            pipeline::flag_spelling(
                job.extract_help@,
                "max_image_size"@,
                if job.major_version is Some && job.major_version->0 >= 4 {
                    "--FeatureExtraction.max_image_size"@
                } else {
                    "--SiftExtraction.max_image_size"@
                },
            ),
            text::decimal(job.opts.max_image_size as nat),
        ),
        job.opts.mask_dir matches Some(d) ==> passed(
            pipeline::extract_args(job, gpu),
            "--ImageReader.mask_path"@,
            d@,
        ),
        passed(
            pipeline::extract_args(job, gpu),
            pipeline::flag_spelling(
                job.extract_help@,
                "use_gpu"@,
                "--SiftExtraction.use_gpu"@,
            ),
            on_off(gpu),
        ),
        pipeline::extract_args(job, gpu).len() == if job.opts.mask_dir is Some {
            15int
        } else {
            13
        },
{
    let args = pipeline::extract_args(job, gpu);
    is_passed(args, 1);
    is_passed(args, 3);
    is_passed(args, 5);
    is_passed(args, 7);
    is_passed(args, 9);
    is_passed(args, args.len() - 2);
    if job.opts.mask_dir is Some {
        is_passed(args, 11);
    }
}

/// Images are matched in the job's database: every pair, or each photo with the
/// fifteen that follow it; on the GPU or not.
pub proof fn matching_is_told_the_options(job: SfmJob, gpu: bool)
    ensures
        pipeline::match_args(job, true, gpu)[0] == "exhaustive_matcher"@,
        passed(pipeline::match_args(job, true, gpu), "--database_path"@, job.database@),
        passed(
            pipeline::match_args(job, true, gpu),
            pipeline::flag_spelling(job.exhaustive_help@, "use_gpu"@, "--SiftMatching.use_gpu"@),
            on_off(gpu),
        ),
        pipeline::match_args(job, true, gpu).len() == 5,
        pipeline::match_args(job, false, gpu)[0] == "sequential_matcher"@,
        passed(pipeline::match_args(job, false, gpu), "--database_path"@, job.database@),
        passed(
            pipeline::match_args(job, false, gpu),
            pipeline::flag_spelling(
                job.sequential_help@,
                "overlap"@,
                "--SequentialMatching.overlap"@,
            ),
            "15"@,
        ),
        passed(
            pipeline::match_args(job, false, gpu),
            pipeline::flag_spelling(job.sequential_help@, "use_gpu"@, "--SiftMatching.use_gpu"@),
            on_off(gpu),
        ),
        pipeline::match_args(job, false, gpu).len() == 7,
{
    let all = pipeline::match_args(job, true, gpu);
    is_passed(all, 1);
    is_passed(all, 3);
    let some = pipeline::match_args(job, false, gpu);
    is_passed(some, 1);
    is_passed(some, 3);
    is_passed(some, 5);
}

/// Poses are mapped from the job's database and images into the directory.
pub proof fn mapping_is_told_the_paths(job: SfmJob, mapper: Seq<char>, dir: Seq<char>)
    ensures
        pipeline::map_args(job, mapper, dir)[0] == mapper,
        passed(pipeline::map_args(job, mapper, dir), "--database_path"@, job.database@),
        passed(pipeline::map_args(job, mapper, dir), "--image_path"@, job.images_dir@),
        passed(pipeline::map_args(job, mapper, dir), "--output_path"@, dir),
        pipeline::map_args(job, mapper, dir).len() == 7,
{
    let args = pipeline::map_args(job, mapper, dir);
    is_passed(args, 1);
    is_passed(args, 3);
    is_passed(args, 5);
}

/// The global mapper is used where COLMAP offers it, unless the user wants the
/// incremental one; and there is no mapper only where the user insists on the
/// global one and COLMAP does not offer it.
pub proof fn global_mapper_is_used_where_offered(kind: MapperKind, offered: bool)
    ensures
        pipeline::mapper_command(kind, offered) is None <==> kind is Global && !offered,
        pipeline::mapper_command(kind, offered) matches Some(m) ==> m == if offered && !(
        kind is Incremental) {
            "global_mapper"@
        } else {
            "mapper"@
        },
{
}

/// The words for the ways of capture, in letters of any case, and no others.
pub proof fn capture_modes_are_told_by_word(s: Seq<char>)
    ensures
        pipeline::capture_named(s) == Some(CaptureMode::Auto) <==> text::lower(s) == "auto"@,
        pipeline::capture_named(s) == Some(CaptureMode::Unordered) <==> text::lower(s)
            == "unordered"@,
        pipeline::capture_named(s) == Some(CaptureMode::Sequential) <==> (text::lower(s)
            == "sequential"@ || text::lower(s) == "turntable"@ || text::lower(s) == "video"@),
{
    reveal_strlit("auto");
    reveal_strlit("unordered");
    reveal_strlit("sequential");
    reveal_strlit("turntable");
    reveal_strlit("video");
    assert("auto"@.len() == 4 && "unordered"@.len() == 9 && "sequential"@.len() == 10);
    assert("turntable"@.len() == 9 && "video"@.len() == 5);
    assert("unordered"@[0] != "turntable"@[0]);
}

/// The words for the mappers, in letters of any case, and no others.
pub proof fn mappers_are_told_by_word(s: Seq<char>)
    ensures
        pipeline::mapper_named(s) == Some(MapperKind::Auto) <==> text::lower(s) == "auto"@,
        pipeline::mapper_named(s) == Some(MapperKind::Incremental) <==> text::lower(s)
            == "incremental"@,
        pipeline::mapper_named(s) == Some(MapperKind::Global) <==> (text::lower(s) == "global"@
            || text::lower(s) == "glomap"@),
{
    reveal_strlit("auto");
    reveal_strlit("incremental");
    reveal_strlit("global");
    reveal_strlit("glomap");
    assert("auto"@.len() == 4 && "incremental"@.len() == 11 && "global"@.len() == 6);
    assert("glomap"@.len() == 6);
}

/// The words for the builds, in letters of any case, and no others.
pub proof fn builds_are_told_by_word(s: Seq<char>)
    ensures
        fetch::build_named(s) == Some(ColmapBuild::Auto) <==> text::lower(s) == "auto"@,
        fetch::build_named(s) == Some(ColmapBuild::Cuda) <==> text::lower(s) == "cuda"@,
        fetch::build_named(s) == Some(ColmapBuild::NoCuda) <==> text::lower(s) == "nocuda"@,
{
    reveal_strlit("auto");
    reveal_strlit("cuda");
    reveal_strlit("nocuda");
    assert("auto"@[0] != "cuda"@[0]);
    assert("nocuda"@.len() == 6 && "auto"@.len() == 4 && "cuda"@.len() == 4);
}

/// Once features are there, every pair of photos is matched if the user says
/// that they come in no order or if the set is within the limit for it, and in
/// sequence otherwise.
pub proof fn small_sets_are_matched_in_full(job: SfmJob, run: SfmRun)
    requires
        run.step is Extract,
    ensures
        pipeline::next_step(job, run, SfmOutcome::Done) matches Ok(next) && next.1 == run.attempt
            && next.0 == (SfmStep::Match {
            exhaustive: job.opts.capture == CaptureMode::Unordered || (job.opts.capture
                == CaptureMode::Auto && job.images <= job.opts.exhaustive_limit),
            gpu: !job.opts.cpu_only,
        }),
{
}

/// After a first mapping of a sequence that the user did not ask for, every pair
/// is matched once more if fewer than half the photos were registered. After any
/// other mapping the dataset is put together, or nothing was registered in any
/// of them.
pub proof fn poor_sequences_are_matched_in_full(
    job: SfmJob,
    run: SfmRun,
    model: SparseChoice,
    exhaustive: bool,
)
    requires
        run.step == (SfmStep::Reconstruct { exhaustive }),
    ensures
        ({
            let next = pipeline::next_step(job, run, SfmOutcome::Mapped(model));
            let again = run.attempt == 1 && !exhaustive && job.opts.capture == CaptureMode::Auto
                && model.registered + model.registered < job.images;
            let empty = model.registered == 0 && forall|k: int|
                0 <= k < run.models@.len() ==> (#[trigger] run.models@[k]).registered == 0;
            &&& again ==> next == Ok::<(SfmStep, u32), SfmError>(
                (SfmStep::Match { exhaustive: true, gpu: !job.opts.cpu_only }, 2),
            )
            &&& !again && empty ==> next is Err && next->Err_0 is NothingRegistered
            &&& !again && !empty ==> next == Ok::<(SfmStep, u32), SfmError>(
                (SfmStep::Assemble, run.attempt),
            )
        }),
{
    let all = run.models@.push(model);
    pipeline::best_model_is_largest(all);
    assert(all[all.len() - 1] == model);
    let best = pipeline::best_index(all);
    if all[best].registered == 0 {
        assert forall|k: int| 0 <= k < run.models@.len() implies (
        #[trigger] run.models@[k]).registered == 0 by {
            assert(all[k] == run.models@[k]);
        }
    } else if best < run.models@.len() {
        assert(all[best] == run.models@[best]);
    }
}

/// What mapping comes to is kept behind what it came to before, and nothing else
/// changes the models.
pub proof fn models_are_kept_in_turn(run: SfmRun, outcome: SfmOutcome)
    ensures
        run.step is Reconstruct && outcome is Mapped ==> {
            let after = pipeline::next_models(run, outcome);
            &&& after.len() == run.models@.len() + 1
            &&& after.last() == outcome->Mapped_0
            &&& after.take(run.models@.len() as int) == run.models@
        },
        !(run.step is Reconstruct && outcome is Mapped) ==> pipeline::next_models(run, outcome)
            == run.models@,
{
    if run.step is Reconstruct && outcome is Mapped {
        assert(pipeline::next_models(run, outcome).take(run.models@.len() as int) =~= run.models@);
    }
}

/// A command that fails without the GPU ends the run with the cause, under the
/// stage that it failed in.
pub proof fn failures_keep_their_cause(job: SfmJob, run: SfmRun, cause: String)
    ensures
        ({
            let next = pipeline::next_step(job, run, SfmOutcome::Failed(cause));
            &&& run.step == (SfmStep::Extract { gpu: false }) ==> next is Err && next->Err_0
                == SfmError::Extraction(cause)
            &&& run.step matches SfmStep::Match { gpu: false, .. } ==> next is Err && next->Err_0
                == SfmError::Matching(cause)
            &&& run.step is Reconstruct ==> next is Err && next->Err_0 == SfmError::Mapping(cause)
        }),
        run.step is Reconstruct ==> {
            let next = pipeline::next_step(job, run, SfmOutcome::Unreadable(cause));
            next is Err && next->Err_0 == SfmError::Model(cause)
        },
{
}

/// Where images were matched, poses are reconstructed next, from as many pairs
/// as were matched.
pub proof fn mapping_follows_matching(job: SfmJob, run: SfmRun, exhaustive: bool, gpu: bool)
    requires
        run.step == (SfmStep::Match { exhaustive, gpu }),
    ensures
        pipeline::next_step(job, run, SfmOutcome::Done) == Ok::<(SfmStep, u32), SfmError>(
            (SfmStep::Reconstruct { exhaustive }, run.attempt),
        ),
        pipeline::next_events(job, run, SfmOutcome::Done) == seq![
            EventModel::Stage("Reconstructing camera poses"@, 3, 3),
        ],
{
}

/// The stages are told with their place among the three.
pub proof fn stages_are_told_in_turn(job: SfmJob, run: SfmRun, gpu: bool)
    requires
        run.step == (SfmStep::Extract { gpu }),
    ensures
        ({
            let told = pipeline::next_events(job, run, SfmOutcome::Done);
            let all = job.opts.capture == CaptureMode::Unordered || (job.opts.capture
                == CaptureMode::Auto && job.images <= job.opts.exhaustive_limit);
            told == seq![
                EventModel::Stage(
                    if all {
                        "Matching images (exhaustive)"@
                    } else {
                        "Matching images (sequential)"@
                    },
                    2,
                    3,
                ),
            ]
        }),
{
}

/// Of a failed program's lines the last twenty are kept.
pub proof fn last_twenty_lines_are_kept<T>(all: Seq<T>)
    ensures
        all.len() <= 20 ==> pipeline::tail_of(all) == all,
        all.len() > 20 ==> {
            let tail = pipeline::tail_of(all);
            tail.len() == 20 && forall|k: int|
                0 <= k < 20 ==> #[trigger] tail[k] == all[all.len() - 20 + k]
        },
{
}

// ---- what the program prints ----

proof fn prefix_is_skipped(head: Seq<char>, rest: Seq<char>)
    ensures
        head.is_prefix_of(head + rest),
        (head + rest).skip(head.len() as int) == rest,
{
    assert(head =~= (head + rest).subrange(0, head.len() as int));
    assert((head + rest).skip(head.len() as int) =~= rest);
}

/// A line "Processed file [12/34]" tells that twelve of all images are done, and
/// no other line of extraction tells anything.
pub proof fn processed_files_are_counted(line: Seq<char>, d: Seq<char>, rest: Seq<char>, total: u64)
    ensures
        text::trimmed(line) == "Processed file ["@ + (d.push('/') + rest) && !d.contains('/')
            ==> progress::extract_event(line, total) == (match text::parse_number(
            text::trimmed(d),
            0xffff_ffff_ffff_ffff,
        ) {
            Some(n) => Some(EventModel::Progress(n as int, total as int)),
            None => None,
        }),
        !"Processed file ["@.is_prefix_of(text::trimmed(line)) ==> progress::extract_event(
            line,
            total,
        ) is None,
{
    let head = "Processed file ["@;
    let t = text::trimmed(line);
    if t == head + (d.push('/') + rest) && !d.contains('/') {
        prefix_is_skipped(head, d.push('/') + rest);
        text_laws::texts_are_cut_at_characters(d, '/', rest);
    }
}

/// A line of matching is told as it is if it says which block or image is
/// matched, and no other line.
pub proof fn matched_blocks_are_told(line: Seq<char>)
    ensures
        progress::match_event(line) == if "Matching block ["@.is_prefix_of(text::trimmed(line))
            || "Matching image ["@.is_prefix_of(text::trimmed(line)) {
            Some(EventModel::Status(text::trimmed(line)))
        } else {
            None
        },
{
}

/// A line "Registering image #42 (17)" tells that seventeen images are
/// registered, and is told as it is.
pub proof fn registrations_are_counted(
    line: Seq<char>,
    which: Seq<char>,
    d: Seq<char>,
    total: u64,
)
    requires
        text::trimmed(line) == "Registering image #"@ + (which.push('(') + d.push(')')),
        !d.contains('('),
        d.len() > 0 ==> d.last() != ')',
    ensures
        ({
            let told = progress::mapper_events(line, total);
            match text::parse_number(text::trimmed(d), 0xffff_ffff_ffff_ffff) {
                Some(n) => told == seq![
                    EventModel::Progress(n as int, total as int),
                    EventModel::Status(text::trimmed(line)),
                ],
                None => told == seq![EventModel::Status(text::trimmed(line))],
            }
        }),
{
    let head = "Registering image #"@;
    let t = text::trimmed(line);
    prefix_is_skipped(head, which.push('(') + d.push(')'));
    assert(t =~= (head + which).push('(') + d.push(')'));
    assert(!d.push(')').contains('(')) by {
        assert forall|k: int| 0 <= k < d.push(')').len() implies d.push(')')[k] != '(' by {
            if k < d.len() {
                assert(d.contains(d[k]));
            }
        }
    }
    text_laws::texts_are_cut_at_characters(head + which, '(', d.push(')'));
    assert(d.push(')').drop_last() =~= d);
    assert(text::trim_end_of(d.push(')'), ')') == d) by {
        reveal_with_fuel(text::trim_end_of, 3);
    }
}

/// Global bundle adjustment is told by its name, and any line that is neither
/// that nor a registration tells nothing.
pub proof fn adjustments_are_told(line: Seq<char>, total: u64)
    requires
        !"Registering image #"@.is_prefix_of(text::trimmed(line)),
    ensures
        progress::mapper_events(line, total) == if "Global bundle adjustment"@.is_prefix_of(
            text::trimmed(line),
        ) {
            seq![EventModel::Status("Global bundle adjustment"@)]
        } else {
            Seq::empty()
        },
{
}

// ---- finding the program ----

/// The version is what stands before the dashes of the first line that says
/// COLMAP, or that whole line where it has no dashes.
pub proof fn first_banner_gives_the_version(help: Seq<char>, i: int, j: int)
    requires
        0 <= i < text::lines(help).len(),
        forall|k: int| 0 <= k < i ==> !text::contains(#[trigger] text::lines(help)[k], "COLMAP"@),
        text::contains(text::lines(help)[i], "COLMAP"@),
        0 <= j <= text::trimmed(text::lines(help)[i]).len(),
        forall|k: int|
            0 <= k < j ==> !#[trigger] text::part_at(
                text::trimmed(text::lines(help)[i]),
                "--"@,
                k,
            ),
        j < text::trimmed(text::lines(help)[i]).len() ==> text::part_at(
            text::trimmed(text::lines(help)[i]),
            "--"@,
            j,
        ),
    ensures
        locate::version_in(help) == Some(
            text::trimmed(text::trimmed(text::lines(help)[i]).take(j)),
        ),
{
    first_line_is(text::lines(help), "COLMAP"@, i);
    text_laws::texts_are_cut_at_parts(text::trimmed(text::lines(help)[i]), "--"@, j);
}

/// There is no version where no line says COLMAP.
pub proof fn no_banner_gives_no_version(help: Seq<char>)
    requires
        forall|k: int|
            0 <= k < text::lines(help).len() ==> !text::contains(
                #[trigger] text::lines(help)[k],
                "COLMAP"@,
            ),
    ensures
        locate::version_in(help) is None,
        locate::major_version_in(help) is None,
{
    first_line_is(text::lines(help), "COLMAP"@, text::lines(help).len() as int);
}

proof fn first_line_is(lines: Seq<Seq<char>>, part: Seq<char>, i: int)
    requires
        0 <= i <= lines.len(),
        forall|k: int| 0 <= k < i ==> !text::contains(#[trigger] lines[k], part),
        i < lines.len() ==> text::contains(lines[i], part),
    ensures
        locate::line_with(lines, part) == if i < lines.len() {
            Some(lines[i])
        } else {
            None
        },
    decreases i,
{
    if i > 0 {
        assert(!text::contains(lines[0], part));
        let rest = lines.skip(1);
        assert forall|k: int| 0 <= k < i - 1 implies !text::contains(#[trigger] rest[k], part) by {
            assert(rest[k] == lines[k + 1]);
        }
        first_line_is(rest, part, i - 1);
    }
}

/// The major version is the number before the dot of the version's last word.
pub proof fn major_version_stands_before_the_dot(
    help: Seq<char>,
    v: Seq<char>,
    major: Seq<char>,
    minor: Seq<char>,
)
    requires
        locate::version_in(help) == Some(v),
        text::words(v).len() > 0,
        text::words(v).last() == major.push('.') + minor,
        !major.contains('.'),
    ensures
        locate::major_version_in(help) == text::parse_number(major, 0xffff_ffff),
{
    let w = major.push('.') + minor;
    let j = major.len() as int;
    reveal_strlit(".");
    assert(w.subrange(j, j + 1) =~= "."@);
    assert(text::part_at(w, "."@, j));
    assert forall|k: int| 0 <= k < j implies !#[trigger] text::part_at(w, "."@, k) by {
        assert(major.contains(major[k]));
        if text::part_at(w, "."@, k) {
            assert(w.subrange(k, k + 1)[0] == "."@[0]);
        }
    }
    text_laws::texts_are_cut_at_parts(w, "."@, j);
    assert(w.take(j) =~= major);
}

/// A command is offered if and only if it is the first word of some line.
pub proof fn commands_begin_lines(help: Seq<char>, command: Seq<char>)
    ensures
        locate::offers(help, command) <==> exists|i: int|
            0 <= i < text::lines(help).len() && (#[trigger] text::words(
                text::lines(help)[i],
            )).len() > 0 && text::words(text::lines(help)[i])[0] == command,
{
    if locate::offers(help, command) {
        let i = choose|i: int|
            0 <= i < text::lines(help).len() && locate::first_word_is(
                #[trigger] text::lines(help)[i],
                command,
            );
        assert(text::words(text::lines(help)[i]).len() > 0);
    }
    assert forall|i: int|
        0 <= i < text::lines(help).len() && (#[trigger] text::words(text::lines(help)[i])).len() > 0
            && text::words(text::lines(help)[i])[0] == command implies locate::offers(
        help,
        command,
    ) by {
        assert(locate::first_word_is(text::lines(help)[i], command));
    }
}

/// On Windows the batch file goes before the program that it sets up.
pub proof fn batch_files_come_first()
    ensures
        locate::names_on(false) == seq!["colmap"@],
        locate::names_on(true) == seq!["COLMAP.bat"@, "colmap.bat"@, "colmap.exe"@],
{
}

/// Does the way lead down from the directory to a file with one of the names?
pub open spec fn leads(tree: DirTree, way: Seq<Seq<char>>, names: Seq<Seq<char>>) -> bool
    decreases way.len(),
{
    if way.len() == 0 {
        false
    } else if way.len() == 1 {
        locate::has_file(tree, way[0]) && names.contains(way[0])
    } else {
        exists|i: int|
            0 <= i < tree.dirs@.len() && (#[trigger] tree.dirs@[i]).0@ == way[0] && leads(
                tree.dirs@[i].1,
                way.skip(1),
                names,
            )
    }
}

/// A way that is found leads to a file with one of the names, at most `depth`
/// levels down.
pub proof fn found_ways_lead_to_a_file(tree: DirTree, depth: nat, names: Seq<Seq<char>>)
    requires
        locate::search(tree, depth, names) is Some,
    ensures
        leads(tree, locate::search(tree, depth, names)->0, names),
        (locate::search(tree, depth, names)->0).len() <= depth + 1,
    decreases depth, tree.dirs@.len() + 1,
{
    if locate::file_here(tree, names) is Some {
        name_is_here(tree, names);
    } else {
        found_below(tree, depth, names, 0);
    }
}

proof fn name_is_here(tree: DirTree, names: Seq<Seq<char>>)
    ensures
        locate::file_here(tree, names) matches Some(n) ==> locate::has_file(tree, n)
            && names.contains(n),
        locate::file_here(tree, names) is None ==> forall|k: int|
            0 <= k < names.len() ==> !locate::has_file(tree, #[trigger] names[k]),
    decreases names.len(),
{
    if names.len() > 0 && !locate::has_file(tree, names[0]) {
        let rest = names.skip(1);
        name_is_here(tree, rest);
        match locate::file_here(tree, rest) {
            Some(n) => {
                let k = choose|k: int| 0 <= k < rest.len() && rest[k] == n;
                assert(names[k + 1] == n);
            },
            None => {
                assert forall|k: int| 0 <= k < names.len() implies !locate::has_file(
                    tree,
                    #[trigger] names[k],
                ) by {
                    if k > 0 {
                        assert(rest[k - 1] == names[k]);
                    }
                }
            },
        }
    }
}

proof fn found_below(tree: DirTree, depth: nat, names: Seq<Seq<char>>, i: nat)
    requires
        locate::search_dirs(tree, depth, names, i) is Some,
    ensures
        leads(tree, locate::search_dirs(tree, depth, names, i)->0, names),
        1 < (locate::search_dirs(tree, depth, names, i)->0).len() <= depth + 1,
    decreases depth, tree.dirs@.len() - i,
{
    let below = tree.dirs@[i as int];
    match locate::search(below.1, (depth - 1) as nat, names) {
        Some(way) => {
            found_ways_lead_to_a_file(below.1, (depth - 1) as nat, names);
            let all = seq![below.0@] + way;
            assert(all.skip(1) =~= way);
            assert(way.len() > 0);
            assert(leads(tree, all, names));
        },
        None => {
            found_below(tree, depth, names, i + 1);
        },
    }
}

/// Where a way of at most `depth` levels leads to a file with one of the names,
/// one is found.
pub proof fn ways_that_lead_are_found(
    tree: DirTree,
    way: Seq<Seq<char>>,
    depth: nat,
    names: Seq<Seq<char>>,
)
    requires
        leads(tree, way, names),
        way.len() <= depth + 1,
    ensures
        locate::search(tree, depth, names) is Some,
    decreases depth,
{
    name_is_here(tree, names);
    if way.len() == 1 {
        let k = choose|k: int| 0 <= k < names.len() && names[k] == way[0];
        assert(locate::has_file(tree, names[k]));
    } else {
        let i = choose|i: int|
            0 <= i < tree.dirs@.len() && (#[trigger] tree.dirs@[i]).0@ == way[0] && leads(
                tree.dirs@[i].1,
                way.skip(1),
                names,
            );
        ways_that_lead_are_found(tree.dirs@[i].1, way.skip(1), (depth - 1) as nat, names);
        below_is_found(tree, depth, names, 0, i);
    }
}

proof fn below_is_found(tree: DirTree, depth: nat, names: Seq<Seq<char>>, i: nat, j: int)
    requires
        depth > 0,
        i <= j < tree.dirs@.len(),
        locate::search(tree.dirs@[j].1, (depth - 1) as nat, names) is Some,
    ensures
        locate::search_dirs(tree, depth, names, i) is Some,
    decreases j - i,
{
    if i < j && locate::search(tree.dirs@[i as int].1, (depth - 1) as nat, names) is None {
        below_is_found(tree, depth, names, i + 1, j);
    }
}

/// A directory's own files go before those below it, by the first name that is
/// there; and an earlier directory goes before a later one.
pub proof fn nearer_files_are_found_first(
    tree: DirTree,
    depth: nat,
    names: Seq<Seq<char>>,
    i: int,
)
    ensures
        0 <= i < names.len() && locate::has_file(tree, names[i]) && (forall|k: int|
            0 <= k < i ==> !locate::has_file(tree, #[trigger] names[k])) ==> locate::search(
            tree,
            depth,
            names,
        ) == Some(seq![names[i]]),
        depth > 0 && (forall|k: int|
            0 <= k < names.len() ==> !locate::has_file(tree, #[trigger] names[k])) && 0 <= i
            < tree.dirs@.len() && locate::search(tree.dirs@[i].1, (depth - 1) as nat, names) is Some
            && (forall|k: int|
            0 <= k < i ==> locate::search(
                (#[trigger] tree.dirs@[k]).1,
                (depth - 1) as nat,
                names,
            ) is None) ==> locate::search(tree, depth, names) == Some(
            seq![tree.dirs@[i].0@] + locate::search(
                tree.dirs@[i].1,
                (depth - 1) as nat,
                names,
            )->0,
        ),
{
    if 0 <= i < names.len() && locate::has_file(tree, names[i]) && (forall|k: int|
        0 <= k < i ==> !locate::has_file(tree, #[trigger] names[k])) {
        first_name_is_here(tree, names, i);
    }
    name_is_here(tree, names);
    if depth > 0 && 0 <= i < tree.dirs@.len() && locate::search(
        tree.dirs@[i].1,
        (depth - 1) as nat,
        names,
    ) is Some && (forall|k: int|
        0 <= k < i ==> locate::search((#[trigger] tree.dirs@[k]).1, (depth - 1) as nat, names)
            is None) {
        first_below(tree, depth, names, 0, i);
        if forall|k: int| 0 <= k < names.len() ==> !locate::has_file(tree, #[trigger] names[k]) {
            match locate::file_here(tree, names) {
                Some(n) => {
                    let k = choose|k: int| 0 <= k < names.len() && names[k] == n;
                    assert(!locate::has_file(tree, names[k]));
                },
                None => {},
            }
        }
    }
}

proof fn first_name_is_here(tree: DirTree, names: Seq<Seq<char>>, i: int)
    requires
        0 <= i < names.len(),
        locate::has_file(tree, names[i]),
        forall|k: int| 0 <= k < i ==> !locate::has_file(tree, #[trigger] names[k]),
    ensures
        locate::file_here(tree, names) == Some(names[i]),
    decreases i,
{
    if i > 0 {
        assert(!locate::has_file(tree, names[0]));
        let rest = names.skip(1);
        assert forall|k: int| 0 <= k < i - 1 implies !locate::has_file(
            tree,
            #[trigger] rest[k],
        ) by {
            assert(rest[k] == names[k + 1]);
        }
        first_name_is_here(tree, rest, i - 1);
    }
}

proof fn first_below(tree: DirTree, depth: nat, names: Seq<Seq<char>>, i: nat, j: int)
    requires
        depth > 0,
        i <= j < tree.dirs@.len(),
        locate::search(tree.dirs@[j].1, (depth - 1) as nat, names) is Some,
        forall|k: int|
            i <= k < j ==> locate::search(
                (#[trigger] tree.dirs@[k]).1,
                (depth - 1) as nat,
                names,
            ) is None,
    ensures
        locate::search_dirs(tree, depth, names, i) == Some(
            seq![tree.dirs@[j].0@] + locate::search(
                tree.dirs@[j].1,
                (depth - 1) as nat,
                names,
            )->0,
        ),
    decreases j - i,
{
    if i < j {
        assert(locate::search(tree.dirs@[i as int].1, (depth - 1) as nat, names) is None);
        first_below(tree, depth, names, i + 1, j);
    }
}

/// Without a path from the user, one from the environment is taken if it is a
/// file; else the first name that is on the search path; else what the cache
/// holds.
pub proof fn places_are_tried_in_turn(p: Places, i: int)
    requires
        p.explicit is None,
    ensures
        p.environment is Some && (p.environment->0).1 ==> locate::located(p) == Some(
            (p.environment->0).0@,
        ),
        !(p.environment is Some && (p.environment->0).1) && 0 <= i < p.search_path@.len()
            && p.search_path@[i] is Some && (forall|k: int|
            0 <= k < i ==> #[trigger] p.search_path@[k] is None) ==> locate::located(p) == Some(
            (p.search_path@[i]->0)@,
        ),
        !(p.environment is Some && (p.environment->0).1) && (forall|k: int|
            0 <= k < p.search_path@.len() ==> #[trigger] p.search_path@[k] is None)
            ==> locate::located(p) == (match p.cached {
            Some(c) => Some(c@),
            None => None,
        }),
{
    if 0 <= i < p.search_path@.len() && p.search_path@[i] is Some && (forall|k: int|
        0 <= k < i ==> #[trigger] p.search_path@[k] is None) {
        first_found_is(p.search_path@, i);
    }
    if forall|k: int| 0 <= k < p.search_path@.len() ==> #[trigger] p.search_path@[k] is None {
        first_found_is(p.search_path@, p.search_path@.len() as int);
    }
}

proof fn first_found_is(found: Seq<Option<String>>, i: int)
    requires
        0 <= i <= found.len(),
        i < found.len() ==> found[i] is Some,
        forall|k: int| 0 <= k < i ==> #[trigger] found[k] is None,
    ensures
        locate::first_found(found) == if i < found.len() {
            Some((found[i]->0)@)
        } else {
            None
        },
    decreases i,
{
    if i > 0 {
        assert(found[0] is None);
        let rest = found.skip(1);
        assert forall|k: int| 0 <= k < i - 1 implies #[trigger] rest[k] is None by {
            assert(rest[k] == found[k + 1]);
        }
        first_found_is(rest, i - 1);
    }
}

/// An address that the user chose is the one that is downloaded from, with or
/// without CUDA.
pub proof fn chosen_address_wins(cuda: bool, url: Seq<char>)
    ensures
        fetch::download_url(cuda, Some(url)) == url,
        fetch::download_url(true, None)
            == "https://github.com/colmap/colmap/releases/download/4.0.4/colmap-x64-windows-cuda.zip"@,
        fetch::download_url(false, None)
            == "https://github.com/colmap/colmap/releases/download/4.0.4/colmap-x64-windows-nocuda.zip"@,
{
}

/// What was downloaded is told in whole megabytes of 1024 times 1024 bytes.
pub proof fn downloads_are_told_in_megabytes(received: u64, total: u64)
    ensures
        fetch::fetch_text(fetch::FetchEvent::Downloading { received, total: Some(total) })
            == "Downloading COLMAP... "@ + text::decimal((received as nat) / (1024 * 1024))
            + "/"@ + text::decimal((total as nat) / (1024 * 1024)) + " MB"@,
        fetch::fetch_text(fetch::FetchEvent::Downloading { received, total: None })
            == "Downloading COLMAP... "@ + text::decimal((received as nat) / (1024 * 1024))
            + " MB"@,
{
}

/// A model is its cameras, images and points, all in binary files or all in text
/// files.
pub proof fn models_are_three_files(binary: bool)
    ensures
        ({
            let end = if binary {
                ".bin"@
            } else {
                ".txt"@
            };
            sparse::file_names(binary) == seq!["cameras"@ + end, "images"@ + end, "points3D"@ + end]
        }),
        sparse::model_stems() == seq!["cameras"@, "images"@, "points3D"@],
{
    let end = if binary {
        ".bin"@
    } else {
        ".txt"@
    };
    assert(sparse::file_names(binary) =~= seq!["cameras"@ + end, "images"@ + end, "points3D"@ + end]);
}

/// Events are seen with their own text and numbers, each in its place.
pub proof fn events_are_seen_as_they_are(events: Seq<SfmEvent>, k: int)
    requires
        0 <= k < events.len(),
    ensures
        progress::event_views(events).len() == events.len(),
        ({
            let seen = progress::event_views(events)[k];
            &&& events[k] matches SfmEvent::StageStarted { name, index, total } ==> seen
                == EventModel::Stage(name@, index as int, total as int)
            &&& events[k] matches SfmEvent::Progress { done, total } ==> seen
                == EventModel::Progress(done as int, total as int)
            &&& events[k] matches SfmEvent::Status(t) ==> seen == EventModel::Status(t@)
        }),
{
}

/// A program that was found is reported with its path and its version, if its banner
/// gives one.
pub proof fn found_programs_are_reported(e: fetch::FetchEvent, b: ColmapBinary, help: Option<String>)
    requires
        fetch::reports_found(e, b, help),
    ensures
        e matches fetch::FetchEvent::Found { path, version } && path@ == b.path@ && (match version {
            Some(v) => help is Some && locate::version_in((help->0)@) == Some(v@),
            None => help is None || locate::version_in((help->0)@) is None,
        }),
        e matches fetch::FetchEvent::Found { path, version } && fetch::fetch_text(e) == "COLMAP: "@
            + (match version {
            Some(v) => v@,
            None => "found"@,
        }) + " ("@ + path@ + ")"@,
{
}

} // verus!
