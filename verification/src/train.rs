//! Splat training as it is followed from outside.

use crate::text::{self, decimal_text};
use crate::timing::Elapsed;
use vstd::prelude::*;

verus! {

/// What training is run with.
#[derive(Debug)]
pub struct TrainSettings {
    pub iters: u32,
    pub max_splats: u32,
    pub max_resolution: u32,
    pub seed: u64,
    /// The directory that the trained splat is written to.
    pub export_dir: String,
}

impl TrainSettings {
    /// After how many steps the splat is written: once, at the end.
    pub fn export_every(&self) -> (n: u32)
        ensures
            n == if self.iters == 0 {
                1
            } else {
                self.iters
            },
    {
        if self.iters == 0 {
            1
        } else {
            self.iters
        }
    }
}

/// What training came to. Image quality is the bits of a single, if it was
/// measured.
#[derive(Debug)]
pub struct TrainOutcome {
    pub splat_path: String,
    pub final_splats: u32,
    pub last_psnr: Option<u32>,
    pub elapsed: Elapsed,
}

/// What the trainer says of itself.
#[derive(Debug, Clone, Copy)]
pub enum TrainEvent {
    /// Loading begins: of a dataset to train on, or of something to look at.
    Loading { training: bool },
    /// The dataset has so many views.
    Views(u64),
    Step(u32),
    /// There are so many splats now.
    Splats(u32),
    /// The quality was measured, as the bits of a single.
    Quality(u32),
    Finished,
    Other,
}

/// What is known of the training so far.
#[derive(Debug, Clone, Copy)]
pub struct TrainState {
    pub splats: u32,
    pub psnr: Option<u32>,
}

/// What is shown of the training: how far it is, and a message.
#[derive(Debug)]
pub struct TrainView {
    pub position: Option<u64>,
    pub message: Option<String>,
}

/// Before anything was said.
pub open spec fn untrained() -> TrainState {
    TrainState { splats: 0, psnr: None }
}

/// The state after an event.
pub open spec fn trained(s: TrainState, e: TrainEvent) -> TrainState {
    match e {
        TrainEvent::Splats(n) => TrainState { splats: n, ..s },
        TrainEvent::Quality(q) => TrainState { psnr: Some(q), ..s },
        _ => s,
    }
}

/// How far training is after an event, of `iters` steps, where the event tells.
pub open spec fn position_after(e: TrainEvent, iters: u32) -> Option<int> {
    match e {
        TrainEvent::Step(i) => Some(i as int),
        TrainEvent::Finished => Some(iters as int),
        _ => None,
    }
}

/// The message that an event gives.
pub open spec fn message_after(e: TrainEvent) -> Option<Seq<char>> {
    match e {
        TrainEvent::Loading { .. } => Some("loading dataset"@),
        TrainEvent::Views(n) => Some(text::decimal(n as nat) + " views"@),
        TrainEvent::Splats(n) => Some(text::decimal(n as nat) + " splats"@),
        _ => None,
    }
}

/// Begins to follow a training.
pub fn begin_training() -> (s: TrainState)
    ensures
        s == untrained(),
{
    TrainState { splats: 0, psnr: None }
}

/// Takes in what the trainer says. What loads as something to look at is no
/// dataset to train on, and an error that names `dataset`.
pub fn follow_training(s: TrainState, e: TrainEvent, iters: u32, dataset: &str) -> (r: Result<
    (TrainState, TrainView),
    String,
>)
    ensures
        match r {
            Ok((next, view)) => {
                &&& !(e matches TrainEvent::Loading { training: false })
                &&& next == trained(s, e)
                &&& (match view.position {
                    Some(p) => Some(p as int),
                    None => None,
                }) == position_after(e, iters)
                &&& text::view_of(view.message) == message_after(e)
            },
            Err(t) => {
                &&& e matches TrainEvent::Loading { training: false }
                &&& t@ == "Dataset at "@ + dataset@
                    + " loaded as a viewable splat, not a trainable dataset"@
            },
        },
{
    let mut next = s;
    let mut position: Option<u64> = None;
    let mut message: Option<String> = None;
    match e {
        TrainEvent::Loading { training } => {
            if !training {
                let mut t = "Dataset at ".to_owned();
                t.append(dataset);
                t.append(" loaded as a viewable splat, not a trainable dataset");
                return Err(t);
            }
            message = Some("loading dataset".to_owned());
        },
        TrainEvent::Views(n) => {
            let mut t = decimal_text(n);
            t.append(" views");
            message = Some(t);
        },
        TrainEvent::Step(i) => {
            position = Some(i as u64);
        },
        TrainEvent::Splats(n) => {
            next = TrainState { splats: n, psnr: s.psnr };
            let mut t = decimal_text(n as u64);
            t.append(" splats");
            message = Some(t);
        },
        TrainEvent::Quality(q) => {
            next = TrainState { splats: s.splats, psnr: Some(q) };
        },
        TrainEvent::Finished => {
            position = Some(iters as u64);
        },
        TrainEvent::Other => {},
    }
    Ok((next, TrainView { position, message }))
}

/// What training came to, if the splat is at `splat_path`.
pub fn finish_training(s: TrainState, splat_path: String, exported: bool, elapsed: Elapsed) -> (r:
    Result<TrainOutcome, String>)
    ensures
        match r {
            Ok(out) => {
                &&& exported
                &&& out.splat_path@ == splat_path@
                &&& out.final_splats == s.splats
                &&& out.last_psnr == s.psnr
                &&& out.elapsed == elapsed
            },
            Err(t) => !exported && t@ == "Training finished but no splat was exported to "@
                + splat_path@,
        },
{
    if !exported {
        let mut t = "Training finished but no splat was exported to ".to_owned();
        t.append(splat_path.as_str());
        return Err(t);
    }
    Ok(TrainOutcome { splat_path, final_splats: s.splats, last_psnr: s.psnr, elapsed })
}

/// The state after all events.
pub open spec fn trained_by(events: Seq<TrainEvent>) -> TrainState
    decreases events.len(),
{
    if events.len() == 0 {
        untrained()
    } else {
        trained(trained_by(events.drop_last()), events.last())
    }
}

/// What training is said to have come to is the last count of splats and the
/// last quality that the trainer gave.
pub proof fn last_word_counts(events: Seq<TrainEvent>, i: int)
    requires
        0 <= i < events.len(),
    ensures
        events[i] matches TrainEvent::Splats(n) ==> (forall|k: int|
            i < k < events.len() ==> !(#[trigger] events[k] is Splats)) ==> trained_by(events).splats
            == n,
        events[i] matches TrainEvent::Quality(q) ==> (forall|k: int|
            i < k < events.len() ==> !(#[trigger] events[k] is Quality)) ==> trained_by(events).psnr
            == Some(q),
    decreases events.len(),
{
    if i < events.len() - 1 {
        let before = events.drop_last();
        last_word_counts(before, i);
        assert(forall|k: int| 0 <= k < before.len() ==> before[k] == events[k]);
        assert(events.last() == events[events.len() - 1]);
    }
}

} // verus!
