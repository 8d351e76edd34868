//! Progress of pose estimation, as COLMAP's output lines tell it.

use crate::text::{
    self, has_prefix, parse_bounded, slice_text, text_after, text_before, to_chars, trim,
    trim_end_char,
};
use vstd::prelude::*;

verus! {

/// Progress of pose estimation.
#[allow(inconsistent_fields)]
#[derive(Debug)]
pub enum SfmEvent {
    StageStarted { name: String, index: usize, total: usize },
    /// How far the current stage has come.
    Progress { done: u64, total: u64 },
    /// One line for the user to read.
    Status(String),
}

/// An event, with its text as characters.
pub enum EventModel {
    Stage(Seq<char>, int, int),
    Progress(int, int),
    Status(Seq<char>),
}

impl View for SfmEvent {
    type V = EventModel;

    open spec fn view(&self) -> EventModel {
        match *self {
            SfmEvent::StageStarted { name, index, total } => EventModel::Stage(
                name@,
                index as int,
                total as int,
            ),
            SfmEvent::Progress { done, total } => EventModel::Progress(done as int, total as int),
            SfmEvent::Status(t) => EventModel::Status(t@),
        }
    }
}

/// The events, with their texts as characters.
pub open spec fn event_views(events: Seq<SfmEvent>) -> Seq<EventModel> {
    events.map_values(|e: SfmEvent| e@)
}

/// The number before the slash of a line such as "Processed file [123/456]",
/// which begins with `prefix`.
pub open spec fn bracket_progress(line: Seq<char>, prefix: Seq<char>) -> Option<nat> {
    let t = text::trimmed(line);
    if prefix.is_prefix_of(t) {
        match text::before_first(t.skip(prefix.len() as int), '/') {
            Some(n) => text::parse_number(text::trimmed(n), u64::MAX as int),
            None => None,
        }
    } else {
        None
    }
}

/// The number before the slash of a line that begins with `prefix`.
pub fn parse_bracket_progress(line: &str, prefix: &str) -> (n: Option<u64>)
    ensures
        match n {
            Some(v) => bracket_progress(line@, prefix@) == Some(v as nat),
            None => bracket_progress(line@, prefix@) is None,
        },
{
    let t = trim(line);
    if !has_prefix(t.as_str(), prefix) {
        return None;
    }
    let chars = to_chars(t.as_str());
    let from: usize = to_chars(prefix).len();
    let rest = slice_text(&chars, from, chars.len());
    assert(rest@ =~= t@.skip(from as int));
    match text_before(rest.as_str(), '/') {
        Some(n) => parse_bounded(trim(n.as_str()).as_str(), u64::MAX),
        None => None,
    }
}

/// What a line of feature extraction tells.
pub open spec fn extract_event(line: Seq<char>, total: u64) -> Option<EventModel> {
    match bracket_progress(line, "Processed file ["@) {
        Some(done) => Some(EventModel::Progress(done as int, total as int)),
        None => None,
    }
}

/// What a line of feature extraction tells of `total` images.
pub fn report_extract_progress(line: &str, total: u64) -> (event: Option<SfmEvent>)
    ensures
        (match event {
            Some(e) => Some(e@),
            None => None,
        }) == extract_event(line@, total),
{
    match parse_bracket_progress(line, "Processed file [") {
        Some(done) => Some(SfmEvent::Progress { done, total }),
        None => None,
    }
}

/// What a line of matching tells.
pub open spec fn match_event(line: Seq<char>) -> Option<EventModel> {
    let t = text::trimmed(line);
    if "Matching block ["@.is_prefix_of(t) || "Matching image ["@.is_prefix_of(t) {
        Some(EventModel::Status(t))
    } else {
        None
    }
}

/// What a line of matching tells.
pub fn report_match_progress(line: &str) -> (event: Option<SfmEvent>)
    ensures
        (match event {
            Some(e) => Some(e@),
            None => None,
        }) == match_event(line@),
{
    let t = trim(line);
    if has_prefix(t.as_str(), "Matching block [") || has_prefix(t.as_str(), "Matching image [") {
        Some(SfmEvent::Status(t))
    } else {
        None
    }
}

/// The number in the brackets that end a line such as "Registering image #42
/// (17)".
pub open spec fn registered_so_far(t: Seq<char>) -> Option<nat> {
    match text::after_last(t, '(') {
        Some(tail) => text::parse_number(
            text::trimmed(text::trim_end_of(tail, ')')),
            u64::MAX as int,
        ),
        None => None,
    }
}

/// What a line of mapping tells.
pub open spec fn mapper_events(line: Seq<char>, total: u64) -> Seq<EventModel> {
    let t = text::trimmed(line);
    if "Registering image #"@.is_prefix_of(t) {
        match registered_so_far(t) {
            Some(done) => seq![
                EventModel::Progress(done as int, total as int),
                EventModel::Status(t),
            ],
            None => seq![EventModel::Status(t)],
        }
    } else if "Global bundle adjustment"@.is_prefix_of(t) {
        seq![EventModel::Status("Global bundle adjustment"@)]
    } else {
        Seq::empty()
    }
}

/// What a line of mapping tells of `total` images.
pub fn report_mapper_progress(line: &str, total: u64) -> (events: Vec<SfmEvent>)
    ensures
        event_views(events@) == mapper_events(line@, total),
{
    let t = trim(line);
    let mut events: Vec<SfmEvent> = Vec::new();
    if has_prefix(t.as_str(), "Registering image #") {
        let done = match text_after(t.as_str(), '(') {
            Some(tail) => parse_bounded(
                trim(trim_end_char(tail.as_str(), ')').as_str()).as_str(),
                u64::MAX,
            ),
            None => None,
        };
        match done {
            Some(done) => events.push(SfmEvent::Progress { done, total }),
            None => {},
        }
        events.push(SfmEvent::Status(t));
    } else if has_prefix(t.as_str(), "Global bundle adjustment") {
        events.push(SfmEvent::Status("Global bundle adjustment".to_owned()));
    }
    assert(event_views(events@) =~= mapper_events(line@, total));
    events
}

} // verus!
