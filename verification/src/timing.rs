//! How long things took.

use crate::text;
use vstd::prelude::*;

verus! {

/// A span of time.
#[derive(Debug, Clone, Copy, PartialEq, Eq, Structural)]
pub struct Elapsed {
    pub secs: u64,
    /// Nanoseconds beyond the whole seconds.
    pub nanos: u32,
}

/// What `humantime::format_duration` prints of a span of whole seconds.
pub uninterp spec fn human_duration(secs: u64) -> Seq<char>;

/// `humantime::format_duration`, printed: a span of whole seconds in words, such
/// as "1h 2m 3s". The text depends on the number of seconds alone, and below a
/// minute it is that number and an "s"; nothing else is claimed of it.
#[verifier::external_body]
pub(crate) fn duration_text(secs: u64) -> (t: String)
    ensures
        t@ == human_duration(secs),
        secs < 60 ==> t@ == text::decimal(secs as nat) + "s"@,
{
    humantime::format_duration(std::time::Duration::from_secs(secs)).to_string()
}

} // verus!
