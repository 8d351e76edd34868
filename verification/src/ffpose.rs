//! Camera poses from a feed-forward model, run by a Python script.
pub mod laws;
pub mod locate;
pub mod pipeline;
pub mod script;
