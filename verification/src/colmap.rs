//! Camera poses from the COLMAP program: finding it, running its stages and
//! choosing among its results.
pub mod fetch;
pub mod images;
pub mod laws;
pub mod locate;
pub mod pipeline;
pub mod progress;
pub mod sparse;
