//! A near-duplicate detector for batches of text files.
//!
//! The crate compares every unordered pair of loaded texts with an edit
//! distance metric, turns each distance into an exact similarity score in
//! [0, 1], and aggregates the scores into a table from which it derives a
//! live report (the pairs inside a configured sensitivity range) and a
//! persisted report (every pair, sorted by descending score with a
//! deterministic tie-break).

pub mod content;
pub mod distance;
pub mod engine;
pub mod pairs;
pub mod report;
pub mod score;
pub mod table;

pub use content::ContentStore;
pub use distance::Metric;
pub use engine::Config;
pub use engine::EngineError;
pub use engine::RunOutput;
pub use score::Score;
pub use score::Threshold;
