//! Grading-response pipeline: prompt construction, heuristic extraction of
//! grading data from free-form grader text, consistency validation and
//! statistical aggregation of repeated grading runs.
//!
//! Quantities that are fractional by nature are held as integers:
//! points in hundredths of a point, confidence in percent, and ratios
//! (coefficient of variation, reliability) in ten-thousandths.
pub mod text;
pub mod pattern;
pub mod models;
pub mod stats;
pub mod aggregation;
pub mod extract;
pub mod validation;
pub mod rubric;
pub mod engine;
pub mod tiers;
pub mod api;
pub mod documents;
pub mod analysis;
pub mod batch;
pub mod quality;
pub mod quick;
