//! Scoring of a compression result along several dimensions: sentence-level
//! information loss, fact retention, and the non-numeric parts of the
//! semantic score (the ratios and the weighted total are floating point and
//! are the caller's).
pub mod info_loss;
pub mod fact_retention;
pub mod semantic;
