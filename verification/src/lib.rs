//! A streaming micro-aggregation anonymization engine.
//!
//! Records carrying quasi-identifiers (QIs) and a sensitive attribute flow
//! through an engine that clusters them by similarity, generalizes each
//! released record to its cluster's centroid, enforces recursive
//! (c,l)-diversity, perturbs released values with differentially private
//! noise, and detects concept drift between successive buffer windows.
//!
//! All numeric reasoning is exact: QI values are integers, distances are
//! fixed-point rationals scaled by 10^9 (nanos), information loss is kept as
//! the exact squared sum, and the Kolmogorov-Smirnov drift test is decided by
//! integer cross-multiplication.

pub mod analysis;
pub mod anonymization;
pub mod data_manipulation;
pub mod noise;
pub mod publishing;
pub mod runtime;
pub mod test;
pub mod vec_set;
