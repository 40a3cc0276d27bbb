//! Admission-and-ranking maintenance engine for a craftsman search service.
//!
//! Profiles (service providers) are ranked against postal-code searches.
//! The library keeps a derived index of "which profile is eligible for
//! which postal code, and at what rank" consistent while profiles change
//! their service radius or quality scores.
//!
//! All quantities are fixed-point integers:
//! - coordinates: millionths of a degree (`i64`);
//! - distances and radii: meters (`u64`);
//! - picture and description sub-scores: millionths (`i64`, `0 ..= 1_000_000`
//!   stands for `0.0 ..= 1.0`);
//! - the composite profile score: ten-millionths (`i64`, `0 ..= 10_000_000`);
//! - ranks: eight-billionths (`i64`), so that every coefficient of the rank
//!   formula is exact.

pub mod errors;
pub mod geo;
pub mod get_craftsmen;
pub mod postcode_utils;
pub mod patch_craftsmen;
pub mod profile;
pub mod ranking;
pub mod scoring;
pub mod store;

pub use geo::Location;
