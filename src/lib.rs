//! Perceptual spectral-shape features of a mono audio track: energy per
//! frequency band, spectral centroid, spectral spread and zero-crossing rate.
//!
//! All quantities are integers. Spectral power values are non-negative
//! integers, and every score (band percentage, centroid, spread, zero-crossing
//! rate) is a fixed-point share in which `FULL_SCALE` (`10^10`) is 100%, so
//! one unit is `10^-8` of a percentage point.
pub mod bands;
pub mod descriptors;
pub mod energy;
pub mod zero_crossing;
pub mod utils;
pub mod cache;
