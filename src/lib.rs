//! Pairwise mismatch rates between genetic samples, computed from streamed
//! genotype matrices in several packed and text formats.

pub mod counts;
pub mod error;
pub mod model;
pub mod text;
pub mod restrict;
pub mod samples;
pub mod coverage;
pub mod reader;
pub mod cli;
