//! Decoders that turn each genotype file format into a stream of sites.

pub mod common;
pub mod eigenstrat;
pub mod header;
pub mod packedancestrymap;
pub mod plink;
pub mod transposed_packedancestrymap;
pub mod unpacked_eigenstrat;
