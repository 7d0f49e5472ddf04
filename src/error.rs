use vstd::prelude::*;

verus! {

/// Everything that can go wrong while resolving restrictions and decoding
/// genotype data.
#[allow(inconsistent_fields)]
#[derive(Debug, Clone, PartialEq, Eq)]
pub enum CustomError {
    PackedAncestryMapFileSize,
    PackedAncestryMapHeaderNullByte,
    PackedAncestryMapHeaderUtf8,
    PackedAncestryMapHeaderGeno,
    PackedAncestryMapHeaderTgeno,
    PackedAncestryMapHeaderFields { n_fields: usize, expected: usize },
    PackedAncestryMapHeaderN,
    PackedAncestryMapHeaderV,
    PackedAncestryMapNAgreement { n_header: usize, n_ind: usize },
    PackedAncestryMapVAgreement { n_header: usize, n_snp: usize },
    EigenstratIndFields { line_num: usize, n_fields: usize, expected: usize },
    EigenstratSnpFields { line_num: usize, n_fields: usize, expected: usize },
    EigenstratGenoFields { line_num: usize, n_fields: usize, expected: usize },
    EigenstratGenoCode { line_num: usize },
    EigenstratGenoVariantCount { expected: usize, found: usize },
    PlinkBedHeaderMagic,
    PlinkBedMode,
    PlinkBedFileSize { expected: u64, found: u64 },
    PlinkFamFields { line_num: usize, n_fields: usize, expected: usize },
    PlinkBimFields { line_num: usize, n_fields: usize, expected: usize },
    SampleCount { n_samples: usize },
    VariantCount { n_variants: usize },
    VariantIndexInt { arg: String },
    VariantIndexLow,
    VariantIndexHigh { idx: usize, n_variants: usize },
    SamplePairDuplicate { sample: String },
    SamplePairUnknownSample { sample: String },
    SamplePairsEmpty,
    SamplePairsColumns,
    SamplePairsCsv,
}

} // verus!
