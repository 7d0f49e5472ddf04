use fastpmr::cli::{build_input_spec, run_mode, Args, InputSpec, RunMode};
use fastpmr::error::CustomError;
use fastpmr::restrict::parse_indices;
use std::collections::HashSet;

#[test]
fn parses_singles_and_ranges() {
    let set = parse_indices("1-3, 7 ,,10-9").unwrap();
    let expected: HashSet<usize> = [0, 1, 2, 6, 8, 9].into_iter().collect();
    assert_eq!(set, expected);
}

#[test]
fn large_range_is_inclusive() {
    let set = parse_indices("1-30000").unwrap();
    assert_eq!(set.len(), 30000);
    assert!(set.contains(&0));
    assert!(set.contains(&29999));
    assert!(!set.contains(&30000));
}

#[test]
fn zero_index_is_rejected() {
    assert_eq!(parse_indices("0"), Err(CustomError::VariantIndexLow));
    assert_eq!(parse_indices("3,0-5"), Err(CustomError::VariantIndexLow));
}

#[test]
fn non_numbers_are_rejected_with_the_piece() {
    assert_eq!(
        parse_indices("2,abc"),
        Err(CustomError::VariantIndexInt { arg: "abc".to_string() })
    );
    assert_eq!(
        parse_indices("1 - 5"),
        Err(CustomError::VariantIndexInt { arg: "1 ".to_string() })
    );
}

#[test]
fn first_problem_wins() {
    assert_eq!(
        parse_indices("x,0"),
        Err(CustomError::VariantIndexInt { arg: "x".to_string() })
    );
    assert_eq!(parse_indices("0,x"), Err(CustomError::VariantIndexLow));
}

#[test]
fn empty_spec_names_nothing() {
    assert!(parse_indices("").unwrap().is_empty());
    assert!(parse_indices(" , ").unwrap().is_empty());
}

#[test]
fn plus_sign_is_accepted() {
    let set = parse_indices("+4").unwrap();
    assert!(set.contains(&3));
}

fn args(spec: Option<&str>) -> Args {
    Args {
        prefix: "data/x".to_string(),
        output_directory: "out".to_string(),
        npz: true,
        sample_pairs_csv: None,
        variant_indices_spec: spec.map(|s| s.to_string()),
        threads: Some(4),
    }
}

#[test]
fn input_spec_names_the_three_files() {
    let spec = build_input_spec(&args(Some("2")), None).unwrap();
    assert_eq!(spec.ind(), "data/x.ind");
    assert_eq!(spec.geno(), "data/x.geno");
    assert_eq!(spec.snp(), "data/x.snp");
    assert_eq!(spec.output_dir(), "out");
    assert!(spec.npz());
    assert_eq!(spec.threads(), Some(4));
    assert!(spec.sample_pairs().is_none());
    assert!(spec.variant_indices().unwrap().contains(&1));
    let InputSpec::PackedAncestryMap { .. } = spec;
}

#[test]
fn input_spec_reports_bad_indices() {
    assert_eq!(build_input_spec(&args(Some("0")), None).err(), Some(CustomError::VariantIndexLow));
}

#[test]
fn run_mode_follows_threshold_and_threads() {
    assert!(matches!(run_mode(None, 499), RunMode::Sequential));
    assert!(matches!(run_mode(None, 500), RunMode::Parallel(None)));
    assert!(matches!(run_mode(Some(1), 5000), RunMode::Sequential));
    assert!(matches!(run_mode(Some(8), 3), RunMode::Parallel(Some(8))));
}

#[test]
fn empty_range_end_is_not_positive() {
    assert_eq!(parse_indices("5-"), Err(CustomError::VariantIndexLow));
    assert_eq!(parse_indices("-5"), Err(CustomError::VariantIndexLow));
    assert_eq!(parse_indices("2,-"), Err(CustomError::VariantIndexLow));
    assert_eq!(
        parse_indices("x-"),
        Err(CustomError::VariantIndexInt { arg: "x".to_string() })
    );
}
