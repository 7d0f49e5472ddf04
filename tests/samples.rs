use fastpmr::cli::load_sample_pairs_csv;
use fastpmr::error::CustomError;
use fastpmr::samples::{resolve_sample_pairs, sample_pairs_from_records, select_samples};

fn strings(v: &[&str]) -> Vec<String> {
    v.iter().map(|s| s.to_string()).collect()
}

#[test]
fn filters_requested_samples() {
    let samples = strings(&["A", "B", "C", "D"]);
    let filter = strings(&["A", "C"]);
    let (kept, indices) = select_samples(samples, Some(filter)).expect("filtering should succeed");
    assert_eq!(kept, vec!["A".to_string(), "C".to_string()]);
    assert_eq!(indices.unwrap(), vec![0, 2]);
}

#[test]
fn errors_on_missing_sample() {
    let samples = strings(&["A"]);
    let filter = strings(&["Z"]);
    let err = select_samples(samples, Some(filter)).unwrap_err();
    match err {
        CustomError::SamplePairUnknownSample { sample } => assert_eq!(sample, "Z"),
        other => panic!("unexpected error: {other:?}"),
    }
}

#[test]
fn select_without_filter_keeps_everything() {
    let samples = strings(&["A", "B"]);
    let (kept, indices) = select_samples(samples.clone(), None).unwrap();
    assert_eq!(kept, samples);
    assert!(indices.is_none());
}

#[test]
fn select_keeps_file_order_not_filter_order() {
    let samples = strings(&["A", "B", "C", "D"]);
    let (kept, indices) = select_samples(samples, Some(strings(&["D", "B"]))).unwrap();
    assert_eq!(kept, strings(&["B", "D"]));
    assert_eq!(indices.unwrap(), vec![1, 3]);
}

#[test]
fn resolve_sample_pairs_succeeds() {
    let samples = vec!["A".to_string(), "B".to_string(), "C".to_string()];
    let pairs = vec![
        ("A".to_string(), "C".to_string()),
        ("C".to_string(), "B".to_string()),
    ];
    let keep = resolve_sample_pairs(&samples, &pairs).expect("pairs should resolve");
    assert_eq!(keep.len(), 2);
    assert!(keep.contains(&(0, 2)));
    assert!(keep.contains(&(1, 2)));
}

#[test]
fn resolve_sample_pairs_rejects_unknown_sample() {
    let samples = vec!["A".to_string(), "B".to_string()];
    let pairs = vec![("A".to_string(), "Z".to_string())];
    let err = resolve_sample_pairs(&samples, &pairs).unwrap_err();
    match err {
        CustomError::SamplePairUnknownSample { sample } => assert_eq!(sample, "Z"),
        other => panic!("unexpected error: {other:?}"),
    }
}

#[test]
fn resolve_sample_pairs_rejects_duplicate_member() {
    let samples = vec!["A".to_string(), "B".to_string()];
    let pairs = vec![("A".to_string(), "A".to_string())];
    let err = resolve_sample_pairs(&samples, &pairs).unwrap_err();
    match err {
        CustomError::SamplePairDuplicate { sample } => assert_eq!(sample, "A"),
        other => panic!("unexpected error: {other:?}"),
    }
}

#[test]
fn resolve_sample_pairs_trims_and_dedups() {
    let samples = strings(&["A", "B", "C"]);
    let pairs = vec![
        (" B ".to_string(), "A".to_string()),
        ("A".to_string(), "B\t".to_string()),
    ];
    let keep = resolve_sample_pairs(&samples, &pairs).unwrap();
    assert_eq!(keep, vec![(0, 1)]);
}

#[test]
fn resolve_sample_pairs_rejects_empty_list() {
    let samples = strings(&["A", "B"]);
    let err = resolve_sample_pairs(&samples, &Vec::new()).unwrap_err();
    assert_eq!(err, CustomError::SamplePairsEmpty);
}

#[test]
fn records_skip_header_blank_and_incomplete_rows() {
    let records = vec![
        strings(&["ID1", "id2"]),
        strings(&["", " "]),
        strings(&["Sample1", "Sample2"]),
        strings(&["Sample3", ""]),
        strings(&[" Sample3 ", "Sample1"]),
    ];
    let pairs = sample_pairs_from_records(&records).unwrap();
    assert_eq!(
        pairs,
        vec![
            ("Sample1".to_string(), "Sample2".to_string()),
            ("Sample3".to_string(), "Sample1".to_string()),
        ]
    );
}

#[test]
fn records_need_two_columns() {
    let records = vec![strings(&["A", "B", "C"])];
    assert_eq!(sample_pairs_from_records(&records), Err(CustomError::SamplePairsColumns));
}

#[test]
fn records_without_pairs_are_rejected() {
    let records = vec![strings(&["id1", "id2"])];
    assert_eq!(sample_pairs_from_records(&records), Err(CustomError::SamplePairsEmpty));
}

#[test]
fn csv_bytes_give_pairs() {
    let data = b"Sample1,Sample2\nSample3,Sample1\nSample4,Sample2\n";
    let pairs = load_sample_pairs_csv(data).unwrap();
    assert_eq!(pairs.len(), 3);
    assert_eq!(pairs[1], ("Sample3".to_string(), "Sample1".to_string()));
}

#[test]
fn csv_with_unequal_rows_is_rejected() {
    let data = b"A,B\nC,D,E\n";
    assert_eq!(load_sample_pairs_csv(data), Err(CustomError::SamplePairsCsv));
}

#[test]
fn one_column_csv_asks_for_every_pair() {
    let pairs = load_sample_pairs_csv(b"S1\n\nS2\n S3 \n").unwrap();
    assert_eq!(
        pairs,
        vec![
            ("S1".to_string(), "S2".to_string()),
            ("S1".to_string(), "S3".to_string()),
            ("S2".to_string(), "S3".to_string()),
        ]
    );
    assert_eq!(load_sample_pairs_csv(b"S1\n"), Err(CustomError::SamplePairsEmpty));
}
