use fastpmr::counts::Counts;
use fastpmr::coverage::{pairs_to_count, Coverage};
use fastpmr::cli::pair_restriction;
use fastpmr::model::{Allele, Site};

use Allele::{Alt, Het, Missing, Ref};

fn names(v: &[&str]) -> Vec<String> {
    v.iter().map(|s| s.to_string()).collect()
}

fn site(g: &[Allele]) -> Site {
    Site { genotypes: g.to_vec() }
}

fn accumulate(samples: &[&str], pairs: Option<Vec<(usize, usize)>>, sites: &[Site]) -> Counts {
    let mut counts = Counts::new(names(samples), pairs);
    for s in sites {
        counts.add_site(s);
    }
    counts
}

#[test]
fn should_count_pair_respects_restrictions() {
    let counts = Counts::new(
        vec!["A".to_string(), "B".to_string(), "C".to_string()],
        Some(vec![(0, 2)]),
    );
    assert!(counts.should_count_pair(0, 2));
    assert!(counts.should_count_pair(2, 0));
    assert!(!counts.should_count_pair(0, 1));
    assert!(!counts.should_count_pair(1, 2));
}

#[test]
fn should_count_pair_defaults_to_all_pairs() {
    let counts = Counts::new(vec!["A".to_string(), "B".to_string()], None);
    assert!(counts.should_count_pair(0, 1));
    assert!(counts.should_count_pair(1, 0));
    assert!(!counts.should_count_pair(0, 0));
}

#[test]
fn mismatch_table() {
    assert_eq!(Ref.mismatch(Ref), 0);
    assert_eq!(Ref.mismatch(Het), 1);
    assert_eq!(Ref.mismatch(Alt), 2);
    assert_eq!(Alt.mismatch(Ref), 2);
    assert_eq!(Het.mismatch(Het), 1);
    assert_eq!(Alt.mismatch(Alt), 0);
    assert_eq!(Missing.mismatch(Alt), 0);
    assert_eq!(Het.mismatch(Missing), 0);
}

#[test]
fn cell_address_is_symmetric() {
    let counts = accumulate(&["A", "B", "C"], None, &[site(&[Ref, Alt, Het])]);
    assert_eq!(counts.idx(0, 2), 2);
    assert_eq!(counts.idx(2, 0), 2);
    assert_eq!(counts.idx(1, 2), 5);
    for i in 0..3 {
        for j in 0..3 {
            assert_eq!(counts.mismatch_count(i, j), counts.mismatch_count(j, i));
            assert_eq!(counts.total_count(i, j), counts.total_count(j, i));
            assert_eq!(counts.mismatch_rate(i, j), counts.mismatch_rate(j, i));
        }
    }
    assert_eq!(counts.mismatch_count(0, 1), 2);
    assert_eq!(counts.mismatch_count(2, 1), 1);
}

#[test]
fn missing_call_contributes_nothing() {
    for partner in [Ref, Het, Alt, Missing] {
        let sites = vec![site(&[Ref, Ref, Ref]), site(&[Missing, partner, Alt])];
        let counts = accumulate(&["X", "Y", "Z"], None, &sites);
        assert_eq!(counts.mismatch_count(0, 1), 0);
        assert_eq!(counts.overlap(0, 1), 1);
        assert_eq!(counts.overlap(0, 2), 1);
        assert_eq!(counts.mismatch_count(0, 2), 0);
    }
}

#[test]
fn rate_is_undefined_without_overlap() {
    let counts = accumulate(&["A", "B"], None, &[site(&[Missing, Ref]), site(&[Alt, Missing])]);
    assert_eq!(counts.total_count(0, 1), 0);
    assert_eq!(counts.mismatch_rate(0, 1), None);
    let counts = accumulate(&["A", "B"], None, &[site(&[Het, Ref]), site(&[Alt, Missing]), site(&[Ref, Ref])]);
    assert_eq!(counts.overlap(0, 1), 2);
    assert_eq!(counts.total_count(0, 1), 4);
    assert_eq!(counts.mismatch_rate(0, 1), Some((1, 4)));
    assert_eq!(counts.n_sites(), 3);
}

#[test]
fn full_matrices_are_symmetric_with_zero_diagonal() {
    let counts = accumulate(&["A", "B", "C"], None, &[site(&[Ref, Alt, Missing]), site(&[Het, Het, Het])]);
    let m = counts.mismatches_2d();
    let t = counts.totals_2d();
    let o = counts.site_overlaps_2d();
    assert_eq!(m, vec![0, 3, 1, 3, 0, 1, 1, 1, 0]);
    assert_eq!(t, vec![0, 4, 2, 4, 0, 2, 2, 2, 0]);
    assert_eq!(o, vec![0, 2, 1, 2, 0, 1, 1, 1, 0]);
    let flat = counts.site_overlaps();
    assert_eq!(flat, vec![0, 2, 1, 0, 0, 1, 0, 0, 0]);
    assert_eq!(counts.samples(), names(&["A", "B", "C"]));
    assert_eq!(counts.n_samples(), 3);
}

fn stream() -> Vec<Site> {
    let mut sites = Vec::new();
    for k in 0..40 {
        let a = [Ref, Het, Alt, Missing][k % 4];
        let b = [Alt, Alt, Het, Ref, Missing][k % 5];
        let c = [Het, Missing, Ref][k % 3];
        sites.push(site(&[a, b, c, Ref]));
    }
    sites
}

fn parallel(workers: usize, sites: &[Site], pairs: Option<Vec<(usize, usize)>>) -> Counts {
    let samples = ["A", "B", "C", "D"];
    let mut locals: Vec<Counts> = (0..workers).map(|_| Counts::new(names(&samples), pairs.clone())).collect();
    for (k, s) in sites.iter().enumerate() {
        locals[(k * 7 + k / 3) % workers].add_site(s);
    }
    let mut total = Counts::new(names(&samples), pairs);
    for local in &locals {
        total.merge(local);
    }
    total
}

#[test]
fn parallel_and_sequential_agree() {
    let sites = stream();
    for pairs in [None, Some(vec![(0, 1), (3, 2)])] {
        let sequential = accumulate(&["A", "B", "C", "D"], pairs.clone(), &sites);
        for workers in [1, 2, 8] {
            let merged = parallel(workers, &sites, pairs.clone());
            assert_eq!(merged.mismatches_2d(), sequential.mismatches_2d());
            assert_eq!(merged.totals_2d(), sequential.totals_2d());
            assert_eq!(merged.n_sites(), 40);
        }
    }
}

#[test]
fn four_sample_scenario() {
    let mut sites = Vec::new();
    for _ in 0..14_999 {
        sites.push(site(&[Ref, Alt, Alt, Alt]));
    }
    for _ in 0..15_001 {
        sites.push(site(&[Het, Het, Het, Het]));
    }
    sites.push(site(&[Alt, Alt, Alt, Alt]));
    sites.push(site(&[Missing, Alt, Alt, Alt]));
    let counts = accumulate(&["S0", "S1", "S2", "S3"], None, &sites);
    assert_eq!(counts.overlap(0, 1), 30_001);
    assert_eq!(counts.mismatch_count(0, 1), 14_999 * 2 + 15_001);
    assert_eq!(counts.overlap(1, 2), 30_002);
    assert_eq!(counts.mismatch_rate(1, 2), Some((15_001, 60_004)));
}

#[test]
fn listed_pair_with_coverage_threshold() {
    let samples = names(&["A", "B", "C", "D"]);
    let sites = vec![
        site(&[Ref, Alt, Missing, Ref]),
        site(&[Het, Ref, Missing, Alt]),
        site(&[Alt, Alt, Ref, Missing]),
    ];
    let mut coverage = Coverage::new(4);
    for s in &sites {
        coverage.add_site(s);
    }
    assert_eq!(coverage.counts(), &vec![3, 3, 1, 2]);
    let requested = vec![("A".to_string(), "B".to_string())];
    let pairs = pair_restriction(&samples, Some(&requested), coverage.counts(), 1).unwrap();
    assert_eq!(pairs, Some(vec![(0, 1)]));
    let counts = accumulate(&["A", "B", "C", "D"], pairs, &sites);
    assert_eq!(counts.overlap(0, 1), 3);
    for (i, j) in [(0, 2), (0, 3), (1, 2), (1, 3), (2, 3)] {
        assert_eq!(counts.overlap(i, j), 0);
        assert_eq!(counts.mismatch_rate(i, j), None);
    }
}

#[test]
fn coverage_threshold_without_pairs() {
    let coverage = vec![5, 1, 7];
    assert_eq!(pairs_to_count(3, None, &coverage, 0), None);
    assert_eq!(pairs_to_count(3, None, &coverage, 4), Some(vec![(0, 2)]));
    assert_eq!(pairs_to_count(3, None, &vec![5, 6, 7], 4), None);
    assert_eq!(pairs_to_count(3, Some(vec![(1, 0), (2, 2)]), &coverage, 0), Some(vec![(1, 0)]));
}

#[test]
fn listed_pairs_with_unknown_sample_fail() {
    let samples = names(&["A", "B"]);
    let requested = vec![("A".to_string(), "Q".to_string())];
    assert!(pair_restriction(&samples, Some(&requested), &vec![], 0).is_err());
    assert_eq!(pair_restriction(&samples, None, &vec![], 0), Ok(None));
}
