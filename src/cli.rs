use std::collections::HashSet;

use vstd::prelude::*;

use crate::coverage::{pairs_to_count, passes};
use crate::counts::pair_listed;
use crate::error::CustomError;
use crate::restrict::{holds_indices, parse_indices, reports, variant_indices_of};
use crate::samples::{
    pair_set, pair_views, record_views, requested_pairs, reports_pair, resolve_sample_pairs,
    resolved_pairs, sample_pairs_from_records, views,
};

verus! {

broadcast use vstd::std_specs::hash::group_hash_axioms;

/// Sample count from which pairs are accumulated in parallel when no thread
/// count is given.
pub const PARALLEL_THRESHOLD: usize = 500;

/// What the command line asks for.
pub struct Args {
    /// Input file prefix.
    pub prefix: String,
    /// Output directory.
    pub output_directory: String,
    /// Write count matrices instead of a table of rates.
    pub npz: bool,
    /// CSV file listing the sample pairs to compute.
    pub sample_pairs_csv: Option<String>,
    /// 1-based inclusive ranges of variant indices to keep.
    pub variant_indices_spec: Option<String>,
    /// Number of threads.
    pub threads: Option<usize>,
}

/// The resolved inputs of a run.
pub enum InputSpec {
    PackedAncestryMap {
        ind: String,
        geno: String,
        snp: String,
        output_dir: String,
        npz: bool,
        sample_pairs: Option<Vec<(String, String)>>,
        variant_indices: Option<HashSet<usize>>,
        threads: Option<usize>,
    },
}

/// `s` followed by `suffix`.
fn with_suffix(s: &str, suffix: &str) -> (r: String)
    ensures
        r@ == s@ + suffix@,
{
    s.to_owned().concat(suffix)
}

impl InputSpec {
    /// The `.ind`, `.geno` and `.snp` files that share `prefix`.
    pub fn from_prefix_packedancestrymap(
        prefix: &str,
        output_dir: &str,
        npz: bool,
        sample_pairs: Option<Vec<(String, String)>>,
        variant_indices: Option<HashSet<usize>>,
        threads: Option<usize>,
    ) -> (r: Self)
        ensures
            r matches InputSpec::PackedAncestryMap { ind, geno, snp, output_dir: o, npz: z, sample_pairs: p, variant_indices: v, threads: t }
                && ind@ == prefix@ + seq!['.', 'i', 'n', 'd'] && geno@ == prefix@ + seq!['.', 'g', 'e', 'n', 'o']
                && snp@ == prefix@ + seq!['.', 's', 'n', 'p'] && o@ == output_dir@ && z == npz && p == sample_pairs
                && v == variant_indices && t == threads,
    {
        proof {
            reveal_strlit(".ind");
            reveal_strlit(".geno");
            reveal_strlit(".snp");
        }
        InputSpec::PackedAncestryMap {
            ind: with_suffix(prefix, ".ind"),
            geno: with_suffix(prefix, ".geno"),
            snp: with_suffix(prefix, ".snp"),
            output_dir: output_dir.to_owned(),
            npz,
            sample_pairs,
            variant_indices,
            threads,
        }
    }

    pub fn ind(&self) -> (r: &String)
        ensures
            self matches InputSpec::PackedAncestryMap { ind, .. } && r == ind,
    {
        match self {
            InputSpec::PackedAncestryMap { ind, .. } => ind,
        }
    }

    pub fn geno(&self) -> (r: &String)
        ensures
            self matches InputSpec::PackedAncestryMap { geno, .. } && r == geno,
    {
        match self {
            InputSpec::PackedAncestryMap { geno, .. } => geno,
        }
    }

    pub fn snp(&self) -> (r: &String)
        ensures
            self matches InputSpec::PackedAncestryMap { snp, .. } && r == snp,
    {
        match self {
            InputSpec::PackedAncestryMap { snp, .. } => snp,
        }
    }

    pub fn output_dir(&self) -> (r: &String)
        ensures
            self matches InputSpec::PackedAncestryMap { output_dir, .. } && r == output_dir,
    {
        match self {
            InputSpec::PackedAncestryMap { output_dir, .. } => output_dir,
        }
    }

    pub fn npz(&self) -> (r: bool)
        ensures
            self matches InputSpec::PackedAncestryMap { npz, .. } && r == npz,
    {
        match self {
            InputSpec::PackedAncestryMap { npz, .. } => *npz,
        }
    }

    pub fn sample_pairs(&self) -> (r: Option<&Vec<(String, String)>>)
        ensures
            self matches InputSpec::PackedAncestryMap { sample_pairs, .. } && match sample_pairs {
                None => r is None,
                Some(p) => r is Some && *r->Some_0 == p,
            },
    {
        match self {
            InputSpec::PackedAncestryMap { sample_pairs, .. } => sample_pairs.as_ref(),
        }
    }

    pub fn variant_indices(&self) -> (r: Option<&HashSet<usize>>)
        ensures
            self matches InputSpec::PackedAncestryMap { variant_indices, .. } && match variant_indices {
                None => r is None,
                Some(v) => r is Some && *r->Some_0 == v,
            },
    {
        match self {
            InputSpec::PackedAncestryMap { variant_indices, .. } => variant_indices.as_ref(),
        }
    }

    pub fn threads(&self) -> (r: Option<usize>)
        ensures
            self matches InputSpec::PackedAncestryMap { threads, .. } && r == threads,
    {
        match self {
            InputSpec::PackedAncestryMap { threads, .. } => *threads,
        }
    }
}

/// Resolves the command line: the variant specification is parsed, and the
/// pairs read from the CSV file that `args` names are carried along.
pub fn build_input_spec(args: &Args, sample_pairs: Option<Vec<(String, String)>>) -> (r: Result<InputSpec, CustomError>)
    ensures
        match args.variant_indices_spec {
            None => r matches Ok(InputSpec::PackedAncestryMap { variant_indices, .. }) && variant_indices is None,
            Some(s) => match variant_indices_of(s@) {
                Ok(set) => r matches Ok(InputSpec::PackedAncestryMap { variant_indices, .. })
                    && variant_indices is Some && holds_indices(variant_indices->Some_0@, set),
                Err(p) => r is Err && reports(r->Err_0, p),
            },
        },
        r matches Ok(InputSpec::PackedAncestryMap { ind, geno, snp, output_dir, npz, sample_pairs: p, threads, .. })
            ==> ind@ == args.prefix@ + seq!['.', 'i', 'n', 'd'] && geno@ == args.prefix@ + seq!['.', 'g', 'e', 'n', 'o']
            && snp@ == args.prefix@ + seq!['.', 's', 'n', 'p'] && output_dir@ == args.output_directory@
            && npz == args.npz && p == sample_pairs && threads == args.threads,
{
    let variant_indices = match &args.variant_indices_spec {
        Some(spec) => match parse_indices(spec.as_str()) {
            Err(e) => {
                return Err(e);
            },
            Ok(v) => Some(v),
        },
        None => None,
    };
    Ok(InputSpec::from_prefix_packedancestrymap(
        args.prefix.as_str(),
        args.output_directory.as_str(),
        args.npz,
        sample_pairs,
        variant_indices,
        args.threads,
    ))
}

/// The records of a CSV text without a header row, each a list of fields.
pub uninterp spec fn csv_records(data: Seq<u8>) -> Option<Seq<Seq<Seq<char>>>>;

/// Relies on the `csv` crate's reader, configured without a header row: the
/// records of `data`, or `None` when it is not well-formed CSV (for instance
/// rows of unequal length).
#[verifier::external_body]
fn read_csv_records(data: &[u8]) -> (r: Option<Vec<Vec<String>>>)
    ensures
        match csv_records(data@) {
            None => r is None,
            Some(recs) => r is Some && record_views(r->Some_0@) == recs,
        },
{
    let mut reader = csv::ReaderBuilder::new().has_headers(false).from_reader(data);
    let mut out = Vec::new();
    for record in reader.records() {
        match record {
            Ok(rec) => out.push(rec.iter().map(|f| f.to_string()).collect()),
            Err(_) => return None,
        }
    }
    Some(out)
}

/// Sample pairs that the bytes of a sample CSV file ask for: every pair of
/// the listed samples with one column, the listed pairs with two.
pub fn load_sample_pairs_csv(data: &[u8]) -> (r: Result<Vec<(String, String)>, CustomError>)
    ensures
        match csv_records(data@) {
            None => r matches Err(CustomError::SamplePairsCsv),
            Some(recs) => match requested_pairs(recs) {
                None => r matches Err(CustomError::SamplePairsColumns),
                Some(ps) => if ps.len() == 0 {
                    r matches Err(CustomError::SamplePairsEmpty)
                } else {
                    r is Ok && pair_views(r->Ok_0@) == ps
                },
            },
        },
{
    match read_csv_records(data) {
        None => Err(CustomError::SamplePairsCsv),
        Some(records) => sample_pairs_from_records(&records),
    }
}

/// How the pairwise accumulation runs.
pub enum RunMode {
    Sequential,
    /// On a pool of this many threads, or the default pool.
    Parallel(Option<usize>),
}

/// Sequential for one thread, or for fewer than `PARALLEL_THRESHOLD`
/// samples when no thread count is given; parallel otherwise.
pub fn run_mode(threads: Option<usize>, n_samples: usize) -> (r: RunMode)
    ensures
        r is Sequential <==> ((threads is None && n_samples < PARALLEL_THRESHOLD) || threads == Some(1usize)),
        r matches RunMode::Parallel(t) ==> t == threads,
{
    match threads {
        None => if n_samples < PARALLEL_THRESHOLD {
            RunMode::Sequential
        } else {
            RunMode::Parallel(None)
        },
        Some(n) => if n == 1 {
            RunMode::Sequential
        } else {
            RunMode::Parallel(Some(n))
        },
    }
}

/// The pairs to compute for `samples`: the requested pairs when a list is
/// given, every pair otherwise, less those involving a sample at or below
/// the coverage threshold; `None` when that is every pair.
pub fn pair_restriction(samples: &Vec<String>, sample_pairs: Option<&Vec<(String, String)>>, coverage: &Vec<u64>, min_coverage: u64) -> (r: Result<Option<Vec<(usize, usize)>>, CustomError>)
    requires
        min_coverage > 0 ==> coverage.len() == samples.len(),
    ensures
        sample_pairs matches Some(p) && resolved_pairs(views(samples@), pair_views(p@)) is Err ==> r is Err
            && reports_pair(r->Err_0, resolved_pairs(views(samples@), pair_views(sample_pairs->Some_0@))->Err_0),
        r is Ok ==> (r->Ok_0 is None <==> (sample_pairs is None && forall|i: int| 0 <= i < samples.len() ==> #[trigger] passes(coverage@, min_coverage, i))),
        r matches Ok(Some(q)) ==> forall|k: int| 0 <= k < q.len() ==> (#[trigger] q@[k]).0 < samples.len() && q@[k].1 < samples.len(),
        r matches Ok(Some(q)) ==> forall|i: int, j: int| 0 <= i < samples.len() && 0 <= j < samples.len() ==> (#[trigger] pair_listed(q@, i, j) <==> (i != j && passes(coverage@, min_coverage, i) && passes(coverage@, min_coverage, j) && match sample_pairs {
            None => true,
            Some(p) => resolved_pairs(views(samples@), pair_views(p@))->Ok_0.contains(if i < j { (i, j) } else { (j, i) }),
        })),
        sample_pairs is None ==> r is Ok,
        sample_pairs matches Some(p) && resolved_pairs(views(samples@), pair_views(p@)) is Ok ==> r is Ok,
{
    let explicit = match sample_pairs {
        None => None,
        Some(p) => match resolve_sample_pairs(samples, p) {
            Err(e) => {
                return Err(e);
            },
            Ok(v) => Some(v),
        },
    };
    let r = pairs_to_count(samples.len(), explicit, coverage, min_coverage);
    proof {
        if let Some(p) = sample_pairs {
            let v = explicit->Some_0@;
            let set = resolved_pairs(views(samples@), pair_views(p@))->Ok_0;
            assert forall|i: int, j: int| 0 <= i < samples.len() && 0 <= j < samples.len() && i != j implies #[trigger] pair_listed(v, i, j) == set.contains(if i < j { (i, j) } else { (j, i) }) by {
                let q = if i < j { (i, j) } else { (j, i) };
                if pair_listed(v, i, j) {
                    let k = choose|k: int| 0 <= k < v.len() && ((v[k].0 == i && v[k].1 == j) || (v[k].0 == j && v[k].1 == i));
                    assert(pair_set(v).contains((v[k].0 as int, v[k].1 as int)));
                }
                if set.contains(q) {
                    assert(pair_set(v).contains(q));
                    let k = choose|k: int| 0 <= k < v.len() && q == (v[k].0 as int, v[k].1 as int);
                    assert((v[k].0 == i && v[k].1 == j) || (v[k].0 == j && v[k].1 == i));
                }
            }
        }
    }
    Ok(r)
}

} // verus!
