use std::collections::HashSet;

use vstd::prelude::*;

use crate::error::CustomError;
use crate::model::{Allele, Site};
use crate::reader::common::{first_out_of_range, keeps, keeps_variant, set_view, smallest_out_of_range};
use crate::reader::plink::all_positions;
use crate::samples::{first_unknown, select_samples, selected_indices, views};
use crate::text::{chars_of, is_white_space, white_space};

verus! {

broadcast use vstd::std_specs::hash::group_hash_axioms;

/// The call a digit of a `.geno` text row stands for.
pub open spec fn digit_allele(c: char) -> Option<Allele> {
    if c == '0' {
        Some(Allele::Alt)
    } else if c == '1' {
        Some(Allele::Het)
    } else if c == '2' {
        Some(Allele::Ref)
    } else if c == '9' {
        Some(Allele::Missing)
    } else {
        None
    }
}

/// `s` with every white-space character taken out.
pub open spec fn strip_white_space(s: Seq<char>) -> Seq<char>
    decreases s.len(),
{
    if s.len() == 0 {
        seq![]
    } else {
        let r = strip_white_space(s.drop_last());
        if is_white_space(s.last()) {
            r
        } else {
            r.push(s.last())
        }
    }
}

/// Every retained position holds a known digit.
pub open spec fn row_valid(row: Seq<char>, positions: Seq<int>) -> bool {
    forall|x: int| 0 <= x < positions.len() ==> (#[trigger] digit_allele(row[positions[x]])) is Some
}

/// The calls of the retained samples in a stripped row.
pub open spec fn row_site(row: Seq<char>, positions: Seq<int>) -> Seq<Allele> {
    Seq::new(positions.len(), |x: int| digit_allele(row[positions[x]])->Some_0)
}

pub fn decode_digit(c: char) -> (r: Option<Allele>)
    ensures
        r == digit_allele(c),
{
    if c == '0' {
        Some(Allele::Alt)
    } else if c == '1' {
        Some(Allele::Het)
    } else if c == '2' {
        Some(Allele::Ref)
    } else if c == '9' {
        Some(Allele::Missing)
    } else {
        None
    }
}

/// The characters of `line` that are not white space.
pub fn stripped_chars(line: &str) -> (r: Vec<char>)
    ensures
        r@ == strip_white_space(line@),
{
    let cs = chars_of(line);
    let mut out: Vec<char> = Vec::new();
    let mut k: usize = 0;
    while k < cs.len()
        invariant
            k <= cs.len(),
            cs@ == line@,
            out@ == strip_white_space(cs@.take(k as int)),
        decreases cs.len() - k,
    {
        assert(cs@.take(k + 1).drop_last() =~= cs@.take(k as int));
        assert(cs@.take(k + 1).last() == cs@[k as int]);
        if !white_space(cs[k]) {
            out.push(cs[k]);
        }
        k += 1;
    }
    assert(cs@.take(cs.len() as int) =~= cs@);
    out
}

/// Decodes the retained samples of a stripped row; `None` when one of
/// them is not a known digit.
pub fn parse_variant_row(row: &Vec<char>, n_samples: usize, indices_to_keep: Option<&Vec<usize>>) -> (r: Option<Vec<Allele>>)
    requires
        row.len() == n_samples,
        indices_to_keep matches Some(idx) ==> forall|k: int| 0 <= k < idx.len() ==> #[trigger] idx@[k] < n_samples,
    ensures
        ({
            let positions = match indices_to_keep {
                None => all_positions(n_samples as nat),
                Some(idx) => idx@.map_values(|i: usize| i as int),
            };
            &&& r is Some <==> row_valid(row@, positions)
            &&& r matches Some(v) ==> v@ == row_site(row@, positions)
        }),
{
    let ghost positions = match indices_to_keep {
        None => all_positions(n_samples as nat),
        Some(idx) => idx@.map_values(|i: usize| i as int),
    };
    let count = match indices_to_keep {
        None => n_samples,
        Some(idx) => idx.len(),
    };
    let mut genotypes: Vec<Allele> = Vec::new();
    let mut x: usize = 0;
    while x < count
        invariant
            x <= count,
            count == positions.len(),
            row.len() == n_samples,
            indices_to_keep matches Some(idx) ==> forall|k: int| 0 <= k < idx.len() ==> #[trigger] idx@[k] < n_samples,
            positions == match indices_to_keep {
                None => all_positions(n_samples as nat),
                Some(idx) => idx@.map_values(|i: usize| i as int),
            },
            forall|y: int| 0 <= y < x ==> (#[trigger] digit_allele(row@[positions[y]])) is Some,
            genotypes@ == row_site(row@, positions).take(x as int),
        decreases count - x,
    {
        let sample_idx = match indices_to_keep {
            None => x,
            Some(idx) => idx[x],
        };
        assert(sample_idx == positions[x as int]);
        match decode_digit(row[sample_idx]) {
            None => {
                return None;
            },
            Some(a) => {
                genotypes.push(a);
            },
        }
        assert(genotypes@ =~= row_site(row@, positions).take(x + 1));
        x += 1;
    }
    assert(row_site(row@, positions).take(count as int) =~= row_site(row@, positions));
    Some(genotypes)
}

/// Streaming decoder for text `.geno` files: one row of digits per variant.
pub struct EigenstratReader {
    n_samples: usize,
    n_variants: usize,
    samples: Vec<String>,
    sample_indices_to_keep: Option<Vec<usize>>,
    variant_indices_to_keep: Option<HashSet<usize>>,
    next_variant_idx: usize,
}

/// The first problem that opening a text `.geno` file meets before samples
/// are selected.
pub open spec fn eigenstrat_open_problem(n_ind: nat, n_snp: nat, keep: Option<Set<usize>>) -> Option<CustomError> {
    if n_ind < 2 {
        Some(CustomError::SampleCount { n_samples: n_ind as usize })
    } else if n_snp < 1 {
        Some(CustomError::VariantCount { n_variants: n_snp as usize })
    } else if keep is Some && smallest_out_of_range(keep->Some_0, n_snp) is Some {
        let b = smallest_out_of_range(keep->Some_0, n_snp)->Some_0;
        Some(CustomError::VariantIndexHigh { idx: if b == usize::MAX { b } else { (b + 1) as usize }, n_variants: n_snp as usize })
    } else {
        None
    }
}

impl EigenstratReader {
    pub closed spec fn n_variants_spec(&self) -> nat {
        self.n_variants as nat
    }

    /// Samples in the `.ind` file; every row has this many digits.
    pub closed spec fn n_file_samples(&self) -> nat {
        self.n_samples as nat
    }

    pub closed spec fn cursor(&self) -> nat {
        self.next_variant_idx as nat
    }

    pub closed spec fn keep_set(&self) -> Option<Set<usize>> {
        set_view(self.variant_indices_to_keep)
    }

    pub closed spec fn sample_ids(&self) -> Seq<String> {
        self.samples@
    }

    pub closed spec fn positions(&self) -> Seq<int> {
        match self.sample_indices_to_keep {
            None => all_positions(self.n_samples as nat),
            Some(idx) => idx@.map_values(|i: usize| i as int),
        }
    }

    pub closed spec fn wf(&self) -> bool {
        &&& self.n_samples >= 2
        &&& self.n_variants >= 1
        &&& self.next_variant_idx <= self.n_variants
        &&& (self.sample_indices_to_keep matches Some(idx) ==> forall|k: int| 0 <= k < idx.len() ==> #[trigger] idx@[k] < self.n_samples)
        &&& (self.variant_indices_to_keep matches Some(s) ==> forall|i: usize| #[trigger] s@.contains(i) ==> i < self.n_variants)
    }

    /// Checks the sidecar counts and the requested variants, then keeps the
    /// requested samples.
    pub fn open(samples: Vec<String>, n_variants: usize, samples_to_keep: Option<Vec<String>>, variant_indices_to_keep: Option<HashSet<usize>>) -> (r: Result<Self, CustomError>)
        ensures
            match eigenstrat_open_problem(samples.len() as nat, n_variants as nat, set_view(variant_indices_to_keep)) {
                Some(e) => r == Err::<Self, CustomError>(e),
                None => match samples_to_keep {
                    None => r matches Ok(reader) && reader.wf() && reader.sample_ids() == samples@
                        && reader.positions() == all_positions(samples.len() as nat),
                    Some(keep) => match first_unknown(views(samples@), views(keep@)) {
                        Some(name) => r matches Err(CustomError::SamplePairUnknownSample { sample }) && sample@ == name,
                        None => r matches Ok(reader) && reader.wf() && reader.positions() == selected_indices(views(samples@), views(keep@))
                            && forall|k: int| 0 <= k < reader.sample_ids().len() ==> (#[trigger] reader.sample_ids()[k])@
                                == samples@[selected_indices(views(samples@), views(keep@))[k]]@,
                    },
                },
            },
            r matches Ok(reader) ==> reader.n_file_samples() == samples.len() && reader.n_variants_spec() == n_variants
                && reader.cursor() == 0 && reader.keep_set() == set_view(variant_indices_to_keep)
                && reader.sample_ids().len() == reader.positions().len(),
    {
        let n_samples = samples.len();
        if n_samples < 2 {
            return Err(CustomError::SampleCount { n_samples });
        }
        if n_variants < 1 {
            return Err(CustomError::VariantCount { n_variants });
        }
        if let Some(set) = &variant_indices_to_keep {
            if let Some(bad_idx) = first_out_of_range(set, n_variants) {
                return Err(CustomError::VariantIndexHigh { idx: bad_idx.saturating_add(1), n_variants });
            }
        }
        let (samples, sample_indices_to_keep) = match select_samples(samples, samples_to_keep) {
            Err(e) => {
                return Err(e);
            },
            Ok(selected) => selected,
        };
        let r = EigenstratReader {
            n_samples,
            n_variants,
            samples,
            sample_indices_to_keep,
            variant_indices_to_keep,
            next_variant_idx: 0,
        };
        proof {
            if r.sample_indices_to_keep is None {
                assert(r.samples@.len() == all_positions(n_samples as nat).len());
            }
        }
        Ok(r)
    }

    /// The retained sample identifiers, in file order.
    pub fn samples(&self) -> (r: &Vec<String>)
        ensures
            r@ == self.sample_ids(),
    {
        &self.samples
    }

    /// Number of sites the stream yields.
    pub fn n_sites(&self) -> (r: usize)
        requires
            self.wf(),
        ensures
            r == match self.keep_set() {
                None => self.n_variants_spec(),
                Some(s) => s.len(),
            },
    {
        match &self.variant_indices_to_keep {
            Some(set) => set.len(),
            None => self.n_variants,
        }
    }

    /// Whether another row is to be read.
    pub fn wants_line(&self) -> (r: bool)
        ensures
            r == (self.cursor() < self.n_variants_spec()),
    {
        self.next_variant_idx < self.n_variants
    }

    /// Takes the next row: its site when the variant is kept. A kept row
    /// whose digits, white space taken out, are not one per sample, or that
    /// holds an unknown digit for a retained sample, ends the stream with an
    /// error naming its 1-based line.
    pub fn accept_line(&mut self, line: &str) -> (r: Result<Option<Site>, CustomError>)
        requires
            old(self).wf(),
            old(self).cursor() < old(self).n_variants_spec(),
        ensures
            final(self).wf(),
            final(self).n_variants_spec() == old(self).n_variants_spec(),
            final(self).n_file_samples() == old(self).n_file_samples(),
            final(self).keep_set() == old(self).keep_set(),
            final(self).sample_ids() == old(self).sample_ids(),
            final(self).positions() == old(self).positions(),
            ({
                let row = strip_white_space(line@);
                let line_num = old(self).cursor() + 1;
                if !keeps_variant(old(self).keep_set(), old(self).cursor() as int) {
                    r == Ok::<Option<Site>, CustomError>(None) && final(self).cursor() == line_num
                } else if row.len() != old(self).n_file_samples() {
                    r matches Err(CustomError::EigenstratGenoFields { line_num: l, n_fields, expected })
                        && l == line_num && n_fields == row.len() && expected == old(self).n_file_samples()
                        && final(self).cursor() == final(self).n_variants_spec()
                } else if !row_valid(row, old(self).positions()) {
                    r matches Err(CustomError::EigenstratGenoCode { line_num: l }) && l == line_num
                        && final(self).cursor() == final(self).n_variants_spec()
                } else {
                    r matches Ok(Some(s)) && s@ == row_site(row, old(self).positions())
                        && final(self).cursor() == line_num
                }
            }),
    {
        let keep = keeps(&self.variant_indices_to_keep, self.next_variant_idx);
        let line_num = self.next_variant_idx + 1;
        self.next_variant_idx += 1;
        if !keep {
            return Ok(None);
        }
        let row = stripped_chars(line);
        if row.len() != self.n_samples {
            self.next_variant_idx = self.n_variants;
            return Err(CustomError::EigenstratGenoFields { line_num, n_fields: row.len(), expected: self.n_samples });
        }
        match parse_variant_row(&row, self.n_samples, self.sample_indices_to_keep.as_ref()) {
            None => {
                self.next_variant_idx = self.n_variants;
                Err(CustomError::EigenstratGenoCode { line_num })
            },
            Some(genotypes) => Ok(Some(Site { genotypes })),
        }
    }

    /// Ends the stream at an early end of file, reporting how many rows there were.
    pub fn at_eof(&mut self) -> (r: CustomError)
        requires
            old(self).wf(),
        ensures
            final(self).wf(),
            final(self).cursor() == final(self).n_variants_spec(),
            final(self).n_variants_spec() == old(self).n_variants_spec(),
            final(self).n_file_samples() == old(self).n_file_samples(),
            final(self).keep_set() == old(self).keep_set(),
            final(self).sample_ids() == old(self).sample_ids(),
            final(self).positions() == old(self).positions(),
            r matches CustomError::EigenstratGenoVariantCount { expected, found } && expected == old(self).n_variants_spec()
                && found == old(self).cursor(),
    {
        let found = self.next_variant_idx;
        self.next_variant_idx = self.n_variants;
        CustomError::EigenstratGenoVariantCount { expected: self.n_variants, found }
    }

    /// Ends the stream after a failed read: nothing more is yielded.
    pub fn poison(&mut self)
        requires
            old(self).wf(),
        ensures
            final(self).wf(),
            final(self).cursor() == final(self).n_variants_spec(),
            final(self).n_variants_spec() == old(self).n_variants_spec(),
            final(self).n_file_samples() == old(self).n_file_samples(),
            final(self).keep_set() == old(self).keep_set(),
            final(self).sample_ids() == old(self).sample_ids(),
            final(self).positions() == old(self).positions(),
    {
        self.next_variant_idx = self.n_variants;
    }
}

} // verus!
