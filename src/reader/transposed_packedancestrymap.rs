use std::collections::HashSet;

use vstd::prelude::*;

use crate::error::CustomError;
use crate::model::{Allele, Site};
use crate::reader::common::{
    block_size_for, code_at, decode_geno_code, extract_code, first_out_of_range, geno_allele,
    geno_block_size, keeps, keeps_variant, set_view, smallest_out_of_range,
};
use crate::reader::header::{header_of, parse_header_block, Header};
use crate::reader::packedancestrymap::{reports_open, OpenProblem};
use crate::reader::plink::all_positions;
use crate::samples::{first_unknown, select_samples, selected_indices, views};

verus! {

broadcast use vstd::std_specs::hash::group_hash_axioms;

/// Bytes of the header block of a sample-major file.
pub const HEADER_BLOCK_SIZE: usize = 48;

/// The calls of variant `v` for the samples at `positions` in a
/// sample-major file: sample `s`'s block starts after the header at
/// `s * bs`, and holds the code of `v` in byte `v / 4`, most significant
/// pair first.
pub open spec fn transposed_site(file: Seq<u8>, positions: Seq<int>, bs: nat, v: int) -> Seq<Allele> {
    Seq::new(positions.len(), |x: int| geno_allele(code_at(file[48 + positions[x] * bs + v / 4], (6 - 2 * (v % 4)) as u8)))
}

/// What opening a sample-major `.geno` file gives, from the `.ind` sample
/// count, the `.snp` variant count, the whole `.geno` file and the requested
/// variants: `Ok` with the header's counts, or the first problem met.
pub open spec fn transposed_open_result(n_ind: nat, n_snp: nat, file: Seq<u8>, keep: Option<Set<usize>>) -> Result<(nat, nat), OpenProblem> {
    let bs = geno_block_size(n_snp);
    if file.len() < 48 {
        Err(OpenProblem::Other(CustomError::PackedAncestryMapFileSize))
    } else {
        match header_of(file.take(48), true) {
            Err(p) => Err(OpenProblem::Header(p)),
            Ok((n, v)) => if n_ind != n {
                Err(OpenProblem::Other(CustomError::PackedAncestryMapNAgreement { n_header: n as usize, n_ind: n_ind as usize }))
            } else if n < 2 {
                Err(OpenProblem::Other(CustomError::SampleCount { n_samples: n as usize }))
            } else if n_snp != v {
                Err(OpenProblem::Other(CustomError::PackedAncestryMapVAgreement { n_header: v as usize, n_snp: n_snp as usize }))
            } else if v < 1 {
                Err(OpenProblem::Other(CustomError::VariantCount { n_variants: v as usize }))
            } else if keep is Some && smallest_out_of_range(keep->Some_0, v) is Some {
                let b = smallest_out_of_range(keep->Some_0, v)->Some_0;
                Err(OpenProblem::Other(CustomError::VariantIndexHigh { idx: if b == usize::MAX { b } else { (b + 1) as usize }, n_variants: v as usize }))
            } else if file.len() != 48 + n * bs {
                Err(OpenProblem::Other(CustomError::PackedAncestryMapFileSize))
            } else {
                Ok((n, v))
            },
        }
    }
}

proof fn lemma_cell_in_matrix(n: int, bs: int, s: int, b: int)
    requires
        0 <= s < n,
        0 <= b < bs,
    ensures
        0 <= s * bs + b < n * bs,
        0 <= s * bs,
{
    assert(s * bs + bs <= n * bs) by (nonlinear_arith)
        requires
            s < n,
            0 <= bs,
    ;
    assert(0 <= s * bs) by (nonlinear_arith)
        requires
            0 <= s,
            0 <= bs,
    ;
}

/// Decoder for the sample-major packed layout: one block of
/// `max(48, ceil(v / 4))` bytes per sample, held in memory whole.
pub struct TransposedPackedAncestryMapReader {
    header: Header,
    samples: Vec<String>,
    sample_indices_to_keep: Option<Vec<usize>>,
    sample_block_size: usize,
    variant_indices_to_keep: Option<HashSet<usize>>,
    next_variant_idx: usize,
    genotype_matrix: Vec<u8>,
}

impl TransposedPackedAncestryMapReader {
    pub closed spec fn n_variants(&self) -> nat {
        self.header.n_variants as nat
    }

    pub closed spec fn n_samples_spec(&self) -> nat {
        self.header.n_samples as nat
    }

    pub closed spec fn cursor(&self) -> nat {
        self.next_variant_idx as nat
    }

    pub closed spec fn keep_set(&self) -> Option<Set<usize>> {
        set_view(self.variant_indices_to_keep)
    }

    pub closed spec fn sample_ids(&self) -> Seq<String> {
        self.samples@
    }

    /// The whole file, header block first.
    pub closed spec fn file(&self) -> Seq<u8> {
        self.genotype_matrix@
    }

    pub closed spec fn sample_block_len(&self) -> nat {
        self.sample_block_size as nat
    }

    /// File positions of the retained samples.
    pub closed spec fn positions(&self) -> Seq<int> {
        match self.sample_indices_to_keep {
            None => all_positions(self.header.n_samples as nat),
            Some(idx) => idx@.map_values(|i: usize| i as int),
        }
    }

    pub closed spec fn wf(&self) -> bool {
        &&& self.header.n_samples >= 2
        &&& (self.sample_indices_to_keep matches Some(idx) ==> forall|k: int| 0 <= k < idx.len() ==> #[trigger] idx@[k] < self.header.n_samples)
        &&& self.header.n_variants >= 1
        &&& self.sample_block_size == geno_block_size(self.header.n_variants as nat)
        &&& self.genotype_matrix.len() == 48 + self.header.n_samples * self.sample_block_size
        &&& self.next_variant_idx <= self.header.n_variants
        &&& (self.variant_indices_to_keep matches Some(s) ==> forall|i: usize| #[trigger] s@.contains(i) ==> i < self.header.n_variants)
    }

    /// Checks the whole `.geno` file against the sidecar counts and the
    /// requested variants, then keeps the requested samples; no trailing
    /// byte may follow the last sample block.
    pub fn open(samples: Vec<String>, n_snp: usize, file: Vec<u8>, samples_to_keep: Option<Vec<String>>, variant_indices_to_keep: Option<HashSet<usize>>) -> (r: Result<Self, CustomError>)
        ensures
            match transposed_open_result(samples.len() as nat, n_snp as nat, file@, set_view(variant_indices_to_keep)) {
                Ok((n, v)) => match samples_to_keep {
                    None => r matches Ok(reader) && reader.wf() && reader.sample_ids() == samples@
                        && reader.positions() == all_positions(samples.len() as nat),
                    Some(keep) => match first_unknown(views(samples@), views(keep@)) {
                        Some(name) => r matches Err(CustomError::SamplePairUnknownSample { sample }) && sample@ == name,
                        None => r matches Ok(reader) && reader.wf() && reader.positions() == selected_indices(views(samples@), views(keep@))
                            && forall|k: int| 0 <= k < reader.sample_ids().len() ==> (#[trigger] reader.sample_ids()[k])@
                                == samples@[selected_indices(views(samples@), views(keep@))[k]]@,
                    },
                },
                Err(p) => r is Err && reports_open(r->Err_0, p, true),
            },
            r matches Ok(reader) ==> reader.n_samples_spec() == samples.len() && reader.n_variants() == n_snp
                && reader.cursor() == 0 && reader.keep_set() == set_view(variant_indices_to_keep)
                && reader.file() == file@ && reader.sample_ids().len() == reader.positions().len(),
    {
        let sample_block_size = block_size_for(n_snp);
        if file.len() < HEADER_BLOCK_SIZE {
            return Err(CustomError::PackedAncestryMapFileSize);
        }
        let header_block = &file.as_slice()[0..HEADER_BLOCK_SIZE];
        assert(header_block@ =~= file@.take(48));
        let header = match parse_header_block(header_block, true) {
            Err(e) => {
                return Err(e);
            },
            Ok(h) => h,
        };
        if samples.len() != header.n_samples {
            return Err(CustomError::PackedAncestryMapNAgreement { n_header: header.n_samples, n_ind: samples.len() });
        }
        if header.n_samples < 2 {
            return Err(CustomError::SampleCount { n_samples: header.n_samples });
        }
        if n_snp != header.n_variants {
            return Err(CustomError::PackedAncestryMapVAgreement { n_header: header.n_variants, n_snp });
        }
        if header.n_variants < 1 {
            return Err(CustomError::VariantCount { n_variants: header.n_variants });
        }
        if let Some(set) = &variant_indices_to_keep {
            if let Some(bad_idx) = first_out_of_range(set, header.n_variants) {
                return Err(CustomError::VariantIndexHigh { idx: bad_idx.saturating_add(1), n_variants: header.n_variants });
            }
        }
        let payload = file.len() - HEADER_BLOCK_SIZE;
        match header.n_samples.checked_mul(sample_block_size) {
            None => {
                return Err(CustomError::PackedAncestryMapFileSize);
            },
            Some(expected) => {
                if payload != expected {
                    return Err(CustomError::PackedAncestryMapFileSize);
                }
            },
        }
        let (samples, sample_indices_to_keep) = match select_samples(samples, samples_to_keep) {
            Err(e) => {
                return Err(e);
            },
            Ok(selected) => selected,
        };
        let r = TransposedPackedAncestryMapReader {
            header,
            samples,
            sample_indices_to_keep,
            sample_block_size,
            variant_indices_to_keep,
            next_variant_idx: 0,
            genotype_matrix: file,
        };
        proof {
            if r.sample_indices_to_keep is None {
                assert(r.samples@.len() == all_positions(r.header.n_samples as nat).len());
            }
        }
        Ok(r)
    }

    /// Decodes variant `variant_idx` from the block of each retained sample.
    pub fn genotypes_for_variant(&self, variant_idx: usize) -> (r: Vec<Allele>)
        requires
            self.wf(),
            variant_idx < self.n_variants(),
        ensures
            r@ == transposed_site(self.file(), self.positions(), self.sample_block_len(), variant_idx as int),
    {
        let byte_idx = variant_idx / 4;
        let shift = (6 - 2 * (variant_idx % 4)) as u8;
        let n_samples = self.header.n_samples;
        let bs = self.sample_block_size;
        let ghost positions = self.positions();
        let ghost want = transposed_site(self.file(), positions, bs as nat, variant_idx as int);
        assert(byte_idx < bs);
        let count = match &self.sample_indices_to_keep {
            None => n_samples,
            Some(idx) => idx.len(),
        };
        let mut genotypes: Vec<Allele> = Vec::new();
        let mut x: usize = 0;
        while x < count
            invariant
                self.wf(),
                n_samples == self.header.n_samples,
                bs == self.sample_block_size,
                byte_idx == variant_idx / 4,
                byte_idx < bs,
                shift == (6 - 2 * (variant_idx % 4)) as u8,
                x <= count,
                positions == self.positions(),
                count == positions.len(),
                want == transposed_site(self.file(), positions, bs as nat, variant_idx as int),
                genotypes@ == want.take(x as int),
            decreases count - x,
        {
            let s = match &self.sample_indices_to_keep {
                None => x,
                Some(idx) => idx[x],
            };
            assert(s == positions[x as int]);
            proof {
                lemma_cell_in_matrix(n_samples as int, bs as int, s as int, byte_idx as int);
            }
            let matrix_idx = HEADER_BLOCK_SIZE + s * bs + byte_idx;
            let byte = self.genotype_matrix[matrix_idx];
            let code = extract_code(byte, shift);
            genotypes.push(decode_geno_code(code));
            assert(genotypes@ =~= want.take(x + 1));
            x += 1;
        }
        assert(want.take(count as int) =~= want);
        genotypes
    }

    /// The sample identifiers, in file order.
    pub fn samples(&self) -> (r: &Vec<String>)
        ensures
            r@ == self.sample_ids(),
    {
        &self.samples
    }

    /// Number of sites the stream yields.
    pub fn n_sites(&self) -> (r: usize)
        requires
            self.wf(),
        ensures
            r == match self.keep_set() {
                None => self.n_variants(),
                Some(s) => s.len(),
            },
    {
        match &self.variant_indices_to_keep {
            Some(set) => set.len(),
            None => self.header.n_variants,
        }
    }

    /// The next kept variant's site, in file order, or `None` once every
    /// variant has been passed.
    pub fn next(&mut self) -> (r: Option<Site>)
        requires
            old(self).wf(),
        ensures
            final(self).wf(),
            final(self).n_variants() == old(self).n_variants(),
            final(self).n_samples_spec() == old(self).n_samples_spec(),
            final(self).keep_set() == old(self).keep_set(),
            final(self).sample_ids() == old(self).sample_ids(),
            final(self).file() == old(self).file(),
            final(self).sample_block_len() == old(self).sample_block_len(),
            final(self).positions() == old(self).positions(),
            old(self).cursor() <= final(self).cursor() <= old(self).n_variants(),
            forall|w: int| old(self).cursor() <= w < final(self).cursor() - 1 ==> !keeps_variant(old(self).keep_set(), w),
            r is None ==> final(self).cursor() == old(self).n_variants() && (old(self).cursor() < final(self).cursor() ==> !keeps_variant(old(self).keep_set(), final(self).cursor() - 1)),
            r matches Some(s) ==> old(self).cursor() < final(self).cursor() && keeps_variant(old(self).keep_set(), final(self).cursor() - 1)
                && s@ == transposed_site(old(self).file(), old(self).positions(), old(self).sample_block_len(), final(self).cursor() - 1),
    {
        let ghost start = self.next_variant_idx;
        while self.next_variant_idx < self.header.n_variants
            invariant
                self.wf(),
                self.n_variants() == old(self).n_variants(),
                self.n_samples_spec() == old(self).n_samples_spec(),
                self.keep_set() == old(self).keep_set(),
                self.sample_ids() == old(self).sample_ids(),
                self.file() == old(self).file(),
                self.sample_block_len() == old(self).sample_block_len(),
                self.positions() == old(self).positions(),
                start == old(self).cursor(),
                start <= self.next_variant_idx,
                forall|w: int| start <= w < self.next_variant_idx ==> !keeps_variant(old(self).keep_set(), w),
            decreases self.header.n_variants - self.next_variant_idx,
        {
            let v = self.next_variant_idx;
            let keep = keeps(&self.variant_indices_to_keep, v);
            self.next_variant_idx += 1;
            if keep {
                let genotypes = self.genotypes_for_variant(v);
                return Some(Site { genotypes });
            }
        }
        None
    }
}

} // verus!
