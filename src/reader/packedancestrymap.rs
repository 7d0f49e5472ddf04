use std::collections::HashSet;

use vstd::prelude::*;

use crate::error::CustomError;
use crate::model::{Allele, Site};
use crate::reader::common::{
    block_size_for, code_at, decode_geno_code, extract_code, first_out_of_range, geno_allele,
    geno_block_size, keeps, keeps_variant, packed_bytes, set_view, smallest_out_of_range,
};
use crate::reader::header::{header_of, parse_header_block, reports_header, Header, HeaderProblem};
use crate::reader::plink::all_positions;
use crate::samples::{first_unknown, select_samples, selected_indices, views};

verus! {

broadcast use vstd::std_specs::hash::group_hash_axioms;

/// The call of sample `i` in a variant-major block: byte `i / 4`, most
/// significant pair first.
pub open spec fn packed_allele(block: Seq<u8>, i: int) -> Allele {
    geno_allele(code_at(block[i / 4], (6 - 2 * (i % 4)) as u8))
}

/// The calls of the samples at `positions` in a variant-major block.
pub open spec fn packed_site(block: Seq<u8>, positions: Seq<int>) -> Seq<Allele> {
    Seq::new(positions.len(), |x: int| packed_allele(block, positions[x]))
}

/// Decodes a variant-major block: every sample, or only those kept.
pub fn parse_variant_block(block: &[u8], n_samples: usize, indices_to_keep: Option<&Vec<usize>>) -> (r: Vec<Allele>)
    requires
        packed_bytes(n_samples as nat) <= block.len(),
        indices_to_keep matches Some(idx) ==> forall|k: int| 0 <= k < idx.len() ==> #[trigger] idx@[k] < n_samples,
    ensures
        r@ == packed_site(block@, match indices_to_keep {
            None => all_positions(n_samples as nat),
            Some(idx) => idx@.map_values(|i: usize| i as int),
        }),
{
    let ghost positions = match indices_to_keep {
        None => all_positions(n_samples as nat),
        Some(idx) => idx@.map_values(|i: usize| i as int),
    };
    let count = match indices_to_keep {
        None => n_samples,
        Some(idx) => idx.len(),
    };
    let mut genotypes: Vec<Allele> = Vec::new();
    let mut x: usize = 0;
    while x < count
        invariant
            x <= count,
            count == positions.len(),
            packed_bytes(n_samples as nat) <= block.len(),
            indices_to_keep matches Some(idx) ==> forall|k: int| 0 <= k < idx.len() ==> #[trigger] idx@[k] < n_samples,
            positions == match indices_to_keep {
                None => all_positions(n_samples as nat),
                Some(idx) => idx@.map_values(|i: usize| i as int),
            },
            genotypes@ == packed_site(block@, positions).take(x as int),
        decreases count - x,
    {
        let i = match indices_to_keep {
            None => x,
            Some(idx) => idx[x],
        };
        assert(i == positions[x as int]);
        assert(i / 4 < packed_bytes(n_samples as nat));
        let byte = block[i / 4];
        let shift = (6 - 2 * (i % 4)) as u8;
        let code = extract_code(byte, shift);
        genotypes.push(decode_geno_code(code));
        assert(genotypes@ =~= packed_site(block@, positions).take(x + 1));
        x += 1;
    }
    assert(packed_site(block@, positions).take(count as int) =~= packed_site(block@, positions));
    genotypes
}

/// Why opening a packed `.geno` file fails.
pub enum OpenProblem {
    Header(HeaderProblem),
    Other(CustomError),
}

/// The error that reports `p`.
pub open spec fn reports_open(e: CustomError, p: OpenProblem, transposed: bool) -> bool {
    match p {
        OpenProblem::Header(h) => reports_header(e, h, transposed),
        OpenProblem::Other(o) => e == o,
    }
}

/// What opening a variant-major `.geno` file gives, from the `.ind` sample
/// identifiers, the `.snp` variant count, the start of the `.geno` file and
/// the requested variants: `Ok` with the header's counts, or the first
/// problem met.
pub open spec fn packed_open_result(n_ind: nat, n_snp: nat, start: Seq<u8>, keep: Option<Set<usize>>) -> Result<(nat, nat), OpenProblem> {
    let bs = geno_block_size(n_ind);
    if start.len() < bs {
        Err(OpenProblem::Other(CustomError::PackedAncestryMapFileSize))
    } else {
        match header_of(start.take(bs as int), false) {
            Err(p) => Err(OpenProblem::Header(p)),
            Ok((n, v)) => if n_ind != n {
                Err(OpenProblem::Other(CustomError::PackedAncestryMapNAgreement { n_header: n as usize, n_ind: n_ind as usize }))
            } else if n < 2 {
                Err(OpenProblem::Other(CustomError::SampleCount { n_samples: n as usize }))
            } else if n_snp != v {
                Err(OpenProblem::Other(CustomError::PackedAncestryMapVAgreement { n_header: v as usize, n_snp: n_snp as usize }))
            } else if v < 1 {
                Err(OpenProblem::Other(CustomError::VariantCount { n_variants: v as usize }))
            } else {
                match keep {
                    Some(s) => match smallest_out_of_range(s, v) {
                        Some(b) => Err(OpenProblem::Other(CustomError::VariantIndexHigh { idx: if b == usize::MAX { b } else { (b + 1) as usize }, n_variants: v as usize })),
                        None => Ok((n, v)),
                    },
                    None => Ok((n, v)),
                }
            },
        }
    }
}

/// Streaming decoder for the variant-major packed layout: one block of
/// `max(48, ceil(n / 4))` bytes per variant after a header block.
pub struct PackedAncestryMapReader {
    header: Header,
    samples: Vec<String>,
    sample_indices_to_keep: Option<Vec<usize>>,
    variant_indices_to_keep: Option<HashSet<usize>>,
    next_variant_idx: usize,
    block_size: usize,
}

impl PackedAncestryMapReader {
    pub closed spec fn n_variants(&self) -> nat {
        self.header.n_variants as nat
    }

    pub closed spec fn n_samples_spec(&self) -> nat {
        self.header.n_samples as nat
    }

    /// Index of the next variant block the file holds.
    pub closed spec fn cursor(&self) -> nat {
        self.next_variant_idx as nat
    }

    pub closed spec fn keep_set(&self) -> Option<Set<usize>> {
        set_view(self.variant_indices_to_keep)
    }

    pub closed spec fn sample_ids(&self) -> Seq<String> {
        self.samples@
    }

    pub closed spec fn block_len(&self) -> nat {
        self.block_size as nat
    }

    /// File positions of the retained samples.
    pub closed spec fn positions(&self) -> Seq<int> {
        match self.sample_indices_to_keep {
            None => all_positions(self.header.n_samples as nat),
            Some(idx) => idx@.map_values(|i: usize| i as int),
        }
    }

    pub closed spec fn wf(&self) -> bool {
        &&& self.header.n_samples >= 2
        &&& (self.sample_indices_to_keep matches Some(idx) ==> forall|k: int| 0 <= k < idx.len() ==> #[trigger] idx@[k] < self.header.n_samples)
        &&& self.header.n_variants >= 1
        &&& self.block_size == geno_block_size(self.header.n_samples as nat)
        &&& self.next_variant_idx <= self.header.n_variants
        &&& (self.variant_indices_to_keep matches Some(s) ==> forall|i: usize| #[trigger] s@.contains(i) ==> i < self.header.n_variants)
    }

    /// Checks the header block against the sidecar counts and the requested
    /// variants, then keeps the requested samples. `start` holds at least the
    /// header block: the first `block_size_for(samples.len())` bytes of the file.
    pub fn open(samples: Vec<String>, n_snp: usize, start: &[u8], samples_to_keep: Option<Vec<String>>, variant_indices_to_keep: Option<HashSet<usize>>) -> (r: Result<Self, CustomError>)
        ensures
            match packed_open_result(samples.len() as nat, n_snp as nat, start@, set_view(variant_indices_to_keep)) {
                Ok((n, v)) => match samples_to_keep {
                    None => r matches Ok(reader) && reader.wf() && reader.sample_ids() == samples@
                        && reader.positions() == all_positions(samples.len() as nat),
                    Some(keep) => match first_unknown(views(samples@), views(keep@)) {
                        Some(name) => r matches Err(CustomError::SamplePairUnknownSample { sample }) && sample@ == name,
                        None => r matches Ok(reader) && reader.wf() && reader.positions() == selected_indices(views(samples@), views(keep@))
                            && forall|k: int| 0 <= k < reader.sample_ids().len() ==> (#[trigger] reader.sample_ids()[k])@
                                == samples@[selected_indices(views(samples@), views(keep@))[k]]@,
                    },
                },
                Err(p) => r is Err && reports_open(r->Err_0, p, false),
            },
            r matches Ok(reader) ==> reader.n_samples_spec() == samples.len() && reader.n_variants() == n_snp
                && reader.cursor() == 0 && reader.keep_set() == set_view(variant_indices_to_keep)
                && reader.block_len() == geno_block_size(samples.len() as nat)
                && reader.sample_ids().len() == reader.positions().len(),
    {
        let block_size = block_size_for(samples.len());
        if start.len() < block_size {
            return Err(CustomError::PackedAncestryMapFileSize);
        }
        let header_block = &start[0..block_size];
        assert(header_block@ =~= start@.take(block_size as int));
        let header = match parse_header_block(header_block, false) {
            Err(e) => {
                return Err(e);
            },
            Ok(h) => h,
        };
        if samples.len() != header.n_samples {
            return Err(CustomError::PackedAncestryMapNAgreement { n_header: header.n_samples, n_ind: samples.len() });
        }
        if header.n_samples < 2 {
            return Err(CustomError::SampleCount { n_samples: header.n_samples });
        }
        if n_snp != header.n_variants {
            return Err(CustomError::PackedAncestryMapVAgreement { n_header: header.n_variants, n_snp });
        }
        if header.n_variants < 1 {
            return Err(CustomError::VariantCount { n_variants: header.n_variants });
        }
        if let Some(set) = &variant_indices_to_keep {
            if let Some(bad_idx) = first_out_of_range(set, header.n_variants) {
                return Err(CustomError::VariantIndexHigh { idx: bad_idx.saturating_add(1), n_variants: header.n_variants });
            }
        }
        let (samples, sample_indices_to_keep) = match select_samples(samples, samples_to_keep) {
            Err(e) => {
                return Err(e);
            },
            Ok(selected) => selected,
        };
        let r = PackedAncestryMapReader {
            header,
            samples,
            sample_indices_to_keep,
            variant_indices_to_keep,
            next_variant_idx: 0,
            block_size,
        };
        proof {
            if r.sample_indices_to_keep is None {
                assert(r.samples@.len() == all_positions(r.header.n_samples as nat).len());
            }
        }
        Ok(r)
    }

    /// The sample identifiers, in file order.
    pub fn samples(&self) -> (r: &Vec<String>)
        ensures
            r@ == self.sample_ids(),
    {
        &self.samples
    }

    /// Number of sites the stream yields.
    pub fn n_sites(&self) -> (r: usize)
        requires
            self.wf(),
        ensures
            r == match self.keep_set() {
                None => self.n_variants(),
                Some(s) => s.len(),
            },
    {
        match &self.variant_indices_to_keep {
            Some(set) => set.len(),
            None => self.header.n_variants,
        }
    }

    /// Bytes in each variant block.
    pub fn block_size(&self) -> (r: usize)
        ensures
            r == self.block_len(),
    {
        self.block_size
    }

    /// Whether another variant block is to be read.
    pub fn wants_block(&self) -> (r: bool)
        ensures
            r == (self.cursor() < self.n_variants()),
    {
        self.next_variant_idx < self.header.n_variants
    }

    /// Takes the next variant block: its site, over the retained samples,
    /// when the variant is kept.
    pub fn accept_block(&mut self, block: &[u8]) -> (r: Option<Site>)
        requires
            old(self).wf(),
            old(self).cursor() < old(self).n_variants(),
            block.len() == old(self).block_len(),
        ensures
            final(self).wf(),
            final(self).cursor() == old(self).cursor() + 1,
            final(self).n_variants() == old(self).n_variants(),
            final(self).n_samples_spec() == old(self).n_samples_spec(),
            final(self).keep_set() == old(self).keep_set(),
            final(self).sample_ids() == old(self).sample_ids(),
            final(self).block_len() == old(self).block_len(),
            final(self).positions() == old(self).positions(),
            r is Some <==> keeps_variant(old(self).keep_set(), old(self).cursor() as int),
            r matches Some(s) ==> s@ == packed_site(block@, old(self).positions()),
    {
        let keep = keeps(&self.variant_indices_to_keep, self.next_variant_idx);
        self.next_variant_idx += 1;
        if keep {
            let genotypes = parse_variant_block(block, self.header.n_samples, self.sample_indices_to_keep.as_ref());
            Some(Site { genotypes })
        } else {
            None
        }
    }

    /// Ends the stream after a failed read: nothing more is yielded.
    pub fn poison(&mut self)
        requires
            old(self).wf(),
        ensures
            final(self).wf(),
            final(self).cursor() == final(self).n_variants(),
            final(self).n_variants() == old(self).n_variants(),
            final(self).n_samples_spec() == old(self).n_samples_spec(),
            final(self).keep_set() == old(self).keep_set(),
            final(self).sample_ids() == old(self).sample_ids(),
            final(self).block_len() == old(self).block_len(),
            final(self).positions() == old(self).positions(),
    {
        self.next_variant_idx = self.header.n_variants;
    }
}

} // verus!
