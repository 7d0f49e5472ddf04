use std::collections::HashSet;

use vstd::prelude::*;

use crate::error::CustomError;
use crate::model::{Allele, Site};
use crate::reader::common::{
    bytes_for, code_at, decode_plink_code, extract_code, first_out_of_range, keeps,
    keeps_variant, packed_bytes, plink_allele, set_view, smallest_out_of_range,
};
use crate::reader::eigenstrat::{first_bad_line, leading_fields};
use crate::samples::{first_unknown, select_samples, selected_indices, views};
use crate::text::fields;

verus! {

broadcast use vstd::std_specs::hash::group_hash_axioms;

/// Fields on each `.fam` line.
pub const FAM_FIELDS: usize = 6;

/// Fields on each `.bim` line.
pub const BIM_FIELDS: usize = 6;

/// Bytes of the `.bed` header: two magic bytes and the layout mode.
pub const BED_HEADER_LEN: usize = 3;

/// A sample's identifier from its family and individual identifiers: the
/// individual alone when the family is `0`, else both joined by `:`.
pub open spec fn fam_id(fid: Seq<char>, iid: Seq<char>) -> Seq<char> {
    if fid == seq!['0'] {
        iid
    } else {
        fid + seq![':'] + iid
    }
}

/// The two identifiers with a `:` between them.
fn join_ids(fid: &String, iid: &String) -> (r: String)
    ensures
        r@ == fid@ + seq![':'] + iid@,
{
    proof {
        reveal_strlit(":");
    }
    fid.clone().concat(":").concat(iid.as_str())
}

fn is_zero_id(s: &String) -> (r: bool)
    ensures
        r == (s@ == seq!['0']),
{
    let cs = crate::text::chars_of(s.as_str());
    let r = cs.len() == 1 && cs[0] == '0';
    if r {
        assert(cs@ =~= seq!['0']);
    }
    r
}

/// Sample identifiers from the lines of a `.fam` file.
pub fn read_plink_fam(lines: &Vec<String>) -> (r: Result<Vec<String>, CustomError>)
    ensures
        match first_bad_line(views(lines@), FAM_FIELDS as nat) {
            Some(k) => r matches Err(CustomError::PlinkFamFields { line_num, n_fields, expected })
                && line_num == k + 1 && n_fields == fields(lines@[k]@).len() && expected == FAM_FIELDS,
            None => r is Ok && r->Ok_0.len() == lines.len() && forall|k: int|
                0 <= k < lines.len() ==> (#[trigger] r->Ok_0@[k])@ == fam_id(fields(lines@[k]@)[0], fields(lines@[k]@)[1]),
        },
{
    match leading_fields(lines, FAM_FIELDS) {
        Err((line_num, n_fields)) => Err(CustomError::PlinkFamFields { line_num, n_fields, expected: FAM_FIELDS }),
        Ok(f) => {
            let mut ids: Vec<String> = Vec::new();
            let mut k: usize = 0;
            while k < f.len()
                invariant
                    k <= f.len(),
                    ids.len() == k,
                    forall|q: int| 0 <= q < k ==> (#[trigger] ids@[q])@ == fam_id(f@[q].0@, f@[q].1@),
                decreases f.len() - k,
            {
                let id = if is_zero_id(&f[k].0) {
                    f[k].1.clone()
                } else {
                    join_ids(&f[k].0, &f[k].1)
                };
                ids.push(id);
                k += 1;
            }
            Ok(ids)
        },
    }
}

/// Number of variants in a `.bim` file, checking that every line has six fields.
pub fn count_plink_bim(lines: &Vec<String>) -> (r: Result<usize, CustomError>)
    ensures
        match first_bad_line(views(lines@), BIM_FIELDS as nat) {
            Some(k) => r matches Err(CustomError::PlinkBimFields { line_num, n_fields, expected })
                && line_num == k + 1 && n_fields == fields(lines@[k]@).len() && expected == BIM_FIELDS,
            None => r == Ok::<usize, CustomError>(lines.len()),
        },
{
    match leading_fields(lines, BIM_FIELDS) {
        Err((line_num, n_fields)) => Err(CustomError::PlinkBimFields { line_num, n_fields, expected: BIM_FIELDS }),
        Ok(_) => Ok(lines.len()),
    }
}

/// The call of sample `i` in a `.bed` variant block: byte `i / 4`, least
/// significant pair first.
pub open spec fn bed_allele(block: Seq<u8>, i: int) -> Allele {
    plink_allele(code_at(block[i / 4], ((i % 4) * 2) as u8))
}

/// Decodes one sample's call from a `.bed` variant block.
pub fn decode_sample(bytes: &[u8], sample_idx: usize) -> (r: Allele)
    requires
        sample_idx / 4 < bytes.len(),
    ensures
        r == bed_allele(bytes@, sample_idx as int),
{
    let byte_idx = sample_idx / 4;
    let shift = ((sample_idx % 4) * 2) as u8;
    decode_plink_code(extract_code(bytes[byte_idx], shift))
}

/// The calls of the samples at `positions` in a `.bed` variant block.
pub open spec fn bed_site(block: Seq<u8>, positions: Seq<int>) -> Seq<Allele> {
    Seq::new(positions.len(), |x: int| bed_allele(block, positions[x]))
}

/// Positions `0..n`.
pub open spec fn all_positions(n: nat) -> Seq<int> {
    Seq::new(n, |i: int| i)
}

/// Decodes a `.bed` variant block: every sample, or only those kept.
pub fn parse_variant_block(block: &[u8], n_samples: usize, indices_to_keep: Option<&Vec<usize>>) -> (r: Vec<Allele>)
    requires
        packed_bytes(n_samples as nat) <= block.len(),
        indices_to_keep matches Some(idx) ==> forall|k: int| 0 <= k < idx.len() ==> #[trigger] idx@[k] < n_samples,
    ensures
        r@ == bed_site(block@, match indices_to_keep {
            None => all_positions(n_samples as nat),
            Some(idx) => idx@.map_values(|i: usize| i as int),
        }),
{
    let ghost positions = match indices_to_keep {
        None => all_positions(n_samples as nat),
        Some(idx) => idx@.map_values(|i: usize| i as int),
    };
    let count = match indices_to_keep {
        None => n_samples,
        Some(idx) => idx.len(),
    };
    let mut genotypes: Vec<Allele> = Vec::new();
    let mut x: usize = 0;
    while x < count
        invariant
            x <= count,
            count == positions.len(),
            packed_bytes(n_samples as nat) <= block.len(),
            indices_to_keep matches Some(idx) ==> forall|k: int| 0 <= k < idx.len() ==> #[trigger] idx@[k] < n_samples,
            positions == match indices_to_keep {
                None => all_positions(n_samples as nat),
                Some(idx) => idx@.map_values(|i: usize| i as int),
            },
            genotypes@ == bed_site(block@, positions).take(x as int),
        decreases count - x,
    {
        let sample_idx = match indices_to_keep {
            None => x,
            Some(idx) => idx[x],
        };
        assert(sample_idx == positions[x as int]);
        assert(sample_idx < n_samples);
        genotypes.push(decode_sample(block, sample_idx));
        assert(genotypes@ =~= bed_site(block@, positions).take(x + 1));
        x += 1;
    }
    assert(bed_site(block@, positions).take(count as int) =~= bed_site(block@, positions));
    genotypes
}

/// Expected `.bed` size: the header, then `ceil(n / 4)` bytes per variant.
pub open spec fn bed_size(n_samples: nat, n_variants: nat) -> nat {
    3 + packed_bytes(n_samples) * n_variants
}

/// The first problem that opening a `.bed` file meets before samples are
/// selected, from the `.fam` sample count, the `.bim` variant count, the
/// first bytes of the `.bed` file, its size and the requested variants.
pub open spec fn plink_open_problem(n_fam: nat, n_bim: nat, start: Seq<u8>, file_size: u64, keep: Option<Set<usize>>) -> Option<CustomError> {
    if start.len() < 3 || start[0] != 0x6c || start[1] != 0x1b {
        Some(CustomError::PlinkBedHeaderMagic)
    } else if start[2] != 0x01 {
        Some(CustomError::PlinkBedMode)
    } else if n_fam < 2 {
        Some(CustomError::SampleCount { n_samples: n_fam as usize })
    } else if n_bim < 1 {
        Some(CustomError::VariantCount { n_variants: n_bim as usize })
    } else if file_size != bed_size(n_fam, n_bim) {
        Some(CustomError::PlinkBedFileSize {
            expected: if bed_size(n_fam, n_bim) <= u64::MAX { bed_size(n_fam, n_bim) as u64 } else { u64::MAX },
            found: file_size,
        })
    } else if keep is Some && smallest_out_of_range(keep->Some_0, n_bim) is Some {
        let b = smallest_out_of_range(keep->Some_0, n_bim)->Some_0;
        Some(CustomError::VariantIndexHigh { idx: if b == usize::MAX { b } else { (b + 1) as usize }, n_variants: n_bim as usize })
    } else {
        None
    }
}

/// Streaming decoder for PLINK `.bed` files in variant-major mode.
pub struct PlinkBedReader {
    n_all_samples: usize,
    n_variants: usize,
    samples: Vec<String>,
    sample_indices_to_keep: Option<Vec<usize>>,
    variant_indices_to_keep: Option<HashSet<usize>>,
    next_variant_idx: usize,
    bytes_per_variant: usize,
}

impl PlinkBedReader {
    pub closed spec fn n_variants_spec(&self) -> nat {
        self.n_variants as nat
    }

    /// Samples in the `.fam` file.
    pub closed spec fn n_file_samples(&self) -> nat {
        self.n_all_samples as nat
    }

    pub closed spec fn cursor(&self) -> nat {
        self.next_variant_idx as nat
    }

    pub closed spec fn keep_set(&self) -> Option<Set<usize>> {
        set_view(self.variant_indices_to_keep)
    }

    /// The retained sample identifiers.
    pub closed spec fn sample_ids(&self) -> Seq<String> {
        self.samples@
    }

    /// File positions of the retained samples.
    pub closed spec fn positions(&self) -> Seq<int> {
        match self.sample_indices_to_keep {
            None => all_positions(self.n_all_samples as nat),
            Some(idx) => idx@.map_values(|i: usize| i as int),
        }
    }

    pub closed spec fn block_len(&self) -> nat {
        self.bytes_per_variant as nat
    }

    pub closed spec fn wf(&self) -> bool {
        &&& self.n_all_samples >= 2
        &&& self.n_variants >= 1
        &&& self.bytes_per_variant == packed_bytes(self.n_all_samples as nat)
        &&& self.next_variant_idx <= self.n_variants
        &&& (self.sample_indices_to_keep matches Some(idx) ==> forall|k: int| 0 <= k < idx.len() ==> #[trigger] idx@[k] < self.n_all_samples)
        &&& (self.variant_indices_to_keep matches Some(s) ==> forall|i: usize| #[trigger] s@.contains(i) ==> i < self.n_variants)
    }

    /// Checks the `.bed` header and size against the sidecars and the
    /// requested variants, then keeps the requested samples.
    pub fn open(samples: Vec<String>, n_variants: usize, start: &[u8], file_size: u64, samples_to_keep: Option<Vec<String>>, variant_indices_to_keep: Option<HashSet<usize>>) -> (r: Result<Self, CustomError>)
        ensures
            match plink_open_problem(samples.len() as nat, n_variants as nat, start@, file_size, set_view(variant_indices_to_keep)) {
                Some(e) => r == Err::<Self, CustomError>(e),
                None => match samples_to_keep {
                    None => r matches Ok(reader) && reader.wf() && reader.sample_ids() == samples@
                        && reader.positions() == all_positions(samples.len() as nat),
                    Some(keep) => match first_unknown(views(samples@), views(keep@)) {
                        Some(name) => r matches Err(CustomError::SamplePairUnknownSample { sample }) && sample@ == name,
                        None => r matches Ok(reader) && reader.wf() && reader.positions() == selected_indices(views(samples@), views(keep@))
                            && forall|k: int| 0 <= k < reader.sample_ids().len() ==> (#[trigger] reader.sample_ids()[k])@
                                == samples@[selected_indices(views(samples@), views(keep@))[k]]@,
                    },
                },
            },
            r matches Ok(reader) ==> reader.n_file_samples() == samples.len() && reader.n_variants_spec() == n_variants
                && reader.cursor() == 0 && reader.keep_set() == set_view(variant_indices_to_keep)
                && reader.block_len() == packed_bytes(samples.len() as nat)
                && reader.sample_ids().len() == reader.positions().len(),
    {
        let n_all_samples = samples.len();
        let bytes_per_variant = bytes_for(n_all_samples);
        if start.len() < BED_HEADER_LEN || start[0] != 0x6c || start[1] != 0x1b {
            return Err(CustomError::PlinkBedHeaderMagic);
        }
        if start[2] != 0x01 {
            return Err(CustomError::PlinkBedMode);
        }
        if n_all_samples < 2 {
            return Err(CustomError::SampleCount { n_samples: n_all_samples });
        }
        if n_variants < 1 {
            return Err(CustomError::VariantCount { n_variants });
        }
        let (expected, overflow) = match (bytes_per_variant as u64).checked_mul(n_variants as u64) {
            None => (u64::MAX, true),
            Some(body) => match body.checked_add(3) {
                None => (u64::MAX, true),
                Some(total) => (total, false),
            },
        };
        proof {
            let b = packed_bytes(n_all_samples as nat) as int;
            let v = n_variants as int;
            if overflow {
                assert(b * v > 0);
                assert(bed_size(n_all_samples as nat, n_variants as nat) > u64::MAX);
            }
        }
        if overflow || expected != file_size {
            return Err(CustomError::PlinkBedFileSize { expected, found: file_size });
        }
        if let Some(set) = &variant_indices_to_keep {
            if let Some(bad_idx) = first_out_of_range(set, n_variants) {
                return Err(CustomError::VariantIndexHigh { idx: bad_idx.saturating_add(1), n_variants });
            }
        }
        let (samples, sample_indices_to_keep) = match select_samples(samples, samples_to_keep) {
            Err(e) => {
                return Err(e);
            },
            Ok(selected) => selected,
        };
        let r = PlinkBedReader {
            n_all_samples,
            n_variants,
            samples,
            sample_indices_to_keep,
            variant_indices_to_keep,
            next_variant_idx: 0,
            bytes_per_variant,
        };
        proof {
            if r.sample_indices_to_keep is None {
                assert(r.samples@.len() == all_positions(n_all_samples as nat).len());
            }
        }
        Ok(r)
    }

    /// The retained sample identifiers, in file order.
    pub fn samples(&self) -> (r: &Vec<String>)
        ensures
            r@ == self.sample_ids(),
    {
        &self.samples
    }

    /// Number of sites the stream yields.
    pub fn n_sites(&self) -> (r: usize)
        requires
            self.wf(),
        ensures
            r == match self.keep_set() {
                None => self.n_variants_spec(),
                Some(s) => s.len(),
            },
    {
        match &self.variant_indices_to_keep {
            Some(set) => set.len(),
            None => self.n_variants,
        }
    }

    /// Bytes in each variant block.
    pub fn block_size(&self) -> (r: usize)
        ensures
            r == self.block_len(),
    {
        self.bytes_per_variant
    }

    /// Whether another variant block is to be read.
    pub fn wants_block(&self) -> (r: bool)
        ensures
            r == (self.cursor() < self.n_variants_spec()),
    {
        self.next_variant_idx < self.n_variants
    }

    /// Takes the next variant block: its site, over the retained samples,
    /// when the variant is kept.
    pub fn accept_block(&mut self, block: &[u8]) -> (r: Option<Site>)
        requires
            old(self).wf(),
            old(self).cursor() < old(self).n_variants_spec(),
            block.len() == old(self).block_len(),
        ensures
            final(self).wf(),
            final(self).cursor() == old(self).cursor() + 1,
            final(self).n_variants_spec() == old(self).n_variants_spec(),
            final(self).n_file_samples() == old(self).n_file_samples(),
            final(self).keep_set() == old(self).keep_set(),
            final(self).sample_ids() == old(self).sample_ids(),
            final(self).positions() == old(self).positions(),
            final(self).block_len() == old(self).block_len(),
            r is Some <==> keeps_variant(old(self).keep_set(), old(self).cursor() as int),
            r matches Some(s) ==> s@ == bed_site(block@, old(self).positions()),
    {
        let keep = keeps(&self.variant_indices_to_keep, self.next_variant_idx);
        self.next_variant_idx += 1;
        if keep {
            let genotypes = parse_variant_block(block, self.n_all_samples, self.sample_indices_to_keep.as_ref());
            Some(Site { genotypes })
        } else {
            None
        }
    }

    /// Ends the stream after a failed read: nothing more is yielded.
    pub fn poison(&mut self)
        requires
            old(self).wf(),
        ensures
            final(self).wf(),
            final(self).cursor() == final(self).n_variants_spec(),
            final(self).n_variants_spec() == old(self).n_variants_spec(),
            final(self).n_file_samples() == old(self).n_file_samples(),
            final(self).keep_set() == old(self).keep_set(),
            final(self).sample_ids() == old(self).sample_ids(),
            final(self).positions() == old(self).positions(),
            final(self).block_len() == old(self).block_len(),
    {
        self.next_variant_idx = self.n_variants;
    }
}

} // verus!
