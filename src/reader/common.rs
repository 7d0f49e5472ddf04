use std::collections::HashSet;

use itertools::Itertools;
use vstd::prelude::*;

use crate::model::Allele;

verus! {

broadcast use vstd::std_specs::hash::group_hash_axioms;

/// The call that a 2-bit code stands for in the packed `.geno` layouts.
pub open spec fn geno_allele(code: u8) -> Allele {
    if code == 0 {
        Allele::Alt
    } else if code == 1 {
        Allele::Het
    } else if code == 2 {
        Allele::Ref
    } else {
        Allele::Missing
    }
}

/// The call that a 2-bit code stands for in the PLINK `.bed` layout.
pub open spec fn plink_allele(code: u8) -> Allele {
    if code == 0 {
        Allele::Ref
    } else if code == 1 {
        Allele::Missing
    } else if code == 2 {
        Allele::Het
    } else {
        Allele::Alt
    }
}

/// The two bits of `byte` at `shift`.
pub open spec fn code_at(byte: u8, shift: u8) -> u8 {
    (byte >> shift) & 3u8
}

pub fn decode_geno_code(code: u8) -> (r: Allele)
    ensures
        r == geno_allele(code),
{
    if code == 0 {
        Allele::Alt
    } else if code == 1 {
        Allele::Het
    } else if code == 2 {
        Allele::Ref
    } else {
        Allele::Missing
    }
}

pub fn decode_plink_code(code: u8) -> (r: Allele)
    ensures
        r == plink_allele(code),
{
    if code == 0 {
        Allele::Ref
    } else if code == 1 {
        Allele::Missing
    } else if code == 2 {
        Allele::Het
    } else {
        Allele::Alt
    }
}

pub fn extract_code(byte: u8, shift: u8) -> (r: u8)
    requires
        shift <= 6,
    ensures
        r == code_at(byte, shift),
        r < 4,
{
    assert((byte >> shift) & 3u8 < 4u8) by (bit_vector);
    (byte >> shift) & 3u8
}

/// Layout of a `.geno` file, told apart by its first bytes.
#[derive(Debug, Clone, Copy, PartialEq, Eq, Structural)]
pub enum GenoFormat {
    /// Variant-major packed, opening with `GENO`.
    Packed,
    /// Sample-major packed, opening with `TGENO`.
    Transposed,
    /// One row of digits per variant.
    Text,
}

/// `b` begins with `p`.
pub open spec fn starts_with(b: Seq<u8>, p: Seq<u8>) -> bool {
    p.len() <= b.len() && b.take(p.len() as int) == p
}

/// The bytes of `TGENO`.
pub open spec fn tgeno_tag() -> Seq<u8> {
    seq![0x54u8, 0x47u8, 0x45u8, 0x4eu8, 0x4fu8]
}

/// The bytes of `GENO`.
pub open spec fn geno_tag() -> Seq<u8> {
    seq![0x47u8, 0x45u8, 0x4eu8, 0x4fu8]
}

fn begins_with(b: &[u8], p: &Vec<u8>) -> (r: bool)
    ensures
        r == starts_with(b@, p@),
{
    if p.len() > b.len() {
        return false;
    }
    let mut k: usize = 0;
    while k < p.len()
        invariant
            p.len() <= b.len(),
            k <= p.len(),
            forall|q: int| 0 <= q < k ==> b@[q] == p@[q],
        decreases p.len() - k,
    {
        if b[k] != p[k] {
            assert(b@.take(p.len() as int)[k as int] != p@[k as int]);
            return false;
        }
        k += 1;
    }
    assert(b@.take(p.len() as int) =~= p@);
    true
}

/// The layout that the first bytes of a `.geno` file announce: `TGENO`
/// first, then `GENO`, else text.
pub fn geno_format(start: &[u8]) -> (r: GenoFormat)
    ensures
        starts_with(start@, tgeno_tag()) ==> r == GenoFormat::Transposed,
        !starts_with(start@, tgeno_tag()) && starts_with(start@, geno_tag()) ==> r == GenoFormat::Packed,
        !starts_with(start@, tgeno_tag()) && !starts_with(start@, geno_tag()) ==> r == GenoFormat::Text,
{
    let tgeno: Vec<u8> = vec![0x54u8, 0x47u8, 0x45u8, 0x4eu8, 0x4fu8];
    let geno: Vec<u8> = vec![0x47u8, 0x45u8, 0x4eu8, 0x4fu8];
    assert(tgeno@ =~= tgeno_tag());
    assert(geno@ =~= geno_tag());
    if begins_with(start, &tgeno) {
        GenoFormat::Transposed
    } else if begins_with(start, &geno) {
        GenoFormat::Packed
    } else {
        GenoFormat::Text
    }
}

/// Number of bytes that hold `n` 2-bit codes.
pub open spec fn packed_bytes(n: nat) -> nat {
    (n + 3) / 4
}

pub fn bytes_for(n: usize) -> (r: usize)
    ensures
        r == packed_bytes(n as nat),
{
    n / 4 + if n % 4 == 0 {
        0
    } else {
        1
    }
}

/// Size of one block of a packed `.geno` file holding `n` codes: at least 48 bytes.
pub open spec fn geno_block_size(n: nat) -> nat {
    if packed_bytes(n) < 48 {
        48
    } else {
        packed_bytes(n)
    }
}

pub fn block_size_for(n: usize) -> (r: usize)
    ensures
        r == geno_block_size(n as nat),
{
    let b = bytes_for(n);
    if b < 48 {
        48
    } else {
        b
    }
}

/// Whether variant `v` is read: always without a restriction.
pub open spec fn keeps_variant(keep: Option<Set<usize>>, v: int) -> bool {
    match keep {
        None => true,
        Some(s) => 0 <= v <= usize::MAX && s.contains(v as usize),
    }
}

pub open spec fn set_view(keep: Option<HashSet<usize>>) -> Option<Set<usize>> {
    match keep {
        None => None,
        Some(h) => Some(h@),
    }
}

pub fn keeps(keep: &Option<HashSet<usize>>, v: usize) -> (r: bool)
    ensures
        r == keeps_variant(set_view(*keep), v as int),
{
    match keep {
        None => true,
        Some(s) => s.contains(&v),
    }
}

/// The smallest requested index that is not below `n`.
pub open spec fn smallest_out_of_range(s: Set<usize>, n: nat) -> Option<usize> {
    if exists|i: usize| s.contains(i) && i >= n && forall|j: usize| s.contains(j) && j >= n ==> i <= j {
        Some(choose|i: usize| s.contains(i) && i >= n && forall|j: usize| s.contains(j) && j >= n ==> i <= j)
    } else {
        None
    }
}

/// Relies on `Itertools::sorted` (a full sort of what the iterator yields)
/// over `HashSet::iter`: the set's elements, each once, in ascending order.
#[verifier::external_body]
fn sorted_indices(s: &HashSet<usize>) -> (r: Vec<usize>)
    ensures
        forall|a: int, b: int| 0 <= a < b < r.len() ==> r@[a] < r@[b],
        forall|i: usize| s@.contains(i) <==> r@.contains(i),
{
    s.iter().copied().sorted().collect()
}

/// The smallest requested variant index at or beyond `n_variants`.
pub fn first_out_of_range(keep: &HashSet<usize>, n_variants: usize) -> (r: Option<usize>)
    ensures
        r == smallest_out_of_range(keep@, n_variants as nat),
        r is None ==> forall|i: usize| #[trigger] keep@.contains(i) ==> i < n_variants,
{
    let sorted = sorted_indices(keep);
    let mut k: usize = 0;
    while k < sorted.len()
        invariant
            k <= sorted.len(),
            forall|a: int, b: int| 0 <= a < b < sorted.len() ==> sorted@[a] < sorted@[b],
            forall|i: usize| keep@.contains(i) <==> sorted@.contains(i),
            forall|q: int| 0 <= q < k ==> sorted@[q] < n_variants,
        decreases sorted.len() - k,
    {
        if sorted[k] >= n_variants {
            let ghost x = sorted@[k as int];
            assert(keep@.contains(x)) by {
                assert(sorted@.contains(x));
            }
            assert forall|j: usize| keep@.contains(j) && j >= n_variants implies x <= j by {
                assert(sorted@.contains(j));
                let w = choose|w: int| 0 <= w < sorted.len() && sorted@[w] == j;
                if w < k {
                } else if w > k {
                    assert(sorted@[k as int] < sorted@[w]);
                }
            }
            assert(smallest_out_of_range(keep@, n_variants as nat) == Some(x)) by {
                let c = choose|i: usize| keep@.contains(i) && i >= n_variants && forall|j: usize| keep@.contains(j) && j >= n_variants ==> i <= j;
                assert(c <= x && x <= c);
            }
            return Some(sorted[k]);
        }
        k += 1;
    }
    assert forall|i: usize| keep@.contains(i) implies i < n_variants by {
        assert(sorted@.contains(i));
    }
    None
}

} // verus!
