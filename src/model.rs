use vstd::prelude::*;

verus! {

/// One sample's genotype call at one variant.
#[derive(Debug, Clone, Copy, PartialEq, Eq, Structural)]
pub enum Allele {
    Ref,
    Het,
    Alt,
    Missing,
}

/// Whether a call takes part in comparisons.
pub open spec fn is_called(a: Allele) -> bool {
    a != Allele::Missing
}

/// Number of mismatching allele positions between two calls; a missing call
/// never mismatches, a heterozygous call mismatches any other call by one.
pub open spec fn allele_mismatch(a: Allele, b: Allele) -> nat {
    match (a, b) {
        (Allele::Missing, _) | (_, Allele::Missing) => 0,
        (Allele::Het, _) | (_, Allele::Het) => 1,
        (Allele::Ref, Allele::Ref) | (Allele::Alt, Allele::Alt) => 0,
        _ => 2,
    }
}

impl Allele {
    pub fn mismatch(self, other: Self) -> (r: u64)
        ensures
            r == allele_mismatch(self, other),
    {
        match (self, other) {
            (Allele::Missing, _) | (_, Allele::Missing) => 0,
            (Allele::Het, _) | (_, Allele::Het) => 1,
            (Allele::Ref, Allele::Ref) | (Allele::Alt, Allele::Alt) => 0,
            _ => 2,
        }
    }
}

/// One variant's calls, one per active sample, in sample order.
#[derive(Debug, Clone, PartialEq, Eq)]
pub struct Site {
    pub genotypes: Vec<Allele>,
}

impl Site {
    pub open spec fn view(&self) -> Seq<Allele> {
        self.genotypes@
    }
}

} // verus!
