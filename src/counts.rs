use vstd::prelude::*;

use crate::model::{allele_mismatch, is_called, Allele, Site};

verus! {

/// Largest number of sites a matrix accepts, so that `2 * sites` fits in a `u64`.
pub const MAX_SITES: u64 = 0x7fff_ffff_ffff_ffff;

/// Flat row-major address `n * i + j`.
pub open spec fn raw(n: int, i: int, j: int) -> int {
    n * i + j
}

/// Flat address of the cell that holds the unordered pair `{i, j}`.
pub open spec fn cell(n: int, i: int, j: int) -> int {
    if i < j {
        raw(n, i, j)
    } else {
        raw(n, j, i)
    }
}

/// Both samples have a call at this site.
pub open spec fn shares_site(s: Seq<Allele>, i: int, j: int) -> bool {
    is_called(s[i]) && is_called(s[j])
}

/// Mismatching allele positions between samples `i` and `j` over `sites`.
pub open spec fn pair_mismatches(sites: Seq<Seq<Allele>>, i: int, j: int) -> nat
    decreases sites.len(),
{
    if sites.len() == 0 {
        0
    } else {
        pair_mismatches(sites.drop_last(), i, j) + allele_mismatch(sites.last()[i], sites.last()[j])
    }
}

/// Number of sites at which both samples `i` and `j` have a call.
pub open spec fn pair_overlap(sites: Seq<Seq<Allele>>, i: int, j: int) -> nat
    decreases sites.len(),
{
    if sites.len() == 0 {
        0
    } else {
        pair_overlap(sites.drop_last(), i, j) + if shares_site(sites.last(), i, j) {
            1nat
        } else {
            0nat
        }
    }
}

/// Some entry of `pairs` names the unordered pair `{i, j}`.
pub open spec fn pair_listed(pairs: Seq<(usize, usize)>, i: int, j: int) -> bool {
    exists|k: int|
        0 <= k < pairs.len() && ((pairs[k].0 == i && pairs[k].1 == j) || (pairs[k].0 == j
            && pairs[k].1 == i))
}

proof fn lemma_raw_bounds(n: int, i: int, j: int)
    requires
        0 <= i < n,
        0 <= j < n,
    ensures
        0 <= raw(n, i, j) < n * n,
{
    assert(n * i <= n * (n - 1)) by (nonlinear_arith)
        requires
            0 <= i < n,
    ;
    assert(n * (n - 1) == n * n - n) by (nonlinear_arith);
    assert(0 <= n * i) by (nonlinear_arith)
        requires
            0 <= i,
            0 <= n,
    ;
}

proof fn lemma_raw_injective(n: int, i: int, j: int, k: int, l: int)
    requires
        0 <= i < n,
        0 <= j < n,
        0 <= k < n,
        0 <= l < n,
        raw(n, i, j) == raw(n, k, l),
    ensures
        i == k,
        j == l,
{
    if i < k {
        assert(n * i + n <= n * k) by (nonlinear_arith)
            requires
                i < k,
                0 <= n,
        ;
    } else if k < i {
        assert(n * k + n <= n * i) by (nonlinear_arith)
            requires
                k < i,
                0 <= n,
        ;
    }
}

proof fn lemma_pair_bounds(sites: Seq<Seq<Allele>>, i: int, j: int)
    ensures
        pair_mismatches(sites, i, j) <= 2 * pair_overlap(sites, i, j),
        pair_overlap(sites, i, j) <= sites.len(),
    decreases sites.len(),
{
    if sites.len() > 0 {
        lemma_pair_bounds(sites.drop_last(), i, j);
    }
}

/// Accumulating two runs of sites one after the other gives the sums of the
/// two runs.
pub proof fn lemma_pair_concat(s1: Seq<Seq<Allele>>, s2: Seq<Seq<Allele>>, i: int, j: int)
    ensures
        pair_mismatches(s1 + s2, i, j) == pair_mismatches(s1, i, j) + pair_mismatches(s2, i, j),
        pair_overlap(s1 + s2, i, j) == pair_overlap(s1, i, j) + pair_overlap(s2, i, j),
    decreases s2.len(),
{
    if s2.len() == 0 {
        assert(s1 + s2 =~= s1);
    } else {
        assert((s1 + s2).drop_last() =~= s1 + s2.drop_last());
        lemma_pair_concat(s1, s2.drop_last(), i, j);
    }
}

/// Mismatch counts and overlaps depend only on which sites were seen, not on
/// the order in which they were accumulated.
pub proof fn lemma_pair_order_independent(s1: Seq<Seq<Allele>>, s2: Seq<Seq<Allele>>, i: int, j: int)
    requires
        s1.to_multiset() == s2.to_multiset(),
    ensures
        pair_mismatches(s1, i, j) == pair_mismatches(s2, i, j),
        pair_overlap(s1, i, j) == pair_overlap(s2, i, j),
    decreases s1.len(),
{
    broadcast use vstd::seq_lib::group_to_multiset_ensures;

    if s1.len() == 0 {
        assert(s2.to_multiset().len() == 0);
        assert(s2 =~= s1);
    } else {
        let x = s1.last();
        let rest = s1.drop_last();
        assert(s1 =~= rest.push(x));
        assert(s1.to_multiset().count(x) > 0);
        assert(s2.contains(x));
        let k = choose|k: int| 0 <= k < s2.len() && s2[k] == x;
        let s2r = s2.remove(k);
        assert(s2r.to_multiset() =~= rest.to_multiset());
        lemma_pair_order_independent(rest, s2r, i, j);
        let a = s2.subrange(0, k);
        let b = s2.subrange(k + 1, s2.len() as int);
        assert(s2r =~= a + b);
        assert(s2 =~= (a + seq![x]) + b);
        lemma_pair_concat(a, b, i, j);
        lemma_pair_concat(a + seq![x], b, i, j);
        lemma_pair_concat(a, seq![x], i, j);
        assert(seq![x].drop_last() =~= Seq::<Seq<Allele>>::empty());
        assert(pair_mismatches(Seq::<Seq<Allele>>::empty(), i, j) == 0);
        assert(pair_overlap(Seq::<Seq<Allele>>::empty(), i, j) == 0);
        assert(pair_mismatches(seq![x], i, j) == allele_mismatch(x[i], x[j]));
        assert(rest =~= s1.drop_last());
        assert(pair_mismatches(s1, i, j) == pair_mismatches(rest, i, j) + allele_mismatch(x[i], x[j]));
        assert(pair_overlap(s1, i, j) == pair_overlap(rest, i, j) + pair_overlap(seq![x], i, j));
    }
}

/// The next called sample at or after position `x + 1` of `present`, or `n`.
spec fn next_called(present: Seq<(usize, Allele)>, x: int, n: int) -> int {
    if x + 1 < present.len() {
        present[x + 1].0 as int
    } else {
        n
    }
}

/// `present` lists, in increasing sample order, exactly the called samples of `s`.
spec fn lists_called(present: Seq<(usize, Allele)>, pos: Seq<int>, s: Seq<Allele>) -> bool {
    &&& forall|x: int|
        0 <= x < present.len() ==> (#[trigger] present[x]).0 < s.len() && present[x].1 == s[present[x].0 as int]
            && is_called(present[x].1)
    &&& forall|x: int, y: int|
        0 <= x < y < present.len() ==> (#[trigger] present[x]).0 < (#[trigger] present[y]).0
    &&& pos.len() == s.len()
    &&& forall|i: int|
        0 <= i < s.len() && is_called(s[i]) ==> 0 <= #[trigger] pos[i] < present.len()
            && present[pos[i]].0 == i
}

proof fn lemma_no_called_between(present: Seq<(usize, Allele)>, pos: Seq<int>, s: Seq<Allele>, x: int, j: int)
    requires
        lists_called(present, pos, s),
        0 <= x < present.len(),
        present[x].0 < j < next_called(present, x, s.len() as int),
        j < s.len(),
    ensures
        !is_called(s[j]),
{
    if is_called(s[j]) {
        let y = pos[j];
        assert(present[y].0 == j);
        if y <= x {
            if y < x {
                assert(present[y].0 < present[x].0);
            }
        } else if y == x + 1 {
        } else {
            assert(present[x + 1].0 < present[y].0);
        }
    }
}

proof fn lemma_pair_swap(sites: Seq<Seq<Allele>>, i: int, j: int)
    ensures
        pair_mismatches(sites, i, j) == pair_mismatches(sites, j, i),
        pair_overlap(sites, i, j) == pair_overlap(sites, j, i),
    decreases sites.len(),
{
    if sites.len() > 0 {
        lemma_pair_swap(sites.drop_last(), i, j);
    }
}

/// The matrix holds one value per unordered pair: `(i, j)` and `(j, i)` read
/// the same cell and the same counts.
pub proof fn lemma_symmetric(c: &Counts, i: int, j: int)
    requires
        c.wf(),
        0 <= i < c.n(),
        0 <= j < c.n(),
    ensures
        cell(c.n() as int, i, j) == cell(c.n() as int, j, i),
        c.counted(i, j) == c.counted(j, i),
        c.spec_mismatches(i, j) == c.spec_mismatches(j, i),
        c.spec_totals(i, j) == c.spec_totals(j, i),
{
    lemma_pair_swap(c.history(), i, j);
}

/// A site at which sample `x` has no call adds nothing to any pair that
/// involves `x`, whatever the partner's call.
pub proof fn lemma_missing_contributes_nothing(history: Seq<Seq<Allele>>, site: Seq<Allele>, x: int, y: int)
    requires
        0 <= x < site.len(),
        0 <= y < site.len(),
        site[x] == Allele::Missing,
    ensures
        pair_mismatches(history.push(site), x, y) == pair_mismatches(history, x, y),
        pair_overlap(history.push(site), x, y) == pair_overlap(history, x, y),
        pair_mismatches(history.push(site), y, x) == pair_mismatches(history, y, x),
        pair_overlap(history.push(site), y, x) == pair_overlap(history, y, x),
{
    assert(history.push(site).drop_last() =~= history);
}

/// Under a pair restriction, whatever sites have been added, a pair that is
/// not computed has no compared position and no mismatch, so its rate is
/// undefined; a computed pair holds the counts of every site seen.
pub proof fn lemma_restriction_leaves_pairs_empty(c: &Counts, i: int, j: int)
    requires
        c.wf(),
        0 <= i < c.n(),
        0 <= j < c.n(),
    ensures
        !c.counted(i, j) ==> c.spec_totals(i, j) == 0 && c.spec_mismatches(i, j) == 0,
        c.counted(i, j) ==> c.spec_totals(i, j) == 2 * pair_overlap(c.history(), i, j)
            && c.spec_mismatches(i, j) == pair_mismatches(c.history(), i, j),
{
}

/// Two matrices with the same samples and pair restriction that have seen the
/// same sites, in any order and however they were split between workers,
/// hold the same counts in every cell.
pub proof fn lemma_same_sites_same_counts(a: &Counts, b: &Counts, i: int, j: int)
    requires
        a.wf(),
        b.wf(),
        a.same_layout(b),
        a.history().to_multiset() == b.history().to_multiset(),
        0 <= i < a.n(),
        0 <= j < a.n(),
    ensures
        a.spec_mismatches(i, j) == b.spec_mismatches(i, j),
        a.spec_totals(i, j) == b.spec_totals(i, j),
{
    lemma_pair_order_independent(a.history(), b.history(), i, j);
}

/// Per-pair mismatch and overlap counters over a fixed sample list.
pub struct Counts {
    samples: Vec<String>,
    n_samples: usize,
    mismatches: Vec<u64>,
    totals: Vec<u64>,
    indices_to_count: Option<Vec<bool>>,
    n_sites: u64,
    sites: Ghost<Seq<Seq<Allele>>>,
}

impl Counts {
    /// Number of samples.
    pub closed spec fn n(&self) -> nat {
        self.n_samples as nat
    }

    /// The sample identifiers, in order.
    pub closed spec fn sample_ids(&self) -> Seq<String> {
        self.samples@
    }

    /// Every site accumulated so far, in the order it was added.
    pub closed spec fn history(&self) -> Seq<Seq<Allele>> {
        self.sites@
    }

    /// Whether the pair `{i, j}` is computed at all.
    pub closed spec fn counted(&self, i: int, j: int) -> bool {
        i != j && match self.indices_to_count {
            None => true,
            Some(m) => m@[cell(self.n_samples as int, i, j)],
        }
    }

    /// Mismatches held for the pair `{i, j}`.
    pub open spec fn spec_mismatches(&self, i: int, j: int) -> nat {
        if self.counted(i, j) {
            pair_mismatches(self.history(), i, j)
        } else {
            0
        }
    }

    /// Allele positions compared for the pair `{i, j}`: two per shared site.
    pub open spec fn spec_totals(&self, i: int, j: int) -> nat {
        if self.counted(i, j) {
            2 * pair_overlap(self.history(), i, j)
        } else {
            0
        }
    }

    /// Same samples and same pair restriction.
    pub open spec fn same_layout(&self, other: &Counts) -> bool {
        &&& self.n() == other.n()
        &&& self.sample_ids() == other.sample_ids()
        &&& forall|i: int, j: int|
            0 <= i < self.n() && 0 <= j < self.n() ==> #[trigger] self.counted(i, j)
                == other.counted(i, j)
    }

    spec fn wf_shape(&self) -> bool {
        let n = self.n_samples as int;
        &&& self.n_samples == self.samples.len()
        &&& n * n <= usize::MAX
        &&& self.mismatches.len() == n * n
        &&& self.totals.len() == n * n
        &&& (self.indices_to_count matches Some(m) ==> m.len() == n * n)
    }

    pub closed spec fn wf(&self) -> bool {
        let n = self.n_samples as int;
        let h = self.sites@;
        &&& self.n_samples == self.samples.len()
        &&& n * n <= usize::MAX
        &&& self.mismatches.len() == n * n
        &&& self.totals.len() == n * n
        &&& (self.indices_to_count matches Some(m) ==> m.len() == n * n)
        &&& self.n_sites == h.len()
        &&& self.n_sites <= MAX_SITES
        &&& forall|k: int| 0 <= k < h.len() ==> (#[trigger] h[k]).len() == n
        &&& forall|i: int, j: int|
            0 <= i < j < n ==> {
                &&& self.mismatches@[#[trigger] raw(n, i, j)] == self.spec_mismatches(i, j)
                &&& self.totals@[raw(n, i, j)] == self.spec_totals(i, j)
            }
        &&& forall|i: int, j: int|
            0 <= j <= i < n ==> {
                &&& self.mismatches@[#[trigger] raw(n, i, j)] == 0
                &&& self.totals@[raw(n, i, j)] == 0
            }
    }

    /// A matrix over `samples` with nothing accumulated. When a pair list is
    /// given, only the listed pairs are computed.
    pub fn new(samples: Vec<String>, pairs_to_indices_to_count: Option<Vec<(usize, usize)>>) -> (r: Self)
        requires
            samples.len() * samples.len() <= usize::MAX,
            pairs_to_indices_to_count matches Some(p) ==> forall|k: int|
                0 <= k < p.len() ==> (#[trigger] p@[k]).0 < samples.len() && p@[k].1
                    < samples.len(),
        ensures
            r.wf(),
            r.n() == samples.len(),
            r.sample_ids() == samples@,
            r.history() == Seq::<Seq<Allele>>::empty(),
            forall|i: int, j: int|
                0 <= i < samples.len() && 0 <= j < samples.len() ==> #[trigger] r.counted(i, j)
                    == (i != j && match pairs_to_indices_to_count {
                    None => true,
                    Some(p) => pair_listed(p@, i, j),
                }),
    {
        let n_samples = samples.len();
        let nn = n_samples * n_samples;
        let ghost n = n_samples as int;
        let indices_to_count = match pairs_to_indices_to_count {
            None => None,
            Some(pairs) => {
                let mut mask: Vec<bool> = vec![false; nn];
                let mut k: usize = 0;
                assert forall|i: int, j: int| 0 <= i < j < n implies mask@[#[trigger] raw(
                    n,
                    i,
                    j,
                )] == pair_listed(pairs@.take(0), i, j) by {
                    lemma_raw_bounds(n, i, j);
                }
                while k < pairs.len()
                    invariant
                        n == n_samples,
                        nn == n * n,
                        mask.len() == nn,
                        k <= pairs.len(),
                        forall|q: int|
                            0 <= q < pairs.len() ==> (#[trigger] pairs@[q]).0 < n && pairs@[q].1
                                < n,
                        forall|i: int, j: int|
                            0 <= i < j < n ==> mask@[#[trigger] raw(n, i, j)] == pair_listed(
                                pairs@.take(k as int),
                                i,
                                j,
                            ),
                    decreases pairs.len() - k,
                {
                    let (left, right) = pairs[k];
                    let ghost before = mask@;
                    if left != right {
                        let c = Self::idx_from_parts(n_samples, left, right);
                        mask.set(c, true);
                    }
                    assert forall|i: int, j: int| 0 <= i < j < n implies mask@[#[trigger] raw(
                        n,
                        i,
                        j,
                    )] == pair_listed(pairs@.take(k + 1), i, j) by {
                        let t0 = pairs@.take(k as int);
                        let t1 = pairs@.take(k + 1);
                        assert(t1 =~= t0.push(pairs@[k as int]));
                        lemma_raw_bounds(n, i, j);
                        let hit = (left == i && right == j) || (left == j && right == i);
                        if left != right {
                            let (lo, hi) = if left < right {
                                (left as int, right as int)
                            } else {
                                (right as int, left as int)
                            };
                            if raw(n, i, j) == raw(n, lo, hi) {
                                lemma_raw_injective(n, i, j, lo, hi);
                            }
                        }
                        if hit {
                            assert(t1[k as int] == pairs@[k as int]);
                        }
                        if pair_listed(t1, i, j) {
                            let q = choose|q: int|
                                0 <= q < t1.len() && ((t1[q].0 == i && t1[q].1 == j) || (t1[q].0
                                    == j && t1[q].1 == i));
                            if q < k {
                                assert(t0[q] == t1[q]);
                            }
                        }
                        if pair_listed(t0, i, j) {
                            let q = choose|q: int|
                                0 <= q < t0.len() && ((t0[q].0 == i && t0[q].1 == j) || (t0[q].0
                                    == j && t0[q].1 == i));
                            assert(t0[q] == t1[q]);
                        }
                    }
                    k += 1;
                }
                assert(pairs@.take(pairs.len() as int) =~= pairs@);
                Some(mask)
            },
        };
        let mismatches: Vec<u64> = vec![0; nn];
        let totals: Vec<u64> = vec![0; nn];
        let r = Counts {
            samples,
            n_samples,
            mismatches,
            totals,
            indices_to_count,
            n_sites: 0,
            sites: Ghost(Seq::empty()),
        };
        assert forall|i: int, j: int| 0 <= i < n && 0 <= j < n implies #[trigger] r.counted(
            i,
            j,
        ) == (i != j && match pairs_to_indices_to_count {
            None => true,
            Some(p) => pair_listed(p@, i, j),
        }) by {
            if i != j && r.indices_to_count is Some {
                let p = pairs_to_indices_to_count->0@;
                if j < i {
                    assert(pair_listed(p, j, i) == pair_listed(p, i, j));
                }
            }
        }
        assert forall|i: int, j: int| 0 <= i < n && 0 <= j < n implies 0 <= #[trigger] raw(
            n,
            i,
            j,
        ) < n * n by {
            lemma_raw_bounds(n, i, j);
        }
        r
    }

    /// Adds one site's contributions: for each computed pair where both
    /// samples have a call, its mismatch and two compared allele positions.
    pub fn add_site(&mut self, site: &Site)
        requires
            old(self).wf(),
            site.genotypes.len() == old(self).n(),
            old(self).history().len() < MAX_SITES,
        ensures
            final(self).wf(),
            final(self).same_layout(old(self)),
            final(self).history() == old(self).history().push(site@),
    {
        let n = self.n_samples;
        let ghost ni = n as int;
        let ghost s = site@;
        let ghost h = self.sites@;
        let ghost old_self = *self;
        let mut present: Vec<(usize, Allele)> = Vec::new();
        let ghost mut pos: Seq<int> = Seq::new(n as nat, |i: int| 0int);
        let mut k: usize = 0;
        while k < n
            invariant
                k <= n,
                n == site.genotypes.len(),
                s == site@,
                pos.len() == n,
                forall|x: int|
                    0 <= x < present.len() ==> (#[trigger] present@[x]).0 < k && present@[x].1
                        == s[present@[x].0 as int] && is_called(present@[x].1),
                forall|x: int, y: int|
                    0 <= x < y < present.len() ==> (#[trigger] present@[x]).0 < (
                    #[trigger] present@[y]).0,
                forall|i: int|
                    0 <= i < k && is_called(s[i]) ==> 0 <= #[trigger] pos[i] < present.len()
                        && present@[pos[i]].0 == i,
            decreases n - k,
        {
            let a = site.genotypes[k];
            if a != Allele::Missing {
                proof {
                    pos = pos.update(k as int, present.len() as int);
                }
                present.push((k, a));
            }
            k += 1;
        }
        assert(lists_called(present@, pos, s));
        let plen = present.len();
        assert forall|i: int| 0 <= i < ni && i < next_called(present@, -1, ni) implies !is_called(#[trigger] s[i]) by {
            if is_called(s[i]) {
                let y = pos[i];
                if y > 0 {
                    assert(present@[0].0 < present@[y].0);
                }
            }
        }
        let mut a: usize = 0;
        while a < plen
            invariant
                self.wf_shape(),
                self.n_samples == n,
                ni == n,
                self.same_layout(&old_self),
                self.indices_to_count == old_self.indices_to_count,
                self.samples == old_self.samples,
                self.sites@ == h,
                self.n_sites == old_self.n_sites,
                old_self.wf(),
                old_self.history() == h,
                h.len() < MAX_SITES,
                s.len() == n,
                plen == present.len(),
                a <= plen,
                lists_called(present@, pos, s),
                forall|i: int, j: int|
                    0 <= i < j < ni ==> {
                        &&& self.mismatches@[#[trigger] raw(ni, i, j)] == old_self.spec_mismatches(i, j)
                            + if self.counted(i, j) && shares_site(s, i, j) && i < next_called(
                            present@,
                            a - 1,
                            ni,
                        ) {
                            allele_mismatch(s[i], s[j])
                        } else {
                            0
                        }
                        &&& self.totals@[raw(ni, i, j)] == old_self.spec_totals(i, j)
                            + if self.counted(i, j) && shares_site(s, i, j) && i < next_called(
                            present@,
                            a - 1,
                            ni,
                        ) {
                            2nat
                        } else {
                            0
                        }
                    },
                forall|i: int, j: int|
                    0 <= j <= i < ni ==> {
                        &&& self.mismatches@[#[trigger] raw(ni, i, j)] == 0
                        &&& self.totals@[raw(ni, i, j)] == 0
                    },
            decreases plen - a,
        {
            let (si, gi) = present[a];
            let mut b: usize = a + 1;
            assert forall|i: int, j: int| 0 <= i < j < ni && shares_site(s, i, j) implies (i < next_called(present@, a - 1, ni) <==> (i < si || (i == si && j < next_called(present@, b - 1, ni)))) by {
                if a > 0 && i == present@[a - 1].0 {
                    assert(present@[a - 1].0 < present@[a as int].0);
                }
                if i == si && si < j && j < next_called(present@, a as int, ni) {
                    lemma_no_called_between(present@, pos, s, a as int, j);
                }
            }
            while b < plen
                invariant
                    self.wf_shape(),
                    self.n_samples == n,
                    ni == n,
                    self.same_layout(&old_self),
                    self.indices_to_count == old_self.indices_to_count,
                    self.samples == old_self.samples,
                    self.sites@ == h,
                    self.n_sites == old_self.n_sites,
                    old_self.wf(),
                    old_self.history() == h,
                    h.len() < MAX_SITES,
                    s.len() == n,
                    plen == present.len(),
                    a < plen,
                    a < b <= plen,
                    si == present@[a as int].0,
                    gi == present@[a as int].1,
                    lists_called(present@, pos, s),
                    forall|i: int, j: int|
                        0 <= i < j < ni ==> {
                            &&& self.mismatches@[#[trigger] raw(ni, i, j)]
                                == old_self.spec_mismatches(i, j) + if self.counted(i, j)
                                && shares_site(s, i, j) && (i < si || (i == si && j < next_called(
                                present@,
                                b - 1,
                                ni,
                            ))) {
                                allele_mismatch(s[i], s[j])
                            } else {
                                0
                            }
                            &&& self.totals@[raw(ni, i, j)] == old_self.spec_totals(i, j)
                                + if self.counted(i, j) && shares_site(s, i, j) && (i < si || (i
                                == si && j < next_called(present@, b - 1, ni))) {
                                2nat
                            } else {
                                0
                            }
                        },
                    forall|i: int, j: int|
                        0 <= j <= i < ni ==> {
                            &&& self.mismatches@[#[trigger] raw(ni, i, j)] == 0
                            &&& self.totals@[raw(ni, i, j)] == 0
                        },
                decreases plen - b,
            {
                let (sj, gj) = present[b];
                assert(si < sj);
                let c = Self::idx_from_parts(n, si, sj);
                let count_it = match &self.indices_to_count {
                    None => true,
                    Some(mask) => mask[c],
                };
                let ghost bm = self.mismatches@;
                let ghost bt = self.totals@;
                proof {
                    lemma_pair_bounds(h, si as int, sj as int);
                    lemma_raw_bounds(ni, si as int, sj as int);
                }
                if count_it {
                    let m = self.mismatches[c] + gi.mismatch(gj);
                    self.mismatches.set(c, m);
                    let t = self.totals[c] + 2;
                    self.totals.set(c, t);
                }
                assert forall|i: int, j: int| 0 <= i < ni && 0 <= j < ni && raw(ni, i, j) != raw(ni, si as int, sj as int) implies self.mismatches@[#[trigger] raw(ni, i, j)] == bm[raw(ni, i, j)] && self.totals@[raw(ni, i, j)] == bt[raw(ni, i, j)] by {
                    lemma_raw_bounds(ni, i, j);
                }
                assert forall|i: int, j: int| 0 <= i < ni && 0 <= j < ni && raw(ni, i, j) == raw(ni, si as int, sj as int) implies i == si && j == sj by {
                    lemma_raw_injective(ni, i, j, si as int, sj as int);
                }
                assert forall|i: int, j: int| 0 <= i < j < ni && shares_site(s, i, j) && i == si && !(i == si && j == sj) implies (j < next_called(present@, b - 1, ni) <==> j < next_called(present@, b as int, ni)) by {
                    if sj < j && j < next_called(present@, b as int, ni) {
                        lemma_no_called_between(present@, pos, s, b as int, j);
                    }
                    if b + 1 < plen {
                        assert(present@[b as int].0 < present@[b + 1].0);
                    }
                }
                b += 1;
            }
            assert forall|i: int, j: int| 0 <= i < j < ni && shares_site(s, i, j) implies ((i < si || (i == si && j < next_called(present@, b - 1, ni))) <==> i < next_called(present@, a as int, ni)) by {
                if si < i && i < next_called(present@, a as int, ni) {
                    lemma_no_called_between(present@, pos, s, a as int, i);
                }
                if a + 1 < plen {
                    assert(present@[a as int].0 < present@[a + 1].0);
                }
            }
            a += 1;
        }
        self.n_sites = self.n_sites + 1;
        self.sites = Ghost(h.push(s));
        proof {
            let h2 = h.push(s);
            assert(h2.drop_last() =~= h);
            assert forall|i: int, j: int| 0 <= i < j < ni implies self.mismatches@[#[trigger] raw(ni, i, j)] == self.spec_mismatches(i, j) && self.totals@[raw(ni, i, j)] == self.spec_totals(i, j) by {
                assert(self.counted(i, j) == old_self.counted(i, j));
                if plen > 0 {
                    assert(next_called(present@, plen - 1, ni) == ni);
                }
            }
            assert forall|k: int| 0 <= k < h2.len() implies (#[trigger] h2[k]).len() == ni by {
                if k < h.len() {
                    assert(h2[k] == h[k]);
                }
            }
        }
    }

    /// Adds everything another matrix over the same samples and pairs has
    /// accumulated.
    pub fn merge(&mut self, other: &Counts)
        requires
            old(self).wf(),
            other.wf(),
            other.same_layout(old(self)),
            old(self).history().len() + other.history().len() <= MAX_SITES,
        ensures
            final(self).wf(),
            final(self).same_layout(old(self)),
            final(self).history() == old(self).history() + other.history(),
    {
        let ghost old_self = *self;
        let ghost ni = self.n_samples as int;
        let nn = self.n_samples * self.n_samples;
        let mut c: usize = 0;
        while c < nn
            invariant
                self.wf_shape(),
                ni == self.n_samples,
                nn == ni * ni,
                c <= nn,
                self.same_layout(&old_self),
                self.indices_to_count == old_self.indices_to_count,
                self.samples == old_self.samples,
                self.sites@ == old_self.sites@,
                self.n_sites == old_self.n_sites,
                old_self.wf(),
                other.wf(),
                other.same_layout(&old_self),
                old_self.history().len() + other.history().len() <= MAX_SITES,
                forall|d: int|
                    0 <= d < c ==> #[trigger] self.mismatches@[d] == old_self.mismatches@[d]
                        + other.mismatches@[d],
                forall|d: int|
                    0 <= d < c ==> #[trigger] self.totals@[d] == old_self.totals@[d]
                        + other.totals@[d],
                forall|d: int|
                    c <= d < nn ==> #[trigger] self.mismatches@[d] == old_self.mismatches@[d],
                forall|d: int| c <= d < nn ==> #[trigger] self.totals@[d] == old_self.totals@[d],
            decreases nn - c,
        {
            proof {
                let cc = c as int;
                let i = cc / ni;
                let j = cc % ni;
                vstd::arithmetic::div_mod::lemma_fundamental_div_mod(cc, ni);
                vstd::arithmetic::div_mod::lemma_mod_pos_bound(cc, ni);
                assert(0 <= i < ni) by (nonlinear_arith)
                    requires
                        0 <= cc < ni * ni,
                        cc == ni * i + j,
                        0 <= j < ni,
                ;
                assert(cc == raw(ni, i, j));
                if i < j {
                    lemma_pair_bounds(old_self.history(), i, j);
                    lemma_pair_bounds(other.history(), i, j);
                }
            }
            let m = self.mismatches[c] + other.mismatches[c];
            self.mismatches.set(c, m);
            let t = self.totals[c] + other.totals[c];
            self.totals.set(c, t);
            c += 1;
        }
        self.n_sites = self.n_sites + other.n_sites;
        self.sites = Ghost(old_self.sites@ + other.sites@);
        proof {
            let h2 = old_self.history() + other.history();
            assert forall|i: int, j: int| 0 <= i < ni && 0 <= j < ni implies #[trigger] raw(ni, i, j) < nn && 0 <= raw(ni, i, j) by {
                lemma_raw_bounds(ni, i, j);
            }
            assert forall|i: int, j: int| 0 <= i < j < ni implies self.mismatches@[#[trigger] raw(ni, i, j)] == self.spec_mismatches(i, j) && self.totals@[raw(ni, i, j)] == self.spec_totals(i, j) by {
                lemma_pair_concat(old_self.history(), other.history(), i, j);
                assert(other.counted(i, j) == old_self.counted(i, j));
            }
            assert forall|k: int| 0 <= k < h2.len() implies (#[trigger] h2[k]).len() == ni by {
                if k < old_self.history().len() {
                    assert(h2[k] == old_self.history()[k]);
                } else {
                    assert(h2[k] == other.history()[k - old_self.history().len()]);
                }
            }
        }
    }

    /// The sample identifiers, in order.
    pub fn samples(&self) -> (r: Vec<String>)
        requires
            self.wf(),
        ensures
            r.len() == self.n(),
            forall|k: int| 0 <= k < r.len() ==> (#[trigger] r@[k])@ == self.sample_ids()[k]@,
    {
        let mut r: Vec<String> = Vec::new();
        let mut k: usize = 0;
        while k < self.samples.len()
            invariant
                self.wf(),
                k <= self.samples.len(),
                r.len() == k,
                forall|q: int| 0 <= q < r.len() ==> (#[trigger] r@[q])@ == self.samples@[q]@,
            decreases self.samples.len() - k,
        {
            r.push(self.samples[k].clone());
            k += 1;
        }
        r
    }

    pub fn n_samples(&self) -> (r: usize)
        requires
            self.wf(),
        ensures
            r == self.n(),
    {
        self.n_samples
    }

    /// Number of sites accumulated so far.
    pub fn n_sites(&self) -> (r: u64)
        requires
            self.wf(),
        ensures
            r == self.history().len(),
    {
        self.n_sites
    }

    /// Mismatching allele positions for the pair `{i, j}`.
    pub fn mismatch_count(&self, i: usize, j: usize) -> (r: u64)
        requires
            self.wf(),
            i < self.n(),
            j < self.n(),
        ensures
            r == self.spec_mismatches(i as int, j as int),
    {
        proof {
            lemma_symmetric(self, i as int, j as int);
        }
        if i == j {
            0
        } else {
            self.mismatches[self.idx(i, j)]
        }
    }

    /// Compared allele positions for the pair `{i, j}`: twice the overlap.
    pub fn total_count(&self, i: usize, j: usize) -> (r: u64)
        requires
            self.wf(),
            i < self.n(),
            j < self.n(),
        ensures
            r == self.spec_totals(i as int, j as int),
            r % 2 == 0,
    {
        proof {
            lemma_symmetric(self, i as int, j as int);
        }
        if i == j {
            0
        } else {
            self.totals[self.idx(i, j)]
        }
    }

    /// Number of sites where both samples of the pair `{i, j}` have a call,
    /// or zero for a pair that is not computed.
    pub fn overlap(&self, i: usize, j: usize) -> (r: u64)
        requires
            self.wf(),
            i < self.n(),
            j < self.n(),
        ensures
            r == (if self.counted(i as int, j as int) {
                pair_overlap(self.history(), i as int, j as int)
            } else {
                0
            }),
    {
        self.total_count(i, j) / 2
    }

    /// The mismatch rate of the pair `{i, j}` as numerator and denominator,
    /// or `None` when no allele position was compared (the rate is undefined).
    pub fn mismatch_rate(&self, i: usize, j: usize) -> (r: Option<(u64, u64)>)
        requires
            self.wf(),
            i < self.n(),
            j < self.n(),
        ensures
            r is None <==> self.spec_totals(i as int, j as int) == 0,
            r matches Some(q) ==> q.0 == self.spec_mismatches(i as int, j as int) && q.1
                == self.spec_totals(i as int, j as int),
    {
        let t = self.total_count(i, j);
        if t == 0 {
            None
        } else {
            Some((self.mismatch_count(i, j), t))
        }
    }

    /// Per flat cell, the number of shared sites: half the compared positions.
    pub fn site_overlaps(&self) -> (r: Vec<u64>)
        requires
            self.wf(),
        ensures
            r.len() == self.n() * self.n(),
            forall|i: int, j: int|
                0 <= i < j < self.n() ==> r@[#[trigger] cell(self.n() as int, i, j)] == self.spec_totals(i, j) / 2,
            forall|i: int, j: int|
                0 <= j <= i < self.n() ==> r@[#[trigger] raw(self.n() as int, i, j)] == 0,
    {
        let mut r: Vec<u64> = Vec::new();
        let mut c: usize = 0;
        while c < self.totals.len()
            invariant
                self.wf(),
                c <= self.totals.len(),
                r.len() == c,
                forall|d: int| 0 <= d < c ==> #[trigger] r@[d] == self.totals@[d] / 2,
            decreases self.totals.len() - c,
        {
            r.push(self.totals[c] / 2);
            c += 1;
        }
        proof {
            let ni = self.n_samples as int;
            assert forall|i: int, j: int| 0 <= i < ni && 0 <= j < ni implies 0 <= #[trigger] raw(ni, i, j) < ni * ni by {
                lemma_raw_bounds(ni, i, j);
            }
        }
        r
    }

    /// The full symmetric `n x n` matrix, row-major, of one kind of count.
    fn full_matrix(&self, which: u8) -> (r: Vec<u64>)
        requires
            self.wf(),
        ensures
            r.len() == self.n() * self.n(),
            forall|i: int, j: int|
                0 <= i < self.n() && 0 <= j < self.n() ==> r@[#[trigger] raw(self.n() as int, i, j)] == if which == 0 {
                    self.spec_mismatches(i, j)
                } else if which == 1 {
                    self.spec_totals(i, j)
                } else {
                    self.spec_totals(i, j) / 2
                },
    {
        let n = self.n_samples;
        let ghost ni = n as int;
        let mut r: Vec<u64> = Vec::new();
        let mut i: usize = 0;
        while i < n
            invariant
                self.wf(),
                n == self.n_samples,
                ni == n,
                i <= n,
                r.len() == ni * i,
                forall|a: int, b: int|
                    0 <= a < i && 0 <= b < n ==> r@[#[trigger] raw(ni, a, b)] == if which == 0 {
                        self.spec_mismatches(a, b)
                    } else if which == 1 {
                        self.spec_totals(a, b)
                    } else {
                        self.spec_totals(a, b) / 2
                    },
            decreases n - i,
        {
            let mut j: usize = 0;
            let ghost start = r.len() as int;
            assert(start == raw(ni, i as int, 0));
            while j < n
                invariant
                    self.wf(),
                    n == self.n_samples,
                    ni == n,
                    i < n,
                    j <= n,
                    start == ni * i,
                    r.len() == start + j,
                    forall|a: int, b: int|
                        0 <= a < i && 0 <= b < n ==> r@[#[trigger] raw(ni, a, b)] == if which == 0 {
                            self.spec_mismatches(a, b)
                        } else if which == 1 {
                            self.spec_totals(a, b)
                        } else {
                            self.spec_totals(a, b) / 2
                        },
                    forall|b: int|
                        0 <= b < j ==> #[trigger] r@[start + b] == if which == 0 {
                            self.spec_mismatches(i as int, b)
                        } else if which == 1 {
                            self.spec_totals(i as int, b)
                        } else {
                            self.spec_totals(i as int, b) / 2
                        },
                decreases n - j,
            {
                let v = if which == 0 {
                    self.mismatch_count(i, j)
                } else if which == 1 {
                    self.total_count(i, j)
                } else {
                    self.overlap(i, j)
                };
                proof {
                    assert forall|a: int, b: int| 0 <= a < i && 0 <= b < n implies #[trigger] raw(ni, a, b) < start by {
                        lemma_raw_bounds(ni, a, b);
                        assert(ni * a + ni <= ni * i) by (nonlinear_arith)
                            requires
                                a < i,
                                0 <= ni,
                        ;
                    }
                }
                r.push(v);
                j += 1;
            }
            proof {
                assert(ni * (i + 1) == ni * i + ni) by (nonlinear_arith);
                assert forall|a: int, b: int| 0 <= a < i + 1 && 0 <= b < n implies r@[#[trigger] raw(ni, a, b)] == if which == 0 {
                    self.spec_mismatches(a, b)
                } else if which == 1 {
                    self.spec_totals(a, b)
                } else {
                    self.spec_totals(a, b) / 2
                } by {
                    if a == i {
                        assert(raw(ni, a, b) == start + b);
                    }
                }
            }
            i += 1;
        }
        r
    }

    /// Mismatches as a full symmetric `n x n` matrix, row-major; zero on the diagonal.
    pub fn mismatches_2d(&self) -> (r: Vec<u64>)
        requires
            self.wf(),
        ensures
            r.len() == self.n() * self.n(),
            forall|i: int, j: int|
                0 <= i < self.n() && 0 <= j < self.n() ==> r@[#[trigger] raw(self.n() as int, i, j)] == self.spec_mismatches(i, j),
            forall|i: int, j: int|
                0 <= i < self.n() && 0 <= j < self.n() ==> r@[raw(self.n() as int, i, j)] == r@[raw(self.n() as int, j, i)],
            forall|i: int| 0 <= i < self.n() ==> r@[#[trigger] raw(self.n() as int, i, i)] == 0,
    {
        proof {
            assert forall|i: int, j: int| 0 <= i < self.n() && 0 <= j < self.n() implies #[trigger] self.counted(i, j) == self.counted(j, i) && self.spec_mismatches(i, j) == self.spec_mismatches(j, i) by {
                lemma_symmetric(self, i, j);
            }
        }
        self.full_matrix(0)
    }

    /// Compared allele positions as a full symmetric `n x n` matrix, row-major.
    pub fn totals_2d(&self) -> (r: Vec<u64>)
        requires
            self.wf(),
        ensures
            r.len() == self.n() * self.n(),
            forall|i: int, j: int|
                0 <= i < self.n() && 0 <= j < self.n() ==> r@[#[trigger] raw(self.n() as int, i, j)] == self.spec_totals(i, j),
            forall|i: int, j: int|
                0 <= i < self.n() && 0 <= j < self.n() ==> r@[raw(self.n() as int, i, j)] == r@[raw(self.n() as int, j, i)],
            forall|i: int| 0 <= i < self.n() ==> r@[#[trigger] raw(self.n() as int, i, i)] == 0,
    {
        proof {
            assert forall|i: int, j: int| 0 <= i < self.n() && 0 <= j < self.n() implies #[trigger] self.counted(i, j) == self.counted(j, i) && self.spec_totals(i, j) == self.spec_totals(j, i) by {
                lemma_symmetric(self, i, j);
            }
        }
        self.full_matrix(1)
    }

    /// Shared sites as a full symmetric `n x n` matrix, row-major.
    pub fn site_overlaps_2d(&self) -> (r: Vec<u64>)
        requires
            self.wf(),
        ensures
            r.len() == self.n() * self.n(),
            forall|i: int, j: int|
                0 <= i < self.n() && 0 <= j < self.n() ==> r@[#[trigger] raw(self.n() as int, i, j)] == self.spec_totals(i, j) / 2,
            forall|i: int, j: int|
                0 <= i < self.n() && 0 <= j < self.n() ==> r@[raw(self.n() as int, i, j)] == r@[raw(self.n() as int, j, i)],
            forall|i: int| 0 <= i < self.n() ==> r@[#[trigger] raw(self.n() as int, i, i)] == 0,
    {
        proof {
            assert forall|i: int, j: int| 0 <= i < self.n() && 0 <= j < self.n() implies #[trigger] self.counted(i, j) == self.counted(j, i) && self.spec_totals(i, j) / 2 == self.spec_totals(j, i) / 2 by {
                lemma_symmetric(self, i, j);
            }
        }
        self.full_matrix(2)
    }

    /// Flat address of the cell for the pair `{i, j}`.
    pub fn idx(&self, i: usize, j: usize) -> (r: usize)
        requires
            self.wf(),
            i < self.n(),
            j < self.n(),
        ensures
            r == cell(self.n() as int, i as int, j as int),
            r < self.n() * self.n(),
    {
        Self::idx_from_parts(self.n_samples, i, j)
    }

    fn idx_from_parts(n_samples: usize, i: usize, j: usize) -> (r: usize)
        requires
            i < n_samples,
            j < n_samples,
            n_samples * n_samples <= usize::MAX,
        ensures
            r == cell(n_samples as int, i as int, j as int),
            r < n_samples * n_samples,
    {
        proof {
            lemma_raw_bounds(n_samples as int, i as int, j as int);
            lemma_raw_bounds(n_samples as int, j as int, i as int);
        }
        if i < j {
            n_samples * i + j
        } else {
            n_samples * j + i
        }
    }

    /// Whether the pair `{i, j}` is computed: never for `i == j`, otherwise
    /// as the pair restriction says.
    pub fn should_count_pair(&self, i: usize, j: usize) -> (r: bool)
        requires
            self.wf(),
            i < self.n(),
            j < self.n(),
        ensures
            r == self.counted(i as int, j as int),
            r == self.counted(j as int, i as int),
            i == j ==> !r,
    {
        proof {
            lemma_symmetric(self, i as int, j as int);
        }
        if i == j {
            return false;
        }
        let c = self.idx(i, j);
        match &self.indices_to_count {
            None => true,
            Some(mask) => mask[c],
        }
    }
}

} // verus!
