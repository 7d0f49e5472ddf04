use vstd::prelude::*;

use crate::counts::pair_listed;
use crate::model::{is_called, Allele, Site};

verus! {

/// Number of sites at which sample `i` has a call.
pub open spec fn called_count(sites: Seq<Seq<Allele>>, i: int) -> nat
    decreases sites.len(),
{
    if sites.len() == 0 {
        0
    } else {
        called_count(sites.drop_last(), i) + if is_called(sites.last()[i]) {
            1nat
        } else {
            0nat
        }
    }
}

proof fn lemma_called_count_bound(sites: Seq<Seq<Allele>>, i: int)
    ensures
        called_count(sites, i) <= sites.len(),
    decreases sites.len(),
{
    if sites.len() > 0 {
        lemma_called_count_bound(sites.drop_last(), i);
    }
}

/// Per-sample count of called sites, gathered in a pass before the pairwise
/// accumulation.
pub struct Coverage {
    counts: Vec<u64>,
    n_sites: u64,
    sites: Ghost<Seq<Seq<Allele>>>,
}

impl Coverage {
    pub closed spec fn n(&self) -> nat {
        self.counts.len() as nat
    }

    /// Every site counted so far.
    pub closed spec fn history(&self) -> Seq<Seq<Allele>> {
        self.sites@
    }

    pub closed spec fn wf(&self) -> bool {
        &&& self.n_sites == self.sites@.len()
        &&& forall|k: int| 0 <= k < self.sites@.len() ==> (#[trigger] self.sites@[k]).len() == self.counts.len()
        &&& forall|i: int| 0 <= i < self.counts.len() ==> #[trigger] self.counts@[i] == called_count(self.sites@, i)
    }

    /// Nothing counted yet, over `n_samples` samples.
    pub fn new(n_samples: usize) -> (r: Self)
        ensures
            r.wf(),
            r.n() == n_samples,
            r.history() == Seq::<Seq<Allele>>::empty(),
    {
        Coverage { counts: vec![0; n_samples], n_sites: 0, sites: Ghost(Seq::empty()) }
    }

    /// Counts one site.
    pub fn add_site(&mut self, site: &Site)
        requires
            old(self).wf(),
            site.genotypes.len() == old(self).n(),
            old(self).history().len() < u64::MAX,
        ensures
            final(self).wf(),
            final(self).n() == old(self).n(),
            final(self).history() == old(self).history().push(site@),
    {
        let ghost h = self.sites@;
        let ghost h2 = h.push(site@);
        assert(h2.drop_last() =~= h);
        let mut i: usize = 0;
        while i < self.counts.len()
            invariant
                i <= self.counts.len(),
                self.counts.len() == site.genotypes.len(),
                self.sites@ == h,
                self.n_sites == h.len(),
                h.len() < u64::MAX,
                h2 == h.push(site@),
                forall|k: int| 0 <= k < h.len() ==> (#[trigger] h[k]).len() == self.counts.len(),
                forall|q: int| 0 <= q < i ==> #[trigger] self.counts@[q] == called_count(h2, q),
                forall|q: int| i <= q < self.counts.len() ==> #[trigger] self.counts@[q] == called_count(h, q),
            decreases self.counts.len() - i,
        {
            assert(h2.drop_last() =~= h);
            assert(h2.last() == site.genotypes@);
            assert(called_count(h2, i as int) == called_count(h, i as int) + if is_called(site.genotypes@[i as int]) {
                1nat
            } else {
                0nat
            });
            if site.genotypes[i] != Allele::Missing {
                proof {
                    lemma_called_count_bound(h, i as int);
                }
                let c = self.counts[i] + 1;
                self.counts.set(i, c);
            }
            i += 1;
        }
        self.n_sites = self.n_sites + 1;
        self.sites = Ghost(h2);
        assert forall|k: int| 0 <= k < h2.len() implies (#[trigger] h2[k]).len() == self.counts.len() by {
            if k < h.len() {
                assert(h2[k] == h[k]);
            }
        }
    }

    /// The number of called sites per sample.
    pub fn counts(&self) -> (r: &Vec<u64>)
        requires
            self.wf(),
        ensures
            r.len() == self.n(),
            forall|i: int| 0 <= i < r.len() ==> #[trigger] r@[i] == called_count(self.history(), i),
    {
        &self.counts
    }
}

/// Sample `i` has more called sites than the threshold, or there is no threshold.
pub open spec fn passes(coverage: Seq<u64>, min_coverage: u64, i: int) -> bool {
    min_coverage == 0 || coverage[i] > min_coverage
}

proof fn lemma_listed_push(v: Seq<(usize, usize)>, p: (usize, usize), a: int, b: int)
    ensures
        pair_listed(v.push(p), a, b) == (pair_listed(v, a, b) || (p.0 == a && p.1 == b) || (p.0
            == b && p.1 == a)),
{
    let w = v.push(p);
    if pair_listed(w, a, b) {
        let k = choose|k: int|
            0 <= k < w.len() && ((w[k].0 == a && w[k].1 == b) || (w[k].0 == b && w[k].1 == a));
        if k < v.len() {
            assert(w[k] == v[k]);
        }
    }
    if pair_listed(v, a, b) {
        let k = choose|k: int|
            0 <= k < v.len() && ((v[k].0 == a && v[k].1 == b) || (v[k].0 == b && v[k].1 == a));
        assert(w[k] == v[k]);
    }
    if (p.0 == a && p.1 == b) || (p.0 == b && p.1 == a) {
        assert(w[v.len() as int] == p);
    }
}

/// The sample pairs to compute, or `None` for every pair. With a threshold,
/// samples at or below it are left out of every pair, listed or not; the
/// list is built only when it differs from every pair.
pub fn pairs_to_count(n_samples: usize, explicit: Option<Vec<(usize, usize)>>, coverage: &Vec<u64>, min_coverage: u64) -> (r: Option<Vec<(usize, usize)>>)
    requires
        min_coverage > 0 ==> coverage.len() == n_samples,
        explicit matches Some(p) ==> forall|k: int| 0 <= k < p.len() ==> (#[trigger] p@[k]).0 < n_samples && p@[k].1 < n_samples,
    ensures
        r is None <==> (explicit is None && forall|i: int| 0 <= i < n_samples ==> #[trigger] passes(coverage@, min_coverage, i)),
        r matches Some(q) ==> forall|k: int| 0 <= k < q.len() ==> (#[trigger] q@[k]).0 < n_samples && q@[k].1 < n_samples,
        r matches Some(q) ==> forall|i: int, j: int| 0 <= i < n_samples && 0 <= j < n_samples ==> (#[trigger] pair_listed(q@, i, j) <==> (i != j && passes(coverage@, min_coverage, i) && passes(coverage@, min_coverage, j) && match explicit {
            None => true,
            Some(p) => pair_listed(p@, i, j),
        })),
{
    let ghost cov = coverage@;
    let mut all_pass = true;
    if min_coverage > 0 {
        let mut i: usize = 0;
        while i < n_samples
            invariant
                i <= n_samples,
                coverage.len() == n_samples,
                cov == coverage@,
                min_coverage > 0,
                all_pass == forall|q: int| 0 <= q < i ==> #[trigger] passes(cov, min_coverage, q),
            decreases n_samples - i,
        {
            if coverage[i] <= min_coverage {
                assert(!passes(cov, min_coverage, i as int));
                all_pass = false;
            }
            i += 1;
        }
    }
    match explicit {
        None => {
            if all_pass {
                return None;
            }
            let mut q: Vec<(usize, usize)> = Vec::new();
            let mut i: usize = 0;
            while i < n_samples
                invariant
                    i <= n_samples,
                    min_coverage > 0,
                    coverage.len() == n_samples,
                    cov == coverage@,
                    forall|k: int| 0 <= k < q.len() ==> (#[trigger] q@[k]).0 < q@[k].1 < n_samples,
                    forall|a: int, b: int| 0 <= a < b < n_samples ==> (#[trigger] pair_listed(q@, a, b) <==> (passes(cov, min_coverage, a) && passes(cov, min_coverage, b) && a < i)),
                decreases n_samples - i,
            {
                let mut j: usize = i + 1;
                while j < n_samples
                    invariant
                        i < j <= n_samples,
                        min_coverage > 0,
                        coverage.len() == n_samples,
                        cov == coverage@,
                        forall|k: int| 0 <= k < q.len() ==> (#[trigger] q@[k]).0 < q@[k].1 < n_samples,
                        forall|a: int, b: int| 0 <= a < b < n_samples ==> (#[trigger] pair_listed(q@, a, b) <==> (passes(cov, min_coverage, a) && passes(cov, min_coverage, b) && (a < i || (a == i && b < j)))),
                    decreases n_samples - j,
                {
                    let ghost before = q@;
                    if coverage[i] > min_coverage && coverage[j] > min_coverage {
                        q.push((i, j));
                    }
                    assert forall|a: int, b: int| 0 <= a < b < n_samples implies (#[trigger] pair_listed(q@, a, b) <==> (passes(cov, min_coverage, a) && passes(cov, min_coverage, b) && (a < i || (a == i && b < j + 1)))) by {
                        lemma_listed_push(before, (i, j), a, b);
                    }
                    j += 1;
                }
                i += 1;
            }
            assert forall|a: int, b: int| 0 <= a < n_samples && 0 <= b < n_samples implies (#[trigger] pair_listed(q@, a, b) <==> (a != b && passes(cov, min_coverage, a) && passes(cov, min_coverage, b))) by {
                if b < a {
                    assert(pair_listed(q@, a, b) == pair_listed(q@, b, a));
                }
                if a == b && pair_listed(q@, a, b) {
                    let k = choose|k: int| 0 <= k < q@.len() && ((q@[k].0 == a && q@[k].1 == b) || (q@[k].0 == b && q@[k].1 == a));
                    assert(q@[k].0 < q@[k].1);
                }
            }
            Some(q)
        },
        Some(p) => {
            let mut q: Vec<(usize, usize)> = Vec::new();
            let mut k: usize = 0;
            while k < p.len()
                invariant
                    k <= p.len(),
                    min_coverage > 0 ==> coverage.len() == n_samples,
                    cov == coverage@,
                    forall|x: int| 0 <= x < p.len() ==> (#[trigger] p@[x]).0 < n_samples && p@[x].1 < n_samples,
                    forall|x: int| 0 <= x < q.len() ==> (#[trigger] q@[x]).0 < n_samples && q@[x].1 < n_samples && q@[x].0 != q@[x].1,
                    forall|a: int, b: int| 0 <= a < n_samples && 0 <= b < n_samples ==> (#[trigger] pair_listed(q@, a, b) <==> (a != b && passes(cov, min_coverage, a) && passes(cov, min_coverage, b) && pair_listed(p@.take(k as int), a, b))),
                decreases p.len() - k,
            {
                let (l, r) = p[k];
                let ghost before = q@;
                let keep = l != r && (min_coverage == 0 || (coverage[l] > min_coverage && coverage[r] > min_coverage));
                if keep {
                    q.push((l, r));
                }
                assert forall|a: int, b: int| 0 <= a < n_samples && 0 <= b < n_samples implies (#[trigger] pair_listed(q@, a, b) <==> (a != b && passes(cov, min_coverage, a) && passes(cov, min_coverage, b) && pair_listed(p@.take(k + 1), a, b))) by {
                    assert(p@.take(k + 1) =~= p@.take(k as int).push((l, r)));
                    lemma_listed_push(p@.take(k as int), (l, r), a, b);
                    lemma_listed_push(before, (l, r), a, b);
                    if a == b && pair_listed(before, a, b) {
                        let x = choose|x: int| 0 <= x < before.len() && ((before[x].0 == a && before[x].1 == b) || (before[x].0 == b && before[x].1 == a));
                        assert(before[x].0 != before[x].1);
                    }
                }
                k += 1;
            }
            assert(p@.take(p.len() as int) =~= p@);
            Some(q)
        },
    }
}

} // verus!
