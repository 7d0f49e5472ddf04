use vstd::prelude::*;

use crate::error::CustomError;
use crate::text::{chars_of, trim, trim_str};

verus! {

/// The character sequences of a list of strings.
pub open spec fn views(v: Seq<String>) -> Seq<Seq<char>> {
    v.map_values(|s: String| s@)
}

/// Position of the first sample called `id`.
pub open spec fn position_of(samples: Seq<Seq<char>>, id: Seq<char>) -> Option<int> {
    if exists|k: int|
        0 <= k < samples.len() && samples[k] == id && forall|q: int| 0 <= q < k ==> samples[q] != id {
        Some(
            choose|k: int|
                0 <= k < samples.len() && samples[k] == id && forall|q: int|
                    0 <= q < k ==> samples[q] != id,
        )
    } else {
        None
    }
}

/// Position of the first sample whose identifier is `id`.
pub fn find_sample(samples: &Vec<String>, id: &String) -> (r: Option<usize>)
    ensures
        match position_of(views(samples@), id@) {
            Some(k) => r == Some(k as usize),
            None => r is None,
        },
        r matches Some(k) ==> k < samples.len() && samples@[k as int]@ == id@,
{
    let ghost v = views(samples@);
    let mut k: usize = 0;
    while k < samples.len()
        invariant
            k <= samples.len(),
            v == views(samples@),
            forall|q: int| 0 <= q < k ==> v[q] != id@,
        decreases samples.len() - k,
    {
        if samples[k] == *id {
            proof {
                let p = choose|p: int|
                    0 <= p < v.len() && v[p] == id@ && forall|q: int| 0 <= q < p ==> v[q] != id@;
                assert(v[k as int] == id@);
                if p < k {
                } else if k < p {
                }
            }
            return Some(k);
        }
        k += 1;
    }
    None
}

/// Indices of the samples that a filter keeps: those named in it, each name
/// at its first occurrence, in file order.
pub open spec fn selected_indices(samples: Seq<Seq<char>>, keep: Seq<Seq<char>>) -> Seq<int>
    decreases samples.len(),
{
    if samples.len() == 0 {
        seq![]
    } else {
        let rest = samples.drop_last();
        let last = samples.last();
        if keep.contains(last) && !rest.contains(last) {
            selected_indices(rest, keep).push(samples.len() - 1)
        } else {
            selected_indices(rest, keep)
        }
    }
}

/// The first requested name that no sample carries.
pub open spec fn first_unknown(samples: Seq<Seq<char>>, keep: Seq<Seq<char>>) -> Option<Seq<char>> {
    if exists|k: int| 0 <= k < keep.len() && !samples.contains(keep[k]) {
        let k = choose|k: int|
            0 <= k < keep.len() && !samples.contains(keep[k]) && forall|q: int|
                0 <= q < k ==> samples.contains(keep[q]);
        Some(keep[k])
    } else {
        None
    }
}

proof fn lemma_selected_bounds(samples: Seq<Seq<char>>, keep: Seq<Seq<char>>)
    ensures
        forall|k: int|
            0 <= k < selected_indices(samples, keep).len() ==> 0 <= #[trigger] selected_indices(
                samples,
                keep,
            )[k] < samples.len(),
    decreases samples.len(),
{
    if samples.len() > 0 {
        lemma_selected_bounds(samples.drop_last(), keep);
        let prev = selected_indices(samples.drop_last(), keep);
        assert forall|k: int| 0 <= k < prev.len() implies 0 <= #[trigger] prev[k] < samples.len() by {
            assert(0 <= prev[k] < samples.drop_last().len());
        }
    }
}

fn contains_string(v: &Vec<String>, s: &String) -> (r: bool)
    ensures
        r == views(v@).contains(s@),
{
    let ghost w = views(v@);
    let mut k: usize = 0;
    while k < v.len()
        invariant
            k <= v.len(),
            w == views(v@),
            forall|q: int| 0 <= q < k ==> w[q] != s@,
        decreases v.len() - k,
    {
        if v[k] == *s {
            assert(w[k as int] == s@);
            return true;
        }
        k += 1;
    }
    false
}

/// Keeps the samples named in `filter`, in their file order, with their
/// positions in the file; without a filter every sample is kept. A requested
/// name that no sample carries is an error.
pub fn select_samples(samples: Vec<String>, filter: Option<Vec<String>>) -> (r: Result<(Vec<String>, Option<Vec<usize>>), CustomError>)
    ensures
        filter is None ==> r is Ok && r->Ok_0.1 is None && r->Ok_0.0@ == samples@,
        filter is Some && first_unknown(views(samples@), views(filter->Some_0@)) is Some ==> (r matches Err(CustomError::SamplePairUnknownSample { sample }) && sample@ == first_unknown(views(samples@), views(filter->Some_0@))->Some_0),
        filter is Some && first_unknown(views(samples@), views(filter->Some_0@)) is None ==> r is Ok && r->Ok_0.1 is Some,
        filter is Some && first_unknown(views(samples@), views(filter->Some_0@)) is None ==> {
            let kept = r->Ok_0.0;
            let idx = r->Ok_0.1->Some_0;
            let sel = selected_indices(views(samples@), views(filter->Some_0@));
            &&& idx.len() == sel.len()
            &&& kept.len() == sel.len()
            &&& forall|k: int| 0 <= k < sel.len() ==> #[trigger] idx@[k] == sel[k] && 0 <= sel[k] < samples.len()
            &&& forall|k: int| 0 <= k < sel.len() ==> (#[trigger] kept@[k])@ == samples@[sel[k]]@
        },
{
    match filter {
        None => Ok((samples, None)),
        Some(keep) => {
            let ghost sv = views(samples@);
            let ghost kv = views(keep@);
            let mut q: usize = 0;
            while q < keep.len()
                invariant
                    q <= keep.len(),
                    filter == Some(keep),
                    sv == views(samples@),
                    kv == views(keep@),
                    forall|p: int| 0 <= p < q ==> sv.contains(#[trigger] kv[p]),
                decreases keep.len() - q,
            {
                if !contains_string(&samples, &keep[q]) {
                    let ghost name = kv[q as int];
                    assert(first_unknown(sv, kv) == Some(name)) by {
                        let k = choose|k: int|
                            0 <= k < kv.len() && !sv.contains(kv[k]) && forall|p: int|
                                0 <= p < k ==> sv.contains(kv[p]);
                        assert(0 <= q < kv.len() && !sv.contains(kv[q as int]));
                        if k < q {
                        } else if q < k {
                            assert(sv.contains(kv[q as int]));
                        }
                    }
                    return Err(CustomError::SamplePairUnknownSample { sample: keep[q].clone() });
                }
                q += 1;
            }
            assert(first_unknown(sv, kv) is None);
            let mut kept: Vec<String> = Vec::new();
            let mut idx: Vec<usize> = Vec::new();
            let mut i: usize = 0;
            while i < samples.len()
                invariant
                    i <= samples.len(),
                    filter == Some(keep),
                    first_unknown(sv, kv) is None,
                    sv == views(samples@),
                    kv == views(keep@),
                    idx.len() == kept.len(),
                    idx@.len() == selected_indices(sv.take(i as int), kv).len(),
                    forall|k: int|
                        0 <= k < idx.len() ==> #[trigger] idx@[k] == selected_indices(sv.take(i as int), kv)[k]
                            && kept@[k]@ == sv[idx@[k] as int],
                decreases samples.len() - i,
            {
                let ghost t = sv.take(i + 1);
                assert(t.drop_last() =~= sv.take(i as int));
                assert(t.last() == sv[i as int]);
                proof {
                    lemma_selected_bounds(sv.take(i as int), kv);
                }
                let wanted = contains_string(&keep, &samples[i]);
                let mut seen = false;
                let mut p: usize = 0;
                while p < i
                    invariant
                        p <= i < samples.len(),
                        sv == views(samples@),
                        seen == sv.take(p as int).contains(sv[i as int]),
                    decreases i - p,
                {
                    assert(sv.take(p + 1) =~= sv.take(p as int).push(sv[p as int]));
                    assert(sv[p as int] == samples@[p as int]@);
                    assert(sv[i as int] == samples@[i as int]@);
                    let ghost x = sv[i as int];
                    let ghost t0 = sv.take(p as int);
                    let ghost t1 = sv.take(p + 1);
                    assert(t1.contains(x) == (t0.contains(x) || sv[p as int] == x)) by {
                        if sv[p as int] == x {
                            assert(t1[p as int] == x);
                        }
                        if t0.contains(x) {
                            let w = choose|w: int| 0 <= w < t0.len() && t0[w] == x;
                            assert(t1[w] == x);
                        }
                        if t1.contains(x) {
                            let w = choose|w: int| 0 <= w < t1.len() && t1[w] == x;
                            if w < p {
                                assert(t0[w] == x);
                            }
                        }
                    }
                    if samples[p] == samples[i] {
                        seen = true;
                    }
                    p += 1;
                }
                assert(sv.take(i as int) =~= t.drop_last());
                if wanted && !seen {
                    idx.push(i);
                    kept.push(samples[i].clone());
                }
                i += 1;
            }
            assert(sv.take(samples.len() as int) =~= sv);
            proof {
                lemma_selected_bounds(sv, kv);
                let sel = selected_indices(sv, kv);
                assert forall|k: int| 0 <= k < sel.len() implies (#[trigger] kept@[k])@ == samples@[sel[k]]@ by {
                    assert(idx@[k] == sel[k]);
                }
            }
            Ok((kept, Some(idx)))
        },
    }
}

} // verus!

verus! {

/// Why a list of sample pairs is rejected.
pub enum PairProblem {
    /// Both members of a pair name this sample.
    SameSample(Seq<char>),
    /// No sample carries this identifier.
    Unknown(Seq<char>),
    /// No pair was requested.
    Empty,
}

/// The pair of sample positions, smaller first, that one pair of identifiers
/// names after trimming.
pub open spec fn resolve_pair(samples: Seq<Seq<char>>, left: Seq<char>, right: Seq<char>) -> Result<(int, int), PairProblem> {
    let a = trim(left);
    let b = trim(right);
    if a == b {
        Err(PairProblem::SameSample(a))
    } else {
        match (position_of(samples, a), position_of(samples, b)) {
            (None, _) => Err(PairProblem::Unknown(a)),
            (Some(_), None) => Err(PairProblem::Unknown(b)),
            (Some(i), Some(j)) => Ok(
                if i < j {
                    (i, j)
                } else {
                    (j, i)
                },
            ),
        }
    }
}

/// The set of position pairs that `pairs` names, or the first problem met.
pub open spec fn resolve_all(samples: Seq<Seq<char>>, pairs: Seq<(Seq<char>, Seq<char>)>) -> Result<Set<(int, int)>, PairProblem>
    decreases pairs.len(),
{
    if pairs.len() == 0 {
        Ok(Set::empty())
    } else {
        match resolve_all(samples, pairs.drop_last()) {
            Err(e) => Err(e),
            Ok(s) => match resolve_pair(samples, pairs.last().0, pairs.last().1) {
                Err(e) => Err(e),
                Ok(q) => Ok(s.insert(q)),
            },
        }
    }
}

/// The requested pairs as position pairs; an empty request is an error.
pub open spec fn resolved_pairs(samples: Seq<Seq<char>>, pairs: Seq<(Seq<char>, Seq<char>)>) -> Result<Set<(int, int)>, PairProblem> {
    if pairs.len() == 0 {
        Err(PairProblem::Empty)
    } else {
        resolve_all(samples, pairs)
    }
}

pub open spec fn pair_views(pairs: Seq<(String, String)>) -> Seq<(Seq<char>, Seq<char>)> {
    pairs.map_values(|p: (String, String)| (p.0@, p.1@))
}

/// The set of pairs that a list holds.
pub open spec fn pair_set(v: Seq<(usize, usize)>) -> Set<(int, int)> {
    Set::new(|q: (int, int)| exists|k: int| 0 <= k < v.len() && q == (v[k].0 as int, v[k].1 as int))
}

pub open spec fn no_duplicates(v: Seq<(usize, usize)>) -> bool {
    forall|a: int, b: int| 0 <= a < b < v.len() ==> v[a] != v[b]
}

/// The error that reports `p`.
pub open spec fn reports_pair(e: CustomError, p: PairProblem) -> bool {
    match p {
        PairProblem::SameSample(a) => e matches CustomError::SamplePairDuplicate { sample } && sample@ == a,
        PairProblem::Unknown(a) => e matches CustomError::SamplePairUnknownSample { sample } && sample@ == a,
        PairProblem::Empty => e is SamplePairsEmpty,
    }
}

/// Resolves one pair of identifiers.
fn resolve_one(samples: &Vec<String>, left: &String, right: &String) -> (r: Result<(usize, usize), CustomError>)
    ensures
        match resolve_pair(views(samples@), left@, right@) {
            Ok(q) => r matches Ok(p) && p.0 == q.0 && p.1 == q.1 && p.0 < p.1 < samples.len(),
            Err(e) => r is Err && reports_pair(r->Err_0, e),
        },
{
    let a = trim_str(left.as_str()).to_owned();
    let b = trim_str(right.as_str()).to_owned();
    if a == b {
        return Err(CustomError::SamplePairDuplicate { sample: a });
    }
    let left_idx = match find_sample(samples, &a) {
        None => {
            return Err(CustomError::SamplePairUnknownSample { sample: a });
        },
        Some(i) => i,
    };
    let right_idx = match find_sample(samples, &b) {
        None => {
            return Err(CustomError::SamplePairUnknownSample { sample: b });
        },
        Some(i) => i,
    };
    assert(a@ != b@);
    if left_idx == right_idx {
        assert(a@ == samples@[left_idx as int]@);
    }
    assert(position_of(views(samples@), a@) == Some(left_idx as int));
    assert(position_of(views(samples@), b@) == Some(right_idx as int));
    if left_idx < right_idx {
        Ok((left_idx, right_idx))
    } else {
        Ok((right_idx, left_idx))
    }
}

/// Turns pairs of sample identifiers into pairs of sample positions,
/// smaller first, without repeats. Identifiers are trimmed; a pair naming
/// one sample twice, or naming an unknown sample, is an error, and so is an
/// empty list.
#[verifier::rlimit(40)]
pub fn resolve_sample_pairs(samples: &Vec<String>, pairs: &Vec<(String, String)>) -> (r: Result<Vec<(usize, usize)>, CustomError>)
    ensures
        match resolved_pairs(views(samples@), pair_views(pairs@)) {
            Ok(s) => r is Ok && pair_set(r->Ok_0@) == s && no_duplicates(r->Ok_0@)
                && forall|k: int| 0 <= k < r->Ok_0@.len() ==> (#[trigger] r->Ok_0@[k]).0 < r->Ok_0@[k].1 < samples.len(),
            Err(p) => r is Err && reports_pair(r->Err_0, p),
        },
{
    let ghost sv = views(samples@);
    let ghost pv = pair_views(pairs@);
    if pairs.len() == 0 {
        return Err(CustomError::SamplePairsEmpty);
    }
    let mut to_keep: Vec<(usize, usize)> = Vec::new();
    let mut k: usize = 0;
    while k < pairs.len()
        invariant
            k <= pairs.len(),
            sv == views(samples@),
            pv == pair_views(pairs@),
            resolve_all(sv, pv.take(k as int)) is Ok,
            pair_set(to_keep@) == resolve_all(sv, pv.take(k as int))->Ok_0,
            no_duplicates(to_keep@),
            forall|q: int| 0 <= q < to_keep@.len() ==> (#[trigger] to_keep@[q]).0 < to_keep@[q].1 < samples.len(),
        decreases pairs.len() - k,
    {
        let ghost t = pv.take(k + 1);
        assert(t.drop_last() =~= pv.take(k as int));
        assert(t.last() == pv[k as int]);
        assert(pv[k as int] == (pairs@[k as int].0@, pairs@[k as int].1@));
        let (lo, hi) = match resolve_one(samples, &pairs[k].0, &pairs[k].1) {
            Err(e) => {
                proof {
                    lemma_errors_stick(sv, pv, k + 1);
                }
                return Err(e);
            },
            Ok(q) => q,
        };
        let ghost before = to_keep@;
        let mut seen = false;
        let mut q: usize = 0;
        while q < to_keep.len()
            invariant
                q <= to_keep.len(),
                to_keep@ == before,
                seen == exists|w: int| 0 <= w < q && to_keep@[w] == (lo, hi),
            decreases to_keep.len() - q,
        {
            let (a, b) = to_keep[q];
            if a == lo && b == hi {
                seen = true;
            }
            q += 1;
        }
        if !seen {
            to_keep.push((lo, hi));
            proof {
                assert forall|a: int, b: int| 0 <= a < b < to_keep@.len() implies to_keep@[a] != to_keep@[b] by {
                    if b == to_keep@.len() - 1 {
                        assert(before[a] == to_keep@[a]);
                        assert(!(0 <= a < a + 1 && before[a] == (lo, hi)));
                    }
                }
            }
        }
        proof {
            let s0 = resolve_all(sv, pv.take(k as int))->Ok_0;
            assert(resolve_all(sv, pv.take(k + 1)) == Ok::<Set<(int, int)>, PairProblem>(s0.insert((lo as int, hi as int))));
            if seen {
                lemma_pair_set_has(before, (lo, hi));
            } else {
                lemma_pair_set_push(before, (lo, hi));
            }
        }
        k += 1;
    }
    assert(pv.take(pairs.len() as int) =~= pv);
    Ok(to_keep)
}

proof fn lemma_pair_set_push(v: Seq<(usize, usize)>, q: (usize, usize))
    ensures
        pair_set(v.push(q)) == pair_set(v).insert((q.0 as int, q.1 as int)),
{
    let w = v.push(q);
    assert forall|x: (int, int)| pair_set(w).contains(x) <==> pair_set(v).insert((q.0 as int, q.1 as int)).contains(x) by {
        if pair_set(w).contains(x) {
            let k = choose|k: int| 0 <= k < w.len() && x == (w[k].0 as int, w[k].1 as int);
            if k < v.len() {
                assert(w[k] == v[k]);
            }
        }
        if pair_set(v).contains(x) {
            let k = choose|k: int| 0 <= k < v.len() && x == (v[k].0 as int, v[k].1 as int);
            assert(w[k] == v[k]);
        }
        if x == (q.0 as int, q.1 as int) {
            assert(w[v.len() as int] == q);
        }
    }
    assert(pair_set(w) =~= pair_set(v).insert((q.0 as int, q.1 as int)));
}

proof fn lemma_pair_set_has(v: Seq<(usize, usize)>, q: (usize, usize))
    requires
        exists|k: int| 0 <= k < v.len() && v[k] == q,
    ensures
        pair_set(v) == pair_set(v).insert((q.0 as int, q.1 as int)),
{
    let k = choose|k: int| 0 <= k < v.len() && v[k] == q;
    assert(pair_set(v).contains((q.0 as int, q.1 as int)));
    assert(pair_set(v) =~= pair_set(v).insert((q.0 as int, q.1 as int)));
}

proof fn lemma_errors_stick(sv: Seq<Seq<char>>, pv: Seq<(Seq<char>, Seq<char>)>, k: int)
    requires
        0 <= k <= pv.len(),
        resolve_all(sv, pv.take(k)) is Err,
    ensures
        resolve_all(sv, pv) == resolve_all(sv, pv.take(k)),
    decreases pv.len() - k,
{
    if k < pv.len() {
        assert(pv.take(k + 1).drop_last() =~= pv.take(k));
        lemma_errors_stick(sv, pv, k + 1);
    } else {
        assert(pv.take(k) =~= pv);
    }
}

} // verus!

verus! {

/// The character sequences of CSV records.
pub open spec fn record_views(v: Seq<Vec<String>>) -> Seq<Seq<Seq<char>>> {
    v.map_values(|r: Vec<String>| views(r@))
}

/// Every field is empty once trimmed.
pub open spec fn is_blank(rec: Seq<Seq<char>>) -> bool {
    forall|i: int| 0 <= i < rec.len() ==> trim(#[trigger] rec[i]).len() == 0
}

/// `s` is `id` followed by `digit`, the letters in either case.
pub open spec fn is_id_label(s: Seq<char>, digit: char) -> bool {
    s.len() == 3 && (s[0] == 'i' || s[0] == 'I') && (s[1] == 'd' || s[1] == 'D') && s[2] == digit
}

/// The pairs a two-column CSV lists: blank rows are skipped, a leading
/// `id1,id2` header row is skipped, and rows with an empty member are
/// skipped; `None` when a non-blank row does not have two columns.
pub open spec fn pairs_in_records(recs: Seq<Seq<Seq<char>>>) -> Option<Seq<(Seq<char>, Seq<char>)>>
    decreases recs.len(),
{
    if recs.len() == 0 {
        Some(seq![])
    } else {
        match pairs_in_records(recs.drop_last()) {
            None => None,
            Some(ps) => {
                let rec = recs.last();
                if is_blank(rec) {
                    Some(ps)
                } else if rec.len() != 2 {
                    None
                } else {
                    let a = trim(rec[0]);
                    let b = trim(rec[1]);
                    if ps.len() == 0 && is_id_label(a, '1') && is_id_label(b, '2') {
                        Some(ps)
                    } else if a.len() == 0 || b.len() == 0 {
                        Some(ps)
                    } else {
                        Some(ps.push((a, b)))
                    }
                }
            },
        }
    }
}

fn is_label(s: &String, digit: char) -> (r: bool)
    ensures
        r == is_id_label(s@, digit),
{
    let cs = chars_of(s.as_str());
    cs.len() == 3 && (cs[0] == 'i' || cs[0] == 'I') && (cs[1] == 'd' || cs[1] == 'D') && cs[2]
        == digit
}

fn blank_record(rec: &Vec<String>) -> (r: bool)
    ensures
        r == is_blank(views(rec@)),
{
    let ghost v = views(rec@);
    let mut k: usize = 0;
    while k < rec.len()
        invariant
            k <= rec.len(),
            v == views(rec@),
            forall|i: int| 0 <= i < k ==> trim(#[trigger] v[i]).len() == 0,
        decreases rec.len() - k,
    {
        let t = trim_str(rec[k].as_str());
        assert(v[k as int] == rec@[k as int]@);
        if t.unicode_len() != 0 {
            return false;
        }
        k += 1;
    }
    true
}

/// Every non-blank row has one column, and there is at least one.
pub open spec fn is_single_column(recs: Seq<Seq<Seq<char>>>) -> bool {
    &&& exists|k: int| 0 <= k < recs.len() && !is_blank(#[trigger] recs[k])
    &&& forall|k: int| 0 <= k < recs.len() && !is_blank(#[trigger] recs[k]) ==> recs[k].len() == 1
}

/// The trimmed identifiers of a one-column CSV, blank rows skipped.
pub open spec fn ids_in_records(recs: Seq<Seq<Seq<char>>>) -> Seq<Seq<char>>
    decreases recs.len(),
{
    if recs.len() == 0 {
        seq![]
    } else {
        let prev = ids_in_records(recs.drop_last());
        if is_blank(recs.last()) {
            prev
        } else {
            prev.push(trim(recs.last()[0]))
        }
    }
}

/// Every pair of distinct positions of `ids`, earlier one first, ordered by
/// the later one.
pub open spec fn all_pairs_of(ids: Seq<Seq<char>>) -> Seq<(Seq<char>, Seq<char>)>
    decreases ids.len(),
{
    if ids.len() == 0 {
        seq![]
    } else {
        all_pairs_of(ids.drop_last()) + Seq::new((ids.len() - 1) as nat, |a: int| (ids[a], ids.last()))
    }
}

/// The pairs a sample CSV asks for: with one column, every pair of the
/// listed samples; with two, the listed pairs.
pub open spec fn requested_pairs(recs: Seq<Seq<Seq<char>>>) -> Option<Seq<(Seq<char>, Seq<char>)>> {
    if is_single_column(recs) {
        Some(all_pairs_of(ids_in_records(recs)))
    } else {
        pairs_in_records(recs)
    }
}

fn single_column(records: &Vec<Vec<String>>) -> (r: bool)
    ensures
        r == is_single_column(record_views(records@)),
{
    let ghost rv = record_views(records@);
    let mut any = false;
    let mut k: usize = 0;
    while k < records.len()
        invariant
            k <= records.len(),
            rv == record_views(records@),
            any == exists|q: int| 0 <= q < k && !is_blank(#[trigger] rv[q]),
            forall|q: int| 0 <= q < k && !is_blank(#[trigger] rv[q]) ==> rv[q].len() == 1,
        decreases records.len() - k,
    {
        assert(rv[k as int] == views(records@[k as int]@));
        if !blank_record(&records[k]) {
            if records[k].len() != 1 {
                return false;
            }
            any = true;
        }
        k += 1;
    }
    any
}

/// Every pair of the identifiers in a one-column CSV.
fn pairs_of_ids(records: &Vec<Vec<String>>) -> (r: Vec<(String, String)>)
    requires
        is_single_column(record_views(records@)),
    ensures
        pair_views(r@) == all_pairs_of(ids_in_records(record_views(records@))),
{
    let ghost rv = record_views(records@);
    let mut ids: Vec<String> = Vec::new();
    let mut k: usize = 0;
    while k < records.len()
        invariant
            k <= records.len(),
            rv == record_views(records@),
            is_single_column(rv),
            views(ids@) == ids_in_records(rv.take(k as int)),
        decreases records.len() - k,
    {
        let ghost t = rv.take(k + 1);
        assert(t.drop_last() =~= rv.take(k as int));
        assert(t.last() == rv[k as int]);
        assert(rv[k as int] == views(records@[k as int]@));
        if !blank_record(&records[k]) {
            assert(rv[k as int].len() == 1);
            assert(views(records@[k as int]@)[0] == records@[k as int]@[0]@);
            let id = trim_str(records[k][0].as_str()).to_owned();
            let ghost before = ids@;
            ids.push(id);
            assert(views(ids@) =~= views(before).push(id@));
        }
        k += 1;
    }
    assert(rv.take(records.len() as int) =~= rv);
    let ghost iv = views(ids@);
    let mut pairs: Vec<(String, String)> = Vec::new();
    let mut b: usize = 0;
    while b < ids.len()
        invariant
            b <= ids.len(),
            iv == views(ids@),
            pair_views(pairs@) == all_pairs_of(iv.take(b as int)),
        decreases ids.len() - b,
    {
        let ghost base = pair_views(pairs@);
        let ghost t = iv.take(b + 1);
        assert(t.drop_last() =~= iv.take(b as int));
        let mut a: usize = 0;
        while a < b
            invariant
                a <= b < ids.len(),
                iv == views(ids@),
                t == iv.take(b + 1),
                pair_views(pairs@) == base + Seq::new(a as nat, |x: int| (iv[x], iv[b as int])),
            decreases b - a,
        {
            let ghost before = pairs@;
            pairs.push((ids[a].clone(), ids[b].clone()));
            assert(pair_views(pairs@) =~= pair_views(before).push((iv[a as int], iv[b as int])));
            assert(base + Seq::new((a + 1) as nat, |x: int| (iv[x], iv[b as int])) =~= (base + Seq::new(a as nat, |x: int| (iv[x], iv[b as int]))).push((iv[a as int], iv[b as int])));
            a += 1;
        }
        assert(Seq::new(b as nat, |x: int| (iv[x], iv[b as int])) =~= Seq::new((t.len() - 1) as nat, |x: int| (t[x], t.last())));
        b += 1;
    }
    assert(iv.take(ids.len() as int) =~= iv);
    pairs
}

/// Reads sample pairs out of the records of a sample CSV.
pub fn sample_pairs_from_records(records: &Vec<Vec<String>>) -> (r: Result<Vec<(String, String)>, CustomError>)
    ensures
        match requested_pairs(record_views(records@)) {
            None => r matches Err(CustomError::SamplePairsColumns),
            Some(ps) => if ps.len() == 0 {
                r matches Err(CustomError::SamplePairsEmpty)
            } else {
                r is Ok && pair_views(r->Ok_0@) == ps
            },
        },
{
    if single_column(records) {
        let pairs = pairs_of_ids(records);
        if pairs.len() == 0 {
            return Err(CustomError::SamplePairsEmpty);
        }
        return Ok(pairs);
    }
    let ghost rv = record_views(records@);
    let mut pairs: Vec<(String, String)> = Vec::new();
    let mut k: usize = 0;
    while k < records.len()
        invariant
            k <= records.len(),
            rv == record_views(records@),
            !is_single_column(rv),
            pairs_in_records(rv.take(k as int)) == Some(pair_views(pairs@)),
        decreases records.len() - k,
    {
        let ghost t = rv.take(k + 1);
        assert(t.drop_last() =~= rv.take(k as int));
        assert(t.last() == views(records@[k as int]@));
        let rec = &records[k];
        if blank_record(rec) {
        } else if rec.len() != 2 {
            proof {
                lemma_records_stop(rv, k + 1);
            }
            return Err(CustomError::SamplePairsColumns);
        } else {
            assert(views(rec@)[0] == rec@[0]@);
            assert(views(rec@)[1] == rec@[1]@);
            let a = trim_str(rec[0].as_str()).to_owned();
            let b = trim_str(rec[1].as_str()).to_owned();
            if pairs.len() == 0 && is_label(&a, '1') && is_label(&b, '2') {
            } else if a.unicode_len() == 0 || b.unicode_len() == 0 {
            } else {
                let ghost before = pairs@;
                pairs.push((a, b));
                assert(pair_views(pairs@) =~= pair_views(before).push((a@, b@)));
            }
        }
        k += 1;
    }
    assert(rv.take(records.len() as int) =~= rv);
    if pairs.len() == 0 {
        return Err(CustomError::SamplePairsEmpty);
    }
    Ok(pairs)
}

proof fn lemma_records_stop(rv: Seq<Seq<Seq<char>>>, k: int)
    requires
        0 <= k <= rv.len(),
        pairs_in_records(rv.take(k)) is None,
    ensures
        pairs_in_records(rv) is None,
    decreases rv.len() - k,
{
    if k < rv.len() {
        assert(rv.take(k + 1).drop_last() =~= rv.take(k));
        lemma_records_stop(rv, k + 1);
    } else {
        assert(rv.take(k) =~= rv);
    }
}

} // verus!
