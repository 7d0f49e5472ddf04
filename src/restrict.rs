use std::collections::HashSet;

use vstd::prelude::*;

use crate::error::CustomError;
use crate::text::{chars_of, find_char, parse_usize, trim, trim_span, usize_of};

verus! {

broadcast use vstd::std_specs::hash::group_hash_axioms;

/// Why a variant index specification is rejected.
pub enum IndexProblem {
    /// This piece is not a number.
    NotANumber(Seq<char>),
    /// An index or range end is zero.
    NotPositive,
}

/// Position of the first `-` in `t`.
pub open spec fn first_dash(t: Seq<char>) -> int {
    choose|k: int| 0 <= k < t.len() && t[k] == '-' && forall|q: int| 0 <= q < k ==> t[q] != '-'
}

pub open spec fn has_dash(t: Seq<char>) -> bool {
    exists|k: int| 0 <= k < t.len() && t[k] == '-'
}

/// 0-based indices of the 1-based inclusive range between `x` and `y`, in either order.
pub open spec fn range_set(x: nat, y: nat) -> Set<int> {
    if x <= y {
        Set::new(|i: int| x - 1 <= i <= y - 1)
    } else {
        Set::new(|i: int| y - 1 <= i <= x - 1)
    }
}

/// The value of one end of a range; an empty end counts as zero, which is
/// not positive.
pub open spec fn range_end_of(a: Seq<char>) -> Option<nat> {
    if a.len() == 0 {
        Some(0)
    } else {
        usize_of(a)
    }
}

/// 0-based indices named by one trimmed piece: nothing, a 1-based index, or
/// a 1-based inclusive range `a-b`. An empty end of a range is rejected as
/// not positive.
pub open spec fn piece_indices(t: Seq<char>) -> Result<Set<int>, IndexProblem> {
    if t.len() == 0 {
        Ok(Set::empty())
    } else if has_dash(t) {
        let k = first_dash(t);
        let a = t.take(k);
        let b = t.skip(k + 1);
        match (range_end_of(a), range_end_of(b)) {
            (None, _) => Err(IndexProblem::NotANumber(a)),
            (Some(_), None) => Err(IndexProblem::NotANumber(b)),
            (Some(x), Some(y)) => if x == 0 || y == 0 {
                Err(IndexProblem::NotPositive)
            } else {
                Ok(range_set(x, y))
            },
        }
    } else {
        match usize_of(t) {
            None => Err(IndexProblem::NotANumber(t)),
            Some(x) => if x == 0 {
                Err(IndexProblem::NotPositive)
            } else {
                Ok(set![x - 1])
            },
        }
    }
}

/// Adds one comma-separated piece; the first problem met is kept.
pub open spec fn add_piece(acc: Result<Set<int>, IndexProblem>, piece: Seq<char>) -> Result<Set<int>, IndexProblem> {
    match acc {
        Err(e) => Err(e),
        Ok(a) => match piece_indices(trim(piece)) {
            Err(e) => Err(e),
            Ok(p) => Ok(a.union(p)),
        },
    }
}

/// Indices from the pieces completed so far, and the piece being read.
pub open spec fn scan_pieces(s: Seq<char>) -> (Result<Set<int>, IndexProblem>, Seq<char>)
    decreases s.len(),
{
    if s.len() == 0 {
        (Ok(Set::empty()), seq![])
    } else {
        let (acc, cur) = scan_pieces(s.drop_last());
        if s.last() == ',' {
            (add_piece(acc, cur), seq![])
        } else {
            (acc, cur.push(s.last()))
        }
    }
}

/// The 0-based variant indices that a specification such as `1-5000,7,9-12`
/// names, or the first problem in it.
pub open spec fn variant_indices_of(s: Seq<char>) -> Result<Set<int>, IndexProblem> {
    let (acc, cur) = scan_pieces(s);
    add_piece(acc, cur)
}

/// The error that reports `p`.
pub open spec fn reports(e: CustomError, p: IndexProblem) -> bool {
    match p {
        IndexProblem::NotANumber(a) => e matches CustomError::VariantIndexInt { arg } && arg@ == a,
        IndexProblem::NotPositive => e is VariantIndexLow,
    }
}

/// `h` holds exactly the indices of `s`.
pub open spec fn holds_indices(h: Set<usize>, s: Set<int>) -> bool {
    &&& forall|i: usize| #[trigger] h.contains(i) <==> s.contains(i as int)
    &&& forall|i: int| #[trigger] s.contains(i) ==> 0 <= i < usize::MAX
}

fn not_a_number(spec: &str, cs: &Vec<char>, lo: usize, hi: usize) -> (r: CustomError)
    requires
        cs@ == spec@,
        lo <= hi <= cs.len(),
    ensures
        r matches CustomError::VariantIndexInt { arg } && arg@ == cs@.subrange(lo as int, hi as int),
{
    CustomError::VariantIndexInt { arg: spec.substring_char(lo, hi).to_owned() }
}

/// Reads one end of a range; an empty end reads as zero.
fn parse_range_end(cs: &Vec<char>, lo: usize, hi: usize) -> (r: Option<usize>)
    requires
        lo <= hi <= cs.len(),
    ensures
        match range_end_of(cs@.subrange(lo as int, hi as int)) {
            Some(v) => r == Some(v as usize),
            None => r is None,
        },
{
    if lo == hi {
        Some(0)
    } else {
        parse_usize(cs, lo, hi)
    }
}

/// Adds the indices of the piece `cs[lo..hi]` to `indices`, or reports why it is rejected.
fn add_piece_indices(spec: &str, cs: &Vec<char>, lo: usize, hi: usize, indices: &mut HashSet<usize>) -> (r: Option<CustomError>)
    requires
        cs@ == spec@,
        lo <= hi <= cs.len(),
    ensures
        match piece_indices(trim(cs@.subrange(lo as int, hi as int))) {
            Ok(p) => r is None && forall|i: usize| #[trigger] final(indices)@.contains(i) <==> (old(indices)@.contains(i) || p.contains(i as int)),
            Err(e) => r matches Some(err) && reports(err, e),
        },
        forall|i: int| #[trigger] piece_indices(trim(cs@.subrange(lo as int, hi as int)))->Ok_0.contains(i) && piece_indices(trim(cs@.subrange(lo as int, hi as int))) is Ok ==> 0 <= i < usize::MAX,
{
    let (a, b) = trim_span(cs, lo, hi);
    let ghost t = cs@.subrange(a as int, b as int);
    if a == b {
        return None;
    }
    match find_char(cs, a, b, '-') {
        Some(k) => {
            let ghost dk = k - a;
            assert(t[dk] == '-');
            assert(first_dash(t) == dk) by {
                let f = first_dash(t);
                assert(0 <= f < t.len() && t[f] == '-' && forall|q: int| 0 <= q < f ==> t[q] != '-');
                if f < dk {
                    assert(cs@[a + f] == '-');
                } else if dk < f {
                    assert(t[dk] != '-');
                }
            }
            assert(t.take(dk) =~= cs@.subrange(a as int, k as int));
            assert(t.skip(dk + 1) =~= cs@.subrange(k + 1, b as int));
            let x = match parse_range_end(cs, a, k) {
                None => {
                    return Some(not_a_number(spec, cs, a, k));
                },
                Some(x) => x,
            };
            let y = match parse_range_end(cs, k + 1, b) {
                None => {
                    return Some(not_a_number(spec, cs, k + 1, b));
                },
                Some(y) => y,
            };
            if x == 0 || y == 0 {
                return Some(CustomError::VariantIndexLow);
            }
            let (first, last) = if x <= y {
                (x - 1, y - 1)
            } else {
                (y - 1, x - 1)
            };
            let ghost before = indices@;
            let mut v = first;
            while v < last
                invariant
                    first <= v <= last,
                    last < usize::MAX,
                    forall|i: usize| #[trigger] indices@.contains(i) <==> (before.contains(i) || (first <= i < v)),
                decreases last - v,
            {
                indices.insert(v);
                v += 1;
            }
            indices.insert(last);
            None
        },
        None => {
            assert(!has_dash(t)) by {
                if has_dash(t) {
                    let q = choose|q: int| 0 <= q < t.len() && t[q] == '-';
                    assert(cs@[a + q] == '-');
                }
            }
            match parse_usize(cs, a, b) {
                None => Some(not_a_number(spec, cs, a, b)),
                Some(x) => {
                    if x == 0 {
                        Some(CustomError::VariantIndexLow)
                    } else {
                        indices.insert(x - 1);
                        None
                    }
                },
            }
        },
    }
}

/// Parses a comma-separated list of 1-based indices and inclusive ranges
/// (`1-5000,10000-20000`, `1,2,3000-4000`) into 0-based indices. Pieces are
/// trimmed and empty pieces skipped; a range may be written high to low.
pub fn parse_indices(spec: &str) -> (r: Result<HashSet<usize>, CustomError>)
    ensures
        match variant_indices_of(spec@) {
            Ok(s) => r matches Ok(h) && holds_indices(h@, s),
            Err(p) => r matches Err(e) && reports(e, p),
        },
{
    let cs = chars_of(spec);
    let mut indices: HashSet<usize> = HashSet::new();
    let mut failure: Option<CustomError> = None;
    let mut start: usize = 0;
    let mut k: usize = 0;
    while k < cs.len()
        invariant
            cs@ == spec@,
            start <= k <= cs.len(),
            scan_pieces(cs@.take(k as int)).1 == cs@.subrange(start as int, k as int),
            match scan_pieces(cs@.take(k as int)).0 {
                Ok(s) => failure is None && holds_indices(indices@, s),
                Err(p) => failure matches Some(e) && reports(e, p),
            },
        decreases cs.len() - k,
    {
        let ghost t = cs@.take(k + 1);
        assert(t.drop_last() =~= cs@.take(k as int));
        assert(t.last() == cs@[k as int]);
        if cs[k] == ',' {
            if failure.is_none() {
                failure = add_piece_indices(spec, &cs, start, k, &mut indices);
            }
            start = k + 1;
            assert(cs@.subrange(start as int, k + 1) =~= Seq::<char>::empty());
        } else {
            assert(cs@.subrange(start as int, k + 1) =~= cs@.subrange(start as int, k as int).push(cs@[k as int]));
        }
        k += 1;
    }
    assert(cs@.take(cs.len() as int) =~= spec@);
    if failure.is_none() {
        failure = add_piece_indices(spec, &cs, start, cs.len(), &mut indices);
    }
    match failure {
        Some(e) => Err(e),
        None => Ok(indices),
    }
}

} // verus!
