use vstd::prelude::*;

use crate::error::CustomError;
use crate::samples::views;
use crate::text::{chars_of, field_spans, fields};

verus! {

/// Fields on each line of a `.ind` file: identifier, sex, population.
pub const IND_FIELDS: usize = 3;

/// Fields on each line of a `.snp` file.
pub const SNP_FIELDS: usize = 6;

/// Index of the first line that does not have `expected` fields.
pub open spec fn first_bad_line(lines: Seq<Seq<char>>, expected: nat) -> Option<int> {
    if exists|k: int|
        0 <= k < lines.len() && fields(lines[k]).len() != expected && forall|q: int|
            0 <= q < k ==> fields(lines[q]).len() == expected {
        Some(
            choose|k: int|
                0 <= k < lines.len() && fields(lines[k]).len() != expected && forall|q: int|
                    0 <= q < k ==> fields(lines[q]).len() == expected,
        )
    } else {
        None
    }
}

/// The first two fields of every line, or the 1-based number and field
/// count of the first line that does not have `expected` fields.
pub fn leading_fields(lines: &Vec<String>, expected: usize) -> (r: Result<Vec<(String, String)>, (usize, usize)>)
    requires
        expected >= 2,
    ensures
        match first_bad_line(views(lines@), expected as nat) {
            Some(k) => r matches Err(e) && e.0 == k + 1 && e.1 == fields(lines@[k]@).len(),
            None => r is Ok && r->Ok_0.len() == lines.len() && forall|k: int|
                0 <= k < lines.len() ==> (#[trigger] r->Ok_0@[k]).0@ == fields(lines@[k]@)[0]
                    && r->Ok_0@[k].1@ == fields(lines@[k]@)[1],
        },
{
    let ghost lv = views(lines@);
    let mut out: Vec<(String, String)> = Vec::new();
    let mut k: usize = 0;
    while k < lines.len()
        invariant
            k <= lines.len(),
            expected >= 2,
            lv == views(lines@),
            out.len() == k,
            forall|q: int| 0 <= q < k ==> fields(#[trigger] lv[q]).len() == expected,
            forall|q: int|
                0 <= q < k ==> (#[trigger] out@[q]).0@ == fields(lines@[q]@)[0] && out@[q].1@
                    == fields(lines@[q]@)[1],
        decreases lines.len() - k,
    {
        let line = lines[k].as_str();
        assert(lv[k as int] == lines@[k as int]@);
        let cs = chars_of(line);
        let spans = field_spans(&cs);
        if spans.len() != expected {
            proof {
                let c = choose|c: int|
                    0 <= c < lv.len() && fields(lv[c]).len() != expected && forall|q: int|
                        0 <= q < c ==> fields(lv[q]).len() == expected;
                assert(0 <= k < lv.len() && fields(lv[k as int]).len() != expected);
                if c < k {
                } else if k < c {
                }
            }
            return Err((k + 1, spans.len()));
        }
        let (a0, b0) = spans[0];
        let (a1, b1) = spans[1];
        let first = line.substring_char(a0, b0).to_owned();
        let second = line.substring_char(a1, b1).to_owned();
        out.push((first, second));
        k += 1;
    }
    proof {
        if first_bad_line(lv, expected as nat) is Some {
            let c = choose|c: int|
                0 <= c < lv.len() && fields(lv[c]).len() != expected && forall|q: int|
                    0 <= q < c ==> fields(lv[q]).len() == expected;
        }
    }
    Ok(out)
}

/// Sample identifiers, the first field of each `.ind` line.
pub fn read_eigenstrat_ind(lines: &Vec<String>) -> (r: Result<Vec<String>, CustomError>)
    ensures
        match first_bad_line(views(lines@), IND_FIELDS as nat) {
            Some(k) => r matches Err(CustomError::EigenstratIndFields { line_num, n_fields, expected })
                && line_num == k + 1 && n_fields == fields(lines@[k]@).len() && expected == IND_FIELDS,
            None => r is Ok && r->Ok_0.len() == lines.len() && forall|k: int|
                0 <= k < lines.len() ==> (#[trigger] r->Ok_0@[k])@ == fields(lines@[k]@)[0],
        },
{
    match leading_fields(lines, IND_FIELDS) {
        Err((line_num, n_fields)) => Err(CustomError::EigenstratIndFields { line_num, n_fields, expected: IND_FIELDS }),
        Ok(f) => {
            let mut ids: Vec<String> = Vec::new();
            let mut k: usize = 0;
            while k < f.len()
                invariant
                    k <= f.len(),
                    ids.len() == k,
                    forall|q: int| 0 <= q < k ==> (#[trigger] ids@[q])@ == f@[q].0@,
                decreases f.len() - k,
            {
                ids.push(f[k].0.clone());
                k += 1;
            }
            Ok(ids)
        },
    }
}

/// Number of variants in a `.snp` file, checking that every line has six fields.
pub fn read_eigenstrat_snp(lines: &Vec<String>) -> (r: Result<usize, CustomError>)
    ensures
        match first_bad_line(views(lines@), SNP_FIELDS as nat) {
            Some(k) => r matches Err(CustomError::EigenstratSnpFields { line_num, n_fields, expected })
                && line_num == k + 1 && n_fields == fields(lines@[k]@).len() && expected == SNP_FIELDS,
            None => r == Ok::<usize, CustomError>(lines.len()),
        },
{
    match leading_fields(lines, SNP_FIELDS) {
        Err((line_num, n_fields)) => Err(CustomError::EigenstratSnpFields { line_num, n_fields, expected: SNP_FIELDS }),
        Ok(_) => Ok(lines.len()),
    }
}

} // verus!
