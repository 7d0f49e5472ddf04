use vstd::prelude::*;
use vstd::utf8::{decode_utf8, valid_utf8};

use crate::error::CustomError;
use crate::text::{chars_of, field_spans, fields, parse_usize, usize_of};

verus! {

/// Counts that a packed `.geno` header declares.
pub struct Header {
    pub n_samples: usize,
    pub n_variants: usize,
}

/// Why a header block is rejected.
pub enum HeaderProblem {
    NoNullByte,
    NotUtf8,
    FieldCount(nat),
    WrongTag,
    BadSampleCount,
    BadVariantCount,
}

/// Fields in a header record: tag, samples, variants and two checksums.
pub const GENO_HEADER_FIELDS: usize = 5;

/// Position of the first zero byte.
pub open spec fn first_zero(b: Seq<u8>) -> Option<int> {
    if exists|k: int| 0 <= k < b.len() && b[k] == 0 && forall|q: int| 0 <= q < k ==> b[q] != 0 {
        Some(choose|k: int| 0 <= k < b.len() && b[k] == 0 && forall|q: int| 0 <= q < k ==> b[q] != 0)
    } else {
        None
    }
}

/// The tag that opens the header of the variant-major or the sample-major layout.
pub open spec fn header_tag(transposed: bool) -> Seq<char> {
    if transposed {
        seq!['T', 'G', 'E', 'N', 'O']
    } else {
        seq!['G', 'E', 'N', 'O']
    }
}

/// Sample and variant counts of a header block: a text record ended by a
/// zero byte, made of five white-space separated fields, the first of them
/// the layout's tag.
pub open spec fn header_of(block: Seq<u8>, transposed: bool) -> Result<(nat, nat), HeaderProblem> {
    match first_zero(block) {
        None => Err(HeaderProblem::NoNullByte),
        Some(z) => {
            let text = block.take(z);
            if !valid_utf8(text) {
                Err(HeaderProblem::NotUtf8)
            } else {
                let f = fields(decode_utf8(text));
                if f.len() != 5 {
                    Err(HeaderProblem::FieldCount(f.len()))
                } else if f[0] != header_tag(transposed) {
                    Err(HeaderProblem::WrongTag)
                } else {
                    match (usize_of(f[1]), usize_of(f[2])) {
                        (None, _) => Err(HeaderProblem::BadSampleCount),
                        (Some(_), None) => Err(HeaderProblem::BadVariantCount),
                        (Some(n), Some(v)) => Ok((n, v)),
                    }
                }
            }
        },
    }
}

/// The error that reports `p`.
pub open spec fn reports_header(e: CustomError, p: HeaderProblem, transposed: bool) -> bool {
    match p {
        HeaderProblem::NoNullByte => e is PackedAncestryMapHeaderNullByte,
        HeaderProblem::NotUtf8 => e is PackedAncestryMapHeaderUtf8,
        HeaderProblem::FieldCount(n) => e matches CustomError::PackedAncestryMapHeaderFields { n_fields, expected } && n_fields == n && expected == 5,
        HeaderProblem::WrongTag => if transposed {
            e is PackedAncestryMapHeaderTgeno
        } else {
            e is PackedAncestryMapHeaderGeno
        },
        HeaderProblem::BadSampleCount => e is PackedAncestryMapHeaderN,
        HeaderProblem::BadVariantCount => e is PackedAncestryMapHeaderV,
    }
}

/// Relies on `std::str::from_utf8`: it accepts exactly the valid UTF-8 byte
/// strings, and the text it gives back is what the bytes encode.
#[verifier::external_body]
fn utf8_text(b: &[u8]) -> (r: Option<String>)
    ensures
        r is Some <==> valid_utf8(b@),
        r matches Some(s) ==> s@ == decode_utf8(b@),
{
    match std::str::from_utf8(b) {
        Ok(s) => Some(s.to_string()),
        Err(_) => None,
    }
}

fn span_is(cs: &Vec<char>, lo: usize, hi: usize, tag: &Vec<char>) -> (r: bool)
    requires
        lo <= hi <= cs.len(),
    ensures
        r == (cs@.subrange(lo as int, hi as int) == tag@),
{
    if hi - lo != tag.len() {
        return false;
    }
    let mut k: usize = 0;
    while k < tag.len()
        invariant
            hi - lo == tag.len(),
            lo <= hi <= cs.len(),
            k <= tag.len(),
            forall|q: int| 0 <= q < k ==> cs@[lo + q] == tag@[q],
        decreases tag.len() - k,
    {
        if cs[lo + k] != tag[k] {
            assert(cs@.subrange(lo as int, hi as int)[k as int] != tag@[k as int]);
            return false;
        }
        k += 1;
    }
    assert(cs@.subrange(lo as int, hi as int) =~= tag@);
    true
}

/// Reads the header record at the start of a packed `.geno` file.
pub fn parse_header_block(block: &[u8], transposed: bool) -> (r: Result<Header, CustomError>)
    ensures
        match header_of(block@, transposed) {
            Ok((n, v)) => r matches Ok(h) && h.n_samples == n && h.n_variants == v,
            Err(p) => r is Err && reports_header(r->Err_0, p, transposed),
        },
{
    let mut z: usize = 0;
    while z < block.len() && block[z] != 0
        invariant
            z <= block.len(),
            forall|q: int| 0 <= q < z ==> block@[q] != 0,
        decreases block.len() - z,
    {
        z += 1;
    }
    if z == block.len() {
        return Err(CustomError::PackedAncestryMapHeaderNullByte);
    }
    assert(first_zero(block@) == Some(z as int)) by {
        let c = choose|k: int| 0 <= k < block@.len() && block@[k] == 0 && forall|q: int| 0 <= q < k ==> block@[q] != 0;
        if c < z {
        } else if z < c {
        }
    }
    let text_bytes = &block[0..z];
    assert(text_bytes@ =~= block@.take(z as int));
    let text = match utf8_text(text_bytes) {
        None => {
            return Err(CustomError::PackedAncestryMapHeaderUtf8);
        },
        Some(t) => t,
    };
    let cs = chars_of(text.as_str());
    let spans = field_spans(&cs);
    if spans.len() != GENO_HEADER_FIELDS {
        return Err(CustomError::PackedAncestryMapHeaderFields { n_fields: spans.len(), expected: GENO_HEADER_FIELDS });
    }
    let tag: Vec<char> = if transposed {
        vec!['T', 'G', 'E', 'N', 'O']
    } else {
        vec!['G', 'E', 'N', 'O']
    };
    assert(tag@ =~= header_tag(transposed));
    let (a0, b0) = spans[0];
    if !span_is(&cs, a0, b0, &tag) {
        return Err(if transposed {
            CustomError::PackedAncestryMapHeaderTgeno
        } else {
            CustomError::PackedAncestryMapHeaderGeno
        });
    }
    let (a1, b1) = spans[1];
    let n_samples = match parse_usize(&cs, a1, b1) {
        None => {
            return Err(CustomError::PackedAncestryMapHeaderN);
        },
        Some(n) => n,
    };
    let (a2, b2) = spans[2];
    let n_variants = match parse_usize(&cs, a2, b2) {
        None => {
            return Err(CustomError::PackedAncestryMapHeaderV);
        },
        Some(v) => v,
    };
    Ok(Header { n_samples, n_variants })
}

} // verus!
