use vstd::prelude::*;

verus! {

/// Unicode `White_Space`, the property `char::is_whitespace` tests.
pub open spec fn is_white_space(c: char) -> bool {
    ('\u{9}' <= c && c <= '\u{d}') || c == ' ' || c == '\u{85}' || c == '\u{a0}' || c
        == '\u{1680}' || ('\u{2000}' <= c && c <= '\u{200a}') || c == '\u{2028}' || c
        == '\u{2029}' || c == '\u{202f}' || c == '\u{205f}' || c == '\u{3000}'
}

pub fn white_space(c: char) -> (r: bool)
    ensures
        r == is_white_space(c),
{
    ('\u{9}' <= c && c <= '\u{d}') || c == ' ' || c == '\u{85}' || c == '\u{a0}' || c
        == '\u{1680}' || ('\u{2000}' <= c && c <= '\u{200a}') || c == '\u{2028}' || c
        == '\u{2029}' || c == '\u{202f}' || c == '\u{205f}' || c == '\u{3000}'
}

/// `s` without its leading white space.
pub open spec fn trim_start(s: Seq<char>) -> Seq<char>
    decreases s.len(),
{
    if s.len() > 0 && is_white_space(s[0]) {
        trim_start(s.drop_first())
    } else {
        s
    }
}

/// `s` without its trailing white space.
pub open spec fn trim_end(s: Seq<char>) -> Seq<char>
    decreases s.len(),
{
    if s.len() > 0 && is_white_space(s.last()) {
        trim_end(s.drop_last())
    } else {
        s
    }
}

/// `s` without leading and trailing white space, as `str::trim` gives it.
pub open spec fn trim(s: Seq<char>) -> Seq<char> {
    trim_end(trim_start(s))
}

/// The maximal runs of non-white-space characters of `s`, in order, as
/// `str::split_whitespace` gives them.
pub open spec fn fields(s: Seq<char>) -> Seq<Seq<char>>
    decreases s.len(),
{
    if s.len() == 0 {
        seq![]
    } else {
        let f = fields(s.drop_last());
        if is_white_space(s.last()) {
            f
        } else if s.len() >= 2 && !is_white_space(s[s.len() - 2]) {
            f.update(f.len() - 1, f.last().push(s.last()))
        } else {
            f.push(seq![s.last()])
        }
    }
}

pub open spec fn is_digit(c: char) -> bool {
    '0' <= c && c <= '9'
}

pub open spec fn all_digits(s: Seq<char>) -> bool {
    forall|i: int| 0 <= i < s.len() ==> is_digit(#[trigger] s[i])
}

/// The number that a string of decimal digits denotes.
pub open spec fn digits_value(s: Seq<char>) -> nat
    decreases s.len(),
{
    if s.len() == 0 {
        0
    } else {
        digits_value(s.drop_last()) * 10 + ((s.last() as u32) - ('0' as u32)) as nat
    }
}

/// `s` without one leading `+`.
pub open spec fn unsigned_part(s: Seq<char>) -> Seq<char> {
    if s.len() > 0 && s[0] == '+' {
        s.drop_first()
    } else {
        s
    }
}

/// The value of `s` as `str::parse::<usize>` reads it: an optional `+`, then
/// one or more decimal digits whose value fits in a `usize`.
pub open spec fn usize_of(s: Seq<char>) -> Option<nat> {
    let d = unsigned_part(s);
    if d.len() > 0 && all_digits(d) && digits_value(d) <= usize::MAX {
        Some(digits_value(d))
    } else {
        None
    }
}

/// The characters of `s`, in order.
pub fn chars_of(s: &str) -> (r: Vec<char>)
    ensures
        r@ == s@,
{
    let mut r: Vec<char> = Vec::new();
    for c in it: s.chars()
        invariant
            r@ == it.seq().take(it.index() as int),
    {
        r.push(c);
    }
    r
}

/// Bounds of the trimmed part of `cs[lo..hi]`.
pub fn trim_span(cs: &Vec<char>, lo: usize, hi: usize) -> (r: (usize, usize))
    requires
        lo <= hi <= cs.len(),
    ensures
        lo <= r.0 <= r.1 <= hi,
        cs@.subrange(r.0 as int, r.1 as int) == trim(cs@.subrange(lo as int, hi as int)),
{
    let mut a = lo;
    while a < hi && white_space(cs[a])
        invariant
            lo <= a <= hi <= cs.len(),
            trim_start(cs@.subrange(lo as int, hi as int)) == trim_start(
                cs@.subrange(a as int, hi as int),
            ),
        decreases hi - a,
    {
        assert(cs@.subrange(a as int, hi as int).drop_first() =~= cs@.subrange(a + 1, hi as int));
        a += 1;
    }
    assert(trim_start(cs@.subrange(a as int, hi as int)) == cs@.subrange(a as int, hi as int));
    let mut b = hi;
    while b > a && white_space(cs[b - 1])
        invariant
            lo <= a <= b <= hi <= cs.len(),
            trim_end(cs@.subrange(a as int, hi as int)) == trim_end(cs@.subrange(a as int, b as int)),
        decreases b - a,
    {
        assert(cs@.subrange(a as int, b as int).drop_last() =~= cs@.subrange(a as int, b - 1));
        b -= 1;
    }
    (a, b)
}

/// Trims white space from both ends of `s`.
pub fn trim_str(s: &str) -> (r: &str)
    ensures
        r@ == trim(s@),
{
    let cs = chars_of(s);
    let (a, b) = trim_span(&cs, 0, cs.len());
    assert(cs@.subrange(0, cs.len() as int) =~= s@);
    s.substring_char(a, b)
}

/// Position of the first `c` in `cs[lo..hi]`.
pub fn find_char(cs: &Vec<char>, lo: usize, hi: usize, c: char) -> (r: Option<usize>)
    requires
        lo <= hi <= cs.len(),
    ensures
        r matches Some(k) ==> lo <= k < hi && cs@[k as int] == c && forall|q: int|
            lo <= q < k ==> cs@[q] != c,
        r is None ==> forall|q: int| lo <= q < hi ==> cs@[q] != c,
{
    let mut k = lo;
    while k < hi
        invariant
            lo <= k <= hi <= cs.len(),
            forall|q: int| lo <= q < k ==> cs@[q] != c,
        decreases hi - k,
    {
        if cs[k] == c {
            return Some(k);
        }
        k += 1;
    }
    None
}

proof fn lemma_digits_prefix(s: Seq<char>, k: int)
    requires
        all_digits(s),
        0 <= k <= s.len(),
    ensures
        digits_value(s.take(k)) <= digits_value(s),
    decreases s.len(),
{
    if k < s.len() {
        assert(s.drop_last().take(k) =~= s.take(k));
        lemma_digits_prefix(s.drop_last(), k);
    } else {
        assert(s.take(k) =~= s);
    }
}

/// Reads `cs[lo..hi]` as a `usize`, as `str::parse::<usize>` does.
pub fn parse_usize(cs: &Vec<char>, lo: usize, hi: usize) -> (r: Option<usize>)
    requires
        lo <= hi <= cs.len(),
    ensures
        match usize_of(cs@.subrange(lo as int, hi as int)) {
            Some(v) => r == Some(v as usize),
            None => r is None,
        },
{
    let ghost s = cs@.subrange(lo as int, hi as int);
    let mut a = lo;
    if a < hi && cs[a] == '+' {
        a += 1;
    }
    let ghost d = cs@.subrange(a as int, hi as int);
    assert(unsigned_part(s) =~= d);
    if a == hi {
        return None;
    }
    let mut v: usize = 0;
    let mut k = a;
    while k < hi
        invariant
            lo <= a <= k <= hi <= cs.len(),
            d == cs@.subrange(a as int, hi as int),
            s == cs@.subrange(lo as int, hi as int),
            unsigned_part(s) == d,
            all_digits(cs@.subrange(a as int, k as int)),
            v == digits_value(cs@.subrange(a as int, k as int)),
        decreases hi - k,
    {
        let c = cs[k];
        if !('0' <= c && c <= '9') {
            assert(!is_digit(d[k - a]));
            assert(!all_digits(d));
            assert(usize_of(s) is None);
            return None;
        }
        let ghost next = cs@.subrange(a as int, k + 1);
        assert(next.drop_last() =~= cs@.subrange(a as int, k as int));
        assert(all_digits(next));
        assert(next.last() == c);
        assert(digits_value(next) == v * 10 + ((c as u32) - ('0' as u32)));
        let digit = ((c as u32) - ('0' as u32)) as usize;
        match v.checked_mul(10) {
            None => {
                proof {
                    if all_digits(d) {
                        assert(d.take(k + 1 - a) =~= next);
                        lemma_digits_prefix(d, k + 1 - a);
                    }
                }
                return None;
            },
            Some(m) => match m.checked_add(digit) {
                None => {
                    proof {
                        if all_digits(d) {
                            assert(d.take(k + 1 - a) =~= next);
                            lemma_digits_prefix(d, k + 1 - a);
                        }
                    }
                    return None;
                },
                Some(x) => {
                    v = x;
                },
            },
        }
        k += 1;
    }
    Some(v)
}

proof fn lemma_fields_nonempty(s: Seq<char>)
    requires
        s.len() > 0,
        !is_white_space(s.last()),
    ensures
        fields(s).len() > 0,
    decreases s.len(),
{
    let f = fields(s.drop_last());
    if s.len() >= 2 && !is_white_space(s[s.len() - 2]) {
        assert(s.drop_last().last() == s[s.len() - 2]);
        lemma_fields_nonempty(s.drop_last());
    }
}

/// `spans` cut `s` into exactly the pieces `f`.
pub open spec fn spans_of(s: Seq<char>, spans: Seq<(usize, usize)>, f: Seq<Seq<char>>) -> bool {
    &&& spans.len() == f.len()
    &&& forall|k: int|
        0 <= k < spans.len() ==> (#[trigger] spans[k]).0 <= spans[k].1 <= s.len() && s.subrange(
            spans[k].0 as int,
            spans[k].1 as int,
        ) == f[k]
}

/// Start and end of each white-space separated field of `cs`.
pub fn field_spans(cs: &Vec<char>) -> (r: Vec<(usize, usize)>)
    ensures
        spans_of(cs@, r@, fields(cs@)),
{
    let mut r: Vec<(usize, usize)> = Vec::new();
    let mut k: usize = 0;
    while k < cs.len()
        invariant
            k <= cs.len(),
            spans_of(cs@, r@, fields(cs@.take(k as int))),
            k > 0 && !is_white_space(cs@[k - 1]) ==> r.len() > 0 && r@.last().1 == k,
        decreases cs.len() - k,
    {
        let c = cs[k];
        let ghost t = cs@.take(k + 1);
        assert(t.drop_last() =~= cs@.take(k as int));
        assert(t.last() == c);
        if white_space(c) {
        } else if k > 0 && !white_space(cs[k - 1]) {
            assert(t[t.len() - 2] == cs@[k - 1]);
            let last = r.len() - 1;
            let (a, _) = r[last];
            proof {
                lemma_fields_nonempty(cs@.take(k as int));
                assert(cs@.take(k as int).last() == cs@[k - 1]);
                assert(cs@.subrange(a as int, k + 1) =~= cs@.subrange(a as int, k as int).push(c));
            }
            r.set(last, (a, k + 1));
        } else {
            if k > 0 {
                assert(t[t.len() - 2] == cs@[k - 1]);
            }
            assert(cs@.subrange(k as int, k + 1) =~= seq![c]);
            r.push((k, k + 1));
        }
        k += 1;
    }
    assert(cs@.take(cs.len() as int) =~= cs@);
    r
}

} // verus!
