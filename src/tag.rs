//! The affected-row count in a Command-Complete tag such as `INSERT 0 5`.
use vstd::prelude::*;
use vstd::string::StringSliceAdditionalSpecFns;

verus! {

pub const SPACE: u8 = 0x20;

/// Offset where the token that ends at `i` begins: just past the last
/// space before `i`, or 0.
pub open spec fn token_start(b: Seq<u8>, i: int) -> int
    decreases i,
{
    if i <= 0 {
        0
    } else if b[i - 1] == SPACE {
        i
    } else {
        token_start(b, i - 1)
    }
}

/// The last space-separated token of `b` (all of `b` if it has no space).
pub open spec fn last_token(b: Seq<u8>) -> Seq<u8> {
    b.subrange(token_start(b, b.len() as int), b.len() as int)
}

pub open spec fn is_digit(c: u8) -> bool {
    0x30 <= c <= 0x39
}

pub open spec fn all_digits(d: Seq<u8>) -> bool {
    forall|i: int| 0 <= i < d.len() ==> is_digit(#[trigger] d[i])
}

/// The number that a string of decimal digits spells.
pub open spec fn digits_value(d: Seq<u8>) -> nat
    decreases d.len(),
{
    if d.len() == 0 {
        0
    } else {
        digits_value(d.drop_last()) * 10 + (d.last() - 0x30) as nat
    }
}

/// An unsigned 64-bit decimal number, as Rust parses one: an optional `+`,
/// then one or more digits, with a value that fits.
pub open spec fn parse_u64(b: Seq<u8>) -> Option<u64> {
    let d = if b.len() > 1 && b[0] == 0x2B {
        b.drop_first()
    } else {
        b
    };
    if d.len() > 0 && all_digits(d) && digits_value(d) <= u64::MAX {
        Some(digits_value(d) as u64)
    } else {
        None
    }
}

/// The affected-row count of a tag: its last space-separated token as a
/// number, or 0 where that token is not one.
pub open spec fn tag_rows(b: Seq<u8>) -> u64 {
    match parse_u64(last_token(b)) {
        Some(n) => n,
        None => 0,
    }
}

fn find_token_start(b: &[u8]) -> (r: usize)
    ensures
        r == token_start(b@, b@.len() as int),
        r <= b@.len(),
{
    let mut i: usize = b.len();
    while i > 0 && b[i - 1] != SPACE
        invariant
            i <= b@.len(),
            token_start(b@, b@.len() as int) == token_start(b@, i as int),
        decreases i,
    {
        i = i - 1;
    }
    i
}

/// Parses `b[lo..]` as an unsigned 64-bit decimal number.
fn parse_u64_at(b: &[u8], lo: usize) -> (r: Option<u64>)
    requires
        lo <= b@.len(),
    ensures
        r == parse_u64(b@.subrange(lo as int, b@.len() as int)),
{
    let ghost t = b@.subrange(lo as int, b@.len() as int);
    let start: usize = if b.len() - lo > 1 && b[lo] == 0x2B {
        lo + 1
    } else {
        lo
    };
    let ghost d = b@.subrange(start as int, b@.len() as int);
    assert(d == if t.len() > 1 && t[0] == 0x2B {
        t.drop_first()
    } else {
        t
    });
    if start == b.len() {
        return None;
    }
    let mut v: u64 = 0;
    let mut over = false;
    let mut i: usize = start;
    while i < b.len()
        invariant
            start <= i <= b@.len(),
            d == b@.subrange(start as int, b@.len() as int),
            d.len() > 0,
            lo <= start,
            t == b@.subrange(lo as int, b@.len() as int),
            parse_u64(t) == if all_digits(d) && digits_value(d) <= u64::MAX {
                Some(digits_value(d) as u64)
            } else {
                None
            },
            all_digits(b@.subrange(start as int, i as int)),
            over ==> digits_value(b@.subrange(start as int, i as int)) > u64::MAX,
            !over ==> v == digits_value(b@.subrange(start as int, i as int)),
        decreases b@.len() - i,
    {
        let c = b[i];
        if c < 0x30 || c > 0x39 {
            assert(d[i - start] == c);
            assert(!is_digit(d[i - start]));
            assert(!all_digits(d));
            return None;
        }
        let ghost p = b@.subrange(start as int, i as int);
        let ghost q = b@.subrange(start as int, i + 1);
        assert(q.drop_last() =~= p);
        assert(digits_value(q) == digits_value(p) * 10 + (c - 0x30) as nat);
        let dig = (c - 0x30) as u64;
        if over {
            assert(digits_value(p) * 10 + (c - 0x30) as nat > u64::MAX) by (nonlinear_arith)
                requires
                    digits_value(p) > u64::MAX,
            ;
        } else if v > (u64::MAX - dig) / 10 {
            assert(v * 10 + dig > u64::MAX) by (nonlinear_arith)
                requires
                    v > (u64::MAX - dig) / 10,
                    dig <= 9,
            ;
            over = true;
        } else {
            assert(v * 10 + dig <= u64::MAX) by (nonlinear_arith)
                requires
                    v <= (u64::MAX - dig) / 10,
                    dig <= 9,
            ;
            v = v * 10 + dig;
        }
        assert(all_digits(q)) by {
            assert forall|j: int| 0 <= j < q.len() implies is_digit(#[trigger] q[j]) by {
                if j < p.len() {
                    assert(q[j] == p[j]);
                }
            }
        }
        i = i + 1;
    }
    assert(b@.subrange(start as int, i as int) =~= d);
    if over {
        None
    } else {
        Some(v)
    }
}

/// The number of rows a command affected, from its Command-Complete tag.
pub fn rows_affected(tag: &str) -> (r: u64)
    ensures
        r == tag_rows(tag.spec_bytes()),
{
    let b = tag.as_bytes();
    let s = find_token_start(b);
    match parse_u64_at(b, s) {
        Some(n) => n,
        None => 0,
    }
}

} // verus!
