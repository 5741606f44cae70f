use vstd::prelude::*;

verus! {

pub open spec fn is_digit(c: u8) -> bool {
    48 <= c <= 57
}

pub open spec fn all_digits(b: Seq<u8>) -> bool {
    forall|i: int| 0 <= i < b.len() ==> is_digit(#[trigger] b[i])
}

/// The value of a string of decimal digits, most significant first.
pub open spec fn digits_value(b: Seq<u8>) -> nat
    decreases b.len(),
{
    if b.len() == 0 {
        0
    } else {
        digits_value(b.drop_last()) * 10 + (b.last() - 48) as nat
    }
}

/// One or more decimal digits and their value.
pub open spec fn magnitude(b: Seq<u8>) -> Option<nat> {
    if b.len() > 0 && all_digits(b) {
        Some(digits_value(b))
    } else {
        None
    }
}

/// A decimal numeral with an optional leading `+`.
pub open spec fn unsigned_numeral(b: Seq<u8>) -> Option<nat> {
    if b.len() > 0 && b[0] == 43 {
        magnitude(b.drop_first())
    } else {
        magnitude(b)
    }
}

/// A decimal numeral with an optional leading `+` or `-`.
pub open spec fn signed_numeral(b: Seq<u8>) -> Option<int> {
    if b.len() > 0 && b[0] == 45 {
        match magnitude(b.drop_first()) {
            Some(m) => Some(-m),
            None => None,
        }
    } else {
        match unsigned_numeral(b) {
            Some(m) => Some(m as int),
            None => None,
        }
    }
}

/// The value of an unsigned numeral that is at most `limit`.
pub open spec fn unsigned_within(b: Seq<u8>, limit: int) -> Option<nat> {
    match unsigned_numeral(b) {
        Some(v) => if v <= limit {
            Some(v)
        } else {
            None
        },
        None => None,
    }
}

proof fn lemma_prefix_value(b: Seq<u8>, i: int)
    requires
        0 <= i <= b.len(),
    ensures
        digits_value(b.subrange(0, i)) <= digits_value(b),
    decreases b.len(),
{
    if i < b.len() {
        lemma_prefix_value(b.drop_last(), i);
        assert(b.drop_last().subrange(0, i) =~= b.subrange(0, i));
    } else {
        assert(b.subrange(0, i) =~= b);
    }
}

/// Reads the digits of `b` from `start` on, if there are any, there is
/// nothing else, and their value is at most `limit`.
fn parse_magnitude(b: &[u8], start: usize, limit: u64) -> (r: Option<u64>)
    requires
        start <= b@.len(),
    ensures
        r == (match magnitude(b@.subrange(start as int, b@.len() as int)) {
            Some(m) => if m <= limit {
                Some(m as u64)
            } else {
                None
            },
            None => None,
        }),
{
    let ghost d = b@.subrange(start as int, b@.len() as int);
    if start == b.len() {
        return None;
    }
    let mut acc: u64 = 0;
    let mut i: usize = start;
    while i < b.len()
        invariant
            start <= i <= b@.len(),
            d == b@.subrange(start as int, b@.len() as int),
            all_digits(b@.subrange(start as int, i as int)),
            acc == digits_value(b@.subrange(start as int, i as int)),
            acc <= limit,
        decreases b@.len() - i,
    {
        let c = b[i];
        if c < 48 || c > 57 {
            assert(!is_digit(d[i - start]));
            return None;
        }
        let digit = (c - 48) as u64;
        let ghost next = b@.subrange(start as int, i + 1);
        assert(next.drop_last() =~= b@.subrange(start as int, i as int));
        if digit > limit || acc > (limit - digit) / 10 {
            assert(acc * 10 + digit > limit) by (nonlinear_arith)
                requires
                    digit > limit || acc > (limit - digit) / 10,
                    acc >= 0,
            {
            }
            proof {
                if all_digits(d) {
                    lemma_prefix_value(d, i + 1 - start);
                    assert(d.subrange(0, i + 1 - start) =~= next);
                }
            }
            return None;
        }
        assert(acc * 10 + digit <= limit) by (nonlinear_arith)
            requires
                acc <= (limit - digit) / 10,
                digit <= 9,
        {
        }
        acc = acc * 10 + digit;
        i = i + 1;
    }
    assert(b@.subrange(start as int, i as int) =~= d);
    Some(acc)
}

/// Parses an unsigned decimal numeral (an optional `+`, then digits) no
/// greater than `limit`.
pub fn parse_unsigned(b: &[u8], limit: u64) -> (r: Option<u64>)
    ensures
        r == (match unsigned_within(b@, limit as int) {
            Some(v) => Some(v as u64),
            None => None,
        }),
{
    if b.len() > 0 && b[0] == 43 {
        assert(b@.subrange(1, b@.len() as int) =~= b@.drop_first());
        parse_magnitude(b, 1, limit)
    } else {
        assert(b@.subrange(0, b@.len() as int) =~= b@);
        parse_magnitude(b, 0, limit)
    }
}

/// Parses a signed decimal numeral that fits in 64 bits.
pub fn parse_signed(b: &[u8]) -> (r: Option<i64>)
    ensures
        r == (match signed_numeral(b@) {
            Some(v) => if i64::MIN <= v <= i64::MAX {
                Some(v as i64)
            } else {
                None
            },
            None => None,
        }),
{
    if b.len() > 0 && b[0] == 45 {
        assert(b@.subrange(1, b@.len() as int) =~= b@.drop_first());
        match parse_magnitude(b, 1, 0x8000_0000_0000_0000) {
            Some(m) => if m == 0x8000_0000_0000_0000 {
                Some(i64::MIN)
            } else {
                Some(-(m as i64))
            },
            None => None,
        }
    } else {
        match parse_unsigned(b, i64::MAX as u64) {
            Some(m) => Some(m as i64),
            None => None,
        }
    }
}

} // verus!
