//! Decimal integers read from byte ranges of a line buffer.

use vstd::prelude::*;

verus! {

/// ASCII `0`.
pub const DIGIT_ZERO: u8 = 48;

/// ASCII `9`.
pub const DIGIT_NINE: u8 = 57;

pub open spec fn is_digit(b: u8) -> bool {
    DIGIT_ZERO <= b && b <= DIGIT_NINE
}

pub open spec fn all_digits(s: Seq<u8>) -> bool {
    forall|i: int| 0 <= i < s.len() ==> is_digit(#[trigger] s[i])
}

/// The integer a digit string denotes, most significant digit first.
pub open spec fn dec_val(s: Seq<u8>) -> int
    decreases s.len(),
{
    if s.len() == 0 {
        0
    } else {
        dec_val(s.drop_last()) * 10 + (s.last() - DIGIT_ZERO)
    }
}

/// Whether a byte string is a non-empty run of decimal digits whose value
/// fits in a `u64`.
pub open spec fn parses_u64(s: Seq<u8>) -> bool {
    s.len() > 0 && all_digits(s) && dec_val(s) <= u64::MAX
}

pub proof fn lemma_dec_val_nonneg(s: Seq<u8>)
    requires
        all_digits(s),
    ensures
        dec_val(s) >= 0,
    decreases s.len(),
{
    if s.len() > 0 {
        assert(all_digits(s.drop_last()));
        lemma_dec_val_nonneg(s.drop_last());
    }
}

/// Appending digits can only grow the denoted value.
pub proof fn lemma_dec_val_prefix(s: Seq<u8>, k: int)
    requires
        all_digits(s),
        0 <= k <= s.len(),
    ensures
        dec_val(s.subrange(0, k)) <= dec_val(s),
    decreases s.len() - k,
{
    if k == s.len() {
        assert(s.subrange(0, k) =~= s);
    } else {
        let shorter = s.subrange(0, k);
        let longer = s.subrange(0, k + 1);
        assert(longer.drop_last() =~= shorter);
        assert(all_digits(shorter));
        lemma_dec_val_nonneg(shorter);
        assert(dec_val(longer) == dec_val(shorter) * 10 + (s[k] - DIGIT_ZERO));
        assert(dec_val(shorter) <= dec_val(longer));
        lemma_dec_val_prefix(s, k + 1);
    }
}

/// Reads the decimal integer in `buf[start .. start + len]`, or `None`
/// where that range is empty, holds a non-digit, or denotes a value that
/// does not fit in a `u64`.
pub fn parse_u64_range(buf: &Vec<u8>, start: usize, len: usize) -> (r: Option<u64>)
    requires
        start + len <= buf@.len(),
    ensures
        ({
            let s = buf@.subrange(start as int, start as int + len as int);
            match r {
                Some(v) => parses_u64(s) && v as int == dec_val(s),
                None => !parses_u64(s),
            }
        }),
{
    let ghost s = buf@.subrange(start as int, start as int + len as int);
    if len == 0 {
        return None;
    }
    let bn = buf.len();
    let mut acc: u64 = 0;
    let mut k: usize = 0;
    while k < len
        invariant
            start + len <= bn,
            bn == buf@.len(),
            s == buf@.subrange(start as int, start as int + len as int),
            0 < len,
            k <= len,
            all_digits(s.subrange(0, k as int)),
            acc as int == dec_val(s.subrange(0, k as int)),
        decreases len - k,
    {
        let b = buf[start + k];
        assert(b == s[k as int]);
        if b < DIGIT_ZERO || b > DIGIT_NINE {
            assert(!is_digit(s[k as int]));
            return None;
        }
        let d: u64 = (b - DIGIT_ZERO) as u64;
        proof {
            assert(s.subrange(0, k as int + 1).drop_last() =~= s.subrange(0, k as int));
            assert(s.subrange(0, k as int + 1).last() == s[k as int]);
            assert(all_digits(s.subrange(0, k as int + 1)));
            assert(dec_val(s.subrange(0, k as int + 1)) == acc * 10 + d);
        }
        if acc > u64::MAX / 10 || (acc == u64::MAX / 10 && d > u64::MAX % 10) {
            proof {
                assert(acc * 10 + d > u64::MAX);
                if all_digits(s) {
                    lemma_dec_val_prefix(s, k as int + 1);
                    assert(dec_val(s) > u64::MAX);
                }
            }
            return None;
        }
        proof {
            assert(acc * 10 + d <= u64::MAX);
        }
        acc = acc * 10 + d;
        k += 1;
    }
    proof {
        assert(s.subrange(0, len as int) =~= s);
    }
    Some(acc)
}

} // verus!
