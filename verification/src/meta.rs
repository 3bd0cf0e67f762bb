//! The integer fields of the metadata text.
//!
//! The metadata beside each stored sequence is key=value text; its integer
//! fields are written as plain decimal digits and read back with a fallback:
//! a value that is not a well-formed number reads as 0. The text handling
//! around the fields is plain I/O; the numbers themselves are formatted and
//! parsed here, exactly.

use vstd::prelude::*;

verus! {

/// Whether the byte is an ASCII decimal digit.
pub open spec fn is_dec_digit(b: u8) -> bool {
    48 <= b <= 57
}

/// Whether every byte is an ASCII decimal digit.
pub open spec fn all_dec_digits(s: Seq<u8>) -> bool {
    forall|i: int| 0 <= i < s.len() ==> is_dec_digit(#[trigger] s[i])
}

/// The number the digit bytes denote, most significant first.
pub open spec fn dec_value(s: Seq<u8>) -> int
    decreases s.len(),
{
    if s.len() == 0 {
        0
    } else {
        dec_value(s.drop_last()) * 10 + (s.last() - 48)
    }
}

/// The digit bytes proper: a single leading `+` is accepted and dropped,
/// as the integer parser of the standard library accepts it.
pub open spec fn digits_part(s: Seq<u8>) -> Seq<u8> {
    if s.len() > 0 && s[0] == 43 {
        s.drop_first()
    } else {
        s
    }
}

/// The value denoted by digit bytes is never negative.
pub proof fn lemma_dec_value_nonneg(s: Seq<u8>)
    requires
        all_dec_digits(s),
    ensures
        dec_value(s) >= 0,
    decreases s.len(),
{
    if s.len() > 0 {
        lemma_dec_value_nonneg(s.drop_last());
    }
}

/// Reading more digits never decreases the value.
proof fn lemma_dec_value_prefix_le(s: Seq<u8>, i: int)
    requires
        all_dec_digits(s),
        0 <= i <= s.len(),
    ensures
        dec_value(s.take(i)) <= dec_value(s),
    decreases s.len() - i,
{
    if i < s.len() {
        assert(s.take(i + 1).drop_last() =~= s.take(i));
        lemma_dec_value_nonneg(s.take(i));
        lemma_dec_value_prefix_le(s, i + 1);
    } else {
        assert(s.take(i) =~= s);
    }
}

/// The digit bytes of a positive number, most significant first; empty for 0.
pub open spec fn raw_dec_digits(n: int) -> Seq<u8>
    decreases n,
{
    if n <= 0 {
        Seq::empty()
    } else {
        raw_dec_digits(n / 10) + seq![(48 + n % 10) as u8]
    }
}

/// The decimal text of a number: its digit bytes, with 0 written as one `0`.
pub open spec fn dec_digits_of(n: int) -> Seq<u8> {
    if n == 0 {
        seq![48u8]
    } else {
        raw_dec_digits(n)
    }
}

/// Parse a decimal integer as the metadata fields are read: the value of the
/// digits (after an optional leading `+`), or 0 when the text is empty, holds
/// any other byte, or denotes a number too large for `usize`.
pub fn parse_usize_or_zero(bytes: &Vec<u8>) -> (r: usize)
    ensures
        ({
            let d = digits_part(bytes@);
            if d.len() > 0 && all_dec_digits(d) && dec_value(d) <= usize::MAX {
                r == dec_value(d)
            } else {
                r == 0
            }
        }),
{
    let n = bytes.len();
    let start: usize = if n > 0 && bytes[0] == 43 {
        1
    } else {
        0
    };
    proof {
        assert(digits_part(bytes@) =~= bytes@.skip(start as int));
    }
    if n == start {
        return 0;
    }
    let ghost d = bytes@.skip(start as int);
    let mut acc: usize = 0;
    let mut i: usize = start;
    while i < n
        invariant
            start <= i <= n,
            n == bytes@.len(),
            d == bytes@.skip(start as int),
            d == digits_part(bytes@),
            all_dec_digits(d.take(i - start)),
            acc == dec_value(d.take(i - start)),
        decreases n - i,
    {
        let b = bytes[i];
        proof {
            assert(d.take(i - start + 1).drop_last() =~= d.take(i - start));
            assert(d.take(i - start + 1).last() == bytes@[i as int]);
        }
        if b < 48 || b > 57 {
            proof {
                assert(!is_dec_digit(d[i - start]));
            }
            return 0;
        }
        let digit = (b - 48) as usize;
        proof {
            assert((acc as u128) * 10 + 9 <= u128::MAX) by (nonlinear_arith)
                requires
                    acc <= u64::MAX,
            ;
        }
        let wide: u128 = (acc as u128) * 10 + (digit as u128);
        if wide > usize::MAX as u128 {
            proof {
                if all_dec_digits(d) && dec_value(d) <= usize::MAX {
                    lemma_dec_value_prefix_le(d, i - start + 1);
                }
            }
            return 0;
        }
        acc = wide as usize;
        i = i + 1;
    }
    proof {
        assert(d.take(n - start) =~= d);
    }
    acc
}

/// Every byte the formatter writes is a digit.
proof fn lemma_raw_dec_digits_are_digits(n: int)
    requires
        n >= 0,
    ensures
        all_dec_digits(raw_dec_digits(n)),
        n > 0 ==> raw_dec_digits(n).len() > 0,
    decreases n,
{
    if n > 0 {
        lemma_raw_dec_digits_are_digits(n / 10);
    }
}

/// The value of the digits the formatter writes is the number itself.
proof fn lemma_raw_dec_digits_value(n: int)
    requires
        n >= 0,
    ensures
        dec_value(raw_dec_digits(n)) == n,
    decreases n,
{
    if n > 0 {
        lemma_raw_dec_digits_value(n / 10);
        assert(raw_dec_digits(n).drop_last() =~= raw_dec_digits(n / 10));
    }
}

/// Format a number as the metadata fields are written: its decimal digits,
/// most significant first, with 0 written as one `0`.
pub fn usize_to_decimal(n: usize) -> (r: Vec<u8>)
    ensures
        r@ == dec_digits_of(n as int),
{
    let mut out: Vec<u8> = Vec::new();
    if n == 0 {
        out.push(48);
        proof {
            assert(out@ =~= seq![48u8]);
        }
        return out;
    }
    let mut m = n;
    while m > 0
        invariant
            0 <= m <= n,
            raw_dec_digits(n as int) == raw_dec_digits(m as int) + out@,
        decreases m,
    {
        let d: u8 = (m % 10) as u8 + 48;
        proof {
            assert((raw_dec_digits(m as int / 10) + seq![(48 + m as int % 10) as u8]) + out@
                =~= raw_dec_digits(m as int / 10) + out@.insert(0, d));
        }
        out.insert(0, d);
        m = m / 10;
    }
    proof {
        assert(raw_dec_digits(n as int) =~= out@);
    }
    out
}

/// Writing a metadata field and reading it back yields the number: the
/// decimal text of any machine-size number is non-empty, all digits, and
/// parses to the number itself.
pub proof fn lemma_decimal_roundtrip(n: int)
    requires
        0 <= n <= usize::MAX,
    ensures
        dec_digits_of(n).len() > 0,
        all_dec_digits(dec_digits_of(n)),
        digits_part(dec_digits_of(n)) == dec_digits_of(n),
        dec_value(dec_digits_of(n)) == n,
{
    if n == 0 {
        assert(seq![48u8].drop_last() =~= Seq::<u8>::empty());
        assert(dec_value(Seq::<u8>::empty()) == 0);
    } else {
        lemma_raw_dec_digits_are_digits(n);
        lemma_raw_dec_digits_value(n);
    }
    assert(is_dec_digit(dec_digits_of(n)[0]));
}

} // verus!
