//! The scale factor table φ(N) for the transform parameter N in [1, 32].
//!
//! Every entry of the table is a positive double with exactly six decimal
//! places, so the table is held here exactly, in millionths. Callers that
//! run the floating-point transform recover the double as `micros / 10^6`.

use vstd::prelude::*;

verus! {

/// One entry of the scale factor table, in millionths: the scale factor for
/// parameter N = i + 1. Out-of-range indices yield 0, which is never an entry.
pub open spec fn scale_factor_micros_at(i: int) -> int {
    if i == 0 {
        2648721
    } else if i == 1 {
        6262255
    } else if i == 2 {
        10191723
    } else if i == 3 {
        14372347
    } else if i == 4 {
        18767815
    } else if i == 5 {
        23356149
    } else if i == 6 {
        28122658
    } else if i == 7 {
        33056181
    } else if i == 8 {
        38148183
    } else if i == 9 {
        43391010
    } else if i == 10 {
        48777981
    } else if i == 11 {
        54303487
    } else if i == 12 {
        59962184
    } else if i == 13 {
        65749077
    } else if i == 14 {
        71659576
    } else if i == 15 {
        77689537
    } else if i == 16 {
        83835262
    } else if i == 17 {
        90093524
    } else if i == 18 {
        96461403
    } else if i == 19 {
        102936028
    } else if i == 20 {
        109514153
    } else if i == 21 {
        116193178
    } else if i == 22 {
        122971973
    } else if i == 23 {
        129847912
    } else if i == 24 {
        136819839
    } else if i == 25 {
        143886974
    } else if i == 26 {
        151048885
    } else if i == 27 {
        158305430
    } else if i == 28 {
        165656712
    } else if i == 29 {
        173103048
    } else if i == 30 {
        180644922
    } else if i == 31 {
        188282950
    } else {
        0
    }
}

/// The whole table as a sequence: entry i is the scale factor for N = i + 1.
pub open spec fn scale_factor_micros_seq() -> Seq<int> {
    Seq::new(32, |i: int| scale_factor_micros_at(i))
}

/// The scale factor for parameter n, in millionths.
pub fn scale_factor_micros(n: usize) -> (r: u64)
    requires
        1 <= n <= 32,
    ensures
        r == scale_factor_micros_seq()[n - 1],
{
    match n {
        1 => 2648721,
        2 => 6262255,
        3 => 10191723,
        4 => 14372347,
        5 => 18767815,
        6 => 23356149,
        7 => 28122658,
        8 => 33056181,
        9 => 38148183,
        10 => 43391010,
        11 => 48777981,
        12 => 54303487,
        13 => 59962184,
        14 => 65749077,
        15 => 71659576,
        16 => 77689537,
        17 => 83835262,
        18 => 90093524,
        19 => 96461403,
        20 => 102936028,
        21 => 109514153,
        22 => 116193178,
        23 => 122971973,
        24 => 129847912,
        25 => 136819839,
        26 => 143886974,
        27 => 151048885,
        28 => 158305430,
        29 => 165656712,
        30 => 173103048,
        31 => 180644922,
        _ => 188282950,
    }
}

/// The discrete skeleton of the transform: which scale factor, if any, the
/// parameter selects. An out-of-range parameter (0, or above 32) selects
/// none, and the transform then falls back to the identity; that fallback is
/// part of the contract, not an error.
pub fn transform_scale_micros(n: usize) -> (r: Option<u64>)
    ensures
        (n == 0 || n > 32) <==> r is None,
        1 <= n <= 32 ==> r == Some(scale_factor_micros_at(n - 1) as u64),
{
    if n == 0 || n > 32 {
        None
    } else {
        Some(scale_factor_micros(n))
    }
}

/// Within the table, a smaller index holds a strictly smaller entry.
proof fn lemma_scale_factor_lt(i: int, j: int)
    requires
        0 <= i < j < 32,
    ensures
        scale_factor_micros_at(i) < scale_factor_micros_at(j),
    decreases j - i,
{
    if j > i + 1 {
        lemma_scale_factor_lt(i, j - 1);
    }
}

/// The scale factor table has exactly 32 entries, all positive, strictly
/// increasing with the parameter N.
pub proof fn lemma_scale_factor_table_increasing()
    ensures
        scale_factor_micros_seq().len() == 32,
        forall|i: int| 0 <= i < 32 ==> scale_factor_micros_seq()[i] > 0,
        forall|i: int, j: int|
            0 <= i < j < 32 ==> scale_factor_micros_seq()[i] < scale_factor_micros_seq()[j],
{
    assert forall|i: int, j: int| 0 <= i < j < 32 implies scale_factor_micros_seq()[i]
        < scale_factor_micros_seq()[j] by {
        lemma_scale_factor_lt(i, j);
    }
}

} // verus!
