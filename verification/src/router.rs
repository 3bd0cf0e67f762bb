//! Similarity scoring and routing over quantized sequences.
//!
//! A similarity score is an exact rational in [0, 1]: the number of matching
//! positions over the common length. The per-position comparison itself
//! happens on doubles and is handed in as a flag per position; everything
//! from the flags on — counting, the score, the scan for the best candidate
//! and the threshold test — is exact and verified here.

use vstd::prelude::*;

verus! {

/// An exact similarity score: the rational `matched / total`.
#[derive(Clone, Copy, Debug, PartialEq, Eq, Structural)]
pub struct Score {
    /// How many positions matched.
    pub matched: usize,
    /// How many positions were compared; 1 with `matched` 0 when no
    /// comparison took place (mismatched lengths, or empty input).
    pub total: usize,
}

impl Score {
    /// A score is well formed when it is a rational in [0, 1]:
    /// a positive denominator, and no more matches than positions.
    pub open spec fn wf(self) -> bool {
        self.total >= 1 && self.matched <= self.total
    }
}

/// `a < b` as rationals: `a.matched / a.total < b.matched / b.total`.
pub open spec fn score_lt_spec(a: Score, b: Score) -> bool {
    a.matched * b.total < b.matched * a.total
}

/// `a <= b` as rationals.
pub open spec fn score_le_spec(a: Score, b: Score) -> bool {
    a.matched * b.total <= b.matched * a.total
}

/// The product of two lengths, widened so that it cannot overflow.
fn mul_wide(a: usize, b: usize) -> (r: u128)
    ensures
        r == a * b,
{
    proof {
        assert(a * b <= u128::MAX) by (nonlinear_arith)
            requires
                a <= u64::MAX,
                b <= u64::MAX,
        ;
    }
    (a as u128) * (b as u128)
}

/// Whether `a > b` as rationals.
pub fn score_gt(a: &Score, b: &Score) -> (r: bool)
    ensures
        r == score_lt_spec(*b, *a),
{
    mul_wide(b.matched, a.total) < mul_wide(a.matched, b.total)
}

/// Whether `a >= b` as rationals.
pub fn score_ge(a: &Score, b: &Score) -> (r: bool)
    ensures
        r == score_le_spec(*b, *a),
{
    mul_wide(b.matched, a.total) <= mul_wide(a.matched, b.total)
}

/// How many of the flags are set.
pub open spec fn count_true(s: Seq<bool>) -> int
    decreases s.len(),
{
    if s.len() == 0 {
        0
    } else {
        count_true(s.drop_last()) + if s.last() {
            1int
        } else {
            0int
        }
    }
}

/// The count of set flags lies between 0 and the number of flags.
pub proof fn lemma_count_true_bounds(s: Seq<bool>)
    ensures
        0 <= count_true(s) <= s.len(),
    decreases s.len(),
{
    if s.len() > 0 {
        lemma_count_true_bounds(s.drop_last());
    }
}

/// When every flag is set, the count is the number of flags.
pub proof fn lemma_count_true_all(s: Seq<bool>)
    requires
        forall|i: int| 0 <= i < s.len() ==> s[i],
    ensures
        count_true(s) == s.len(),
    decreases s.len(),
{
    if s.len() > 0 {
        lemma_count_true_all(s.drop_last());
    }
}

/// The numerator of the similarity of two sequences of the given lengths,
/// whose per-position comparisons are `flags`: 0 when the lengths differ or
/// are zero, else the number of matching positions.
pub open spec fn sim_matched(a_len: int, b_len: int, flags: Seq<bool>) -> int {
    if a_len != b_len || a_len == 0 {
        0
    } else {
        count_true(flags)
    }
}

/// The denominator of the similarity: 1 when the lengths differ or are zero
/// (the score is then the rational 0), else the common length.
pub open spec fn sim_total(a_len: int, b_len: int, flags: Seq<bool>) -> int {
    if a_len != b_len || a_len == 0 {
        1
    } else {
        a_len
    }
}

/// The similarity score of two sequences of lengths `a_len` and `b_len`,
/// given one flag per position saying whether the sequences match there.
/// Mismatched lengths, or empty sequences, score 0 without any comparison.
pub fn similarity_score(a_len: usize, b_len: usize, flags: &Vec<bool>) -> (s: Score)
    requires
        a_len == b_len && a_len > 0 ==> flags@.len() == a_len,
    ensures
        s.matched == sim_matched(a_len as int, b_len as int, flags@),
        s.total == sim_total(a_len as int, b_len as int, flags@),
        s.wf(),
{
    if a_len != b_len || a_len == 0 {
        Score { matched: 0, total: 1 }
    } else {
        let mut matched: usize = 0;
        let mut i: usize = 0;
        while i < flags.len()
            invariant
                i <= flags@.len(),
                matched == count_true(flags@.take(i as int)),
                matched <= i,
            decreases flags@.len() - i,
        {
            proof {
                assert(flags@.take(i + 1).drop_last() =~= flags@.take(i as int));
            }
            if flags[i] {
                matched = matched + 1;
            }
            i = i + 1;
        }
        proof {
            assert(flags@.take(flags@.len() as int) =~= flags@);
        }
        Score { matched, total: a_len }
    }
}

/// Similarity is symmetric in the two sequences: the per-position flags
/// compare absolute differences, so swapping the sequences swaps only the
/// lengths, and the score does not change.
pub proof fn lemma_similarity_symmetric(a_len: int, b_len: int, flags: Seq<bool>)
    ensures
        sim_matched(a_len, b_len, flags) == sim_matched(b_len, a_len, flags),
        sim_total(a_len, b_len, flags) == sim_total(b_len, a_len, flags),
{
}

/// The similarity score always lies in [0, 1]:
/// 0 <= numerator <= denominator, and the denominator is positive.
pub proof fn lemma_similarity_in_unit_interval(a_len: int, b_len: int, flags: Seq<bool>)
    requires
        a_len >= 0,
        b_len >= 0,
        a_len == b_len && a_len > 0 ==> flags.len() == a_len,
    ensures
        0 <= sim_matched(a_len, b_len, flags) <= sim_total(a_len, b_len, flags),
        sim_total(a_len, b_len, flags) >= 1,
{
    lemma_count_true_bounds(flags);
}

/// A non-empty sequence compared with itself matches at every position, and
/// its similarity score is then exactly 1.
pub proof fn lemma_similarity_self(a_len: int, flags: Seq<bool>)
    requires
        a_len > 0,
        flags.len() == a_len,
        forall|i: int| 0 <= i < flags.len() ==> flags[i],
    ensures
        sim_matched(a_len, a_len, flags) == sim_total(a_len, a_len, flags),
{
    lemma_count_true_all(flags);
}

/// Chaining `a <= b` with `b < c` over rationals.
proof fn lemma_score_le_lt_trans(a: Score, b: Score, c: Score)
    requires
        a.wf(),
        b.wf(),
        c.wf(),
        score_le_spec(a, b),
        score_lt_spec(b, c),
    ensures
        score_lt_spec(a, c),
{
    assert(a.matched * c.total < c.matched * a.total) by (nonlinear_arith)
        requires
            a.total >= 1,
            b.total >= 1,
            c.total >= 1,
            a.matched * b.total <= b.matched * a.total,
            b.matched * c.total < c.matched * b.total,
    ;
}

/// A score with no matches is the rational 0: no positive score lies below it.
proof fn lemma_zero_score_lt(z: Score, s: Score)
    requires
        z.wf(),
        s.wf(),
        z.matched == 0,
        s.matched > 0,
    ensures
        score_lt_spec(z, s),
{
    assert(z.matched * s.total == 0) by (nonlinear_arith)
        requires
            z.matched == 0,
    ;
    assert(0 < s.matched * z.total) by (nonlinear_arith)
        requires
            s.matched >= 1,
            z.total >= 1,
    ;
}

/// Against the starting score 0/1, a score compares greater
/// exactly when it has at least one match.
proof fn lemma_zero_start_cmp(z: Score, s: Score)
    requires
        z.matched == 0,
        z.total == 1,
    ensures
        score_lt_spec(z, s) <==> s.matched > 0,
{
    assert(z.matched * s.total == 0) by (nonlinear_arith)
        requires
            z.matched == 0,
    ;
    assert(s.matched * z.total == s.matched) by (nonlinear_arith)
        requires
            z.total == 1,
    ;
}

/// Select the best-scoring candidate at or above the threshold.
///
/// The scan keeps the first candidate reaching the running maximum: a later
/// candidate replaces it only with a strictly greater score. A candidate with
/// score 0 is never selected. The result carries the index of the selected
/// candidate and its score; it is `None` exactly when every candidate either
/// scored 0 or scored below the threshold.
pub fn route_select(scores: &Vec<Score>, threshold: &Score) -> (r: Option<(usize, Score)>)
    requires
        forall|k: int| 0 <= k < scores@.len() ==> (#[trigger] scores@[k]).wf(),
        threshold.wf(),
    ensures
        match r {
            Some(pick) => {
                &&& (pick.0 as int) < scores@.len()
                &&& pick.1 == scores@[pick.0 as int]
                &&& pick.1.matched > 0
                &&& score_le_spec(*threshold, pick.1)
                &&& forall|k: int|
                    0 <= k < scores@.len() ==> score_le_spec(#[trigger] scores@[k], pick.1)
                &&& forall|k: int| 0 <= k < pick.0 ==> score_lt_spec(#[trigger] scores@[k], pick.1)
            },
            None => forall|k: int|
                0 <= k < scores@.len() ==> ((#[trigger] scores@[k]).matched == 0 || score_lt_spec(
                    scores@[k],
                    *threshold,
                )),
        },
{
    let mut best_score = Score { matched: 0, total: 1 };
    let mut best_idx: Option<usize> = None;
    let mut i: usize = 0;
    while i < scores.len()
        invariant
            i <= scores@.len(),
            forall|k: int| 0 <= k < scores@.len() ==> (#[trigger] scores@[k]).wf(),
            best_score.wf(),
            match best_idx {
                None => {
                    &&& best_score == (Score { matched: 0, total: 1 })
                    &&& forall|k: int| 0 <= k < i ==> (#[trigger] scores@[k]).matched == 0
                },
                Some(bi) => {
                    &&& (bi as int) < i as int
                    &&& best_score == scores@[bi as int]
                    &&& best_score.matched > 0
                    &&& forall|k: int|
                        0 <= k < i ==> score_le_spec(#[trigger] scores@[k], best_score)
                    &&& forall|k: int| 0 <= k < bi ==> score_lt_spec(#[trigger] scores@[k], best_score)
                },
            },
        decreases scores@.len() - i,
    {
        let cur = scores[i];
        if score_gt(&cur, &best_score) {
            proof {
                if best_idx is None {
                    lemma_zero_start_cmp(best_score, cur);
                }
                assert forall|k: int| 0 <= k < i implies score_lt_spec(#[trigger] scores@[k], cur) by {
                    match best_idx {
                        None => {
                            lemma_zero_score_lt(scores@[k], cur);
                        },
                        Some(_) => {
                            lemma_score_le_lt_trans(scores@[k], best_score, cur);
                        },
                    }
                }
            }
            best_score = cur;
            best_idx = Some(i);
        } else {
            proof {
                if best_idx is None {
                    lemma_zero_start_cmp(best_score, cur);
                    assert(scores@[i as int].matched == 0);
                }
            }
        }
        i = i + 1;
    }
    match best_idx {
        None => None,
        Some(bi) => {
            if score_ge(&best_score, threshold) {
                Some((bi, best_score))
            } else {
                proof {
                    assert forall|k: int| 0 <= k < scores@.len() implies score_lt_spec(
                        #[trigger] scores@[k],
                        *threshold,
                    ) by {
                        lemma_score_le_lt_trans(scores@[k], best_score, *threshold);
                    }
                }
                None
            }
        },
    }
}

} // verus!
