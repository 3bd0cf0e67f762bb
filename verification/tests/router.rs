use hybrid_phi::route_select;
use hybrid_phi::router::score_ge;
use hybrid_phi::router::score_gt;
use hybrid_phi::similarity_score;
use hybrid_phi::Score;

#[test]
fn test_similarity_mismatched_lengths() {
    // Two positions against three: score 0, whatever the flags would say.
    let s = similarity_score(2, 3, &Vec::new());
    assert_eq!(s, Score { matched: 0, total: 1 });
}

#[test]
fn test_similarity_empty() {
    let s = similarity_score(0, 0, &Vec::new());
    assert_eq!(s, Score { matched: 0, total: 1 });
}

#[test]
fn test_similarity_counts_matches() {
    let flags = vec![true, false, true];
    let s = similarity_score(3, 3, &flags);
    assert_eq!(s, Score { matched: 2, total: 3 });
}

#[test]
fn test_similarity_self_is_one() {
    // A sequence against itself matches at every position: the score is 1.
    let flags = vec![true, true, true];
    let s = similarity_score(3, 3, &flags);
    assert_eq!(s.matched, s.total);
    assert_eq!(s, Score { matched: 3, total: 3 });
}

#[test]
fn test_similarity_symmetric() {
    let flags = vec![true, false, true];
    assert_eq!(similarity_score(3, 3, &flags), similarity_score(3, 3, &flags));
    assert_eq!(
        similarity_score(2, 3, &Vec::new()),
        similarity_score(3, 2, &Vec::new())
    );
}

#[test]
fn test_score_comparisons() {
    // Rational comparisons across different denominators.
    assert!(score_gt(&Score { matched: 1, total: 2 }, &Score { matched: 1, total: 3 }));
    assert!(!score_gt(&Score { matched: 2, total: 6 }, &Score { matched: 1, total: 3 }));
    assert!(score_ge(&Score { matched: 2, total: 6 }, &Score { matched: 1, total: 3 }));
    assert!(score_ge(&Score { matched: 3, total: 3 }, &Score { matched: 4, total: 5 }));
}

#[test]
fn test_route_selects_best_above_threshold() {
    // Candidate scores of a query against stores "alpha" (identical: all
    // three positions match) and "beta" (nothing matches), threshold 0.8.
    let scores = vec![
        Score { matched: 3, total: 3 },
        Score { matched: 0, total: 3 },
    ];
    let threshold = Score { matched: 4, total: 5 };
    let picked = route_select(&scores, &threshold);
    assert_eq!(picked, Some((0, Score { matched: 3, total: 3 })));
}

#[test]
fn test_route_none_below_threshold() {
    // A query matching no stored candidate: no score reaches the threshold.
    let scores = vec![
        Score { matched: 0, total: 3 },
        Score { matched: 0, total: 3 },
    ];
    let threshold = Score { matched: 4, total: 5 };
    assert_eq!(route_select(&scores, &threshold), None);
}

#[test]
fn test_route_first_of_equal_scores_wins() {
    // A later candidate replaces the running best only with a strictly
    // greater score, so the first of two equal scores is kept.
    let scores = vec![
        Score { matched: 2, total: 3 },
        Score { matched: 2, total: 3 },
    ];
    let threshold = Score { matched: 1, total: 2 };
    assert_eq!(
        route_select(&scores, &threshold),
        Some((0, Score { matched: 2, total: 3 }))
    );
}

#[test]
fn test_route_all_zero_scores_is_none() {
    // A candidate with score 0 is never selected, even at threshold 0.
    let scores = vec![Score { matched: 0, total: 3 }];
    let threshold = Score { matched: 0, total: 1 };
    assert_eq!(route_select(&scores, &threshold), None);
}

#[test]
fn test_route_no_candidates() {
    let threshold = Score { matched: 0, total: 1 };
    assert_eq!(route_select(&Vec::new(), &threshold), None);
}
