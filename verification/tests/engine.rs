//! The rank engine: cutoff ladder, point-to-rank mapping, transition
//! evaluation and the points display.

use ctf_points::points::{points_to_string, RankManager};
use ctf_points::rank::{compute_cutoffs, rank_max, Rank};
use ctf_points::store::PointsUpdate;

#[test]
fn cutoffs_anchor_leader_and_decay_by_quarters() {
    // Leader at 1000 points with five configured ranks: each lower cutoff
    // is three quarters of the one above, rounded down at each step.
    let cutoffs = compute_cutoffs(1000, 5);
    assert_eq!(cutoffs, vec![315, 421, 562, 750, 1000]);
}

#[test]
fn cutoffs_are_nondecreasing() {
    for top in [0i64, 1, 9, 10, 999, 1000, 123_456_789] {
        let cutoffs = compute_cutoffs(top, 8);
        assert_eq!(cutoffs.len(), 8);
        for i in 0..cutoffs.len() - 1 {
            assert!(cutoffs[i] <= cutoffs[i + 1]);
        }
        assert_eq!(*cutoffs.last().unwrap(), top);
    }
}

#[test]
fn cutoffs_zero_ranks_and_zero_top() {
    assert_eq!(compute_cutoffs(1000, 0), Vec::<i64>::new());
    assert_eq!(compute_cutoffs(0, 3), vec![0, 0, 0]);
}

#[test]
fn rank_for_points_picks_highest_reached_cutoff() {
    let manager = RankManager { point_cutoffs: compute_cutoffs(1000, 5) };
    // 600 points reach the cutoff at index 2 (562) but not 750.
    assert_eq!(manager.rank_for_points(600), Rank::Rank(2));
    assert_eq!(manager.rank_for_points(1000), Rank::Rank(4));
    assert_eq!(manager.rank_for_points(5000), Rank::Rank(4));
    assert_eq!(manager.rank_for_points(315), Rank::Rank(0));
    assert_eq!(manager.rank_for_points(314), Rank::Unranked);
    assert_eq!(manager.rank_for_points(-50), Rank::Unranked);
}

#[test]
fn rank_for_points_is_monotonic_on_samples() {
    let manager = RankManager { point_cutoffs: compute_cutoffs(987_654, 10) };
    let samples = [-10i64, 0, 1, 100, 10_000, 400_000, 987_654, 2_000_000];
    for w in samples.windows(2) {
        let lo = manager.rank_for_points(w[0]);
        let hi = manager.rank_for_points(w[1]);
        assert_eq!(rank_max(lo, hi), hi);
    }
}

#[test]
fn evaluate_transition_reports_strict_increase() {
    let manager = RankManager { point_cutoffs: vec![100, 200, 300, 400, 500] };
    let up = manager.evaluate_transition(&PointsUpdate {
        user_id: 7,
        old_points: 150,
        new_points: 250,
        old_rank: Rank::Unranked,
    });
    let t = up.unwrap();
    assert_eq!(t.user_id, 7);
    assert_eq!(t.old_rank, Rank::Rank(0));
    assert_eq!(t.new_rank, Rank::Rank(1));

    // No increase, no transition.
    let same = manager.evaluate_transition(&PointsUpdate {
        user_id: 7,
        old_points: 250,
        new_points: 260,
        old_rank: Rank::Unranked,
    });
    assert!(same.is_none());
}

#[test]
fn ladder_drift_never_demotes_or_reannounces() {
    // The ladder moved up since the user last ranked: their cached rank is
    // 3 but their balance only earns rank 2 now. The effective old rank is
    // the maximum of both, so reaching rank 3 again is not announced and
    // nothing is ever revoked.
    let manager = RankManager { point_cutoffs: vec![100, 200, 300, 400, 500] };
    let stayed = manager.evaluate_transition(&PointsUpdate {
        user_id: 1,
        old_points: 350,
        new_points: 450,
        old_rank: Rank::Rank(3),
    });
    assert!(stayed.is_none());

    // Only climbing past the cached rank is a transition, and the old rank
    // reported is the cached one.
    let climbed = manager
        .evaluate_transition(&PointsUpdate {
            user_id: 1,
            old_points: 350,
            new_points: 520,
            old_rank: Rank::Rank(3),
        })
        .unwrap();
    assert_eq!(climbed.old_rank, Rank::Rank(3));
    assert_eq!(climbed.new_rank, Rank::Rank(4));
}

#[test]
fn rank_max_prefers_higher() {
    assert_eq!(rank_max(Rank::Unranked, Rank::Rank(0)), Rank::Rank(0));
    assert_eq!(rank_max(Rank::Rank(2), Rank::Rank(1)), Rank::Rank(2));
    assert_eq!(rank_max(Rank::Unranked, Rank::Unranked), Rank::Unranked);
}

#[test]
fn points_display_in_tenths() {
    assert_eq!(points_to_string(1234), "123.4");
    assert_eq!(points_to_string(0), "0.0");
    assert_eq!(points_to_string(7), "0.7");
    assert_eq!(points_to_string(100), "10.0");
    assert_eq!(points_to_string(-15), "-1.5");
    // Truncation toward zero: a balance between -10 and 0 shows no sign on
    // the integer part.
    assert_eq!(points_to_string(-5), "0.5");
    assert_eq!(points_to_string(i64::MAX), "922337203685477580.7");
}
