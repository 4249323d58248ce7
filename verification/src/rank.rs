//! The rank engine: the cutoff ladder derived from the leader's score and the
//! mapping from a point total to a rank.

use vstd::prelude::*;
use vstd::arithmetic::div_mod::{lemma_div_is_ordered, lemma_div_multiples_vanish};

use crate::config::RankConfig;

verus! {

/// A progression tier: either unranked, or an index into the ordered list of
/// configured rank names (higher index means higher rank).
#[derive(Clone, Copy, Debug, PartialEq, Eq, Structural)]
pub enum Rank {
    Unranked,
    Rank(usize),
}

/// `a` is no higher a rank than `b`. Unranked is below every rank.
pub open spec fn rank_le(a: Rank, b: Rank) -> bool {
    match a {
        Rank::Unranked => true,
        Rank::Rank(i) => match b {
            Rank::Unranked => false,
            Rank::Rank(j) => i <= j,
        },
    }
}

/// `a` is a strictly lower rank than `b`.
pub open spec fn rank_lt(a: Rank, b: Rank) -> bool {
    rank_le(a, b) && a != b
}

impl Rank {
    /// The configured display name of this rank; unranked has none. The
    /// index must lie within the configured ladder.
    pub fn rank_name<'a>(&self, ranks: &'a RankConfig) -> (r: Option<&'a String>)
        requires
            *self matches Rank::Rank(i) ==> i < ranks.rank_names@.len(),
        ensures
            match *self {
                Rank::Unranked => r is None,
                Rank::Rank(i) => r matches Some(name) && name@ == ranks.rank_names@[i as int]@,
            },
    {
        match self {
            Rank::Unranked => None,
            Rank::Rank(i) => Some(&ranks.rank_names[*i]),
        }
    }
}

/// The higher of two ranks.
pub open spec fn rank_max_spec(a: Rank, b: Rank) -> Rank {
    if rank_le(a, b) {
        b
    } else {
        a
    }
}

/// Computes the higher of two ranks.
pub fn rank_max(a: Rank, b: Rank) -> (r: Rank)
    ensures
        r == rank_max_spec(a, b),
{
    match (a, b) {
        (Rank::Unranked, _) => b,
        (_, Rank::Unranked) => a,
        (Rank::Rank(i), Rank::Rank(j)) => {
            if i <= j {
                b
            } else {
                a
            }
        },
    }
}

/// The rank that a point total earns against a cutoff ladder: the highest
/// index whose cutoff the total reaches, or unranked below the lowest cutoff.
pub open spec fn rank_for_points_spec(cutoffs: Seq<i64>, points: i64) -> Rank
    decreases cutoffs.len(),
{
    if cutoffs.len() == 0 {
        Rank::Unranked
    } else if cutoffs.last() <= points {
        Rank::Rank((cutoffs.len() - 1) as usize)
    } else {
        rank_for_points_spec(cutoffs.drop_last(), points)
    }
}

/// A rank produced by a ladder is an index into that ladder.
pub proof fn lemma_rank_for_points_in_range(cutoffs: Seq<i64>, points: i64)
    requires
        cutoffs.len() <= usize::MAX,
    ensures
        match rank_for_points_spec(cutoffs, points) {
            Rank::Unranked => true,
            Rank::Rank(i) => i < cutoffs.len() && cutoffs[i as int] <= points,
        },
    decreases cutoffs.len(),
{
    if cutoffs.len() > 0 && cutoffs.last() > points {
        lemma_rank_for_points_in_range(cutoffs.drop_last(), points);
        match rank_for_points_spec(cutoffs.drop_last(), points) {
            Rank::Unranked => {},
            Rank::Rank(i) => {
                assert(cutoffs.drop_last()[i as int] == cutoffs[i as int]);
            },
        }
    }
}

/// Ranking is monotonic in the point total: more points never earn a lower
/// rank on the same ladder.
pub proof fn lemma_rank_for_points_monotonic(cutoffs: Seq<i64>, p1: i64, p2: i64)
    requires
        cutoffs.len() <= usize::MAX,
        p1 <= p2,
    ensures
        rank_le(rank_for_points_spec(cutoffs, p1), rank_for_points_spec(cutoffs, p2)),
    decreases cutoffs.len(),
{
    if cutoffs.len() > 0 {
        if cutoffs.last() <= p1 {
            // both are the top index
        } else if cutoffs.last() <= p2 {
            lemma_rank_for_points_in_range(cutoffs.drop_last(), p1);
            assert(rank_for_points_spec(cutoffs, p1)
                == rank_for_points_spec(cutoffs.drop_last(), p1));
            assert(rank_for_points_spec(cutoffs, p2)
                == Rank::Rank((cutoffs.len() - 1) as usize));
            match rank_for_points_spec(cutoffs.drop_last(), p1) {
                Rank::Unranked => {},
                Rank::Rank(i) => {
                    assert(i < cutoffs.drop_last().len());
                    assert(i <= (cutoffs.len() - 1) as usize);
                },
            }
        } else {
            lemma_rank_for_points_monotonic(cutoffs.drop_last(), p1, p2);
        }
    }
}

/// The cutoff ladder as a value: `count` cutoffs ascending by rank index,
/// the last one `top`, each lower one three quarters of the one above,
/// rounded down.
pub open spec fn ladder_spec(top: i64, count: nat) -> Seq<i64>
    decreases count,
{
    if count == 0 {
        Seq::empty()
    } else {
        ladder_spec((3 * top / 4) as i64, (count - 1) as nat).push(top)
    }
}

/// A sequence with the ladder's shape is the ladder.
proof fn lemma_ladder_char(s: Seq<i64>, top: i64, count: nat)
    requires
        s.len() == count,
        top >= 0,
        count > 0 ==> s.last() == top,
        forall|i: int| 0 <= i < count - 1 ==> #[trigger] s[i] == 3 * s[i + 1] / 4,
        forall|i: int| 0 <= i < count ==> 0 <= #[trigger] s[i] <= top,
    ensures
        s == ladder_spec(top, count),
    decreases count,
{
    if count == 0 {
        assert(s =~= ladder_spec(top, count));
    } else if count == 1 {
        assert(s =~= Seq::empty().push(top));
        assert(ladder_spec(top, count) == ladder_spec((3 * top / 4) as i64, 0).push(top));
        assert(ladder_spec((3 * top / 4) as i64, 0) =~= Seq::<i64>::empty());
    } else {
        let top2 = s[count - 2];
        assert(top2 == 3 * s[count - 1] / 4);
        assert forall|i: int| 0 <= i < count - 2 implies #[trigger] s.drop_last()[i] == 3
            * s.drop_last()[i + 1] / 4 by {
            assert(s[i] == 3 * s[i + 1] / 4);
        }
        assert forall|i: int| 0 <= i < count - 1 implies 0 <= #[trigger] s.drop_last()[i]
            <= top2 by {
            assert(s[i] == 3 * s[i + 1] / 4);
            assert(0 <= s[i + 1] <= top);
            lemma_quarters_monotone(s[i + 1] as int, s[count - 1] as int);
        }
        lemma_ladder_char(s.drop_last(), (3 * top / 4) as i64, (count - 1) as nat);
        assert(s =~= s.drop_last().push(top));
    }
}

/// Taking three quarters preserves order on non-negative values.
proof fn lemma_quarters_monotone(a: int, b: int)
    requires
        0 <= a <= b,
    ensures
        0 <= 3 * a / 4 <= 3 * b / 4,
{
    lemma_div_is_ordered(0, 3 * a, 4);
    lemma_div_is_ordered(3 * a, 3 * b, 4);
}

/// The cutoff ladder anchored at `top_score`: the top rank's cutoff is the
/// leader's score and each lower cutoff is three quarters of the one above,
/// rounded down. Ascending by rank index.
pub fn compute_cutoffs(top_score: i64, rank_count: usize) -> (cutoffs: Vec<i64>)
    requires
        top_score >= 0,
    ensures
        cutoffs@ == ladder_spec(top_score, rank_count as nat),
        cutoffs@.len() == rank_count,
        rank_count > 0 ==> cutoffs@.last() == top_score,
        forall|i: int| 0 <= i < rank_count - 1 ==> #[trigger] cutoffs@[i] == 3 * cutoffs@[i + 1] / 4,
        forall|i: int| 0 <= i < rank_count ==> 0 <= #[trigger] cutoffs@[i] <= top_score,
        forall|i: int| 0 <= i < rank_count - 1 ==> #[trigger] cutoffs@[i] <= cutoffs@[i + 1],
{
    let mut cutoffs: Vec<i64> = Vec::new();
    let mut score: i64 = top_score;
    let mut remaining: usize = rank_count;

    // Built highest-first, then reversed into ascending order.
    while remaining > 0
        invariant
            0 <= score <= top_score,
            cutoffs@.len() + remaining == rank_count,
            cutoffs@.len() == 0 ==> score == top_score,
            cutoffs@.len() > 0 ==> cutoffs@[0] == top_score,
            forall|i: int| 0 <= i < cutoffs@.len() ==> 0 <= #[trigger] cutoffs@[i] <= top_score,
            forall|i: int| 0 < i < cutoffs@.len() ==> #[trigger] cutoffs@[i] == 3 * cutoffs@[i - 1] / 4,
            cutoffs@.len() > 0 ==> score == 3 * cutoffs@.last() / 4,
        decreases remaining,
    {
        cutoffs.push(score);
        proof {
            lemma_quarters_shrink(score as int);
        }
        let next: i64 = ((score as u128) * 3 / 4) as i64;
        score = next;
        remaining = remaining - 1;
    }

    let mut ascending: Vec<i64> = Vec::new();
    let mut i: usize = cutoffs.len();
    while i > 0
        invariant
            i <= cutoffs@.len(),
            ascending@.len() + i == cutoffs@.len(),
            forall|j: int| 0 <= j < ascending@.len() ==>
                #[trigger] ascending@[j] == cutoffs@[cutoffs@.len() - 1 - j],
        decreases i,
    {
        i = i - 1;
        ascending.push(cutoffs[i]);
    }

    proof {
        assert forall|k: int| 0 <= k < rank_count - 1 implies
            #[trigger] ascending@[k] == 3 * ascending@[k + 1] / 4 by {
            assert(ascending@[k] == cutoffs@[rank_count - 1 - k]);
            assert(ascending@[k + 1] == cutoffs@[rank_count - 2 - k]);
        }
        assert forall|k: int| 0 <= k < rank_count - 1 implies
            #[trigger] ascending@[k] <= ascending@[k + 1] by {
            lemma_quarters_shrink(ascending@[k + 1] as int);
        }
        lemma_ladder_char(ascending@, top_score, rank_count as nat);
    }

    ascending
}

/// Three quarters of a non-negative value, rounded down, stays within it.
proof fn lemma_quarters_shrink(c: int)
    requires
        c >= 0,
    ensures
        0 <= 3 * c / 4 <= c,
{
    lemma_div_is_ordered(0, 3 * c, 4);
    lemma_div_is_ordered(3 * c, 4 * c, 4);
    lemma_div_multiples_vanish(c, 4);
}

} // verus!

