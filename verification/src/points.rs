//! The points and rank progression engine: the live cutoff ladder, rank
//! re-evaluation after a credit, and the point-crediting entry point.

use vstd::prelude::*;

use crate::config::Config;
use crate::error::Error;
use crate::rank::{
    compute_cutoffs, ladder_spec, rank_for_points_spec, rank_lt, rank_max, Rank,
};
use crate::store::{
    credit_one, max_points, set_rank_seq, PointsUpdate, Store,
};

verus! {

/// A rank increase to act on: grant the new rank's role, persist the cache,
/// revoke the old rank's role (if any), and announce.
#[derive(Clone, Copy, Debug, PartialEq, Eq, Structural)]
pub struct RankTransition {
    pub user_id: u64,
    /// The effective rank held before the credit.
    pub old_rank: Rank,
    /// The strictly higher rank now earned.
    pub new_rank: Rank,
}

/// The highest point balance among the stored users.
pub fn max_user_points(db: &Store) -> (r: i64)
    requires
        db.users@.len() > 0,
    ensures
        r == max_points(db.state().users),
{
    let mut best = db.users[0].points;
    proof {
        assert(db.state().users.take(1).len() == 1);
        assert(db.state().users.take(1)[0] == db.state().users[0]);
    }
    let n = db.users.len();
    let mut i: usize = 1;
    while i < n
        invariant
            1 <= i <= n,
            n == db.users@.len(),
            best == max_points(db.state().users.take(i as int)),
        decreases n - i,
    {
        proof {
            assert(db.state().users.take(i as int + 1).drop_last() =~= db.state().users.take(
                i as int,
            ));
        }
        let p = db.users[i].points;
        if p > best {
            best = p;
        }
        i = i + 1;
    }
    proof {
        assert(db.state().users.take(n as int) =~= db.state().users);
    }
    best
}

/// The live cutoff ladder: anchored at the current leader's balance, one
/// cutoff per configured rank, ascending.
pub fn get_point_cutoffs(db: &Store, config: &Config) -> (cutoffs: Vec<i64>)
    requires
        db.wf(),
        db.users@.len() > 0,
        max_points(db.state().users) >= 0,
    ensures
        cutoffs@ == ladder_spec(
            max_points(db.state().users) as i64,
            config.ranks.rank_names@.len() as nat,
        ),
{
    let top = max_user_points(db);
    compute_cutoffs(top, config.ranks.rank_count())
}

/// A snapshot of the cutoff ladder, mapping point totals to ranks.
pub struct RankManager {
    pub point_cutoffs: Vec<i64>,
}

impl RankManager {
    /// Builds the manager from the live population.
    pub fn new(db: &Store, config: &Config) -> (r: RankManager)
        requires
            db.wf(),
            db.users@.len() > 0,
            max_points(db.state().users) >= 0,
        ensures
            r.point_cutoffs@ == ladder_spec(
                max_points(db.state().users) as i64,
                config.ranks.rank_names@.len() as nat,
            ),
    {
        RankManager { point_cutoffs: get_point_cutoffs(db, config) }
    }

    /// The rank a point total earns on this ladder.
    pub fn rank_for_points(&self, points: i64) -> (r: Rank)
        ensures
            r == rank_for_points_spec(self.point_cutoffs@, points),
    {
        let mut i: usize = self.point_cutoffs.len();
        proof {
            assert(self.point_cutoffs@.take(i as int) =~= self.point_cutoffs@);
        }
        while i > 0
            invariant
                i <= self.point_cutoffs@.len(),
                rank_for_points_spec(self.point_cutoffs@, points) == rank_for_points_spec(
                    self.point_cutoffs@.take(i as int),
                    points,
                ),
            decreases i,
        {
            i = i - 1;
            proof {
                assert(self.point_cutoffs@.take(i as int + 1).drop_last() =~= self
                    .point_cutoffs@
                    .take(i as int));
                assert(self.point_cutoffs@.take(i as int + 1).last() == self.point_cutoffs@[
                    i as int]);
            }
            if self.point_cutoffs[i] <= points {
                return Rank::Rank(i);
            }
        }
        proof {
            assert(self.point_cutoffs@.take(0).len() == 0);
        }
        Rank::Unranked
    }

    /// Decides whether a balance change earns a rank increase. The
    /// effective old rank is the higher of the rank the old balance earns
    /// now and the previously cached rank, so a ladder that has moved up
    /// never demotes anyone or re-announces a rank they already hold.
    pub fn evaluate_transition(&self, update: &PointsUpdate) -> (r: Option<RankTransition>)
        ensures
            r == transition_of(self.point_cutoffs@, *update),
    {
        let old_rank = rank_max(
            self.rank_for_points(update.old_points),
            update.old_rank,
        );
        let new_rank = self.rank_for_points(update.new_points);
        let higher = rank_max(old_rank, new_rank);
        if higher == new_rank && new_rank != old_rank {
            Some(RankTransition { user_id: update.user_id, old_rank, new_rank })
        } else {
            None
        }
    }
}

/// The effective previous rank of a balance change: the higher of the rank
/// the old balance earns and the cached rank.
pub open spec fn effective_old_rank(cutoffs: Seq<i64>, update: PointsUpdate) -> Rank {
    crate::rank::rank_max_spec(rank_for_points_spec(cutoffs, update.old_points), update.old_rank)
}

/// The transition a balance change triggers on a ladder, if any: only a
/// strict increase over the effective old rank is one.
pub open spec fn transition_of(cutoffs: Seq<i64>, update: PointsUpdate) -> Option<
    RankTransition,
> {
    let eff = effective_old_rank(cutoffs, update);
    let new = rank_for_points_spec(cutoffs, update.new_points);
    if rank_lt(eff, new) {
        Some(RankTransition { user_id: update.user_id, old_rank: eff, new_rank: new })
    } else {
        None
    }
}

/// Re-evaluates one user's rank after a balance change against the live
/// ladder, persists the new cached rank on an increase, and reports the
/// transition for the caller to act on (role changes and announcement).
pub fn check_rank_up(db: &mut Store, config: &Config, update: PointsUpdate) -> (r: Option<
    RankTransition,
>)
    requires
        old(db).wf(),
        old(db).users@.len() > 0,
        max_points(old(db).state().users) >= 0,
    ensures
        final(db).wf(),
        ({
            let cutoffs = ladder_spec(
                max_points(old(db).state().users) as i64,
                config.ranks.rank_names@.len() as nat,
            );
            &&& r == transition_of(cutoffs, update)
            &&& (match r {
                Some(t) => final(db).state() == old(db).state().with_users(
                    set_rank_seq(old(db).state().users, update.user_id, t.new_rank),
                ),
                None => final(db).state() == old(db).state(),
            })
        }),
{
    let manager = RankManager::new(db, config);
    match manager.evaluate_transition(&update) {
        Some(t) => {
            let _ = db.set_rank(update.user_id, t.new_rank);
            proof {
                if old(db).state().has_user(update.user_id) {
                    assert(final(db).state() == old(db).state().with_users(
                        set_rank_seq(old(db).state().users, update.user_id, t.new_rank),
                    ));
                } else {
                    assert(set_rank_seq(old(db).state().users, update.user_id, t.new_rank)
                        =~= old(db).state().users);
                    assert(old(db).state().with_users(old(db).state().users) =~= old(db).state());
                }
            }
            Some(t)
        },
        None => None,
    }
}

/// Credits one user and re-evaluates their rank in one step, as for
/// point-earning events outside the solve workflow. Fails without effect
/// when the balance would leave the representable range; rank evaluation is
/// skipped when the resulting population has no non-negative balance to
/// anchor the ladder on.
pub fn give_points(db: &mut Store, config: &Config, user_id: u64, points: i64) -> (r: Result<
    Option<RankTransition>,
    Error,
>)
    requires
        old(db).wf(),
    ensures
        final(db).wf(),
        match r {
            Ok(t) => ({
                let pre = old(db).state();
                let credited = pre.with_users(credit_one(pre.users, user_id, points as int));
                let update = PointsUpdate {
                    user_id,
                    old_points: pre.points_or_zero(user_id) as i64,
                    new_points: (pre.points_or_zero(user_id) + points) as i64,
                    old_rank: pre.rank_or_unranked(user_id),
                };
                &&& i64::MIN <= pre.points_or_zero(user_id) + points <= i64::MAX
                &&& (if max_points(credited.users) >= 0 {
                    let cutoffs = ladder_spec(
                        max_points(credited.users) as i64,
                        config.ranks.rank_names@.len() as nat,
                    );
                    &&& t == transition_of(cutoffs, update)
                    &&& (match t {
                        Some(tr) => final(db).state() == credited.with_users(
                            set_rank_seq(credited.users, user_id, tr.new_rank),
                        ),
                        None => final(db).state() == credited,
                    })
                } else {
                    t is None && final(db).state() == credited
                })
            }),
            Err(e) => {
                &&& e == Error::StorageFailure
                &&& !(i64::MIN <= old(db).state().points_or_zero(user_id) + points <= i64::MAX)
                &&& final(db).state() == old(db).state()
            },
        },
{
    let update = match db.give_user_points(user_id, points) {
        Ok(u) => u,
        Err(_) => {
            return Err(Error::StorageFailure);
        },
    };
    let top = max_user_points(db);
    if top >= 0 {
        Ok(check_rank_up(db, config, update))
    } else {
        Ok(None)
    }
}

/// The decimal digit characters.
pub open spec fn digit_char(d: int) -> char {
    if d == 0 {
        '0'
    } else if d == 1 {
        '1'
    } else if d == 2 {
        '2'
    } else if d == 3 {
        '3'
    } else if d == 4 {
        '4'
    } else if d == 5 {
        '5'
    } else if d == 6 {
        '6'
    } else if d == 7 {
        '7'
    } else if d == 8 {
        '8'
    } else {
        '9'
    }
}

/// The decimal digits of a non-negative number, most significant first.
pub open spec fn dec_str(n: nat) -> Seq<char>
    decreases n,
{
    if n < 10 {
        seq![digit_char(n as int)]
    } else {
        dec_str(n / 10).push(digit_char((n % 10) as int))
    }
}

/// How a stored point balance is displayed: the ledger stores tenths, so
/// the value is shown divided by ten with one decimal digit, truncating
/// toward zero.
pub open spec fn points_display(points: int) -> Seq<char> {
    let mag = if points < 0 {
        -points
    } else {
        points
    };
    let sign: Seq<char> = if points < 0 && mag / 10 > 0 {
        seq!['-']
    } else {
        Seq::empty()
    };
    sign + dec_str((mag / 10) as nat) + seq!['.'] + seq![digit_char(mag % 10)]
}

/// One decimal digit as text.
fn digit_str(d: u64) -> (r: &'static str)
    requires
        d < 10,
    ensures
        r@ == seq![digit_char(d as int)],
{
    proof {
        reveal_strlit("0");
        reveal_strlit("1");
        reveal_strlit("2");
        reveal_strlit("3");
        reveal_strlit("4");
        reveal_strlit("5");
        reveal_strlit("6");
        reveal_strlit("7");
        reveal_strlit("8");
        reveal_strlit("9");
    }
    let r = match d {
        0 => "0",
        1 => "1",
        2 => "2",
        3 => "3",
        4 => "4",
        5 => "5",
        6 => "6",
        7 => "7",
        8 => "8",
        _ => "9",
    };
    proof {
        assert(r@ =~= seq![digit_char(d as int)]);
    }
    r
}

/// A non-negative number in decimal.
fn u64_to_dec_string(n: u64) -> (r: String)
    ensures
        r@ == dec_str(n as nat),
    decreases n,
{
    if n < 10 {
        let mut s = String::new();
        s.append(digit_str(n));
        proof {
            assert(s@ =~= dec_str(n as nat));
        }
        s
    } else {
        let mut s = u64_to_dec_string(n / 10);
        s.append(digit_str(n % 10));
        proof {
            assert(s@ =~= dec_str(n as nat));
        }
        s
    }
}

/// Renders a stored point balance for display: tenths of a point, one
/// decimal digit, truncating toward zero.
pub fn points_to_string(points: i64) -> (r: String)
    ensures
        r@ == points_display(points as int),
{
    let neg = points < 0;
    let mag: u64 = if neg {
        (-(points as i128)) as u64
    } else {
        points as u64
    };
    let whole: u64 = mag / 10;
    let frac: u64 = mag % 10;
    let mut s = String::new();
    if neg && whole > 0 {
        proof {
            reveal_strlit("-");
        }
        s.append("-");
    }
    let whole_str = u64_to_dec_string(whole);
    s.append(whole_str.as_str());
    proof {
        reveal_strlit(".");
    }
    s.append(".");
    s.append(digit_str(frac));
    proof {
        assert(s@ =~= points_display(points as int));
    }
    s
}

} // verus!
