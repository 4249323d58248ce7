//! The solve approval workflow: submission, the moderation decision state
//! machine, and the point distribution and rank re-evaluation an approval
//! triggers.
//!
//! A solve's status leaves `Pending` exactly once. A decision on an
//! already-terminal solve reports the existing status and changes nothing,
//! so duplicate or redelivered decision triggers are harmless. The status
//! change and the point credits form one atomic step: when crediting fails,
//! the solve stays `Pending` and the store is untouched.

use vstd::prelude::*;

use crate::config::Config;
use crate::error::Error;
use crate::find::{find_first, lemma_find_first, lemma_find_first_same};
use crate::points::{transition_of, RankManager, RankTransition};
use crate::rank::ladder_spec;
use crate::solve::{ApprovalStatus, Solve};
use crate::store::{
    credit_all, max_points, set_rank_seq, solve_matcher, sum_deltas, PointsUpdate, Store,
    StoreState,
};
use crate::user::User;

verus! {

/// A moderator's choice on a pending solve.
#[derive(Clone, Copy, Debug, PartialEq, Eq, Structural)]
pub enum DecisionOutcome {
    Approve,
    Decline,
}

/// What a decision call reports back.
pub enum DecideOutcome {
    /// The solve had already left `Pending`: nothing was changed and the
    /// existing terminal status is reported.
    AlreadyDecided(ApprovalStatus),
    /// The solve was decided now: its new status, the balance snapshots of
    /// the credited participants (empty on a decline), and the rank
    /// transitions for the caller to act on.
    Decided {
        status: ApprovalStatus,
        updates: Vec<PointsUpdate>,
        transitions: Vec<RankTransition>,
    },
}

/// The user table and transition list after re-evaluating each credited
/// participant against one ladder, in order: every strict rank increase is
/// cached and reported.
pub open spec fn apply_transitions(
    users: Seq<User>,
    cutoffs: Seq<i64>,
    updates: Seq<PointsUpdate>,
) -> (Seq<User>, Seq<RankTransition>)
    decreases updates.len(),
{
    if updates.len() == 0 {
        (users, Seq::empty())
    } else {
        let prev = apply_transitions(users, cutoffs, updates.drop_last());
        match transition_of(cutoffs, updates.last()) {
            Some(t) => (
                set_rank_seq(prev.0, updates.last().user_id, t.new_rank),
                prev.1.push(t),
            ),
            None => prev,
        }
    }
}

/// What `decide_solve` does, as a relation between the store state before
/// and after the call, the decision, and what it returns.
pub open spec fn decide_post(
    pre: StoreState,
    post: StoreState,
    award: i64,
    rank_count: nat,
    approval_message_id: u64,
    outcome: DecisionOutcome,
    r: Result<DecideOutcome, Error>,
) -> bool {
    let k = find_first(pre.solves, solve_matcher(approval_message_id));
    match r {
        Err(e) => (e == Error::NotFound && k == -1 && post == pre) || (e == Error::StorageFailure
            && k >= 0 && pre.solves[k].approval_status is Pending && outcome is Approve && !(
        forall|j: int|
            0 <= j < pre.participants_of(pre.solves[k].id).len() ==> i64::MIN
                <= pre.points_or_zero(#[trigger] pre.participants_of(pre.solves[k].id)[j])
                + award <= i64::MAX) && post == pre),
        Ok(out) => match out {
            DecideOutcome::AlreadyDecided(st) => {
                &&& k >= 0
                &&& st == pre.solves[k].approval_status
                &&& !(st is Pending)
                &&& post == pre
            },
            DecideOutcome::Decided { status, updates, transitions } => {
                &&& k >= 0
                &&& pre.solves[k].approval_status is Pending
                &&& (match outcome {
                    DecisionOutcome::Decline => {
                        &&& status == ApprovalStatus::Declined
                        &&& updates@.len() == 0
                        &&& transitions@.len() == 0
                        &&& post == pre.with_solves(
                            pre.solves.update(
                                k,
                                (Solve { approval_status: ApprovalStatus::Declined, ..pre.solves[k] }),
                            ),
                        )
                    },
                    DecisionOutcome::Approve => {
                        let parts = pre.participants_of(pre.solves[k].id);
                        let s1 = pre.with_solves(
                            pre.solves.update(
                                k,
                                (Solve { approval_status: ApprovalStatus::Approved, ..pre.solves[k] }),
                            ),
                        );
                        let s2 = s1.with_users(credit_all(s1.users, parts, award as int));
                        &&& status == ApprovalStatus::Approved
                        &&& (forall|j: int|
                            0 <= j < parts.len() ==> i64::MIN <= pre.points_or_zero(
                                #[trigger] parts[j],
                            ) + award <= i64::MAX)
                        &&& updates@.len() == parts.len()
                        &&& (forall|j: int|
                            0 <= j < parts.len() ==> #[trigger] updates@[j] == (PointsUpdate {
                                user_id: parts[j],
                                old_points: pre.points_or_zero(parts[j]) as i64,
                                new_points: (pre.points_or_zero(parts[j]) + award) as i64,
                                old_rank: pre.rank_or_unranked(parts[j]),
                            }))
                        &&& sum_deltas(updates@) == award * parts.len()
                        &&& (if max_points(s2.users) >= 0 {
                            let cutoffs = ladder_spec(max_points(s2.users) as i64, rank_count);
                            let applied = apply_transitions(s2.users, cutoffs, updates@);
                            post == s2.with_users(applied.0) && transitions@ == applied.1
                        } else {
                            transitions@.len() == 0 && post == s2
                        })
                    },
                })
            },
        },
    }
}

/// Records a solve submission: the solve is persisted as `Pending`
/// together with one participation row per distinct participant, missing
/// users are lazily created, and the assigned solve identity is returned
/// for the user-facing acknowledgment. No point effects.
pub fn submit_solve(
    db: &mut Store,
    challenge_id: i64,
    approval_message_id: u64,
    flag: String,
    participants: &Vec<u64>,
) -> (r: Result<i64, Error>)
    requires
        old(db).wf(),
        participants@.len() >= 1,
    ensures
        final(db).wf(),
        match r {
            Ok(id) => {
                &&& id == old(db).state().next_solve_id
                &&& final(db).state() == (StoreState {
                    solves: old(db).state().solves.push(
                        (Solve {
                            id,
                            challenge_id,
                            approval_message_id,
                            flag,
                            approval_status: ApprovalStatus::Pending,
                        }),
                    ),
                    user_solves: old(db).state().user_solves + crate::store::dedup_ids(
                        participants@,
                    ).map_values(|u: u64| crate::store::UserSolve { user_id: u, solve_id: id }),
                    users: credit_all(
                        old(db).state().users,
                        crate::store::dedup_ids(participants@),
                        0,
                    ),
                    next_solve_id: old(db).state().next_solve_id + 1,
                    ..old(db).state()
                })
                &&& final(db).state().participants_of(id) == crate::store::dedup_ids(
                    participants@,
                )
            },
            Err(e) => {
                &&& e == Error::StorageFailure
                &&& old(db).state().next_solve_id == i64::MAX
                &&& final(db).state() == old(db).state()
            },
        },
{
    let solve = Solve {
        id: 0,
        challenge_id,
        approval_message_id,
        flag,
        approval_status: ApprovalStatus::Pending,
    };
    db.create_solve(solve, participants)
}

/// Applies a moderation decision to the solve behind a decision-request
/// message. Safe to invoke any number of times for the same trigger: only
/// the first successful call on a pending solve has effects; later calls
/// report the terminal status and change nothing.
pub fn decide_solve(
    db: &mut Store,
    config: &Config,
    approval_message_id: u64,
    outcome: DecisionOutcome,
) -> (r: Result<DecideOutcome, Error>)
    requires
        old(db).wf(),
    ensures
        final(db).wf(),
        decide_post(
            old(db).state(),
            final(db).state(),
            config.ranks.points_per_solve,
            config.ranks.rank_names@.len() as nat,
            approval_message_id,
            outcome,
            r,
        ),
{
    let ghost pre = db.state();
    let ghost k = find_first(pre.solves, solve_matcher(approval_message_id));
    let solve = match db.get_solve_by_approval_message_id(approval_message_id) {
        Ok(s) => s,
        Err(_) => {
            return Err(Error::NotFound);
        },
    };
    proof {
        lemma_find_first(pre.solves, solve_matcher(approval_message_id));
        assert(0 <= k < pre.solves.len() && solve == pre.solves[k]);
        pre.lemma_solve_at(k);
    }
    if solve.approval_status != ApprovalStatus::Pending {
        return Ok(DecideOutcome::AlreadyDecided(solve.approval_status));
    }
    match outcome {
        DecisionOutcome::Decline => {
            let updated = Solve {
                id: solve.id,
                challenge_id: solve.challenge_id,
                approval_message_id: solve.approval_message_id,
                flag: solve.flag,
                approval_status: ApprovalStatus::Declined,
            };
            let _ = db.update_solve(updated);
            proof {
                assert(db.state() =~= pre.with_solves(
                    pre.solves.update(
                        k,
                        (Solve { approval_status: ApprovalStatus::Declined, ..pre.solves[k] }),
                    ),
                ));
            }
            Ok(
                DecideOutcome::Decided {
                    status: ApprovalStatus::Declined,
                    updates: Vec::new(),
                    transitions: Vec::new(),
                },
            )
        },
        DecisionOutcome::Approve => {
            let award = config.ranks.points_per_solve;
            let updates = match db.give_points_for_solve(solve.id, award) {
                Ok(u) => u,
                Err(_) => {
                    return Err(Error::StorageFailure);
                },
            };
            let ghost parts = pre.participants_of(pre.solves[k].id);
            let updated = Solve {
                id: solve.id,
                challenge_id: solve.challenge_id,
                approval_message_id: solve.approval_message_id,
                flag: solve.flag,
                approval_status: ApprovalStatus::Approved,
            };
            proof {
                db.state().lemma_solve_at(k);
            }
            let _ = db.update_solve(updated);
            let ghost s1 = pre.with_solves(
                pre.solves.update(
                    k,
                    (Solve { approval_status: ApprovalStatus::Approved, ..pre.solves[k] }),
                ),
            );
            let ghost s2 = s1.with_users(credit_all(s1.users, parts, award as int));
            proof {
                assert(db.state() =~= s2);
                // the solve has a participant, so a user row exists
                assert(pre.participants_of(pre.solves[k].id).len() >= 1);
                crate::store::lemma_credit_all_basic(pre.users, parts, award as int);
                assert(s2.has_user(parts[0]));
                assert(db.users@.len() > 0);
            }
            let mut transitions: Vec<RankTransition> = Vec::new();
            let top = crate::points::max_user_points(db);
            if top >= 0 {
                let ghost cutoffs = ladder_spec(
                    max_points(s2.users) as i64,
                    config.ranks.rank_names@.len() as nat,
                );
                let manager = RankManager::new(db, config);
                let n = updates.len();
                let mut j: usize = 0;
                while j < n
                    invariant
                        s2.wf(),
                        n == updates@.len(),
                        j <= n,
                        manager.point_cutoffs@ == cutoffs,
                        db.wf(),
                        db.state() == s2.with_users(
                            apply_transitions(s2.users, cutoffs, updates@.take(j as int)).0,
                        ),
                        transitions@ == apply_transitions(
                            s2.users,
                            cutoffs,
                            updates@.take(j as int),
                        ).1,
                    decreases n - j,
                {
                    let ghost mid_users = apply_transitions(
                        s2.users,
                        cutoffs,
                        updates@.take(j as int),
                    ).0;
                    let update = updates[j];
                    match manager.evaluate_transition(&update) {
                        Some(t) => {
                            let ghost had = crate::store::seq_has_user(
                                mid_users,
                                update.user_id,
                            );
                            let _ = db.set_rank(update.user_id, t.new_rank);
                            transitions.push(t);
                            proof {
                                if !had {
                                    assert(set_rank_seq(mid_users, update.user_id, t.new_rank)
                                        =~= mid_users);
                                }
                                assert(db.state() =~= s2.with_users(
                                    set_rank_seq(mid_users, update.user_id, t.new_rank),
                                ));
                            }
                        },
                        None => {},
                    }
                    j = j + 1;
                    proof {
                        assert(updates@.take(j as int).drop_last() =~= updates@.take(j as int - 1));
                        assert(updates@.take(j as int).last() == updates@[j as int - 1]);
                        assert(db.state() =~= s2.with_users(
                            apply_transitions(s2.users, cutoffs, updates@.take(j as int)).0,
                        ));
                    }
                }
                proof {
                    assert(updates@.take(n as int) =~= updates@);
                }
            }
            Ok(
                DecideOutcome::Decided {
                    status: ApprovalStatus::Approved,
                    updates,
                    transitions,
                },
            )
        },
    }
}

/// Deciding a solve is idempotent: once a decision call has moved a solve
/// to its terminal status, any later decision call on the same
/// decision-request message, with the same or a different outcome, leaves
/// the store untouched (in particular the point ledger, which therefore
/// changes exactly once in total) and merely reports that terminal status.
pub proof fn lemma_decide_idempotent(
    s0: StoreState,
    s1: StoreState,
    s2: StoreState,
    award: i64,
    rank_count: nat,
    approval_message_id: u64,
    o1: DecisionOutcome,
    o2: DecisionOutcome,
    r2: Result<DecideOutcome, Error>,
    status: ApprovalStatus,
    updates: Vec<PointsUpdate>,
    transitions: Vec<RankTransition>,
)
    requires
        decide_post(
            s0,
            s1,
            award,
            rank_count,
            approval_message_id,
            o1,
            Ok(DecideOutcome::Decided { status, updates, transitions }),
        ),
        decide_post(s1, s2, award, rank_count, approval_message_id, o2, r2),
    ensures
        s2 == s1,
        s2.users == s1.users,
        r2 == Ok::<DecideOutcome, Error>(DecideOutcome::AlreadyDecided(status)),
{
    let p = solve_matcher(approval_message_id);
    let k0 = find_first(s0.solves, p);
    lemma_find_first(s0.solves, p);

    // The first call rewrote exactly the decided solve's status, so the
    // solve table still matches the trigger at the same first position.
    assert(s1.solves == s0.solves.update(
        k0,
        (Solve {
            approval_status: if o1 is Decline {
                ApprovalStatus::Declined
            } else {
                ApprovalStatus::Approved
            },
            ..s0.solves[k0]
        }),
    ));
    assert forall|i: int| 0 <= i < s0.solves.len() implies p(#[trigger] s0.solves[i]) == p(
        #[trigger] s1.solves[i],
    ) by {}
    lemma_find_first_same(s0.solves, s1.solves, p);
    let k1 = find_first(s1.solves, p);
    assert(k1 == k0);
    assert(s1.solves[k1].approval_status == status);
    assert(!(status is Pending));

    match r2 {
        Err(e) => {
            assert(false);
        },
        Ok(out) => match out {
            DecideOutcome::AlreadyDecided(st) => {
                assert(st == status);
                assert(s2 == s1);
            },
            DecideOutcome::Decided { .. } => {
                assert(false);
            },
        },
    }
}

} // verus!
