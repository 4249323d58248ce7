//! The transactional store of competitions, challenges, solves, solver
//! participations and users.
//!
//! Every mutating operation is atomic: it either reports success and leaves
//! the store in the described state, or reports an error and leaves the
//! store exactly as it was. Partial effects are never observable.

use vstd::prelude::*;

use crate::challenge::Challenge;
use crate::competition::Competition;
use crate::error::Error;
use crate::find::{find_first, lemma_find_first, lemma_find_first_at};
use crate::rank::Rank;
use crate::solve::{ApprovalStatus, Solve};
use crate::user::User;

verus! {

/// One row of the solver-participation relation: `user_id` took part in
/// solve `solve_id`.
#[derive(Clone, Copy, Debug, PartialEq, Eq, Structural)]
pub struct UserSolve {
    pub user_id: u64,
    pub solve_id: i64,
}

/// The mathematical state of a store, used by every contract.
#[verifier::ext_equal]
pub ghost struct StoreState {
    pub competitions: Seq<Competition>,
    pub challenges: Seq<Challenge>,
    pub solves: Seq<Solve>,
    pub user_solves: Seq<UserSolve>,
    pub users: Seq<User>,
    pub next_challenge_id: int,
    pub next_solve_id: int,
}

/// Whether some user row carries identity `id`.
pub open spec fn seq_has_user(users: Seq<User>, id: u64) -> bool {
    exists|i: int| 0 <= i < users.len() && (#[trigger] users[i]).id == id
}

/// The index of the user row with identity `id`; meaningful when
/// `seq_has_user` holds (unique when identities are unique).
pub open spec fn seq_user_idx(users: Seq<User>, id: u64) -> int {
    choose|i: int| 0 <= i < users.len() && (#[trigger] users[i]).id == id
}

/// The balance of the user with identity `id`, or zero when absent.
pub open spec fn seq_points_or_zero(users: Seq<User>, id: u64) -> int {
    if seq_has_user(users, id) {
        users[seq_user_idx(users, id)].points as int
    } else {
        0
    }
}

/// The cached rank of the user with identity `id`, or unranked when absent.
pub open spec fn seq_rank_or_unranked(users: Seq<User>, id: u64) -> Rank {
    if seq_has_user(users, id) {
        users[seq_user_idx(users, id)].rank
    } else {
        Rank::Unranked
    }
}

/// The highest point balance among the rows (zero when there are none).
pub open spec fn max_points(users: Seq<User>) -> int
    decreases users.len(),
{
    if users.len() == 0 {
        0
    } else if users.len() == 1 {
        users[0].points as int
    } else {
        let m = max_points(users.drop_last());
        if users.last().points as int > m {
            users.last().points as int
        } else {
            m
        }
    }
}

/// Whether `s` is an approved solve that `user_id` took part in, whose
/// challenge is on record.
pub open spec fn solved_by(state: StoreState, s: Solve, user_id: u64) -> bool {
    &&& s.approval_status == ApprovalStatus::Approved
    &&& state.user_solves.contains(UserSolve { user_id, solve_id: s.id })
    &&& state.has_challenge(s.challenge_id)
}

/// Leaderboard order: higher balance first, ties by ascending identity
/// (total, so the leaderboard is deterministic).
pub open spec fn user_before(a: User, b: User) -> bool {
    a.points > b.points || (a.points == b.points && a.id <= b.id)
}

/// The rows stand in leaderboard order.
pub open spec fn users_sorted(s: Seq<User>) -> bool {
    forall|i: int, j: int|
        #![trigger s[i], s[j]]
        0 <= i < j < s.len() ==> user_before(s[i], s[j])
}

/// The matching predicate of a decision trigger: the solve moderated
/// through this decision-request message.
pub open spec fn solve_matcher(approval_message_id: u64) -> spec_fn(Solve) -> bool {
    |s: Solve| s.approval_message_id == approval_message_id
}

/// The user table with the cached rank of `id` replaced (unchanged when the
/// user is absent).
pub open spec fn set_rank_seq(users: Seq<User>, id: u64, rank: Rank) -> Seq<User> {
    if seq_has_user(users, id) {
        let i = seq_user_idx(users, id);
        users.update(i, (User { rank, ..users[i] }))
    } else {
        users
    }
}

/// User identities are pairwise distinct.
pub open spec fn seq_users_unique(users: Seq<User>) -> bool {
    forall|i: int, j: int|
        #![trigger users[i], users[j]]
        0 <= i < j < users.len() ==> users[i].id != users[j].id
}

/// One credit applied to the user table: the balance of `id` grows by
/// `amount`, with the row created at a zero balance first when absent.
pub open spec fn credit_one(users: Seq<User>, id: u64, amount: int) -> Seq<User> {
    if seq_has_user(users, id) {
        let i = seq_user_idx(users, id);
        users.update(i, (User { points: (users[i].points + amount) as i64, ..users[i] }))
    } else {
        users.push(
            (User { id, email: None, points: amount as i64, rank: Rank::Unranked }),
        )
    }
}

/// The credits of `credit_users`, applied in order.
pub open spec fn credit_all(users: Seq<User>, ids: Seq<u64>, amount: int) -> Seq<User>
    decreases ids.len(),
{
    if ids.len() == 0 {
        users
    } else {
        credit_one(credit_all(users, ids.drop_last(), amount), ids.last(), amount)
    }
}

/// The ids in `ids`, keeping the first occurrence of each.
pub open spec fn dedup_ids(ids: Seq<u64>) -> Seq<u64>
    decreases ids.len(),
{
    if ids.len() == 0 {
        ids
    } else {
        let d = dedup_ids(ids.drop_last());
        if d.contains(ids.last()) {
            d
        } else {
            d.push(ids.last())
        }
    }
}

/// With unique identities, the row at index `i` is the one its identity
/// finds.
pub proof fn lemma_seq_user_at(users: Seq<User>, i: int)
    requires
        seq_users_unique(users),
        0 <= i < users.len(),
    ensures
        seq_has_user(users, users[i].id),
        seq_user_idx(users, users[i].id) == i,
{
    let id = users[i].id;
    assert(seq_has_user(users, id));
    let k = seq_user_idx(users, id);
    if k < i {
        assert(users[k].id != users[i].id);
    } else if i < k {
        assert(users[i].id != users[k].id);
    }
}

/// What one credit does to the user table: the credited balance grows by
/// `amount` and every other row keeps its balance, rank and presence.
pub proof fn lemma_credit_one(users: Seq<User>, id: u64, amount: int)
    requires
        seq_users_unique(users),
    ensures
        seq_users_unique(credit_one(users, id, amount)),
        seq_has_user(credit_one(users, id, amount), id),
        forall|x: u64| #[trigger]
            seq_has_user(credit_one(users, id, amount), x) <==> seq_has_user(users, x) || x == id,
        i64::MIN <= seq_points_or_zero(users, id) + amount <= i64::MAX ==> seq_points_or_zero(
            credit_one(users, id, amount),
            id,
        ) == seq_points_or_zero(users, id) + amount,
        forall|x: u64|
            x != id ==> #[trigger] seq_points_or_zero(credit_one(users, id, amount), x)
                == seq_points_or_zero(users, x),
        forall|x: u64|
            x != id ==> #[trigger] seq_rank_or_unranked(credit_one(users, id, amount), x)
                == seq_rank_or_unranked(users, x),
        seq_rank_or_unranked(credit_one(users, id, amount), id) == seq_rank_or_unranked(users, id),
{
    let post = credit_one(users, id, amount);
    if seq_has_user(users, id) {
        let i = seq_user_idx(users, id);
        assert(0 <= i < users.len() && users[i].id == id);
        assert forall|a: int, b: int|
            #![trigger post[a], post[b]]
            0 <= a < b < post.len() implies post[a].id != post[b].id by {
            assert(users[a].id != users[b].id);
        }
        lemma_seq_user_at(post, i);
        assert forall|x: u64| #[trigger]
            seq_has_user(post, x) <==> seq_has_user(users, x) || x == id by {
            if seq_has_user(post, x) {
                let k = choose|k: int| 0 <= k < post.len() && (#[trigger] post[k]).id == x;
                assert(users[k].id == x);
            }
            if seq_has_user(users, x) {
                let k = choose|k: int| 0 <= k < users.len() && (#[trigger] users[k]).id == x;
                assert(post[k].id == x);
            }
        }
        assert forall|x: u64| x != id implies #[trigger] seq_points_or_zero(post, x)
            == seq_points_or_zero(users, x) by {
            lemma_credit_one_other(users, post, x);
        }
        assert forall|x: u64| x != id implies #[trigger] seq_rank_or_unranked(post, x)
            == seq_rank_or_unranked(users, x) by {
            lemma_credit_one_other(users, post, x);
        }
        lemma_seq_user_at(users, i);
    } else {
        assert(post == users.push(
            (User { id, email: None, points: amount as i64, rank: Rank::Unranked }),
        ));
        assert forall|a: int, b: int|
            #![trigger post[a], post[b]]
            0 <= a < b < post.len() implies post[a].id != post[b].id by {
            if b < users.len() {
                assert(users[a].id != users[b].id);
            } else if post[a].id == id {
                assert(seq_has_user(users, id));
            }
        }
        lemma_seq_user_at(post, users.len() as int);
        assert forall|x: u64| #[trigger]
            seq_has_user(post, x) <==> seq_has_user(users, x) || x == id by {
            if seq_has_user(post, x) {
                let k = choose|k: int| 0 <= k < post.len() && (#[trigger] post[k]).id == x;
                if k < users.len() {
                    assert(users[k].id == x);
                }
            }
            if seq_has_user(users, x) {
                let k = choose|k: int| 0 <= k < users.len() && (#[trigger] users[k]).id == x;
                assert(post[k].id == x);
            }
        }
        assert(seq_points_or_zero(users, id) == 0);
        assert forall|x: u64| x != id implies #[trigger] seq_points_or_zero(post, x)
            == seq_points_or_zero(users, x) by {
            lemma_credit_one_other(users, post, x);
        }
        assert forall|x: u64| x != id implies #[trigger] seq_rank_or_unranked(post, x)
            == seq_rank_or_unranked(users, x) by {
            lemma_credit_one_other(users, post, x);
        }
    }
}

/// Rows other than the changed one keep their balance and rank: `post` is
/// `users` with at most one row rewritten in place (same identity) or one
/// fresh row appended, and `x` is not that row's identity.
proof fn lemma_credit_one_other(users: Seq<User>, post: Seq<User>, x: u64)
    requires
        seq_users_unique(users),
        seq_users_unique(post),
        post.len() >= users.len(),
        forall|k: int| 0 <= k < users.len() ==> (#[trigger] post[k]).id == users[k].id,
        forall|k: int|
            0 <= k < users.len() ==> (#[trigger] post[k]).id == x ==> post[k] == users[k],
        forall|k: int| users.len() <= k < post.len() ==> (#[trigger] post[k]).id != x,
    ensures
        seq_points_or_zero(post, x) == seq_points_or_zero(users, x),
        seq_rank_or_unranked(post, x) == seq_rank_or_unranked(users, x),
{
    if seq_has_user(users, x) {
        let k = seq_user_idx(users, x);
        assert(0 <= k < users.len() && users[k].id == x);
        assert(post[k] == users[k]);
        lemma_seq_user_at(post, k);
        lemma_seq_user_at(users, k);
    } else {
        assert forall|k: int| 0 <= k < post.len() implies (#[trigger] post[k]).id != x by {
            if k < users.len() && users[k].id == x {
                assert(seq_has_user(users, x));
            }
        }
        assert(!seq_has_user(post, x));
    }
}

/// What deduplication keeps: the same ids, each exactly once, the first
/// occurrence deciding the order, and at least one id when the input has
/// one.
pub proof fn lemma_dedup_ids(ids: Seq<u64>)
    ensures
        forall|x: u64| dedup_ids(ids).contains(x) <==> ids.contains(x),
        forall|a: int, b: int|
            #![trigger dedup_ids(ids)[a], dedup_ids(ids)[b]]
            0 <= a < b < dedup_ids(ids).len() ==> dedup_ids(ids)[a] != dedup_ids(ids)[b],
        ids.len() > 0 ==> dedup_ids(ids).len() >= 1,
        dedup_ids(ids).len() <= ids.len(),
    decreases ids.len(),
{
    if ids.len() > 0 {
        lemma_dedup_ids(ids.drop_last());
        let d0 = dedup_ids(ids.drop_last());
        let d = dedup_ids(ids);
        assert forall|x: u64| d.contains(x) <==> ids.contains(x) by {
            if d.contains(x) {
                if d0.contains(x) {
                    assert(ids.drop_last().contains(x));
                    let k = choose|k: int|
                        0 <= k < ids.drop_last().len() && ids.drop_last()[k] == x;
                    assert(ids[k] == x);
                } else {
                    assert(x == ids.last());
                    assert(ids[ids.len() - 1] == x);
                }
            }
            if ids.contains(x) {
                let k = choose|k: int| 0 <= k < ids.len() && ids[k] == x;
                if k < ids.len() - 1 {
                    assert(ids.drop_last()[k] == x);
                    assert(ids.drop_last().contains(x));
                    assert(d0.contains(x));
                    if d0 == d {
                    } else {
                        let j = choose|j: int| 0 <= j < d0.len() && d0[j] == x;
                        assert(d[j] == x);
                    }
                } else {
                    assert(x == ids.last());
                    if d0.contains(ids.last()) {
                        let j = choose|j: int| 0 <= j < d0.len() && d0[j] == x;
                        assert(d[j] == x);
                    } else {
                        assert(d[d.len() - 1] == x);
                    }
                }
            }
        }
        assert forall|a: int, b: int|
            #![trigger d[a], d[b]]
            0 <= a < b < d.len() implies d[a] != d[b] by {
            if !d0.contains(ids.last()) && b == d.len() - 1 {
                assert(d[a] == d0[a]);
                if d0[a] == ids.last() {
                    assert(d0.contains(ids.last()));
                }
            } else {
                assert(d0[a] != d0[b]);
            }
        }
    }
}

/// What a batch credit does to users outside the batch: nothing.
pub proof fn lemma_credit_all_basic(users: Seq<User>, ids: Seq<u64>, amount: int)
    requires
        seq_users_unique(users),
    ensures
        seq_users_unique(credit_all(users, ids, amount)),
        forall|x: u64| #[trigger]
            seq_has_user(credit_all(users, ids, amount), x) <==> seq_has_user(users, x)
                || ids.contains(x),
        forall|x: u64|
            !ids.contains(x) ==> #[trigger] seq_points_or_zero(credit_all(users, ids, amount), x)
                == seq_points_or_zero(users, x),
        forall|x: u64|
            !ids.contains(x) ==> #[trigger] seq_rank_or_unranked(credit_all(users, ids, amount), x)
                == seq_rank_or_unranked(users, x),
    decreases ids.len(),
{
    if ids.len() > 0 {
        lemma_credit_all_basic(users, ids.drop_last(), amount);
        let mid = credit_all(users, ids.drop_last(), amount);
        lemma_credit_one(mid, ids.last(), amount);
        assert forall|x: u64| #[trigger]
            seq_has_user(credit_all(users, ids, amount), x) <==> seq_has_user(users, x)
                || ids.contains(x) by {
            if ids.contains(x) {
                let k = choose|k: int| 0 <= k < ids.len() && ids[k] == x;
                if k < ids.len() - 1 {
                    assert(ids.drop_last()[k] == x);
                    assert(ids.drop_last().contains(x));
                }
            }
            if seq_has_user(mid, x) && !seq_has_user(users, x) {
                assert(ids.drop_last().contains(x));
                let k = choose|k: int| 0 <= k < ids.drop_last().len() && ids.drop_last()[k] == x;
                assert(ids[k] == x);
            }
        }
        assert forall|x: u64| !ids.contains(x) implies #[trigger] seq_points_or_zero(
            credit_all(users, ids, amount),
            x,
        ) == seq_points_or_zero(users, x) && #[trigger] seq_rank_or_unranked(
            credit_all(users, ids, amount),
            x,
        ) == seq_rank_or_unranked(users, x) by {
            assert forall|k: int| 0 <= k < ids.drop_last().len() implies ids.drop_last()[k]
                != x by {
                assert(ids[k] == ids.drop_last()[k]);
            }
            assert(!ids.drop_last().contains(x));
            assert(x != ids.last());
        }
    }
}

impl StoreState {
    pub open spec fn has_user(self, id: u64) -> bool {
        seq_has_user(self.users, id)
    }

    /// The index of the user with identity `id`; meaningful when
    /// `has_user(id)` holds (under `wf` it is then unique).
    pub open spec fn user_idx(self, id: u64) -> int {
        seq_user_idx(self.users, id)
    }

    /// The user's balance, or zero for a user not yet created.
    pub open spec fn points_or_zero(self, id: u64) -> int {
        seq_points_or_zero(self.users, id)
    }

    /// The user's cached rank, or unranked for a user not yet created.
    pub open spec fn rank_or_unranked(self, id: u64) -> Rank {
        seq_rank_or_unranked(self.users, id)
    }

    pub open spec fn has_competition(self, channel_id: u64) -> bool {
        exists|i: int|
            0 <= i < self.competitions.len()
                && (#[trigger] self.competitions[i]).channel_id == channel_id
    }

    pub open spec fn competition_idx(self, channel_id: u64) -> int {
        choose|i: int|
            0 <= i < self.competitions.len()
                && (#[trigger] self.competitions[i]).channel_id == channel_id
    }

    pub open spec fn has_challenge(self, id: i64) -> bool {
        exists|i: int| 0 <= i < self.challenges.len() && (#[trigger] self.challenges[i]).id == id
    }

    pub open spec fn challenge_idx(self, id: i64) -> int {
        choose|i: int| 0 <= i < self.challenges.len() && (#[trigger] self.challenges[i]).id == id
    }

    pub open spec fn has_solve(self, id: i64) -> bool {
        exists|i: int| 0 <= i < self.solves.len() && (#[trigger] self.solves[i]).id == id
    }

    pub open spec fn solve_idx(self, id: i64) -> int {
        choose|i: int| 0 <= i < self.solves.len() && (#[trigger] self.solves[i]).id == id
    }

    /// The participants of a solve, in insertion order.
    pub open spec fn participants_of(self, solve_id: i64) -> Seq<u64> {
        self.user_solves.filter(|us: UserSolve| us.solve_id == solve_id).map_values(
            |us: UserSolve| us.user_id,
        )
    }

    /// Well-formedness: identities are unique, participations reference
    /// existing rows, and every solve has at least one participant.
    pub open spec fn wf(self) -> bool {
        &&& (forall|i: int, j: int|
            #![trigger self.users[i], self.users[j]]
            0 <= i < j < self.users.len() ==> self.users[i].id != self.users[j].id)
        &&& (forall|i: int, j: int|
            #![trigger self.competitions[i], self.competitions[j]]
            0 <= i < j < self.competitions.len() ==> self.competitions[i].channel_id
                != self.competitions[j].channel_id)
        &&& (forall|i: int, j: int|
            #![trigger self.challenges[i], self.challenges[j]]
            0 <= i < j < self.challenges.len() ==> self.challenges[i].id != self.challenges[j].id)
        &&& (forall|i: int, j: int|
            #![trigger self.solves[i], self.solves[j]]
            0 <= i < j < self.solves.len() ==> self.solves[i].id != self.solves[j].id)
        &&& (forall|i: int, j: int|
            #![trigger self.user_solves[i], self.user_solves[j]]
            0 <= i < j < self.user_solves.len() ==> self.user_solves[i] != self.user_solves[j])
        &&& (forall|i: int|
            0 <= i < self.user_solves.len() ==> self.has_user(
                (#[trigger] self.user_solves[i]).user_id,
            ) && self.has_solve(self.user_solves[i].solve_id))
        &&& (forall|i: int|
            0 <= i < self.challenges.len() ==> 1 <= (#[trigger] self.challenges[i]).id
                < self.next_challenge_id)
        &&& (forall|i: int|
            0 <= i < self.solves.len() ==> 1 <= (#[trigger] self.solves[i]).id
                < self.next_solve_id)
        &&& 1 <= self.next_challenge_id <= i64::MAX
        &&& 1 <= self.next_solve_id <= i64::MAX
        &&& (forall|i: int|
            0 <= i < self.solves.len() ==> self.participants_of(
                (#[trigger] self.solves[i]).id,
            ).len() >= 1)
    }

    /// Under `wf`, the competition at index `i` is the one its channel
    /// identity finds.
    pub proof fn lemma_competition_at(self, i: int)
        requires
            self.wf(),
            0 <= i < self.competitions.len(),
        ensures
            self.has_competition(self.competitions[i].channel_id),
            self.competition_idx(self.competitions[i].channel_id) == i,
    {
        let id = self.competitions[i].channel_id;
        assert(self.has_competition(id));
        let k = self.competition_idx(id);
        if k < i {
            assert(self.competitions[k].channel_id != self.competitions[i].channel_id);
        } else if i < k {
            assert(self.competitions[i].channel_id != self.competitions[k].channel_id);
        }
    }

    /// Under `wf`, the user at index `i` is the one their identity finds.
    pub proof fn lemma_user_at(self, i: int)
        requires
            self.wf(),
            0 <= i < self.users.len(),
        ensures
            self.has_user(self.users[i].id),
            self.user_idx(self.users[i].id) == i,
    {
        let id = self.users[i].id;
        assert(self.has_user(id));
        let k = self.user_idx(id);
        if k < i {
            assert(self.users[k].id != self.users[i].id);
        } else if i < k {
            assert(self.users[i].id != self.users[k].id);
        }
    }

    /// Under `wf`, the challenge at index `i` is the one its identity
    /// finds.
    pub proof fn lemma_challenge_at(self, i: int)
        requires
            self.wf(),
            0 <= i < self.challenges.len(),
        ensures
            self.has_challenge(self.challenges[i].id),
            self.challenge_idx(self.challenges[i].id) == i,
    {
        let id = self.challenges[i].id;
        assert(self.has_challenge(id));
        let k = self.challenge_idx(id);
        if k < i {
            assert(self.challenges[k].id != self.challenges[i].id);
        } else if i < k {
            assert(self.challenges[i].id != self.challenges[k].id);
        }
    }

    /// Under `wf`, the solve at index `i` is the one its identity finds.
    pub proof fn lemma_solve_at(self, i: int)
        requires
            self.wf(),
            0 <= i < self.solves.len(),
        ensures
            self.has_solve(self.solves[i].id),
            self.solve_idx(self.solves[i].id) == i,
    {
        let id = self.solves[i].id;
        assert(self.has_solve(id));
        let k = self.solve_idx(id);
        if k < i {
            assert(self.solves[k].id != self.solves[i].id);
        } else if i < k {
            assert(self.solves[i].id != self.solves[k].id);
        }
    }

    /// The same state with the user table replaced.
    pub open spec fn with_users(self, users: Seq<User>) -> StoreState {
        StoreState { users, ..self }
    }

    /// `post` differs from `self` at most in the user at index `idx`.
    pub open spec fn same_except_user(self, post: StoreState, idx: int) -> bool {
        &&& post == self.with_users(post.users)
        &&& post.users.len() == self.users.len()
        &&& (forall|k: int|
            0 <= k < self.users.len() && k != idx ==> post.users[k] == #[trigger] self.users[k])
    }

    /// The same state with the solve table replaced.
    pub open spec fn with_solves(self, solves: Seq<Solve>) -> StoreState {
        StoreState { solves, ..self }
    }

    /// Rewriting solve rows in place without changing their identities
    /// keeps the store well formed.
    pub proof fn lemma_wf_after_solves_rewrite(self, post: StoreState)
        requires
            self.wf(),
            post == self.with_solves(post.solves),
            post.solves.len() == self.solves.len(),
            forall|k: int|
                0 <= k < self.solves.len() ==> (#[trigger] post.solves[k]).id == self.solves[k].id,
        ensures
            post.wf(),
    {
        assert forall|i: int, j: int|
            #![trigger post.solves[i], post.solves[j]]
            0 <= i < j < post.solves.len() implies post.solves[i].id != post.solves[j].id by {
            assert(self.solves[i].id != self.solves[j].id);
        }
        assert forall|x: i64| #[trigger] post.has_solve(x) <==> self.has_solve(x) by {
            if post.has_solve(x) {
                let k = choose|k: int|
                    0 <= k < post.solves.len() && (#[trigger] post.solves[k]).id == x;
                assert(self.solves[k].id == x);
            }
            if self.has_solve(x) {
                let k = choose|k: int|
                    0 <= k < self.solves.len() && (#[trigger] self.solves[k]).id == x;
                assert(post.solves[k].id == x);
            }
        }
        assert forall|i: int|
            0 <= i < post.solves.len() implies 1 <= (#[trigger] post.solves[i]).id
            < post.next_solve_id by {
            assert(1 <= self.solves[i].id < self.next_solve_id);
        }
        assert forall|i: int|
            0 <= i < post.solves.len() implies post.participants_of(
            (#[trigger] post.solves[i]).id,
        ).len() >= 1 by {
            assert(self.participants_of(self.solves[i].id).len() >= 1);
        }
    }

    /// Changing user rows without renaming existing users or reusing an
    /// existing identity keeps the store well formed.
    pub proof fn lemma_wf_after_users_change(self, post: StoreState)
        requires
            self.wf(),
            post == self.with_users(post.users),
            post.users.len() >= self.users.len(),
            forall|k: int|
                0 <= k < self.users.len() ==> (#[trigger] post.users[k]).id == self.users[k].id,
            forall|k: int|
                self.users.len() <= k < post.users.len() ==> !self.has_user(
                    (#[trigger] post.users[k]).id,
                ),
            forall|k: int, l: int|
                #![trigger post.users[k], post.users[l]]
                self.users.len() <= k < l < post.users.len() ==> post.users[k].id
                    != post.users[l].id,
        ensures
            post.wf(),
            forall|id: u64| self.has_user(id) ==> #[trigger] post.has_user(id),
    {
        assert forall|i: int, j: int|
            #![trigger post.users[i], post.users[j]]
            0 <= i < j < post.users.len() implies post.users[i].id != post.users[j].id by {
            if j < self.users.len() {
                assert(self.users[i].id != self.users[j].id);
            } else if i < self.users.len() <= j {
                if post.users[i].id == post.users[j].id {
                    assert(self.has_user(self.users[i].id));
                }
            }
        }
        assert forall|id: u64| self.has_user(id) implies #[trigger] post.has_user(id) by {
            let i = choose|i: int| 0 <= i < self.users.len() && (#[trigger] self.users[i]).id == id;
            assert(post.users[i].id == id);
        }
        assert forall|i: int|
            0 <= i < post.user_solves.len() implies post.has_user(
            (#[trigger] post.user_solves[i]).user_id,
        ) && post.has_solve(post.user_solves[i].solve_id) by {
            assert(self.has_user(self.user_solves[i].user_id));
        }
        assert forall|i: int|
            0 <= i < post.solves.len() implies post.participants_of(
            (#[trigger] post.solves[i]).id,
        ).len() >= 1 by {
            assert(self.participants_of(self.solves[i].id).len() >= 1);
        }
    }
}

/// The total balance change across a batch of snapshots.
pub open spec fn sum_deltas(updates: Seq<PointsUpdate>) -> int
    decreases updates.len(),
{
    if updates.len() == 0 {
        0
    } else {
        sum_deltas(updates.drop_last()) + (updates.last().new_points - updates.last().old_points)
    }
}

/// A snapshot of one user's balance change, as returned by a credit.
#[derive(Clone, Copy, Debug, PartialEq, Eq, Structural)]
pub struct PointsUpdate {
    pub user_id: u64,
    /// The balance before the credit (zero for a lazily created user).
    pub old_points: i64,
    /// The balance after the credit.
    pub new_points: i64,
    /// The rank cached on the user before the credit.
    pub old_rank: Rank,
}

/// When every snapshot in a batch changes its balance by the same amount,
/// the batch's total change is that amount times the batch size.
pub proof fn lemma_sum_deltas_const(updates: Seq<PointsUpdate>, amount: int)
    requires
        forall|k: int|
            0 <= k < updates.len() ==> (#[trigger] updates[k]).new_points - updates[k].old_points
                == amount,
    ensures
        sum_deltas(updates) == amount * updates.len(),
    decreases updates.len(),
{
    if updates.len() > 0 {
        assert forall|k: int| 0 <= k < updates.drop_last().len() implies (#[trigger]
        updates.drop_last()[k]).new_points - updates.drop_last()[k].old_points == amount by {
            assert(updates[k] == updates.drop_last()[k]);
        }
        lemma_sum_deltas_const(updates.drop_last(), amount);
        assert(updates.last() == updates[updates.len() - 1]);
        assert(amount * updates.len() == amount * (updates.len() - 1) + amount) by (nonlinear_arith);
    }
}

/// The in-memory store. All access goes through its methods; the
/// well-formedness predicate `wf` is established by `new` and preserved by
/// every operation.
pub struct Store {
    pub competitions: Vec<Competition>,
    pub challenges: Vec<Challenge>,
    pub solves: Vec<Solve>,
    pub user_solves: Vec<UserSolve>,
    pub users: Vec<User>,
    pub next_challenge_id: i64,
    pub next_solve_id: i64,
}

impl Store {
    /// The mathematical state of this store.
    pub open spec fn state(self) -> StoreState {
        StoreState {
            competitions: self.competitions@,
            challenges: self.challenges@,
            solves: self.solves@,
            user_solves: self.user_solves@,
            users: self.users@,
            next_challenge_id: self.next_challenge_id as int,
            next_solve_id: self.next_solve_id as int,
        }
    }

    pub open spec fn wf(self) -> bool {
        self.state().wf()
    }

    /// An empty store.
    pub fn new() -> (r: Store)
        ensures
            r.wf(),
            r.state().competitions.len() == 0,
            r.state().challenges.len() == 0,
            r.state().solves.len() == 0,
            r.state().user_solves.len() == 0,
            r.state().users.len() == 0,
            r.state().next_challenge_id == 1,
            r.state().next_solve_id == 1,
    {
        Store {
            competitions: Vec::new(),
            challenges: Vec::new(),
            solves: Vec::new(),
            user_solves: Vec::new(),
            users: Vec::new(),
            next_challenge_id: 1,
            next_solve_id: 1,
        }
    }

    /// Records a new competition. Rejected before any write when one with
    /// the same channel already exists.
    pub fn create_competition(&mut self, competition: Competition) -> (r: Result<(), Error>)
        requires
            old(self).wf(),
        ensures
            final(self).wf(),
            match r {
                Ok(()) => {
                    &&& !old(self).state().has_competition(competition.channel_id)
                    &&& final(self).state() == (StoreState {
                        competitions: old(self).state().competitions.push(competition),
                        ..old(self).state()
                    })
                },
                Err(e) => {
                    &&& e == Error::ConstraintViolation
                    &&& old(self).state().has_competition(competition.channel_id)
                    &&& final(self).state() == old(self).state()
                },
            },
    {
        let n = self.competitions.len();
        let mut i: usize = 0;
        while i < n
            invariant
                old(self).wf(),
                self == old(self),
                n == self.competitions@.len(),
                i <= n,
                forall|j: int|
                    0 <= j < i ==> (#[trigger] self.competitions@[j]).channel_id
                        != competition.channel_id,
            decreases n - i,
        {
            if self.competitions[i].channel_id == competition.channel_id {
                proof {
                    assert(old(self).state().competitions[i as int].channel_id
                        == competition.channel_id);
                }
                return Err(Error::ConstraintViolation);
            }
            i = i + 1;
        }
        let ghost pre = self.state();
        self.competitions.push(competition);
        proof {
            assert(self.state() =~= (StoreState {
                competitions: pre.competitions.push(competition),
                ..pre
            }));
            assert forall|a: int, b: int|
                #![trigger self.state().competitions[a], self.state().competitions[b]]
                0 <= a < b < self.state().competitions.len() implies self.state().competitions[a].channel_id
                != self.state().competitions[b].channel_id by {
                if b == self.state().competitions.len() - 1 {
                    assert(pre.competitions[a].channel_id != competition.channel_id);
                }
            }
        }
        return Ok(());
    }

    /// Looks up the competition for a channel.
    pub fn get_competition(&self, channel_id: u64) -> (r: Result<Competition, Error>)
        requires
            self.wf(),
        ensures
            match r {
                Ok(c) => {
                    &&& self.state().has_competition(channel_id)
                    &&& c == self.state().competitions[self.state().competition_idx(channel_id)]
                },
                Err(e) => {
                    &&& e == Error::NotFound
                    &&& !self.state().has_competition(channel_id)
                },
            },
    {
        let n = self.competitions.len();
        let mut i: usize = 0;
        while i < n
            invariant
                self.wf(),
                n == self.competitions@.len(),
                i <= n,
                forall|j: int|
                    0 <= j < i ==> (#[trigger] self.competitions@[j]).channel_id != channel_id,
            decreases n - i,
        {
            if self.competitions[i].channel_id == channel_id {
                proof {
                    self.state().lemma_competition_at(i as int);
                }
                return Ok(self.competitions[i].clone());
            }
            i = i + 1;
        }
        Err(Error::NotFound)
    }

    /// Overwrites the name and bingo card of the competition with the same
    /// channel identity; a missing competition leaves the store unchanged.
    pub fn update_competition(&mut self, competition: Competition) -> (r: Result<(), Error>)
        requires
            old(self).wf(),
        ensures
            final(self).wf(),
            r is Ok,
            old(self).state().has_competition(competition.channel_id) ==> final(self).state() == (
            StoreState {
                competitions: old(self).state().competitions.update(
                    old(self).state().competition_idx(competition.channel_id),
                    competition,
                ),
                ..old(self).state()
            }),
            !old(self).state().has_competition(competition.channel_id) ==> final(self).state()
                == old(self).state(),
    {
        let n = self.competitions.len();
        let mut i: usize = 0;
        while i < n
            invariant
                old(self).wf(),
                self == old(self),
                n == self.competitions@.len(),
                i <= n,
                forall|j: int|
                    0 <= j < i ==> (#[trigger] self.competitions@[j]).channel_id
                        != competition.channel_id,
            decreases n - i,
        {
            if self.competitions[i].channel_id == competition.channel_id {
                proof {
                    self.state().lemma_competition_at(i as int);
                }
                let ghost pre = self.state();
                self.competitions.set(i, competition);
                proof {
                    assert(self.state() =~= (StoreState {
                        competitions: pre.competitions.update(
                            pre.competition_idx(competition.channel_id),
                            competition,
                        ),
                        ..pre
                    }));
                    assert forall|a: int, b: int|
                        #![trigger self.state().competitions[a], self.state().competitions[b]]
                        0 <= a < b < self.state().competitions.len() implies self.state().competitions[a].channel_id
                        != self.state().competitions[b].channel_id by {
                        assert(pre.competitions[a].channel_id != pre.competitions[b].channel_id);
                    }
                }
                return Ok(());
            }
            i = i + 1;
        }
        Ok(())
    }

    /// The index of the user with identity `user_id`, if one exists.
    fn find_user(&self, user_id: u64) -> (r: Option<usize>)
        requires
            self.wf(),
        ensures
            match r {
                Some(i) => {
                    &&& i < self.users@.len()
                    &&& self.users@[i as int].id == user_id
                    &&& self.state().has_user(user_id)
                    &&& self.state().user_idx(user_id) == i
                },
                None => !self.state().has_user(user_id),
            },
    {
        let n = self.users.len();
        let mut i: usize = 0;
        while i < n
            invariant
                self.wf(),
                n == self.users@.len(),
                i <= n,
                forall|j: int| 0 <= j < i ==> (#[trigger] self.users@[j]).id != user_id,
            decreases n - i,
        {
            if self.users[i].id == user_id {
                proof {
                    self.state().lemma_user_at(i as int);
                }
                return Some(i);
            }
            i = i + 1;
        }
        None
    }

    /// Creates the user row with a zero balance and no rank if it does not
    /// exist yet.
    fn ensure_user_is_created(&mut self, user_id: u64)
        requires
            old(self).wf(),
        ensures
            final(self).wf(),
            final(self).state().has_user(user_id),
            old(self).state().has_user(user_id) ==> final(self).state() == old(self).state(),
            !old(self).state().has_user(user_id) ==> final(self).state() == old(
                self,
            ).state().with_users(
                old(self).state().users.push(
                    (User { id: user_id, email: None, points: 0, rank: Rank::Unranked }),
                ),
            ),
    {
        if let Some(_) = self.find_user(user_id) {
            return ;
        }
        let ghost pre = self.state();
        self.users.push(User { id: user_id, email: None, points: 0, rank: Rank::Unranked });
        proof {
            assert(self.state() =~= pre.with_users(
                pre.users.push(User { id: user_id, email: None, points: 0, rank: Rank::Unranked }),
            ));
            pre.lemma_wf_after_users_change(self.state());
            assert(self.state().users[pre.users.len() as int].id == user_id);
        }
    }

    /// Records the user's verified email, creating the user if absent.
    pub fn verify_user(&mut self, user_id: u64, email: &str) -> (r: Result<(), Error>)
        requires
            old(self).wf(),
        ensures
            final(self).wf(),
            r is Ok,
            final(self).state().has_user(user_id),
            ({
                let post = final(self).state();
                let idx = post.user_idx(user_id);
                &&& post.users[idx].id == user_id
                &&& post.users[idx].email matches Some(e) && e@ == email@
                &&& post.users[idx].points == old(self).state().points_or_zero(user_id)
                &&& post.users[idx].rank == old(self).state().rank_or_unranked(user_id)
            }),
            old(self).state().has_user(user_id) ==> old(self).state().same_except_user(
                final(self).state(),
                old(self).state().user_idx(user_id),
            ),
            !old(self).state().has_user(user_id) ==> (final(self).state().users.len() == old(
                self,
            ).state().users.len() + 1 && old(self).state().same_except_user(
                final(self).state().with_users(
                    final(self).state().users.drop_last(),
                ),
                -1,
            )),
    {
        self.ensure_user_is_created(user_id);
        let idx = match self.find_user(user_id) {
            Some(i) => i,
            None => {
                return Ok(());  // unreachable: the user was just created
            },
        };
        let ghost pre = self.state();
        let points = self.users[idx].points;
        let rank = self.users[idx].rank;
        self.users.set(
            idx,
            User { id: user_id, email: Some(email.to_owned()), points, rank },
        );
        proof {
            assert(self.state() =~= pre.with_users(self.state().users));
            pre.lemma_wf_after_users_change(self.state());
            self.state().lemma_user_at(idx as int);
            if old(self).state().has_user(user_id) {
                assert(old(self).state().same_except_user(self.state(), idx as int));
            } else {
                assert(self.state().users.drop_last() =~= old(self).state().users);
                assert(self.state().with_users(self.state().users.drop_last()) =~= old(
                    self,
                ).state());
            }
        }
        Ok(())
    }

    /// Atomically adds `points` to the user's balance, creating the user
    /// with a zero balance first if absent, and returns the before/after
    /// snapshot. Fails without any effect when the balance would leave the
    /// representable range.
    pub fn give_user_points(&mut self, user_id: u64, points: i64) -> (r: Result<
        PointsUpdate,
        Error,
    >)
        requires
            old(self).wf(),
        ensures
            final(self).wf(),
            match r {
                Ok(u) => {
                    let pre = old(self).state();
                    let post = final(self).state();
                    &&& i64::MIN <= pre.points_or_zero(user_id) + points <= i64::MAX
                    &&& u == (PointsUpdate {
                        user_id,
                        old_points: pre.points_or_zero(user_id) as i64,
                        new_points: (pre.points_or_zero(user_id) + points) as i64,
                        old_rank: pre.rank_or_unranked(user_id),
                    })
                    &&& post.has_user(user_id)
                    &&& post == pre.with_users(credit_one(pre.users, user_id, points as int))
                },
                Err(e) => {
                    &&& e == Error::StorageFailure
                    &&& !(i64::MIN <= old(self).state().points_or_zero(user_id) + points
                        <= i64::MAX)
                    &&& final(self).state() == old(self).state()
                },
            },
    {
        match self.find_user(user_id) {
            Some(idx) => {
                let user_points = self.users[idx].points;
                if (user_points as i128) + (points as i128) > (i64::MAX as i128) || (
                user_points as i128) + (points as i128) < (i64::MIN as i128) {
                    return Err(Error::StorageFailure);
                }
                let new_points = user_points + points;
                let ghost pre = self.state();
                let email = match &self.users[idx].email {
                    Some(e) => Some(e.clone()),
                    None => None,
                };
                let rank = self.users[idx].rank;
                self.users.set(idx, User { id: user_id, email, points: new_points, rank });
                proof {
                    assert(self.state().users =~= pre.users.update(
                        idx as int,
                        (User { points: new_points, ..pre.users[idx as int] }),
                    ));
                    assert(self.state() =~= pre.with_users(self.state().users));
                    pre.lemma_wf_after_users_change(self.state());
                    assert(self.state().users[idx as int].id == user_id);
                }
                Ok(
                    PointsUpdate {
                        user_id,
                        old_points: user_points,
                        new_points,
                        old_rank: rank,
                    },
                )
            },
            None => {
                let ghost pre = self.state();
                self.users.push(
                    User { id: user_id, email: None, points, rank: Rank::Unranked },
                );
                proof {
                    assert(self.state() =~= pre.with_users(
                        pre.users.push(
                            (User { id: user_id, email: None, points, rank: Rank::Unranked }),
                        ),
                    ));
                    pre.lemma_wf_after_users_change(self.state());
                    assert(self.state().users[pre.users.len() as int].id == user_id);
                }
                Ok(
                    PointsUpdate {
                        user_id,
                        old_points: 0,
                        new_points: points,
                        old_rank: Rank::Unranked,
                    },
                )
            },
        }
    }

    /// Caches the user's rank; a missing user leaves the store unchanged.
    pub fn set_rank(&mut self, user_id: u64, rank: Rank) -> (r: Result<(), Error>)
        requires
            old(self).wf(),
        ensures
            final(self).wf(),
            r is Ok,
            old(self).state().has_user(user_id) ==> final(self).state() == old(
                self,
            ).state().with_users(
                old(self).state().users.update(
                    old(self).state().user_idx(user_id),
                    (User { rank, ..old(self).state().users[old(self).state().user_idx(user_id)] }),
                ),
            ),
            !old(self).state().has_user(user_id) ==> final(self).state() == old(self).state(),
    {
        let idx = match self.find_user(user_id) {
            Some(i) => i,
            None => {
                return Ok(());
            },
        };
        let ghost pre = self.state();
        let email = match &self.users[idx].email {
            Some(e) => Some(e.clone()),
            None => None,
        };
        let points = self.users[idx].points;
        self.users.set(idx, User { id: user_id, email, points, rank });
        proof {
            assert(self.state().users =~= pre.users.update(
                idx as int,
                (User { rank, ..pre.users[idx as int] }),
            ));
            assert(self.state() =~= pre.with_users(self.state().users));
            pre.lemma_wf_after_users_change(self.state());
        }
        Ok(())
    }

    /// Looks up a user by identity.
    pub fn get_user_by_id(&self, id: u64) -> (r: Result<User, Error>)
        requires
            self.wf(),
        ensures
            match r {
                Ok(u) => {
                    &&& self.state().has_user(id)
                    &&& u == self.state().users[self.state().user_idx(id)]
                },
                Err(e) => {
                    &&& e == Error::NotFound
                    &&& !self.state().has_user(id)
                },
            },
    {
        match self.find_user(id) {
            Some(idx) => Ok(self.users[idx].clone()),
            None => Err(Error::NotFound),
        }
    }

    /// Looks up the first user holding the given verified email.
    pub fn get_user_by_email(&self, email: &String) -> (r: Result<User, Error>)
        requires
            self.wf(),
        ensures
            ({
                let k = find_first(
                    self.state().users,
                    |u: User| u.email matches Some(e) && e@ == email@,
                );
                match r {
                    Ok(u) => k >= 0 && u == self.state().users[k],
                    Err(e) => e == Error::NotFound && k == -1,
                }
            }),
    {
        let ghost p = |u: User| u.email matches Some(e) && e@ == email@;
        let n = self.users.len();
        let mut i: usize = 0;
        while i < n
            invariant
                self.wf(),
                n == self.users@.len(),
                i <= n,
                forall|j: int| 0 <= j < i ==> !p(#[trigger] self.users@[j]),
                p == (|u: User| u.email matches Some(e) && e@ == email@),
            decreases n - i,
        {
            let matched = match &self.users[i].email {
                Some(e) => *e == *email,
                None => false,
            };
            proof {
                match self.users@[i as int].email {
                    Some(e) => {
                        assert(matched == (e@ == email@));
                    },
                    None => {
                        assert(!matched);
                    },
                }
                assert(matched == p(self.users@[i as int]));
            }
            if matched {
                proof {
                    lemma_find_first_at(self.state().users, p, i as int);
                }
                return Ok(self.users[i].clone());
            }
            i = i + 1;
        }
        proof {
            lemma_find_first(self.state().users, p);
        }
        Err(Error::NotFound)
    }

    /// Records a new challenge and returns its assigned identity. Rejected
    /// before any write when the owning competition does not exist; fails
    /// without effect when identities are exhausted.
    pub fn create_challenge(&mut self, challenge: Challenge) -> (r: Result<i64, Error>)
        requires
            old(self).wf(),
        ensures
            final(self).wf(),
            match r {
                Ok(id) => {
                    &&& old(self).state().has_competition(challenge.competition_id)
                    &&& old(self).state().next_challenge_id < i64::MAX
                    &&& id == old(self).state().next_challenge_id
                    &&& final(self).state() == (StoreState {
                        challenges: old(self).state().challenges.push(
                            (Challenge { id, ..challenge }),
                        ),
                        next_challenge_id: old(self).state().next_challenge_id + 1,
                        ..old(self).state()
                    })
                },
                Err(e) => {
                    &&& final(self).state() == old(self).state()
                    &&& (e == Error::ConstraintViolation || e == Error::StorageFailure)
                    &&& (e == Error::ConstraintViolation <==> !old(self).state().has_competition(
                        challenge.competition_id,
                    ))
                    &&& (e == Error::StorageFailure ==> old(self).state().next_challenge_id
                        == i64::MAX)
                },
            },
    {
        let mut found = false;
        let n = self.competitions.len();
        let mut i: usize = 0;
        while i < n
            invariant
                old(self).wf(),
                self == old(self),
                n == self.competitions@.len(),
                i <= n,
                found ==> self.state().has_competition(challenge.competition_id),
                !found ==> forall|j: int|
                    0 <= j < i ==> (#[trigger] self.competitions@[j]).channel_id
                        != challenge.competition_id,
            decreases n - i,
        {
            if self.competitions[i].channel_id == challenge.competition_id {
                proof {
                    assert(self.state().competitions[i as int].channel_id
                        == challenge.competition_id);
                }
                found = true;
            }
            i = i + 1;
        }
        if !found {
            return Err(Error::ConstraintViolation);
        }
        if self.next_challenge_id == i64::MAX {
            return Err(Error::StorageFailure);
        }
        let id = self.next_challenge_id;
        let ghost pre = self.state();
        let created = Challenge {
            id,
            competition_id: challenge.competition_id,
            name: challenge.name,
            category: challenge.category,
            channel_id: challenge.channel_id,
        };
        self.challenges.push(created);
        self.next_challenge_id = id + 1;
        proof {
            assert(self.state() =~= (StoreState {
                challenges: pre.challenges.push((Challenge { id, ..challenge })),
                next_challenge_id: pre.next_challenge_id + 1,
                ..pre
            }));
            assert forall|a: int, b: int|
                #![trigger self.state().challenges[a], self.state().challenges[b]]
                0 <= a < b < self.state().challenges.len() implies self.state().challenges[a].id
                != self.state().challenges[b].id by {
                if b < pre.challenges.len() {
                    assert(pre.challenges[a].id != pre.challenges[b].id);
                } else {
                    assert(1 <= pre.challenges[a].id < pre.next_challenge_id);
                }
            }
            assert forall|k: int|
                0 <= k < self.state().solves.len() implies self.state().participants_of(
                (#[trigger] self.state().solves[k]).id,
            ).len() >= 1 by {
                assert(pre.participants_of(pre.solves[k].id).len() >= 1);
            }
        }
        Ok(id)
    }

    /// Looks up the first challenge provisioned in the given channel.
    pub fn get_challenge_by_channel_id(&self, channel_id: u64) -> (r: Result<Challenge, Error>)
        requires
            self.wf(),
        ensures
            ({
                let k = find_first(
                    self.state().challenges,
                    |c: Challenge| c.channel_id == Some(channel_id),
                );
                match r {
                    Ok(c) => k >= 0 && c == self.state().challenges[k],
                    Err(e) => e == Error::NotFound && k == -1,
                }
            }),
    {
        let ghost p = |c: Challenge| c.channel_id == Some(channel_id);
        let n = self.challenges.len();
        let mut i: usize = 0;
        while i < n
            invariant
                self.wf(),
                n == self.challenges@.len(),
                i <= n,
                forall|j: int| 0 <= j < i ==> !p(#[trigger] self.challenges@[j]),
                p == (|c: Challenge| c.channel_id == Some(channel_id)),
            decreases n - i,
        {
            let matched = match self.challenges[i].channel_id {
                Some(c) => c == channel_id,
                None => false,
            };
            proof {
                assert(matched == p(self.challenges@[i as int]));
            }
            if matched {
                proof {
                    lemma_find_first_at(self.state().challenges, p, i as int);
                }
                return Ok(self.challenges[i].clone());
            }
            i = i + 1;
        }
        proof {
            lemma_find_first(self.state().challenges, p);
        }
        Err(Error::NotFound)
    }

    /// Looks up the first solve moderated through the given
    /// decision-request message.
    pub fn get_solve_by_approval_message_id(&self, message_id: u64) -> (r: Result<Solve, Error>)
        requires
            self.wf(),
        ensures
            ({
                let k = find_first(self.state().solves, solve_matcher(message_id));
                match r {
                    Ok(v) => k >= 0 && v == self.state().solves[k],
                    Err(e) => e == Error::NotFound && k == -1,
                }
            }),
    {
        let ghost p = solve_matcher(message_id);
        let n = self.solves.len();
        let mut i: usize = 0;
        while i < n
            invariant
                self.wf(),
                n == self.solves@.len(),
                i <= n,
                forall|j: int| 0 <= j < i ==> !p(#[trigger] self.solves@[j]),
                p == solve_matcher(message_id),
            decreases n - i,
        {
            if self.solves[i].approval_message_id == message_id {
                proof {
                    lemma_find_first_at(self.state().solves, p, i as int);
                }
                return Ok(self.solves[i].clone());
            }
            i = i + 1;
        }
        proof {
            lemma_find_first(self.state().solves, p);
        }
        Err(Error::NotFound)
    }

    /// Overwrites the flag and approval status of the solve with the same
    /// identity; a missing solve leaves the store unchanged. The caller is
    /// responsible for the state-machine check on the previous status.
    pub fn update_solve(&mut self, solve: Solve) -> (r: Result<(), Error>)
        requires
            old(self).wf(),
        ensures
            final(self).wf(),
            r is Ok,
            old(self).state().has_solve(solve.id) ==> final(self).state() == old(
                self,
            ).state().with_solves(
                old(self).state().solves.update(
                    old(self).state().solve_idx(solve.id),
                    (Solve {
                        flag: solve.flag,
                        approval_status: solve.approval_status,
                        ..old(self).state().solves[old(self).state().solve_idx(solve.id)]
                    }),
                ),
            ),
            !old(self).state().has_solve(solve.id) ==> final(self).state() == old(self).state(),
    {
        let n = self.solves.len();
        let mut i: usize = 0;
        while i < n
            invariant
                old(self).wf(),
                self == old(self),
                n == self.solves@.len(),
                i <= n,
                forall|j: int| 0 <= j < i ==> (#[trigger] self.solves@[j]).id != solve.id,
            decreases n - i,
        {
            if self.solves[i].id == solve.id {
                proof {
                    self.state().lemma_solve_at(i as int);
                }
                let ghost pre = self.state();
                let stored = Solve {
                    id: self.solves[i].id,
                    challenge_id: self.solves[i].challenge_id,
                    approval_message_id: self.solves[i].approval_message_id,
                    flag: solve.flag,
                    approval_status: solve.approval_status,
                };
                self.solves.set(i, stored);
                proof {
                    assert(self.state() =~= pre.with_solves(
                        pre.solves.update(
                            pre.solve_idx(solve.id),
                            (Solve {
                                flag: solve.flag,
                                approval_status: solve.approval_status,
                                ..pre.solves[pre.solve_idx(solve.id)]
                            }),
                        ),
                    ));
                    pre.lemma_wf_after_solves_rewrite(self.state());
                }
                return Ok(());
            }
            i = i + 1;
        }
        Ok(())
    }

    /// The top `count` users by points, highest first, ties broken by
    /// ascending identity.
    pub fn get_users_by_points(&self, count: u32) -> (r: Vec<User>)
        requires
            self.wf(),
        ensures
            r@.len() == vstd::math::min(count as int, self.users@.len() as int),
            users_sorted(r@),
            exists|s: Seq<User>|
                {
                    &&& (#[trigger] s.to_multiset()) == self.state().users.to_multiset()
                    &&& users_sorted(s)
                    &&& r@ == s.take(r@.len() as int)
                },
            r@.len() > 0 ==> forall|i: int|
                0 <= i < self.users@.len() ==> (#[trigger] self.users@[i]).points
                    <= r@[0].points,
    {
        broadcast use vstd::seq_lib::group_to_multiset_ensures;

        let n = self.users.len();
        let mut sorted_users: Vec<User> = Vec::new();
        let mut i: usize = 0;
        while i < n
            invariant
                i <= n,
                n == self.users@.len(),
                users_sorted(sorted_users@),
                sorted_users@.to_multiset() == self.state().users.take(i as int).to_multiset(),
                sorted_users@.len() == i,
            decreases n - i,
        {
            let u = self.users[i].clone();
            let len2 = sorted_users.len();
            let mut pos: usize = 0;
            let mut scanning = true;
            while scanning
                invariant
                    pos <= len2,
                    len2 == sorted_users@.len(),
                    forall|k: int|
                        0 <= k < pos ==> user_before(#[trigger] sorted_users@[k], u),
                    !scanning ==> (pos == len2 || !user_before(sorted_users@[pos as int], u)),
                decreases len2 - pos + (if scanning { 1int } else { 0int }),
            {
                if pos >= len2 {
                    scanning = false;
                } else {
                    let c = &sorted_users[pos];
                    if c.points > u.points || (c.points == u.points && c.id <= u.id) {
                        pos = pos + 1;
                    } else {
                        scanning = false;
                    }
                }
            }
            let ghost before_insert = sorted_users@;
            sorted_users.insert(pos, u);
            i = i + 1;
            proof {
                assert forall|a: int, b: int|
                    #![trigger sorted_users@[a], sorted_users@[b]]
                    0 <= a < b < sorted_users@.len() implies user_before(
                    sorted_users@[a],
                    sorted_users@[b],
                ) by {
                    if b < pos {
                        assert(sorted_users@[a] == before_insert[a]);
                        assert(sorted_users@[b] == before_insert[b]);
                        assert(user_before(before_insert[a], before_insert[b]));
                    } else if a < pos && b == pos {
                        assert(sorted_users@[a] == before_insert[a]);
                        assert(user_before(before_insert[a], u));
                    } else if a < pos && b > pos {
                        assert(sorted_users@[a] == before_insert[a]);
                        assert(sorted_users@[b] == before_insert[b - 1]);
                        assert(user_before(before_insert[a], before_insert[b - 1]));
                    } else if a == pos {
                        assert(sorted_users@[b] == before_insert[b - 1]);
                        assert(!user_before(before_insert[pos as int], u));
                        if (pos as int) < b - 1 {
                            assert(user_before(before_insert[pos as int], before_insert[b - 1]));
                        }
                    } else {
                        assert(sorted_users@[a] == before_insert[a - 1]);
                        assert(sorted_users@[b] == before_insert[b - 1]);
                        assert(user_before(before_insert[a - 1], before_insert[b - 1]));
                    }
                }
                assert(self.state().users.take(i as int).drop_last() =~= self.state().users.take(
                    i as int - 1,
                ));
                assert(self.state().users.take(i as int) =~= self.state().users.take(
                    i as int - 1,
                ).push(self.state().users[i as int - 1]));
                assert(sorted_users@ == before_insert.insert(pos as int, u));
                vstd::seq_lib::to_multiset_insert(before_insert, pos as int, u);
                vstd::seq_lib::to_multiset_build(
                    self.state().users.take(i as int - 1),
                    self.state().users[i as int - 1],
                );
                assert(sorted_users@.to_multiset() == before_insert.to_multiset().insert(u));
                assert(self.state().users.take(i as int).to_multiset() == self
                    .state()
                    .users
                    .take(i as int - 1)
                    .to_multiset()
                    .insert(self.state().users[i as int - 1]));
                assert(sorted_users@.to_multiset() =~= self.state().users.take(
                    i as int,
                ).to_multiset());
            }
        }
        proof {
            assert(self.state().users.take(n as int) =~= self.state().users);
        }

        let m: usize = if (count as usize) < n {
            count as usize
        } else {
            n
        };
        let mut result: Vec<User> = Vec::new();
        let mut i: usize = 0;
        while i < m
            invariant
                i <= m,
                m <= n,
                n == sorted_users@.len(),
                result@ == sorted_users@.take(i as int),
            decreases m - i,
        {
            result.push(sorted_users[i].clone());
            i = i + 1;
            proof {
                assert(result@ =~= sorted_users@.take(i as int));
            }
        }
        proof {
            assert(result@ == sorted_users@.take(m as int));
            assert forall|a: int, b: int|
                #![trigger result@[a], result@[b]]
                0 <= a < b < result@.len() implies user_before(result@[a], result@[b]) by {
                assert(result@[a] == sorted_users@[a]);
                assert(result@[b] == sorted_users@[b]);
            }
            if m > 0 {
                assert forall|i2: int| 0 <= i2 < self.users@.len() implies (#[trigger] self
                    .users@[i2]).points <= result@[0].points by {
                    assert(self.state().users.contains(self.users@[i2]));
                    assert(self.state().users.to_multiset().count(self.users@[i2]) > 0);
                    assert(sorted_users@.to_multiset().count(self.users@[i2]) > 0);
                    assert(sorted_users@.contains(self.users@[i2]));
                    let k = choose|k: int|
                        0 <= k < sorted_users@.len() && sorted_users@[k] == self.users@[i2];
                    assert(result@[0] == sorted_users@[0]);
                    if k > 0 {
                        assert(user_before(sorted_users@[0], sorted_users@[k]));
                    }
                }
            }
        }
        result
    }

    /// Records a new solve together with its participation rows, one per
    /// distinct listed user, lazily creating missing users, all as one
    /// atomic operation, and returns the solve's assigned identity.
    pub fn create_solve(&mut self, solve: Solve, users: &Vec<u64>) -> (r: Result<i64, Error>)
        requires
            old(self).wf(),
            users@.len() >= 1,
            solve.approval_status == ApprovalStatus::Pending,
        ensures
            final(self).wf(),
            match r {
                Ok(id) => {
                    &&& old(self).state().next_solve_id < i64::MAX
                    &&& id == old(self).state().next_solve_id
                    &&& final(self).state() == (StoreState {
                        solves: old(self).state().solves.push(
                            (Solve {
                                id,
                                challenge_id: solve.challenge_id,
                                approval_message_id: solve.approval_message_id,
                                flag: solve.flag,
                                approval_status: ApprovalStatus::Pending,
                            }),
                        ),
                        user_solves: old(self).state().user_solves + dedup_ids(
                            users@,
                        ).map_values(|u: u64| UserSolve { user_id: u, solve_id: id }),
                        users: credit_all(old(self).state().users, dedup_ids(users@), 0),
                        next_solve_id: old(self).state().next_solve_id + 1,
                        ..old(self).state()
                    })
                    &&& final(self).state().participants_of(id) == dedup_ids(users@)
                },
                Err(e) => {
                    &&& e == Error::StorageFailure
                    &&& old(self).state().next_solve_id == i64::MAX
                    &&& final(self).state() == old(self).state()
                },
            },
    {
        if self.next_solve_id == i64::MAX {
            return Err(Error::StorageFailure);
        }
        let id = self.next_solve_id;
        let ghost pre = self.state();

        // Deduplicate the participant list, keeping first occurrences.
        let mut distinct: Vec<u64> = Vec::new();
        let mut k: usize = 0;
        while k < users.len()
            invariant
                k <= users@.len(),
                distinct@ == dedup_ids(users@.take(k as int)),
            decreases users@.len() - k,
        {
            let u = users[k];
            let mut present = false;
            let mut j: usize = 0;
            while j < distinct.len()
                invariant
                    j <= distinct@.len(),
                    present == exists|a: int| 0 <= a < j && distinct@[a] == u,
                decreases distinct@.len() - j,
            {
                if distinct[j] == u {
                    present = true;
                }
                j = j + 1;
            }
            proof {
                assert(present == distinct@.contains(u));
                assert(users@.take(k as int + 1).drop_last() =~= users@.take(k as int));
                assert(users@.take(k as int + 1).last() == users@[k as int]);
            }
            if !present {
                distinct.push(u);
            }
            k = k + 1;
            proof {
                assert(distinct@ =~= dedup_ids(users@.take(k as int)));
            }
        }
        proof {
            assert(users@.take(users@.len() as int) =~= users@);
            lemma_dedup_ids(users@);
        }

        // Lazily create the participants' user rows.
        let mut k: usize = 0;
        while k < distinct.len()
            invariant
                pre.wf(),
                distinct@ == dedup_ids(users@),
                self.wf(),
                self.state() == pre.with_users(
                    credit_all(pre.users, distinct@.take(k as int), 0),
                ),
                k <= distinct@.len(),
            decreases distinct@.len() - k,
        {
            let ghost mid = self.state();
            self.ensure_user_is_created(distinct[k]);
            proof {
                assert(distinct@.take(k as int + 1).drop_last() =~= distinct@.take(k as int));
                assert(distinct@.take(k as int + 1).last() == distinct@[k as int]);
                let target = credit_one(mid.users, distinct@[k as int], 0);
                if mid.has_user(distinct@[k as int]) {
                    let i = seq_user_idx(mid.users, distinct@[k as int]);
                    assert(target =~= mid.users.update(i, mid.users[i]));
                    assert(target =~= mid.users);
                    assert(self.state() == mid);
                } else {
                    assert(self.state().users == mid.users.push(
                        (User {
                            id: distinct@[k as int],
                            email: None,
                            points: 0,
                            rank: Rank::Unranked,
                        }),
                    ));
                    assert(self.state().users =~= target);
                }
                assert(self.state() =~= pre.with_users(
                    credit_all(pre.users, distinct@.take(k as int + 1), 0),
                ));
            }
            k = k + 1;
        }
        proof {
            assert(distinct@.take(distinct@.len() as int) =~= distinct@);
        }

        // Insert the solve row.
        let created = Solve {
            id,
            challenge_id: solve.challenge_id,
            approval_message_id: solve.approval_message_id,
            flag: solve.flag,
            approval_status: ApprovalStatus::Pending,
        };
        self.solves.push(created);
        self.next_solve_id = id + 1;
        let ghost mid = self.state();

        // Insert one participation row per distinct participant.
        let ghost row_of = |u: u64| UserSolve { user_id: u, solve_id: id };
        let mut k: usize = 0;
        while k < distinct.len()
            invariant
                k <= distinct@.len(),
                self.state() == (StoreState {
                    user_solves: mid.user_solves + distinct@.take(k as int).map_values(row_of),
                    ..mid
                }),
                row_of == (|u: u64| UserSolve { user_id: u, solve_id: id }),
            decreases distinct@.len() - k,
        {
            self.user_solves.push(UserSolve { user_id: distinct[k], solve_id: id });
            k = k + 1;
            proof {
                assert(mid.user_solves + distinct@.take(k as int).map_values(row_of)
                    =~= (mid.user_solves + distinct@.take(k as int - 1).map_values(row_of)).push(
                    (UserSolve { user_id: distinct@[k as int - 1], solve_id: id }),
                ));
                assert(self.state() =~= (StoreState {
                    user_solves: mid.user_solves + distinct@.take(k as int).map_values(row_of),
                    ..mid
                }));
            }
        }
        proof {
            assert(distinct@.take(distinct@.len() as int) =~= distinct@);
            self.lemma_create_solve_post(pre, solve, users@, id);
        }
        Ok(id)
    }

    /// The closing argument of `create_solve`: the assembled state is well
    /// formed and the new solve's participants are the deduplicated list.
    proof fn lemma_create_solve_post(self, pre: StoreState, solve: Solve, ids: Seq<u64>, id: i64)
        requires
            pre.wf(),
            ids.len() >= 1,
            1 <= id < i64::MAX,
            id == pre.next_solve_id,
            self.state() == (StoreState {
                solves: pre.solves.push(
                    (Solve {
                        id,
                        challenge_id: solve.challenge_id,
                        approval_message_id: solve.approval_message_id,
                        flag: solve.flag,
                        approval_status: ApprovalStatus::Pending,
                    }),
                ),
                user_solves: pre.user_solves + dedup_ids(ids).map_values(
                    |u: u64| UserSolve { user_id: u, solve_id: id },
                ),
                users: credit_all(pre.users, dedup_ids(ids), 0),
                next_solve_id: pre.next_solve_id + 1,
                ..pre
            }),
        ensures
            self.wf(),
            self.state().participants_of(id) == dedup_ids(ids),
    {
        broadcast use vstd::seq_lib::group_filter_ensures;

        let post = self.state();
        let d = dedup_ids(ids);
        let row_of = |u: u64| UserSolve { user_id: u, solve_id: id };
        let rows = d.map_values(row_of);
        lemma_dedup_ids(ids);
        lemma_credit_all_basic(pre.users, d, 0);

        // Old participation rows never reference the new solve.
        assert forall|i: int| 0 <= i < pre.user_solves.len() implies (#[trigger]
        pre.user_solves[i]).solve_id != id by {
            assert(pre.has_solve(pre.user_solves[i].solve_id));
            let j = choose|j: int|
                0 <= j < pre.solves.len() && (#[trigger] pre.solves[j]).id
                    == pre.user_solves[i].solve_id;
            assert(pre.solves[j].id < pre.next_solve_id);
        }

        // The new solve's participants are exactly the deduplicated list.
        assert forall|sid: i64| true implies #[trigger] post.participants_of(sid)
            == (if sid == id {
            d
        } else {
            pre.participants_of(sid)
        }) by {
            let p = |us: UserSolve| us.solve_id == sid;
            Seq::filter_distributes_over_add(pre.user_solves, rows, p);
            if sid == id {
                crate::find::lemma_filter_skip_all(pre.user_solves, p);
                crate::find::lemma_filter_keep_all(rows, p);
                assert(post.user_solves.filter(p) == rows);
                assert(post.participants_of(sid) =~= d);
            } else {
                crate::find::lemma_filter_skip_all(rows, p);
                assert(post.user_solves.filter(p) =~= pre.user_solves.filter(p));
                assert(post.participants_of(sid) =~= pre.participants_of(sid));
            }
        }

        // Well-formedness of the assembled state.
        assert forall|i: int, j: int|
            #![trigger post.solves[i], post.solves[j]]
            0 <= i < j < post.solves.len() implies post.solves[i].id != post.solves[j].id by {
            if j < pre.solves.len() {
                assert(pre.solves[i].id != pre.solves[j].id);
            } else {
                assert(1 <= pre.solves[i].id < pre.next_solve_id);
            }
        }
        assert forall|i: int, j: int|
            #![trigger post.user_solves[i], post.user_solves[j]]
            0 <= i < j < post.user_solves.len() implies post.user_solves[i]
            != post.user_solves[j] by {
            if j < pre.user_solves.len() {
                assert(pre.user_solves[i] != pre.user_solves[j]);
            } else if i < pre.user_solves.len() {
                assert(pre.user_solves[i].solve_id != id);
                assert(post.user_solves[j].solve_id == id);
            } else {
                assert(d[i - pre.user_solves.len()] != d[j - pre.user_solves.len()]);
            }
        }
        assert forall|i: int|
            0 <= i < post.user_solves.len() implies post.has_user(
            (#[trigger] post.user_solves[i]).user_id,
        ) && post.has_solve(post.user_solves[i].solve_id) by {
            if i < pre.user_solves.len() {
                assert(pre.has_user(pre.user_solves[i].user_id));
                assert(seq_has_user(post.users, pre.user_solves[i].user_id));
                let sid = pre.user_solves[i].solve_id;
                let j = choose|j: int|
                    0 <= j < pre.solves.len() && (#[trigger] pre.solves[j]).id == sid;
                assert(post.solves[j].id == sid);
            } else {
                let u = d[i - pre.user_solves.len()];
                assert(d.contains(u));
                assert(seq_has_user(post.users, u));
                assert(post.solves[post.solves.len() - 1].id == id);
            }
        }
        assert forall|i: int|
            0 <= i < post.challenges.len() implies 1 <= (#[trigger] post.challenges[i]).id
            < post.next_challenge_id by {
            assert(1 <= pre.challenges[i].id < pre.next_challenge_id);
        }
        assert forall|i: int|
            0 <= i < post.solves.len() implies post.participants_of(
            (#[trigger] post.solves[i]).id,
        ).len() >= 1 by {
            if i < pre.solves.len() {
                assert(pre.participants_of(pre.solves[i].id).len() >= 1);
                assert(pre.solves[i].id != id);
                assert(post.participants_of(pre.solves[i].id) == pre.participants_of(
                    pre.solves[i].id,
                ));
            } else {
                assert(post.solves[i].id == id);
                assert(post.participants_of(id) == d);
                assert(d.len() >= 1);
            }
        }
    }

    /// Atomically adds `amount` to the balance of each listed user (lazily
    /// creating missing ones) and returns the before/after snapshots, in
    /// order. Either every listed balance updates, or none does: a
    /// duplicate id is rejected before any write, and an overflowing
    /// balance fails the whole batch without effect.
    pub fn credit_users(&mut self, ids: &Vec<u64>, amount: i64) -> (r: Result<
        Vec<PointsUpdate>,
        Error,
    >)
        requires
            old(self).wf(),
        ensures
            final(self).wf(),
            match r {
                Ok(updates) => {
                    let pre = old(self).state();
                    &&& (forall|a: int, b: int|
                        #![trigger ids@[a], ids@[b]]
                        0 <= a < b < ids@.len() ==> ids@[a] != ids@[b])
                    &&& (forall|k: int|
                        0 <= k < ids@.len() ==> i64::MIN <= pre.points_or_zero(
                            #[trigger] ids@[k],
                        ) + amount <= i64::MAX)
                    &&& updates@.len() == ids@.len()
                    &&& (forall|k: int|
                        0 <= k < ids@.len() ==> #[trigger] updates@[k] == (PointsUpdate {
                            user_id: ids@[k],
                            old_points: pre.points_or_zero(ids@[k]) as i64,
                            new_points: (pre.points_or_zero(ids@[k]) + amount) as i64,
                            old_rank: pre.rank_or_unranked(ids@[k]),
                        }))
                    &&& sum_deltas(updates@) == amount * ids@.len()
                    &&& final(self).state() == pre.with_users(
                        credit_all(pre.users, ids@, amount as int),
                    )
                },
                Err(e) => {
                    &&& final(self).state() == old(self).state()
                    &&& (e == Error::ConstraintViolation || e == Error::StorageFailure)
                    &&& (e == Error::ConstraintViolation <==> exists|a: int, b: int|
                        0 <= a < b < ids@.len() && #[trigger] ids@[a] == #[trigger] ids@[b])
                    &&& (e == Error::StorageFailure ==> !(forall|k: int|
                        0 <= k < ids@.len() ==> i64::MIN <= old(self).state().points_or_zero(
                            #[trigger] ids@[k],
                        ) + amount <= i64::MAX))
                },
            },
    {
        // Reject duplicate ids before any write.
        let n = ids.len();
        let mut a: usize = 0;
        while a < n
            invariant
                old(self).wf(),
                self == old(self),
                n == ids@.len(),
                a <= n,
                forall|x: int, y: int|
                    #![trigger ids@[x], ids@[y]]
                    0 <= x < y < ids@.len() && x < a ==> ids@[x] != ids@[y],
            decreases n - a,
        {
            let mut b: usize = a + 1;
            while b < n
                invariant
                    old(self).wf(),
                    self == old(self),
                    n == ids@.len(),
                    a < n,
                    a + 1 <= b,
                    forall|y: int| a < y < b ==> ids@[a as int] != #[trigger] ids@[y],
                decreases n - b,
            {
                if ids[a] == ids[b] {
                    proof {
                        assert(ids@[a as int] == ids@[b as int]);
                    }
                    return Err(Error::ConstraintViolation);
                }
                b = b + 1;
            }
            a = a + 1;
        }

        // Check every credited balance stays representable.
        let mut k: usize = 0;
        while k < n
            invariant
                self == old(self),
                old(self).wf(),
                n == ids@.len(),
                k <= n,
                forall|x: int, y: int|
                    #![trigger ids@[x], ids@[y]]
                    0 <= x < y < ids@.len() ==> ids@[x] != ids@[y],
                forall|j: int|
                    0 <= j < k ==> i64::MIN <= old(self).state().points_or_zero(
                        #[trigger] ids@[j],
                    ) + amount <= i64::MAX,
            decreases n - k,
        {
            let current = match self.find_user(ids[k]) {
                Some(i) => self.users[i].points,
                None => 0,
            };
            proof {
                assert(current as int == self.state().points_or_zero(ids@[k as int]));
            }
            if (current as i128) + (amount as i128) > (i64::MAX as i128) || (current as i128)
                + (amount as i128) < (i64::MIN as i128) {
                return Err(Error::StorageFailure);
            }
            k = k + 1;
        }

        // Apply the credits; none can fail now.
        let ghost pre = self.state();
        let mut updates: Vec<PointsUpdate> = Vec::new();
        let mut k: usize = 0;
        while k < n
            invariant
                pre == old(self).state(),
                pre.wf(),
                self.wf(),
                n == ids@.len(),
                k <= n,
                forall|x: int, y: int|
                    #![trigger ids@[x], ids@[y]]
                    0 <= x < y < ids@.len() ==> ids@[x] != ids@[y],
                forall|j: int|
                    0 <= j < n ==> i64::MIN <= pre.points_or_zero(#[trigger] ids@[j]) + amount
                        <= i64::MAX,
                self.state() == pre.with_users(credit_all(pre.users, ids@.take(k as int), amount as int)),
                updates@.len() == k,
                forall|j: int|
                    0 <= j < k ==> #[trigger] updates@[j] == (PointsUpdate {
                        user_id: ids@[j],
                        old_points: pre.points_or_zero(ids@[j]) as i64,
                        new_points: (pre.points_or_zero(ids@[j]) + amount) as i64,
                        old_rank: pre.rank_or_unranked(ids@[j]),
                    }),
            decreases n - k,
        {
            proof {
                lemma_credit_all_basic(pre.users, ids@.take(k as int), amount as int);
                assert forall|j: int| 0 <= j < ids@.take(k as int).len() implies #[trigger]
                ids@.take(k as int)[j] != ids@[k as int] by {
                    assert(ids@[j] != ids@[k as int]);
                }
                assert(!ids@.take(k as int).contains(ids@[k as int]));
                assert(self.state().points_or_zero(ids@[k as int]) == pre.points_or_zero(
                    ids@[k as int],
                ));
                assert(self.state().rank_or_unranked(ids@[k as int]) == pre.rank_or_unranked(
                    ids@[k as int],
                ));
            }
            let ghost mid = self.state();
            match self.give_user_points(ids[k], amount) {
                Ok(u) => {
                    updates.push(u);
                },
                Err(_) => {
                    proof {
                        assert(false);
                    }
                    return Err(Error::StorageFailure);
                },
            }
            k = k + 1;
            proof {
                assert(ids@.take(k as int).drop_last() =~= ids@.take(k as int - 1));
                assert(ids@.take(k as int).last() == ids@[k as int - 1]);
                assert(credit_all(pre.users, ids@.take(k as int), amount as int) == credit_one(
                    credit_all(pre.users, ids@.take(k as int - 1), amount as int),
                    ids@[k as int - 1],
                    amount as int,
                ));
                assert(self.state() =~= pre.with_users(
                    credit_all(pre.users, ids@.take(k as int), amount as int),
                ));
            }
        }
        proof {
            assert(ids@.take(n as int) =~= ids@);
            assert forall|j: int| 0 <= j < updates@.len() implies (#[trigger]
            updates@[j]).new_points - updates@[j].old_points == amount by {
                assert(updates@[j].old_points == pre.points_or_zero(ids@[j]) as i64);
            }
            lemma_sum_deltas_const(updates@, amount as int);
        }
        Ok(updates)
    }

    /// Credits every participant of the given solve with `points`, as one
    /// atomic batch, and returns the snapshots. A solve without
    /// participation rows (in particular an unknown identity) credits
    /// nobody.
    pub fn give_points_for_solve(&mut self, solve_id: i64, points: i64) -> (r: Result<
        Vec<PointsUpdate>,
        Error,
    >)
        requires
            old(self).wf(),
        ensures
            final(self).wf(),
            match r {
                Ok(updates) => {
                    let pre = old(self).state();
                    let parts = pre.participants_of(solve_id);
                    &&& (forall|k: int|
                        0 <= k < parts.len() ==> i64::MIN <= pre.points_or_zero(
                            #[trigger] parts[k],
                        ) + points <= i64::MAX)
                    &&& updates@.len() == parts.len()
                    &&& (forall|k: int|
                        0 <= k < parts.len() ==> #[trigger] updates@[k] == (PointsUpdate {
                            user_id: parts[k],
                            old_points: pre.points_or_zero(parts[k]) as i64,
                            new_points: (pre.points_or_zero(parts[k]) + points) as i64,
                            old_rank: pre.rank_or_unranked(parts[k]),
                        }))
                    &&& sum_deltas(updates@) == points * parts.len()
                    &&& final(self).state() == pre.with_users(
                        credit_all(pre.users, parts, points as int),
                    )
                },
                Err(e) => {
                    &&& e == Error::StorageFailure
                    &&& !(forall|k: int|
                        0 <= k < old(self).state().participants_of(solve_id).len() ==> i64::MIN
                            <= old(self).state().points_or_zero(
                            #[trigger] old(self).state().participants_of(solve_id)[k],
                        ) + points <= i64::MAX)
                    &&& final(self).state() == old(self).state()
                },
            },
    {
        let ghost p = |us: UserSolve| us.solve_id == solve_id;
        let mut participants: Vec<u64> = Vec::new();
        let n = self.user_solves.len();
        let mut i: usize = 0;
        while i < n
            invariant
                self.wf(),
                n == self.user_solves@.len(),
                i <= n,
                p == (|us: UserSolve| us.solve_id == solve_id),
                participants@ == self.state().user_solves.take(i as int).filter(p).map_values(
                    |us: UserSolve| us.user_id,
                ),
                forall|a: int|
                    0 <= a < participants@.len() ==> exists|j: int|
                        0 <= j < i && #[trigger] self.state().user_solves[j] == (UserSolve {
                            user_id: #[trigger] participants@[a],
                            solve_id,
                        }),
            decreases n - i,
        {
            let row = self.user_solves[i];
            proof {
                broadcast use vstd::seq_lib::group_filter_ensures;
                broadcast use Seq::<_>::lemma_filter_push;

                assert(self.state().user_solves.take(i as int + 1).drop_last() =~= self
                    .state()
                    .user_solves
                    .take(i as int));
                assert(self.state().user_solves.take(i as int + 1) =~= self
                    .state()
                    .user_solves
                    .take(i as int)
                    .push(self.state().user_solves[i as int]));
            }
            if row.solve_id == solve_id {
                proof {
                    // A repeated participant would mean a repeated
                    // participation row, which well-formedness rules out.
                    assert forall|a: int|
                        0 <= a < participants@.len() implies participants@[a]
                        != row.user_id by {
                        if participants@[a] == row.user_id {
                            let j = choose|j: int|
                                0 <= j < i && #[trigger] self.state().user_solves[j] == (
                                UserSolve { user_id: participants@[a], solve_id });
                            assert(self.state().user_solves[j]
                                == self.state().user_solves[i as int]);
                        }
                    }
                }
                participants.push(row.user_id);
                proof {
                    assert(participants@ =~= self.state().user_solves.take(
                        i as int + 1,
                    ).filter(p).map_values(|us: UserSolve| us.user_id));
                    assert(self.state().user_solves[i as int] == (UserSolve {
                        user_id: participants@[participants@.len() - 1],
                        solve_id,
                    }));
                }
            } else {
                proof {
                    assert(participants@ =~= self.state().user_solves.take(
                        i as int + 1,
                    ).filter(p).map_values(|us: UserSolve| us.user_id));
                }
            }
            i = i + 1;
        }
        proof {
            assert(self.state().user_solves.take(n as int) =~= self.state().user_solves);
            assert(participants@ == self.state().participants_of(solve_id));
            lemma_participants_distinct(self.state(), solve_id);
        }
        match self.credit_users(&participants, points) {
            Ok(updates) => Ok(updates),
            Err(e) => {
                proof {
                    assert(e != Error::ConstraintViolation);
                }
                Err(Error::StorageFailure)
            },
        }
    }

    /// Whether a participation row links the user to the solve.
    fn has_participation(&self, user_id: u64, solve_id: i64) -> (r: bool)
        ensures
            r == self.state().user_solves.contains(
                (UserSolve { user_id, solve_id }),
            ),
    {
        let n = self.user_solves.len();
        let mut i: usize = 0;
        while i < n
            invariant
                n == self.user_solves@.len(),
                i <= n,
                forall|j: int|
                    0 <= j < i ==> #[trigger] self.user_solves@[j] != (UserSolve {
                        user_id,
                        solve_id,
                    }),
            decreases n - i,
        {
            if self.user_solves[i].user_id == user_id && self.user_solves[i].solve_id
                == solve_id {
                proof {
                    assert(self.state().user_solves[i as int] == (UserSolve {
                        user_id,
                        solve_id,
                    }));
                }
                return true;
            }
            i = i + 1;
        }
        proof {
            assert forall|j: int| 0 <= j < n implies #[trigger] self.state().user_solves[j] != (
            UserSolve { user_id, solve_id }) by {}
        }
        false
    }

    /// The index of the challenge with identity `id`, if one exists.
    fn find_challenge(&self, id: i64) -> (r: Option<usize>)
        requires
            self.wf(),
        ensures
            match r {
                Some(i) => {
                    &&& i < self.challenges@.len()
                    &&& self.challenges@[i as int].id == id
                    &&& self.state().has_challenge(id)
                    &&& self.state().challenge_idx(id) == i
                },
                None => !self.state().has_challenge(id),
            },
    {
        let n = self.challenges.len();
        let mut i: usize = 0;
        while i < n
            invariant
                self.wf(),
                n == self.challenges@.len(),
                i <= n,
                forall|j: int| 0 <= j < i ==> (#[trigger] self.challenges@[j]).id != id,
            decreases n - i,
        {
            if self.challenges[i].id == id {
                proof {
                    self.state().lemma_challenge_at(i as int);
                }
                return Some(i);
            }
            i = i + 1;
        }
        None
    }

    /// The challenges this user has an approved solve for, in solve order,
    /// one entry per approved solve. Used for statistics, not on the
    /// approval critical path.
    pub fn get_solved_challenges_for_user(&self, user_id: u64) -> (r: Vec<Challenge>)
        requires
            self.wf(),
        ensures
            ({
                let st = self.state();
                r@ == st.solves.filter(|s: Solve| solved_by(st, s, user_id)).map_values(
                    |s: Solve| st.challenges[st.challenge_idx(s.challenge_id)],
                )
            }),
    {
        let ghost st = self.state();
        let ghost p = |s: Solve| solved_by(st, s, user_id);
        let ghost f = |s: Solve| st.challenges[st.challenge_idx(s.challenge_id)];
        let mut result: Vec<Challenge> = Vec::new();
        let n = self.solves.len();
        let mut i: usize = 0;
        while i < n
            invariant
                self.wf(),
                st == self.state(),
                p == (|s: Solve| solved_by(st, s, user_id)),
                f == (|s: Solve| st.challenges[st.challenge_idx(s.challenge_id)]),
                n == self.solves@.len(),
                i <= n,
                result@ == st.solves.take(i as int).filter(p).map_values(f),
            decreases n - i,
        {
            proof {
                broadcast use vstd::seq_lib::group_filter_ensures;
                broadcast use Seq::<_>::lemma_filter_push;

                assert(st.solves.take(i as int + 1).drop_last() =~= st.solves.take(i as int));
                assert(st.solves.take(i as int + 1) =~= st.solves.take(i as int).push(
                    st.solves[i as int],
                ));
            }
            let approved = match self.solves[i].approval_status {
                ApprovalStatus::Approved => true,
                _ => false,
            };
            if approved && self.has_participation(user_id, self.solves[i].id) {
                match self.find_challenge(self.solves[i].challenge_id) {
                    Some(ci) => {
                        proof {
                            assert(p(st.solves[i as int]));
                            assert(f(st.solves[i as int]) == st.challenges[ci as int]);
                        }
                        result.push(self.challenges[ci].clone());
                        proof {
                            assert(result@ =~= st.solves.take(i as int + 1).filter(
                                p,
                            ).map_values(f));
                        }
                    },
                    None => {
                        proof {
                            assert(!p(st.solves[i as int]));
                        }
                    },
                }
            } else {
                proof {
                    assert(!p(st.solves[i as int]));
                }
            }
            i = i + 1;
        }
        proof {
            assert(st.solves.take(n as int) =~= st.solves);
        }
        result
    }
}

/// A solve's participant list never repeats a user: a repeat would take
/// two identical participation rows.
proof fn lemma_participants_distinct(state: StoreState, solve_id: i64)
    requires
        state.wf(),
    ensures
        forall|a: int, b: int|
            #![trigger state.participants_of(solve_id)[a], state.participants_of(solve_id)[b]]
            0 <= a < b < state.participants_of(solve_id).len()
                ==> state.participants_of(solve_id)[a] != state.participants_of(solve_id)[b],
{
    broadcast use vstd::seq_lib::group_filter_ensures;

    let p = |us: UserSolve| us.solve_id == solve_id;
    let filtered = state.user_solves.filter(p);
    lemma_filter_distinct_rows(state.user_solves, p);
    let parts = state.participants_of(solve_id);
    assert forall|a: int, b: int|
        #![trigger parts[a], parts[b]]
        0 <= a < b < parts.len() implies parts[a] != parts[b] by {
        if parts[a] == parts[b] {
            assert(filtered[a].user_id == filtered[b].user_id);
            assert(p(filtered[a]) && p(filtered[b]));
            assert(filtered[a] == filtered[b]);
        }
    }
}

/// Filtering a sequence of pairwise-distinct elements keeps them pairwise
/// distinct.
proof fn lemma_filter_distinct_rows(rows: Seq<UserSolve>, p: spec_fn(UserSolve) -> bool)
    requires
        forall|i: int, j: int|
            #![trigger rows[i], rows[j]]
            0 <= i < j < rows.len() ==> rows[i] != rows[j],
    ensures
        forall|i: int, j: int|
            #![trigger rows.filter(p)[i], rows.filter(p)[j]]
            0 <= i < j < rows.filter(p).len() ==> rows.filter(p)[i] != rows.filter(p)[j],
    decreases rows.len(),
{
    broadcast use vstd::seq_lib::group_filter_ensures;
    broadcast use Seq::<_>::lemma_filter_push;

    if rows.len() > 0 {
        assert forall|i: int, j: int|
            #![trigger rows.drop_last()[i], rows.drop_last()[j]]
            0 <= i < j < rows.drop_last().len() implies rows.drop_last()[i]
            != rows.drop_last()[j] by {
            assert(rows[i] != rows[j]);
        }
        lemma_filter_distinct_rows(rows.drop_last(), p);
        assert(rows.drop_last().push(rows.last()) =~= rows);
        let f0 = rows.drop_last().filter(p);
        let f = rows.filter(p);
        if p(rows.last()) {
            assert(f == f0.push(rows.last()));
            assert forall|i: int, j: int|
                #![trigger f[i], f[j]]
                0 <= i < j < f.len() implies f[i] != f[j] by {
                if j == f.len() - 1 {
                    // the last element is a row absent from the prefix
                    if f[i] == rows.last() {
                        assert(rows.drop_last().filter(p).contains(f0[i]));
                        lemma_filter_element_of(rows.drop_last(), p, i);
                        let k = choose|k: int|
                            0 <= k < rows.drop_last().len() && rows.drop_last()[k] == f0[i];
                        assert(rows[k] == rows[rows.len() - 1]);
                    }
                } else {
                    assert(f0[i] != f0[j]);
                }
            }
        } else {
            assert(f == f0);
        }
    }
}

/// Every element a filter keeps stands somewhere in the source sequence.
proof fn lemma_filter_element_of(rows: Seq<UserSolve>, p: spec_fn(UserSolve) -> bool, i: int)
    requires
        0 <= i < rows.filter(p).len(),
    ensures
        exists|k: int| 0 <= k < rows.len() && rows[k] == rows.filter(p)[i],
    decreases rows.len(),
{
    broadcast use vstd::seq_lib::group_filter_ensures;
    broadcast use Seq::<_>::lemma_filter_push;

    if rows.len() > 0 {
        assert(rows.drop_last().push(rows.last()) =~= rows);
        let f0 = rows.drop_last().filter(p);
        if p(rows.last()) && i == rows.filter(p).len() - 1 {
            assert(rows[rows.len() - 1] == rows.filter(p)[i]);
        } else {
            lemma_filter_element_of(rows.drop_last(), p, i);
            let k = choose|k: int|
                0 <= k < rows.drop_last().len() && rows.drop_last()[k] == f0[i];
            assert(rows[k] == rows.filter(p)[i]);
        }
    }
}

} // verus!
