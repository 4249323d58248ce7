//! The store: atomic mutations, lookups, the ledger and the leaderboard.

use ctf_points::challenge::{Challenge, ChallengeRaw, ChallengeType};
use ctf_points::competition::{Competition, CompetitionRaw};
use ctf_points::error::Error;
use ctf_points::rank::Rank;
use ctf_points::solve::{ApprovalStatus, Solve, SolveRaw};
use ctf_points::store::Store;
use ctf_points::user::{User, UserRaw};

fn competition(channel_id: u64) -> Competition {
    Competition { channel_id, name: format!("ctf-{channel_id}"), bingo: 0 }
}

#[test]
fn create_competition_rejects_duplicates() {
    let mut store = Store::new();
    assert!(store.create_competition(competition(10)).is_ok());
    assert_eq!(store.create_competition(competition(10)), Err(Error::ConstraintViolation));
    assert!(store.create_competition(competition(11)).is_ok());
    assert_eq!(store.get_competition(10).unwrap().name, "ctf-10");
    assert_eq!(store.get_competition(12), Err(Error::NotFound));
}

#[test]
fn update_competition_overwrites_in_place() {
    let mut store = Store::new();
    store.create_competition(competition(10)).unwrap();
    let mut edited = competition(10);
    edited.name = String::from("renamed");
    edited.bingo = 3;
    store.update_competition(edited).unwrap();
    let got = store.get_competition(10).unwrap();
    assert_eq!(got.name, "renamed");
    assert_eq!(got.bingo, 3);
    // Updating an unknown competition is a silent no-op.
    store.update_competition(competition(99)).unwrap();
    assert_eq!(store.get_competition(99), Err(Error::NotFound));
}

#[test]
fn create_challenge_requires_competition() {
    let mut store = Store::new();
    let challenge = Challenge {
        id: 0,
        competition_id: 10,
        name: String::from("pwn-1"),
        category: ChallengeType::Pwn,
        channel_id: Some(77),
    };
    assert_eq!(store.create_challenge(challenge), Err(Error::ConstraintViolation));

    store.create_competition(competition(10)).unwrap();
    let challenge = Challenge {
        id: 0,
        competition_id: 10,
        name: String::from("pwn-1"),
        category: ChallengeType::Pwn,
        channel_id: Some(77),
    };
    let id = store.create_challenge(challenge).unwrap();
    assert_eq!(id, 1);
    let got = store.get_challenge_by_channel_id(77).unwrap();
    assert_eq!(got.id, 1);
    assert_eq!(got.category, ChallengeType::Pwn);
    assert!(store.get_challenge_by_channel_id(78).is_err());
}

#[test]
fn give_user_points_creates_lazily_and_snapshots() {
    let mut store = Store::new();
    let first = store.give_user_points(42, 30).unwrap();
    assert_eq!(first.user_id, 42);
    assert_eq!(first.old_points, 0);
    assert_eq!(first.new_points, 30);
    assert_eq!(first.old_rank, Rank::Unranked);

    let second = store.give_user_points(42, -10).unwrap();
    assert_eq!(second.old_points, 30);
    assert_eq!(second.new_points, 20);
    assert_eq!(store.get_user_by_id(42).unwrap().points, 20);
}

#[test]
fn give_user_points_fails_whole_on_overflow() {
    let mut store = Store::new();
    store.give_user_points(1, i64::MAX - 5).unwrap();
    assert_eq!(store.give_user_points(1, 10), Err(Error::StorageFailure));
    assert_eq!(store.get_user_by_id(1).unwrap().points, i64::MAX - 5);
}

#[test]
fn credit_users_is_all_or_nothing() {
    let mut store = Store::new();
    store.give_user_points(2, i64::MAX - 5).unwrap();

    // One member of the batch would overflow: nobody is credited.
    assert_eq!(store.credit_users(&vec![1, 2, 3], 10), Err(Error::StorageFailure));
    assert_eq!(store.get_user_by_id(1), Err(Error::NotFound));
    assert_eq!(store.get_user_by_id(2).unwrap().points, i64::MAX - 5);

    // A duplicate participant is rejected before any write.
    assert_eq!(store.credit_users(&vec![1, 1], 10), Err(Error::ConstraintViolation));
    assert_eq!(store.get_user_by_id(1), Err(Error::NotFound));
}

#[test]
fn credit_users_sum_of_deltas_is_amount_times_count() {
    let mut store = Store::new();
    store.give_user_points(5, 40).unwrap();
    let updates = store.credit_users(&vec![4, 5, 6, 7], 25).unwrap();
    assert_eq!(updates.len(), 4);
    let total: i64 = updates.iter().map(|u| u.new_points - u.old_points).sum();
    assert_eq!(total, 25 * 4);
    assert_eq!(store.get_user_by_id(5).unwrap().points, 65);
    assert_eq!(store.get_user_by_id(6).unwrap().points, 25);
}

#[test]
fn leaderboard_orders_by_points_then_id() {
    let mut store = Store::new();
    store.give_user_points(3, 100).unwrap();
    store.give_user_points(1, 250).unwrap();
    store.give_user_points(2, 100).unwrap();
    store.give_user_points(4, 50).unwrap();

    let top = store.get_users_by_points(3);
    let ids: Vec<u64> = top.iter().map(|u| u.id).collect();
    // Ties at 100 points break by ascending user id.
    assert_eq!(ids, vec![1, 2, 3]);
    assert_eq!(top[0].points, 250);

    let all = store.get_users_by_points(10);
    assert_eq!(all.len(), 4);
    assert_eq!(all[3].id, 4);
}

#[test]
fn verify_user_sets_email_and_finds_by_it() {
    let mut store = Store::new();
    store.verify_user(9, "solver@example.edu").unwrap();
    let user = store.get_user_by_id(9).unwrap();
    assert!(user.is_verified());
    assert_eq!(user.points, 0);
    let by_email = store.get_user_by_email(&String::from("solver@example.edu")).unwrap();
    assert_eq!(by_email.id, 9);
    assert!(store.get_user_by_email(&String::from("other@example.edu")).is_err());

    // Verifying an existing user keeps the balance.
    store.give_user_points(9, 70).unwrap();
    store.verify_user(9, "late@example.edu").unwrap();
    assert_eq!(store.get_user_by_id(9).unwrap().points, 70);
}

#[test]
fn set_rank_caches_rank() {
    let mut store = Store::new();
    store.give_user_points(9, 10).unwrap();
    store.set_rank(9, Rank::Rank(2)).unwrap();
    assert_eq!(store.get_user_by_id(9).unwrap().rank, Rank::Rank(2));
    // Unknown users are left alone.
    store.set_rank(8, Rank::Rank(1)).unwrap();
    assert_eq!(store.get_user_by_id(8), Err(Error::NotFound));
}

#[test]
fn create_solve_deduplicates_participants() {
    let mut store = Store::new();
    let solve = Solve {
        id: 0,
        challenge_id: 1,
        approval_message_id: 500,
        flag: String::from("flag{x}"),
        approval_status: ApprovalStatus::Pending,
    };
    let id = store.create_solve(solve, &vec![7, 8, 7, 9, 8]).unwrap();
    assert_eq!(id, 1);
    let got = store.get_solve_by_approval_message_id(500).unwrap();
    assert_eq!(got.approval_status, ApprovalStatus::Pending);
    assert_eq!(got.flag, "flag{x}");

    // Each distinct participant was lazily created once.
    assert_eq!(store.get_user_by_id(7).unwrap().points, 0);
    assert_eq!(store.get_user_by_id(8).unwrap().points, 0);
    assert_eq!(store.get_user_by_id(9).unwrap().points, 0);

    // Crediting the solve pays each distinct participant once.
    let updates = store.give_points_for_solve(id, 100).unwrap();
    assert_eq!(updates.len(), 3);
    assert_eq!(store.get_user_by_id(7).unwrap().points, 100);
    assert_eq!(store.get_user_by_id(8).unwrap().points, 100);
}

#[test]
fn give_points_for_solve_without_rows_credits_nobody() {
    let mut store = Store::new();
    let updates = store.give_points_for_solve(99, 100).unwrap();
    assert!(updates.is_empty());
}

#[test]
fn solved_challenges_lists_approved_solves_only() {
    let mut store = Store::new();
    store.create_competition(competition(10)).unwrap();
    let ch = Challenge {
        id: 0,
        competition_id: 10,
        name: String::from("web-1"),
        category: ChallengeType::Web,
        channel_id: None,
    };
    let ch_id = store.create_challenge(ch).unwrap();

    let solve = Solve {
        id: 0,
        challenge_id: ch_id,
        approval_message_id: 600,
        flag: String::from("f"),
        approval_status: ApprovalStatus::Pending,
    };
    let solve_id = store.create_solve(solve, &vec![7]).unwrap();
    assert!(store.get_solved_challenges_for_user(7).is_empty());

    let mut decided = store.get_solve_by_approval_message_id(600).unwrap();
    decided.approval_status = ApprovalStatus::Approved;
    store.update_solve(decided).unwrap();

    let solved = store.get_solved_challenges_for_user(7);
    assert_eq!(solved.len(), 1);
    assert_eq!(solved[0].id, solve_id);
    assert_eq!(solved[0].name, "web-1");
    assert!(store.get_solved_challenges_for_user(8).is_empty());
}

#[test]
fn raw_round_trips_and_corrupt_records() {
    let user = User::from_raw(UserRaw { id: 1, email: None, points: 55, rank: Some(2) }).unwrap();
    assert_eq!(user.rank, Rank::Rank(2));
    let raw = user.to_raw();
    assert_eq!(raw.rank, Some(2));
    assert_eq!(
        User::from_raw(UserRaw { id: 1, email: None, points: 0, rank: Some(-3) }),
        Err(Error::CorruptRecord)
    );

    let ch = Challenge {
        id: 4,
        competition_id: 10,
        name: String::from("c"),
        category: ChallengeType::Osint,
        channel_id: None,
    };
    let raw = ch.to_raw();
    assert_eq!(raw.category, 5);
    let back = Challenge::from_raw(raw).unwrap();
    assert_eq!(back.category, ChallengeType::Osint);
    assert_eq!(
        Challenge::from_raw(ChallengeRaw {
            id: 1,
            competition_id: 1,
            name: String::new(),
            category: 10,
            channel_id: None,
        }),
        Err(Error::CorruptRecord)
    );

    let sv = Solve {
        id: 2,
        challenge_id: 4,
        approval_message_id: 700,
        flag: String::from("f"),
        approval_status: ApprovalStatus::Declined,
    };
    let raw = sv.to_raw();
    assert_eq!(raw.approval_status, 2);
    let back = Solve::from_raw(raw).unwrap();
    assert_eq!(back.approval_status, ApprovalStatus::Declined);
    assert_eq!(
        Solve::from_raw(SolveRaw {
            id: 1,
            challenge_id: 1,
            approval_message_id: 1,
            flag: String::new(),
            approval_status: 9,
        }),
        Err(Error::CorruptRecord)
    );

    let comp = Competition::from_raw(CompetitionRaw {
        channel_id: 3,
        name: String::from("n"),
        bingo: 5,
    })
    .unwrap();
    assert_eq!(comp.bingo, 5);
    assert_eq!(
        Competition::from_raw(CompetitionRaw {
            channel_id: 3,
            name: String::from("n"),
            bingo: -1,
        }),
        Err(Error::CorruptRecord)
    );
    assert_eq!(
        Competition::from_raw(CompetitionRaw {
            channel_id: 3,
            name: String::from("n"),
            bingo: 1 << 25,
        }),
        Err(Error::CorruptRecord)
    );
}

#[test]
fn status_and_category_reprs_are_exhaustive() {
    assert_eq!(ApprovalStatus::from_repr(0), Some(ApprovalStatus::Pending));
    assert_eq!(ApprovalStatus::from_repr(1), Some(ApprovalStatus::Approved));
    assert_eq!(ApprovalStatus::from_repr(2), Some(ApprovalStatus::Declined));
    assert_eq!(ApprovalStatus::from_repr(3), None);
    for v in 0..10i64 {
        let t = ChallengeType::from_repr(v).unwrap();
        assert_eq!(t.repr(), v);
        assert!(!t.name().is_empty());
    }
    assert_eq!(ChallengeType::from_repr(-1), None);
    assert_eq!(ChallengeType::Pyjail.name(), "pyjail");
}

#[test]
fn leaderboard_on_empty_store_is_empty() {
    let store = Store::new();
    assert!(store.get_users_by_points(5).is_empty());
    store.get_users_by_points(0);
}

#[test]
fn identity_exhaustion_fails_without_effect() {
    let mut store = Store::new();
    store.next_challenge_id = i64::MAX;
    store.next_solve_id = i64::MAX;
    store.create_competition(competition(10)).unwrap();

    let ch = Challenge {
        id: 0,
        competition_id: 10,
        name: String::from("last"),
        category: ChallengeType::Misc,
        channel_id: None,
    };
    assert_eq!(store.create_challenge(ch), Err(Error::StorageFailure));

    let solve = Solve {
        id: 0,
        challenge_id: 1,
        approval_message_id: 900,
        flag: String::from("f"),
        approval_status: ApprovalStatus::Pending,
    };
    assert_eq!(store.create_solve(solve, &vec![1]), Err(Error::StorageFailure));
    // Nothing was recorded and no user was created.
    assert!(store.get_solve_by_approval_message_id(900).is_err());
    assert_eq!(store.get_user_by_id(1), Err(Error::NotFound));
}
