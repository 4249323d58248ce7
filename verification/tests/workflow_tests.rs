//! The approval workflow: submission, approve/decline decisions,
//! idempotent re-entrance, point distribution and rank transitions.

use ctf_points::challenge::{Challenge, ChallengeType};
use ctf_points::competition::Competition;
use ctf_points::config::{Config, MailgunConfig, RankConfig, ServerConfig};
use ctf_points::error::Error;
use ctf_points::points::give_points;
use ctf_points::rank::Rank;
use ctf_points::solve::ApprovalStatus;
use ctf_points::store::Store;
use ctf_points::workflow::{decide_solve, submit_solve, DecideOutcome, DecisionOutcome};

fn test_config(points_per_solve: i64, rank_names: Vec<&str>) -> Config {
    Config {
        mailgun: MailgunConfig {
            api_base_url: String::from("https://mail.example"),
            email_address: String::from("bot@example.edu"),
        },
        server: ServerConfig {
            guild_id: 1,
            ctf_category_id: 2,
            archived_ctf_category_id: 3,
            solve_approvals_channel_id: 4,
            bot_log_channel: 5,
            rank_up_channel: 6,
            officer_role: String::from("officer"),
            member_role: String::from("members"),
            welcome_message: String::from("welcome"),
            join_dm_message: String::from("hello"),
        },
        ranks: RankConfig {
            points_per_solve,
            points_per_message: 1,
            rank_names: rank_names.into_iter().map(String::from).collect(),
        },
    }
}

fn store_with_challenge() -> (Store, i64) {
    let mut store = Store::new();
    store
        .create_competition(Competition {
            channel_id: 10,
            name: String::from("ctf"),
            bingo: 0,
        })
        .unwrap();
    let id = store
        .create_challenge(Challenge {
            id: 0,
            competition_id: 10,
            name: String::from("pwn-1"),
            category: ChallengeType::Pwn,
            channel_id: Some(77),
        })
        .unwrap();
    (store, id)
}

#[test]
fn approve_credits_every_participant_once() {
    let config = test_config(100, vec!["a", "b", "c"]);
    let (mut store, challenge_id) = store_with_challenge();

    let solve_id =
        submit_solve(&mut store, challenge_id, 500, String::from("flag{x}"), &vec![7, 8, 9])
            .unwrap();
    assert_eq!(solve_id, 1);
    assert_eq!(
        store.get_solve_by_approval_message_id(500).unwrap().approval_status,
        ApprovalStatus::Pending
    );

    let outcome = decide_solve(&mut store, &config, 500, DecisionOutcome::Approve).unwrap();
    match outcome {
        DecideOutcome::Decided { status, updates, .. } => {
            assert_eq!(status, ApprovalStatus::Approved);
            assert_eq!(updates.len(), 3);
            for u in &updates {
                assert_eq!(u.new_points - u.old_points, 100);
            }
        },
        DecideOutcome::AlreadyDecided(_) => panic!("first decision must decide"),
    }
    assert_eq!(store.get_user_by_id(7).unwrap().points, 100);
    assert_eq!(store.get_user_by_id(8).unwrap().points, 100);
    assert_eq!(store.get_user_by_id(9).unwrap().points, 100);
    assert_eq!(
        store.get_solve_by_approval_message_id(500).unwrap().approval_status,
        ApprovalStatus::Approved
    );

    // A second approval is a no-op that reports the terminal status.
    let again = decide_solve(&mut store, &config, 500, DecisionOutcome::Approve).unwrap();
    match again {
        DecideOutcome::AlreadyDecided(st) => assert_eq!(st, ApprovalStatus::Approved),
        DecideOutcome::Decided { .. } => panic!("re-entrance must not decide again"),
    }
    assert_eq!(store.get_user_by_id(7).unwrap().points, 100);
}

#[test]
fn decline_leaves_balances_and_blocks_later_approval() {
    let config = test_config(100, vec!["a", "b", "c"]);
    let (mut store, challenge_id) = store_with_challenge();
    submit_solve(&mut store, challenge_id, 500, String::from("flag{x}"), &vec![7, 8]).unwrap();

    let outcome = decide_solve(&mut store, &config, 500, DecisionOutcome::Decline).unwrap();
    match outcome {
        DecideOutcome::Decided { status, updates, transitions } => {
            assert_eq!(status, ApprovalStatus::Declined);
            assert!(updates.is_empty());
            assert!(transitions.is_empty());
        },
        DecideOutcome::AlreadyDecided(_) => panic!("first decision must decide"),
    }
    assert_eq!(store.get_user_by_id(7).unwrap().points, 0);
    assert_eq!(
        store.get_solve_by_approval_message_id(500).unwrap().approval_status,
        ApprovalStatus::Declined
    );

    // A later approval attempt reports the declined status and pays nobody.
    let again = decide_solve(&mut store, &config, 500, DecisionOutcome::Approve).unwrap();
    match again {
        DecideOutcome::AlreadyDecided(st) => assert_eq!(st, ApprovalStatus::Declined),
        DecideOutcome::Decided { .. } => panic!("a declined solve must stay declined"),
    }
    assert_eq!(store.get_user_by_id(7).unwrap().points, 0);
    assert_eq!(store.get_user_by_id(8).unwrap().points, 0);
}

#[test]
fn decide_unknown_message_is_not_found() {
    let config = test_config(100, vec!["a"]);
    let mut store = Store::new();
    assert_eq!(
        decide_solve(&mut store, &config, 12345, DecisionOutcome::Approve).err(),
        Some(Error::NotFound)
    );
}

#[test]
fn failed_credit_keeps_solve_pending() {
    let config = test_config(100, vec!["a"]);
    let (mut store, challenge_id) = store_with_challenge();
    // One participant's balance would overflow on the award.
    store.give_user_points(7, i64::MAX - 5).unwrap();
    submit_solve(&mut store, challenge_id, 500, String::from("f"), &vec![7, 8]).unwrap();

    assert_eq!(
        decide_solve(&mut store, &config, 500, DecisionOutcome::Approve).err(),
        Some(Error::StorageFailure)
    );
    // The whole decision rolled back: still pending, nobody paid.
    assert_eq!(
        store.get_solve_by_approval_message_id(500).unwrap().approval_status,
        ApprovalStatus::Pending
    );
    assert_eq!(store.get_user_by_id(7).unwrap().points, i64::MAX - 5);
    assert_eq!(store.get_user_by_id(8).unwrap().points, 0);

    // After the offending balance is corrected the decision can be retried.
    store.give_user_points(7, -1000).unwrap();
    let retried = decide_solve(&mut store, &config, 500, DecisionOutcome::Approve).unwrap();
    match retried {
        DecideOutcome::Decided { status, .. } => assert_eq!(status, ApprovalStatus::Approved),
        DecideOutcome::AlreadyDecided(_) => panic!("retry must decide"),
    }
    assert_eq!(store.get_user_by_id(8).unwrap().points, 100);
}

#[test]
fn approval_triggers_rank_transitions() {
    // Three ranks; the leader defines the ladder anchor. After the award
    // the sole participant is the leader, so they land on the top rank.
    let config = test_config(1000, vec!["bronze", "silver", "gold"]);
    let (mut store, challenge_id) = store_with_challenge();
    submit_solve(&mut store, challenge_id, 500, String::from("f"), &vec![7]).unwrap();

    let outcome = decide_solve(&mut store, &config, 500, DecisionOutcome::Approve).unwrap();
    match outcome {
        DecideOutcome::Decided { transitions, .. } => {
            assert_eq!(transitions.len(), 1);
            assert_eq!(transitions[0].user_id, 7);
            assert_eq!(transitions[0].old_rank, Rank::Unranked);
            assert_eq!(transitions[0].new_rank, Rank::Rank(2));
        },
        DecideOutcome::AlreadyDecided(_) => panic!("first decision must decide"),
    }
    // The new rank is cached on the user.
    assert_eq!(store.get_user_by_id(7).unwrap().rank, Rank::Rank(2));

    // The rank name of the new rank resolves against the configuration.
    let name = Rank::Rank(2);
    assert_eq!(name.rank_name(&config.ranks).unwrap(), "gold");
    assert!(Rank::Unranked.rank_name(&config.ranks).is_none());
}

#[test]
fn message_points_rank_up_exactly_at_cutoff() {
    let config = test_config(100, vec!["bronze", "silver"]);
    let mut store = Store::new();
    // The leader anchors the ladder at 1000: cutoffs are [750, 1000].
    store.give_user_points(1, 1000).unwrap();

    let t = give_points(&mut store, &config, 2, 750).unwrap();
    let t = t.expect("crossing the lowest cutoff must rank up");
    assert_eq!(t.user_id, 2);
    assert_eq!(t.old_rank, Rank::Unranked);
    assert_eq!(t.new_rank, Rank::Rank(0));
    assert_eq!(store.get_user_by_id(2).unwrap().rank, Rank::Rank(0));

    // One more point changes nothing rank-wise.
    let t2 = give_points(&mut store, &config, 2, 1).unwrap();
    assert!(t2.is_none());
}

#[test]
fn rank_count_is_the_number_of_names() {
    let config = test_config(100, vec!["a", "b", "c"]);
    assert_eq!(config.ranks.rank_count(), 3);
}
