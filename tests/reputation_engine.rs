use reputation_governance::reputation::{
    AlgorithmParams, ContributionStatus, ContributionType, DataSource, Error, Event,
    RepChangeReason, ReputationConfig, ReputationState, TypeWeights,
};
use reputation_governance::types::Hash256;

fn config() -> ReputationConfig {
    ReputationConfig {
        max_contributions_per_account: 100,
        min_reputation: 0,
        max_reputation: 1000,
        min_reputation_to_verify: 10,
        min_verifications: 1,
        max_pending_contributions: 10,
    }
}

fn h(v: u64) -> Hash256 {
    Hash256::from_low_u64_be(v)
}

fn add(
    s: &mut ReputationState,
    who: u64,
    now: u64,
    proof: u64,
    t: ContributionType,
    weight: u8,
) -> Result<u64, Error> {
    s.add_contribution(who, now, h(proof), t, weight, DataSource::GitHub)
        .map(|(id, _)| id)
}

#[test]
fn test_complete_reputation_lifecycle() {
    let mut s = ReputationState::with_genesis_scores(config(), vec![(2, 50)]);
    let contributor: u64 = 1;
    let verifier: u64 = 2;
    let id = add(&mut s, contributor, 1, 12345, ContributionType::CodeCommit, 10).unwrap();
    assert!(s
        .verify_contribution(verifier, contributor, id, 90, b"Excellent work!".to_vec())
        .is_ok());
    let reputation = s.get_reputation(contributor);
    assert!(reputation > 0, "Reputation should be positive");
}

#[test]
fn test_add_contribution() {
    let mut s = ReputationState::new(config());
    let account: u64 = 1;
    assert!(add(&mut s, account, 1, 12345, ContributionType::IssueComment, 5).is_ok());
    assert_eq!(
        add(&mut s, account, 1, 12345, ContributionType::IssueComment, 5),
        Err(Error::ContributionAlreadySubmitted)
    );
}

#[test]
fn test_reputation_score_update() {
    let mut s = ReputationState::with_genesis_scores(config(), vec![(3, 50)]);
    let account: u64 = 2;
    let verifier: u64 = 3;
    for i in 0..3u64 {
        let id = add(&mut s, account, 1, 1000 + i, ContributionType::PullRequest, 10).unwrap();
        assert!(s.verify_contribution(verifier, account, id, 90, vec![]).is_ok());
    }
    let score = s.get_reputation(account);
    assert!(score >= 0);
    assert!(score <= 3 * 10);
    // 20 base points, boosted 1.5x to 30, at weight 10 give 3 each.
    assert_eq!(score, 9);
}

#[test]
fn test_sybil_resistance_mechanisms() {
    // All fifteen attempts fall in one block: after six recent contributions the
    // burst heuristic rejects every further one.
    let mut s = ReputationState::new(config());
    let attacker: u64 = 999;
    for i in 0..15u64 {
        let result = add(&mut s, attacker, 1, 5000 + i, ContributionType::CodeCommit, 10);
        if i < 6 {
            assert!(result.is_ok());
        } else {
            assert_eq!(result, Err(Error::SybilAttackDetected));
        }
    }
    assert_eq!(s.contributions.len(), 6);
}

#[test]
fn pending_limit_stops_spaced_submissions() {
    // One submission every two blocks stays under the burst heuristic, so the
    // pending limit of ten is what stops the eleventh.
    let mut s = ReputationState::new(config());
    let attacker: u64 = 999;
    for i in 0..15u64 {
        let result = add(&mut s, attacker, 2 * i, 5000 + i, ContributionType::CodeCommit, 10);
        if i < 10 {
            assert!(result.is_ok());
        } else {
            assert_eq!(result, Err(Error::RateLimited));
        }
    }
}

#[test]
fn burst_of_submissions_is_rejected() {
    let mut s = ReputationState::new(config());
    for i in 0..6u64 {
        assert!(add(&mut s, 7, 1, 100 + i, ContributionType::CodeCommit, 10).is_ok());
    }
    let before = s.contributions.len();
    assert_eq!(
        add(&mut s, 7, 1, 200, ContributionType::CodeCommit, 10),
        Err(Error::SybilAttackDetected)
    );
    assert_eq!(s.contributions.len(), before);
    // Ten blocks later the window is clear again.
    assert!(add(&mut s, 7, 11, 201, ContributionType::CodeCommit, 10).is_ok());
}

#[test]
fn test_max_contributions_limit() {
    // A hundred submissions in one block: the burst heuristic stops all but six.
    let mut s = ReputationState::new(config());
    let account: u64 = 3;
    for i in 0..100u64 {
        let result = add(&mut s, account, 1, 2000 + i, ContributionType::IssueComment, 5);
        if i < 6 {
            assert!(result.is_ok());
        } else {
            assert_eq!(result, Err(Error::SybilAttackDetected));
        }
    }
}

#[test]
fn account_cap_ends_long_run() {
    // Each contribution is verified at once and they are spaced out, so neither the
    // pending limit nor the burst heuristic binds and the per-account cap ends the run.
    let mut s = ReputationState::with_genesis_scores(config(), vec![(4, 50)]);
    let account: u64 = 3;
    let verifier: u64 = 4;
    for i in 0..100u64 {
        let result = add(&mut s, account, 2 * i, 2000 + i, ContributionType::IssueComment, 5);
        assert!(result.is_ok());
        assert!(s.verify_contribution(verifier, account, result.unwrap(), 80, vec![]).is_ok());
    }
    assert_eq!(
        add(&mut s, account, 200, 2100, ContributionType::IssueComment, 5),
        Err(Error::MaxContributionsExceeded)
    );
}

#[test]
fn test_reputation_bounds() {
    let s = ReputationState::new(config());
    let score = s.get_reputation(1);
    assert!(score >= 0);
    assert!(score <= 1000);
}

#[test]
fn test_different_contribution_types() {
    let mut s = ReputationState::with_genesis_scores(config(), vec![(2, 50)]);
    let account: u64 = 1;
    let verifier: u64 = 2;
    let types = vec![
        ContributionType::IssueComment,
        ContributionType::PullRequest,
        ContributionType::CodeReview,
        ContributionType::CodeCommit,
    ];
    for (i, t) in types.iter().enumerate() {
        let id = add(&mut s, account, 1, 4000 + i as u64, *t, 10).unwrap();
        assert!(s.verify_contribution(verifier, account, id, 90, vec![]).is_ok());
    }
    let score = s.get_reputation(account);
    assert!(score > 0);
    // 0 + 3 + 2 + 1
    assert_eq!(score, 6);
}

#[test]
fn test_verification_requires_reputation() {
    let mut s = ReputationState::with_genesis_scores(config(), vec![(2, 5)]);
    let contributor: u64 = 1;
    let low: u64 = 2;
    let id = add(&mut s, contributor, 1, 6000, ContributionType::PullRequest, 10).unwrap();
    assert_eq!(
        s.verify_contribution(low, contributor, id, 90, vec![]),
        Err(Error::InsufficientReputationToVerify)
    );
}

#[test]
fn test_verification_score_validation() {
    let mut s = ReputationState::with_genesis_scores(config(), vec![(2, 50)]);
    let contributor: u64 = 1;
    let verifier: u64 = 2;
    let id = add(&mut s, contributor, 1, 7000, ContributionType::PullRequest, 10).unwrap();
    assert_eq!(
        s.verify_contribution(verifier, contributor, id, 101, vec![]),
        Err(Error::InvalidVerificationScore)
    );
}

#[test]
fn test_multiple_verifications() {
    let mut s = ReputationState::with_genesis_scores(config(), vec![(2, 50), (3, 50), (4, 50)]);
    let contributor: u64 = 1;
    let id = add(&mut s, contributor, 1, 8000, ContributionType::PullRequest, 10).unwrap();
    assert!(s.verify_contribution(2, contributor, id, 90, vec![]).is_ok());
    let c = s.contributions[(id - 1) as usize];
    assert!(c.verified);
    assert_eq!(c.verification_count, 1);
    // Once verified, later verifications are refused and change nothing.
    assert_eq!(
        s.verify_contribution(3, contributor, id, 85, vec![]),
        Err(Error::ContributionAlreadyVerified)
    );
    assert_eq!(
        s.verify_contribution(4, contributor, id, 95, vec![]),
        Err(Error::ContributionAlreadyVerified)
    );
    assert_eq!(s.contributions[(id - 1) as usize].verification_count, 1);
}

#[test]
fn test_different_data_sources() {
    let mut s = ReputationState::with_genesis_scores(config(), vec![(2, 50)]);
    let sources = vec![
        DataSource::GitHub,
        DataSource::GitLab,
        DataSource::Bitbucket,
        DataSource::Manual,
    ];
    for (i, source) in sources.iter().enumerate() {
        let (id, _) = s
            .add_contribution(1, 1, h(9000 + i as u64), ContributionType::CodeCommit, 10, *source)
            .unwrap();
        assert_eq!(s.contributions[(id - 1) as usize].source, *source);
    }
}

#[test]
fn duplicate_proof_changes_nothing() {
    let mut s = ReputationState::new(config());
    assert!(add(&mut s, 1, 1, 42, ContributionType::PullRequest, 50).is_ok());
    let snapshot = s.contributions.clone();
    // Another submitter, type and weight: still a duplicate.
    assert_eq!(
        add(&mut s, 2, 5, 42, ContributionType::BugReport, 7),
        Err(Error::ContributionAlreadySubmitted)
    );
    assert_eq!(s.contributions, snapshot);
}

#[test]
fn submission_input_errors() {
    let mut s = ReputationState::new(config());
    assert_eq!(
        s.add_contribution(1, 1, Hash256::zero(), ContributionType::PullRequest, 10, DataSource::Manual)
            .map(|(id, _)| id),
        Err(Error::InvalidProof)
    );
    assert_eq!(add(&mut s, 1, 1, 1, ContributionType::PullRequest, 0), Err(Error::InvalidContributionWeight));
    assert_eq!(add(&mut s, 1, 1, 1, ContributionType::PullRequest, 101), Err(Error::InvalidContributionWeight));
    let (id, events) = s
        .add_contribution(1, 3, h(1), ContributionType::PullRequest, 100, DataSource::GitLab)
        .unwrap();
    assert_eq!(id, 1);
    assert_eq!(
        events,
        vec![Event::ContributionSubmitted {
            contributor: 1,
            contribution_id: 1,
            proof_hash: h(1),
            contribution_type: ContributionType::PullRequest,
            source: DataSource::GitLab,
        }]
    );
    assert_eq!(s.contributions[0].status, ContributionStatus::Pending);
    assert_eq!(s.contributions[0].timestamp, 3);
}

#[test]
fn verification_checks() {
    let mut s = ReputationState::with_genesis_scores(config(), vec![(2, 50), (1, 999)]);
    let id = add(&mut s, 1, 1, 1, ContributionType::PullRequest, 10).unwrap();
    assert_eq!(
        s.verify_contribution(1, 1, id, 50, vec![]),
        Err(Error::SelfVerificationNotAllowed)
    );
    assert_eq!(s.verify_contribution(2, 1, 99, 50, vec![]), Err(Error::ContributionNotFound));
    assert_eq!(s.verify_contribution(2, 3, id, 50, vec![]), Err(Error::ContributionNotFound));
}

#[test]
fn threshold_of_two_verifications() {
    let mut cfg = config();
    cfg.min_verifications = 2;
    let mut s = ReputationState::with_genesis_scores(cfg, vec![(2, 50), (3, 50)]);
    let id = add(&mut s, 1, 1, 1, ContributionType::PullRequest, 100).unwrap();
    let ev = s.verify_contribution(2, 1, id, 70, vec![]).unwrap();
    assert_eq!(ev.len(), 1);
    assert_eq!(s.contributions[0].status, ContributionStatus::Pending);
    assert_eq!(s.get_reputation(1), 0);
    assert_eq!(
        s.verify_contribution(2, 1, id, 70, vec![]),
        Err(Error::ContributionAlreadyVerified)
    );
    let ev = s.verify_contribution(3, 1, id, 70, vec![]).unwrap();
    assert_eq!(s.contributions[0].status, ContributionStatus::Verified);
    assert_eq!(s.contributions[0].verification_count, 2);
    assert_eq!(
        ev[0],
        Event::ReputationUpdated {
            account: 1,
            old_score: 0,
            new_score: 30,
            change_reason: RepChangeReason::VerificationReward,
        }
    );
}

fn pull_request_params() -> AlgorithmParams {
    AlgorithmParams {
        decay_rate_per_block: 0,
        verification_multiplier: 15_000,
        contribution_type_weights: TypeWeights {
            issue_comment: Some(5),
            pull_request: Some(20),
            code_review: Some(15),
            documentation: Some(12),
            bug_report: Some(8),
            code_commit: Some(10),
        },
    }
}

#[test]
fn pull_request_reward_is_thirty() {
    let mut s = ReputationState::with_genesis_scores(config(), vec![(2, 50)]);
    assert!(s.update_algorithm_params(true, pull_request_params()).is_ok());
    let id = add(&mut s, 1, 1, 1, ContributionType::PullRequest, 100).unwrap();
    let ev = s.verify_contribution(2, 1, id, 100, vec![]).unwrap();
    assert_eq!(s.get_reputation(1), 30);
    assert_eq!(
        ev[1],
        Event::ContributionVerified {
            contributor: 1,
            contribution_id: id,
            verifier: 2,
            score: 100,
            reputation_gained: 30,
        }
    );
}

#[test]
fn score_is_clamped_at_maximum() {
    let mut s = ReputationState::with_genesis_scores(config(), vec![(2, 50), (1, 990), (5, 5000), (6, -5)]);
    let id = add(&mut s, 1, 1, 1, ContributionType::PullRequest, 100).unwrap();
    assert!(s.verify_contribution(2, 1, id, 100, vec![]).is_ok());
    assert_eq!(s.get_reputation(1), 1000);
    assert_eq!(s.get_reputation(5), 1000);
    assert_eq!(s.get_reputation(6), 0);
}

#[test]
fn unmapped_type_earns_default_points() {
    let mut s = ReputationState::with_genesis_scores(config(), vec![(2, 50)]);
    let mut p = pull_request_params();
    p.contribution_type_weights.bug_report = None;
    assert!(s.update_algorithm_params(true, p).is_ok());
    let id = add(&mut s, 1, 1, 1, ContributionType::BugReport, 100).unwrap();
    assert!(s.verify_contribution(2, 1, id, 100, vec![]).is_ok());
    // 10 base points boosted 1.5x.
    assert_eq!(s.get_reputation(1), 15);
}

#[test]
fn parameter_updates_are_checked() {
    let mut s = ReputationState::new(config());
    assert_eq!(
        s.update_algorithm_params(false, pull_request_params()),
        Err(Error::RequiresGovernance)
    );
    let mut p = pull_request_params();
    p.decay_rate_per_block = 1001;
    assert_eq!(s.update_algorithm_params(true, p), Err(Error::InvalidAlgorithmParams));
    let mut p = pull_request_params();
    p.verification_multiplier = 9_999;
    assert_eq!(s.update_algorithm_params(true, p), Err(Error::InvalidAlgorithmParams));
    let mut p = pull_request_params();
    p.verification_multiplier = 50_001;
    assert_eq!(s.update_algorithm_params(true, p), Err(Error::InvalidAlgorithmParams));
    let mut p = pull_request_params();
    p.contribution_type_weights.code_review = Some(0);
    assert_eq!(s.update_algorithm_params(true, p), Err(Error::InvalidAlgorithmParams));
    let mut p = pull_request_params();
    p.contribution_type_weights.code_commit = Some(101);
    assert_eq!(ReputationState::validate_algorithm_params(&p), Err(Error::InvalidAlgorithmParams));
    assert_eq!(s.params, AlgorithmParams::default_params());
    let ev = s.update_algorithm_params(true, pull_request_params()).unwrap();
    assert_eq!(
        ev,
        vec![Event::AlgorithmParamsUpdated {
            old_params: AlgorithmParams::default_params(),
            new_params: pull_request_params(),
        }]
    );
}

#[test]
fn decay_recompute_replaces_score() {
    let mut s = ReputationState::with_genesis_scores(config(), vec![(2, 50)]);
    let id = add(&mut s, 1, 0, 1, ContributionType::PullRequest, 100).unwrap();
    assert!(s.verify_contribution(2, 1, id, 100, vec![]).is_ok());
    assert_eq!(s.get_reputation(1), 30);
    // Default decay 1 ppm per block: after 100_000 blocks, 100 thousandths are lost:
    // 20 * 900 / 1000 = 18.
    let ev = s.update_reputation_with_time_decay(1, 100_000);
    assert_eq!(s.get_reputation(1), 18);
    assert_eq!(
        ev,
        vec![Event::ReputationUpdated {
            account: 1,
            old_score: 30,
            new_score: 18,
            change_reason: RepChangeReason::TimeDecay,
        }]
    );
    // Recomputing again at the same height changes nothing.
    let ev = s.update_reputation_with_time_decay(1, 100_000);
    assert!(ev.is_empty());
    assert_eq!(s.get_reputation(1), 18);
    // Fully decayed.
    s.update_reputation_with_time_decay(1, 2_000_000);
    assert_eq!(s.get_reputation(1), 0);
}

#[test]
fn percentile_bands() {
    let s = ReputationState::with_genesis_scores(config(), vec![(1, 950), (2, 750), (3, 600), (4, 250)]);
    assert_eq!(s.get_percentile(1), 99);
    assert_eq!(s.get_percentile(2), 90);
    assert_eq!(s.get_percentile(3), 75);
    assert_eq!(s.get_percentile(4), 50);
    assert_eq!(s.get_percentile(5), 25);
}

#[test]
fn batch_submission_is_all_or_nothing() {
    let mut s = ReputationState::new(config());
    let items = vec![
        (h(1), ContributionType::PullRequest, 10, DataSource::GitHub),
        (h(2), ContributionType::CodeReview, 20, DataSource::GitLab),
    ];
    let ev = s.batch_add_contributions(1, 1, items).unwrap();
    assert_eq!(ev.len(), 2);
    assert_eq!(s.contributions.len(), 2);
    assert_eq!(s.next_contribution_id(), 3);
    let items = vec![
        (h(3), ContributionType::PullRequest, 10, DataSource::GitHub),
        (h(1), ContributionType::CodeReview, 20, DataSource::GitLab),
    ];
    assert_eq!(
        s.batch_add_contributions(1, 1, items),
        Err(Error::ContributionAlreadySubmitted)
    );
    assert_eq!(s.contributions.len(), 2);
    let many: Vec<_> = (10..21u64)
        .map(|i| (h(i), ContributionType::PullRequest, 10, DataSource::GitHub))
        .collect();
    assert_eq!(s.batch_add_contributions(1, 1, many), Err(Error::InvalidAlgorithmParams));
}

#[test]
fn batch_verification_is_all_or_nothing() {
    let mut s = ReputationState::with_genesis_scores(config(), vec![(9, 50)]);
    let a = add(&mut s, 1, 1, 1, ContributionType::PullRequest, 100).unwrap();
    let b = add(&mut s, 2, 1, 2, ContributionType::PullRequest, 100).unwrap();
    assert_eq!(
        s.batch_verify_contributions(3, vec![(1, a, 50, vec![])]),
        Err(Error::InsufficientReputationToVerify)
    );
    // The second item names the wrong contributor, so the first is undone too.
    assert_eq!(
        s.batch_verify_contributions(9, vec![(1, a, 50, b"ok".to_vec()), (1, b, 50, vec![])]),
        Err(Error::ContributionNotFound)
    );
    assert_eq!(s.get_reputation(1), 0);
    assert!(!s.contributions[0].verified);
    assert!(s.verifications.is_empty());
    let ev = s
        .batch_verify_contributions(9, vec![(1, a, 50, b"ok".to_vec()), (2, b, 50, vec![])])
        .unwrap();
    assert_eq!(ev.len(), 4);
    assert_eq!(s.get_reputation(1), 30);
    assert_eq!(s.get_reputation(2), 30);
    assert_eq!(s.verifications.len(), 2);
    assert_eq!(s.verifications[0].comment, b"ok".to_vec());
}

#[test]
fn default_parameters() {
    let p = AlgorithmParams::default();
    assert_eq!(p, AlgorithmParams::default_params());
    assert_eq!(p.decay_rate_per_block, 1);
    assert_eq!(p.verification_multiplier, 15_000);
    assert_eq!(p.contribution_type_weights.get(ContributionType::PullRequest), Some(20));
    assert_eq!(p.contribution_type_weights.get(ContributionType::BugReport), Some(8));
    assert_eq!(ReputationState::validate_algorithm_params(&p), Ok(()));
}

#[test]
fn genesis_scores_are_clamped_and_last_wins() {
    let s = ReputationState::with_genesis_scores(config(), vec![(1, 10), (2, 2000), (1, 40)]);
    assert_eq!(s.get_reputation(1), 40);
    assert_eq!(s.get_reputation(2), 1000);
    assert_eq!(s.scores.len(), 2);
    assert!(s.contributions.is_empty());
}
