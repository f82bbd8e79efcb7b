use reputation_governance::arith::sqrt_u64;
use reputation_governance::governance::{
    calculate_expertise_boost, Error, Event, GovernanceConfig, GovernanceState, ProposalType,
    SkillTag,
};
use reputation_governance::reputation::{ReputationConfig, ReputationState};
use reputation_governance::types::Hash256;

fn rep_config() -> ReputationConfig {
    ReputationConfig {
        max_contributions_per_account: 100,
        min_reputation: 0,
        max_reputation: 1000,
        min_reputation_to_verify: 10,
        min_verifications: 1,
        max_pending_contributions: 10,
    }
}

fn gov_config() -> GovernanceConfig {
    GovernanceConfig {
        min_proposal_reputation: 100,
        proposal_deposit: 1_000_000,
        voting_period: 100,
        council_size: 7,
        quorum_threshold: 1,
        supermajority_threshold: 66,
        execution_delay_period: 10,
        min_vote_change_period: 10,
        estimated_total_voting_power: 1000,
    }
}

/// Account 1 holds 500, account 2 holds 50, account 3 holds 150.
fn setup_with_reputation() -> (ReputationState, GovernanceState) {
    let rep = ReputationState::with_genesis_scores(rep_config(), vec![(1, 500), (2, 50), (3, 150)]);
    (rep, GovernanceState::new(gov_config()))
}

fn tags(items: &[&[u8]]) -> Vec<SkillTag> {
    items.iter().map(|t| t.to_vec()).collect()
}

fn treasury(beneficiary: u64) -> ProposalType {
    ProposalType::TreasurySpend { amount: 1000, beneficiary }
}

fn create(
    g: &mut GovernanceState,
    rep: &ReputationState,
    who: u64,
    t: ProposalType,
    tg: &[&[u8]],
    now: u64,
) -> Result<Vec<Event>, Error> {
    g.create_proposal(rep, who, t, tags(tg), b"Test proposal".to_vec(), now, true)
}

#[test]
fn test_create_proposal_success() {
    let (rep, mut g) = setup_with_reputation();
    assert!(create(&mut g, &rep, 1, treasury(2), &[b"technical"], 1).is_ok());
    let proposal = &g.proposals[0];
    assert_eq!(proposal.proposer, 1);
    assert_eq!(proposal.executed, false);
    assert_eq!(proposal.voting_end, 101);
    assert_eq!(proposal.execution_ready_at, Some(111));
    assert_eq!(proposal.total_voting_power, 1000);
}

#[test]
fn test_create_proposal_insufficient_reputation() {
    let (rep, mut g) = setup_with_reputation();
    assert_eq!(
        create(&mut g, &rep, 2, treasury(1), &[b"technical"], 1),
        Err(Error::InsufficientReputation)
    );
    assert!(g.proposals.is_empty());
}

#[test]
fn proposal_needs_escrowed_deposit_and_bounded_input() {
    let (rep, mut g) = setup_with_reputation();
    assert_eq!(
        g.create_proposal(&rep, 1, treasury(2), tags(&[b"a"]), vec![], 1, false),
        Err(Error::DepositNotReserved)
    );
    assert_eq!(
        create(&mut g, &rep, 1, treasury(2), &[b"a", b"b", b"c", b"d", b"e", b"f"], 1),
        Err(Error::InvalidProposal)
    );
    assert_eq!(
        g.create_proposal(&rep, 1, treasury(2), tags(&[b"a"]), vec![0u8; 257], 1, true),
        Err(Error::InvalidProposal)
    );
    assert!(g.proposals.is_empty());
}

#[test]
fn test_voting_with_expertise_boost() {
    let (rep, mut g) = setup_with_reputation();
    assert!(g.update_skill_tags(1, tags(&[b"rust", b"polkadot"])).is_ok());
    assert!(create(
        &mut g,
        &rep,
        1,
        ProposalType::RuntimeUpgrade { code_hash: Hash256::zero() },
        &[b"rust"],
        1
    )
    .is_ok());
    assert!(g.vote(&rep, 1, 0, true, 1).is_ok());
    let proposal = &g.proposals[0];
    assert!(proposal.for_votes > 0);
    // One matching tag leaves the multiplier at 1: sqrt(500) = 22.
    assert_eq!(proposal.for_votes, 22);
}

#[test]
fn two_matching_tags_double_the_power() {
    let (rep, mut g) = setup_with_reputation();
    assert!(g.update_skill_tags(1, tags(&[b"rust", b"polkadot"])).is_ok());
    assert!(create(&mut g, &rep, 1, ProposalType::CouncilElection, &[b"rust", b"polkadot"], 1).is_ok());
    assert_eq!(g.calculate_voting_power(&rep, 1, 0), 44);
}

#[test]
fn expertise_multiplier_plateaus() {
    let p = tags(&[b"a", b"b", b"c", b"d", b"e"]);
    assert_eq!(calculate_expertise_boost(&p, &tags(&[])), 1);
    assert_eq!(calculate_expertise_boost(&tags(&[]), &tags(&[b"a"])), 1);
    assert_eq!(calculate_expertise_boost(&p, &tags(&[b"z"])), 1);
    assert_eq!(calculate_expertise_boost(&p, &tags(&[b"a"])), 1);
    assert_eq!(calculate_expertise_boost(&p, &tags(&[b"a", b"b"])), 2);
    assert_eq!(calculate_expertise_boost(&p, &tags(&[b"a", b"b", b"c"])), 2);
    assert_eq!(calculate_expertise_boost(&p, &tags(&[b"a", b"b", b"c", b"d"])), 3);
    assert_eq!(calculate_expertise_boost(&p, &tags(&[b"a", b"b", b"c", b"d", b"e"])), 3);
}

#[test]
fn test_voting_closed() {
    let (rep, mut g) = setup_with_reputation();
    assert!(create(&mut g, &rep, 1, treasury(2), &[b"technical"], 1).is_ok());
    assert_eq!(g.vote(&rep, 1, 0, true, 200), Err(Error::VotingClosed));
}

#[test]
fn test_already_voted() {
    // A second vote inside the change period is refused.
    let (rep, mut g) = setup_with_reputation();
    assert!(create(&mut g, &rep, 1, treasury(2), &[b"technical"], 1).is_ok());
    assert!(g.vote(&rep, 1, 0, true, 1).is_ok());
    assert_eq!(g.vote(&rep, 1, 0, false, 1), Err(Error::VoteChangeNotAllowed));
    assert_eq!(g.proposals[0].for_votes, 22);
    assert_eq!(g.proposals[0].against_votes, 0);
}

#[test]
fn changed_vote_moves_power() {
    let (rep, mut g) = setup_with_reputation();
    assert!(create(&mut g, &rep, 1, treasury(2), &[b"technical"], 1).is_ok());
    assert!(g.vote(&rep, 1, 0, true, 1).is_ok());
    assert!(g.vote(&rep, 3, 0, true, 2).is_ok());
    assert_eq!(g.proposals[0].for_votes, 22 + 12);
    // Reputation grows before the change; the fresh power is used.
    let rep = ReputationState::with_genesis_scores(rep_config(), vec![(1, 900), (2, 50), (3, 150)]);
    let ev = g.vote(&rep, 1, 0, false, 11).unwrap();
    assert_eq!(g.proposals[0].for_votes, 12);
    assert_eq!(g.proposals[0].against_votes, 30);
    assert_eq!(
        ev,
        vec![
            Event::VoteChanged {
                proposal_id: 0,
                voter: 1,
                old_support: true,
                new_support: false,
                voting_power: 30,
            },
            Event::Voted { proposal_id: 0, voter: 1, support: false, voting_power: 30 },
        ]
    );
    let total: u64 = g.votes.iter().map(|v| v.power).sum();
    assert_eq!(g.proposals[0].for_votes + g.proposals[0].against_votes, total);
}

#[test]
fn revoked_vote_leaves_tally() {
    let (rep, mut g) = setup_with_reputation();
    assert!(create(&mut g, &rep, 1, treasury(2), &[b"technical"], 1).is_ok());
    assert_eq!(g.revoke_vote(1, 0, 2), Err(Error::NoVoteToRevoke));
    assert!(g.vote(&rep, 3, 0, false, 1).is_ok());
    assert_eq!(g.proposals[0].against_votes, 12);
    assert!(g.revoke_vote(3, 0, 2).is_ok());
    assert_eq!(g.proposals[0].against_votes, 0);
    assert!(g.votes.is_empty());
    assert!(g.vote(&rep, 3, 0, false, 3).is_ok());
    assert_eq!(g.revoke_vote(3, 0, 101), Err(Error::VotingClosed));
    assert_eq!(g.revoke_vote(3, 9, 5), Err(Error::ProposalNotFound));
}

#[test]
fn test_delegate_vote() {
    let (rep, mut g) = setup_with_reputation();
    assert!(g.delegate_vote(&rep, 2, 1, 50, None, 1).is_ok());
    let delegation = g.delegations[0];
    assert_eq!(delegation.delegator, 2);
    assert_eq!(delegation.delegatee, 1);
    assert_eq!(delegation.amount, 50);
}

#[test]
fn test_delegate_to_self_fails() {
    let (rep, mut g) = setup_with_reputation();
    assert_eq!(g.delegate_vote(&rep, 1, 1, 100, None, 1), Err(Error::InvalidDelegatee));
}

#[test]
fn test_delegation_exceeds_capacity() {
    let (rep, mut g) = setup_with_reputation();
    assert_eq!(
        g.delegate_vote(&rep, 2, 1, 600, None, 1),
        Err(Error::DelegationExceedsCapacity)
    );
    assert!(g.delegations.is_empty());
}

#[test]
fn delegation_capacity_counts_global_and_scoped() {
    let (rep, mut g) = setup_with_reputation();
    assert!(create(&mut g, &rep, 1, treasury(2), &[], 1).is_ok());
    assert!(g.delegate_vote(&rep, 2, 3, 100, None, 1).is_ok());
    assert!(g.delegate_vote(&rep, 4, 3, 50, Some(0), 1).is_ok());
    assert_eq!(g.get_delegated_power(3, Some(0)), 150);
    assert_eq!(g.get_delegated_power(3, None), 100);
    assert_eq!(
        g.delegate_vote(&rep, 5, 3, 1, Some(0), 1),
        Err(Error::DelegationExceedsCapacity)
    );
    // A global delegation counts towards proposal 0 too, which is full.
    assert_eq!(
        g.delegate_vote(&rep, 5, 3, 50, None, 1),
        Err(Error::DelegationExceedsCapacity)
    );
    assert_eq!(g.peak_delegated_power(3), 150);
    assert_eq!(g.delegate_vote(&rep, 6, 3, 1, Some(7), 1), Err(Error::ProposalNotFound));
    assert_eq!(g.delegate_vote(&rep, 6, 3, 1, Some(0), 101), Err(Error::VotingClosed));
    // sqrt(150) = 12, plus everything delegated in scope.
    assert_eq!(g.calculate_voting_power(&rep, 3, 0), 12 + 150);
    // Room is left on other proposals only for scoped delegations.
    assert!(create(&mut g, &rep, 1, treasury(2), &[], 1).is_ok());
    assert!(g.delegate_vote(&rep, 5, 3, 50, Some(1), 1).is_ok());
    assert_eq!(g.get_delegated_power(3, Some(1)), 150);
}

#[test]
fn delegate_then_revoke_restores_state() {
    let (rep, mut g) = setup_with_reputation();
    assert!(g.delegate_vote(&rep, 3, 1, 20, None, 1).is_ok());
    let before = g.delegations.clone();
    let power_before = g.get_delegated_power(1, None);
    assert!(g.delegate_vote(&rep, 2, 1, 50, None, 1).is_ok());
    assert_eq!(g.get_delegated_power(1, None), power_before + 50);
    let ev = g.revoke_delegation(2).unwrap();
    assert_eq!(ev, vec![Event::DelegationRevoked { delegator: 2, delegatee: 1 }]);
    assert_eq!(g.delegations, before);
    assert_eq!(g.get_delegated_power(1, None), power_before);
    assert_eq!(g.revoke_delegation(2), Err(Error::NoDelegationToRevoke));
}

#[test]
fn redelegation_replaces_record() {
    let (rep, mut g) = setup_with_reputation();
    assert!(g.delegate_vote(&rep, 2, 1, 50, None, 1).is_ok());
    assert!(g.delegate_vote(&rep, 2, 3, 40, None, 1).is_ok());
    assert_eq!(g.delegations.len(), 1);
    assert_eq!(g.get_delegated_power(1, None), 0);
    assert_eq!(g.get_delegated_power(3, None), 40);
}

#[test]
fn test_execute_proposal() {
    let (rep, mut g) = setup_with_reputation();
    assert!(create(&mut g, &rep, 1, treasury(2), &[b"technical"], 1).is_ok());
    assert!(g.vote(&rep, 1, 0, true, 1).is_ok());
    let ev = g.execute_proposal(&rep, 0, 200).unwrap();
    assert_eq!(g.proposals[0].executed, true);
    assert_eq!(
        ev,
        vec![
            Event::ProposalExecuted { proposal_id: 0 },
            Event::DepositReturned { account: 1, proposal_id: 0, amount: 1_000_000 },
        ]
    );
    assert_eq!(g.execute_proposal(&rep, 0, 201), Err(Error::CannotExecute));
}

#[test]
fn test_execute_proposal_fails_if_not_passed() {
    // A treasury spend needs a supermajority in favour.
    let (rep, mut g) = setup_with_reputation();
    assert!(create(&mut g, &rep, 1, treasury(2), &[b"technical"], 1).is_ok());
    assert!(g.vote(&rep, 1, 0, false, 1).is_ok());
    assert_eq!(g.execute_proposal(&rep, 0, 200), Err(Error::SupermajorityNotMet));
    assert_eq!(g.proposals[0].executed, false);
}

#[test]
fn simple_majority_class_needs_more_for_than_against() {
    let (rep, mut g) = setup_with_reputation();
    let t = ProposalType::ParameterChange { parameter: b"fee".to_vec(), new_value: b"2".to_vec() };
    assert!(create(&mut g, &rep, 1, t, &[], 1).is_ok());
    assert!(g.vote(&rep, 3, 0, true, 1).is_ok());
    assert!(g.vote(&rep, 1, 0, false, 1).is_ok());
    assert_eq!(g.execute_proposal(&rep, 0, 200), Err(Error::CannotExecute));
}

#[test]
fn execution_waits_for_voting_end_timelock_and_quorum() {
    let (rep, mut g) = setup_with_reputation();
    assert!(create(&mut g, &rep, 1, treasury(2), &[], 1).is_ok());
    assert_eq!(g.execute_proposal(&rep, 0, 200), Err(Error::QuorumNotMet));
    assert!(g.vote(&rep, 1, 0, true, 1).is_ok());
    assert_eq!(g.execute_proposal(&rep, 0, 50), Err(Error::VotingClosed));
    assert_eq!(g.execute_proposal(&rep, 0, 105), Err(Error::ProposalNotReadyForExecution));
    assert_eq!(g.execute_proposal(&rep, 3, 200), Err(Error::ProposalNotFound));
    assert!(g.execute_proposal(&rep, 0, 111).is_ok());
}

#[test]
fn council_election_installs_top_accounts() {
    let (_, mut g) = setup_with_reputation();
    let rep = ReputationState::with_genesis_scores(
        rep_config(),
        vec![(1, 500), (2, 50), (3, 150), (4, 500)],
    );
    assert!(create(&mut g, &rep, 1, ProposalType::CouncilElection, &[], 1).is_ok());
    assert!(g.vote(&rep, 1, 0, true, 1).is_ok());
    let ev = g.execute_proposal(&rep, 0, 200).unwrap();
    assert_eq!(ev[0], Event::CouncilRotated { term_end: 600 });
    assert_eq!(g.council, vec![1, 4, 3, 2]);
    assert_eq!(g.council_term_end, 600);
}

#[test]
fn council_rotation_rules() {
    let (rep, mut g) = setup_with_reputation();
    let mut cfg = gov_config();
    cfg.council_size = 2;
    g.config = cfg;
    // The first term has ended at height 0: anyone may rotate.
    assert!(g.rotate_council(&rep, 9, 5).is_ok());
    assert_eq!(g.council, vec![1, 3]);
    assert_eq!(g.council_term_end, 405);
    assert_eq!(g.rotate_council(&rep, 9, 6), Err(Error::NotCouncilMember));
    assert!(g.rotate_council(&rep, 3, 6).is_ok());
    assert!(g.rotate_council(&rep, 9, 406).is_ok());
}

#[test]
fn cancellation_rules() {
    let (rep, mut g) = setup_with_reputation();
    assert!(create(&mut g, &rep, 1, treasury(2), &[], 1).is_ok());
    assert_eq!(g.cancel_proposal(2, 0, 5), Err(Error::NotProposer));
    assert_eq!(g.cancel_proposal(1, 0, 101), Err(Error::VotingClosed));
    let ev = g.cancel_proposal(1, 0, 5).unwrap();
    assert_eq!(
        ev,
        vec![
            Event::ProposalCancelled { proposal_id: 0, proposer: 1 },
            Event::DepositReturned { account: 1, proposal_id: 0, amount: 1_000_000 },
        ]
    );
    assert!(g.proposals[0].cancelled);
    assert_eq!(g.cancel_proposal(1, 0, 6), Err(Error::ProposalNotExecutable));
    assert_eq!(g.execute_proposal(&rep, 0, 200), Err(Error::ProposalNotExecutable));
    assert_eq!(g.mark_proposal_ready(0, 50), Err(Error::VotingClosed));
    assert_eq!(g.mark_proposal_ready(0, 150), Ok(vec![]));
    assert_eq!(g.mark_proposal_ready(4, 150), Err(Error::ProposalNotFound));
}

#[test]
fn test_update_skill_tags() {
    let mut g = GovernanceState::new(gov_config());
    assert!(g.update_skill_tags(1, tags(&[b"rust", b"polkadot", b"substrate"])).is_ok());
    assert_eq!(g.skills[0].tags.len(), 3);
    assert!(g.update_skill_tags(1, tags(&[b"go"])).is_ok());
    assert_eq!(g.skills.len(), 1);
    assert_eq!(g.skills[0].tags, tags(&[b"go"]));
    assert_eq!(g.update_skill_tags(1, vec![vec![0u8; 33]]), Err(Error::InvalidSkillTags));
}

#[test]
fn test_quadratic_voting() {
    let (rep, mut g) = setup_with_reputation();
    assert!(create(&mut g, &rep, 1, treasury(2), &[b"technical"], 1).is_ok());
    assert!(g.vote(&rep, 1, 0, true, 1).is_ok());
    let votes1 = g.proposals[0].for_votes;
    assert!(g.vote(&rep, 3, 0, true, 1).is_ok());
    let votes2 = g.proposals[0].for_votes;
    assert!(votes2 > votes1);
    assert_eq!(votes1, 22);
    assert_eq!(votes2, 34);
}

#[test]
fn test_proposal_not_found() {
    let (rep, mut g) = setup_with_reputation();
    assert_eq!(g.vote(&rep, 1, 999, true, 1), Err(Error::ProposalNotFound));
}

#[test]
fn integer_square_roots() {
    assert_eq!(sqrt_u64(0), 0);
    assert_eq!(sqrt_u64(1), 1);
    assert_eq!(sqrt_u64(2), 1);
    assert_eq!(sqrt_u64(3), 1);
    assert_eq!(sqrt_u64(4), 2);
    assert_eq!(sqrt_u64(500), 22);
    assert_eq!(sqrt_u64(u64::MAX), 4_294_967_295);
    let mut prev = 0;
    for k in 0..2000u64 {
        assert_eq!(sqrt_u64(k * k), k);
        assert_eq!(sqrt_u64(k * k + 2 * k), k);
        let r = sqrt_u64(k);
        assert!(r >= prev);
        prev = r;
    }
    let k: u64 = 4_000_000_000;
    assert_eq!(sqrt_u64(k * k), k);
}

#[test]
fn council_members_may_cancel() {
    let (rep, mut g) = setup_with_reputation();
    assert!(g.rotate_council(&rep, 1, 0).is_ok());
    assert!(g.is_council_member(3));
    assert!(!g.is_council_member(8));
    assert!(create(&mut g, &rep, 1, treasury(2), &[], 1).is_ok());
    assert!(g.cancel_proposal(3, 0, 2).is_ok());
    assert!(g.proposals[0].cancelled);
}

#[test]
fn proposal_can_be_checked_before_escrow() {
    let (rep, g) = setup_with_reputation();
    assert_eq!(
        g.check_create_proposal(&rep, 2, &tags(&[b"a"]), &b"x".to_vec()),
        Err(Error::InsufficientReputation)
    );
    assert_eq!(
        g.check_create_proposal(&rep, 1, &tags(&[b"a", b"b", b"c", b"d", b"e", b"f"]), &b"x".to_vec()),
        Err(Error::InvalidProposal)
    );
    assert_eq!(g.check_create_proposal(&rep, 1, &tags(&[b"a"]), &b"x".to_vec()), Ok(()));
}
