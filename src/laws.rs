//! Properties of the engines that hold across operations.
use vstd::prelude::*;

use crate::arith::{is_root_floor, isqrt, lemma_isqrt_bounds, lemma_isqrt_is_root_floor};
use crate::governance::{
    delegated_sum, for_percent, has_delegation, has_vote, lemma_delegated_sum_with, nonneg,
    prior_weight, quorum_percent, tally, unique_delegators, vote_of, vote_weight, with_delegation,
    without_delegation, Delegation, Error as GovError, GovernanceState, ProposalId,
    ReputationScore, VoteRecord,
};
use crate::reputation::{
    contribution_wf, has_score, lemma_score_at, proof_used, score_index, score_of, ContributionId,
    ContributionStatus, ContributionType, DataSource, Error, ReputationModel, ScoreEntry,
};
use crate::types::{AccountId, BlockNumber, Hash256};

verus! {

/// Every account's score lies within the configured bounds, in every well-formed state;
/// each operation keeps the state well-formed.
pub proof fn lemma_scores_within_bounds(m: ReputationModel, a: AccountId)
    requires
        m.wf(),
    ensures
        m.config.min_reputation <= score_of(m.scores, a) <= m.config.max_reputation,
{
    if has_score(m.scores, a) {
        lemma_score_at(m.scores, score_index(m.scores, a));
    }
}

/// Once a proof has been accepted, any later submission of it fails with
/// `ContributionAlreadySubmitted` and changes nothing.
pub proof fn lemma_duplicate_proof_rejected(
    m: ReputationModel,
    who: AccountId,
    now: BlockNumber,
    proof: Hash256,
    contribution_type: ContributionType,
    weight: u8,
    source: DataSource,
    who2: AccountId,
    now2: BlockNumber,
    contribution_type2: ContributionType,
    weight2: u8,
    source2: DataSource,
)
    requires
        m.add_contribution_spec(who, now, proof, contribution_type, weight, source).1 is Ok,
    ensures
        ({
            let m1 = m.add_contribution_spec(who, now, proof, contribution_type, weight, source).0;
            m1.add_contribution_spec(who2, now2, proof, contribution_type2, weight2, source2) == (
                m1,
                Err::<(ContributionId, Seq<crate::reputation::Event>), Error>(
                    Error::ContributionAlreadySubmitted,
                ),
            )
        }),
{
    let m1 = m.add_contribution_spec(who, now, proof, contribution_type, weight, source).0;
    let last = m1.contributions.len() - 1;
    assert(m1.contributions[last].proof == proof);
    assert(proof_used(m1.contributions, proof));
}

/// The integer square root of 0 is 0 and of 1, 2 and 3 it is 1.
pub proof fn lemma_isqrt_small()
    ensures
        isqrt(0) == 0,
        isqrt(1) == 1,
        isqrt(2) == 1,
        isqrt(3) == 1,
{
    lemma_isqrt_is_root_floor(1, 1);
    lemma_isqrt_is_root_floor(2, 1);
    lemma_isqrt_is_root_floor(3, 1);
}

/// The integer square root of `k * k`, and of `k * k + 2 * k`, is `k`.
pub proof fn lemma_isqrt_square(k: nat)
    ensures
        isqrt(k * k) == k,
        isqrt(k * k + 2 * k) == k,
{
    assert(is_root_floor((k * k) as int, k as int)) by (nonlinear_arith);
    assert(is_root_floor((k * k + 2 * k) as int, k as int)) by (nonlinear_arith);
    lemma_isqrt_is_root_floor(k * k, k as int);
    lemma_isqrt_is_root_floor(k * k + 2 * k, k as int);
}

/// The integer square root never decreases as its input grows.
pub proof fn lemma_isqrt_monotone(a: nat, b: nat)
    requires
        a <= b,
    ensures
        isqrt(a) <= isqrt(b),
{
    lemma_isqrt_bounds(a);
    lemma_isqrt_bounds(b);
    let ra = isqrt(a) as int;
    let rb = isqrt(b) as int;
    if ra > rb {
        assert((rb + 1) * (rb + 1) <= ra * ra) by (nonlinear_arith)
            requires
                rb + 1 <= ra,
                rb >= 0,
        ;
    }
}

/// In a well-formed ledger a contribution is verified exactly when it has reached the
/// threshold of verifications, and pending until then.
pub proof fn lemma_status_matches_count(m: ReputationModel, i: int)
    requires
        m.wf(),
        0 <= i < m.contributions.len(),
    ensures
        (m.contributions[i].status == ContributionStatus::Verified) == (
        m.contributions[i].verification_count == m.config.threshold()),
        (m.contributions[i].status == ContributionStatus::Pending) == (
        m.contributions[i].verification_count < m.config.threshold()),
{
    assert(contribution_wf(m.contributions[i], i, m.config));
}

/// `m1` keeps every contribution of `m`; a verified one stays exactly as it was, and
/// what was pending keeps its claim.
pub open spec fn contributions_evolve(m: ReputationModel, m1: ReputationModel) -> bool {
    &&& m.contributions.len() <= m1.contributions.len()
    &&& forall|i: int|
        0 <= i < m.contributions.len() ==> {
            let c = #[trigger] m.contributions[i];
            let c1 = m1.contributions[i];
            &&& c.verified ==> c1 == c
            &&& c1.id == c.id && c1.proof == c.proof && c1.submitter == c.submitter
            &&& c1.verification_count >= c.verification_count
            &&& c.verified ==> c1.verified
        }
}

/// Verification changes at most the contribution it names; that one turns from
/// pending to verified exactly when its count reaches the threshold, and a verified
/// one is refused.
pub proof fn lemma_verification_step(
    m: ReputationModel,
    verifier: AccountId,
    contributor: AccountId,
    contribution_id: ContributionId,
    score: u8,
    comment: Seq<u8>,
)
    requires
        m.wf(),
    ensures
        ({
            let (m1, r) = m.verify_contribution_spec(
                verifier,
                contributor,
                contribution_id,
                score,
                comment,
            );
            let idx = contribution_id - 1;
            &&& contributions_evolve(m, m1)
            &&& m1.contributions.len() == m.contributions.len()
            &&& forall|i: int|
                0 <= i < m.contributions.len() && i != idx ==> #[trigger] m1.contributions[i]
                    == m.contributions[i]
            &&& (1 <= contribution_id <= m.contributions.len() && m.contributions[idx].verified
                && verifier != contributor) ==> r is Err
            &&& r is Ok ==> {
                &&& m.contributions[idx].status == ContributionStatus::Pending
                &&& m1.contributions[idx].verification_count == m.contributions[idx].verification_count
                    + 1
                &&& (m1.contributions[idx].status == ContributionStatus::Verified) == (
                m1.contributions[idx].verification_count >= m.config.min_verifications)
            }
        }),
{
    let idx = contribution_id - 1;
    if 1 <= contribution_id <= m.contributions.len() {
        assert(contribution_wf(m.contributions[idx], idx, m.config));
    }
}

/// Submission only appends a pending contribution.
pub proof fn lemma_submission_step(
    m: ReputationModel,
    who: AccountId,
    now: BlockNumber,
    proof: Hash256,
    contribution_type: ContributionType,
    weight: u8,
    source: DataSource,
)
    ensures
        ({
            let (m1, r) = m.add_contribution_spec(who, now, proof, contribution_type, weight, source);
            &&& contributions_evolve(m, m1)
            &&& r is Ok ==> m1.contributions.last().status == ContributionStatus::Pending
        }),
{
}

/// Keeping contributions is transitive: over any run of steps a verified contribution
/// never changes again.
pub proof fn lemma_evolve_transitive(m0: ReputationModel, m1: ReputationModel, m2: ReputationModel)
    requires
        contributions_evolve(m0, m1),
        contributions_evolve(m1, m2),
    ensures
        contributions_evolve(m0, m2),
{
    assert forall|i: int| 0 <= i < m0.contributions.len() implies {
        let c = #[trigger] m0.contributions[i];
        let c2 = m2.contributions[i];
        &&& c.verified ==> c2 == c
        &&& c2.id == c.id && c2.proof == c.proof && c2.submitter == c.submitter
        &&& c2.verification_count >= c.verification_count
        &&& c.verified ==> c2.verified
    } by {
        assert(m1.contributions[i] == m1.contributions[i]);
    }
}

/// A verifier can never verify its own contribution, whatever its reputation.
pub proof fn lemma_self_verification_rejected(
    m: ReputationModel,
    account: AccountId,
    contribution_id: ContributionId,
    score: u8,
    comment: Seq<u8>,
)
    ensures
        m.verify_contribution_spec(account, account, contribution_id, score, comment) == (
            m,
            Err::<Seq<crate::reputation::Event>, Error>(Error::SelfVerificationNotAllowed),
        ),
{
}

/// An account can never delegate to itself, whatever its reputation.
pub proof fn lemma_self_delegation_rejected(
    g: GovernanceState,
    scores: Seq<ScoreEntry>,
    account: AccountId,
    amount: ReputationScore,
    proposal_id: Option<ProposalId>,
    now: BlockNumber,
)
    ensures
        g.delegate_error(scores, account, account, amount, proposal_id, now) == Some(
            GovError::InvalidDelegatee,
        ),
{
}

/// Changing a vote before the change period has passed is refused with
/// `VoteChangeNotAllowed`.
pub proof fn lemma_early_vote_change_rejected(
    g: GovernanceState,
    scores: Seq<ScoreEntry>,
    who: AccountId,
    proposal_id: ProposalId,
    support: bool,
    now: BlockNumber,
)
    requires
        (proposal_id as int) < g.proposals@.len(),
        now < g.proposals@[proposal_id as int].voting_end,
        has_vote(g.votes@, proposal_id, who),
        g.proposals@[proposal_id as int].created <= now,
        now < g.proposals@[proposal_id as int].created + g.config.min_vote_change_period,
    ensures
        g.vote_spec(scores, who, proposal_id, support, now) == Err::<
            (crate::governance::VoteRecord, Seq<crate::governance::Event>),
            GovError,
        >(GovError::VoteChangeNotAllowed),
{
}

/// Once the change period has passed, a changed vote is accepted while voting is open
/// and the new tallies fit: the record carries the freshly computed power, and the
/// tallies `vote` leaves are the old ones without the earlier record's power on its side
/// and with the new power on the chosen side.
pub proof fn lemma_vote_change_accepted(
    g: GovernanceState,
    scores: Seq<ScoreEntry>,
    who: AccountId,
    proposal_id: ProposalId,
    support: bool,
    now: BlockNumber,
)
    requires
        (proposal_id as int) < g.proposals@.len(),
        now < g.proposals@[proposal_id as int].voting_end,
        has_vote(g.votes@, proposal_id, who),
        g.proposals@[proposal_id as int].created + g.config.min_vote_change_period <= now,
        ({
            let p = g.proposals@[proposal_id as int];
            let prior = vote_of(g.votes@, proposal_id, who);
            let power = g.power_spec(scores, who, proposal_id);
            &&& p.for_votes - prior_weight(prior, true) + (if support {
                power
            } else {
                0
            }) <= u64::MAX
            &&& p.against_votes - prior_weight(prior, false) + (if support {
                0
            } else {
                power
            }) <= u64::MAX
        }),
    ensures
        ({
            let p = g.proposals@[proposal_id as int];
            let prior = vote_of(g.votes@, proposal_id, who);
            let power = g.power_spec(scores, who, proposal_id);
            let v = VoteRecord { proposal_id, voter: who, support, power: power as u64 };
            &&& g.vote_spec(scores, who, proposal_id, support, now) matches Ok((r, _)) && r == v
            &&& prior matches Some(o) && o.voter == who && o.proposal_id == proposal_id
            &&& p.for_votes - prior_weight(prior, true) + vote_weight(v, proposal_id, true) == p.for_votes
                - prior_weight(prior, true) + if support {
                power
            } else {
                0
            }
            &&& p.against_votes - prior_weight(prior, false) + vote_weight(v, proposal_id, false)
                == p.against_votes - prior_weight(prior, false) + if support {
                0
            } else {
                power
            }
        }),
{
    let vs = g.votes@;
    let k = crate::governance::vote_index(vs, proposal_id, who);
    assert(vs[k].voter == who && vs[k].proposal_id == proposal_id);
    crate::governance::lemma_delegated_sum_nonneg(g.delegations@, who, Some(proposal_id));
    let ptags = crate::governance::tags_view(g.proposals@[proposal_id as int].tags@);
    let skills = crate::governance::skills_of(g.skills@, who);
    let m = crate::governance::expertise_multiplier(ptags, skills);
    let root = isqrt(nonneg(score_of(scores, who))) as int;
    assert(m >= 1);
    assert(root * m >= 0) by (nonlinear_arith)
        requires
            root >= 0,
            m >= 1,
    ;
}

/// In every well-formed state the tallies of a proposal are the sums of the powers that
/// its recorded votes carry, side by side.
pub proof fn lemma_tallies_match_votes(g: GovernanceState, proposal_id: ProposalId)
    requires
        g.wf(),
        (proposal_id as int) < g.proposals@.len(),
    ensures
        g.proposals@[proposal_id as int].for_votes == tally(g.votes@, proposal_id, true),
        g.proposals@[proposal_id as int].against_votes == tally(g.votes@, proposal_id, false),
        g.proposals@[proposal_id as int].for_votes + g.proposals@[proposal_id as int].against_votes
            == tally(g.votes@, proposal_id, true) + tally(g.votes@, proposal_id, false),
{
    let p = g.proposals@[proposal_id as int];
    assert(p.id == proposal_id as int);
}

/// Execution fails before the end of voting, before the timelock has elapsed, below the
/// quorum, and, for treasury spends and runtime upgrades, below the supermajority.
pub proof fn lemma_execution_gates(g: GovernanceState, proposal_id: ProposalId, now: BlockNumber)
    requires
        (proposal_id as int) < g.proposals@.len(),
        ({
            let p = g.proposals@[proposal_id as int];
            ||| now < p.voting_end
            ||| (p.execution_ready_at matches Some(t) && now < t)
            ||| quorum_percent(p) < g.config.quorum_threshold
            ||| (p.proposal_type.requires_supermajority_spec() && for_percent(p)
                < g.config.supermajority_threshold)
        }),
    ensures
        g.execute_error(proposal_id, now) is Some,
{
}

/// A delegation that would take what a delegatee receives above the delegatee's
/// reputation fails with `DelegationExceedsCapacity`, unless an earlier check
/// (self-delegation, unknown or closed proposal) refuses it first. What the delegatee
/// receives for a proposal is everything global plus everything scoped to it; a scoped
/// delegation counts for its proposal, a global one for every proposal `q`.
pub proof fn lemma_capacity_enforced(
    g: GovernanceState,
    scores: Seq<ScoreEntry>,
    delegator: AccountId,
    delegatee: AccountId,
    amount: ReputationScore,
    proposal_id: Option<ProposalId>,
    q: ProposalId,
    now: BlockNumber,
)
    requires
        delegator != delegatee,
        proposal_id matches Some(p) ==> (p as int) < g.proposals@.len() && now
            < g.proposals@[p as int].voting_end,
        delegated_sum(g.delegations@, delegatee, if proposal_id is Some {
            proposal_id
        } else {
            Some(q)
        }) + amount > nonneg(score_of(scores, delegatee)),
    ensures
        g.delegate_error(scores, delegator, delegatee, amount, proposal_id, now) == Some(
            GovError::DelegationExceedsCapacity,
        ),
{
    if proposal_id is None {
        assert(delegated_sum(g.delegations@, delegatee, Some(q)) + amount > nonneg(
            score_of(scores, delegatee),
        ) as int);
    }
}

/// After a delegation is accepted, what its delegatee receives for every proposal it
/// counts towards is within the delegatee's reputation at that moment.
pub proof fn lemma_capacity_respected(
    g: GovernanceState,
    scores: Seq<ScoreEntry>,
    delegator: AccountId,
    delegatee: AccountId,
    amount: ReputationScore,
    proposal_id: Option<ProposalId>,
    now: BlockNumber,
    q: ProposalId,
)
    requires
        g.wf(),
        g.delegate_error(scores, delegator, delegatee, amount, proposal_id, now) is None,
        proposal_id is None || proposal_id == Some(q),
    ensures
        delegated_sum(
            with_delegation(
                g.delegations@,
                Delegation { delegator, delegatee, amount, proposal_id },
            ),
            delegatee,
            Some(q),
        ) <= nonneg(score_of(scores, delegatee)),
{
    let d = Delegation { delegator, delegatee, amount, proposal_id };
    lemma_delegated_sum_with(g.delegations@, d, delegatee, Some(q));
}

/// Delegating and then revoking, from an account with no delegation, restores the
/// delegations exactly, and with them every delegated sum.
pub proof fn lemma_delegate_revoke_round_trip(ds: Seq<Delegation>, d: Delegation)
    requires
        unique_delegators(ds),
        !has_delegation(ds, d.delegator),
    ensures
        without_delegation(with_delegation(ds, d), d.delegator) == ds,
        forall|a: AccountId, scope: Option<ProposalId>|
            #[trigger] delegated_sum(without_delegation(with_delegation(ds, d), d.delegator), a, scope)
                == delegated_sum(ds, a, scope),
{
    let t = with_delegation(ds, d);
    assert(t == ds.push(d));
    assert(has_delegation(t, d.delegator)) by {
        assert(t[ds.len() as int].delegator == d.delegator);
    }
    let k = crate::governance::delegation_index(t, d.delegator);
    if k < ds.len() {
        assert(t[k] == ds[k]);
        assert(false);
    }
    assert(t.remove(k) =~= ds);
}

} // verus!
