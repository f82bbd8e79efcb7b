//! Proposals, quadratic and delegated voting, and timelocked execution.
use vstd::prelude::*;

use crate::arith::{isqrt, sqrt_u64};
use crate::reputation::{has_score, lemma_score_at, score_of, ReputationState, ScoreEntry};
use crate::types::{AccountId, BlockNumber, Hash256};

verus! {

/// Proposals are numbered from zero in order of creation.
pub type ProposalId = u32;

/// Voting power and delegated amounts.
pub type ReputationScore = u64;

/// A topical tag, such as `b"rust"`.
pub type SkillTag = Vec<u8>;

/// Most tags on one proposal.
pub const MAX_PROPOSAL_TAGS: usize = 5;

/// Most skill tags of one account.
pub const MAX_SKILL_TAGS: usize = 10;

/// Most bytes in one tag.
pub const MAX_TAG_LEN: usize = 32;

/// Most bytes in a proposal's description.
pub const MAX_DESCRIPTION_LEN: usize = 256;

/// Most council members.
pub const MAX_COUNCIL: usize = 50;

/// A council term lasts this many voting periods.
pub const COUNCIL_TERM_PERIODS: u64 = 4;

/// What a proposal does once executed.
pub enum ProposalType {
    TreasurySpend { amount: u64, beneficiary: AccountId },
    RuntimeUpgrade { code_hash: Hash256 },
    ParameterChange { parameter: Vec<u8>, new_value: Vec<u8> },
    CouncilElection,
    Custom { tag: SkillTag, data: Vec<u8> },
}

impl ProposalType {
    /// Classes that need a supermajority to pass.
    pub open spec fn requires_supermajority_spec(&self) -> bool {
        self is TreasurySpend || self is RuntimeUpgrade
    }

    pub fn requires_supermajority(&self) -> (r: bool)
        ensures
            r == self.requires_supermajority_spec(),
    {
        match self {
            ProposalType::TreasurySpend { .. } => true,
            ProposalType::RuntimeUpgrade { .. } => true,
            _ => false,
        }
    }
}

/// A proposal; only the tallies and the terminal flags change after creation.
pub struct Proposal {
    pub id: ProposalId,
    pub proposer: AccountId,
    pub proposal_type: ProposalType,
    pub tags: Vec<SkillTag>,
    pub description: Vec<u8>,
    pub created: BlockNumber,
    pub voting_end: BlockNumber,
    /// Timelock after the end of voting.
    pub execution_delay: BlockNumber,
    pub execution_ready_at: Option<BlockNumber>,
    pub cancelled: bool,
    pub executed: bool,
    pub for_votes: ReputationScore,
    pub against_votes: ReputationScore,
    /// Estimate of all voting power, frozen at creation, for the quorum.
    pub total_voting_power: ReputationScore,
}

/// A recorded vote and the power it was cast with.
#[derive(Clone, Copy, Debug, PartialEq, Eq, Structural)]
pub struct VoteRecord {
    pub proposal_id: ProposalId,
    pub voter: AccountId,
    pub support: bool,
    pub power: ReputationScore,
}

/// An assignment of voting power; `proposal_id` is `None` for a global one.
#[derive(Clone, Copy, Debug, PartialEq, Eq, Structural)]
pub struct Delegation {
    pub delegator: AccountId,
    pub delegatee: AccountId,
    pub amount: ReputationScore,
    pub proposal_id: Option<ProposalId>,
}

/// The topical tags an account declared.
pub struct SkillRecord {
    pub account: AccountId,
    pub tags: Vec<SkillTag>,
}

/// Constants of a deployment.
#[derive(Clone, Copy, Debug, PartialEq, Eq, Structural)]
pub struct GovernanceConfig {
    pub min_proposal_reputation: ReputationScore,
    pub proposal_deposit: u64,
    pub voting_period: BlockNumber,
    pub council_size: u32,
    /// Percent of the total voting power that must take part.
    pub quorum_threshold: u8,
    /// Percent of the votes cast that high-impact classes need in favour.
    pub supermajority_threshold: u8,
    pub execution_delay_period: BlockNumber,
    /// Blocks after creation before a vote may be changed.
    pub min_vote_change_period: BlockNumber,
    /// System-wide voting power estimate that new proposals freeze for the quorum.
    pub estimated_total_voting_power: ReputationScore,
}

#[derive(Clone, Copy, Debug, PartialEq, Eq, Structural)]
pub enum Event {
    ProposalCreated { proposal_id: ProposalId, proposer: AccountId },
    Voted { proposal_id: ProposalId, voter: AccountId, support: bool, voting_power: ReputationScore },
    ProposalExecuted { proposal_id: ProposalId },
    Delegated { delegator: AccountId, delegatee: AccountId, amount: u64 },
    CouncilRotated { term_end: BlockNumber },
    SkillTagsUpdated { account: AccountId },
    VoteChanged {
        proposal_id: ProposalId,
        voter: AccountId,
        old_support: bool,
        new_support: bool,
        voting_power: ReputationScore,
    },
    VoteRevoked { proposal_id: ProposalId, voter: AccountId, voting_power: ReputationScore },
    ProposalCancelled { proposal_id: ProposalId, proposer: AccountId },
    DelegationRevoked { delegator: AccountId, delegatee: AccountId },
    /// The host releases `amount` of the escrowed deposit to `account`.
    DepositReturned { account: AccountId, proposal_id: ProposalId, amount: u64 },
}

#[derive(Clone, Copy, Debug, PartialEq, Eq, Structural)]
pub enum Error {
    InsufficientReputation,
    ProposalNotFound,
    VotingClosed,
    AlreadyVoted,
    CannotExecute,
    InvalidDelegatee,
    DelegationExceedsCapacity,
    NotCouncilMember,
    CouncilTermNotEnded,
    /// Too many tags, a tag too long, or a description too long.
    InvalidProposal,
    QuorumNotMet,
    SupermajorityNotMet,
    ProposalNotReadyForExecution,
    CannotCancelExecutedProposal,
    VoteChangeNotAllowed,
    NotProposer,
    NoVoteToRevoke,
    NoDelegationToRevoke,
    ProposalNotExecutable,
    /// The host could not escrow the proposal deposit.
    DepositNotReserved,
    /// A vote tally would exceed the range of its counter.
    TallyOverflow,
    /// Proposal identifiers are used up.
    TooManyProposals,
    /// Too many skill tags, or a tag too long.
    InvalidSkillTags,
}

/// The whole state of the governance engine.
pub struct GovernanceState {
    pub config: GovernanceConfig,
    /// Proposal `i` is at index `i`.
    pub proposals: Vec<Proposal>,
    /// At most one record per proposal and voter.
    pub votes: Vec<VoteRecord>,
    /// At most one record per delegator.
    pub delegations: Vec<Delegation>,
    pub council: Vec<AccountId>,
    pub council_term_end: BlockNumber,
    /// At most one record per account.
    pub skills: Vec<SkillRecord>,
}

// ---------------------------------------------------------------- tags

/// The byte strings of a list of tags.
pub open spec fn tags_view(tags: Seq<SkillTag>) -> Seq<Seq<u8>> {
    tags.map_values(|t: SkillTag| t@)
}

/// Number of proposal tags that occur among the skills.
pub open spec fn count_matches(ptags: Seq<Seq<u8>>, skills: Seq<Seq<u8>>) -> nat
    decreases ptags.len(),
{
    if ptags.len() == 0 {
        0
    } else {
        count_matches(ptags.drop_last(), skills) + if skills.contains(ptags.last()) {
            1nat
        } else {
            0nat
        }
    }
}

/// Whole-number expertise multiplier: one plus a half per matching tag, capped at three,
/// rounded down.
pub open spec fn expertise_multiplier(ptags: Seq<Seq<u8>>, skills: Seq<Seq<u8>>) -> int {
    if ptags.len() == 0 || skills.len() == 0 {
        1
    } else {
        let m: int = 100 + 50 * (count_matches(ptags, skills) as int);
        (if m > 300 {
            300
        } else {
            m
        }) / 100
    }
}

/// At most `max` tags, none longer than `MAX_TAG_LEN` bytes.
fn tags_ok(tags: &Vec<SkillTag>, max: usize) -> (r: bool)
    ensures
        r == tags_within_bounds(tags@, max as int),
{
    if tags.len() > max {
        return false;
    }
    let mut i: usize = 0;
    while i < tags.len()
        invariant
            i <= tags@.len() <= max,
            forall|j: int| 0 <= j < i ==> (#[trigger] tags@[j])@.len() <= MAX_TAG_LEN,
        decreases tags@.len() - i,
    {
        if tags[i].len() > MAX_TAG_LEN {
            return false;
        }
        i = i + 1;
    }
    true
}

/// Byte-wise equality of two tags.
pub fn tag_eq(a: &SkillTag, b: &SkillTag) -> (r: bool)
    ensures
        r == (a@ == b@),
{
    if a.len() != b.len() {
        return false;
    }
    let mut i: usize = 0;
    while i < a.len()
        invariant
            a@.len() == b@.len(),
            i <= a@.len(),
            forall|j: int| 0 <= j < i ==> a@[j] == b@[j],
        decreases a@.len() - i,
    {
        if a[i] != b[i] {
            return false;
        }
        i = i + 1;
    }
    assert(a@ =~= b@);
    true
}

fn contains_tag(tags: &Vec<SkillTag>, t: &SkillTag) -> (r: bool)
    ensures
        r == tags_view(tags@).contains(t@),
{
    let mut i: usize = 0;
    while i < tags.len()
        invariant
            i <= tags@.len(),
            forall|j: int| 0 <= j < i ==> tags@[j]@ != t@,
        decreases tags@.len() - i,
    {
        if tag_eq(&tags[i], t) {
            assert(tags_view(tags@)[i as int] == t@);
            return true;
        }
        i = i + 1;
    }
    proof {
        if tags_view(tags@).contains(t@) {
            let k = choose|k: int| 0 <= k < tags_view(tags@).len() && tags_view(tags@)[k] == t@;
            assert(tags@[k]@ == t@);
        }
    }
    false
}

/// Expertise multiplier of a voter with `user_skills` on a proposal with `proposal_tags`.
pub fn calculate_expertise_boost(proposal_tags: &Vec<SkillTag>, user_skills: &Vec<SkillTag>) -> (r:
    ReputationScore)
    requires
        proposal_tags@.len() <= MAX_PROPOSAL_TAGS,
    ensures
        r == expertise_multiplier(tags_view(proposal_tags@), tags_view(user_skills@)),
        1 <= r <= 3,
{
    if proposal_tags.len() == 0 || user_skills.len() == 0 {
        return 1;
    }
    let ghost pv = tags_view(proposal_tags@);
    let ghost sv = tags_view(user_skills@);
    let mut matches: u64 = 0;
    let mut i: usize = 0;
    while i < proposal_tags.len()
        invariant
            i <= proposal_tags@.len() <= MAX_PROPOSAL_TAGS,
            pv == tags_view(proposal_tags@),
            sv == tags_view(user_skills@),
            matches == count_matches(pv.take(i as int), sv),
            matches <= i,
        decreases proposal_tags@.len() - i,
    {
        proof {
            assert(pv.take(i + 1).drop_last() =~= pv.take(i as int));
            assert(pv.take(i + 1).last() == proposal_tags@[i as int]@);
        }
        if contains_tag(user_skills, &proposal_tags[i]) {
            matches = matches + 1;
        }
        i = i + 1;
    }
    assert(pv.take(i as int) =~= pv);
    let m: u64 = 100 + 50 * matches;
    let capped: u64 = if m > 300 {
        300
    } else {
        m
    };
    capped / 100
}

// ---------------------------------------------------------------- delegations

/// `d` counts towards `delegatee` in `scope`: it is global, or for that proposal.
pub open spec fn counts_towards(d: Delegation, delegatee: AccountId, scope: Option<ProposalId>) -> bool {
    d.delegatee == delegatee && (d.proposal_id is None || d.proposal_id == scope)
}

/// Sum of the amounts delegated to `delegatee` that count in `scope`.
pub open spec fn delegated_sum(ds: Seq<Delegation>, delegatee: AccountId, scope: Option<ProposalId>) -> int
    decreases ds.len(),
{
    if ds.len() == 0 {
        0
    } else {
        delegated_sum(ds.drop_last(), delegatee, scope) + if counts_towards(
            ds.last(),
            delegatee,
            scope,
        ) {
            ds.last().amount as int
        } else {
            0
        }
    }
}

/// `v`, capped at the largest `u64`.
pub open spec fn saturate_u64(v: int) -> int {
    if v > u64::MAX {
        u64::MAX as int
    } else {
        v
    }
}

pub proof fn lemma_delegated_sum_nonneg(ds: Seq<Delegation>, delegatee: AccountId, scope: Option<ProposalId>)
    ensures
        delegated_sum(ds, delegatee, scope) >= 0,
    decreases ds.len(),
{
    if ds.len() > 0 {
        lemma_delegated_sum_nonneg(ds.drop_last(), delegatee, scope);
    }
}

/// `delegator` has a delegation in `ds`.
pub open spec fn has_delegation(ds: Seq<Delegation>, delegator: AccountId) -> bool {
    exists|i: int| 0 <= i < ds.len() && ds[i].delegator == delegator
}

/// Position of the delegation of `delegator` in `ds`.
pub open spec fn delegation_index(ds: Seq<Delegation>, delegator: AccountId) -> int {
    choose|i: int| 0 <= i < ds.len() && ds[i].delegator == delegator
}

/// No delegator has two records.
pub open spec fn unique_delegators(ds: Seq<Delegation>) -> bool {
    forall|i: int, j: int|
        0 <= i < ds.len() && 0 <= j < ds.len() && #[trigger] ds[i].delegator
            == #[trigger] ds[j].delegator ==> i == j
}

/// `ds` after `d` is stored: it replaces the delegator's record, or is added.
pub open spec fn with_delegation(ds: Seq<Delegation>, d: Delegation) -> Seq<Delegation> {
    if has_delegation(ds, d.delegator) {
        ds.update(delegation_index(ds, d.delegator), d)
    } else {
        ds.push(d)
    }
}

/// `ds` after the record of `delegator` is removed.
pub open spec fn without_delegation(ds: Seq<Delegation>, delegator: AccountId) -> Seq<Delegation> {
    if has_delegation(ds, delegator) {
        ds.remove(delegation_index(ds, delegator))
    } else {
        ds
    }
}

// ---------------------------------------------------------------- votes

/// Sum of the powers recorded on proposal `p` for side `support`.
pub open spec fn tally(vs: Seq<VoteRecord>, p: ProposalId, support: bool) -> int
    decreases vs.len(),
{
    if vs.len() == 0 {
        0
    } else {
        tally(vs.drop_last(), p, support) + if vs.last().proposal_id == p && vs.last().support
            == support {
            vs.last().power as int
        } else {
            0
        }
    }
}

/// `voter` has a recorded vote on `p`.
pub open spec fn has_vote(vs: Seq<VoteRecord>, p: ProposalId, voter: AccountId) -> bool {
    exists|i: int| 0 <= i < vs.len() && vs[i].proposal_id == p && vs[i].voter == voter
}

/// Position of the vote of `voter` on `p`.
pub open spec fn vote_index(vs: Seq<VoteRecord>, p: ProposalId, voter: AccountId) -> int {
    choose|i: int| 0 <= i < vs.len() && vs[i].proposal_id == p && vs[i].voter == voter
}

/// No voter has two records on one proposal.
pub open spec fn unique_votes(vs: Seq<VoteRecord>) -> bool {
    forall|i: int, j: int|
        0 <= i < vs.len() && 0 <= j < vs.len() && #[trigger] vs[i].proposal_id == #[trigger] vs[j].proposal_id
            && vs[i].voter == vs[j].voter ==> i == j
}


/// What vote `v` adds to the tally of side `support` on proposal `p`.
pub open spec fn vote_weight(v: VoteRecord, p: ProposalId, support: bool) -> int {
    if v.proposal_id == p && v.support == support {
        v.power as int
    } else {
        0
    }
}

pub proof fn lemma_tally_nonneg(vs: Seq<VoteRecord>, p: ProposalId, support: bool)
    ensures
        tally(vs, p, support) >= 0,
    decreases vs.len(),
{
    if vs.len() > 0 {
        lemma_tally_nonneg(vs.drop_last(), p, support);
    }
}

pub proof fn lemma_tally_push(vs: Seq<VoteRecord>, v: VoteRecord, p: ProposalId, support: bool)
    ensures
        tally(vs.push(v), p, support) == tally(vs, p, support) + vote_weight(v, p, support),
{
    assert(vs.push(v).drop_last() =~= vs);
}

pub proof fn lemma_tally_update(
    vs: Seq<VoteRecord>,
    k: int,
    v: VoteRecord,
    p: ProposalId,
    support: bool,
)
    requires
        0 <= k < vs.len(),
    ensures
        tally(vs.update(k, v), p, support) == tally(vs, p, support) - vote_weight(vs[k], p, support)
            + vote_weight(v, p, support),
    decreases vs.len(),
{
    let u = vs.update(k, v);
    if k == vs.len() - 1 {
        assert(u.drop_last() =~= vs.drop_last());
    } else {
        assert(u.drop_last() =~= vs.drop_last().update(k, v));
        lemma_tally_update(vs.drop_last(), k, v, p, support);
    }
}

pub proof fn lemma_tally_remove(vs: Seq<VoteRecord>, k: int, p: ProposalId, support: bool)
    requires
        0 <= k < vs.len(),
    ensures
        tally(vs.remove(k), p, support) == tally(vs, p, support) - vote_weight(vs[k], p, support),
    decreases vs.len(),
{
    let u = vs.remove(k);
    if k == vs.len() - 1 {
        assert(u =~= vs.drop_last());
    } else {
        assert(u.drop_last() =~= vs.drop_last().remove(k));
        assert(u.last() == vs.last());
        lemma_tally_remove(vs.drop_last(), k, p, support);
    }
}

/// `vs` with `v` recorded: it replaces the voter's earlier vote on the proposal, or is added.
pub open spec fn with_vote(vs: Seq<VoteRecord>, v: VoteRecord) -> Seq<VoteRecord> {
    if has_vote(vs, v.proposal_id, v.voter) {
        vs.update(vote_index(vs, v.proposal_id, v.voter), v)
    } else {
        vs.push(v)
    }
}

/// `vs` without the vote of `voter` on `p`.
pub open spec fn without_vote(vs: Seq<VoteRecord>, p: ProposalId, voter: AccountId) -> Seq<VoteRecord> {
    if has_vote(vs, p, voter) {
        vs.remove(vote_index(vs, p, voter))
    } else {
        vs
    }
}

/// The vote of `voter` on `p`, if any.
pub open spec fn vote_of(vs: Seq<VoteRecord>, p: ProposalId, voter: AccountId) -> Option<VoteRecord> {
    if has_vote(vs, p, voter) {
        Some(vs[vote_index(vs, p, voter)])
    } else {
        None
    }
}

/// Weight of an optional vote on one side.
pub open spec fn prior_weight(v: Option<VoteRecord>, support: bool) -> int {
    match v {
        Some(x) => if x.support == support {
            x.power as int
        } else {
            0
        },
        None => 0,
    }
}

/// `p` with its tallies replaced.
pub open spec fn with_tallies(p: Proposal, for_votes: int, against_votes: int) -> Proposal {
    Proposal { for_votes: for_votes as u64, against_votes: against_votes as u64, ..p }
}

// ---------------------------------------------------------------- skills

/// `a` has declared skill tags.
pub open spec fn has_skills(s: Seq<SkillRecord>, a: AccountId) -> bool {
    exists|i: int| 0 <= i < s.len() && s[i].account == a
}

/// Position of the skill record of `a`.
pub open spec fn skills_index(s: Seq<SkillRecord>, a: AccountId) -> int {
    choose|i: int| 0 <= i < s.len() && s[i].account == a
}

/// Skill tags of `a`; none where none are stored.
pub open spec fn skills_of(s: Seq<SkillRecord>, a: AccountId) -> Seq<Seq<u8>> {
    if has_skills(s, a) {
        tags_view(s[skills_index(s, a)].tags@)
    } else {
        Seq::empty()
    }
}

/// No account has two skill records.
pub open spec fn unique_skill_accounts(s: Seq<SkillRecord>) -> bool {
    forall|i: int, j: int|
        0 <= i < s.len() && 0 <= j < s.len() && #[trigger] s[i].account == #[trigger] s[j].account
            ==> i == j
}

// ---------------------------------------------------------------- voting power

/// Reputation as a non-negative amount.
pub open spec fn nonneg(score: int) -> nat {
    if score < 0 {
        0
    } else {
        score as nat
    }
}

/// Square root of the voter's reputation, times the expertise multiplier, plus what is
/// delegated to the voter for the proposal (saturating).
pub open spec fn voting_power_of(
    reputation: int,
    ptags: Seq<Seq<u8>>,
    skills: Seq<Seq<u8>>,
    ds: Seq<Delegation>,
    voter: AccountId,
    p: ProposalId,
) -> int {
    saturate_u64(
        isqrt(nonneg(reputation)) * expertise_multiplier(ptags, skills) + saturate_u64(
            delegated_sum(ds, voter, Some(p)),
        ),
    )
}

/// At most `max` tags, none longer than `MAX_TAG_LEN` bytes.
pub open spec fn tags_within_bounds(tags: Seq<SkillTag>, max: int) -> bool {
    &&& tags.len() <= max
    &&& forall|i: int| 0 <= i < tags.len() ==> (#[trigger] tags[i])@.len() <= MAX_TAG_LEN
}

impl GovernanceState {
    pub open spec fn wf(&self) -> bool {
        &&& forall|i: int|
            0 <= i < self.proposals@.len() ==> {
                let p = #[trigger] self.proposals@[i];
                &&& p.id == i
                &&& p.tags@.len() <= MAX_PROPOSAL_TAGS
                &&& p.for_votes == tally(self.votes@, i as ProposalId, true)
                &&& p.against_votes == tally(self.votes@, i as ProposalId, false)
            }
        &&& self.proposals@.len() <= u32::MAX + 1
        &&& unique_votes(self.votes@)
        &&& forall|i: int|
            0 <= i < self.votes@.len() ==> (#[trigger] self.votes@[i]).proposal_id
                < self.proposals@.len()
        &&& unique_delegators(self.delegations@)
        &&& unique_skill_accounts(self.skills@)
        &&& self.council@.len() <= MAX_COUNCIL
    }

    /// No proposals, votes, delegations or council.
    pub fn new(config: GovernanceConfig) -> (r: GovernanceState)
        ensures
            r.wf(),
            r.config == config,
            r.proposals@.len() == 0,
            r.votes@.len() == 0,
            r.delegations@.len() == 0,
            r.council@.len() == 0,
            r.council_term_end == 0,
            r.skills@.len() == 0,
    {
        GovernanceState {
            config,
            proposals: Vec::new(),
            votes: Vec::new(),
            delegations: Vec::new(),
            council: Vec::new(),
            council_term_end: 0,
            skills: Vec::new(),
        }
    }

    fn find_skills(&self, a: AccountId) -> (r: Option<usize>)
        requires
            unique_skill_accounts(self.skills@),
        ensures
            match r {
                Some(i) => i < self.skills@.len() && self.skills@[i as int].account == a
                    && skills_index(self.skills@, a) == i,
                None => !has_skills(self.skills@, a),
            },
    {
        let mut i: usize = 0;
        while i < self.skills.len()
            invariant
                i <= self.skills@.len(),
                unique_skill_accounts(self.skills@),
                forall|j: int| 0 <= j < i ==> self.skills@[j].account != a,
            decreases self.skills@.len() - i,
        {
            if self.skills[i].account == a {
                proof {
                    let s = self.skills@;
                    let k = skills_index(s, a);
                    assert(s[i as int].account == a);
                    assert(s[k].account == s[i as int].account);
                }
                return Some(i);
            }
            i = i + 1;
        }
        None
    }

    /// Sum of the amounts delegated to `delegatee` that count in `scope`, saturating.
    pub fn get_delegated_power(&self, delegatee: AccountId, scope: Option<ProposalId>) -> (r:
        ReputationScore)
        ensures
            r == saturate_u64(delegated_sum(self.delegations@, delegatee, scope)),
    {
        let mut total: u64 = 0;
        let mut i: usize = 0;
        while i < self.delegations.len()
            invariant
                i <= self.delegations@.len(),
                total == saturate_u64(delegated_sum(self.delegations@.take(i as int), delegatee, scope)),
            decreases self.delegations@.len() - i,
        {
            let d = self.delegations[i];
            proof {
                let ds = self.delegations@;
                assert(ds.take(i + 1).drop_last() =~= ds.take(i as int));
                assert(ds.take(i + 1).last() == d);
                lemma_delegated_sum_nonneg(ds.take(i as int), delegatee, scope);
            }
            let counts = d.delegatee == delegatee && match d.proposal_id {
                None => true,
                Some(p) => match scope {
                    Some(q) => p == q,
                    None => false,
                },
            };
            if counts {
                total = total.saturating_add(d.amount);
            }
            i = i + 1;
        }
        assert(self.delegations@.take(i as int) =~= self.delegations@);
        total
    }

    /// The largest total that `delegatee` receives for any one proposal, saturating.
    pub fn peak_delegated_power(&self, delegatee: AccountId) -> (r: ReputationScore)
        ensures
            forall|q: ProposalId|
                saturate_u64(#[trigger] delegated_sum(self.delegations@, delegatee, Some(q))) <= r,
            r == saturate_u64(delegated_sum(self.delegations@, delegatee, None)) || exists|
                q: ProposalId,
            | r == saturate_u64(#[trigger] delegated_sum(self.delegations@, delegatee, Some(q))),
    {
        let ghost ds = self.delegations@;
        let mut peak = self.get_delegated_power(delegatee, None);
        let mut i: usize = 0;
        while i < self.delegations.len()
            invariant
                ds == self.delegations@,
                i <= ds.len(),
                peak >= saturate_u64(delegated_sum(ds, delegatee, None)),
                peak == saturate_u64(delegated_sum(ds, delegatee, None)) || exists|q: ProposalId|
                    peak == saturate_u64(#[trigger] delegated_sum(ds, delegatee, Some(q))),
                forall|j: int|
                    0 <= j < i && (#[trigger] ds[j]).delegatee == delegatee && ds[j].proposal_id
                        is Some ==> saturate_u64(
                        delegated_sum(ds, delegatee, ds[j].proposal_id),
                    ) <= peak,
            decreases ds.len() - i,
        {
            let d = self.delegations[i];
            if d.delegatee == delegatee {
                if let Some(q) = d.proposal_id {
                    let total = self.get_delegated_power(delegatee, Some(q));
                    if total > peak {
                        peak = total;
                    }
                }
            }
            i = i + 1;
        }
        proof {
            assert forall|q: ProposalId|
                saturate_u64(#[trigger] delegated_sum(ds, delegatee, Some(q))) <= peak by {
                if exists|j: int|
                    0 <= j < ds.len() && (#[trigger] ds[j]).delegatee == delegatee && ds[j].proposal_id
                        == Some(q) {
                    let j = choose|j: int|
                        0 <= j < ds.len() && (#[trigger] ds[j]).delegatee == delegatee
                            && ds[j].proposal_id == Some(q);
                    assert(ds[j].proposal_id is Some);
                } else {
                    lemma_unscoped_is_global(ds, delegatee, q);
                }
            }
        }
        peak
    }

    /// Voting power of `voter` on proposal `proposal_id`.
    pub fn calculate_voting_power(
        &self,
        reputation: &ReputationState,
        voter: AccountId,
        proposal_id: ProposalId,
    ) -> (r: ReputationScore)
        requires
            self.wf(),
            reputation.wf(),
            proposal_id < self.proposals@.len(),
        ensures
            r == voting_power_of(
                score_of(reputation@.scores, voter),
                tags_view(self.proposals@[proposal_id as int].tags@),
                skills_of(self.skills@, voter),
                self.delegations@,
                voter,
                proposal_id,
            ),
    {
        let score = reputation.get_reputation(voter);
        let base: u64 = if score < 0 {
            0
        } else {
            score as u64
        };
        let quadratic = sqrt_u64(base);
        let proposal = &self.proposals[proposal_id as usize];
        proof {
            assert(proposal.tags@.len() <= MAX_PROPOSAL_TAGS);
        }
        let multiplier = match self.find_skills(voter) {
            Some(i) => calculate_expertise_boost(&proposal.tags, &self.skills[i].tags),
            None => {
                let empty: Vec<SkillTag> = Vec::new();
                proof {
                    assert(tags_view(empty@) =~= Seq::<Seq<u8>>::empty());
                }
                calculate_expertise_boost(&proposal.tags, &empty)
            },
        };
        let delegated = self.get_delegated_power(voter, Some(proposal_id));
        proof {
            crate::arith::lemma_isqrt_bounds(base as nat);
            assert(quadratic <= base) by (nonlinear_arith)
                requires
                    quadratic * quadratic <= base,
                    quadratic >= 0,
            ;
            assert(base <= i32::MAX);
            assert(quadratic <= 50_000) by (nonlinear_arith)
                requires
                    quadratic * quadratic <= base,
                    base <= i32::MAX,
                    quadratic >= 0,
            ;
        }
        assert(quadratic * multiplier <= 150_000) by (nonlinear_arith)
            requires
                quadratic <= 50_000,
                multiplier <= 3,
        ;
        let power = (quadratic * multiplier).saturating_add(delegated);
        power
    }
}


impl GovernanceState {
    /// Power that `voter` would vote with now on proposal `p`.
    pub open spec fn power_spec(&self, scores: Seq<ScoreEntry>, voter: AccountId, p: ProposalId) -> int {
        voting_power_of(
            score_of(scores, voter),
            tags_view(self.proposals@[p as int].tags@),
            skills_of(self.skills@, voter),
            self.delegations@,
            voter,
            p,
        )
    }

    /// The outcome of a vote: the record to store and the notifications, or the error.
    pub open spec fn vote_spec(
        &self,
        scores: Seq<ScoreEntry>,
        who: AccountId,
        proposal_id: ProposalId,
        support: bool,
        now: BlockNumber,
    ) -> Result<(VoteRecord, Seq<Event>), Error> {
        let pid = proposal_id as int;
        if pid >= self.proposals@.len() {
            Err(Error::ProposalNotFound)
        } else {
            let p = self.proposals@[pid];
            let prior = vote_of(self.votes@, proposal_id, who);
            let elapsed: int = if now >= p.created {
                now - p.created
            } else {
                0
            };
            let power = self.power_spec(scores, who, proposal_id);
            let new_for = p.for_votes - prior_weight(prior, true) + if support {
                power
            } else {
                0
            };
            let new_against = p.against_votes - prior_weight(prior, false) + if support {
                0
            } else {
                power
            };
            let v = VoteRecord { proposal_id, voter: who, support, power: power as u64 };
            if now >= p.voting_end {
                Err(Error::VotingClosed)
            } else if prior is Some && elapsed < self.config.min_vote_change_period {
                Err(Error::VoteChangeNotAllowed)
            } else if new_for > u64::MAX || new_against > u64::MAX {
                Err(Error::TallyOverflow)
            } else {
                let voted = Event::Voted {
                    proposal_id,
                    voter: who,
                    support,
                    voting_power: power as u64,
                };
                Ok(
                    (
                        v,
                        match prior {
                            Some(o) => seq![
                                Event::VoteChanged {
                                    proposal_id,
                                    voter: who,
                                    old_support: o.support,
                                    new_support: support,
                                    voting_power: power as u64,
                                },
                                voted,
                            ],
                            None => seq![voted],
                        },
                    ),
                )
            }
        }
    }
}

/// The error of a result, if any.
pub open spec fn error_of<T>(r: Result<T, Error>) -> Option<Error> {
    match r {
        Ok(_) => None,
        Err(e) => Some(e),
    }
}


pub proof fn lemma_tally_ge_member(vs: Seq<VoteRecord>, k: int, p: ProposalId, support: bool)
    requires
        0 <= k < vs.len(),
    ensures
        tally(vs, p, support) >= vote_weight(vs[k], p, support),
{
    lemma_tally_remove(vs, k, p, support);
    lemma_tally_nonneg(vs.remove(k), p, support);
}

/// Everything but the proposals and the votes is as it was.
pub open spec fn same_except_votes(a: &GovernanceState, b: &GovernanceState) -> bool {
    &&& a.config == b.config
    &&& a.delegations@ == b.delegations@
    &&& a.council@ == b.council@
    &&& a.council_term_end == b.council_term_end
    &&& a.skills@ == b.skills@
}

/// The two states hold the same values.
pub open spec fn unchanged(a: &GovernanceState, b: &GovernanceState) -> bool {
    &&& same_except_votes(a, b)
    &&& a.proposals@ == b.proposals@
    &&& a.votes@ == b.votes@
}

impl GovernanceState {
    /// The outcome of revoking a vote: the removed record and the notifications, or the error.
    pub open spec fn revoke_vote_spec(&self, who: AccountId, proposal_id: ProposalId, now: BlockNumber) -> Result<
        (VoteRecord, Seq<Event>),
        Error,
    > {
        let pid = proposal_id as int;
        if pid >= self.proposals@.len() {
            Err(Error::ProposalNotFound)
        } else if now >= self.proposals@[pid].voting_end {
            Err(Error::VotingClosed)
        } else {
            match vote_of(self.votes@, proposal_id, who) {
                None => Err(Error::NoVoteToRevoke),
                Some(v) => Ok(
                    (
                        v,
                        seq![
                            Event::VoteRevoked {
                                proposal_id,
                                voter: who,
                                voting_power: v.power,
                            },
                        ],
                    ),
                ),
            }
        }
    }

    fn find_vote(&self, proposal_id: ProposalId, voter: AccountId) -> (r: Option<usize>)
        requires
            unique_votes(self.votes@),
        ensures
            match r {
                Some(k) => k < self.votes@.len() && has_vote(self.votes@, proposal_id, voter)
                    && vote_index(self.votes@, proposal_id, voter) == k,
                None => !has_vote(self.votes@, proposal_id, voter),
            },
    {
        let mut i: usize = 0;
        while i < self.votes.len()
            invariant
                i <= self.votes@.len(),
                unique_votes(self.votes@),
                forall|j: int|
                    0 <= j < i ==> !(self.votes@[j].proposal_id == proposal_id
                        && self.votes@[j].voter == voter),
            decreases self.votes@.len() - i,
        {
            let v = self.votes[i];
            if v.proposal_id == proposal_id && v.voter == voter {
                proof {
                    let vs = self.votes@;
                    assert(has_vote(vs, proposal_id, voter));
                    let k = vote_index(vs, proposal_id, voter);
                    assert(vs[k].proposal_id == vs[i as int].proposal_id);
                }
                return Some(i);
            }
            i = i + 1;
        }
        None
    }

    /// Replaces the tallies of proposal `pid`.
    fn set_tallies(&mut self, pid: usize, for_votes: u64, against_votes: u64)
        requires
            pid < old(self).proposals@.len(),
        ensures
            final(self).proposals@ == old(self).proposals@.update(
                pid as int,
                with_tallies(old(self).proposals@[pid as int], for_votes as int, against_votes as int),
            ),
            same_except_votes(old(self), final(self)),
            final(self).votes@ == old(self).votes@,
    {
        let mut p = self.proposals.remove(pid);
        p.for_votes = for_votes;
        p.against_votes = against_votes;
        self.proposals.insert(pid, p);
        proof {
            assert(final(self).proposals@ =~= old(self).proposals@.update(
                pid as int,
                with_tallies(old(self).proposals@[pid as int], for_votes as int, against_votes as int),
            ));
        }
    }

    /// Casts a vote, or changes an earlier one once the change period has passed.
    pub fn vote(
        &mut self,
        reputation: &ReputationState,
        who: AccountId,
        proposal_id: ProposalId,
        support: bool,
        now: BlockNumber,
    ) -> (r: Result<Vec<Event>, Error>)
        requires
            old(self).wf(),
            reputation.wf(),
        ensures
            final(self).wf(),
            match old(self).vote_spec(reputation@.scores, who, proposal_id, support, now) {
                Ok((v, events)) => {
                    let p = old(self).proposals@[proposal_id as int];
                    let prior = vote_of(old(self).votes@, proposal_id, who);
                    &&& r matches Ok(ev) && ev@ == events
                    &&& same_except_votes(old(self), final(self))
                    &&& final(self).votes@ == with_vote(old(self).votes@, v)
                    &&& final(self).proposals@ == old(self).proposals@.update(
                        proposal_id as int,
                        with_tallies(
                            p,
                            p.for_votes - prior_weight(prior, true) + vote_weight(v, proposal_id, true),
                            p.against_votes - prior_weight(prior, false) + vote_weight(
                                v,
                                proposal_id,
                                false,
                            ),
                        ),
                    )
                },
                Err(e) => r == Err::<Vec<Event>, Error>(e) && unchanged(old(self), final(self)),
            },
    {
        if proposal_id as usize >= self.proposals.len() {
            return Err(Error::ProposalNotFound);
        }
        let pid = proposal_id as usize;
        let voting_end = self.proposals[pid].voting_end;
        let created = self.proposals[pid].created;
        let for_votes = self.proposals[pid].for_votes;
        let against_votes = self.proposals[pid].against_votes;
        if now >= voting_end {
            return Err(Error::VotingClosed);
        }
        let prior_idx = self.find_vote(proposal_id, who);
        let prior: Option<VoteRecord> = match prior_idx {
            Some(k) => Some(self.votes[k]),
            None => None,
        };
        if prior.is_some() && now.saturating_sub(created) < self.config.min_vote_change_period {
            return Err(Error::VoteChangeNotAllowed);
        }
        let power = self.calculate_voting_power(reputation, who, proposal_id);
        let (prior_for, prior_against): (u64, u64) = match prior {
            Some(o) => if o.support {
                (o.power, 0)
            } else {
                (0, o.power)
            },
            None => (0, 0),
        };
        proof {
            if let Some(k) = prior_idx {
                lemma_tally_ge_member(self.votes@, k as int, proposal_id, true);
                lemma_tally_ge_member(self.votes@, k as int, proposal_id, false);
            }
            assert(self.proposals@[pid as int].for_votes == tally(self.votes@, proposal_id, true));
        }
        let new_for: u128 = (for_votes - prior_for) as u128 + if support {
            power as u128
        } else {
            0
        };
        let new_against: u128 = (against_votes - prior_against) as u128 + if support {
            0
        } else {
            power as u128
        };
        if new_for > u64::MAX as u128 || new_against > u64::MAX as u128 {
            return Err(Error::TallyOverflow);
        }
        let v = VoteRecord { proposal_id, voter: who, support, power };
        let ghost old_votes = self.votes@;
        match prior_idx {
            Some(k) => {
                self.votes.set(k, v);
            },
            None => {
                self.votes.push(v);
            },
        }
        self.set_tallies(pid, new_for as u64, new_against as u64);
        proof {
            let vs = self.votes@;
            assert forall|q: ProposalId, side: bool| #[trigger]
                tally(vs, q, side) == tally(old_votes, q, side) - prior_weight_at(
                    old_votes,
                    prior_idx,
                    q,
                    side,
                ) + vote_weight(v, q, side) by {
                match prior_idx {
                    Some(k) => lemma_tally_update(old_votes, k as int, v, q, side),
                    None => lemma_tally_push(old_votes, v, q, side),
                }
            }
            assert forall|i: int| 0 <= i < self.proposals@.len() implies {
                let p = #[trigger] self.proposals@[i];
                &&& p.id == i
                &&& p.tags@.len() <= MAX_PROPOSAL_TAGS
                &&& p.for_votes == tally(self.votes@, i as ProposalId, true)
                &&& p.against_votes == tally(self.votes@, i as ProposalId, false)
            } by {
                assert(tally(vs, i as ProposalId, true) == tally(old_votes, i as ProposalId, true)
                    - prior_weight_at(old_votes, prior_idx, i as ProposalId, true) + vote_weight(
                    v,
                    i as ProposalId,
                    true,
                ));
                assert(tally(vs, i as ProposalId, false) == tally(old_votes, i as ProposalId, false)
                    - prior_weight_at(old_votes, prior_idx, i as ProposalId, false) + vote_weight(
                    v,
                    i as ProposalId,
                    false,
                ));
            }
            assert forall|i: int, j: int|
                0 <= i < vs.len() && 0 <= j < vs.len() && #[trigger] vs[i].proposal_id
                    == #[trigger] vs[j].proposal_id && vs[i].voter == vs[j].voter implies i == j by {
                match prior_idx {
                    Some(k) => {
                        if i != k as int && j != k as int {
                            assert(old_votes[i] == vs[i] && old_votes[j] == vs[j]);
                        } else if i != k as int {
                            assert(old_votes[i] == vs[i]);
                            assert(old_votes[k as int].proposal_id == proposal_id);
                        } else if j != k as int {
                            assert(old_votes[j] == vs[j]);
                            assert(old_votes[k as int].proposal_id == proposal_id);
                        }
                    },
                    None => {
                        if i < old_votes.len() && j < old_votes.len() {
                            assert(old_votes[i] == vs[i] && old_votes[j] == vs[j]);
                        } else if i < old_votes.len() {
                            assert(old_votes[i] == vs[i]);
                        } else if j < old_votes.len() {
                            assert(old_votes[j] == vs[j]);
                        }
                    },
                }
            }
            assert forall|i: int| 0 <= i < vs.len() implies (#[trigger] vs[i]).proposal_id
                < self.proposals@.len() by {
                if i < old_votes.len() && (prior_idx is None || i != prior_idx.unwrap() as int) {
                    assert(old_votes[i] == vs[i]);
                }
            }
            match prior_idx {
                Some(k) => {
                    assert(vote_of(old_votes, proposal_id, who) == Some(old_votes[k as int]));
                },
                None => {},
            }
        }
        let mut events: Vec<Event> = Vec::new();
        if let Some(o) = prior {
            events.push(
                Event::VoteChanged {
                    proposal_id,
                    voter: who,
                    old_support: o.support,
                    new_support: support,
                    voting_power: power,
                },
            );
        }
        events.push(Event::Voted { proposal_id, voter: who, support, voting_power: power });
        proof {
            let voted = Event::Voted { proposal_id, voter: who, support, voting_power: power };
            match prior {
                Some(o) => {
                    assert(events@ =~= seq![
                        Event::VoteChanged {
                            proposal_id,
                            voter: who,
                            old_support: o.support,
                            new_support: support,
                            voting_power: power,
                        },
                        voted,
                    ]);
                },
                None => {
                    assert(events@ =~= seq![voted]);
                },
            }
        }
        Ok(events)
    }

    /// Withdraws a vote and its power from the tally.
    pub fn revoke_vote(&mut self, who: AccountId, proposal_id: ProposalId, now: BlockNumber) -> (r:
        Result<Vec<Event>, Error>)
        requires
            old(self).wf(),
        ensures
            final(self).wf(),
            match old(self).revoke_vote_spec(who, proposal_id, now) {
                Ok((v, events)) => {
                    let p = old(self).proposals@[proposal_id as int];
                    &&& r matches Ok(ev) && ev@ == events
                    &&& same_except_votes(old(self), final(self))
                    &&& final(self).votes@ == without_vote(old(self).votes@, proposal_id, who)
                    &&& final(self).proposals@ == old(self).proposals@.update(
                        proposal_id as int,
                        with_tallies(
                            p,
                            p.for_votes - vote_weight(v, proposal_id, true),
                            p.against_votes - vote_weight(v, proposal_id, false),
                        ),
                    )
                },
                Err(e) => r == Err::<Vec<Event>, Error>(e) && unchanged(old(self), final(self)),
            },
    {
        if proposal_id as usize >= self.proposals.len() {
            return Err(Error::ProposalNotFound);
        }
        let pid = proposal_id as usize;
        if now >= self.proposals[pid].voting_end {
            return Err(Error::VotingClosed);
        }
        let k = match self.find_vote(proposal_id, who) {
            Some(k) => k,
            None => {
                return Err(Error::NoVoteToRevoke);
            },
        };
        let v = self.votes[k];
        let for_votes = self.proposals[pid].for_votes;
        let against_votes = self.proposals[pid].against_votes;
        proof {
            lemma_tally_ge_member(self.votes@, k as int, proposal_id, true);
            lemma_tally_ge_member(self.votes@, k as int, proposal_id, false);
            assert(vote_of(self.votes@, proposal_id, who) == Some(v));
        }
        let new_for: u64 = if v.support {
            for_votes - v.power
        } else {
            for_votes
        };
        let new_against: u64 = if v.support {
            against_votes
        } else {
            against_votes - v.power
        };
        let ghost old_votes = self.votes@;
        self.votes.remove(k);
        self.set_tallies(pid, new_for, new_against);
        proof {
            let vs = self.votes@;
            assert forall|q: ProposalId, side: bool| #[trigger]
                tally(vs, q, side) == tally(old_votes, q, side) - vote_weight(v, q, side) by {
                lemma_tally_remove(old_votes, k as int, q, side);
            }
            assert forall|i: int| 0 <= i < self.proposals@.len() implies {
                let p = #[trigger] self.proposals@[i];
                &&& p.id == i
                &&& p.tags@.len() <= MAX_PROPOSAL_TAGS
                &&& p.for_votes == tally(self.votes@, i as ProposalId, true)
                &&& p.against_votes == tally(self.votes@, i as ProposalId, false)
            } by {
                assert(tally(vs, i as ProposalId, true) == tally(old_votes, i as ProposalId, true)
                    - vote_weight(v, i as ProposalId, true));
                assert(tally(vs, i as ProposalId, false) == tally(old_votes, i as ProposalId, false)
                    - vote_weight(v, i as ProposalId, false));
            }
            assert forall|i: int, j: int|
                0 <= i < vs.len() && 0 <= j < vs.len() && #[trigger] vs[i].proposal_id
                    == #[trigger] vs[j].proposal_id && vs[i].voter == vs[j].voter implies i == j by {
                let i0 = if i < k { i } else { i + 1 };
                let j0 = if j < k { j } else { j + 1 };
                assert(vs[i] == old_votes[i0]);
                assert(vs[j] == old_votes[j0]);
            }
            assert forall|i: int| 0 <= i < vs.len() implies (#[trigger] vs[i]).proposal_id
                < self.proposals@.len() by {
                let i0 = if i < k { i } else { i + 1 };
                assert(vs[i] == old_votes[i0]);
            }
        }
        let mut events: Vec<Event> = Vec::new();
        events.push(Event::VoteRevoked { proposal_id, voter: who, voting_power: v.power });
        assert(events@ =~= seq![Event::VoteRevoked { proposal_id, voter: who, voting_power: v.power }]);
        Ok(events)
    }
}

/// Weight on `side` of `q` of the record at `k`, if any.
pub open spec fn prior_weight_at(vs: Seq<VoteRecord>, k: Option<usize>, q: ProposalId, side: bool) -> int {
    match k {
        Some(i) => vote_weight(vs[i as int], q, side),
        None => 0,
    }
}


pub proof fn lemma_tally_absent(vs: Seq<VoteRecord>, p: ProposalId, support: bool)
    requires
        forall|i: int| 0 <= i < vs.len() ==> (#[trigger] vs[i]).proposal_id != p,
    ensures
        tally(vs, p, support) == 0,
    decreases vs.len(),
{
    if vs.len() > 0 {
        lemma_tally_absent(vs.drop_last(), p, support);
    }
}

/// `a + b`, or the largest `u64` where that overflows.
pub open spec fn sat_add(a: u64, b: u64) -> u64 {
    if a + b > u64::MAX {
        u64::MAX
    } else {
        (a + b) as u64
    }
}

/// `s` with the skill tags of `r.account` replaced by those of `r` (or added).
pub open spec fn with_skills(s: Seq<SkillRecord>, r: SkillRecord) -> Seq<SkillRecord> {
    if has_skills(s, r.account) {
        s.update(skills_index(s, r.account), r)
    } else {
        s.push(r)
    }
}

impl GovernanceState {
    /// The error that a new proposal meets, if any.
    pub open spec fn create_error(
        &self,
        scores: Seq<ScoreEntry>,
        who: AccountId,
        tags: Seq<SkillTag>,
        description: Seq<u8>,
        deposit_reserved: bool,
    ) -> Option<Error> {
        if !tags_within_bounds(tags, MAX_PROPOSAL_TAGS as int) || description.len() > MAX_DESCRIPTION_LEN {
            Some(Error::InvalidProposal)
        } else if nonneg(score_of(scores, who)) < self.config.min_proposal_reputation {
            Some(Error::InsufficientReputation)
        } else if self.proposals@.len() > u32::MAX {
            Some(Error::TooManyProposals)
        } else if !deposit_reserved {
            Some(Error::DepositNotReserved)
        } else {
            None
        }
    }

    /// Tells, before the host escrows a deposit, whether `who` could open a proposal with
    /// these tags and description: the error `create_proposal` would return with the deposit
    /// escrowed, if any.
    pub fn check_create_proposal(
        &self,
        reputation: &ReputationState,
        who: AccountId,
        tags: &Vec<SkillTag>,
        description: &Vec<u8>,
    ) -> (r: Result<(), Error>)
        requires
            reputation.wf(),
        ensures
            error_of(r) == self.create_error(reputation@.scores, who, tags@, description@, true),
    {
        if !tags_ok(tags, MAX_PROPOSAL_TAGS) || description.len() > MAX_DESCRIPTION_LEN {
            return Err(Error::InvalidProposal);
        }
        let score = reputation.get_reputation(who);
        let rep: u64 = if score < 0 {
            0
        } else {
            score as u64
        };
        if rep < self.config.min_proposal_reputation {
            return Err(Error::InsufficientReputation);
        }
        if self.proposals.len() > u32::MAX as usize {
            return Err(Error::TooManyProposals);
        }
        Ok(())
    }

    /// Opens a proposal for voting. `deposit_reserved` is whether the host escrowed the
    /// proposer's deposit; `check_create_proposal` tells beforehand whether any other
    /// condition fails, and on any error the host releases what it escrowed.
    pub fn create_proposal(
        &mut self,
        reputation: &ReputationState,
        who: AccountId,
        proposal_type: ProposalType,
        tags: Vec<SkillTag>,
        description: Vec<u8>,
        now: BlockNumber,
        deposit_reserved: bool,
    ) -> (r: Result<Vec<Event>, Error>)
        requires
            old(self).wf(),
            reputation.wf(),
        ensures
            final(self).wf(),
            error_of(r) == old(self).create_error(
                reputation@.scores,
                who,
                tags@,
                description@,
                deposit_reserved,
            ),
            r is Err ==> unchanged(old(self), final(self)),
            r matches Ok(ev) ==> {
                let id = old(self).proposals@.len() as ProposalId;
                let voting_end = sat_add(now, old(self).config.voting_period);
                &&& ev@ == seq![Event::ProposalCreated { proposal_id: id, proposer: who }]
                &&& same_except_votes(old(self), final(self))
                &&& final(self).votes@ == old(self).votes@
                &&& final(self).proposals@ == old(self).proposals@.push(
                    Proposal {
                        id,
                        proposer: who,
                        proposal_type,
                        tags,
                        description,
                        created: now,
                        voting_end,
                        execution_delay: old(self).config.execution_delay_period,
                        execution_ready_at: Some(
                            sat_add(voting_end, old(self).config.execution_delay_period),
                        ),
                        cancelled: false,
                        executed: false,
                        for_votes: 0,
                        against_votes: 0,
                        total_voting_power: old(self).config.estimated_total_voting_power,
                    },
                )
            },
    {
        self.check_create_proposal(reputation, who, &tags, &description)?;
        if !deposit_reserved {
            return Err(Error::DepositNotReserved);
        }
        let id = self.proposals.len() as ProposalId;
        let voting_end = now.saturating_add(self.config.voting_period);
        let execution_delay = self.config.execution_delay_period;
        let proposal = Proposal {
            id,
            proposer: who,
            proposal_type,
            tags,
            description,
            created: now,
            voting_end,
            execution_delay,
            execution_ready_at: Some(voting_end.saturating_add(execution_delay)),
            cancelled: false,
            executed: false,
            for_votes: 0,
            against_votes: 0,
            total_voting_power: self.config.estimated_total_voting_power,
        };
        let ghost old_props = self.proposals@;
        self.proposals.push(proposal);
        proof {
            lemma_tally_absent(self.votes@, id, true);
            lemma_tally_absent(self.votes@, id, false);
            assert forall|i: int| 0 <= i < self.proposals@.len() implies {
                let p = #[trigger] self.proposals@[i];
                &&& p.id == i
                &&& p.tags@.len() <= MAX_PROPOSAL_TAGS
                &&& p.for_votes == tally(self.votes@, i as ProposalId, true)
                &&& p.against_votes == tally(self.votes@, i as ProposalId, false)
            } by {
                if i < old_props.len() {
                    assert(self.proposals@[i] == old_props[i]);
                }
            }
        }
        let mut events: Vec<Event> = Vec::new();
        events.push(Event::ProposalCreated { proposal_id: id, proposer: who });
        assert(events@ =~= seq![Event::ProposalCreated { proposal_id: id, proposer: who }]);
        Ok(events)
    }

    /// Replaces the skill tags of `who`.
    pub fn update_skill_tags(&mut self, who: AccountId, tags: Vec<SkillTag>) -> (r: Result<
        Vec<Event>,
        Error,
    >)
        requires
            old(self).wf(),
        ensures
            final(self).wf(),
            r is Err <==> !tags_within_bounds(tags@, MAX_SKILL_TAGS as int),
            r is Err ==> r == Err::<Vec<Event>, Error>(Error::InvalidSkillTags) && unchanged(
                old(self),
                final(self),
            ),
            r matches Ok(ev) ==> {
                &&& ev@ == seq![Event::SkillTagsUpdated { account: who }]
                &&& final(self).skills@ == with_skills(
                    old(self).skills@,
                    SkillRecord { account: who, tags },
                )
                &&& skills_of(final(self).skills@, who) == tags_view(tags@)
                &&& forall|b: AccountId|
                    b != who ==> #[trigger] skills_of(final(self).skills@, b) == skills_of(
                        old(self).skills@,
                        b,
                    )
                &&& final(self).config == old(self).config
                &&& final(self).proposals@ == old(self).proposals@
                &&& final(self).votes@ == old(self).votes@
                &&& final(self).delegations@ == old(self).delegations@
                &&& final(self).council@ == old(self).council@
                &&& final(self).council_term_end == old(self).council_term_end
            },
    {
        if !tags_ok(&tags, MAX_SKILL_TAGS) {
            return Err(Error::InvalidSkillTags);
        }
        let ghost old_skills = self.skills@;
        let ghost tags_in = tags;
        let rec = SkillRecord { account: who, tags };
        match self.find_skills(who) {
            Some(k) => {
                self.skills.set(k, rec);
            },
            None => {
                self.skills.push(rec);
            },
        }
        proof {
            let t = self.skills@;
            let r0 = SkillRecord { account: who, tags: tags_in };
            assert(t == with_skills(old_skills, r0));
            assert forall|a: int, b: int|
                0 <= a < t.len() && 0 <= b < t.len() && #[trigger] t[a].account
                    == #[trigger] t[b].account implies a == b by {
                if has_skills(old_skills, who) {
                    let k = skills_index(old_skills, who);
                    if a != k && b != k {
                        assert(old_skills[a].account == old_skills[b].account);
                    } else if a != k {
                        assert(old_skills[a].account == old_skills[k].account);
                    } else if b != k {
                        assert(old_skills[b].account == old_skills[k].account);
                    }
                } else {
                    if a < old_skills.len() && b < old_skills.len() {
                        assert(old_skills[a].account == old_skills[b].account);
                    } else if a < old_skills.len() {
                        assert(old_skills[a].account == who);
                    } else if b < old_skills.len() {
                        assert(old_skills[b].account == who);
                    }
                }
            }
            let last = if has_skills(old_skills, who) {
                skills_index(old_skills, who)
            } else {
                old_skills.len() as int
            };
            assert(t[last].account == who);
            assert(has_skills(t, who));
            let j = skills_index(t, who);
            assert(t[j].account == t[last].account);
            assert forall|b: AccountId|
                b != who implies #[trigger] skills_of(t, b) == skills_of(old_skills, b) by {
                if has_skills(old_skills, b) {
                    let i0 = skills_index(old_skills, b);
                    assert(t[i0].account == b);
                    assert(has_skills(t, b));
                    let i1 = skills_index(t, b);
                    assert(t[i1].account == t[i0].account);
                }
                if has_skills(t, b) {
                    let i1 = skills_index(t, b);
                    assert(old_skills[i1].account == b);
                }
            }
        }
        let mut events: Vec<Event> = Vec::new();
        events.push(Event::SkillTagsUpdated { account: who });
        assert(events@ =~= seq![Event::SkillTagsUpdated { account: who }]);
        Ok(events)
    }
}


/// A new delegation of `amount` to `delegatee` in `scope` would take what the delegatee
/// receives above `cap`. A proposal-scoped one counts against that proposal's total
/// (global plus scoped to it); a global one counts against the total of every proposal.
pub open spec fn exceeds_capacity(
    ds: Seq<Delegation>,
    delegatee: AccountId,
    amount: ReputationScore,
    scope: Option<ProposalId>,
    cap: int,
) -> bool {
    match scope {
        Some(p) => delegated_sum(ds, delegatee, Some(p)) + amount > cap,
        None => exists|q: ProposalId| #[trigger] delegated_sum(ds, delegatee, Some(q)) + amount > cap,
    }
}

/// What a delegatee receives globally is part of what it receives for any proposal.
pub proof fn lemma_global_le_scoped(ds: Seq<Delegation>, delegatee: AccountId, q: ProposalId)
    ensures
        delegated_sum(ds, delegatee, None) <= delegated_sum(ds, delegatee, Some(q)),
    decreases ds.len(),
{
    if ds.len() > 0 {
        lemma_global_le_scoped(ds.drop_last(), delegatee, q);
    }
}

/// Without a record scoped to `q`, what a delegatee receives for `q` is its global total.
pub proof fn lemma_unscoped_is_global(ds: Seq<Delegation>, delegatee: AccountId, q: ProposalId)
    requires
        forall|j: int|
            0 <= j < ds.len() ==> !((#[trigger] ds[j]).delegatee == delegatee && ds[j].proposal_id
                == Some(q)),
    ensures
        delegated_sum(ds, delegatee, Some(q)) == delegated_sum(ds, delegatee, None),
    decreases ds.len(),
{
    if ds.len() > 0 {
        let t = ds.drop_last();
        assert forall|j: int|
            0 <= j < t.len() implies !((#[trigger] t[j]).delegatee == delegatee && t[j].proposal_id
                == Some(q)) by {
            assert(t[j] == ds[j]);
        }
        assert(ds.last() == ds[ds.len() - 1]);
        lemma_unscoped_is_global(t, delegatee, q);
    }
}

/// What `d` adds to the total that `delegatee` receives in `scope`.
pub open spec fn delegation_weight(d: Delegation, delegatee: AccountId, scope: Option<ProposalId>) -> int {
    if counts_towards(d, delegatee, scope) {
        d.amount as int
    } else {
        0
    }
}

proof fn lemma_delegated_sum_update(
    ds: Seq<Delegation>,
    k: int,
    d: Delegation,
    delegatee: AccountId,
    scope: Option<ProposalId>,
)
    requires
        0 <= k < ds.len(),
    ensures
        delegated_sum(ds.update(k, d), delegatee, scope) == delegated_sum(ds, delegatee, scope)
            - delegation_weight(ds[k], delegatee, scope) + delegation_weight(d, delegatee, scope),
    decreases ds.len(),
{
    let u = ds.update(k, d);
    if k == ds.len() - 1 {
        assert(u.drop_last() =~= ds.drop_last());
    } else {
        assert(u.drop_last() =~= ds.drop_last().update(k, d));
        lemma_delegated_sum_update(ds.drop_last(), k, d, delegatee, scope);
    }
}

/// Storing `d` changes a delegated total by at most what `d` adds to it.
pub proof fn lemma_delegated_sum_with(
    ds: Seq<Delegation>,
    d: Delegation,
    delegatee: AccountId,
    scope: Option<ProposalId>,
)
    ensures
        delegated_sum(with_delegation(ds, d), delegatee, scope) <= delegated_sum(ds, delegatee, scope)
            + delegation_weight(d, delegatee, scope),
{
    if has_delegation(ds, d.delegator) {
        lemma_delegated_sum_update(ds, delegation_index(ds, d.delegator), d, delegatee, scope);
    } else {
        assert(ds.push(d).drop_last() =~= ds);
    }
}

pub proof fn lemma_delegation_at(ds: Seq<Delegation>, i: int)
    requires
        unique_delegators(ds),
        0 <= i < ds.len(),
    ensures
        has_delegation(ds, ds[i].delegator),
        delegation_index(ds, ds[i].delegator) == i,
{
    let a = ds[i].delegator;
    assert(has_delegation(ds, a));
    let j = delegation_index(ds, a);
    assert(ds[j].delegator == ds[i].delegator);
}

pub proof fn lemma_with_delegation_unique(ds: Seq<Delegation>, d: Delegation)
    requires
        unique_delegators(ds),
    ensures
        unique_delegators(with_delegation(ds, d)),
{
    let t = with_delegation(ds, d);
    if has_delegation(ds, d.delegator) {
        let k = delegation_index(ds, d.delegator);
        assert forall|i: int, j: int|
            0 <= i < t.len() && 0 <= j < t.len() && #[trigger] t[i].delegator
                == #[trigger] t[j].delegator implies i == j by {
            if i != k && j != k {
                assert(ds[i].delegator == ds[j].delegator);
            } else if i != k {
                assert(ds[i].delegator == ds[k].delegator);
            } else if j != k {
                assert(ds[j].delegator == ds[k].delegator);
            }
        }
    } else {
        assert forall|i: int, j: int|
            0 <= i < t.len() && 0 <= j < t.len() && #[trigger] t[i].delegator
                == #[trigger] t[j].delegator implies i == j by {
            if i < ds.len() && j < ds.len() {
                assert(ds[i].delegator == ds[j].delegator);
            } else if i < ds.len() {
                assert(ds[i].delegator == d.delegator);
            } else if j < ds.len() {
                assert(ds[j].delegator == d.delegator);
            }
        }
    }
}

pub proof fn lemma_without_delegation_unique(ds: Seq<Delegation>, delegator: AccountId)
    requires
        unique_delegators(ds),
    ensures
        unique_delegators(without_delegation(ds, delegator)),
{
    if has_delegation(ds, delegator) {
        let k = delegation_index(ds, delegator);
        let t = ds.remove(k);
        assert forall|i: int, j: int|
            0 <= i < t.len() && 0 <= j < t.len() && #[trigger] t[i].delegator
                == #[trigger] t[j].delegator implies i == j by {
            let i0 = if i < k { i } else { i + 1 };
            let j0 = if j < k { j } else { j + 1 };
            assert(t[i] == ds[i0] && t[j] == ds[j0]);
        }
    }
}

impl GovernanceState {
    /// The error that a delegation meets, if any.
    pub open spec fn delegate_error(
        &self,
        scores: Seq<ScoreEntry>,
        delegator: AccountId,
        delegatee: AccountId,
        amount: ReputationScore,
        proposal_id: Option<ProposalId>,
        now: BlockNumber,
    ) -> Option<Error> {
        if delegator == delegatee {
            Some(Error::InvalidDelegatee)
        } else if proposal_id is Some && proposal_id.unwrap() as int >= self.proposals@.len() {
            Some(Error::ProposalNotFound)
        } else if proposal_id is Some && now >= self.proposals@[proposal_id.unwrap() as int].voting_end {
            Some(Error::VotingClosed)
        } else if exceeds_capacity(
            self.delegations@,
            delegatee,
            amount,
            proposal_id,
            nonneg(score_of(scores, delegatee)) as int,
        ) {
            Some(Error::DelegationExceedsCapacity)
        } else {
            None
        }
    }

    fn find_delegation(&self, delegator: AccountId) -> (r: Option<usize>)
        requires
            unique_delegators(self.delegations@),
        ensures
            match r {
                Some(k) => k < self.delegations@.len() && has_delegation(self.delegations@, delegator)
                    && delegation_index(self.delegations@, delegator) == k,
                None => !has_delegation(self.delegations@, delegator),
            },
    {
        let mut i: usize = 0;
        while i < self.delegations.len()
            invariant
                i <= self.delegations@.len(),
                unique_delegators(self.delegations@),
                forall|j: int| 0 <= j < i ==> self.delegations@[j].delegator != delegator,
            decreases self.delegations@.len() - i,
        {
            if self.delegations[i].delegator == delegator {
                proof {
                    lemma_delegation_at(self.delegations@, i as int);
                }
                return Some(i);
            }
            i = i + 1;
        }
        None
    }

    /// Assigns `amount` of voting power from `delegator` to `delegatee`, globally
    /// (`proposal_id` is `None`) or for one proposal; it replaces the delegator's
    /// earlier assignment.
    pub fn delegate_vote(
        &mut self,
        reputation: &ReputationState,
        delegator: AccountId,
        delegatee: AccountId,
        amount: ReputationScore,
        proposal_id: Option<ProposalId>,
        now: BlockNumber,
    ) -> (r: Result<Vec<Event>, Error>)
        requires
            old(self).wf(),
            reputation.wf(),
        ensures
            final(self).wf(),
            error_of(r) == old(self).delegate_error(
                reputation@.scores,
                delegator,
                delegatee,
                amount,
                proposal_id,
                now,
            ),
            r is Err ==> unchanged(old(self), final(self)),
            r matches Ok(ev) ==> {
                &&& ev@ == seq![Event::Delegated { delegator, delegatee, amount }]
                &&& final(self).delegations@ == with_delegation(
                    old(self).delegations@,
                    Delegation { delegator, delegatee, amount, proposal_id },
                )
                &&& final(self).config == old(self).config
                &&& final(self).proposals@ == old(self).proposals@
                &&& final(self).votes@ == old(self).votes@
                &&& final(self).council@ == old(self).council@
                &&& final(self).council_term_end == old(self).council_term_end
                &&& final(self).skills@ == old(self).skills@
            },
    {
        if delegator == delegatee {
            return Err(Error::InvalidDelegatee);
        }
        if let Some(pid) = proposal_id {
            if pid as usize >= self.proposals.len() {
                return Err(Error::ProposalNotFound);
            }
            if now >= self.proposals[pid as usize].voting_end {
                return Err(Error::VotingClosed);
            }
        }
        let score = reputation.get_reputation(delegatee);
        let capacity: u64 = if score < 0 {
            0
        } else {
            score as u64
        };
        let current = match proposal_id {
            Some(_) => self.get_delegated_power(delegatee, proposal_id),
            None => self.peak_delegated_power(delegatee),
        };
        let over = amount > capacity || current > capacity - amount;
        proof {
            let ds = self.delegations@;
            let cap = capacity as int;
            lemma_delegated_sum_nonneg(ds, delegatee, proposal_id);
            if proposal_id is None {
                if over {
                    if current == saturate_u64(delegated_sum(ds, delegatee, None)) {
                        lemma_global_le_scoped(ds, delegatee, 0);
                        assert(delegated_sum(ds, delegatee, Some(0u32)) + amount > cap);
                    } else {
                        let q = choose|q: ProposalId|
                            current == saturate_u64(#[trigger] delegated_sum(ds, delegatee, Some(q)));
                        assert(delegated_sum(ds, delegatee, Some(q)) + amount > cap);
                    }
                } else {
                    assert forall|q: ProposalId|
                        !(#[trigger] delegated_sum(ds, delegatee, Some(q)) + amount > cap) by {
                        assert(saturate_u64(delegated_sum(ds, delegatee, Some(q))) <= current);
                    }
                }
            }
        }
        if over {
            return Err(Error::DelegationExceedsCapacity);
        }
        let d = Delegation { delegator, delegatee, amount, proposal_id };
        proof {
            lemma_with_delegation_unique(self.delegations@, d);
        }
        match self.find_delegation(delegator) {
            Some(k) => {
                self.delegations.set(k, d);
            },
            None => {
                self.delegations.push(d);
            },
        }
        let mut events: Vec<Event> = Vec::new();
        events.push(Event::Delegated { delegator, delegatee, amount });
        assert(events@ =~= seq![Event::Delegated { delegator, delegatee, amount }]);
        Ok(events)
    }

    /// Removes the delegator's assignment.
    pub fn revoke_delegation(&mut self, delegator: AccountId) -> (r: Result<Vec<Event>, Error>)
        requires
            old(self).wf(),
        ensures
            final(self).wf(),
            r is Err <==> !has_delegation(old(self).delegations@, delegator),
            r is Err ==> r == Err::<Vec<Event>, Error>(Error::NoDelegationToRevoke) && unchanged(
                old(self),
                final(self),
            ),
            r matches Ok(ev) ==> {
                let d = old(self).delegations@[delegation_index(old(self).delegations@, delegator)];
                &&& ev@ == seq![Event::DelegationRevoked { delegator, delegatee: d.delegatee }]
                &&& final(self).delegations@ == without_delegation(old(self).delegations@, delegator)
                &&& final(self).config == old(self).config
                &&& final(self).proposals@ == old(self).proposals@
                &&& final(self).votes@ == old(self).votes@
                &&& final(self).council@ == old(self).council@
                &&& final(self).council_term_end == old(self).council_term_end
                &&& final(self).skills@ == old(self).skills@
            },
    {
        let k = match self.find_delegation(delegator) {
            Some(k) => k,
            None => {
                return Err(Error::NoDelegationToRevoke);
            },
        };
        proof {
            lemma_without_delegation_unique(self.delegations@, delegator);
        }
        let d = self.delegations.remove(k);
        let mut events: Vec<Event> = Vec::new();
        events.push(Event::DelegationRevoked { delegator, delegatee: d.delegatee });
        assert(events@ =~= seq![Event::DelegationRevoked { delegator, delegatee: d.delegatee }]);
        Ok(events)
    }
}


// ---------------------------------------------------------------- council

/// `a` ranks above `b`: a higher score, or the same score and a lower account number.
pub open spec fn ranks_above(scores: Seq<ScoreEntry>, a: AccountId, b: AccountId) -> bool {
    score_of(scores, a) > score_of(scores, b) || (score_of(scores, a) == score_of(scores, b) && a
        < b)
}

/// `r` lists, best first, the `k` accounts with a stored score that rank highest, or all
/// of them where there are fewer.
pub open spec fn is_top_k(scores: Seq<ScoreEntry>, k: int, r: Seq<AccountId>) -> bool {
    &&& r.len() <= k
    &&& forall|i: int| 0 <= i < r.len() ==> has_score(scores, #[trigger] r[i])
    &&& forall|i: int, j: int|
        0 <= i < j < r.len() ==> ranks_above(scores, #[trigger] r[i], #[trigger] r[j])
    &&& forall|c: AccountId, i: int|
        #![trigger r.contains(c), r[i]]
        has_score(scores, c) && !r.contains(c) && 0 <= i < r.len() ==> ranks_above(
            scores,
            r[i],
            c,
        )
    &&& r.len() < k ==> forall|c: AccountId| #[trigger] has_score(scores, c) ==> r.contains(c)
}

/// Seats on the council.
pub open spec fn council_seats(config: GovernanceConfig) -> int {
    if config.council_size as int > MAX_COUNCIL as int {
        MAX_COUNCIL as int
    } else {
        config.council_size as int
    }
}

/// Length of a council term.
pub open spec fn term_length(config: GovernanceConfig) -> u64 {
    if config.voting_period as int * COUNCIL_TERM_PERIODS as int > u64::MAX {
        u64::MAX
    } else {
        (config.voting_period * COUNCIL_TERM_PERIODS) as u64
    }
}

/// Entry `x` ranks above entry `y`.
pub open spec fn entry_above(x: ScoreEntry, y: ScoreEntry) -> bool {
    x.score > y.score || (x.score == y.score && x.account < y.account)
}

fn in_list(r: &Vec<AccountId>, a: AccountId) -> (b: bool)
    ensures
        b == r@.contains(a),
{
    let mut i: usize = 0;
    while i < r.len()
        invariant
            i <= r@.len(),
            forall|j: int| 0 <= j < i ==> r@[j] != a,
        decreases r@.len() - i,
    {
        if r[i] == a {
            assert(r@[i as int] == a);
            return true;
        }
        i = i + 1;
    }
    false
}

/// Index of the best-ranked entry whose account is not in `r`, if any.
fn best_outside(scores: &Vec<ScoreEntry>, r: &Vec<AccountId>) -> (b: Option<usize>)
    requires
        crate::reputation::unique_accounts(scores@),
    ensures
        match b {
            Some(i) => i < scores@.len() && !r@.contains(scores@[i as int].account) && forall|j: int|
                0 <= j < scores@.len() && j != i && !r@.contains(#[trigger] scores@[j].account)
                    ==> entry_above(scores@[i as int], scores@[j]),
            None => forall|j: int|
                0 <= j < scores@.len() ==> r@.contains(#[trigger] scores@[j].account),
        },
{
    let mut best: Option<usize> = None;
    let mut i: usize = 0;
    while i < scores.len()
        invariant
            i <= scores@.len(),
            crate::reputation::unique_accounts(scores@),
            match best {
                Some(b) => b < i && !r@.contains(scores@[b as int].account) && forall|j: int|
                    0 <= j < i && j != b && !r@.contains(#[trigger] scores@[j].account)
                        ==> entry_above(scores@[b as int], scores@[j]),
                None => forall|j: int| 0 <= j < i ==> r@.contains(#[trigger] scores@[j].account),
            },
        decreases scores@.len() - i,
    {
        let e = scores[i];
        if !in_list(r, e.account) {
            match best {
                None => {
                    best = Some(i);
                },
                Some(b) => {
                    let cur = scores[b];
                    assert(e.account != cur.account);
                    if e.score > cur.score || (e.score == cur.score && e.account < cur.account) {
                        best = Some(i);
                    }
                },
            }
        }
        i = i + 1;
    }
    best
}

impl GovernanceState {
    /// The `council_size` accounts with the highest scores (at most `MAX_COUNCIL`), best
    /// first, ties going to the lower account number.
    pub fn select_new_council(&self, reputation: &ReputationState) -> (r: Vec<AccountId>)
        requires
            reputation.wf(),
        ensures
            is_top_k(reputation@.scores, council_seats(self.config), r@),
    {
        let k: usize = if self.config.council_size as usize > MAX_COUNCIL {
            MAX_COUNCIL
        } else {
            self.config.council_size as usize
        };
        let ghost s = reputation@.scores;
        let mut r: Vec<AccountId> = Vec::new();
        let mut done = false;
        while !done && r.len() < k
            invariant
                k == council_seats(self.config),
                s == reputation@.scores,
                s == reputation.scores@,
                crate::reputation::unique_accounts(s),
                r@.len() <= k,
                forall|i: int| 0 <= i < r@.len() ==> has_score(s, #[trigger] r@[i]),
                forall|i: int, j: int|
                    0 <= i < j < r@.len() ==> ranks_above(s, #[trigger] r@[i], #[trigger] r@[j]),
                forall|c: AccountId, i: int|
                    #![trigger r@.contains(c), r@[i]]
                    has_score(s, c) && !r@.contains(c) && 0 <= i < r@.len() ==> ranks_above(
                        s,
                        r@[i],
                        c,
                    ),
                done ==> forall|c: AccountId| #[trigger] has_score(s, c) ==> r@.contains(c),
            decreases k - r@.len() + if done {
                0int
            } else {
                1int
            },
        {
            match best_outside(&reputation.scores, &r) {
                None => {
                    proof {
                        assert forall|c: AccountId| #[trigger] has_score(s, c) implies r@.contains(
                            c,
                        ) by {
                            let j = crate::reputation::score_index(s, c);
                            assert(r@.contains(s[j].account));
                        }
                    }
                    done = true;
                },
                Some(b) => {
                    let a = reputation.scores[b].account;
                    let ghost old_r = r@;
                    proof {
                        lemma_score_at(s, b as int);
                        assert forall|c: AccountId|
                            has_score(s, c) && !old_r.contains(c) && c != a implies ranks_above(
                                s,
                                a,
                                c,
                            ) by {
                            let j = crate::reputation::score_index(s, c);
                            lemma_score_at(s, j);
                            assert(j != b);
                        }
                    }
                    r.push(a);
                    proof {
                        let nr = r@;
                        assert(nr.last() == a);
                        assert forall|i: int| 0 <= i < nr.len() implies has_score(s, #[trigger] nr[i]) by {
                            if i < old_r.len() {
                                assert(nr[i] == old_r[i]);
                            }
                        }
                        assert forall|i: int, j: int|
                            0 <= i < j < nr.len() implies ranks_above(s, #[trigger] nr[i], #[trigger] nr[j]) by {
                            assert(nr[i] == old_r[i]);
                            if j < old_r.len() {
                                assert(nr[j] == old_r[j]);
                            } else {
                                assert(old_r.contains(old_r[i]));
                            }
                        }
                        assert forall|c: AccountId, i: int|
                            #![trigger nr.contains(c), nr[i]]
                            has_score(s, c) && !nr.contains(c) && 0 <= i < nr.len() implies ranks_above(
                                s,
                                nr[i],
                                c,
                            ) by {
                            if !old_r.contains(c) {
                                if c == a {
                                    assert(nr.contains(a));
                                }
                                if i < old_r.len() {
                                    assert(nr[i] == old_r[i]);
                                }
                            } else {
                                let w = choose|w: int| 0 <= w < old_r.len() && old_r[w] == c;
                                assert(nr[w] == c);
                            }
                        }
                    }
                },
            }
        }
        r
    }
}


/// `p` with its terminal flags replaced.
pub open spec fn with_flags(p: Proposal, cancelled: bool, executed: bool) -> Proposal {
    Proposal { cancelled, executed, ..p }
}

/// Participation in percent of the frozen total; zero where the total is zero.
pub open spec fn quorum_percent(p: Proposal) -> int {
    if p.total_voting_power > 0 {
        (p.for_votes + p.against_votes) * 100 / p.total_voting_power as int
    } else {
        0
    }
}

/// Votes in favour, in percent of the votes cast; zero where none were cast.
pub open spec fn for_percent(p: Proposal) -> int {
    if p.for_votes + p.against_votes > 0 {
        p.for_votes * 100 / (p.for_votes + p.against_votes)
    } else {
        0
    }
}

impl GovernanceState {
    pub open spec fn rotate_error(&self, who: AccountId, now: BlockNumber) -> Option<Error> {
        if now < self.council_term_end && !self.council@.contains(who) {
            Some(Error::NotCouncilMember)
        } else {
            None
        }
    }

    pub open spec fn cancel_error(&self, who: AccountId, proposal_id: ProposalId, now: BlockNumber) -> Option<
        Error,
    > {
        let pid = proposal_id as int;
        if pid >= self.proposals@.len() {
            Some(Error::ProposalNotFound)
        } else {
            let p = self.proposals@[pid];
            if who != p.proposer && !self.council@.contains(who) {
                Some(Error::NotProposer)
            } else if p.executed {
                Some(Error::CannotCancelExecutedProposal)
            } else if p.cancelled {
                Some(Error::ProposalNotExecutable)
            } else if now >= p.voting_end {
                Some(Error::VotingClosed)
            } else {
                None
            }
        }
    }

    /// Why execution is refused, if it is: lifecycle, timelock, quorum or majority.
    pub open spec fn execute_error(&self, proposal_id: ProposalId, now: BlockNumber) -> Option<Error> {
        let pid = proposal_id as int;
        if pid >= self.proposals@.len() {
            Some(Error::ProposalNotFound)
        } else {
            let p = self.proposals@[pid];
            if p.executed {
                Some(Error::CannotExecute)
            } else if p.cancelled {
                Some(Error::ProposalNotExecutable)
            } else if now < p.voting_end {
                Some(Error::VotingClosed)
            } else if p.execution_ready_at is None || now < p.execution_ready_at.unwrap() {
                Some(Error::ProposalNotReadyForExecution)
            } else if quorum_percent(p) < self.config.quorum_threshold {
                Some(Error::QuorumNotMet)
            } else if p.proposal_type.requires_supermajority_spec() {
                if for_percent(p) < self.config.supermajority_threshold {
                    Some(Error::SupermajorityNotMet)
                } else {
                    None
                }
            } else if p.for_votes <= p.against_votes {
                Some(Error::CannotExecute)
            } else {
                None
            }
        }
    }

    /// Replaces the terminal flags of proposal `pid`.
    fn set_flags(&mut self, pid: usize, cancelled: bool, executed: bool)
        requires
            pid < old(self).proposals@.len(),
            old(self).wf(),
        ensures
            final(self).wf(),
            final(self).proposals@ == old(self).proposals@.update(
                pid as int,
                with_flags(old(self).proposals@[pid as int], cancelled, executed),
            ),
            same_except_votes(old(self), final(self)),
            final(self).votes@ == old(self).votes@,
    {
        let mut p = self.proposals.remove(pid);
        p.cancelled = cancelled;
        p.executed = executed;
        self.proposals.insert(pid, p);
        proof {
            assert(final(self).proposals@ =~= old(self).proposals@.update(
                pid as int,
                with_flags(old(self).proposals@[pid as int], cancelled, executed),
            ));
            assert forall|i: int| 0 <= i < final(self).proposals@.len() implies {
                let p = #[trigger] final(self).proposals@[i];
                &&& p.id == i
                &&& p.tags@.len() <= MAX_PROPOSAL_TAGS
                &&& p.for_votes == tally(final(self).votes@, i as ProposalId, true)
                &&& p.against_votes == tally(final(self).votes@, i as ProposalId, false)
            } by {
                assert(old(self).proposals@[i].id == i);
            }
        }
    }

    /// Installs a new council and starts its term at `now`.
    fn install_council(&mut self, reputation: &ReputationState, now: BlockNumber) -> (term_end:
        BlockNumber)
        requires
            old(self).wf(),
            reputation.wf(),
        ensures
            final(self).wf(),
            is_top_k(reputation@.scores, council_seats(old(self).config), final(self).council@),
            term_end == sat_add(now, term_length(old(self).config)),
            final(self).council_term_end == term_end,
            final(self).config == old(self).config,
            final(self).proposals@ == old(self).proposals@,
            final(self).votes@ == old(self).votes@,
            final(self).delegations@ == old(self).delegations@,
            final(self).skills@ == old(self).skills@,
    {
        let council = self.select_new_council(reputation);
        let period = self.config.voting_period;
        let length: u64 = if period > u64::MAX / COUNCIL_TERM_PERIODS {
            u64::MAX
        } else {
            period * COUNCIL_TERM_PERIODS
        };
        let term_end = now.saturating_add(length);
        self.council = council;
        self.council_term_end = term_end;
        term_end
    }

    /// Whether `who` sits on the current council.
    pub fn is_council_member(&self, who: AccountId) -> (r: bool)
        ensures
            r == self.council@.contains(who),
    {
        in_list(&self.council, who)
    }

    /// Replaces the council: a member may at any time, anyone once the term has ended.
    pub fn rotate_council(&mut self, reputation: &ReputationState, who: AccountId, now: BlockNumber) -> (r:
        Result<Vec<Event>, Error>)
        requires
            old(self).wf(),
            reputation.wf(),
        ensures
            final(self).wf(),
            error_of(r) == old(self).rotate_error(who, now),
            r is Err ==> unchanged(old(self), final(self)),
            r matches Ok(ev) ==> {
                let term_end = sat_add(now, term_length(old(self).config));
                &&& ev@ == seq![Event::CouncilRotated { term_end }]
                &&& is_top_k(reputation@.scores, council_seats(old(self).config), final(self).council@)
                &&& final(self).council_term_end == term_end
                &&& final(self).config == old(self).config
                &&& final(self).proposals@ == old(self).proposals@
                &&& final(self).votes@ == old(self).votes@
                &&& final(self).delegations@ == old(self).delegations@
                &&& final(self).skills@ == old(self).skills@
            },
    {
        if now < self.council_term_end && !self.is_council_member(who) {
            return Err(Error::NotCouncilMember);
        }
        let term_end = self.install_council(reputation, now);
        let mut events: Vec<Event> = Vec::new();
        events.push(Event::CouncilRotated { term_end });
        assert(events@ =~= seq![Event::CouncilRotated { term_end }]);
        Ok(events)
    }

    /// Cancels a proposal while voting is open; the deposit goes back to the proposer.
    pub fn cancel_proposal(&mut self, who: AccountId, proposal_id: ProposalId, now: BlockNumber) -> (r:
        Result<Vec<Event>, Error>)
        requires
            old(self).wf(),
        ensures
            final(self).wf(),
            error_of(r) == old(self).cancel_error(who, proposal_id, now),
            r is Err ==> unchanged(old(self), final(self)),
            r matches Ok(ev) ==> {
                let p = old(self).proposals@[proposal_id as int];
                &&& ev@ == seq![
                    Event::ProposalCancelled { proposal_id, proposer: p.proposer },
                    Event::DepositReturned {
                        account: p.proposer,
                        proposal_id,
                        amount: old(self).config.proposal_deposit,
                    },
                ]
                &&& final(self).proposals@ == old(self).proposals@.update(
                    proposal_id as int,
                    with_flags(p, true, p.executed),
                )
                &&& same_except_votes(old(self), final(self))
                &&& final(self).votes@ == old(self).votes@
            },
    {
        if proposal_id as usize >= self.proposals.len() {
            return Err(Error::ProposalNotFound);
        }
        let pid = proposal_id as usize;
        let proposer = self.proposals[pid].proposer;
        if who != proposer && !self.is_council_member(who) {
            return Err(Error::NotProposer);
        }
        let executed = self.proposals[pid].executed;
        if executed {
            return Err(Error::CannotCancelExecutedProposal);
        }
        if self.proposals[pid].cancelled {
            return Err(Error::ProposalNotExecutable);
        }
        if now >= self.proposals[pid].voting_end {
            return Err(Error::VotingClosed);
        }
        self.set_flags(pid, true, executed);
        let amount = self.config.proposal_deposit;
        let mut events: Vec<Event> = Vec::new();
        events.push(Event::ProposalCancelled { proposal_id, proposer });
        events.push(Event::DepositReturned { account: proposer, proposal_id, amount });
        assert(events@ =~= seq![
            Event::ProposalCancelled { proposal_id, proposer },
            Event::DepositReturned { account: proposer, proposal_id, amount },
        ]);
        Ok(events)
    }

    /// Executes a proposal that passed, once voting has ended and the timelock elapsed.
    /// A council election installs a new council; other classes are carried out by the
    /// host on `ProposalExecuted`. The deposit goes back to the proposer.
    pub fn execute_proposal(
        &mut self,
        reputation: &ReputationState,
        proposal_id: ProposalId,
        now: BlockNumber,
    ) -> (r: Result<Vec<Event>, Error>)
        requires
            old(self).wf(),
            reputation.wf(),
        ensures
            final(self).wf(),
            error_of(r) == old(self).execute_error(proposal_id, now),
            r is Err ==> unchanged(old(self), final(self)),
            r matches Ok(ev) ==> {
                let p = old(self).proposals@[proposal_id as int];
                let term_end = sat_add(now, term_length(old(self).config));
                let tail = seq![
                    Event::ProposalExecuted { proposal_id },
                    Event::DepositReturned {
                        account: p.proposer,
                        proposal_id,
                        amount: old(self).config.proposal_deposit,
                    },
                ];
                &&& final(self).proposals@ == old(self).proposals@.update(
                    proposal_id as int,
                    with_flags(p, p.cancelled, true),
                )
                &&& final(self).votes@ == old(self).votes@
                &&& final(self).config == old(self).config
                &&& final(self).delegations@ == old(self).delegations@
                &&& final(self).skills@ == old(self).skills@
                &&& if p.proposal_type is CouncilElection {
                    &&& ev@ == seq![Event::CouncilRotated { term_end }] + tail
                    &&& is_top_k(reputation@.scores, council_seats(old(self).config), final(self).council@)
                    &&& final(self).council_term_end == term_end
                } else {
                    &&& ev@ == tail
                    &&& final(self).council@ == old(self).council@
                    &&& final(self).council_term_end == old(self).council_term_end
                }
            },
    {
        if proposal_id as usize >= self.proposals.len() {
            return Err(Error::ProposalNotFound);
        }
        let pid = proposal_id as usize;
        let p = &self.proposals[pid];
        if p.executed {
            return Err(Error::CannotExecute);
        }
        if p.cancelled {
            return Err(Error::ProposalNotExecutable);
        }
        if now < p.voting_end {
            return Err(Error::VotingClosed);
        }
        match p.execution_ready_at {
            None => {
                return Err(Error::ProposalNotReadyForExecution);
            },
            Some(ready_at) => {
                if now < ready_at {
                    return Err(Error::ProposalNotReadyForExecution);
                }
            },
        }
        let total: u128 = p.for_votes as u128 + p.against_votes as u128;
        let quorum: u128 = if p.total_voting_power > 0 {
            total * 100 / p.total_voting_power as u128
        } else {
            0
        };
        if quorum < self.config.quorum_threshold as u128 {
            return Err(Error::QuorumNotMet);
        }
        if p.proposal_type.requires_supermajority() {
            let for_pct: u128 = if total > 0 {
                p.for_votes as u128 * 100 / total
            } else {
                0
            };
            if for_pct < self.config.supermajority_threshold as u128 {
                return Err(Error::SupermajorityNotMet);
            }
        } else if p.for_votes <= p.against_votes {
            return Err(Error::CannotExecute);
        }
        let election = match p.proposal_type {
            ProposalType::CouncilElection => true,
            _ => false,
        };
        let proposer = p.proposer;
        let cancelled = p.cancelled;
        let mut events: Vec<Event> = Vec::new();
        if election {
            let term_end = self.install_council(reputation, now);
            events.push(Event::CouncilRotated { term_end });
        }
        self.set_flags(pid, cancelled, true);
        let amount = self.config.proposal_deposit;
        events.push(Event::ProposalExecuted { proposal_id });
        events.push(Event::DepositReturned { account: proposer, proposal_id, amount });
        proof {
            let tail = seq![
                Event::ProposalExecuted { proposal_id },
                Event::DepositReturned { account: proposer, proposal_id, amount },
            ];
            if election {
                let term_end = sat_add(now, term_length(old(self).config));
                assert(events@ =~= seq![Event::CouncilRotated { term_end }] + tail);
            } else {
                assert(events@ =~= tail);
            }
        }
        Ok(events)
    }

    /// Succeeds once voting on the proposal has ended; changes nothing.
    pub fn mark_proposal_ready(&self, proposal_id: ProposalId, now: BlockNumber) -> (r: Result<
        Vec<Event>,
        Error,
    >)
        ensures
            r matches Ok(ev) ==> ev@.len() == 0,
            error_of(r) == if proposal_id as int >= self.proposals@.len() {
                Some(Error::ProposalNotFound)
            } else if now < self.proposals@[proposal_id as int].voting_end {
                Some(Error::VotingClosed)
            } else {
                None::<Error>
            },
    {
        if proposal_id as usize >= self.proposals.len() {
            return Err(Error::ProposalNotFound);
        }
        if now < self.proposals[proposal_id as usize].voting_end {
            return Err(Error::VotingClosed);
        }
        Ok(Vec::new())
    }
}

} // verus!
