//! The contribution ledger, the verification engine and the reputation store.
use vstd::prelude::*;

use crate::arith::clamp;
use crate::types::{AccountId, BlockNumber, Hash256};

verus! {

/// Contributions are numbered from one in order of submission.
pub type ContributionId = u64;

/// A contribution older than this many blocks is not counted by the burst heuristic.
pub const SYBIL_WINDOW: u64 = 10;

/// More recent contributions than this make the burst heuristic reject a submission.
pub const SYBIL_MAX_RECENT: u64 = 5;

/// Base points of a contribution type that the parameters leave unmapped.
pub const DEFAULT_TYPE_WEIGHT: u32 = 10;

/// Largest number of items in one batch call.
pub const MAX_BATCH: usize = 10;

#[derive(Clone, Copy, Debug, PartialEq, Eq, Structural)]
pub enum ContributionType {
    IssueComment,
    PullRequest,
    CodeReview,
    Documentation,
    BugReport,
    CodeCommit,
}

#[derive(Clone, Copy, Debug, PartialEq, Eq, Structural)]
pub enum DataSource {
    GitHub,
    GitLab,
    Bitbucket,
    Manual,
}

#[derive(Clone, Copy, Debug, PartialEq, Eq, Structural)]
pub enum ContributionStatus {
    Pending,
    Verified,
    Disputed,
    Rejected,
}

/// A contribution claim and its verification progress.
#[derive(Clone, Copy, Debug, PartialEq, Eq, Structural)]
pub struct Contribution {
    pub id: ContributionId,
    pub proof: Hash256,
    pub contribution_type: ContributionType,
    pub weight: u8,
    pub submitter: AccountId,
    pub verified: bool,
    pub source: DataSource,
    pub timestamp: BlockNumber,
    pub status: ContributionStatus,
    pub verification_count: u32,
}

/// Base points per contribution type; `None` means unmapped.
#[derive(Clone, Copy, Debug, PartialEq, Eq, Structural)]
pub struct TypeWeights {
    pub issue_comment: Option<u32>,
    pub pull_request: Option<u32>,
    pub code_review: Option<u32>,
    pub documentation: Option<u32>,
    pub bug_report: Option<u32>,
    pub code_commit: Option<u32>,
}

impl TypeWeights {
    pub open spec fn get_spec(&self, t: ContributionType) -> Option<u32> {
        match t {
            ContributionType::IssueComment => self.issue_comment,
            ContributionType::PullRequest => self.pull_request,
            ContributionType::CodeReview => self.code_review,
            ContributionType::Documentation => self.documentation,
            ContributionType::BugReport => self.bug_report,
            ContributionType::CodeCommit => self.code_commit,
        }
    }

    pub fn get(&self, t: ContributionType) -> (r: Option<u32>)
        ensures
            r == self.get_spec(t),
    {
        match t {
            ContributionType::IssueComment => self.issue_comment,
            ContributionType::PullRequest => self.pull_request,
            ContributionType::CodeReview => self.code_review,
            ContributionType::Documentation => self.documentation,
            ContributionType::BugReport => self.bug_report,
            ContributionType::CodeCommit => self.code_commit,
        }
    }

    /// Every mapped weight lies in `[1, 100]`.
    pub open spec fn valid(&self) -> bool {
        forall|t: ContributionType|
            #[trigger] self.get_spec(t) matches Some(w) ==> 1 <= w <= 100
    }
}

/// Scoring parameters, settable by governance.
#[derive(Clone, Copy, Debug, PartialEq, Eq, Structural)]
pub struct AlgorithmParams {
    /// Decay per block, in parts per million.
    pub decay_rate_per_block: u32,
    /// Boost applied on verification, in basis points (10000 is 1.0x).
    pub verification_multiplier: u32,
    pub contribution_type_weights: TypeWeights,
}

impl AlgorithmParams {
    /// Pull requests 20, code reviews 15, code commits 10, issue comments 5,
    /// documentation 12, bug reports 8; decay 1 ppm per block; multiplier 1.5x.
    pub open spec fn default_params_spec() -> AlgorithmParams {
        AlgorithmParams {
            decay_rate_per_block: 1,
            verification_multiplier: 15_000,
            contribution_type_weights: TypeWeights {
                issue_comment: Some(5),
                pull_request: Some(20),
                code_review: Some(15),
                documentation: Some(12),
                bug_report: Some(8),
                code_commit: Some(10),
            },
        }
    }

    pub fn default_params() -> (r: AlgorithmParams)
        ensures
            r == Self::default_params_spec(),
            r.valid(),
    {
        AlgorithmParams {
            decay_rate_per_block: 1,
            verification_multiplier: 15_000,
            contribution_type_weights: TypeWeights {
                issue_comment: Some(5),
                pull_request: Some(20),
                code_review: Some(15),
                documentation: Some(12),
                bug_report: Some(8),
                code_commit: Some(10),
            },
        }
    }

    /// The ranges that `update_algorithm_params` accepts.
    pub open spec fn valid(&self) -> bool {
        &&& self.decay_rate_per_block <= 1000
        &&& 10_000 <= self.verification_multiplier <= 50_000
        &&& self.contribution_type_weights.valid()
    }

    /// Base points of a contribution type.
    pub open spec fn base_weight(&self, t: ContributionType) -> int {
        match self.contribution_type_weights.get_spec(t) {
            Some(w) => w as int,
            None => DEFAULT_TYPE_WEIGHT as int,
        }
    }
}

impl Default for AlgorithmParams {
    fn default() -> (r: AlgorithmParams)
        ensures
            r == AlgorithmParams::default_params_spec(),
    {
        AlgorithmParams::default_params()
    }
}

#[derive(Clone, Copy, Debug, PartialEq, Eq, Structural)]
pub enum RepChangeReason {
    NewContribution,
    VerificationReward,
    TimeDecay,
    SybilPenalty,
    GovernanceVote,
    AlgorithmUpdate,
}

/// Notifications that an operation hands back for the host to forward.
#[derive(Clone, Copy, Debug, PartialEq, Eq, Structural)]
pub enum Event {
    ContributionSubmitted {
        contributor: AccountId,
        contribution_id: ContributionId,
        proof_hash: Hash256,
        contribution_type: ContributionType,
        source: DataSource,
    },
    ContributionVerified {
        contributor: AccountId,
        contribution_id: ContributionId,
        verifier: AccountId,
        score: u8,
        reputation_gained: i32,
    },
    ReputationUpdated {
        account: AccountId,
        old_score: i32,
        new_score: i32,
        change_reason: RepChangeReason,
    },
    AlgorithmParamsUpdated { old_params: AlgorithmParams, new_params: AlgorithmParams },
}

#[derive(Clone, Copy, Debug, PartialEq, Eq, Structural)]
pub enum Error {
    /// The proof fingerprint is zero.
    InvalidProof,
    /// The proof was submitted before.
    ContributionAlreadySubmitted,
    /// The declared weight lies outside `[1, 100]`.
    InvalidContributionWeight,
    /// The submitter has too many pending contributions.
    RateLimited,
    /// The submitter reached the cap on contributions per account.
    MaxContributionsExceeded,
    /// Too many submissions by one account in a short window.
    SybilAttackDetected,
    SelfVerificationNotAllowed,
    InsufficientReputationToVerify,
    /// The verification score exceeds 100.
    InvalidVerificationScore,
    /// No such contribution, or not by the named contributor.
    ContributionNotFound,
    /// The contribution is verified already, or this verifier already verified it.
    ContributionAlreadyVerified,
    RequiresGovernance,
    /// Parameters out of range, or a batch that is too long.
    InvalidAlgorithmParams,
}

/// Limits of a deployment.
#[derive(Clone, Copy, Debug, PartialEq, Eq, Structural)]
pub struct ReputationConfig {
    pub max_contributions_per_account: u32,
    pub min_reputation: i32,
    pub max_reputation: i32,
    pub min_reputation_to_verify: i32,
    pub min_verifications: u32,
    pub max_pending_contributions: u32,
}

impl ReputationConfig {
    /// The score of an account that never had one (zero) lies within the bounds.
    pub open spec fn valid(&self) -> bool {
        self.min_reputation <= 0 <= self.max_reputation
    }

    /// Number of verifications at which a contribution becomes verified.
    pub open spec fn threshold(&self) -> int {
        if self.min_verifications == 0 {
            1
        } else {
            self.min_verifications as int
        }
    }
}

#[derive(Clone, Copy, Debug, PartialEq, Eq, Structural)]
pub struct ScoreEntry {
    pub account: AccountId,
    pub score: i32,
}

/// One verifier's verdict on one contribution.
#[derive(Debug)]
pub struct Verification {
    pub contribution_id: ContributionId,
    pub verifier: AccountId,
    pub score: u8,
    pub comment: Vec<u8>,
}

/// The whole state of the engine.
pub struct ReputationState {
    pub config: ReputationConfig,
    pub params: AlgorithmParams,
    /// One entry per account that has a stored score.
    pub scores: Vec<ScoreEntry>,
    /// Contribution `i + 1` is at index `i`.
    pub contributions: Vec<Contribution>,
    pub verifications: Vec<Verification>,
}

/// What a verification record holds: contribution, verifier, score, comment.
pub type VerificationView = (ContributionId, AccountId, u8, Seq<u8>);

/// What the state of the engine holds, as mathematical values.
pub struct ReputationModel {
    pub config: ReputationConfig,
    pub params: AlgorithmParams,
    pub scores: Seq<ScoreEntry>,
    pub contributions: Seq<Contribution>,
    pub verifications: Seq<VerificationView>,
}

impl View for ReputationState {
    type V = ReputationModel;

    open spec fn view(&self) -> ReputationModel {
        ReputationModel {
            config: self.config,
            params: self.params,
            scores: self.scores@,
            contributions: self.contributions@,
            verifications: self.verifications@.map_values(
                |v: Verification| (v.contribution_id, v.verifier, v.score, v.comment@),
            ),
        }
    }
}

// ---------------------------------------------------------------- scores

/// `a` has a stored score.
pub open spec fn has_score(s: Seq<ScoreEntry>, a: AccountId) -> bool {
    exists|i: int| 0 <= i < s.len() && s[i].account == a
}

/// Position of the score of `a`.
pub open spec fn score_index(s: Seq<ScoreEntry>, a: AccountId) -> int {
    choose|i: int| 0 <= i < s.len() && s[i].account == a
}

/// The score of `a`; zero where none is stored.
pub open spec fn score_of(s: Seq<ScoreEntry>, a: AccountId) -> int {
    if has_score(s, a) {
        s[score_index(s, a)].score as int
    } else {
        0
    }
}

/// `s` with the score of `a` replaced (or added).
pub open spec fn set_score(s: Seq<ScoreEntry>, a: AccountId, v: i32) -> Seq<ScoreEntry> {
    if has_score(s, a) {
        s.update(score_index(s, a), ScoreEntry { account: a, score: v })
    } else {
        s.push(ScoreEntry { account: a, score: v })
    }
}

/// No account has two score entries.
pub open spec fn unique_accounts(s: Seq<ScoreEntry>) -> bool {
    forall|i: int, j: int|
        0 <= i < s.len() && 0 <= j < s.len() && #[trigger] s[i].account == #[trigger] s[j].account
            ==> i == j
}

pub proof fn lemma_score_at(s: Seq<ScoreEntry>, i: int)
    requires
        unique_accounts(s),
        0 <= i < s.len(),
    ensures
        has_score(s, s[i].account),
        score_index(s, s[i].account) == i,
        score_of(s, s[i].account) == s[i].score,
{
    let a = s[i].account;
    assert(has_score(s, a));
    let j = score_index(s, a);
    assert(s[j].account == s[i].account);
}

pub proof fn lemma_set_score(s: Seq<ScoreEntry>, a: AccountId, v: i32)
    requires
        unique_accounts(s),
    ensures
        unique_accounts(set_score(s, a, v)),
        forall|b: AccountId|
            #[trigger] score_of(set_score(s, a, v), b) == if b == a {
                v as int
            } else {
                score_of(s, b)
            },
        forall|b: AccountId| #[trigger]
            has_score(set_score(s, a, v), b) == (b == a || has_score(s, b)),
{
    let t = set_score(s, a, v);
    if has_score(s, a) {
        let k = score_index(s, a);
        assert forall|i: int, j: int|
            0 <= i < t.len() && 0 <= j < t.len() && #[trigger] t[i].account
                == #[trigger] t[j].account implies i == j by {
            if i != k && j != k {
                assert(s[i].account == s[j].account);
            } else if i == k && j != k {
                assert(s[j].account == s[k].account);
            } else if j == k && i != k {
                assert(s[i].account == s[k].account);
            }
        }
    } else {
        assert forall|i: int, j: int|
            0 <= i < t.len() && 0 <= j < t.len() && #[trigger] t[i].account
                == #[trigger] t[j].account implies i == j by {
            if i < s.len() && j < s.len() {
                assert(s[i].account == s[j].account);
            } else if i < s.len() {
                assert(s[i].account == a);
            } else if j < s.len() {
                assert(s[j].account == a);
            }
        }
    }
    assert forall|b: AccountId| #[trigger]
        has_score(t, b) == (b == a || has_score(s, b)) by {
        if has_score(s, b) {
            let i = score_index(s, b);
            assert(t[i].account == b);
        }
        if b == a {
            if has_score(s, a) {
                assert(t[score_index(s, a)].account == a);
            } else {
                assert(t[s.len() as int].account == a);
            }
        }
        if has_score(t, b) && b != a {
            let i = score_index(t, b);
            assert(s[i].account == b);
        }
    }
    assert forall|b: AccountId| #[trigger]
        score_of(t, b) == if b == a {
            v as int
        } else {
            score_of(s, b)
        } by {
        if has_score(t, b) {
            let i = score_index(t, b);
            lemma_score_at(t, i);
            if b != a {
                assert(s[i].account == b);
                lemma_score_at(s, i);
            }
        }
    }
}

/// Every stored score lies within the bounds of `config`.
pub open spec fn scores_within(s: Seq<ScoreEntry>, config: ReputationConfig) -> bool {
    forall|i: int|
        0 <= i < s.len() ==> config.min_reputation <= #[trigger] s[i].score
            <= config.max_reputation
}

/// Writing a score within the bounds keeps all scores within them.
pub proof fn lemma_set_score_within(s: Seq<ScoreEntry>, a: AccountId, v: i32, config: ReputationConfig)
    requires
        unique_accounts(s),
        scores_within(s, config),
        config.min_reputation <= v <= config.max_reputation,
    ensures
        scores_within(set_score(s, a, v), config),
{
    lemma_set_score(s, a, v);
    let t = set_score(s, a, v);
    assert forall|i: int| 0 <= i < t.len() implies config.min_reputation <= #[trigger] t[i].score
        <= config.max_reputation by {
        lemma_score_at(t, i);
        if t[i].account != a {
            assert(has_score(s, t[i].account));
            lemma_score_at(s, score_index(s, t[i].account));
        }
    }
}

/// Scores after the genesis entries are stored one after another, each clamped.
pub open spec fn genesis_scores(genesis: Seq<(AccountId, i32)>, config: ReputationConfig) -> Seq<
    ScoreEntry,
>
    decreases genesis.len(),
{
    if genesis.len() == 0 {
        Seq::empty()
    } else {
        let (a, v) = genesis.last();
        set_score(
            genesis_scores(genesis.drop_last(), config),
            a,
            clamp(v as int, config.min_reputation as int, config.max_reputation as int) as i32,
        )
    }
}

// ---------------------------------------------------------------- counts

/// Contributions of `a`.
pub open spec fn count_submitted(cs: Seq<Contribution>, a: AccountId) -> nat
    decreases cs.len(),
{
    if cs.len() == 0 {
        0
    } else {
        count_submitted(cs.drop_last(), a) + if cs.last().submitter == a {
            1nat
        } else {
            0nat
        }
    }
}

/// Contributions of `a` that are not verified yet.
pub open spec fn count_pending(cs: Seq<Contribution>, a: AccountId) -> nat
    decreases cs.len(),
{
    if cs.len() == 0 {
        0
    } else {
        count_pending(cs.drop_last(), a) + if cs.last().submitter == a && !cs.last().verified {
            1nat
        } else {
            0nat
        }
    }
}

/// `c` was created less than `SYBIL_WINDOW` blocks before `now`.
pub open spec fn is_recent(c: Contribution, now: BlockNumber) -> bool {
    if now >= c.timestamp {
        now - c.timestamp < SYBIL_WINDOW
    } else {
        true
    }
}

/// Contributions of `a` created within the burst window before `now`.
pub open spec fn count_recent(cs: Seq<Contribution>, a: AccountId, now: BlockNumber) -> nat
    decreases cs.len(),
{
    if cs.len() == 0 {
        0
    } else {
        count_recent(cs.drop_last(), a, now) + if cs.last().submitter == a && is_recent(
            cs.last(),
            now,
        ) {
            1nat
        } else {
            0nat
        }
    }
}

/// Some contribution carries proof `p`.
pub open spec fn proof_used(cs: Seq<Contribution>, p: Hash256) -> bool {
    exists|i: int| 0 <= i < cs.len() && cs[i].proof == p
}

// ---------------------------------------------------------------- well-formedness

/// Contribution `c` at position `i` is consistent: numbered, with a valid proof and
/// weight, and verified exactly when its count reached the threshold.
pub open spec fn contribution_wf(c: Contribution, i: int, config: ReputationConfig) -> bool {
    &&& c.id == i + 1
    &&& !c.proof.is_zero_spec()
    &&& 1 <= c.weight <= 100
    &&& (c.status == ContributionStatus::Verified) == c.verified
    &&& (c.status == ContributionStatus::Verified || c.status == ContributionStatus::Pending)
    &&& c.verified ==> c.verification_count == config.threshold()
    &&& !c.verified ==> c.verification_count < config.threshold()
}

impl ReputationModel {
    pub open spec fn wf(&self) -> bool {
        &&& self.config.valid()
        &&& self.params.valid()
        &&& unique_accounts(self.scores)
        &&& scores_within(self.scores, self.config)
        &&& forall|i: int|
            0 <= i < self.contributions.len() ==> contribution_wf(
                #[trigger] self.contributions[i],
                i,
                self.config,
            )
        &&& forall|i: int, j: int|
            0 <= i < self.contributions.len() && 0 <= j < self.contributions.len()
                && #[trigger] self.contributions[i].proof == #[trigger] self.contributions[j].proof
                ==> i == j
    }

    /// Effects of a submission.
    pub open spec fn add_contribution_spec(
        self,
        who: AccountId,
        now: BlockNumber,
        proof: Hash256,
        contribution_type: ContributionType,
        weight: u8,
        source: DataSource,
    ) -> (ReputationModel, Result<(ContributionId, Seq<Event>), Error>) {
        let cs = self.contributions;
        if proof.is_zero_spec() {
            (self, Err(Error::InvalidProof))
        } else if proof_used(cs, proof) {
            (self, Err(Error::ContributionAlreadySubmitted))
        } else if weight < 1 || weight > 100 {
            (self, Err(Error::InvalidContributionWeight))
        } else if count_pending(cs, who) >= self.config.max_pending_contributions {
            (self, Err(Error::RateLimited))
        } else if count_submitted(cs, who) >= self.config.max_contributions_per_account {
            (self, Err(Error::MaxContributionsExceeded))
        } else if count_recent(cs, who, now) > SYBIL_MAX_RECENT {
            (self, Err(Error::SybilAttackDetected))
        } else {
            let id = (cs.len() + 1) as u64;
            let c = Contribution {
                id,
                proof,
                contribution_type,
                weight,
                submitter: who,
                verified: false,
                source,
                timestamp: now,
                status: ContributionStatus::Pending,
                verification_count: 0,
            };
            (
                ReputationModel { contributions: cs.push(c), ..self },
                Ok(
                    (
                        id,
                        seq![
                            Event::ContributionSubmitted {
                                contributor: who,
                                contribution_id: id,
                                proof_hash: proof,
                                contribution_type,
                                source,
                            },
                        ],
                    ),
                ),
            )
        }
    }

    /// Effects of a verification.
    pub open spec fn verify_contribution_spec(
        self,
        verifier: AccountId,
        contributor: AccountId,
        contribution_id: ContributionId,
        score: u8,
        comment: Seq<u8>,
    ) -> (ReputationModel, Result<Seq<Event>, Error>) {
        let cs = self.contributions;
        let idx = contribution_id - 1;
        if verifier == contributor {
            (self, Err(Error::SelfVerificationNotAllowed))
        } else if score_of(self.scores, verifier) < self.config.min_reputation_to_verify {
            (self, Err(Error::InsufficientReputationToVerify))
        } else if score > 100 {
            (self, Err(Error::InvalidVerificationScore))
        } else if !(1 <= contribution_id <= cs.len()) {
            (self, Err(Error::ContributionNotFound))
        } else if cs[idx].verified {
            (self, Err(Error::ContributionAlreadyVerified))
        } else if cs[idx].submitter != contributor {
            (self, Err(Error::ContributionNotFound))
        } else if verified_by(self.verifications, contribution_id, verifier) {
            (self, Err(Error::ContributionAlreadyVerified))
        } else {
            let c = cs[idx];
            let count = (c.verification_count + 1) as u32;
            let vs = self.verifications.push((contribution_id, verifier, score, comment));
            if count >= self.config.min_verifications {
                let old_score = score_of(self.scores, contributor);
                let new_score = clamp(
                    old_score + reward(self.params, c),
                    self.config.min_reputation as int,
                    self.config.max_reputation as int,
                );
                let c2 = Contribution {
                    verification_count: count,
                    verified: true,
                    status: ContributionStatus::Verified,
                    ..c
                };
                (
                    ReputationModel {
                        scores: set_score(self.scores, contributor, new_score as i32),
                        contributions: cs.update(idx, c2),
                        verifications: vs,
                        ..self
                    },
                    Ok(
                        seq![
                            Event::ReputationUpdated {
                                account: contributor,
                                old_score: old_score as i32,
                                new_score: new_score as i32,
                                change_reason: RepChangeReason::VerificationReward,
                            },
                            Event::ContributionVerified {
                                contributor,
                                contribution_id,
                                verifier,
                                score,
                                reputation_gained: saturate_i32(new_score - old_score),
                            },
                        ],
                    ),
                )
            } else {
                let c2 = Contribution { verification_count: count, ..c };
                (
                    ReputationModel { contributions: cs.update(idx, c2), verifications: vs, ..self },
                    Ok(
                        seq![
                            Event::ContributionVerified {
                                contributor,
                                contribution_id,
                                verifier,
                                score,
                                reputation_gained: 0,
                            },
                        ],
                    ),
                )
            }
        }
    }
}

/// Points that a verified contribution earns: base points, boosted, then scaled by
/// the declared weight.
pub open spec fn reward(params: AlgorithmParams, c: Contribution) -> int {
    let points = params.base_weight(c.contribution_type) * params.verification_multiplier as int
        / 10_000;
    points * c.weight as int / 100
}

/// `v`, capped to the range of `i32`.
pub open spec fn saturate_i32(v: int) -> i32 {
    if v > i32::MAX {
        i32::MAX
    } else if v < i32::MIN {
        i32::MIN
    } else {
        v as i32
    }
}

/// `verifier` has already verified contribution `contribution_id`.
pub open spec fn verified_by(
    vs: Seq<VerificationView>,
    contribution_id: ContributionId,
    verifier: AccountId,
) -> bool {
    exists|i: int| 0 <= i < vs.len() && vs[i].0 == contribution_id && vs[i].1 == verifier
}

/// Thousandths of its value that a contribution keeps at height `now`.
pub open spec fn decay_factor(params: AlgorithmParams, c: Contribution, now: BlockNumber) -> int {
    let age: int = if now >= c.timestamp {
        now - c.timestamp
    } else {
        0
    };
    let amount = age * params.decay_rate_per_block as int / 1000;
    if amount >= 1000 {
        0
    } else {
        1000 - amount
    }
}

/// What a verified contribution is worth at height `now`.
pub open spec fn decayed_value(params: AlgorithmParams, c: Contribution, now: BlockNumber) -> int {
    params.base_weight(c.contribution_type) * decay_factor(params, c, now) / 1000 * c.weight as int
        / 100
}

/// Sum of the decayed values of the verified contributions of `a`.
pub open spec fn decayed_total(
    params: AlgorithmParams,
    cs: Seq<Contribution>,
    a: AccountId,
    now: BlockNumber,
) -> int
    decreases cs.len(),
{
    if cs.len() == 0 {
        0
    } else {
        decayed_total(params, cs.drop_last(), a, now) + if cs.last().submitter == a
            && cs.last().verified {
            decayed_value(params, cs.last(), now)
        } else {
            0
        }
    }
}

/// A mapped weight lies in `[1, 100]`.
pub open spec fn weight_in_range_spec(w: Option<u32>) -> bool {
    w matches Some(x) ==> 1 <= x <= 100
}

/// A mapped weight lies in `[1, 100]`.
pub fn weight_in_range(w: Option<u32>) -> (r: bool)
    ensures
        r == weight_in_range_spec(w),
{
    match w {
        Some(x) => 1 <= x && x <= 100,
        None => true,
    }
}

/// Percentile band of a score.
pub open spec fn percentile_of(score: int) -> u8 {
    if score >= 900 {
        99
    } else if score >= 750 {
        90
    } else if score >= 500 {
        75
    } else if score >= 250 {
        50
    } else {
        25
    }
}

impl ReputationModel {
    /// Effects of recomputing the score of `account` from its verified contributions.
    pub open spec fn decay_spec(self, account: AccountId, now: BlockNumber) -> (
        ReputationModel,
        Seq<Event>,
    ) {
        let old_score = score_of(self.scores, account);
        let new_score = clamp(
            decayed_total(self.params, self.contributions, account, now),
            self.config.min_reputation as int,
            self.config.max_reputation as int,
        );
        (
            ReputationModel { scores: set_score(self.scores, account, new_score as i32), ..self },
            if old_score != new_score {
                seq![
                    Event::ReputationUpdated {
                        account,
                        old_score: old_score as i32,
                        new_score: new_score as i32,
                        change_reason: RepChangeReason::TimeDecay,
                    },
                ]
            } else {
                seq![]
            },
        )
    }

    /// Effects of a parameter update.
    pub open spec fn update_params_spec(self, privileged: bool, params: AlgorithmParams) -> (
        ReputationModel,
        Result<Seq<Event>, Error>,
    ) {
        if !privileged {
            (self, Err(Error::RequiresGovernance))
        } else if !params.valid() {
            (self, Err(Error::InvalidAlgorithmParams))
        } else {
            (
                ReputationModel { params, ..self },
                Ok(seq![Event::AlgorithmParamsUpdated { old_params: self.params, new_params: params }]),
            )
        }
    }
}

/// One item of a batch submission: proof, type, declared weight, source.
pub type BatchItem = (Hash256, ContributionType, u8, DataSource);

/// One item of a batch verification: contributor, contribution, score, comment.
pub type BatchVerdictView = (AccountId, ContributionId, u8, Seq<u8>);

impl ReputationModel {
    /// Submissions applied one after another, stopping at the first error.
    pub open spec fn add_all_spec(self, who: AccountId, now: BlockNumber, items: Seq<BatchItem>) -> (
        ReputationModel,
        Result<Seq<Event>, Error>,
    )
        decreases items.len(),
    {
        if items.len() == 0 {
            (self, Ok(seq![]))
        } else {
            let (m1, r1) = self.add_all_spec(who, now, items.drop_last());
            match r1 {
                Err(e) => (m1, Err(e)),
                Ok(ev) => {
                    let it = items.last();
                    let (m2, r2) = m1.add_contribution_spec(who, now, it.0, it.1, it.2, it.3);
                    match r2 {
                        Ok((_, e2)) => (m2, Ok(ev + e2)),
                        Err(e) => (m2, Err(e)),
                    }
                },
            }
        }
    }

    /// Effects of a batch submission: all items or none.
    pub open spec fn batch_add_spec(self, who: AccountId, now: BlockNumber, items: Seq<BatchItem>) -> (
        ReputationModel,
        Result<Seq<Event>, Error>,
    ) {
        if items.len() > MAX_BATCH {
            (self, Err(Error::InvalidAlgorithmParams))
        } else {
            match self.add_all_spec(who, now, items) {
                (m, Ok(ev)) => (m, Ok(ev)),
                (_, Err(e)) => (self, Err(e)),
            }
        }
    }

    /// Verifications applied one after another, stopping at the first error.
    pub open spec fn verify_all_spec(self, verifier: AccountId, items: Seq<BatchVerdictView>) -> (
        ReputationModel,
        Result<Seq<Event>, Error>,
    )
        decreases items.len(),
    {
        if items.len() == 0 {
            (self, Ok(seq![]))
        } else {
            let (m1, r1) = self.verify_all_spec(verifier, items.drop_last());
            match r1 {
                Err(e) => (m1, Err(e)),
                Ok(ev) => {
                    let it = items.last();
                    let (m2, r2) = m1.verify_contribution_spec(verifier, it.0, it.1, it.2, it.3);
                    match r2 {
                        Ok(e2) => (m2, Ok(ev + e2)),
                        Err(e) => (m2, Err(e)),
                    }
                },
            }
        }
    }

    /// Effects of a batch verification: all items or none.
    pub open spec fn batch_verify_spec(self, verifier: AccountId, items: Seq<BatchVerdictView>) -> (
        ReputationModel,
        Result<Seq<Event>, Error>,
    ) {
        if score_of(self.scores, verifier) < self.config.min_reputation_to_verify {
            (self, Err(Error::InsufficientReputationToVerify))
        } else if items.len() > MAX_BATCH {
            (self, Err(Error::InvalidAlgorithmParams))
        } else {
            match self.verify_all_spec(verifier, items) {
                (m, Ok(ev)) => (m, Ok(ev)),
                (_, Err(e)) => (self, Err(e)),
            }
        }
    }
}

/// The items of a batch verification, comments as byte sequences.
pub open spec fn verdicts_view(items: Seq<(AccountId, ContributionId, u8, Vec<u8>)>) -> Seq<
    BatchVerdictView,
> {
    items.map_values(|it: (AccountId, ContributionId, u8, Vec<u8>)| (it.0, it.1, it.2, it.3@))
}

/// The result of a submission, notifications as a sequence.
pub open spec fn add_result_view(r: Result<(ContributionId, Vec<Event>), Error>) -> Result<
    (ContributionId, Seq<Event>),
    Error,
> {
    match r {
        Ok((id, ev)) => Ok((id, ev@)),
        Err(e) => Err(e),
    }
}

/// The result of an operation, notifications as a sequence.
pub open spec fn result_view(r: Result<Vec<Event>, Error>) -> Result<Seq<Event>, Error> {
    match r {
        Ok(ev) => Ok(ev@),
        Err(e) => Err(e),
    }
}

impl ReputationState {
    pub open spec fn wf(&self) -> bool {
        self@.wf()
    }

    /// An empty ledger with the default parameters.
    pub fn new(config: ReputationConfig) -> (r: ReputationState)
        requires
            config.valid(),
        ensures
            r.wf(),
            r@.config == config,
            r@.params == AlgorithmParams::default_params_spec(),
            r@.scores.len() == 0,
            r@.contributions.len() == 0,
            r@.verifications.len() == 0,
    {
        let params = AlgorithmParams::default_params();
        let r = ReputationState {
            config,
            params,
            scores: Vec::new(),
            contributions: Vec::new(),
            verifications: Vec::new(),
        };
        assert(r@.verifications =~= Seq::<VerificationView>::empty());
        r
    }

    fn find_score(&self, a: AccountId) -> (r: Option<usize>)
        requires
            unique_accounts(self.scores@),
        ensures
            match r {
                Some(i) => i < self.scores@.len() && self.scores@[i as int].account == a
                    && score_index(self.scores@, a) == i,
                None => !has_score(self.scores@, a),
            },
    {
        let mut i: usize = 0;
        while i < self.scores.len()
            invariant
                i <= self.scores@.len(),
                unique_accounts(self.scores@),
                forall|j: int| 0 <= j < i ==> self.scores@[j].account != a,
            decreases self.scores@.len() - i,
        {
            if self.scores[i].account == a {
                proof {
                    lemma_score_at(self.scores@, i as int);
                }
                return Some(i);
            }
            i = i + 1;
        }
        None
    }

    /// The score of `account`; zero where none is stored.
    pub fn get_reputation(&self, account: AccountId) -> (r: i32)
        requires
            self.wf(),
        ensures
            r == score_of(self@.scores, account),
    {
        match self.find_score(account) {
            Some(i) => self.scores[i].score,
            None => 0,
        }
    }

    fn write_score(&mut self, a: AccountId, v: i32)
        requires
            unique_accounts(old(self).scores@),
        ensures
            final(self).scores@ == set_score(old(self).scores@, a, v),
            final(self).config == old(self).config,
            final(self).params == old(self).params,
            final(self).contributions == old(self).contributions,
            final(self).verifications == old(self).verifications,
    {
        match self.find_score(a) {
            Some(i) => {
                self.scores.set(i, ScoreEntry { account: a, score: v });
            },
            None => {
                self.scores.push(ScoreEntry { account: a, score: v });
            },
        }
    }

    /// Counts the contributions of `who`: all, pending, and recent before `now`.
    fn account_activity(&self, who: AccountId, now: BlockNumber) -> (r: (usize, usize, usize))
        ensures
            r.0 == count_submitted(self.contributions@, who),
            r.1 == count_pending(self.contributions@, who),
            r.2 == count_recent(self.contributions@, who, now),
    {
        let mut total: usize = 0;
        let mut pending: usize = 0;
        let mut recent: usize = 0;
        let mut i: usize = 0;
        while i < self.contributions.len()
            invariant
                i <= self.contributions@.len(),
                total == count_submitted(self.contributions@.take(i as int), who),
                pending == count_pending(self.contributions@.take(i as int), who),
                recent == count_recent(self.contributions@.take(i as int), who, now),
                total <= i,
                pending <= i,
                recent <= i,
            decreases self.contributions@.len() - i,
        {
            let c = self.contributions[i];
            proof {
                let cs = self.contributions@;
                assert(cs.take(i + 1).drop_last() =~= cs.take(i as int));
                assert(cs.take(i + 1).last() == c);
            }
            if c.submitter == who {
                total = total + 1;
                if !c.verified {
                    pending = pending + 1;
                }
                if now.saturating_sub(c.timestamp) < SYBIL_WINDOW {
                    recent = recent + 1;
                }
            }
            i = i + 1;
        }
        assert(self.contributions@.take(i as int) =~= self.contributions@);
        (total, pending, recent)
    }

    fn find_proof(&self, p: Hash256) -> (r: bool)
        ensures
            r == proof_used(self.contributions@, p),
    {
        let mut i: usize = 0;
        while i < self.contributions.len()
            invariant
                i <= self.contributions@.len(),
                forall|j: int| 0 <= j < i ==> self.contributions@[j].proof != p,
            decreases self.contributions@.len() - i,
        {
            if self.contributions[i].proof == p {
                return true;
            }
            i = i + 1;
        }
        false
    }

    /// Submits a contribution claim; on success it is stored as pending.
    pub fn add_contribution(
        &mut self,
        who: AccountId,
        now: BlockNumber,
        proof: Hash256,
        contribution_type: ContributionType,
        weight: u8,
        source: DataSource,
    ) -> (r: Result<(ContributionId, Vec<Event>), Error>)
        requires
            old(self).wf(),
            old(self)@.contributions.len() + 1 < u64::MAX,
        ensures
            final(self).wf(),
            (final(self)@, add_result_view(r)) == old(self)@.add_contribution_spec(
                who,
                now,
                proof,
                contribution_type,
                weight,
                source,
            ),
            r is Err ==> final(self)@ == old(self)@,
            r is Ok ==> final(self)@ == (ReputationModel {
                contributions: final(self)@.contributions,
                ..old(self)@
            }) && final(self)@.contributions.drop_last() == old(self)@.contributions
                && final(self)@.contributions.len() == old(self)@.contributions.len() + 1,
    {
        if proof.is_zero() {
            return Err(Error::InvalidProof);
        }
        if self.find_proof(proof) {
            return Err(Error::ContributionAlreadySubmitted);
        }
        if weight < 1 || weight > 100 {
            return Err(Error::InvalidContributionWeight);
        }
        let (total, pending, recent) = self.account_activity(who, now);
        if pending >= self.config.max_pending_contributions as usize {
            return Err(Error::RateLimited);
        }
        if total >= self.config.max_contributions_per_account as usize {
            return Err(Error::MaxContributionsExceeded);
        }
        if recent > SYBIL_MAX_RECENT as usize {
            return Err(Error::SybilAttackDetected);
        }
        let id: u64 = self.contributions.len() as u64 + 1;
        let c = Contribution {
            id,
            proof,
            contribution_type,
            weight,
            submitter: who,
            verified: false,
            source,
            timestamp: now,
            status: ContributionStatus::Pending,
            verification_count: 0,
        };
        let ghost pre = self@;
        self.contributions.push(c);
        proof {
            let post = self@;
            assert(post.verifications =~= pre.verifications);
            assert forall|i: int, j: int|
                0 <= i < post.contributions.len() && 0 <= j < post.contributions.len()
                    && #[trigger] post.contributions[i].proof
                    == #[trigger] post.contributions[j].proof implies i == j by {
                if i < pre.contributions.len() && j < pre.contributions.len() {
                    assert(pre.contributions[i].proof == pre.contributions[j].proof);
                } else if i < pre.contributions.len() {
                    assert(pre.contributions[i].proof == proof);
                } else if j < pre.contributions.len() {
                    assert(pre.contributions[j].proof == proof);
                }
            }
            assert forall|i: int| 0 <= i < post.contributions.len() implies contribution_wf(
                #[trigger] post.contributions[i],
                i,
                post.config,
            ) by {
                if i < pre.contributions.len() {
                    assert(post.contributions[i] == pre.contributions[i]);
                }
            }
        }
        proof {
            assert(self@.contributions.drop_last() =~= pre.contributions);
        }
        let mut events: Vec<Event> = Vec::new();
        events.push(
            Event::ContributionSubmitted {
                contributor: who,
                contribution_id: id,
                proof_hash: proof,
                contribution_type,
                source,
            },
        );
        proof {
            assert(events@ =~= seq![
                Event::ContributionSubmitted {
                    contributor: who,
                    contribution_id: id,
                    proof_hash: proof,
                    contribution_type,
                    source,
                },
            ]);
        }
        Ok((id, events))
    }

    fn has_verified(&self, contribution_id: ContributionId, verifier: AccountId) -> (r: bool)
        ensures
            r == verified_by(self@.verifications, contribution_id, verifier),
    {
        let mut i: usize = 0;
        while i < self.verifications.len()
            invariant
                i <= self.verifications@.len(),
                forall|j: int|
                    0 <= j < i ==> !(self@.verifications[j].0 == contribution_id
                        && self@.verifications[j].1 == verifier),
            decreases self.verifications@.len() - i,
        {
            proof {
                assert(self@.verifications[i as int].0 == self.verifications@[i as int].contribution_id);
                assert(self@.verifications[i as int].1 == self.verifications@[i as int].verifier);
            }
            if self.verifications[i].contribution_id == contribution_id
                && self.verifications[i].verifier == verifier {
                return true;
            }
            i = i + 1;
        }
        false
    }

    /// Base points of `t` under the current parameters.
    fn type_weight(&self, t: ContributionType) -> (r: u32)
        requires
            self.params.valid(),
        ensures
            r == self.params.base_weight(t),
            r <= 100,
    {
        match self.params.contribution_type_weights.get(t) {
            Some(w) => w,
            None => DEFAULT_TYPE_WEIGHT,
        }
    }

    /// Records a verifier's verdict on a contribution; the verification that reaches
    /// the threshold marks it verified and rewards the contributor.
    pub fn verify_contribution(
        &mut self,
        verifier: AccountId,
        contributor: AccountId,
        contribution_id: ContributionId,
        score: u8,
        comment: Vec<u8>,
    ) -> (r: Result<Vec<Event>, Error>)
        requires
            old(self).wf(),
        ensures
            final(self).wf(),
            (final(self)@, result_view(r)) == old(self)@.verify_contribution_spec(
                verifier,
                contributor,
                contribution_id,
                score,
                comment@,
            ),
            r is Err ==> final(self)@ == old(self)@,
            r is Ok ==> final(self)@.params == old(self)@.params && final(self)@.config == old(
                self,
            )@.config && final(self)@.verifications.drop_last() == old(self)@.verifications
                && final(self)@.verifications.len() == old(self)@.verifications.len() + 1,
    {
        if verifier == contributor {
            return Err(Error::SelfVerificationNotAllowed);
        }
        let verifier_reputation = self.get_reputation(verifier);
        if verifier_reputation < self.config.min_reputation_to_verify {
            return Err(Error::InsufficientReputationToVerify);
        }
        if score > 100 {
            return Err(Error::InvalidVerificationScore);
        }
        if contribution_id < 1 || contribution_id > self.contributions.len() as u64 {
            return Err(Error::ContributionNotFound);
        }
        let idx: usize = (contribution_id - 1) as usize;
        let c = self.contributions[idx];
        if c.verified {
            return Err(Error::ContributionAlreadyVerified);
        }
        if c.submitter != contributor {
            return Err(Error::ContributionNotFound);
        }
        if self.has_verified(contribution_id, verifier) {
            return Err(Error::ContributionAlreadyVerified);
        }
        let ghost pre = self@;
        let ghost comment_view = comment@;
        proof {
            assert(contribution_wf(pre.contributions[idx as int], idx as int, pre.config));
        }
        let count: u32 = c.verification_count + 1;
        self.verifications.push(Verification { contribution_id, verifier, score, comment });
        proof {
            assert(self@.verifications =~= pre.verifications.push(
                (contribution_id, verifier, score, comment_view),
            ));
        }
        proof {
            assert(self@.verifications.drop_last() =~= pre.verifications);
        }
        let mut events: Vec<Event> = Vec::new();
        if count >= self.config.min_verifications {
            let old_score = self.get_reputation(contributor);
            let base = self.type_weight(c.contribution_type);
            let multiplier = self.verification_multiplier();
            assert(0 <= base as i64 * multiplier <= 5_000_000) by (nonlinear_arith)
                requires
                    base <= 100,
                    10_000 <= multiplier <= 50_000,
            ;
            let points: i64 = (base as i64 * multiplier) / 10_000;
            assert(0 <= points * c.weight as i64 <= 50_000) by (nonlinear_arith)
                requires
                    0 <= points <= 500,
                    c.weight <= 100,
            ;
            let weighted: i64 = points * c.weight as i64 / 100;
            let sum: i64 = old_score as i64 + weighted;
            let new_score: i32 = if sum < self.config.min_reputation as i64 {
                self.config.min_reputation
            } else if sum > self.config.max_reputation as i64 {
                self.config.max_reputation
            } else {
                sum as i32
            };
            let diff: i64 = new_score as i64 - old_score as i64;
            let gained: i32 = if diff > i32::MAX as i64 {
                i32::MAX
            } else if diff < i32::MIN as i64 {
                i32::MIN
            } else {
                diff as i32
            };
            let c2 = Contribution {
                verification_count: count,
                verified: true,
                status: ContributionStatus::Verified,
                ..c
            };
            self.contributions.set(idx, c2);
            proof {
                lemma_set_score(self.scores@, contributor, new_score);
                lemma_set_score_within(self.scores@, contributor, new_score, self.config);
            }
            self.write_score(contributor, new_score);
            events.push(
                Event::ReputationUpdated {
                    account: contributor,
                    old_score,
                    new_score,
                    change_reason: RepChangeReason::VerificationReward,
                },
            );
            events.push(
                Event::ContributionVerified {
                    contributor,
                    contribution_id,
                    verifier,
                    score,
                    reputation_gained: gained,
                },
            );
            proof {
                let post = self@;
                assert forall|i: int| 0 <= i < post.contributions.len() implies contribution_wf(
                    #[trigger] post.contributions[i],
                    i,
                    post.config,
                ) by {
                    if i != idx {
                        assert(post.contributions[i] == pre.contributions[i]);
                    }
                }
                assert forall|i: int, j: int|
                    0 <= i < post.contributions.len() && 0 <= j < post.contributions.len()
                        && #[trigger] post.contributions[i].proof
                        == #[trigger] post.contributions[j].proof implies i == j by {
                    assert(pre.contributions[i].proof == post.contributions[i].proof);
                    assert(pre.contributions[j].proof == post.contributions[j].proof);
                }
                assert(events@ =~= seq![
                    Event::ReputationUpdated {
                        account: contributor,
                        old_score,
                        new_score,
                        change_reason: RepChangeReason::VerificationReward,
                    },
                    Event::ContributionVerified {
                        contributor,
                        contribution_id,
                        verifier,
                        score,
                        reputation_gained: gained,
                    },
                ]);
            }
        } else {
            let c2 = Contribution { verification_count: count, ..c };
            self.contributions.set(idx, c2);
            events.push(
                Event::ContributionVerified {
                    contributor,
                    contribution_id,
                    verifier,
                    score,
                    reputation_gained: 0,
                },
            );
            proof {
                let post = self@;
                assert forall|i: int| 0 <= i < post.contributions.len() implies contribution_wf(
                    #[trigger] post.contributions[i],
                    i,
                    post.config,
                ) by {
                    if i != idx {
                        assert(post.contributions[i] == pre.contributions[i]);
                    }
                }
                assert forall|i: int, j: int|
                    0 <= i < post.contributions.len() && 0 <= j < post.contributions.len()
                        && #[trigger] post.contributions[i].proof
                        == #[trigger] post.contributions[j].proof implies i == j by {
                    assert(pre.contributions[i].proof == post.contributions[i].proof);
                    assert(pre.contributions[j].proof == post.contributions[j].proof);
                }
                assert(events@ =~= seq![
                    Event::ContributionVerified {
                        contributor,
                        contribution_id,
                        verifier,
                        score,
                        reputation_gained: 0,
                    },
                ]);
            }
        }
        Ok(events)
    }

    fn verification_multiplier(&self) -> (r: i64)
        requires
            self.params.valid(),
        ensures
            r == self.params.verification_multiplier,
            10_000 <= r <= 50_000,
    {
        self.params.verification_multiplier as i64
    }

    /// Recomputes the score of `account` from its verified contributions, each decayed
    /// by its age at `now`; the result replaces the stored score.
    pub fn update_reputation_with_time_decay(&mut self, account: AccountId, now: BlockNumber) -> (r:
        Vec<Event>)
        requires
            old(self).wf(),
        ensures
            final(self).wf(),
            (final(self)@, r@) == old(self)@.decay_spec(account, now),
    {
        let mut total: u64 = 0;
        let mut i: usize = 0;
        let rate: u128 = self.params.decay_rate_per_block as u128;
        while i < self.contributions.len()
            invariant
                i <= self.contributions@.len(),
                self@.wf(),
                rate == self.params.decay_rate_per_block,
                total as int == if decayed_total(
                    self.params,
                    self.contributions@.take(i as int),
                    account,
                    now,
                ) > u64::MAX {
                    u64::MAX as int
                } else {
                    decayed_total(self.params, self.contributions@.take(i as int), account, now)
                },
                decayed_total(self.params, self.contributions@.take(i as int), account, now) >= 0,
            decreases self.contributions@.len() - i,
        {
            let c = self.contributions[i];
            proof {
                let cs = self.contributions@;
                assert(cs.take(i + 1).drop_last() =~= cs.take(i as int));
                assert(cs.take(i + 1).last() == c);
                assert(contribution_wf(cs[i as int], i as int, self.config));
            }
            if c.submitter == account && c.verified {
                let age: u128 = now.saturating_sub(c.timestamp) as u128;
                assert(age * rate <= u64::MAX as u128 * 1000) by (nonlinear_arith)
                    requires
                        age <= u64::MAX,
                        rate <= 1000,
                ;
                let amount: u128 = age * rate / 1000;
                let factor: u64 = if amount >= 1000 {
                    0
                } else {
                    (1000 - amount) as u64
                };
                let base = self.type_weight(c.contribution_type);
                assert(base as u64 * factor <= 100_000) by (nonlinear_arith)
                    requires
                        base <= 100,
                        factor <= 1000,
                ;
                let decayed: u64 = base as u64 * factor / 1000;
                assert(decayed * c.weight as u64 <= 100_000) by (nonlinear_arith)
                    requires
                        decayed <= 100,
                        c.weight <= 100,
                ;
                let value: u64 = decayed * c.weight as u64 / 100;
                assert(value == decayed_value(self.params, c, now));
                total = total.saturating_add(value);
            }
            i = i + 1;
        }
        assert(self.contributions@.take(i as int) =~= self.contributions@);
        let min = self.config.min_reputation;
        let max = self.config.max_reputation;
        let new_score: i32 = if total > max as u64 {
            max
        } else if (total as i64) < min as i64 {
            min
        } else {
            total as i32
        };
        let old_score = self.get_reputation(account);
        proof {
            lemma_set_score(self.scores@, account, new_score);
                lemma_set_score_within(self.scores@, account, new_score, self.config);
        }
        self.write_score(account, new_score);
        let mut events: Vec<Event> = Vec::new();
        if old_score != new_score {
            events.push(
                Event::ReputationUpdated {
                    account,
                    old_score,
                    new_score,
                    change_reason: RepChangeReason::TimeDecay,
                },
            );
            assert(events@ =~= seq![
                Event::ReputationUpdated {
                    account,
                    old_score,
                    new_score,
                    change_reason: RepChangeReason::TimeDecay,
                },
            ]);
        } else {
            assert(events@ =~= Seq::<Event>::empty());
        }
        events
    }

    /// Checks the ranges of new parameters.
    pub fn validate_algorithm_params(params: &AlgorithmParams) -> (r: Result<(), Error>)
        ensures
            r is Ok <==> params.valid(),
            r matches Err(e) ==> e == Error::InvalidAlgorithmParams,
    {
        if params.decay_rate_per_block > 1000 {
            return Err(Error::InvalidAlgorithmParams);
        }
        if params.verification_multiplier < 10_000 || params.verification_multiplier > 50_000 {
            return Err(Error::InvalidAlgorithmParams);
        }
        let w = params.contribution_type_weights;
        if !(weight_in_range(w.issue_comment) && weight_in_range(w.pull_request) && weight_in_range(
            w.code_review,
        ) && weight_in_range(w.documentation) && weight_in_range(w.bug_report) && weight_in_range(
            w.code_commit,
        )) {
            proof {
                if !weight_in_range_spec(w.issue_comment) {
                    assert(w.get_spec(ContributionType::IssueComment) == w.issue_comment);
                } else if !weight_in_range_spec(w.pull_request) {
                    assert(w.get_spec(ContributionType::PullRequest) == w.pull_request);
                } else if !weight_in_range_spec(w.code_review) {
                    assert(w.get_spec(ContributionType::CodeReview) == w.code_review);
                } else if !weight_in_range_spec(w.documentation) {
                    assert(w.get_spec(ContributionType::Documentation) == w.documentation);
                } else if !weight_in_range_spec(w.bug_report) {
                    assert(w.get_spec(ContributionType::BugReport) == w.bug_report);
                } else {
                    assert(w.get_spec(ContributionType::CodeCommit) == w.code_commit);
                }
            }
            return Err(Error::InvalidAlgorithmParams);
        }
        proof {
            assert forall|t: ContributionType|
                (#[trigger] w.get_spec(t) matches Some(x) ==> 1 <= x <= 100) by {
                assert(weight_in_range_spec(w.get_spec(t)));
            }
        }
        Ok(())
    }

    /// Replaces the scoring parameters; `privileged` says whether the caller is the
    /// governance collaborator.
    pub fn update_algorithm_params(&mut self, privileged: bool, params: AlgorithmParams) -> (r:
        Result<Vec<Event>, Error>)
        requires
            old(self).wf(),
        ensures
            final(self).wf(),
            (final(self)@, result_view(r)) == old(self)@.update_params_spec(privileged, params),
    {
        if !privileged {
            return Err(Error::RequiresGovernance);
        }
        Self::validate_algorithm_params(&params)?;
        let old_params = self.params;
        self.params = params;
        let mut events: Vec<Event> = Vec::new();
        events.push(Event::AlgorithmParamsUpdated { old_params, new_params: params });
        assert(events@ =~= seq![Event::AlgorithmParamsUpdated { old_params, new_params: params }]);
        Ok(events)
    }

    /// Percentile band of the score of `account`.
    pub fn get_percentile(&self, account: AccountId) -> (r: u8)
        requires
            self.wf(),
        ensures
            r == percentile_of(score_of(self@.scores, account)),
    {
        let score = self.get_reputation(account);
        if score >= 900 {
            99
        } else if score >= 750 {
            90
        } else if score >= 500 {
            75
        } else if score >= 250 {
            50
        } else {
            25
        }
    }

    /// A ledger whose accounts start with the scores in `genesis`, each clamped to the
    /// bounds; a later entry for an account replaces an earlier one.
    pub fn with_genesis_scores(config: ReputationConfig, genesis: Vec<(AccountId, i32)>) -> (r:
        ReputationState)
        requires
            config.valid(),
        ensures
            r.wf(),
            r@.config == config,
            r@.params == AlgorithmParams::default_params_spec(),
            r@.scores == genesis_scores(genesis@, config),
            r@.contributions.len() == 0,
            r@.verifications.len() == 0,
    {
        let mut r = ReputationState::new(config);
        let mut i: usize = 0;
        while i < genesis.len()
            invariant
                i <= genesis@.len(),
                r.wf(),
                r@.config == config,
                r@.params == AlgorithmParams::default_params_spec(),
                r@.scores == genesis_scores(genesis@.take(i as int), config),
                r@.contributions.len() == 0,
                r@.verifications.len() == 0,
            decreases genesis@.len() - i,
        {
            let (account, score) = genesis[i];
            proof {
                assert(genesis@.take(i + 1).drop_last() =~= genesis@.take(i as int));
                assert(genesis@.take(i + 1).last() == (account, score));
            }
            r.seed_score(account, score);
            i = i + 1;
        }
        assert(genesis@.take(i as int) =~= genesis@);
        r
    }

    /// Stores the score of `account`, clamped to the bounds.
    fn seed_score(&mut self, account: AccountId, score: i32)
        requires
            old(self).wf(),
        ensures
            final(self).wf(),
            final(self)@ == (ReputationModel {
                scores: set_score(
                    old(self)@.scores,
                    account,
                    clamp(
                        score as int,
                        old(self)@.config.min_reputation as int,
                        old(self)@.config.max_reputation as int,
                    ) as i32,
                ),
                ..old(self)@
            }),
    {
        let v: i32 = if score < self.config.min_reputation {
            self.config.min_reputation
        } else if score > self.config.max_reputation {
            self.config.max_reputation
        } else {
            score
        };
        proof {
            lemma_set_score(self.scores@, account, v);
            lemma_set_score_within(self.scores@, account, v, self.config);
        }
        self.write_score(account, v);
    }

    /// The identifier that the next accepted contribution gets.
    pub fn next_contribution_id(&self) -> (r: ContributionId)
        requires
            self@.contributions.len() < u64::MAX,
        ensures
            r == self@.contributions.len() + 1,
    {
        self.contributions.len() as u64 + 1
    }

    /// Submits up to `MAX_BATCH` contributions of `who`; if one fails, none is kept.
    pub fn batch_add_contributions(&mut self, who: AccountId, now: BlockNumber, items: Vec<BatchItem>) -> (r:
        Result<Vec<Event>, Error>)
        requires
            old(self).wf(),
            old(self)@.contributions.len() + MAX_BATCH + 1 < u64::MAX,
        ensures
            final(self).wf(),
            (final(self)@, result_view(r)) == old(self)@.batch_add_spec(who, now, items@),
    {
        if items.len() > MAX_BATCH {
            return Err(Error::InvalidAlgorithmParams);
        }
        let ghost pre = self@;
        let pre_len = self.contributions.len();
        let mut events: Vec<Event> = Vec::new();
        let mut i: usize = 0;
        while i < items.len()
            invariant
                self.wf(),
                i <= items@.len() <= MAX_BATCH,
                pre == old(self)@,
                pre_len == pre.contributions.len(),
                pre.contributions.len() + MAX_BATCH + 1 < u64::MAX,
                pre_len <= self@.contributions.len() <= pre_len + i,
                self@.contributions.take(pre_len as int) == pre.contributions,
                self@.scores == pre.scores,
                self@.verifications == pre.verifications,
                self@.params == pre.params,
                self@.config == pre.config,
                (self@, Ok::<Seq<Event>, Error>(events@)) == pre.add_all_spec(
                    who,
                    now,
                    items@.take(i as int),
                ),
            decreases items@.len() - i,
        {
            let it = items[i];
            proof {
                assert(items@.take(i + 1).drop_last() =~= items@.take(i as int));
                assert(items@.take(i + 1).last() == it);
            }
            let ghost before = self@;
            match self.add_contribution(who, now, it.0, it.1, it.2, it.3) {
                Ok((_, mut ev)) => {
                    proof {
                        assert(self@.contributions.take(pre_len as int) =~= before.contributions.take(
                            pre_len as int,
                        ));
                    }
                    events.append(&mut ev);
                },
                Err(e) => {
                    proof {
                        assert(pre.add_all_spec(who, now, items@.take(i + 1)).1 == Err::<
                            Seq<Event>,
                            Error,
                        >(e));
                    }
                    self.contributions.truncate(pre_len);
                    proof {
                        assert(self@.contributions =~= pre.contributions);
                        assert(self@.verifications =~= pre.verifications);
                        assert(items@.len() > 0);
                        lemma_add_all_error_sticks(pre, who, now, items@, (i + 1) as int);
                        assert(items@.take(items@.len() as int) =~= items@);
                        assert(pre.add_all_spec(who, now, items@).1 == Err::<Seq<Event>, Error>(e));
                        assert(self@ == pre);
                        assert(pre.batch_add_spec(who, now, items@) == (pre, Err::<Seq<Event>, Error>(e)));
                    }
                    return Err(e);
                },
            }
            i = i + 1;
        }
        proof {
            assert(items@.take(i as int) =~= items@);
        }
        Ok(events)
    }

    /// Records up to `MAX_BATCH` verdicts of `verifier`; if one fails, none is kept.
    pub fn batch_verify_contributions(
        &mut self,
        verifier: AccountId,
        items: Vec<(AccountId, ContributionId, u8, Vec<u8>)>,
    ) -> (r: Result<Vec<Event>, Error>)
        requires
            old(self).wf(),
        ensures
            final(self).wf(),
            (final(self)@, result_view(r)) == old(self)@.batch_verify_spec(verifier, verdicts_view(items@)),
    {
        let verifier_reputation = self.get_reputation(verifier);
        if verifier_reputation < self.config.min_reputation_to_verify {
            return Err(Error::InsufficientReputationToVerify);
        }
        if items.len() > MAX_BATCH {
            return Err(Error::InvalidAlgorithmParams);
        }
        let ghost pre = self@;
        let ghost iv = verdicts_view(items@);
        let saved_scores = copy_vec(&self.scores);
        let saved_contributions = copy_vec(&self.contributions);
        let pre_vlen = self.verifications.len();
        let mut rest = items;
        let ghost all_items = rest@;
        let n = rest.len();
        let mut events: Vec<Event> = Vec::new();
        let mut i: usize = 0;
        while i < n
            invariant
                self.wf(),
                n == all_items.len(),
                iv == verdicts_view(all_items),
                all_items == items@,
                rest@ == all_items.subrange(i as int, n as int),
                i <= n <= MAX_BATCH,
                saved_scores@ == pre.scores,
                saved_contributions@ == pre.contributions,
                pre_vlen == pre.verifications.len(),
                self@.verifications.len() >= pre_vlen,
                self@.verifications.take(pre_vlen as int) == pre.verifications,
                self@.params == pre.params,
                self@.config == pre.config,
                pre.wf(),
                pre == old(self)@,
                score_of(pre.scores, verifier) >= pre.config.min_reputation_to_verify,
                (self@, Ok::<Seq<Event>, Error>(events@)) == pre.verify_all_spec(
                    verifier,
                    iv.take(i as int),
                ),
            decreases n - i,
        {
            let (contributor, contribution_id, score, comment) = rest.remove(0);
            proof {
                assert(all_items[i as int] == (contributor, contribution_id, score, comment));
                assert(iv.take(i + 1).drop_last() =~= iv.take(i as int));
                assert(iv.take(i + 1).last() == (contributor, contribution_id, score, comment@));
                assert(rest@ =~= all_items.subrange(i + 1, n as int));
            }
            let ghost before = self@;
            match self.verify_contribution(verifier, contributor, contribution_id, score, comment) {
                Ok(mut ev) => {
                    proof {
                        assert(self@.verifications.take(pre_vlen as int) =~= before.verifications.take(
                            pre_vlen as int,
                        ));
                    }
                    events.append(&mut ev);
                },
                Err(e) => {
                    proof {
                        assert(pre.verify_all_spec(verifier, iv.take(i + 1)).1 == Err::<
                            Seq<Event>,
                            Error,
                        >(e));
                    }
                    let ghost vs_before = self.verifications@;
                    self.scores = saved_scores;
                    self.contributions = saved_contributions;
                    self.verifications.truncate(pre_vlen);
                    proof {
                        assert(self.verifications@ =~= vs_before.subrange(0, pre_vlen as int));
                        assert(self@.verifications =~= before.verifications.take(pre_vlen as int));
                        lemma_verify_all_error_sticks(pre, verifier, iv, (i + 1) as int);
                        assert(iv.take(iv.len() as int) =~= iv);
                        assert(pre.verify_all_spec(verifier, iv).1 == Err::<Seq<Event>, Error>(e));
                        assert(self@.scores == pre.scores);
                        assert(self@.contributions == pre.contributions);
                        assert(self@ == pre);
                        assert(pre.batch_verify_spec(verifier, iv) == (pre, Err::<Seq<Event>, Error>(e)));
                    }
                    return Err(e);
                },
            }
            i = i + 1;
        }
        proof {
            assert(iv.take(i as int) =~= iv);
        }
        Ok(events)
    }
}

/// Once a prefix of a batch fails, the whole batch fails the same way.
proof fn lemma_verify_all_error_sticks(
    m: ReputationModel,
    verifier: AccountId,
    items: Seq<BatchVerdictView>,
    k: int,
)
    requires
        0 < k <= items.len(),
        m.verify_all_spec(verifier, items.take(k)).1 is Err,
    ensures
        m.verify_all_spec(verifier, items).1 == m.verify_all_spec(verifier, items.take(k)).1,
    decreases items.len() - k,
{
    if k < items.len() {
        assert(items.take(k + 1).drop_last() =~= items.take(k));
        lemma_verify_all_error_sticks(m, verifier, items, k + 1);
    } else {
        assert(items.take(k) =~= items);
    }
}

/// A copy of `v`.
fn copy_vec<T: Copy>(v: &Vec<T>) -> (r: Vec<T>)
    ensures
        r@ == v@,
{
    let mut r: Vec<T> = Vec::new();
    let mut i: usize = 0;
    while i < v.len()
        invariant
            i <= v@.len(),
            r@ == v@.take(i as int),
        decreases v@.len() - i,
    {
        r.push(v[i]);
        proof {
            assert(r@ =~= v@.take(i + 1));
        }
        i = i + 1;
    }
    assert(v@.take(i as int) =~= v@);
    r
}

/// Once a prefix of a batch fails, the whole batch fails the same way.
proof fn lemma_add_all_error_sticks(
    m: ReputationModel,
    who: AccountId,
    now: BlockNumber,
    items: Seq<BatchItem>,
    k: int,
)
    requires
        0 < k <= items.len(),
        m.add_all_spec(who, now, items.take(k)).1 is Err,
    ensures
        m.add_all_spec(who, now, items).1 == m.add_all_spec(who, now, items.take(k)).1,
    decreases items.len() - k,
{
    if k < items.len() {
        assert(items.take(k + 1).drop_last() =~= items.take(k));
        lemma_add_all_error_sticks(m, who, now, items, k + 1);
    } else {
        assert(items.take(k) =~= items);
    }
}

} // verus!
