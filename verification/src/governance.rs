use vstd::prelude::*;

use crate::clock::{now_secs, reads_past};
use crate::util::{find_first, lemma_find_first, lemma_find_first_at};

verus! {

/// Approval thresholds are given in millionths (600_000 is 60%).
pub const THRESHOLD_SCALE: u64 = 1_000_000;

/// Seconds between a proposal's creation and the start of its vote.
pub const VOTING_DELAY: u64 = 86400;

#[derive(Debug, Clone)]
pub struct Proposal {
    pub proposal_id: u64,
    pub proposer: String,
    pub title: String,
    pub description: String,
    pub proposal_type: ProposalType,
    pub status: ProposalStatus,
    pub created_at: u64,
    pub voting_starts_at: u64,
    pub voting_ends_at: u64,
    pub execution_time: Option<u64>,
    pub yes_votes: u64,
    pub no_votes: u64,
    pub abstain_votes: u64,
    pub total_voting_power: u64,
    pub quorum: u64,
    /// The share of yes votes needed, in millionths of all votes cast.
    pub approval_threshold: u64,
}

#[derive(Debug, Clone)]
pub enum ProposalType {
    ParameterChange { parameter_name: String, new_value: String },
    EmergencyPause,
    EmergencyUnpause,
    ValidatorManagement { action: ValidatorAction, validator_address: String },
    TreasurySpend { recipient: String, amount: u64 },
    UpgradeContract { contract_address: String, new_code_hash: crate::hash_utils::Hash },
    Custom { action: String, params: Vec<(String, String)> },
}

#[derive(Debug, Clone, Copy, PartialEq, Eq, Structural)]
pub enum ValidatorAction {
    Add,
    Remove,
    UpdateCommission,
}

#[derive(Debug, Clone, Copy, PartialEq, Eq, Structural)]
pub enum ProposalStatus {
    Pending,
    Active,
    Passed,
    Rejected,
    Executed,
    Cancelled,
}

#[derive(Debug, Clone)]
pub struct Vote {
    pub voter: String,
    pub voting_power: u64,
    pub choice: VoteChoice,
    pub timestamp: u64,
}

#[derive(Debug, Clone, Copy, PartialEq, Eq, Structural)]
pub enum VoteChoice {
    Yes,
    No,
    Abstain,
}

#[derive(Debug, Clone)]
pub struct Parameter {
    pub name: String,
    pub value: String,
    pub parameter_type: ParameterType,
    pub min_value: Option<String>,
    pub max_value: Option<String>,
    pub last_updated: u64,
    pub update_history: Vec<ParameterUpdate>,
}

#[derive(Debug, Clone, Copy, PartialEq, Eq, Structural)]
pub enum ParameterType {
    Integer,
    Float,
    Boolean,
    String,
    Address,
}

#[derive(Debug, Clone)]
pub struct ParameterUpdate {
    pub proposal_id: u64,
    pub old_value: String,
    pub new_value: String,
    pub timestamp: u64,
}

#[derive(Debug, Clone, Copy)]
pub struct GovernanceStats {
    pub total_proposals: usize,
    pub active_proposals: usize,
    pub passed_proposals: usize,
    pub rejected_proposals: usize,
    pub total_parameters: usize,
}

/// Why a governance operation was refused.
#[derive(Debug, Clone, Copy, PartialEq, Eq, Structural)]
pub enum GovError {
    InsufficientVotingPower { voting_power: u64, minimum: u64 },
    InvalidThreshold,
    ProposalNotFound,
    VotingNotStarted,
    VotingEnded,
    ProposalNotActive,
    VotingNotEnded,
    AlreadyFinalized,
    NotPassed,
    ExecutionDelayNotMet { available_at: u64 },
    ParameterExists,
    ParameterNotFound,
    /// The clock reads a time so late that the schedule would not fit in 64 bits.
    ClockOutOfRange,
}

/// The weight a vote adds to the tally of `c`.
pub open spec fn weight(v: Vote, c: VoteChoice) -> int {
    if v.choice == c {
        v.voting_power as int
    } else {
        0
    }
}

/// The sum of the voting power of the votes for `c`.
pub open spec fn tally(s: Seq<Vote>, c: VoteChoice) -> int
    decreases s.len(),
{
    if s.len() == 0 {
        0
    } else {
        tally(s.drop_last(), c) + weight(s.last(), c)
    }
}

/// The position of `voter`'s vote, if any.
pub open spec fn voter_pos(s: Seq<Vote>, voter: Seq<char>) -> Option<int> {
    find_first(s, |v: Vote| v.voter@ == voter)
}

/// The votes after `v` is cast: it replaces the caster's earlier vote, if any, else it is
/// added at the end.
pub open spec fn cast_spec(s: Seq<Vote>, v: Vote) -> Seq<Vote> {
    match voter_pos(s, v.voter@) {
        Some(k) => s.update(k, v),
        None => s.push(v),
    }
}

/// The proposal with `id`, if any.
pub open spec fn proposal_pos(s: Seq<Proposal>, id: u64) -> Option<int> {
    find_first(s, |p: Proposal| p.proposal_id == id)
}

/// The parameter named `name`, if any.
pub open spec fn param_pos(s: Seq<Parameter>, name: Seq<char>) -> Option<int> {
    find_first(s, |p: Parameter| p.name@ == name)
}

/// A proposal that is still open to votes.
pub open spec fn is_open(p: Proposal) -> bool {
    p.status == ProposalStatus::Pending || p.status == ProposalStatus::Active
}

/// A proposal that has passed, executed or not.
pub open spec fn is_passed(p: Proposal) -> bool {
    p.status == ProposalStatus::Passed || p.status == ProposalStatus::Executed
}

pub open spec fn is_rejected(p: Proposal) -> bool {
    p.status == ProposalStatus::Rejected
}

/// All votes cast on a proposal.
pub open spec fn total_votes(p: Proposal) -> int {
    p.yes_votes + p.no_votes + p.abstain_votes
}

/// Whether the yes votes reach the approval threshold: the share of yes votes among all votes
/// (zero when no vote was cast) is at least `approval_threshold` millionths.
pub open spec fn approved(p: Proposal) -> bool {
    if total_votes(p) > 0 {
        p.yes_votes * (THRESHOLD_SCALE as int) >= p.approval_threshold * total_votes(p)
    } else {
        p.approval_threshold == 0
    }
}

/// The status that finalizing gives: rejected below quorum, else passed exactly when approved.
pub open spec fn final_status(p: Proposal) -> ProposalStatus {
    if total_votes(p) < p.quorum {
        ProposalStatus::Rejected
    } else if approved(p) {
        ProposalStatus::Passed
    } else {
        ProposalStatus::Rejected
    }
}

/// The proposal after finalizing at `now` with the given execution delay.
pub open spec fn finalized_spec(p: Proposal, now: u64, delay: u64) -> Proposal {
    let st = final_status(p);
    Proposal {
        status: st,
        execution_time: if st == ProposalStatus::Passed {
            Some((now + delay) as u64)
        } else {
            p.execution_time
        },
        ..p
    }
}

/// The proposal after a vote `v` is cast, the caster's earlier vote being `prev`: it is active,
/// the earlier vote is taken off its tally and the new one added.
pub open spec fn voted_spec(p: Proposal, prev: Option<Vote>, v: Vote) -> Proposal {
    let off_yes = match prev { Some(o) => weight(o, VoteChoice::Yes), None => 0 };
    let off_no = match prev { Some(o) => weight(o, VoteChoice::No), None => 0 };
    let off_abs = match prev { Some(o) => weight(o, VoteChoice::Abstain), None => 0 };
    Proposal {
        status: ProposalStatus::Active,
        yes_votes: (p.yes_votes - off_yes + weight(v, VoteChoice::Yes)) as u64,
        no_votes: (p.no_votes - off_no + weight(v, VoteChoice::No)) as u64,
        abstain_votes: (p.abstain_votes - off_abs + weight(v, VoteChoice::Abstain)) as u64,
        ..p
    }
}

/// The vote `voter` has cast, if any.
pub open spec fn prev_vote(s: Seq<Vote>, voter: Seq<char>) -> Option<Vote> {
    match voter_pos(s, voter) {
        Some(k) => Some(s[k]),
        None => None,
    }
}

/// Two proposal kinds that agree, the parameters of a custom one compared by their contents.
pub open spec fn same_type(a: ProposalType, b: ProposalType) -> bool {
    match (a, b) {
        (
            ProposalType::Custom { action: a1, params: p1 },
            ProposalType::Custom { action: a2, params: p2 },
        ) => a1 == a2 && p1@ == p2@,
        _ => a == b,
    }
}

/// Two proposals that agree in every field (see `same_type`).
pub open spec fn same_proposal(a: Proposal, b: Proposal) -> bool {
    a == Proposal { proposal_type: a.proposal_type, ..b } && same_type(a.proposal_type, b.proposal_type)
}

/// Two parameters that agree in every field, the histories compared by their contents.
pub open spec fn same_parameter(a: Parameter, b: Parameter) -> bool {
    a == Parameter { update_history: a.update_history, ..b } && a.update_history@ == b.update_history@
}

/// The proposal `create_proposal` makes at time `now`.
pub open spec fn created_spec(
    id: u64,
    proposer: String,
    title: String,
    description: String,
    proposal_type: ProposalType,
    voting_power: u64,
    quorum: u64,
    approval_threshold: u64,
    now: u64,
    period: u64,
) -> Proposal {
    Proposal {
        proposal_id: id,
        proposer,
        title,
        description,
        proposal_type,
        status: ProposalStatus::Pending,
        created_at: now,
        voting_starts_at: (now + VOTING_DELAY) as u64,
        voting_ends_at: (now + VOTING_DELAY + period) as u64,
        execution_time: None,
        yes_votes: 0,
        no_votes: 0,
        abstain_votes: 0,
        total_voting_power: voting_power,
        quorum,
        approval_threshold,
    }
}

/// What `create_proposal` answers at time `now`: refused below the minimum stake or above a
/// threshold of 100%, else the new proposal.
pub open spec fn create_result(
    id: u64,
    min_stake: u64,
    proposer: String,
    title: String,
    description: String,
    proposal_type: ProposalType,
    voting_power: u64,
    quorum: u64,
    approval_threshold: u64,
    now: u64,
    period: u64,
) -> Result<Proposal, GovError> {
    if voting_power < min_stake {
        Err(GovError::InsufficientVotingPower { voting_power, minimum: min_stake })
    } else if approval_threshold > THRESHOLD_SCALE {
        Err(GovError::InvalidThreshold)
    } else {
        Ok(
            created_spec(
                id,
                proposer,
                title,
                description,
                proposal_type,
                voting_power,
                quorum,
                approval_threshold,
                now,
                period,
            ),
        )
    }
}

/// A result that agrees with `expected`: the same error, or a proposal that agrees with the
/// expected one.
pub open spec fn same_result(r: Result<Proposal, GovError>, expected: Result<Proposal, GovError>) -> bool {
    match (r, expected) {
        (Ok(p), Ok(q)) => same_proposal(p, q),
        (Err(a), Err(b)) => a == b,
        _ => false,
    }
}

/// Governance system for on-chain parameter updates and proposals.
pub struct GovernanceSystem {
    proposals: Vec<Proposal>,
    votes: Vec<Vec<Vote>>,
    parameters: Vec<Parameter>,
    proposal_counter: u64,
    min_proposal_stake: u64,
    voting_period: u64,
    execution_delay: u64,
}

impl GovernanceSystem {
    /// The proposals, in the order they were created.
    pub closed spec fn proposals(&self) -> Seq<Proposal> {
        self.proposals@
    }

    /// The votes cast on the proposal at position `i`.
    pub closed spec fn votes_at(&self, i: int) -> Seq<Vote> {
        self.votes@[i]@
    }

    /// The registered parameters, in the order they were registered.
    pub closed spec fn parameters(&self) -> Seq<Parameter> {
        self.parameters@
    }

    /// The id the next proposal gets.
    pub closed spec fn next_id(&self) -> u64 {
        self.proposal_counter
    }

    pub closed spec fn min_stake(&self) -> u64 {
        self.min_proposal_stake
    }

    pub closed spec fn period(&self) -> u64 {
        self.voting_period
    }

    pub closed spec fn delay(&self) -> u64 {
        self.execution_delay
    }

    /// The proposal with `id`, if any.
    pub open spec fn lookup(&self, id: u64) -> Option<Proposal> {
        match proposal_pos(self.proposals(), id) {
            Some(i) => Some(self.proposals()[i]),
            None => None,
        }
    }

    /// The parameter named `name`, if any.
    pub open spec fn parameter(&self, name: Seq<char>) -> Option<Parameter> {
        match param_pos(self.parameters(), name) {
            Some(i) => Some(self.parameters()[i]),
            None => None,
        }
    }

    /// Every proposal has its own id, below the counter, and one list of votes; in each list a
    /// voter occurs once, and the three tallies are the sums of the recorded votes and fit in
    /// 64 bits together; parameter names are distinct.
    pub closed spec fn wf(&self) -> bool {
        &&& self.proposals@.len() == self.votes@.len()
        &&& forall|i: int|
            0 <= i < self.proposals@.len() ==> #[trigger] self.proposals@[i].proposal_id
                < self.proposal_counter
        &&& forall|i: int, j: int|
            0 <= i < j < self.proposals@.len() ==> self.proposals@[i].proposal_id
                != self.proposals@[j].proposal_id
        &&& forall|i: int| 0 <= i < self.votes@.len() ==> #[trigger] tallies_match(
            self.proposals@[i],
            self.votes@[i]@,
        )
        &&& forall|i: int, j: int|
            0 <= i < j < self.parameters@.len() ==> self.parameters@[i].name@
                != self.parameters@[j].name@
    }
}

/// The proposal's tallies are the sums of `votes`, which name each voter once, and the three
/// fit in 64 bits together.
pub open spec fn tallies_match(p: Proposal, votes: Seq<Vote>) -> bool {
    &&& p.yes_votes == tally(votes, VoteChoice::Yes)
    &&& p.no_votes == tally(votes, VoteChoice::No)
    &&& p.abstain_votes == tally(votes, VoteChoice::Abstain)
    &&& total_votes(p) <= u64::MAX
    &&& forall|a: int, b: int| 0 <= a < b < votes.len() ==> votes[a].voter@ != votes[b].voter@
}

proof fn lemma_tally_nonneg(s: Seq<Vote>, c: VoteChoice)
    ensures
        tally(s, c) >= 0,
    decreases s.len(),
{
    if s.len() > 0 {
        lemma_tally_nonneg(s.drop_last(), c);
    }
}

proof fn lemma_tally_update(s: Seq<Vote>, k: int, v: Vote, c: VoteChoice)
    requires
        0 <= k < s.len(),
    ensures
        tally(s.update(k, v), c) == tally(s, c) - weight(s[k], c) + weight(v, c),
    decreases s.len(),
{
    let t = s.update(k, v);
    if k == s.len() - 1 {
        assert(t.drop_last() =~= s.drop_last());
    } else {
        assert(t.drop_last() =~= s.drop_last().update(k, v));
        lemma_tally_update(s.drop_last(), k, v, c);
    }
}

proof fn lemma_tally_push(s: Seq<Vote>, v: Vote, c: VoteChoice)
    ensures
        tally(s.push(v), c) == tally(s, c) + weight(v, c),
{
    assert(s.push(v).drop_last() =~= s);
}

/// Tallies never undercount a single vote.
proof fn lemma_tally_covers(s: Seq<Vote>, k: int, c: VoteChoice)
    requires
        0 <= k < s.len(),
    ensures
        tally(s, c) >= weight(s[k], c),
{
    let z = Vote { voting_power: 0, ..s[k] };
    lemma_tally_update(s, k, z, c);
    lemma_tally_nonneg(s.update(k, z), c);
}

fn copy_pairs(v: &Vec<(String, String)>) -> (r: Vec<(String, String)>)
    ensures
        r@ == v@,
{
    let mut r: Vec<(String, String)> = Vec::new();
    let mut i: usize = 0;
    while i < v.len()
        invariant
            0 <= i <= v@.len(),
            r@ =~= v@.subrange(0, i as int),
        decreases v@.len() - i,
    {
        let (a, b) = &v[i];
        r.push((a.clone(), b.clone()));
        i = i + 1;
    }
    assert(r@ =~= v@);
    r
}

fn copy_type(t: &ProposalType) -> (r: ProposalType)
    ensures
        same_type(r, *t),
{
    match t {
        ProposalType::ParameterChange { parameter_name, new_value } => ProposalType::ParameterChange {
            parameter_name: parameter_name.clone(),
            new_value: new_value.clone(),
        },
        ProposalType::EmergencyPause => ProposalType::EmergencyPause,
        ProposalType::EmergencyUnpause => ProposalType::EmergencyUnpause,
        ProposalType::ValidatorManagement { action, validator_address } => {
            ProposalType::ValidatorManagement {
                action: *action,
                validator_address: validator_address.clone(),
            }
        },
        ProposalType::TreasurySpend { recipient, amount } => ProposalType::TreasurySpend {
            recipient: recipient.clone(),
            amount: *amount,
        },
        ProposalType::UpgradeContract { contract_address, new_code_hash } => {
            ProposalType::UpgradeContract {
                contract_address: contract_address.clone(),
                new_code_hash: *new_code_hash,
            }
        },
        ProposalType::Custom { action, params } => ProposalType::Custom {
            action: action.clone(),
            params: copy_pairs(params),
        },
    }
}

fn copy_proposal(p: &Proposal) -> (r: Proposal)
    ensures
        same_proposal(r, *p),
{
    Proposal {
        proposal_id: p.proposal_id,
        proposer: p.proposer.clone(),
        title: p.title.clone(),
        description: p.description.clone(),
        proposal_type: copy_type(&p.proposal_type),
        status: p.status,
        created_at: p.created_at,
        voting_starts_at: p.voting_starts_at,
        voting_ends_at: p.voting_ends_at,
        execution_time: p.execution_time,
        yes_votes: p.yes_votes,
        no_votes: p.no_votes,
        abstain_votes: p.abstain_votes,
        total_voting_power: p.total_voting_power,
        quorum: p.quorum,
        approval_threshold: p.approval_threshold,
    }
}

fn copy_parameter(p: &Parameter) -> (r: Parameter)
    ensures
        same_parameter(r, *p),
{
    let mut hist: Vec<ParameterUpdate> = Vec::new();
    let mut i: usize = 0;
    while i < p.update_history.len()
        invariant
            0 <= i <= p.update_history@.len(),
            hist@ =~= p.update_history@.subrange(0, i as int),
        decreases p.update_history@.len() - i,
    {
        let u = &p.update_history[i];
        hist.push(
            ParameterUpdate {
                proposal_id: u.proposal_id,
                old_value: u.old_value.clone(),
                new_value: u.new_value.clone(),
                timestamp: u.timestamp,
            },
        );
        i = i + 1;
    }
    assert(hist@ =~= p.update_history@);
    Parameter {
        name: p.name.clone(),
        value: p.value.clone(),
        parameter_type: p.parameter_type,
        min_value: crate::util::copy_opt_string(&p.min_value),
        max_value: crate::util::copy_opt_string(&p.max_value),
        last_updated: p.last_updated,
        update_history: hist,
    }
}

impl GovernanceSystem {
    pub fn new(min_proposal_stake: u64, voting_period: u64, execution_delay: u64) -> (g: Self)
        ensures
            g.wf(),
            g.proposals() == Seq::<Proposal>::empty(),
            g.parameters() == Seq::<Parameter>::empty(),
            g.next_id() == 0,
            g.min_stake() == min_proposal_stake,
            g.period() == voting_period,
            g.delay() == execution_delay,
    {
        GovernanceSystem {
            proposals: Vec::new(),
            votes: Vec::new(),
            parameters: Vec::new(),
            proposal_counter: 0,
            min_proposal_stake,
            voting_period,
            execution_delay,
        }
    }

    fn find(&self, proposal_id: u64) -> (r: Option<usize>)
        ensures
            match r {
                Some(i) => proposal_pos(self.proposals(), proposal_id) == Some(i as int)
                    && (i as int) < self.proposals@.len(),
                None => proposal_pos(self.proposals(), proposal_id) is None,
            },
    {
        let ghost pred = |p: Proposal| p.proposal_id == proposal_id;
        let mut i: usize = 0;
        while i < self.proposals.len()
            invariant
                0 <= i <= self.proposals@.len(),
                pred == (|p: Proposal| p.proposal_id == proposal_id),
                forall|j: int| 0 <= j < i ==> !pred(#[trigger] self.proposals@[j]),
            decreases self.proposals@.len() - i,
        {
            if self.proposals[i].proposal_id == proposal_id {
                proof {
                    lemma_find_first_at(self.proposals@, pred, i as int);
                }
                return Some(i);
            }
            i = i + 1;
        }
        proof {
            lemma_find_first(self.proposals@, pred);
        }
        None
    }

    fn find_parameter(&self, name: &str) -> (r: Option<usize>)
        ensures
            match r {
                Some(i) => param_pos(self.parameters(), name@) == Some(i as int)
                    && (i as int) < self.parameters@.len(),
                None => param_pos(self.parameters(), name@) is None,
            },
    {
        let key = name.to_owned();
        let ghost pred = |p: Parameter| p.name@ == name@;
        let mut i: usize = 0;
        while i < self.parameters.len()
            invariant
                0 <= i <= self.parameters@.len(),
                key@ == name@,
                pred == (|p: Parameter| p.name@ == name@),
                forall|j: int| 0 <= j < i ==> !pred(#[trigger] self.parameters@[j]),
            decreases self.parameters@.len() - i,
        {
            if self.parameters[i].name == key {
                proof {
                    lemma_find_first_at(self.parameters@, pred, i as int);
                }
                return Some(i);
            }
            i = i + 1;
        }
        proof {
            lemma_find_first(self.parameters@, pred);
        }
        None
    }

    /// Create a proposal at time `now`: its vote opens a day later and lasts the voting
    /// period.
    pub fn create_proposal_at(
        &mut self,
        proposer: String,
        title: String,
        description: String,
        proposal_type: ProposalType,
        voting_power: u64,
        quorum: u64,
        approval_threshold: u64,
        now: u64,
    ) -> (r: Result<Proposal, GovError>)
        requires
            old(self).wf(),
            old(self).next_id() < u64::MAX,
            now + VOTING_DELAY + old(self).period() <= u64::MAX,
        ensures
            final(self).wf(),
            same_result(r, create_result(
                old(self).next_id(),
                old(self).min_stake(),
                proposer,
                title,
                description,
                proposal_type,
                voting_power,
                quorum,
                approval_threshold,
                now,
                old(self).period(),
            )),
            r is Err ==> *final(self) == *old(self),
            r is Ok ==> {
                &&& final(self).proposals() == old(self).proposals().push(
                    create_result(
                        old(self).next_id(),
                        old(self).min_stake(),
                        proposer,
                        title,
                        description,
                        proposal_type,
                        voting_power,
                        quorum,
                        approval_threshold,
                        now,
                        old(self).period(),
                    )->Ok_0,
                )
                &&& final(self).votes_at(old(self).proposals().len() as int) == Seq::<Vote>::empty()
                &&& forall|i: int| 0 <= i < old(self).proposals().len() ==>
                    #[trigger] final(self).votes_at(i) == old(self).votes_at(i)
                &&& final(self).parameters() == old(self).parameters()
                &&& final(self).next_id() == old(self).next_id() + 1
                &&& final(self).min_stake() == old(self).min_stake()
                &&& final(self).period() == old(self).period()
                &&& final(self).delay() == old(self).delay()
            },
    {
        if voting_power < self.min_proposal_stake {
            return Err(
                GovError::InsufficientVotingPower { voting_power, minimum: self.min_proposal_stake },
            );
        }
        if approval_threshold > THRESHOLD_SCALE {
            return Err(GovError::InvalidThreshold);
        }
        let proposal_id = self.proposal_counter;
        self.proposal_counter = self.proposal_counter + 1;
        let voting_starts = now + VOTING_DELAY;
        let voting_ends = voting_starts + self.voting_period;
        let proposal = Proposal {
            proposal_id,
            proposer,
            title,
            description,
            proposal_type,
            status: ProposalStatus::Pending,
            created_at: now,
            voting_starts_at: voting_starts,
            voting_ends_at: voting_ends,
            execution_time: None,
            yes_votes: 0,
            no_votes: 0,
            abstain_votes: 0,
            total_voting_power: voting_power,
            quorum,
            approval_threshold,
        };
        let ghost old_votes = self.votes@;
        let answer = copy_proposal(&proposal);
        self.proposals.push(proposal);
        self.votes.push(Vec::new());
        proof {
            assert(tallies_match(self.proposals@.last(), self.votes@.last()@));
            assert forall|i: int| 0 <= i < self.votes@.len() implies #[trigger] tallies_match(
                self.proposals@[i],
                self.votes@[i]@,
            ) by {
                if i < old_votes.len() {
                    assert(self.votes@[i] == old_votes[i]);
                }
            }
        }
        Ok(answer)
    }

    /// Create a proposal now, by the wall clock (see `create_proposal_at`). The stake and the
    /// threshold are checked before the clock is read; a valid request is refused with
    /// `ClockOutOfRange` only when the clock reads so late that the schedule would not fit.
    pub fn create_proposal(
        &mut self,
        proposer: String,
        title: String,
        description: String,
        proposal_type: ProposalType,
        voting_power: u64,
        quorum: u64,
        approval_threshold: u64,
    ) -> (r: Result<Proposal, GovError>)
        requires
            old(self).wf(),
            old(self).next_id() < u64::MAX,
        ensures
            final(self).wf(),
            r == Err::<Proposal, GovError>(GovError::ClockOutOfRange) ==> *final(self) == *old(self),
            r is Ok ==> exists|now: u64|
                now + VOTING_DELAY + old(self).period() <= u64::MAX && same_result(r, create_result(
                    old(self).next_id(),
                    old(self).min_stake(),
                    proposer,
                    title,
                    description,
                    proposal_type,
                    voting_power,
                    quorum,
                    approval_threshold,
                    now,
                    old(self).period(),
                )) && (r is Ok ==> final(self).proposals() == old(self).proposals().push(
                    create_result(
                        old(self).next_id(),
                        old(self).min_stake(),
                        proposer,
                        title,
                        description,
                        proposal_type,
                        voting_power,
                        quorum,
                        approval_threshold,
                        now,
                        old(self).period(),
                    )->Ok_0,
                )),
            r is Err ==> *final(self) == *old(self),
            r is Ok ==> final(self).next_id() == old(self).next_id() + 1,
            voting_power < old(self).min_stake() ==> r == Err::<Proposal, GovError>(
                GovError::InsufficientVotingPower { voting_power, minimum: old(self).min_stake() },
            ),
            voting_power >= old(self).min_stake() && approval_threshold > THRESHOLD_SCALE ==> r
                == Err::<Proposal, GovError>(GovError::InvalidThreshold),
            voting_power >= old(self).min_stake() && approval_threshold <= THRESHOLD_SCALE ==> r is Ok
                || r == Err::<Proposal, GovError>(GovError::ClockOutOfRange),
            r == Err::<Proposal, GovError>(GovError::ClockOutOfRange) ==> {
                &&& voting_power >= old(self).min_stake()
                &&& approval_threshold <= THRESHOLD_SCALE
                &&& exists|now: u64| #[trigger] reads_past(now, u64::MAX - VOTING_DELAY - old(self).period())
            },
    {
        if voting_power < self.min_proposal_stake {
            return Err(
                GovError::InsufficientVotingPower { voting_power, minimum: self.min_proposal_stake },
            );
        }
        if approval_threshold > THRESHOLD_SCALE {
            return Err(GovError::InvalidThreshold);
        }
        let now = now_secs();
        if now > u64::MAX - VOTING_DELAY || now + VOTING_DELAY > u64::MAX - self.voting_period {
            proof {
                assert(reads_past(now, u64::MAX - VOTING_DELAY - old(self).period()));
            }
            return Err(GovError::ClockOutOfRange);
        }
        self.create_proposal_at(
            proposer,
            title,
            description,
            proposal_type,
            voting_power,
            quorum,
            approval_threshold,
            now,
        )
    }
}

impl GovernanceSystem {
    /// What `vote` answers at time `now`: refused for an unknown proposal, outside the voting
    /// window, or when the proposal is no longer open.
    pub open spec fn vote_result(&self, proposal_id: u64, now: u64) -> Result<(), GovError> {
        match self.lookup(proposal_id) {
            None => Err(GovError::ProposalNotFound),
            Some(p) => if now < p.voting_starts_at {
                Err(GovError::VotingNotStarted)
            } else if now > p.voting_ends_at {
                Err(GovError::VotingEnded)
            } else if !is_open(p) {
                Err(GovError::ProposalNotActive)
            } else {
                Ok(())
            },
        }
    }

    /// Whether a vote of `voting_power` by `voter` keeps the proposal's three tallies within
    /// 64 bits together.
    pub open spec fn vote_fits(&self, proposal_id: u64, voter: Seq<char>, voting_power: u64) -> bool {
        match proposal_pos(self.proposals(), proposal_id) {
            None => true,
            Some(i) => {
                let prev = match prev_vote(self.votes_at(i), voter) {
                    Some(o) => o.voting_power as int,
                    None => 0,
                };
                total_votes(self.proposals()[i]) - prev + voting_power <= u64::MAX
            },
        }
    }

    fn find_voter(&self, i: usize, voter: &String) -> (r: Option<usize>)
        requires
            i < self.votes@.len(),
        ensures
            match r {
                Some(k) => voter_pos(self.votes_at(i as int), voter@) == Some(k as int) && (k as int)
                    < self.votes_at(i as int).len(),
                None => voter_pos(self.votes_at(i as int), voter@) is None,
            },
    {
        let ghost pred = |v: Vote| v.voter@ == voter@;
        let ghost s = self.votes@[i as int]@;
        let mut k: usize = 0;
        while k < self.votes[i].len()
            invariant
                i < self.votes@.len(),
                s == self.votes@[i as int]@,
                0 <= k <= s.len(),
                pred == (|v: Vote| v.voter@ == voter@),
                forall|j: int| 0 <= j < k ==> !pred(#[trigger] s[j]),
            decreases s.len() - k,
        {
            if self.votes[i][k].voter == *voter {
                proof {
                    lemma_find_first_at(s, pred, k as int);
                }
                return Some(k);
            }
            k = k + 1;
        }
        proof {
            lemma_find_first(s, pred);
        }
        None
    }

    /// `next` is this system after `voter` cast `choice` with `voting_power` on the proposal
    /// `proposal_id` at `now`: the vote replaces the voter's earlier one in the proposal's
    /// list, the tallies move from the earlier vote to the new one, the proposal is active,
    /// and nothing else changes.
    pub open spec fn voted(&self, next: &Self, proposal_id: u64, voter: String, voting_power: u64, choice: VoteChoice, now: u64) -> bool {
        let i = proposal_pos(self.proposals(), proposal_id)->Some_0;
        let v = Vote { voter, voting_power, choice, timestamp: now };
        &&& next.proposals() == self.proposals().update(
            i,
            voted_spec(self.proposals()[i], prev_vote(self.votes_at(i), voter@), v),
        )
        &&& next.votes_at(i) == cast_spec(self.votes_at(i), v)
        &&& forall|j: int| 0 <= j < self.proposals().len() && j != i ==>
            #[trigger] next.votes_at(j) == self.votes_at(j)
        &&& next.parameters() == self.parameters()
        &&& next.next_id() == self.next_id()
        &&& next.min_stake() == self.min_stake()
        &&& next.period() == self.period()
        &&& next.delay() == self.delay()
    }

    /// Cast a vote at time `now`. A voter's second vote replaces the first: its power is taken
    /// off the old choice's tally before the new one is counted.
    pub fn vote_at(
        &mut self,
        proposal_id: u64,
        voter: String,
        voting_power: u64,
        choice: VoteChoice,
        now: u64,
    ) -> (r: Result<(), GovError>)
        requires
            old(self).wf(),
            old(self).vote_fits(proposal_id, voter@, voting_power),
        ensures
            final(self).wf(),
            r == old(self).vote_result(proposal_id, now),
            r is Err ==> *final(self) == *old(self),
            r is Ok ==> old(self).voted(final(self), proposal_id, voter, voting_power, choice, now),
    {
        let i = match self.find(proposal_id) {
            None => return Err(GovError::ProposalNotFound),
            Some(i) => i,
        };
        if now < self.proposals[i].voting_starts_at {
            return Err(GovError::VotingNotStarted);
        }
        if now > self.proposals[i].voting_ends_at {
            return Err(GovError::VotingEnded);
        }
        if self.proposals[i].status != ProposalStatus::Pending && self.proposals[i].status
            != ProposalStatus::Active {
            return Err(GovError::ProposalNotActive);
        }
        let ghost old_props = self.proposals@;
        let ghost old_votes = self.votes@;
        let ghost s = self.votes@[i as int]@;
        let ghost p0 = self.proposals@[i as int];
        let found = self.find_voter(i, &voter);
        proof {
            assert(tallies_match(old_props[i as int], old_votes[i as int]@));
        }
        let mut prop = self.proposals.remove(i);
        let mut vs = self.votes.remove(i);
        assert(vs@ == s);
        match found {
            Some(k) => {
                proof {
                    lemma_tally_covers(s, k as int, VoteChoice::Yes);
                    lemma_tally_covers(s, k as int, VoteChoice::No);
                    lemma_tally_covers(s, k as int, VoteChoice::Abstain);
                }
                let prev_power = vs[k].voting_power;
                match vs[k].choice {
                    VoteChoice::Yes => prop.yes_votes = prop.yes_votes - prev_power,
                    VoteChoice::No => prop.no_votes = prop.no_votes - prev_power,
                    VoteChoice::Abstain => prop.abstain_votes = prop.abstain_votes - prev_power,
                }
            },
            None => {},
        }
        match choice {
            VoteChoice::Yes => prop.yes_votes = prop.yes_votes + voting_power,
            VoteChoice::No => prop.no_votes = prop.no_votes + voting_power,
            VoteChoice::Abstain => prop.abstain_votes = prop.abstain_votes + voting_power,
        }
        prop.status = ProposalStatus::Active;
        let v = Vote { voter, voting_power, choice, timestamp: now };
        let ghost vv = v;
        match found {
            Some(k) => {
                vs.set(k, v);
                proof {
                    lemma_tally_update(s, k as int, vv, VoteChoice::Yes);
                    lemma_tally_update(s, k as int, vv, VoteChoice::No);
                    lemma_tally_update(s, k as int, vv, VoteChoice::Abstain);
                    lemma_find_first(s, |w: Vote| w.voter@ == vv.voter@);
                }
            },
            None => {
                vs.push(v);
                proof {
                    lemma_tally_push(s, vv, VoteChoice::Yes);
                    lemma_tally_push(s, vv, VoteChoice::No);
                    lemma_tally_push(s, vv, VoteChoice::Abstain);
                    lemma_find_first(s, |w: Vote| w.voter@ == vv.voter@);
                    assert forall|a: int, b: int| 0 <= a < b < vs@.len() implies vs@[a].voter@
                        != vs@[b].voter@ by {
                        if b == s.len() {
                            assert(!((|w: Vote| w.voter@ == vv.voter@)(s[a])));
                        }
                    }
                }
            },
        }
        let ghost newp = prop;
        let ghost newvs = vs@;
        self.proposals.insert(i, prop);
        self.votes.insert(i, vs);
        proof {
            assert(self.proposals@ =~= old_props.update(i as int, newp));
            assert(self.votes@ =~= old_votes.update(i as int, self.votes@[i as int]));
            assert(newvs == cast_spec(s, vv));
            assert(newp == voted_spec(p0, prev_vote(s, vv.voter@), vv));
            assert(tallies_match(newp, newvs));
            assert forall|j: int| 0 <= j < self.votes@.len() implies #[trigger] tallies_match(
                self.proposals@[j],
                self.votes@[j]@,
            ) by {
                if j != i as int {
                    assert(self.proposals@[j] == old_props[j]);
                    assert(self.votes@[j] == old_votes[j]);
                }
            }
        }
        Ok(())
    }
}

impl GovernanceSystem {
    /// Cast a vote now, by the wall clock (see `vote_at`).
    pub fn vote(&mut self, proposal_id: u64, voter: String, voting_power: u64, choice: VoteChoice) -> (r:
        Result<(), GovError>)
        requires
            old(self).wf(),
            old(self).vote_fits(proposal_id, voter@, voting_power),
        ensures
            final(self).wf(),
            exists|now: u64|
                #![trigger old(self).vote_result(proposal_id, now)]
                r == old(self).vote_result(proposal_id, now) && (r is Ok ==> old(self).voted(
                    final(self),
                    proposal_id,
                    voter,
                    voting_power,
                    choice,
                    now,
                )),
            r is Err ==> *final(self) == *old(self),
    {
        let now = now_secs();
        self.vote_at(proposal_id, voter, voting_power, choice, now)
    }

    /// What `finalize_proposal` answers at time `now`.
    pub open spec fn finalize_result(&self, proposal_id: u64, now: u64) -> Result<ProposalStatus, GovError> {
        match self.lookup(proposal_id) {
            None => Err(GovError::ProposalNotFound),
            Some(p) => if now <= p.voting_ends_at {
                Err(GovError::VotingNotEnded)
            } else if p.status == ProposalStatus::Executed || p.status == ProposalStatus::Cancelled {
                Err(GovError::AlreadyFinalized)
            } else {
                Ok(final_status(p))
            },
        }
    }

    /// `next` is this system after the vote on `proposal_id` was closed at `now`: the
    /// proposal takes its final status, with the execution time `now` plus the delay when it
    /// passed, and nothing else changes.
    pub open spec fn finalized(&self, next: &Self, proposal_id: u64, now: u64) -> bool {
        let i = proposal_pos(self.proposals(), proposal_id)->Some_0;
        &&& next.proposals() == self.proposals().update(i, finalized_spec(self.proposals()[i], now, self.delay()))
        &&& forall|j: int| 0 <= j < self.proposals().len() ==> #[trigger] next.votes_at(j) == self.votes_at(j)
        &&& next.parameters() == self.parameters()
        &&& next.next_id() == self.next_id()
        &&& next.min_stake() == self.min_stake()
        &&& next.period() == self.period()
        &&& next.delay() == self.delay()
    }

    /// Close the vote on a proposal at time `now`: below quorum it is rejected; otherwise it
    /// passes when the yes votes reach the approval threshold, and may then be executed after
    /// the execution delay.
    pub fn finalize_proposal_at(&mut self, proposal_id: u64, now: u64) -> (r: Result<ProposalStatus, GovError>)
        requires
            old(self).wf(),
            now + old(self).delay() <= u64::MAX,
        ensures
            final(self).wf(),
            r == old(self).finalize_result(proposal_id, now),
            r is Err ==> *final(self) == *old(self),
            r is Ok ==> old(self).finalized(final(self), proposal_id, now),
    {
        let i = match self.find(proposal_id) {
            None => return Err(GovError::ProposalNotFound),
            Some(i) => i,
        };
        if now <= self.proposals[i].voting_ends_at {
            return Err(GovError::VotingNotEnded);
        }
        if self.proposals[i].status == ProposalStatus::Executed || self.proposals[i].status
            == ProposalStatus::Cancelled {
            return Err(GovError::AlreadyFinalized);
        }
        let ghost old_props = self.proposals@;
        let ghost old_votes = self.votes@;
        proof {
            assert(tallies_match(old_props[i as int], old_votes[i as int]@));
        }
        let mut prop = self.proposals.remove(i);
        let total = prop.yes_votes + prop.no_votes + prop.abstain_votes;
        let status = if total < prop.quorum {
            ProposalStatus::Rejected
        } else {
            let approve = if total > 0 {
                crate::util::mul_wide(prop.yes_votes, THRESHOLD_SCALE) >= crate::util::mul_wide(
                    prop.approval_threshold,
                    total,
                )
            } else {
                prop.approval_threshold == 0
            };
            if approve {
                ProposalStatus::Passed
            } else {
                ProposalStatus::Rejected
            }
        };
        prop.status = status;
        if status == ProposalStatus::Passed {
            prop.execution_time = Some(now + self.execution_delay);
        }
        let ghost newp = prop;
        self.proposals.insert(i, prop);
        proof {
            assert(self.proposals@ =~= old_props.update(i as int, newp));
            assert(self.votes@ == old_votes);
            assert forall|j: int| 0 <= j < self.votes@.len() implies #[trigger] tallies_match(
                self.proposals@[j],
                self.votes@[j]@,
            ) by {
                if j != i as int {
                    assert(self.proposals@[j] == old_props[j]);
                } else {
                    assert(tallies_match(old_props[j], old_votes[j]@));
                }
            }
        }
        Ok(status)
    }

    /// Close the vote on a proposal now, by the wall clock (see `finalize_proposal_at`). An
    /// unknown proposal is refused before the clock is read; otherwise the answer is refused
    /// with `ClockOutOfRange` only when the clock reads so late that the execution time would
    /// not fit.
    pub fn finalize_proposal(&mut self, proposal_id: u64) -> (r: Result<ProposalStatus, GovError>)
        requires
            old(self).wf(),
        ensures
            final(self).wf(),
            r != Err::<ProposalStatus, GovError>(GovError::ClockOutOfRange) ==> exists|now: u64|
                #![trigger old(self).finalize_result(proposal_id, now)]
                r == old(self).finalize_result(proposal_id, now) && (r is Ok ==> old(self).finalized(
                    final(self),
                    proposal_id,
                    now,
                )),
            old(self).lookup(proposal_id) is None ==> r == Err::<ProposalStatus, GovError>(
                GovError::ProposalNotFound,
            ),
            r == Err::<ProposalStatus, GovError>(GovError::ClockOutOfRange) ==> {
                &&& old(self).lookup(proposal_id) is Some
                &&& exists|now: u64| #[trigger] reads_past(now, u64::MAX - old(self).delay())
            },
            r is Err ==> *final(self) == *old(self),
            r matches Ok(st) ==> {
                let i = proposal_pos(old(self).proposals(), proposal_id)->Some_0;
                &&& st == final_status(old(self).proposals()[i])
                &&& final(self).proposals()[i].status == st
                &&& final(self).proposals().len() == old(self).proposals().len()
            },
    {
        if self.find(proposal_id).is_none() {
            proof {
                assert(old(self).finalize_result(proposal_id, 0) == Err::<ProposalStatus, GovError>(
                    GovError::ProposalNotFound,
                ));
            }
            return Err(GovError::ProposalNotFound);
        }
        let now = now_secs();
        if now > u64::MAX - self.execution_delay {
            proof {
                assert(reads_past(now, u64::MAX - old(self).delay()));
            }
            return Err(GovError::ClockOutOfRange);
        }
        self.finalize_proposal_at(proposal_id, now)
    }
}

/// `a` is `b` after its value was set to `new_value` at `now` by proposal `id`: the old value
/// is recorded at the end of its history.
pub open spec fn param_updated(a: Parameter, b: Parameter, id: u64, new_value: Seq<char>, now: u64) -> bool {
    &&& a.name == b.name
    &&& a.value@ == new_value
    &&& a.parameter_type == b.parameter_type
    &&& a.min_value == b.min_value
    &&& a.max_value == b.max_value
    &&& a.last_updated == now
    &&& a.update_history@.len() == b.update_history@.len() + 1
    &&& a.update_history@.drop_last() == b.update_history@
    &&& a.update_history@.last().proposal_id == id
    &&& a.update_history@.last().old_value == b.value
    &&& a.update_history@.last().new_value@ == new_value
    &&& a.update_history@.last().timestamp == now
}

/// `a` is a freshly registered parameter with these fields and no history.
pub open spec fn param_fresh(
    a: Parameter,
    name: String,
    value: String,
    parameter_type: ParameterType,
    min_value: Option<String>,
    max_value: Option<String>,
    now: u64,
) -> bool {
    &&& a.name == name
    &&& a.value == value
    &&& a.parameter_type == parameter_type
    &&& a.min_value == min_value
    &&& a.max_value == max_value
    &&& a.last_updated == now
    &&& a.update_history@ == Seq::<ParameterUpdate>::empty()
}

impl GovernanceSystem {
    fn update_parameter(&mut self, proposal_id: u64, name: &str, new_value: &str, now: u64) -> (r:
        Result<(), GovError>)
        requires
            old(self).wf(),
        ensures
            final(self).wf(),
            r is Err <==> param_pos(old(self).parameters(), name@) is None,
            r is Err ==> r == Err::<(), GovError>(GovError::ParameterNotFound) && *final(self)
                == *old(self),
            r is Ok ==> {
                let k = param_pos(old(self).parameters(), name@)->Some_0;
                &&& final(self).parameters().len() == old(self).parameters().len()
                &&& param_updated(
                    final(self).parameters()[k],
                    old(self).parameters()[k],
                    proposal_id,
                    new_value@,
                    now,
                )
                &&& forall|j: int| 0 <= j < old(self).parameters().len() && j != k ==>
                    #[trigger] final(self).parameters()[j] == old(self).parameters()[j]
                &&& final(self).proposals() == old(self).proposals()
                &&& forall|j: int| #[trigger] final(self).votes_at(j) == old(self).votes_at(j)
                &&& final(self).next_id() == old(self).next_id()
                &&& final(self).min_stake() == old(self).min_stake()
                &&& final(self).period() == old(self).period()
                &&& final(self).delay() == old(self).delay()
            },
    {
        let k = match self.find_parameter(name) {
            None => return Err(GovError::ParameterNotFound),
            Some(k) => k,
        };
        let ghost old_params = self.parameters@;
        let mut param = self.parameters.remove(k);
        let update = ParameterUpdate {
            proposal_id,
            old_value: param.value.clone(),
            new_value: new_value.to_owned(),
            timestamp: now,
        };
        param.value = new_value.to_owned();
        param.last_updated = now;
        let ghost hist = param.update_history@;
        param.update_history.push(update);
        assert(param.update_history@.drop_last() =~= hist);
        self.parameters.insert(k, param);
        proof {
            assert forall|a: int, b: int|
                0 <= a < b < self.parameters@.len() implies self.parameters@[a].name@
                != self.parameters@[b].name@ by {
                assert(self.parameters@[a].name == old_params[a].name);
                assert(self.parameters@[b].name == old_params[b].name);
            }
        }
        Ok(())
    }

    /// What `execute_proposal` answers at time `now`: refused for an unknown proposal, one that
    /// has not passed, before its execution time, or when it changes a parameter that is not
    /// registered.
    pub open spec fn execute_result(&self, proposal_id: u64, now: u64) -> Result<(), GovError> {
        match self.lookup(proposal_id) {
            None => Err(GovError::ProposalNotFound),
            Some(p) => if p.status != ProposalStatus::Passed {
                Err(GovError::NotPassed)
            } else if p.execution_time matches Some(t) && now < t {
                Err(GovError::ExecutionDelayNotMet { available_at: p.execution_time->Some_0 })
            } else if p.proposal_type matches ProposalType::ParameterChange { parameter_name, .. }
                && param_pos(self.parameters(), parameter_name@) is None {
                Err(GovError::ParameterNotFound)
            } else {
                Ok(())
            },
        }
    }

    /// `next` is this system after the proposal `proposal_id` was executed at `now`: it is
    /// marked executed; a parameter change sets the parameter's value and records the old one
    /// in its history; nothing else changes.
    pub open spec fn executed(&self, next: &Self, proposal_id: u64, now: u64) -> bool {
        let i = proposal_pos(self.proposals(), proposal_id)->Some_0;
        let p = self.proposals()[i];
        &&& next.proposals() == self.proposals().update(i, Proposal { status: ProposalStatus::Executed, ..p })
        &&& (match p.proposal_type {
            ProposalType::ParameterChange { parameter_name, new_value } => {
                let k = param_pos(self.parameters(), parameter_name@)->Some_0;
                &&& next.parameters().len() == self.parameters().len()
                &&& param_updated(next.parameters()[k], self.parameters()[k], proposal_id, new_value@, now)
                &&& forall|j: int| 0 <= j < self.parameters().len() && j != k ==>
                    #[trigger] next.parameters()[j] == self.parameters()[j]
            },
            _ => next.parameters() == self.parameters(),
        })
        &&& forall|j: int| #[trigger] next.votes_at(j) == self.votes_at(j)
        &&& next.next_id() == self.next_id()
        &&& next.delay() == self.delay()
    }

    /// Execute a passed proposal at time `now`: a parameter change sets the parameter; the
    /// proposal is then marked executed.
    pub fn execute_proposal_at(&mut self, proposal_id: u64, now: u64) -> (r: Result<(), GovError>)
        requires
            old(self).wf(),
        ensures
            final(self).wf(),
            r == old(self).execute_result(proposal_id, now),
            r is Err ==> *final(self) == *old(self),
            r is Ok ==> old(self).executed(final(self), proposal_id, now),
    {
        let i = match self.find(proposal_id) {
            None => return Err(GovError::ProposalNotFound),
            Some(i) => i,
        };
        if self.proposals[i].status != ProposalStatus::Passed {
            return Err(GovError::NotPassed);
        }
        match self.proposals[i].execution_time {
            Some(t) => {
                if now < t {
                    return Err(GovError::ExecutionDelayNotMet { available_at: t });
                }
            },
            None => {},
        }
        let ghost self0 = *self;
        let change = match &self.proposals[i].proposal_type {
            ProposalType::ParameterChange { parameter_name, new_value } => Some(
                (parameter_name.clone(), new_value.clone()),
            ),
            _ => None,
        };
        match change {
            Some((name, value)) => {
                let res = self.update_parameter(proposal_id, name.as_str(), value.as_str(), now);
                if res.is_err() {
                    return Err(GovError::ParameterNotFound);
                }
            },
            None => {},
        }
        assert(match self0.proposals@[i as int].proposal_type {
            ProposalType::ParameterChange { parameter_name, new_value } => {
                let k = param_pos(self0.parameters@, parameter_name@)->Some_0;
                &&& self.parameters@.len() == self0.parameters@.len()
                &&& param_updated(self.parameters@[k], self0.parameters@[k], proposal_id, new_value@, now)
                &&& forall|j: int| 0 <= j < self0.parameters@.len() && j != k ==>
                    #[trigger] self.parameters@[j] == self0.parameters@[j]
            },
            _ => self.parameters@ == self0.parameters@,
        });
        let ghost old_props = self.proposals@;
        let ghost old_votes = self.votes@;
        let ghost mid = *self;
        assert(forall|j: int| #[trigger] mid.votes_at(j) == self0.votes_at(j));
        let mut prop = self.proposals.remove(i);
        prop.status = ProposalStatus::Executed;
        let ghost newp = prop;
        self.proposals.insert(i, prop);
        proof {
            assert(self.proposals@ =~= old_props.update(i as int, newp));
            assert(self.votes@ == old_votes);
            assert forall|j: int| 0 <= j < self.votes@.len() implies #[trigger] tallies_match(
                self.proposals@[j],
                self.votes@[j]@,
            ) by {
                assert(tallies_match(old_props[j], old_votes[j]@));
            }
            assert forall|a: int, b: int|
                0 <= a < b < self.proposals@.len() implies self.proposals@[a].proposal_id
                != self.proposals@[b].proposal_id by {
                assert(self.proposals@[a].proposal_id == old_props[a].proposal_id);
                assert(self.proposals@[b].proposal_id == old_props[b].proposal_id);
            }
            assert(self.proposals() == self0.proposals().update(i as int, Proposal { status: ProposalStatus::Executed, ..self0.proposals()[i as int] }));
            assert forall|j: int| #[trigger] self.votes_at(j) == self0.votes_at(j) by {
                assert(self.votes_at(j) == mid.votes_at(j));
            }
        }
        Ok(())
    }

    /// Execute a passed proposal now, by the wall clock (see `execute_proposal_at`).
    pub fn execute_proposal(&mut self, proposal_id: u64) -> (r: Result<(), GovError>)
        requires
            old(self).wf(),
        ensures
            final(self).wf(),
            exists|now: u64|
                #![trigger old(self).execute_result(proposal_id, now)]
                r == old(self).execute_result(proposal_id, now) && (r is Ok ==> old(self).executed(
                    final(self),
                    proposal_id,
                    now,
                )),
            r is Err ==> *final(self) == *old(self),
    {
        let now = now_secs();
        self.execute_proposal_at(proposal_id, now)
    }

    /// Register a new parameter at time `now`; refused when the name is taken.
    pub fn register_parameter_at(
        &mut self,
        name: String,
        initial_value: String,
        parameter_type: ParameterType,
        min_value: Option<String>,
        max_value: Option<String>,
        now: u64,
    ) -> (r: Result<(), GovError>)
        requires
            old(self).wf(),
        ensures
            final(self).wf(),
            r is Err <==> param_pos(old(self).parameters(), name@) is Some,
            r is Err ==> r == Err::<(), GovError>(GovError::ParameterExists) && *final(self) == *old(
                self,
            ),
            r is Ok ==> {
                &&& final(self).parameters().len() == old(self).parameters().len() + 1
                &&& final(self).parameters().drop_last() == old(self).parameters()
                &&& param_fresh(
                    final(self).parameters().last(),
                    name,
                    initial_value,
                    parameter_type,
                    min_value,
                    max_value,
                    now,
                )
                &&& final(self).proposals() == old(self).proposals()
                &&& forall|j: int| #[trigger] final(self).votes_at(j) == old(self).votes_at(j)
                &&& final(self).next_id() == old(self).next_id()
                &&& final(self).delay() == old(self).delay()
            },
    {
        if self.find_parameter(name.as_str()).is_some() {
            return Err(GovError::ParameterExists);
        }
        proof {
            lemma_find_first(self.parameters@, |p: Parameter| p.name@ == name@);
        }
        let param = Parameter {
            name,
            value: initial_value,
            parameter_type,
            min_value,
            max_value,
            last_updated: now,
            update_history: Vec::new(),
        };
        let ghost before = self.parameters@;
        self.parameters.push(param);
        assert(self.parameters@.drop_last() =~= before);
        Ok(())
    }

    /// Register a new parameter now, by the wall clock (see `register_parameter_at`).
    pub fn register_parameter(
        &mut self,
        name: String,
        initial_value: String,
        parameter_type: ParameterType,
        min_value: Option<String>,
        max_value: Option<String>,
    ) -> (r: Result<(), GovError>)
        requires
            old(self).wf(),
        ensures
            final(self).wf(),
            r is Err <==> param_pos(old(self).parameters(), name@) is Some,
            r is Err ==> r == Err::<(), GovError>(GovError::ParameterExists) && *final(self) == *old(
                self,
            ),
            r is Ok ==> exists|now: u64|
                {
                    &&& final(self).parameters().len() == old(self).parameters().len() + 1
                    &&& final(self).parameters().drop_last() == old(self).parameters()
                    &&& param_fresh(
                        #[trigger] final(self).parameters().last(),
                        name,
                        initial_value,
                        parameter_type,
                        min_value,
                        max_value,
                        now,
                    )
                },
            r is Ok ==> {
                &&& final(self).proposals() == old(self).proposals()
                &&& forall|j: int| #[trigger] final(self).votes_at(j) == old(self).votes_at(j)
                &&& final(self).next_id() == old(self).next_id()
                &&& final(self).delay() == old(self).delay()
            },
    {
        let now = now_secs();
        self.register_parameter_at(name, initial_value, parameter_type, min_value, max_value, now)
    }

    /// A copy of the proposal with `proposal_id`, if any.
    pub fn get_proposal(&self, proposal_id: u64) -> (r: Option<Proposal>)
        ensures
            match self.lookup(proposal_id) {
                None => r is None,
                Some(p) => r matches Some(q) && same_proposal(q, p),
            },
    {
        match self.find(proposal_id) {
            None => None,
            Some(i) => Some(copy_proposal(&self.proposals[i])),
        }
    }

    /// Copies of all proposals, in the order they were created.
    pub fn get_all_proposals(&self) -> (r: Vec<Proposal>)
        ensures
            r@.len() == self.proposals().len(),
            forall|k: int| 0 <= k < r@.len() ==> same_proposal(#[trigger] r@[k], self.proposals()[k]),
    {
        let mut r: Vec<Proposal> = Vec::new();
        let mut i: usize = 0;
        while i < self.proposals.len()
            invariant
                0 <= i <= self.proposals@.len(),
                r@.len() == i,
                forall|k: int| 0 <= k < i ==> same_proposal(#[trigger] r@[k], self.proposals@[k]),
            decreases self.proposals@.len() - i,
        {
            r.push(copy_proposal(&self.proposals[i]));
            i = i + 1;
        }
        r
    }

    /// Copies of the proposals still open to votes, in the order they were created.
    pub fn get_active_proposals(&self) -> (r: Vec<Proposal>)
        ensures
            r@.len() == self.proposals().filter(|p: Proposal| is_open(p)).len(),
            forall|k: int|
                0 <= k < r@.len() ==> same_proposal(
                    #[trigger] r@[k],
                    self.proposals().filter(|p: Proposal| is_open(p))[k],
                ),
    {
        let ghost pred = |p: Proposal| is_open(p);
        let ghost s = self.proposals@;
        let mut r: Vec<Proposal> = Vec::new();
        let mut i: usize = 0;
        while i < self.proposals.len()
            invariant
                s == self.proposals@,
                0 <= i <= s.len(),
                pred == (|p: Proposal| is_open(p)),
                r@.len() == s.subrange(0, i as int).filter(pred).len(),
                forall|k: int|
                    0 <= k < r@.len() ==> same_proposal(
                        #[trigger] r@[k],
                        s.subrange(0, i as int).filter(pred)[k],
                    ),
            decreases s.len() - i,
        {
            assert(s.subrange(0, i + 1) =~= s.subrange(0, i as int).push(s[i as int]));
            proof {
                s.subrange(0, i as int).lemma_filter_push(s[i as int], pred);
            }
            let st = self.proposals[i].status;
            if st == ProposalStatus::Pending || st == ProposalStatus::Active {
                r.push(copy_proposal(&self.proposals[i]));
            }
            i = i + 1;
        }
        assert(s.subrange(0, s.len() as int) =~= s);
        r
    }

    /// A copy of the parameter named `name`, if any.
    pub fn get_parameter(&self, name: &str) -> (r: Option<Parameter>)
        ensures
            match self.parameter(name@) {
                None => r is None,
                Some(p) => r matches Some(q) && same_parameter(q, p),
            },
    {
        match self.find_parameter(name) {
            None => None,
            Some(k) => Some(copy_parameter(&self.parameters[k])),
        }
    }

    /// Governance statistics: how many proposals there are, how many are open, passed
    /// (executed or not) and rejected, and how many parameters are registered.
    pub fn get_stats(&self) -> (st: GovernanceStats)
        ensures
            st.total_proposals == self.proposals().len(),
            st.active_proposals == self.proposals().filter(|p: Proposal| is_open(p)).len(),
            st.passed_proposals == self.proposals().filter(|p: Proposal| is_passed(p)).len(),
            st.rejected_proposals == self.proposals().filter(|p: Proposal| is_rejected(p)).len(),
            st.total_parameters == self.parameters().len(),
    {
        let ghost s = self.proposals@;
        let ghost po = |p: Proposal| is_open(p);
        let ghost pp = |p: Proposal| is_passed(p);
        let ghost pr = |p: Proposal| is_rejected(p);
        let mut active: usize = 0;
        let mut passed: usize = 0;
        let mut rejected: usize = 0;
        let mut i: usize = 0;
        while i < self.proposals.len()
            invariant
                s == self.proposals@,
                0 <= i <= s.len(),
                po == (|p: Proposal| is_open(p)),
                pp == (|p: Proposal| is_passed(p)),
                pr == (|p: Proposal| is_rejected(p)),
                active == s.subrange(0, i as int).filter(po).len(),
                passed == s.subrange(0, i as int).filter(pp).len(),
                rejected == s.subrange(0, i as int).filter(pr).len(),
            decreases s.len() - i,
        {
            assert(s.subrange(0, i + 1) =~= s.subrange(0, i as int).push(s[i as int]));
            proof {
                s.subrange(0, i as int).lemma_filter_push(s[i as int], po);
                s.subrange(0, i as int).lemma_filter_push(s[i as int], pp);
                s.subrange(0, i as int).lemma_filter_push(s[i as int], pr);
                s.subrange(0, i as int).filter(po).lemma_filter_len(po);
                s.subrange(0, i as int).lemma_filter_len(po);
                s.subrange(0, i as int).lemma_filter_len(pp);
                s.subrange(0, i as int).lemma_filter_len(pr);
            }
            let st = self.proposals[i].status;
            if st == ProposalStatus::Pending || st == ProposalStatus::Active {
                active = active + 1;
            }
            if st == ProposalStatus::Passed || st == ProposalStatus::Executed {
                passed = passed + 1;
            }
            if st == ProposalStatus::Rejected {
                rejected = rejected + 1;
            }
            i = i + 1;
        }
        assert(s.subrange(0, s.len() as int) =~= s);
        GovernanceStats {
            total_proposals: self.proposals.len(),
            active_proposals: active,
            passed_proposals: passed,
            rejected_proposals: rejected,
            total_parameters: self.parameters.len(),
        }
    }
}

/// Every proposal's tallies are the sums of the votes recorded for it, in which each voter
/// occurs once: a voter who votes again is counted once, with the last vote.
pub proof fn lemma_tallies_count_each_voter_once(g: &GovernanceSystem, i: int)
    requires
        g.wf(),
        0 <= i < g.proposals().len(),
    ensures
        g.proposals()[i].yes_votes == tally(g.votes_at(i), VoteChoice::Yes),
        g.proposals()[i].no_votes == tally(g.votes_at(i), VoteChoice::No),
        g.proposals()[i].abstain_votes == tally(g.votes_at(i), VoteChoice::Abstain),
        forall|a: int, b: int|
            0 <= a < b < g.votes_at(i).len() ==> g.votes_at(i)[a].voter@ != g.votes_at(i)[b].voter@,
{
    assert(tallies_match(g.proposals@[i], g.votes@[i]@));
}

/// Closing the vote on an open proposal whose voting period is over passes it exactly when
/// all the votes cast, abstentions included, reach its quorum and the yes votes make up at
/// least `approval_threshold` millionths of all of them (with no vote cast at all, only a
/// zero threshold is met); otherwise it is rejected.
pub proof fn lemma_finalize_counts_every_vote(g: &GovernanceSystem, proposal_id: u64, now: u64)
    requires
        g.lookup(proposal_id) is Some,
        now > g.lookup(proposal_id)->Some_0.voting_ends_at,
        g.lookup(proposal_id)->Some_0.status != ProposalStatus::Executed,
        g.lookup(proposal_id)->Some_0.status != ProposalStatus::Cancelled,
    ensures
        ({
            let p = g.lookup(proposal_id)->Some_0;
            let all: int = p.yes_votes + p.no_votes + p.abstain_votes;
            let passes = all >= p.quorum && if all > 0 {
                p.yes_votes * 1_000_000 >= p.approval_threshold * all
            } else {
                p.approval_threshold == 0
            };
            g.finalize_result(proposal_id, now) == Ok::<ProposalStatus, GovError>(
                if passes { ProposalStatus::Passed } else { ProposalStatus::Rejected },
            )
        }),
{
}

/// Abstentions weigh against approval: once a proposal meets its quorum, more abstain votes
/// (yes and no unchanged) never turn a rejection into a pass.
pub proof fn lemma_abstentions_never_help(p: Proposal, q: Proposal)
    requires
        q == (Proposal { abstain_votes: q.abstain_votes, ..p }),
        q.abstain_votes >= p.abstain_votes,
        p.yes_votes + p.no_votes + p.abstain_votes >= p.quorum,
        final_status(p) == ProposalStatus::Rejected,
    ensures
        final_status(q) == ProposalStatus::Rejected,
{
    let a = p.yes_votes + p.no_votes + p.abstain_votes;
    let b = q.yes_votes + q.no_votes + q.abstain_votes;
    if a > 0 {
        assert(p.approval_threshold * a <= p.approval_threshold * b) by (nonlinear_arith)
            requires
                a <= b,
                p.approval_threshold >= 0,
        ;
    } else if b > 0 {
        assert(p.yes_votes == 0);
        assert(0 < p.approval_threshold * b) by (nonlinear_arith)
            requires
                p.approval_threshold > 0,
                b > 0,
        ;
    }
}

/// A vote counts the voter's latest choice with its full power: casting `choice` with
/// `voting_power` on an open proposal makes it active and moves the voter's earlier vote, if
/// any, off the tally of its choice, then adds `voting_power` to the tally of `choice`; the
/// other tallies stay.
pub proof fn lemma_vote_moves_tallies(
    g: &GovernanceSystem,
    next: &GovernanceSystem,
    proposal_id: u64,
    voter: String,
    voting_power: u64,
    choice: VoteChoice,
    now: u64,
)
    requires
        g.wf(),
        proposal_pos(g.proposals(), proposal_id) is Some,
        g.vote_fits(proposal_id, voter@, voting_power),
        g.voted(next, proposal_id, voter, voting_power, choice, now),
    ensures
        ({
            let i = proposal_pos(g.proposals(), proposal_id)->Some_0;
            let p = g.proposals()[i];
            let q = next.proposals()[i];
            let (old_yes, old_no, old_abs) = match prev_vote(g.votes_at(i), voter@) {
                Some(o) => (
                    if o.choice == VoteChoice::Yes { o.voting_power as int } else { 0 },
                    if o.choice == VoteChoice::No { o.voting_power as int } else { 0 },
                    if o.choice == VoteChoice::Abstain { o.voting_power as int } else { 0 },
                ),
                None => (0int, 0int, 0int),
            };
            &&& q.status == ProposalStatus::Active
            &&& q.yes_votes == p.yes_votes - old_yes + if choice == VoteChoice::Yes { voting_power as int } else { 0 }
            &&& q.no_votes == p.no_votes - old_no + if choice == VoteChoice::No { voting_power as int } else { 0 }
            &&& q.abstain_votes == p.abstain_votes - old_abs + if choice == VoteChoice::Abstain {
                voting_power as int
            } else {
                0
            }
            &&& q.proposal_id == p.proposal_id
            &&& q.quorum == p.quorum
            &&& q.approval_threshold == p.approval_threshold
            &&& q.voting_ends_at == p.voting_ends_at
        }),
{
    let i = proposal_pos(g.proposals(), proposal_id)->Some_0;
    lemma_tallies_count_each_voter_once(g, i);
    let s = g.votes_at(i);
    match prev_vote(s, voter@) {
        Some(o) => {
            let k = voter_pos(s, voter@)->Some_0;
            lemma_find_first(s, |v: Vote| v.voter@ == voter@);
            lemma_tally_covers(s, k, VoteChoice::Yes);
            lemma_tally_covers(s, k, VoteChoice::No);
            lemma_tally_covers(s, k, VoteChoice::Abstain);
        },
        None => {},
    }
}

/// A proposal is created exactly when its proposer has at least the minimum stake and its
/// approval threshold is at most 100%; it then starts pending, with no votes, its voting
/// opening a day after `now` and lasting the voting period.
pub proof fn lemma_create_admits(
    id: u64,
    min_stake: u64,
    proposer: String,
    title: String,
    description: String,
    proposal_type: ProposalType,
    voting_power: u64,
    quorum: u64,
    approval_threshold: u64,
    now: u64,
    period: u64,
)
    requires
        now + 86_400 + period <= u64::MAX,
    ensures
        ({
            let r = create_result(id, min_stake, proposer, title, description, proposal_type, voting_power, quorum,
                approval_threshold, now, period);
            &&& (r is Ok) == (voting_power >= min_stake && approval_threshold <= 1_000_000)
            &&& r matches Ok(p) ==> {
                &&& p.proposal_id == id
                &&& p.status == ProposalStatus::Pending
                &&& p.yes_votes == 0 && p.no_votes == 0 && p.abstain_votes == 0
                &&& p.voting_starts_at == now + 86_400
                &&& p.voting_ends_at == now + 86_400 + period
                &&& p.quorum == quorum
                &&& p.approval_threshold == approval_threshold
                &&& p.execution_time is None
            }
        }),
{
}

/// Votes are taken only inside the voting window: on an open proposal a vote at `now` is
/// admitted exactly when `voting_starts_at <= now <= voting_ends_at`; a proposal that is
/// passed, rejected or executed takes no vote at any time.
pub proof fn lemma_voting_window(g: &GovernanceSystem, proposal_id: u64, now: u64)
    requires
        g.lookup(proposal_id) is Some,
    ensures
        ({
            let p = g.lookup(proposal_id)->Some_0;
            &&& is_open(p) ==> ((g.vote_result(proposal_id, now) is Ok) <==> (p.voting_starts_at <= now
                && now <= p.voting_ends_at))
            &&& (p.status == ProposalStatus::Passed || p.status == ProposalStatus::Rejected || p.status
                == ProposalStatus::Executed) ==> g.vote_result(proposal_id, now) is Err
        }),
{
}

/// Execution: only a passed proposal executes, and not before its execution time; once it
/// has executed it is marked executed and cannot execute again, at any time.
pub proof fn lemma_execute_once(g: &GovernanceSystem, next: &GovernanceSystem, proposal_id: u64, now: u64, later: u64)
    requires
        g.execute_result(proposal_id, now) is Ok,
        g.executed(next, proposal_id, now),
    ensures
        g.lookup(proposal_id) matches Some(p) && p.status == ProposalStatus::Passed && (p.execution_time matches Some(
            t,
        ) ==> t <= now),
        next.lookup(proposal_id) matches Some(q) && q.status == ProposalStatus::Executed,
        next.execute_result(proposal_id, later) == Err::<(), GovError>(GovError::NotPassed),
{
    let pred = |p: Proposal| p.proposal_id == proposal_id;
    let s0 = g.proposals();
    let s1 = next.proposals();
    lemma_find_first(s0, pred);
    let i = proposal_pos(s0, proposal_id)->Some_0;
    assert forall|j: int| 0 <= j < i implies !pred(#[trigger] s1[j]) by {
        assert(s1[j] == s0[j]);
    }
    lemma_find_first_at(s1, pred, i);
}

} // verus!
