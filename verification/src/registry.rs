//! Whether a delegate turns up, written down where anyone can read it.
//!
//! The governor tells the registry when a proposal exists and records each
//! ballot as it is cast. Once voting has closed anyone may settle an account
//! against the proposal: an account that held power at the snapshot was
//! eligible, and its record gains an eligible proposal whether or not it
//! turned up. Settling twice does nothing, and every account settled against
//! one proposal is judged on the same tallies.
//!
//! A proposal decided by a narrow margin is contested, and the record counts
//! contested proposals separately, so turning up only for the easy ones shows.

use vstd::prelude::*;
use vstd::hash_map::HashMapWithView;
use vstd::hash_set::HashSetWithView;

use crate::keyed::{find_key, has_key, key_index, keyed_map, keys_unique, lemma_key_index, lemma_push_new_key, lemma_update_value};
use crate::{AccountId, Hash32, BPS};

verus! {

broadcast use vstd::std_specs::hash::group_hash_axioms;

/// A delegate's public record. Every figure is produced by the contracts
/// themselves; the delegate cannot edit it.
#[derive(Clone, Copy, Debug, PartialEq, Eq, Structural)]
pub struct Record {
    /// Proposals the account held power on and could have voted on.
    pub eligible: u32,
    /// Proposals the account actually voted on.
    pub voted: u32,
    /// Of the eligible proposals, those decided by a narrow margin.
    pub contested_eligible: u32,
    /// Of those, the ones the account voted on at all.
    pub contested_voted: u32,
    /// Of those, the ones where the account's vote matched the outcome.
    pub contested_with_outcome: u32,
    /// The latest deadline of a proposal settled against this account.
    pub last_settled_deadline: u32,
}

/// A proposal as the registry knows it.
#[derive(Clone, Copy, Debug, PartialEq, Eq, Structural)]
pub struct Proposal {
    /// The ledger voting power was snapshotted at.
    pub snapshot: u32,
    /// The last ledger a vote could be cast on.
    pub deadline: u32,
    /// Votes for, once the proposal has been settled at least once.
    pub for_votes: u128,
    /// Votes against, once settled.
    pub against_votes: u128,
    /// Whether the margin was narrow enough to call the proposal contested.
    pub contested: bool,
    /// Whether the tallies above have been read from the governor yet.
    pub tallied: bool,
}

/// How an account voted on a proposal.
#[derive(Clone, Copy, Debug, PartialEq, Eq, Structural)]
pub enum Ballot {
    Against,
    For,
    Abstain,
}

/// Vote tallies as the governor reports them.
#[derive(Clone, Copy, Debug, PartialEq, Eq, Structural)]
pub struct VoteCounts {
    pub against_votes: u128,
    pub for_votes: u128,
    pub abstain_votes: u128,
}

/// What settling an account against a proposal found: whether it turned
/// up, whether the proposal was contested, and whether its vote matched the
/// outcome.
#[derive(Clone, Copy, Debug, PartialEq, Eq)]
pub struct AccountSettled {
    pub account: AccountId,
    pub proposal_id: Hash32,
    pub turned_up: bool,
    pub contested: bool,
    pub with_outcome: bool,
}

/// Why the registry refused a call.
#[derive(Clone, Copy, Debug, PartialEq, Eq, Structural)]
pub enum RegistryError {
    /// The registry has not been configured.
    NotConfigured,
    /// Only the governor may write to the record.
    NotGovernor,
    /// The proposal is not known to the registry.
    ProposalNotFound,
    /// The proposal is already recorded.
    ProposalAlreadyOpen,
    /// Voting on the proposal has not closed, so nothing can be settled yet.
    VotingStillOpen,
    /// The account has already been settled against this proposal.
    AlreadySettled,
    /// The account held no power at the snapshot, so it was never eligible.
    NotEligible,
    /// The margin must be a fraction, not more than the whole.
    InvalidMargin,
}

impl RegistryError {
    /// The number the error is reported under.
    pub fn code(&self) -> (c: u32)
        ensures
            c == match *self {
                RegistryError::NotConfigured => 1u32,
                RegistryError::NotGovernor => 2,
                RegistryError::ProposalNotFound => 3,
                RegistryError::ProposalAlreadyOpen => 4,
                RegistryError::VotingStillOpen => 5,
                RegistryError::AlreadySettled => 6,
                RegistryError::NotEligible => 7,
                RegistryError::InvalidMargin => 8,
            },
    {
        match *self {
            RegistryError::NotConfigured => 1,
            RegistryError::NotGovernor => 2,
            RegistryError::ProposalNotFound => 3,
            RegistryError::ProposalAlreadyOpen => 4,
            RegistryError::VotingStillOpen => 5,
            RegistryError::AlreadySettled => 6,
            RegistryError::NotEligible => 7,
            RegistryError::InvalidMargin => 8,
        }
    }
}

impl Record {
    /// The record of an account nobody has settled: all zeros.
    pub open spec fn zero() -> Record {
        Record {
            eligible: 0,
            voted: 0,
            contested_eligible: 0,
            contested_voted: 0,
            contested_with_outcome: 0,
            last_settled_deadline: 0,
        }
    }

    /// The record of an account nobody has settled: all zeros.
    pub fn empty() -> (r: Record)
        ensures
            r == Record::zero(),
    {
        Record {
            eligible: 0,
            voted: 0,
            contested_eligible: 0,
            contested_voted: 0,
            contested_with_outcome: 0,
            last_settled_deadline: 0,
        }
    }

    /// A record never claims more turnout than eligibility: each narrower
    /// count stays within the one it narrows.
    pub open spec fn consistent(self) -> bool {
        &&& self.voted <= self.eligible
        &&& self.contested_eligible <= self.eligible
        &&& self.contested_voted <= self.contested_eligible
        &&& self.contested_voted <= self.voted
        &&& self.contested_with_outcome <= self.contested_voted
    }
}

// ################## SETTLING ##################

/// The difference between two tallies.
pub open spec fn margin_of(a: u128, b: u128) -> int {
    if a >= b {
        a - b
    } else {
        b - a
    }
}

/// A result is contested when votes were cast for or against and the margin
/// between them is less than `threshold` hundredths of a percent of them.
pub open spec fn contested_by(for_votes: u128, against_votes: u128, threshold: u32) -> bool {
    let decisive = for_votes + against_votes;
    decisive > 0 && margin_of(for_votes, against_votes) * BPS < decisive * threshold
}

/// Tallies for which the contested test can be computed: the decisive votes
/// can be counted, and, when there are any, the margin scaled to hundredths of
/// a percent and the decisive votes scaled by the threshold both fit.
pub open spec fn tallies_fit(counts: VoteCounts, threshold: u32) -> bool {
    let decisive = counts.for_votes + counts.against_votes;
    &&& decisive <= u128::MAX
    &&& decisive > 0 ==> margin_of(counts.for_votes, counts.against_votes) * BPS <= u128::MAX
        && decisive * threshold <= u128::MAX
}

/// A proposal once its final tallies are read.
pub open spec fn tallied_with(p: Proposal, counts: VoteCounts, threshold: u32) -> Proposal {
    Proposal {
        for_votes: counts.for_votes,
        against_votes: counts.against_votes,
        contested: contested_by(counts.for_votes, counts.against_votes, threshold),
        tallied: true,
        ..p
    }
}

/// The proposal as an account is judged against it: tallied on the first
/// settlement, then fixed.
pub open spec fn judged(p: Proposal, counts: VoteCounts, threshold: u32) -> Proposal {
    if p.tallied {
        p
    } else {
        tallied_with(p, counts, threshold)
    }
}

/// Whether a ballot matched the outcome: a vote for a proposal that won, or a
/// vote against one that did not. An abstention takes no side.
pub open spec fn sided_with_outcome(ballot: Option<Ballot>, p: Proposal) -> bool {
    match ballot {
        Some(Ballot::For) => p.for_votes > p.against_votes,
        Some(Ballot::Against) => p.against_votes >= p.for_votes,
        _ => false,
    }
}

/// A record after one more proposal is settled against it.
pub open spec fn record_after(r: Record, p: Proposal, ballot: Option<Ballot>) -> Record {
    let turned_up = ballot is Some;
    let with_outcome = sided_with_outcome(ballot, p);
    Record {
        eligible: (r.eligible + 1) as u32,
        voted: if turned_up {
            (r.voted + 1) as u32
        } else {
            r.voted
        },
        contested_eligible: if p.contested {
            (r.contested_eligible + 1) as u32
        } else {
            r.contested_eligible
        },
        contested_voted: if p.contested && turned_up {
            (r.contested_voted + 1) as u32
        } else {
            r.contested_voted
        },
        contested_with_outcome: if p.contested && with_outcome {
            (r.contested_with_outcome + 1) as u32
        } else {
            r.contested_with_outcome
        },
        last_settled_deadline: if p.deadline > r.last_settled_deadline {
            p.deadline
        } else {
            r.last_settled_deadline
        },
    }
}

/// Returns whether a result is contested under a margin of `threshold`
/// hundredths of a percent.
pub fn is_contested(for_votes: u128, against_votes: u128, threshold: u32) -> (b: bool)
    requires
        tallies_fit(VoteCounts { against_votes, for_votes, abstain_votes: 0 }, threshold),
    ensures
        b == contested_by(for_votes, against_votes, threshold),
{
    let decisive = for_votes + against_votes;
    let margin = if for_votes >= against_votes {
        for_votes - against_votes
    } else {
        against_votes - for_votes
    };
    decisive > 0 && margin * BPS < decisive * (threshold as u128)
}

/// Returns whether the contested test can be computed on these tallies under
/// a margin of `threshold` hundredths of a percent.
pub fn counts_fit(counts: VoteCounts, threshold: u32) -> (b: bool)
    ensures
        b == tallies_fit(counts, threshold),
{
    let decisive = match counts.for_votes.checked_add(counts.against_votes) {
        Some(d) => d,
        None => {
            return false;
        },
    };
    if decisive == 0 {
        return true;
    }
    let margin = if counts.for_votes >= counts.against_votes {
        counts.for_votes - counts.against_votes
    } else {
        counts.against_votes - counts.for_votes
    };
    margin.checked_mul(BPS).is_some() && decisive.checked_mul(threshold as u128).is_some()
}

/// Reads the final tallies into a proposal and decides whether it was
/// contested.
pub fn tally(proposal: Proposal, counts: VoteCounts, threshold: u32) -> (p: Proposal)
    requires
        tallies_fit(counts, threshold),
    ensures
        p == tallied_with(proposal, counts, threshold),
{
    Proposal {
        for_votes: counts.for_votes,
        against_votes: counts.against_votes,
        contested: is_contested(counts.for_votes, counts.against_votes, threshold),
        tallied: true,
        ..proposal
    }
}

/// Returns whether a ballot matched the outcome of a proposal.
pub fn sides_with_outcome(ballot: Option<Ballot>, proposal: Proposal) -> (b: bool)
    ensures
        b == sided_with_outcome(ballot, proposal),
{
    match ballot {
        Some(Ballot::For) => proposal.for_votes > proposal.against_votes,
        Some(Ballot::Against) => proposal.against_votes >= proposal.for_votes,
        _ => false,
    }
}

/// Adds one settled proposal to a record.
pub fn settle_record(record: Record, proposal: Proposal, ballot: Option<Ballot>) -> (r: Record)
    requires
        record.consistent(),
        record.eligible < u32::MAX,
    ensures
        r == record_after(record, proposal, ballot),
        r.consistent(),
{
    let turned_up = ballot.is_some();
    let with_outcome = sides_with_outcome(ballot, proposal);
    let mut r = record;
    r.eligible = r.eligible + 1;
    if turned_up {
        r.voted = r.voted + 1;
    }
    if proposal.contested {
        r.contested_eligible = r.contested_eligible + 1;
        if turned_up {
            r.contested_voted = r.contested_voted + 1;
        }
        if with_outcome {
            r.contested_with_outcome = r.contested_with_outcome + 1;
        }
    }
    if proposal.deadline > r.last_settled_deadline {
        r.last_settled_deadline = proposal.deadline;
    }
    r
}

/// A share in hundredths of a percent, or `None` out of nothing.
pub open spec fn share_bps(part: u32, whole: u32) -> Option<u32> {
    if whole == 0 {
        None
    } else {
        Some(((part * BPS) / (whole as int)) as u32)
    }
}

/// Returns `part` as a share of `whole` in hundredths of a percent, or `None`
/// when `whole` is zero, because a rate out of nothing is unknown, not zero.
pub fn share_of(part: u32, whole: u32) -> (r: Option<u32>)
    requires
        part <= whole,
    ensures
        r == share_bps(part, whole),
        r matches Some(bps) ==> bps <= BPS,
{
    if whole == 0 {
        return None;
    }
    let scaled = (part as u128) * BPS;
    let share = scaled / (whole as u128);
    proof {
        assert(share <= BPS) by (nonlinear_arith)
            requires
                part <= whole,
                whole > 0,
                scaled == part * BPS,
                share == scaled / (whole as u128),
        ;
    }
    Some(share as u32)
}

// ################## THE REGISTRY ##################

/// A proposal the governor has opened, with the ballots cast on it and the
/// accounts settled against it.
pub struct OpenedProposal {
    proposal: Proposal,
    ballots: HashMapWithView<AccountId, Ballot>,
    settled: HashSetWithView<AccountId>,
}

/// The registry's state as its contracts speak of it.
pub struct RegistryView {
    /// The governor whose votes this registry records.
    pub governor: AccountId,
    /// The weight rule read to decide who was eligible.
    pub weight_rule: AccountId,
    /// The margin below which a proposal counts as contested.
    pub contested_margin_bps: u32,
    /// Every proposal the governor has opened.
    pub proposals: Map<Hash32, Proposal>,
    /// The ballots cast on each opened proposal.
    pub ballots: Map<Hash32, Map<AccountId, Ballot>>,
    /// The accounts settled against each opened proposal.
    pub settled: Map<Hash32, Set<AccountId>>,
    /// The public record of each account settled at least once.
    pub records: Map<AccountId, Record>,
}

impl RegistryView {
    /// The invariant every registry keeps: the margin is a fraction, every
    /// opened proposal has its ballots and settlements, and every record is
    /// consistent.
    pub open spec fn wf(self) -> bool {
        &&& self.contested_margin_bps <= BPS
        &&& forall|id: Hash32| #[trigger] self.proposals.contains_key(id) <==> self.ballots.contains_key(id)
        &&& forall|id: Hash32| #[trigger] self.proposals.contains_key(id) <==> self.settled.contains_key(id)
        &&& forall|a: AccountId| #[trigger] self.records.contains_key(a) ==> self.records[a].consistent()
    }

    /// An account's record; all zeros if nobody has settled it.
    pub open spec fn record_of(self, account: AccountId) -> Record {
        if self.records.contains_key(account) {
            self.records[account]
        } else {
            Record::zero()
        }
    }

    /// How an account voted on a proposal, if it did.
    pub open spec fn ballot_of(self, id: Hash32, account: AccountId) -> Option<Ballot> {
        if self.ballots.contains_key(id) && self.ballots[id].contains_key(account) {
            Some(self.ballots[id][account])
        } else {
            None
        }
    }

    /// Whether an account has been settled against a proposal.
    pub open spec fn is_settled(self, id: Hash32, account: AccountId) -> bool {
        self.settled.contains_key(id) && self.settled[id].contains(account)
    }

    /// Why settling an account against a proposal at `now` would be refused,
    /// given the weight its vote carried at the snapshot, or `None` if it
    /// would be settled.
    pub open spec fn settle_refusal(self, account: AccountId, id: Hash32, now: u32, weight: u128) -> Option<
        RegistryError,
    > {
        if !self.proposals.contains_key(id) {
            Some(RegistryError::ProposalNotFound)
        } else if now <= self.proposals[id].deadline {
            Some(RegistryError::VotingStillOpen)
        } else if self.is_settled(id, account) {
            Some(RegistryError::AlreadySettled)
        } else if weight == 0 {
            Some(RegistryError::NotEligible)
        } else {
            None
        }
    }

    /// The registry once an account is settled against a proposal.
    pub open spec fn after_settle(self, account: AccountId, id: Hash32, counts: VoteCounts) -> RegistryView {
        let p = judged(self.proposals[id], counts, self.contested_margin_bps);
        RegistryView {
            proposals: self.proposals.insert(id, p),
            settled: self.settled.insert(id, self.settled[id].insert(account)),
            records: self.records.insert(
                account,
                record_after(self.record_of(account), p, self.ballot_of(id, account)),
            ),
            ..self
        }
    }
}

/// The delegate registry of one community.
pub struct RatifyDelegateRegistry {
    governor: AccountId,
    weight_rule: AccountId,
    contested_margin_bps: u32,
    proposals: Vec<(Hash32, OpenedProposal)>,
    records: HashMapWithView<AccountId, Record>,
}

impl View for RatifyDelegateRegistry {
    type V = RegistryView;

    closed spec fn view(&self) -> RegistryView {
        let m = keyed_map(self.proposals@);
        RegistryView {
            governor: self.governor,
            weight_rule: self.weight_rule,
            contested_margin_bps: self.contested_margin_bps,
            proposals: m.map_values(|e: OpenedProposal| e.proposal),
            ballots: m.map_values(|e: OpenedProposal| e.ballots@),
            settled: m.map_values(|e: OpenedProposal| e.settled@),
            records: self.records@,
        }
    }
}

impl RatifyDelegateRegistry {
    /// The invariant on the representation: each proposal is held once.
    closed spec fn inv(&self) -> bool {
        keys_unique(self.proposals@)
    }

    /// The registry is usable: its representation and its state both hold
    /// their invariants.
    pub closed spec fn wf(&self) -> bool {
        self.inv() && self@.wf()
    }

    /// A usable registry's state keeps its invariant: every record in it is
    /// consistent, and every opened proposal has its ballots and settlements.
    pub proof fn lemma_state_is_consistent(&self)
        requires
            self.wf(),
        ensures
            self@.wf(),
    {
    }

    /// Binds a registry to the governor whose votes it records and the weight
    /// rule it reads. `contested_margin_bps` is how close a result has to be
    /// to count as contested, as a share of the votes cast.
    pub fn new(governor: AccountId, weight_rule: AccountId, contested_margin_bps: u32) -> (r: Result<
        Self,
        RegistryError,
    >)
        ensures
            r is Ok <==> contested_margin_bps <= BPS,
            r matches Err(e) ==> e == RegistryError::InvalidMargin,
            r matches Ok(reg) ==> {
                &&& reg.wf()
                &&& reg@.wf()
                &&& reg@.governor == governor
                &&& reg@.weight_rule == weight_rule
                &&& reg@.contested_margin_bps == contested_margin_bps
                &&& reg@.proposals == Map::<Hash32, Proposal>::empty()
                &&& reg@.records == Map::<AccountId, Record>::empty()
            },
    {
        if contested_margin_bps as u128 > BPS {
            return Err(RegistryError::InvalidMargin);
        }
        let reg = RatifyDelegateRegistry {
            governor,
            weight_rule,
            contested_margin_bps,
            proposals: Vec::new(),
            records: HashMapWithView::new(),
        };
        proof {
            assert(keyed_map(reg.proposals@) =~= Map::<Hash32, OpenedProposal>::empty());
            assert(reg@.proposals =~= Map::<Hash32, Proposal>::empty());
        }
        Ok(reg)
    }

    /// Returns the governor whose votes this registry records.
    pub fn governor(&self) -> (a: AccountId)
        ensures
            a == self@.governor,
    {
        self.governor
    }

    /// Returns the weight rule the registry reads to decide eligibility.
    pub fn weight_rule(&self) -> (a: AccountId)
        ensures
            a == self@.weight_rule,
    {
        self.weight_rule
    }

    /// Returns the margin below which a proposal counts as contested.
    pub fn contested_margin_bps(&self) -> (m: u32)
        ensures
            m == self@.contested_margin_bps,
    {
        self.contested_margin_bps
    }

    /// Returns an account's public record; all zeros for an account nobody
    /// has settled, because nothing is known about it yet.
    pub fn record(&self, account: AccountId) -> (r: Record)
        ensures
            r == self@.record_of(account),
    {
        match self.records.get(&account) {
            Some(r) => *r,
            None => Record::empty(),
        }
    }

    /// Returns an account's participation rate in hundredths of a percent,
    /// or `None` when it has never been eligible for anything.
    pub fn participation_bps(&self, account: AccountId) -> (r: Option<u32>)
        requires
            self.wf(),
        ensures
            r == share_bps(self@.record_of(account).voted, self@.record_of(account).eligible),
            r matches Some(bps) ==> bps <= BPS,
    {
        let record = self.record(account);
        share_of(record.voted, record.eligible)
    }

    /// Returns an account's turnout on contested proposals in hundredths of a
    /// percent, or `None` when it has never been eligible for one.
    pub fn contested_participation_bps(&self, account: AccountId) -> (r: Option<u32>)
        requires
            self.wf(),
        ensures
            r == share_bps(
                self@.record_of(account).contested_voted,
                self@.record_of(account).contested_eligible,
            ),
            r matches Some(bps) ==> bps <= BPS,
    {
        let record = self.record(account);
        share_of(record.contested_voted, record.contested_eligible)
    }

    /// Returns a proposal as the registry knows it.
    pub fn proposal(&self, proposal_id: Hash32) -> (r: Option<Proposal>)
        requires
            self.wf(),
        ensures
            r == (if self@.proposals.contains_key(proposal_id) {
                Some(self@.proposals[proposal_id])
            } else {
                None
            }),
    {
        match find_key(&self.proposals, &proposal_id) {
            Some(i) => {
                proof {
                    lemma_key_index(self.proposals@, i as int);
                }
                Some(self.proposals[i].1.proposal)
            },
            None => None,
        }
    }

    /// Returns how an account voted on a proposal, if it did.
    pub fn ballot(&self, proposal_id: Hash32, account: AccountId) -> (r: Option<Ballot>)
        requires
            self.wf(),
        ensures
            r == self@.ballot_of(proposal_id, account),
    {
        match find_key(&self.proposals, &proposal_id) {
            Some(i) => {
                proof {
                    lemma_key_index(self.proposals@, i as int);
                }
                match self.proposals[i].1.ballots.get(&account) {
                    Some(b) => Some(*b),
                    None => None,
                }
            },
            None => None,
        }
    }

    /// Returns whether an account has been settled against a proposal.
    pub fn is_settled(&self, proposal_id: Hash32, account: AccountId) -> (b: bool)
        requires
            self.wf(),
        ensures
            b == self@.is_settled(proposal_id, account),
    {
        match find_key(&self.proposals, &proposal_id) {
            Some(i) => {
                proof {
                    lemma_key_index(self.proposals@, i as int);
                }
                self.proposals[i].1.settled.contains(&account)
            },
            None => false,
        }
    }

    /// Records that a proposal exists. Only the governor may do this, once
    /// per proposal.
    pub fn open(&mut self, caller: AccountId, proposal_id: Hash32, snapshot: u32, deadline: u32) -> (r:
        Result<(), RegistryError>)
        requires
            old(self).wf(),
        ensures
            final(self).wf(),
            final(self)@.wf(),
            r is Err ==> final(self)@ == old(self)@,
            caller != old(self)@.governor ==> r == Err::<(), RegistryError>(RegistryError::NotGovernor),
            caller == old(self)@.governor && old(self)@.proposals.contains_key(proposal_id) ==> r
                == Err::<(), RegistryError>(RegistryError::ProposalAlreadyOpen),
            caller == old(self)@.governor && !old(self)@.proposals.contains_key(proposal_id) ==> r
                is Ok,
            r is Ok ==> final(self)@ == (RegistryView {
                proposals: old(self)@.proposals.insert(
                    proposal_id,
                    Proposal {
                        snapshot,
                        deadline,
                        for_votes: 0,
                        against_votes: 0,
                        contested: false,
                        tallied: false,
                    },
                ),
                ballots: old(self)@.ballots.insert(proposal_id, Map::empty()),
                settled: old(self)@.settled.insert(proposal_id, Set::empty()),
                ..old(self)@
            }),
    {
        if caller != self.governor {
            return Err(RegistryError::NotGovernor);
        }
        if find_key(&self.proposals, &proposal_id).is_some() {
            proof {
                let i = key_index(self.proposals@, proposal_id);
                lemma_key_index(self.proposals@, i);
            }
            return Err(RegistryError::ProposalAlreadyOpen);
        }
        let entry = OpenedProposal {
            proposal: Proposal {
                snapshot,
                deadline,
                for_votes: 0,
                against_votes: 0,
                contested: false,
                tallied: false,
            },
            ballots: HashMapWithView::new(),
            settled: HashSetWithView::new(),
        };
        let ghost before = self.proposals@;
        let ghost old_view = self@;
        self.proposals.push((proposal_id, entry));
        proof {
            lemma_push_new_key(before, proposal_id, entry);
            let m = keyed_map(self.proposals@);
            assert(m == keyed_map(before).insert(proposal_id, entry));
            assert(self@.proposals =~= old_view.proposals.insert(proposal_id, entry.proposal));
            assert(self@.ballots =~= old_view.ballots.insert(proposal_id, Map::empty()));
            assert(self@.settled =~= old_view.settled.insert(proposal_id, Set::empty()));
        }
        Ok(())
    }

    /// Records a vote as it is cast. Only the governor may do this, and only
    /// on a proposal it has opened.
    pub fn record_vote(
        &mut self,
        caller: AccountId,
        account: AccountId,
        proposal_id: Hash32,
        ballot: Ballot,
        weight: u128,
    ) -> (r: Result<(), RegistryError>)
        requires
            old(self).wf(),
        ensures
            final(self).wf(),
            final(self)@.wf(),
            r is Err ==> final(self)@ == old(self)@,
            caller != old(self)@.governor ==> r == Err::<(), RegistryError>(RegistryError::NotGovernor),
            caller == old(self)@.governor && !old(self)@.proposals.contains_key(proposal_id) ==> r
                == Err::<(), RegistryError>(RegistryError::ProposalNotFound),
            caller == old(self)@.governor && old(self)@.proposals.contains_key(proposal_id) ==> r
                is Ok,
            r is Ok ==> final(self)@ == (RegistryView {
                ballots: old(self)@.ballots.insert(
                    proposal_id,
                    old(self)@.ballots[proposal_id].insert(account, ballot),
                ),
                ..old(self)@
            }),
    {
        if caller != self.governor {
            return Err(RegistryError::NotGovernor);
        }
        let i = match find_key(&self.proposals, &proposal_id) {
            Some(i) => i,
            None => {
                return Err(RegistryError::ProposalNotFound);
            },
        };
        let ghost before = self.proposals@;
        let ghost old_view = self@;
        proof {
            lemma_key_index(before, i as int);
        }
        let (id, mut entry) = self.proposals.remove(i);
        entry.ballots.insert(account, ballot);
        self.proposals.insert(i, (id, entry));
        proof {
            assert(self.proposals@ =~= before.update(i as int, (before[i as int].0, entry)));
            lemma_update_value(before, i as int, entry);
            assert(self@.proposals =~= old_view.proposals);
            assert(self@.ballots =~= old_view.ballots.insert(
                proposal_id,
                old_view.ballots[proposal_id].insert(account, ballot),
            ));
            assert(self@.settled =~= old_view.settled);
        }
        Ok(())
    }

    /// Settles an account against a closed proposal, on the weight its vote
    /// carried at the proposal's snapshot and the governor's final tallies.
    ///
    /// Anyone may do this, for anyone, once voting has closed. The tallies
    /// are read on the first settlement and fixed from then on, so every
    /// account is judged against the same numbers; `counts` is used only if
    /// the proposal has not been tallied yet. Settling twice is refused and
    /// changes nothing.
    pub fn settle(
        &mut self,
        account: AccountId,
        proposal_id: Hash32,
        now: u32,
        weight: u128,
        counts: VoteCounts,
    ) -> (r: Result<AccountSettled, RegistryError>)
        requires
            old(self).wf(),
            old(self)@.settle_refusal(account, proposal_id, now, weight) is None
                && !old(self)@.proposals[proposal_id].tallied ==> tallies_fit(
                counts,
                old(self)@.contested_margin_bps,
            ),
            old(self)@.settle_refusal(account, proposal_id, now, weight) is None ==> old(
                self,
            )@.record_of(account).eligible < u32::MAX,
        ensures
            final(self).wf(),
            final(self)@.wf(),
            r is Err ==> final(self)@ == old(self)@,
            match old(self)@.settle_refusal(account, proposal_id, now, weight) {
                Some(e) => r == Err::<AccountSettled, RegistryError>(e),
                None => r is Ok,
            },
            r matches Ok(ev) ==> {
                let p = judged(
                    old(self)@.proposals[proposal_id],
                    counts,
                    old(self)@.contested_margin_bps,
                );
                let ballot = old(self)@.ballot_of(proposal_id, account);
                ev == (AccountSettled {
                    account,
                    proposal_id,
                    turned_up: ballot is Some,
                    contested: p.contested,
                    with_outcome: sided_with_outcome(ballot, p),
                })
            },
            r is Ok ==> final(self)@ == old(self)@.after_settle(account, proposal_id, counts),
    {
        let i = match find_key(&self.proposals, &proposal_id) {
            Some(i) => i,
            None => {
                return Err(RegistryError::ProposalNotFound);
            },
        };
        let ghost before = self.proposals@;
        let ghost old_view = self@;
        proof {
            lemma_key_index(before, i as int);
        }
        let mut proposal = self.proposals[i].1.proposal;
        if now <= proposal.deadline {
            return Err(RegistryError::VotingStillOpen);
        }
        if self.proposals[i].1.settled.contains(&account) {
            return Err(RegistryError::AlreadySettled);
        }
        if weight == 0 {
            return Err(RegistryError::NotEligible);
        }
        if !proposal.tallied {
            proposal = tally(proposal, counts, self.contested_margin_bps);
        }
        let ballot = match self.proposals[i].1.ballots.get(&account) {
            Some(b) => Some(*b),
            None => None,
        };
        let record = self.record(account);
        proof {
            if self.records@.contains_key(account) {
                assert(self.records@[account].consistent());
            }
        }
        let updated = settle_record(record, proposal, ballot);
        let (id, mut entry) = self.proposals.remove(i);
        entry.proposal = proposal;
        entry.settled.insert(account);
        self.proposals.insert(i, (id, entry));
        self.records.insert(account, updated);
        proof {
            assert(self.proposals@ =~= before.update(i as int, (before[i as int].0, entry)));
            lemma_update_value(before, i as int, entry);
            let after = old_view.after_settle(account, proposal_id, counts);
            assert(self@.proposals =~= after.proposals);
            assert(self@.ballots =~= after.ballots);
            assert(self@.settled =~= after.settled);
            assert(self@.records =~= after.records);
        }
        Ok(AccountSettled {
            account,
            proposal_id,
            turned_up: ballot.is_some(),
            contested: proposal.contested,
            with_outcome: sides_with_outcome(ballot, proposal),
        })
    }
}

// ################## LAWS ##################

/// How the contested test behaves: it does not care which side is which; a
/// margin of nothing never contests; a tie with votes cast is contested under
/// any margin above nothing; a one-sided result is never contested under a
/// margin of at most the whole; and a result contested under one margin stays
/// contested under any wider one.
pub proof fn lemma_what_contested_means(for_votes: u128, against_votes: u128, threshold: u32, wider: u32)
    ensures
        contested_by(for_votes, against_votes, threshold) == contested_by(against_votes, for_votes, threshold),
        threshold == 0 ==> !contested_by(for_votes, against_votes, threshold),
        for_votes == against_votes && for_votes > 0 && threshold > 0 ==> contested_by(
            for_votes,
            against_votes,
            threshold,
        ),
        (for_votes == 0 || against_votes == 0) && threshold <= BPS ==> !contested_by(
            for_votes,
            against_votes,
            threshold,
        ),
        threshold <= wider && contested_by(for_votes, against_votes, threshold) ==> contested_by(
            for_votes,
            against_votes,
            wider,
        ),
{
    let d: int = for_votes + against_votes;
    let m: int = margin_of(for_votes, against_votes);
    let t: int = threshold as int;
    let w: int = wider as int;
    assert(d >= 0 && t >= 0);
    assert(t == 0 ==> d * t == 0) by (nonlinear_arith);
    assert(for_votes == against_votes && d > 0 && t > 0 ==> d * t > 0) by (nonlinear_arith);
    assert((for_votes == 0 || against_votes == 0) ==> m == d);
    assert(m == d && t <= 10_000 && d >= 0 ==> d * t <= m * 10_000) by (nonlinear_arith);
    assert(t <= w && d >= 0 ==> d * t <= d * w) by (nonlinear_arith);
}

/// Siding with the outcome: a vote for a proposal sides with it exactly when
/// more votes were cast for it than against, a vote against exactly when at
/// least as many were cast against as for, and an abstention or no vote at
/// all never does. Whatever the tallies, exactly one of a vote for and a vote
/// against sides with the outcome.
pub proof fn lemma_siding_with_the_outcome(p: Proposal)
    ensures
        sided_with_outcome(Some(Ballot::For), p) <==> p.for_votes > p.against_votes,
        sided_with_outcome(Some(Ballot::Against), p) <==> p.against_votes >= p.for_votes,
        !sided_with_outcome(Some(Ballot::Abstain), p),
        !sided_with_outcome(None, p),
        sided_with_outcome(Some(Ballot::For), p) != sided_with_outcome(Some(Ballot::Against), p),
{
}

/// What one settlement adds to a consistent record: one more proposal the
/// account was eligible for; one more turned up for if it cast any ballot;
/// on a contested proposal, one more contested proposal, one more contested
/// turnout if it voted, and one more time on the winning side if it voted
/// for a proposal with more for than against votes or against one with at
/// least as many against as for. The latest deadline settled only moves up:
/// it becomes the later of the one before and the proposal's.
pub proof fn lemma_what_a_settlement_adds(r: Record, p: Proposal, ballot: Option<Ballot>)
    requires
        r.consistent(),
        r.eligible < u32::MAX,
    ensures
        record_after(r, p, ballot).eligible == r.eligible + 1,
        record_after(r, p, ballot).voted == r.voted + (if ballot is Some { 1int } else { 0 }),
        record_after(r, p, ballot).contested_eligible == r.contested_eligible + (if p.contested {
            1int
        } else {
            0
        }),
        record_after(r, p, ballot).contested_voted == r.contested_voted + (if p.contested
            && ballot is Some {
            1int
        } else {
            0
        }),
        record_after(r, p, ballot).contested_with_outcome == r.contested_with_outcome + (if p.contested
            && ((ballot == Some(Ballot::For) && p.for_votes > p.against_votes) || (ballot == Some(
            Ballot::Against) && p.against_votes >= p.for_votes)) {
            1int
        } else {
            0
        }),
        record_after(r, p, ballot).last_settled_deadline >= r.last_settled_deadline,
        record_after(r, p, ballot).last_settled_deadline >= p.deadline,
        record_after(r, p, ballot).last_settled_deadline == r.last_settled_deadline
            || record_after(r, p, ballot).last_settled_deadline == p.deadline,
        record_after(r, p, ballot).consistent(),
{
}

/// Settling never moves an account's record backwards: every count it keeps
/// is at least what it was, and the latest deadline settled is at least both
/// the one before and the deadline of the proposal just settled, so settling
/// an older proposal afterwards leaves a later deadline in place.
pub proof fn lemma_settling_never_moves_a_record_back(
    v: RegistryView,
    account: AccountId,
    id: Hash32,
    now: u32,
    weight: u128,
    counts: VoteCounts,
)
    requires
        v.wf(),
        v.settle_refusal(account, id, now, weight) is None,
        v.record_of(account).eligible < u32::MAX,
    ensures
        ({
            let before = v.record_of(account);
            let after = v.after_settle(account, id, counts).record_of(account);
            &&& after.eligible == before.eligible + 1
            &&& after.voted >= before.voted
            &&& after.contested_eligible >= before.contested_eligible
            &&& after.contested_voted >= before.contested_voted
            &&& after.contested_with_outcome >= before.contested_with_outcome
            &&& after.last_settled_deadline >= before.last_settled_deadline
            &&& after.last_settled_deadline >= v.proposals[id].deadline
        }),
{
    let before = v.record_of(account);
    if v.records.contains_key(account) {
        assert(v.records[account].consistent());
    }
    let p = judged(v.proposals[id], counts, v.contested_margin_bps);
    lemma_what_a_settlement_adds(before, p, v.ballot_of(id, account));
}

/// Settling twice changes nothing: once an account is settled against a
/// proposal, every further attempt to settle it there is refused, whenever it
/// is made and whatever weight is offered.
pub proof fn lemma_settling_twice_is_refused(
    v: RegistryView,
    account: AccountId,
    id: Hash32,
    now: u32,
    weight: u128,
    counts: VoteCounts,
    later: u32,
    later_weight: u128,
)
    requires
        v.wf(),
        v.settle_refusal(account, id, now, weight) is None,
    ensures
        v.after_settle(account, id, counts).settle_refusal(account, id, later, later_weight) is Some,
        later > v.proposals[id].deadline ==> v.after_settle(account, id, counts).settle_refusal(
            account,
            id,
            later,
            later_weight,
        ) == Some(RegistryError::AlreadySettled),
{
}

/// Every account settled on a proposal is judged on the same tallies: after
/// one settlement, the proposal a second account is judged against is the one
/// the first was judged against, whatever tallies are offered the second time.
pub proof fn lemma_same_tallies_for_everyone(
    v: RegistryView,
    first: AccountId,
    id: Hash32,
    now: u32,
    weight: u128,
    counts: VoteCounts,
    later_counts: VoteCounts,
)
    requires
        v.wf(),
        v.settle_refusal(first, id, now, weight) is None,
    ensures
        judged(
            v.after_settle(first, id, counts).proposals[id],
            later_counts,
            v.contested_margin_bps,
        ) == judged(v.proposals[id], counts, v.contested_margin_bps),
{
}

/// Settling never changes what is known of any other proposal, any other
/// account's record, or the ballots cast.
pub proof fn lemma_settling_touches_one_account(
    v: RegistryView,
    account: AccountId,
    id: Hash32,
    counts: VoteCounts,
    other: AccountId,
    other_id: Hash32,
)
    requires
        v.wf(),
        v.proposals.contains_key(id),
    ensures
        other != account ==> v.after_settle(account, id, counts).record_of(other) == v.record_of(other),
        other_id != id ==> v.after_settle(account, id, counts).proposals.contains_key(other_id)
            == v.proposals.contains_key(other_id),
        other_id != id && v.proposals.contains_key(other_id) ==> v.after_settle(
            account,
            id,
            counts,
        ).proposals[other_id] == v.proposals[other_id],
        v.after_settle(account, id, counts).ballots == v.ballots,
{
}

} // verus!
