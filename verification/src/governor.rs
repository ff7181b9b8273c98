//! The rules of the governor that are this project's own: a quorum measured
//! against live voting power, a bound on how much one proposal may carry,
//! who may stop or withdraw a proposal and when, and how a proposal's actions
//! are turned into timelock operations.
//!
//! The proposal lifecycle itself (creation, voting, counting, and the states
//! a proposal moves through) is the governance library's, and so is the
//! hashing of proposals and operations.

use vstd::prelude::*;

use crate::registry::{Ballot, VoteCounts};
use crate::{AccountId, Hash32, BPS};

verus! {

/// The most actions one proposal may carry. A proposal a member cannot hold
/// in their head is a proposal they are approving on trust.
pub const MAX_ACTIONS: u32 = 8;

/// The longest a stated reason for stopping a proposal may be, in bytes.
pub const MAX_REASON_LENGTH: u32 = 512;

/// Why the governor refused a call.
#[derive(Clone, Copy, Debug, PartialEq, Eq, Structural)]
pub enum RatifyGovernorError {
    /// The governor has not been configured.
    NotConfigured,
    /// The quorum share must be a fraction, not more than the whole.
    InvalidQuorum,
    /// Only the proposer may withdraw a proposal, and only before voting
    /// opens.
    NotProposer,
    /// Only the guardian may stop a proposal that has already been approved.
    NotGuardian,
    /// A cancellation after approval must state a reason.
    ReasonRequired,
    /// The stated reason is longer than the contract will store.
    ReasonTooLong,
    /// The proposal has more actions than one proposal may carry.
    TooManyActions,
    /// The proposal is not in a state this action applies to.
    WrongState,
}

impl RatifyGovernorError {
    /// The number the error is reported under.
    pub fn code(&self) -> (c: u32)
        ensures
            c == match *self {
                RatifyGovernorError::NotConfigured => 1u32,
                RatifyGovernorError::InvalidQuorum => 2,
                RatifyGovernorError::NotProposer => 3,
                RatifyGovernorError::NotGuardian => 4,
                RatifyGovernorError::ReasonRequired => 5,
                RatifyGovernorError::ReasonTooLong => 6,
                RatifyGovernorError::TooManyActions => 7,
                RatifyGovernorError::WrongState => 8,
            },
    {
        match *self {
            RatifyGovernorError::NotConfigured => 1,
            RatifyGovernorError::InvalidQuorum => 2,
            RatifyGovernorError::NotProposer => 3,
            RatifyGovernorError::NotGuardian => 4,
            RatifyGovernorError::ReasonRequired => 5,
            RatifyGovernorError::ReasonTooLong => 6,
            RatifyGovernorError::TooManyActions => 7,
            RatifyGovernorError::WrongState => 8,
        }
    }
}

/// Where a proposal stands in its lifecycle.
#[derive(Clone, Copy, Debug, PartialEq, Eq, Structural)]
pub enum ProposalState {
    Pending,
    Active,
    Canceled,
    Defeated,
    Succeeded,
    Queued,
    Expired,
    Executed,
}

/// Why an execution is refused before anything reaches the timelock.
#[derive(Clone, Copy, Debug, PartialEq, Eq, Structural)]
pub enum ExecutionRefusal {
    /// The proposal has already been executed.
    AlreadyExecuted,
    /// The proposal has not been queued.
    NotQueued,
}

/// The quorum a proposal must reach when `live` voting power was live at its
/// snapshot: `quorum_bps` hundredths of a percent of it, rounded up, or an
/// unreachable quorum when there was no live power at all.
pub open spec fn quorum_of(live: u128, quorum_bps: u32) -> u128 {
    if live == 0 {
        u128::MAX
    } else {
        let product = if live * quorum_bps > u128::MAX {
            u128::MAX as int
        } else {
            live * quorum_bps
        };
        ((product + (BPS - 1)) / (BPS as int)) as u128
    }
}

/// The governor's own settings.
pub struct GovernorView {
    /// The timelock every approved action is queued into.
    pub timelock: AccountId,
    /// The delegate registry written to as votes are cast, if there is one.
    pub registry: Option<AccountId>,
    /// The share of live voting power a proposal must reach, in hundredths of
    /// a percent.
    pub quorum_bps: u32,
}

/// The settings of one community's governor.
pub struct RatifyGovernor {
    timelock: AccountId,
    registry: Option<AccountId>,
    quorum_bps: u32,
}

impl View for RatifyGovernor {
    type V = GovernorView;

    closed spec fn view(&self) -> GovernorView {
        GovernorView { timelock: self.timelock, registry: self.registry, quorum_bps: self.quorum_bps }
    }
}

/// Why stopping a proposal in `state` would be refused, or `None`.
pub open spec fn stop_refusal(
    guardian: AccountId,
    expected: AccountId,
    reason_len: u32,
    state: ProposalState,
) -> Option<RatifyGovernorError> {
    if guardian != expected {
        Some(RatifyGovernorError::NotGuardian)
    } else if reason_len == 0 {
        Some(RatifyGovernorError::ReasonRequired)
    } else if reason_len > MAX_REASON_LENGTH {
        Some(RatifyGovernorError::ReasonTooLong)
    } else if !(state == ProposalState::Queued || state == ProposalState::Pending || state
        == ProposalState::Active || state == ProposalState::Succeeded) {
        Some(RatifyGovernorError::WrongState)
    } else {
        None
    }
}

/// The guardian, giving a reason of one to the most bytes a reason may
/// have, may stop a proposal exactly while it is still open to running:
/// pending, being voted on, succeeded or queued. Any other state is refused
/// as the wrong one.
pub proof fn lemma_guardian_stops_open_proposals(guardian: AccountId, reason_len: u32, state: ProposalState)
    requires
        1 <= reason_len <= 512,
    ensures
        stop_refusal(guardian, guardian, reason_len, state) is None <==> (state == ProposalState::Pending
            || state == ProposalState::Active || state == ProposalState::Succeeded || state
            == ProposalState::Queued),
        stop_refusal(guardian, guardian, reason_len, state) is Some ==> stop_refusal(
            guardian,
            guardian,
            reason_len,
            state,
        ) == Some(RatifyGovernorError::WrongState),
        stop_refusal(guardian, guardian, reason_len, ProposalState::Active) is None,
        stop_refusal(guardian, guardian, reason_len, ProposalState::Pending) is None,
        stop_refusal(guardian, guardian, 0, state) == Some(RatifyGovernorError::ReasonRequired),
        stop_refusal(guardian, guardian, 513, state) == Some(RatifyGovernorError::ReasonTooLong),
{
}

impl RatifyGovernor {
    /// Wires the governor to its timelock and registry. The quorum share must
    /// be more than nothing and no more than the whole.
    pub fn new(timelock: AccountId, registry: Option<AccountId>, quorum_bps: u32) -> (r: Result<
        Self,
        RatifyGovernorError,
    >)
        ensures
            r is Ok <==> 0 < quorum_bps <= BPS,
            r matches Err(e) ==> e == RatifyGovernorError::InvalidQuorum,
            r matches Ok(g) ==> g@ == (GovernorView { timelock, registry, quorum_bps }),
    {
        if quorum_bps == 0 || quorum_bps as u128 > BPS {
            return Err(RatifyGovernorError::InvalidQuorum);
        }
        Ok(RatifyGovernor { timelock, registry, quorum_bps })
    }

    /// Returns the timelock approved actions are queued into.
    pub fn timelock(&self) -> (a: AccountId)
        ensures
            a == self@.timelock,
    {
        self.timelock
    }

    /// Returns the delegate registry, if the community has one.
    pub fn registry(&self) -> (a: Option<AccountId>)
        ensures
            a == self@.registry,
    {
        self.registry
    }

    /// Returns the share of live voting power a proposal must reach.
    pub fn quorum_bps(&self) -> (b: u32)
        ensures
            b == self@.quorum_bps,
    {
        self.quorum_bps
    }

    /// Returns the voting power a proposal must reach, given the live power
    /// at its snapshot: a share of it rounded up, so a quorum of a tenth of
    /// eleven is two rather than one. A ledger with no live power returns an
    /// unreachable quorum: a community with nobody present cannot decide.
    pub fn quorum(&self, live: u128) -> (q: u128)
        ensures
            q == quorum_of(live, self@.quorum_bps),
    {
        if live == 0 {
            return u128::MAX;
        }
        let bps = self.quorum_bps as u128;
        let product = match live.checked_mul(bps) {
            Some(p) => p,
            None => u128::MAX,
        };
        let q = product / BPS + if product % BPS == 0 {
            0
        } else {
            1
        };
        proof {
            assert(q == (product + (BPS - 1)) / (BPS as int)) by (nonlinear_arith)
                requires
                    q == product / BPS + if product % BPS == 0 {
                        0int
                    } else {
                        1int
                    },
            ;
        }
        q
    }

    /// Returns the power cast towards a quorum on a proposal, for and
    /// abstaining, against the quorum it has to reach.
    pub fn quorum_progress(&self, counts: VoteCounts, live: u128) -> (p: (u128, u128))
        requires
            counts.for_votes + counts.abstain_votes <= u128::MAX,
        ensures
            p.0 == counts.for_votes + counts.abstain_votes,
            p.1 == quorum_of(live, self@.quorum_bps),
    {
        (counts.for_votes + counts.abstain_votes, self.quorum(live))
    }

    /// Proposals must be queued before they can run.
    pub fn proposals_need_queuing(&self) -> (b: bool)
        ensures
            b,
    {
        true
    }

    /// Decides whether the guardian `guardian`, where the timelock names
    /// `expected` as guardian, may stop a proposal in `state` with a reason
    /// of `reason_len` bytes. On success, says whether operations waiting in
    /// the timelock must be cancelled with it, which they must once the
    /// proposal is queued.
    pub fn stop(&self, guardian: AccountId, expected: AccountId, reason_len: u32, state: ProposalState) -> (r:
        Result<bool, RatifyGovernorError>)
        ensures
            match stop_refusal(guardian, expected, reason_len, state) {
                Some(e) => r == Err::<bool, RatifyGovernorError>(e),
                None => r == Ok::<bool, RatifyGovernorError>(state == ProposalState::Queued),
            },
    {
        if guardian != expected {
            return Err(RatifyGovernorError::NotGuardian);
        }
        if reason_len == 0 {
            return Err(RatifyGovernorError::ReasonRequired);
        }
        if reason_len > MAX_REASON_LENGTH {
            return Err(RatifyGovernorError::ReasonTooLong);
        }
        match state {
            ProposalState::Queued => Ok(true),
            ProposalState::Pending | ProposalState::Active | ProposalState::Succeeded => Ok(false),
            _ => Err(RatifyGovernorError::WrongState),
        }
    }

    /// Decides whether `operator` may withdraw a proposal made by `proposer`
    /// that is in `state`: the proposer's own, and only before voting opens.
    pub fn cancel(&self, operator: AccountId, proposer: AccountId, state: ProposalState) -> (r: Result<
        (),
        RatifyGovernorError,
    >)
        ensures
            operator != proposer ==> r == Err::<(), RatifyGovernorError>(
                RatifyGovernorError::NotProposer,
            ),
            operator == proposer && state != ProposalState::Pending ==> r == Err::<
                (),
                RatifyGovernorError,
            >(RatifyGovernorError::WrongState),
            r is Ok <==> (operator == proposer && state == ProposalState::Pending),
    {
        if operator != proposer {
            return Err(RatifyGovernorError::NotProposer);
        }
        if state != ProposalState::Pending {
            return Err(RatifyGovernorError::WrongState);
        }
        Ok(())
    }
}

/// The ledger from which a proposal queued at `now` may run: `now` plus the
/// timelock's delay, held at the last ledger rather than wrapping.
pub fn queue_eta(now: u32, delay: u32) -> (eta: u32)
    ensures
        eta == (if now + delay > u32::MAX {
            u32::MAX as int
        } else {
            now + delay
        }),
{
    now.saturating_add(delay)
}

/// Checks that a proposal carries no more actions than one may.
pub fn check_actions(count: u32) -> (r: Result<(), RatifyGovernorError>)
    ensures
        r is Ok <==> count <= MAX_ACTIONS,
        r matches Err(e) ==> e == RatifyGovernorError::TooManyActions,
{
    if count > MAX_ACTIONS {
        return Err(RatifyGovernorError::TooManyActions);
    }
    Ok(())
}

/// Returns the ballot a vote type records: zero against, one for, and
/// anything else an abstention.
pub fn ballot_of(vote_type: u32) -> (b: Ballot)
    ensures
        b == (if vote_type == 0 {
            Ballot::Against
        } else if vote_type == 1 {
            Ballot::For
        } else {
            Ballot::Abstain
        }),
{
    match vote_type {
        0 => Ballot::Against,
        1 => Ballot::For,
        _ => Ballot::Abstain,
    }
}

/// Decides whether a proposal in `state` may be executed: only once queued,
/// and only once.
pub fn check_execute(state: ProposalState) -> (r: Result<(), ExecutionRefusal>)
    ensures
        state == ProposalState::Queued ==> r is Ok,
        state == ProposalState::Executed ==> r == Err::<(), ExecutionRefusal>(
            ExecutionRefusal::AlreadyExecuted,
        ),
        state != ProposalState::Queued && state != ProposalState::Executed ==> r == Err::<
            (),
            ExecutionRefusal,
        >(ExecutionRefusal::NotQueued),
{
    match state {
        ProposalState::Queued => Ok(()),
        ProposalState::Executed => Err(ExecutionRefusal::AlreadyExecuted),
        _ => Err(ExecutionRefusal::NotQueued),
    }
}

/// The predecessor of a proposal's first operation: none, written as zeros.
pub fn first_predecessor() -> (h: Hash32)
    ensures
        forall|i: int| 0 <= i < 32 ==> h[i] == 0,
{
    [0u8; 32]
}

/// The bytes a proposal's `index`th operation's salt is hashed from: the
/// proposal's identifier followed by the index, most significant byte first.
pub open spec fn salt_bytes(proposal_id: Hash32, index: u32) -> Seq<u8> {
    proposal_id@ + seq![
        (index / 0x100_0000u32) as u8,
        ((index / 0x1_0000u32) % 0x100u32) as u8,
        ((index / 0x100u32) % 0x100u32) as u8,
        (index % 0x100u32) as u8,
    ]
}

/// Returns the bytes an operation's salt is hashed from, so that two
/// proposals that happen to contain the same call are still distinct
/// operations.
pub fn salt_preimage(proposal_id: &Hash32, index: u32) -> (bytes: Vec<u8>)
    ensures
        bytes@ == salt_bytes(*proposal_id, index),
{
    let mut bytes: Vec<u8> = Vec::new();
    let mut i: usize = 0;
    while i < 32
        invariant
            0 <= i <= 32,
            bytes@ == proposal_id@.take(i as int),
        decreases 32 - i,
    {
        bytes.push(proposal_id[i]);
        i = i + 1;
        proof {
            assert(bytes@ =~= proposal_id@.take(i as int));
        }
    }
    bytes.push((index / 0x100_0000u32) as u8);
    bytes.push(((index / 0x1_0000u32) % 0x100u32) as u8);
    bytes.push(((index / 0x100u32) % 0x100u32) as u8);
    bytes.push((index % 0x100u32) as u8);
    proof {
        assert(proposal_id@.take(32) =~= proposal_id@);
        assert(bytes@ =~= salt_bytes(*proposal_id, index));
    }
    bytes
}

// ################## LAWS ##################

/// The quorum is a real share of live power: it is the least amount that is
/// at least `quorum_bps` hundredths of a percent of it, and it never exceeds
/// the live power itself, so it can always be reached by those present.
pub proof fn lemma_quorum_is_the_rounded_up_share(live: u128, quorum_bps: u32)
    requires
        live > 0,
        0 < quorum_bps <= BPS,
        live * quorum_bps <= u128::MAX,
    ensures
        quorum_of(live, quorum_bps) * BPS >= live * quorum_bps,
        (quorum_of(live, quorum_bps) - 1) * BPS < live * quorum_bps,
        quorum_of(live, quorum_bps) <= live,
        quorum_of(live, quorum_bps) > 0,
{
    assert(live * quorum_bps <= live * BPS) by (nonlinear_arith)
        requires
            quorum_bps <= BPS,
    ;
    assert(live * quorum_bps >= live) by (nonlinear_arith)
        requires
            quorum_bps >= 1,
    ;
    let p = live * quorum_bps;
    let q = (p + (BPS - 1)) / (BPS as int);
    assert(q * BPS >= p && (q - 1) * BPS < p) by (nonlinear_arith)
        requires
            q == (p + 9999) / 10000,
            BPS == 10000,
    ;
    assert(q <= live) by (nonlinear_arith)
        requires
            q == (p + 9999) / 10000,
            p <= live * 10000,
    ;
}

/// An operation's salt is hashed from the proposal's identifier and then the
/// operation's position as four bytes, most significant first: read back in
/// that order they give the position again.
pub proof fn lemma_salt_ends_with_the_position(proposal_id: Hash32, index: u32)
    ensures
        salt_bytes(proposal_id, index).len() == 36,
        salt_bytes(proposal_id, index).subrange(0, 32) == proposal_id@,
        salt_bytes(proposal_id, index)[32] * 0x100_0000 + salt_bytes(proposal_id, index)[33] * 0x1_0000
            + salt_bytes(proposal_id, index)[34] * 0x100 + salt_bytes(proposal_id, index)[35] == index,
{
    let s = salt_bytes(proposal_id, index);
    assert(s.subrange(0, 32) =~= proposal_id@);
    let q0: int = index as int / 0x100_0000;
    let q1: int = (index as int / 0x1_0000) % 0x100;
    let q2: int = (index as int / 0x100) % 0x100;
    let q3: int = index as int % 0x100;
    assert(s[32] == q0 && s[33] == q1 && s[34] == q2 && s[35] == q3);
    assert(q0 * 0x100_0000 + q1 * 0x1_0000 + q2 * 0x100 + q3 == index as int) by (nonlinear_arith)
        requires
            0 <= index as int,
            q0 == index as int / 0x100_0000,
            q1 == (index as int / 0x1_0000) % 0x100,
            q2 == (index as int / 0x100) % 0x100,
            q3 == index as int % 0x100,
    ;
}

/// Distinct operations get distinct salts: two positions of one proposal, or
/// the same position of two proposals, never hash the same bytes.
pub proof fn lemma_salts_are_distinct(a: Hash32, i: u32, b: Hash32, j: u32)
    requires
        a != b || i != j,
    ensures
        salt_bytes(a, i) != salt_bytes(b, j),
{
    broadcast use vstd::array::group_array_axioms;
    if salt_bytes(a, i) == salt_bytes(b, j) {
        assert forall|k: int| 0 <= k < 32 implies a[k] == b[k] by {
            assert(salt_bytes(a, i)[k] == a@[k]);
            assert(salt_bytes(b, j)[k] == b@[k]);
        }
        assert(a =~= b);
        assert(salt_bytes(a, i)[32] == salt_bytes(b, j)[32]);
        assert(salt_bytes(a, i)[33] == salt_bytes(b, j)[33]);
        assert(salt_bytes(a, i)[34] == salt_bytes(b, j)[34]);
        assert(salt_bytes(a, i)[35] == salt_bytes(b, j)[35]);
        assert(i / 0x100_0000u32 == j / 0x100_0000u32);
        assert((i / 0x1_0000u32) % 0x100u32 == (j / 0x1_0000u32) % 0x100u32);
        assert((i / 0x100u32) % 0x100u32 == (j / 0x100u32) % 0x100u32);
        assert(i % 0x100u32 == j % 0x100u32);
        assert(i == j) by (bit_vector)
            requires
                i / 0x100_0000u32 == j / 0x100_0000u32,
                (i / 0x1_0000u32) % 0x100u32 == (j / 0x1_0000u32) % 0x100u32,
                (i / 0x100u32) % 0x100u32 == (j / 0x100u32) % 0x100u32,
                i % 0x100u32 == j % 0x100u32,
        ;
    }
}

} // verus!
