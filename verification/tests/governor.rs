use ratify::governor::{
    ballot_of, check_actions, queue_eta, check_execute, first_predecessor, salt_preimage, ExecutionRefusal,
    ProposalState, RatifyGovernor, RatifyGovernorError, MAX_ACTIONS,
};
use ratify::membership::RatifyMembership;
use ratify::registry::{Ballot, RatifyDelegateRegistry, VoteCounts};
use ratify::treasury::{RatifyTreasury, TreasuryError};
use ratify::weight_rule::{RatifyWeightRule, WeightModel};

const START: u32 = 10_000;
const VOTING_DELAY: u32 = 20;
const VOTING_PERIOD: u32 = 200;
const TERM: u32 = 100_000;
/// A fifth of live voting power has to take part.
const QUORUM_BPS: u32 = 2_000;
const CONTESTED_BPS: u32 = 2_000;

const FOUNDER: u64 = 1;
const GUARDIAN: u64 = 2;
const GOVERNOR: u64 = 3;
const TIMELOCK: u64 = 4;
const REGISTRY: u64 = 5;
const MEMBERSHIP: u64 = 6;
const WEIGHT_RULE: u64 = 7;
const ASSET: u64 = 8;

/// The parts of a community the governor's rules read: membership, the
/// weight rule over it, and the governor's own settings.
struct Fixture {
    membership: RatifyMembership,
    rule: RatifyWeightRule,
    governor: RatifyGovernor,
    now: u32,
    tokens: Vec<(u64, u32)>,
    next_account: u64,
}

fn setup() -> Fixture {
    Fixture {
        membership: RatifyMembership::new(FOUNDER),
        rule: RatifyWeightRule::new(MEMBERSHIP, WeightModel::OneTokenOneVote, None).unwrap(),
        governor: RatifyGovernor::new(TIMELOCK, Some(REGISTRY), QUORUM_BPS).unwrap(),
        now: START,
        tokens: Vec::new(),
        next_account: 100,
    }
}

fn held(f: &Fixture, account: u64) -> u32 {
    f.tokens.iter().find(|(a, _)| *a == account).map(|(_, n)| *n).unwrap_or(0)
}

fn issue(f: &mut Fixture, to: u64) {
    let before = held(f, to);
    f.membership.issue(FOUNDER, to, before, f.now).unwrap();
    match f.tokens.iter_mut().find(|(a, _)| *a == to) {
        Some(entry) => entry.1 += 1,
        None => f.tokens.push((to, 1)),
    }
}

/// A member holding `tokens` tokens with a live grant to themselves.
fn member(f: &mut Fixture, tokens: u32) -> u64 {
    f.next_account += 1;
    let account = f.next_account;
    for _ in 0..tokens {
        issue(f, account);
    }
    let n = held(f, account);
    f.membership.delegate_for(account, account, TERM, n, f.now).unwrap();
    account
}

/// What a proposal made at `proposed_at` has reached and needs, when `cast`
/// is the weight voted for it.
fn quorum_progress(f: &Fixture, proposed_at: u32, cast: u128) -> (u128, u128) {
    let snapshot = proposed_at + VOTING_DELAY;
    let live = f.rule.total_weight_at(&f.membership, snapshot);
    let counts = VoteCounts { against_votes: 0, for_votes: cast, abstain_votes: 0 };
    f.governor.quorum_progress(counts, live)
}

// ################## QUORUM ##################

#[test]
fn a_proposal_nobody_much_voted_on_does_not_pass() {
    let mut f = setup();
    let alice = member(&mut f, 1);
    let _rest = member(&mut f, 9);
    let proposed_at = START + 1;
    f.now = proposed_at + VOTING_DELAY + 1;

    let cast = f.rule.weight_at(&f.membership, alice, proposed_at + VOTING_DELAY);
    let (reached, needed) = quorum_progress(&f, proposed_at, cast);
    assert_eq!(reached, 1);
    assert_eq!(needed, 2);
    assert!(reached < needed);
}

#[test]
fn quorum_is_measured_against_power_that_is_still_live() {
    let mut f = setup();
    let alice = member(&mut f, 1);
    let absent = member(&mut f, 9);

    f.now = START + TERM - 1;
    f.membership.renew(alice, TERM, f.now).unwrap();

    f.now = START + TERM;
    f.membership.lapse(absent, f.now).unwrap();
    assert_eq!(f.membership.live_total(), 1);

    let proposed_at = START + TERM + 1;
    f.now = proposed_at + VOTING_DELAY + 1;
    let cast = f.rule.weight_at(&f.membership, alice, proposed_at + VOTING_DELAY);
    let (reached, needed) = quorum_progress(&f, proposed_at, cast);
    assert_eq!(reached, 1);
    assert_eq!(needed, 1);
}

#[test]
fn power_acquired_after_a_proposal_opened_does_not_count() {
    let mut f = setup();
    let _alice = member(&mut f, 1);
    let proposed_at = START + 1;
    let snapshot = proposed_at + VOTING_DELAY;

    f.now = snapshot + 1;
    f.next_account += 1;
    let latecomer = f.next_account;
    for _ in 0..100 {
        issue(&mut f, latecomer);
    }
    let n = held(&f, latecomer);
    f.membership.delegate_for(latecomer, latecomer, TERM, n, f.now).unwrap();

    assert_eq!(f.rule.weight_at(&f.membership, latecomer, snapshot), 0);
    assert_eq!(f.rule.weight_at(&f.membership, latecomer, f.now), 100);
}

#[test]
fn a_ledger_with_nobody_live_has_an_unreachable_quorum() {
    let f = setup();
    assert_eq!(f.governor.quorum(0), u128::MAX);
    assert_eq!(f.governor.quorum(11), 3);
    assert_eq!(f.governor.quorum(10), 2);
    let tenth = RatifyGovernor::new(TIMELOCK, None, 1_000).unwrap();
    // A tenth of eleven rounds up to two.
    assert_eq!(tenth.quorum(11), 2);
    assert_eq!(tenth.quorum(u128::MAX), u128::MAX / 10_000 + 1);
}

// ################## THE BRAKE ##################

#[test]
fn the_guardian_can_stop_an_approved_proposal() {
    let f = setup();
    // Stopping a queued proposal takes its operations out of the timelock
    // with it.
    assert_eq!(
        f.governor.stop(GUARDIAN, GUARDIAN, 31, ProposalState::Queued),
        Ok(true)
    );
    assert_eq!(
        f.governor.stop(GUARDIAN, GUARDIAN, 31, ProposalState::Succeeded),
        Ok(false)
    );
}

#[test]
fn test_nobody_but_the_guardian_can_stop_one() {
    let mut f = setup();
    let alice = member(&mut f, 3);
    let reason = "I changed my mind.";
    assert_eq!(
        f.governor.stop(alice, GUARDIAN, reason.len() as u32, ProposalState::Pending),
        Err(RatifyGovernorError::NotGuardian)
    );
}

#[test]
fn stopping_a_proposal_must_state_a_reason() {
    let f = setup();
    assert_eq!(
        f.governor.stop(GUARDIAN, GUARDIAN, 0, ProposalState::Pending),
        Err(RatifyGovernorError::ReasonRequired)
    );
    assert_eq!(
        f.governor.stop(GUARDIAN, GUARDIAN, 513, ProposalState::Pending),
        Err(RatifyGovernorError::ReasonTooLong)
    );
    assert_eq!(
        f.governor.stop(GUARDIAN, GUARDIAN, 5, ProposalState::Executed),
        Err(RatifyGovernorError::WrongState)
    );
}

#[test]
fn a_proposer_may_withdraw_before_voting_opens_and_not_after() {
    let mut f = setup();
    let alice = member(&mut f, 3);
    let bob = member(&mut f, 1);

    assert_eq!(
        f.governor.cancel(bob, alice, ProposalState::Pending),
        Err(RatifyGovernorError::NotProposer)
    );
    assert_eq!(f.governor.cancel(alice, alice, ProposalState::Pending), Ok(()));
    assert_eq!(
        f.governor.cancel(alice, alice, ProposalState::Active),
        Err(RatifyGovernorError::WrongState)
    );
}

// ################## RUNNING WHAT WAS DECIDED ##################

#[test]
fn executing_twice_pays_once() {
    assert_eq!(check_execute(ProposalState::Queued), Ok(()));
    assert_eq!(check_execute(ProposalState::Executed), Err(ExecutionRefusal::AlreadyExecuted));
}

#[test]
fn a_proposal_that_was_not_queued_cannot_run() {
    assert_eq!(check_execute(ProposalState::Succeeded), Err(ExecutionRefusal::NotQueued));
    assert_eq!(check_execute(ProposalState::Defeated), Err(ExecutionRefusal::NotQueued));
    assert_eq!(check_execute(ProposalState::Canceled), Err(ExecutionRefusal::NotQueued));
}

#[test]
fn a_vote_cannot_authorise_what_the_policy_forbids() {
    let mut treasury = RatifyTreasury::new(TIMELOCK);
    treasury.set_policy(TIMELOCK, ASSET, 10_000, 50_000, 100_000).unwrap();
    let recipient = 90;

    let result = treasury.pay(TIMELOCK, ASSET, recipient, 20_000, [0u8; 32], START + 800);
    assert_eq!(result, Err(TreasuryError::OverPerPaymentCap));
    assert_eq!(treasury.outflow_count(), 0);
}

#[test]
fn the_governor_cannot_reach_the_treasury_on_its_own() {
    let mut treasury = RatifyTreasury::new(TIMELOCK);
    treasury.set_policy(TIMELOCK, ASSET, 10_000, 50_000, 100_000).unwrap();
    let f = setup();
    assert_eq!(treasury.timelock(), f.governor.timelock());
    assert_eq!(
        treasury.pay(GOVERNOR, ASSET, 90, 1_000, [0u8; 32], START),
        Err(TreasuryError::NotTimelock)
    );
}

#[test]
fn a_vote_reaches_the_delegate_record() {
    let mut f = setup();
    let alice = member(&mut f, 3);
    let absentee = member(&mut f, 2);
    let mut registry = RatifyDelegateRegistry::new(GOVERNOR, WEIGHT_RULE, CONTESTED_BPS).unwrap();
    let proposed_at = START + 1;
    let snapshot = proposed_at + VOTING_DELAY;
    let deadline = snapshot + VOTING_PERIOD;
    let id = [7u8; 32];

    registry.open(GOVERNOR, id, snapshot, deadline).unwrap();
    assert_eq!(registry.proposal(id).unwrap().snapshot, proposed_at + VOTING_DELAY);

    let weight = f.rule.weight_at(&f.membership, alice, snapshot);
    registry.record_vote(GOVERNOR, alice, id, ballot_of(1), weight).unwrap();

    f.now = deadline + 1;
    let counts = VoteCounts { against_votes: 0, for_votes: weight, abstain_votes: 0 };
    for account in [alice, absentee] {
        let w = f.rule.weight_at(&f.membership, account, snapshot);
        registry.settle(account, id, f.now, w, counts).unwrap();
    }

    assert_eq!(registry.participation_bps(alice), Some(10_000));
    assert_eq!(registry.participation_bps(absentee), Some(0));
}

// ################## FURTHER CASES ##################

#[test]
fn a_quorum_share_must_be_a_fraction() {
    assert!(matches!(
        RatifyGovernor::new(TIMELOCK, None, 0),
        Err(RatifyGovernorError::InvalidQuorum)
    ));
    assert!(matches!(
        RatifyGovernor::new(TIMELOCK, None, 10_001),
        Err(RatifyGovernorError::InvalidQuorum)
    ));
    let g = RatifyGovernor::new(TIMELOCK, None, 10_000).unwrap();
    assert_eq!((g.timelock(), g.registry(), g.quorum_bps()), (TIMELOCK, None, 10_000));
    assert!(g.proposals_need_queuing());
}

#[test]
fn a_proposal_carries_a_handful_of_actions_at_most() {
    assert_eq!(check_actions(MAX_ACTIONS), Ok(()));
    assert_eq!(check_actions(MAX_ACTIONS + 1), Err(RatifyGovernorError::TooManyActions));
    assert_eq!(RatifyGovernorError::TooManyActions.code(), 7);
}

#[test]
fn a_vote_type_is_read_as_a_ballot() {
    assert_eq!(ballot_of(0), Ballot::Against);
    assert_eq!(ballot_of(1), Ballot::For);
    assert_eq!(ballot_of(2), Ballot::Abstain);
    assert_eq!(ballot_of(9), Ballot::Abstain);
}

#[test]
fn each_operation_of_a_proposal_has_its_own_salt() {
    let id = [0xabu8; 32];
    let first = salt_preimage(&id, 0);
    let second = salt_preimage(&id, 0x0102_0304);
    assert_eq!(first.len(), 36);
    assert_eq!(&first[..32], &id[..]);
    assert_eq!(&first[32..], &[0, 0, 0, 0]);
    assert_eq!(&second[32..], &[1, 2, 3, 4]);
    assert_ne!(first, second);
    assert_eq!(first_predecessor(), [0u8; 32]);
}

#[test]
fn a_queued_proposal_runs_after_the_delay_and_never_wraps() {
    assert_eq!(queue_eta(10_000, 17_280), 27_280);
    assert_eq!(queue_eta(u32::MAX - 5, 17_280), u32::MAX);
}
