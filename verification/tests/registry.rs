use std::collections::HashMap;

use ratify::registry::{
    counts_fit, is_contested, sides_with_outcome, AccountSettled, share_of, tally, Ballot, Proposal, RatifyDelegateRegistry, Record, RegistryError,
    VoteCounts,
};

const START: u32 = 10_000;
const DEADLINE: u32 = 10_500;
/// Contested means decided by less than a fifth of the votes cast.
const MARGIN_BPS: u32 = 2_000;
const GOVERNOR: u64 = 1;
const WEIGHT_RULE: u64 = 2;

/// The registry, with the governor's tallies and the weight rule's readings
/// kept beside it, which is all the registry is told about either.
struct Fixture {
    registry: RatifyDelegateRegistry,
    now: u32,
    counts: VoteCounts,
    weights: HashMap<u64, u128>,
}

fn setup() -> Fixture {
    Fixture {
        registry: RatifyDelegateRegistry::new(GOVERNOR, WEIGHT_RULE, MARGIN_BPS).unwrap(),
        now: START,
        counts: VoteCounts { against_votes: 0, for_votes: 0, abstain_votes: 0 },
        weights: HashMap::new(),
    }
}

fn set_counts(f: &mut Fixture, for_votes: u128, against_votes: u128) {
    f.counts = VoteCounts { for_votes, against_votes, abstain_votes: 0 };
}

fn pid(byte: u8) -> [u8; 32] {
    [byte; 32]
}

/// A proposal that is open for voting.
fn proposal(f: &mut Fixture, byte: u8) -> [u8; 32] {
    let id = pid(byte);
    f.registry.open(GOVERNOR, id, START, DEADLINE).unwrap();
    id
}

fn close(f: &mut Fixture) {
    f.now = DEADLINE + 1;
}

fn vote(f: &mut Fixture, account: u64, id: [u8; 32], ballot: Ballot) {
    let weight = *f.weights.get(&account).unwrap_or(&0);
    f.registry.record_vote(GOVERNOR, account, id, ballot, weight).unwrap();
}

fn settle(f: &mut Fixture, account: u64, id: [u8; 32]) -> Result<(), RegistryError> {
    let weight = *f.weights.get(&account).unwrap_or(&0);
    f.registry.settle(account, id, f.now, weight, f.counts).map(|_| ())
}

// ################## WHO MAY WRITE ##################

#[test]
fn the_registry_knows_its_governor() {
    let f = setup();
    assert_eq!(f.registry.governor(), GOVERNOR);
    assert_eq!(f.registry.weight_rule(), WEIGHT_RULE);
    assert_eq!(f.registry.contested_margin_bps(), MARGIN_BPS);
}

#[test]
fn only_the_governor_may_open_a_proposal_or_record_a_vote() {
    let mut f = setup();
    let id = pid(1);
    let stranger = 66;

    assert_eq!(f.registry.open(stranger, id, START, DEADLINE), Err(RegistryError::NotGovernor));

    let alice = 70;
    assert_eq!(
        f.registry.record_vote(stranger, alice, id, Ballot::For, 1),
        Err(RegistryError::NotGovernor)
    );
    assert_eq!(f.registry.proposal(id), None);
}

#[test]
fn a_vote_on_an_unknown_proposal_is_refused() {
    let mut f = setup();
    let alice = 70;
    assert_eq!(
        f.registry.record_vote(GOVERNOR, alice, pid(9), Ballot::For, 1),
        Err(RegistryError::ProposalNotFound)
    );
}

#[test]
fn a_proposal_cannot_be_opened_twice() {
    let mut f = setup();
    let id = proposal(&mut f, 1);
    assert_eq!(
        f.registry.open(GOVERNOR, id, START, DEADLINE),
        Err(RegistryError::ProposalAlreadyOpen)
    );
}

// ################## TURNING UP, AND NOT ##################

#[test]
fn a_delegate_who_votes_gets_credit_for_it() {
    let mut f = setup();
    let id = proposal(&mut f, 1);
    let dele = 70;
    f.weights.insert(dele, 5);
    set_counts(&mut f, 100, 10);

    vote(&mut f, dele, id, Ballot::For);
    close(&mut f);
    settle(&mut f, dele, id).unwrap();

    let record = f.registry.record(dele);
    assert_eq!(record.eligible, 1);
    assert_eq!(record.voted, 1);
    assert_eq!(f.registry.participation_bps(dele), Some(10_000));
}

#[test]
fn a_delegate_who_stays_away_is_recorded_as_having_stayed_away() {
    let mut f = setup();
    let id = proposal(&mut f, 1);
    let dele = 70;
    f.weights.insert(dele, 5);
    set_counts(&mut f, 100, 10);

    close(&mut f);
    settle(&mut f, dele, id).unwrap();

    let record = f.registry.record(dele);
    assert_eq!(record.eligible, 1);
    assert_eq!(record.voted, 0);
    assert_eq!(f.registry.participation_bps(dele), Some(0));
}

#[test]
fn a_participation_rate_out_of_nothing_is_unknown_not_zero() {
    let f = setup();
    let newcomer = 71;
    assert_eq!(f.registry.participation_bps(newcomer), None);
    assert_eq!(f.registry.contested_participation_bps(newcomer), None);
}

#[test]
fn a_rate_is_the_share_of_proposals_turned_up_for() {
    let mut f = setup();
    let dele = 70;
    f.weights.insert(dele, 5);
    set_counts(&mut f, 100, 10);

    let first = proposal(&mut f, 1);
    let second = proposal(&mut f, 2);
    let third = proposal(&mut f, 3);
    let fourth = proposal(&mut f, 4);
    vote(&mut f, dele, first, Ballot::For);
    vote(&mut f, dele, third, Ballot::Against);

    close(&mut f);
    for id in [first, second, third, fourth] {
        settle(&mut f, dele, id).unwrap();
    }

    let record = f.registry.record(dele);
    assert_eq!(record.eligible, 4);
    assert_eq!(record.voted, 2);
    assert_eq!(f.registry.participation_bps(dele), Some(5_000));
}

// ################## WHO WAS ELIGIBLE ##################

#[test]
fn an_account_with_no_power_at_the_snapshot_was_never_eligible() {
    let mut f = setup();
    let id = proposal(&mut f, 1);
    let stranger = 72;
    set_counts(&mut f, 100, 10);
    close(&mut f);

    assert_eq!(settle(&mut f, stranger, id), Err(RegistryError::NotEligible));
    assert_eq!(f.registry.record(stranger).eligible, 0);
}

#[test]
fn nothing_can_be_settled_while_voting_is_open() {
    let mut f = setup();
    let id = proposal(&mut f, 1);
    let dele = 70;
    f.weights.insert(dele, 5);

    f.now = DEADLINE;
    assert_eq!(settle(&mut f, dele, id), Err(RegistryError::VotingStillOpen));
}

#[test]
fn settling_twice_changes_nothing() {
    let mut f = setup();
    let id = proposal(&mut f, 1);
    let dele = 70;
    f.weights.insert(dele, 5);
    set_counts(&mut f, 100, 10);
    close(&mut f);

    settle(&mut f, dele, id).unwrap();
    assert_eq!(settle(&mut f, dele, id), Err(RegistryError::AlreadySettled));
    assert_eq!(f.registry.record(dele).eligible, 1);
}

// ################## CONTESTED PROPOSALS ##################

#[test]
fn a_close_result_is_marked_contested() {
    let mut f = setup();
    let id = proposal(&mut f, 1);
    let dele = 70;
    f.weights.insert(dele, 5);

    set_counts(&mut f, 52, 48);
    vote(&mut f, dele, id, Ballot::For);
    close(&mut f);
    settle(&mut f, dele, id).unwrap();

    assert!(f.registry.proposal(id).unwrap().contested);
    let record = f.registry.record(dele);
    assert_eq!(record.contested_eligible, 1);
    assert_eq!(record.contested_voted, 1);
    assert_eq!(record.contested_with_outcome, 1);
    assert_eq!(f.registry.contested_participation_bps(dele), Some(10_000));
}

#[test]
fn a_landslide_is_not_contested() {
    let mut f = setup();
    let id = proposal(&mut f, 1);
    let dele = 70;
    f.weights.insert(dele, 5);

    set_counts(&mut f, 95, 5);
    close(&mut f);
    settle(&mut f, dele, id).unwrap();

    assert!(!f.registry.proposal(id).unwrap().contested);
    let record = f.registry.record(dele);
    assert_eq!(record.eligible, 1);
    assert_eq!(record.contested_eligible, 0);
    assert_eq!(f.registry.contested_participation_bps(dele), None);
}

#[test]
fn missing_the_close_ones_shows_up_separately() {
    let mut f = setup();
    let dele = 70;
    f.weights.insert(dele, 5);

    let easy = proposal(&mut f, 1);
    vote(&mut f, dele, easy, Ballot::For);
    set_counts(&mut f, 95, 5);
    close(&mut f);
    settle(&mut f, dele, easy).unwrap();

    f.now = START;
    let close_one = proposal(&mut f, 2);
    set_counts(&mut f, 51, 49);
    close(&mut f);
    settle(&mut f, dele, close_one).unwrap();

    let record = f.registry.record(dele);
    assert_eq!(f.registry.participation_bps(dele), Some(5_000));
    assert_eq!(f.registry.contested_participation_bps(dele), Some(0));
    assert_eq!(record.contested_eligible, 1);
    assert_eq!(record.contested_voted, 0);
}

#[test]
fn voting_against_the_outcome_still_counts_as_turning_up() {
    let mut f = setup();
    let id = proposal(&mut f, 1);
    let dele = 70;
    f.weights.insert(dele, 5);

    set_counts(&mut f, 51, 49);
    vote(&mut f, dele, id, Ballot::Against);
    close(&mut f);
    settle(&mut f, dele, id).unwrap();

    let record = f.registry.record(dele);
    assert_eq!(record.contested_voted, 1);
    assert_eq!(record.contested_with_outcome, 0);
}

#[test]
fn an_abstention_is_attendance_without_a_side() {
    let mut f = setup();
    let id = proposal(&mut f, 1);
    let dele = 70;
    f.weights.insert(dele, 5);

    set_counts(&mut f, 51, 49);
    vote(&mut f, dele, id, Ballot::Abstain);
    close(&mut f);
    settle(&mut f, dele, id).unwrap();

    let record = f.registry.record(dele);
    assert_eq!(record.voted, 1);
    assert_eq!(record.contested_voted, 1);
    assert_eq!(record.contested_with_outcome, 0);
}

#[test]
fn a_proposal_nobody_voted_on_is_not_contested() {
    let mut f = setup();
    let id = proposal(&mut f, 1);
    let dele = 70;
    f.weights.insert(dele, 5);

    set_counts(&mut f, 0, 0);
    close(&mut f);
    settle(&mut f, dele, id).unwrap();

    assert!(!f.registry.proposal(id).unwrap().contested);
}

#[test]
fn every_account_settled_on_a_proposal_is_judged_on_the_same_tallies() {
    let mut f = setup();
    let id = proposal(&mut f, 1);
    let first = 70;
    let second = 71;
    f.weights.insert(first, 5);
    f.weights.insert(second, 5);

    set_counts(&mut f, 51, 49);
    close(&mut f);
    settle(&mut f, first, id).unwrap();

    set_counts(&mut f, 99, 1);
    settle(&mut f, second, id).unwrap();

    assert_eq!(f.registry.record(first).contested_eligible, 1);
    assert_eq!(f.registry.record(second).contested_eligible, 1);
}

#[test]
fn the_record_says_how_current_it_is() {
    let mut f = setup();
    let id = proposal(&mut f, 1);
    let dele = 70;
    f.weights.insert(dele, 5);
    set_counts(&mut f, 60, 40);
    close(&mut f);

    settle(&mut f, dele, id).unwrap();

    assert_eq!(f.registry.record(dele).last_settled_deadline, DEADLINE);
    assert!(f.registry.is_settled(id, dele));
    assert_eq!(f.registry.ballot(id, dele), None);
}

// ################## FURTHER CASES ##################

#[test]
fn a_margin_of_more_than_the_whole_is_refused() {
    assert!(matches!(
        RatifyDelegateRegistry::new(GOVERNOR, WEIGHT_RULE, 10_001),
        Err(RegistryError::InvalidMargin)
    ));
    assert!(RatifyDelegateRegistry::new(GOVERNOR, WEIGHT_RULE, 10_000).is_ok());
}

#[test]
fn settling_an_unknown_proposal_is_refused() {
    let mut f = setup();
    f.weights.insert(70, 5);
    close(&mut f);
    assert_eq!(settle(&mut f, 70, pid(3)), Err(RegistryError::ProposalNotFound));
}

#[test]
fn the_margin_is_measured_against_the_votes_cast() {
    // A margin of 4 in 100 is under a fifth; 20 in 100 is not.
    assert!(is_contested(52, 48, MARGIN_BPS));
    assert!(!is_contested(60, 40, MARGIN_BPS));
    assert!(is_contested(59, 41, MARGIN_BPS));
    assert!(!is_contested(0, 0, MARGIN_BPS));
    // Enormous even tallies are still judged, as long as the sums they are
    // judged by can be formed.
    assert!(!is_contested(u128::MAX / 2, u128::MAX / 2, 0));
    assert!(is_contested(u128::MAX / 20_000, u128::MAX / 20_000, 1));
}

#[test]
fn a_share_rounds_down_to_whole_hundredths_of_a_percent() {
    assert_eq!(share_of(1, 3), Some(3_333));
    assert_eq!(share_of(2, 3), Some(6_666));
    assert_eq!(share_of(0, 0), None);
    assert_eq!(share_of(5, 5), Some(10_000));
}

#[test]
fn tallying_reads_the_final_counts() {
    let open = Proposal {
        snapshot: START,
        deadline: DEADLINE,
        for_votes: 0,
        against_votes: 0,
        contested: false,
        tallied: false,
    };
    let counts = VoteCounts { against_votes: 48, for_votes: 52, abstain_votes: 3 };
    let t = tally(open, counts, MARGIN_BPS);
    assert_eq!((t.for_votes, t.against_votes, t.contested, t.tallied), (52, 48, true, true));
    assert_eq!((t.snapshot, t.deadline), (START, DEADLINE));
    let landslide = tally(open, VoteCounts { against_votes: 1, for_votes: 99, abstain_votes: 0 }, MARGIN_BPS);
    assert!(!landslide.contested);
}

#[test]
fn a_fresh_record_is_empty() {
    let r = Record::empty();
    assert_eq!(
        (r.eligible, r.voted, r.contested_eligible, r.contested_voted, r.contested_with_outcome),
        (0, 0, 0, 0, 0)
    );
    assert_eq!(RegistryError::NotEligible.code(), 7);
    assert_eq!(RegistryError::AlreadySettled.code(), 6);
}

#[test]
fn a_settlement_reports_what_it_found() {
    let mut f = setup();
    let id = proposal(&mut f, 1);
    let dele = 70;
    f.weights.insert(dele, 5);
    set_counts(&mut f, 51, 49);
    vote(&mut f, dele, id, Ballot::Against);
    close(&mut f);

    let found = f.registry.settle(dele, id, f.now, 5, f.counts).unwrap();
    assert_eq!(
        found,
        AccountSettled { account: dele, proposal_id: id, turned_up: true, contested: true, with_outcome: false }
    );
    let p = f.registry.proposal(id).unwrap();
    assert!(sides_with_outcome(Some(Ballot::For), p));
    assert!(!sides_with_outcome(Some(Ballot::Abstain), p));
    assert!(!sides_with_outcome(None, p));
}

#[test]
fn tallies_too_large_to_weigh_are_told_apart() {
    let counts = |for_votes: u128, against_votes: u128| VoteCounts { against_votes, for_votes, abstain_votes: 0 };
    assert!(counts_fit(counts(0, 0), 10_000));
    assert!(counts_fit(counts(100, 10), 1_000));
    assert!(!counts_fit(counts(u128::MAX, 1), 0));
    assert!(!counts_fit(counts(u128::MAX / 2, 0), 0));
    assert!(counts_fit(counts(u128::MAX / 2, u128::MAX / 2), 1));
    assert!(!counts_fit(counts(u128::MAX / 2, u128::MAX / 2), 10_000));
}
