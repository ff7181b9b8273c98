use ratify::membership::RatifyMembership;
use ratify::weight_rule::{
    RatifyWeightRule, TenureSchedule, WeightModel, WeightRuleError, MAX_TENURE_STEPS,
};

const START: u32 = 10_000;
const TERM: u32 = 50_000;
const STEP: u32 = 1_000;
const ISSUER: u64 = 1;
const MEMBERSHIP: u64 = 2;

/// A weight rule over a membership, with the membership's token ledger kept
/// beside it as a count of tokens per account.
struct Fixture {
    membership: RatifyMembership,
    rule: RatifyWeightRule,
    now: u32,
    tokens: Vec<(u64, u32)>,
    next_account: u64,
}

fn setup(model: WeightModel) -> Fixture {
    setup_with(model, None)
}

fn setup_with(model: WeightModel, tenure: Option<TenureSchedule>) -> Fixture {
    Fixture {
        membership: RatifyMembership::new(ISSUER),
        rule: RatifyWeightRule::new(MEMBERSHIP, model, tenure).unwrap(),
        now: START,
        tokens: Vec::new(),
        next_account: 100,
    }
}

fn held(f: &Fixture, account: u64) -> u32 {
    f.tokens.iter().find(|(a, _)| *a == account).map(|(_, n)| *n).unwrap_or(0)
}

fn fresh(f: &mut Fixture) -> u64 {
    f.next_account += 1;
    f.next_account
}

fn issue(f: &mut Fixture, to: u64) {
    let before = held(f, to);
    f.membership.issue(ISSUER, to, before, f.now).unwrap();
    match f.tokens.iter_mut().find(|(a, _)| *a == to) {
        Some(entry) => entry.1 += 1,
        None => f.tokens.push((to, 1)),
    }
}

fn delegate_for(f: &mut Fixture, account: u64, delegatee: u64, term: u32) {
    let n = held(f, account);
    f.membership.delegate_for(account, delegatee, term, n, f.now).unwrap();
}

/// A member holding `tokens` tokens, with a live grant to themselves.
fn active_member(f: &mut Fixture, tokens: u32) -> u64 {
    let account = fresh(f);
    for _ in 0..tokens {
        issue(f, account);
    }
    delegate_for(f, account, account, TERM);
    account
}

fn weight_at(f: &Fixture, account: u64, ledger: u32) -> u128 {
    f.rule.weight_at(&f.membership, account, ledger)
}

fn total_weight_at(f: &Fixture, ledger: u32) -> u128 {
    f.rule.total_weight_at(&f.membership, ledger)
}

// ################## ONE TOKEN ONE VOTE ##################

#[test]
fn one_token_one_vote_weighs_the_tokens() {
    let mut f = setup(WeightModel::OneTokenOneVote);
    let alice = active_member(&mut f, 3);
    let bob = active_member(&mut f, 1);

    assert_eq!(weight_at(&f, alice, f.now), 3);
    assert_eq!(weight_at(&f, bob, f.now), 1);
    assert_eq!(total_weight_at(&f, f.now), 4);
}

#[test]
fn a_member_who_has_not_granted_has_no_weight() {
    let mut f = setup(WeightModel::OneTokenOneVote);
    let alice = fresh(&mut f);
    issue(&mut f, alice);

    assert_eq!(weight_at(&f, alice, f.now), 0);
    assert_eq!(total_weight_at(&f, f.now), 0);
}

#[test]
fn weight_follows_a_grant_to_the_delegate() {
    let mut f = setup(WeightModel::OneTokenOneVote);
    let alice = active_member(&mut f, 2);
    let dele = active_member(&mut f, 1);

    delegate_for(&mut f, alice, dele, TERM);

    assert_eq!(weight_at(&f, alice, f.now), 0);
    assert_eq!(weight_at(&f, dele, f.now), 3);
    assert_eq!(total_weight_at(&f, f.now), 3);
}

// ################## ONE MEMBER ONE VOTE ##################

#[test]
fn one_member_one_vote_ignores_how_many_tokens_are_held() {
    let mut f = setup(WeightModel::OneMemberOneVote);
    let alice = active_member(&mut f, 10);
    let bob = active_member(&mut f, 1);

    assert_eq!(weight_at(&f, alice, f.now), 1);
    assert_eq!(weight_at(&f, bob, f.now), 1);
    assert_eq!(total_weight_at(&f, f.now), 2);
}

#[test]
fn one_member_one_vote_gives_a_delegate_a_vote_per_member() {
    let mut f = setup(WeightModel::OneMemberOneVote);
    let alice = active_member(&mut f, 10);
    let bob = active_member(&mut f, 4);
    let dele = fresh(&mut f);

    delegate_for(&mut f, alice, dele, TERM);
    delegate_for(&mut f, bob, dele, TERM);

    assert_eq!(weight_at(&f, dele, f.now), 2);
    assert_eq!(total_weight_at(&f, f.now), 2);
}

// ################## TIME WEIGHTED ##################

#[test]
fn time_weighting_rewards_unbroken_membership_in_steps() {
    let mut f = setup_with(
        WeightModel::TimeWeighted,
        Some(TenureSchedule { step_ledgers: STEP, max_steps: 5 }),
    );
    let alice = active_member(&mut f, 1);

    assert_eq!(weight_at(&f, alice, START), 1);
    assert_eq!(weight_at(&f, alice, START + STEP - 1), 1);
    assert_eq!(weight_at(&f, alice, START + STEP), 2);
    assert_eq!(weight_at(&f, alice, START + 3 * STEP), 4);
}

#[test]
fn time_weighting_stops_at_the_ceiling() {
    let mut f = setup_with(
        WeightModel::TimeWeighted,
        Some(TenureSchedule { step_ledgers: STEP, max_steps: 5 }),
    );
    let alice = active_member(&mut f, 2);

    assert_eq!(weight_at(&f, alice, START + 5 * STEP), 12);
    assert_eq!(weight_at(&f, alice, START + 50 * STEP), 12);
}

#[test]
fn time_weighting_gives_nothing_to_an_account_with_no_power() {
    let mut f = setup_with(
        WeightModel::TimeWeighted,
        Some(TenureSchedule { step_ledgers: STEP, max_steps: 5 }),
    );
    let alice = fresh(&mut f);
    issue(&mut f, alice);

    assert_eq!(weight_at(&f, alice, START + 10 * STEP), 0);
}

/// Makes a time weighted rule with the given schedule, failing the way the
/// contract's constructor does when the schedule is refused.
fn deploy_time_weighted(tenure: Option<TenureSchedule>) {
    if let Err(e) = RatifyWeightRule::new(MEMBERSHIP, WeightModel::TimeWeighted, tenure) {
        panic!("Error(Contract, #{})", e.code());
    }
}

#[test]
#[should_panic(expected = "Error(Contract, #2)")]
fn time_weighting_needs_a_schedule() {
    deploy_time_weighted(None);
}

#[test]
#[should_panic(expected = "Error(Contract, #2)")]
fn a_step_of_no_ledgers_is_refused() {
    deploy_time_weighted(Some(TenureSchedule { step_ledgers: 0, max_steps: 5 }));
}

#[test]
#[should_panic(expected = "Error(Contract, #2)")]
fn a_schedule_with_no_steps_is_refused() {
    deploy_time_weighted(Some(TenureSchedule { step_ledgers: STEP, max_steps: 0 }));
}

#[test]
#[should_panic(expected = "Error(Contract, #2)")]
fn a_schedule_past_the_ceiling_is_refused() {
    deploy_time_weighted(Some(TenureSchedule { step_ledgers: STEP, max_steps: MAX_TENURE_STEPS + 1 }));
}

// ################## WHAT THE GOVERNOR SEES ##################

#[test]
fn the_governor_reads_weight_through_the_standard_votes_interface() {
    let mut f = setup(WeightModel::OneMemberOneVote);
    let alice = active_member(&mut f, 10);

    assert_eq!(weight_at(&f, alice, f.now), 1);
    assert_eq!(total_weight_at(&f, f.now), 1);
    assert_eq!(f.rule.get_delegate(&f.membership, alice), Some(alice));
}

#[test]
fn a_lapsed_grant_is_worth_nothing_to_the_governor() {
    let mut f = setup(WeightModel::OneTokenOneVote);
    let alice = active_member(&mut f, 3);

    f.now = START + TERM;
    f.membership.lapse(alice, f.now).unwrap();

    assert_eq!(weight_at(&f, alice, f.now), 0);
    assert_eq!(total_weight_at(&f, f.now), 0);

    // The past is untouched, so a proposal opened while the grant was live is
    // still decided on the weight that existed then.
    assert_eq!(weight_at(&f, alice, START + 1), 3);
}

#[test]
fn delegation_cannot_be_made_here() {
    let mut f = setup(WeightModel::OneTokenOneVote);
    let alice = active_member(&mut f, 1);
    let dele = fresh(&mut f);

    assert_eq!(f.rule.delegate(alice, dele), Err(WeightRuleError::DelegateOnMembership));
}

#[test]
fn the_model_is_readable_and_fixed() {
    let f = setup(WeightModel::OneMemberOneVote);
    assert_eq!(f.rule.model(), WeightModel::OneMemberOneVote);
    assert_eq!(f.rule.membership(), MEMBERSHIP);
    assert_eq!(f.rule.tenure_schedule(), None);
}

// ################## FURTHER CASES ##################

#[test]
fn a_schedule_is_kept_only_for_time_weighting() {
    let schedule = TenureSchedule { step_ledgers: STEP, max_steps: 5 };
    let plain = RatifyWeightRule::new(MEMBERSHIP, WeightModel::OneTokenOneVote, Some(schedule)).unwrap();
    assert_eq!(plain.tenure_schedule(), None);
    let timed = RatifyWeightRule::new(MEMBERSHIP, WeightModel::TimeWeighted, Some(schedule)).unwrap();
    assert_eq!(timed.tenure_schedule(), Some(schedule));
}

#[test]
fn weight_from_readings_follows_the_model() {
    let schedule = TenureSchedule { step_ledgers: 100, max_steps: MAX_TENURE_STEPS };
    let timed = RatifyWeightRule::new(MEMBERSHIP, WeightModel::TimeWeighted, Some(schedule)).unwrap();
    assert_eq!(timed.weight_from(7, 1, 250), 21);
    assert_eq!(timed.weight_from(7, 1, 1_000_000), 7 * 21);
    assert_eq!(timed.weight_from(0, 1, 1_000_000), 0);
    let heads = RatifyWeightRule::new(MEMBERSHIP, WeightModel::OneMemberOneVote, None).unwrap();
    assert_eq!(heads.weight_from(7, 2, 250), 2);
    assert_eq!(WeightRuleError::InvalidModel.code(), 2);
}

#[test]
fn a_past_weight_stays_put_while_membership_is_unbroken() {
    let mut f = setup_with(
        WeightModel::TimeWeighted,
        Some(TenureSchedule { step_ledgers: STEP, max_steps: 5 }),
    );
    let alice = active_member(&mut f, 1);
    let bob = active_member(&mut f, 2);
    let before = (weight_at(&f, alice, START + 2 * STEP), total_weight_at(&f, START + 2 * STEP));
    assert_eq!(before, (3, 3));

    f.now = START + 3 * STEP;
    issue(&mut f, alice);
    f.membership.withdraw(bob, f.now).unwrap();

    assert_eq!((weight_at(&f, alice, START + 2 * STEP), total_weight_at(&f, START + 2 * STEP)), before);
    assert_eq!(weight_at(&f, alice, f.now), 2 * 4);
}

#[test]
fn a_return_restarts_tenure_even_for_past_readings() {
    let mut f = setup_with(
        WeightModel::TimeWeighted,
        Some(TenureSchedule { step_ledgers: STEP, max_steps: 5 }),
    );
    let alice = active_member(&mut f, 1);
    assert_eq!(weight_at(&f, alice, START + 2 * STEP), 3);

    // Alice leaves and comes back: her tenure now runs from the return, and a
    // reading at a ledger from her first membership sees none of it.
    f.now = START + 3 * STEP;
    f.membership.revoke(ISSUER, alice, 0, f.now).unwrap();
    f.tokens.retain(|(a, _)| *a != alice);
    f.now = START + 4 * STEP;
    issue(&mut f, alice);

    assert_eq!(f.membership.votes_at(alice, START + 2 * STEP), 1);
    assert_eq!(weight_at(&f, alice, START + 2 * STEP), 1);
}
