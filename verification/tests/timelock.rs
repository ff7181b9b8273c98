use ratify::timelock::{
    ledgers_remaining, DelayUpdated, OperationState, RatifyTimelock, RatifyTimelockError,
    SelfChange, MAX_REASON_LENGTH,
};

const DELAY: u32 = 500;
const START: u32 = 10_000;
const GOVERNOR: u64 = 1;
const GUARDIAN: u64 = 2;

fn setup() -> RatifyTimelock {
    RatifyTimelock::new(GOVERNOR, GUARDIAN, DELAY).unwrap()
}

/// Makes a timelock, failing the way the contract's constructor does when
/// it refuses the settings.
fn deploy(governor: u64, guardian: u64, delay: u32) -> RatifyTimelock {
    match RatifyTimelock::new(governor, guardian, delay) {
        Ok(t) => t,
        Err(e) => panic!("Error(Contract, #{})", e.code()),
    }
}

// ################## SETUP ##################

#[test]
fn constructor_records_the_roles_and_the_delay() {
    let t = setup();
    assert_eq!(t.governor(), GOVERNOR);
    assert_eq!(t.guardian(), GUARDIAN);
    assert_eq!(t.min_delay(), DELAY);
}

#[test]
#[should_panic(expected = "Error(Contract, #7)")]
fn a_timelock_cannot_be_deployed_with_no_delay() {
    deploy(GOVERNOR, GUARDIAN, 0);
}

// ################## WHO MAY SCHEDULE ##################

#[test]
fn only_the_governor_may_schedule() {
    let t = setup();
    let stranger = 99;
    assert_eq!(t.schedule(stranger), Err(RatifyTimelockError::NotGovernor));
    assert_eq!(t.schedule(GOVERNOR), Ok(()));
}

// ################## THE DELAY ##################

#[test]
fn a_scheduled_action_waits() {
    let ready_at = START + DELAY;
    assert_eq!(ledgers_remaining(OperationState::Waiting, ready_at, START), DELAY);
}

#[test]
fn the_countdown_runs_down_to_the_ledger() {
    let ready_at = START + DELAY;
    assert_eq!(ledgers_remaining(OperationState::Waiting, ready_at, START + 100), DELAY - 100);
    assert_eq!(ledgers_remaining(OperationState::Ready, ready_at, START + DELAY), 0);
    assert_eq!(ledgers_remaining(OperationState::Waiting, ready_at, START + DELAY), 0);
    assert_eq!(ledgers_remaining(OperationState::Done, ready_at, START), 0);
    assert_eq!(ledgers_remaining(OperationState::Unset, ready_at, START), 0);
}

// ################## THE BRAKE ##################

#[test]
fn the_guardian_can_stop_a_waiting_action() {
    let t = setup();
    let reason = "The recipient address is wrong.";
    assert_eq!(t.cancel_with_reason(GUARDIAN, reason.len() as u32), Ok(()));
}

#[test]
fn nobody_but_the_guardian_can_stop_one() {
    let t = setup();
    let stranger = 99;
    let reason = "No.";
    assert_eq!(
        t.cancel_with_reason(stranger, reason.len() as u32),
        Err(RatifyTimelockError::NotGuardian)
    );
    assert_eq!(
        t.cancel_with_reason(GOVERNOR, reason.len() as u32),
        Err(RatifyTimelockError::NotGuardian)
    );
}

#[test]
fn a_cancellation_must_state_a_reason() {
    let t = setup();
    assert_eq!(t.cancel_with_reason(GUARDIAN, 0), Err(RatifyTimelockError::ReasonRequired));
    assert_eq!(
        t.cancel_with_reason(GUARDIAN, MAX_REASON_LENGTH + 1),
        Err(RatifyTimelockError::ReasonTooLong)
    );
    assert_eq!(t.cancel_with_reason(GUARDIAN, MAX_REASON_LENGTH), Ok(()));
}

#[test]
fn the_reasonless_cancel_of_the_standard_interface_is_refused() {
    let t = setup();
    assert_eq!(t.cancel(GUARDIAN), Err(RatifyTimelockError::ReasonRequired));
}

#[test]
fn the_guardian_has_no_other_power() {
    let t = setup();
    assert_eq!(t.schedule(GUARDIAN), Err(RatifyTimelockError::NotGovernor));
    assert_eq!(t.update_delay(1, GUARDIAN), Err(RatifyTimelockError::ScheduleThroughTimelock));
    assert_eq!(t.update_delay(1, GOVERNOR), Err(RatifyTimelockError::ScheduleThroughTimelock));
    assert_eq!(t.min_delay(), DELAY);
}

// ################## SELF ADMINISTRATION ##################

#[test]
fn changing_the_delay_must_serve_the_current_delay_first() {
    let mut t = setup();
    let new_delay = 900u32;
    assert_eq!(SelfChange::SetDelay(new_delay).function_name(), "set_delay");
    let update = t.execute_delay_update(new_delay).unwrap();
    assert_eq!(update, DelayUpdated { old_delay: DELAY, new_delay });
    assert_eq!(t.min_delay(), new_delay);
}

#[test]
fn the_delay_can_never_be_set_to_zero() {
    let mut t = setup();
    assert_eq!(t.execute_delay_update(0), Err(RatifyTimelockError::DelayCannotBeZero));
    assert_eq!(t.min_delay(), DELAY);
}

#[test]
fn governance_replaces_the_guardian_through_the_queue() {
    let mut t = setup();
    let new_guardian = 42;
    assert_eq!(SelfChange::SetGuardian(new_guardian).function_name(), "set_guard");

    let replaced = t.execute_guardian_change(new_guardian);

    assert_eq!(replaced, GUARDIAN);
    assert_eq!(t.guardian(), new_guardian);

    // The old guardian's brake is gone with the role.
    let reason = "Still trying.";
    assert_eq!(
        t.cancel_with_reason(GUARDIAN, reason.len() as u32),
        Err(RatifyTimelockError::NotGuardian)
    );
    assert_eq!(t.cancel_with_reason(new_guardian, reason.len() as u32), Ok(()));
}

#[test]
fn a_guardian_cannot_hand_the_role_on() {
    let t = setup();
    assert_eq!(t.schedule(GUARDIAN), Err(RatifyTimelockError::NotGovernor));
    assert_eq!(t.guardian(), GUARDIAN);
}

#[test]
fn timelock_error_codes_are_stable() {
    assert_eq!(RatifyTimelockError::NotGovernor.code(), 3);
    assert_eq!(RatifyTimelockError::NotGuardian.code(), 4);
    assert_eq!(RatifyTimelockError::ReasonRequired.code(), 5);
    assert_eq!(RatifyTimelockError::DelayCannotBeZero.code(), 7);
    assert_eq!(RatifyTimelockError::ScheduleThroughTimelock.code(), 8);
}
