//! The access rules of the delay between a vote passing and money moving.
//!
//! An approved proposal is scheduled as an exact call and waits a fixed
//! number of ledgers. Three roles, and no others:
//!
//! * the **governor** may schedule, and may do nothing else
//! * **anyone** may execute a ready operation
//! * the **guardian** may cancel a waiting operation, with a stated reason,
//!   and may do nothing else
//!
//! Changing the delay, or replacing the guardian, is itself scheduled and
//! waits out the current delay. The scheduling state machine, its replay
//! protection and the hashing of operations are the timelock library's; what
//! is here is who may do each thing, the requirement that a cancellation
//! carries a reason, and the self-administration that follows an executed
//! change.

use vstd::prelude::*;

use crate::AccountId;

verus! {

/// The longest a cancellation reason may be, in bytes.
pub const MAX_REASON_LENGTH: u32 = 512;

/// Why the timelock refused a call.
#[derive(Clone, Copy, Debug, PartialEq, Eq, Structural)]
pub enum RatifyTimelockError {
    /// The timelock has not been given a governor.
    GovernorNotSet,
    /// The timelock has not been given a guardian.
    GuardianNotSet,
    /// Only the governor may schedule an operation.
    NotGovernor,
    /// Only the guardian may cancel an operation.
    NotGuardian,
    /// A cancellation must state a reason.
    ReasonRequired,
    /// The stated reason is longer than the contract will store.
    ReasonTooLong,
    /// A delay of zero would defeat the purpose of the contract.
    DelayCannotBeZero,
    /// The change must be scheduled and served its delay, not applied
    /// directly.
    ScheduleThroughTimelock,
}

impl RatifyTimelockError {
    /// The number the error is reported under.
    pub fn code(&self) -> (c: u32)
        ensures
            c == match *self {
                RatifyTimelockError::GovernorNotSet => 1u32,
                RatifyTimelockError::GuardianNotSet => 2,
                RatifyTimelockError::NotGovernor => 3,
                RatifyTimelockError::NotGuardian => 4,
                RatifyTimelockError::ReasonRequired => 5,
                RatifyTimelockError::ReasonTooLong => 6,
                RatifyTimelockError::DelayCannotBeZero => 7,
                RatifyTimelockError::ScheduleThroughTimelock => 8,
            },
    {
        match *self {
            RatifyTimelockError::GovernorNotSet => 1,
            RatifyTimelockError::GuardianNotSet => 2,
            RatifyTimelockError::NotGovernor => 3,
            RatifyTimelockError::NotGuardian => 4,
            RatifyTimelockError::ReasonRequired => 5,
            RatifyTimelockError::ReasonTooLong => 6,
            RatifyTimelockError::DelayCannotBeZero => 7,
            RatifyTimelockError::ScheduleThroughTimelock => 8,
        }
    }
}

/// Where a scheduled operation stands.
#[derive(Clone, Copy, Debug, PartialEq, Eq, Structural)]
pub enum OperationState {
    /// Never scheduled, or cancelled.
    Unset,
    /// Scheduled, and its delay has not passed.
    Waiting,
    /// Scheduled, and its delay has passed.
    Ready,
    /// Executed.
    Done,
}

/// The record of a change to the minimum delay.
#[derive(Clone, Copy, Debug, PartialEq, Eq, Structural)]
pub struct DelayUpdated {
    pub old_delay: u32,
    pub new_delay: u32,
}

/// A change the timelock makes to its own settings, scheduled and executed
/// like any other operation.
#[derive(Clone, Copy, Debug, PartialEq, Eq, Structural)]
pub enum SelfChange {
    /// A new minimum delay.
    SetDelay(u32),
    /// A new guardian.
    SetGuardian(AccountId),
}

impl SelfChange {
    /// The function name the change is scheduled under.
    pub fn function_name(&self) -> (name: &'static str)
        ensures
            name@ == (match *self {
                SelfChange::SetDelay(_) => "set_delay"@,
                SelfChange::SetGuardian(_) => "set_guard"@,
            }),
    {
        match *self {
            SelfChange::SetDelay(_) => "set_delay",
            SelfChange::SetGuardian(_) => "set_guard",
        }
    }
}

/// Returns how many ledgers remain at `now` before an operation may be
/// executed: zero when it is ready, or is not waiting at all.
pub fn ledgers_remaining(state: OperationState, ready_at: u32, now: u32) -> (n: u32)
    ensures
        n == (if state == OperationState::Waiting && ready_at > now {
            (ready_at - now) as u32
        } else {
            0
        }),
{
    match state {
        OperationState::Waiting => ready_at.saturating_sub(now),
        _ => 0,
    }
}

/// The timelock's roles and its minimum delay.
pub struct TimelockView {
    /// The only address that may schedule.
    pub governor: AccountId,
    /// The only address that may cancel.
    pub guardian: AccountId,
    /// The least number of ledgers an operation waits.
    pub min_delay: u32,
}

/// The roles of one community's timelock.
pub struct RatifyTimelock {
    governor: AccountId,
    guardian: AccountId,
    min_delay: u32,
}

impl View for RatifyTimelock {
    type V = TimelockView;

    closed spec fn view(&self) -> TimelockView {
        TimelockView { governor: self.governor, guardian: self.guardian, min_delay: self.min_delay }
    }
}

/// Why a cancellation with a reason of `reason_len` bytes by `guardian`
/// would be refused, or `None` if it may go ahead.
pub open spec fn cancel_refusal(v: TimelockView, guardian: AccountId, reason_len: u32) -> Option<
    RatifyTimelockError,
> {
    if guardian != v.guardian {
        Some(RatifyTimelockError::NotGuardian)
    } else if reason_len == 0 {
        Some(RatifyTimelockError::ReasonRequired)
    } else if reason_len > MAX_REASON_LENGTH {
        Some(RatifyTimelockError::ReasonTooLong)
    } else {
        None
    }
}

/// The guardian may cancel with a reason of one to 512 bytes: no reason is
/// refused as missing, a longer one as too long, and nobody but the guardian
/// may cancel at all.
pub proof fn lemma_cancelling_takes_the_guardian_and_a_reason(v: TimelockView, caller: AccountId, reason_len: u32)
    ensures
        cancel_refusal(v, caller, reason_len) is None <==> (caller == v.guardian && 1 <= reason_len <= 512),
        caller != v.guardian ==> cancel_refusal(v, caller, reason_len) == Some(RatifyTimelockError::NotGuardian),
        caller == v.guardian && reason_len == 0 ==> cancel_refusal(v, caller, reason_len) == Some(
            RatifyTimelockError::ReasonRequired,
        ),
        caller == v.guardian && reason_len > 512 ==> cancel_refusal(v, caller, reason_len) == Some(
            RatifyTimelockError::ReasonTooLong,
        ),
{
}

impl RatifyTimelock {
    /// Binds a timelock to its governor and guardian and sets the delay,
    /// which may not be zero. The governor cannot be changed afterwards.
    pub fn new(governor: AccountId, guardian: AccountId, min_delay: u32) -> (r: Result<
        Self,
        RatifyTimelockError,
    >)
        ensures
            r is Ok <==> min_delay > 0,
            r matches Err(e) ==> e == RatifyTimelockError::DelayCannotBeZero,
            r matches Ok(t) ==> t@ == (TimelockView { governor, guardian, min_delay }),
    {
        if min_delay == 0 {
            return Err(RatifyTimelockError::DelayCannotBeZero);
        }
        Ok(RatifyTimelock { governor, guardian, min_delay })
    }

    /// Returns the governor, the only address that may schedule.
    pub fn governor(&self) -> (a: AccountId)
        ensures
            a == self@.governor,
    {
        self.governor
    }

    /// Returns the guardian, the only address that may cancel.
    pub fn guardian(&self) -> (a: AccountId)
        ensures
            a == self@.guardian,
    {
        self.guardian
    }

    /// Returns the least number of ledgers an operation waits.
    pub fn min_delay(&self) -> (d: u32)
        ensures
            d == self@.min_delay,
    {
        self.min_delay
    }

    /// Decides whether `proposer` may schedule: only the governor may.
    pub fn schedule(&self, proposer: AccountId) -> (r: Result<(), RatifyTimelockError>)
        ensures
            r is Ok <==> proposer == self@.governor,
            r matches Err(e) ==> e == RatifyTimelockError::NotGovernor,
    {
        if proposer != self.governor {
            return Err(RatifyTimelockError::NotGovernor);
        }
        Ok(())
    }

    /// Decides whether `guardian` may cancel a waiting operation with a
    /// reason of `reason_len` bytes. The reason is required: a brake that can
    /// be pulled silently is a brake nobody can be held to account for.
    pub fn cancel_with_reason(&self, guardian: AccountId, reason_len: u32) -> (r: Result<
        (),
        RatifyTimelockError,
    >)
        ensures
            r is Ok <==> cancel_refusal(self@, guardian, reason_len) is None,
            r matches Err(e) ==> cancel_refusal(self@, guardian, reason_len) == Some(e),
    {
        if guardian != self.guardian {
            return Err(RatifyTimelockError::NotGuardian);
        }
        if reason_len == 0 {
            return Err(RatifyTimelockError::ReasonRequired);
        }
        if reason_len > MAX_REASON_LENGTH {
            return Err(RatifyTimelockError::ReasonTooLong);
        }
        Ok(())
    }

    /// The standard interface's reasonless cancel. Always refused, which is
    /// what keeps the reason from being optional.
    pub fn cancel(&self, canceller: AccountId) -> (r: Result<(), RatifyTimelockError>)
        ensures
            r == Err::<(), RatifyTimelockError>(RatifyTimelockError::ReasonRequired),
    {
        Err(RatifyTimelockError::ReasonRequired)
    }

    /// The standard interface's immediate delay change. Always refused: a
    /// change of delay is scheduled and serves the current delay first.
    pub fn update_delay(&self, new_delay: u32, operator: AccountId) -> (r: Result<
        (),
        RatifyTimelockError,
    >)
        ensures
            r == Err::<(), RatifyTimelockError>(RatifyTimelockError::ScheduleThroughTimelock),
    {
        Err(RatifyTimelockError::ScheduleThroughTimelock)
    }

    /// Applies a scheduled change to the minimum delay once the change itself
    /// has been executed. The delay can never become zero. Operations already
    /// waiting keep the delay they were scheduled under.
    pub fn execute_delay_update(&mut self, new_delay: u32) -> (r: Result<
        DelayUpdated,
        RatifyTimelockError,
    >)
        ensures
            r is Ok <==> new_delay > 0,
            r matches Err(e) ==> e == RatifyTimelockError::DelayCannotBeZero,
            r is Err ==> final(self)@ == old(self)@,
            r matches Ok(u) ==> u == (DelayUpdated { old_delay: old(self)@.min_delay, new_delay }),
            r is Ok ==> final(self)@ == (TimelockView { min_delay: new_delay, ..old(self)@ }),
    {
        if new_delay == 0 {
            return Err(RatifyTimelockError::DelayCannotBeZero);
        }
        let old_delay = self.min_delay;
        self.min_delay = new_delay;
        Ok(DelayUpdated { old_delay, new_delay })
    }

    /// Applies a scheduled change of guardian once the change itself has been
    /// executed, returning the guardian replaced. Governance grants and
    /// revokes the role; the guardian cannot pass it on.
    pub fn execute_guardian_change(&mut self, new_guardian: AccountId) -> (old_guardian: AccountId)
        ensures
            old_guardian == old(self)@.guardian,
            final(self)@ == (TimelockView { guardian: new_guardian, ..old(self)@ }),
    {
        let old_guardian = self.guardian;
        self.guardian = new_guardian;
        old_guardian
    }
}

} // verus!
