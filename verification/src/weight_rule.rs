//! One question: how much is an account's vote worth at a point in time.
//!
//! A community picks its model when it is created, and the model cannot be
//! changed afterwards.
//!
//! * **One token one vote.** Weight is the membership tokens whose live grant
//!   answers to the account.
//! * **One member one vote.** Weight is the number of members whose live grant
//!   answers to the account, however many tokens each holds.
//! * **Time weighted.** Weight grows in steps with how long the account has
//!   been a member without a break, up to a ceiling the community sets.
//!
//! The governor reads weight through this rule instead of the membership
//! itself, so neither needs to know which model is in force.

use vstd::prelude::*;

use crate::membership::{lemma_readings_bounded, MembershipView, RatifyMembership, MAX_POWER};
use crate::AccountId;

verus! {

/// The number of steps of tenure a time weighted community may grant, at
/// most. Without a ceiling the earliest members would eventually outvote
/// everyone who came after them.
pub const MAX_TENURE_STEPS: u32 = 20;

/// How a community counts a vote.
#[derive(Clone, Copy, Debug, PartialEq, Eq, Structural)]
pub enum WeightModel {
    /// Weight is the membership tokens whose live grant answers to you.
    OneTokenOneVote,
    /// Weight is the number of members whose live grant answers to you.
    OneMemberOneVote,
    /// Weight grows in steps with unbroken membership, to a ceiling.
    TimeWeighted,
}

/// How fast time weighted power grows, and where it stops: one extra
/// multiple of an account's power for every `step_ledgers` it has been a
/// member, up to `max_steps` of them.
#[derive(Clone, Copy, Debug, PartialEq, Eq, Structural)]
pub struct TenureSchedule {
    pub step_ledgers: u32,
    pub max_steps: u32,
}

/// Why the weight rule refused a call.
#[derive(Clone, Copy, Debug, PartialEq, Eq, Structural)]
pub enum WeightRuleError {
    /// The rule has no membership contract or no model.
    NotConfigured,
    /// The model's parameters are missing or cannot be used.
    InvalidModel,
    /// Grants are made on the membership contract, where terms live.
    DelegateOnMembership,
}

impl WeightRuleError {
    /// The number the error is reported under.
    pub fn code(&self) -> (c: u32)
        ensures
            c == match *self {
                WeightRuleError::NotConfigured => 1u32,
                WeightRuleError::InvalidModel => 2,
                WeightRuleError::DelegateOnMembership => 3,
            },
    {
        match *self {
            WeightRuleError::NotConfigured => 1,
            WeightRuleError::InvalidModel => 2,
            WeightRuleError::DelegateOnMembership => 3,
        }
    }
}

/// A schedule a time weighted community can run on.
pub open spec fn schedule_ok(t: TenureSchedule) -> bool {
    t.step_ledgers > 0 && t.max_steps > 0 && t.max_steps <= MAX_TENURE_STEPS
}

/// The steps of tenure earned by `tenure` ledgers of membership.
pub open spec fn steps_of(t: TenureSchedule, tenure: u32) -> int {
    if tenure / t.step_ledgers < t.max_steps {
        (tenure / t.step_ledgers) as int
    } else {
        t.max_steps as int
    }
}

/// The weight of a vote under a model, given the power answering to the
/// account, the members answering to it, and its tenure, all at one ledger.
pub open spec fn weight_of(
    model: WeightModel,
    tenure_schedule: Option<TenureSchedule>,
    votes: u128,
    heads: u128,
    tenure: u32,
) -> int {
    match model {
        WeightModel::OneTokenOneVote => votes as int,
        WeightModel::OneMemberOneVote => heads as int,
        WeightModel::TimeWeighted => if votes == 0 {
            0
        } else {
            votes * (1 + steps_of(tenure_schedule.unwrap(), tenure))
        },
    }
}

/// The total a quorum is measured against: a head count under one member one
/// vote, and live power under the other two.
pub open spec fn total_of(model: WeightModel, live_total: u128, live_heads: u128) -> u128 {
    match model {
        WeightModel::OneMemberOneVote => live_heads,
        _ => live_total,
    }
}

/// A vote weighing rule over one membership.
pub struct RatifyWeightRule {
    membership: AccountId,
    model: WeightModel,
    tenure: Option<TenureSchedule>,
}

/// The rule as its contracts speak of it.
pub struct RuleView {
    /// The membership the rule reads.
    pub membership: AccountId,
    /// The model in force.
    pub model: WeightModel,
    /// The tenure schedule, kept only under time weighting.
    pub tenure: Option<TenureSchedule>,
}

impl RuleView {
    /// The rule is usable: a time weighted rule has a usable schedule, and no
    /// other rule keeps one.
    pub open spec fn wf(self) -> bool {
        if self.model == WeightModel::TimeWeighted {
            self.tenure matches Some(t) && schedule_ok(t)
        } else {
            self.tenure is None
        }
    }
}

impl View for RatifyWeightRule {
    type V = RuleView;

    closed spec fn view(&self) -> RuleView {
        RuleView { membership: self.membership, model: self.model, tenure: self.tenure }
    }
}

impl RatifyWeightRule {

    /// Fixes a community's voting model. A time weighted model needs a
    /// schedule with a step of some ledgers and between one and
    /// `MAX_TENURE_STEPS` steps; the schedule is kept only under time
    /// weighting.
    pub fn new(membership: AccountId, model: WeightModel, tenure: Option<TenureSchedule>) -> (r: Result<
        Self,
        WeightRuleError,
    >)
        ensures
            r is Ok <==> (model != WeightModel::TimeWeighted || (tenure matches Some(t) && schedule_ok(t))),
            r matches Err(e) ==> e == WeightRuleError::InvalidModel,
            r matches Ok(rule) ==> {
                &&& rule@.wf()
                &&& rule@.membership == membership
                &&& rule@.model == model
                &&& rule@.tenure == (if model == WeightModel::TimeWeighted {
                    tenure
                } else {
                    None
                })
            },
    {
        let kept = match model {
            WeightModel::TimeWeighted => {
                let schedule = match tenure {
                    Some(t) => t,
                    None => {
                        return Err(WeightRuleError::InvalidModel);
                    },
                };
                if schedule.step_ledgers == 0 || schedule.max_steps == 0 || schedule.max_steps
                    > MAX_TENURE_STEPS {
                    return Err(WeightRuleError::InvalidModel);
                }
                Some(schedule)
            },
            _ => None,
        };
        Ok(RatifyWeightRule { membership, model, tenure: kept })
    }

    /// Returns the tenure schedule, if the community is time weighted.
    pub fn tenure_schedule(&self) -> (t: Option<TenureSchedule>)
        ensures
            t == self@.tenure,
    {
        self.tenure
    }

    /// Returns the membership this rule reads.
    pub fn membership(&self) -> (a: AccountId)
        ensures
            a == self@.membership,
    {
        self.membership
    }

    /// Returns the model in force.
    pub fn model(&self) -> (m: WeightModel)
        ensures
            m == self@.model,
    {
        self.model
    }

    /// Returns the weight of a vote from the membership's readings for the
    /// account at one ledger: its power, the members answering to it, and its
    /// tenure.
    pub fn weight_from(&self, votes: u128, heads: u128, tenure: u32) -> (w: u128)
        requires
            self@.wf(),
            weight_of(self@.model, self@.tenure, votes, heads, tenure) <= u128::MAX,
        ensures
            w == weight_of(self@.model, self@.tenure, votes, heads, tenure),
    {
        match self.model {
            WeightModel::OneTokenOneVote => votes,
            WeightModel::OneMemberOneVote => heads,
            WeightModel::TimeWeighted => {
                if votes == 0 {
                    return 0;
                }
                let schedule = match self.tenure {
                    Some(t) => t,
                    None => {
                        return 0;
                    },
                };
                let earned = tenure / schedule.step_ledgers;
                let steps = if earned < schedule.max_steps {
                    earned
                } else {
                    schedule.max_steps
                };
                votes * (1 + steps as u128)
            },
        }
    }

    /// Returns the weight of an account's vote at a ledger, read from the
    /// membership.
    pub fn weight_at(&self, membership: &RatifyMembership, account: AccountId, ledger: u32) -> (w: u128)
        requires
            self@.wf(),
            membership@.wf(),
        ensures
            w == weight_of(
                self@.model,
                self@.tenure,
                membership@.votes_at(account, ledger),
                membership@.heads_at(account, ledger),
                tenure_of(membership@, account, ledger),
            ),
    {
        let votes = membership.votes_at(account, ledger);
        let heads = membership.heads_at(account, ledger);
        let tenure = membership.tenure_at(account, ledger);
        proof {
            lemma_readings_bounded(membership@, account, ledger);
            if self@.model == WeightModel::TimeWeighted && votes > 0 {
                let t = self@.tenure.unwrap();
                lemma_time_weighting_is_bounded(t, votes, heads, tenure);
                assert(votes * (1 + t.max_steps) <= MAX_POWER * 21) by (nonlinear_arith)
                    requires
                        votes <= MAX_POWER,
                        t.max_steps <= 20,
                ;
            }
        }
        self.weight_from(votes, heads, tenure)
    }

    /// Returns the community's total live weight from the membership's
    /// readings at one ledger: its live power and its live head count. This
    /// is the denominator a quorum is measured against, counted the same way
    /// as a vote; under time weighting it is live power without any tenure
    /// multiplier.
    pub fn total_from(&self, live_total: u128, live_heads: u128) -> (t: u128)
        ensures
            t == total_of(self@.model, live_total, live_heads),
    {
        match self.model {
            WeightModel::OneMemberOneVote => live_heads,
            _ => live_total,
        }
    }

    /// Returns the community's total live weight at a ledger, read from the
    /// membership.
    pub fn total_weight_at(&self, membership: &RatifyMembership, ledger: u32) -> (t: u128)
        requires
            membership@.wf(),
        ensures
            t == total_of(
                self@.model,
                membership@.live_total_at(ledger),
                membership@.live_heads_at(ledger),
            ),
    {
        let live_total = membership.live_total_at(ledger);
        let live_heads = membership.live_heads_at(ledger);
        self.total_from(live_total, live_heads)
    }

    /// Returns who an account's power answers to, read from its grant on the
    /// membership.
    pub fn get_delegate(&self, membership: &RatifyMembership, account: AccountId) -> (d: Option<AccountId>)
        requires
            membership@.wf(),
        ensures
            d == (match membership@.grant_of(account) {
                Some(g) => Some(g.delegatee),
                None => None,
            }),
    {
        match membership.grant(account) {
            Some(grant) => Some(grant.delegatee),
            None => None,
        }
    }

    /// Delegating here always fails: a grant carries a term, so it is made on
    /// the membership, where the term lives.
    pub fn delegate(&self, account: AccountId, delegatee: AccountId) -> (r: Result<(), WeightRuleError>)
        ensures
            r == Err::<(), WeightRuleError>(WeightRuleError::DelegateOnMembership),
    {
        Err(WeightRuleError::DelegateOnMembership)
    }
}

/// Ledgers of unbroken membership, measured at `ledger`; zero for an account
/// that was not a member then.
pub open spec fn tenure_of(v: MembershipView, account: AccountId, ledger: u32) -> u32 {
    if v.member_since.contains_key(account) && v.member_since[account] <= ledger {
        (ledger - v.member_since[account]) as u32
    } else {
        0
    }
}

// ################## LAWS ##################

/// Tenure only multiplies power: an account with no power has no weight under
/// time weighting however long it has been a member, and no account's weight
/// exceeds its power times one more than the ceiling of steps.
pub proof fn lemma_time_weighting_is_bounded(
    t: TenureSchedule,
    votes: u128,
    heads: u128,
    tenure: u32,
)
    requires
        schedule_ok(t),
    ensures
        votes == 0 ==> weight_of(WeightModel::TimeWeighted, Some(t), votes, heads, tenure) == 0,
        votes <= weight_of(WeightModel::TimeWeighted, Some(t), votes, heads, tenure),
        weight_of(WeightModel::TimeWeighted, Some(t), votes, heads, tenure) <= votes * (1
            + t.max_steps),
{
    let s = steps_of(t, tenure);
    assert(0 <= s <= t.max_steps);
    assert(votes <= votes * (1 + s)) by (nonlinear_arith)
        requires
            0 <= s,
    ;
    assert(votes * (1 + s) <= votes * (1 + t.max_steps)) by (nonlinear_arith)
        requires
            s <= t.max_steps,
    ;
}

/// Each full step of tenure adds the account's power once more, up to the
/// ceiling: with `k` full steps behind it and fewer than the ceiling, an
/// account with power weighs its power times `k + 1`; before the first step
/// it weighs just its power; past the ceiling it weighs its power times one
/// more than the ceiling.
pub proof fn lemma_each_step_of_tenure_counts_once(
    t: TenureSchedule,
    votes: u128,
    heads: u128,
    tenure: u32,
    k: nat,
)
    requires
        schedule_ok(t),
        votes > 0,
    ensures
        k < t.max_steps && k * t.step_ledgers <= tenure < (k + 1) * t.step_ledgers ==> weight_of(
            WeightModel::TimeWeighted,
            Some(t),
            votes,
            heads,
            tenure,
        ) == votes * (k + 1),
        tenure < t.step_ledgers ==> weight_of(WeightModel::TimeWeighted, Some(t), votes, heads, tenure)
            == votes,
        tenure >= t.max_steps * t.step_ledgers ==> weight_of(
            WeightModel::TimeWeighted,
            Some(t),
            votes,
            heads,
            tenure,
        ) == votes * (1 + t.max_steps),
{
    let q = tenure / t.step_ledgers;
    assert(k * t.step_ledgers <= tenure < (k + 1) * t.step_ledgers ==> q == k) by (nonlinear_arith)
        requires
            t.step_ledgers > 0,
            q == tenure / t.step_ledgers,
    ;
    assert(tenure < t.step_ledgers ==> q == 0) by (nonlinear_arith)
        requires
            t.step_ledgers > 0,
            q == tenure / t.step_ledgers,
    ;
    assert(tenure >= t.max_steps * t.step_ledgers ==> q >= t.max_steps) by (nonlinear_arith)
        requires
            t.step_ledgers > 0,
            q == tenure / t.step_ledgers,
    ;
}

/// Weight grows with tenure: at the same power, a longer unbroken membership
/// never weighs less.
pub proof fn lemma_time_weighting_grows_with_tenure(
    t: TenureSchedule,
    votes: u128,
    heads: u128,
    shorter: u32,
    longer: u32,
)
    requires
        schedule_ok(t),
        shorter <= longer,
    ensures
        weight_of(WeightModel::TimeWeighted, Some(t), votes, heads, shorter) <= weight_of(
            WeightModel::TimeWeighted,
            Some(t),
            votes,
            heads,
            longer,
        ),
{
    assert(shorter / t.step_ledgers <= longer / t.step_ledgers) by (nonlinear_arith)
        requires
            shorter <= longer,
            t.step_ledgers > 0,
    ;
    let a = steps_of(t, shorter);
    let b = steps_of(t, longer);
    assert(a <= b);
    assert(votes * (1 + a) <= votes * (1 + b)) by (nonlinear_arith)
        requires
            a <= b,
    ;
}

/// A vote is weighed as things stood at the snapshot: once a ledger has
/// passed, nothing done to the membership changes what an account's vote at
/// it was worth, or the total a quorum at it is measured against. Under time
/// weighting this holds while the account's membership start is unchanged;
/// a member who left and came back has their tenure counted from the return.
pub proof fn lemma_weight_at_a_past_ledger_is_fixed(
    rule: RuleView,
    before: MembershipView,
    after: MembershipView,
    now: u32,
    account: AccountId,
    ledger: u32,
)
    requires
        rule.wf(),
        before.keeps_past(after, now),
        ledger < now,
        rule.model == WeightModel::TimeWeighted ==> tenure_of(before, account, ledger) == tenure_of(
            after,
            account,
            ledger,
        ),
    ensures
        weight_of(
            rule.model,
            rule.tenure,
            after.votes_at(account, ledger),
            after.heads_at(account, ledger),
            tenure_of(after, account, ledger),
        ) == weight_of(
            rule.model,
            rule.tenure,
            before.votes_at(account, ledger),
            before.heads_at(account, ledger),
            tenure_of(before, account, ledger),
        ),
        total_of(rule.model, after.live_total_at(ledger), after.live_heads_at(ledger)) == total_of(
            rule.model,
            before.live_total_at(ledger),
            before.live_heads_at(ledger),
        ),
{
    assert(after.votes_at(account, ledger) == before.votes_at(account, ledger));
    assert(after.heads_at(account, ledger) == before.heads_at(account, ledger));
    assert(after.live_total_at(ledger) == before.live_total_at(ledger));
    assert(after.live_heads_at(ledger) == before.live_heads_at(ledger));
}

} // verus!
