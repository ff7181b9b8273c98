//! A community treasury that pays out only on instruction from its timelock,
//! inside a policy that governance itself sets.
//!
//! Policy covers four things:
//!
//! * which assets may leave, expressed as the set of assets that have a policy
//! * the largest amount a single payment may move
//! * the largest total that may leave inside a rolling window of ledgers
//! * an optional allowlist of destinations
//!
//! The only privileged address is the timelock, fixed when the treasury is
//! created. Moving the funds themselves is the token contract's work; this
//! module decides whether a payment may happen and keeps the record of it.

use vstd::prelude::*;
use vstd::hash_map::HashMapWithView;
use vstd::hash_set::HashSetWithView;

use crate::{AccountId, Hash32};

verus! {

broadcast use vstd::std_specs::hash::group_hash_axioms;

/// The most payments an asset may have inside one rolling window.
///
/// The window is measured by walking the payments still inside it, so it has
/// to be bounded. A community that hits this should widen the window rather
/// than have the treasury silently forget the earlier payments.
pub const MAX_WINDOW_ENTRIES: u32 = 100;

/// The spending policy for a single asset.
///
/// An asset with no policy cannot leave the treasury at all. Every field is a
/// ceiling enforced at payment time, regardless of what the vote said.
#[derive(Clone, Copy, Debug, PartialEq, Eq, Structural)]
pub struct AssetPolicy {
    /// The largest amount a single proposal may move.
    pub per_payment_cap: i128,
    /// The largest total that may leave within `window_ledgers`.
    pub window_cap: i128,
    /// The length of the rolling window, in ledgers. A payment counts against
    /// the window cap for exactly this many ledgers, then ages out.
    pub window_ledgers: u32,
}

/// The record of governance turning destination restriction on or off.
#[derive(Clone, Copy, Debug, PartialEq, Eq, Structural)]
pub struct DestinationRestrictionSet {
    pub restricted: bool,
}

/// A payment that has left the treasury, kept so every outflow can be shown
/// against the proposal that authorised it.
#[derive(Clone, Copy, Debug, PartialEq, Eq)]
pub struct Outflow {
    pub asset: AccountId,
    pub to: AccountId,
    pub amount: i128,
    pub ledger: u32,
    /// The governor proposal that authorised this payment.
    pub proposal_id: Hash32,
}

/// Why the treasury refused an instruction.
#[derive(Clone, Copy, Debug, PartialEq, Eq, Structural)]
pub enum TreasuryError {
    /// The treasury has not been given a timelock address.
    TimelockNotSet,
    /// The asset has no policy, so it cannot leave the treasury.
    AssetNotAllowed,
    /// The payment exceeds the per-payment cap for this asset.
    OverPerPaymentCap,
    /// The payment would exceed the rolling window cap for this asset.
    OverWindowCap,
    /// Destinations are restricted and this one is not on the allowlist.
    DestinationNotAllowed,
    /// The amount is zero or negative.
    InvalidAmount,
    /// A policy field is not usable (a non-positive cap, or a zero window).
    InvalidPolicy,
    /// Too many payments against one asset inside the window to track.
    WindowFull,
    /// The requested outflow index does not exist.
    OutflowNotFound,
    /// The instruction did not come from the timelock.
    NotTimelock,
}

impl TreasuryError {
    /// The number the error is reported under.
    pub fn code(&self) -> (c: u32)
        ensures
            c == match *self {
                TreasuryError::TimelockNotSet => 1u32,
                TreasuryError::AssetNotAllowed => 2,
                TreasuryError::OverPerPaymentCap => 3,
                TreasuryError::OverWindowCap => 4,
                TreasuryError::DestinationNotAllowed => 5,
                TreasuryError::InvalidAmount => 6,
                TreasuryError::InvalidPolicy => 7,
                TreasuryError::WindowFull => 8,
                TreasuryError::OutflowNotFound => 9,
                TreasuryError::NotTimelock => 10,
            },
    {
        match *self {
            TreasuryError::TimelockNotSet => 1,
            TreasuryError::AssetNotAllowed => 2,
            TreasuryError::OverPerPaymentCap => 3,
            TreasuryError::OverWindowCap => 4,
            TreasuryError::DestinationNotAllowed => 5,
            TreasuryError::InvalidAmount => 6,
            TreasuryError::InvalidPolicy => 7,
            TreasuryError::WindowFull => 8,
            TreasuryError::OutflowNotFound => 9,
            TreasuryError::NotTimelock => 10,
        }
    }
}

// ################## THE ROLLING WINDOW ##################

/// The ledger at or before which a payment has aged out of the window.
pub open spec fn window_cutoff(now: u32, window_ledgers: u32) -> int {
    if now >= window_ledgers {
        now - window_ledgers
    } else {
        0
    }
}

/// Whether a recorded payment still counts against the window at `now`.
pub open spec fn in_window(entry: (u32, i128), now: u32, window_ledgers: u32) -> bool {
    entry.0 > window_cutoff(now, window_ledgers)
}

/// The sum of the amounts of the entries.
pub open spec fn window_total(s: Seq<(u32, i128)>) -> int
    decreases s.len(),
{
    if s.len() == 0 {
        0
    } else {
        window_total(s.drop_last()) + s.last().1
    }
}

/// The entries still inside the window at `now`, in the order they were made.
pub open spec fn still_in_window(s: Seq<(u32, i128)>, now: u32, window_ledgers: u32) -> Seq<(u32, i128)>
    decreases s.len(),
{
    if s.len() == 0 {
        Seq::empty()
    } else {
        let rest = still_in_window(s.drop_last(), now, window_ledgers);
        if in_window(s.last(), now, window_ledgers) {
            rest.push(s.last())
        } else {
            rest
        }
    }
}

/// What has been paid out of an asset inside the window at `now`.
pub open spec fn spent_in_window(s: Seq<(u32, i128)>, now: u32, window_ledgers: u32) -> int {
    window_total(still_in_window(s, now, window_ledgers))
}

/// A window record is usable when every entry moved something and the entries
/// together fit in an `i128`. Every record this module writes is usable.
pub open spec fn window_ok(s: Seq<(u32, i128)>) -> bool {
    &&& forall|i: int| 0 <= i < s.len() ==> #[trigger] s[i].1 > 0
    &&& window_total(s) <= i128::MAX
}

proof fn lemma_take_step<A>(s: Seq<A>, i: int)
    requires
        0 <= i < s.len(),
    ensures
        s.take(i + 1).drop_last() == s.take(i),
        s.take(i + 1).last() == s[i],
{
    assert(s.take(i + 1).drop_last() =~= s.take(i));
}

/// The entries still in the window are a sub-collection of all of them: none
/// is new, there are no more of them, and they sum to no more.
proof fn lemma_still_in_window_within(s: Seq<(u32, i128)>, now: u32, w: u32)
    requires
        forall|i: int| 0 <= i < s.len() ==> #[trigger] s[i].1 > 0,
    ensures
        still_in_window(s, now, w).len() <= s.len(),
        window_total(still_in_window(s, now, w)) <= window_total(s),
        forall|i: int| 0 <= i < still_in_window(s, now, w).len() ==> #[trigger] still_in_window(s, now, w)[i].1 > 0,
    decreases s.len(),
{
    if s.len() > 0 {
        let t = s.drop_last();
        assert forall|i: int| 0 <= i < t.len() implies #[trigger] t[i].1 > 0 by {
            assert(t[i] == s[i]);
        }
        lemma_still_in_window_within(t, now, w);
        let r = still_in_window(t, now, w);
        if in_window(s.last(), now, w) {
            assert(r.push(s.last()).drop_last() == r);
            assert forall|i: int| 0 <= i < r.push(s.last()).len() implies #[trigger] r.push(s.last())[i].1 > 0 by {
                if i < r.len() {
                    assert(r.push(s.last())[i] == r[i]);
                }
            }
        }
    }
}

/// Taking a prefix never increases the total of positive amounts.
proof fn lemma_prefix_total(s: Seq<(u32, i128)>, i: int)
    requires
        0 <= i <= s.len(),
        forall|k: int| 0 <= k < s.len() ==> #[trigger] s[k].1 > 0,
    ensures
        window_total(s.take(i)) <= window_total(s),
    decreases s.len() - i,
{
    if i < s.len() {
        lemma_prefix_total(s, i + 1);
        lemma_take_step(s, i);
    } else {
        assert(s.take(i) =~= s);
    }
}

/// A usable record stays usable when only the entries still in the window are
/// kept.
proof fn lemma_still_in_window_ok(s: Seq<(u32, i128)>, now: u32, w: u32)
    requires
        window_ok(s),
    ensures
        window_ok(still_in_window(s, now, w)),
        still_in_window(s, now, w).len() <= s.len(),
{
    lemma_still_in_window_within(s, now, w);
}

/// Sums the entries that are still inside the window at `now`.
pub fn sum_window(entries: &Vec<(u32, i128)>, window_ledgers: u32, now: u32) -> (total: i128)
    requires
        window_ok(entries@),
    ensures
        total == spent_in_window(entries@, now, window_ledgers),
        0 <= total,
{
    let ghost s = entries@;
    let cutoff = now.saturating_sub(window_ledgers);
    let mut total: i128 = 0;
    let mut i: usize = 0;
    while i < entries.len()
        invariant
            s == entries@,
            window_ok(s),
            0 <= i <= s.len(),
            cutoff == window_cutoff(now, window_ledgers),
            total == spent_in_window(s.take(i as int), now, window_ledgers),
            total <= window_total(s.take(i as int)),
            0 <= total,
        decreases s.len() - i,
    {
        proof {
            lemma_take_step(s, i as int);
            lemma_prefix_total(s, i as int + 1);
            let p = s.take(i as int + 1);
            assert forall|k: int| 0 <= k < p.len() implies #[trigger] p[k].1 > 0 by {
                assert(p[k] == s[k]);
            }
            lemma_still_in_window_within(p, now, window_ledgers);
            let q = still_in_window(s.take(i as int), now, window_ledgers);
            assert(q.push(s[i as int]).drop_last() == q);
        }
        let (ledger, amount) = entries[i];
        if ledger > cutoff {
            total = total + amount;
        }
        i = i + 1;
    }
    proof {
        assert(s.take(s.len() as int) =~= s);
    }
    total
}

/// Sums every entry of a window record.
pub fn total_of(entries: &Vec<(u32, i128)>) -> (total: i128)
    requires
        window_ok(entries@),
    ensures
        total == window_total(entries@),
        0 <= total,
{
    let ghost s = entries@;
    let mut total: i128 = 0;
    let mut i: usize = 0;
    while i < entries.len()
        invariant
            s == entries@,
            window_ok(s),
            0 <= i <= s.len(),
            total == window_total(s.take(i as int)),
            0 <= total,
        decreases s.len() - i,
    {
        proof {
            lemma_take_step(s, i as int);
            lemma_prefix_total(s, i as int + 1);
        }
        total = total + entries[i].1;
        i = i + 1;
    }
    proof {
        assert(s.take(s.len() as int) =~= s);
    }
    total
}

/// Drops the entries that have aged out of the window and returns the rest.
pub fn prune_window(entries: &Vec<(u32, i128)>, window_ledgers: u32, now: u32) -> (kept: Vec<(u32, i128)>)
    ensures
        kept@ == still_in_window(entries@, now, window_ledgers),
{
    let ghost s = entries@;
    let cutoff = now.saturating_sub(window_ledgers);
    let mut kept: Vec<(u32, i128)> = Vec::new();
    let mut i: usize = 0;
    while i < entries.len()
        invariant
            s == entries@,
            0 <= i <= s.len(),
            cutoff == window_cutoff(now, window_ledgers),
            kept@ == still_in_window(s.take(i as int), now, window_ledgers),
        decreases s.len() - i,
    {
        proof {
            lemma_take_step(s, i as int);
        }
        let (ledger, amount) = entries[i];
        if ledger > cutoff {
            kept.push((ledger, amount));
        }
        i = i + 1;
    }
    proof {
        assert(s.take(s.len() as int) =~= s);
    }
    kept
}

// ################## DECISIONS ##################

/// Why a payment would be refused, in the order the checks are made, or
/// `None` when it would go through.
pub open spec fn payment_refusal(
    policy: Option<AssetPolicy>,
    destination_allowed: bool,
    window: Seq<(u32, i128)>,
    amount: i128,
    now: u32,
) -> Option<TreasuryError> {
    if amount <= 0 {
        Some(TreasuryError::InvalidAmount)
    } else if policy is None {
        Some(TreasuryError::AssetNotAllowed)
    } else if amount > policy.unwrap().per_payment_cap {
        Some(TreasuryError::OverPerPaymentCap)
    } else if !destination_allowed {
        Some(TreasuryError::DestinationNotAllowed)
    } else if spent_in_window(window, now, policy.unwrap().window_ledgers) + amount
        > policy.unwrap().window_cap {
        Some(TreasuryError::OverWindowCap)
    } else if still_in_window(window, now, policy.unwrap().window_ledgers).len() >= MAX_WINDOW_ENTRIES {
        Some(TreasuryError::WindowFull)
    } else {
        None
    }
}

/// The window record after a payment of `amount` at `now`: the entries still
/// inside the window, followed by the new one.
pub open spec fn window_after_payment(
    window: Seq<(u32, i128)>,
    window_ledgers: u32,
    amount: i128,
    now: u32,
) -> Seq<(u32, i128)> {
    still_in_window(window, now, window_ledgers).push((now, amount))
}

/// What the preview reports: whether a payment would be accepted right now.
pub open spec fn allowed_now(
    policy: Option<AssetPolicy>,
    destination_allowed: bool,
    window: Seq<(u32, i128)>,
    amount: i128,
    now: u32,
) -> bool {
    &&& amount > 0
    &&& policy is Some
    &&& amount <= policy.unwrap().per_payment_cap
    &&& destination_allowed
    &&& still_in_window(window, now, policy.unwrap().window_ledgers).len() < MAX_WINDOW_ENTRIES
    &&& spent_in_window(window, now, policy.unwrap().window_ledgers) + amount <= policy.unwrap().window_cap
}

/// A policy is usable when both caps are positive and the window has length.
pub open spec fn policy_ok(p: AssetPolicy) -> bool {
    p.per_payment_cap > 0 && p.window_cap > 0 && p.window_ledgers > 0
}

/// Checks a policy's fields and builds it.
pub fn validate_policy(per_payment_cap: i128, window_cap: i128, window_ledgers: u32) -> (r: Result<
    AssetPolicy,
    TreasuryError,
>)
    ensures
        r matches Ok(p) ==> p == (AssetPolicy { per_payment_cap, window_cap, window_ledgers }),
        r is Ok <==> (per_payment_cap > 0 && window_cap > 0 && window_ledgers > 0),
        r matches Err(e) ==> e == TreasuryError::InvalidPolicy,
{
    if per_payment_cap <= 0 || window_cap <= 0 || window_ledgers == 0 {
        return Err(TreasuryError::InvalidPolicy);
    }
    Ok(AssetPolicy { per_payment_cap, window_cap, window_ledgers })
}

/// Decides a payment against the asset's policy, whether the destination may
/// receive funds, and the asset's window record, returning the window record
/// to store when the payment may go ahead.
pub fn check_payment(
    policy: Option<AssetPolicy>,
    destination_allowed: bool,
    window: &Vec<(u32, i128)>,
    amount: i128,
    now: u32,
) -> (r: Result<Vec<(u32, i128)>, TreasuryError>)
    requires
        window_ok(window@),
    ensures
        r is Ok <==> payment_refusal(policy, destination_allowed, window@, amount, now) is None,
        r matches Err(e) ==> payment_refusal(policy, destination_allowed, window@, amount, now)
            == Some(e),
        r matches Ok(w) ==> w@ == window_after_payment(
            window@,
            policy.unwrap().window_ledgers,
            amount,
            now,
        ),
        r matches Ok(w) ==> window_ok(w@) && w@.len() <= MAX_WINDOW_ENTRIES,
{
    if amount <= 0 {
        return Err(TreasuryError::InvalidAmount);
    }
    let policy = match policy {
        Some(p) => p,
        None => {
            return Err(TreasuryError::AssetNotAllowed);
        },
    };
    if amount > policy.per_payment_cap {
        return Err(TreasuryError::OverPerPaymentCap);
    }
    if !destination_allowed {
        return Err(TreasuryError::DestinationNotAllowed);
    }
    let mut kept = prune_window(window, policy.window_ledgers, now);
    proof {
        lemma_still_in_window_ok(window@, now, policy.window_ledgers);
    }
    let spent = total_of(&kept);
    if spent > policy.window_cap || amount > policy.window_cap - spent {
        return Err(TreasuryError::OverWindowCap);
    }
    if kept.len() >= MAX_WINDOW_ENTRIES as usize {
        return Err(TreasuryError::WindowFull);
    }
    let ghost before = kept@;
    kept.push((now, amount));
    proof {
        assert(kept@.drop_last() == before);
        assert forall|i: int| 0 <= i < kept@.len() implies #[trigger] kept@[i].1 > 0 by {
            if i < before.len() {
                assert(kept@[i] == before[i]);
            }
        }
    }
    Ok(kept)
}

// ################## LAWS OF A SINGLE PAYMENT ##################

/// A payment the treasury accepts moves no more than the per-payment cap, and
/// leaves no more than the window cap counted inside the window.
pub proof fn lemma_payments_stay_inside_policy(
    policy: AssetPolicy,
    destination_allowed: bool,
    window: Seq<(u32, i128)>,
    amount: i128,
    now: u32,
)
    requires
        window_ok(window),
        payment_refusal(Some(policy), destination_allowed, window, amount, now) is None,
    ensures
        0 < amount <= policy.per_payment_cap,
        window_total(window_after_payment(window, policy.window_ledgers, amount, now))
            <= policy.window_cap,
        window_after_payment(window, policy.window_ledgers, amount, now).len()
            <= MAX_WINDOW_ENTRIES,
{
    let k = still_in_window(window, now, policy.window_ledgers);
    assert(k.push((now, amount)).drop_last() == k);
}

/// A payment counts against the window for exactly `window_ledgers` ledgers:
/// from the ledger it was made on until just before `window_ledgers` ledgers
/// later, and never again after that. (A payment on the very first ledger,
/// ledger zero, is the one exception: the window's cutoff never falls below
/// zero, so it is never counted.)
pub proof fn lemma_a_payment_counts_for_the_window(entry: (u32, i128), window_ledgers: u32, now: u32)
    requires
        window_ledgers > 0,
        entry.0 > 0,
        entry.0 as int + window_ledgers <= u32::MAX,
    ensures
        entry.0 <= now < entry.0 + window_ledgers ==> in_window(entry, now, window_ledgers),
        now >= entry.0 + window_ledgers ==> !in_window(entry, now, window_ledgers),
{
}

/// A run of payments never goes past the rolling cap: once a payment is
/// accepted, what the asset's window record counts stays within the window
/// cap at every ledger, and each further payment is checked against that
/// record again before it is made.
pub proof fn lemma_window_stays_within_cap(
    policy: AssetPolicy,
    destination_allowed: bool,
    window: Seq<(u32, i128)>,
    amount: i128,
    now: u32,
    later: u32,
)
    requires
        window_ok(window),
        payment_refusal(Some(policy), destination_allowed, window, amount, now) is None,
    ensures
        spent_in_window(
            window_after_payment(window, policy.window_ledgers, amount, now),
            later,
            policy.window_ledgers,
        ) <= policy.window_cap,
        window_ok(window_after_payment(window, policy.window_ledgers, amount, now)),
{
    lemma_payments_stay_inside_policy(policy, destination_allowed, window, amount, now);
    let k = still_in_window(window, now, policy.window_ledgers);
    let after = k.push((now, amount));
    lemma_still_in_window_ok(window, now, policy.window_ledgers);
    assert(after.drop_last() == k);
    assert forall|i: int| 0 <= i < after.len() implies #[trigger] after[i].1 > 0 by {
        if i < k.len() {
            assert(after[i] == k[i]);
        }
    }
    lemma_still_in_window_within(after, later, policy.window_ledgers);
}

/// The preview agrees with the payment: a payment is previewed as allowed
/// exactly when the treasury would accept it.
pub proof fn lemma_would_allow_agrees_with_pay(
    policy: Option<AssetPolicy>,
    destination_allowed: bool,
    window: Seq<(u32, i128)>,
    amount: i128,
    now: u32,
)
    requires
        window_ok(window),
    ensures
        allowed_now(policy, destination_allowed, window, amount, now) == (payment_refusal(
            policy,
            destination_allowed,
            window,
            amount,
            now,
        ) is None),
{
    if policy is Some {
        lemma_still_in_window_ok(window, now, policy.unwrap().window_ledgers);
    }
}

// ################## THE TREASURY ##################

/// The treasury's state as its contracts speak of it.
pub struct TreasuryView {
    /// The only address whose instructions the treasury obeys.
    pub timelock: AccountId,
    /// Whether payments are restricted to the destination allowlist.
    pub restrict_destinations: bool,
    /// The spending policy of each asset that may leave.
    pub policies: Map<AccountId, AssetPolicy>,
    /// The payments recorded against each asset inside its rolling window.
    pub windows: Map<AccountId, Seq<(u32, i128)>>,
    /// The destination allowlist.
    pub destinations: Set<AccountId>,
    /// Every payment ever made, oldest first.
    pub outflows: Seq<Outflow>,
}

impl TreasuryView {
    /// The invariant every treasury keeps: policies are usable, every window
    /// record is usable and bounded, and the outflows can be indexed by `u32`.
    pub open spec fn wf(self) -> bool {
        &&& forall|a: AccountId| #[trigger] self.policies.contains_key(a) ==> policy_ok(self.policies[a])
        &&& forall|a: AccountId| #[trigger] self.windows.contains_key(a) ==> window_ok(self.windows[a])
            && self.windows[a].len() <= MAX_WINDOW_ENTRIES
        &&& self.outflows.len() <= u32::MAX
    }

    /// The policy in force for an asset, if any.
    pub open spec fn policy_of(self, asset: AccountId) -> Option<AssetPolicy> {
        if self.policies.contains_key(asset) {
            Some(self.policies[asset])
        } else {
            None
        }
    }

    /// The payments recorded against an asset; none if it has no record.
    pub open spec fn window_of(self, asset: AccountId) -> Seq<(u32, i128)> {
        if self.windows.contains_key(asset) {
            self.windows[asset]
        } else {
            Seq::empty()
        }
    }

    /// Whether a destination may receive funds under the policy as it stands.
    pub open spec fn destination_allowed(self, destination: AccountId) -> bool {
        !self.restrict_destinations || self.destinations.contains(destination)
    }

    /// What has left an asset inside its window at `now`; zero for an asset
    /// with no policy.
    pub open spec fn spent(self, asset: AccountId, now: u32) -> int {
        match self.policy_of(asset) {
            Some(p) => spent_in_window(self.window_of(asset), now, p.window_ledgers),
            None => 0,
        }
    }

    /// How much of an asset may still leave inside its window at `now`.
    pub open spec fn headroom(self, asset: AccountId, now: u32) -> int {
        match self.policy_of(asset) {
            Some(p) => if self.spent(asset, now) >= p.window_cap {
                0
            } else {
                p.window_cap - self.spent(asset, now)
            },
            None => 0,
        }
    }
}

/// A per-community treasury bound to its timelock.
pub struct RatifyTreasury {
    timelock: AccountId,
    restrict_destinations: bool,
    policies: HashMapWithView<AccountId, AssetPolicy>,
    windows: HashMapWithView<AccountId, Vec<(u32, i128)>>,
    destinations: HashSetWithView<AccountId>,
    outflows: Vec<Outflow>,
}

impl View for RatifyTreasury {
    type V = TreasuryView;

    closed spec fn view(&self) -> TreasuryView {
        TreasuryView {
            timelock: self.timelock,
            restrict_destinations: self.restrict_destinations,
            policies: self.policies@,
            windows: self.windows@.map_values(|w: Vec<(u32, i128)>| w@),
            destinations: self.destinations@,
            outflows: self.outflows@,
        }
    }
}

impl RatifyTreasury {
    /// Binds a new treasury to its timelock. Nothing may leave it until
    /// governance sets a policy.
    pub fn new(timelock: AccountId) -> (t: Self)
        ensures
            t@.wf(),
            t@.timelock == timelock,
            !t@.restrict_destinations,
            t@.policies == Map::<AccountId, AssetPolicy>::empty(),
            t@.windows == Map::<AccountId, Seq<(u32, i128)>>::empty(),
            t@.destinations == Set::<AccountId>::empty(),
            t@.outflows == Seq::<Outflow>::empty(),
    {
        let t = RatifyTreasury {
            timelock,
            restrict_destinations: false,
            policies: HashMapWithView::new(),
            windows: HashMapWithView::new(),
            destinations: HashSetWithView::new(),
            outflows: Vec::new(),
        };
        assert(t@.windows =~= Map::<AccountId, Seq<(u32, i128)>>::empty());
        t
    }

    /// Returns the timelock this treasury obeys.
    pub fn timelock(&self) -> (a: AccountId)
        ensures
            a == self@.timelock,
    {
        self.timelock
    }

    /// Returns the policy in force for an asset, or `None` if the asset may
    /// not leave the treasury.
    pub fn policy(&self, asset: AccountId) -> (p: Option<AssetPolicy>)
        ensures
            p == self@.policy_of(asset),
    {
        match self.policies.get(&asset) {
            Some(p) => Some(*p),
            None => None,
        }
    }

    /// Returns whether payments are restricted to the destination allowlist.
    pub fn destinations_restricted(&self) -> (b: bool)
        ensures
            b == self@.restrict_destinations,
    {
        self.restrict_destinations
    }

    /// Returns whether a destination may receive funds under the policy as it
    /// currently stands.
    pub fn destination_allowed(&self, destination: AccountId) -> (b: bool)
        ensures
            b == self@.destination_allowed(destination),
    {
        if !self.restrict_destinations {
            return true;
        }
        self.destinations.contains(&destination)
    }

    /// Returns the payments recorded against an asset, without pruning.
    pub fn window_entries(&self, asset: AccountId) -> (w: Vec<(u32, i128)>)
        requires
            self@.wf(),
        ensures
            w@ == self@.window_of(asset),
            window_ok(w@),
    {
        match self.windows.get(&asset) {
            Some(w) => {
                let mut copy: Vec<(u32, i128)> = Vec::new();
                let mut i: usize = 0;
                while i < w.len()
                    invariant
                        0 <= i <= w@.len(),
                        copy@ == w@.take(i as int),
                    decreases w@.len() - i,
                {
                    copy.push(w[i]);
                    i = i + 1;
                    proof {
                        assert(copy@ =~= w@.take(i as int));
                    }
                }
                proof {
                    assert(w@.take(w@.len() as int) =~= w@);
                }
                copy
            },
            None => Vec::new(),
        }
    }

    /// Returns the total already paid out of an asset inside the window at
    /// `now`.
    pub fn window_spent(&self, asset: AccountId, now: u32) -> (spent: i128)
        requires
            self@.wf(),
        ensures
            spent == self@.spent(asset, now),
            spent >= 0,
    {
        match self.policy(asset) {
            Some(policy) => {
                let entries = self.window_entries(asset);
                sum_window(&entries, policy.window_ledgers, now)
            },
            None => 0,
        }
    }

    /// Returns how much of an asset may still leave inside the window at
    /// `now`, so a member cannot submit a proposal that could never execute.
    pub fn window_headroom(&self, asset: AccountId, now: u32) -> (room: i128)
        requires
            self@.wf(),
        ensures
            room == self@.headroom(asset, now),
    {
        match self.policy(asset) {
            Some(policy) => {
                let spent = self.window_spent(asset, now);
                proof {
                    assert(self@.policies.contains_key(asset));
                    assert(policy_ok(policy));
                    assert(spent >= 0);
                }
                if spent >= policy.window_cap {
                    0
                } else {
                    policy.window_cap - spent
                }
            },
            None => 0,
        }
    }

    /// Returns the number of payments the treasury has ever made.
    pub fn outflow_count(&self) -> (n: u32)
        requires
            self@.wf(),
        ensures
            n == self@.outflows.len(),
    {
        self.outflows.len() as u32
    }

    /// Returns a single payment by index, oldest first.
    pub fn outflow(&self, index: u32) -> (r: Result<Outflow, TreasuryError>)
        ensures
            index < self@.outflows.len() ==> r == Ok::<Outflow, TreasuryError>(
                self@.outflows[index as int],
            ),
            index >= self@.outflows.len() ==> r == Err::<Outflow, TreasuryError>(
                TreasuryError::OutflowNotFound,
            ),
    {
        if (index as usize) < self.outflows.len() {
            Ok(self.outflows[index as usize])
        } else {
            Err(TreasuryError::OutflowNotFound)
        }
    }

    /// Reports whether a payment would be accepted at `now`, without making
    /// it.
    pub fn would_allow(&self, asset: AccountId, to: AccountId, amount: i128, now: u32) -> (b: bool)
        requires
            self@.wf(),
        ensures
            b == allowed_now(
                self@.policy_of(asset),
                self@.destination_allowed(to),
                self@.window_of(asset),
                amount,
                now,
            ),
            b == (payment_refusal(
                self@.policy_of(asset),
                self@.destination_allowed(to),
                self@.window_of(asset),
                amount,
                now,
            ) is None),
    {
        proof {
            lemma_would_allow_agrees_with_pay(
                self@.policy_of(asset),
                self@.destination_allowed(to),
                self@.window_of(asset),
                amount,
                now,
            );
        }
        if amount <= 0 {
            return false;
        }
        let policy = match self.policy(asset) {
            Some(policy) => policy,
            None => {
                return false;
            },
        };
        if amount > policy.per_payment_cap {
            return false;
        }
        if !self.destination_allowed(to) {
            return false;
        }
        let entries = self.window_entries(asset);
        let kept = prune_window(&entries, policy.window_ledgers, now);
        proof {
            lemma_still_in_window_ok(entries@, now, policy.window_ledgers);
        }
        if kept.len() >= MAX_WINDOW_ENTRIES as usize {
            return false;
        }
        total_of(&kept) <= policy.window_cap - amount
    }

    /// Accepts funds into the treasury: anyone may fund it, with any positive
    /// amount.
    pub fn deposit(&self, amount: i128) -> (r: Result<(), TreasuryError>)
        ensures
            r is Ok <==> amount > 0,
            r matches Err(e) ==> e == TreasuryError::InvalidAmount,
    {
        if amount <= 0 {
            return Err(TreasuryError::InvalidAmount);
        }
        Ok(())
    }

    /// Pays out of the treasury on the timelock's instruction, returning the
    /// payment's index in the record.
    ///
    /// Every policy limit is checked here rather than at the vote, so a
    /// proposal that breaches one cannot be paid however it was voted on. A
    /// refused payment changes nothing.
    pub fn pay(
        &mut self,
        caller: AccountId,
        asset: AccountId,
        to: AccountId,
        amount: i128,
        proposal_id: Hash32,
        now: u32,
    ) -> (r: Result<u32, TreasuryError>)
        requires
            old(self)@.wf(),
            old(self)@.outflows.len() < u32::MAX,
        ensures
            final(self)@.wf(),
            r is Err ==> final(self)@ == old(self)@,
            caller != old(self)@.timelock ==> r == Err::<u32, TreasuryError>(
                TreasuryError::NotTimelock,
            ),
            caller == old(self)@.timelock ==> match payment_refusal(
                old(self)@.policy_of(asset),
                old(self)@.destination_allowed(to),
                old(self)@.window_of(asset),
                amount,
                now,
            ) {
                Some(e) => r == Err::<u32, TreasuryError>(e),
                None => r == Ok::<u32, TreasuryError>(old(self)@.outflows.len() as u32),
            },
            r is Ok ==> final(self)@ == (TreasuryView {
                windows: old(self)@.windows.insert(
                    asset,
                    window_after_payment(
                        old(self)@.window_of(asset),
                        old(self)@.policies[asset].window_ledgers,
                        amount,
                        now,
                    ),
                ),
                outflows: old(self)@.outflows.push(
                    Outflow { asset, to, amount, ledger: now, proposal_id },
                ),
                ..old(self)@
            }),
    {
        if caller != self.timelock {
            return Err(TreasuryError::NotTimelock);
        }
        let policy = self.policy(asset);
        let allowed = self.destination_allowed(to);
        let entries = self.window_entries(asset);
        match check_payment(policy, allowed, &entries, amount, now) {
            Err(e) => Err(e),
            Ok(window) => {
                let ghost before = self@;
                self.windows.insert(asset, window);
                let index = self.outflows.len() as u32;
                self.outflows.push(Outflow { asset, to, amount, ledger: now, proposal_id });
                proof {
                    assert(self@.windows =~= before.windows.insert(asset, window@));
                }
                Ok(index)
            },
        }
    }

    /// Sets the spending policy for an asset, which is also what admits the
    /// asset to the allowlist. Only the timelock may do this.
    pub fn set_policy(
        &mut self,
        caller: AccountId,
        asset: AccountId,
        per_payment_cap: i128,
        window_cap: i128,
        window_ledgers: u32,
    ) -> (r: Result<(), TreasuryError>)
        requires
            old(self)@.wf(),
        ensures
            final(self)@.wf(),
            r is Err ==> final(self)@ == old(self)@,
            caller != old(self)@.timelock ==> r == Err::<(), TreasuryError>(
                TreasuryError::NotTimelock,
            ),
            caller == old(self)@.timelock && !(per_payment_cap > 0 && window_cap > 0
                && window_ledgers > 0) ==> r == Err::<(), TreasuryError>(
                TreasuryError::InvalidPolicy,
            ),
            caller == old(self)@.timelock && per_payment_cap > 0 && window_cap > 0
                && window_ledgers > 0 ==> r is Ok,
            r is Ok ==> final(self)@ == (TreasuryView {
                policies: old(self)@.policies.insert(
                    asset,
                    AssetPolicy { per_payment_cap, window_cap, window_ledgers },
                ),
                ..old(self)@
            }),
    {
        if caller != self.timelock {
            return Err(TreasuryError::NotTimelock);
        }
        let policy = validate_policy(per_payment_cap, window_cap, window_ledgers)?;
        let ghost before = self@;
        self.policies.insert(asset, policy);
        proof {
            assert(self@.windows =~= before.windows);
        }
        Ok(())
    }

    /// Withdraws an asset's policy, after which it cannot leave the treasury.
    pub fn remove_policy(&mut self, caller: AccountId, asset: AccountId) -> (r: Result<
        (),
        TreasuryError,
    >)
        requires
            old(self)@.wf(),
        ensures
            final(self)@.wf(),
            r is Err ==> final(self)@ == old(self)@,
            r is Ok <==> caller == old(self)@.timelock,
            r matches Err(e) ==> e == TreasuryError::NotTimelock,
            r is Ok ==> final(self)@ == (TreasuryView {
                policies: old(self)@.policies.remove(asset),
                ..old(self)@
            }),
    {
        if caller != self.timelock {
            return Err(TreasuryError::NotTimelock);
        }
        let ghost before = self@;
        self.policies.remove(&asset);
        proof {
            assert(self@.windows =~= before.windows);
            assert(self@.policies =~= before.policies.remove(asset));
        }
        Ok(())
    }

    /// Turns the destination allowlist on or off.
    pub fn set_destination_restriction(&mut self, caller: AccountId, restricted: bool) -> (r:
        Result<DestinationRestrictionSet, TreasuryError>)
        requires
            old(self)@.wf(),
        ensures
            final(self)@.wf(),
            r is Err ==> final(self)@ == old(self)@,
            r is Ok <==> caller == old(self)@.timelock,
            r matches Err(e) ==> e == TreasuryError::NotTimelock,
            r matches Ok(ev) ==> ev == (DestinationRestrictionSet { restricted }),
            r is Ok ==> final(self)@ == (TreasuryView {
                restrict_destinations: restricted,
                ..old(self)@
            }),
    {
        if caller != self.timelock {
            return Err(TreasuryError::NotTimelock);
        }
        self.restrict_destinations = restricted;
        Ok(DestinationRestrictionSet { restricted })
    }

    /// Adds a destination to the allowlist or removes it.
    pub fn set_destination(&mut self, caller: AccountId, destination: AccountId, allowed: bool) -> (r:
        Result<(), TreasuryError>)
        requires
            old(self)@.wf(),
        ensures
            final(self)@.wf(),
            r is Err ==> final(self)@ == old(self)@,
            r is Ok <==> caller == old(self)@.timelock,
            r matches Err(e) ==> e == TreasuryError::NotTimelock,
            r is Ok ==> final(self)@ == (TreasuryView {
                destinations: if allowed {
                    old(self)@.destinations.insert(destination)
                } else {
                    old(self)@.destinations.remove(destination)
                },
                ..old(self)@
            }),
    {
        if caller != self.timelock {
            return Err(TreasuryError::NotTimelock);
        }
        if allowed {
            self.destinations.insert(destination);
        } else {
            self.destinations.remove(&destination);
        }
        Ok(())
    }
}

} // verus!
