//! Membership, and voting power that lapses unless it is renewed.
//!
//! Membership is a credential: tokens are issued and revoked by the issuer and
//! cannot change hands. Holding tokens gives no power by itself. A member
//! grants their power, to themselves or to a delegate, for a term; the grant
//! lapses when the term ends, and lapsed power stops counting for the
//! delegate and for quorum both once it is swept. Anyone may sweep an expired
//! grant.
//!
//! Power is kept as checkpointed series, one per delegate plus the live total,
//! and head counts the same way for one member one vote. Each reads as it
//! stood at any past ledger, and nothing done at a ledger changes what any
//! series held before it.
//!
//! The tokens themselves are kept by the token library; the calls here are
//! told how many an account holds.

use vstd::prelude::*;
use vstd::hash_map::HashMapWithView;

use crate::checkpoint::{
    adjust, adjusted, can_record, ends_by, latest, latest_of, lemma_recorded_keeps_the_past,
    lemma_recorded_within, lemma_recorded_wf, lemma_value_at_within, recorded, series_wf, value_at,
    value_at_of, values_within, Checkpoint, CheckpointSeries,
};
use crate::keyed::{
    find_account, has_key, key_index, keyed_map, keys_unique, lemma_key_index, lemma_push_new_key,
    lemma_remove_at, lemma_update_value,
};
use crate::AccountId;

verus! {

broadcast use vstd::std_specs::hash::group_hash_axioms;

/// The longest term a grant may carry, in ledgers: two years at five seconds
/// a ledger. A term longer than this is a permanent delegation in disguise.
pub const MAX_TERM_LEDGERS: u32 = 2 * 365 * 17_280;

/// The most power any history can hold: every grant carries at most a token
/// count of units, and there are at most as many grants as a vector holds.
pub const MAX_POWER: u128 = 0xffff_ffff_ffff_ffff_ffff_ffff;

/// A grant of voting power, and the ledger at which it lapses.
#[derive(Clone, Copy, Debug, PartialEq, Eq, Structural)]
pub struct Grant {
    /// Who the power answers to. May be the member themselves.
    pub delegatee: AccountId,
    /// The units this grant has counted for its delegate.
    pub units: u128,
    /// The ledger from which the grant no longer counts.
    pub expires_at: u32,
    /// The ledger the grant was last made or renewed on.
    pub granted_at: u32,
}

/// Why the membership contract refused a call.
#[derive(Clone, Copy, Debug, PartialEq, Eq, Structural)]
pub enum MembershipError {
    /// The contract has no issuer.
    IssuerNotSet,
    /// The caller is not the issuer.
    NotIssuer,
    /// Membership tokens are credentials and cannot be transferred.
    NotTransferable,
    /// The account holds no membership tokens, so it has nothing to grant.
    NoVotingUnits,
    /// A term of zero ledgers would lapse the moment it was made.
    TermCannotBeZero,
    /// The term is longer than the contract allows.
    TermTooLong,
    /// The account has no grant to renew or withdraw.
    NoGrant,
    /// The grant has not expired, so it cannot be lapsed yet.
    GrantStillLive,
    /// The account already grants its power to this delegate for this term.
    AlreadyDelegated,
}

impl MembershipError {
    /// The number the error is reported under.
    pub fn code(&self) -> (c: u32)
        ensures
            c == match *self {
                MembershipError::IssuerNotSet => 1u32,
                MembershipError::NotIssuer => 2,
                MembershipError::NotTransferable => 3,
                MembershipError::NoVotingUnits => 4,
                MembershipError::TermCannotBeZero => 5,
                MembershipError::TermTooLong => 6,
                MembershipError::NoGrant => 7,
                MembershipError::GrantStillLive => 8,
                MembershipError::AlreadyDelegated => 9,
            },
    {
        match *self {
            MembershipError::IssuerNotSet => 1,
            MembershipError::NotIssuer => 2,
            MembershipError::NotTransferable => 3,
            MembershipError::NoVotingUnits => 4,
            MembershipError::TermCannotBeZero => 5,
            MembershipError::TermTooLong => 6,
            MembershipError::NoGrant => 7,
            MembershipError::GrantStillLive => 8,
            MembershipError::AlreadyDelegated => 9,
        }
    }
}

// ################## WHAT THE GRANTS ADD UP TO ##################

/// A quantity each grant contributes to: the units it carries or the member
/// it counts as, in total or for one delegate.
pub enum Share {
    Units,
    UnitsTo(AccountId),
    Grants,
    GrantsTo(AccountId),
}

/// What one grant contributes to a quantity.
pub open spec fn share(sel: Share, e: (AccountId, Grant)) -> int {
    match sel {
        Share::Units => e.1.units as int,
        Share::UnitsTo(d) => if e.1.delegatee == d {
            e.1.units as int
        } else {
            0
        },
        Share::Grants => 1,
        Share::GrantsTo(d) => if e.1.delegatee == d {
            1
        } else {
            0
        },
    }
}

/// What all the grants add up to.
pub open spec fn grant_sum(s: Seq<(AccountId, Grant)>, sel: Share) -> int
    decreases s.len(),
{
    if s.len() == 0 {
        0
    } else {
        grant_sum(s.drop_last(), sel) + share(sel, s.last())
    }
}

/// Every grant's units came from a token count.
pub open spec fn units_bounded(s: Seq<(AccountId, Grant)>) -> bool {
    forall|i: int| 0 <= i < s.len() ==> #[trigger] s[i].1.units <= u32::MAX
}

proof fn lemma_sum_push(s: Seq<(AccountId, Grant)>, x: (AccountId, Grant), sel: Share)
    ensures
        grant_sum(s.push(x), sel) == grant_sum(s, sel) + share(sel, x),
{
    assert(s.push(x).drop_last() == s);
}

proof fn lemma_sum_update(s: Seq<(AccountId, Grant)>, i: int, x: (AccountId, Grant), sel: Share)
    requires
        0 <= i < s.len(),
    ensures
        grant_sum(s.update(i, x), sel) == grant_sum(s, sel) - share(sel, s[i]) + share(sel, x),
    decreases s.len(),
{
    let t = s.update(i, x);
    if i == s.len() - 1 {
        assert(t.drop_last() == s.drop_last());
    } else {
        assert(t.drop_last() == s.drop_last().update(i, x));
        lemma_sum_update(s.drop_last(), i, x, sel);
    }
}

proof fn lemma_sum_remove(s: Seq<(AccountId, Grant)>, i: int, sel: Share)
    requires
        0 <= i < s.len(),
    ensures
        grant_sum(s.remove(i), sel) == grant_sum(s, sel) - share(sel, s[i]),
    decreases s.len(),
{
    let t = s.remove(i);
    if i == s.len() - 1 {
        assert(t == s.drop_last());
    } else {
        assert(t.drop_last() == s.drop_last().remove(i));
        lemma_sum_remove(s.drop_last(), i, sel);
        assert(t.last() == s.last());
    }
}

/// Shares are never negative, and bounded by what every grant could carry.
proof fn lemma_sum_bounds(s: Seq<(AccountId, Grant)>, sel: Share)
    requires
        units_bounded(s),
    ensures
        0 <= grant_sum(s, sel) <= s.len() * 0xffff_ffff,
        forall|i: int| 0 <= i < s.len() ==> share(sel, #[trigger] s[i]) <= grant_sum(s, sel),
    decreases s.len(),
{
    if s.len() > 0 {
        let t = s.drop_last();
        assert forall|i: int| 0 <= i < t.len() implies #[trigger] t[i].1.units <= u32::MAX by {
            assert(t[i] == s[i]);
        }
        lemma_sum_bounds(t, sel);
        assert(s.last() == s[s.len() - 1]);
        assert forall|i: int| 0 <= i < s.len() implies share(sel, #[trigger] s[i]) <= grant_sum(s, sel) by {
            if i < s.len() - 1 {
                assert(t[i] == s[i]);
            }
        }
    }
}

/// A delegate's share of the grants never exceeds the whole.
proof fn lemma_part_within_whole(s: Seq<(AccountId, Grant)>, d: AccountId)
    ensures
        grant_sum(s, Share::UnitsTo(d)) <= grant_sum(s, Share::Units),
        grant_sum(s, Share::GrantsTo(d)) <= grant_sum(s, Share::Grants),
        grant_sum(s, Share::Grants) == s.len(),
    decreases s.len(),
{
    if s.len() > 0 {
        lemma_part_within_whole(s.drop_last(), d);
    }
}


// ################## DECISIONS ##################

/// Why a term would be refused, or `None` if it is usable.
pub open spec fn term_refusal(term_ledgers: u32) -> Option<MembershipError> {
    if term_ledgers == 0 {
        Some(MembershipError::TermCannotBeZero)
    } else if term_ledgers > MAX_TERM_LEDGERS {
        Some(MembershipError::TermTooLong)
    } else {
        None
    }
}

/// The ledger a grant made at `now` for `term_ledgers` lapses at, saturating
/// at the last ledger there is.
pub open spec fn expiry(now: u32, term_ledgers: u32) -> u32 {
    if now + term_ledgers > u32::MAX {
        u32::MAX
    } else {
        (now + term_ledgers) as u32
    }
}

/// Checks that a term is usable: not zero, and no longer than the contract
/// allows.
pub fn check_term(term_ledgers: u32) -> (r: Result<(), MembershipError>)
    ensures
        r is Ok <==> term_refusal(term_ledgers) is None,
        r matches Err(e) ==> term_refusal(term_ledgers) == Some(e),
{
    if term_ledgers == 0 {
        return Err(MembershipError::TermCannotBeZero);
    }
    if term_ledgers > MAX_TERM_LEDGERS {
        return Err(MembershipError::TermTooLong);
    }
    Ok(())
}

// ################## THE MEMBERSHIP ##################

/// The membership's state as its contracts speak of it.
pub struct MembershipView {
    /// The address that may issue and revoke membership.
    pub issuer: AccountId,
    /// The number of accounts holding at least one token.
    pub member_count: u32,
    /// The ledger each member first became one on; present exactly for the
    /// accounts counted as members.
    pub member_since: Map<AccountId, u32>,
    /// The grant each account has made, in the order first made.
    pub grants: Seq<(AccountId, Grant)>,
    /// The power answering to each delegate, ledger by ledger.
    pub power: Map<AccountId, Seq<Checkpoint>>,
    /// The members whose grants answer to each delegate, ledger by ledger.
    pub heads: Map<AccountId, Seq<Checkpoint>>,
    /// The community's live voting power, ledger by ledger.
    pub live_total: Seq<Checkpoint>,
    /// The number of members with a live grant, ledger by ledger.
    pub live_heads: Seq<Checkpoint>,
}

impl MembershipView {
    /// The grant an account has made, if any.
    pub open spec fn grant_of(self, account: AccountId) -> Option<Grant> {
        if has_key(self.grants, account) {
            Some(keyed_map(self.grants)[account])
        } else {
            None
        }
    }

    /// A delegate's power history; empty if power has never answered to it.
    pub open spec fn power_of(self, d: AccountId) -> Seq<Checkpoint> {
        if self.power.contains_key(d) {
            self.power[d]
        } else {
            Seq::empty()
        }
    }

    /// A delegate's head-count history; empty if no grant has answered to it.
    pub open spec fn heads_of(self, d: AccountId) -> Seq<Checkpoint> {
        if self.heads.contains_key(d) {
            self.heads[d]
        } else {
            Seq::empty()
        }
    }

    /// The power answering to an account as it stood at `ledger`.
    pub open spec fn votes_at(self, d: AccountId, ledger: u32) -> u128 {
        value_at_of(self.power_of(d), ledger)
    }

    /// The members answering to an account as they stood at `ledger`.
    pub open spec fn heads_at(self, d: AccountId, ledger: u32) -> u128 {
        value_at_of(self.heads_of(d), ledger)
    }

    /// The live voting power as it stood at `ledger`.
    pub open spec fn live_total_at(self, ledger: u32) -> u128 {
        value_at_of(self.live_total, ledger)
    }

    /// The live member count as it stood at `ledger`.
    pub open spec fn live_heads_at(self, ledger: u32) -> u128 {
        value_at_of(self.live_heads, ledger)
    }

    /// The invariant every membership keeps.
    ///
    /// The power accounting is exact: the live total is the sum of the units
    /// of every grant not yet swept, the live head count is the number of
    /// those grants, and each delegate's power and head count are the same
    /// sums over the grants answering to it. Every history is well formed,
    /// and the member count is the number of accounts counted as members.
    pub open spec fn wf(self) -> bool {
        &&& keys_unique(self.grants)
        &&& units_bounded(self.grants)
        &&& self.grants.len() <= usize::MAX
        &&& self.series_ok()
        &&& latest_of(self.live_total) == grant_sum(self.grants, Share::Units)
        &&& latest_of(self.live_heads) == grant_sum(self.grants, Share::Grants)
        &&& forall|d: AccountId| #[trigger] latest_of(self.power_of(d)) == grant_sum(self.grants, Share::UnitsTo(d))
        &&& forall|d: AccountId| #[trigger] latest_of(self.heads_of(d)) == grant_sum(self.grants, Share::GrantsTo(d))
        &&& self.member_since.dom().finite()
        &&& self.member_count == self.member_since.dom().len()
    }

    /// Every history is well formed.
    pub open spec fn series_ok(self) -> bool {
        &&& series_wf(self.live_total) && values_within(self.live_total, MAX_POWER)
        &&& series_wf(self.live_heads) && values_within(self.live_heads, MAX_POWER)
        &&& forall|d: AccountId| #[trigger] self.power.contains_key(d) ==> series_wf(self.power[d])
            && values_within(self.power[d], MAX_POWER)
        &&& forall|d: AccountId| #[trigger] self.heads.contains_key(d) ==> series_wf(self.heads[d])
            && values_within(self.heads[d], MAX_POWER)
    }

    /// Every history can take a reading at `now`: time has not run backwards
    /// past any entry, and each still has room for one more.
    pub open spec fn ready_at(self, now: u32) -> bool {
        &&& can_record(self.live_total, now)
        &&& can_record(self.live_heads, now)
        &&& forall|d: AccountId| #[trigger] self.power.contains_key(d) ==> can_record(self.power[d], now)
        &&& forall|d: AccountId| #[trigger] self.heads.contains_key(d) ==> can_record(self.heads[d], now)
    }

    /// Every history ends at or before `now`.
    pub open spec fn ends_by(self, now: u32) -> bool {
        &&& ends_by(self.live_total, now)
        &&& ends_by(self.live_heads, now)
        &&& forall|d: AccountId| #[trigger] self.power.contains_key(d) ==> ends_by(self.power[d], now)
        &&& forall|d: AccountId| #[trigger] self.heads.contains_key(d) ==> ends_by(self.heads[d], now)
    }

    /// Every history holds at most `n` readings.
    pub open spec fn lengths_within(self, n: int) -> bool {
        &&& self.live_total.len() <= n
        &&& self.live_heads.len() <= n
        &&& forall|d: AccountId| #[trigger] self.power.contains_key(d) ==> self.power[d].len() <= n
        &&& forall|d: AccountId| #[trigger] self.heads.contains_key(d) ==> self.heads[d].len() <= n
    }

    /// Going from `self` to `later` at `now`, each history gained at most one
    /// reading, and only at `now`.
    pub open spec fn grew_once_at(self, later: MembershipView, now: u32) -> bool {
        &&& grew_at(self.live_total, later.live_total, now)
        &&& grew_at(self.live_heads, later.live_heads, now)
        &&& forall|d: AccountId| #[trigger] grew_at(self.power_of(d), later.power_of(d), now)
        &&& forall|d: AccountId| #[trigger] grew_at(self.heads_of(d), later.heads_of(d), now)
    }

    /// Nothing done at `now` changed what any history held before it.
    pub open spec fn keeps_past(self, later: MembershipView, now: u32) -> bool {
        &&& forall|d: AccountId, l: u32| l < now ==> #[trigger] later.votes_at(d, l) == self.votes_at(d, l)
        &&& forall|d: AccountId, l: u32| l < now ==> #[trigger] later.heads_at(d, l) == self.heads_at(d, l)
        &&& forall|l: u32| l < now ==> #[trigger] later.live_total_at(l) == self.live_total_at(l)
        &&& forall|l: u32| l < now ==> #[trigger] later.live_heads_at(l) == self.live_heads_at(l)
    }
}

/// `b` is `a`, or `a` with its reading at `now` written: at most one entry
/// longer, and ending at `now`.
pub open spec fn grew_at(a: Seq<Checkpoint>, b: Seq<Checkpoint>, now: u32) -> bool {
    ||| b == a
    ||| {
        &&& b.len() > 0
        &&& b.last().ledger == now
        &&& b.len() <= a.len() + 1
        &&& a.len() > 0 && a.last().ledger == now ==> b.len() == a.len()
    }
}

/// Writing a reading at `now` grows a history at most once.
proof fn lemma_recorded_grew(s: Seq<Checkpoint>, now: u32, value: u128)
    ensures
        grew_at(s, recorded(s, now, value), now),
{
}

/// Growing once at `now`, twice over, is still growing once at `now`.
pub proof fn lemma_grew_trans(a: MembershipView, b: MembershipView, c: MembershipView, now: u32)
    requires
        a.grew_once_at(b, now),
        b.grew_once_at(c, now),
    ensures
        a.grew_once_at(c, now),
{
    assert forall|d: AccountId| #[trigger] grew_at(a.power_of(d), c.power_of(d), now) by {
        assert(grew_at(a.power_of(d), b.power_of(d), now));
        assert(grew_at(b.power_of(d), c.power_of(d), now));
    }
    assert forall|d: AccountId| #[trigger] grew_at(a.heads_of(d), c.heads_of(d), now) by {
        assert(grew_at(a.heads_of(d), b.heads_of(d), now));
        assert(grew_at(b.heads_of(d), c.heads_of(d), now));
    }
}

/// A change that writes each history at most once at `now` adds at most one
/// reading to any of them.
pub proof fn lemma_grew_lengths(a: MembershipView, b: MembershipView, now: u32, n: int)
    requires
        a.grew_once_at(b, now),
        a.lengths_within(n),
    ensures
        b.lengths_within(n + 1),
{
    assert forall|d: AccountId| #[trigger] b.power.contains_key(d) implies b.power[d].len() <= n + 1 by {
        assert(grew_at(a.power_of(d), b.power_of(d), now));
        assert(b.power_of(d) == b.power[d]);
        if a.power.contains_key(d) {
            assert(a.power_of(d) == a.power[d]);
        }
    }
    assert forall|d: AccountId| #[trigger] b.heads.contains_key(d) implies b.heads[d].len() <= n + 1 by {
        assert(grew_at(a.heads_of(d), b.heads_of(d), now));
        assert(b.heads_of(d) == b.heads[d]);
        if a.heads.contains_key(d) {
            assert(a.heads_of(d) == a.heads[d]);
        }
    }
}

/// A membership that can take readings at `now`, and whose histories are
/// all shorter than the most a history can count, can take readings at any
/// later ledger too.
pub proof fn lemma_ready_later(v: MembershipView, now: u32, later: u32)
    requires
        v.ready_at(now),
        now <= later,
        v.lengths_within(u32::MAX - 1),
    ensures
        v.ready_at(later),
{
    assert forall|d: AccountId| #[trigger] v.power.contains_key(d) implies can_record(v.power[d], later) by {
        assert(can_record(v.power[d], now));
    }
    assert forall|d: AccountId| #[trigger] v.heads.contains_key(d) implies can_record(v.heads[d], later) by {
        assert(can_record(v.heads[d], now));
    }
}

/// The series kept for each account in a map; empty for one never written.
pub open spec fn series_at(m: Map<AccountId, CheckpointSeries>, d: AccountId) -> Seq<Checkpoint> {
    if m.contains_key(d) {
        m[d]@
    } else {
        Seq::empty()
    }
}

/// Moves the series kept for one account by `delta`, leaving every other
/// account's series as it was.
fn adjust_in(map: &mut HashMapWithView<AccountId, CheckpointSeries>, d: AccountId, now: u32, delta: i128)
    requires
        series_wf(series_at(old(map)@, d)),
        can_record(series_at(old(map)@, d), now),
        adjusted(latest_of(series_at(old(map)@, d)), delta) <= u128::MAX,
    ensures
        final(map)@.contains_key(d),
        final(map)@[d]@ == recorded(
            series_at(old(map)@, d),
            now,
            adjusted(latest_of(series_at(old(map)@, d)), delta) as u128,
        ),
        final(map)@.remove(d) == old(map)@.remove(d),
{
    let mut series = match map.remove(&d) {
        Some(s) => s,
        None => CheckpointSeries::new(),
    };
    adjust(&mut series, now, delta);
    let ghost mid = map@;
    map.insert(d, series);
    proof {
        assert(map@.remove(d) =~= mid.remove(d));
        assert(mid.remove(d) =~= mid);
    }
}

/// Membership tokens, grants, and the voting power they make.
pub struct RatifyMembership {
    issuer: AccountId,
    member_count: u32,
    member_since: HashMapWithView<AccountId, u32>,
    grants: Vec<(AccountId, Grant)>,
    power: HashMapWithView<AccountId, CheckpointSeries>,
    heads: HashMapWithView<AccountId, CheckpointSeries>,
    live_total: CheckpointSeries,
    live_heads: CheckpointSeries,
}

impl View for RatifyMembership {
    type V = MembershipView;

    closed spec fn view(&self) -> MembershipView {
        MembershipView {
            issuer: self.issuer,
            member_count: self.member_count,
            member_since: self.member_since@,
            grants: self.grants@,
            power: self.power@.map_values(|s: CheckpointSeries| s@),
            heads: self.heads@.map_values(|s: CheckpointSeries| s@),
            live_total: self.live_total@,
            live_heads: self.live_heads@,
        }
    }
}

/// The value after moving by `delta`, as an unsigned value.
pub open spec fn moved(current: u128, delta: i128) -> u128 {
    adjusted(current, delta) as u128
}

impl RatifyMembership {
    /// Creates a membership with no members and no power. The issuer is
    /// whoever may hand out and revoke membership.
    pub fn new(issuer: AccountId) -> (m: Self)
        ensures
            m@.wf(),
            m@.issuer == issuer,
            m@.member_count == 0,
            m@.grants == Seq::<(AccountId, Grant)>::empty(),
            m@.member_since == Map::<AccountId, u32>::empty(),
            forall|now: u32| m@.ready_at(now),
            m@.lengths_within(0),
            forall|d: AccountId, l: u32| m@.votes_at(d, l) == 0 && m@.heads_at(d, l) == 0,
            forall|l: u32| m@.live_total_at(l) == 0 && m@.live_heads_at(l) == 0,
            within_the_whole(m@),
    {
        let m = RatifyMembership {
            issuer,
            member_count: 0,
            member_since: HashMapWithView::new(),
            grants: Vec::new(),
            power: HashMapWithView::new(),
            heads: HashMapWithView::new(),
            live_total: CheckpointSeries::new(),
            live_heads: CheckpointSeries::new(),
        };
        proof {
            assert(m@.power =~= Map::<AccountId, Seq<Checkpoint>>::empty());
            assert(m@.heads =~= Map::<AccountId, Seq<Checkpoint>>::empty());
            assert(m@.member_since.dom() =~= Set::<AccountId>::empty());
        }
        m
    }

    /// Returns the address that may issue and revoke membership.
    pub fn issuer(&self) -> (a: AccountId)
        ensures
            a == self@.issuer,
    {
        self.issuer
    }

    /// Returns the number of accounts holding at least one token, the
    /// denominator for one member one vote.
    pub fn member_count(&self) -> (n: u32)
        ensures
            n == self@.member_count,
    {
        self.member_count
    }

    /// Returns the grant an account has made, if it has one, whether or not
    /// it has expired.
    pub fn grant(&self, account: AccountId) -> (g: Option<Grant>)
        requires
            self@.wf(),
        ensures
            g == self@.grant_of(account),
    {
        match find_account(&self.grants, account) {
            Some(i) => {
                proof {
                    lemma_key_index(self.grants@, i as int);
                }
                Some(self.grants[i].1)
            },
            None => None,
        }
    }

    /// Returns whether an account's grant is still live at `now`.
    pub fn is_live(&self, account: AccountId, now: u32) -> (b: bool)
        requires
            self@.wf(),
        ensures
            b == (self@.grant_of(account) matches Some(g) && g.expires_at > now),
    {
        match self.grant(account) {
            Some(grant) => grant.expires_at > now,
            None => false,
        }
    }

    /// Returns how many ledgers remain at `now` before an account's grant
    /// lapses; zero if it has lapsed, or was never made.
    pub fn ledgers_until_lapse(&self, account: AccountId, now: u32) -> (n: u32)
        requires
            self@.wf(),
        ensures
            n == match self@.grant_of(account) {
                Some(g) => if g.expires_at > now {
                    (g.expires_at - now) as u32
                } else {
                    0
                },
                None => 0,
            },
    {
        match self.grant(account) {
            Some(grant) => grant.expires_at.saturating_sub(now),
            None => 0,
        }
    }

    /// Returns the ledger an account became a member on, if it is one.
    pub fn member_since(&self, account: AccountId) -> (r: Option<u32>)
        ensures
            r == (if self@.member_since.contains_key(account) {
                Some(self@.member_since[account])
            } else {
                None
            }),
    {
        match self.member_since.get(&account) {
            Some(since) => Some(*since),
            None => None,
        }
    }

    /// Returns how many ledgers an account has been a member for, measured at
    /// `ledger`; zero if it was not a member then.
    pub fn tenure_at(&self, account: AccountId, ledger: u32) -> (t: u32)
        ensures
            t == (if self@.member_since.contains_key(account) && self@.member_since[account] <= ledger {
                (ledger - self@.member_since[account]) as u32
            } else {
                0
            }),
    {
        match self.member_since(account) {
            Some(since) => if since <= ledger {
                ledger - since
            } else {
                0
            },
            None => 0,
        }
    }

    /// Returns the voting power currently answering to an account: power
    /// granted to it by others as well as its own, excluding anything swept.
    pub fn votes(&self, account: AccountId) -> (v: u128)
        requires
            self@.wf(),
        ensures
            v == latest_of(self@.power_of(account)),
            v == grant_sum(self@.grants, Share::UnitsTo(account)),
    {
        match self.power.get(&account) {
            Some(s) => {
                proof {
                    assert(self@.power.contains_key(account));
                }
                latest(s)
            },
            None => 0,
        }
    }

    /// Returns the voting power that answered to an account at a past ledger.
    pub fn votes_at(&self, account: AccountId, ledger: u32) -> (v: u128)
        requires
            self@.wf(),
        ensures
            v == self@.votes_at(account, ledger),
    {
        match self.power.get(&account) {
            Some(s) => {
                proof {
                    assert(self@.power.contains_key(account));
                }
                value_at(s, ledger)
            },
            None => 0,
        }
    }

    /// Returns the community's live voting power: the denominator a quorum is
    /// measured against.
    pub fn live_total(&self) -> (v: u128)
        requires
            self@.wf(),
        ensures
            v == latest_of(self@.live_total),
            v == grant_sum(self@.grants, Share::Units),
    {
        latest(&self.live_total)
    }

    /// Returns the community's live voting power at a past ledger.
    pub fn live_total_at(&self, ledger: u32) -> (v: u128)
        requires
            self@.wf(),
        ensures
            v == self@.live_total_at(ledger),
    {
        value_at(&self.live_total, ledger)
    }

    /// Returns how many members' live grants currently answer to an account.
    pub fn heads(&self, account: AccountId) -> (v: u128)
        requires
            self@.wf(),
        ensures
            v == latest_of(self@.heads_of(account)),
            v == grant_sum(self@.grants, Share::GrantsTo(account)),
    {
        match self.heads.get(&account) {
            Some(s) => {
                proof {
                    assert(self@.heads.contains_key(account));
                }
                latest(s)
            },
            None => 0,
        }
    }

    /// Returns how many members' grants answered to an account at a past
    /// ledger.
    pub fn heads_at(&self, account: AccountId, ledger: u32) -> (v: u128)
        requires
            self@.wf(),
        ensures
            v == self@.heads_at(account, ledger),
    {
        match self.heads.get(&account) {
            Some(s) => {
                proof {
                    assert(self@.heads.contains_key(account));
                }
                value_at(s, ledger)
            },
            None => 0,
        }
    }

    /// Returns how many members across the community hold a grant not yet
    /// swept.
    pub fn live_heads(&self) -> (v: u128)
        requires
            self@.wf(),
        ensures
            v == latest_of(self@.live_heads),
            v == self@.grants.len(),
    {
        proof {
            lemma_part_within_whole(self@.grants, 0);
        }
        latest(&self.live_heads)
    }

    /// Returns how many members held a live grant at a past ledger.
    pub fn live_heads_at(&self, ledger: u32) -> (v: u128)
        requires
            self@.wf(),
        ensures
            v == self@.live_heads_at(ledger),
    {
        value_at(&self.live_heads, ledger)
    }
}


/// The accounting does not depend on who is counted as a member.
proof fn lemma_wf_members_only(a: MembershipView, b: MembershipView)
    requires
        a.wf(),
        b.grants == a.grants,
        b.power == a.power,
        b.heads == a.heads,
        b.live_total == a.live_total,
        b.live_heads == a.live_heads,
        b.member_since.dom().finite(),
        b.member_count == b.member_since.dom().len(),
    ensures
        b.wf(),
{
    assert forall|d: AccountId| #[trigger] latest_of(b.power_of(d)) == grant_sum(b.grants, Share::UnitsTo(d)) by {
        assert(b.power_of(d) == a.power_of(d));
        assert(latest_of(a.power_of(d)) == grant_sum(a.grants, Share::UnitsTo(d)));
    }
    assert forall|d: AccountId| #[trigger] latest_of(b.heads_of(d)) == grant_sum(b.grants, Share::GrantsTo(d)) by {
        assert(b.heads_of(d) == a.heads_of(d));
        assert(latest_of(a.heads_of(d)) == grant_sum(a.grants, Share::GrantsTo(d)));
    }
}

/// What was fixed before a ledger stays fixed: if one step keeps the past
/// before `now` and a later step keeps it before `later`, the two together
/// keep the past before `now`.
pub proof fn lemma_keeps_past_trans(a: MembershipView, b: MembershipView, c: MembershipView, now: u32, later: u32)
    requires
        now <= later,
        a.keeps_past(b, now),
        b.keeps_past(c, later),
    ensures
        a.keeps_past(c, now),
{
    assert forall|d: AccountId, l: u32| l < now implies #[trigger] c.votes_at(d, l) == a.votes_at(d, l) by {
        assert(c.votes_at(d, l) == b.votes_at(d, l));
        assert(b.votes_at(d, l) == a.votes_at(d, l));
    }
    assert forall|d: AccountId, l: u32| l < now implies #[trigger] c.heads_at(d, l) == a.heads_at(d, l) by {
        assert(c.heads_at(d, l) == b.heads_at(d, l));
        assert(b.heads_at(d, l) == a.heads_at(d, l));
    }
    assert forall|l: u32| l < now implies #[trigger] c.live_total_at(l) == a.live_total_at(l) by {
        assert(c.live_total_at(l) == b.live_total_at(l));
    }
    assert forall|l: u32| l < now implies #[trigger] c.live_heads_at(l) == a.live_heads_at(l) by {
        assert(c.live_heads_at(l) == b.live_heads_at(l));
    }
}

/// From `now` on, every reading is what the grants not yet swept add up to:
/// the power answering to a delegate is the units of the grants made to it,
/// the live total is the units of all of them, and the head counts count
/// them.
pub proof fn lemma_readings_are_the_grants(v: MembershipView, now: u32, ledger: u32, d: AccountId)
    requires
        v.wf(),
        v.ready_at(now),
        now <= ledger,
    ensures
        v.votes_at(d, ledger) == grant_sum(v.grants, Share::UnitsTo(d)),
        v.heads_at(d, ledger) == grant_sum(v.grants, Share::GrantsTo(d)),
        v.live_total_at(ledger) == grant_sum(v.grants, Share::Units),
        v.live_heads_at(ledger) == v.grants.len(),
{
    lemma_at_or_after_last(v.power_of(d), ledger);
    lemma_at_or_after_last(v.heads_of(d), ledger);
    lemma_at_or_after_last(v.live_total, ledger);
    lemma_at_or_after_last(v.live_heads, ledger);
    assert(latest_of(v.power_of(d)) == grant_sum(v.grants, Share::UnitsTo(d)));
    assert(latest_of(v.heads_of(d)) == grant_sum(v.grants, Share::GrantsTo(d)));
    lemma_part_within_whole(v.grants, d);
}

/// At every ledger, no account holds more power, or answers for more
/// members, than the whole community had live then.
pub open spec fn within_the_whole(v: MembershipView) -> bool {
    &&& forall|d: AccountId, l: u32| #[trigger] v.votes_at(d, l) <= v.live_total_at(l)
    &&& forall|d: AccountId, l: u32| #[trigger] v.heads_at(d, l) <= v.live_heads_at(l)
}

/// No delegate ever outweighs the community: every change made at `now`
/// that leaves the past as it was and the membership well formed keeps each
/// account's power and head count within the live totals, at every ledger.
pub proof fn lemma_no_delegate_outweighs_the_community(v: MembershipView, w: MembershipView, now: u32)
    requires
        within_the_whole(v),
        v.keeps_past(w, now),
        w.wf(),
        w.ready_at(now),
    ensures
        within_the_whole(w),
{
    assert forall|d: AccountId, l: u32| #[trigger] w.votes_at(d, l) <= w.live_total_at(l) by {
        if l < now {
            assert(w.votes_at(d, l) == v.votes_at(d, l));
            assert(w.live_total_at(l) == v.live_total_at(l));
        } else {
            lemma_readings_are_the_grants(w, now, l, d);
            lemma_part_within_whole(w.grants, d);
        }
    }
    assert forall|d: AccountId, l: u32| #[trigger] w.heads_at(d, l) <= w.live_heads_at(l) by {
        if l < now {
            assert(w.heads_at(d, l) == v.heads_at(d, l));
            assert(w.live_heads_at(l) == v.live_heads_at(l));
        } else {
            lemma_readings_are_the_grants(w, now, l, d);
            lemma_part_within_whole(w.grants, d);
        }
    }
}

/// Every reading of a well formed membership, at any ledger, is at most
/// `MAX_POWER`.
pub proof fn lemma_readings_bounded(v: MembershipView, d: AccountId, ledger: u32)
    requires
        v.wf(),
    ensures
        v.votes_at(d, ledger) <= MAX_POWER,
        v.heads_at(d, ledger) <= MAX_POWER,
        v.live_total_at(ledger) <= MAX_POWER,
        v.live_heads_at(ledger) <= MAX_POWER,
{
    if v.power.contains_key(d) {
        lemma_value_at_within(v.power[d], MAX_POWER, ledger);
    }
    if v.heads.contains_key(d) {
        lemma_value_at_within(v.heads[d], MAX_POWER, ledger);
    }
    lemma_value_at_within(v.live_total, MAX_POWER, ledger);
    lemma_value_at_within(v.live_heads, MAX_POWER, ledger);
}

/// A reading at or after a history's last entry is its latest value.
proof fn lemma_at_or_after_last(s: Seq<Checkpoint>, ledger: u32)
    requires
        ends_by(s, ledger),
    ensures
        value_at_of(s, ledger) == latest_of(s),
{
}

/// Two memberships with the same histories read the same at every ledger.
proof fn lemma_same_histories(a: MembershipView, b: MembershipView, now: u32)
    requires
        a.power == b.power,
        a.heads == b.heads,
        a.live_total == b.live_total,
        a.live_heads == b.live_heads,
    ensures
        a.keeps_past(b, now),
        a.grew_once_at(b, now),
{
    assert forall|d: AccountId, l: u32| l < now implies #[trigger] b.votes_at(d, l) == a.votes_at(d, l) by {
        assert(a.power_of(d) == b.power_of(d));
    }
    assert forall|d: AccountId| #[trigger] grew_at(a.power_of(d), b.power_of(d), now) by {
        assert(a.power_of(d) == b.power_of(d));
    }
    assert forall|d: AccountId| #[trigger] grew_at(a.heads_of(d), b.heads_of(d), now) by {
        assert(a.heads_of(d) == b.heads_of(d));
    }
    assert forall|d: AccountId, l: u32| l < now implies #[trigger] b.heads_at(d, l) == a.heads_at(d, l) by {
        assert(a.heads_of(d) == b.heads_of(d));
    }
}

/// A series shifted by `delta` at `now` keeps its past and reads the shifted
/// value from `now` on.
proof fn lemma_shift_keeps_past(s: Seq<Checkpoint>, now: u32, value: u128)
    requires
        series_wf(s),
        can_record(s, now),
    ensures
        forall|l: u32| l < now ==> #[trigger] value_at_of(recorded(s, now, value), l) == value_at_of(s, l),
        series_wf(recorded(s, now, value)),
        can_record(recorded(s, now, value), now),
        ends_by(recorded(s, now, value), now),
        latest_of(recorded(s, now, value)) == value,
{
    lemma_recorded_wf(s, now, value);
    assert forall|l: u32| l < now implies #[trigger] value_at_of(recorded(s, now, value), l) == value_at_of(s, l) by {
        lemma_recorded_keeps_the_past(s, now, value, l);
    }
}

impl RatifyMembership {
    /// Moves the power answering to `d` by `units`, and its head count by
    /// `head` when that is not zero, with the community totals moving the
    /// same way. Nothing before `now` changes.
    fn shift_power(&mut self, d: AccountId, units: i128, head: i128, now: u32)
        requires
            old(self)@.series_ok(),
            old(self)@.ready_at(now),
            -0xffff_ffff <= units <= 0xffff_ffff,
            -1 <= head <= 1,
            0 <= latest_of(old(self)@.power_of(d)) + units <= MAX_POWER,
            0 <= latest_of(old(self)@.live_total) + units <= MAX_POWER,
            0 <= latest_of(old(self)@.heads_of(d)) + head <= MAX_POWER,
            0 <= latest_of(old(self)@.live_heads) + head <= MAX_POWER,
        ensures
            final(self)@.issuer == old(self)@.issuer,
            final(self)@.member_count == old(self)@.member_count,
            final(self)@.member_since == old(self)@.member_since,
            final(self)@.grants == old(self)@.grants,
            final(self)@.series_ok(),
            final(self)@.ready_at(now),
            forall|x: AccountId| #[trigger] latest_of(final(self)@.power_of(x)) == latest_of(
                old(self)@.power_of(x),
            ) + (if x == d {
                units as int
            } else {
                0
            }),
            forall|x: AccountId| #[trigger] latest_of(final(self)@.heads_of(x)) == latest_of(
                old(self)@.heads_of(x),
            ) + (if x == d {
                head as int
            } else {
                0
            }),
            latest_of(final(self)@.live_total) == latest_of(old(self)@.live_total) + units,
            latest_of(final(self)@.live_heads) == latest_of(old(self)@.live_heads) + head,
            old(self)@.keeps_past(final(self)@, now),
            old(self)@.grew_once_at(final(self)@, now),
            forall|t: u32| old(self)@.ends_by(t) && now <= t ==> #[trigger] final(self)@.ends_by(t),
    {
        let ghost v = self@;
        proof {
            if v.power.contains_key(d) {
                assert(series_at(self.power@, d) == v.power[d]);
            } else {
                assert(series_at(self.power@, d) == v.power_of(d));
            }
            if v.heads.contains_key(d) {
                assert(series_at(self.heads@, d) == v.heads[d]);
            } else {
                assert(series_at(self.heads@, d) == v.heads_of(d));
            }
            lemma_recorded_within(v.power_of(d), now, (latest_of(v.power_of(d)) + units) as u128, MAX_POWER);
            lemma_recorded_within(v.live_total, now, (latest_of(v.live_total) + units) as u128, MAX_POWER);
            lemma_recorded_within(v.heads_of(d), now, (latest_of(v.heads_of(d)) + head) as u128, MAX_POWER);
            lemma_recorded_within(v.live_heads, now, (latest_of(v.live_heads) + head) as u128, MAX_POWER);
            lemma_shift_keeps_past(v.power_of(d), now, (latest_of(v.power_of(d)) + units) as u128);
            lemma_shift_keeps_past(v.live_total, now, (latest_of(v.live_total) + units) as u128);
            lemma_shift_keeps_past(v.heads_of(d), now, (latest_of(v.heads_of(d)) + head) as u128);
            lemma_shift_keeps_past(v.live_heads, now, (latest_of(v.live_heads) + head) as u128);
        }
        let ghost old_power = self.power@;
        adjust_in(&mut self.power, d, now, units);
        adjust(&mut self.live_total, now, units);
        let ghost old_heads = self.heads@;
        if head != 0 {
            adjust_in(&mut self.heads, d, now, head);
            adjust(&mut self.live_heads, now, head);
        }
        proof {
            let w = self@;
            assert forall|x: AccountId| x != d implies #[trigger] self.power@.contains_key(x) == old_power.contains_key(x) && (old_power.contains_key(x) ==> self.power@[x] == old_power[x]) by {
                assert(self.power@.remove(d).contains_key(x) == old_power.remove(d).contains_key(x));
                if old_power.contains_key(x) {
                    assert(self.power@.remove(d)[x] == old_power.remove(d)[x]);
                }
            }
            assert forall|x: AccountId| x != d implies #[trigger] self.heads@.contains_key(x) == old_heads.contains_key(x) && (old_heads.contains_key(x) ==> self.heads@[x] == old_heads[x]) by {
                if head != 0 {
                    assert(self.heads@.remove(d).contains_key(x) == old_heads.remove(d).contains_key(x));
                    if old_heads.contains_key(x) {
                        assert(self.heads@.remove(d)[x] == old_heads.remove(d)[x]);
                    }
                }
            }
            assert forall|x: AccountId| x != d implies #[trigger] w.power_of(x) == v.power_of(x) by {
                assert(self.power@.remove(d).contains_key(x) == old_power.remove(d).contains_key(x));
                if old_power.contains_key(x) {
                    assert(self.power@.remove(d)[x] == old_power.remove(d)[x]);
                }
            }
            assert forall|x: AccountId| x != d implies #[trigger] w.heads_of(x) == v.heads_of(x) by {
                if head != 0 {
                    assert(self.heads@.remove(d).contains_key(x) == old_heads.remove(d).contains_key(x));
                    if old_heads.contains_key(x) {
                        assert(self.heads@.remove(d)[x] == old_heads.remove(d)[x]);
                    }
                }
            }
            assert(w.power_of(d) == recorded(v.power_of(d), now, (latest_of(v.power_of(d)) + units) as u128));
            if head != 0 {
                assert(w.heads_of(d) == recorded(v.heads_of(d), now, (latest_of(v.heads_of(d)) + head) as u128));
            } else {
                assert(w.heads_of(d) == v.heads_of(d));
            }
            assert forall|x: AccountId| #[trigger] w.power.contains_key(x) implies series_wf(w.power[x]) && can_record(w.power[x], now) && values_within(w.power[x], MAX_POWER) by {
                if x != d {
                    assert(self.power@.contains_key(x));
                    assert(w.power_of(x) == v.power_of(x));
                    assert(v.power.contains_key(x));
                } else {
                    assert(w.power[x] == w.power_of(x));
                }
            }
            assert forall|x: AccountId| #[trigger] w.heads.contains_key(x) implies series_wf(w.heads[x]) && can_record(w.heads[x], now) && values_within(w.heads[x], MAX_POWER) by {
                if x != d {
                    assert(self.heads@.contains_key(x));
                    assert(w.heads_of(x) == v.heads_of(x));
                    assert(v.heads.contains_key(x));
                } else {
                    assert(w.heads[x] == w.heads_of(x));
                }
            }
            assert forall|t: u32| v.ends_by(t) && now <= t implies #[trigger] w.ends_by(t) by {
                assert forall|x: AccountId| #[trigger] w.power.contains_key(x) implies ends_by(w.power[x], t) by {
                    if x != d {
                        assert(self.power@.contains_key(x));
                        assert(w.power_of(x) == v.power_of(x));
                        assert(v.power.contains_key(x));
                    } else {
                        assert(w.power[x] == w.power_of(x));
                    }
                }
                assert forall|x: AccountId| #[trigger] w.heads.contains_key(x) implies ends_by(w.heads[x], t) by {
                    if x != d {
                        assert(self.heads@.contains_key(x));
                        assert(w.heads_of(x) == v.heads_of(x));
                        assert(v.heads.contains_key(x));
                    } else {
                        assert(w.heads[x] == w.heads_of(x));
                    }
                }
            }
            assert forall|x: AccountId, l: u32| l < now implies #[trigger] w.votes_at(x, l) == v.votes_at(x, l) by {
                if x != d {
                    assert(w.power_of(x) == v.power_of(x));
                }
            }
            assert forall|x: AccountId, l: u32| l < now implies #[trigger] w.heads_at(x, l) == v.heads_at(x, l) by {
                if x != d {
                    assert(w.heads_of(x) == v.heads_of(x));
                }
            }
            lemma_recorded_grew(v.power_of(d), now, (latest_of(v.power_of(d)) + units) as u128);
            lemma_recorded_grew(v.heads_of(d), now, (latest_of(v.heads_of(d)) + head) as u128);
            lemma_recorded_grew(v.live_total, now, (latest_of(v.live_total) + units) as u128);
            lemma_recorded_grew(v.live_heads, now, (latest_of(v.live_heads) + head) as u128);
            assert forall|x: AccountId| #[trigger] grew_at(v.power_of(x), w.power_of(x), now) by {
                if x != d {
                    assert(w.power_of(x) == v.power_of(x));
                }
            }
            assert forall|x: AccountId| #[trigger] grew_at(v.heads_of(x), w.heads_of(x), now) by {
                if x != d {
                    assert(w.heads_of(x) == v.heads_of(x));
                }
            }
        }
    }
}


// ################## GRANTS ##################

/// Why a grant would be refused, or `None` if it would be made.
pub open spec fn grant_refusal(
    v: MembershipView,
    account: AccountId,
    delegatee: AccountId,
    term_ledgers: u32,
    held: u32,
    now: u32,
) -> Option<MembershipError> {
    if term_refusal(term_ledgers) is Some {
        term_refusal(term_ledgers)
    } else if held == 0 {
        Some(MembershipError::NoVotingUnits)
    } else if v.grant_of(account) matches Some(g) && g.delegatee == delegatee && g.expires_at
        == expiry(now, term_ledgers) {
        Some(MembershipError::AlreadyDelegated)
    } else {
        None
    }
}

/// Granting again is refused as a repeat only when nothing would change: the
/// account's grant already answers to the same delegate and would lapse on
/// the same ledger, `now + term_ledgers` held at the last ledger there is.
/// Any other grant with a usable term and tokens behind it is made. In
/// particular a member whose grant to a delegate has lapsed may grant to the
/// same delegate again, for a term that ends after `now`.
pub proof fn lemma_regranting_is_refused_only_when_unchanged(
    v: MembershipView,
    account: AccountId,
    delegatee: AccountId,
    term_ledgers: u32,
    held: u32,
    now: u32,
)
    requires
        0 < term_ledgers <= MAX_TERM_LEDGERS,
        held > 0,
    ensures
        expiry(now, term_ledgers) == (if now + term_ledgers > u32::MAX {
            u32::MAX as int
        } else {
            now + term_ledgers
        }),
        grant_refusal(v, account, delegatee, term_ledgers, held, now) is None || grant_refusal(
            v,
            account,
            delegatee,
            term_ledgers,
            held,
            now,
        ) == Some(MembershipError::AlreadyDelegated),
        grant_refusal(v, account, delegatee, term_ledgers, held, now) is Some <==> ({
            &&& v.grant_of(account) is Some
            &&& v.grant_of(account).unwrap().delegatee == delegatee
            &&& v.grant_of(account).unwrap().expires_at == (if now + term_ledgers > u32::MAX {
                u32::MAX as int
            } else {
                now + term_ledgers
            })
        }),
        v.grant_of(account) is Some && v.grant_of(account).unwrap().expires_at <= now && now
            + term_ledgers <= u32::MAX ==> grant_refusal(
            v,
            account,
            delegatee,
            term_ledgers,
            held,
            now,
        ) is None,
{
}

/// The power a grant takes back from its delegate.
pub open spec fn taking_back_is_possible(v: MembershipView, i: int) -> bool {
    &&& latest_of(v.power_of(v.grants[i].1.delegatee)) >= v.grants[i].1.units
    &&& latest_of(v.heads_of(v.grants[i].1.delegatee)) >= 1
    &&& latest_of(v.live_total) >= v.grants[i].1.units
    &&& latest_of(v.live_heads) >= 1
}

/// In a well formed membership, every grant is counted for its delegate and
/// in the totals, so taking it back never goes below zero.
proof fn lemma_grant_is_counted(v: MembershipView, i: int)
    requires
        v.wf(),
        0 <= i < v.grants.len(),
    ensures
        taking_back_is_possible(v, i),
        v.grants[i].1.units <= u32::MAX,
{
    let d = v.grants[i].1.delegatee;
    lemma_sum_bounds(v.grants, Share::UnitsTo(d));
    lemma_sum_bounds(v.grants, Share::GrantsTo(d));
    lemma_sum_bounds(v.grants, Share::Units);
    lemma_sum_bounds(v.grants, Share::Grants);
    assert(share(Share::UnitsTo(d), v.grants[i]) <= grant_sum(v.grants, Share::UnitsTo(d)));
    assert(share(Share::GrantsTo(d), v.grants[i]) <= grant_sum(v.grants, Share::GrantsTo(d)));
    assert(share(Share::Units, v.grants[i]) <= grant_sum(v.grants, Share::Units));
    assert(share(Share::Grants, v.grants[i]) <= grant_sum(v.grants, Share::Grants));
    assert(latest_of(v.power_of(d)) == grant_sum(v.grants, Share::UnitsTo(d)));
    assert(latest_of(v.heads_of(d)) == grant_sum(v.grants, Share::GrantsTo(d)));
}

/// Any set of grants of token-sized units sums to well within a `u128`.
proof fn lemma_sums_fit(g: Seq<(AccountId, Grant)>, d: AccountId)
    requires
        units_bounded(g),
        g.len() <= 0x1_0000_0000_0000_0000,
    ensures
        grant_sum(g, Share::Units) <= 0xffff_ffff_ffff_ffff_ffff_ffff,
        grant_sum(g, Share::UnitsTo(d)) <= 0xffff_ffff_ffff_ffff_ffff_ffff,
        grant_sum(g, Share::Grants) <= 0xffff_ffff_ffff_ffff_ffff_ffff,
        grant_sum(g, Share::GrantsTo(d)) <= 0xffff_ffff_ffff_ffff_ffff_ffff,
{
    lemma_sum_bounds(g, Share::Units);
    lemma_sum_bounds(g, Share::UnitsTo(d));
    lemma_sum_bounds(g, Share::Grants);
    lemma_sum_bounds(g, Share::GrantsTo(d));
    assert(g.len() * 0xffff_ffff <= 0x1_0000_0000_0000_0000 * 0xffff_ffff);
}

/// The latest readings once a grant is taken back: its units come off its
/// delegate and off the live total, its head off the delegate's head count
/// and off the live head count, and every other delegate reads as before.
pub open spec fn taken_back(before: MembershipView, after: MembershipView, g: Grant) -> bool {
    &&& latest_of(after.live_total) == latest_of(before.live_total) - g.units
    &&& latest_of(after.live_heads) == latest_of(before.live_heads) - 1
    &&& forall|x: AccountId| #[trigger] latest_of(after.power_of(x)) == latest_of(before.power_of(x))
        - (if x == g.delegatee { g.units as int } else { 0 })
    &&& forall|x: AccountId| #[trigger] latest_of(after.heads_of(x)) == latest_of(before.heads_of(x))
        - (if x == g.delegatee { 1int } else { 0 })
}

/// What one account's grant, if it has one, contributes to a quantity.
pub open spec fn grant_share(sel: Share, g: Option<Grant>) -> int {
    match g {
        Some(g) => match sel {
            Share::Units => g.units as int,
            Share::UnitsTo(d) => if g.delegatee == d {
                g.units as int
            } else {
                0
            },
            Share::Grants => 1,
            Share::GrantsTo(d) => if g.delegatee == d {
                1
            } else {
                0
            },
        },
        None => 0,
    }
}

/// The latest readings once one account's grant `was` is replaced by
/// `becomes` (either may be none): what the old grant counted comes off its
/// delegate and the totals, what the new one counts goes onto its delegate
/// and the totals, and nobody else's readings move.
pub open spec fn regranted(
    before: MembershipView,
    after: MembershipView,
    was: Option<Grant>,
    becomes: Option<Grant>,
) -> bool {
    &&& latest_of(after.live_total) == latest_of(before.live_total) - grant_share(Share::Units, was)
        + grant_share(Share::Units, becomes)
    &&& latest_of(after.live_heads) == latest_of(before.live_heads) - grant_share(Share::Grants, was)
        + grant_share(Share::Grants, becomes)
    &&& forall|x: AccountId| #[trigger] latest_of(after.power_of(x)) == latest_of(before.power_of(x))
        - grant_share(Share::UnitsTo(x), was) + grant_share(Share::UnitsTo(x), becomes)
    &&& forall|x: AccountId| #[trigger] latest_of(after.heads_of(x)) == latest_of(before.heads_of(x))
        - grant_share(Share::GrantsTo(x), was) + grant_share(Share::GrantsTo(x), becomes)
}

/// Readings that moved from `a` to `b` moved the same way between any two
/// memberships with the same histories.
proof fn lemma_regranted_across(
    a: MembershipView,
    a2: MembershipView,
    b: MembershipView,
    b2: MembershipView,
    was: Option<Grant>,
    becomes: Option<Grant>,
)
    requires
        a.power == a2.power && a.heads == a2.heads,
        a.live_total == a2.live_total && a.live_heads == a2.live_heads,
        b.power == b2.power && b.heads == b2.heads,
        b.live_total == b2.live_total && b.live_heads == b2.live_heads,
        regranted(a, b, was, becomes),
    ensures
        regranted(a2, b2, was, becomes),
{
    assert forall|x: AccountId| #[trigger] latest_of(b2.power_of(x)) == latest_of(a2.power_of(x))
        - grant_share(Share::UnitsTo(x), was) + grant_share(Share::UnitsTo(x), becomes) by {
        assert(b2.power_of(x) == b.power_of(x) && a2.power_of(x) == a.power_of(x));
        assert(latest_of(b.power_of(x)) == latest_of(a.power_of(x))
            - grant_share(Share::UnitsTo(x), was) + grant_share(Share::UnitsTo(x), becomes));
    }
    assert forall|x: AccountId| #[trigger] latest_of(b2.heads_of(x)) == latest_of(a2.heads_of(x))
        - grant_share(Share::GrantsTo(x), was) + grant_share(Share::GrantsTo(x), becomes) by {
        assert(b2.heads_of(x) == b.heads_of(x) && a2.heads_of(x) == a.heads_of(x));
        assert(latest_of(b.heads_of(x)) == latest_of(a.heads_of(x))
            - grant_share(Share::GrantsTo(x), was) + grant_share(Share::GrantsTo(x), becomes));
    }
}

/// The accounting holds against a set of grants.
pub open spec fn accounts_for(v: MembershipView, g: Seq<(AccountId, Grant)>) -> bool {
    &&& latest_of(v.live_total) == grant_sum(g, Share::Units)
    &&& latest_of(v.live_heads) == grant_sum(g, Share::Grants)
    &&& forall|d: AccountId| #[trigger] latest_of(v.power_of(d)) == grant_sum(g, Share::UnitsTo(d))
    &&& forall|d: AccountId| #[trigger] latest_of(v.heads_of(d)) == grant_sum(g, Share::GrantsTo(d))
}

impl RatifyMembership {
    /// Grants an account's voting power for a term, to itself or to a
    /// delegate. `held` is how many tokens the account holds.
    ///
    /// Granting again replaces the existing grant, moving the power at once;
    /// power still counted for an expired grant that was never swept comes
    /// off the old delegate here. Nothing before `now` changes.
    pub fn delegate_for(
        &mut self,
        account: AccountId,
        delegatee: AccountId,
        term_ledgers: u32,
        held: u32,
        now: u32,
    ) -> (r: Result<(), MembershipError>)
        requires
            old(self)@.wf(),
            old(self)@.ready_at(now),
        ensures
            final(self)@.wf(),
            final(self)@.ready_at(now),
            old(self)@.keeps_past(final(self)@, now),
            old(self)@.grew_once_at(final(self)@, now),
            r is Err ==> final(self)@ == old(self)@,
            match grant_refusal(old(self)@, account, delegatee, term_ledgers, held, now) {
                Some(e) => r == Err::<(), MembershipError>(e),
                None => r is Ok,
            },
            r is Ok ==> keyed_map(final(self)@.grants) == keyed_map(old(self)@.grants).insert(
                account,
                Grant {
                    delegatee,
                    units: held as u128,
                    expires_at: expiry(now, term_ledgers),
                    granted_at: now,
                },
            ),
            r is Ok ==> regranted(
                old(self)@,
                final(self)@,
                old(self)@.grant_of(account),
                Some(
                    Grant {
                        delegatee,
                        units: held as u128,
                        expires_at: expiry(now, term_ledgers),
                        granted_at: now,
                    },
                ),
            ),
            final(self)@.issuer == old(self)@.issuer,
            final(self)@.member_count == old(self)@.member_count,
            final(self)@.member_since == old(self)@.member_since,
    {
        check_term(term_ledgers)?;
        if held == 0 {
            return Err(MembershipError::NoVotingUnits);
        }
        let expires_at = now.saturating_add(term_ledgers);
        let grant = Grant { delegatee, units: held as u128, expires_at, granted_at: now };
        let ghost v = self@;
        let ghost g0 = v.grants;
        match find_account(&self.grants, account) {
            Some(i) => {
                let existing = self.grants[i].1;
                if existing.delegatee == delegatee && existing.expires_at == expires_at {
                    proof {
                        lemma_key_index(g0, i as int);
                    }
                    return Err(MembershipError::AlreadyDelegated);
                }
                proof {
                    lemma_key_index(g0, i as int);
                    lemma_grant_is_counted(v, i as int);
                }
                let ghost g1 = g0.update(i as int, (account, grant));
                proof {
                    assert forall|k: int| 0 <= k < g1.len() implies #[trigger] g1[k].1.units <= u32::MAX by {
                        if k != i {
                            assert(g1[k] == g0[k]);
                        }
                    }
                    lemma_sums_fit(g1, delegatee);
                    lemma_sum_update(g0, i as int, (account, grant), Share::UnitsTo(delegatee));
                    lemma_sum_update(g0, i as int, (account, grant), Share::GrantsTo(delegatee));
                    lemma_sum_update(g0, i as int, (account, grant), Share::Units);
                    lemma_sum_update(g0, i as int, (account, grant), Share::Grants);
                }
                self.shift_power(existing.delegatee, -(existing.units as i128), -1, now);
                let ghost mid = self@;
                self.shift_power(delegatee, held as i128, 1, now);
                let ghost after = self@;
                self.grants.set(i, (account, grant));
                proof {
                    let w = self@;
                    assert(w.power == after.power && w.heads == after.heads);
                    assert forall|x: AccountId| #[trigger] latest_of(after.power_of(x)) == latest_of(mid.power_of(x)) + (if x == delegatee { held as int } else { 0 }) by {}
                    assert(g0[i as int].1 == existing);
                    assert forall|x: AccountId| #[trigger] latest_of(w.power_of(x)) == latest_of(v.power_of(x)) - share(Share::UnitsTo(x), g0[i as int]) + share(Share::UnitsTo(x), (account, grant)) by {
                        assert(latest_of(mid.power_of(x)) == latest_of(v.power_of(x)) + (if x == existing.delegatee { -(existing.units as i128) } else { 0 }));
                        assert(latest_of(after.power_of(x)) == latest_of(mid.power_of(x)) + (if x == delegatee { held as int } else { 0 }));
                        assert(w.power_of(x) == after.power_of(x));
                    }
                    assert forall|x: AccountId| #[trigger] latest_of(w.heads_of(x)) == latest_of(v.heads_of(x)) - share(Share::GrantsTo(x), g0[i as int]) + share(Share::GrantsTo(x), (account, grant)) by {
                        assert(latest_of(mid.heads_of(x)) == latest_of(v.heads_of(x)) + (if x == existing.delegatee { -1int } else { 0 }));
                        assert(latest_of(after.heads_of(x)) == latest_of(mid.heads_of(x)) + (if x == delegatee { 1int } else { 0 }));
                        assert(w.heads_of(x) == after.heads_of(x));
                    }
                    assert(w.grants == g1);
                    lemma_update_value(g0, i as int, grant);
                    assert(g0[i as int].0 == account);
                    assert forall|x: AccountId| #[trigger] latest_of(w.power_of(x)) == grant_sum(g1, Share::UnitsTo(x)) by {
                        lemma_sum_update(g0, i as int, (account, grant), Share::UnitsTo(x));
                    }
                    assert forall|x: AccountId| #[trigger] latest_of(w.heads_of(x)) == grant_sum(g1, Share::GrantsTo(x)) by {
                        lemma_sum_update(g0, i as int, (account, grant), Share::GrantsTo(x));
                    }
                    lemma_keeps_past_trans(v, mid, after, now, now);
                    lemma_grew_trans(v, mid, after, now);
                    lemma_same_histories(after, w, now);
                    lemma_keeps_past_trans(v, after, w, now, now);
                    lemma_grew_trans(v, after, w, now);
                    assert(v.grant_of(account) == Some(existing));
                    assert forall|x: AccountId| #[trigger] latest_of(w.power_of(x)) == latest_of(v.power_of(x))
                        - grant_share(Share::UnitsTo(x), Some(existing)) + grant_share(Share::UnitsTo(x), Some(grant)) by {
                        assert(latest_of(w.power_of(x)) == latest_of(v.power_of(x)) - share(Share::UnitsTo(x), g0[i as int]) + share(Share::UnitsTo(x), (account, grant)));
                    }
                    assert forall|x: AccountId| #[trigger] latest_of(w.heads_of(x)) == latest_of(v.heads_of(x))
                        - grant_share(Share::GrantsTo(x), Some(existing)) + grant_share(Share::GrantsTo(x), Some(grant)) by {
                        assert(latest_of(w.heads_of(x)) == latest_of(v.heads_of(x)) - share(Share::GrantsTo(x), g0[i as int]) + share(Share::GrantsTo(x), (account, grant)));
                    }
                }
            },
            None => {
                let ghost g1 = g0.push((account, grant));
                proof {
                    assert(self.grants@.len() == self.grants.len());
                    assert forall|k: int| 0 <= k < g1.len() implies #[trigger] g1[k].1.units <= u32::MAX by {
                        if k < g0.len() {
                            assert(g1[k] == g0[k]);
                        }
                    }
                    lemma_sum_push(g0, (account, grant), Share::UnitsTo(delegatee));
                    lemma_sum_push(g0, (account, grant), Share::GrantsTo(delegatee));
                    lemma_sum_push(g0, (account, grant), Share::Units);
                    lemma_sum_push(g0, (account, grant), Share::Grants);
                    lemma_sums_fit(g1, delegatee);
                }
                self.shift_power(delegatee, held as i128, 1, now);
                let ghost after = self@;
                self.grants.push((account, grant));
                proof {
                    let w = self@;
                    assert(w.power == after.power && w.heads == after.heads);
                    assert(w.grants == g1);
                    assert(w.grants.len() == self.grants.len());
                    lemma_sums_fit(g1, delegatee);
                    lemma_push_new_key(g0, account, grant);
                    lemma_same_histories(after, w, now);
                    lemma_keeps_past_trans(v, after, w, now, now);
                    lemma_grew_trans(v, after, w, now);
                    assert forall|x: AccountId| #[trigger] latest_of(w.power_of(x)) == grant_sum(g1, Share::UnitsTo(x)) by {
                        lemma_sum_push(g0, (account, grant), Share::UnitsTo(x));
                        assert(latest_of(after.power_of(x)) == latest_of(v.power_of(x)) + (if x == delegatee { held as int } else { 0 }));
                        assert(w.power_of(x) == after.power_of(x));
                    }
                    assert forall|x: AccountId| #[trigger] latest_of(w.heads_of(x)) == grant_sum(g1, Share::GrantsTo(x)) by {
                        lemma_sum_push(g0, (account, grant), Share::GrantsTo(x));
                        assert(latest_of(after.heads_of(x)) == latest_of(v.heads_of(x)) + (if x == delegatee { 1int } else { 0 }));
                        assert(w.heads_of(x) == after.heads_of(x));
                    }
                    assert(v.grant_of(account) is None);
                    assert forall|x: AccountId| #[trigger] latest_of(w.power_of(x)) == latest_of(v.power_of(x))
                        - grant_share(Share::UnitsTo(x), None) + grant_share(Share::UnitsTo(x), Some(grant)) by {
                        assert(latest_of(after.power_of(x)) == latest_of(v.power_of(x)) + (if x == delegatee { held as int } else { 0 }));
                        assert(w.power_of(x) == after.power_of(x));
                    }
                    assert forall|x: AccountId| #[trigger] latest_of(w.heads_of(x)) == latest_of(v.heads_of(x))
                        - grant_share(Share::GrantsTo(x), None) + grant_share(Share::GrantsTo(x), Some(grant)) by {
                        assert(latest_of(after.heads_of(x)) == latest_of(v.heads_of(x)) + (if x == delegatee { 1int } else { 0 }));
                        assert(w.heads_of(x) == after.heads_of(x));
                    }
                }
            },
        }
        Ok(())
    }
}


/// The grants after an account's holding changes to `held` at `now`: an
/// expired grant is swept rather than resized, a grant left with no tokens
/// behind it goes with the last of them, and a live one counts exactly the
/// tokens now held.
pub open spec fn synced_grants(m: Map<AccountId, Grant>, account: AccountId, held: u32, now: u32) -> Map<
    AccountId,
    Grant,
> {
    if !m.contains_key(account) {
        m
    } else if m[account].expires_at <= now || held == 0 {
        m.remove(account)
    } else {
        m.insert(account, Grant { units: held as u128, ..m[account] })
    }
}

impl RatifyMembership {
    /// Removes the grant at position `i` and takes its power back from its
    /// delegate and the totals.
    fn take_back(&mut self, i: usize, now: u32)
        requires
            old(self)@.wf(),
            old(self)@.ready_at(now),
            i < old(self)@.grants.len(),
        ensures
            final(self)@.wf(),
            final(self)@.ready_at(now),
            old(self)@.keeps_past(final(self)@, now),
            old(self)@.grew_once_at(final(self)@, now),
            final(self)@.grants == old(self)@.grants.remove(i as int),
            keyed_map(final(self)@.grants) == keyed_map(old(self)@.grants).remove(
                old(self)@.grants[i as int].0,
            ),
            taken_back(old(self)@, final(self)@, old(self)@.grants[i as int].1),
            final(self)@.issuer == old(self)@.issuer,
            final(self)@.member_count == old(self)@.member_count,
            final(self)@.member_since == old(self)@.member_since,
    {
        let ghost v = self@;
        let ghost g0 = v.grants;
        let entry = self.grants[i];
        proof {
            lemma_grant_is_counted(v, i as int);
            assert(g0[i as int] == entry);
        }
        self.shift_power(entry.1.delegatee, -(entry.1.units as i128), -1, now);
        let ghost after = self@;
        self.grants.remove(i);
        proof {
            let w = self@;
            let g1 = g0.remove(i as int);
            assert(w.grants == g1);
            assert(w.power == after.power && w.heads == after.heads);
            lemma_remove_at(g0, i as int);
            lemma_sum_remove(g0, i as int, Share::Units);
            lemma_sum_remove(g0, i as int, Share::Grants);
            assert forall|k: int| 0 <= k < g1.len() implies #[trigger] g1[k].1.units <= u32::MAX by {
                if k < i {
                    assert(g1[k] == g0[k]);
                } else {
                    assert(g1[k] == g0[k + 1]);
                }
            }
            assert forall|x: AccountId| #[trigger] latest_of(w.power_of(x)) == grant_sum(g1, Share::UnitsTo(x)) by {
                lemma_sum_remove(g0, i as int, Share::UnitsTo(x));
                assert(latest_of(after.power_of(x)) == latest_of(v.power_of(x)) + (if x == entry.1.delegatee { -(entry.1.units as i128) } else { 0 }));
                assert(w.power_of(x) == after.power_of(x));
            }
            assert forall|x: AccountId| #[trigger] latest_of(w.heads_of(x)) == grant_sum(g1, Share::GrantsTo(x)) by {
                lemma_sum_remove(g0, i as int, Share::GrantsTo(x));
                assert(latest_of(after.heads_of(x)) == latest_of(v.heads_of(x)) + (if x == entry.1.delegatee { -1int } else { 0 }));
                assert(w.heads_of(x) == after.heads_of(x));
            }
            lemma_same_histories(after, w, now);
            lemma_keeps_past_trans(v, after, w, now, now);
            lemma_grew_trans(v, after, w, now);
            assert forall|x: AccountId| #[trigger] latest_of(w.power_of(x)) == latest_of(v.power_of(x))
                - (if x == entry.1.delegatee { entry.1.units as int } else { 0 }) by {
                assert(w.power_of(x) == after.power_of(x));
            }
            assert forall|x: AccountId| #[trigger] latest_of(w.heads_of(x)) == latest_of(v.heads_of(x))
                - (if x == entry.1.delegatee { 1int } else { 0 }) by {
                assert(w.heads_of(x) == after.heads_of(x));
            }
            assert(taken_back(v, w, g0[i as int].1));
        }
    }

    /// Replaces the grant at position `i` with one that keeps its delegate
    /// and term but counts `units`, moving the difference in power.
    fn resize(&mut self, i: usize, units: u32, now: u32)
        requires
            old(self)@.wf(),
            old(self)@.ready_at(now),
            i < old(self)@.grants.len(),
        ensures
            final(self)@.wf(),
            final(self)@.ready_at(now),
            old(self)@.keeps_past(final(self)@, now),
            old(self)@.grew_once_at(final(self)@, now),
            keyed_map(final(self)@.grants) == keyed_map(old(self)@.grants).insert(
                old(self)@.grants[i as int].0,
                Grant { units: units as u128, ..old(self)@.grants[i as int].1 },
            ),
            regranted(
                old(self)@,
                final(self)@,
                Some(old(self)@.grants[i as int].1),
                Some(Grant { units: units as u128, ..old(self)@.grants[i as int].1 }),
            ),
            final(self)@.issuer == old(self)@.issuer,
            final(self)@.member_count == old(self)@.member_count,
            final(self)@.member_since == old(self)@.member_since,
    {
        let ghost v = self@;
        let ghost g0 = v.grants;
        let entry = self.grants[i];
        let resized = Grant { units: units as u128, ..entry.1 };
        let ghost g1 = g0.update(i as int, (entry.0, resized));
        proof {
            lemma_grant_is_counted(v, i as int);
            assert(g0[i as int] == entry);
            assert forall|k: int| 0 <= k < g1.len() implies #[trigger] g1[k].1.units <= u32::MAX by {
                if k != i {
                    assert(g1[k] == g0[k]);
                }
            }
            lemma_sums_fit(g1, entry.1.delegatee);
            lemma_sum_update(g0, i as int, (entry.0, resized), Share::Units);
            lemma_sum_update(g0, i as int, (entry.0, resized), Share::Grants);
            lemma_sum_update(g0, i as int, (entry.0, resized), Share::UnitsTo(entry.1.delegatee));
        }
        let delta: i128 = (units as i128) - (entry.1.units as i128);
        self.shift_power(entry.1.delegatee, delta, 0, now);
        let ghost after = self@;
        self.grants.set(i, (entry.0, resized));
        proof {
            let w = self@;
            assert(w.grants == g1);
            assert(w.power == after.power && w.heads == after.heads);
            lemma_update_value(g0, i as int, resized);
            assert forall|x: AccountId| #[trigger] latest_of(w.power_of(x)) == grant_sum(g1, Share::UnitsTo(x)) by {
                lemma_sum_update(g0, i as int, (entry.0, resized), Share::UnitsTo(x));
                assert(latest_of(after.power_of(x)) == latest_of(v.power_of(x)) + (if x == entry.1.delegatee { delta as int } else { 0 }));
                assert(w.power_of(x) == after.power_of(x));
            }
            assert forall|x: AccountId| #[trigger] latest_of(w.heads_of(x)) == grant_sum(g1, Share::GrantsTo(x)) by {
                lemma_sum_update(g0, i as int, (entry.0, resized), Share::GrantsTo(x));
                assert(latest_of(after.heads_of(x)) == latest_of(v.heads_of(x)));
                assert(w.heads_of(x) == after.heads_of(x));
            }
            assert forall|x: AccountId| #[trigger] latest_of(w.power_of(x)) == latest_of(v.power_of(x))
                - grant_share(Share::UnitsTo(x), Some(entry.1)) + grant_share(Share::UnitsTo(x), Some(resized)) by {
                assert(latest_of(after.power_of(x)) == latest_of(v.power_of(x)) + (if x == entry.1.delegatee { delta as int } else { 0 }));
                assert(w.power_of(x) == after.power_of(x));
            }
            assert forall|x: AccountId| #[trigger] latest_of(w.heads_of(x)) == latest_of(v.heads_of(x))
                - grant_share(Share::GrantsTo(x), Some(entry.1)) + grant_share(Share::GrantsTo(x), Some(resized)) by {
                assert(latest_of(after.heads_of(x)) == latest_of(v.heads_of(x)));
                assert(w.heads_of(x) == after.heads_of(x));
            }
            lemma_same_histories(after, w, now);
            lemma_keeps_past_trans(v, after, w, now, now);
            lemma_grew_trans(v, after, w, now);
        }
    }

    /// Keeps an account's grant in step with its holding after a token is
    /// issued or revoked: the power counted for a live grant is always the
    /// tokens held now, and a grant that has expired is swept instead, so a
    /// member who stopped renewing cannot add weight to a delegate.
    fn sync_grant(&mut self, account: AccountId, held: u32, now: u32)
        requires
            old(self)@.wf(),
            old(self)@.ready_at(now),
        ensures
            final(self)@.wf(),
            final(self)@.ready_at(now),
            old(self)@.keeps_past(final(self)@, now),
            old(self)@.grew_once_at(final(self)@, now),
            keyed_map(final(self)@.grants) == synced_grants(keyed_map(old(self)@.grants), account, held, now),
            old(self)@.grant_of(account) is Some && (old(self)@.grant_of(account).unwrap().expires_at
                <= now || held == 0) ==> taken_back(
                old(self)@,
                final(self)@,
                old(self)@.grant_of(account).unwrap(),
            ),
            old(self)@.grant_of(account) is Some && old(self)@.grant_of(account).unwrap().expires_at
                > now && held != 0 ==> regranted(
                old(self)@,
                final(self)@,
                old(self)@.grant_of(account),
                Some(Grant { units: held as u128, ..old(self)@.grant_of(account).unwrap() }),
            ),
            !has_key(old(self)@.grants, account) ==> final(self)@ == old(self)@,
            final(self)@.issuer == old(self)@.issuer,
            final(self)@.member_count == old(self)@.member_count,
            final(self)@.member_since == old(self)@.member_since,
    {
        let ghost v = self@;
        let i = match find_account(&self.grants, account) {
            Some(i) => i,
            None => {
                proof {
                    lemma_same_histories(v, v, now);
                }
                return;
            },
        };
        proof {
            lemma_key_index(v.grants, i as int);
        }
        let grant = self.grants[i].1;
        if grant.expires_at <= now || held == 0 {
            self.take_back(i, now);
            return;
        }
        if held as u128 == grant.units {
            proof {
                lemma_same_histories(v, v, now);
                assert(keyed_map(v.grants).insert(account, Grant { units: held as u128, ..grant }) =~= keyed_map(v.grants));
            }
            return;
        }
        self.resize(i, held, now);
    }

    /// Issues a membership token to `to`, who held `held_before` tokens until
    /// now. Only the issuer may do this.
    ///
    /// Issuing gives no voting power by itself. An account that held nothing
    /// becomes a member from `now`; a live grant grows to count the new token,
    /// and an expired one is swept.
    pub fn issue(&mut self, caller: AccountId, to: AccountId, held_before: u32, now: u32) -> (r: Result<
        (),
        MembershipError,
    >)
        requires
            old(self)@.wf(),
            old(self)@.ready_at(now),
            held_before < u32::MAX,
            held_before == 0 && !old(self)@.member_since.contains_key(to) ==> old(self)@.member_count
                < u32::MAX,
        ensures
            final(self)@.wf(),
            final(self)@.ready_at(now),
            old(self)@.keeps_past(final(self)@, now),
            old(self)@.grew_once_at(final(self)@, now),
            r is Err ==> final(self)@ == old(self)@,
            r is Ok <==> caller == old(self)@.issuer,
            r matches Err(e) ==> e == MembershipError::NotIssuer,
            r is Ok ==> keyed_map(final(self)@.grants) == synced_grants(
                keyed_map(old(self)@.grants),
                to,
                (held_before + 1) as u32,
                now,
            ),
            r is Ok ==> final(self)@.member_since == (if held_before == 0
                && !old(self)@.member_since.contains_key(to) {
                old(self)@.member_since.insert(to, now)
            } else {
                old(self)@.member_since
            }),
            r is Ok && old(self)@.grant_of(to) is Some && old(self)@.grant_of(to).unwrap().expires_at
                > now ==> regranted(
                old(self)@,
                final(self)@,
                old(self)@.grant_of(to),
                Some(Grant { units: (held_before + 1) as u128, ..old(self)@.grant_of(to).unwrap() }),
            ),
            r is Ok && old(self)@.grant_of(to) is Some && old(self)@.grant_of(to).unwrap().expires_at
                <= now ==> regranted(old(self)@, final(self)@, old(self)@.grant_of(to), None),
            r is Ok && old(self)@.grant_of(to) is None ==> {
                &&& final(self)@.grants == old(self)@.grants
                &&& final(self)@.power == old(self)@.power
                &&& final(self)@.heads == old(self)@.heads
                &&& final(self)@.live_total == old(self)@.live_total
                &&& final(self)@.live_heads == old(self)@.live_heads
            },
            final(self)@.issuer == old(self)@.issuer,
    {
        if caller != self.issuer {
            proof {
                lemma_same_histories(self@, self@, now);
            }
            return Err(MembershipError::NotIssuer);
        }
        let ghost v = self@;
        if held_before == 0 {
            self.count_member(to, now);
        }
        let ghost mid = self@;
        self.sync_grant(to, held_before + 1, now);
        proof {
            let w = self@;
            lemma_same_histories(v, mid, now);
            lemma_grew_trans(v, mid, w, now);
            assert(v.grants == mid.grants);
            if v.grant_of(to) is Some {
                let g = v.grant_of(to).unwrap();
                if g.expires_at > now {
                    lemma_regranted_across(mid, v, w, w, Some(g), Some(Grant { units: (held_before + 1) as u128, ..g }));
                } else {
                    assert(regranted(mid, w, Some(g), None));
                    lemma_regranted_across(mid, v, w, w, Some(g), None);
                }
            }
        }
        Ok(())
    }

    /// Revokes a membership token from `from`, who holds `held_after` tokens
    /// once it is gone. Only the issuer may do this.
    ///
    /// Any power the token was carrying leaves with it, including power
    /// granted to a delegate. An account left with no tokens stops being a
    /// member, and its grant goes with its last token: its delegate loses the
    /// head it counted as well as the units.
    pub fn revoke(&mut self, caller: AccountId, from: AccountId, held_after: u32, now: u32) -> (r: Result<
        (),
        MembershipError,
    >)
        requires
            old(self)@.wf(),
            old(self)@.ready_at(now),
        ensures
            final(self)@.wf(),
            final(self)@.ready_at(now),
            old(self)@.keeps_past(final(self)@, now),
            old(self)@.grew_once_at(final(self)@, now),
            r is Err ==> final(self)@ == old(self)@,
            r is Ok <==> caller == old(self)@.issuer,
            r matches Err(e) ==> e == MembershipError::NotIssuer,
            r is Ok ==> keyed_map(final(self)@.grants) == synced_grants(
                keyed_map(old(self)@.grants),
                from,
                held_after,
                now,
            ),
            r is Ok ==> final(self)@.member_since == (if held_after == 0 {
                old(self)@.member_since.remove(from)
            } else {
                old(self)@.member_since
            }),
            r is Ok && old(self)@.grant_of(from) is Some && old(self)@.grant_of(from).unwrap().expires_at
                > now && held_after != 0 ==> regranted(
                old(self)@,
                final(self)@,
                old(self)@.grant_of(from),
                Some(Grant { units: held_after as u128, ..old(self)@.grant_of(from).unwrap() }),
            ),
            r is Ok && old(self)@.grant_of(from) is Some && (old(self)@.grant_of(from).unwrap().expires_at
                <= now || held_after == 0) ==> taken_back(
                old(self)@,
                final(self)@,
                old(self)@.grant_of(from).unwrap(),
            ),
            final(self)@.issuer == old(self)@.issuer,
    {
        if caller != self.issuer {
            proof {
                lemma_same_histories(self@, self@, now);
            }
            return Err(MembershipError::NotIssuer);
        }
        self.sync_grant(from, held_after, now);
        let ghost mid = self@;
        if held_after == 0 {
            self.discount_member(from);
        }
        proof {
            let w = self@;
            lemma_same_histories(mid, w, now);
            lemma_keeps_past_trans(old(self)@, mid, w, now, now);
            lemma_grew_trans(old(self)@, mid, w, now);
            let v = old(self)@;
            if v.grant_of(from) is Some && v.grant_of(from).unwrap().expires_at > now && held_after != 0 {
                let g = v.grant_of(from).unwrap();
                lemma_regranted_across(v, v, mid, w, Some(g), Some(Grant { units: held_after as u128, ..g }));
            }
            if v.grant_of(from) is Some && (v.grant_of(from).unwrap().expires_at <= now || held_after == 0) {
                let g = v.grant_of(from).unwrap();
                assert(taken_back(v, mid, g));
                assert forall|x: AccountId| #[trigger] latest_of(w.power_of(x)) == latest_of(v.power_of(x))
                    - (if x == g.delegatee { g.units as int } else { 0 }) by {
                    assert(w.power_of(x) == mid.power_of(x));
                    assert(latest_of(mid.power_of(x)) == latest_of(v.power_of(x))
                        - (if x == g.delegatee { g.units as int } else { 0 }));
                }
                assert forall|x: AccountId| #[trigger] latest_of(w.heads_of(x)) == latest_of(v.heads_of(x))
                    - (if x == g.delegatee { 1int } else { 0 }) by {
                    assert(w.heads_of(x) == mid.heads_of(x));
                    assert(latest_of(mid.heads_of(x)) == latest_of(v.heads_of(x))
                        - (if x == g.delegatee { 1int } else { 0 }));
                }
            }
        }
        Ok(())
    }

    /// Hands the right to issue membership to another address. Only the
    /// current issuer may do this.
    pub fn transfer_issuance(&mut self, caller: AccountId, new_issuer: AccountId) -> (r: Result<
        (),
        MembershipError,
    >)
        ensures
            r is Err ==> final(self)@ == old(self)@,
            r is Ok <==> caller == old(self)@.issuer,
            r matches Err(e) ==> e == MembershipError::NotIssuer,
            r is Ok ==> final(self)@ == (MembershipView { issuer: new_issuer, ..old(self)@ }),
    {
        if caller != self.issuer {
            return Err(MembershipError::NotIssuer);
        }
        self.issuer = new_issuer;
        Ok(())
    }

    /// Counts an account as a member from `now`, once.
    fn count_member(&mut self, account: AccountId, now: u32)
        requires
            old(self)@.wf(),
            !old(self)@.member_since.contains_key(account) ==> old(self)@.member_count < u32::MAX,
        ensures
            final(self)@.wf(),
            final(self)@ == (MembershipView {
                member_since: if old(self)@.member_since.contains_key(account) {
                    old(self)@.member_since
                } else {
                    old(self)@.member_since.insert(account, now)
                },
                member_count: if old(self)@.member_since.contains_key(account) {
                    old(self)@.member_count
                } else {
                    (old(self)@.member_count + 1) as u32
                },
                ..old(self)@
            }),
    {
        if self.member_since.contains_key(&account) {
            return;
        }
        let ghost before = self@;
        self.member_since.insert(account, now);
        self.member_count = self.member_count + 1;
        proof {
            assert(self@.member_since.dom() =~= before.member_since.dom().insert(account));
            assert(self@.power == before.power && self@.heads == before.heads);
            assert(self@.member_since.dom().len() == before.member_since.dom().len() + 1);
            lemma_wf_members_only(before, self@);
        }
    }

    /// Stops counting an account as a member.
    fn discount_member(&mut self, account: AccountId)
        requires
            old(self)@.wf(),
        ensures
            final(self)@.wf(),
            final(self)@ == (MembershipView {
                member_since: old(self)@.member_since.remove(account),
                member_count: if old(self)@.member_since.contains_key(account) {
                    (old(self)@.member_count - 1) as u32
                } else {
                    old(self)@.member_count
                },
                ..old(self)@
            }),
    {
        if !self.member_since.contains_key(&account) {
            proof {
                assert(self@.member_since.remove(account) =~= self@.member_since);
            }
            return;
        }
        let ghost before = self@;
        self.member_since.remove(&account);
        self.member_count = self.member_count.saturating_sub(1);
        proof {
            assert(self@.member_since.dom() =~= before.member_since.dom().remove(account));
            assert(self@.power == before.power && self@.heads == before.heads);
            assert(self@.member_since.dom().len() == before.member_since.dom().len() - 1);
            lemma_wf_members_only(before, self@);
        }
    }

    /// Extends a live grant for a further term, without changing who holds it
    /// or what it counts. A grant that has already lapsed cannot be renewed;
    /// it is made again.
    pub fn renew(&mut self, account: AccountId, term_ledgers: u32, now: u32) -> (r: Result<
        (),
        MembershipError,
    >)
        requires
            old(self)@.wf(),
        ensures
            final(self)@.wf(),
            r is Err ==> final(self)@ == old(self)@,
            r matches Err(e) ==> e == (if term_refusal(term_ledgers) is Some {
                term_refusal(term_ledgers).unwrap()
            } else {
                MembershipError::NoGrant
            }),
            r is Ok <==> (term_refusal(term_ledgers) is None && old(self)@.grant_of(account) is Some
                && old(self)@.grant_of(account).unwrap().expires_at > now),
            r is Ok ==> keyed_map(final(self)@.grants) == keyed_map(old(self)@.grants).insert(
                account,
                Grant {
                    expires_at: expiry(now, term_ledgers),
                    granted_at: now,
                    ..old(self)@.grant_of(account).unwrap()
                },
            ),
            final(self)@.power == old(self)@.power,
            final(self)@.heads == old(self)@.heads,
            final(self)@.live_total == old(self)@.live_total,
            final(self)@.live_heads == old(self)@.live_heads,
            final(self)@.issuer == old(self)@.issuer,
            final(self)@.member_count == old(self)@.member_count,
            final(self)@.member_since == old(self)@.member_since,
    {
        check_term(term_ledgers)?;
        let ghost v = self@;
        let ghost g0 = v.grants;
        let i = match find_account(&self.grants, account) {
            Some(i) => i,
            None => {
                return Err(MembershipError::NoGrant);
            },
        };
        proof {
            lemma_key_index(g0, i as int);
        }
        let grant = self.grants[i].1;
        if grant.expires_at <= now {
            return Err(MembershipError::NoGrant);
        }
        let renewed = Grant { expires_at: now.saturating_add(term_ledgers), granted_at: now, ..grant };
        self.grants.set(i, (account, renewed));
        proof {
            assert(g0[i as int].1 == grant);
            assert(self@.power == v.power && self@.heads == v.heads);
            let g1 = g0.update(i as int, (account, renewed));
            assert(self@.grants == g1);
            lemma_update_value(g0, i as int, renewed);
            lemma_sum_update(g0, i as int, (account, renewed), Share::Units);
            lemma_sum_update(g0, i as int, (account, renewed), Share::Grants);
            assert forall|k: int| 0 <= k < g1.len() implies #[trigger] g1[k].1.units <= u32::MAX by {
                if k != i {
                    assert(g1[k] == g0[k]);
                }
            }
            assert forall|x: AccountId| #[trigger] latest_of(self@.power_of(x)) == grant_sum(g1, Share::UnitsTo(x)) by {
                lemma_sum_update(g0, i as int, (account, renewed), Share::UnitsTo(x));
                assert(self@.power_of(x) == v.power_of(x));
            }
            assert forall|x: AccountId| #[trigger] latest_of(self@.heads_of(x)) == grant_sum(g1, Share::GrantsTo(x)) by {
                lemma_sum_update(g0, i as int, (account, renewed), Share::GrantsTo(x));
                assert(self@.heads_of(x) == v.heads_of(x));
            }
        }
        Ok(())
    }

    /// Takes back a grant before its term is up, and the power it carries.
    pub fn withdraw(&mut self, account: AccountId, now: u32) -> (r: Result<(), MembershipError>)
        requires
            old(self)@.wf(),
            old(self)@.ready_at(now),
        ensures
            final(self)@.wf(),
            final(self)@.ready_at(now),
            old(self)@.keeps_past(final(self)@, now),
            old(self)@.grew_once_at(final(self)@, now),
            r is Err ==> final(self)@ == old(self)@,
            r is Ok <==> old(self)@.grant_of(account) is Some,
            r matches Err(e) ==> e == MembershipError::NoGrant,
            r is Ok ==> keyed_map(final(self)@.grants) == keyed_map(old(self)@.grants).remove(account),
            r is Ok ==> taken_back(old(self)@, final(self)@, old(self)@.grant_of(account).unwrap()),
            final(self)@.issuer == old(self)@.issuer,
            final(self)@.member_count == old(self)@.member_count,
            final(self)@.member_since == old(self)@.member_since,
    {
        let ghost v = self@;
        let i = match find_account(&self.grants, account) {
            Some(i) => i,
            None => {
                proof {
                    lemma_same_histories(v, v, now);
                }
                return Err(MembershipError::NoGrant);
            },
        };
        proof {
            lemma_key_index(v.grants, i as int);
        }
        self.take_back(i, now);
        Ok(())
    }

    /// Sweeps an expired grant, taking its power out of the live total.
    ///
    /// Anyone may do this for anyone; the member consented when they chose a
    /// term. A grant still live at `now` cannot be swept.
    pub fn lapse(&mut self, account: AccountId, now: u32) -> (r: Result<(), MembershipError>)
        requires
            old(self)@.wf(),
            old(self)@.ready_at(now),
        ensures
            final(self)@.wf(),
            final(self)@.ready_at(now),
            old(self)@.keeps_past(final(self)@, now),
            old(self)@.grew_once_at(final(self)@, now),
            r is Err ==> final(self)@ == old(self)@,
            match old(self)@.grant_of(account) {
                None => r == Err::<(), MembershipError>(MembershipError::NoGrant),
                Some(g) => if g.expires_at > now {
                    r == Err::<(), MembershipError>(MembershipError::GrantStillLive)
                } else {
                    r is Ok
                },
            },
            r is Ok ==> keyed_map(final(self)@.grants) == keyed_map(old(self)@.grants).remove(account),
            r is Ok ==> taken_back(old(self)@, final(self)@, old(self)@.grant_of(account).unwrap()),
            final(self)@.issuer == old(self)@.issuer,
            final(self)@.member_count == old(self)@.member_count,
            final(self)@.member_since == old(self)@.member_since,
    {
        let ghost v = self@;
        let i = match find_account(&self.grants, account) {
            Some(i) => i,
            None => {
                proof {
                    lemma_same_histories(v, v, now);
                }
                return Err(MembershipError::NoGrant);
            },
        };
        proof {
            lemma_key_index(v.grants, i as int);
        }
        if self.grants[i].1.expires_at > now {
            proof {
                lemma_same_histories(v, v, now);
            }
            return Err(MembershipError::GrantStillLive);
        }
        self.take_back(i, now);
        Ok(())
    }
}

} // verus!
