//! The factory's register of communities, the settings a community is
//! deployed with, and how its six contracts are wired to one another.
//!
//! Deploying code and computing where it will live are the ledger's work; the
//! register, the checks on the settings, the bytes each contract's address is
//! derived from and the permission chain between the contracts are this
//! module's.

use vstd::prelude::*;

use crate::membership::{Grant, RatifyMembership};
use crate::registry::{Proposal, RatifyDelegateRegistry, Record, RegistryError};
use crate::timelock::{RatifyTimelock, TimelockView};
use crate::treasury::{AssetPolicy, Outflow, RatifyTreasury};
use crate::governor::{GovernorView, RatifyGovernor};
use crate::weight_rule::{RatifyWeightRule, WeightModel};
use crate::{AccountId, Hash32, BPS};

verus! {

/// The most communities one register will hold. A register that grows without
/// limit is a page that eventually cannot be loaded.
pub const MAX_COMMUNITIES: u32 = 10_000;

/// The set of contracts that make up one community.
#[derive(Clone, Debug, PartialEq, Eq)]
pub struct Community {
    /// Membership tokens and voting power.
    pub membership: AccountId,
    /// How a vote is priced.
    pub weight_rule: AccountId,
    /// Proposals and votes.
    pub governor: AccountId,
    /// The delay between approval and action.
    pub timelock: AccountId,
    /// The funds, and the policy on them.
    pub treasury: AccountId,
    /// The delegates' public record.
    pub registry: AccountId,
    /// The community's name, as its membership token carries it.
    pub name: String,
    /// The ledger the community was deployed on.
    pub deployed_at: u32,
}

/// The code each contract in a community is deployed from, fixed when the
/// factory is made, so every community in one register runs the same
/// contracts.
#[derive(Clone, Copy, Debug, PartialEq, Eq)]
pub struct Wasms {
    pub membership: Hash32,
    pub weight_rule: Hash32,
    pub governor: Hash32,
    pub timelock: Hash32,
    pub treasury: Hash32,
    pub registry: Hash32,
}

/// What a community chooses when it is created.
#[derive(Clone, Debug, PartialEq, Eq)]
pub struct Settings {
    /// The membership token's name, symbol and metadata location.
    pub name: String,
    pub symbol: String,
    pub base_uri: String,
    /// Who may issue membership at the start.
    pub founder: AccountId,
    /// Who may pull the brake on a queued action.
    pub guardian: AccountId,
    /// Ledgers between approval and the earliest possible action.
    pub timelock_delay: u32,
    /// Ledgers between a proposal being made and voting opening.
    pub voting_delay: u32,
    /// Ledgers voting stays open for.
    pub voting_period: u32,
    /// The voting power needed to open a proposal.
    pub proposal_threshold: u128,
    /// The share of live voting power a proposal must reach, in hundredths of
    /// a percent.
    pub quorum_bps: u32,
    /// How close a result must be to count as contested, in hundredths of a
    /// percent.
    pub contested_margin_bps: u32,
}

/// Why the factory refused a call.
#[derive(Clone, Copy, Debug, PartialEq, Eq, Structural)]
pub enum FactoryError {
    /// The factory has no wasm hashes.
    NotConfigured,
    /// There is no community at that position.
    NotFound,
    /// A community must have a delay, or the queue means nothing.
    DelayCannotBeZero,
    /// A voting period of no ledgers cannot be voted in.
    VotingPeriodCannotBeZero,
    /// The quorum share must be a fraction, and not zero.
    InvalidQuorum,
    /// More communities than the register will hold.
    RegisterFull,
}

impl FactoryError {
    /// The number the error is reported under.
    pub fn code(&self) -> (c: u32)
        ensures
            c == match *self {
                FactoryError::NotConfigured => 1u32,
                FactoryError::NotFound => 2,
                FactoryError::DelayCannotBeZero => 3,
                FactoryError::VotingPeriodCannotBeZero => 4,
                FactoryError::InvalidQuorum => 5,
                FactoryError::RegisterFull => 6,
            },
    {
        match *self {
            FactoryError::NotConfigured => 1,
            FactoryError::NotFound => 2,
            FactoryError::DelayCannotBeZero => 3,
            FactoryError::VotingPeriodCannotBeZero => 4,
            FactoryError::InvalidQuorum => 5,
            FactoryError::RegisterFull => 6,
        }
    }
}

/// Why a deployment was refused: by the factory's own checks, or by the
/// delegate registry's constructor, in which case nothing is built.
#[derive(Clone, Copy, Debug, PartialEq, Eq, Structural)]
pub enum DeployRefusal {
    Factory(FactoryError),
    Registry(RegistryError),
}

/// The part each contract plays in a community. Its name is mixed into the
/// community's salt, so the six contracts land at six distinct addresses.
#[derive(Clone, Copy, Debug, PartialEq, Eq, Structural)]
pub enum Role {
    Membership,
    WeightRule,
    Governor,
    Timelock,
    Treasury,
    Registry,
}

/// The bytes of a role's name.
pub open spec fn role_name(role: Role) -> Seq<u8> {
    match role {
        Role::Membership => seq!['m' as u8, 'e' as u8, 'm' as u8, 'b' as u8, 'e' as u8, 'r' as u8, 's' as u8, 'h' as u8, 'i' as u8, 'p' as u8],
        Role::WeightRule => seq!['w' as u8, 'e' as u8, 'i' as u8, 'g' as u8, 'h' as u8, 't' as u8, 'r' as u8, 'u' as u8, 'l' as u8, 'e' as u8],
        Role::Governor => seq!['g' as u8, 'o' as u8, 'v' as u8, 'e' as u8, 'r' as u8, 'n' as u8, 'o' as u8, 'r' as u8],
        Role::Timelock => seq!['t' as u8, 'i' as u8, 'm' as u8, 'e' as u8, 'l' as u8, 'o' as u8, 'c' as u8, 'k' as u8],
        Role::Treasury => seq!['t' as u8, 'r' as u8, 'e' as u8, 'a' as u8, 's' as u8, 'u' as u8, 'r' as u8, 'y' as u8],
        Role::Registry => seq!['r' as u8, 'e' as u8, 'g' as u8, 'i' as u8, 's' as u8, 't' as u8, 'r' as u8, 'y' as u8],
    }
}

/// The bytes a contract's deployment salt is hashed from: the community's
/// salt followed by the name of the contract's role.
pub open spec fn role_salt_bytes(salt: Hash32, role: Role) -> Seq<u8> {
    salt@ + role_name(role)
}

fn role_name_bytes(role: Role) -> (bytes: Vec<u8>)
    ensures
        bytes@ == role_name(role),
{
    let bytes = match role {
        Role::Membership => vec!['m' as u8, 'e' as u8, 'm' as u8, 'b' as u8, 'e' as u8, 'r' as u8, 's' as u8, 'h' as u8, 'i' as u8, 'p' as u8],
        Role::WeightRule => vec!['w' as u8, 'e' as u8, 'i' as u8, 'g' as u8, 'h' as u8, 't' as u8, 'r' as u8, 'u' as u8, 'l' as u8, 'e' as u8],
        Role::Governor => vec!['g' as u8, 'o' as u8, 'v' as u8, 'e' as u8, 'r' as u8, 'n' as u8, 'o' as u8, 'r' as u8],
        Role::Timelock => vec!['t' as u8, 'i' as u8, 'm' as u8, 'e' as u8, 'l' as u8, 'o' as u8, 'c' as u8, 'k' as u8],
        Role::Treasury => vec!['t' as u8, 'r' as u8, 'e' as u8, 'a' as u8, 's' as u8, 'u' as u8, 'r' as u8, 'y' as u8],
        Role::Registry => vec!['r' as u8, 'e' as u8, 'g' as u8, 'i' as u8, 's' as u8, 't' as u8, 'r' as u8, 'y' as u8],
    };
    proof {
        assert(bytes@ =~= role_name(role));
    }
    bytes
}

/// Returns the bytes the salt of the contract playing `role` in the community
/// deployed under `salt` is hashed from.
pub fn role_salt_preimage(salt: &Hash32, role: Role) -> (bytes: Vec<u8>)
    ensures
        bytes@ == role_salt_bytes(*salt, role),
{
    let mut bytes: Vec<u8> = Vec::new();
    let mut i: usize = 0;
    while i < 32
        invariant
            0 <= i <= 32,
            bytes@ == salt@.take(i as int),
        decreases 32 - i,
    {
        bytes.push(salt[i]);
        i = i + 1;
        proof {
            assert(bytes@ =~= salt@.take(i as int));
        }
    }
    let name = role_name_bytes(role);
    let mut k: usize = 0;
    while k < name.len()
        invariant
            0 <= k <= name@.len(),
            name@ == role_name(role),
            bytes@ == salt@ + name@.take(k as int),
        decreases name@.len() - k,
    {
        bytes.push(name[k]);
        k = k + 1;
        proof {
            assert(bytes@ =~= salt@ + name@.take(k as int));
        }
    }
    proof {
        assert(name@.take(name@.len() as int) =~= name@);
        assert(salt@.take(32) =~= salt@);
    }
    bytes
}

/// Whether settings describe a community that can work: a real delay, a
/// voting period that can be voted in, and a quorum that is a fraction of the
/// whole and more than nothing.
pub open spec fn settings_ok(settings: Settings) -> bool {
    &&& settings.timelock_delay > 0
    &&& settings.voting_period > 0
    &&& 0 < settings.quorum_bps <= BPS
}

/// Why deploying a community with `settings` into a register already holding
/// `count` communities would be refused, or `None`.
pub open spec fn deploy_refusal(settings: Settings, count: nat) -> Option<FactoryError> {
    if settings.timelock_delay == 0 {
        Some(FactoryError::DelayCannotBeZero)
    } else if settings.voting_period == 0 {
        Some(FactoryError::VotingPeriodCannotBeZero)
    } else if settings.quorum_bps == 0 || settings.quorum_bps > BPS {
        Some(FactoryError::InvalidQuorum)
    } else if count >= MAX_COMMUNITIES {
        Some(FactoryError::RegisterFull)
    } else {
        None
    }
}

/// Why deploying a community with `settings` into a register already holding
/// `count` communities would be refused, in the order the checks are made,
/// the registry's refusal of a contested margin of more than the whole coming
/// last; or `None`.
pub open spec fn refusal(settings: Settings, count: nat) -> Option<DeployRefusal> {
    match deploy_refusal(settings, count) {
        Some(e) => Some(DeployRefusal::Factory(e)),
        None => if settings.contested_margin_bps > BPS {
            Some(DeployRefusal::Registry(RegistryError::InvalidMargin))
        } else {
            None
        },
    }
}

/// The page of a register that starts at `start` and holds at most `limit`
/// communities, oldest first; nothing when `start` is past the end.
pub open spec fn page_of(register: Seq<Community>, start: int, limit: int) -> Seq<Community> {
    if start >= register.len() {
        Seq::empty()
    } else if start + limit >= register.len() {
        register.subrange(start, register.len() as int)
    } else {
        register.subrange(start, start + limit)
    }
}

/// Whether `index` is the latest entry of the register whose governor is
/// `governor`.
pub open spec fn latest_with_governor(register: Seq<Community>, governor: AccountId, index: int) -> bool {
    &&& 0 <= index < register.len()
    &&& register[index].governor == governor
    &&& forall|j: int| index < j < register.len() ==> #[trigger] register[j].governor != governor
}

/// The factory's state: the code every community runs, and the register.
pub struct FactoryView {
    pub wasms: Wasms,
    pub communities: Seq<Community>,
}

impl FactoryView {
    /// The register never holds more than it may.
    pub open spec fn wf(self) -> bool {
        self.communities.len() <= MAX_COMMUNITIES
    }
}

/// A factory and the register of every community it has deployed.
pub struct RatifyFactory {
    wasms: Wasms,
    communities: Vec<Community>,
}

impl View for RatifyFactory {
    type V = FactoryView;

    closed spec fn view(&self) -> FactoryView {
        FactoryView { wasms: self.wasms, communities: self.communities@ }
    }
}

fn copy_community(c: &Community) -> (r: Community)
    ensures
        r == *c,
{
    Community {
        membership: c.membership,
        weight_rule: c.weight_rule,
        governor: c.governor,
        timelock: c.timelock,
        treasury: c.treasury,
        registry: c.registry,
        name: c.name.clone(),
        deployed_at: c.deployed_at,
    }
}

impl RatifyFactory {
    /// Fixes the code every community from this factory will run, with an
    /// empty register. The code cannot be changed afterwards.
    pub fn new(wasms: Wasms) -> (f: Self)
        ensures
            f@.wf(),
            f@.wasms == wasms,
            f@.communities == Seq::<Community>::empty(),
    {
        RatifyFactory { wasms, communities: Vec::new() }
    }

    /// Returns the code every community from this factory runs.
    pub fn wasms(&self) -> (w: Wasms)
        ensures
            w == self@.wasms,
    {
        self.wasms
    }

    /// Returns how many communities the register holds.
    pub fn community_count(&self) -> (n: u32)
        requires
            self@.wf(),
        ensures
            n == self@.communities.len(),
    {
        self.communities.len() as u32
    }

    /// Returns a community by its position in the register.
    pub fn community(&self, index: u32) -> (r: Result<Community, FactoryError>)
        ensures
            r is Ok <==> index < self@.communities.len(),
            r matches Ok(c) ==> c == self@.communities[index as int],
            r matches Err(e) ==> e == FactoryError::NotFound,
    {
        if (index as usize) < self.communities.len() {
            Ok(copy_community(&self.communities[index as usize]))
        } else {
            Err(FactoryError::NotFound)
        }
    }

    /// Returns a community by its governor, which is the address a member
    /// arrives with. Where two entries name one governor, the later one is
    /// the one found.
    pub fn community_by_governor(&self, governor: AccountId) -> (r: Option<Community>)
        ensures
            r is None <==> forall|i: int|
                0 <= i < self@.communities.len() ==> #[trigger] self@.communities[i].governor
                    != governor,
            r matches Some(c) ==> exists|i: int|
                latest_with_governor(self@.communities, governor, i) && c
                    == self@.communities[i],
    {
        let mut i: usize = self.communities.len();
        while i > 0
            invariant
                i <= self.communities@.len(),
                forall|j: int|
                    i <= j < self.communities@.len() ==> #[trigger] self.communities@[j].governor
                        != governor,
            decreases i,
        {
            i = i - 1;
            if self.communities[i].governor == governor {
                let c = copy_community(&self.communities[i]);
                proof {
                    assert(latest_with_governor(self@.communities, governor, i as int));
                }
                return Some(c);
            }
        }
        None
    }

    /// Returns a page of the register, oldest first. A `start` past the end
    /// returns nothing rather than failing, so paging off the end of the
    /// register is not an error.
    pub fn communities(&self, start: u32, limit: u32) -> (page: Vec<Community>)
        requires
            self@.wf(),
        ensures
            page@ == page_of(self@.communities, start as int, limit as int),
    {
        let count = self.communities.len() as u32;
        let mut page: Vec<Community> = Vec::new();
        if start >= count {
            return page;
        }
        let end = if start.saturating_add(limit) < count {
            start + limit
        } else {
            count
        };
        let mut index = start;
        while index < end
            invariant
                start <= index <= end,
                end <= count,
                count == self@.communities.len(),
                page@ == self@.communities.subrange(start as int, index as int),
            decreases end - index,
        {
            let c = copy_community(&self.communities[index as usize]);
            page.push(c);
            index = index + 1;
            proof {
                assert(page@ =~= self@.communities.subrange(start as int, index as int));
            }
        }
        page
    }

    /// Enters a community in the register once its settings pass the checks
    /// (a delay, a voting period, a quorum that is a fraction of the whole,
    /// and room in the register) and its contracts can be constructed, and
    /// returns them as constructed. `addresses` are where its membership, weight
    /// rule, governor, timelock, treasury and registry live, in that order,
    /// and `now` is the ledger it is deployed on. A refused deployment leaves
    /// the register as it was.
    pub fn deploy(
        &mut self,
        settings: &Settings,
        addresses: (AccountId, AccountId, AccountId, AccountId, AccountId, AccountId),
        now: u32,
    ) -> (r: Result<(Community, Wiring), DeployRefusal>)
        requires
            old(self)@.wf(),
        ensures
            final(self)@.wf(),
            final(self)@.wasms == old(self)@.wasms,
            match refusal(*settings, old(self)@.communities.len()) {
                Some(e) => r matches Err(f) && f == e && final(self)@ == old(self)@,
                None => r is Ok,
            },
            r matches Ok((c, w)) ==> {
                &&& c == (Community {
                    membership: addresses.0,
                    weight_rule: addresses.1,
                    governor: addresses.2,
                    timelock: addresses.3,
                    treasury: addresses.4,
                    registry: addresses.5,
                    name: settings.name,
                    deployed_at: now,
                })
                &&& final(self)@.communities == old(self)@.communities.push(c)
                &&& wired(w, *settings, c)
            },
    {
        if settings.timelock_delay == 0 {
            return Err(DeployRefusal::Factory(FactoryError::DelayCannotBeZero));
        }
        if settings.voting_period == 0 {
            return Err(DeployRefusal::Factory(FactoryError::VotingPeriodCannotBeZero));
        }
        if settings.quorum_bps == 0 || settings.quorum_bps as u128 > BPS {
            return Err(DeployRefusal::Factory(FactoryError::InvalidQuorum));
        }
        if self.communities.len() >= MAX_COMMUNITIES as usize {
            return Err(DeployRefusal::Factory(FactoryError::RegisterFull));
        }
        let community = Community {
            membership: addresses.0,
            weight_rule: addresses.1,
            governor: addresses.2,
            timelock: addresses.3,
            treasury: addresses.4,
            registry: addresses.5,
            name: settings.name.clone(),
            deployed_at: now,
        };
        let wiring = match wire(settings, &community) {
            Ok(w) => w,
            Err(e) => {
                return Err(DeployRefusal::Registry(e));
            },
        };
        self.communities.push(copy_community(&community));
        Ok((community, wiring))
    }
}

/// The six contracts of a community as the factory constructs them.
pub struct Wiring {
    pub membership: RatifyMembership,
    pub weight_rule: RatifyWeightRule,
    pub timelock: RatifyTimelock,
    pub treasury: RatifyTreasury,
    pub registry: RatifyDelegateRegistry,
    pub governor: RatifyGovernor,
}

/// The six contracts as a community with `settings` at `community`'s
/// addresses starts: each trusting the ones it has to, and each holding
/// nothing yet.
pub open spec fn wired(w: Wiring, settings: Settings, community: Community) -> bool {
    &&& w.membership@.wf()
    &&& w.membership@.issuer == settings.founder
    &&& w.membership@.member_count == 0
    &&& w.membership@.grants == Seq::<(AccountId, Grant)>::empty()
    &&& w.membership@.member_since == Map::<AccountId, u32>::empty()
    &&& w.weight_rule@.wf()
    &&& w.weight_rule@.membership == community.membership
    &&& w.weight_rule@.model == WeightModel::OneTokenOneVote
    &&& w.weight_rule@.tenure is None
    &&& w.timelock@ == (TimelockView {
        governor: community.governor,
        guardian: settings.guardian,
        min_delay: settings.timelock_delay,
    })
    &&& w.treasury@.wf()
    &&& w.treasury@.timelock == community.timelock
    &&& !w.treasury@.restrict_destinations
    &&& w.treasury@.policies == Map::<AccountId, AssetPolicy>::empty()
    &&& w.treasury@.windows == Map::<AccountId, Seq<(u32, i128)>>::empty()
    &&& w.treasury@.destinations == Set::<AccountId>::empty()
    &&& w.treasury@.outflows == Seq::<Outflow>::empty()
    &&& w.registry.wf()
    &&& w.registry@.governor == community.governor
    &&& w.registry@.weight_rule == community.weight_rule
    &&& w.registry@.contested_margin_bps == settings.contested_margin_bps
    &&& w.registry@.proposals == Map::<Hash32, Proposal>::empty()
    &&& w.registry@.records == Map::<AccountId, Record>::empty()
    &&& w.governor@ == (GovernorView {
        timelock: community.timelock,
        registry: Some(community.registry),
        quorum_bps: settings.quorum_bps,
    })
}

/// Constructs a community's contracts, each already trusting the ones it
/// has to: the timelock takes scheduling from the governor and cancellation
/// from the guardian, the treasury takes instructions from the timelock, the
/// registry takes writes from the governor, the governor queues into the
/// timelock and writes to the registry, the weight rule reads the membership,
/// and issuing membership starts with the founder. The registry refuses a
/// contested margin of more than the whole, and then nothing is built.
pub fn wire(settings: &Settings, community: &Community) -> (r: Result<Wiring, RegistryError>)
    requires
        settings_ok(*settings),
    ensures
        r is Ok <==> settings.contested_margin_bps <= BPS,
        r matches Err(e) ==> e == RegistryError::InvalidMargin,
        r matches Ok(w) ==> wired(w, *settings, *community),
{
    let membership = RatifyMembership::new(settings.founder);
    let weight_rule = match RatifyWeightRule::new(
        community.membership,
        WeightModel::OneTokenOneVote,
        None,
    ) {
        Ok(rule) => rule,
        Err(_) => return Err(RegistryError::InvalidMargin),
    };
    let timelock = match RatifyTimelock::new(
        community.governor,
        settings.guardian,
        settings.timelock_delay,
    ) {
        Ok(t) => t,
        Err(_) => return Err(RegistryError::InvalidMargin),
    };
    let treasury = RatifyTreasury::new(community.timelock);
    let registry = match RatifyDelegateRegistry::new(
        community.governor,
        community.weight_rule,
        settings.contested_margin_bps,
    ) {
        Ok(reg) => reg,
        Err(e) => return Err(e),
    };
    let governor = match RatifyGovernor::new(
        community.timelock,
        Some(community.registry),
        settings.quorum_bps,
    ) {
        Ok(g) => g,
        Err(_) => return Err(RegistryError::InvalidMargin),
    };
    Ok(Wiring { membership, weight_rule, timelock, treasury, registry, governor })
}

// ################## LAWS ##################

/// Every contract of every community gets its own address: two contracts
/// whose roles differ, or whose communities were deployed under different
/// salts, have their salts hashed from different bytes.
pub proof fn lemma_role_salts_are_distinct(a: Hash32, ra: Role, b: Hash32, rb: Role)
    requires
        a != b || ra != rb,
    ensures
        role_salt_bytes(a, ra) != role_salt_bytes(b, rb),
{
    broadcast use vstd::array::group_array_axioms;
    if role_salt_bytes(a, ra) == role_salt_bytes(b, rb) {
        assert forall|k: int| 0 <= k < 32 implies a[k] == b[k] by {
            assert(role_salt_bytes(a, ra)[k] == a@[k]);
            assert(role_salt_bytes(b, rb)[k] == b@[k]);
        }
        assert(a =~= b);
        assert(role_salt_bytes(a, ra)[32] == role_salt_bytes(b, rb)[32]);
        assert(role_salt_bytes(a, ra)[33] == role_salt_bytes(b, rb)[33]);
        assert(role_name(ra)[0] == role_name(rb)[0]);
        assert(role_name(ra)[1] == role_name(rb)[1]);
    }
}

/// A community is deployed exactly when its timelock delay and voting period
/// are more than nothing, its quorum is more than nothing and at most the
/// whole, its contested margin is at most the whole, and the register has
/// room: fewer than ten thousand communities so far.
pub proof fn lemma_what_a_deployable_community_is(settings: Settings, count: nat)
    ensures
        refusal(settings, count) is None <==> ({
            &&& settings.timelock_delay > 0
            &&& settings.voting_period > 0
            &&& 0 < settings.quorum_bps <= 10_000
            &&& settings.contested_margin_bps <= 10_000
            &&& count < 10_000
        }),
{
}

/// Text written out as its bytes, one per character.
pub open spec fn ascii_bytes(text: Seq<char>) -> Seq<u8> {
    text.map_values(|c: char| c as u8)
}

/// Each contract's salt is hashed from the community's salt followed by the
/// name of the role it plays, spelt out: the membership's from
/// "membership", the weight rule's from "weightrule", and so on, so each
/// predicted address is the one its own contract is deployed at.
pub proof fn lemma_role_salts_name_their_roles(salt: Hash32)
    ensures
        role_salt_bytes(salt, Role::Membership) == salt@ + ascii_bytes("membership"@),
        role_salt_bytes(salt, Role::WeightRule) == salt@ + ascii_bytes("weightrule"@),
        role_salt_bytes(salt, Role::Governor) == salt@ + ascii_bytes("governor"@),
        role_salt_bytes(salt, Role::Timelock) == salt@ + ascii_bytes("timelock"@),
        role_salt_bytes(salt, Role::Treasury) == salt@ + ascii_bytes("treasury"@),
        role_salt_bytes(salt, Role::Registry) == salt@ + ascii_bytes("registry"@),
{
    reveal_strlit("membership");
    reveal_strlit("weightrule");
    reveal_strlit("governor");
    reveal_strlit("timelock");
    reveal_strlit("treasury");
    reveal_strlit("registry");
    assert(role_name(Role::Membership) =~= ascii_bytes("membership"@));
    assert(role_name(Role::WeightRule) =~= ascii_bytes("weightrule"@));
    assert(role_name(Role::Governor) =~= ascii_bytes("governor"@));
    assert(role_name(Role::Timelock) =~= ascii_bytes("timelock"@));
    assert(role_name(Role::Treasury) =~= ascii_bytes("treasury"@));
    assert(role_name(Role::Registry) =~= ascii_bytes("registry"@));
}

/// Paging through the register loses and repeats nothing: a page of `n`
/// from `start` followed by a page of `m` from where it ended is the page of
/// `n + m` from `start`.
pub proof fn lemma_pages_join(register: Seq<Community>, start: nat, n: nat, m: nat)
    ensures
        page_of(register, start as int, n as int) + page_of(register, (start + n) as int, m as int)
            == page_of(register, start as int, (n + m) as int),
{
    let left = page_of(register, start as int, n as int);
    let right = page_of(register, (start + n) as int, m as int);
    assert(left + right =~= page_of(register, start as int, (n + m) as int));
}

} // verus!
