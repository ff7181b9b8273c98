use ratify::factory::{
    role_salt_preimage, wire, Community, DeployRefusal, FactoryError, RatifyFactory, Role, Settings, Wasms,
    MAX_COMMUNITIES,
};
use ratify::registry::RegistryError;
use ratify::weight_rule::WeightModel;

const START: u32 = 10_000;
const FOUNDER: u64 = 1;
const GUARDIAN: u64 = 2;

fn settings(name: &str) -> Settings {
    Settings {
        name: String::from(name),
        symbol: String::from("RIVER"),
        base_uri: String::from("https://example.invalid/member/"),
        founder: FOUNDER,
        guardian: GUARDIAN,
        timelock_delay: 500,
        voting_delay: 20,
        voting_period: 200,
        proposal_threshold: 1,
        quorum_bps: 2_000,
        contested_margin_bps: 2_000,
    }
}

fn stub_factory() -> RatifyFactory {
    RatifyFactory::new(Wasms {
        membership: [1u8; 32],
        weight_rule: [2u8; 32],
        governor: [3u8; 32],
        timelock: [4u8; 32],
        treasury: [5u8; 32],
        registry: [6u8; 32],
    })
}

/// Six distinct addresses for the `n`th community.
fn addresses(n: u64) -> (u64, u64, u64, u64, u64, u64) {
    let base = 1_000 + 10 * n;
    (base, base + 1, base + 2, base + 3, base + 4, base + 5)
}

const ROLES: [Role; 6] =
    [Role::Membership, Role::WeightRule, Role::Governor, Role::Timelock, Role::Treasury, Role::Registry];

// ################## THE REGISTER ##################

#[test]
fn a_new_factory_has_an_empty_register() {
    let factory = stub_factory();
    assert_eq!(factory.community_count(), 0);
    assert_eq!(factory.communities(0, 10).len(), 0);
    assert_eq!(factory.wasms().membership, [1u8; 32]);
}

#[test]
fn paging_off_the_end_of_the_register_returns_nothing() {
    let factory = stub_factory();
    assert_eq!(factory.communities(50, 10).len(), 0);
    assert_eq!(factory.communities(0, 0).len(), 0);
}

#[test]
fn asking_for_a_community_that_is_not_there_fails_plainly() {
    let factory = stub_factory();
    assert_eq!(factory.community(0), Err(FactoryError::NotFound));
    assert_eq!(factory.community_by_governor(12_345), None);
}

// ################## ADDRESSES BEFORE DEPLOYMENT ##################

#[test]
fn a_founder_can_see_where_their_community_will_live() {
    let salt = [7u8; 32];
    let first: Vec<Vec<u8>> = ROLES.iter().map(|r| role_salt_preimage(&salt, *r)).collect();
    let again: Vec<Vec<u8>> = ROLES.iter().map(|r| role_salt_preimage(&salt, *r)).collect();
    assert_eq!(first, again);
    let mut expected = salt.to_vec();
    expected.extend_from_slice(b"governor");
    assert_eq!(role_salt_preimage(&salt, Role::Governor), expected);
}

#[test]
fn every_contract_in_a_community_gets_its_own_address() {
    let salt = [7u8; 32];
    let all: Vec<Vec<u8>> = ROLES.iter().map(|r| role_salt_preimage(&salt, *r)).collect();
    for i in 0..all.len() {
        for j in (i + 1)..all.len() {
            assert_ne!(all[i], all[j], "two contracts would collide at one address");
        }
    }
}

#[test]
fn two_communities_do_not_collide() {
    let first = role_salt_preimage(&[7u8; 32], Role::Membership);
    let second = role_salt_preimage(&[8u8; 32], Role::Membership);
    assert_ne!(first, second);
    assert_ne!(
        role_salt_preimage(&[7u8; 32], Role::Governor),
        role_salt_preimage(&[8u8; 32], Role::Governor)
    );
}

// ################## SETTINGS THAT WOULD NOT WORK ##################

#[test]
fn a_community_cannot_be_deployed_without_a_delay() {
    let mut factory = stub_factory();
    let mut bad = settings("No delay");
    bad.timelock_delay = 0;

    assert_eq!(factory.deploy(&bad, addresses(0), START).err(), Some(DeployRefusal::Factory(FactoryError::DelayCannotBeZero)));
    assert_eq!(factory.community_count(), 0);
}

#[test]
fn a_community_cannot_be_deployed_with_a_voting_period_of_nothing() {
    let mut factory = stub_factory();
    let mut bad = settings("No voting");
    bad.voting_period = 0;

    assert_eq!(
        factory.deploy(&bad, addresses(0), START).err(),
        Some(DeployRefusal::Factory(FactoryError::VotingPeriodCannotBeZero))
    );
}

#[test]
fn a_community_cannot_be_deployed_with_an_impossible_quorum() {
    let mut factory = stub_factory();

    let mut none = settings("No quorum");
    none.quorum_bps = 0;
    assert_eq!(factory.deploy(&none, addresses(0), START).err(), Some(DeployRefusal::Factory(FactoryError::InvalidQuorum)));

    let mut more_than_all = settings("Too much");
    more_than_all.quorum_bps = 10_001;
    assert_eq!(
        factory.deploy(&more_than_all, addresses(1), START).err(),
        Some(DeployRefusal::Factory(FactoryError::InvalidQuorum))
    );
}

// ################## A WHOLE COMMUNITY ##################

#[test]
fn a_community_arrives_wired_and_in_the_register() {
    let mut factory = stub_factory();
    let s = settings("Riverside Commons");
    let predicted = addresses(0);

    let community = factory.deploy(&s, predicted, START).unwrap().0;

    assert_eq!(community.membership, predicted.0);
    assert_eq!(community.governor, predicted.2);
    assert_eq!(factory.community_count(), 1);
    assert_eq!(factory.community(0), Ok(community.clone()));
    assert_eq!(factory.community_by_governor(community.governor), Some(community.clone()));
    assert_eq!(factory.communities(0, 10).len(), 1);
    assert_eq!(community.deployed_at, START);
    assert_eq!(community.name, "Riverside Commons");

    let w = match wire(&s, &community) {
        Ok(w) => w,
        Err(_) => panic!("the settings were checked"),
    };
    assert_eq!(w.timelock.governor(), community.governor);
    assert_eq!(w.timelock.guardian(), GUARDIAN);
    assert_eq!(w.timelock.min_delay(), 500);
    assert_eq!(w.treasury.timelock(), community.timelock);
    assert_eq!(w.registry.governor(), community.governor);
    assert_eq!(w.registry.weight_rule(), community.weight_rule);
    assert_eq!(w.weight_rule.membership(), community.membership);
    assert_eq!(w.weight_rule.model(), WeightModel::OneTokenOneVote);
    assert_eq!(w.membership.issuer(), FOUNDER);
    assert_eq!(w.governor.timelock(), community.timelock);
    assert_eq!(w.governor.registry(), Some(community.registry));
    assert_eq!(w.governor.quorum_bps(), 2_000);
}

#[test]
fn one_factory_serves_many_communities() {
    let mut factory = stub_factory();

    let first = factory.deploy(&settings("Riverside Commons"), addresses(0), START).unwrap().0;
    let second = factory.deploy(&settings("Harbour Trust"), addresses(1), START).unwrap().0;

    assert_eq!(factory.community_count(), 2);
    assert_ne!(first.governor, second.governor);
    assert_ne!(first.treasury, second.treasury);

    let first_wiring = wire(&settings("Riverside Commons"), &first).ok().unwrap();
    assert_eq!(first_wiring.treasury.timelock(), first.timelock);
    assert_ne!(first_wiring.treasury.timelock(), second.timelock);
}

// ################## FURTHER CASES ##################

#[test]
fn pages_come_oldest_first_and_join_up() {
    let mut factory = stub_factory();
    for n in 0..5 {
        factory.deploy(&settings(&format!("Community {}", n)), addresses(n), START + n as u32).unwrap().0;
    }
    let page = factory.communities(1, 2);
    assert_eq!(page.iter().map(|c| c.deployed_at).collect::<Vec<_>>(), vec![START + 1, START + 2]);
    let all = factory.communities(0, 10);
    let mut joined = factory.communities(0, 3);
    joined.extend(factory.communities(3, 7));
    assert_eq!(joined, all);
    assert_eq!(factory.communities(4, u32::MAX).len(), 1);
}

#[test]
fn the_register_finds_a_community_by_its_governor() {
    let mut factory = stub_factory();
    let a = factory.deploy(&settings("A"), addresses(0), START).unwrap().0;
    let b = factory.deploy(&settings("B"), addresses(1), START).unwrap().0;
    assert_eq!(factory.community_by_governor(b.governor), Some(b));
    assert_eq!(factory.community_by_governor(a.governor), Some(a));
    assert_eq!(factory.community_by_governor(7), None);
}

#[test]
fn the_register_is_bounded() {
    let mut factory = stub_factory();
    for n in 0..MAX_COMMUNITIES as u64 {
        factory.deploy(&settings("X"), addresses(n), START).unwrap().0;
    }
    assert_eq!(
        factory.deploy(&settings("One too many"), addresses(20_000), START).err(),
        Some(DeployRefusal::Factory(FactoryError::RegisterFull))
    );
    assert_eq!(factory.community_count(), MAX_COMMUNITIES);
}

#[test]
fn a_contested_margin_past_the_whole_builds_nothing() {
    let mut s = settings("Wide margin");
    s.contested_margin_bps = 10_001;
    let community = Community {
        membership: 1,
        weight_rule: 2,
        governor: 3,
        timelock: 4,
        treasury: 5,
        registry: 6,
        name: s.name.clone(),
        deployed_at: START,
    };
    assert!(matches!(wire(&s, &community), Err(RegistryError::InvalidMargin)));
    assert_eq!(FactoryError::RegisterFull.code(), 6);
    assert_eq!(FactoryError::InvalidQuorum.code(), 5);
}

#[test]
fn a_margin_the_registry_refuses_leaves_the_register_alone() {
    let mut factory = stub_factory();
    let mut s = settings("Wide margin");
    s.contested_margin_bps = 10_001;
    assert_eq!(
        factory.deploy(&s, addresses(0), START).err(),
        Some(DeployRefusal::Registry(RegistryError::InvalidMargin))
    );
    assert_eq!(factory.community_count(), 0);
    s.contested_margin_bps = 10_000;
    let (community, wiring) = factory.deploy(&s, addresses(0), START).unwrap();
    assert_eq!(wiring.registry.contested_margin_bps(), 10_000);
    assert_eq!(wiring.timelock.governor(), community.governor);
    assert_eq!(factory.community_count(), 1);
}
