use xcm_policy::asset::Asset;
use xcm_policy::fees::{FeePolicy, FeeReason};
use xcm_policy::location::{Junction, Location, NetworkId};
use xcm_policy::trust::{AssetFilter, TrustRegistry};

fn sibling(n: u32) -> Location {
    Location::with_junction(1, Junction::Parachain(n))
}

#[test]
fn reserves_match_by_filter() {
    let mut t = TrustRegistry::new();
    t.add_reserve(sibling(1), AssetFilter::AllOf { id: Location::parent(), fungible: true });
    assert!(t.is_reserve(&Asset::fungible(Location::parent(), 5), &sibling(1)));
    assert!(!t.is_reserve(&Asset::non_fungible(Location::parent(), 5), &sibling(1)));
    assert!(!t.is_reserve(&Asset::fungible(Location::here(), 5), &sibling(1)));
    assert!(!t.is_reserve(&Asset::fungible(Location::parent(), 5), &sibling(2)));
    assert!(!t.is_teleporter(&Asset::fungible(Location::parent(), 5), &sibling(1)));
}

#[test]
fn teleporters_match_definite_and_all() {
    let mut t = TrustRegistry::new();
    t.add_teleporter(sibling(1), AssetFilter::Definite(Asset::fungible(Location::here(), 10)));
    t.add_teleporter(sibling(2), AssetFilter::All);
    assert!(t.is_teleporter(&Asset::fungible(Location::here(), 10), &sibling(1)));
    assert!(!t.is_teleporter(&Asset::fungible(Location::here(), 11), &sibling(1)));
    assert!(t.is_teleporter(&Asset::non_fungible(Location::here(), 3), &sibling(2)));
}

#[test]
fn universal_aliases_are_a_set() {
    let mut t = TrustRegistry::new();
    let kusama = Junction::GlobalConsensus(NetworkId::Kusama);
    assert!(!t.contains_alias(&sibling(1), kusama));
    t.add_universal_alias(sibling(1), kusama);
    assert!(t.contains_alias(&sibling(1), kusama));
    assert!(!t.contains_alias(&sibling(2), kusama));
    assert!(!t.contains_alias(&sibling(1), Junction::GlobalConsensus(NetworkId::Polkadot)));
    t.clear_universal_aliases();
    assert!(!t.contains_alias(&sibling(1), kusama));
}

#[test]
fn fee_waivers() {
    let mut f = FeePolicy::new();
    assert!(!f.is_waived(None, FeeReason::Report));
    f.set_fee_waiver(vec![FeeReason::Report, FeeReason::LockAsset]);
    assert!(f.is_waived(None, FeeReason::Report));
    assert!(f.is_waived(Some(&sibling(1)), FeeReason::LockAsset));
    assert!(!f.is_waived(None, FeeReason::Export));
}
