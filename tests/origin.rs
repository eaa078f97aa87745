use xcm_policy::location::{Junction, Location, NetworkId};
use xcm_policy::origin::{LocalOrigin, OriginConverter, OriginKind};

fn converter() -> OriginConverter {
    OriginConverter::new(vec![Junction::GlobalConsensus(NetworkId::ByGenesis(0)), Junction::Parachain(42)])
}

#[test]
fn accounts_of_locations() {
    let c = converter();
    assert_eq!(c.to_account(Location::with_junction(1, Junction::Parachain(5))).unwrap(), 2005);
    assert_eq!(c.to_account(Location::with_junction(0, Junction::AccountIndex64(77))).unwrap(), 77);
    assert_eq!(c.to_account(Location::with_junction(0, Junction::Parachain(5))).unwrap(), 1005);
    assert_eq!(c.to_account(Location::here()).unwrap(), 3000);
    assert_eq!(c.to_account(Location::parent()).unwrap(), 3001);
    assert_eq!(c.to_account(Location::with_junction(2, Junction::GlobalConsensus(NetworkId::Kusama))).unwrap(), 4000);
    assert_eq!(c.to_account(Location::with_junction(2, Junction::GlobalConsensus(NetworkId::Polkadot))).unwrap(), 4001);
}

#[test]
fn locations_without_account_are_handed_back() {
    let c = converter();
    let far = Location::with_junction(3, Junction::GlobalConsensus(NetworkId::Kusama));
    let back = c.to_account(far.clone()).unwrap_err();
    assert!(back == far);
    let westend = Location::with_junction(2, Junction::GlobalConsensus(NetworkId::Westend));
    assert!(c.to_account(westend.clone()).unwrap_err() == westend);
    let deep = Location::new(1, vec![Junction::Parachain(1), Junction::AccountIndex64(3)]);
    assert!(c.to_account(deep.clone()).unwrap_err() == deep);
}

#[test]
fn convert_by_kind() {
    let c = converter();
    let para = Location::with_junction(0, Junction::Parachain(7));
    assert_eq!(c.convert_origin(para.clone(), OriginKind::Superuser).unwrap(), LocalOrigin::Root);
    assert_eq!(c.convert_origin(para.clone(), OriginKind::SovereignAccount).unwrap(), LocalOrigin::Signed(1007));
    assert_eq!(c.convert_origin(para.clone(), OriginKind::Native).unwrap(), LocalOrigin::Parachain(7));
    assert_eq!(c.convert_origin(Location::parent(), OriginKind::Native).unwrap(), LocalOrigin::Relay);
    assert_eq!(
        c.convert_origin(Location::with_junction(0, Junction::AccountIndex64(9)), OriginKind::Native).unwrap(),
        LocalOrigin::Signed(9)
    );
}

#[test]
fn unmatched_kind_hands_location_back() {
    let c = converter();
    let sibling = Location::with_junction(1, Junction::Parachain(7));
    assert!(c.convert_origin(sibling.clone(), OriginKind::Native).unwrap_err() == sibling);
    assert!(c.convert_origin(sibling.clone(), OriginKind::Xcm).unwrap_err() == sibling);
    let far = Location::with_junction(5, Junction::OnlyChild);
    assert!(c.convert_origin(far.clone(), OriginKind::SovereignAccount).unwrap_err() == far);
}
