use xcm_policy::asset::{Asset, Bundle};
use xcm_policy::exchange::AssetExchanger;
use xcm_policy::location::{Junction, Location};

fn id(n: u32) -> Location {
    Location::with_junction(0, Junction::GeneralIndex(n as u128))
}

fn pool() -> Bundle {
    let mut p = Bundle::new();
    p.subsume(Asset::fungible(id(1), 100));
    p.subsume(Asset::fungible(id(2), 50));
    p
}

#[test]
fn minimal_exchange_conserves() {
    let mut ex = AssetExchanger::new(pool());
    let give = Bundle::from_asset(Asset::fungible(id(3), 10));
    let want = Bundle::from_asset(Asset::fungible(id(1), 30));
    let got = ex.exchange_asset(None, give, &want, false).unwrap();
    assert_eq!(got.amount(&id(1)), 30);
    assert_eq!(got.amount(&id(2)), 0);
    assert_eq!(got.amount(&id(3)), 0);
    let after = ex.exchange_assets();
    assert_eq!(after.amount(&id(1)), 70);
    assert_eq!(after.amount(&id(2)), 50);
    assert_eq!(after.amount(&id(3)), 10);
}

#[test]
fn wanted_may_come_from_the_offer() {
    let mut ex = AssetExchanger::new(pool());
    let give = Bundle::from_asset(Asset::fungible(id(3), 10));
    let want = Bundle::from_asset(Asset::fungible(id(3), 4));
    let got = ex.exchange_asset(None, give, &want, false).unwrap();
    assert_eq!(got.amount(&id(3)), 4);
    assert_eq!(ex.exchange_assets().amount(&id(3)), 6);
}

#[test]
fn failed_exchange_returns_offer() {
    let mut ex = AssetExchanger::new(pool());
    let give = Bundle::from_asset(Asset::fungible(id(3), 10));
    let want = Bundle::from_asset(Asset::fungible(id(1), 101));
    let back = ex.exchange_asset(None, give, &want, false).unwrap_err();
    assert_eq!(back.amount(&id(3)), 10);
    assert_eq!(back.amount(&id(1)), 0);
    let after = ex.exchange_assets();
    assert_eq!(after.amount(&id(1)), 100);
    assert_eq!(after.amount(&id(3)), 0);
}

#[test]
fn maximal_exchange_takes_all_of_wanted_identifiers() {
    let mut ex = AssetExchanger::new(pool());
    let give = Bundle::from_asset(Asset::fungible(id(3), 10));
    let want = Bundle::from_asset(Asset::fungible(id(1), 30));
    let got = ex.exchange_asset(None, give, &want, true).unwrap();
    assert_eq!(got.amount(&id(1)), 100);
    assert_eq!(got.amount(&id(2)), 0);
    let after = ex.exchange_assets();
    assert_eq!(after.amount(&id(1)), 0);
    assert_eq!(after.amount(&id(2)), 50);
    assert_eq!(after.amount(&id(3)), 10);
}

#[test]
fn set_pool_replaces_it() {
    let mut ex = AssetExchanger::new(Bundle::new());
    ex.set_exchange_assets(pool());
    assert_eq!(ex.exchange_assets().amount(&id(2)), 50);
}
