use xcm_policy::asset::{Asset, Bundle};
use xcm_policy::location::{Junction, Location};

fn id(n: u32) -> Location {
    Location::with_junction(0, Junction::GeneralIndex(n as u128))
}

#[test]
fn subsume_sums_fungible_amounts() {
    let mut b = Bundle::new();
    b.subsume(Asset::fungible(id(1), 5));
    b.subsume(Asset::fungible(id(1), 7));
    b.subsume(Asset::fungible(id(2), 1));
    assert_eq!(b.amount(&id(1)), 12);
    assert_eq!(b.amount(&id(2)), 1);
    assert_eq!(b.amount(&id(3)), 0);
}

#[test]
fn subsume_saturates_at_the_largest_amount() {
    let mut b = Bundle::new();
    b.subsume(Asset::fungible(id(1), u128::MAX - 1));
    b.subsume(Asset::fungible(id(1), 5));
    assert_eq!(b.amount(&id(1)), u128::MAX);
}

#[test]
fn saturating_take_never_goes_below_zero() {
    let mut b = Bundle::from_asset(Asset::fungible(id(1), 5));
    let taken = b.saturating_take(&Asset::fungible(id(1), 8));
    assert_eq!(taken.amount(&id(1)), 5);
    assert_eq!(b.amount(&id(1)), 0);
    let none = b.saturating_take(&Asset::non_fungible(id(1), 3));
    assert!(!none.holds_instance(&id(1), 3));
}

#[test]
fn instances_are_a_set() {
    let mut b = Bundle::new();
    b.subsume(Asset::non_fungible(id(1), 3));
    b.subsume(Asset::non_fungible(id(1), 3));
    assert!(b.holds_instance(&id(1), 3));
    assert!(b.contains_asset(&Asset::non_fungible(id(1), 3)));
    let taken = b.saturating_take(&Asset::non_fungible(id(1), 3));
    assert!(taken.holds_instance(&id(1), 3));
    assert!(!b.holds_instance(&id(1), 3));
}

#[test]
fn contains_and_take_whole_bundles() {
    let mut b = Bundle::new();
    b.subsume(Asset::fungible(id(1), 10));
    b.subsume(Asset::non_fungible(id(2), 4));
    let mut w = Bundle::new();
    w.subsume(Asset::fungible(id(1), 3));
    w.subsume(Asset::non_fungible(id(2), 4));
    assert!(b.contains_bundle(&w));
    let got = b.take_bundle(&w);
    assert_eq!(got.amount(&id(1)), 3);
    assert!(got.holds_instance(&id(2), 4));
    assert_eq!(b.amount(&id(1)), 7);
    assert!(!b.holds_instance(&id(2), 4));
    assert!(!b.contains_bundle(&w));
}

#[test]
fn merge_bundles() {
    let mut a = Bundle::from_asset(Asset::fungible(id(1), 2));
    let mut o = Bundle::from_asset(Asset::fungible(id(1), 3));
    o.subsume(Asset::non_fungible(id(5), 1));
    a.subsume_bundle(&o);
    assert_eq!(a.amount(&id(1)), 5);
    assert!(a.holds_instance(&id(5), 1));
    let copy = a.clone();
    assert_eq!(copy.amount(&id(1)), 5);
    assert!(copy.names(&id(5)));
    assert!(!copy.names(&id(6)));
}

#[test]
fn take_matching_moves_named_identifiers() {
    let mut b = Bundle::new();
    b.subsume(Asset::fungible(id(1), 10));
    b.subsume(Asset::fungible(id(2), 20));
    b.subsume(Asset::non_fungible(id(1), 7));
    let w = Bundle::from_asset(Asset::fungible(id(1), 1));
    let got = b.take_matching(&w);
    assert_eq!(got.amount(&id(1)), 10);
    assert!(got.holds_instance(&id(1), 7));
    assert_eq!(got.amount(&id(2)), 0);
    assert_eq!(b.amount(&id(1)), 0);
    assert_eq!(b.amount(&id(2)), 20);
}

#[test]
fn locations_compare_structurally() {
    let a = Location::new(1, vec![Junction::Parachain(3), Junction::GeneralIndex(4)]);
    let b = Location::new(1, vec![Junction::Parachain(3), Junction::GeneralIndex(4)]);
    let c = Location::new(0, vec![Junction::Parachain(3), Junction::GeneralIndex(4)]);
    assert!(a == b);
    assert!(a != c);
    assert_eq!(a.first_interior(), Some(Junction::Parachain(3)));
    assert_eq!(Location::here().first_interior(), None);
    assert!(Location::parent() == Location::new(1, vec![]));
}

#[test]
fn resolve_against_universal_root() {
    let universal = vec![Junction::GlobalConsensus(xcm_policy::location::NetworkId::Kusama), Junction::Parachain(42)];
    let sibling = Location::with_junction(1, Junction::Parachain(7));
    assert_eq!(
        sibling.resolve_against(&universal),
        Some(vec![Junction::GlobalConsensus(xcm_policy::location::NetworkId::Kusama), Junction::Parachain(7)])
    );
    assert_eq!(Location::here().resolve_against(&universal), Some(universal.clone()));
    let above = Location::with_junction(3, Junction::OnlyChild);
    assert_eq!(above.resolve_against(&universal), None);
}
