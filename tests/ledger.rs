use xcm_policy::asset::{Asset, Bundle};
use xcm_policy::ledger::{Ledger, LedgerError};
use xcm_policy::location::{Junction, Location};

fn account(i: u64) -> Location {
    Location::with_junction(0, Junction::AccountIndex64(i))
}

fn token() -> Location {
    Location::with_junction(1, Junction::Parachain(1000))
}

#[test]
fn ledger_example_deposit_then_withdraw() {
    let l = account(1);
    let mut ledger = Ledger::new();
    ledger.deposit_asset(Asset::fungible(token(), 10), &l);
    let got = ledger.withdraw_asset(&Asset::fungible(token(), 7), &l).unwrap();
    assert_eq!(got.amount(&token()), 7);
    assert_eq!(ledger.assets(&l).amount(&token()), 3);
    let again = ledger.withdraw_asset(&Asset::fungible(token(), 5), &l);
    assert!(matches!(again, Err(LedgerError::NotWithdrawable)));
    assert_eq!(ledger.assets(&l).amount(&token()), 3);
}

#[test]
fn deposit_then_withdraw_restores_bundle() {
    let l = account(2);
    let mut ledger = Ledger::new();
    ledger.deposit_asset(Asset::fungible(token(), 4), &l);
    ledger.deposit_asset(Asset::non_fungible(token(), 9), &l);
    ledger.deposit_asset(Asset::fungible(token(), 6), &l);
    let got = ledger.withdraw_asset(&Asset::fungible(token(), 6), &l).unwrap();
    assert_eq!(got.amount(&token()), 6);
    assert!(!got.holds_instance(&token(), 9));
    let after = ledger.assets(&l);
    assert_eq!(after.amount(&token()), 4);
    assert!(after.holds_instance(&token(), 9));
}

#[test]
fn non_fungible_round_trip() {
    let l = account(3);
    let mut ledger = Ledger::new();
    ledger.deposit_asset(Asset::non_fungible(token(), 5), &l);
    let got = ledger.withdraw_asset(&Asset::non_fungible(token(), 5), &l).unwrap();
    assert!(got.holds_instance(&token(), 5));
    assert!(!ledger.assets(&l).holds_instance(&token(), 5));
    let again = ledger.withdraw_asset(&Asset::non_fungible(token(), 5), &l);
    assert!(matches!(again, Err(LedgerError::NotWithdrawable)));
}

#[test]
fn over_withdraw_fails_and_changes_nothing() {
    let l = account(4);
    let other = account(5);
    let mut ledger = Ledger::new();
    ledger.deposit_asset(Asset::fungible(token(), 10), &l);
    ledger.deposit_asset(Asset::fungible(token(), 1), &other);
    let r = ledger.withdraw_asset(&Asset::fungible(token(), 11), &l);
    assert!(matches!(r, Err(LedgerError::NotWithdrawable)));
    assert_eq!(ledger.assets(&l).amount(&token()), 10);
    assert_eq!(ledger.assets(&other).amount(&token()), 1);
}

#[test]
fn withdraw_from_unknown_location_fails() {
    let mut ledger = Ledger::new();
    let r = ledger.withdraw_asset(&Asset::fungible(token(), 1), &account(6));
    assert!(matches!(r, Err(LedgerError::NotWithdrawable)));
    assert_eq!(ledger.assets(&account(6)).amount(&token()), 0);
}

#[test]
fn balances_are_kept_per_location() {
    let mut ledger = Ledger::new();
    ledger.deposit_asset(Asset::fungible(token(), 10), &account(7));
    assert!(ledger.holds(&account(7), &Asset::fungible(token(), 10)));
    assert!(!ledger.holds(&account(8), &Asset::fungible(token(), 1)));
    let empty: Bundle = ledger.assets(&account(8));
    assert_eq!(empty.amount(&token()), 0);
}
