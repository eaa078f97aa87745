use xcm_policy::asset::Asset;
use xcm_policy::ledger::Ledger;
use xcm_policy::location::{Junction, Location};
use xcm_policy::locks::{LockError, LockKind, LockManager, LockTraceItem};

fn account(i: u64) -> Location {
    Location::with_junction(0, Junction::AccountIndex64(i))
}

fn bridge() -> Location {
    Location::with_junction(1, Junction::Parachain(2000))
}

fn token() -> Location {
    Location::parent()
}

#[test]
fn lock_needs_owned_asset() {
    let ledger = Ledger::new();
    let locks = LockManager::new();
    let r = locks.prepare_lock(&ledger, bridge(), Asset::fungible(token(), 5), account(1));
    assert!(matches!(r, Err(LockError::AssetNotOwned)));
}

#[test]
fn lock_unlock_lifecycle() {
    let mut ledger = Ledger::new();
    ledger.deposit_asset(Asset::fungible(token(), 100), &account(1));
    let mut locks = LockManager::new();
    let early = locks.prepare_unlock(bridge(), Asset::fungible(token(), 40), account(1));
    assert!(matches!(early, Err(LockError::NotLocked)));

    let ticket = locks.prepare_lock(&ledger, bridge(), Asset::fungible(token(), 40), account(1)).unwrap();
    assert!(ticket.enact(&mut locks).is_ok());
    let unlock = locks.prepare_unlock(bridge(), Asset::fungible(token(), 40), account(1)).unwrap();
    assert!(unlock.enact(&mut locks).is_ok());
    let again = locks.prepare_unlock(bridge(), Asset::fungible(token(), 40), account(1));
    assert!(matches!(again, Err(LockError::NotLocked)));

    let trace = locks.take_lock_trace();
    assert_eq!(
        trace,
        vec![
            LockTraceItem {
                kind: LockKind::Lock,
                party: bridge(),
                asset: Asset::fungible(token(), 40),
                owner: account(1),
            },
            LockTraceItem {
                kind: LockKind::Unlock,
                party: bridge(),
                asset: Asset::fungible(token(), 40),
                owner: account(1),
            },
        ]
    );
    assert!(locks.take_lock_trace().is_empty());
}

#[test]
fn unlock_is_keyed_by_owner_and_unlocker() {
    let mut ledger = Ledger::new();
    ledger.deposit_asset(Asset::fungible(token(), 100), &account(1));
    let mut locks = LockManager::new();
    let ticket = locks.prepare_lock(&ledger, bridge(), Asset::fungible(token(), 40), account(1)).unwrap();
    ticket.enact(&mut locks).unwrap();
    let other_unlocker = locks.prepare_unlock(account(9), Asset::fungible(token(), 40), account(1));
    assert!(matches!(other_unlocker, Err(LockError::NotLocked)));
    let too_much = locks.prepare_unlock(bridge(), Asset::fungible(token(), 41), account(1));
    assert!(matches!(too_much, Err(LockError::NotLocked)));
    assert!(locks.prepare_unlock(bridge(), Asset::fungible(token(), 10), account(1)).is_ok());
}

#[test]
fn dropped_ticket_has_no_effect() {
    let mut ledger = Ledger::new();
    ledger.deposit_asset(Asset::fungible(token(), 100), &account(1));
    let mut locks = LockManager::new();
    let ticket = locks.prepare_lock(&ledger, bridge(), Asset::fungible(token(), 40), account(1)).unwrap();
    assert_eq!(ticket.item().kind, LockKind::Lock);
    drop(ticket);
    let r = locks.prepare_unlock(bridge(), Asset::fungible(token(), 40), account(1));
    assert!(matches!(r, Err(LockError::NotLocked)));
    assert!(locks.take_lock_trace().is_empty());
}

#[test]
fn reduce_needs_note() {
    let mut locks = LockManager::new();
    let early = locks.prepare_reduce_unlockable(bridge(), Asset::fungible(token(), 10), account(1));
    assert!(matches!(early, Err(LockError::NotLocked)));
    assert!(locks.note_unlockable(bridge(), Asset::fungible(token(), 10), account(1)).is_ok());
    let reduce = locks.prepare_reduce_unlockable(bridge(), Asset::fungible(token(), 10), account(1)).unwrap();
    reduce.enact(&mut locks).unwrap();
    let again = locks.prepare_reduce_unlockable(bridge(), Asset::fungible(token(), 10), account(1));
    assert!(matches!(again, Err(LockError::NotLocked)));
    let trace = locks.take_lock_trace();
    assert_eq!(trace.len(), 2);
    assert_eq!(trace[0].kind, LockKind::Note);
    assert_eq!(trace[1].kind, LockKind::Reduce);
    assert!(trace[1].party == bridge());
    assert!(trace[1].owner == account(1));
}
