//! Two-phase remote asset locking: prepare a ticket, then enact it.
use vstd::prelude::*;
use crate::asset::{Asset, AssetModel, BundleModel, Fungibility};
use crate::ledger::Ledger;
use crate::location::{Location, LocationModel};
use crate::table::{bundle_at, BundleTable, LocationPair};

verus! {

/// Why a lock operation was refused.
#[derive(Debug, Clone, Copy, PartialEq, Eq, Structural)]
pub enum LockError {
    /// The owner does not hold the asset to be locked.
    AssetNotOwned,
    /// Nothing recorded covers the asset to be unlocked or reduced.
    NotLocked,
}

/// The kind of a lock trace entry.
#[derive(Debug, Clone, Copy, PartialEq, Eq, Structural)]
pub enum LockKind {
    Lock,
    Unlock,
    Note,
    Reduce,
}

/// The mathematical value of a lock trace entry.
pub struct LockTraceModel {
    pub kind: LockKind,
    pub party: LocationModel,
    pub asset: AssetModel,
    pub owner: LocationModel,
}

/// One entry of the lock audit trace. `party` is the unlocker for `Lock` and
/// `Unlock`, and the locker for `Note` and `Reduce`.
#[derive(Debug, Clone, PartialEq, Eq)]
pub struct LockTraceItem {
    pub kind: LockKind,
    pub party: Location,
    pub asset: Asset,
    pub owner: Location,
}

impl View for LockTraceItem {
    type V = LockTraceModel;

    open spec fn view(&self) -> LockTraceModel {
        LockTraceModel { kind: self.kind, party: self.party@, asset: self.asset@, owner: self.owner@ }
    }
}

/// The registries and the trace, as values.
pub struct LockState {
    /// What each unlocker may unlock for each owner, keyed by (owner, unlocker).
    pub unlocks: Map<(LocationModel, LocationModel), BundleModel>,
    /// What each owner may ask each locker to unlock, keyed by (owner, locker).
    pub requests: Map<(LocationModel, LocationModel), BundleModel>,
    pub trace: Seq<LockTraceModel>,
}

/// A verified intent to record exactly one trace entry. It is consumed when
/// enacted; dropping it has no effect.
pub struct LockTicket {
    item: LockTraceItem,
}

impl View for LockTicket {
    type V = LockTraceModel;

    closed spec fn view(&self) -> LockTraceModel {
        self.item@
    }
}

impl LockTicket {
    /// The entry that enacting this ticket records.
    pub fn item(&self) -> (r: &LockTraceItem)
        ensures
            r@ == self@,
    {
        &self.item
    }

    /// Commits the ticket: applies its entry to the registries and appends
    /// it to the trace.
    pub fn enact(self, locks: &mut LockManager) -> (r: Result<(), LockError>)
        requires
            old(locks).wf(),
        ensures
            r.is_ok(),
            final(locks).wf(),
            final(locks)@ == old(locks)@.enacted(self@),
    {
        locks.apply(self.item);
        Ok(())
    }
}

impl LockState {
    /// The state after `t` is committed.
    pub open spec fn enacted(self, t: LockTraceModel) -> LockState {
        let key = (t.owner, t.party);
        LockState {
            unlocks: match t.kind {
                LockKind::Lock => self.unlocks.insert(key, bundle_at(self.unlocks, key).add(t.asset)),
                LockKind::Unlock => self.unlocks.insert(key, bundle_at(self.unlocks, key).sub(t.asset)),
                _ => self.unlocks,
            },
            requests: match t.kind {
                LockKind::Note => self.requests.insert(key, bundle_at(self.requests, key).add(t.asset)),
                LockKind::Reduce => self.requests.insert(key, bundle_at(self.requests, key).sub(t.asset)),
                _ => self.requests,
            },
            trace: self.trace.push(t),
        }
    }
}

/// The lock and unlock-request registries, and the append-only trace.
pub struct LockManager {
    unlocks: BundleTable<LocationPair>,
    requests: BundleTable<LocationPair>,
    trace: Vec<LockTraceItem>,
}

impl View for LockManager {
    type V = LockState;

    closed spec fn view(&self) -> LockState {
        LockState {
            unlocks: self.unlocks@,
            requests: self.requests@,
            trace: self.trace@.map_values(|t: LockTraceItem| t@),
        }
    }
}

impl LockManager {
    pub closed spec fn wf(&self) -> bool {
        self.unlocks.wf() && self.requests.wf()
    }

    /// Nothing locked, nothing noted, an empty trace.
    pub fn new() -> (r: LockManager)
        ensures
            r.wf(),
            r@.unlocks == Map::<(LocationModel, LocationModel), BundleModel>::empty(),
            r@.requests == Map::<(LocationModel, LocationModel), BundleModel>::empty(),
            r@.trace == Seq::<LockTraceModel>::empty(),
    {
        let r = LockManager { unlocks: BundleTable::new(), requests: BundleTable::new(), trace: Vec::new() };
        assert(r@.trace =~= Seq::<LockTraceModel>::empty());
        r
    }

    fn apply(&mut self, item: LockTraceItem)
        requires
            old(self).wf(),
        ensures
            final(self).wf(),
            final(self)@ == old(self)@.enacted(item@),
    {
        let key = LocationPair { owner: item.owner.clone(), other: item.party.clone() };
        match item.kind {
            LockKind::Lock => self.unlocks.deposit(&key, item.asset.clone()),
            LockKind::Unlock => {
                let _ = self.unlocks.take_up_to(&key, &item.asset);
            },
            LockKind::Note => self.requests.deposit(&key, item.asset.clone()),
            LockKind::Reduce => {
                let _ = self.requests.take_up_to(&key, &item.asset);
            },
        }
        let ghost before = self.trace@;
        self.trace.push(item);
        assert(self.trace@.map_values(|t: LockTraceItem| t@) =~= before.map_values(
            |t: LockTraceItem| t@,
        ).push(item@));
    }

    /// Checks that `owner` holds `asset` and prepares a ticket that locks it
    /// for `unlocker`.
    pub fn prepare_lock(
        &self,
        ledger: &Ledger,
        unlocker: Location,
        asset: Asset,
        owner: Location,
    ) -> (r: Result<LockTicket, LockError>)
        requires
            ledger.wf(),
        ensures
            r.is_ok() == bundle_at(ledger@, owner@).holds(asset@),
            match r {
                Ok(t) => t@ == (LockTraceModel {
                    kind: LockKind::Lock,
                    party: unlocker@,
                    asset: asset@,
                    owner: owner@,
                }),
                Err(e) => e == LockError::AssetNotOwned,
            },
    {
        if !ledger.holds(&owner, &asset) {
            return Err(LockError::AssetNotOwned);
        }
        Ok(LockTicket { item: LockTraceItem { kind: LockKind::Lock, party: unlocker, asset, owner } })
    }

    /// Checks that a lock for (`owner`, `unlocker`) covers `asset` and
    /// prepares a ticket that unlocks it.
    pub fn prepare_unlock(&self, unlocker: Location, asset: Asset, owner: Location) -> (r: Result<
        LockTicket,
        LockError,
    >)
        requires
            self.wf(),
        ensures
            r.is_ok() == bundle_at(self@.unlocks, (owner@, unlocker@)).holds(asset@),
            match r {
                Ok(t) => t@ == (LockTraceModel {
                    kind: LockKind::Unlock,
                    party: unlocker@,
                    asset: asset@,
                    owner: owner@,
                }),
                Err(e) => e == LockError::NotLocked,
            },
    {
        let key = LocationPair { owner: owner.clone(), other: unlocker.clone() };
        if !self.unlocks.holds(&key, &asset) {
            return Err(LockError::NotLocked);
        }
        Ok(LockTicket { item: LockTraceItem { kind: LockKind::Unlock, party: unlocker, asset, owner } })
    }

    /// Records at once that `owner` may ask `locker` to unlock `asset`.
    pub fn note_unlockable(&mut self, locker: Location, asset: Asset, owner: Location) -> (r: Result<
        (),
        LockError,
    >)
        requires
            old(self).wf(),
        ensures
            r.is_ok(),
            final(self).wf(),
            final(self)@ == old(self)@.enacted(
                LockTraceModel { kind: LockKind::Note, party: locker@, asset: asset@, owner: owner@ },
            ),
    {
        self.apply(LockTraceItem { kind: LockKind::Note, party: locker, asset, owner });
        Ok(())
    }

    /// Checks that a noted request for (`owner`, `locker`) covers `asset` and
    /// prepares a ticket that reduces it.
    pub fn prepare_reduce_unlockable(
        &self,
        locker: Location,
        asset: Asset,
        owner: Location,
    ) -> (r: Result<LockTicket, LockError>)
        requires
            self.wf(),
        ensures
            r.is_ok() == bundle_at(self@.requests, (owner@, locker@)).holds(asset@),
            match r {
                Ok(t) => t@ == (LockTraceModel {
                    kind: LockKind::Reduce,
                    party: locker@,
                    asset: asset@,
                    owner: owner@,
                }),
                Err(e) => e == LockError::NotLocked,
            },
    {
        let key = LocationPair { owner: owner.clone(), other: locker.clone() };
        if !self.requests.holds(&key, &asset) {
            return Err(LockError::NotLocked);
        }
        Ok(LockTicket { item: LockTraceItem { kind: LockKind::Reduce, party: locker, asset, owner } })
    }

    /// Hands out the trace recorded so far and starts a new, empty one.
    pub fn take_lock_trace(&mut self) -> (r: Vec<LockTraceItem>)
        requires
            old(self).wf(),
        ensures
            final(self).wf(),
            r@.map_values(|t: LockTraceItem| t@) == old(self)@.trace,
            final(self)@.unlocks == old(self)@.unlocks,
            final(self)@.requests == old(self)@.requests,
            final(self)@.trace == Seq::<LockTraceModel>::empty(),
    {
        let mut r: Vec<LockTraceItem> = Vec::new();
        std::mem::swap(&mut r, &mut self.trace);
        assert(self@.trace =~= Seq::<LockTraceModel>::empty());
        r
    }
}

/// An asset other than a zero fungible amount.
pub open spec fn nonzero(a: AssetModel) -> bool {
    match a.fun {
        Fungibility::Fungible(n) => n > 0,
        Fungibility::NonFungible(_) => true,
    }
}

/// Unlocking needs a lock: where the lock registry for (owner, unlocker)
/// does not cover an asset, preparing its unlock fails; enacting a lock of it
/// makes the unlock succeed; after that unlock is enacted, a repeated unlock
/// fails again. A manager with nothing locked covers no asset but a zero
/// amount.
pub proof fn law_lock_lifecycle(state: LockState, unlocker: LocationModel, a: AssetModel, owner: LocationModel)
    requires
        bundle_at(state.unlocks, (owner, unlocker)).valid(),
        !bundle_at(state.unlocks, (owner, unlocker)).holds(a),
        match a.fun {
            Fungibility::Fungible(n) => bundle_at(state.unlocks, (owner, unlocker)).amount(a.id) + n <= u128::MAX,
            Fungibility::NonFungible(_) => true,
        },
    ensures
        ({
            let locked = state.enacted(LockTraceModel { kind: LockKind::Lock, party: unlocker, asset: a, owner });
            let unlocked = locked.enacted(LockTraceModel { kind: LockKind::Unlock, party: unlocker, asset: a, owner });
            &&& bundle_at(locked.unlocks, (owner, unlocker)).holds(a)
            &&& !bundle_at(unlocked.unlocks, (owner, unlocker)).holds(a)
        }),
        nonzero(a) ==> !bundle_at(Map::<(LocationModel, LocationModel), BundleModel>::empty(), (owner, unlocker)).holds(a),
{
}

/// Reducing needs a note: where no note was enacted for (owner, locker),
/// preparing a reduction of a non-zero asset fails; once a note of it is
/// enacted, the same reduction can be prepared.
pub proof fn law_reduce_needs_note(state: LockState, locker: LocationModel, a: AssetModel, owner: LocationModel)
    requires
        bundle_at(state.requests, (owner, locker)) == BundleModel::empty(),
        nonzero(a),
    ensures
        !bundle_at(state.requests, (owner, locker)).holds(a),
        bundle_at(
            state.enacted(LockTraceModel { kind: LockKind::Note, party: locker, asset: a, owner }).requests,
            (owner, locker),
        ).holds(a),
{
}

} // verus!
