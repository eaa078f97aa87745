//! The per-location asset ledger.
use vstd::prelude::*;
use crate::asset::{Asset, AssetModel, Bundle, BundleModel, Fungibility};
use crate::location::{Location, LocationModel};
use crate::table::{bundle_at, BundleTable};

verus! {

/// Why a ledger operation failed.
#[derive(Debug, Clone, Copy, PartialEq, Eq, Structural)]
pub enum LedgerError {
    /// The location does not hold the asset asked for.
    NotWithdrawable,
}

/// The asset bundle that each location holds.
pub struct Ledger {
    table: BundleTable<Location>,
}

impl View for Ledger {
    type V = Map<LocationModel, BundleModel>;

    closed spec fn view(&self) -> Map<LocationModel, BundleModel> {
        self.table@
    }
}

impl Ledger {
    pub closed spec fn wf(&self) -> bool {
        self.table.wf()
    }

    /// The empty ledger.
    pub fn new() -> (r: Ledger)
        ensures
            r.wf(),
            r@ == Map::<LocationModel, BundleModel>::empty(),
    {
        Ledger { table: BundleTable::new() }
    }

    /// Every bundle of a well-formed ledger has a valid value.
    pub proof fn lemma_valid(&self, who: LocationModel)
        requires
            self.wf(),
        ensures
            bundle_at(self@, who).valid(),
    {
        self.table.lemma_valid(who);
    }

    /// A copy of what `who` holds.
    pub fn assets(&self, who: &Location) -> (r: Bundle)
        requires
            self.wf(),
        ensures
            r.wf(),
            r@ == bundle_at(self@, who@),
    {
        self.table.bundle(who)
    }

    /// Whether `who` holds at least `what`.
    pub fn holds(&self, who: &Location, what: &Asset) -> (r: bool)
        requires
            self.wf(),
        ensures
            r == bundle_at(self@, who@).holds(what@),
    {
        self.table.holds(who, what)
    }

    /// Merges `what` into the bundle of `who`; this always succeeds.
    pub fn deposit_asset(&mut self, what: Asset, who: &Location)
        requires
            old(self).wf(),
        ensures
            final(self).wf(),
            final(self)@ == old(self)@.insert(who@, bundle_at(old(self)@, who@).add(what@)),
    {
        self.table.deposit(who, what);
    }

    /// Removes exactly `what` from the bundle of `who` and returns it, or
    /// fails without a change where `who` does not hold at least `what`.
    pub fn withdraw_asset(&mut self, what: &Asset, who: &Location) -> (r: Result<Bundle, LedgerError>)
        requires
            old(self).wf(),
        ensures
            final(self).wf(),
            r.is_ok() == bundle_at(old(self)@, who@).holds(what@),
            match r {
                Ok(b) => {
                    &&& b.wf()
                    &&& b@ == BundleModel::of(what@)
                    &&& final(self)@ == old(self)@.insert(who@, bundle_at(old(self)@, who@).sub(what@))
                },
                Err(e) => {
                    &&& e == LedgerError::NotWithdrawable
                    &&& final(self)@ == old(self)@
                },
            },
    {
        if !self.table.holds(who, what) {
            return Err(LedgerError::NotWithdrawable);
        }
        let b = self.table.take_up_to(who, what);
        Ok(b)
    }
}

/// Depositing an asset at a location and then withdrawing the same asset
/// hands back exactly that asset and leaves the location's bundle as it was
/// before the deposit, provided the deposit neither saturated a fungible
/// amount nor added an instance that was already held.
pub proof fn law_deposit_then_withdraw(
    ledger: Map<LocationModel, BundleModel>,
    l: LocationModel,
    a: AssetModel,
)
    requires
        bundle_at(ledger, l).valid(),
        match a.fun {
            Fungibility::Fungible(n) => bundle_at(ledger, l).amount(a.id) + n <= u128::MAX,
            Fungibility::NonFungible(i) => !bundle_at(ledger, l).non_fungible.contains((a.id, i)),
        },
    ensures
        ({
            let deposited = ledger.insert(l, bundle_at(ledger, l).add(a));
            let withdrawn = deposited.insert(l, bundle_at(deposited, l).sub(a));
            &&& bundle_at(deposited, l).holds(a)
            &&& bundle_at(deposited, l).taken(a) == BundleModel::of(a)
            &&& bundle_at(withdrawn, l) == bundle_at(ledger, l)
        }),
{
    let before = bundle_at(ledger, l);
    let mid = before.add(a);
    match a.fun {
        Fungibility::Fungible(n) => {
            assert(mid.sub(a).fungible =~= before.fungible);
        },
        Fungibility::NonFungible(i) => {
            assert(mid.sub(a).non_fungible =~= before.non_fungible);
        },
    }
}

/// Asking for more of a fungible asset than is recorded is never held, so a
/// withdrawal of it fails and leaves the ledger as it was.
pub proof fn law_over_withdraw_fails(held: BundleModel, id: LocationModel, n: u128)
    requires
        n > held.amount(id),
    ensures
        !held.holds(AssetModel { id, fun: Fungibility::Fungible(n) }),
{
}

} // verus!
