//! Atomic exchange of an offered bundle for a wanted one against a shared pool.
use vstd::prelude::*;
use crate::asset::{Bundle, BundleModel};
use crate::location::{Location, LocationModel};

verus! {

/// A liquidity pool that swaps offered assets for wanted ones.
pub struct AssetExchanger {
    pool: Bundle,
}

/// What an exchange against `pool` hands out and what the pool becomes:
/// the offer is merged into the pool first; a minimal fill takes exactly the
/// wanted bundle, a maximal fill everything held of the identifiers wanted.
pub open spec fn exchanged(pool: BundleModel, give: BundleModel, want: BundleModel, maximal: bool) -> (
    BundleModel,
    BundleModel,
) {
    let merged = pool.merge(give);
    if maximal {
        (merged.restricted(want.ids()), merged.restricted(want.ids().complement()))
    } else {
        (merged.common(want), merged.without(want))
    }
}

impl AssetExchanger {
    pub closed spec fn wf(&self) -> bool {
        self.pool.wf()
    }

    /// The assets the pool holds.
    pub closed spec fn pool(&self) -> BundleModel {
        self.pool@
    }

    /// An exchanger whose pool holds `pool`.
    pub fn new(pool: Bundle) -> (r: AssetExchanger)
        requires
            pool.wf(),
        ensures
            r.wf(),
            r.pool() == pool@,
    {
        AssetExchanger { pool }
    }

    /// A copy of the pool.
    pub fn exchange_assets(&self) -> (r: Bundle)
        ensures
            r@ == self.pool(),
            r.wf() == self.wf(),
    {
        self.pool.clone()
    }

    /// Replaces the pool.
    pub fn set_exchange_assets(&mut self, pool: Bundle)
        requires
            pool.wf(),
        ensures
            final(self).wf(),
            final(self).pool() == pool@,
    {
        self.pool = pool;
    }

    /// Swaps `give` for `want`. Fails, handing `give` back and leaving the
    /// pool as it was, where the pool with `give` merged in does not hold
    /// `want`.
    pub fn exchange_asset(
        &mut self,
        origin: Option<&Location>,
        give: Bundle,
        want: &Bundle,
        maximal: bool,
    ) -> (r: Result<Bundle, Bundle>)
        requires
            old(self).wf(),
            give.wf(),
            want.wf(),
        ensures
            final(self).wf(),
            r.is_ok() == old(self).pool().merge(give@).covers(want@),
            match r {
                Ok(got) => {
                    &&& got.wf()
                    &&& got@ == exchanged(old(self).pool(), give@, want@, maximal).0
                    &&& final(self).pool() == exchanged(old(self).pool(), give@, want@, maximal).1
                    &&& !maximal ==> got@ == want@
                },
                Err(back) => {
                    &&& back.wf()
                    &&& back@ == give@
                    &&& final(self).pool() == old(self).pool()
                },
            },
    {
        let mut have = self.pool.clone();
        have.subsume_bundle(&give);
        if !have.contains_bundle(want) {
            return Err(give);
        }
        let got = if maximal {
            have.take_matching(want)
        } else {
            have.take_bundle(want)
        };
        proof {
            if !maximal {
                want.lemma_valid();
                lemma_common_of_covered(old(self).pool().merge(give@), want@);
            }
        }
        self.pool = have;
        Ok(got)
    }
}

/// Taking out a valid bundle that is held takes out exactly that bundle.
pub proof fn lemma_common_of_covered(b: BundleModel, w: BundleModel)
    requires
        w.valid(),
        b.covers(w),
    ensures
        b.common(w) == w,
{
    assert(b.common(w).fungible =~= w.fungible);
    assert(b.common(w).non_fungible =~= w.non_fungible);
}

/// A minimal exchange conserves every asset: where the pool with the offer
/// merged in holds the wanted bundle, exactly that bundle comes out, the new
/// pool is the merged pool less that bundle, and the new pool together with
/// what came out is the old pool together with the offer, id by id (where
/// their sum fits an amount) and instance by instance.
pub proof fn law_exchange_conserves(pool: BundleModel, give: BundleModel, want: BundleModel)
    requires
        pool.valid(),
        give.valid(),
        want.valid(),
        pool.merge(give).covers(want),
    ensures
        ({
            let (got, after) = exchanged(pool, give, want, false);
            &&& got == want
            &&& after == pool.merge(give).without(want)
            &&& forall|k: LocationModel|
                #[trigger] after.amount(k) + got.amount(k) == pool.merge(give).amount(k)
            &&& forall|k: LocationModel|
                pool.amount(k) + give.amount(k) <= u128::MAX ==> #[trigger] after.amount(k)
                    + got.amount(k) == pool.amount(k) + give.amount(k)
            &&& after.non_fungible.union(got.non_fungible) == pool.merge(give).non_fungible
            &&& after.non_fungible.disjoint(got.non_fungible)
        }),
{
    let merged = pool.merge(give);
    lemma_common_of_covered(merged, want);
    let after = merged.without(want);
    assert(after.non_fungible.union(want.non_fungible) =~= merged.non_fungible);
}

/// A maximal exchange conserves every asset too: what comes out and what
/// stays are the merged pool split by the wanted identifiers.
pub proof fn law_maximal_exchange_conserves(pool: BundleModel, give: BundleModel, want: BundleModel)
    requires
        pool.valid(),
        give.valid(),
    ensures
        ({
            let (got, after) = exchanged(pool, give, want, true);
            &&& forall|k: LocationModel|
                #[trigger] after.amount(k) + got.amount(k) == pool.merge(give).amount(k)
            &&& after.non_fungible.union(got.non_fungible) == pool.merge(give).non_fungible
            &&& after.non_fungible.disjoint(got.non_fungible)
        }),
{
    let merged = pool.merge(give);
    let (got, after) = exchanged(pool, give, want, true);
    assert(after.non_fungible.union(got.non_fungible) =~= merged.non_fungible);
}

} // verus!
