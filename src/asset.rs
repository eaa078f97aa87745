//! Assets, asset filters and asset bundles.
use vstd::prelude::*;
use crate::location::{Location, LocationModel};

verus! {

/// What an asset is: a fungible amount, or one non-fungible instance.
#[derive(Debug, Clone, Copy, PartialEq, Eq, Structural)]
pub enum Fungibility {
    Fungible(u128),
    NonFungible(u128),
}

/// The mathematical value of an asset.
pub struct AssetModel {
    pub id: LocationModel,
    pub fun: Fungibility,
}

/// An asset: an identifier (a location) and a quantity.
#[derive(Debug)]
pub struct Asset {
    pub id: Location,
    pub fun: Fungibility,
}

impl View for Asset {
    type V = AssetModel;

    open spec fn view(&self) -> AssetModel {
        AssetModel { id: self.id@, fun: self.fun }
    }
}

impl Asset {
    /// A fungible amount of the asset identified by `id`.
    pub fn fungible(id: Location, amount: u128) -> (r: Asset)
        ensures
            r@ == (AssetModel { id: id@, fun: Fungibility::Fungible(amount) }),
    {
        Asset { id, fun: Fungibility::Fungible(amount) }
    }

    /// One instance of the non-fungible asset class identified by `id`.
    pub fn non_fungible(id: Location, instance: u128) -> (r: Asset)
        ensures
            r@ == (AssetModel { id: id@, fun: Fungibility::NonFungible(instance) }),
    {
        Asset { id, fun: Fungibility::NonFungible(instance) }
    }

    /// Exact equality of identifier and quantity.
    pub fn same(&self, other: &Asset) -> (r: bool)
        ensures
            r == (self@ == other@),
    {
        self.fun == other.fun && self.id.same(&other.id)
    }
}

impl Clone for Asset {
    fn clone(&self) -> (r: Self)
        ensures
            r@ == self@,
    {
        Asset { id: self.id.clone(), fun: self.fun }
    }
}

impl PartialEq for Asset {
    fn eq(&self, other: &Asset) -> (r: bool) {
        self.same(other)
    }
}

impl vstd::std_specs::cmp::PartialEqSpecImpl for Asset {
    open spec fn obeys_eq_spec() -> bool {
        true
    }

    open spec fn eq_spec(&self, other: &Asset) -> bool {
        self@ == other@
    }
}

impl Eq for Asset {
}

/// The largest fungible amount a bundle records; sums beyond it saturate.
pub open spec fn saturate(x: nat) -> nat {
    if x > u128::MAX {
        u128::MAX as nat
    } else {
        x
    }
}

/// The mathematical value of a bundle: a positive amount per fungible
/// identifier, and the set of non-fungible instances held.
pub struct BundleModel {
    pub fungible: Map<LocationModel, nat>,
    pub non_fungible: Set<(LocationModel, u128)>,
}

/// The bundle whose fungible amounts are given by `f` (zero meaning absent).
pub open spec fn bundle_of_amounts(
    f: spec_fn(LocationModel) -> nat,
    nft: Set<(LocationModel, u128)>,
) -> BundleModel {
    BundleModel { fungible: Map::new(|k: LocationModel| f(k) > 0, |k: LocationModel| f(k)), non_fungible: nft }
}

impl BundleModel {
    /// A bundle value that a bundle can have: every recorded amount is
    /// positive and fits the amount type.
    pub open spec fn valid(self) -> bool {
        forall|k: LocationModel|
            #[trigger] self.fungible.contains_key(k) ==> 0 < self.fungible[k] <= u128::MAX
    }

    pub open spec fn empty() -> BundleModel {
        BundleModel { fungible: Map::empty(), non_fungible: Set::empty() }
    }

    /// The fungible amount held of `id` (zero when absent).
    pub open spec fn amount(self, id: LocationModel) -> nat {
        if self.fungible.contains_key(id) {
            self.fungible[id]
        } else {
            0
        }
    }

    /// Holds at least the asset `a`.
    pub open spec fn holds(self, a: AssetModel) -> bool {
        match a.fun {
            Fungibility::Fungible(n) => n <= self.amount(a.id),
            Fungibility::NonFungible(i) => self.non_fungible.contains((a.id, i)),
        }
    }

    /// The bundle after merging in `a`; fungible sums saturate.
    pub open spec fn add(self, a: AssetModel) -> BundleModel {
        match a.fun {
            Fungibility::Fungible(n) => bundle_of_amounts(
                |k: LocationModel|
                    if k == a.id {
                        saturate((self.amount(k) + n) as nat)
                    } else {
                        self.amount(k)
                    },
                self.non_fungible,
            ),
            Fungibility::NonFungible(i) => BundleModel {
                fungible: self.fungible,
                non_fungible: self.non_fungible.insert((a.id, i)),
            },
        }
    }

    /// The bundle after removing up to `a`, never going below zero.
    pub open spec fn sub(self, a: AssetModel) -> BundleModel {
        match a.fun {
            Fungibility::Fungible(n) => bundle_of_amounts(
                |k: LocationModel|
                    if k == a.id && n <= self.amount(k) {
                        (self.amount(k) - n) as nat
                    } else if k == a.id {
                        0
                    } else {
                        self.amount(k)
                    },
                self.non_fungible,
            ),
            Fungibility::NonFungible(i) => BundleModel {
                fungible: self.fungible,
                non_fungible: self.non_fungible.remove((a.id, i)),
            },
        }
    }

    /// What removing up to `a` takes out of this bundle.
    pub open spec fn taken(self, a: AssetModel) -> BundleModel {
        match a.fun {
            Fungibility::Fungible(n) => BundleModel::of(
                AssetModel {
                    id: a.id,
                    fun: Fungibility::Fungible(
                        if n <= self.amount(a.id) {
                            n
                        } else {
                            self.amount(a.id) as u128
                        },
                    ),
                },
            ),
            Fungibility::NonFungible(i) => if self.non_fungible.contains((a.id, i)) {
                BundleModel::of(a)
            } else {
                BundleModel::empty()
            },
        }
    }

    /// The bundle holding exactly the asset `a`.
    pub open spec fn of(a: AssetModel) -> BundleModel {
        BundleModel::empty().add(a)
    }

    /// Holds at least everything `w` holds.
    pub open spec fn covers(self, w: BundleModel) -> bool {
        &&& forall|k: LocationModel| #[trigger] w.amount(k) <= self.amount(k)
        &&& w.non_fungible.subset_of(self.non_fungible)
    }

    /// Both bundles merged; fungible sums saturate.
    pub open spec fn merge(self, o: BundleModel) -> BundleModel {
        bundle_of_amounts(
            |k: LocationModel| saturate((self.amount(k) + o.amount(k)) as nat),
            self.non_fungible.union(o.non_fungible),
        )
    }

    /// This bundle with `w` taken out, never going below zero.
    pub open spec fn without(self, w: BundleModel) -> BundleModel {
        bundle_of_amounts(
            |k: LocationModel|
                if w.amount(k) <= self.amount(k) {
                    (self.amount(k) - w.amount(k)) as nat
                } else {
                    0
                },
            self.non_fungible.difference(w.non_fungible),
        )
    }

    /// What this bundle and `w` have in common.
    pub open spec fn common(self, w: BundleModel) -> BundleModel {
        bundle_of_amounts(
            |k: LocationModel|
                if w.amount(k) <= self.amount(k) {
                    w.amount(k)
                } else {
                    self.amount(k)
                },
            self.non_fungible.intersect(w.non_fungible),
        )
    }

    /// The identifiers that this bundle holds anything of.
    pub open spec fn ids(self) -> Set<LocationModel> {
        Set::new(
            |k: LocationModel|
                self.amount(k) > 0 || exists|i: u128| self.non_fungible.contains((k, i)),
        )
    }

    /// Everything this bundle holds of the identifiers in `ids`.
    pub open spec fn restricted(self, ids: Set<LocationModel>) -> BundleModel {
        bundle_of_amounts(
            |k: LocationModel|
                if ids.contains(k) {
                    self.amount(k)
                } else {
                    0
                },
            self.non_fungible.filter(|p: (LocationModel, u128)| ids.contains(p.0)),
        )
    }
}

/// The total amount recorded for `k` in a list of fungible entries.
pub closed spec fn entries_amount(s: Seq<(Location, u128)>, k: LocationModel) -> nat
    decreases s.len(),
{
    if s.len() == 0 {
        0
    } else {
        entries_amount(s.drop_last(), k) + (if s.last().0@ == k {
            s.last().1 as nat
        } else {
            0
        })
    }
}

/// The instances recorded in a list of non-fungible entries.
pub closed spec fn entries_instances(s: Seq<(Location, u128)>) -> Set<(LocationModel, u128)> {
    Set::new(|p: (LocationModel, u128)| exists|j: int| 0 <= j < s.len() && #[trigger] s[j].0@ == p.0 && s[j].1 == p.1)
}

/// Entries with pairwise different identifiers.
pub closed spec fn unique_ids(s: Seq<(Location, u128)>) -> bool {
    forall|i: int, j: int|
        0 <= i < s.len() && 0 <= j < s.len() && i != j ==> #[trigger] s[i].0@ != #[trigger] s[j].0@
}

/// Entries that are pairwise different.
pub closed spec fn unique_pairs(s: Seq<(Location, u128)>) -> bool {
    forall|i: int, j: int|
        0 <= i < s.len() && 0 <= j < s.len() && i != j ==> (#[trigger] s[i].0@, s[i].1) != (
        #[trigger] s[j].0@, s[j].1)
}

proof fn lemma_amount_absent(s: Seq<(Location, u128)>, k: LocationModel)
    requires
        forall|j: int| 0 <= j < s.len() ==> #[trigger] s[j].0@ != k,
    ensures
        entries_amount(s, k) == 0,
    decreases s.len(),
{
    if s.len() > 0 {
        assert(forall|j: int| 0 <= j < s.drop_last().len() ==> s.drop_last()[j] == s[j]);
        lemma_amount_absent(s.drop_last(), k);
    }
}

proof fn lemma_amount_at(s: Seq<(Location, u128)>, i: int)
    requires
        unique_ids(s),
        0 <= i < s.len(),
    ensures
        entries_amount(s, s[i].0@) == s[i].1,
    decreases s.len(),
{
    let d = s.drop_last();
    assert(forall|j: int| 0 <= j < d.len() ==> d[j] == s[j]);
    if i == s.len() - 1 {
        assert forall|j: int| 0 <= j < d.len() implies #[trigger] d[j].0@ != s[i].0@ by {
            assert(s[j].0@ != s[i].0@);
        }
        lemma_amount_absent(d, s[i].0@);
    } else {
        assert(unique_ids(d)) by {
            assert forall|a: int, b: int|
                0 <= a < d.len() && 0 <= b < d.len() && a != b implies #[trigger] d[a].0@
                != #[trigger] d[b].0@ by {
                assert(s[a].0@ != s[b].0@);
            }
        }
        lemma_amount_at(d, i);
        assert(s.last().0@ != s[i].0@);
    }
}

proof fn lemma_amount_bounded(s: Seq<(Location, u128)>, k: LocationModel)
    requires
        unique_ids(s),
    ensures
        entries_amount(s, k) <= u128::MAX,
{
    if exists|a: int| 0 <= a < s.len() && #[trigger] s[a].0@ == k {
        let a = choose|a: int| 0 <= a < s.len() && #[trigger] s[a].0@ == k;
        lemma_amount_at(s, a);
    } else {
        lemma_amount_absent(s, k);
    }
}

proof fn lemma_amount_same_views(s: Seq<(Location, u128)>, t: Seq<(Location, u128)>, k: LocationModel)
    requires
        s.len() == t.len(),
        forall|i: int| 0 <= i < s.len() ==> #[trigger] s[i].0@ == t[i].0@ && s[i].1 == t[i].1,
    ensures
        entries_amount(s, k) == entries_amount(t, k),
    decreases s.len(),
{
    if s.len() > 0 {
        assert(forall|i: int| 0 <= i < s.len() - 1 ==> s.drop_last()[i] == s[i] && t.drop_last()[i] == t[i]);
        lemma_amount_same_views(s.drop_last(), t.drop_last(), k);
    }
}

/// A copy of a list of entries, entry by entry.
fn copy_entries(v: &Vec<(Location, u128)>) -> (r: Vec<(Location, u128)>)
    ensures
        r@.len() == v@.len(),
        forall|i: int| 0 <= i < v@.len() ==> #[trigger] r@[i].0@ == v@[i].0@ && r@[i].1 == v@[i].1,
{
    let mut r: Vec<(Location, u128)> = Vec::new();
    let mut i: usize = 0;
    while i < v.len()
        invariant
            i <= v@.len(),
            r@.len() == i,
            forall|j: int| 0 <= j < i ==> #[trigger] r@[j].0@ == v@[j].0@ && r@[j].1 == v@[j].1,
        decreases v@.len() - i,
    {
        r.push((v[i].0.clone(), v[i].1));
        i = i + 1;
    }
    r
}

proof fn lemma_amount_update(s: Seq<(Location, u128)>, i: int, e: (Location, u128), k: LocationModel)
    requires
        0 <= i < s.len(),
        e.0@ == s[i].0@,
    ensures
        entries_amount(s.update(i, e), k) + (if k == e.0@ {
            s[i].1 as nat
        } else {
            0
        }) == entries_amount(s, k) + (if k == e.0@ {
            e.1 as nat
        } else {
            0
        }),
    decreases s.len(),
{
    let t = s.update(i, e);
    if i < s.len() - 1 {
        assert(t.drop_last() =~= s.drop_last().update(i, e));
        lemma_amount_update(s.drop_last(), i, e, k);
    } else {
        assert(t.drop_last() =~= s.drop_last());
    }
}

proof fn lemma_amount_push(s: Seq<(Location, u128)>, e: (Location, u128), k: LocationModel)
    ensures
        entries_amount(s.push(e), k) == entries_amount(s, k) + (if e.0@ == k {
            e.1 as nat
        } else {
            0
        }),
{
    assert(s.push(e).drop_last() =~= s);
}

proof fn lemma_instances_push(s: Seq<(Location, u128)>, e: (Location, u128))
    ensures
        entries_instances(s.push(e)) == entries_instances(s).insert((e.0@, e.1)),
{
    let t = s.push(e);
    let q = (e.0@, e.1);
    assert forall|p: (LocationModel, u128)|
        entries_instances(t).contains(p) <==> entries_instances(s).insert(q).contains(p) by {
        if entries_instances(t).contains(p) {
            let j = choose|j: int| 0 <= j < t.len() && #[trigger] t[j].0@ == p.0 && t[j].1 == p.1;
            if j < s.len() {
                assert(s[j] == t[j]);
                assert(s[j].0@ == p.0);
            }
        }
        if entries_instances(s).contains(p) {
            let j = choose|j: int| 0 <= j < s.len() && #[trigger] s[j].0@ == p.0 && s[j].1 == p.1;
            assert(t[j] == s[j]);
            assert(t[j].0@ == p.0);
        }
        if p == q {
            assert(t[s.len() as int] == e);
            assert(t[s.len() as int].0@ == p.0);
        }
    }
    assert(entries_instances(t) =~= entries_instances(s).insert(q));
}

proof fn lemma_instances_remove(s: Seq<(Location, u128)>, i: int)
    requires
        unique_pairs(s),
        0 <= i < s.len(),
    ensures
        entries_instances(s.remove(i)) == entries_instances(s).remove((s[i].0@, s[i].1)),
        unique_pairs(s.remove(i)),
{
    let t = s.remove(i);
    let q = (s[i].0@, s[i].1);
    assert forall|p: (LocationModel, u128)|
        entries_instances(t).contains(p) <==> entries_instances(s).remove(q).contains(p) by {
        if entries_instances(t).contains(p) {
            let j = choose|j: int| 0 <= j < t.len() && #[trigger] t[j].0@ == p.0 && t[j].1 == p.1;
            let js = if j < i {
                j
            } else {
                j + 1
            };
            assert(t[j] == s[js]);
            assert(s[js].0@ == p.0);
            assert((s[js].0@, s[js].1) != (s[i].0@, s[i].1));
        }
        if entries_instances(s).contains(p) && p != q {
            let j = choose|j: int| 0 <= j < s.len() && #[trigger] s[j].0@ == p.0 && s[j].1 == p.1;
            assert(j != i);
            let jt = if j < i {
                j
            } else {
                j - 1
            };
            assert(t[jt] == s[j]);
            assert(t[jt].0@ == p.0);
        }
    }
    assert(entries_instances(t) =~= entries_instances(s).remove(q));
    assert forall|a: int, b: int|
        0 <= a < t.len() && 0 <= b < t.len() && a != b implies (#[trigger] t[a].0@, t[a].1) != (
    #[trigger] t[b].0@, t[b].1) by {
        let sa = if a < i {
            a
        } else {
            a + 1
        };
        let sb = if b < i {
            b
        } else {
            b + 1
        };
        assert(t[a] == s[sa]);
        assert(t[b] == s[sb]);
        assert((s[sa].0@, s[sa].1) != (s[sb].0@, s[sb].1));
    }
}

impl Clone for Bundle {
    fn clone(&self) -> (r: Self)
        ensures
            r@ == self@,
            r.wf() == self.wf(),
    {
        let r = Bundle { fungible: copy_entries(&self.fungible), non_fungible: copy_entries(&self.non_fungible) };
        proof {
            assert forall|k: LocationModel| #[trigger] entries_amount(r.fungible@, k) == entries_amount(self.fungible@, k) by {
                lemma_amount_same_views(r.fungible@, self.fungible@, k);
            }
            assert(r@.fungible =~= self@.fungible);
            assert forall|p: (LocationModel, u128)| entries_instances(r.non_fungible@).contains(p) <==> entries_instances(self.non_fungible@).contains(p) by {
                if entries_instances(r.non_fungible@).contains(p) {
                    let j = choose|j: int| 0 <= j < r.non_fungible@.len() && #[trigger] r.non_fungible@[j].0@ == p.0 && r.non_fungible@[j].1 == p.1;
                    assert(self.non_fungible@[j].0@ == p.0);
                }
                if entries_instances(self.non_fungible@).contains(p) {
                    let j = choose|j: int| 0 <= j < self.non_fungible@.len() && #[trigger] self.non_fungible@[j].0@ == p.0 && self.non_fungible@[j].1 == p.1;
                    assert(r.non_fungible@[j].0@ == p.0);
                }
            }
            assert(r@.non_fungible =~= self@.non_fungible);
            if self.wf() {
                assert forall|a: int, b: int|
                    0 <= a < r.fungible@.len() && 0 <= b < r.fungible@.len() && a != b implies #[trigger] r.fungible@[a].0@
                    != #[trigger] r.fungible@[b].0@ by {
                    assert(self.fungible@[a].0@ != self.fungible@[b].0@);
                }
                assert forall|a: int, b: int|
                    0 <= a < r.non_fungible@.len() && 0 <= b < r.non_fungible@.len() && a != b implies (#[trigger] r.non_fungible@[a].0@, r.non_fungible@[a].1) != (
                    #[trigger] r.non_fungible@[b].0@, r.non_fungible@[b].1) by {
                    assert((self.non_fungible@[a].0@, self.non_fungible@[a].1) != (self.non_fungible@[b].0@, self.non_fungible@[b].1));
                }
            }
            if r.wf() {
                assert forall|a: int, b: int|
                    0 <= a < r.fungible@.len() && 0 <= b < r.fungible@.len() && a != b implies #[trigger] self.fungible@[a].0@
                    != #[trigger] self.fungible@[b].0@ by {
                    assert(r.fungible@[a].0@ != r.fungible@[b].0@);
                }
                assert forall|a: int, b: int|
                    0 <= a < r.non_fungible@.len() && 0 <= b < r.non_fungible@.len() && a != b implies (#[trigger] self.non_fungible@[a].0@, self.non_fungible@[a].1) != (
                    #[trigger] self.non_fungible@[b].0@, self.non_fungible@[b].1) by {
                    assert(r.non_fungible@[a].0@ == self.non_fungible@[a].0@);
                    assert(r.non_fungible@[b].0@ == self.non_fungible@[b].0@);
                    assert((r.non_fungible@[a].0@, r.non_fungible@[a].1) != (r.non_fungible@[b].0@, r.non_fungible@[b].1));
                }
            }
        }
        r
    }
}

/// A bundle of assets. Fungible entries carry pairwise different identifiers
/// and non-fungible entries are pairwise different.
#[derive(Debug)]
pub struct Bundle {
    fungible: Vec<(Location, u128)>,
    non_fungible: Vec<(Location, u128)>,
}

impl View for Bundle {
    type V = BundleModel;

    closed spec fn view(&self) -> BundleModel {
        bundle_of_amounts(
            |k: LocationModel| entries_amount(self.fungible@, k),
            entries_instances(self.non_fungible@),
        )
    }
}

impl Bundle {
    /// The representation invariant.
    pub closed spec fn wf(&self) -> bool {
        unique_ids(self.fungible@) && unique_pairs(self.non_fungible@)
    }

    /// A well-formed bundle has a valid value.
    pub proof fn lemma_valid(&self)
        requires
            self.wf(),
        ensures
            self@.valid(),
    {
        assert forall|k: LocationModel| #[trigger] self@.fungible.contains_key(k) implies 0 < self@.fungible[k] <= u128::MAX by {
            lemma_amount_bounded(self.fungible@, k);
        }
    }

    /// The empty bundle.
    pub fn new() -> (r: Bundle)
        ensures
            r.wf(),
            r@ == BundleModel::empty(),
    {
        let r = Bundle { fungible: Vec::new(), non_fungible: Vec::new() };
        assert(r@.fungible =~= Map::empty());
        assert(r@.non_fungible =~= Set::empty());
        r
    }

    /// Where the fungible entry for `id` stands, if there is one.
    fn find_fungible(&self, id: &Location) -> (r: Option<usize>)
        ensures
            match r {
                Some(i) => i < self.fungible@.len() && self.fungible@[i as int].0@ == id@,
                None => forall|j: int|
                    0 <= j < self.fungible@.len() ==> #[trigger] self.fungible@[j].0@ != id@,
            },
    {
        let mut i: usize = 0;
        while i < self.fungible.len()
            invariant
                i <= self.fungible@.len(),
                forall|j: int| 0 <= j < i ==> #[trigger] self.fungible@[j].0@ != id@,
            decreases self.fungible@.len() - i,
        {
            if self.fungible[i].0.same(id) {
                return Some(i);
            }
            i = i + 1;
        }
        None
    }

    /// Where the non-fungible entry for (`id`, `instance`) stands, if there is one.
    fn find_instance(&self, id: &Location, instance: u128) -> (r: Option<usize>)
        ensures
            match r {
                Some(i) => i < self.non_fungible@.len() && self.non_fungible@[i as int].0@ == id@
                    && self.non_fungible@[i as int].1 == instance,
                None => !entries_instances(self.non_fungible@).contains((id@, instance)),
            },
    {
        let mut i: usize = 0;
        while i < self.non_fungible.len()
            invariant
                i <= self.non_fungible@.len(),
                forall|j: int|
                    0 <= j < i ==> !(#[trigger] self.non_fungible@[j].0@ == id@
                        && self.non_fungible@[j].1 == instance),
            decreases self.non_fungible@.len() - i,
        {
            if self.non_fungible[i].1 == instance && self.non_fungible[i].0.same(id) {
                return Some(i);
            }
            i = i + 1;
        }
        None
    }

    /// The fungible amount held of `id`.
    pub fn amount(&self, id: &Location) -> (r: u128)
        requires
            self.wf(),
        ensures
            r == self@.amount(id@),
    {
        match self.find_fungible(id) {
            Some(i) => {
                proof {
                    lemma_amount_at(self.fungible@, i as int);
                }
                self.fungible[i].1
            },
            None => {
                proof {
                    lemma_amount_absent(self.fungible@, id@);
                }
                0
            },
        }
    }

    /// Whether the instance `instance` of `id` is held.
    pub fn holds_instance(&self, id: &Location, instance: u128) -> (r: bool)
        ensures
            r == self@.non_fungible.contains((id@, instance)),
    {
        self.find_instance(id, instance).is_some()
    }

    /// Adds `n` to the fungible amount of `id`, saturating at the largest amount.
    fn add_fungible(&mut self, id: &Location, n: u128)
        requires
            old(self).wf(),
        ensures
            final(self).wf(),
            final(self).non_fungible@ == old(self).non_fungible@,
            forall|k: LocationModel|
                #[trigger] entries_amount(final(self).fungible@, k) == if k == id@ {
                    saturate((entries_amount(old(self).fungible@, k) + n) as nat)
                } else {
                    entries_amount(old(self).fungible@, k)
                },
    {
        let ghost s = self.fungible@;
        match self.find_fungible(id) {
            Some(i) => {
                proof {
                    lemma_amount_at(s, i as int);
                }
                let have = self.fungible[i].1;
                let e = (id.clone(), have.saturating_add(n));
                self.fungible.set(i, e);
                proof {
                    assert forall|k: LocationModel|
                        #[trigger] entries_amount(self.fungible@, k) == if k == id@ {
                            saturate((entries_amount(s, k) + n) as nat)
                        } else {
                            entries_amount(s, k)
                        } by {
                        lemma_amount_update(s, i as int, e, k);
                    }
                    assert forall|a: int, b: int|
                        0 <= a < self.fungible@.len() && 0 <= b < self.fungible@.len() && a
                            != b implies #[trigger] self.fungible@[a].0@
                        != #[trigger] self.fungible@[b].0@ by {
                        assert(s[a].0@ != s[b].0@);
                    }
                }
            },
            None => {
                proof {
                    lemma_amount_absent(s, id@);
                }
                let e = (id.clone(), n);
                self.fungible.push(e);
                proof {
                    assert forall|k: LocationModel|
                        #[trigger] entries_amount(self.fungible@, k) == if k == id@ {
                            saturate((entries_amount(s, k) + n) as nat)
                        } else {
                            entries_amount(s, k)
                        } by {
                        lemma_amount_push(s, e, k);
                    }
                    assert forall|a: int, b: int|
                        0 <= a < self.fungible@.len() && 0 <= b < self.fungible@.len() && a
                            != b implies #[trigger] self.fungible@[a].0@
                        != #[trigger] self.fungible@[b].0@ by {
                        if a < s.len() && b < s.len() {
                            assert(s[a].0@ != s[b].0@);
                        } else if a < s.len() {
                            assert(s[a].0@ != id@);
                        } else {
                            assert(s[b].0@ != id@);
                        }
                    }
                }
            },
        }
    }

    /// Takes up to `n` of the fungible amount of `id`; returns what was taken.
    fn take_fungible(&mut self, id: &Location, n: u128) -> (t: u128)
        requires
            old(self).wf(),
        ensures
            final(self).wf(),
            final(self).non_fungible@ == old(self).non_fungible@,
            t == if n <= entries_amount(old(self).fungible@, id@) {
                n as nat
            } else {
                entries_amount(old(self).fungible@, id@)
            },
            forall|k: LocationModel|
                #[trigger] entries_amount(final(self).fungible@, k) == if k == id@ {
                    (entries_amount(old(self).fungible@, k) - t) as nat
                } else {
                    entries_amount(old(self).fungible@, k)
                },
    {
        let ghost s = self.fungible@;
        match self.find_fungible(id) {
            Some(i) => {
                proof {
                    lemma_amount_at(s, i as int);
                }
                let have = self.fungible[i].1;
                let t = if n <= have {
                    n
                } else {
                    have
                };
                let e = (id.clone(), have - t);
                self.fungible.set(i, e);
                proof {
                    assert forall|k: LocationModel|
                        #[trigger] entries_amount(self.fungible@, k) == if k == id@ {
                            (entries_amount(s, k) - t) as nat
                        } else {
                            entries_amount(s, k)
                        } by {
                        lemma_amount_update(s, i as int, e, k);
                    }
                    assert forall|a: int, b: int|
                        0 <= a < self.fungible@.len() && 0 <= b < self.fungible@.len() && a
                            != b implies #[trigger] self.fungible@[a].0@
                        != #[trigger] self.fungible@[b].0@ by {
                        assert(s[a].0@ != s[b].0@);
                    }
                }
                t
            },
            None => {
                proof {
                    lemma_amount_absent(s, id@);
                }
                0
            },
        }
    }

    /// Adds one non-fungible instance.
    fn add_instance(&mut self, id: &Location, instance: u128)
        requires
            old(self).wf(),
        ensures
            final(self).wf(),
            final(self).fungible@ == old(self).fungible@,
            entries_instances(final(self).non_fungible@) == entries_instances(
                old(self).non_fungible@,
            ).insert((id@, instance)),
    {
        let ghost s = self.non_fungible@;
        match self.find_instance(id, instance) {
            Some(i) => {
                proof {
                    assert(entries_instances(s).contains((id@, instance))) by {
                        assert(s[i as int].0@ == id@);
                    }
                    assert(entries_instances(s).insert((id@, instance)) =~= entries_instances(s));
                }
            },
            None => {
                let e = (id.clone(), instance);
                self.non_fungible.push(e);
                proof {
                    lemma_instances_push(s, e);
                    assert forall|a: int, b: int|
                        0 <= a < self.non_fungible@.len() && 0 <= b < self.non_fungible@.len()
                            && a != b implies (#[trigger] self.non_fungible@[a].0@,
                    self.non_fungible@[a].1) != (#[trigger] self.non_fungible@[b].0@,
                    self.non_fungible@[b].1) by {
                        if a < s.len() && b < s.len() {
                            assert((s[a].0@, s[a].1) != (s[b].0@, s[b].1));
                        } else if a < s.len() {
                            assert(s[a].0@ == s[a].0@);
                        } else {
                            assert(s[b].0@ == s[b].0@);
                        }
                    }
                }
            },
        }
    }

    /// Removes one non-fungible instance; says whether it was held.
    fn take_instance(&mut self, id: &Location, instance: u128) -> (found: bool)
        requires
            old(self).wf(),
        ensures
            final(self).wf(),
            final(self).fungible@ == old(self).fungible@,
            found == entries_instances(old(self).non_fungible@).contains((id@, instance)),
            entries_instances(final(self).non_fungible@) == entries_instances(
                old(self).non_fungible@,
            ).remove((id@, instance)),
    {
        let ghost s = self.non_fungible@;
        match self.find_instance(id, instance) {
            Some(i) => {
                proof {
                    assert(s[i as int].0@ == id@);
                    lemma_instances_remove(s, i as int);
                }
                self.non_fungible.remove(i);
                true
            },
            None => {
                proof {
                    assert(entries_instances(s).remove((id@, instance)) =~= entries_instances(s));
                }
                false
            },
        }
    }

    /// Merges the asset `a` into this bundle.
    pub fn subsume(&mut self, a: Asset)
        requires
            old(self).wf(),
        ensures
            final(self).wf(),
            final(self)@ == old(self)@.add(a@),
    {
        match a.fun {
            Fungibility::Fungible(n) => {
                self.add_fungible(&a.id, n);
                assert(self@.fungible =~= old(self)@.add(a@).fungible);
            },
            Fungibility::NonFungible(i) => {
                self.add_instance(&a.id, i);
                assert(self@.fungible =~= old(self)@.add(a@).fungible);
            },
        }
    }

    /// The bundle holding exactly `a`.
    pub fn from_asset(a: Asset) -> (r: Bundle)
        ensures
            r.wf(),
            r@ == BundleModel::of(a@),
    {
        let mut r = Bundle::new();
        r.subsume(a);
        r
    }

    /// Whether this bundle holds at least the asset `a`.
    pub fn contains_asset(&self, a: &Asset) -> (r: bool)
        requires
            self.wf(),
        ensures
            r == self@.holds(a@),
    {
        match a.fun {
            Fungibility::Fungible(n) => n <= self.amount(&a.id),
            Fungibility::NonFungible(i) => self.holds_instance(&a.id, i),
        }
    }

    /// Removes up to `a` from this bundle, never going below zero, and
    /// returns what was removed.
    pub fn saturating_take(&mut self, a: &Asset) -> (r: Bundle)
        requires
            old(self).wf(),
        ensures
            final(self).wf(),
            r.wf(),
            final(self)@ == old(self)@.sub(a@),
            r@ == old(self)@.taken(a@),
    {
        match a.fun {
            Fungibility::Fungible(n) => {
                let t = self.take_fungible(&a.id, n);
                assert(self@.fungible =~= old(self)@.sub(a@).fungible);
                Bundle::from_asset(Asset::fungible(a.id.clone(), t))
            },
            Fungibility::NonFungible(i) => {
                let found = self.take_instance(&a.id, i);
                if found {
                    Bundle::from_asset(Asset::non_fungible(a.id.clone(), i))
                } else {
                    Bundle::new()
                }
            },
        }
    }

    /// Merges every asset of `other` into this bundle.
    pub fn subsume_bundle(&mut self, other: &Bundle)
        requires
            old(self).wf(),
            other.wf(),
        ensures
            final(self).wf(),
            final(self)@ == old(self)@.merge(other@),
    {
        let ghost f0 = self.fungible@;
        let ghost n0 = self.non_fungible@;
        let ghost of = other.fungible@;
        let ghost on = other.non_fungible@;
        proof {
            assert forall|k: LocationModel|
                #[trigger] entries_amount(self.fungible@, k) == saturate(
                    (entries_amount(f0, k) + entries_amount(of.take(0), k)) as nat,
                ) by {
                lemma_amount_bounded(f0, k);
            }
        }
        let mut i: usize = 0;
        while i < other.fungible.len()
            invariant
                self.wf(),
                i <= of.len(),
                of == other.fungible@,
                self.non_fungible@ == n0,
                forall|k: LocationModel|
                    #[trigger] entries_amount(self.fungible@, k) == saturate(
                        (entries_amount(f0, k) + entries_amount(of.take(i as int), k)) as nat,
                    ),
            decreases of.len() - i,
        {
            let ghost before = self.fungible@;
            self.add_fungible(&other.fungible[i].0, other.fungible[i].1);
            proof {
                assert(of.take(i + 1).drop_last() =~= of.take(i as int));
                assert forall|k: LocationModel|
                    #[trigger] entries_amount(self.fungible@, k) == saturate(
                        (entries_amount(f0, k) + entries_amount(of.take(i + 1), k)) as nat,
                    ) by {
                    assert(entries_amount(before, k) == saturate(
                        (entries_amount(f0, k) + entries_amount(of.take(i as int), k)) as nat,
                    ));
                }
            }
            i = i + 1;
        }
        assert(of.take(of.len() as int) =~= of);
        let mut j: usize = 0;
        while j < other.non_fungible.len()
            invariant
                self.wf(),
                j <= on.len(),
                on == other.non_fungible@,
                forall|k: LocationModel|
                    #[trigger] entries_amount(self.fungible@, k) == saturate(
                        (entries_amount(f0, k) + entries_amount(of, k)) as nat,
                    ),
                entries_instances(self.non_fungible@) == entries_instances(n0).union(
                    entries_instances(on.take(j as int)),
                ),
            decreases on.len() - j,
        {
            self.add_instance(&other.non_fungible[j].0, other.non_fungible[j].1);
            proof {
                assert(on.take(j + 1) =~= on.take(j as int).push(on[j as int]));
                lemma_instances_push(on.take(j as int), on[j as int]);
                assert(entries_instances(self.non_fungible@) =~= entries_instances(n0).union(
                    entries_instances(on.take(j + 1)),
                ));
            }
            j = j + 1;
        }
        assert(on.take(on.len() as int) =~= on);
        assert(self@.fungible =~= old(self)@.merge(other@).fungible);
        assert(self@.non_fungible =~= old(self)@.merge(other@).non_fungible);
    }

    /// Whether this bundle holds at least everything `w` holds.
    pub fn contains_bundle(&self, w: &Bundle) -> (r: bool)
        requires
            self.wf(),
            w.wf(),
        ensures
            r == self@.covers(w@),
    {
        let ghost wf = w.fungible@;
        let ghost wn = w.non_fungible@;
        let mut i: usize = 0;
        while i < w.fungible.len()
            invariant
                self.wf(),
                w.wf(),
                i <= wf.len(),
                wf == w.fungible@,
                forall|j: int| 0 <= j < i ==> #[trigger] wf[j].1 <= self@.amount(wf[j].0@),
            decreases wf.len() - i,
        {
            if w.fungible[i].1 > self.amount(&w.fungible[i].0) {
                proof {
                    lemma_amount_at(wf, i as int);
                    let k = wf[i as int].0@;
                    assert(w@.amount(k) > self@.amount(k));
                }
                return false;
            }
            i = i + 1;
        }
        let mut j: usize = 0;
        while j < w.non_fungible.len()
            invariant
                self.wf(),
                j <= wn.len(),
                wn == w.non_fungible@,
                forall|a: int|
                    0 <= a < j ==> self@.non_fungible.contains((#[trigger] wn[a].0@, wn[a].1)),
            decreases wn.len() - j,
        {
            if !self.holds_instance(&w.non_fungible[j].0, w.non_fungible[j].1) {
                proof {
                    assert(w@.non_fungible.contains((wn[j as int].0@, wn[j as int].1)));
                }
                return false;
            }
            j = j + 1;
        }
        proof {
            assert forall|k: LocationModel| #[trigger] w@.amount(k) <= self@.amount(k) by {
                if exists|a: int| 0 <= a < wf.len() && #[trigger] wf[a].0@ == k {
                    let a = choose|a: int| 0 <= a < wf.len() && #[trigger] wf[a].0@ == k;
                    lemma_amount_at(wf, a);
                } else {
                    lemma_amount_absent(wf, k);
                }
            }
            assert forall|p: (LocationModel, u128)| w@.non_fungible.contains(p) implies self@.non_fungible.contains(p) by {
                let a = choose|a: int| 0 <= a < wn.len() && #[trigger] wn[a].0@ == p.0 && wn[a].1 == p.1;
            }
        }
        true
    }

    /// Removes `w` from this bundle as far as it is held, never going below
    /// zero, and returns what was removed.
    pub fn take_bundle(&mut self, w: &Bundle) -> (r: Bundle)
        requires
            old(self).wf(),
            w.wf(),
        ensures
            final(self).wf(),
            r.wf(),
            final(self)@ == old(self)@.without(w@),
            r@ == old(self)@.common(w@),
    {
        let ghost f0 = self.fungible@;
        let ghost n0 = self.non_fungible@;
        let ghost wf = w.fungible@;
        let ghost wn = w.non_fungible@;
        let mut r = Bundle { fungible: Vec::new(), non_fungible: Vec::new() };
        assert(r@.non_fungible =~= Set::empty());
        let mut i: usize = 0;
        while i < w.fungible.len()
            invariant
                self.wf(),
                r.wf(),
                w.wf(),
                i <= wf.len(),
                wf == w.fungible@,
                self.non_fungible@ == n0,
                r@.non_fungible == Set::<(LocationModel, u128)>::empty(),
                forall|k: LocationModel|
                    #[trigger] entries_amount(r.fungible@, k) == if entries_amount(wf.take(i as int), k)
                        <= entries_amount(f0, k) {
                        entries_amount(wf.take(i as int), k)
                    } else {
                        entries_amount(f0, k)
                    },
                forall|k: LocationModel|
                    #[trigger] entries_amount(self.fungible@, k) == entries_amount(f0, k)
                        - entries_amount(r.fungible@, k),
            decreases wf.len() - i,
        {
            let ghost sb = self.fungible@;
            let ghost rb = r.fungible@;
            let ghost key = wf[i as int].0@;
            proof {
                assert(wf.take(i + 1).drop_last() =~= wf.take(i as int));
                assert forall|j: int| 0 <= j < wf.take(i as int).len() implies #[trigger] wf.take(i as int)[j].0@ != key by {
                    assert(wf[j].0@ != wf[i as int].0@);
                }
                lemma_amount_absent(wf.take(i as int), key);
            }
            let t = self.take_fungible(&w.fungible[i].0, w.fungible[i].1);
            r.add_fungible(&w.fungible[i].0, t);
            proof {
                assert forall|k: LocationModel|
                    #[trigger] entries_amount(r.fungible@, k) == if entries_amount(wf.take(i + 1), k)
                        <= entries_amount(f0, k) {
                        entries_amount(wf.take(i + 1), k)
                    } else {
                        entries_amount(f0, k)
                    } by {
                    assert(entries_amount(rb, k) == if entries_amount(wf.take(i as int), k)
                        <= entries_amount(f0, k) {
                        entries_amount(wf.take(i as int), k)
                    } else {
                        entries_amount(f0, k)
                    });
                    assert(entries_amount(sb, k) == entries_amount(f0, k) - entries_amount(rb, k));
                }
                assert forall|k: LocationModel|
                    #[trigger] entries_amount(self.fungible@, k) == entries_amount(f0, k)
                        - entries_amount(r.fungible@, k) by {
                    assert(entries_amount(sb, k) == entries_amount(f0, k) - entries_amount(rb, k));
                }
            }
            i = i + 1;
        }
        assert(wf.take(wf.len() as int) =~= wf);
        let mut j: usize = 0;
        while j < w.non_fungible.len()
            invariant
                self.wf(),
                r.wf(),
                j <= wn.len(),
                wn == w.non_fungible@,
                forall|k: LocationModel|
                    #[trigger] entries_amount(r.fungible@, k) == if entries_amount(wf, k)
                        <= entries_amount(f0, k) {
                        entries_amount(wf, k)
                    } else {
                        entries_amount(f0, k)
                    },
                forall|k: LocationModel|
                    #[trigger] entries_amount(self.fungible@, k) == entries_amount(f0, k)
                        - entries_amount(r.fungible@, k),
                entries_instances(self.non_fungible@) == entries_instances(n0).difference(
                    entries_instances(wn.take(j as int)),
                ),
                entries_instances(r.non_fungible@) == entries_instances(n0).intersect(
                    entries_instances(wn.take(j as int)),
                ),
            decreases wn.len() - j,
        {
            proof {
                assert(wn.take(j + 1) =~= wn.take(j as int).push(wn[j as int]));
                lemma_instances_push(wn.take(j as int), wn[j as int]);
            }
            let found = self.take_instance(&w.non_fungible[j].0, w.non_fungible[j].1);
            if found {
                r.add_instance(&w.non_fungible[j].0, w.non_fungible[j].1);
            }
            proof {
                assert(entries_instances(self.non_fungible@) =~= entries_instances(n0).difference(
                    entries_instances(wn.take(j + 1)),
                ));
                assert(entries_instances(r.non_fungible@) =~= entries_instances(n0).intersect(
                    entries_instances(wn.take(j + 1)),
                ));
            }
            j = j + 1;
        }
        assert(wn.take(wn.len() as int) =~= wn);
        assert(self@.fungible =~= old(self)@.without(w@).fungible);
        assert(self@.non_fungible =~= old(self)@.without(w@).non_fungible);
        assert(r@.fungible =~= old(self)@.common(w@).fungible);
        assert(r@.non_fungible =~= old(self)@.common(w@).non_fungible);
        r
    }

    /// Whether this bundle holds anything of `id`.
    pub fn names(&self, id: &Location) -> (r: bool)
        requires
            self.wf(),
        ensures
            r == self@.ids().contains(id@),
    {
        if self.amount(id) > 0 {
            return true;
        }
        let ghost nf = self.non_fungible@;
        let mut j: usize = 0;
        while j < self.non_fungible.len()
            invariant
                j <= nf.len(),
                nf == self.non_fungible@,
                forall|a: int| 0 <= a < j ==> #[trigger] nf[a].0@ != id@,
            decreases nf.len() - j,
        {
            if self.non_fungible[j].0.same(id) {
                proof {
                    assert(self@.non_fungible.contains((id@, nf[j as int].1)));
                }
                return true;
            }
            j = j + 1;
        }
        proof {
            assert forall|i: u128| !self@.non_fungible.contains((id@, i)) by {
                if self@.non_fungible.contains((id@, i)) {
                    let a = choose|a: int| 0 <= a < nf.len() && #[trigger] nf[a].0@ == id@ && nf[a].1 == i;
                }
            }
        }
        false
    }

    /// Moves out everything this bundle holds of the identifiers that `w`
    /// holds anything of, and returns it.
    pub fn take_matching(&mut self, w: &Bundle) -> (r: Bundle)
        requires
            old(self).wf(),
            w.wf(),
        ensures
            final(self).wf(),
            r.wf(),
            r@ == old(self)@.restricted(w@.ids()),
            final(self)@ == old(self)@.restricted(w@.ids().complement()),
    {
        let ghost f0 = self.fungible@;
        let ghost n0 = self.non_fungible@;
        let ghost ids = w@.ids();
        let mut keep = Bundle { fungible: Vec::new(), non_fungible: Vec::new() };
        let mut r = Bundle { fungible: Vec::new(), non_fungible: Vec::new() };
        let mut i: usize = 0;
        while i < self.fungible.len()
            invariant
                self.wf(),
                keep.wf(),
                r.wf(),
                w.wf(),
                ids == w@.ids(),
                i <= f0.len(),
                f0 == self.fungible@,
                n0 == self.non_fungible@,
                keep.non_fungible@.len() == 0,
                r.non_fungible@.len() == 0,
                forall|k: LocationModel|
                    #[trigger] entries_amount(keep.fungible@, k) == if ids.contains(k) {
                        0
                    } else {
                        entries_amount(f0.take(i as int), k)
                    },
                forall|k: LocationModel|
                    #[trigger] entries_amount(r.fungible@, k) == if ids.contains(k) {
                        entries_amount(f0.take(i as int), k)
                    } else {
                        0
                    },
            decreases f0.len() - i,
        {
            let ghost kb = keep.fungible@;
            let ghost rb = r.fungible@;
            let ghost key = f0[i as int].0@;
            proof {
                assert(f0.take(i + 1).drop_last() =~= f0.take(i as int));
                assert forall|j: int| 0 <= j < f0.take(i as int).len() implies #[trigger] f0.take(i as int)[j].0@ != key by {
                    assert(f0[j].0@ != f0[i as int].0@);
                }
                lemma_amount_absent(f0.take(i as int), key);
            }
            if w.names(&self.fungible[i].0) {
                r.add_fungible(&self.fungible[i].0, self.fungible[i].1);
            } else {
                keep.add_fungible(&self.fungible[i].0, self.fungible[i].1);
            }
            proof {
                assert forall|k: LocationModel|
                    #[trigger] entries_amount(keep.fungible@, k) == if ids.contains(k) {
                        0
                    } else {
                        entries_amount(f0.take(i + 1), k)
                    } by {
                    assert(entries_amount(kb, k) == if ids.contains(k) {
                        0
                    } else {
                        entries_amount(f0.take(i as int), k)
                    });
                }
                assert forall|k: LocationModel|
                    #[trigger] entries_amount(r.fungible@, k) == if ids.contains(k) {
                        entries_amount(f0.take(i + 1), k)
                    } else {
                        0
                    } by {
                    assert(entries_amount(rb, k) == if ids.contains(k) {
                        entries_amount(f0.take(i as int), k)
                    } else {
                        0
                    });
                }
            }
            i = i + 1;
        }
        assert(f0.take(f0.len() as int) =~= f0);
        proof {
            assert(keep.non_fungible@ =~= Seq::<(Location, u128)>::empty());
            assert(r.non_fungible@ =~= Seq::<(Location, u128)>::empty());
            assert(entries_instances(keep.non_fungible@) =~= entries_instances(n0.take(0)).filter(|p: (LocationModel, u128)| !ids.contains(p.0)));
            assert(entries_instances(r.non_fungible@) =~= entries_instances(n0.take(0)).filter(|p: (LocationModel, u128)| ids.contains(p.0)));
        }
        let mut j: usize = 0;
        while j < self.non_fungible.len()
            invariant
                self.wf(),
                keep.wf(),
                r.wf(),
                w.wf(),
                ids == w@.ids(),
                j <= n0.len(),
                n0 == self.non_fungible@,
                forall|k: LocationModel|
                    #[trigger] entries_amount(keep.fungible@, k) == if ids.contains(k) {
                        0
                    } else {
                        entries_amount(f0, k)
                    },
                forall|k: LocationModel|
                    #[trigger] entries_amount(r.fungible@, k) == if ids.contains(k) {
                        entries_amount(f0, k)
                    } else {
                        0
                    },
                entries_instances(keep.non_fungible@) == entries_instances(n0.take(j as int)).filter(
                    |p: (LocationModel, u128)| !ids.contains(p.0),
                ),
                entries_instances(r.non_fungible@) == entries_instances(n0.take(j as int)).filter(
                    |p: (LocationModel, u128)| ids.contains(p.0),
                ),
            decreases n0.len() - j,
        {
            proof {
                assert(n0.take(j + 1) =~= n0.take(j as int).push(n0[j as int]));
                lemma_instances_push(n0.take(j as int), n0[j as int]);
            }
            if w.names(&self.non_fungible[j].0) {
                r.add_instance(&self.non_fungible[j].0, self.non_fungible[j].1);
            } else {
                keep.add_instance(&self.non_fungible[j].0, self.non_fungible[j].1);
            }
            proof {
                assert(entries_instances(keep.non_fungible@) =~= entries_instances(n0.take(j + 1)).filter(
                    |p: (LocationModel, u128)| !ids.contains(p.0),
                ));
                assert(entries_instances(r.non_fungible@) =~= entries_instances(n0.take(j + 1)).filter(
                    |p: (LocationModel, u128)| ids.contains(p.0),
                ));
            }
            j = j + 1;
        }
        assert(n0.take(n0.len() as int) =~= n0);
        assert(r@.fungible =~= old(self)@.restricted(ids).fungible);
        assert(r@.non_fungible =~= old(self)@.restricted(ids).non_fungible);
        assert(keep@.fungible =~= old(self)@.restricted(ids.complement()).fungible);
        assert(keep@.non_fungible =~= old(self)@.restricted(ids.complement()).non_fungible);
        *self = keep;
        r
    }
}

} // verus!
