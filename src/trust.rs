//! Which origins are trusted reserves or teleporters of which assets, and
//! which bridges may alias which remote consensus systems.
use vstd::prelude::*;
use crate::asset::{Asset, AssetModel, Fungibility};
use crate::location::{Junction, Location, LocationModel};

verus! {

/// A predicate over a single asset.
#[derive(Debug, Clone)]
pub enum AssetFilter {
    /// Exactly this asset.
    Definite(Asset),
    /// Any asset with this identifier that is fungible (or, if `fungible`
    /// is false, non-fungible).
    AllOf { id: Location, fungible: bool },
    /// Any asset at all.
    All,
}

/// The mathematical value of an asset filter.
pub enum FilterModel {
    Definite(AssetModel),
    AllOf { id: LocationModel, fungible: bool },
    All,
}

impl View for AssetFilter {
    type V = FilterModel;

    open spec fn view(&self) -> FilterModel {
        match self {
            AssetFilter::Definite(a) => FilterModel::Definite(a@),
            AssetFilter::AllOf { id, fungible } => FilterModel::AllOf { id: id@, fungible: *fungible },
            AssetFilter::All => FilterModel::All,
        }
    }
}

/// Whether the filter `f` admits the asset `a`.
pub open spec fn filter_matches(f: FilterModel, a: AssetModel) -> bool {
    match f {
        FilterModel::Definite(x) => x == a,
        FilterModel::AllOf { id, fungible } => id == a.id && (a.fun is Fungible) == fungible,
        FilterModel::All => true,
    }
}

impl AssetFilter {
    /// Whether this filter admits `a`.
    pub fn matches(&self, a: &Asset) -> (r: bool)
        ensures
            r == filter_matches(self@, a@),
    {
        match self {
            AssetFilter::Definite(x) => x.same(a),
            AssetFilter::AllOf { id, fungible } => {
                let is_fungible = match a.fun {
                    Fungibility::Fungible(_) => true,
                    Fungibility::NonFungible(_) => false,
                };
                is_fungible == *fungible && id.same(&a.id)
            },
            AssetFilter::All => true,
        }
    }
}

/// Whether some entry of `trusted` is for `origin` and admits `a`.
pub open spec fn trusts(trusted: Seq<(LocationModel, FilterModel)>, origin: LocationModel, a: AssetModel) -> bool {
    exists|i: int|
        0 <= i < trusted.len() && #[trigger] trusted[i].0 == origin && filter_matches(trusted[i].1, a)
}

/// The trust tables, as values.
pub struct TrustModel {
    pub reserves: Seq<(LocationModel, FilterModel)>,
    pub teleporters: Seq<(LocationModel, FilterModel)>,
    pub aliases: Set<(LocationModel, Junction)>,
}

/// The configured trust: reserve and teleport filters per origin, and the
/// approved universal aliases.
pub struct TrustRegistry {
    reserves: Vec<(Location, AssetFilter)>,
    teleporters: Vec<(Location, AssetFilter)>,
    aliases: Vec<(Location, Junction)>,
}

/// The entries of a filter list, as values.
pub open spec fn filter_entries(v: Seq<(Location, AssetFilter)>) -> Seq<(LocationModel, FilterModel)> {
    v.map_values(|e: (Location, AssetFilter)| (e.0@, e.1@))
}

/// Whether some entry of `v` is for `origin` and admits `a`.
fn any_trusts(v: &Vec<(Location, AssetFilter)>, origin: &Location, a: &Asset) -> (r: bool)
    ensures
        r == trusts(filter_entries(v@), origin@, a@),
{
    let ghost es = filter_entries(v@);
    let mut i: usize = 0;
    while i < v.len()
        invariant
            i <= v@.len(),
            es == filter_entries(v@),
            forall|j: int| 0 <= j < i ==> !(#[trigger] es[j].0 == origin@ && filter_matches(es[j].1, a@)),
        decreases v@.len() - i,
    {
        if v[i].0.same(origin) && v[i].1.matches(a) {
            assert(es[i as int].0 == origin@);
            return true;
        }
        i = i + 1;
    }
    false
}

impl View for TrustRegistry {
    type V = TrustModel;

    closed spec fn view(&self) -> TrustModel {
        TrustModel {
            reserves: filter_entries(self.reserves@),
            teleporters: filter_entries(self.teleporters@),
            aliases: Set::new(
                |p: (LocationModel, Junction)|
                    exists|i: int|
                        0 <= i < self.aliases@.len() && #[trigger] self.aliases@[i].0@ == p.0
                            && self.aliases@[i].1 == p.1,
            ),
        }
    }
}

impl TrustRegistry {
    /// A registry that trusts nobody.
    pub fn new() -> (r: TrustRegistry)
        ensures
            r@.reserves == Seq::<(LocationModel, FilterModel)>::empty(),
            r@.teleporters == Seq::<(LocationModel, FilterModel)>::empty(),
            r@.aliases == Set::<(LocationModel, Junction)>::empty(),
    {
        let r = TrustRegistry { reserves: Vec::new(), teleporters: Vec::new(), aliases: Vec::new() };
        assert(r@.reserves =~= Seq::<(LocationModel, FilterModel)>::empty());
        assert(r@.teleporters =~= Seq::<(LocationModel, FilterModel)>::empty());
        assert(r@.aliases =~= Set::<(LocationModel, Junction)>::empty());
        r
    }

    /// Trusts `from` as a reserve of the assets that `filter` admits.
    pub fn add_reserve(&mut self, from: Location, filter: AssetFilter)
        ensures
            final(self)@ == (TrustModel { reserves: old(self)@.reserves.push((from@, filter@)), ..old(self)@ }),
    {
        let ghost e = (from@, filter@);
        self.reserves.push((from, filter));
        assert(filter_entries(self.reserves@) =~= filter_entries(old(self).reserves@).push(e));
    }

    /// Trusts `from` as a teleporter of the assets that `filter` admits.
    pub fn add_teleporter(&mut self, from: Location, filter: AssetFilter)
        ensures
            final(self)@ == (TrustModel { teleporters: old(self)@.teleporters.push((from@, filter@)), ..old(self)@ }),
    {
        let ghost e = (from@, filter@);
        self.teleporters.push((from, filter));
        assert(filter_entries(self.teleporters@) =~= filter_entries(old(self).teleporters@).push(e));
    }

    /// Whether `origin` is a trusted reserve of `asset`.
    pub fn is_reserve(&self, asset: &Asset, origin: &Location) -> (r: bool)
        ensures
            r == trusts(self@.reserves, origin@, asset@),
    {
        any_trusts(&self.reserves, origin, asset)
    }

    /// Whether `origin` is a trusted teleporter of `asset`.
    pub fn is_teleporter(&self, asset: &Asset, origin: &Location) -> (r: bool)
        ensures
            r == trusts(self@.teleporters, origin@, asset@),
    {
        any_trusts(&self.teleporters, origin, asset)
    }

    /// Approves traffic behind `bridge` that claims the consensus `consensus`.
    pub fn add_universal_alias(&mut self, bridge: Location, consensus: Junction)
        ensures
            final(self)@ == (TrustModel { aliases: old(self)@.aliases.insert((bridge@, consensus)), ..old(self)@ }),
    {
        let ghost b = bridge@;
        let ghost s = self.aliases@;
        self.aliases.push((bridge, consensus));
        proof {
            let t = self.aliases@;
            assert forall|p: (LocationModel, Junction)|
                self@.aliases.contains(p) <==> old(self)@.aliases.insert((b, consensus)).contains(p) by {
                if self@.aliases.contains(p) {
                    let i = choose|i: int| 0 <= i < t.len() && #[trigger] t[i].0@ == p.0 && t[i].1 == p.1;
                    if i < s.len() {
                        assert(s[i] == t[i]);
                        assert(s[i].0@ == p.0);
                    }
                }
                if old(self)@.aliases.contains(p) {
                    let i = choose|i: int| 0 <= i < s.len() && #[trigger] s[i].0@ == p.0 && s[i].1 == p.1;
                    assert(t[i] == s[i]);
                    assert(t[i].0@ == p.0);
                }
                if p == (b, consensus) {
                    assert(t[s.len() as int].0@ == p.0);
                }
            }
            assert(self@.aliases =~= old(self)@.aliases.insert((b, consensus)));
        }
    }

    /// Withdraws every universal alias.
    pub fn clear_universal_aliases(&mut self)
        ensures
            final(self)@ == (TrustModel { aliases: Set::empty(), ..old(self)@ }),
    {
        self.aliases = Vec::new();
        assert(self@.aliases =~= Set::<(LocationModel, Junction)>::empty());
    }

    /// Whether (`bridge`, `consensus`) is an approved universal alias.
    pub fn contains_alias(&self, bridge: &Location, consensus: Junction) -> (r: bool)
        ensures
            r == self@.aliases.contains((bridge@, consensus)),
    {
        let ghost s = self.aliases@;
        let mut i: usize = 0;
        while i < self.aliases.len()
            invariant
                i <= s.len(),
                s == self.aliases@,
                forall|j: int| 0 <= j < i ==> !(#[trigger] s[j].0@ == bridge@ && s[j].1 == consensus),
            decreases s.len() - i,
        {
            if self.aliases[i].1 == consensus && self.aliases[i].0.same(bridge) {
                assert(s[i as int].0@ == bridge@);
                return true;
            }
            i = i + 1;
        }
        false
    }
}

} // verus!
