//! Hierarchical addresses of trust domains and accounts.
use vstd::prelude::*;

verus! {

/// A consensus system that a location can be rooted in.
#[derive(Debug, Clone, Copy, PartialEq, Eq, Structural)]
pub enum NetworkId {
    Polkadot,
    Kusama,
    Westend,
    Rococo,
    ByGenesis(u64),
}

/// One step of descent in a location's interior path.
#[derive(Debug, Clone, Copy, PartialEq, Eq, Structural)]
pub enum Junction {
    Parachain(u32),
    AccountIndex64(u64),
    AccountKey20(u64),
    PalletInstance(u8),
    GeneralIndex(u128),
    GlobalConsensus(NetworkId),
    OnlyChild,
}

/// The mathematical value of a location: the ascent count and the descent path.
pub struct LocationModel {
    pub parents: u8,
    pub interior: Seq<Junction>,
}

/// A location: `parents` hops up towards a common ancestor, then down along `interior`.
#[derive(Debug)]
pub struct Location {
    pub parents: u8,
    pub interior: Vec<Junction>,
}

impl View for Location {
    type V = LocationModel;

    open spec fn view(&self) -> LocationModel {
        LocationModel { parents: self.parents, interior: self.interior@ }
    }
}

/// Exact structural equality of two junction paths.
fn same_path(a: &Vec<Junction>, b: &Vec<Junction>) -> (r: bool)
    ensures
        r == (a@ == b@),
{
    if a.len() != b.len() {
        return false;
    }
    let mut i: usize = 0;
    while i < a.len()
        invariant
            a.len() == b.len(),
            i <= a.len(),
            forall|j: int| 0 <= j < i ==> a@[j] == b@[j],
        decreases a.len() - i,
    {
        if a[i] != b[i] {
            return false;
        }
        i = i + 1;
    }
    assert(a@ =~= b@);
    true
}

impl Location {
    /// A location from its ascent count and descent path.
    pub fn new(parents: u8, interior: Vec<Junction>) -> (r: Location)
        ensures
            r@ == (LocationModel { parents, interior: interior@ }),
    {
        Location { parents, interior }
    }

    /// The location of the local domain itself.
    pub fn here() -> (r: Location)
        ensures
            r@ == (LocationModel { parents: 0, interior: Seq::empty() }),
    {
        let interior: Vec<Junction> = Vec::new();
        assert(interior@ =~= Seq::<Junction>::empty());
        Location { parents: 0, interior }
    }

    /// The location of the parent domain.
    pub fn parent() -> (r: Location)
        ensures
            r@ == (LocationModel { parents: 1, interior: Seq::empty() }),
    {
        let interior: Vec<Junction> = Vec::new();
        assert(interior@ =~= Seq::<Junction>::empty());
        Location { parents: 1, interior }
    }

    /// A location one junction below the domain `parents` hops up.
    pub fn with_junction(parents: u8, j: Junction) -> (r: Location)
        ensures
            r@ == (LocationModel { parents, interior: seq![j] }),
    {
        let mut interior: Vec<Junction> = Vec::new();
        interior.push(j);
        assert(interior@ =~= seq![j]);
        Location { parents, interior }
    }

    /// Structural equality: same ascent count and the same path.
    pub fn same(&self, other: &Location) -> (r: bool)
        ensures
            r == (self@ == other@),
    {
        self.parents == other.parents && same_path(&self.interior, &other.interior)
    }

    /// The first junction of the descent path, if any.
    pub fn first_interior(&self) -> (r: Option<Junction>)
        ensures
            self@.interior.len() == 0 ==> r.is_none(),
            self@.interior.len() > 0 ==> r == Some(self@.interior[0]),
    {
        if self.interior.len() == 0 {
            None
        } else {
            Some(self.interior[0])
        }
    }

    /// The absolute path of this location, seen from the domain whose
    /// absolute path is `universal`; none where it climbs above the root.
    pub fn resolve_against(&self, universal: &Vec<Junction>) -> (r: Option<Vec<Junction>>)
        ensures
            r.is_some() == (self.parents as nat <= universal@.len()),
            r.is_some() ==> r.unwrap()@ == universal@.take(
                universal@.len() - self.parents as nat,
            ) + self.interior@,
    {
        if self.parents as usize > universal.len() {
            return None;
        }
        let keep = universal.len() - self.parents as usize;
        let mut r: Vec<Junction> = Vec::new();
        let mut i: usize = 0;
        while i < keep
            invariant
                keep <= universal@.len(),
                i <= keep,
                r@ == universal@.take(i as int),
            decreases keep - i,
        {
            r.push(universal[i]);
            assert(universal@.take(i + 1) =~= universal@.take(i as int).push(universal@[i as int]));
            i = i + 1;
        }
        let mut j: usize = 0;
        while j < self.interior.len()
            invariant
                j <= self.interior@.len(),
                r@ == universal@.take(keep as int) + self.interior@.take(j as int),
            decreases self.interior@.len() - j,
        {
            r.push(self.interior[j]);
            assert(self.interior@.take(j + 1) =~= self.interior@.take(j as int).push(self.interior@[j as int]));
            assert(universal@.take(keep as int) + self.interior@.take(j + 1) =~= (universal@.take(keep as int) + self.interior@.take(j as int)).push(self.interior@[j as int]));
            j = j + 1;
        }
        assert(self.interior@.take(self.interior@.len() as int) =~= self.interior@);
        Some(r)
    }

    /// The only junction of a path of length one.
    pub fn single_junction(&self) -> (r: Option<Junction>)
        ensures
            self@.interior.len() == 1 ==> r == Some(self@.interior[0]),
            self@.interior.len() != 1 ==> r.is_none(),
    {
        if self.interior.len() == 1 {
            Some(self.interior[0])
        } else {
            None
        }
    }
}

impl Clone for Location {
    fn clone(&self) -> (r: Self)
        ensures
            r@ == self@,
    {
        let interior = self.interior.clone();
        assert(interior@ =~= self.interior@);
        Location { parents: self.parents, interior }
    }
}

impl PartialEq for Location {
    fn eq(&self, other: &Location) -> (r: bool) {
        self.same(other)
    }
}

impl vstd::std_specs::cmp::PartialEqSpecImpl for Location {
    open spec fn obeys_eq_spec() -> bool {
        true
    }

    open spec fn eq_spec(&self, other: &Location) -> bool {
        self@ == other@
    }
}

impl Eq for Location {
}

} // verus!
