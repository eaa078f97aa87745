//! Tables that record one asset bundle per key.
use vstd::prelude::*;
use crate::asset::{Asset, Bundle, BundleModel};
use crate::location::{Location, LocationModel};

verus! {

/// A key type whose equality and copies agree with its view.
pub trait TableKey: View + Sized {
    fn same_key(&self, other: &Self) -> (r: bool)
        ensures
            r == (self@ == other@);

    fn copy_key(&self) -> (r: Self)
        ensures
            r@ == self@;
}

impl TableKey for Location {
    fn same_key(&self, other: &Self) -> (r: bool) {
        self.same(other)
    }

    fn copy_key(&self) -> (r: Self) {
        self.clone()
    }
}

/// An ordered pair of locations: an owner and its counterparty.
#[derive(Debug)]
pub struct LocationPair {
    pub owner: Location,
    pub other: Location,
}

impl View for LocationPair {
    type V = (LocationModel, LocationModel);

    open spec fn view(&self) -> (LocationModel, LocationModel) {
        (self.owner@, self.other@)
    }
}

impl TableKey for LocationPair {
    fn same_key(&self, other: &Self) -> (r: bool) {
        self.owner.same(&other.owner) && self.other.same(&other.other)
    }

    fn copy_key(&self) -> (r: Self) {
        LocationPair { owner: self.owner.clone(), other: self.other.clone() }
    }
}

/// The bundle recorded for `k`; nothing recorded reads as the empty bundle.
pub open spec fn bundle_at<K>(m: Map<K, BundleModel>, k: K) -> BundleModel {
    if m.contains_key(k) {
        m[k]
    } else {
        BundleModel::empty()
    }
}

/// The map that a list of entries records; a later entry for a key wins.
pub closed spec fn entries_map<K: View>(s: Seq<(K, Bundle)>) -> Map<K::V, BundleModel>
    decreases s.len(),
{
    if s.len() == 0 {
        Map::empty()
    } else {
        entries_map(s.drop_last()).insert(s.last().0@, s.last().1@)
    }
}

pub closed spec fn unique_keys<K: View>(s: Seq<(K, Bundle)>) -> bool {
    forall|i: int, j: int|
        0 <= i < s.len() && 0 <= j < s.len() && i != j ==> #[trigger] s[i].0@ != #[trigger] s[j].0@
}

proof fn lemma_map_absent<K: View>(s: Seq<(K, Bundle)>, k: K::V)
    requires
        forall|j: int| 0 <= j < s.len() ==> #[trigger] s[j].0@ != k,
    ensures
        !entries_map(s).contains_key(k),
    decreases s.len(),
{
    if s.len() > 0 {
        assert(forall|j: int| 0 <= j < s.drop_last().len() ==> s.drop_last()[j] == s[j]);
        lemma_map_absent(s.drop_last(), k);
    }
}

proof fn lemma_map_at<K: View>(s: Seq<(K, Bundle)>, i: int)
    requires
        unique_keys(s),
        0 <= i < s.len(),
    ensures
        entries_map(s).contains_key(s[i].0@),
        entries_map(s)[s[i].0@] == s[i].1@,
    decreases s.len(),
{
    let d = s.drop_last();
    assert(forall|j: int| 0 <= j < d.len() ==> d[j] == s[j]);
    if i < s.len() - 1 {
        assert(unique_keys(d)) by {
            assert forall|a: int, b: int|
                0 <= a < d.len() && 0 <= b < d.len() && a != b implies #[trigger] d[a].0@
                != #[trigger] d[b].0@ by {
                assert(s[a].0@ != s[b].0@);
            }
        }
        lemma_map_at(d, i);
        assert(s.last().0@ != s[i].0@);
    }
}

proof fn lemma_map_update<K: View>(s: Seq<(K, Bundle)>, i: int, e: (K, Bundle))
    requires
        unique_keys(s),
        0 <= i < s.len(),
        e.0@ == s[i].0@,
    ensures
        entries_map(s.update(i, e)) == entries_map(s).insert(e.0@, e.1@),
    decreases s.len(),
{
    let t = s.update(i, e);
    let d = s.drop_last();
    assert(forall|j: int| 0 <= j < d.len() ==> d[j] == s[j]);
    if i == s.len() - 1 {
        assert(t.drop_last() =~= d);
        assert(entries_map(t) =~= entries_map(s).insert(e.0@, e.1@));
    } else {
        assert(t.drop_last() =~= d.update(i, e));
        assert(unique_keys(d)) by {
            assert forall|a: int, b: int|
                0 <= a < d.len() && 0 <= b < d.len() && a != b implies #[trigger] d[a].0@
                != #[trigger] d[b].0@ by {
                assert(s[a].0@ != s[b].0@);
            }
        }
        lemma_map_update(d, i, e);
        assert(s.last().0@ != s[i].0@);
        assert(entries_map(t) =~= entries_map(s).insert(e.0@, e.1@));
    }
}

/// One asset bundle per key; keys are pairwise different.
pub struct BundleTable<K> {
    entries: Vec<(K, Bundle)>,
}

impl<K: TableKey> View for BundleTable<K> {
    type V = Map<K::V, BundleModel>;

    closed spec fn view(&self) -> Map<K::V, BundleModel> {
        entries_map(self.entries@)
    }
}

impl<K: TableKey> BundleTable<K> {
    /// The representation invariant.
    pub closed spec fn wf(&self) -> bool {
        &&& unique_keys(self.entries@)
        &&& forall|i: int| 0 <= i < self.entries@.len() ==> (#[trigger] self.entries@[i]).1.wf()
    }

    /// Every bundle that a well-formed table records has a valid value.
    pub proof fn lemma_valid(&self, k: K::V)
        requires
            self.wf(),
        ensures
            bundle_at(self@, k).valid(),
    {
        if exists|i: int| 0 <= i < self.entries@.len() && #[trigger] self.entries@[i].0@ == k {
            let i = choose|i: int| 0 <= i < self.entries@.len() && #[trigger] self.entries@[i].0@ == k;
            lemma_map_at(self.entries@, i);
            self.entries@[i].1.lemma_valid();
        } else {
            lemma_map_absent(self.entries@, k);
        }
    }

    /// The empty table.
    pub fn new() -> (r: Self)
        ensures
            r.wf(),
            r@ == Map::<K::V, BundleModel>::empty(),
    {
        BundleTable { entries: Vec::new() }
    }

    /// Where the entry for `k` stands, if there is one.
    fn find(&self, k: &K) -> (r: Option<usize>)
        ensures
            match r {
                Some(i) => i < self.entries@.len() && self.entries@[i as int].0@ == k@,
                None => forall|j: int|
                    0 <= j < self.entries@.len() ==> #[trigger] self.entries@[j].0@ != k@,
            },
    {
        let mut i: usize = 0;
        while i < self.entries.len()
            invariant
                i <= self.entries@.len(),
                forall|j: int| 0 <= j < i ==> #[trigger] self.entries@[j].0@ != k@,
            decreases self.entries@.len() - i,
        {
            if self.entries[i].0.same_key(k) {
                return Some(i);
            }
            i = i + 1;
        }
        None
    }

    /// Where the entry for `k` stands, adding an empty one if there is none.
    fn entry(&mut self, k: &K) -> (i: usize)
        requires
            old(self).wf(),
        ensures
            final(self).wf(),
            i < final(self).entries@.len(),
            final(self).entries@[i as int].0@ == k@,
            final(self)@ == old(self)@.insert(k@, bundle_at(old(self)@, k@)),
    {
        match self.find(k) {
            Some(i) => {
                proof {
                    lemma_map_at(self.entries@, i as int);
                    assert(self@ =~= old(self)@.insert(k@, bundle_at(old(self)@, k@)));
                }
                i
            },
            None => {
                let ghost s = self.entries@;
                proof {
                    lemma_map_absent(s, k@);
                }
                let n = self.entries.len();
                let e = (k.copy_key(), Bundle::new());
                self.entries.push(e);
                proof {
                    assert(self.entries@.drop_last() =~= s);
                    assert(bundle_at(old(self)@, k@) == BundleModel::empty());
                    assert forall|a: int, b: int|
                        0 <= a < self.entries@.len() && 0 <= b < self.entries@.len() && a
                            != b implies #[trigger] self.entries@[a].0@
                        != #[trigger] self.entries@[b].0@ by {
                        if a < s.len() && b < s.len() {
                            assert(s[a].0@ != s[b].0@);
                        } else if a < s.len() {
                            assert(s[a].0@ != k@);
                        } else {
                            assert(s[b].0@ != k@);
                        }
                    }
                    assert forall|j: int| 0 <= j < self.entries@.len() implies (
                    #[trigger] self.entries@[j]).1.wf() by {
                        if j < s.len() {
                            assert(self.entries@[j] == s[j]);
                        }
                    }
                }
                n
            },
        }
    }

    /// Whether the bundle recorded for `k` holds at least `a`.
    pub fn holds(&self, k: &K, a: &Asset) -> (r: bool)
        requires
            self.wf(),
        ensures
            r == bundle_at(self@, k@).holds(a@),
    {
        match self.find(k) {
            Some(i) => {
                proof {
                    lemma_map_at(self.entries@, i as int);
                }
                self.entries[i].1.contains_asset(a)
            },
            None => {
                proof {
                    lemma_map_absent(self.entries@, k@);
                }
                let empty = Bundle::new();
                empty.contains_asset(a)
            },
        }
    }

    /// A copy of the bundle recorded for `k`.
    pub fn bundle(&self, k: &K) -> (r: Bundle)
        requires
            self.wf(),
        ensures
            r.wf(),
            r@ == bundle_at(self@, k@),
    {
        match self.find(k) {
            Some(i) => {
                proof {
                    lemma_map_at(self.entries@, i as int);
                }
                self.entries[i].1.clone()
            },
            None => {
                proof {
                    lemma_map_absent(self.entries@, k@);
                }
                Bundle::new()
            },
        }
    }

    /// Merges `a` into the bundle recorded for `k`.
    pub fn deposit(&mut self, k: &K, a: Asset)
        requires
            old(self).wf(),
        ensures
            final(self).wf(),
            final(self)@ == old(self)@.insert(k@, bundle_at(old(self)@, k@).add(a@)),
    {
        let i = self.entry(k);
        let ghost s = self.entries@;
        proof {
            lemma_map_at(s, i as int);
        }
        let mut e = (k.copy_key(), Bundle::new());
        self.entries.set_and_swap(i, &mut e);
        e.1.subsume(a);
        let ghost e2 = e;
        self.entries.set(i, e);
        proof {
            assert(s.update(i as int, e2) =~= self.entries@);
            lemma_map_update(s, i as int, e2);
            assert(self@ =~= old(self)@.insert(k@, bundle_at(old(self)@, k@).add(a@)));
            assert forall|a: int, b: int|
                0 <= a < self.entries@.len() && 0 <= b < self.entries@.len() && a
                    != b implies #[trigger] self.entries@[a].0@
                != #[trigger] self.entries@[b].0@ by {
                assert(s[a].0@ != s[b].0@);
            }
            assert forall|j: int| 0 <= j < self.entries@.len() implies (
            #[trigger] self.entries@[j]).1.wf() by {
                if j != i {
                    assert(self.entries@[j] == s[j]);
                }
            }
        }
    }

    /// Removes up to `a` from the bundle recorded for `k`, never going below
    /// zero, and returns what was removed.
    pub fn take_up_to(&mut self, k: &K, a: &Asset) -> (r: Bundle)
        requires
            old(self).wf(),
        ensures
            final(self).wf(),
            r.wf(),
            final(self)@ == old(self)@.insert(k@, bundle_at(old(self)@, k@).sub(a@)),
            r@ == bundle_at(old(self)@, k@).taken(a@),
    {
        let i = self.entry(k);
        let ghost s = self.entries@;
        proof {
            lemma_map_at(s, i as int);
        }
        let mut e = (k.copy_key(), Bundle::new());
        self.entries.set_and_swap(i, &mut e);
        let r = e.1.saturating_take(a);
        let ghost e2 = e;
        self.entries.set(i, e);
        proof {
            assert(s.update(i as int, e2) =~= self.entries@);
            lemma_map_update(s, i as int, e2);
            assert(self@ =~= old(self)@.insert(k@, bundle_at(old(self)@, k@).sub(a@)));
            assert forall|a: int, b: int|
                0 <= a < self.entries@.len() && 0 <= b < self.entries@.len() && a
                    != b implies #[trigger] self.entries@[a].0@
                != #[trigger] self.entries@[b].0@ by {
                assert(s[a].0@ != s[b].0@);
            }
            assert forall|j: int| 0 <= j < self.entries@.len() implies (
            #[trigger] self.entries@[j]).1.wf() by {
                if j != i {
                    assert(self.entries@[j] == s[j]);
                }
            }
        }
        r
    }
}

} // verus!
