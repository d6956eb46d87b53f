//! A map from package name to version, kept as an association list whose
//! keys are pairwise distinct. Both the resolver's output (name to newly
//! computed version) and the registry's answers (name to highest published
//! version) take this shape.

use vstd::prelude::*;

use crate::version::{Version, VersionView};

verus! {

/// A finite map from package name to version. A name appears at most once;
/// insertion order is kept only for diagnostics.
pub struct VersionMap {
    entries: Vec<(String, Version)>,
}

impl VersionMap {
    /// The entries in insertion order, as mathematical values.
    pub closed spec fn entries_seq(&self) -> Seq<(Seq<char>, VersionView)> {
        Seq::new(self.entries@.len(), |i: int| (self.entries@[i].0@, self.entries@[i].1@))
    }

    /// Keys are pairwise distinct.
    pub open spec fn wf(&self) -> bool {
        forall|i: int, j: int|
            0 <= i < j < self.entries_seq().len() ==> (#[trigger] self.entries_seq()[i]).0 != (
            #[trigger] self.entries_seq()[j]).0
    }

    /// The map the entries denote.
    pub closed spec fn map_view(&self) -> Map<Seq<char>, VersionView> {
        Map::new(
            |k: Seq<char>|
                exists|i: int|
                    0 <= i < self.entries_seq().len() && (#[trigger] self.entries_seq()[i]).0 == k,
            |k: Seq<char>|
                {
                    let i = choose|i: int|
                        0 <= i < self.entries_seq().len() && (#[trigger] self.entries_seq()[i]).0
                            == k;
                    self.entries_seq()[i].1
                },
        )
    }

    /// Membership in the map is existence of an entry with that key.
    pub proof fn lemma_view_corresponds(&self)
        ensures
            forall|k: Seq<char>|
                self.map_view().dom().contains(k) <==> exists|i: int|
                    0 <= i < self.entries_seq().len() && (#[trigger] self.entries_seq()[i]).0 == k,
            self.wf() ==> forall|i: int|
                0 <= i < self.entries_seq().len() ==> self.map_view()[
                    (#[trigger] self.entries_seq()[i]).0] == self.entries_seq()[i].1,
    {
        if self.wf() {
            assert forall|i: int| 0 <= i < self.entries_seq().len() implies self.map_view()[
                (#[trigger] self.entries_seq()[i]).0] == self.entries_seq()[i].1 by {
                let k = self.entries_seq()[i].0;
                assert(self.map_view().dom().contains(k));
                let j = choose|j: int|
                    0 <= j < self.entries_seq().len() && (#[trigger] self.entries_seq()[j]).0 == k;
                assert(j == i);
            }
        }
    }

    /// The empty map.
    pub fn new() -> (r: VersionMap)
        ensures
            r.wf(),
            r.map_view() =~= Map::<Seq<char>, VersionView>::empty(),
            r.entries_seq() =~= Seq::<(Seq<char>, VersionView)>::empty(),
    {
        let r = VersionMap { entries: Vec::new() };
        proof {
            assert(r.entries_seq() =~= Seq::<(Seq<char>, VersionView)>::empty());
            assert(r.map_view() =~= Map::<Seq<char>, VersionView>::empty());
        }
        r
    }

    /// The number of entries.
    pub fn len(&self) -> (n: usize)
        ensures
            n == self.entries_seq().len(),
    {
        self.entries.len()
    }

    /// Whether `name` is a key of the map.
    pub fn contains_name(&self, name: &String) -> (r: bool)
        ensures
            r == self.map_view().dom().contains(name@),
    {
        let mut i: usize = 0;
        while i < self.entries.len()
            invariant
                i <= self.entries.len(),
                forall|j: int| 0 <= j < i ==> (#[trigger] self.entries_seq()[j]).0 != name@,
            decreases self.entries.len() - i,
        {
            if self.entries[i].0 == *name {
                proof {
                    assert(self.entries_seq()[i as int].0 == name@);
                }
                return true;
            }
            i = i + 1;
        }
        proof {
            assert(!self.map_view().dom().contains(name@));
        }
        false
    }

    /// The version recorded for `name`, if any.
    pub fn get(&self, name: &String) -> (r: Option<&Version>)
        requires
            self.wf(),
        ensures
            match r {
                Some(v) => self.map_view().dom().contains(name@) && v@ == self.map_view()[name@],
                None => !self.map_view().dom().contains(name@),
            },
    {
        let mut i: usize = 0;
        while i < self.entries.len()
            invariant
                self.wf(),
                i <= self.entries.len(),
                forall|j: int| 0 <= j < i ==> (#[trigger] self.entries_seq()[j]).0 != name@,
            decreases self.entries.len() - i,
        {
            if self.entries[i].0 == *name {
                proof {
                    assert(self.entries_seq()[i as int].0 == name@);
                    self.lemma_view_corresponds();
                }
                return Some(&self.entries[i].1);
            }
            i = i + 1;
        }
        proof {
            assert(!self.map_view().dom().contains(name@));
        }
        None
    }

    /// Records `name -> v`. The name must not be present yet.
    pub fn insert(&mut self, name: String, v: Version)
        requires
            old(self).wf(),
            !old(self).map_view().dom().contains(name@),
        ensures
            final(self).wf(),
            final(self).entries_seq() =~= old(self).entries_seq().push((name@, v@)),
            final(self).map_view() =~= old(self).map_view().insert(name@, v@),
    {
        proof {
            assert forall|i: int| 0 <= i < old(self).entries_seq().len() implies (
            #[trigger] old(self).entries_seq()[i]).0 != name@ by {
                if old(self).entries_seq()[i].0 == name@ {
                    assert(old(self).map_view().dom().contains(name@));
                }
            }
        }
        self.entries.push((name, v));
        proof {
            assert(self.entries_seq() =~= old(self).entries_seq().push((name@, v@)));
            assert forall|k: Seq<char>|
                self.map_view().dom().contains(k) == old(self).map_view().insert(
                    name@,
                    v@,
                ).dom().contains(k) by {
                if k == name@ {
                    assert(self.entries_seq()[self.entries_seq().len() - 1].0 == k);
                } else {
                    if self.map_view().dom().contains(k) {
                        let i = choose|i: int|
                            0 <= i < self.entries_seq().len() && (
                            #[trigger] self.entries_seq()[i]).0 == k;
                        assert(old(self).entries_seq()[i].0 == k);
                    } else {
                        if old(self).map_view().dom().contains(k) {
                            let i = choose|i: int|
                                0 <= i < old(self).entries_seq().len() && (#[trigger] old(
                                    self,
                                ).entries_seq()[i]).0 == k;
                            assert(self.entries_seq()[i].0 == k);
                        }
                    }
                }
            }
            assert forall|k: Seq<char>| self.map_view().dom().contains(k) implies self.map_view()[k]
                == old(self).map_view().insert(name@, v@)[k] by {
                self.lemma_view_corresponds();
                old(self).lemma_view_corresponds();
                let i = choose|i: int|
                    0 <= i < self.entries_seq().len() && (#[trigger] self.entries_seq()[i]).0 == k;
                if k == name@ {
                    assert(self.map_view()[k] == self.entries_seq()[i].1);
                    assert(i == self.entries_seq().len() - 1) by {
                        if i < self.entries_seq().len() - 1 {
                            assert(old(self).entries_seq()[i].0 == k);
                            assert(old(self).map_view().dom().contains(k));
                        }
                    }
                } else {
                    assert(i < old(self).entries_seq().len()) by {
                        if i == self.entries_seq().len() - 1 {
                            assert(self.entries_seq()[i].0 == name@);
                        }
                    }
                    assert(old(self).entries_seq()[i].0 == k);
                    assert(old(self).map_view()[k] == old(self).entries_seq()[i].1);
                }
            }
            assert(self.map_view() =~= old(self).map_view().insert(name@, v@));
        }
    }

    /// The entries in insertion order.
    pub fn pairs(&self) -> (r: &Vec<(String, Version)>)
        ensures
            r@.len() == self.entries_seq().len(),
            forall|i: int|
                0 <= i < r@.len() ==> ((#[trigger] r@[i]).0@, r@[i].1@) == self.entries_seq()[i],
    {
        &self.entries
    }
}

} // verus!
