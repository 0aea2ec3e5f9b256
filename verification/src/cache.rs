//! The segment cache: segments that were read or written, kept in memory
//! under their location.

use vstd::prelude::*;

use crate::meta::Location;
use crate::meta::LocationView;
use crate::meta::SegmentInfo;
use crate::meta::SegmentInfoView;

verus! {

#[derive(Debug)]
struct CacheEntry {
    location: Location,
    segment: SegmentInfo,
}

/// Segments in memory, each under the location that it is stored at.
#[derive(Debug)]
pub struct SegmentCache {
    entries: Vec<CacheEntry>,
}

impl View for SegmentCache {
    type V = Map<LocationView, SegmentInfoView>;

    closed spec fn view(&self) -> Map<LocationView, SegmentInfoView> {
        Map::new(
            |k: LocationView| self.holds(k),
            |k: LocationView| self.entries@[self.index_of(k)].segment@,
        )
    }
}

impl SegmentCache {
    spec fn holds(&self, k: LocationView) -> bool {
        exists|i: int| 0 <= i < self.entries@.len() && (#[trigger] self.entries@[i]).location@ == k
    }

    spec fn index_of(&self, k: LocationView) -> int {
        choose|i: int| 0 <= i < self.entries@.len() && (#[trigger] self.entries@[i]).location@ == k
    }

    /// No location occurs twice, and every segment is well formed.
    pub closed spec fn wf(&self) -> bool {
        &&& forall|i: int, j: int|
            0 <= i < j < self.entries@.len() ==> (#[trigger] self.entries@[i]).location@
                != (#[trigger] self.entries@[j]).location@
        &&& forall|i: int| 0 <= i < self.entries@.len() ==> (#[trigger] self.entries@[i]).segment.wf()
    }

    /// A cache that holds nothing.
    pub fn new() -> (c: SegmentCache)
        ensures
            c.wf(),
            c@ == Map::<LocationView, SegmentInfoView>::empty(),
    {
        let c = SegmentCache { entries: Vec::new() };
        assert(c@ =~= Map::<LocationView, SegmentInfoView>::empty());
        c
    }

    /// The number of segments held.
    pub fn len(&self) -> (n: usize)
        requires
            self.wf(),
        ensures
            n == self@.dom().len(),
            self@.dom().finite(),
    {
        proof {
            self.lemma_domain(self.entries@.len() as int);
            assert(self.keys_below(self.entries@.len() as int) =~= self@.dom());
        }
        self.entries.len()
    }

    spec fn keys_below(&self, n: int) -> Set<LocationView> {
        Set::new(
            |k: LocationView|
                exists|i: int| 0 <= i < n && (#[trigger] self.entries@[i]).location@ == k,
        )
    }

    proof fn lemma_domain(&self, n: int)
        requires
            self.wf(),
            0 <= n <= self.entries@.len(),
        ensures
            self.keys_below(n).finite(),
            self.keys_below(n).len() == n,
        decreases n,
    {
        if n == 0 {
            assert(self.keys_below(0) =~= Set::<LocationView>::empty());
        } else {
            self.lemma_domain(n - 1);
            let k = self.entries@[n - 1].location@;
            assert(!self.keys_below(n - 1).contains(k));
            assert(self.keys_below(n) =~= self.keys_below(n - 1).insert(k)) by {
                assert forall|x: LocationView| self.keys_below(n).contains(x) implies self.keys_below(
                    n - 1,
                ).insert(k).contains(x) by {
                    let i = choose|i: int|
                        0 <= i < n && (#[trigger] self.entries@[i]).location@ == x;
                    if i < n - 1 {
                        assert(self.keys_below(n - 1).contains(x));
                    }
                }
                assert forall|x: LocationView|
                    self.keys_below(n - 1).insert(k).contains(x) implies self.keys_below(
                    n,
                ).contains(x) by {
                    if x == k {
                        assert(self.entries@[n - 1].location@ == x);
                    } else {
                        let i = choose|i: int|
                            0 <= i < n - 1 && (#[trigger] self.entries@[i]).location@ == x;
                        assert(self.entries@[i].location@ == x);
                    }
                }
            }
        }
    }

    fn position(&self, location: &Location) -> (r: Option<usize>)
        requires
            self.wf(),
        ensures
            r is Some <==> self.holds(location@),
            r is Some ==> r->Some_0 < self.entries@.len() && self.entries@[r->Some_0 as int].location@
                == location@ && self.index_of(location@) == r->Some_0,
    {
        let mut i: usize = 0;
        while i < self.entries.len()
            invariant
                i <= self.entries@.len(),
                self.wf(),
                forall|j: int| 0 <= j < i ==> (#[trigger] self.entries@[j]).location@ != location@,
            decreases self.entries@.len() - i,
        {
            if self.entries[i].location.same_as(location) {
                assert(self.holds(location@));
                let ghost c = self.index_of(location@);
                assert(c == i) by {
                    if c < i {
                        assert(self.entries@[c].location@ != self.entries@[i as int].location@);
                    }
                    if c > i {
                        assert(self.entries@[i as int].location@ != self.entries@[c].location@);
                    }
                }
                return Some(i);
            }
            i += 1;
        }
        None
    }

    /// The segment held under a location, if there is one.
    pub fn get(&self, location: &Location) -> (r: Option<&SegmentInfo>)
        requires
            self.wf(),
        ensures
            r is Some <==> self@.contains_key(location@),
            r is Some ==> r->Some_0@ == self@[location@] && r->Some_0.wf(),
    {
        match self.position(location) {
            Some(i) => Some(&self.entries[i].segment),
            None => None,
        }
    }

    /// Puts a segment under a location, in place of what was held there.
    pub fn put(&mut self, location: Location, segment: SegmentInfo)
        requires
            old(self).wf(),
            segment.wf(),
        ensures
            final(self).wf(),
            final(self)@ == old(self)@.insert(location@, segment@),
    {
        let ghost before = *self;
        match self.position(&location) {
            Some(i) => {
                self.entries[i] = CacheEntry { location, segment };
                proof {
                    assert forall|k: LocationView| self.holds(k) == (before.holds(k) || k
                        == location@) by {
                        if before.holds(k) {
                            let j = before.index_of(k);
                            assert(self.entries@[j].location@ == k);
                        }
                        if k == location@ {
                            assert(self.entries@[i as int].location@ == k);
                        }
                        if self.holds(k) {
                            let j = self.index_of(k);
                            assert(before.entries@[j].location@ == k);
                        }
                    }
                    assert forall|k: LocationView| self.holds(k) implies self@[k] == before@.insert(
                        location@,
                        segment@,
                    )[k] by {
                        let j = self.index_of(k);
                        if k != location@ {
                            let b = before.index_of(k);
                            assert(before.entries@[j].location@ == k);
                            assert(before.holds(k));
                            if b < j {
                                assert(before.entries@[b].location@ != before.entries@[j].location@);
                            }
                            if j < b {
                                assert(before.entries@[j].location@ != before.entries@[b].location@);
                            }
                        } else {
                            if j < i {
                                assert(self.entries@[j].location@ != self.entries@[i as int].location@);
                            }
                            if i < j {
                                assert(self.entries@[i as int].location@ != self.entries@[j].location@);
                            }
                        }
                    }
                    assert(self@ =~= before@.insert(location@, segment@));
                }
            },
            None => {
                self.entries.push(CacheEntry { location, segment });
                proof {
                    let n = before.entries@.len() as int;
                    assert forall|k: LocationView| self.holds(k) == (before.holds(k) || k
                        == location@) by {
                        if before.holds(k) {
                            let j = before.index_of(k);
                            assert(self.entries@[j].location@ == k);
                        }
                        if k == location@ {
                            assert(self.entries@[n].location@ == k);
                        }
                        if self.holds(k) {
                            let j = self.index_of(k);
                            if j < n {
                                assert(before.entries@[j].location@ == k);
                            }
                        }
                    }
                    assert forall|k: LocationView| self.holds(k) implies self@[k] == before@.insert(
                        location@,
                        segment@,
                    )[k] by {
                        let j = self.index_of(k);
                        if k != location@ {
                            let b = before.index_of(k);
                            assert(j < n);
                            assert(before.entries@[j].location@ == k);
                            assert(before.holds(k));
                            if b < j {
                                assert(before.entries@[b].location@ != before.entries@[j].location@);
                            }
                            if j < b {
                                assert(before.entries@[j].location@ != before.entries@[b].location@);
                            }
                        } else {
                            if j < n {
                                assert(before.entries@[j].location@ == k);
                                assert(before.holds(k));
                            }
                        }
                    }
                    assert(self@ =~= before@.insert(location@, segment@));
                }
            },
        }
    }
}

} // verus!
