//! Table snapshots: the versioned description of a table's segments.

use vstd::prelude::*;

use crate::meta::locations_view;
use crate::meta::Location;
use crate::meta::LocationView;
use crate::statistics::Statistics;
use crate::statistics::StatisticsView;

verus! {

/// A complete description of a table at one point in time. Snapshots are
/// never edited; the table moves from one snapshot to the next.
#[derive(Clone, Debug)]
pub struct TableSnapshot {
    /// Identity of this snapshot.
    pub snapshot_id: u128,
    /// Identity of the snapshot that this one replaced, if any.
    pub prev_snapshot_id: Option<u128>,
    /// The segments of the table, in table order.
    pub segments: Vec<Location>,
    /// Summary of all blocks of the table.
    pub summary: Statistics,
}

/// Mathematical value of a `TableSnapshot`.
pub struct TableSnapshotView {
    pub snapshot_id: u128,
    pub prev_snapshot_id: Option<u128>,
    pub segments: Seq<LocationView>,
    pub summary: StatisticsView,
}

impl View for TableSnapshot {
    type V = TableSnapshotView;

    open spec fn view(&self) -> TableSnapshotView {
        TableSnapshotView {
            snapshot_id: self.snapshot_id,
            prev_snapshot_id: self.prev_snapshot_id,
            segments: locations_view(self.segments@),
            summary: self.summary@,
        }
    }
}

/// A copy of a list of locations.
pub fn duplicate_locations(v: &Vec<Location>) -> (r: Vec<Location>)
    ensures
        locations_view(r@) == locations_view(v@),
{
    let mut out: Vec<Location> = Vec::new();
    let mut i: usize = 0;
    while i < v.len()
        invariant
            i <= v@.len(),
            out@.len() == i,
            forall|j: int| 0 <= j < i ==> (#[trigger] out@[j])@ == v@[j]@,
        decreases v@.len() - i,
    {
        out.push(v[i].duplicate());
        i += 1;
    }
    assert(locations_view(out@) =~= locations_view(v@));
    out
}

impl TableSnapshot {
    /// A copy of this snapshot.
    pub fn duplicate(&self) -> (r: TableSnapshot)
        ensures
            r@ == self@,
    {
        TableSnapshot {
            snapshot_id: self.snapshot_id,
            prev_snapshot_id: self.prev_snapshot_id,
            segments: duplicate_locations(&self.segments),
            summary: self.summary.duplicate(),
        }
    }
}

} // verus!
