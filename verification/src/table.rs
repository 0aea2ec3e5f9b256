//! The table as one process sees it: the live snapshot behind a single
//! compare-and-swap, and the commit of a compaction against it.

use vstd::prelude::*;

use crate::cache::SegmentCache;
use crate::compaction::check_target;
use crate::compaction::compact_segments;
use crate::compaction::compacted;
use crate::compaction::entries_view;
use crate::compaction::inputs_blocks;
use crate::compaction::inputs_view;
use crate::compaction::lemma_merged_count_prefix;
use crate::compaction::merged_count;
use crate::compaction::paths_of;
use crate::compaction::placed;
use crate::compaction::CompactTarget;
use crate::compaction::CompactedSegment;
use crate::compaction::CompactedSegmentView;
use crate::compaction::SegmentCompactionStateView;
use crate::compaction::SegmentInput;
use crate::location::object_path;
use crate::location::ObjectKind;
use crate::location::TableMetaLocationGenerator;
use crate::meta::fold_blocks;
use crate::meta::SegmentInfo;
use crate::meta::SEGMENT_VERSION;
use crate::mutator::DEFAULT_RETRY_BUDGET;
use crate::error::ErrorCode;
use crate::error::ErrorKind;
use crate::meta::locations_view;
use crate::meta::Location;
use crate::meta::LocationView;
use crate::meta::SegmentInfoView;
use crate::mutator::classify;
use crate::mutator::spliced;
use crate::mutator::CommitAction;
use crate::mutator::CommitEvent;
use crate::mutator::ConflictView;
use crate::mutator::MutatorView;
use crate::mutator::SegmentCompactMutator;
use crate::snapshot::TableSnapshot;
use crate::snapshot::TableSnapshotView;
use crate::statistics::fits;
use crate::statistics::merge_all;
use crate::statistics::summaries_view;
use crate::statistics::Statistics;
use crate::statistics::StatisticsView;

verus! {

/// The live snapshot of a table. It changes in one way only: a publish
/// that names the snapshot it replaces.
#[derive(Debug)]
pub struct TableState {
    live: TableSnapshot,
    block_per_segment: u64,
}

impl View for TableState {
    type V = TableSnapshotView;

    closed spec fn view(&self) -> TableSnapshotView {
        self.live@
    }
}

impl TableState {
    /// A table whose live snapshot is the given one, and whose segments
    /// are meant to hold `block_per_segment` blocks.
    pub fn new(snapshot: TableSnapshot, block_per_segment: u64) -> (t: TableState)
        ensures
            t@ == snapshot@,
            t.threshold() == block_per_segment,
    {
        TableState { live: snapshot, block_per_segment }
    }

    /// The number of blocks that a segment of this table is meant to hold.
    pub closed spec fn threshold(&self) -> u64 {
        self.block_per_segment
    }

    /// The number of blocks that a segment of this table is meant to hold.
    pub fn block_per_segment(&self) -> (n: u64)
        ensures
            n == self.threshold(),
    {
        self.block_per_segment
    }

    /// The live snapshot.
    pub fn get_current_snapshot(&self) -> (s: TableSnapshot)
        ensures
            s@ == self@,
    {
        self.live.duplicate()
    }

    /// Replaces the live snapshot by `new_snapshot` if the live snapshot is
    /// still `expected_prev`. Otherwise nothing changes and the publish
    /// fails with `StorageConflict`.
    pub fn publish(&mut self, expected_prev: u128, new_snapshot: TableSnapshot) -> (r: Result<
        (),
        ErrorCode,
    >)
        ensures
            final(self).threshold() == old(self).threshold(),
            r is Ok <==> old(self)@.snapshot_id == expected_prev,
            r is Ok ==> final(self)@ == new_snapshot@,
            r is Err ==> final(self)@ == old(self)@ && r->Err_0.kind == ErrorKind::StorageConflict,
    {
        if self.live.snapshot_id == expected_prev {
            self.live = new_snapshot;
            Ok(())
        } else {
            Err(ErrorCode::new(ErrorKind::StorageConflict, "the live snapshot is another one"))
        }
    }
}

/// Whether every one of the locations has a segment in the cache.
pub open spec fn all_held(
    held: Map<LocationView, SegmentInfoView>,
    locations: Seq<LocationView>,
) -> bool {
    forall|i: int| 0 <= i < locations.len() ==> held.contains_key(#[trigger] locations[i])
}

/// The summaries of the segments at the given locations.
pub open spec fn held_summaries(
    held: Map<LocationView, SegmentInfoView>,
    locations: Seq<LocationView>,
) -> Seq<StatisticsView> {
    Seq::new(locations.len(), |i: int| held[locations[i]].summary)
}

/// What a commit against a table in memory comes to: the snapshot that it
/// publishes, or the error that it ends on.
pub open spec fn commit_outcome(
    m: MutatorView,
    live: TableSnapshotView,
    held: Map<LocationView, SegmentInfoView>,
) -> Result<TableSnapshotView, ErrorKind> {
    if !(m.phase is ReadLive) {
        Err(ErrorKind::Internal)
    } else {
        commit_outcome_at_start(m, live, held)
    }
}

/// What a commit that has not begun yet comes to.
pub open spec fn commit_outcome_at_start(
    m: MutatorView,
    live: TableSnapshotView,
    held: Map<LocationView, SegmentInfoView>,
) -> Result<TableSnapshotView, ErrorKind> {
    match classify(m.base, live) {
        ConflictView::NoChange => Ok(spliced(m, live.snapshot_id, Seq::empty(), Seq::empty())),
        ConflictView::Resolvable { appended } => if !all_held(held, appended) {
            Err(ErrorKind::StorageIO)
        } else if !fits(merge_all(m.compaction.statistics, held_summaries(held, appended))) {
            Err(ErrorKind::Internal)
        } else {
            Ok(spliced(m, live.snapshot_id, appended, held_summaries(held, appended)))
        },
        ConflictView::Unresolvable => Err(ErrorKind::StorageConflict),
    }
}

fn read_summaries(segments: &SegmentCache, locations: &Vec<Location>) -> (r: Option<Vec<Statistics>>)
    requires
        segments.wf(),
    ensures
        r is Some <==> all_held(segments@, locations_view(locations@)),
        r is Some ==> summaries_view(r->Some_0@) == held_summaries(
            segments@,
            locations_view(locations@),
        ),
{
    let ghost wanted = locations_view(locations@);
    let mut out: Vec<Statistics> = Vec::new();
    let mut i: usize = 0;
    while i < locations.len()
        invariant
            i <= locations@.len(),
            segments.wf(),
            wanted == locations_view(locations@),
            out@.len() == i,
            forall|j: int| 0 <= j < i ==> segments@.contains_key(#[trigger] wanted[j]),
            forall|j: int| 0 <= j < i ==> (#[trigger] out@[j])@ == segments@[wanted[j]].summary,
        decreases locations@.len() - i,
    {
        assert(wanted[i as int] == locations@[i as int]@);
        match segments.get(&locations[i]) {
            Some(segment) => {
                out.push(segment.summary().duplicate());
            },
            None => {
                return None;
            },
        }
        i += 1;
    }
    assert(summaries_view(out@) =~= held_summaries(segments@, wanted));
    Some(out)
}

impl SegmentCompactMutator {
    /// Commits the compaction to a table in memory, taking the summaries of
    /// appended segments from the segments in memory. The commit succeeds
    /// where the table is as the compaction found it, or has only had
    /// segments appended since; the compacted segments then stand in front
    /// of the appended ones. Where a segment of the base is gone, replaced
    /// or moved, the commit fails with `StorageConflict`. A mutator that
    /// has been stepped before is refused with `Internal`. Whenever the
    /// commit fails, the table is left as it is.
    pub fn try_commit(self, table: &mut TableState, segments: &SegmentCache) -> (r: Result<
        (),
        ErrorCode,
    >)
        requires
            segments.wf(),
        ensures
            final(table).threshold() == old(table).threshold(),
            match commit_outcome(self@, old(table)@, segments@) {
                Ok(snapshot) => r is Ok && final(table)@ == snapshot,
                Err(kind) => r is Err && r->Err_0.kind == kind && final(table)@ == old(table)@,
            },
    {
        let mut mutator = self;
        let ghost m0 = mutator@;
        let live = table.get_current_snapshot();
        let first = mutator.step(CommitEvent::LiveSnapshot(live));
        let ghost m1 = mutator@;
        let publish = match first {
            CommitAction::ReadSummaries(locations) => {
                match read_summaries(segments, &locations) {
                    Some(summaries) => mutator.step(CommitEvent::AppendedSummaries(summaries)),
                    None => {
                        return Err(
                            ErrorCode::new(ErrorKind::StorageIO, "an appended segment is not in memory"),
                        );
                    },
                }
            },
            other => other,
        };
        match publish {
            CommitAction::Publish { expected_prev, snapshot } => {
                match table.publish(expected_prev, snapshot) {
                    Ok(()) => {
                        let _ = mutator.step(CommitEvent::Published);
                        Ok(())
                    },
                    Err(e) => Err(e),
                }
            },
            CommitAction::Fail(e) => Err(e),
            _ => Err(ErrorCode::new(ErrorKind::Internal, "the commit did not come to a publish")),
        }
    }
}

/// Where other writers have only appended segments since the compaction was
/// planned, and the appended segments are at hand, the commit succeeds. The
/// table then holds the compacted segments followed by the appended ones,
/// and has as many segments, blocks and rows as the compacted table and the
/// appended segments together.
pub proof fn lemma_commit_after_appends_succeeds(
    m: MutatorView,
    live: TableSnapshotView,
    held: Map<LocationView, SegmentInfoView>,
)
    requires
        m.phase is ReadLive,
        live.snapshot_id != m.base.snapshot_id,
        m.base.segments.is_prefix_of(live.segments),
        all_held(
            held,
            live.segments.subrange(m.base.segments.len() as int, live.segments.len() as int),
        ),
        fits(
            merge_all(
                m.compaction.statistics,
                held_summaries(
                    held,
                    live.segments.subrange(m.base.segments.len() as int, live.segments.len() as int),
                ),
            ),
        ),
    ensures
        ({
            let appended = live.segments.subrange(
                m.base.segments.len() as int,
                live.segments.len() as int,
            );
            let summaries = held_summaries(held, appended);
            let outcome = commit_outcome(m, live, held);
            &&& outcome is Ok
            &&& outcome->Ok_0.segments == m.compaction.segments_locations + appended
            &&& outcome->Ok_0.segments.len() == m.compaction.segments_locations.len()
                + appended.len()
            &&& outcome->Ok_0.summary.block_count == m.compaction.statistics.block_count
                + crate::statistics::total_block_count(summaries)
            &&& outcome->Ok_0.summary.row_count == m.compaction.statistics.row_count
                + crate::statistics::total_row_count(summaries)
            &&& outcome->Ok_0.prev_snapshot_id == Some(live.snapshot_id)
        }),
{
    let appended = live.segments.subrange(m.base.segments.len() as int, live.segments.len() as int);
    crate::statistics::lemma_merge_all_counts(
        m.compaction.statistics,
        held_summaries(held, appended),
    );
}

/// Where a segment that the compaction was planned on is gone from the live
/// snapshot, replaced or moved, as after a competing compaction that came
/// first, the commit fails with a storage conflict, and the table keeps
/// the snapshot of the writer that came first.
pub proof fn lemma_commit_after_replacement_fails(
    m: MutatorView,
    live: TableSnapshotView,
    held: Map<LocationView, SegmentInfoView>,
)
    requires
        m.phase is ReadLive,
        live.snapshot_id != m.base.snapshot_id,
        !m.base.segments.is_prefix_of(live.segments),
    ensures
        commit_outcome(m, live, held) == Err::<TableSnapshotView, ErrorKind>(
            ErrorKind::StorageConflict,
        ),
{
}

/// The segments of a snapshot as a compaction takes them: the blocks that
/// are held under each location, with the location.
pub open spec fn held_inputs(
    held: Map<LocationView, SegmentInfoView>,
    locations: Seq<LocationView>,
) -> Seq<SegmentInput> {
    Seq::new(
        locations.len(),
        |i: int| SegmentInput { blocks: held[locations[i]].blocks, location: locations[i] },
    )
}

/// The locations that a compaction writes its merged segments to: the
/// segment locations of the identities that follow `first_id`.
pub open spec fn fresh_locations(root: Seq<char>, first_id: u128, count: nat) -> Seq<LocationView> {
    Seq::new(
        count,
        |k: int|
            LocationView {
                path: object_path(
                    root,
                    ObjectKind::Segment,
                    (first_id + 1 + k) as u128,
                    SEGMENT_VERSION,
                ),
                version: SEGMENT_VERSION,
            },
    )
}

/// Whether none of the locations has a segment in the cache.
pub open spec fn none_held(
    held: Map<LocationView, SegmentInfoView>,
    locations: Seq<LocationView>,
) -> bool {
    forall|i: int| 0 <= i < locations.len() ==> !held.contains_key(#[trigger] locations[i])
}

/// The segments in memory once the merged segments of a plan are written,
/// the k-th of them to the k-th of the locations.
pub open spec fn with_merged(
    held: Map<LocationView, SegmentInfoView>,
    es: Seq<CompactedSegmentView>,
    written: Seq<LocationView>,
) -> Map<LocationView, SegmentInfoView>
    decreases es.len(),
{
    if es.len() == 0 {
        held
    } else {
        let before = with_merged(held, es.drop_last(), written);
        match es.last() {
            CompactedSegmentView::Kept { location, blocks } => before,
            CompactedSegmentView::Merged { blocks } => before.insert(
                written[merged_count(es.drop_last()) as int],
                SegmentInfoView { blocks, summary: fold_blocks(blocks) },
            ),
        }
    }
}

/// What a compaction of a table in memory comes to.
pub enum CompactOutcome {
    /// The compaction fails with an error of this kind.
    Fails(ErrorKind),
    /// No segment would be written: there is nothing to do.
    NothingToDo,
    /// These segments make up the compacted table; the merged ones are
    /// written to these locations.
    Compacts { entries: Seq<CompactedSegmentView>, written: Seq<LocationView> },
}

/// What a compaction of a table in memory comes to. The command is looked
/// at first; then the segments of the live snapshot have to be at hand and
/// their summary has to fit; then there has to be something to merge, the
/// identities for the merged segments must not run out, and their
/// locations must be free.
pub open spec fn compact_outcome(
    live: TableSnapshotView,
    threshold: u64,
    held: Map<LocationView, SegmentInfoView>,
    root: Seq<char>,
    first_id: u128,
    target: CompactTarget,
    limit: Option<usize>,
) -> CompactOutcome {
    let inputs = held_inputs(held, live.segments);
    let entries = compacted(threshold, inputs, limit);
    let written = fresh_locations(root, first_id, merged_count(entries));
    if target == CompactTarget::Blocks {
        CompactOutcome::Fails(ErrorKind::IllegalInput)
    } else if !all_held(held, live.segments) {
        CompactOutcome::Fails(ErrorKind::StorageIO)
    } else if !fits(fold_blocks(inputs_blocks(inputs))) {
        CompactOutcome::Fails(ErrorKind::Internal)
    } else if merged_count(entries) == 0 {
        CompactOutcome::NothingToDo
    } else if first_id + merged_count(entries) > u128::MAX {
        CompactOutcome::Fails(ErrorKind::Internal)
    } else if !none_held(held, written) {
        CompactOutcome::Fails(ErrorKind::StorageIO)
    } else {
        CompactOutcome::Compacts { entries, written }
    }
}

fn read_segments(segments: &SegmentCache, locations: &Vec<Location>) -> (r: Option<
    Vec<(SegmentInfo, Location)>,
>)
    requires
        segments.wf(),
    ensures
        r is Some <==> all_held(segments@, locations_view(locations@)),
        r is Some ==> inputs_view(r->Some_0@) == held_inputs(
            segments@,
            locations_view(locations@),
        ),
        r is Some ==> forall|i: int|
            0 <= i < r->Some_0@.len() ==> (#[trigger] r->Some_0@[i]).0.wf(),
{
    let ghost wanted = locations_view(locations@);
    let mut out: Vec<(SegmentInfo, Location)> = Vec::new();
    let mut i: usize = 0;
    while i < locations.len()
        invariant
            i <= locations@.len(),
            segments.wf(),
            wanted == locations_view(locations@),
            out@.len() == i,
            forall|j: int| 0 <= j < i ==> segments@.contains_key(#[trigger] wanted[j]),
            forall|j: int| 0 <= j < i ==> (#[trigger] out@[j]).0.wf(),
            forall|j: int| 0 <= j < i ==> (#[trigger] out@[j]).0@ == segments@[wanted[j]],
            forall|j: int| 0 <= j < i ==> (#[trigger] out@[j]).1@ == wanted[j],
        decreases locations@.len() - i,
    {
        assert(wanted[i as int] == locations@[i as int]@);
        match segments.get(&locations[i]) {
            Some(segment) => {
                out.push((segment.duplicate(), locations[i].duplicate()));
            },
            None => {
                return None;
            },
        }
        i += 1;
    }
    assert(inputs_view(out@) =~= held_inputs(segments@, wanted));
    Some(out)
}

fn allocate(location_gen: &TableMetaLocationGenerator, first_id: u128, count: usize) -> (r: Vec<
    Location,
>)
    requires
        first_id + count <= u128::MAX,
    ensures
        locations_view(r@) == fresh_locations(location_gen.root(), first_id, count as nat),
{
    let mut out: Vec<Location> = Vec::new();
    let mut k: usize = 0;
    while k < count
        invariant
            k <= count,
            first_id + count <= u128::MAX,
            out@.len() == k,
            forall|j: int|
                0 <= j < k ==> (#[trigger] out@[j])@ == fresh_locations(
                    location_gen.root(),
                    first_id,
                    count as nat,
                )[j],
        decreases count - k,
    {
        out.push(location_gen.gen_segment_info_location(first_id + 1 + k as u128, SEGMENT_VERSION));
        k += 1;
    }
    assert(locations_view(out@) =~= fresh_locations(location_gen.root(), first_id, count as nat));
    out
}

fn all_free(segments: &SegmentCache, locations: &Vec<Location>) -> (r: bool)
    requires
        segments.wf(),
    ensures
        r == none_held(segments@, locations_view(locations@)),
{
    let ghost wanted = locations_view(locations@);
    let mut i: usize = 0;
    while i < locations.len()
        invariant
            i <= locations@.len(),
            segments.wf(),
            wanted == locations_view(locations@),
            forall|j: int| 0 <= j < i ==> !segments@.contains_key(#[trigger] wanted[j]),
        decreases locations@.len() - i,
    {
        assert(wanted[i as int] == locations@[i as int]@);
        if segments.get(&locations[i]).is_some() {
            return false;
        }
        i += 1;
    }
    true
}

fn write_merged(segments: &mut SegmentCache, entries: &Vec<CompactedSegment>, written: &Vec<Location>)
    requires
        old(segments).wf(),
        written@.len() == merged_count(entries_view(entries@)),
        forall|i: int| 0 <= i < entries@.len() ==> (#[trigger] entries@[i]).wf(),
    ensures
        final(segments).wf(),
        final(segments)@ == with_merged(
            old(segments)@,
            entries_view(entries@),
            locations_view(written@),
        ),
{
    let ghost es = entries_view(entries@);
    let ghost wv = locations_view(written@);
    let ghost start = segments@;
    let mut used: usize = 0;
    let mut i: usize = 0;
    while i < entries.len()
        invariant
            i <= entries@.len(),
            segments.wf(),
            es == entries_view(entries@),
            wv == locations_view(written@),
            written@.len() == merged_count(es),
            forall|j: int| 0 <= j < entries@.len() ==> (#[trigger] entries@[j]).wf(),
            used == merged_count(es.subrange(0, i as int)),
            segments@ == with_merged(start, es.subrange(0, i as int), wv),
        decreases entries@.len() - i,
    {
        proof {
            assert(es.subrange(0, i + 1).drop_last() =~= es.subrange(0, i as int));
            assert(es.subrange(0, i + 1).last() == entries@[i as int]@);
            lemma_merged_count_prefix(es, i + 1);
        }
        match &entries[i] {
            CompactedSegment::Merged { segment } => {
                assert(entries@[i as int]@ is Merged);
                assert(merged_count(es.subrange(0, i + 1)) == used + 1);
                assert(used < written.len());
                assert(entries@[i as int].wf());
                segments.put(written[used].duplicate(), segment.duplicate());
                used += 1;
            },
            CompactedSegment::Kept { location, segment } => {},
        }
        i += 1;
    }
    assert(es.subrange(0, i as int) =~= es);
}

/// Compacts the live snapshot of a table in memory. The segments of the
/// snapshot are taken from the segments in memory, and the merged segments
/// are put there, at the segment locations of the identities that follow
/// `first_id`; the table itself is not touched. The mutator that commits the
/// compaction publishes a snapshot with the identity `first_id`. Where the
/// compaction fails or has nothing to do, the segments in memory are left
/// as they are.
pub fn compact(
    table: &TableState,
    segments: &mut SegmentCache,
    location_gen: &TableMetaLocationGenerator,
    first_id: u128,
    target: CompactTarget,
    limit: Option<usize>,
) -> (r: Result<Option<SegmentCompactMutator>, ErrorCode>)
    requires
        old(segments).wf(),
    ensures
        final(segments).wf(),
        match compact_outcome(
            table@,
            table.threshold(),
            old(segments)@,
            location_gen.root(),
            first_id,
            target,
            limit,
        ) {
            CompactOutcome::Fails(kind) => r is Err && r->Err_0.kind == kind && final(segments)@
                == old(segments)@,
            CompactOutcome::NothingToDo => r is Ok && r->Ok_0 is None && final(segments)@ == old(
                segments,
            )@,
            CompactOutcome::Compacts { entries, written } => {
                &&& r is Ok
                &&& r->Ok_0 is Some
                &&& r->Ok_0->Some_0@ == (MutatorView {
                    base: table@,
                    compaction: SegmentCompactionStateView {
                        new_segment_paths: paths_of(written),
                        segments_locations: placed(entries, written),
                        statistics: fold_blocks(
                            inputs_blocks(held_inputs(old(segments)@, table@.segments)),
                        ),
                    },
                    snapshot_id: first_id,
                    retries_left: DEFAULT_RETRY_BUDGET,
                    phase: crate::mutator::CommitPhaseView::ReadLive,
                })
                &&& final(segments)@ == with_merged(old(segments)@, entries, written)
            },
        },
{
    match check_target(target) {
        Ok(()) => {},
        Err(e) => {
            return Err(e);
        },
    }
    let base = table.get_current_snapshot();
    let inputs = match read_segments(segments, &base.segments) {
        Some(inputs) => inputs,
        None => {
            return Err(
                ErrorCode::new(ErrorKind::StorageIO, "a segment of the table is not in memory"),
            );
        },
    };
    let plan = match compact_segments(table.block_per_segment(), inputs, limit) {
        Ok(plan) => plan,
        Err(e) => {
            return Err(e);
        },
    };
    let count = plan.merged_len();
    if count == 0 {
        return Ok(None);
    }
    if first_id > u128::MAX - count as u128 {
        return Err(ErrorCode::new(ErrorKind::Internal, "the identities have run out"));
    }
    let written = allocate(location_gen, first_id, count);
    if !all_free(segments, &written) {
        return Err(ErrorCode::new(ErrorKind::StorageIO, "a location for a new segment is taken"));
    }
    write_merged(segments, plan.entries(), &written);
    match plan.into_state(written) {
        Ok(state) => Ok(SegmentCompactMutator::try_new(base, state, first_id, DEFAULT_RETRY_BUDGET)),
        Err(e) => Err(e),
    }
}

/// Different identities get different locations.
pub proof fn lemma_fresh_locations_differ(root: Seq<char>, first_id: u128, count: nat, a: int, b: int)
    requires
        first_id + count <= u128::MAX,
        0 <= a < count,
        0 <= b < count,
        fresh_locations(root, first_id, count)[a] == fresh_locations(root, first_id, count)[b],
    ensures
        a == b,
{
    crate::location::lemma_paths_are_unique(
        root,
        ObjectKind::Segment,
        SEGMENT_VERSION,
        (first_id + 1 + a) as u128,
        (first_id + 1 + b) as u128,
    );
}

/// Writing merged segments touches only the locations that are written to.
pub proof fn lemma_with_merged_elsewhere(
    held: Map<LocationView, SegmentInfoView>,
    es: Seq<CompactedSegmentView>,
    written: Seq<LocationView>,
    at: LocationView,
)
    requires
        merged_count(es) <= written.len(),
        forall|k: int| 0 <= k < merged_count(es) ==> written[k] != at,
    ensures
        with_merged(held, es, written).contains_key(at) == held.contains_key(at),
        held.contains_key(at) ==> with_merged(held, es, written)[at] == held[at],
    decreases es.len(),
{
    if es.len() > 0 {
        lemma_with_merged_elsewhere(held, es.drop_last(), written, at);
    }
}

/// A merged segment is held at the location that it was written to,
/// provided that no two writes go to the same location.
pub proof fn lemma_with_merged_at(
    held: Map<LocationView, SegmentInfoView>,
    es: Seq<CompactedSegmentView>,
    written: Seq<LocationView>,
    i: int,
)
    requires
        merged_count(es) <= written.len(),
        forall|a: int, b: int|
            0 <= a < b < merged_count(es) ==> written[a] != written[b],
        0 <= i < es.len(),
        es[i] is Merged,
    ensures
        0 <= merged_count(es.subrange(0, i)) < merged_count(es),
        with_merged(held, es, written).contains_key(written[merged_count(es.subrange(0, i)) as int]),
        with_merged(held, es, written)[written[merged_count(es.subrange(0, i)) as int]].blocks
            == es[i]->Merged_blocks,
    decreases es.len(),
{
    let k = merged_count(es.subrange(0, i));
    lemma_merged_count_prefix(es, i + 1);
    assert(es.subrange(0, i + 1).drop_last() =~= es.subrange(0, i));
    assert(es.subrange(0, i + 1).last() == es[i]);
    let head = es.drop_last();
    if i == es.len() - 1 {
        assert(es.subrange(0, i) =~= head);
    } else {
        assert(head[i] == es[i]);
        assert(head.subrange(0, i) =~= es.subrange(0, i));
        lemma_with_merged_at(held, head, written, i);
        lemma_merged_count_prefix(head, i + 1);
        assert(head.subrange(0, i + 1).drop_last() =~= head.subrange(0, i));
        assert(head.subrange(0, i + 1).last() == head[i]);
    }
}

/// Two lists of segments with the same blocks, segment by segment, have
/// the same blocks when read end to end.
pub proof fn lemma_same_blocks(es: Seq<CompactedSegmentView>, read_back: Seq<SegmentInput>)
    requires
        es.len() == read_back.len(),
        forall|i: int|
            0 <= i < es.len() ==> crate::compaction::entry_blocks(#[trigger] es[i])
                == read_back[i].blocks,
    ensures
        crate::compaction::entries_blocks(es) == inputs_blocks(read_back),
    decreases es.len(),
{
    if es.len() > 0 {
        assert(es.drop_last().len() == read_back.drop_last().len());
        assert forall|i: int| 0 <= i < es.drop_last().len() implies crate::compaction::entry_blocks(
            #[trigger] es.drop_last()[i],
        ) == read_back.drop_last()[i].blocks by {
            assert(es.drop_last()[i] == es[i]);
        }
        lemma_same_blocks(es.drop_last(), read_back.drop_last());
        assert(crate::compaction::entry_blocks(es[es.len() - 1]) == read_back[es.len() - 1].blocks);
    }
}

/// Compaction is lossless all the way through the store: the blocks that
/// are read back through the locations of the compacted table, from the
/// segments in memory after the compaction, are the blocks that were read
/// through the locations of the live snapshot before it, in the same order.
pub proof fn lemma_compacted_table_reads_back(
    live: TableSnapshotView,
    threshold: u64,
    held: Map<LocationView, SegmentInfoView>,
    root: Seq<char>,
    first_id: u128,
    target: CompactTarget,
    limit: Option<usize>,
)
    requires
        compact_outcome(live, threshold, held, root, first_id, target, limit) is Compacts,
    ensures
        ({
            let outcome = compact_outcome(live, threshold, held, root, first_id, target, limit);
            let entries = outcome->entries;
            let written = outcome->written;
            let after = with_merged(held, entries, written);
            let locations = placed(entries, written);
            &&& all_held(after, locations)
            &&& inputs_blocks(held_inputs(after, locations)) == inputs_blocks(
                held_inputs(held, live.segments),
            )
        }),
{
    let inputs = held_inputs(held, live.segments);
    let entries = compacted(threshold, inputs, limit);
    let count = merged_count(entries);
    let written = fresh_locations(root, first_id, count);
    let after = with_merged(held, entries, written);
    let locations = placed(entries, written);
    let read_back = held_inputs(after, locations);
    crate::compaction::lemma_placed(entries, written);
    crate::compaction::lemma_kept_segments_are_inputs(threshold, inputs, limit);
    crate::compaction::lemma_compaction_lossless(threshold, inputs, limit);
    assert forall|a: int, b: int| 0 <= a < b < count implies written[a] != written[b] by {
        if written[a] == written[b] {
            lemma_fresh_locations_differ(root, first_id, count, a, b);
        }
    }
    assert forall|i: int| 0 <= i < entries.len() implies after.contains_key(
        #[trigger] locations[i],
    ) && crate::compaction::entry_blocks(entries[i]) == after[locations[i]].blocks by {
        match entries[i] {
            CompactedSegmentView::Kept { location, blocks } => {
                assert(crate::compaction::is_input(inputs, blocks, location));
                let j = choose|j: int|
                    0 <= j < inputs.len() && #[trigger] inputs[j] == (SegmentInput {
                        blocks,
                        location,
                    });
                assert(location == live.segments[j]);
                assert(held.contains_key(live.segments[j]));
                assert forall|k: int| 0 <= k < count implies written[k] != location by {
                    assert(!held.contains_key(written[k]));
                }
                lemma_with_merged_elsewhere(held, entries, written, location);
            },
            CompactedSegmentView::Merged { blocks } => {
                lemma_with_merged_at(held, entries, written, i);
            },
        }
    }
    assert forall|i: int| 0 <= i < entries.len() implies crate::compaction::entry_blocks(
        #[trigger] entries[i],
    ) == read_back[i].blocks by {
        assert(after.contains_key(locations[i]));
    }
    lemma_same_blocks(entries, read_back);
}

} // verus!
