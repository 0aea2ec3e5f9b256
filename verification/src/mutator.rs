//! The commit protocol: publishing a compaction under optimistic
//! concurrency. The decisions are made here, one event at a time; reading
//! the live snapshot, reading segments and the atomic publish itself are
//! done by the caller, who reports each outcome as the next event.

use vstd::prelude::*;

use crate::compaction::SegmentCompactionState;
use crate::compaction::SegmentCompactionStateView;
use crate::error::ErrorCode;
use crate::error::ErrorKind;
use crate::meta::locations_view;
use crate::meta::Location;
use crate::meta::LocationView;
use crate::snapshot::duplicate_locations;
use crate::snapshot::TableSnapshot;
use crate::snapshot::TableSnapshotView;
use crate::statistics::fits;
use crate::statistics::lemma_merge_all_counts;
use crate::statistics::merge_all;
use crate::statistics::merge_all_statistics;
use crate::statistics::summaries_view;
use crate::statistics::total_block_count;
use crate::statistics::total_row_count;
use crate::statistics::Statistics;
use crate::statistics::StatisticsView;

verus! {

/// How the live snapshot differs from the one that a compaction was planned on.
#[derive(Debug)]
pub enum Conflict {
    /// The live snapshot is the one the compaction was planned on.
    NoChange,
    /// Segments were appended behind those of the base, and nothing else changed.
    Resolvable { appended: Vec<Location> },
    /// A segment of the base was removed, replaced or moved.
    Unresolvable,
}

/// Mathematical value of a `Conflict`.
pub enum ConflictView {
    NoChange,
    Resolvable { appended: Seq<LocationView> },
    Unresolvable,
}

impl View for Conflict {
    type V = ConflictView;

    open spec fn view(&self) -> ConflictView {
        match self {
            Conflict::NoChange => ConflictView::NoChange,
            Conflict::Resolvable { appended } => ConflictView::Resolvable {
                appended: locations_view(appended@),
            },
            Conflict::Unresolvable => ConflictView::Unresolvable,
        }
    }
}

/// The difference between the base of a compaction and the live snapshot.
pub open spec fn classify(base: TableSnapshotView, live: TableSnapshotView) -> ConflictView {
    if live.snapshot_id == base.snapshot_id {
        ConflictView::NoChange
    } else if base.segments.is_prefix_of(live.segments) {
        ConflictView::Resolvable {
            appended: live.segments.subrange(base.segments.len() as int, live.segments.len() as int),
        }
    } else {
        ConflictView::Unresolvable
    }
}

/// Classifies the difference between the base of a compaction and the live snapshot.
pub fn detect_conflicts(base: &TableSnapshot, live: &TableSnapshot) -> (c: Conflict)
    ensures
        c@ == classify(base@, live@),
{
    if live.snapshot_id == base.snapshot_id {
        return Conflict::NoChange;
    }
    let n: usize = base.segments.len();
    let m: usize = live.segments.len();
    if n > m {
        return Conflict::Unresolvable;
    }
    let mut i: usize = 0;
    while i < n
        invariant
            i <= n <= m,
            n == base.segments@.len(),
            m == live.segments@.len(),
            live.snapshot_id != base.snapshot_id,
            forall|j: int| 0 <= j < i ==> (#[trigger] base.segments@[j])@ == live.segments@[j]@,
        decreases n - i,
    {
        if !base.segments[i].same_as(&live.segments[i]) {
            assert(base@.segments[i as int] == base.segments@[i as int]@);
            assert(live@.segments.subrange(0, n as int)[i as int] == live.segments@[i as int]@);
            assert(base@.segments[i as int] != live@.segments.subrange(0, n as int)[i as int]);
            return Conflict::Unresolvable;
        }
        i += 1;
    }
    assert(base@.segments =~= live@.segments.subrange(0, n as int));
    let mut appended: Vec<Location> = Vec::new();
    let mut k: usize = n;
    while k < m
        invariant
            n <= k <= m,
            m == live.segments@.len(),
            appended@.len() == k - n,
            forall|j: int| 0 <= j < k - n ==> (#[trigger] appended@[j])@ == live.segments@[n + j]@,
        decreases m - k,
    {
        appended.push(live.segments[k].duplicate());
        k += 1;
    }
    assert(locations_view(appended@) =~= live@.segments.subrange(n as int, m as int));
    Conflict::Resolvable { appended }
}

/// Where a commit attempt stands.
#[derive(Debug)]
pub enum CommitPhase {
    /// Waiting for the live snapshot.
    ReadLive,
    /// Waiting for the summaries of the segments that were appended
    /// behind the base, to splice them onto the compacted table.
    Splice { live_id: u128, appended: Vec<Location> },
    /// Waiting for the outcome of the atomic publish.
    AtomicPublish,
    /// The compaction is published.
    Success,
    /// The attempt has failed for good on a conflict.
    ConflictError,
}

/// Mathematical value of a `CommitPhase`.
pub enum CommitPhaseView {
    ReadLive,
    Splice { live_id: u128, appended: Seq<LocationView> },
    AtomicPublish,
    Success,
    ConflictError,
}

impl View for CommitPhase {
    type V = CommitPhaseView;

    open spec fn view(&self) -> CommitPhaseView {
        match self {
            CommitPhase::ReadLive => CommitPhaseView::ReadLive,
            CommitPhase::Splice { live_id, appended } => CommitPhaseView::Splice {
                live_id: *live_id,
                appended: locations_view(appended@),
            },
            CommitPhase::AtomicPublish => CommitPhaseView::AtomicPublish,
            CommitPhase::Success => CommitPhaseView::Success,
            CommitPhase::ConflictError => CommitPhaseView::ConflictError,
        }
    }
}

/// What the caller reports to a commit attempt.
#[derive(Debug)]
pub enum CommitEvent {
    /// The live snapshot of the table, as just read.
    LiveSnapshot(TableSnapshot),
    /// The summaries of the appended segments, in the order asked for.
    AppendedSummaries(Vec<Statistics>),
    /// The publish replaced the expected snapshot.
    Published,
    /// The publish found another snapshot than the expected one.
    LostRace,
}

/// Mathematical value of a `CommitEvent`.
pub enum CommitEventView {
    LiveSnapshot(TableSnapshotView),
    AppendedSummaries(Seq<StatisticsView>),
    Published,
    LostRace,
}

impl View for CommitEvent {
    type V = CommitEventView;

    open spec fn view(&self) -> CommitEventView {
        match self {
            CommitEvent::LiveSnapshot(s) => CommitEventView::LiveSnapshot(s@),
            CommitEvent::AppendedSummaries(v) => CommitEventView::AppendedSummaries(
                summaries_view(v@),
            ),
            CommitEvent::Published => CommitEventView::Published,
            CommitEvent::LostRace => CommitEventView::LostRace,
        }
    }
}

/// What a commit attempt asks of the caller next.
#[derive(Debug)]
pub enum CommitAction {
    /// Read the live snapshot and report it.
    ReadLiveSnapshot,
    /// Read these segments and report their summaries, in this order.
    ReadSummaries(Vec<Location>),
    /// Replace the snapshot `expected_prev` by `snapshot`, atomically, and
    /// report whether that was done.
    Publish { expected_prev: u128, snapshot: TableSnapshot },
    /// Nothing: the compaction is published.
    Finished,
    /// Nothing: hand this error to whoever asked for the commit.
    Fail(ErrorCode),
}

/// Mathematical value of a `CommitAction`.
pub enum CommitActionView {
    ReadLiveSnapshot,
    ReadSummaries(Seq<LocationView>),
    Publish { expected_prev: u128, snapshot: TableSnapshotView },
    Finished,
    Fail(ErrorKind),
}

impl View for CommitAction {
    type V = CommitActionView;

    open spec fn view(&self) -> CommitActionView {
        match self {
            CommitAction::ReadLiveSnapshot => CommitActionView::ReadLiveSnapshot,
            CommitAction::ReadSummaries(v) => CommitActionView::ReadSummaries(locations_view(v@)),
            CommitAction::Publish { expected_prev, snapshot } => CommitActionView::Publish {
                expected_prev: *expected_prev,
                snapshot: snapshot@,
            },
            CommitAction::Finished => CommitActionView::Finished,
            CommitAction::Fail(e) => CommitActionView::Fail(e.kind),
        }
    }
}

/// How many times a commit starts over after a lost race, unless told otherwise.
pub const DEFAULT_RETRY_BUDGET: u64 = 5;

/// Commits one compaction: holds what was planned, on which snapshot, and
/// how far the attempt has come.
#[derive(Debug)]
pub struct SegmentCompactMutator {
    base: TableSnapshot,
    compaction: SegmentCompactionState,
    snapshot_id: u128,
    retries_left: u64,
    phase: CommitPhase,
}

/// Mathematical value of a `SegmentCompactMutator`.
pub struct MutatorView {
    /// The snapshot that the compaction was planned on.
    pub base: TableSnapshotView,
    /// The result of the compaction.
    pub compaction: SegmentCompactionStateView,
    /// The identity that the published snapshot will have.
    pub snapshot_id: u128,
    /// How many more times a lost race leads to a new attempt.
    pub retries_left: u64,
    /// Where the attempt stands.
    pub phase: CommitPhaseView,
}

impl View for SegmentCompactMutator {
    type V = MutatorView;

    closed spec fn view(&self) -> MutatorView {
        MutatorView {
            base: self.base@,
            compaction: self.compaction@,
            snapshot_id: self.snapshot_id,
            retries_left: self.retries_left,
            phase: self.phase@,
        }
    }
}

/// The snapshot that a commit publishes over the live snapshot `live_id`:
/// the compacted segments, then the appended ones, with all summaries merged.
pub open spec fn spliced(
    m: MutatorView,
    live_id: u128,
    appended: Seq<LocationView>,
    summaries: Seq<StatisticsView>,
) -> TableSnapshotView {
    TableSnapshotView {
        snapshot_id: m.snapshot_id,
        prev_snapshot_id: Some(live_id),
        segments: m.compaction.segments_locations + appended,
        summary: merge_all(m.compaction.statistics, summaries),
    }
}

/// The mutator in another phase.
pub open spec fn in_phase(m: MutatorView, phase: CommitPhaseView) -> MutatorView {
    MutatorView { phase, ..m }
}

/// One transition of a commit attempt: the state after the event and what
/// the caller is to do next. An event that the phase does not expect is
/// refused with `Internal` and changes nothing.
pub open spec fn transition(m: MutatorView, e: CommitEventView) -> (MutatorView, CommitActionView) {
    match (m.phase, e) {
        (CommitPhaseView::ReadLive, CommitEventView::LiveSnapshot(live)) => match classify(
            m.base,
            live,
        ) {
            ConflictView::NoChange => (
                in_phase(m, CommitPhaseView::AtomicPublish),
                CommitActionView::Publish {
                    expected_prev: live.snapshot_id,
                    snapshot: spliced(m, live.snapshot_id, Seq::empty(), Seq::empty()),
                },
            ),
            ConflictView::Resolvable { appended } => (
                in_phase(m, CommitPhaseView::Splice { live_id: live.snapshot_id, appended }),
                CommitActionView::ReadSummaries(appended),
            ),
            ConflictView::Unresolvable => (
                in_phase(m, CommitPhaseView::ConflictError),
                CommitActionView::Fail(ErrorKind::StorageConflict),
            ),
        },
        (
            CommitPhaseView::Splice { live_id, appended },
            CommitEventView::AppendedSummaries(summaries),
        ) => if summaries.len() != appended.len() {
            (m, CommitActionView::Fail(ErrorKind::IllegalInput))
        } else if !fits(merge_all(m.compaction.statistics, summaries)) {
            (m, CommitActionView::Fail(ErrorKind::Internal))
        } else {
            (
                in_phase(m, CommitPhaseView::AtomicPublish),
                CommitActionView::Publish {
                    expected_prev: live_id,
                    snapshot: spliced(m, live_id, appended, summaries),
                },
            )
        },
        (CommitPhaseView::AtomicPublish, CommitEventView::Published) => (
            in_phase(m, CommitPhaseView::Success),
            CommitActionView::Finished,
        ),
        (CommitPhaseView::AtomicPublish, CommitEventView::LostRace) => if m.retries_left > 0 {
            (
                MutatorView {
                    retries_left: (m.retries_left - 1) as u64,
                    phase: CommitPhaseView::ReadLive,
                    ..m
                },
                CommitActionView::ReadLiveSnapshot,
            )
        } else {
            (
                in_phase(m, CommitPhaseView::ConflictError),
                CommitActionView::Fail(ErrorKind::StorageConflict),
            )
        },
        _ => (m, CommitActionView::Fail(ErrorKind::Internal)),
    }
}

impl SegmentCompactMutator {
    /// Prepares the commit of a compaction that was planned on `base`. The
    /// published snapshot will have the identity `snapshot_id`; a lost race
    /// leads to a new attempt at most `max_retries` times. Where the
    /// compaction wrote no segment there is nothing to commit.
    pub fn try_new(
        base: TableSnapshot,
        compaction: SegmentCompactionState,
        snapshot_id: u128,
        max_retries: u64,
    ) -> (r: Option<SegmentCompactMutator>)
        ensures
            r is Some <==> compaction@.new_segment_paths.len() > 0,
            r is Some ==> r->Some_0@ == (MutatorView {
                base: base@,
                compaction: compaction@,
                snapshot_id,
                retries_left: max_retries,
                phase: CommitPhaseView::ReadLive,
            }),
    {
        if compaction.new_segment_paths.len() == 0 {
            None
        } else {
            Some(
                SegmentCompactMutator {
                    base,
                    compaction,
                    snapshot_id,
                    retries_left: max_retries,
                    phase: CommitPhase::ReadLive,
                },
            )
        }
    }

    /// What the caller is to do first: read the live snapshot.
    pub fn start(&self) -> (a: CommitAction)
        ensures
            a@ == CommitActionView::ReadLiveSnapshot,
    {
        CommitAction::ReadLiveSnapshot
    }

    /// Where the attempt stands.
    pub fn phase(&self) -> (p: &CommitPhase)
        ensures
            p@ == self@.phase,
    {
        &self.phase
    }

    /// Whether the attempt has ended, well or not.
    pub fn is_finished(&self) -> (b: bool)
        ensures
            b == (self@.phase is Success || self@.phase is ConflictError),
    {
        match self.phase {
            CommitPhase::Success => true,
            CommitPhase::ConflictError => true,
            _ => false,
        }
    }

    /// The result of the compaction that this mutator commits.
    pub fn compaction(&self) -> (c: &SegmentCompactionState)
        ensures
            c@ == self@.compaction,
    {
        &self.compaction
    }

    fn build_snapshot(&self, live_id: u128, appended: &Vec<Location>, summary: Statistics) -> (s:
        TableSnapshot)
        ensures
            s@ == (TableSnapshotView {
                snapshot_id: self@.snapshot_id,
                prev_snapshot_id: Some(live_id),
                segments: self@.compaction.segments_locations + locations_view(appended@),
                summary: summary@,
            }),
    {
        let mut segments = duplicate_locations(&self.compaction.segments_locations);
        let ghost head = segments@;
        let mut i: usize = 0;
        while i < appended.len()
            invariant
                i <= appended@.len(),
                segments@.len() == head.len() + i,
                forall|j: int| 0 <= j < head.len() ==> (#[trigger] segments@[j])@ == head[j]@,
                forall|k: int|
                    head.len() <= k < head.len() + i ==> (#[trigger] segments@[k])@ == appended@[k
                        - head.len()]@,
            decreases appended@.len() - i,
        {
            segments.push(appended[i].duplicate());
            i += 1;
        }
        assert(locations_view(segments@) =~= locations_view(head) + locations_view(appended@));
        TableSnapshot {
            snapshot_id: self.snapshot_id,
            prev_snapshot_id: Some(live_id),
            segments,
            summary,
        }
    }

    /// Takes the next event and says what to do next, as `transition` defines it.
    pub fn step(&mut self, event: CommitEvent) -> (action: CommitAction)
        ensures
            (final(self)@, action@) == transition(old(self)@, event@),
    {
        let mut phase = CommitPhase::ReadLive;
        std::mem::swap(&mut self.phase, &mut phase);
        match (phase, event) {
            (CommitPhase::ReadLive, CommitEvent::LiveSnapshot(live)) => {
                match detect_conflicts(&self.base, &live) {
                    Conflict::NoChange => {
                        let none: Vec<Location> = Vec::new();
                        let summary = self.compaction.statistics.duplicate();
                        let snapshot = self.build_snapshot(live.snapshot_id, &none, summary);
                        assert(locations_view(none@) =~= Seq::empty());
                        assert(snapshot@.segments =~= self@.compaction.segments_locations
                            + Seq::<LocationView>::empty());
                        self.phase = CommitPhase::AtomicPublish;
                        CommitAction::Publish { expected_prev: live.snapshot_id, snapshot }
                    },
                    Conflict::Resolvable { appended } => {
                        let ask = duplicate_locations(&appended);
                        self.phase = CommitPhase::Splice { live_id: live.snapshot_id, appended };
                        CommitAction::ReadSummaries(ask)
                    },
                    Conflict::Unresolvable => {
                        self.phase = CommitPhase::ConflictError;
                        CommitAction::Fail(
                            ErrorCode::new(
                                ErrorKind::StorageConflict,
                                "mutation conflicts, concurrent mutation detected while committing segment compaction operation",
                            ),
                        )
                    },
                }
            },
            (CommitPhase::Splice { live_id, appended }, CommitEvent::AppendedSummaries(summaries)) => {
                if summaries.len() != appended.len() {
                    self.phase = CommitPhase::Splice { live_id, appended };
                    return CommitAction::Fail(
                        ErrorCode::new(
                            ErrorKind::IllegalInput,
                            "one summary is needed for each appended segment",
                        ),
                    );
                }
                match merge_all_statistics(&self.compaction.statistics, &summaries) {
                    Ok(summary) => {
                        let snapshot = self.build_snapshot(live_id, &appended, summary);
                        self.phase = CommitPhase::AtomicPublish;
                        CommitAction::Publish { expected_prev: live_id, snapshot }
                    },
                    Err(e) => {
                        self.phase = CommitPhase::Splice { live_id, appended };
                        CommitAction::Fail(e)
                    },
                }
            },
            (CommitPhase::AtomicPublish, CommitEvent::Published) => {
                self.phase = CommitPhase::Success;
                CommitAction::Finished
            },
            (CommitPhase::AtomicPublish, CommitEvent::LostRace) => {
                if self.retries_left > 0 {
                    self.retries_left = self.retries_left - 1;
                    self.phase = CommitPhase::ReadLive;
                    CommitAction::ReadLiveSnapshot
                } else {
                    self.phase = CommitPhase::ConflictError;
                    CommitAction::Fail(
                        ErrorCode::new(
                            ErrorKind::StorageConflict,
                            "the table changed under every attempt to publish",
                        ),
                    )
                }
            },
            (phase, _) => {
                self.phase = phase;
                CommitAction::Fail(
                    ErrorCode::new(ErrorKind::Internal, "event does not fit the phase of the commit"),
                )
            },
        }
    }
}

/// Where the table is as the compaction found it, the commit publishes the
/// compacted table as it is, and ends well once the publish is reported.
pub proof fn lemma_unchanged_table_commit_succeeds(m: MutatorView, live: TableSnapshotView)
    requires
        m.phase is ReadLive,
        live.snapshot_id == m.base.snapshot_id,
    ensures
        ({
            let (m1, a1) = transition(m, CommitEventView::LiveSnapshot(live));
            let (m2, a2) = transition(m1, CommitEventView::Published);
            &&& a1 == CommitActionView::Publish {
                expected_prev: live.snapshot_id,
                snapshot: TableSnapshotView {
                    snapshot_id: m.snapshot_id,
                    prev_snapshot_id: Some(live.snapshot_id),
                    segments: m.compaction.segments_locations,
                    summary: m.compaction.statistics,
                },
            }
            &&& m2.phase is Success
            &&& a2 is Finished
        }),
{
    assert(m.compaction.segments_locations + Seq::<LocationView>::empty()
        =~= m.compaction.segments_locations);
}

/// Where other writers have only appended segments since the compaction was
/// planned, the commit goes through: it asks for the summaries of the
/// appended segments, publishes the compacted segments followed by the
/// appended ones, and ends well once the publish is reported. The published
/// snapshot has as many segments, blocks and rows as the compacted table and
/// the appended segments together.
pub proof fn lemma_appended_segments_commit_succeeds(
    m: MutatorView,
    live: TableSnapshotView,
    summaries: Seq<StatisticsView>,
)
    requires
        m.phase is ReadLive,
        live.snapshot_id != m.base.snapshot_id,
        m.base.segments.is_prefix_of(live.segments),
        summaries.len() == live.segments.len() - m.base.segments.len(),
        fits(merge_all(m.compaction.statistics, summaries)),
    ensures
        ({
            let appended = live.segments.subrange(
                m.base.segments.len() as int,
                live.segments.len() as int,
            );
            let (m1, a1) = transition(m, CommitEventView::LiveSnapshot(live));
            let (m2, a2) = transition(m1, CommitEventView::AppendedSummaries(summaries));
            let (m3, a3) = transition(m2, CommitEventView::Published);
            &&& a1 == CommitActionView::ReadSummaries(appended)
            &&& a2 matches CommitActionView::Publish { expected_prev, snapshot }
            &&& a2->expected_prev == live.snapshot_id
            &&& a2->snapshot.segments == m.compaction.segments_locations + appended
            &&& a2->snapshot.segments.len() == m.compaction.segments_locations.len()
                + appended.len()
            &&& a2->snapshot.summary == merge_all(m.compaction.statistics, summaries)
            &&& a2->snapshot.summary.block_count == m.compaction.statistics.block_count
                + total_block_count(summaries)
            &&& a2->snapshot.summary.row_count == m.compaction.statistics.row_count
                + total_row_count(summaries)
            &&& m3.phase is Success
            &&& a3 is Finished
        }),
{
    lemma_merge_all_counts(m.compaction.statistics, summaries);
}

/// Where a segment that the compaction was planned on is gone from the live
/// snapshot, replaced or moved, as after a competing compaction, the commit
/// fails with a storage conflict. From then on the attempt asks for no
/// publish, whatever it is told: the live snapshot stays as the other writer
/// left it.
pub proof fn lemma_replaced_segments_fail_commit(
    m: MutatorView,
    live: TableSnapshotView,
    later: CommitEventView,
)
    requires
        m.phase is ReadLive,
        live.snapshot_id != m.base.snapshot_id,
        !m.base.segments.is_prefix_of(live.segments),
    ensures
        ({
            let (m1, a1) = transition(m, CommitEventView::LiveSnapshot(live));
            let (m2, a2) = transition(m1, later);
            &&& a1 == CommitActionView::Fail(ErrorKind::StorageConflict)
            &&& m1 == in_phase(m, CommitPhaseView::ConflictError)
            &&& m2 == m1
            &&& a2 == CommitActionView::Fail(ErrorKind::Internal)
        }),
{
}

/// An attempt that has ended stays as it is and asks for nothing more.
pub proof fn lemma_finished_attempt_is_final(m: MutatorView, e: CommitEventView)
    requires
        m.phase is Success || m.phase is ConflictError,
    ensures
        transition(m, e) == (m, CommitActionView::Fail(ErrorKind::Internal)),
{
}

/// A publish is only ever asked for over the snapshot that was just read,
/// and only when every segment of the base is still in place in it.
pub proof fn lemma_publish_needs_base_in_place(m: MutatorView, live: TableSnapshotView)
    requires
        m.phase is ReadLive,
        transition(m, CommitEventView::LiveSnapshot(live)).1 is Publish || transition(
            m,
            CommitEventView::LiveSnapshot(live),
        ).1 is ReadSummaries,
    ensures
        live.snapshot_id == m.base.snapshot_id || m.base.segments.is_prefix_of(live.segments),
{
}

/// A lost race leads to a new attempt while the budget lasts, and to a
/// storage conflict once it is used up.
pub proof fn lemma_lost_race_is_bounded(m: MutatorView)
    requires
        m.phase is AtomicPublish,
    ensures
        ({
            let (m1, a1) = transition(m, CommitEventView::LostRace);
            if m.retries_left > 0 {
                &&& m1.phase is ReadLive
                &&& m1.retries_left == m.retries_left - 1
                &&& a1 is ReadLiveSnapshot
            } else {
                &&& m1.phase is ConflictError
                &&& a1 == CommitActionView::Fail(ErrorKind::StorageConflict)
            }
        }),
{
}

} // verus!
