//! The segment accumulator: a single greedy pass that regroups consecutive
//! segments into fewer, larger ones without touching their blocks.

use vstd::prelude::*;

use crate::error::ErrorCode;
use crate::error::ErrorKind;
use crate::meta::blocks_view;
use crate::meta::fold_blocks;
use crate::meta::lemma_fold_concat;
use crate::meta::lemma_fold_fits_range;
use crate::meta::BlockMeta;
use crate::meta::BlockMetaView;
use crate::meta::Location;
use crate::meta::LocationView;
use crate::meta::SegmentInfo;
use crate::statistics::fits;
use crate::statistics::merge;
use crate::statistics::merge_statistics;
use crate::statistics::Statistics;

verus! {

/// One segment of the compacted table.
#[derive(Debug)]
pub enum CompactedSegment {
    /// A segment of the table, left where it is.
    Kept { location: Location, segment: SegmentInfo },
    /// Several consecutive segments of the table merged into one that has yet to be written.
    Merged { segment: SegmentInfo },
}

/// Mathematical value of a `CompactedSegment`.
pub enum CompactedSegmentView {
    Kept { location: LocationView, blocks: Seq<BlockMetaView> },
    Merged { blocks: Seq<BlockMetaView> },
}

impl View for CompactedSegment {
    type V = CompactedSegmentView;

    open spec fn view(&self) -> CompactedSegmentView {
        match self {
            CompactedSegment::Kept { location, segment } => CompactedSegmentView::Kept {
                location: location@,
                blocks: segment@.blocks,
            },
            CompactedSegment::Merged { segment } => CompactedSegmentView::Merged {
                blocks: segment@.blocks,
            },
        }
    }
}

impl CompactedSegment {
    /// The segment held is well formed.
    pub open spec fn wf(&self) -> bool {
        match self {
            CompactedSegment::Kept { location, segment } => segment.wf(),
            CompactedSegment::Merged { segment } => segment.wf(),
        }
    }

    /// The segment that this entry stands for.
    pub fn segment(&self) -> (s: &SegmentInfo)
        ensures
            s@.blocks == entry_blocks(self@),
            self.wf() ==> s.wf(),
    {
        match self {
            CompactedSegment::Kept { location, segment } => segment,
            CompactedSegment::Merged { segment } => segment,
        }
    }

    /// Whether this entry is a merged segment that has yet to be written.
    pub fn is_merged(&self) -> (b: bool)
        ensures
            b == (self@ is Merged),
    {
        match self {
            CompactedSegment::Kept { .. } => false,
            CompactedSegment::Merged { .. } => true,
        }
    }
}

/// The views of a sequence of compacted segments.
pub open spec fn entries_view(s: Seq<CompactedSegment>) -> Seq<CompactedSegmentView> {
    Seq::new(s.len(), |i: int| s[i]@)
}

/// The blocks of one compacted segment.
pub open spec fn entry_blocks(e: CompactedSegmentView) -> Seq<BlockMetaView> {
    match e {
        CompactedSegmentView::Kept { location, blocks } => blocks,
        CompactedSegmentView::Merged { blocks } => blocks,
    }
}

/// The blocks of a list of compacted segments, read end to end.
pub open spec fn entries_blocks(es: Seq<CompactedSegmentView>) -> Seq<BlockMetaView>
    decreases es.len(),
{
    if es.len() == 0 {
        Seq::empty()
    } else {
        entries_blocks(es.drop_last()) + entry_blocks(es.last())
    }
}

/// Which segments of the table the pending group is made of.
pub enum PendingMembersView {
    /// No segment has joined the group.
    Nobody,
    /// Exactly one segment has joined; this is where it is stored.
    Single(LocationView),
    /// Two or more segments have joined.
    Several,
}

/// The pending group: consecutive segments of the table that are not yet closed.
pub struct PendingView {
    pub members: PendingMembersView,
    pub blocks: Seq<BlockMetaView>,
}

/// Mathematical value of a `SegmentAccumulator`.
pub struct AccumulatorView {
    pub threshold: u64,
    pub pending: PendingView,
    pub closed: Seq<CompactedSegmentView>,
}

/// The pending group that nobody has joined.
pub open spec fn empty_pending() -> PendingView {
    PendingView { members: PendingMembersView::Nobody, blocks: Seq::empty() }
}

/// The state before any segment was added.
pub open spec fn initial(threshold: u64) -> AccumulatorView {
    AccumulatorView { threshold, pending: empty_pending(), closed: Seq::empty() }
}

/// The pending group after one more segment has joined it.
pub open spec fn join(p: PendingView, blocks: Seq<BlockMetaView>, location: LocationView) -> PendingView {
    PendingView {
        members: match p.members {
            PendingMembersView::Nobody => PendingMembersView::Single(location),
            _ => PendingMembersView::Several,
        },
        blocks: p.blocks + blocks,
    }
}

/// Closing a group. A group without blocks leaves no trace; a group of one
/// segment keeps that segment where it is; a larger group becomes one merged
/// segment.
pub open spec fn close(p: PendingView, closed: Seq<CompactedSegmentView>) -> Seq<
    CompactedSegmentView,
> {
    if p.blocks.len() == 0 {
        closed
    } else {
        match p.members {
            PendingMembersView::Single(location) => closed.push(
                CompactedSegmentView::Kept { location, blocks: p.blocks },
            ),
            _ => closed.push(CompactedSegmentView::Merged { blocks: p.blocks }),
        }
    }
}

/// One step of the pass. A segment with more than twice the threshold closes
/// the pending group and stays as it is. Any other segment joins the pending
/// group, which closes as soon as it holds at least the threshold.
pub open spec fn step(
    s: AccumulatorView,
    blocks: Seq<BlockMetaView>,
    location: LocationView,
) -> AccumulatorView {
    if blocks.len() > 2 * s.threshold {
        AccumulatorView {
            threshold: s.threshold,
            pending: empty_pending(),
            closed: close(s.pending, s.closed).push(CompactedSegmentView::Kept { location, blocks }),
        }
    } else {
        let p = join(s.pending, blocks, location);
        if p.blocks.len() >= s.threshold {
            AccumulatorView {
                threshold: s.threshold,
                pending: empty_pending(),
                closed: close(p, s.closed),
            }
        } else {
            AccumulatorView { threshold: s.threshold, pending: p, closed: s.closed }
        }
    }
}

/// A step that takes no part in the regrouping: the pending group is
/// closed, and the segment stays as it is unless it is empty.
pub open spec fn step_keep(
    s: AccumulatorView,
    blocks: Seq<BlockMetaView>,
    location: LocationView,
) -> AccumulatorView {
    AccumulatorView {
        threshold: s.threshold,
        pending: empty_pending(),
        closed: if blocks.len() == 0 {
            close(s.pending, s.closed)
        } else {
            close(s.pending, s.closed).push(CompactedSegmentView::Kept { location, blocks })
        },
    }
}

/// The compacted segments once the input has ended: what is pending is closed.
pub open spec fn finish(s: AccumulatorView) -> Seq<CompactedSegmentView> {
    close(s.pending, s.closed)
}

impl AccumulatorView {
    /// Every block added so far, in the order of arrival.
    pub open spec fn all_blocks(self) -> Seq<BlockMetaView> {
        entries_blocks(self.closed) + self.pending.blocks
    }
}

/// The blocks of a list with one more entry.
pub proof fn lemma_entries_blocks_push(es: Seq<CompactedSegmentView>, e: CompactedSegmentView)
    ensures
        entries_blocks(es.push(e)) == entries_blocks(es) + entry_blocks(e),
{
    assert(es.push(e).drop_last() =~= es);
    assert(es.push(e).last() == e);
}

/// Closing a group moves its blocks behind those already closed.
pub proof fn lemma_close_blocks(p: PendingView, closed: Seq<CompactedSegmentView>)
    ensures
        entries_blocks(close(p, closed)) == entries_blocks(closed) + p.blocks,
{
    if p.blocks.len() == 0 {
        assert(entries_blocks(closed) + p.blocks =~= entries_blocks(closed));
    } else {
        match p.members {
            PendingMembersView::Single(location) => {
                lemma_entries_blocks_push(
                    closed,
                    CompactedSegmentView::Kept { location, blocks: p.blocks },
                );
            },
            _ => {
                lemma_entries_blocks_push(closed, CompactedSegmentView::Merged { blocks: p.blocks });
            },
        }
    }
}

/// A step appends the blocks of the new segment to those added before, and
/// changes nothing else about them.
pub proof fn lemma_step_blocks(s: AccumulatorView, blocks: Seq<BlockMetaView>, location: LocationView)
    ensures
        step(s, blocks, location).all_blocks() == s.all_blocks() + blocks,
        step(s, blocks, location).threshold == s.threshold,
{
    let t = step(s, blocks, location);
    if blocks.len() > 2 * s.threshold {
        lemma_close_blocks(s.pending, s.closed);
        lemma_entries_blocks_push(
            close(s.pending, s.closed),
            CompactedSegmentView::Kept { location, blocks },
        );
        assert(t.all_blocks() =~= s.all_blocks() + blocks);
    } else {
        let p = join(s.pending, blocks, location);
        lemma_close_blocks(p, s.closed);
        assert(t.all_blocks() =~= s.all_blocks() + blocks);
    }
}

/// Keeping a segment appends its blocks to those added before.
pub proof fn lemma_step_keep_blocks(
    s: AccumulatorView,
    blocks: Seq<BlockMetaView>,
    location: LocationView,
)
    ensures
        step_keep(s, blocks, location).all_blocks() == s.all_blocks() + blocks,
        step_keep(s, blocks, location).threshold == s.threshold,
{
    let t = step_keep(s, blocks, location);
    lemma_close_blocks(s.pending, s.closed);
    if blocks.len() > 0 {
        lemma_entries_blocks_push(
            close(s.pending, s.closed),
            CompactedSegmentView::Kept { location, blocks },
        );
    }
    assert(t.all_blocks() =~= s.all_blocks() + blocks);
}

/// Finishing keeps every block that was added, in order.
pub proof fn lemma_finish_blocks(s: AccumulatorView)
    ensures
        entries_blocks(finish(s)) == s.all_blocks(),
{
    lemma_close_blocks(s.pending, s.closed);
}

#[derive(Debug)]
enum PendingMembers {
    Nobody,
    Single(Location),
    Several,
}

impl View for PendingMembers {
    type V = PendingMembersView;

    closed spec fn view(&self) -> PendingMembersView {
        match self {
            PendingMembers::Nobody => PendingMembersView::Nobody,
            PendingMembers::Single(location) => PendingMembersView::Single(location@),
            PendingMembers::Several => PendingMembersView::Several,
        }
    }
}

/// Regroups the segments of a table, fed one by one in table order.
#[derive(Debug)]
pub struct SegmentAccumulator {
    threshold: u64,
    members: PendingMembers,
    pending_blocks: Vec<BlockMeta>,
    pending_summary: Statistics,
    closed: Vec<CompactedSegment>,
    total: Statistics,
}

impl View for SegmentAccumulator {
    type V = AccumulatorView;

    closed spec fn view(&self) -> AccumulatorView {
        AccumulatorView {
            threshold: self.threshold,
            pending: PendingView {
                members: self.members@,
                blocks: blocks_view(self.pending_blocks@),
            },
            closed: entries_view(self.closed@),
        }
    }
}

impl SegmentAccumulator {
    /// The summaries held agree with the blocks held.
    pub closed spec fn wf(&self) -> bool {
        &&& self.pending_summary@ == fold_blocks(blocks_view(self.pending_blocks@))
        &&& self.total@ == fold_blocks(self@.all_blocks())
        &&& forall|i: int| 0 <= i < self.closed@.len() ==> (#[trigger] self.closed@[i]).wf()
    }

    /// An accumulator that closes a group once it holds `threshold` blocks.
    pub fn new(threshold: u64) -> (acc: SegmentAccumulator)
        ensures
            acc.wf(),
            acc@ == initial(threshold),
    {
        let acc = SegmentAccumulator {
            threshold,
            members: PendingMembers::Nobody,
            pending_blocks: Vec::new(),
            pending_summary: Statistics::empty(),
            closed: Vec::new(),
            total: Statistics::empty(),
        };
        assert(acc@.pending.blocks =~= Seq::empty());
        assert(acc@.closed =~= Seq::empty());
        assert(acc@.all_blocks() =~= Seq::empty());
        acc
    }

    /// The threshold that this accumulator was made with.
    pub fn threshold(&self) -> (t: u64)
        ensures
            t == self@.threshold,
    {
        self.threshold
    }

    fn close_pending(&mut self)
        requires
            old(self).wf(),
        ensures
            final(self).wf(),
            final(self)@ == (AccumulatorView {
                threshold: old(self)@.threshold,
                pending: empty_pending(),
                closed: close(old(self)@.pending, old(self)@.closed),
            }),
    {
        let ghost before = self@;
        let mut blocks: Vec<BlockMeta> = Vec::new();
        std::mem::swap(&mut self.pending_blocks, &mut blocks);
        let mut summary = Statistics::empty();
        std::mem::swap(&mut self.pending_summary, &mut summary);
        let mut members = PendingMembers::Nobody;
        std::mem::swap(&mut self.members, &mut members);
        if blocks.len() > 0 {
            let segment = SegmentInfo::assemble(blocks, summary);
            match members {
                PendingMembers::Single(location) => {
                    self.closed.push(CompactedSegment::Kept { location, segment });
                },
                _ => {
                    self.closed.push(CompactedSegment::Merged { segment });
                },
            }
        }
        proof {
            lemma_close_blocks(before.pending, before.closed);
            assert(self@.pending.blocks =~= Seq::empty());
            assert(self@.closed =~= close(before.pending, before.closed));
            assert(self@.all_blocks() =~= before.all_blocks());
        }
    }

    /// Feeds the next segment of the table. Fails with `Internal` exactly when
    /// the summary of all blocks fed so far would not fit in 64-bit counters;
    /// the accumulator is then as it was.
    pub fn add(&mut self, segment: SegmentInfo, location: Location) -> (r: Result<(), ErrorCode>)
        requires
            old(self).wf(),
            segment.wf(),
        ensures
            final(self).wf(),
            r is Ok <==> fits(fold_blocks(old(self)@.all_blocks() + segment@.blocks)),
            r is Ok ==> final(self)@ == step(old(self)@, segment@.blocks, location@),
            r is Err ==> r->Err_0.kind == ErrorKind::Internal && final(self)@ == old(self)@,
    {
        let ghost before = self@;
        let ghost added = segment@.blocks;
        proof {
            lemma_fold_concat(before.all_blocks(), added);
            lemma_step_blocks(before, added, location@);
        }
        let total = match merge_statistics(&self.total, segment.summary()) {
            Ok(t) => t,
            Err(e) => {
                return Err(e);
            },
        };
        let n: usize = segment.block_count();
        if n as u128 > 2 * (self.threshold as u128) {
            self.close_pending();
            self.closed.push(CompactedSegment::Kept { location, segment });
            self.total = total;
            proof {
                assert(self@.closed =~= close(before.pending, before.closed).push(
                    CompactedSegmentView::Kept { location: location@, blocks: added },
                ));
                assert(self@.pending.blocks =~= Seq::empty());
            }
            return Ok(());
        }
        let (mut blocks, summary) = segment.into_parts();
        proof {
            let everything = before.all_blocks() + added;
            let start = entries_blocks(before.closed).len() as int;
            assert(everything.subrange(start, everything.len() as int) =~= before.pending.blocks
                + added);
            lemma_fold_fits_range(everything, start, everything.len() as int);
            lemma_fold_concat(before.pending.blocks, added);
        }
        let joined = match merge_statistics(&self.pending_summary, &summary) {
            Ok(s) => s,
            Err(e) => {
                return Err(e);
            },
        };
        self.pending_summary = joined;
        self.pending_blocks.append(&mut blocks);
        let mut members = PendingMembers::Several;
        std::mem::swap(&mut self.members, &mut members);
        match members {
            PendingMembers::Nobody => {
                self.members = PendingMembers::Single(location);
            },
            _ => {},
        }
        self.total = total;
        proof {
            assert(self@.pending.blocks =~= before.pending.blocks + added);
            assert(self@.pending == join(before.pending, added, location@));
            assert(self@.all_blocks() =~= before.all_blocks() + added);
        }
        if self.pending_blocks.len() as u128 >= self.threshold as u128 {
            self.close_pending();
        }
        Ok(())
    }

    /// Feeds the next segment of the table without regrouping it: the
    /// pending group is closed, and the segment stays as it is unless it is
    /// empty. Fails as `add` does.
    pub fn keep(&mut self, segment: SegmentInfo, location: Location) -> (r: Result<(), ErrorCode>)
        requires
            old(self).wf(),
            segment.wf(),
        ensures
            final(self).wf(),
            r is Ok <==> fits(fold_blocks(old(self)@.all_blocks() + segment@.blocks)),
            r is Ok ==> final(self)@ == step_keep(old(self)@, segment@.blocks, location@),
            r is Err ==> r->Err_0.kind == ErrorKind::Internal && final(self)@ == old(self)@,
    {
        let ghost before = self@;
        let ghost added = segment@.blocks;
        proof {
            lemma_fold_concat(before.all_blocks(), added);
            lemma_step_keep_blocks(before, added, location@);
        }
        let total = match merge_statistics(&self.total, segment.summary()) {
            Ok(t) => t,
            Err(e) => {
                return Err(e);
            },
        };
        self.close_pending();
        if segment.block_count() > 0 {
            self.closed.push(CompactedSegment::Kept { location, segment });
            proof {
                assert(self@.closed =~= close(before.pending, before.closed).push(
                    CompactedSegmentView::Kept { location: location@, blocks: added },
                ));
            }
        }
        self.total = total;
        proof {
            assert(self@.pending.blocks =~= Seq::empty());
        }
        Ok(())
    }

    /// Ends the pass: what is pending is closed, and the plan is handed out.
    pub fn finalize(self) -> (plan: CompactionPlan)
        requires
            self.wf(),
        ensures
            plan.wf(),
            plan@.entries == finish(self@),
            plan@.statistics == fold_blocks(self@.all_blocks()),
    {
        let mut acc = self;
        acc.close_pending();
        proof {
            lemma_finish_blocks(self@);
            assert(acc@.all_blocks() =~= entries_blocks(acc@.closed));
        }
        CompactionPlan { entries: acc.closed, statistics: acc.total }
    }
}

/// What a pass decided: the segments of the compacted table in order, and
/// the summary of all their blocks. Merged segments have yet to be written.
#[derive(Debug)]
pub struct CompactionPlan {
    entries: Vec<CompactedSegment>,
    statistics: Statistics,
}

/// Mathematical value of a `CompactionPlan`.
pub struct CompactionPlanView {
    pub entries: Seq<CompactedSegmentView>,
    pub statistics: crate::statistics::StatisticsView,
}

impl View for CompactionPlan {
    type V = CompactionPlanView;

    closed spec fn view(&self) -> CompactionPlanView {
        CompactionPlanView { entries: entries_view(self.entries@), statistics: self.statistics@ }
    }
}

/// The result of a compaction, as the commit takes it.
#[derive(Debug)]
pub struct SegmentCompactionState {
    /// Paths of the segments that the compaction wrote.
    pub new_segment_paths: Vec<String>,
    /// The segments of the compacted table, new and untouched, in table order.
    pub segments_locations: Vec<Location>,
    /// Summary of all blocks of the compacted table.
    pub statistics: Statistics,
}

/// Mathematical value of a `SegmentCompactionState`.
pub struct SegmentCompactionStateView {
    pub new_segment_paths: Seq<Seq<char>>,
    pub segments_locations: Seq<LocationView>,
    pub statistics: crate::statistics::StatisticsView,
}

/// The views of a sequence of paths.
pub open spec fn paths_view(s: Seq<String>) -> Seq<Seq<char>> {
    Seq::new(s.len(), |i: int| s[i]@)
}

impl View for SegmentCompactionState {
    type V = SegmentCompactionStateView;

    open spec fn view(&self) -> SegmentCompactionStateView {
        SegmentCompactionStateView {
            new_segment_paths: paths_view(self.new_segment_paths@),
            segments_locations: crate::meta::locations_view(self.segments_locations@),
            statistics: self.statistics@,
        }
    }
}

/// The number of merged segments among the entries.
pub open spec fn merged_count(es: Seq<CompactedSegmentView>) -> nat
    decreases es.len(),
{
    if es.len() == 0 {
        0
    } else {
        merged_count(es.drop_last()) + (if es.last() is Merged { 1nat } else { 0nat })
    }
}

/// The locations of the compacted table once the merged segments are
/// written: a kept segment is where it was, and the k-th merged segment is
/// where the k-th write put it.
pub open spec fn placed(es: Seq<CompactedSegmentView>, written: Seq<LocationView>) -> Seq<
    LocationView,
>
    decreases es.len(),
{
    if es.len() == 0 {
        Seq::empty()
    } else {
        placed(es.drop_last(), written).push(
            match es.last() {
                CompactedSegmentView::Kept { location, blocks } => location,
                CompactedSegmentView::Merged { blocks } => written[merged_count(es.drop_last()) as int],
            },
        )
    }
}

/// The paths of a sequence of locations.
pub open spec fn paths_of(ls: Seq<LocationView>) -> Seq<Seq<char>> {
    Seq::new(ls.len(), |i: int| ls[i].path)
}

/// Placing keeps the order of the plan: there is one location for each
/// entry, a kept segment is where it was, and a merged segment is at one of
/// the locations that were written.
pub proof fn lemma_placed(es: Seq<CompactedSegmentView>, written: Seq<LocationView>)
    requires
        written.len() == merged_count(es),
    ensures
        placed(es, written).len() == es.len(),
        forall|i: int|
            0 <= i < es.len() ==> match #[trigger] es[i] {
                CompactedSegmentView::Kept { location, blocks } => placed(es, written)[i]
                    == location,
                CompactedSegmentView::Merged { blocks } => {
                    &&& 0 <= merged_count(es.subrange(0, i)) < written.len()
                    &&& placed(es, written)[i] == written[merged_count(es.subrange(0, i)) as int]
                },
            },
{
    lemma_placed_prefix(es, written);
    assert forall|i: int| 0 <= i < es.len() && (#[trigger] es[i]) is Merged implies merged_count(
        es.subrange(0, i),
    ) < written.len() by {
        lemma_merged_count_prefix(es, i + 1);
        assert(es.subrange(0, i + 1).drop_last() =~= es.subrange(0, i));
        assert(es.subrange(0, i + 1).last() == es[i]);
    }
}

/// Placing a list that needs no more locations than there are.
pub proof fn lemma_placed_prefix(es: Seq<CompactedSegmentView>, written: Seq<LocationView>)
    requires
        merged_count(es) <= written.len(),
    ensures
        placed(es, written).len() == es.len(),
        forall|i: int|
            0 <= i < es.len() ==> match #[trigger] es[i] {
                CompactedSegmentView::Kept { location, blocks } => placed(es, written)[i]
                    == location,
                CompactedSegmentView::Merged { blocks } => placed(es, written)[i]
                    == written[merged_count(es.subrange(0, i)) as int],
            },
    decreases es.len(),
{
    if es.len() > 0 {
        let head = es.drop_last();
        assert(es.subrange(0, es.len() - 1) =~= head);
        lemma_placed_prefix(head, written);
        assert forall|i: int| 0 <= i < es.len() implies match #[trigger] es[i] {
            CompactedSegmentView::Kept { location, blocks } => placed(es, written)[i] == location,
            CompactedSegmentView::Merged { blocks } => placed(es, written)[i]
                == written[merged_count(es.subrange(0, i)) as int],
        } by {
            if i < es.len() - 1 {
                assert(es[i] == head[i]);
                assert(es.subrange(0, i) =~= head.subrange(0, i));
            }
        }
    }
}

/// The merged count of a prefix never exceeds that of the whole.
pub proof fn lemma_merged_count_prefix(es: Seq<CompactedSegmentView>, k: int)
    requires
        0 <= k <= es.len(),
    ensures
        merged_count(es.subrange(0, k)) <= merged_count(es),
    decreases es.len() - k,
{
    if k == es.len() {
        assert(es.subrange(0, k) =~= es);
    } else {
        lemma_merged_count_prefix(es, k + 1);
        assert(es.subrange(0, k + 1).drop_last() =~= es.subrange(0, k));
    }
}

impl CompactionPlan {
    /// Each entry is well formed, and the summary is that of all their blocks.
    pub closed spec fn wf(&self) -> bool {
        &&& self.statistics@ == fold_blocks(entries_blocks(entries_view(self.entries@)))
        &&& forall|i: int| 0 <= i < self.entries@.len() ==> (#[trigger] self.entries@[i]).wf()
    }

    /// The segments of the compacted table, in table order.
    pub fn entries(&self) -> (es: &Vec<CompactedSegment>)
        ensures
            entries_view(es@) == self@.entries,
            self.wf() ==> forall|i: int| 0 <= i < es@.len() ==> (#[trigger] es@[i]).wf(),
    {
        &self.entries
    }

    /// The summary of all blocks of the compacted table.
    pub fn statistics(&self) -> (s: &Statistics)
        ensures
            s@ == self@.statistics,
    {
        &self.statistics
    }

    /// The number of merged segments that have to be written.
    pub fn merged_len(&self) -> (n: usize)
        ensures
            n == merged_count(self@.entries),
    {
        let ghost es = entries_view(self.entries@);
        let mut n: usize = 0;
        let mut i: usize = 0;
        while i < self.entries.len()
            invariant
                i <= self.entries@.len(),
                es == entries_view(self.entries@),
                n == merged_count(es.subrange(0, i as int)),
                n <= i,
            decreases self.entries@.len() - i,
        {
            proof {
                assert(es.subrange(0, i + 1).drop_last() =~= es.subrange(0, i as int));
                assert(es.subrange(0, i + 1).last() == self.entries@[i as int]@);
            }
            if self.entries[i].is_merged() {
                n += 1;
            }
            i += 1;
        }
        assert(es.subrange(0, i as int) =~= es);
        n
    }

    /// Turns the plan into the state that a commit takes, given where each
    /// merged segment was written, in the order of the plan. Fails with
    /// `IllegalInput` exactly when the number of locations is not the number
    /// of merged segments.
    pub fn into_state(self, written: Vec<Location>) -> (r: Result<
        SegmentCompactionState,
        ErrorCode,
    >)
        ensures
            r is Ok <==> written@.len() == merged_count(self@.entries),
            r is Ok ==> r->Ok_0@ == (SegmentCompactionStateView {
                new_segment_paths: paths_of(crate::meta::locations_view(written@)),
                segments_locations: placed(self@.entries, crate::meta::locations_view(written@)),
                statistics: self@.statistics,
            }),
            r is Err ==> r->Err_0.kind == ErrorKind::IllegalInput,
    {
        if written.len() != self.merged_len() {
            return Err(
                ErrorCode::new(
                    ErrorKind::IllegalInput,
                    "one location is needed for each merged segment",
                ),
            );
        }
        let ghost es = entries_view(self.entries@);
        let ghost wv = crate::meta::locations_view(written@);
        let mut paths: Vec<String> = Vec::new();
        let mut j: usize = 0;
        while j < written.len()
            invariant
                j <= written@.len(),
                paths@.len() == j,
                forall|k: int| 0 <= k < j ==> (#[trigger] paths@[k])@ == written@[k]@.path,
            decreases written@.len() - j,
        {
            paths.push(written[j].path.clone());
            j += 1;
        }
        let mut locations: Vec<Location> = Vec::new();
        let mut used: usize = 0;
        let mut i: usize = 0;
        while i < self.entries.len()
            invariant
                i <= self.entries@.len(),
                es == entries_view(self.entries@),
                wv == crate::meta::locations_view(written@),
                written@.len() == merged_count(es),
                used == merged_count(es.subrange(0, i as int)),
                crate::meta::locations_view(locations@) == placed(es.subrange(0, i as int), wv),
            decreases self.entries@.len() - i,
        {
            proof {
                assert(es.subrange(0, i + 1).drop_last() =~= es.subrange(0, i as int));
                assert(es.subrange(0, i + 1).last() == self.entries@[i as int]@);
                lemma_merged_count_prefix(es, i + 1);
            }
            let ghost before = crate::meta::locations_view(locations@);
            match &self.entries[i] {
                CompactedSegment::Kept { location, segment } => {
                    locations.push(location.duplicate());
                    assert(crate::meta::locations_view(locations@) =~= before.push(location@));
                },
                CompactedSegment::Merged { segment } => {
                    assert(self.entries@[i as int]@ is Merged);
                    assert(merged_count(es.subrange(0, i + 1)) == used + 1);
                    assert(used < written.len());
                    locations.push(written[used].duplicate());
                    assert(crate::meta::locations_view(locations@) =~= before.push(
                        wv[used as int],
                    ));
                    used += 1;
                },
            }
            i += 1;
        }
        assert(es.subrange(0, i as int) =~= es);
        let state = SegmentCompactionState {
            new_segment_paths: paths,
            segments_locations: locations,
            statistics: self.statistics,
        };
        assert(state@.new_segment_paths =~= paths_of(wv));
        Ok(state)
    }
}

/// One segment of the table before compaction: its blocks and where it is stored.
pub struct SegmentInput {
    pub blocks: Seq<BlockMetaView>,
    pub location: LocationView,
}

/// The segments handed to a compaction, as mathematical values.
pub open spec fn inputs_view(s: Seq<(SegmentInfo, Location)>) -> Seq<SegmentInput> {
    Seq::new(s.len(), |i: int| SegmentInput { blocks: s[i].0@.blocks, location: s[i].1@ })
}

/// The blocks of the table before compaction, read end to end.
pub open spec fn inputs_blocks(inputs: Seq<SegmentInput>) -> Seq<BlockMetaView>
    decreases inputs.len(),
{
    if inputs.len() == 0 {
        Seq::empty()
    } else {
        inputs_blocks(inputs.drop_last()) + inputs.last().blocks
    }
}

/// Whether the segment at `index` is one of those that a compaction with
/// the given limit regroups: without a limit every segment is, with a limit
/// the segments at the head of the table, as many as the limit says.
pub open spec fn within_limit(limit: Option<usize>, index: int) -> bool {
    match limit {
        Some(l) => index < l,
        None => true,
    }
}

/// The state of the pass after the given segments were fed in order. The
/// segments within the limit are regrouped, the others are kept.
pub open spec fn run(threshold: u64, inputs: Seq<SegmentInput>, limit: Option<usize>) -> AccumulatorView
    decreases inputs.len(),
{
    if inputs.len() == 0 {
        initial(threshold)
    } else {
        let before = run(threshold, inputs.drop_last(), limit);
        if within_limit(limit, inputs.len() - 1) {
            step(before, inputs.last().blocks, inputs.last().location)
        } else {
            step_keep(before, inputs.last().blocks, inputs.last().location)
        }
    }
}

/// The segments of the compacted table, for a table with the given segments.
pub open spec fn compacted(threshold: u64, inputs: Seq<SegmentInput>, limit: Option<usize>) -> Seq<
    CompactedSegmentView,
> {
    finish(run(threshold, inputs, limit))
}

/// After a run the accumulator holds exactly the blocks of the input, in order.
pub proof fn lemma_run_blocks(threshold: u64, inputs: Seq<SegmentInput>, limit: Option<usize>)
    ensures
        run(threshold, inputs, limit).all_blocks() == inputs_blocks(inputs),
        run(threshold, inputs, limit).threshold == threshold,
    decreases inputs.len(),
{
    if inputs.len() == 0 {
        assert(initial(threshold).all_blocks() =~= Seq::empty());
    } else {
        lemma_run_blocks(threshold, inputs.drop_last(), limit);
        lemma_step_blocks(
            run(threshold, inputs.drop_last(), limit),
            inputs.last().blocks,
            inputs.last().location,
        );
        lemma_step_keep_blocks(
            run(threshold, inputs.drop_last(), limit),
            inputs.last().blocks,
            inputs.last().location,
        );
    }
}

fn reversed(v: Vec<(SegmentInfo, Location)>) -> (r: Vec<(SegmentInfo, Location)>)
    ensures
        r@.len() == v@.len(),
        forall|j: int| 0 <= j < r@.len() ==> #[trigger] r@[j] == v@[v@.len() - 1 - j],
{
    let mut rest = v;
    let mut out: Vec<(SegmentInfo, Location)> = Vec::new();
    while rest.len() > 0
        invariant
            rest@.len() + out@.len() == v@.len(),
            forall|j: int| 0 <= j < rest@.len() ==> #[trigger] rest@[j] == v@[j],
            forall|j: int| 0 <= j < out@.len() ==> #[trigger] out@[j] == v@[v@.len() - 1 - j],
        decreases rest@.len(),
    {
        match rest.pop() {
            Some(x) => {
                out.push(x);
            },
            None => {},
        }
    }
    out
}

/// Compacts the segments of a table, given in table order, in one pass.
/// With a limit, only that many segments at the head of the table are
/// regrouped; the others stay as they are. Fails with `Internal` exactly
/// when the summary of all blocks of the table does not fit in 64-bit
/// counters.
pub fn compact_segments(
    threshold: u64,
    segments: Vec<(SegmentInfo, Location)>,
    limit: Option<usize>,
) -> (r: Result<CompactionPlan, ErrorCode>)
    requires
        forall|i: int| 0 <= i < segments@.len() ==> (#[trigger] segments@[i]).0.wf(),
    ensures
        r is Ok <==> fits(fold_blocks(inputs_blocks(inputs_view(segments@)))),
        r is Ok ==> r->Ok_0.wf() && r->Ok_0@.entries == compacted(
            threshold,
            inputs_view(segments@),
            limit,
        ) && r->Ok_0@.statistics == fold_blocks(inputs_blocks(inputs_view(segments@))),
        r is Err ==> r->Err_0.kind == ErrorKind::Internal,
{
    let ghost inputs = inputs_view(segments@);
    let n: usize = segments.len();
    let mut stack = reversed(segments);
    let mut acc = SegmentAccumulator::new(threshold);
    let mut i: usize = 0;
    while i < n
        invariant
            i <= n,
            n == inputs.len(),
            n == segments@.len(),
            inputs == inputs_view(segments@),
            stack@.len() == n - i,
            forall|j: int| 0 <= j < stack@.len() ==> #[trigger] stack@[j] == segments@[n - 1 - j],
            forall|j: int| 0 <= j < segments@.len() ==> (#[trigger] segments@[j]).0.wf(),
            acc.wf(),
            acc@ == run(threshold, inputs.subrange(0, i as int), limit),
        decreases n - i,
    {
        proof {
            let next = inputs.subrange(0, i + 1);
            assert(next.drop_last() =~= inputs.subrange(0, i as int));
            assert(next.last() == inputs[i as int]);
            lemma_run_blocks(threshold, inputs.subrange(0, i as int), limit);
        }
        match stack.pop() {
            Some(pair) => {
                assert(pair == segments@[i as int]);
                let (segment, location) = pair;
                let regroup = match limit {
                    Some(l) => i < l,
                    None => true,
                };
                let fed = if regroup {
                    acc.add(segment, location)
                } else {
                    acc.keep(segment, location)
                };
                match fed {
                    Ok(()) => {},
                    Err(e) => {
                        proof {
                            let head = inputs.subrange(0, i + 1);
                            let tail = inputs.subrange(i + 1, n as int);
                            assert(inputs =~= head + tail);
                            lemma_inputs_blocks_concat(head, tail);
                            if fits(fold_blocks(inputs_blocks(inputs))) {
                                lemma_fold_fits_range(
                                    inputs_blocks(inputs),
                                    0,
                                    inputs_blocks(head).len() as int,
                                );
                                assert(inputs_blocks(inputs).subrange(
                                    0,
                                    inputs_blocks(head).len() as int,
                                ) =~= inputs_blocks(head));
                            }
                        }
                        return Err(e);
                    },
                }
            },
            None => {},
        }
        i += 1;
    }
    proof {
        assert(inputs.subrange(0, n as int) =~= inputs);
        lemma_run_blocks(threshold, inputs, limit);
    }
    Ok(acc.finalize())
}

/// The blocks of two runs of segments, one after the other.
pub proof fn lemma_inputs_blocks_concat(a: Seq<SegmentInput>, b: Seq<SegmentInput>)
    ensures
        inputs_blocks(a + b) == inputs_blocks(a) + inputs_blocks(b),
    decreases b.len(),
{
    if b.len() == 0 {
        assert(a + b =~= a);
        assert(inputs_blocks(a) + inputs_blocks(b) =~= inputs_blocks(a));
    } else {
        assert((a + b).drop_last() =~= a + b.drop_last());
        assert((a + b).last() == b.last());
        lemma_inputs_blocks_concat(a, b.drop_last());
        assert(inputs_blocks(a) + inputs_blocks(b) =~= (inputs_blocks(a) + inputs_blocks(
            b.drop_last(),
        )) + b.last().blocks);
    }
}

/// Whether a segment with these blocks at this location is among the inputs.
pub open spec fn is_input(
    inputs: Seq<SegmentInput>,
    blocks: Seq<BlockMetaView>,
    location: LocationView,
) -> bool {
    exists|j: int| 0 <= j < inputs.len() && #[trigger] inputs[j] == (SegmentInput { blocks, location })
}

/// What holds of every state that a run can reach.
pub open spec fn reached(s: AccumulatorView, inputs: Seq<SegmentInput>) -> bool {
    &&& forall|i: int| 0 <= i < s.closed.len() ==> entry_blocks(#[trigger] s.closed[i]).len() > 0
    &&& forall|i: int|
        0 <= i < s.closed.len() ==> match #[trigger] s.closed[i] {
            CompactedSegmentView::Kept { location, blocks } => is_input(inputs, blocks, location),
            CompactedSegmentView::Merged { blocks } => true,
        }
    &&& match s.pending.members {
        PendingMembersView::Nobody => s.pending.blocks.len() == 0,
        PendingMembersView::Single(location) => is_input(inputs, s.pending.blocks, location),
        PendingMembersView::Several => true,
    }
}

proof fn lemma_input_stays(
    inputs: Seq<SegmentInput>,
    blocks: Seq<BlockMetaView>,
    location: LocationView,
)
    requires
        inputs.len() > 0,
        is_input(inputs.drop_last(), blocks, location),
    ensures
        is_input(inputs, blocks, location),
{
    let j = choose|j: int|
        0 <= j < inputs.drop_last().len() && #[trigger] inputs.drop_last()[j] == (SegmentInput {
            blocks,
            location,
        });
    assert(inputs[j] == inputs.drop_last()[j]);
}

proof fn lemma_close_reached(p: PendingView, closed: Seq<CompactedSegmentView>, inputs: Seq<SegmentInput>)
    requires
        reached(AccumulatorView { threshold: 0, pending: p, closed }, inputs),
    ensures
        reached(
            AccumulatorView { threshold: 0, pending: empty_pending(), closed: close(p, closed) },
            inputs,
        ),
{
}

/// Every state that a run reaches has the properties of `reached`.
pub proof fn lemma_run_reached(threshold: u64, inputs: Seq<SegmentInput>, limit: Option<usize>)
    ensures
        reached(run(threshold, inputs, limit), inputs),
    decreases inputs.len(),
{
    if inputs.len() > 0 {
        let before = run(threshold, inputs.drop_last(), limit);
        let last = inputs.last();
        let after = run(threshold, inputs, limit);
        lemma_run_reached(threshold, inputs.drop_last(), limit);
        lemma_run_blocks(threshold, inputs.drop_last(), limit);
        assert(inputs[inputs.len() - 1] == (SegmentInput {
            blocks: last.blocks,
            location: last.location,
        }));
        assert(is_input(inputs, last.blocks, last.location));
        assert forall|blocks: Seq<BlockMetaView>, location: LocationView|
            is_input(inputs.drop_last(), blocks, location) implies is_input(
            inputs,
            blocks,
            location,
        ) by {
            lemma_input_stays(inputs, blocks, location);
        }
        assert(reached(before, inputs));
        if !within_limit(limit, inputs.len() - 1) {
            lemma_close_reached(before.pending, before.closed, inputs);
        } else if last.blocks.len() > 2 * before.threshold {
            lemma_close_reached(before.pending, before.closed, inputs);
        } else {
            let p = join(before.pending, last.blocks, last.location);
            if before.pending.members is Nobody {
                assert(p.blocks =~= last.blocks);
            }
            lemma_close_reached(p, before.closed, inputs);
        }
    }
}

/// Compaction is lossless: the blocks of the compacted segments, read end to
/// end, are the blocks of the segments of the table in the order of the table.
/// Nothing is dropped, duplicated or moved past another block.
pub proof fn lemma_compaction_lossless(
    threshold: u64,
    inputs: Seq<SegmentInput>,
    limit: Option<usize>,
)
    ensures
        entries_blocks(compacted(threshold, inputs, limit)) == inputs_blocks(inputs),
        entries_blocks(compacted(threshold, inputs, limit)).to_multiset() == inputs_blocks(
            inputs,
        ).to_multiset(),
{
    lemma_run_blocks(threshold, inputs, limit);
    lemma_finish_blocks(run(threshold, inputs, limit));
}

/// The summary of the compacted table is the merge of the contributions of
/// all blocks of the table.
pub proof fn lemma_compaction_statistics(
    threshold: u64,
    inputs: Seq<SegmentInput>,
    limit: Option<usize>,
)
    ensures
        fold_blocks(entries_blocks(compacted(threshold, inputs, limit))) == fold_blocks(
            inputs_blocks(inputs),
        ),
        fold_blocks(entries_blocks(compacted(threshold, inputs, limit))).block_count == inputs_blocks(
            inputs,
        ).len(),
{
    lemma_compaction_lossless(threshold, inputs, limit);
    crate::meta::lemma_fold_block_count(inputs_blocks(inputs));
}

/// No segment of the compacted table is empty: a segment without blocks is
/// merged into its neighbours or left out, and never stands alone.
pub proof fn lemma_compaction_has_no_empty_segment(
    threshold: u64,
    inputs: Seq<SegmentInput>,
    limit: Option<usize>,
)
    ensures
        forall|i: int|
            0 <= i < compacted(threshold, inputs, limit).len() ==> entry_blocks(
                #[trigger] compacted(threshold, inputs, limit)[i],
            ).len() > 0,
{
    lemma_run_reached(threshold, inputs, limit);
    let s = run(threshold, inputs, limit);
    lemma_close_reached(s.pending, s.closed, inputs);
}

/// A segment that the compacted table keeps is one of the segments fed, with
/// the same blocks at the same location.
pub proof fn lemma_kept_segments_are_inputs(
    threshold: u64,
    inputs: Seq<SegmentInput>,
    limit: Option<usize>,
)
    ensures
        forall|i: int|
            0 <= i < compacted(threshold, inputs, limit).len() ==> match #[trigger] compacted(
                threshold,
                inputs,
                limit,
            )[i] {
                CompactedSegmentView::Kept { location, blocks } => is_input(
                    inputs,
                    blocks,
                    location,
                ),
                CompactedSegmentView::Merged { blocks } => true,
            },
{
    lemma_run_reached(threshold, inputs, limit);
    let s = run(threshold, inputs, limit);
    lemma_close_reached(s.pending, s.closed, inputs);
}

/// What holds of the sizes in every state that a run can reach.
pub open spec fn bounded(s: AccumulatorView) -> bool {
    &&& s.pending.blocks.len() == 0 || s.pending.blocks.len() < s.threshold
    &&& forall|i: int|
        0 <= i < s.closed.len() && (#[trigger] s.closed[i]) is Merged ==> entry_blocks(
            s.closed[i],
        ).len() < 3 * s.threshold
}

/// Every state that a run reaches has the properties of `bounded`.
pub proof fn lemma_run_bounded(threshold: u64, inputs: Seq<SegmentInput>, limit: Option<usize>)
    ensures
        bounded(run(threshold, inputs, limit)),
        run(threshold, inputs, limit).threshold == threshold,
    decreases inputs.len(),
{
    if inputs.len() > 0 {
        lemma_run_bounded(threshold, inputs.drop_last(), limit);
    }
}

/// Merged segments stay near the threshold: a merged segment holds fewer
/// than three times as many blocks as the threshold says.
pub proof fn lemma_merged_segments_are_bounded(
    threshold: u64,
    inputs: Seq<SegmentInput>,
    limit: Option<usize>,
)
    ensures
        forall|i: int|
            0 <= i < compacted(threshold, inputs, limit).len() && (#[trigger] compacted(
                threshold,
                inputs,
                limit,
            )[i]) is Merged ==> entry_blocks(compacted(threshold, inputs, limit)[i]).len() < 3
                * threshold,
{
    lemma_run_bounded(threshold, inputs, limit);
}

/// What a compaction regroups.
#[derive(Clone, Copy, Debug, PartialEq, Eq, Structural)]
pub enum CompactTarget {
    /// The blocks inside the segments. This engine leaves blocks as they are.
    Blocks,
    /// The segments of the table.
    Segments,
}

/// Looks at the command before anything is read: a command that asks for
/// blocks to be compacted is refused with `IllegalInput`.
pub fn check_target(target: CompactTarget) -> (r: Result<(), ErrorCode>)
    ensures
        r is Ok <==> target == CompactTarget::Segments,
        r is Err ==> r->Err_0.kind == ErrorKind::IllegalInput,
{
    match target {
        CompactTarget::Blocks => Err(
            ErrorCode::new(ErrorKind::IllegalInput, "only segments can be compacted"),
        ),
        CompactTarget::Segments => Ok(()),
    }
}

/// Plans the compaction that a command asks for, on the segments of the
/// table in table order. A command that asks for blocks to be compacted is
/// refused with `IllegalInput`. Where no segment would be written there is
/// nothing to do and no plan. Fails with `Internal` when the summary of all
/// blocks of the table does not fit in 64-bit counters.
pub fn plan_compaction(
    target: CompactTarget,
    threshold: u64,
    segments: Vec<(SegmentInfo, Location)>,
    limit: Option<usize>,
) -> (r: Result<Option<CompactionPlan>, ErrorCode>)
    requires
        forall|i: int| 0 <= i < segments@.len() ==> (#[trigger] segments@[i]).0.wf(),
    ensures
        r is Ok <==> target == CompactTarget::Segments && fits(
            fold_blocks(inputs_blocks(inputs_view(segments@))),
        ),
        r is Err ==> r->Err_0.kind == (if target == CompactTarget::Blocks {
            ErrorKind::IllegalInput
        } else {
            ErrorKind::Internal
        }),
        r is Ok ==> (r->Ok_0 is Some <==> merged_count(
            compacted(threshold, inputs_view(segments@), limit),
        ) > 0),
        r is Ok && r->Ok_0 is Some ==> {
            let plan = r->Ok_0->Some_0;
            &&& plan.wf()
            &&& plan@.entries == compacted(threshold, inputs_view(segments@), limit)
            &&& plan@.statistics == fold_blocks(inputs_blocks(inputs_view(segments@)))
        },
{
    match check_target(target) {
        Err(e) => Err(e),
        Ok(()) => {
            match compact_segments(threshold, segments, limit) {
                Ok(plan) => {
                    if plan.merged_len() == 0 {
                        Ok(None)
                    } else {
                        Ok(Some(plan))
                    }
                },
                Err(e) => Err(e),
            }
        },
    }
}

} // verus!
