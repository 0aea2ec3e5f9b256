//! Blocks, segments and the locations that identify them.

use vstd::prelude::*;

use crate::error::ErrorCode;
use crate::error::ErrorKind;
use crate::statistics::columns_view;
use crate::statistics::empty_statistics;
use crate::statistics::fits;
use crate::statistics::lemma_merge_associative;
use crate::statistics::lemma_merge_empty;
use crate::statistics::lemma_merge_fits_parts;
use crate::statistics::merge;
use crate::statistics::merge_statistics;
use crate::statistics::ColumnStatistics;
use crate::statistics::ColumnStatisticsView;
use crate::statistics::Statistics;
use crate::statistics::StatisticsView;

verus! {

/// Where an object is stored: its path and the version of its format.
#[derive(Clone, Debug, PartialEq, Eq)]
pub struct Location {
    pub path: String,
    pub version: u64,
}

/// Mathematical value of a `Location`.
pub struct LocationView {
    pub path: Seq<char>,
    pub version: u64,
}

impl View for Location {
    type V = LocationView;

    open spec fn view(&self) -> LocationView {
        LocationView { path: self.path@, version: self.version }
    }
}

/// The views of a sequence of locations.
pub open spec fn locations_view(s: Seq<Location>) -> Seq<LocationView> {
    Seq::new(s.len(), |i: int| s[i]@)
}

impl Location {
    /// The location with the given path and format version.
    pub fn new(path: String, version: u64) -> (l: Location)
        ensures
            l@ == (LocationView { path: path@, version }),
    {
        Location { path, version }
    }

    /// A copy of this location.
    pub fn duplicate(&self) -> (r: Location)
        ensures
            r@ == self@,
    {
        Location { path: self.path.clone(), version: self.version }
    }

    /// Whether two locations name the same object.
    pub fn same_as(&self, other: &Location) -> (r: bool)
        ensures
            r == (self@ == other@),
    {
        self.version == other.version && self.path == other.path
    }
}

/// The record of one stored data block. It is written once and never changed.
#[derive(Clone, Debug, PartialEq, Eq)]
pub struct BlockMeta {
    pub row_count: u64,
    pub block_size: u64,
    pub file_size: u64,
    pub col_stats: Vec<ColumnStatistics>,
    pub location: Location,
    pub bloom_filter_index_size: u64,
}

/// Mathematical value of a `BlockMeta`.
pub struct BlockMetaView {
    pub row_count: nat,
    pub block_size: nat,
    pub file_size: nat,
    pub col_stats: Seq<ColumnStatisticsView>,
    pub location: LocationView,
    pub bloom_filter_index_size: nat,
}

impl View for BlockMeta {
    type V = BlockMetaView;

    open spec fn view(&self) -> BlockMetaView {
        BlockMetaView {
            row_count: self.row_count as nat,
            block_size: self.block_size as nat,
            file_size: self.file_size as nat,
            col_stats: columns_view(self.col_stats@),
            location: self.location@,
            bloom_filter_index_size: self.bloom_filter_index_size as nat,
        }
    }
}

/// The views of a sequence of blocks, in the same order.
pub open spec fn blocks_view(s: Seq<BlockMeta>) -> Seq<BlockMetaView> {
    Seq::new(s.len(), |i: int| s[i]@)
}

/// What one block contributes to a summary.
pub open spec fn block_summary(b: BlockMetaView) -> StatisticsView {
    StatisticsView {
        row_count: b.row_count,
        block_count: 1,
        uncompressed_byte_size: b.block_size,
        compressed_byte_size: b.file_size,
        index_size: b.bloom_filter_index_size,
        col_stats: b.col_stats,
    }
}

/// The summary of a sequence of blocks: their contributions merged in order.
pub open spec fn fold_blocks(blocks: Seq<BlockMetaView>) -> StatisticsView
    decreases blocks.len(),
{
    if blocks.len() == 0 {
        empty_statistics()
    } else {
        merge(fold_blocks(blocks.drop_last()), block_summary(blocks.last()))
    }
}

/// The summary of a concatenation is the merge of the two summaries.
pub proof fn lemma_fold_concat(a: Seq<BlockMetaView>, b: Seq<BlockMetaView>)
    ensures
        fold_blocks(a + b) == merge(fold_blocks(a), fold_blocks(b)),
    decreases b.len(),
{
    if b.len() == 0 {
        assert(a + b =~= a);
        lemma_merge_empty(fold_blocks(a));
    } else {
        assert((a + b).drop_last() =~= a + b.drop_last());
        assert((a + b).last() == b.last());
        lemma_fold_concat(a, b.drop_last());
        lemma_merge_associative(
            fold_blocks(a),
            fold_blocks(b.drop_last()),
            block_summary(b.last()),
        );
    }
}

/// The number of blocks folded is the block count of the summary.
pub proof fn lemma_fold_block_count(blocks: Seq<BlockMetaView>)
    ensures
        fold_blocks(blocks).block_count == blocks.len(),
    decreases blocks.len(),
{
    if blocks.len() > 0 {
        lemma_fold_block_count(blocks.drop_last());
    }
}

/// Where a whole sequence has a summary that fits, so has each of its pieces.
pub proof fn lemma_fold_fits_range(blocks: Seq<BlockMetaView>, lo: int, hi: int)
    requires
        0 <= lo <= hi <= blocks.len(),
        fits(fold_blocks(blocks)),
    ensures
        fits(fold_blocks(blocks.subrange(lo, hi))),
{
    let head = blocks.subrange(0, hi);
    let tail = blocks.subrange(hi, blocks.len() as int);
    assert(blocks =~= head + tail);
    lemma_fold_concat(head, tail);
    lemma_merge_fits_parts(fold_blocks(head), fold_blocks(tail));
    let pre = head.subrange(0, lo);
    let mid = head.subrange(lo, hi);
    assert(head =~= pre + mid);
    lemma_fold_concat(pre, mid);
    lemma_merge_fits_parts(fold_blocks(pre), fold_blocks(mid));
    assert(mid =~= blocks.subrange(lo, hi));
}

/// A copy of a list of column statistics.
pub fn duplicate_columns(cols: &Vec<ColumnStatistics>) -> (r: Vec<ColumnStatistics>)
    ensures
        r@ == cols@,
{
    let mut out: Vec<ColumnStatistics> = Vec::new();
    let mut i: usize = 0;
    while i < cols.len()
        invariant
            i <= cols@.len(),
            out@.len() == i,
            forall|j: int| 0 <= j < i ==> #[trigger] out@[j] == cols@[j],
        decreases cols@.len() - i,
    {
        out.push(cols[i]);
        i += 1;
    }
    assert(out@ =~= cols@);
    out
}

impl BlockMeta {
    /// A copy of this record.
    pub fn duplicate(&self) -> (b: BlockMeta)
        ensures
            b@ == self@,
    {
        BlockMeta {
            row_count: self.row_count,
            block_size: self.block_size,
            file_size: self.file_size,
            col_stats: duplicate_columns(&self.col_stats),
            location: self.location.duplicate(),
            bloom_filter_index_size: self.bloom_filter_index_size,
        }
    }

    /// What this block contributes to a summary.
    pub fn summary(&self) -> (s: Statistics)
        ensures
            s@ == block_summary(self@),
    {
        Statistics {
            row_count: self.row_count,
            block_count: 1,
            uncompressed_byte_size: self.block_size,
            compressed_byte_size: self.file_size,
            index_size: self.bloom_filter_index_size,
            col_stats: duplicate_columns(&self.col_stats),
        }
    }
}

/// Computes the summary of a list of blocks. Fails with `Internal` exactly
/// when a counter of the summary would exceed 64 bits.
pub fn summarize_blocks(blocks: &Vec<BlockMeta>) -> (r: Result<Statistics, ErrorCode>)
    ensures
        r is Ok <==> fits(fold_blocks(blocks_view(blocks@))),
        r is Ok ==> r->Ok_0@ == fold_blocks(blocks_view(blocks@)),
        r is Err ==> r->Err_0.kind == ErrorKind::Internal,
{
    let ghost all = blocks_view(blocks@);
    let mut acc = Statistics::empty();
    let n: usize = blocks.len();
    let mut i: usize = 0;
    while i < n
        invariant
            i <= n,
            n == blocks@.len(),
            all == blocks_view(blocks@),
            acc@ == fold_blocks(all.subrange(0, i as int)),
        decreases n - i,
    {
        let one = blocks[i].summary();
        proof {
            let next = all.subrange(0, i + 1);
            assert(next.drop_last() =~= all.subrange(0, i as int));
            assert(next.last() == blocks@[i as int]@);
        }
        match merge_statistics(&acc, &one) {
            Ok(m) => {
                acc = m;
            },
            Err(e) => {
                proof {
                    if fits(fold_blocks(all)) {
                        lemma_fold_fits_range(all, 0, i + 1);
                    }
                }
                return Err(e);
            },
        }
        i += 1;
    }
    assert(all.subrange(0, n as int) =~= all);
    Ok(acc)
}

/// The format version of the segments that this library writes.
pub const SEGMENT_VERSION: u64 = 1;

/// An ordered list of blocks with the summary of exactly those blocks.
/// A segment is never edited: a changed segment is a new value.
#[derive(Clone, Debug, PartialEq, Eq)]
pub struct SegmentInfo {
    blocks: Vec<BlockMeta>,
    summary: Statistics,
}

/// Mathematical value of a `SegmentInfo`.
pub struct SegmentInfoView {
    pub blocks: Seq<BlockMetaView>,
    pub summary: StatisticsView,
}

impl View for SegmentInfo {
    type V = SegmentInfoView;

    closed spec fn view(&self) -> SegmentInfoView {
        SegmentInfoView { blocks: blocks_view(self.blocks@), summary: self.summary@ }
    }
}

impl SegmentInfo {
    /// The summary is the fold of the blocks.
    pub open spec fn wf(&self) -> bool {
        self@.summary == fold_blocks(self@.blocks)
    }

    /// Builds a segment from its blocks and their summary. Fails with
    /// `Internal` when the summary of the blocks does not fit in 64-bit
    /// counters, and with `IllegalInput` when `summary` is not their summary.
    pub fn new(blocks: Vec<BlockMeta>, summary: Statistics) -> (r: Result<SegmentInfo, ErrorCode>)
        ensures
            r is Ok <==> summary@ == fold_blocks(blocks_view(blocks@)),
            r is Ok ==> r->Ok_0.wf() && r->Ok_0@.blocks == blocks_view(blocks@),
            r is Err ==> r->Err_0.kind == (if fits(fold_blocks(blocks_view(blocks@))) {
                ErrorKind::IllegalInput
            } else {
                ErrorKind::Internal
            }),
    {
        match summarize_blocks(&blocks) {
            Ok(s) => {
                if s.same_as(&summary) {
                    Ok(SegmentInfo { blocks, summary })
                } else {
                    Err(ErrorCode::new(ErrorKind::IllegalInput, "summary does not match the blocks"))
                }
            },
            Err(e) => Err(e),
        }
    }

    /// Builds a segment from its blocks, computing the summary. Fails with
    /// `Internal` exactly when the summary does not fit in 64-bit counters.
    pub fn from_blocks(blocks: Vec<BlockMeta>) -> (r: Result<SegmentInfo, ErrorCode>)
        ensures
            r is Ok <==> fits(fold_blocks(blocks_view(blocks@))),
            r is Ok ==> r->Ok_0.wf() && r->Ok_0@.blocks == blocks_view(blocks@),
            r is Err ==> r->Err_0.kind == ErrorKind::Internal,
    {
        match summarize_blocks(&blocks) {
            Ok(summary) => Ok(SegmentInfo { blocks, summary }),
            Err(e) => Err(e),
        }
    }

    /// Puts together blocks and a summary that is known to be theirs.
    pub(crate) fn assemble(blocks: Vec<BlockMeta>, summary: Statistics) -> (s: SegmentInfo)
        requires
            summary@ == fold_blocks(blocks_view(blocks@)),
        ensures
            s.wf(),
            s@.blocks == blocks_view(blocks@),
            s@.summary == summary@,
    {
        SegmentInfo { blocks, summary }
    }

    /// A copy of this segment.
    pub fn duplicate(&self) -> (s: SegmentInfo)
        ensures
            s@ == self@,
            self.wf() ==> s.wf(),
    {
        let mut blocks: Vec<BlockMeta> = Vec::new();
        let mut i: usize = 0;
        while i < self.blocks.len()
            invariant
                i <= self.blocks@.len(),
                blocks@.len() == i,
                forall|j: int| 0 <= j < i ==> (#[trigger] blocks@[j])@ == self.blocks@[j]@,
            decreases self.blocks@.len() - i,
        {
            blocks.push(self.blocks[i].duplicate());
            i += 1;
        }
        assert(blocks_view(blocks@) =~= blocks_view(self.blocks@));
        SegmentInfo { blocks, summary: self.summary.duplicate() }
    }

    /// The blocks, in their order.
    pub fn blocks(&self) -> (b: &Vec<BlockMeta>)
        ensures
            blocks_view(b@) == self@.blocks,
    {
        &self.blocks
    }

    /// The number of blocks.
    pub fn block_count(&self) -> (n: usize)
        ensures
            n == self@.blocks.len(),
    {
        self.blocks.len()
    }

    /// The summary of the blocks.
    pub fn summary(&self) -> (s: &Statistics)
        ensures
            s@ == self@.summary,
    {
        &self.summary
    }

    /// Takes the segment apart into its blocks and its summary.
    pub fn into_parts(self) -> (p: (Vec<BlockMeta>, Statistics))
        ensures
            blocks_view(p.0@) == self@.blocks,
            p.1@ == self@.summary,
    {
        (self.blocks, self.summary)
    }
}

} // verus!
