//! The statistics accumulator: running totals over a stream of blocks.

use vstd::prelude::*;

use crate::error::ErrorCode;
use crate::error::ErrorKind;
use crate::meta::blocks_view;
use crate::meta::fold_blocks;
use crate::meta::BlockMeta;
use crate::statistics::StatisticsView;
use crate::statistics::columns_fit;
use crate::statistics::columns_view;
use crate::statistics::merge_column_lists;
use crate::statistics::merge_columns;
use crate::statistics::ColumnStatistics;
use crate::statistics::ColumnStatisticsView;

verus! {

/// What was measured of one block while it was written.
#[derive(Clone, Debug)]
pub struct BlockStatistics {
    pub block_rows_size: u64,
    pub block_bytes_size: u64,
    pub block_file_location: String,
    pub block_column_statistics: Vec<ColumnStatistics>,
}

/// Running totals over the blocks added so far, with the blocks themselves.
#[derive(Clone, Debug)]
pub struct StatisticsAccumulator {
    pub blocks_metas: Vec<BlockMeta>,
    pub blocks_statistics: Vec<Vec<ColumnStatistics>>,
    pub summary_row_count: u64,
    pub summary_block_count: u64,
    pub in_memory_size: u64,
    pub file_size: u64,
    pub index_size: u64,
}

/// The column statistics of each block, as mathematical values.
pub open spec fn column_lists_view(s: Seq<Vec<ColumnStatistics>>) -> Seq<Seq<ColumnStatisticsView>> {
    Seq::new(s.len(), |i: int| columns_view(s[i]@))
}

/// The column statistics of a run of blocks merged into one list.
pub open spec fn reduce_columns(lists: Seq<Seq<ColumnStatisticsView>>) -> Seq<ColumnStatisticsView>
    decreases lists.len(),
{
    if lists.len() == 0 {
        Seq::empty()
    } else {
        merge_columns(reduce_columns(lists.drop_last()), lists.last())
    }
}

/// Merging column lists is associative, and the empty list is its unit.
pub proof fn lemma_merge_columns_monoid(
    a: Seq<ColumnStatisticsView>,
    b: Seq<ColumnStatisticsView>,
    c: Seq<ColumnStatisticsView>,
)
    ensures
        merge_columns(merge_columns(a, b), c) == merge_columns(a, merge_columns(b, c)),
        merge_columns(a, Seq::empty()) == a,
        merge_columns(Seq::empty(), a) == a,
{
    assert(merge_columns(merge_columns(a, b), c) =~= merge_columns(a, merge_columns(b, c)));
    assert(merge_columns(a, Seq::empty()) =~= a);
    assert(merge_columns(Seq::empty(), a) =~= a);
}

/// Reducing a concatenation is merging the two reductions.
pub proof fn lemma_reduce_concat(
    a: Seq<Seq<ColumnStatisticsView>>,
    b: Seq<Seq<ColumnStatisticsView>>,
)
    ensures
        reduce_columns(a + b) == merge_columns(reduce_columns(a), reduce_columns(b)),
    decreases b.len(),
{
    if b.len() == 0 {
        assert(a + b =~= a);
        lemma_merge_columns_monoid(reduce_columns(a), Seq::empty(), Seq::empty());
    } else {
        assert((a + b).drop_last() =~= a + b.drop_last());
        assert((a + b).last() == b.last());
        lemma_reduce_concat(a, b.drop_last());
        lemma_merge_columns_monoid(reduce_columns(a), reduce_columns(b.drop_last()), b.last());
    }
}

/// Where a merged column list fits, so does its left part.
pub proof fn lemma_merge_columns_fit_left(
    a: Seq<ColumnStatisticsView>,
    b: Seq<ColumnStatisticsView>,
)
    requires
        columns_fit(merge_columns(a, b)),
    ensures
        columns_fit(a),
{
    let m = merge_columns(a, b);
    assert forall|i: int| 0 <= i < a.len() implies crate::statistics::column_fits(
        #[trigger] a[i],
    ) by {
        assert(crate::statistics::column_fits(m[i]));
    }
}

/// Whether what was measured of a block is what its record says.
pub open spec fn agrees(block_meta: BlockMeta, block_statistics: BlockStatistics) -> bool {
    &&& block_statistics.block_rows_size == block_meta.row_count
    &&& block_statistics.block_bytes_size == block_meta.block_size
    &&& columns_view(block_statistics.block_column_statistics@) == columns_view(
        block_meta.col_stats@,
    )
}

impl StatisticsAccumulator {
    /// The totals as a summary, with the column statistics of all blocks merged.
    pub open spec fn totals(&self) -> StatisticsView {
        StatisticsView {
            row_count: self.summary_row_count as nat,
            block_count: self.summary_block_count as nat,
            uncompressed_byte_size: self.in_memory_size as nat,
            compressed_byte_size: self.file_size as nat,
            index_size: self.index_size as nat,
            col_stats: reduce_columns(column_lists_view(self.blocks_statistics@)),
        }
    }

    /// The totals are the summary of the blocks held.
    pub open spec fn consistent(&self) -> bool {
        self.totals() == fold_blocks(blocks_view(self.blocks_metas@))
    }

    /// An accumulator that has seen no block.
    pub fn new() -> (acc: StatisticsAccumulator)
        ensures
            acc.consistent(),
            acc.blocks_metas@.len() == 0,
            acc.blocks_statistics@.len() == 0,
            acc.summary_row_count == 0,
            acc.summary_block_count == 0,
            acc.in_memory_size == 0,
            acc.file_size == 0,
            acc.index_size == 0,
    {
        let acc = StatisticsAccumulator {
            blocks_metas: Vec::new(),
            blocks_statistics: Vec::new(),
            summary_row_count: 0,
            summary_block_count: 0,
            in_memory_size: 0,
            file_size: 0,
            index_size: 0,
        };
        assert(column_lists_view(acc.blocks_statistics@) =~= Seq::empty());
        assert(blocks_view(acc.blocks_metas@) =~= Seq::empty());
        acc
    }

    /// Whether adding a block with these measures keeps every total within 64 bits.
    pub open spec fn can_add(&self, block_meta: BlockMeta, block_statistics: BlockStatistics) -> bool {
        &&& self.summary_row_count + block_statistics.block_rows_size <= u64::MAX
        &&& self.summary_block_count + 1 <= u64::MAX
        &&& self.in_memory_size + block_statistics.block_bytes_size <= u64::MAX
        &&& self.file_size + block_meta.file_size <= u64::MAX
        &&& self.index_size + block_meta.bloom_filter_index_size <= u64::MAX
    }

    /// Folds one block into the totals and keeps its record. Fails with
    /// `Internal` exactly when a total would exceed 64 bits; the accumulator
    /// is then as it was.
    pub fn add(&mut self, block_meta: BlockMeta, block_statistics: BlockStatistics) -> (r: Result<
        (),
        ErrorCode,
    >)
        ensures
            r is Ok <==> old(self).can_add(block_meta, block_statistics),
            r is Ok ==> {
                &&& final(self).summary_row_count == old(self).summary_row_count
                    + block_statistics.block_rows_size
                &&& final(self).summary_block_count == old(self).summary_block_count + 1
                &&& final(self).in_memory_size == old(self).in_memory_size
                    + block_statistics.block_bytes_size
                &&& final(self).file_size == old(self).file_size + block_meta.file_size
                &&& final(self).index_size == old(self).index_size
                    + block_meta.bloom_filter_index_size
                &&& final(self).blocks_metas@ == old(self).blocks_metas@.push(block_meta)
                &&& final(self).blocks_statistics@ == old(self).blocks_statistics@.push(
                    block_statistics.block_column_statistics,
                )
            },
            r is Err ==> r->Err_0.kind == ErrorKind::Internal && *final(self) == *old(self),
            r is Ok && old(self).consistent() && agrees(block_meta, block_statistics)
                ==> final(self).consistent(),
    {
        proof {
            let lists = column_lists_view(self.blocks_statistics@);
            let more = lists.push(columns_view(block_statistics.block_column_statistics@));
            assert(column_lists_view(
                self.blocks_statistics@.push(block_statistics.block_column_statistics),
            ) =~= more);
            assert(more.drop_last() =~= lists);
            let blocks = blocks_view(self.blocks_metas@);
            let grown = blocks.push(block_meta@);
            assert(blocks_view(self.blocks_metas@.push(block_meta)) =~= grown);
            assert(grown.drop_last() =~= blocks);
        }
        let rows = self.summary_row_count.checked_add(block_statistics.block_rows_size);
        let count = self.summary_block_count.checked_add(1);
        let memory = self.in_memory_size.checked_add(block_statistics.block_bytes_size);
        let file = self.file_size.checked_add(block_meta.file_size);
        let index = self.index_size.checked_add(block_meta.bloom_filter_index_size);
        match (rows, count, memory, file, index) {
            (Some(rows), Some(count), Some(memory), Some(file), Some(index)) => {
                self.summary_row_count = rows;
                self.summary_block_count = count;
                self.in_memory_size = memory;
                self.file_size = file;
                self.index_size = index;
                self.blocks_statistics.push(block_statistics.block_column_statistics);
                self.blocks_metas.push(block_meta);
                Ok(())
            },
            _ => Err(ErrorCode::new(ErrorKind::Internal, "statistics counter overflow")),
        }
    }

    /// The column statistics of all blocks added so far, merged. The blocks
    /// stay in the accumulator. Fails with `Internal` exactly when a counter
    /// of some column would exceed 64 bits.
    pub fn summary(&self) -> (r: Result<Vec<ColumnStatistics>, ErrorCode>)
        ensures
            r is Ok <==> columns_fit(reduce_columns(column_lists_view(self.blocks_statistics@))),
            r is Ok ==> columns_view(r->Ok_0@) == reduce_columns(
                column_lists_view(self.blocks_statistics@),
            ),
            r is Err ==> r->Err_0.kind == ErrorKind::Internal,
    {
        let ghost all = column_lists_view(self.blocks_statistics@);
        let mut merged: Vec<ColumnStatistics> = Vec::new();
        let n: usize = self.blocks_statistics.len();
        let mut i: usize = 0;
        assert(columns_view(merged@) =~= reduce_columns(all.subrange(0, 0)));
        while i < n
            invariant
                i <= n,
                n == self.blocks_statistics@.len(),
                all == column_lists_view(self.blocks_statistics@),
                columns_view(merged@) == reduce_columns(all.subrange(0, i as int)),
            decreases n - i,
        {
            proof {
                let next = all.subrange(0, i + 1);
                assert(next.drop_last() =~= all.subrange(0, i as int));
                assert(next.last() == columns_view(self.blocks_statistics@[i as int]@));
            }
            match merge_column_lists(&merged, &self.blocks_statistics[i]) {
                Some(m) => {
                    merged = m;
                },
                None => {
                    proof {
                        let head = all.subrange(0, i + 1);
                        let tail = all.subrange(i + 1, n as int);
                        assert(all =~= head + tail);
                        lemma_reduce_concat(head, tail);
                        if columns_fit(reduce_columns(all)) {
                            lemma_merge_columns_fit_left(
                                reduce_columns(head),
                                reduce_columns(tail),
                            );
                        }
                    }
                    return Err(ErrorCode::new(ErrorKind::Internal, "statistics counter overflow"));
                },
            }
            i += 1;
        }
        assert(all.subrange(0, n as int) =~= all);
        proof {
            let m = columns_view(merged@);
            assert forall|j: int| 0 <= j < m.len() implies crate::statistics::column_fits(
                #[trigger] m[j],
            ) by {
                assert(m[j] == merged@[j]@);
            }
        }
        Ok(merged)
    }
}

} // verus!
