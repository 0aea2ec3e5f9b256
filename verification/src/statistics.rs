//! Aggregate statistics and the way two aggregates combine.

use vstd::prelude::*;

use crate::error::ErrorCode;
use crate::error::ErrorKind;

verus! {

/// Statistics of one column: value range, number of nulls, bytes in memory.
#[derive(Clone, Copy, Debug, PartialEq, Eq)]
pub struct ColumnStatistics {
    pub min: i64,
    pub max: i64,
    pub null_count: u64,
    pub in_memory_size: u64,
}

/// Mathematical value of a `ColumnStatistics`, with unbounded counters.
pub struct ColumnStatisticsView {
    pub min: i64,
    pub max: i64,
    pub null_count: nat,
    pub in_memory_size: nat,
}

impl View for ColumnStatistics {
    type V = ColumnStatisticsView;

    open spec fn view(&self) -> ColumnStatisticsView {
        ColumnStatisticsView {
            min: self.min,
            max: self.max,
            null_count: self.null_count as nat,
            in_memory_size: self.in_memory_size as nat,
        }
    }
}

/// Summary of a set of blocks. Column `i` of `col_stats` describes column `i`
/// of the table; a shorter list means that the later columns hold no data yet.
#[derive(Clone, Debug, PartialEq, Eq)]
pub struct Statistics {
    pub row_count: u64,
    pub block_count: u64,
    pub uncompressed_byte_size: u64,
    pub compressed_byte_size: u64,
    pub index_size: u64,
    pub col_stats: Vec<ColumnStatistics>,
}

/// Mathematical value of a `Statistics`, with unbounded counters.
pub struct StatisticsView {
    pub row_count: nat,
    pub block_count: nat,
    pub uncompressed_byte_size: nat,
    pub compressed_byte_size: nat,
    pub index_size: nat,
    pub col_stats: Seq<ColumnStatisticsView>,
}

/// The views of a sequence of column statistics, column by column.
pub open spec fn columns_view(cols: Seq<ColumnStatistics>) -> Seq<ColumnStatisticsView> {
    Seq::new(cols.len(), |i: int| cols[i]@)
}

impl View for Statistics {
    type V = StatisticsView;

    open spec fn view(&self) -> StatisticsView {
        StatisticsView {
            row_count: self.row_count as nat,
            block_count: self.block_count as nat,
            uncompressed_byte_size: self.uncompressed_byte_size as nat,
            compressed_byte_size: self.compressed_byte_size as nat,
            index_size: self.index_size as nat,
            col_stats: columns_view(self.col_stats@),
        }
    }
}

/// The summary of no blocks at all.
pub open spec fn empty_statistics() -> StatisticsView {
    StatisticsView {
        row_count: 0,
        block_count: 0,
        uncompressed_byte_size: 0,
        compressed_byte_size: 0,
        index_size: 0,
        col_stats: Seq::empty(),
    }
}

/// Two descriptions of one column combined: the wider range, the counters added.
pub open spec fn merge_column(
    a: ColumnStatisticsView,
    b: ColumnStatisticsView,
) -> ColumnStatisticsView {
    ColumnStatisticsView {
        min: if a.min <= b.min { a.min } else { b.min },
        max: if a.max >= b.max { a.max } else { b.max },
        null_count: a.null_count + b.null_count,
        in_memory_size: a.in_memory_size + b.in_memory_size,
    }
}

/// Column lists combined position by position; a column that only one side
/// describes is taken from that side.
pub open spec fn merge_columns(
    a: Seq<ColumnStatisticsView>,
    b: Seq<ColumnStatisticsView>,
) -> Seq<ColumnStatisticsView> {
    Seq::new(
        if a.len() >= b.len() { a.len() } else { b.len() },
        |i: int|
            if i < a.len() && i < b.len() {
                merge_column(a[i], b[i])
            } else if i < a.len() {
                a[i]
            } else {
                b[i]
            },
    )
}

/// Two summaries combined: counters added, columns merged.
pub open spec fn merge(a: StatisticsView, b: StatisticsView) -> StatisticsView {
    StatisticsView {
        row_count: a.row_count + b.row_count,
        block_count: a.block_count + b.block_count,
        uncompressed_byte_size: a.uncompressed_byte_size + b.uncompressed_byte_size,
        compressed_byte_size: a.compressed_byte_size + b.compressed_byte_size,
        index_size: a.index_size + b.index_size,
        col_stats: merge_columns(a.col_stats, b.col_stats),
    }
}

/// Every counter of the column fits in 64 bits.
pub open spec fn column_fits(c: ColumnStatisticsView) -> bool {
    c.null_count <= u64::MAX && c.in_memory_size <= u64::MAX
}

/// Every counter of every column fits in 64 bits.
pub open spec fn columns_fit(cols: Seq<ColumnStatisticsView>) -> bool {
    forall|i: int| 0 <= i < cols.len() ==> column_fits(#[trigger] cols[i])
}

/// Every counter of the summary fits in 64 bits, so that a `Statistics` can hold it.
pub open spec fn fits(s: StatisticsView) -> bool {
    &&& s.row_count <= u64::MAX
    &&& s.block_count <= u64::MAX
    &&& s.uncompressed_byte_size <= u64::MAX
    &&& s.compressed_byte_size <= u64::MAX
    &&& s.index_size <= u64::MAX
    &&& columns_fit(s.col_stats)
}

/// Merging is associative.
pub proof fn lemma_merge_associative(a: StatisticsView, b: StatisticsView, c: StatisticsView)
    ensures
        merge(merge(a, b), c) == merge(a, merge(b, c)),
{
    assert(merge_columns(merge_columns(a.col_stats, b.col_stats), c.col_stats) =~= merge_columns(
        a.col_stats,
        merge_columns(b.col_stats, c.col_stats),
    ));
}

/// The empty summary is a unit of merging, on both sides.
pub proof fn lemma_merge_empty(a: StatisticsView)
    ensures
        merge(a, empty_statistics()) == a,
        merge(empty_statistics(), a) == a,
{
    assert(merge_columns(a.col_stats, Seq::empty()) =~= a.col_stats);
    assert(merge_columns(Seq::empty(), a.col_stats) =~= a.col_stats);
}

/// A merged summary that fits has parts that fit: counters only grow.
pub proof fn lemma_merge_fits_parts(a: StatisticsView, b: StatisticsView)
    requires
        fits(merge(a, b)),
    ensures
        fits(a),
        fits(b),
{
    let m = merge_columns(a.col_stats, b.col_stats);
    assert forall|i: int| 0 <= i < a.col_stats.len() implies column_fits(
        #[trigger] a.col_stats[i],
    ) by {
        assert(column_fits(m[i]));
    }
    assert forall|i: int| 0 <= i < b.col_stats.len() implies column_fits(
        #[trigger] b.col_stats[i],
    ) by {
        assert(column_fits(m[i]));
    }
}

impl ColumnStatistics {
    /// Combines two descriptions of one column, or reports that a counter
    /// would exceed 64 bits.
    pub fn merge(&self, other: &ColumnStatistics) -> (r: Option<ColumnStatistics>)
        ensures
            r is Some <==> column_fits(merge_column(self@, other@)),
            r is Some ==> r->Some_0@ == merge_column(self@, other@),
    {
        let nulls = match self.null_count.checked_add(other.null_count) {
            Some(n) => n,
            None => { return None; },
        };
        let size = match self.in_memory_size.checked_add(other.in_memory_size) {
            Some(n) => n,
            None => { return None; },
        };
        Some(
            ColumnStatistics {
                min: if self.min <= other.min { self.min } else { other.min },
                max: if self.max >= other.max { self.max } else { other.max },
                null_count: nulls,
                in_memory_size: size,
            },
        )
    }
}

/// Combines two column lists position by position, or reports that a counter
/// of some column would exceed 64 bits.
pub fn merge_column_lists(a: &Vec<ColumnStatistics>, b: &Vec<ColumnStatistics>) -> (r: Option<
    Vec<ColumnStatistics>,
>)
    ensures
        r is Some <==> columns_fit(merge_columns(columns_view(a@), columns_view(b@))),
        r is Some ==> columns_view(r->Some_0@) == merge_columns(
            columns_view(a@),
            columns_view(b@),
        ),
{
    let ghost merged = merge_columns(columns_view(a@), columns_view(b@));
    let n: usize = if a.len() >= b.len() { a.len() } else { b.len() };
    let mut out: Vec<ColumnStatistics> = Vec::new();
    let mut i: usize = 0;
    while i < n
        invariant
            i <= n,
            n == merged.len(),
            merged == merge_columns(columns_view(a@), columns_view(b@)),
            out@.len() == i,
            forall|j: int| 0 <= j < i ==> (#[trigger] out@[j])@ == merged[j],
        decreases n - i,
    {
        let c = if i < a.len() && i < b.len() {
            match a[i].merge(&b[i]) {
                Some(c) => c,
                None => {
                    assert(!column_fits(merged[i as int]));
                    return None;
                },
            }
        } else if i < a.len() {
            a[i]
        } else {
            b[i]
        };
        assert(c@ == merged[i as int]);
        out.push(c);
        i += 1;
    }
    assert(columns_view(out@) =~= merged);
    assert forall|j: int| 0 <= j < merged.len() implies column_fits(#[trigger] merged[j]) by {
        assert(out@[j]@ == merged[j]);
    }
    Some(out)
}

/// Combines two summaries into a new one. Fails with `Internal` exactly when
/// a counter of the result would exceed 64 bits.
pub fn merge_statistics(l: &Statistics, r: &Statistics) -> (res: Result<Statistics, ErrorCode>)
    ensures
        res is Ok <==> fits(merge(l@, r@)),
        res is Ok ==> res->Ok_0@ == merge(l@, r@),
        res is Err ==> res->Err_0.kind == ErrorKind::Internal,
{
    let row_count = l.row_count.checked_add(r.row_count);
    let block_count = l.block_count.checked_add(r.block_count);
    let uncompressed = l.uncompressed_byte_size.checked_add(r.uncompressed_byte_size);
    let compressed = l.compressed_byte_size.checked_add(r.compressed_byte_size);
    let index_size = l.index_size.checked_add(r.index_size);
    let cols = merge_column_lists(&l.col_stats, &r.col_stats);
    match (row_count, block_count, uncompressed, compressed, index_size, cols) {
        (Some(rc), Some(bc), Some(us), Some(cs), Some(is), Some(col_stats)) => Ok(
            Statistics {
                row_count: rc,
                block_count: bc,
                uncompressed_byte_size: us,
                compressed_byte_size: cs,
                index_size: is,
                col_stats,
            },
        ),
        _ => Err(ErrorCode::new(ErrorKind::Internal, "statistics counter overflow")),
    }
}

/// Folds `r` into `l`. Fails with `Internal` exactly when a counter of the
/// result would exceed 64 bits, and then leaves `l` as it was.
pub fn merge_statistics_mut(l: &mut Statistics, r: &Statistics) -> (res: Result<(), ErrorCode>)
    ensures
        res is Ok <==> fits(merge(old(l)@, r@)),
        res is Ok ==> final(l)@ == merge(old(l)@, r@),
        res is Err ==> res->Err_0.kind == ErrorKind::Internal && *final(l) == *old(l),
{
    match merge_statistics(l, r) {
        Ok(m) => {
            *l = m;
            Ok(())
        },
        Err(e) => Err(e),
    }
}

impl Statistics {
    /// The summary of no blocks at all.
    pub fn empty() -> (s: Statistics)
        ensures
            s@ == empty_statistics(),
    {
        let s = Statistics {
            row_count: 0,
            block_count: 0,
            uncompressed_byte_size: 0,
            compressed_byte_size: 0,
            index_size: 0,
            col_stats: Vec::new(),
        };
        assert(s@.col_stats =~= Seq::empty());
        s
    }

    /// Whether two summaries describe the same value.
    pub fn same_as(&self, other: &Statistics) -> (r: bool)
        ensures
            r == (self@ == other@),
    {
        if self.row_count != other.row_count || self.block_count != other.block_count
            || self.uncompressed_byte_size != other.uncompressed_byte_size
            || self.compressed_byte_size != other.compressed_byte_size || self.index_size
            != other.index_size || self.col_stats.len() != other.col_stats.len() {
            assert(self@.col_stats.len() == self.col_stats@.len());
            assert(other@.col_stats.len() == other.col_stats@.len());
            return false;
        }
        let n: usize = self.col_stats.len();
        let mut i: usize = 0;
        while i < n
            invariant
                i <= n,
                n == self.col_stats@.len(),
                n == other.col_stats@.len(),
                forall|j: int| 0 <= j < i ==> (#[trigger] self.col_stats@[j])@ == other.col_stats@[j]@,
            decreases n - i,
        {
            let a = self.col_stats[i];
            let b = other.col_stats[i];
            if a.min != b.min || a.max != b.max || a.null_count != b.null_count
                || a.in_memory_size != b.in_memory_size {
                assert(self@.col_stats[i as int] == a@);
                assert(other@.col_stats[i as int] == b@);
                return false;
            }
            i += 1;
        }
        assert(self@.col_stats =~= other@.col_stats);
        true
    }

    /// A copy of this summary.
    pub fn duplicate(&self) -> (s: Statistics)
        ensures
            s@ == self@,
    {
        let mut cols: Vec<ColumnStatistics> = Vec::new();
        let n: usize = self.col_stats.len();
        let mut i: usize = 0;
        while i < n
            invariant
                i <= n,
                n == self.col_stats@.len(),
                cols@.len() == i,
                forall|j: int| 0 <= j < i ==> #[trigger] cols@[j] == self.col_stats@[j],
            decreases n - i,
        {
            cols.push(self.col_stats[i]);
            i += 1;
        }
        let s = Statistics {
            row_count: self.row_count,
            block_count: self.block_count,
            uncompressed_byte_size: self.uncompressed_byte_size,
            compressed_byte_size: self.compressed_byte_size,
            index_size: self.index_size,
            col_stats: cols,
        };
        assert(s@.col_stats =~= self@.col_stats);
        s
    }
}

impl Default for Statistics {
    fn default() -> (s: Statistics)
        ensures
            s@ == empty_statistics(),
    {
        Statistics::empty()
    }
}

/// The views of a sequence of summaries.
pub open spec fn summaries_view(s: Seq<Statistics>) -> Seq<StatisticsView> {
    Seq::new(s.len(), |i: int| s[i]@)
}

/// A summary with a run of further summaries merged into it, in order.
pub open spec fn merge_all(start: StatisticsView, more: Seq<StatisticsView>) -> StatisticsView
    decreases more.len(),
{
    if more.len() == 0 {
        start
    } else {
        merge(merge_all(start, more.drop_last()), more.last())
    }
}

/// Merging a concatenation: the second run can be merged on its own first.
pub proof fn lemma_merge_all_concat(
    start: StatisticsView,
    a: Seq<StatisticsView>,
    b: Seq<StatisticsView>,
)
    ensures
        merge_all(start, a + b) == merge(merge_all(start, a), merge_all(empty_statistics(), b)),
    decreases b.len(),
{
    if b.len() == 0 {
        assert(a + b =~= a);
        lemma_merge_empty(merge_all(start, a));
    } else {
        assert((a + b).drop_last() =~= a + b.drop_last());
        assert((a + b).last() == b.last());
        lemma_merge_all_concat(start, a, b.drop_last());
        lemma_merge_associative(
            merge_all(start, a),
            merge_all(empty_statistics(), b.drop_last()),
            b.last(),
        );
    }
}

/// The block count of a merged run is the sum of the block counts.
pub open spec fn total_block_count(more: Seq<StatisticsView>) -> nat
    decreases more.len(),
{
    if more.len() == 0 {
        0
    } else {
        total_block_count(more.drop_last()) + more.last().block_count
    }
}

/// The row count of a merged run is the sum of the row counts.
pub open spec fn total_row_count(more: Seq<StatisticsView>) -> nat
    decreases more.len(),
{
    if more.len() == 0 {
        0
    } else {
        total_row_count(more.drop_last()) + more.last().row_count
    }
}

/// Merging adds up blocks and rows.
pub proof fn lemma_merge_all_counts(start: StatisticsView, more: Seq<StatisticsView>)
    ensures
        merge_all(start, more).block_count == start.block_count + total_block_count(more),
        merge_all(start, more).row_count == start.row_count + total_row_count(more),
    decreases more.len(),
{
    if more.len() > 0 {
        lemma_merge_all_counts(start, more.drop_last());
    }
}

/// Merges a run of summaries into a first one. Fails with `Internal` exactly
/// when a counter of the result would exceed 64 bits.
pub fn merge_all_statistics(start: &Statistics, more: &Vec<Statistics>) -> (r: Result<
    Statistics,
    ErrorCode,
>)
    ensures
        r is Ok <==> fits(merge_all(start@, summaries_view(more@))),
        r is Ok ==> r->Ok_0@ == merge_all(start@, summaries_view(more@)),
        r is Err ==> r->Err_0.kind == ErrorKind::Internal,
{
    let ghost all = summaries_view(more@);
    let mut acc = start.duplicate();
    let n: usize = more.len();
    let mut i: usize = 0;
    while i < n
        invariant
            i <= n,
            n == more@.len(),
            all == summaries_view(more@),
            acc@ == merge_all(start@, all.subrange(0, i as int)),
        decreases n - i,
    {
        proof {
            let next = all.subrange(0, i + 1);
            assert(next.drop_last() =~= all.subrange(0, i as int));
            assert(next.last() == more@[i as int]@);
        }
        match merge_statistics(&acc, &more[i]) {
            Ok(m) => {
                acc = m;
            },
            Err(e) => {
                proof {
                    let head = all.subrange(0, i + 1);
                    let tail = all.subrange(i + 1, n as int);
                    assert(all =~= head + tail);
                    lemma_merge_all_concat(start@, head, tail);
                    if fits(merge_all(start@, all)) {
                        lemma_merge_fits_parts(
                            merge_all(start@, head),
                            merge_all(empty_statistics(), tail),
                        );
                    }
                }
                return Err(e);
            },
        }
        i += 1;
    }
    assert(all.subrange(0, n as int) =~= all);
    Ok(acc)
}

} // verus!
