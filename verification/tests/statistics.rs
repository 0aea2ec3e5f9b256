use fusestore::accumulator::BlockStatistics;
use fusestore::accumulator::StatisticsAccumulator;
use fusestore::error::ErrorCode;
use fusestore::error::ErrorKind;
use fusestore::meta::summarize_blocks;
use fusestore::meta::BlockMeta;
use fusestore::meta::Location;
use fusestore::meta::SegmentInfo;
use fusestore::snapshot::duplicate_locations;
use fusestore::snapshot::TableSnapshot;
use fusestore::statistics::merge_all_statistics;
use fusestore::statistics::merge_column_lists;
use fusestore::statistics::merge_statistics;
use fusestore::statistics::merge_statistics_mut;
use fusestore::statistics::ColumnStatistics;
use fusestore::statistics::Statistics;

fn col(min: i64, max: i64, null_count: u64, in_memory_size: u64) -> ColumnStatistics {
    ColumnStatistics {
        min,
        max,
        null_count,
        in_memory_size,
    }
}

fn stats(n: u64, cols: Vec<ColumnStatistics>) -> Statistics {
    Statistics {
        row_count: n,
        block_count: 1,
        uncompressed_byte_size: 10 * n,
        compressed_byte_size: 3 * n,
        index_size: n + 1,
        col_stats: cols,
    }
}

fn block(rows: u64, cols: Vec<ColumnStatistics>, path: &str) -> BlockMeta {
    BlockMeta {
        row_count: rows,
        block_size: 10 * rows,
        file_size: 3 * rows,
        col_stats: cols,
        location: Location::new(path.to_owned(), 0),
        bloom_filter_index_size: rows + 1,
    }
}

#[test]
fn test_column_merge_takes_range_and_sums() {
    let a = col(-5, 7, 2, 100);
    let b = col(0, 9, 3, 50);
    assert_eq!(a.merge(&b), Some(col(-5, 9, 5, 150)));
    assert_eq!(b.merge(&a), Some(col(-5, 9, 5, 150)));
    assert_eq!(col(1, 1, u64::MAX, 0).merge(&col(1, 1, 1, 0)), None);
    assert_eq!(col(1, 1, 0, u64::MAX).merge(&col(1, 1, 0, 1)), None);
    assert_eq!(
        col(1, 1, u64::MAX - 1, 0).merge(&col(1, 1, 1, 0)),
        Some(col(1, 1, u64::MAX, 0))
    );
}

#[test]
fn test_column_lists_merge_by_position() {
    let a = vec![col(1, 2, 0, 1), col(10, 20, 1, 1)];
    let b = vec![col(0, 1, 1, 1)];
    assert_eq!(
        merge_column_lists(&a, &b),
        Some(vec![col(0, 2, 1, 2), col(10, 20, 1, 1)])
    );
    assert_eq!(
        merge_column_lists(&b, &a),
        Some(vec![col(0, 2, 1, 2), col(10, 20, 1, 1)])
    );
    assert_eq!(merge_column_lists(&a, &vec![]), Some(a.clone()));
    assert_eq!(merge_column_lists(&vec![], &vec![]), Some(vec![]));
    let full = vec![col(0, 0, 0, 0), col(0, 0, u64::MAX, 0)];
    assert_eq!(merge_column_lists(&a, &full), None);
}

#[test]
fn test_merge_statistics_adds_counters() {
    let a = stats(4, vec![col(1, 5, 0, 40)]);
    let b = stats(6, vec![col(-1, 3, 2, 60), col(7, 7, 0, 6)]);
    let m = merge_statistics(&a, &b).unwrap();
    assert_eq!(m, Statistics {
        row_count: 10,
        block_count: 2,
        uncompressed_byte_size: 100,
        compressed_byte_size: 30,
        index_size: 12,
        col_stats: vec![col(-1, 5, 2, 100), col(7, 7, 0, 6)],
    });
    // the empty summary is a unit
    assert_eq!(merge_statistics(&a, &Statistics::default()).unwrap(), a);
    assert_eq!(merge_statistics(&Statistics::empty(), &a).unwrap(), a);
    assert!(a.same_as(&a.duplicate()));
    assert!(!a.same_as(&b));
}

#[test]
fn test_merge_statistics_is_associative() {
    let a = stats(4, vec![col(1, 5, 0, 40)]);
    let b = stats(6, vec![col(-1, 3, 2, 60), col(7, 7, 0, 6)]);
    let c = stats(1, vec![]);
    let left = merge_statistics(&merge_statistics(&a, &b).unwrap(), &c).unwrap();
    let right = merge_statistics(&a, &merge_statistics(&b, &c).unwrap()).unwrap();
    assert_eq!(left, right);
    assert_eq!(
        merge_all_statistics(&a, &vec![b.clone(), c.clone()]).unwrap(),
        left
    );
    assert_eq!(merge_all_statistics(&a, &vec![]).unwrap(), a);
}

fn internal(e: ErrorCode) {
    assert_eq!(e.kind(), ErrorKind::Internal);
    assert!(!e.message().is_empty());
}

#[test]
fn test_merge_statistics_overflow_is_internal() {
    let mut a = stats(1, vec![]);
    a.index_size = u64::MAX;
    let b = stats(1, vec![]);
    internal(merge_statistics(&a, &b).err().unwrap());
    internal(merge_all_statistics(&b, &vec![b.clone(), a.clone()]).err().unwrap());

    let mut l = a.clone();
    internal(merge_statistics_mut(&mut l, &b).err().unwrap());
    assert_eq!(l, a);

    let mut l = b.clone();
    merge_statistics_mut(&mut l, &b).unwrap();
    assert_eq!(l.row_count, 2);
    assert_eq!(l.block_count, 2);

    let x = stats(1, vec![col(0, 0, u64::MAX, 0)]);
    let y = stats(1, vec![col(0, 0, 1, 0)]);
    internal(merge_statistics(&x, &y).err().unwrap());
}

#[test]
fn test_segment_summary_is_the_fold_of_its_blocks() {
    let blocks = vec![
        block(2, vec![col(3, 4, 0, 20)], "b0"),
        block(5, vec![col(-3, 1, 1, 50)], "b1"),
        block(1, vec![col(9, 9, 0, 10)], "b2"),
    ];
    let expected = Statistics {
        row_count: 8,
        block_count: 3,
        uncompressed_byte_size: 80,
        compressed_byte_size: 24,
        index_size: 11,
        col_stats: vec![col(-3, 9, 1, 80)],
    };
    assert_eq!(summarize_blocks(&blocks).unwrap(), expected);
    assert_eq!(blocks[1].summary(), Statistics {
        row_count: 5,
        block_count: 1,
        uncompressed_byte_size: 50,
        compressed_byte_size: 15,
        index_size: 6,
        col_stats: vec![col(-3, 1, 1, 50)],
    });
    let seg = SegmentInfo::from_blocks(blocks.clone()).unwrap();
    assert_eq!(seg.summary(), &expected);
    assert_eq!(seg.blocks(), &blocks);
    assert_eq!(seg.block_count(), 3);
    let seg2 = SegmentInfo::new(blocks.clone(), expected.clone()).unwrap();
    assert_eq!(seg, seg2);
    let (b, s) = seg2.into_parts();
    assert_eq!(b, blocks);
    assert_eq!(s, expected);

    // a summary that is not the one of the blocks is refused
    let mut wrong = expected.clone();
    wrong.row_count += 1;
    assert_eq!(
        SegmentInfo::new(blocks, wrong).err().unwrap().kind(),
        ErrorKind::IllegalInput
    );
    let empty = SegmentInfo::new(vec![], Statistics::default()).unwrap();
    assert_eq!(empty.block_count(), 0);
}

#[test]
fn test_segment_with_overflowing_summary_is_refused() {
    let blocks = vec![block(u64::MAX / 10, vec![], "b0"), block(1, vec![], "b1")];
    assert_eq!(
        SegmentInfo::from_blocks(blocks.clone()).err().unwrap().kind(),
        ErrorKind::Internal
    );
    assert_eq!(
        SegmentInfo::new(blocks.clone(), Statistics::default())
            .err()
            .unwrap()
            .kind(),
        ErrorKind::Internal
    );
    assert_eq!(
        summarize_blocks(&blocks).err().unwrap().kind(),
        ErrorKind::Internal
    );
}

#[test]
fn test_statistics_accumulator_folds_blocks() {
    let mut acc = StatisticsAccumulator::new();
    assert_eq!(acc.summary().unwrap(), vec![]);
    let metas = vec![
        block(2, vec![col(3, 4, 0, 20)], "b0"),
        block(5, vec![col(-3, 1, 1, 50), col(1, 2, 3, 4)], "b1"),
    ];
    for m in &metas {
        let s = BlockStatistics {
            block_rows_size: m.row_count,
            block_bytes_size: m.block_size,
            block_file_location: m.location.path.clone(),
            block_column_statistics: m.col_stats.clone(),
        };
        acc.add(m.clone(), s).unwrap();
    }
    assert_eq!(acc.summary_row_count, 7);
    assert_eq!(acc.summary_block_count, 2);
    assert_eq!(acc.in_memory_size, 70);
    assert_eq!(acc.file_size, 21);
    assert_eq!(acc.index_size, 9);
    assert_eq!(acc.blocks_metas, metas);
    assert_eq!(acc.blocks_statistics.len(), 2);
    // the summary leaves the blocks where they are
    assert_eq!(acc.summary().unwrap(), vec![col(-3, 4, 1, 70), col(1, 2, 3, 4)]);
    assert_eq!(acc.summary().unwrap(), vec![col(-3, 4, 1, 70), col(1, 2, 3, 4)]);
    assert_eq!(acc.blocks_metas.len(), 2);

    // and agrees with the summary of the segment made of the same blocks
    let seg = SegmentInfo::from_blocks(acc.blocks_metas.clone()).unwrap();
    assert_eq!(seg.summary().col_stats, acc.summary().unwrap());
    assert_eq!(seg.summary().row_count, acc.summary_row_count);
}

#[test]
fn test_statistics_accumulator_gives_the_summary_of_a_segment() {
    let mut acc = StatisticsAccumulator::new();
    for (i, rows) in [3u64, 1, 4, 1, 5].iter().enumerate() {
        let m = block(*rows, vec![col(i as i64, 10 * i as i64, 1, *rows)], "b");
        let s = BlockStatistics {
            block_rows_size: m.row_count,
            block_bytes_size: m.block_size,
            block_file_location: m.location.path.clone(),
            block_column_statistics: m.col_stats.clone(),
        };
        acc.add(m, s).unwrap();
    }
    let summary = Statistics {
        row_count: acc.summary_row_count,
        block_count: acc.summary_block_count,
        uncompressed_byte_size: acc.in_memory_size,
        compressed_byte_size: acc.file_size,
        index_size: acc.index_size,
        col_stats: acc.summary().unwrap(),
    };
    assert_eq!(summarize_blocks(&acc.blocks_metas).unwrap(), summary);
    assert!(SegmentInfo::new(acc.blocks_metas, summary).is_ok());
}

#[test]
fn test_statistics_accumulator_overflow_is_internal() {
    let mut acc = StatisticsAccumulator::new();
    let m = block(1, vec![col(0, 0, u64::MAX, 0)], "b0");
    let s = |rows: u64, m: &BlockMeta| BlockStatistics {
        block_rows_size: rows,
        block_bytes_size: 1,
        block_file_location: m.location.path.clone(),
        block_column_statistics: m.col_stats.clone(),
    };
    acc.add(m.clone(), s(u64::MAX, &m)).unwrap();
    let e = acc.add(m.clone(), s(1, &m)).err().unwrap();
    assert_eq!(e.kind(), ErrorKind::Internal);
    assert_eq!(acc.summary_block_count, 1);
    assert_eq!(acc.blocks_metas.len(), 1);

    acc.add(m.clone(), s(0, &m)).unwrap();
    assert_eq!(acc.summary_block_count, 2);
    // the null counts of the column do not fit together
    assert_eq!(acc.summary().err().unwrap().kind(), ErrorKind::Internal);
}

#[test]
fn test_location_and_snapshot_copies() {
    let a = Location::new("p".to_owned(), 3);
    assert_eq!(a.path, "p");
    assert_eq!(a.version, 3);
    assert!(a.same_as(&a.duplicate()));
    assert!(!a.same_as(&Location::new("p".to_owned(), 4)));
    assert!(!a.same_as(&Location::new("q".to_owned(), 3)));
    let list = vec![a.clone(), Location::new("q".to_owned(), 1)];
    assert_eq!(duplicate_locations(&list), list);
    let s = TableSnapshot {
        snapshot_id: 5,
        prev_snapshot_id: Some(4),
        segments: list.clone(),
        summary: stats(3, vec![col(1, 2, 3, 4)]),
    };
    let d = s.duplicate();
    assert_eq!(d.snapshot_id, 5);
    assert_eq!(d.prev_snapshot_id, Some(4));
    assert_eq!(d.segments, list);
    assert_eq!(d.summary, s.summary);
}

#[test]
fn test_error_code_holds_kind_and_message() {
    let e = ErrorCode::new(ErrorKind::StorageIO, "disk gone");
    assert_eq!(e.kind(), ErrorKind::StorageIO);
    assert_eq!(e.message(), "disk gone");
}
