use std::collections::HashMap;

use fusestore::accumulator::BlockStatistics;
use fusestore::accumulator::StatisticsAccumulator;
use fusestore::cache::SegmentCache;
use fusestore::compaction::check_target;
use fusestore::compaction::compact_segments;
use fusestore::compaction::plan_compaction;
use fusestore::compaction::CompactTarget;
use fusestore::compaction::CompactedSegment;
use fusestore::compaction::CompactionPlan;
use fusestore::compaction::SegmentAccumulator;
use fusestore::compaction::SegmentCompactionState;
use fusestore::error::ErrorCode;
use fusestore::error::ErrorKind;
use fusestore::location::ObjectKind;
use fusestore::location::TableMetaLocationGenerator;
use fusestore::meta::BlockMeta;
use fusestore::meta::Location;
use fusestore::meta::SegmentInfo;
use fusestore::mutator::detect_conflicts;
use fusestore::mutator::CommitAction;
use fusestore::mutator::CommitEvent;
use fusestore::mutator::CommitPhase;
use fusestore::mutator::Conflict;
use fusestore::mutator::SegmentCompactMutator;
use fusestore::snapshot::TableSnapshot;
use fusestore::statistics::merge_statistics;
use fusestore::statistics::ColumnStatistics;
use fusestore::statistics::Statistics;
use fusestore::table::compact;
use fusestore::table::TableState;

/// A table held in memory: the live snapshot and every segment written so far.
struct TestTable {
    block_per_segment: u64,
    table: TableState,
    segments: SegmentCache,
    next_id: u128,
    next_block: u64,
}

impl TestTable {
    fn create(block_per_segment: u64) -> TestTable {
        TestTable {
            block_per_segment,
            table: TableState::new(
                TableSnapshot {
                    snapshot_id: 1,
                    prev_snapshot_id: None,
                    segments: vec![],
                    summary: Statistics::default(),
                },
                block_per_segment,
            ),
            segments: SegmentCache::new(),
            next_id: 2,
            next_block: 0,
        }
    }

    fn live(&self) -> TableSnapshot {
        self.table.get_current_snapshot()
    }

    fn fresh_id(&mut self) -> u128 {
        let id = self.next_id;
        self.next_id += 1;
        id
    }

    fn write_segment(&mut self, segment: &SegmentInfo) -> Location {
        let id = self.fresh_id();
        let location = TableMetaLocationGenerator::with_prefix("test".to_owned())
            .gen_segment_info_location(id, 1);
        self.segments.put(location.clone(), segment.clone());
        location
    }

    /// One insert of one row: a new segment with one block behind the others.
    fn append_rows(&mut self, n: usize) {
        for _ in 0..n {
            let block = sample_block(self.next_block);
            self.next_block += 1;
            let segment = SegmentInfo::from_blocks(vec![block]).unwrap();
            let location = self.write_segment(&segment);
            let live = self.live();
            let mut segments = live.segments.clone();
            segments.push(location);
            let summary = merge_statistics(&live.summary, segment.summary()).unwrap();
            let snapshot_id = self.fresh_id();
            self.table
                .publish(live.snapshot_id, TableSnapshot {
                    snapshot_id,
                    prev_snapshot_id: Some(live.snapshot_id),
                    segments,
                    summary,
                })
                .unwrap();
        }
    }

    fn read(&self, location: &Location) -> SegmentInfo {
        self.segments.get(location).unwrap().clone()
    }

    /// Compacts the live snapshot; the merged segments are put into memory.
    fn compact(&mut self) -> Option<SegmentCompactMutator> {
        let first_id = self.next_id;
        self.next_id += 1 + self.live().segments.len() as u128;
        let generator = TableMetaLocationGenerator::with_prefix("test".to_owned());
        compact(
            &self.table,
            &mut self.segments,
            &generator,
            first_id,
            CompactTarget::Segments,
            None,
        )
        .unwrap()
    }

    /// Commits in one call, against the table in memory.
    fn try_commit(&mut self, mutator: SegmentCompactMutator) -> Result<(), ErrorCode> {
        mutator.try_commit(&mut self.table, &self.segments)
    }

    /// Runs a commit to its end step by step, doing what the mutator asks for.
    fn try_commit_stepwise(&mut self, mut mutator: SegmentCompactMutator) -> Result<(), ErrorCode> {
        let mut action = mutator.start();
        loop {
            action = match action {
                CommitAction::ReadLiveSnapshot => {
                    mutator.step(CommitEvent::LiveSnapshot(self.live()))
                }
                CommitAction::ReadSummaries(locations) => {
                    let summaries = locations
                        .iter()
                        .map(|l| self.read(l).summary().clone())
                        .collect();
                    mutator.step(CommitEvent::AppendedSummaries(summaries))
                }
                CommitAction::Publish {
                    expected_prev,
                    snapshot,
                } => match self.table.publish(expected_prev, snapshot) {
                    Ok(()) => mutator.step(CommitEvent::Published),
                    Err(_) => mutator.step(CommitEvent::LostRace),
                },
                CommitAction::Finished => return Ok(()),
                CommitAction::Fail(e) => return Err(e),
            };
        }
    }

    fn row_count(&self) -> u64 {
        self.live().summary.row_count
    }

    fn segment_count(&self) -> u64 {
        self.live().segments.len() as u64
    }

    fn block_count(&self) -> u64 {
        self.live().summary.block_count
    }
}

fn sample_block(id: u64) -> BlockMeta {
    BlockMeta {
        row_count: 1,
        block_size: 8,
        file_size: 5,
        col_stats: vec![ColumnStatistics {
            min: id as i64,
            max: id as i64,
            null_count: 0,
            in_memory_size: 8,
        }],
        location: Location::new(format!("test/_b/{}_v0.parquet", id), 0),
        bloom_filter_index_size: 3,
    }
}

#[test]
fn test_compact_segment_normal_case() {
    let mut table = TestTable::create(10);

    let num_inserts = 9;
    table.append_rows(num_inserts);

    // check count
    assert_eq!(9, table.row_count());

    // compact segment
    let mutator = table.compact();
    assert!(mutator.is_some());
    let mutator = mutator.unwrap();
    table.try_commit(mutator).unwrap();

    // after compact, in our case, there should be only 1 segment left
    assert_eq!(1, table.segment_count());

    // check block count
    assert_eq!(num_inserts as u64, table.block_count());
}

#[test]
fn test_compact_segment_resolvable_conflict() {
    let mut table = TestTable::create(10);

    let num_inserts = 9;
    table.append_rows(num_inserts);

    // check count
    assert_eq!(9, table.row_count());

    // compact segment
    let mutator = table.compact();
    assert!(mutator.is_some());
    let mutator = mutator.unwrap();

    // before commit compact segments, gives 9 append commits
    let num_inserts = 9;
    table.append_rows(num_inserts);

    table.try_commit(mutator).unwrap();

    // after compact, in our case, there should be only 1 + num_inserts segments left
    // during compact retry, newly appended segments will NOT be compacted again
    assert_eq!(1 + num_inserts as u64, table.segment_count());

    // check block count
    assert_eq!(num_inserts as u64 * 2, table.block_count());

    // check table statistics
    assert_eq!(table.row_count() as usize, num_inserts * 2);
}

#[test]
fn test_compact_segment_unresolvable_conflict() {
    let mut table = TestTable::create(10);

    let num_inserts = 9;
    table.append_rows(num_inserts);

    // check count
    assert_eq!(num_inserts as u64, table.row_count());

    // try compact segment
    let mutator = table.compact();
    assert!(mutator.is_some());
    let mutator = mutator.unwrap();

    {
        // inject a unresolvable commit
        let other = table.compact().unwrap();
        table.try_commit(other).unwrap();
    }
    let winner = table.live();

    // the compact operation committed latter should failed
    let r = table.try_commit(mutator);
    assert!(r.is_err());
    assert_eq!(r.err().unwrap().kind(), ErrorKind::StorageConflict);

    // the live snapshot is the one of the compaction that came first
    assert_eq!(table.live().snapshot_id, winner.snapshot_id);
    assert_eq!(table.live().segments, winner.segments);
    assert_eq!(table.live().summary, winner.summary);
}

#[test]
fn test_commit_step_by_step_agrees_with_commit_in_one_call() {
    for appended in [0, 1, 9] {
        let mut a = TestTable::create(10);
        let mut b = TestTable::create(10);
        a.append_rows(9);
        b.append_rows(9);
        let ma = a.compact().unwrap();
        let mb = b.compact().unwrap();
        a.append_rows(appended);
        b.append_rows(appended);
        a.try_commit(ma).unwrap();
        b.try_commit_stepwise(mb).unwrap();
        assert_eq!(a.live().segments, b.live().segments);
        assert_eq!(a.live().summary, b.live().summary);
        assert_eq!(a.live().snapshot_id, b.live().snapshot_id);
        assert_eq!(a.live().prev_snapshot_id, b.live().prev_snapshot_id);
        assert_eq!(a.segment_count(), 1 + appended as u64);
        assert_eq!(a.block_count(), 9 + appended as u64);
    }

    // and so for a commit that cannot be reconciled
    let mut t = TestTable::create(10);
    t.append_rows(4);
    let first = t.compact().unwrap();
    let second = t.compact().unwrap();
    t.try_commit_stepwise(first).unwrap();
    let e = t.try_commit_stepwise(second).err().unwrap();
    assert_eq!(e.kind(), ErrorKind::StorageConflict);
}

#[test]
fn test_compacted_segments_stand_in_front_of_appended_ones() {
    let mut table = TestTable::create(10);
    table.append_rows(3);
    let before = table.live();
    let mutator = table.compact().unwrap();
    let merged = mutator.compaction().segments_locations.clone();
    assert_eq!(merged.len(), 1);
    table.append_rows(2);
    let appended = table.live().segments[3..].to_vec();
    let seen = table.live().snapshot_id;
    table.try_commit(mutator).unwrap();
    let after = table.live();
    assert_eq!(after.segments, [merged, appended].concat());
    assert_eq!(after.prev_snapshot_id, Some(seen));
    assert!(after.snapshot_id != before.snapshot_id);
    assert_eq!(after.summary.row_count, 5);
    assert_eq!(after.summary.col_stats[0].min, 0);
    assert_eq!(after.summary.col_stats[0].max, 4);
}

#[test]
fn test_commit_needs_the_appended_segments_at_hand() {
    let mut table = TestTable::create(10);
    table.append_rows(3);
    let mutator = table.compact().unwrap();
    // a segment is appended that nobody has in memory
    let live = table.live();
    let mut segments = live.segments.clone();
    segments.push(Location::new("elsewhere".to_owned(), 1));
    table
        .table
        .publish(live.snapshot_id, TableSnapshot {
            snapshot_id: 1000,
            prev_snapshot_id: Some(live.snapshot_id),
            segments,
            summary: live.summary.clone(),
        })
        .unwrap();
    let e = table.try_commit(mutator).err().unwrap();
    assert_eq!(e.kind(), ErrorKind::StorageIO);
    assert_eq!(table.live().snapshot_id, 1000);
}

#[test]
fn test_commit_of_a_mutator_that_was_stepped_is_refused() {
    let mut table = TestTable::create(10);
    table.append_rows(3);
    let mut mutator = table.compact().unwrap();
    mutator.step(CommitEvent::LiveSnapshot(table.live()));
    let before = table.live();
    let e = table.try_commit(mutator).err().unwrap();
    assert_eq!(e.kind(), ErrorKind::Internal);
    assert_eq!(table.live().snapshot_id, before.snapshot_id);
}

#[test]
fn test_publish_is_a_compare_and_swap() {
    let snapshot = |id: u128, prev: Option<u128>| TableSnapshot {
        snapshot_id: id,
        prev_snapshot_id: prev,
        segments: vec![Location::new(format!("s{}", id), 1)],
        summary: Statistics::default(),
    };
    let mut table = TableState::new(snapshot(1, None), 10);
    assert_eq!(table.block_per_segment(), 10);
    assert_eq!(table.get_current_snapshot().snapshot_id, 1);
    table.publish(1, snapshot(2, Some(1))).unwrap();
    assert_eq!(table.get_current_snapshot().snapshot_id, 2);
    // a writer that still expects the first snapshot loses
    let e = table.publish(1, snapshot(3, Some(1))).err().unwrap();
    assert_eq!(e.kind(), ErrorKind::StorageConflict);
    let live = table.get_current_snapshot();
    assert_eq!(live.snapshot_id, 2);
    assert_eq!(live.prev_snapshot_id, Some(1));
    assert_eq!(live.segments, vec![Location::new("s2".to_owned(), 1)]);
}

struct CompactSegmentTestFixture {
    block_per_seg: u64,
    segments: Vec<(SegmentInfo, Location)>,
    blocks: Vec<BlockMeta>,
    store: HashMap<String, SegmentInfo>,
}

impl CompactSegmentTestFixture {
    fn try_new(block_per_seg: u64) -> CompactSegmentTestFixture {
        CompactSegmentTestFixture {
            block_per_seg,
            segments: vec![],
            blocks: vec![],
            store: HashMap::new(),
        }
    }

    fn run(&mut self, num_block_of_segments: &[usize]) -> SegmentAccumulator {
        let mut seg_acc = SegmentAccumulator::new(self.block_per_seg);
        let (segments, blocks) = Self::gen_segments(num_block_of_segments);
        self.segments = segments;
        self.blocks = blocks;
        for (seg, location) in &self.segments {
            self.store.insert(location.path.clone(), seg.clone());
            seg_acc.add(seg.clone(), location.clone()).unwrap();
        }
        seg_acc
    }

    fn gen_segments(
        num_block_of_segments: &[usize],
    ) -> (Vec<(SegmentInfo, Location)>, Vec<BlockMeta>) {
        let mut segments = vec![];
        let mut collected_blocks = vec![];
        let mut next_block = 0;
        for (idx, num_blocks) in num_block_of_segments.iter().enumerate() {
            let mut stats_acc = StatisticsAccumulator::new();
            for _ in 0..*num_blocks {
                let block_meta = sample_block(next_block);
                next_block += 1;
                let block_statistics = BlockStatistics {
                    block_rows_size: block_meta.row_count,
                    block_bytes_size: block_meta.block_size,
                    block_file_location: block_meta.location.path.clone(),
                    block_column_statistics: block_meta.col_stats.clone(),
                };
                collected_blocks.push(block_meta.clone());
                stats_acc.add(block_meta, block_statistics).unwrap();
            }
            let col_stats = stats_acc.summary().unwrap();
            let segment_info = SegmentInfo::new(stats_acc.blocks_metas, Statistics {
                row_count: stats_acc.summary_row_count,
                block_count: stats_acc.summary_block_count,
                uncompressed_byte_size: stats_acc.in_memory_size,
                compressed_byte_size: stats_acc.file_size,
                index_size: stats_acc.index_size,
                col_stats,
            })
            .unwrap();
            let location = Location::new(format!("test/_sg/seg_{}_v1.json", idx), 1);
            segments.push((segment_info, location));
        }
        (segments, collected_blocks)
    }

    /// Writes the merged segments of a plan and turns the plan into a state.
    fn finalize(&mut self, plan: CompactionPlan) -> SegmentCompactionState {
        let mut written = vec![];
        for entry in plan.entries() {
            if let CompactedSegment::Merged { segment } = entry {
                let location = Location::new(format!("test/_sg/new_{}_v1.json", written.len()), 1);
                self.store.insert(location.path.clone(), segment.clone());
                written.push(location);
            }
        }
        plan.into_state(written).unwrap()
    }

    fn read(&self, path: &str) -> SegmentInfo {
        self.store.get(path).unwrap().clone()
    }

    fn verify_general_invariants(&self, case_name: &str, accumulated_state: &SegmentCompactionState) {
        // - blocks should be there and in the order of the table
        let segments_after_compaction = &accumulated_state.segments_locations;
        let mut idx = 0;
        for location in segments_after_compaction {
            let segment = self.read(&location.path);
            for x in segment.blocks() {
                let expected_block_meta = &self.blocks[idx];
                assert_eq!(expected_block_meta, x, "case : {}", case_name);
                idx += 1;
            }
        }
        assert_eq!(idx, self.blocks.len(), "case : {}", case_name);
    }
}

#[test]
fn test_segment_accumulator() {
    let block_per_seg = 10;

    {
        // case: highly fragmented segments

        let num_block_of_segments = vec![2, 2, 2, 2];
        // settings:
        // - block_per_seg is 10
        // - 4 segments, each of them have 2 blocks
        // expects:
        // - all the segments should be merged into one

        // setup & run
        let mut case = CompactSegmentTestFixture::try_new(block_per_seg);
        let seg_acc = case.run(&num_block_of_segments);
        let state = case.finalize(seg_acc.finalize());

        // verify that:
        // - one newly generated segment
        assert_eq!(state.new_segment_paths.len(), 1);
        // - totally one segment collected
        assert_eq!(state.segments_locations.len(), 1);
        // - number of blocks should not change
        assert_eq!(
            state.statistics.block_count as usize,
            num_block_of_segments.into_iter().sum::<usize>()
        );
    }

    {
        // case: fragmented segments, greedy, no barrier

        let num_block_of_segments = vec![2, 3, 6, 5];

        // settings:
        // - block_per_seg is 10
        // - 4 segments
        // expects:
        // - the first 3 segments should be merged
        // - the last segment will be kept and unchanged

        // setup & run
        let mut case_fixture = CompactSegmentTestFixture::try_new(block_per_seg);
        let seg_acc = case_fixture.run(&num_block_of_segments);
        let compacted_state = case_fixture.finalize(seg_acc.finalize());

        // verify that:
        // - one newly generated segment
        assert_eq!(compacted_state.new_segment_paths.len(), 1);
        // - totally two segments collected
        assert_eq!(compacted_state.segments_locations.len(), 2);

        // - the first three are merged, the last one is where it was
        let merged = case_fixture.read(&compacted_state.new_segment_paths[0]);
        assert_eq!(merged.blocks().len(), 11);
        assert_eq!(compacted_state.segments_locations[1], case_fixture.segments[3].1);
        assert_eq!(
            case_fixture
                .read(&compacted_state.segments_locations[1].path)
                .blocks()
                .len(),
            5
        );

        // - verify general invariants
        case_fixture.verify_general_invariants("greedy", &compacted_state);
    }

    {
        // case: fragmented segments, not so greedy

        let num_block_of_segments = vec![2, 8, 1, 8];

        // settings:
        // - block_per_seg is 10
        // - 4 segments
        // expects:
        // - the first 2 segments should be merged
        //   THE THIRD SEGMENT SHOULD NOT BE MERGED
        // - the last 2 segments should be merged

        let expected_block_of_segments = vec![10, 9];

        // setup & run
        let mut case_fixture = CompactSegmentTestFixture::try_new(block_per_seg);
        let seg_acc = case_fixture.run(&num_block_of_segments);
        let r = case_fixture.finalize(seg_acc.finalize());

        for (idx, x) in r.new_segment_paths.iter().enumerate() {
            let seg = case_fixture.read(x);
            assert_eq!(seg.blocks().len(), expected_block_of_segments[idx]);
        }

        // verify that:
        // - 2 newly generated segment;
        assert_eq!(r.new_segment_paths.len(), 2);
        // - totally two segments collected
        assert_eq!(r.segments_locations.len(), 2);

        // number of blocks should not change
        assert_eq!(
            r.statistics.block_count as usize,
            num_block_of_segments.into_iter().sum::<usize>()
        );

        // - verify general invariants
        case_fixture.verify_general_invariants("greedy", &r);
    }

    {
        // case: fragmented segments, with barrier

        let num_block_of_segments = vec![2, 10, 6, 8];

        // settings:
        // - block_per_seg is 10
        // - 4 segments
        // expects:
        // - the first 2 segments should be merged
        // - the last 2 segments should be merged
        // thus:
        let expected_num_block_of_new_segments = vec![12, 14];

        // setup & run
        let mut case_fixture = CompactSegmentTestFixture::try_new(block_per_seg);
        let seg_acc = case_fixture.run(&num_block_of_segments);
        let r = case_fixture.finalize(seg_acc.finalize());

        for (idx, x) in r.new_segment_paths.iter().enumerate() {
            let seg = case_fixture.read(x);
            assert_eq!(seg.blocks().len(), expected_num_block_of_new_segments[idx]);
        }

        // verify that:
        // - 2 newly generated segment;
        assert_eq!(r.new_segment_paths.len(), 2);
        // - totally two segments collected
        assert_eq!(r.segments_locations.len(), 2);

        // number of blocks should not change
        assert_eq!(
            r.statistics.block_count as usize,
            num_block_of_segments.into_iter().sum::<usize>()
        );

        // - verify general invariants
        case_fixture.verify_general_invariants("greedy", &r);
    }

    // empty segment will be dropped
    {
        let mut accumulator = SegmentAccumulator::new(block_per_seg);
        let seg = SegmentInfo::new(vec![], Statistics::default()).unwrap();
        accumulator
            .add(seg, Location::new("test".to_owned(), 1))
            .unwrap();
        let plan = accumulator.finalize();
        assert_eq!(plan.entries().len(), 0);
        let r = plan.into_state(vec![]).unwrap();
        assert_eq!(r.new_segment_paths.len(), 0);
        assert_eq!(r.segments_locations.len(), 0);
    }
}

fn sizes_after(block_per_seg: u64, sizes: &[usize]) -> Vec<(bool, usize)> {
    let (segments, _) = CompactSegmentTestFixture::gen_segments(sizes);
    let plan = compact_segments(block_per_seg, segments, None).unwrap();
    plan.entries()
        .iter()
        .map(|e| (e.is_merged(), e.segment().blocks().len()))
        .collect()
}

#[test]
fn test_segment_above_twice_the_threshold_is_left_alone() {
    // the large segment closes the pending group and is not merged into it
    assert_eq!(sizes_after(10, &[3, 4, 21, 5]), vec![
        (true, 7),
        (false, 21),
        (false, 5)
    ]);
    // a segment of exactly twice the threshold still joins the group
    assert_eq!(sizes_after(10, &[3, 20, 5]), vec![(true, 23), (false, 5)]);
    // alone, a large segment is kept as any single segment is
    assert_eq!(sizes_after(10, &[25]), vec![(false, 25)]);
}

#[test]
fn test_single_segment_reaching_the_threshold_is_kept() {
    assert_eq!(sizes_after(10, &[10, 12, 3]), vec![
        (false, 10),
        (false, 12),
        (false, 3)
    ]);
}

#[test]
fn test_partial_group_is_merged_at_the_end() {
    assert_eq!(sizes_after(10, &[10, 1, 2]), vec![(false, 10), (true, 3)]);
}

#[test]
fn test_empty_segments_never_stand_alone() {
    // alone in its group: left out
    assert_eq!(sizes_after(10, &[0]), vec![]);
    assert_eq!(sizes_after(10, &[10, 0]), vec![(false, 10)]);
    // several empty segments: left out as well
    assert_eq!(sizes_after(10, &[0, 0, 0]), vec![]);
    // together with others: merged away
    assert_eq!(sizes_after(10, &[0, 4]), vec![(true, 4)]);
    assert_eq!(sizes_after(10, &[4, 0, 7]), vec![(true, 11)]);
    // no input, no output
    assert_eq!(sizes_after(10, &[]), vec![]);
}

#[test]
fn test_threshold_zero_keeps_every_segment() {
    assert_eq!(sizes_after(0, &[1, 0, 2]), vec![(false, 1), (false, 2)]);
}

#[test]
fn test_compaction_is_lossless_and_keeps_statistics() {
    let sizes = [1, 0, 9, 3, 30, 2, 2, 0, 7, 11, 1];
    let (segments, blocks) = CompactSegmentTestFixture::gen_segments(&sizes);
    let mut expected = Statistics::default();
    for b in &blocks {
        expected = merge_statistics(&expected, &b.summary()).unwrap();
    }
    let plan = compact_segments(10, segments.clone(), None).unwrap();
    let mut seen = vec![];
    for entry in plan.entries() {
        assert!(!entry.segment().blocks().is_empty());
        if let CompactedSegment::Kept { location, segment } = entry {
            assert!(segments.iter().any(|(s, l)| s == segment && l == location));
        }
        seen.extend(entry.segment().blocks().iter().cloned());
    }
    assert_eq!(seen, blocks);
    assert_eq!(plan.statistics(), &expected);
    assert_eq!(plan.statistics().block_count, 66);
    assert_eq!(plan.statistics().row_count, 66);
    assert_eq!(plan.statistics().col_stats[0].min, 0);
    assert_eq!(plan.statistics().col_stats[0].max, 65);
}

#[test]
fn test_compaction_fails_on_statistics_overflow() {
    let mut big = sample_block(0);
    big.row_count = u64::MAX;
    let a = SegmentInfo::from_blocks(vec![big]).unwrap();
    let b = SegmentInfo::from_blocks(vec![sample_block(1)]).unwrap();
    let r = compact_segments(
        10,
        vec![
            (a.clone(), Location::new("a".to_owned(), 1)),
            (b.clone(), Location::new("b".to_owned(), 1)),
        ],
        None,
    );
    assert_eq!(r.err().unwrap().kind(), ErrorKind::Internal);

    let mut acc = SegmentAccumulator::new(10);
    acc.add(a, Location::new("a".to_owned(), 1)).unwrap();
    let e = acc.add(b, Location::new("b".to_owned(), 1)).err().unwrap();
    assert_eq!(e.kind(), ErrorKind::Internal);
    // the accumulator is as it was
    let plan = acc.finalize();
    assert_eq!(plan.entries().len(), 1);
    assert_eq!(plan.statistics().row_count, u64::MAX);
}

#[test]
fn test_into_state_places_written_segments() {
    let (segments, _) = CompactSegmentTestFixture::gen_segments(&[4, 4, 4, 12, 1, 2]);
    let plan = compact_segments(10, segments.clone(), None).unwrap();
    assert_eq!(plan.merged_len(), 2);
    let state = plan
        .into_state(vec![
            Location::new("new/a".to_owned(), 1),
            Location::new("new/b".to_owned(), 1),
        ])
        .unwrap();
    assert_eq!(state.new_segment_paths, vec![
        "new/a".to_owned(),
        "new/b".to_owned()
    ]);
    assert_eq!(state.segments_locations, vec![
        Location::new("new/a".to_owned(), 1),
        segments[3].1.clone(),
        Location::new("new/b".to_owned(), 1),
    ]);
    assert_eq!(state.statistics.block_count, 27);

    let plan = compact_segments(10, segments, None).unwrap();
    let e = plan
        .into_state(vec![Location::new("new/a".to_owned(), 1)])
        .err()
        .unwrap();
    assert_eq!(e.kind(), ErrorKind::IllegalInput);
}

#[test]
fn test_nothing_to_commit_without_new_segments() {
    let mut table = TestTable::create(10);
    table.append_rows(1);
    assert!(table.compact().is_none());

    let mut table = TestTable::create(1);
    table.append_rows(5);
    assert!(table.compact().is_none());
}

#[test]
fn test_detect_conflicts() {
    let loc = |p: &str| Location::new(p.to_owned(), 1);
    let snapshot = |id: u128, segments: Vec<Location>| TableSnapshot {
        snapshot_id: id,
        prev_snapshot_id: None,
        segments,
        summary: Statistics::default(),
    };
    let base = snapshot(7, vec![loc("a"), loc("b")]);

    assert!(matches!(
        detect_conflicts(&base, &snapshot(7, vec![loc("a"), loc("b")])),
        Conflict::NoChange
    ));
    match detect_conflicts(&base, &snapshot(8, vec![loc("a"), loc("b"), loc("c"), loc("d")])) {
        Conflict::Resolvable { appended } => assert_eq!(appended, vec![loc("c"), loc("d")]),
        other => panic!("unexpected {:?}", other),
    }
    match detect_conflicts(&base, &snapshot(8, vec![loc("a"), loc("b")])) {
        Conflict::Resolvable { appended } => assert!(appended.is_empty()),
        other => panic!("unexpected {:?}", other),
    }
    // removed, replaced, reordered, or put in front
    for segments in [
        vec![loc("a")],
        vec![loc("a"), loc("x"), loc("c")],
        vec![loc("b"), loc("a")],
        vec![loc("c"), loc("a"), loc("b")],
        vec![Location::new("a".to_owned(), 2), loc("b")],
    ] {
        assert!(matches!(
            detect_conflicts(&base, &snapshot(8, segments)),
            Conflict::Unresolvable
        ));
    }
}

fn sample_mutator(max_retries: u64) -> SegmentCompactMutator {
    let base = TableSnapshot {
        snapshot_id: 10,
        prev_snapshot_id: None,
        segments: vec![
            Location::new("a".to_owned(), 1),
            Location::new("b".to_owned(), 1),
        ],
        summary: Statistics::default(),
    };
    let state = SegmentCompactionState {
        new_segment_paths: vec!["m".to_owned()],
        segments_locations: vec![Location::new("m".to_owned(), 1)],
        statistics: Statistics {
            row_count: 20,
            block_count: 2,
            uncompressed_byte_size: 16,
            compressed_byte_size: 10,
            index_size: 6,
            col_stats: vec![],
        },
    };
    SegmentCompactMutator::try_new(base, state, 99, max_retries).unwrap()
}

fn live_with(id: u128, paths: &[&str]) -> TableSnapshot {
    TableSnapshot {
        snapshot_id: id,
        prev_snapshot_id: Some(10),
        segments: paths
            .iter()
            .map(|p| Location::new((*p).to_owned(), 1))
            .collect(),
        summary: Statistics::default(),
    }
}

#[test]
fn test_commit_splices_appended_segments() {
    let mut m = sample_mutator(0);
    assert!(matches!(m.start(), CommitAction::ReadLiveSnapshot));
    match m.step(CommitEvent::LiveSnapshot(live_with(11, &["a", "b", "c"]))) {
        CommitAction::ReadSummaries(l) => assert_eq!(l, vec![Location::new("c".to_owned(), 1)]),
        other => panic!("unexpected {:?}", other),
    }
    assert!(matches!(m.phase(), CommitPhase::Splice { live_id: 11, .. }));
    let appended = Statistics {
        row_count: 5,
        block_count: 1,
        uncompressed_byte_size: 1,
        compressed_byte_size: 2,
        index_size: 3,
        col_stats: vec![],
    };
    match m.step(CommitEvent::AppendedSummaries(vec![appended])) {
        CommitAction::Publish {
            expected_prev,
            snapshot,
        } => {
            assert_eq!(expected_prev, 11);
            assert_eq!(snapshot.snapshot_id, 99);
            assert_eq!(snapshot.prev_snapshot_id, Some(11));
            assert_eq!(snapshot.segments, vec![
                Location::new("m".to_owned(), 1),
                Location::new("c".to_owned(), 1)
            ]);
            assert_eq!(snapshot.summary, Statistics {
                row_count: 25,
                block_count: 3,
                uncompressed_byte_size: 17,
                compressed_byte_size: 12,
                index_size: 9,
                col_stats: vec![],
            });
        }
        other => panic!("unexpected {:?}", other),
    }
    assert!(matches!(m.phase(), CommitPhase::AtomicPublish));
    assert!(!m.is_finished());
    assert!(matches!(
        m.step(CommitEvent::Published),
        CommitAction::Finished
    ));
    assert!(matches!(m.phase(), CommitPhase::Success));
    assert!(m.is_finished());
}

#[test]
fn test_commit_retries_a_lost_race_within_budget() {
    let mut m = sample_mutator(1);
    assert!(matches!(
        m.step(CommitEvent::LiveSnapshot(live_with(10, &["a", "b"]))),
        CommitAction::Publish {
            expected_prev: 10,
            ..
        }
    ));
    // first lost race: read again
    assert!(matches!(
        m.step(CommitEvent::LostRace),
        CommitAction::ReadLiveSnapshot
    ));
    assert!(matches!(m.phase(), CommitPhase::ReadLive));
    assert!(matches!(
        m.step(CommitEvent::LiveSnapshot(live_with(12, &["a", "b"]))),
        CommitAction::ReadSummaries(_)
    ));
    assert!(matches!(
        m.step(CommitEvent::AppendedSummaries(vec![])),
        CommitAction::Publish {
            expected_prev: 12,
            ..
        }
    ));
    // second lost race: the budget is used up
    match m.step(CommitEvent::LostRace) {
        CommitAction::Fail(e) => assert_eq!(e.kind(), ErrorKind::StorageConflict),
        other => panic!("unexpected {:?}", other),
    }
    assert!(matches!(m.phase(), CommitPhase::ConflictError));
    assert!(m.is_finished());
}

#[test]
fn test_commit_refuses_events_out_of_turn() {
    let mut m = sample_mutator(1);
    match m.step(CommitEvent::Published) {
        CommitAction::Fail(e) => assert_eq!(e.kind(), ErrorKind::Internal),
        other => panic!("unexpected {:?}", other),
    }
    assert!(matches!(m.phase(), CommitPhase::ReadLive));

    m.step(CommitEvent::LiveSnapshot(live_with(11, &["a", "b", "c"])));
    // one summary is needed, two are given
    match m.step(CommitEvent::AppendedSummaries(vec![
        Statistics::default(),
        Statistics::default(),
    ])) {
        CommitAction::Fail(e) => assert_eq!(e.kind(), ErrorKind::IllegalInput),
        other => panic!("unexpected {:?}", other),
    }
    // a summary that does not fit
    let mut huge = Statistics::default();
    huge.row_count = u64::MAX;
    match m.step(CommitEvent::AppendedSummaries(vec![huge])) {
        CommitAction::Fail(e) => assert_eq!(e.kind(), ErrorKind::Internal),
        other => panic!("unexpected {:?}", other),
    }
    assert!(matches!(m.phase(), CommitPhase::Splice { .. }));

    // an attempt that has ended takes nothing more
    let mut m = sample_mutator(1);
    match m.step(CommitEvent::LiveSnapshot(live_with(11, &["b", "a"]))) {
        CommitAction::Fail(e) => assert_eq!(e.kind(), ErrorKind::StorageConflict),
        other => panic!("unexpected {:?}", other),
    }
    match m.step(CommitEvent::LiveSnapshot(live_with(10, &["a", "b"]))) {
        CommitAction::Fail(e) => assert_eq!(e.kind(), ErrorKind::Internal),
        other => panic!("unexpected {:?}", other),
    }
    assert!(matches!(m.phase(), CommitPhase::ConflictError));
}

fn limited_sizes(block_per_seg: u64, sizes: &[usize], limit: Option<usize>) -> Vec<(bool, usize)> {
    let (segments, _) = CompactSegmentTestFixture::gen_segments(sizes);
    let plan = compact_segments(block_per_seg, segments, limit).unwrap();
    plan.entries()
        .iter()
        .map(|e| (e.is_merged(), e.segment().blocks().len()))
        .collect()
}

#[test]
fn test_limit_bounds_the_segments_that_are_regrouped() {
    let sizes = [2, 2, 2, 2, 0, 3];
    // without a limit everything is merged
    assert_eq!(limited_sizes(10, &sizes, None), vec![(true, 11)]);
    assert_eq!(limited_sizes(10, &sizes, Some(6)), vec![(true, 11)]);
    assert_eq!(limited_sizes(10, &sizes, Some(100)), vec![(true, 11)]);
    // the first three are regrouped, the others stay; the empty one is left out
    assert_eq!(limited_sizes(10, &sizes, Some(3)), vec![
        (true, 6),
        (false, 2),
        (false, 3)
    ]);
    assert_eq!(limited_sizes(10, &sizes, Some(1)), vec![
        (false, 2),
        (false, 2),
        (false, 2),
        (false, 2),
        (false, 3)
    ]);
    assert_eq!(limited_sizes(10, &sizes, Some(0)), vec![
        (false, 2),
        (false, 2),
        (false, 2),
        (false, 2),
        (false, 3)
    ]);
}

#[test]
fn test_keep_closes_the_pending_group() {
    let (segments, blocks) = CompactSegmentTestFixture::gen_segments(&[1, 2, 4, 0, 5]);
    let mut acc = SegmentAccumulator::new(10);
    assert_eq!(acc.threshold(), 10);
    let mut it = segments.clone().into_iter();
    let (s, l) = it.next().unwrap();
    acc.add(s, l).unwrap();
    let (s, l) = it.next().unwrap();
    acc.add(s, l).unwrap();
    let (s, l) = it.next().unwrap();
    acc.keep(s, l).unwrap();
    let (s, l) = it.next().unwrap();
    acc.keep(s, l).unwrap();
    let (s, l) = it.next().unwrap();
    acc.add(s, l).unwrap();
    let plan = acc.finalize();
    let got: Vec<(bool, usize)> = plan
        .entries()
        .iter()
        .map(|e| (e.is_merged(), e.segment().blocks().len()))
        .collect();
    assert_eq!(got, vec![(true, 3), (false, 4), (false, 5)]);
    let all: Vec<BlockMeta> = plan
        .entries()
        .iter()
        .flat_map(|e| e.segment().blocks().iter().cloned())
        .collect();
    assert_eq!(all, blocks);
}

#[test]
fn test_plan_compaction() {
    let (segments, _) = CompactSegmentTestFixture::gen_segments(&[2, 3, 6, 5]);
    let plan = plan_compaction(CompactTarget::Segments, 10, segments.clone(), None)
        .unwrap()
        .unwrap();
    assert_eq!(plan.merged_len(), 1);
    assert_eq!(plan.entries().len(), 2);
    assert_eq!(plan.statistics().block_count, 16);

    // nothing would be written: nothing to do
    assert!(plan_compaction(CompactTarget::Segments, 10, segments.clone(), Some(1))
        .unwrap()
        .is_none());
    let (single, _) = CompactSegmentTestFixture::gen_segments(&[10, 12, 0]);
    assert!(plan_compaction(CompactTarget::Segments, 10, single, None)
        .unwrap()
        .is_none());
    assert!(plan_compaction(CompactTarget::Segments, 10, vec![], None)
        .unwrap()
        .is_none());

    // blocks are not compacted here
    let e = plan_compaction(CompactTarget::Blocks, 10, segments, None)
        .err()
        .unwrap();
    assert_eq!(e.kind(), ErrorKind::IllegalInput);
    assert_eq!(
        check_target(CompactTarget::Blocks).err().unwrap().kind(),
        ErrorKind::IllegalInput
    );
    assert!(check_target(CompactTarget::Segments).is_ok());

    let mut big = sample_block(0);
    big.file_size = u64::MAX;
    let a = SegmentInfo::from_blocks(vec![big]).unwrap();
    let b = SegmentInfo::from_blocks(vec![sample_block(1)]).unwrap();
    let e = plan_compaction(
        CompactTarget::Segments,
        10,
        vec![
            (a, Location::new("a".to_owned(), 1)),
            (b, Location::new("b".to_owned(), 1)),
        ],
        Some(0),
    )
    .err()
    .unwrap();
    assert_eq!(e.kind(), ErrorKind::Internal);
}

#[test]
fn test_merged_segments_stay_below_three_times_the_threshold() {
    for sizes in [
        vec![9, 20, 1, 9, 20, 9, 9, 1],
        vec![1; 40],
        vec![7, 7, 7, 7, 7],
        vec![9, 21, 9, 20],
    ] {
        for (merged, n) in limited_sizes(10, &sizes, None) {
            assert!(n > 0);
            if merged {
                assert!(n < 30);
            }
        }
    }
    assert_eq!(limited_sizes(10, &[9, 20], None), vec![(true, 29)]);
}

#[test]
fn test_location_generator() {
    let g = TableMetaLocationGenerator::with_prefix("./test".to_owned());
    assert_eq!(g.prefix(), "./test");
    assert_eq!(
        g.gen_block_location(7, 0),
        Location::new("./test/_b/7_v0.parquet".to_owned(), 0)
    );
    assert_eq!(
        g.gen_segment_info_location(340282366920938463463374607431768211455, 1),
        Location::new(
            "./test/_sg/340282366920938463463374607431768211455_v1.json".to_owned(),
            1
        )
    );
    assert_eq!(
        g.snapshot_location_from_uuid(0, 12),
        Location::new("./test/_ss/0_v12.json".to_owned(), 12)
    );
    assert_eq!(
        g.location(ObjectKind::Segment, 10, 2),
        g.gen_segment_info_location(10, 2)
    );
    // the same identity gives the same place, another identity another place
    assert_eq!(
        g.gen_segment_info_location(10, 2),
        g.gen_segment_info_location(10, 2)
    );
    assert!(g.gen_segment_info_location(10, 2) != g.gen_segment_info_location(11, 2));
    assert!(g.gen_segment_info_location(1, 2) != g.gen_segment_info_location(12, 2));
}

#[test]
fn test_segment_cache() {
    let (segments, _) = CompactSegmentTestFixture::gen_segments(&[1, 2, 3]);
    let mut cache = SegmentCache::new();
    assert_eq!(cache.len(), 0);
    assert!(cache.get(&segments[0].1).is_none());

    cache.put(segments[0].1.clone(), segments[0].0.clone());
    cache.put(segments[1].1.clone(), segments[1].0.clone());
    assert_eq!(cache.len(), 2);
    assert_eq!(cache.get(&segments[0].1), Some(&segments[0].0));
    assert_eq!(cache.get(&segments[1].1), Some(&segments[1].0));
    assert!(cache.get(&segments[2].1).is_none());

    // the version is part of the key
    let other_version = Location::new(segments[0].1.path.clone(), 9);
    assert!(cache.get(&other_version).is_none());
    cache.put(other_version.clone(), segments[2].0.clone());
    assert_eq!(cache.len(), 3);
    assert_eq!(cache.get(&other_version), Some(&segments[2].0));
    assert_eq!(cache.get(&segments[0].1), Some(&segments[0].0));

    // a second put replaces the first
    cache.put(segments[0].1.clone(), segments[2].0.clone());
    assert_eq!(cache.len(), 3);
    assert_eq!(cache.get(&segments[0].1), Some(&segments[2].0));
    assert_eq!(cache.get(&segments[1].1), Some(&segments[1].0));
}

#[test]
fn test_compact_in_memory() {
    let generator = TableMetaLocationGenerator::with_prefix("t".to_owned());
    let mut table = TestTable::create(10);
    table.append_rows(4);
    let live = table.live();
    let before = table.segments.len();

    // blocks are not compacted, and nothing is read or written
    let e = compact(
        &table.table,
        &mut table.segments,
        &generator,
        100,
        CompactTarget::Blocks,
        None,
    )
    .err()
    .unwrap();
    assert_eq!(e.kind(), ErrorKind::IllegalInput);

    // nothing to merge within the limit
    assert!(compact(
        &table.table,
        &mut table.segments,
        &generator,
        100,
        CompactTarget::Segments,
        Some(1)
    )
    .unwrap()
    .is_none());
    assert_eq!(table.segments.len(), before);

    // the identities have run out
    let e = compact(
        &table.table,
        &mut table.segments,
        &generator,
        u128::MAX,
        CompactTarget::Segments,
        None,
    )
    .err()
    .unwrap();
    assert_eq!(e.kind(), ErrorKind::Internal);
    assert_eq!(table.segments.len(), before);

    let mutator = compact(
        &table.table,
        &mut table.segments,
        &generator,
        100,
        CompactTarget::Segments,
        None,
    )
    .unwrap()
    .unwrap();
    let merged_at = generator.gen_segment_info_location(101, 1);
    assert_eq!(merged_at.path, "t/_sg/101_v1.json");
    assert_eq!(mutator.compaction().new_segment_paths, vec![merged_at
        .path
        .clone()]);
    assert_eq!(mutator.compaction().segments_locations, vec![merged_at.clone()]);
    assert_eq!(mutator.compaction().statistics, live.summary);
    assert_eq!(table.segments.len(), before + 1);
    let merged = table.segments.get(&merged_at).unwrap().clone();
    let mut blocks = vec![];
    for l in &live.segments {
        blocks.extend(table.read(l).blocks().iter().cloned());
    }
    assert_eq!(merged.blocks(), &blocks);
    // the table itself is untouched until the commit
    assert_eq!(table.live().snapshot_id, live.snapshot_id);

    // the same identities again: the location is taken
    let e = compact(
        &table.table,
        &mut table.segments,
        &generator,
        100,
        CompactTarget::Segments,
        None,
    )
    .err()
    .unwrap();
    assert_eq!(e.kind(), ErrorKind::StorageIO);
    assert_eq!(table.segments.len(), before + 1);

    table.try_commit(mutator).unwrap();
    assert_eq!(table.live().snapshot_id, 100);
    assert_eq!(table.live().segments, vec![merged_at]);

    // a segment of the table that is not in memory cannot be compacted
    let mut elsewhere = TableState::new(
        TableSnapshot {
            snapshot_id: 1,
            prev_snapshot_id: None,
            segments: vec![Location::new("nowhere".to_owned(), 1)],
            summary: Statistics::default(),
        },
        10,
    );
    let e = compact(
        &elsewhere,
        &mut table.segments,
        &generator,
        200,
        CompactTarget::Segments,
        None,
    )
    .err()
    .unwrap();
    assert_eq!(e.kind(), ErrorKind::StorageIO);
    assert!(elsewhere.publish(1, live).is_ok());
}
