//! The last step of a `GROUP BY` without aggregates: the keys of all
//! partitions of one bucket are merged and every distinct key is kept once.

use std::collections::HashSet;
use vstd::prelude::*;

use crate::error::ErrorCode;
use crate::error::ErrorKind;

verus! {

broadcast use vstd::std_specs::hash::group_hash_axioms;

/// The group keys that one partition holds for a bucket.
#[derive(Debug)]
pub struct Payload {
    pub bucket: isize,
    pub keys: Vec<u64>,
}

/// What travels between the steps of an aggregation.
#[derive(Debug)]
pub enum AggregateMeta {
    /// Keys that arrived in serialised form.
    Serialized(Payload),
    /// Keys that arrived as a hash table.
    HashTable(Payload),
    /// A partition that is being written to disk.
    Spilling,
    /// A partition that was written to disk.
    Spilled,
    /// A bucket that was written to disk.
    BucketSpilled,
    /// All partitions of one bucket.
    Partitioned { bucket: isize, data: Vec<AggregateMeta> },
}

/// The keys of a partition, where the value is one.
pub open spec fn payload_keys(m: AggregateMeta) -> Seq<u64> {
    match m {
        AggregateMeta::Serialized(p) => p.keys@,
        AggregateMeta::HashTable(p) => p.keys@,
        _ => Seq::empty(),
    }
}

/// Whether the value is a partition of the given bucket that holds keys in memory.
pub open spec fn is_partition_of(m: AggregateMeta, bucket: isize) -> bool {
    match m {
        AggregateMeta::Serialized(p) => p.bucket == bucket,
        AggregateMeta::HashTable(p) => p.bucket == bucket,
        _ => false,
    }
}

/// A list of distinct keys with one more key, unless it is there already.
pub open spec fn insert_key(acc: Seq<u64>, key: u64) -> Seq<u64> {
    if acc.contains(key) {
        acc
    } else {
        acc.push(key)
    }
}

/// A list of distinct keys with further keys inserted in order.
pub open spec fn insert_all(acc: Seq<u64>, keys: Seq<u64>) -> Seq<u64>
    decreases keys.len(),
{
    if keys.len() == 0 {
        acc
    } else {
        insert_key(insert_all(acc, keys.drop_last()), keys.last())
    }
}

/// Whether the limit, if there is one, is reached with `count` distinct keys.
pub open spec fn limit_reached(limit: Option<usize>, count: nat) -> bool {
    match limit {
        Some(l) => count >= l,
        None => false,
    }
}

/// The distinct keys once the partitions from `from` on are merged into
/// `acc`, one partition after the other, ending early after the partition
/// with which the limit is reached.
pub open spec fn merge_from(
    acc: Seq<u64>,
    data: Seq<AggregateMeta>,
    from: int,
    limit: Option<usize>,
) -> Seq<u64>
    decreases data.len() - from,
{
    if from < 0 || from >= data.len() {
        acc
    } else {
        let next = insert_all(acc, payload_keys(data[from]));
        if limit_reached(limit, next.len()) {
            next
        } else {
            merge_from(next, data, from + 1, limit)
        }
    }
}

/// The number of partitions that are read when merging as `merge_from` does.
pub open spec fn read_until(
    acc: Seq<u64>,
    data: Seq<AggregateMeta>,
    from: int,
    limit: Option<usize>,
) -> int
    decreases data.len() - from,
{
    if from < 0 || from >= data.len() {
        from
    } else {
        let next = insert_all(acc, payload_keys(data[from]));
        if limit_reached(limit, next.len()) {
            from + 1
        } else {
            read_until(next, data, from + 1, limit)
        }
    }
}

/// Inserting keys keeps a list free of duplicates, and the list then holds
/// the keys it held and the inserted ones.
pub proof fn lemma_insert_all_distinct(acc: Seq<u64>, keys: Seq<u64>)
    requires
        acc.no_duplicates(),
    ensures
        insert_all(acc, keys).no_duplicates(),
        insert_all(acc, keys).to_set() == acc.to_set().union(keys.to_set()),
        acc.is_prefix_of(insert_all(acc, keys)),
    decreases keys.len(),
{
    if keys.len() == 0 {
        assert(acc.to_set().union(keys.to_set()) =~= acc.to_set());
    } else {
        let head = insert_all(acc, keys.drop_last());
        lemma_insert_all_distinct(acc, keys.drop_last());
        let all = insert_key(head, keys.last());
        assert(keys.drop_last().push(keys.last()) =~= keys);
        assert forall|k: u64| all.to_set().contains(k) <==> acc.to_set().union(
            keys.to_set(),
        ).contains(k) by {
            if all.contains(k) {
                if head.contains(k) {
                    assert(head.to_set().contains(k));
                    if keys.drop_last().to_set().contains(k) {
                        let j = choose|j: int|
                            0 <= j < keys.drop_last().len() && keys.drop_last()[j] == k;
                        assert(keys[j] == k);
                    }
                } else {
                    assert(all == head.push(keys.last()));
                    let j = choose|j: int| 0 <= j < all.len() && all[j] == k;
                    assert(j == head.len());
                    assert(keys[keys.len() - 1] == k);
                }
            }
            if acc.contains(k) {
                assert(head.to_set().contains(k));
                let j = choose|j: int| 0 <= j < head.len() && head[j] == k;
                assert(all[j] == k);
            }
            if keys.contains(k) {
                let j = choose|j: int| 0 <= j < keys.len() && keys[j] == k;
                if j < keys.len() - 1 {
                    assert(keys.drop_last()[j] == k);
                    assert(keys.drop_last().to_set().contains(k));
                    assert(head.to_set().contains(k));
                    let i = choose|i: int| 0 <= i < head.len() && head[i] == k;
                    assert(all[i] == k);
                } else {
                    if !head.contains(k) {
                        assert(all[head.len() as int] == k);
                    } else {
                        let i = choose|i: int| 0 <= i < head.len() && head[i] == k;
                        assert(all[i] == k);
                    }
                }
            }
        }
        assert(all.to_set() =~= acc.to_set().union(keys.to_set()));
    }
}

/// Whether `transform` takes the value: anything that is not the partitions
/// of one bucket is taken and refused; of the partitions of a bucket, each
/// one that is read has to hold its keys in memory and belong to the bucket.
pub open spec fn can_be_transformed(meta: AggregateMeta, limit: Option<usize>) -> bool {
    meta matches AggregateMeta::Partitioned { bucket, data } ==> forall|i: int|
        0 <= i < data@.len() && i < read_until(Seq::empty(), data@, 0, limit) ==> is_partition_of(
            #[trigger] data@[i],
            bucket,
        )
}

/// The message of the error for a value that is not the partitions of one bucket.
pub open spec fn not_partitioned_message() -> Seq<char> {
    "TransformFinalGroupBy only recv AggregateMeta::Partitioned"@
}

/// Groups keys for the result of a `GROUP BY`.
#[derive(Debug)]
pub struct TransformFinalGroupBy {
    limit: Option<usize>,
}

impl TransformFinalGroupBy {
    /// The step for a query with the given limit on the number of groups.
    pub fn try_create(limit: Option<usize>) -> (r: Result<TransformFinalGroupBy, ErrorCode>)
        ensures
            r is Ok,
            r->Ok_0.spec_limit() == limit,
    {
        Ok(TransformFinalGroupBy { limit })
    }

    /// The limit on the number of groups, if the query has one.
    pub closed spec fn spec_limit(&self) -> Option<usize> {
        self.limit
    }

    /// The name of the step.
    pub fn name(&self) -> (n: &'static str)
        ensures
            n@ == "TransformFinalGroupBy"@,
    {
        "TransformFinalGroupBy"
    }

    fn insert_keys(seen: &mut HashSet<u64>, out: &mut Vec<u64>, keys: &Vec<u64>)
        requires
            old(out)@.no_duplicates(),
            old(seen)@ == old(out)@.to_set(),
        ensures
            final(out)@ == insert_all(old(out)@, keys@),
            final(out)@.no_duplicates(),
            final(seen)@ == final(out)@.to_set(),
    {
        let ghost start = out@;
        let mut i: usize = 0;
        while i < keys.len()
            invariant
                i <= keys@.len(),
                out@ == insert_all(start, keys@.subrange(0, i as int)),
                out@.no_duplicates(),
                seen@ == out@.to_set(),
            decreases keys@.len() - i,
        {
            proof {
                let next = keys@.subrange(0, i + 1);
                assert(next.drop_last() =~= keys@.subrange(0, i as int));
                assert(next.last() == keys@[i as int]);
            }
            let key = keys[i];
            let ghost before = out@;
            if seen.insert(key) {
                out.push(key);
                assert(!before.contains(key));
                assert(out@.to_set() =~= before.to_set().insert(key)) by {
                    assert forall|k: u64| out@.contains(k) <==> (before.contains(k) || k
                        == key) by {
                        if before.contains(k) {
                            let j = choose|j: int| 0 <= j < before.len() && before[j] == k;
                            assert(out@[j] == k);
                        }
                        if k == key {
                            assert(out@[before.len() as int] == k);
                        }
                    }
                }
            } else {
                assert(before.contains(key));
                assert(before.to_set().insert(key) =~= before.to_set());
            }
            i += 1;
        }
        assert(keys@.subrange(0, i as int) =~= keys@);
    }

    /// Whether `transform` takes the value. This reads the partitions as
    /// `transform` does, and stops where it would stop.
    pub fn accepts(&self, meta: &AggregateMeta) -> (r: bool)
        ensures
            r == can_be_transformed(*meta, self.spec_limit()),
    {
        match meta {
            AggregateMeta::Partitioned { bucket, data } => {
                let mut seen: HashSet<u64> = HashSet::new();
                let mut out: Vec<u64> = Vec::new();
                let ghost end = read_until(Seq::empty(), data@, 0, self.limit);
                assert(out@.to_set() =~= Set::<u64>::empty());
                let mut i: usize = 0;
                while i < data.len()
                    invariant
                        i <= data@.len(),
                        *meta == (AggregateMeta::Partitioned { bucket: *bucket, data: *data }),
                        out@.no_duplicates(),
                        seen@ == out@.to_set(),
                        end == read_until(Seq::empty(), data@, 0, self.limit),
                        end == read_until(out@, data@, i as int, self.limit),
                        forall|j: int| 0 <= j < i ==> is_partition_of(#[trigger] data@[j], *bucket),
                    decreases data@.len() - i,
                {
                    proof {
                        lemma_read_until_advances(out@, data@, i as int, self.limit);
                    }
                    match &data[i] {
                        AggregateMeta::Serialized(payload) => {
                            if payload.bucket != *bucket {
                                assert(!is_partition_of(meta->data@[i as int], *bucket));
                                return false;
                            }
                            Self::insert_keys(&mut seen, &mut out, &payload.keys);
                        },
                        AggregateMeta::HashTable(payload) => {
                            if payload.bucket != *bucket {
                                assert(!is_partition_of(meta->data@[i as int], *bucket));
                                return false;
                            }
                            Self::insert_keys(&mut seen, &mut out, &payload.keys);
                        },
                        _ => {
                            assert(!is_partition_of(meta->data@[i as int], *bucket));
                            return false;
                        },
                    }
                    if let Some(limit) = self.limit {
                        if out.len() >= limit {
                            assert(end == i + 1);
                            return true;
                        }
                    }
                    i += 1;
                }
                assert(end == data@.len());
                true
            },
            _ => true,
        }
    }

    /// Merges the partitions of one bucket and returns every distinct key
    /// once, in the order in which the keys first occur. Partitions are read
    /// in order; with a limit, reading ends after the partition with which
    /// the number of distinct keys reaches the limit. Anything but the
    /// partitions of one bucket is refused with `Internal`.
    pub fn transform(&mut self, meta: AggregateMeta) -> (r: Result<Vec<u64>, ErrorCode>)
        requires
            can_be_transformed(meta, old(self).spec_limit()),
        ensures
            *final(self) == *old(self),
            r is Ok <==> meta is Partitioned,
            r is Ok ==> r->Ok_0@ == merge_from(
                Seq::empty(),
                meta->data@,
                0,
                old(self).spec_limit(),
            ),
            r is Ok ==> r->Ok_0@.no_duplicates(),
            r is Err ==> r->Err_0.kind == ErrorKind::Internal,
            r is Err ==> r->Err_0.message@ == not_partitioned_message(),
    {
        let ghost given = meta;
        match meta {
            AggregateMeta::Partitioned { bucket, data } => {
                let mut seen: HashSet<u64> = HashSet::new();
                let mut out: Vec<u64> = Vec::new();
                let ghost goal = merge_from(Seq::empty(), data@, 0, self.limit);
                let ghost end = read_until(Seq::empty(), data@, 0, self.limit);
                assert(out@.to_set() =~= Set::<u64>::empty());
                let mut i: usize = 0;
                while i < data.len()
                    invariant
                        i <= data@.len(),
                        *self == *old(self),
                        given == meta,
                        given == (AggregateMeta::Partitioned { bucket, data }),
                        out@.no_duplicates(),
                        seen@ == out@.to_set(),
                        goal == merge_from(Seq::empty(), data@, 0, self.limit),
                        goal == merge_from(out@, data@, i as int, self.limit),
                        end == read_until(out@, data@, i as int, self.limit),
                        forall|j: int|
                            0 <= j < data@.len() && j < end ==> is_partition_of(
                                #[trigger] data@[j],
                                bucket,
                            ),
                    decreases data@.len() - i,
                {
                    proof {
                        lemma_read_until_advances(out@, data@, i as int, self.limit);
                    }
                    assert(is_partition_of(data@[i as int], bucket));
                    match &data[i] {
                        AggregateMeta::Serialized(payload) => {
                            Self::insert_keys(&mut seen, &mut out, &payload.keys);
                        },
                        AggregateMeta::HashTable(payload) => {
                            Self::insert_keys(&mut seen, &mut out, &payload.keys);
                        },
                        _ => {},
                    }
                    if let Some(limit) = self.limit {
                        if out.len() >= limit {
                            return Ok(out);
                        }
                    }
                    i += 1;
                }
                Ok(out)
            },
            _ => Err(
                ErrorCode::new(
                    ErrorKind::Internal,
                    "TransformFinalGroupBy only recv AggregateMeta::Partitioned",
                ),
            ),
        }
    }
}

/// Reading from a partition onwards reads at least that partition.
pub proof fn lemma_read_until_advances(
    acc: Seq<u64>,
    data: Seq<AggregateMeta>,
    from: int,
    limit: Option<usize>,
)
    requires
        0 <= from < data.len(),
    ensures
        from < read_until(acc, data, from, limit) <= data.len(),
    decreases data.len() - from,
{
    let next = insert_all(acc, payload_keys(data[from]));
    if !limit_reached(limit, next.len()) {
        if from + 1 < data.len() {
            lemma_read_until_advances(next, data, from + 1, limit);
        } else {
            assert(read_until(next, data, from + 1, limit) == from + 1);
        }
    }
}

/// The keys that a merge returns are distinct.
pub proof fn lemma_merge_from_distinct(
    acc: Seq<u64>,
    data: Seq<AggregateMeta>,
    from: int,
    limit: Option<usize>,
)
    requires
        acc.no_duplicates(),
    ensures
        merge_from(acc, data, from, limit).no_duplicates(),
    decreases data.len() - from,
{
    if 0 <= from < data.len() {
        let next = insert_all(acc, payload_keys(data[from]));
        lemma_insert_all_distinct(acc, payload_keys(data[from]));
        if !limit_reached(limit, next.len()) {
            lemma_merge_from_distinct(next, data, from + 1, limit);
        }
    }
}

} // verus!
