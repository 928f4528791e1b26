use vstd::prelude::*;

use crate::load_table_task::texts;
use crate::sorted_vec::{lemma_map_at, EntityWithStrKey, SortedVecWithStrKey};
use crate::str_key::same_text;

verus! {

/// A partition as the store holds it: its key and when it was written there.
pub struct BlobPartition {
    pub partition_key: String,
    pub written: i64,
}

impl EntityWithStrKey for BlobPartition {
    open spec fn key(&self) -> Seq<char> {
        self.partition_key@
    }

    fn get_key(&self) -> (r: &str) {
        self.partition_key.as_str()
    }
}

/// What to do with one partition to bring the store in line with a table.
pub enum PartitionSync {
    /// Write the partition: the store does not hold it.
    Upload(String),
    /// Write the partition if it changed since the store's copy was written
    /// at `written_in_store`.
    UploadIfChanged { partition_key: String, written_in_store: i64 },
    /// Delete the partition from the store: the table no longer has it.
    Delete(String),
}

/// What is known of a step of the synchronisation.
pub enum SyncStep {
    Upload(Seq<char>),
    UploadIfChanged(Seq<char>, i64),
    Delete(Seq<char>),
}

pub open spec fn sync_view(p: PartitionSync) -> SyncStep {
    match p {
        PartitionSync::Upload(k) => SyncStep::Upload(k@),
        PartitionSync::UploadIfChanged { partition_key, written_in_store } => SyncStep::UploadIfChanged(
            partition_key@,
            written_in_store,
        ),
        PartitionSync::Delete(k) => SyncStep::Delete(k@),
    }
}

/// The step for the `i`-th partition of the table: the store's copy is
/// compared the first time a key comes up; otherwise it is written.
pub open spec fn step_for(keys: Seq<Seq<char>>, i: int, store: Map<Seq<char>, i64>) -> SyncStep {
    if store.contains_key(keys[i]) && !keys.take(i).contains(keys[i]) {
        SyncStep::UploadIfChanged(keys[i], store[keys[i]])
    } else {
        SyncStep::Upload(keys[i])
    }
}

/// The deletions for the partitions of the store, in order of their keys,
/// that the table does not have.
pub open spec fn deletions(store: Seq<BlobPartition>, keys: Seq<Seq<char>>) -> Seq<SyncStep>
    decreases store.len(),
{
    if store.len() == 0 {
        Seq::empty()
    } else {
        let rest = deletions(store.drop_last(), keys);
        if keys.contains(store.last().partition_key@) {
            rest
        } else {
            rest.push(SyncStep::Delete(store.last().partition_key@))
        }
    }
}

/// The deletions name exactly the stored partitions that the table does
/// not have: no deletion names a partition of the table, and every stored
/// partition missing from the table is deleted.
pub proof fn law_deletions_are_the_missing_partitions(store: Seq<BlobPartition>, keys: Seq<Seq<char>>)
    ensures
        forall|j: int| 0 <= j < deletions(store, keys).len() ==> {
            &&& #[trigger] deletions(store, keys)[j] matches SyncStep::Delete(k)
            &&& !keys.contains(k)
            &&& exists|i: int| 0 <= i < store.len() && store[i].partition_key@ == k
        },
        forall|i: int| 0 <= i < store.len() && !keys.contains(#[trigger] store[i].partition_key@) ==> deletions(store, keys).contains(
            SyncStep::Delete(store[i].partition_key@),
        ),
    decreases store.len(),
{
    if store.len() > 0 {
        let rest = store.drop_last();
        law_deletions_are_the_missing_partitions(rest, keys);
        let d = deletions(store, keys);
        let dr = deletions(rest, keys);
        assert forall|j: int| 0 <= j < d.len() implies {
            &&& #[trigger] d[j] matches SyncStep::Delete(k)
            &&& !keys.contains(k)
            &&& exists|i: int| 0 <= i < store.len() && store[i].partition_key@ == k
        } by {
            if j < dr.len() {
                assert(d[j] == dr[j]);
                let k = d[j]->Delete_0;
                let i = choose|i: int| 0 <= i < rest.len() && rest[i].partition_key@ == k;
                assert(store[i] == rest[i]);
            } else {
                assert(store[store.len() - 1] == store.last());
            }
        }
        assert forall|i: int| 0 <= i < store.len() && !keys.contains(#[trigger] store[i].partition_key@) implies d.contains(
            SyncStep::Delete(store[i].partition_key@),
        ) by {
            if i < rest.len() {
                assert(rest[i] == store[i]);
                let j = choose|j: int| 0 <= j < dr.len() && dr[j] == SyncStep::Delete(rest[i].partition_key@);
                assert(d[j] == dr[j]);
            } else {
                assert(store[i] == store.last());
                assert(d[d.len() - 1] == SyncStep::Delete(store[i].partition_key@));
            }
        }
    }
}

/// Every partition of the table gets a write step naming it; it is
/// compared with the store's copy only when the store holds it, and then
/// against the moment that copy was written.
pub proof fn law_every_partition_is_written(keys: Seq<Seq<char>>, i: int, store: Map<Seq<char>, i64>)
    requires
        0 <= i < keys.len(),
    ensures
        step_for(keys, i, store) matches SyncStep::Upload(k) ==> k == keys[i],
        step_for(keys, i, store) matches SyncStep::UploadIfChanged(k, w) ==> k == keys[i] && store.contains_key(k) && store[k] == w,
        !(step_for(keys, i, store) is Delete),
        !store.contains_key(keys[i]) ==> step_for(keys, i, store) == SyncStep::Upload(keys[i]),
{
}

/// Whether `keys` holds `key`.
fn contains_text(keys: &Vec<String>, key: &str, n: usize) -> (r: bool)
    requires
        n <= keys@.len(),
    ensures
        r == texts(keys@).take(n as int).contains(key@),
{
    let mut j: usize = 0;
    while j < n
        invariant
            n <= keys@.len(),
            j <= n,
            forall|k: int| 0 <= k < j ==> keys@[k]@ != key@,
        decreases n - j,
    {
        if same_text(keys[j].as_str(), key) {
            assert(texts(keys@).take(n as int)[j as int] == key@);
            return true;
        }
        j = j + 1;
    }
    assert forall|k: int| 0 <= k < n implies texts(keys@).take(n as int)[k] != key@ by {
        assert(keys@[k]@ != key@);
    }
    false
}

/// The steps that bring the store in line with a table whose partitions
/// have the keys `partition_keys`, given the partitions the store holds:
/// first, for each partition of the table in order, a write, or a write
/// if changed when the store holds it; then a deletion for each partition
/// of the store that the table does not have.
pub fn sync_plan(partition_keys: &Vec<String>, in_store: &SortedVecWithStrKey<BlobPartition>) -> (r: Vec<PartitionSync>)
    requires
        in_store.wf(),
    ensures
        r@.len() == partition_keys@.len() + deletions(in_store@, texts(partition_keys@)).len(),
        forall|i: int| 0 <= i < partition_keys@.len() ==> sync_view(#[trigger] r@[i]) == step_for(
            texts(partition_keys@),
            i,
            in_store.to_map().map_values(|b: BlobPartition| b.written),
        ),
        forall|i: int| 0 <= i < deletions(in_store@, texts(partition_keys@)).len() ==> sync_view(
            #[trigger] r@[partition_keys@.len() + i],
        ) == deletions(in_store@, texts(partition_keys@))[i],
        forall|j: int| 0 <= j < r@.len() && (#[trigger] sync_view(r@[j])) is Delete ==> !texts(
            partition_keys@,
        ).contains(sync_view(r@[j])->Delete_0),
        forall|i: int| 0 <= i < in_store@.len() && !texts(partition_keys@).contains(
            #[trigger] in_store@[i].partition_key@,
        ) ==> exists|j: int| 0 <= j < r@.len() && sync_view(r@[j]) == SyncStep::Delete(in_store@[i].partition_key@),
{
    let ghost keys = texts(partition_keys@);
    let ghost store = in_store.to_map().map_values(|b: BlobPartition| b.written);
    let mut result: Vec<PartitionSync> = Vec::new();
    let n = partition_keys.len();
    let mut i: usize = 0;
    while i < n
        invariant
            in_store.wf(),
            n == partition_keys@.len(),
            keys == texts(partition_keys@),
            store == in_store.to_map().map_values(|b: BlobPartition| b.written),
            i <= n,
            result@.len() == i,
            forall|j: int| 0 <= j < i ==> sync_view(#[trigger] result@[j]) == step_for(keys, j, store),
        decreases n - i,
    {
        let key = partition_keys[i].as_str();
        assert(keys[i as int] == key@);
        let seen = contains_text(partition_keys, key, i);
        let step = match in_store.get(key) {
            Some(b) => {
                if seen {
                    PartitionSync::Upload(key.to_string())
                } else {
                    PartitionSync::UploadIfChanged { partition_key: key.to_string(), written_in_store: b.written }
                }
            },
            None => PartitionSync::Upload(key.to_string()),
        };
        assert(sync_view(step) == step_for(keys, i as int, store));
        result.push(step);
        i = i + 1;
    }
    let m = in_store.len();
    let mut k: usize = 0;
    while k < m
        invariant
            in_store.wf(),
            n == partition_keys@.len(),
            keys == texts(partition_keys@),
            store == in_store.to_map().map_values(|b: BlobPartition| b.written),
            m == in_store@.len(),
            k <= m,
            result@.len() == n + deletions(in_store@.take(k as int), keys).len(),
            forall|j: int| 0 <= j < n ==> sync_view(#[trigger] result@[j]) == step_for(keys, j, store),
            forall|j: int| 0 <= j < deletions(in_store@.take(k as int), keys).len() ==> sync_view(
                #[trigger] result@[n + j],
            ) == deletions(in_store@.take(k as int), keys)[j],
        decreases m - k,
    {
        let b = in_store.get_at(k);
        let ghost before = result@;
        let ghost prev = deletions(in_store@.take(k as int), keys);
        assert(in_store@.take(k + 1).drop_last() =~= in_store@.take(k as int));
        assert(in_store@.take(k + 1).last() == *b);
        if !contains_text(partition_keys, b.partition_key.as_str(), n) {
            assert(partition_keys@.len() == n);
            assert(texts(partition_keys@).take(n as int) =~= keys);
            result.push(PartitionSync::Delete(b.partition_key.clone()));
            assert forall|j: int| 0 <= j < deletions(in_store@.take(k + 1), keys).len() implies sync_view(
                #[trigger] result@[n + j],
            ) == deletions(in_store@.take(k + 1), keys)[j] by {
                if j < prev.len() {
                    assert(result@[n + j] == before[n + j]);
                }
            }
            assert forall|j: int| 0 <= j < n implies sync_view(#[trigger] result@[j]) == step_for(keys, j, store) by {
                assert(result@[j] == before[j]);
            }
        } else {
            assert(texts(partition_keys@).take(n as int) =~= keys);
        }
        k = k + 1;
    }
    assert(in_store@.take(m as int) =~= in_store@);
    proof {
        let dels = deletions(in_store@, keys);
        law_deletions_are_the_missing_partitions(in_store@, keys);
        assert forall|j: int| 0 <= j < result@.len() && (#[trigger] sync_view(result@[j])) is Delete implies !keys.contains(
            sync_view(result@[j])->Delete_0,
        ) by {
            if j < n {
                law_every_partition_is_written(keys, j, store);
            } else {
                assert(sync_view(result@[n + (j - n)]) == dels[j - n]);
            }
        }
        assert forall|i: int| 0 <= i < in_store@.len() && !keys.contains(#[trigger] in_store@[i].partition_key@) implies exists|j: int|
            0 <= j < result@.len() && sync_view(result@[j]) == SyncStep::Delete(in_store@[i].partition_key@) by {
            let t = choose|t: int| 0 <= t < dels.len() && dels[t] == SyncStep::Delete(in_store@[i].partition_key@);
            assert(sync_view(result@[n + t]) == dels[t]);
        }
    }
    result
}

} // verus!
