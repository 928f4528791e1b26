use vstd::prelude::*;

use crate::partition_data::PartitionData;
use crate::persist_queue::{PersistEvent, PersistQueue};
use crate::row_data::RawData;
use crate::sorted_vec::{
    lemma_map_at, lemma_map_len, seq_to_map, EntityWithStrKey, SortedVecWithStrKey,
};
use crate::table_attributes::DbTableAttributes;

verus! {

/// The rows of a table: partition key to row key to content.
pub type TableView = Map<Seq<char>, Map<Seq<char>, Seq<char>>>;

/// `view` after row `row_key` of partition `partition_key` is set to `content`.
pub open spec fn view_after_insert(
    view: TableView,
    partition_key: Seq<char>,
    row_key: Seq<char>,
    content: Seq<char>,
) -> TableView {
    view.insert(
        partition_key,
        (if view.contains_key(partition_key) {
            view[partition_key]
        } else {
            Map::empty()
        }).insert(row_key, content),
    )
}

/// `view` after row `row_key` of partition `partition_key` is removed: a
/// partition left without rows goes too.
pub open spec fn view_after_delete_row(
    view: TableView,
    partition_key: Seq<char>,
    row_key: Seq<char>,
) -> TableView {
    if view.contains_key(partition_key) && view[partition_key].remove(row_key).len() > 0 {
        view.insert(partition_key, view[partition_key].remove(row_key))
    } else {
        view.remove(partition_key)
    }
}

/// A row as it is stored: partition key, row key, content.
pub struct DbRowDto {
    pub partition_key: String,
    pub row_key: String,
    pub content: String,
}

/// A stored row as (partition key, row key, content).
pub type RowEntry = (Seq<char>, Seq<char>, Seq<char>);

pub open spec fn dto_entry(d: DbRowDto) -> RowEntry {
    (d.partition_key@, d.row_key@, d.content@)
}

/// The rows of a partition, in order.
pub open spec fn partition_entries(p: PartitionData) -> Seq<RowEntry> {
    Seq::new(p.rows@.len(), |j: int| (p.partition_key@, p.rows@[j].row_key@, p.rows@[j].content@))
}

/// The rows of the partitions `ps`, partition after partition.
pub open spec fn entries_of(ps: Seq<PartitionData>) -> Seq<RowEntry>
    decreases ps.len(),
{
    if ps.len() == 0 {
        Seq::empty()
    } else {
        entries_of(ps.drop_last()) + partition_entries(ps.last())
    }
}

/// The rows of the batches `bs`, batch after batch.
pub open spec fn batches_entries(bs: Seq<Vec<DbRowDto>>) -> Seq<RowEntry>
    decreases bs.len(),
{
    if bs.len() == 0 {
        Seq::empty()
    } else {
        batches_entries(bs.drop_last()) + bs.last()@.map_values(|d: DbRowDto| dto_entry(d))
    }
}

/// `view` after the rows `rows` are written one after the other.
pub open spec fn view_after_rows(view: TableView, rows: Seq<DbRowDto>) -> TableView
    decreases rows.len(),
{
    if rows.len() == 0 {
        view
    } else {
        let last = rows.last();
        view_after_insert(
            view_after_rows(view, rows.drop_last()),
            last.partition_key@,
            last.row_key@,
            last.content@,
        )
    }
}

/// A batch of rows for the store is sent once it holds more than this many rows.
pub const BULK_INSERT_THRESHOLD: usize = 5000;

/// The rows of a table in memory, its settings, and the changes that wait
/// to be persisted.
pub struct TableCache {
    pub meta_data: DbTableAttributes,
    pub partitions: SortedVecWithStrKey<PartitionData>,
    pub persist_queue: PersistQueue,
}

impl TableCache {
    /// Every partition is well formed and holds at least one row.
    pub open spec fn wf(&self) -> bool {
        &&& self.partitions.wf()
        &&& forall|i: int|
            0 <= i < self.partitions@.len() ==> #[trigger] self.partitions@[i].wf()
                && self.partitions@[i].rows@.len() > 0
    }

    /// The rows of the table.
    pub open spec fn view(&self) -> TableView {
        self.partitions.to_map().map_values(|p: PartitionData| p.view_rows())
    }

    /// The partitions of a well-formed table are well formed and not empty.
    pub proof fn lemma_partitions_not_empty(&self, k: Seq<char>)
        requires
            self.wf(),
            self.partitions.to_map().contains_key(k),
        ensures
            self.partitions.to_map()[k].wf(),
            self.view()[k].len() > 0,
            self.view()[k].dom().finite(),
    {
        let j = choose|j: int|
            0 <= j < self.partitions@.len() && #[trigger] self.partitions@[j].key() == k;
        lemma_map_at(self.partitions@, j);
        let p = self.partitions@[j];
        assert(p.wf());
        lemma_map_len(p.rows@);
        assert(p.view_rows().dom() =~= p.rows.to_map().dom());
    }

    pub fn new(meta_data: DbTableAttributes) -> (r: Self)
        ensures
            r.wf(),
            r.meta_data == meta_data,
            r.view() == TableView::empty(),
            r.persist_queue@ == Seq::<PersistEvent>::empty(),
    {
        let r = Self {
            meta_data,
            partitions: SortedVecWithStrKey::new(),
            persist_queue: PersistQueue::new(),
        };
        assert(r.view() =~= TableView::empty());
        r
    }

    /// Sets the content of a row, adding the row, and its partition, when new.
    pub fn insert_or_update(&mut self, partition_key: &str, row_key: &str, content: String)
        requires
            old(self).wf(),
        ensures
            final(self).wf(),
            final(self).view() == view_after_insert(
                old(self).view(),
                partition_key@,
                row_key@,
                content@,
            ),
            final(self).meta_data == old(self).meta_data,
            final(self).persist_queue == old(self).persist_queue,
    {
        let ghost old_view = self.view();
        let ghost old_parts = self.partitions@;
        match self.partitions.find(partition_key) {
            Ok(i) => {
                proof {
                    lemma_map_at(self.partitions@, i as int);
                }
                let placeholder = PartitionData::new(partition_key.to_owned());
                let mut partition_data = self.partitions.replace_at(i, placeholder);
                assert(partition_data.wf());
                partition_data.insert_or_update(row_key.to_owned(), content);
                self.partitions.replace_at(i, partition_data);
                assert forall|j: int| 0 <= j < self.partitions@.len() implies #[trigger]
                    self.partitions@[j].wf() && self.partitions@[j].rows@.len() > 0 by {
                    if j != i {
                        assert(old_parts[j] == self.partitions@[j]);
                    }
                }
            },
            Err(i) => {
                let mut partition_data = PartitionData::new(partition_key.to_owned());
                partition_data.insert_or_update(row_key.to_owned(), content);
                self.partitions.insert_at(i, partition_data);
                assert forall|j: int| 0 <= j < self.partitions@.len() implies #[trigger]
                    self.partitions@[j].wf() && self.partitions@[j].rows@.len() > 0 by {
                    if j < i {
                        assert(old_parts[j] == self.partitions@[j]);
                    } else if j > i {
                        assert(old_parts[j - 1] == self.partitions@[j]);
                    }
                }
            },
        }
        assert(self.view() =~= view_after_insert(old_view, partition_key@, row_key@, content@));
    }

    /// The table with settings `meta_data` and the rows `records`, written in order.
    pub fn from_records(meta_data: DbTableAttributes, records: Vec<DbRowDto>) -> (r: Self)
        ensures
            r.wf(),
            r.meta_data == meta_data,
            r.view() == view_after_rows(TableView::empty(), records@),
            r.persist_queue@ == Seq::<PersistEvent>::empty(),
    {
        let mut table_data = TableCache::new(meta_data);
        table_data.insert_records(records);
        table_data
    }

    /// Writes the rows `records` one after the other.
    pub fn insert_records(&mut self, records: Vec<DbRowDto>)
        requires
            old(self).wf(),
        ensures
            final(self).wf(),
            final(self).view() == view_after_rows(old(self).view(), records@),
            final(self).meta_data == old(self).meta_data,
            final(self).persist_queue == old(self).persist_queue,
    {
        let ghost start = self.view();
        let n = records.len();
        let mut i: usize = 0;
        while i < n
            invariant
                self.wf(),
                n == records@.len(),
                i <= n,
                self.view() == view_after_rows(start, records@.take(i as int)),
                self.meta_data == old(self).meta_data,
                self.persist_queue == old(self).persist_queue,
            decreases n - i,
        {
            let record = &records[i];
            self.insert_or_update(
                record.partition_key.as_str(),
                record.row_key.as_str(),
                record.content.clone(),
            );
            assert(records@.take(i + 1).drop_last() =~= records@.take(i as int));
            i = i + 1;
        }
        assert(records@.take(n as int) =~= records@);
    }

    /// The rows of the table cut into batches for the store, in the order of
    /// partition and row keys: every batch holds 5001 rows but the last, which
    /// holds between 1 and 5001.
    pub fn bulk_insert_batches(&self) -> (r: Vec<Vec<DbRowDto>>)
        requires
            self.wf(),
        ensures
            batches_entries(r@) == entries_of(self.partitions@),
            forall|i: int| 0 <= i < r@.len() ==> 0 < #[trigger] r@[i]@.len() <= BULK_INSERT_THRESHOLD + 1,
            forall|i: int| 0 <= i < r@.len() - 1 ==> #[trigger] r@[i]@.len() == BULK_INSERT_THRESHOLD + 1,
    {
        let mut result: Vec<Vec<DbRowDto>> = Vec::new();
        let mut to_insert: Vec<DbRowDto> = Vec::new();
        let np = self.partitions.len();
        let mut pi: usize = 0;
        while pi < np
            invariant
                np == self.partitions@.len(),
                pi <= np,
                batches_entries(result@) + to_insert@.map_values(|d: DbRowDto| dto_entry(d))
                    == entries_of(self.partitions@.take(pi as int)),
                to_insert@.len() <= BULK_INSERT_THRESHOLD,
                forall|i: int| 0 <= i < result@.len() ==> #[trigger] result@[i]@.len() == BULK_INSERT_THRESHOLD + 1,
            decreases np - pi,
        {
            let partition = self.partitions.get_at(pi);
            let nr = partition.rows.len();
            let ghost before = entries_of(self.partitions@.take(pi as int));
            let mut ri: usize = 0;
            while ri < nr
                invariant
                    nr == partition.rows@.len(),
                    ri <= nr,
                    batches_entries(result@) + to_insert@.map_values(|d: DbRowDto| dto_entry(d))
                        == before + partition_entries(*partition).take(ri as int),
                    to_insert@.len() <= BULK_INSERT_THRESHOLD,
                    forall|i: int| 0 <= i < result@.len() ==> #[trigger] result@[i]@.len() == BULK_INSERT_THRESHOLD + 1,
                decreases nr - ri,
            {
                let row = partition.rows.get_at(ri);
                let ghost prev_batches = result@;
                let ghost prev_insert = to_insert@;
                to_insert.push(
                    DbRowDto {
                        partition_key: partition.partition_key.clone(),
                        row_key: row.row_key.clone(),
                        content: row.content.clone(),
                    },
                );
                assert(to_insert@.map_values(|d: DbRowDto| dto_entry(d)) =~= prev_insert.map_values(
                    |d: DbRowDto| dto_entry(d),
                ).push(partition_entries(*partition)[ri as int]));
                assert(partition_entries(*partition).take(ri + 1) =~= partition_entries(
                    *partition,
                ).take(ri as int).push(partition_entries(*partition)[ri as int]));
                let ghost grown = to_insert@.map_values(|d: DbRowDto| dto_entry(d));
                let ghost x = partition_entries(*partition)[ri as int];
                let ghost pm = prev_insert.map_values(|d: DbRowDto| dto_entry(d));
                assert(batches_entries(result@) + grown =~= (batches_entries(result@) + pm).push(x));
                assert(before + partition_entries(*partition).take(ri + 1) =~= (before
                    + partition_entries(*partition).take(ri as int)).push(x));
                assert(batches_entries(result@) + grown =~= before + partition_entries(
                    *partition,
                ).take(ri + 1));
                if to_insert.len() > BULK_INSERT_THRESHOLD {
                    let mut full: Vec<DbRowDto> = Vec::new();
                    std::mem::swap(&mut full, &mut to_insert);
                    result.push(full);
                    assert(result@.drop_last() =~= prev_batches);
                    assert(batches_entries(result@) == batches_entries(prev_batches) + grown);
                    assert(to_insert@.map_values(|d: DbRowDto| dto_entry(d)) =~= Seq::<
                        RowEntry,
                    >::empty());
                    assert(batches_entries(result@) + to_insert@.map_values(
                        |d: DbRowDto| dto_entry(d),
                    ) =~= batches_entries(result@));
                }
                ri = ri + 1;
            }
            assert(partition_entries(*partition).take(nr as int) =~= partition_entries(*partition));
            assert(self.partitions@.take(pi + 1).drop_last() =~= self.partitions@.take(pi as int));
            pi = pi + 1;
        }
        assert(self.partitions@.take(np as int) =~= self.partitions@);
        if to_insert.len() > 0 {
            let ghost prev_batches = result@;
            let ghost last = to_insert@.map_values(|d: DbRowDto| dto_entry(d));
            result.push(to_insert);
            assert(result@.drop_last() =~= prev_batches);
            assert(batches_entries(result@) == batches_entries(prev_batches) + last);
        } else {
            assert(to_insert@.map_values(|d: DbRowDto| dto_entry(d)) =~= Seq::<RowEntry>::empty());
            assert(batches_entries(result@) + to_insert@.map_values(|d: DbRowDto| dto_entry(d))
                =~= batches_entries(result@));
        }
        result
    }
}

/// Row `j` of partition `i` of `ps` as an entry.
pub open spec fn entry_at(ps: Seq<PartitionData>, i: int, j: int) -> RowEntry {
    (ps[i].partition_key@, ps[i].rows@[j].row_key@, ps[i].rows@[j].content@)
}

/// The entries of `ps` are the rows of its partitions.
proof fn lemma_entries_of(ps: Seq<PartitionData>, e: RowEntry)
    ensures
        entries_of(ps).contains(e) <==> exists|i: int, j: int|
            0 <= i < ps.len() && 0 <= j < ps[i].rows@.len() && #[trigger] entry_at(ps, i, j) == e,
    decreases ps.len(),
{
    if ps.len() > 0 {
        let front = ps.drop_last();
        lemma_entries_of(front, e);
        let last = partition_entries(ps.last());
        if entries_of(ps).contains(e) {
            let k = choose|k: int| 0 <= k < entries_of(ps).len() && entries_of(ps)[k] == e;
            if k < entries_of(front).len() {
                assert(entries_of(front)[k] == e);
                let (i, j) = choose|i: int, j: int|
                    0 <= i < front.len() && 0 <= j < front[i].rows@.len() && #[trigger] entry_at(front, i, j) == e;
                assert(entry_at(ps, i, j) == e);
            } else {
                let j = k - entries_of(front).len();
                assert(last[j] == e);
                assert(entry_at(ps, ps.len() - 1, j) == e);
            }
        }
        if exists|i: int, j: int| 0 <= i < ps.len() && 0 <= j < ps[i].rows@.len() && #[trigger] entry_at(ps, i, j) == e {
            let (i, j) = choose|i: int, j: int|
                0 <= i < ps.len() && 0 <= j < ps[i].rows@.len() && #[trigger] entry_at(ps, i, j) == e;
            if i < ps.len() - 1 {
                assert(entry_at(front, i, j) == e);
                let k = choose|k: int| 0 <= k < entries_of(front).len() && entries_of(front)[k] == e;
                assert(entries_of(ps)[k] == e);
            } else {
                assert(last[j] == e);
                assert(entries_of(ps)[entries_of(front).len() + j] == e);
            }
        }
    }
}

/// The rows handed to the store are exactly the rows of the table: every
/// row with its content, and nothing else.
pub proof fn law_bulk_rows_are_the_table(table: TableCache, pk: Seq<char>, rk: Seq<char>, c: Seq<char>)
    requires
        table.wf(),
    ensures
        entries_of(table.partitions@).contains((pk, rk, c)) <==> (table.view().contains_key(pk)
            && table.view()[pk].contains_key(rk) && table.view()[pk][rk] == c),
{
    let ps = table.partitions@;
    let e = (pk, rk, c);
    lemma_entries_of(ps, e);
    if entries_of(ps).contains(e) {
        let (i, j) = choose|i: int, j: int|
            0 <= i < ps.len() && 0 <= j < ps[i].rows@.len() && #[trigger] entry_at(ps, i, j) == e;
        lemma_map_at(ps, i);
        assert(ps[i].wf());
        lemma_map_at(ps[i].rows@, j);
    }
    if table.view().contains_key(pk) && table.view()[pk].contains_key(rk) && table.view()[pk][rk] == c {
        let i = choose|i: int| 0 <= i < ps.len() && #[trigger] ps[i].key() == pk;
        lemma_map_at(ps, i);
        let p = ps[i];
        assert(p.wf());
        let j = choose|j: int| 0 <= j < p.rows@.len() && #[trigger] p.rows@[j].key() == rk;
        lemma_map_at(p.rows@, j);
        assert(entry_at(ps, i, j) == e);
    }
}

} // verus!
