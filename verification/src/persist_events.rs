use vstd::prelude::*;

use crate::partition_data::PartitionData;
use crate::persist_queue::PersistEvent;
use crate::sorted_vec::{lemma_map_at, lemma_map_len, EntityWithStrKey};
use crate::table_attributes::{DbTableAttributes, UpdateTableAttributesGrpcModel};
use crate::table_cache::{view_after_delete_row, view_after_insert, TableCache, TableView};

verus! {

/// A row to write.
pub struct InsertOrUpdateRowGrpcModel {
    pub partition_key: String,
    pub row_key: String,
    pub data: String,
}

/// A row to delete.
pub struct DeleteRowGrpcModel {
    pub partition_key: String,
    pub row_key: String,
}

/// A partition to delete.
pub struct DeletePartitionGrpcModel {
    pub partition_key: String,
}

/// One request of the persistence stream: the changes of one table.
pub struct PersistGrpcEvent {
    pub table_name: String,
    pub clear_table: bool,
    pub update_table_attributes: Option<UpdateTableAttributesGrpcModel>,
    pub delete_row: Option<DeleteRowGrpcModel>,
    pub insert_or_update_row: Option<InsertOrUpdateRowGrpcModel>,
    pub delete_partition: Option<DeletePartitionGrpcModel>,
}

/// The change that deleting a row leaves to persist: the row, or its whole
/// partition when no row of it is left.
pub open spec fn delete_row_event(
    view: TableView,
    partition_key: String,
    row_key: String,
) -> PersistEvent {
    if view.contains_key(partition_key@) && view[partition_key@].remove(row_key@).len() > 0 {
        PersistEvent::PersistRow { partition_key, row_key }
    } else {
        PersistEvent::PersistPartition { partition_key }
    }
}

/// Writes a row and queues it to be persisted.
pub fn handle_insert_or_update(table: &mut TableCache, insert_or_update: InsertOrUpdateRowGrpcModel)
    requires
        old(table).wf(),
    ensures
        final(table).wf(),
        final(table).view() == view_after_insert(
            old(table).view(),
            insert_or_update.partition_key@,
            insert_or_update.row_key@,
            insert_or_update.data@,
        ),
        final(table).meta_data == old(table).meta_data,
        final(table).persist_queue@ == old(table).persist_queue@.push(
            PersistEvent::PersistRow {
                partition_key: insert_or_update.partition_key,
                row_key: insert_or_update.row_key,
            },
        ),
{
    table.insert_or_update(
        insert_or_update.partition_key.as_str(),
        insert_or_update.row_key.as_str(),
        insert_or_update.data,
    );
    table.persist_queue.enqueue(
        PersistEvent::PersistRow {
            partition_key: insert_or_update.partition_key,
            row_key: insert_or_update.row_key,
        },
    );
}

/// Sets the table settings and queues them to be persisted.
pub fn handle_update_table_metadata(table: &mut TableCache, attr: DbTableAttributes)
    requires
        old(table).wf(),
    ensures
        final(table).wf(),
        final(table).view() == old(table).view(),
        final(table).meta_data == attr,
        final(table).persist_queue@ == old(table).persist_queue@.push(
            PersistEvent::PersistTableMetadata,
        ),
{
    table.meta_data = attr;
    table.persist_queue.enqueue(PersistEvent::PersistTableMetadata);
}

/// Removes a partition and queues the partition to be persisted.
pub fn handle_delete_partition(table: &mut TableCache, partition_key: String)
    requires
        old(table).wf(),
    ensures
        final(table).wf(),
        final(table).view() == old(table).view().remove(partition_key@),
        final(table).meta_data == old(table).meta_data,
        final(table).persist_queue@ == old(table).persist_queue@.push(
            PersistEvent::PersistPartition { partition_key },
        ),
{
    let ghost old_view = table.view();
    let ghost old_parts = table.partitions@;
    table.partitions.remove(partition_key.as_str());
    proof {
        assert forall|j: int| 0 <= j < table.partitions@.len() implies #[trigger]
            table.partitions@[j].wf() && table.partitions@[j].rows@.len() > 0 by {
            let k = table.partitions@[j].key();
            lemma_map_at(table.partitions@, j);
            let i = choose|i: int| 0 <= i < old_parts.len() && #[trigger] old_parts[i].key() == k;
            lemma_map_at(old_parts, i);
        }
    }
    assert(table.view() =~= old_view.remove(partition_key@));
    table.persist_queue.enqueue(PersistEvent::PersistPartition { partition_key });
}

/// Removes a row; a partition left without rows is removed too. Queues the
/// row, or the removed partition, to be persisted.
pub fn handle_delete_row(table: &mut TableCache, delete_row: DeleteRowGrpcModel)
    requires
        old(table).wf(),
    ensures
        final(table).wf(),
        final(table).view() == view_after_delete_row(
            old(table).view(),
            delete_row.partition_key@,
            delete_row.row_key@,
        ),
        final(table).meta_data == old(table).meta_data,
        final(table).persist_queue@ == old(table).persist_queue@.push(
            delete_row_event(old(table).view(), delete_row.partition_key, delete_row.row_key),
        ),
{
    let ghost old_view = table.view();
    let ghost old_parts = table.partitions@;
    let rows_inside_partition: usize = match table.partitions.find(
        delete_row.partition_key.as_str(),
    ) {
        Ok(i) => {
            proof {
                lemma_map_at(table.partitions@, i as int);
            }
            let placeholder = PartitionData::new(delete_row.partition_key.clone());
            let mut partition = table.partitions.replace_at(i, placeholder);
            let ghost old_rows = partition.view_rows();
            let n = partition.remove_row(delete_row.row_key.as_str());
            proof {
                lemma_map_len(partition.rows@);
                assert(partition.view_rows().dom() =~= partition.rows.to_map().dom());
                assert(old_rows == old_view[delete_row.partition_key@]);
            }
            if n > 0 {
                table.partitions.replace_at(i, partition);
                assert forall|j: int| 0 <= j < table.partitions@.len() implies #[trigger]
                    table.partitions@[j].wf() && table.partitions@[j].rows@.len() > 0 by {
                    if j != i {
                        assert(old_parts[j] == table.partitions@[j]);
                    }
                }
            } else {
                let ghost mid = table.partitions@;
                assert(mid == old_parts.update(i as int, mid[i as int]));
                table.partitions.remove_at(i);
                assert(table.partitions@ == mid.remove(i as int));
                assert forall|j: int| 0 <= j < table.partitions@.len() implies #[trigger]
                    table.partitions@[j].wf() && table.partitions@[j].rows@.len() > 0 by {
                    if j < i {
                        assert(old_parts[j] == table.partitions@[j]);
                    } else {
                        assert(mid[j + 1] == table.partitions@[j]);
                        assert(old_parts[j + 1] == table.partitions@[j]);
                    }
                }
            }
            n
        },
        Err(_) => 0,
    };
    if rows_inside_partition == 0 {
        assert(table.view() =~= view_after_delete_row(
            old_view,
            delete_row.partition_key@,
            delete_row.row_key@,
        ));
        table.persist_queue.enqueue(
            PersistEvent::PersistPartition { partition_key: delete_row.partition_key },
        )
    } else {
        assert(table.view() =~= view_after_delete_row(
            old_view,
            delete_row.partition_key@,
            delete_row.row_key@,
        ));
        table.persist_queue.enqueue(
            PersistEvent::PersistRow {
                partition_key: delete_row.partition_key,
                row_key: delete_row.row_key,
            },
        )
    }
}

/// A written row reads back with the content written; every other row
/// keeps its content.
pub proof fn law_read_after_write(
    view: TableView,
    partition_key: Seq<char>,
    row_key: Seq<char>,
    content: Seq<char>,
    other_partition: Seq<char>,
    other_row: Seq<char>,
)
    requires
        other_partition != partition_key || other_row != row_key,
    ensures
        view_after_insert(view, partition_key, row_key, content)[partition_key][row_key] == content,
        view.contains_key(other_partition) && view[other_partition].contains_key(other_row) ==> {
            &&& view_after_insert(view, partition_key, row_key, content).contains_key(other_partition)
            &&& view_after_insert(view, partition_key, row_key, content)[other_partition][other_row] == view[other_partition][other_row]
        },
{
}

/// A deleted row is gone; when it was the last row of its partition the
/// partition is gone too and the partition is what is queued to persist.
pub proof fn law_delete_row_removes_it(
    view: TableView,
    partition_key: String,
    row_key: String,
)
    ensures
        !(view_after_delete_row(view, partition_key@, row_key@).contains_key(partition_key@)
            && view_after_delete_row(view, partition_key@, row_key@)[partition_key@].contains_key(row_key@)),
        view.contains_key(partition_key@) && view[partition_key@].dom() =~= set![row_key@] ==> {
            &&& view_after_delete_row(view, partition_key@, row_key@) == view.remove(partition_key@)
            &&& delete_row_event(view, partition_key, row_key) == PersistEvent::PersistPartition { partition_key }
        },
{
    if view.contains_key(partition_key@) && view[partition_key@].dom() =~= set![row_key@] {
        assert(view[partition_key@].remove(row_key@).dom() =~= Set::<Seq<char>>::empty());
    }
}

/// In every well-formed table each partition holds at least one row: writes
/// only add rows, and a deletion that empties a partition removes it.
pub proof fn law_no_empty_partitions(table: TableCache, partition_key: Seq<char>)
    requires
        table.wf(),
        table.view().contains_key(partition_key),
    ensures
        table.view()[partition_key].len() > 0,
{
    table.lemma_partitions_not_empty(partition_key);
}

} // verus!
