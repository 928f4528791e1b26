use my_no_sql_persistence::partition_data::PartitionData;
use my_no_sql_persistence::persist_events::{
    handle_delete_partition, handle_delete_row, handle_insert_or_update,
    handle_update_table_metadata, DeleteRowGrpcModel, InsertOrUpdateRowGrpcModel,
};
use my_no_sql_persistence::persist_queue::{PersistEvent, PersistQueue};
use my_no_sql_persistence::row_data::RawData;
use my_no_sql_persistence::sorted_vec::SortedVecWithStrKey;
use my_no_sql_persistence::table_attributes::{DbTableAttributes, UpdateTableAttributesGrpcModel};
use my_no_sql_persistence::table_cache::{DbRowDto, TableCache, BULK_INSERT_THRESHOLD};

fn content_of(table: &TableCache, partition_key: &str, row_key: &str) -> Option<String> {
    let partition = table.partitions.get(partition_key)?;
    let row = partition.rows.get(row_key)?;
    Some(row.content.clone())
}

fn row(partition_key: &str, row_key: &str, content: &str) -> DbRowDto {
    DbRowDto {
        partition_key: partition_key.to_string(),
        row_key: row_key.to_string(),
        content: content.to_string(),
    }
}

#[test]
fn sorted_vec_keeps_keys_in_byte_order() {
    let mut v: SortedVecWithStrKey<RawData> = SortedVecWithStrKey::new();
    assert!(v.insert_or_replace(RawData::new("b".to_string(), "1".to_string())).is_none());
    assert!(v.insert_or_replace(RawData::new("a".to_string(), "2".to_string())).is_none());
    assert!(v.insert_or_replace(RawData::new("c".to_string(), "3".to_string())).is_none());
    let old = v.insert_or_replace(RawData::new("b".to_string(), "4".to_string())).unwrap();
    assert_eq!(old.content, "1");
    assert_eq!(v.len(), 3);
    assert_eq!(v.get_at(0).row_key, "a");
    assert_eq!(v.get_at(1).row_key, "b");
    assert_eq!(v.get_at(2).row_key, "c");
    assert_eq!(v.get("b").unwrap().content, "4");
    assert_eq!(v.find("bb"), Err(2));
    assert_eq!(v.find("c"), Ok(2));
    assert!(v.contains_key("a"));
    assert!(!v.contains_key("z"));
    assert_eq!(v.remove("a").unwrap().content, "2");
    assert!(v.remove("a").is_none());
    assert_eq!(v.len(), 2);
}

#[test]
fn partition_insert_and_remove_rows() {
    let mut p = PartitionData::new("pk".to_string());
    p.insert_or_update("r1".to_string(), "c1".to_string());
    p.insert_or_update("r2".to_string(), "c2".to_string());
    p.insert_or_update("r1".to_string(), "c3".to_string());
    assert_eq!(p.rows.len(), 2);
    assert_eq!(p.rows.get("r1").unwrap().content, "c3");
    assert_eq!(p.remove_row("r1"), 1);
    assert_eq!(p.remove_row("missing"), 1);
    assert_eq!(p.remove_row("r2"), 0);
}

#[test]
fn read_after_write_in_table() {
    let mut table = TableCache::new(DbTableAttributes::create_default(7));
    table.insert_or_update("p1", "r1", "one".to_string());
    table.insert_or_update("p1", "r2", "two".to_string());
    table.insert_or_update("p2", "r1", "three".to_string());
    table.insert_or_update("p1", "r1", "uno".to_string());
    assert_eq!(content_of(&table, "p1", "r1"), Some("uno".to_string()));
    assert_eq!(content_of(&table, "p1", "r2"), Some("two".to_string()));
    assert_eq!(content_of(&table, "p2", "r1"), Some("three".to_string()));
    assert_eq!(content_of(&table, "p2", "r2"), None);
    assert_eq!(table.partitions.len(), 2);
    assert_eq!(table.meta_data.created, 7);
    assert!(table.persist_queue.events().is_empty());
}

#[test]
fn from_records_later_rows_win() {
    let records = vec![row("p", "r", "first"), row("q", "r", "other"), row("p", "r", "second")];
    let table = TableCache::from_records(DbTableAttributes::create_default(1), records);
    assert_eq!(content_of(&table, "p", "r"), Some("second".to_string()));
    assert_eq!(content_of(&table, "q", "r"), Some("other".to_string()));
    assert_eq!(table.partitions.len(), 2);
}

#[test]
fn bulk_batches_cover_every_row_in_order() {
    let mut table = TableCache::new(DbTableAttributes::create_default(1));
    let mut records = Vec::new();
    for i in 0..(BULK_INSERT_THRESHOLD + 3) {
        records.push(row("a", &format!("{:06}", i), "x"));
    }
    records.push(row("b", "1", "y"));
    table.insert_records(records);
    let batches = table.bulk_insert_batches();
    assert_eq!(batches.len(), 2);
    assert_eq!(batches[0].len(), BULK_INSERT_THRESHOLD + 1);
    assert_eq!(batches[1].len(), 3);
    assert_eq!(batches[0][0].row_key, "000000");
    let last = &batches[1][2];
    assert_eq!(last.partition_key, "b");
    assert_eq!(last.row_key, "1");
    assert_eq!(last.content, "y");
}

#[test]
fn bulk_batches_of_empty_table() {
    let table = TableCache::new(DbTableAttributes::create_default(1));
    assert!(table.bulk_insert_batches().is_empty());
}

#[test]
fn delete_last_row_removes_partition_and_queues_it() {
    let mut table = TableCache::new(DbTableAttributes::create_default(1));
    table.insert_or_update("p", "r1", "c".to_string());
    table.insert_or_update("p", "r2", "c".to_string());
    handle_delete_row(
        &mut table,
        DeleteRowGrpcModel { partition_key: "p".to_string(), row_key: "r1".to_string() },
    );
    assert_eq!(content_of(&table, "p", "r1"), None);
    assert_eq!(content_of(&table, "p", "r2"), Some("c".to_string()));
    handle_delete_row(
        &mut table,
        DeleteRowGrpcModel { partition_key: "p".to_string(), row_key: "r2".to_string() },
    );
    assert_eq!(table.partitions.len(), 0);
    let events = table.persist_queue.events();
    assert_eq!(events.len(), 2);
    assert!(matches!(&events[0], PersistEvent::PersistRow { partition_key, row_key } if partition_key == "p" && row_key == "r1"));
    assert!(matches!(&events[1], PersistEvent::PersistPartition { partition_key } if partition_key == "p"));
}

#[test]
fn delete_row_of_missing_partition_queues_partition() {
    let mut table = TableCache::new(DbTableAttributes::create_default(1));
    handle_delete_row(
        &mut table,
        DeleteRowGrpcModel { partition_key: "none".to_string(), row_key: "r".to_string() },
    );
    let events = table.persist_queue.events();
    assert_eq!(events.len(), 1);
    assert!(matches!(&events[0], PersistEvent::PersistPartition { partition_key } if partition_key == "none"));
}

#[test]
fn insert_delete_partition_and_metadata_are_queued() {
    let mut table = TableCache::new(DbTableAttributes::create_default(1));
    handle_insert_or_update(
        &mut table,
        InsertOrUpdateRowGrpcModel {
            partition_key: "p".to_string(),
            row_key: "r".to_string(),
            data: "d".to_string(),
        },
    );
    assert_eq!(content_of(&table, "p", "r"), Some("d".to_string()));
    handle_update_table_metadata(
        &mut table,
        DbTableAttributes {
            persist: false,
            max_partitions_amount: Some(3),
            max_rows_per_partition_amount: None,
            created: 9,
        },
    );
    assert!(!table.meta_data.persist);
    assert_eq!(table.meta_data.max_partitions_amount, Some(3));
    handle_delete_partition(&mut table, "p".to_string());
    assert_eq!(table.partitions.len(), 0);
    let events = table.persist_queue.events();
    assert_eq!(events.len(), 3);
    assert!(matches!(&events[0], PersistEvent::PersistRow { partition_key, row_key } if partition_key == "p" && row_key == "r"));
    assert!(matches!(&events[1], PersistEvent::PersistTableMetadata));
    assert!(matches!(&events[2], PersistEvent::PersistPartition { partition_key } if partition_key == "p"));
}

#[test]
fn attributes_model_keeps_limits() {
    let model = UpdateTableAttributesGrpcModel {
        persist: false,
        max_partitions_amount: None,
        max_rows_per_partition: Some(5),
        created: -3,
    };
    let attrs = model.into_attributes();
    assert!(!attrs.persist);
    assert_eq!(attrs.max_partitions_amount, None);
    assert_eq!(attrs.max_rows_per_partition_amount, Some(5));
    assert_eq!(attrs.created, -3);
    let d = DbTableAttributes::create_default(11);
    assert!(d.persist);
    assert_eq!(d.max_partitions_amount, None);
    assert_eq!(d.max_rows_per_partition_amount, None);
    assert_eq!(d.created, 11);
}

#[test]
fn persist_queue_keeps_order() {
    let mut q = PersistQueue::new();
    q.enqueue(PersistEvent::PersistTableMetadata);
    q.enqueue(PersistEvent::PersistPartition { partition_key: "a".to_string() });
    assert_eq!(q.events().len(), 2);
    assert!(matches!(&q.events()[0], PersistEvent::PersistTableMetadata));
}
