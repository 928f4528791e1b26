use my_no_sql_persistence::init_state::InitState;
use my_no_sql_persistence::persist_events::{
    DeletePartitionGrpcModel, DeleteRowGrpcModel, InsertOrUpdateRowGrpcModel, PersistGrpcEvent,
};
use my_no_sql_persistence::persist_queue::PersistEvent;
use my_no_sql_persistence::table_attributes::{DbTableAttributes, UpdateTableAttributesGrpcModel};
use my_no_sql_persistence::table_cache::{DbRowDto, TableCache};
use my_no_sql_persistence::tables::Tables;

fn event(table_name: &str) -> PersistGrpcEvent {
    PersistGrpcEvent {
        table_name: table_name.to_string(),
        clear_table: false,
        update_table_attributes: None,
        delete_row: None,
        insert_or_update_row: None,
        delete_partition: None,
    }
}

fn write(table_name: &str, pk: &str, rk: &str, data: &str) -> PersistGrpcEvent {
    let mut e = event(table_name);
    e.insert_or_update_row = Some(InsertOrUpdateRowGrpcModel {
        partition_key: pk.to_string(),
        row_key: rk.to_string(),
        data: data.to_string(),
    });
    e
}

fn content_of(table: &TableCache, partition_key: &str, row_key: &str) -> Option<String> {
    let partition = table.partitions.get(partition_key)?;
    let row = partition.rows.get(row_key)?;
    Some(row.content.clone())
}

#[test]
fn events_create_tables_that_write() {
    let mut tables = Tables::new("/data".to_string());
    tables.handle_persist_events(
        vec![write("b", "p", "r", "1"), write("a", "p", "r", "2"), write("b", "p", "r", "3")],
        100,
    );
    assert_eq!(tables.get_table_names(), vec!["a".to_string(), "b".to_string()]);
    let b = tables.get_table("b").unwrap();
    assert_eq!(content_of(b, "p", "r"), Some("3".to_string()));
    assert_eq!(b.meta_data.created, 100);
    assert!(b.meta_data.persist);
    assert_eq!(b.persist_queue.events().len(), 2);
    let a = tables.get_table("a").unwrap();
    assert_eq!(content_of(a, "p", "r"), Some("2".to_string()));
}

#[test]
fn deletes_for_missing_table_change_nothing() {
    let mut tables = Tables::new("/data".to_string());
    let mut delete_row = event("ghost");
    delete_row.delete_row =
        Some(DeleteRowGrpcModel { partition_key: "p".to_string(), row_key: "r".to_string() });
    let mut delete_partition = event("ghost");
    delete_partition.delete_partition =
        Some(DeletePartitionGrpcModel { partition_key: "p".to_string() });
    tables.handle_persist_events(vec![delete_row, delete_partition], 1);
    assert!(tables.get_table("ghost").is_none());
    assert!(!tables.contains_table("ghost"));
    assert!(tables.get_table_names().is_empty());
}

#[test]
fn attributes_event_creates_table_with_its_settings() {
    let mut tables = Tables::new("/data".to_string());
    let mut e = event("t");
    e.update_table_attributes = Some(UpdateTableAttributesGrpcModel {
        persist: false,
        max_partitions_amount: Some(4),
        max_rows_per_partition: None,
        created: 55,
    });
    tables.handle_persist_events(vec![e], 9);
    let t = tables.get_table("t").unwrap();
    assert!(!t.meta_data.persist);
    assert_eq!(t.meta_data.max_partitions_amount, Some(4));
    assert_eq!(t.meta_data.created, 55);
    assert!(matches!(t.persist_queue.events()[0], PersistEvent::PersistTableMetadata));
}

#[test]
fn restore_table_and_records() {
    let mut tables = Tables::new("/data".to_string());
    tables.restore_records(
        "t",
        vec![DbRowDto {
            partition_key: "p".to_string(),
            row_key: "r".to_string(),
            content: "c".to_string(),
        }],
        5,
    );
    assert_eq!(tables.get_table("t").unwrap().meta_data.created, 5);
    tables.restore_table(
        "t",
        DbTableAttributes {
            persist: false,
            max_partitions_amount: None,
            max_rows_per_partition_amount: Some(2),
            created: 8,
        },
    );
    let t = tables.get_table("t").unwrap();
    assert_eq!(t.meta_data.created, 8);
    assert_eq!(content_of(t, "p", "r"), Some("c".to_string()));
    assert!(t.persist_queue.events().is_empty());
    tables.get_or_create_table("u", 3);
    tables.get_or_create_table("t", 3);
    assert_eq!(tables.get_table("t").unwrap().meta_data.created, 8);
    assert_eq!(tables.get_table("u").unwrap().meta_data.created, 3);
}

#[test]
fn table_file_path_is_in_the_directory() {
    let tables = Tables::new("/data".to_string());
    let sep = std::path::MAIN_SEPARATOR;
    assert_eq!(tables.table_file_path("orders"), format!("/data{}orders.sqlite", sep));
}

#[test]
fn legacy_init_state_takes_tables_from_the_end() {
    let mut state: InitState<u32> = InitState::new();
    assert!(state.take_next_table(0).is_none());
    state.tables_to_load = vec!["a".to_string(), "b".to_string()];
    assert_eq!(state.take_next_table(1), Some("b".to_string()));
    assert_eq!(state.take_next_table(2), Some("a".to_string()));
    assert!(state.take_next_table(3).is_none());
    assert_eq!(state.tables_loading.len(), 2);
    assert_eq!(state.tables_loading.get("b").unwrap().files, 1);
    state.finish_table("b".to_string());
    assert_eq!(state.tables_loading.len(), 1);
    assert_eq!(state.tables_loaded, vec!["b".to_string()]);
}

#[test]
fn apply_event_in_its_order() {
    let mut tables = Tables::new("/data".to_string());
    tables.handle_persist_events(vec![write("t", "old", "r", "x")], 1);
    let mut e = event("t");
    e.update_table_attributes = Some(UpdateTableAttributesGrpcModel {
        persist: true,
        max_partitions_amount: Some(10),
        max_rows_per_partition: Some(20),
        created: 42,
    });
    e.delete_row =
        Some(DeleteRowGrpcModel { partition_key: "old".to_string(), row_key: "r".to_string() });
    e.insert_or_update_row = Some(InsertOrUpdateRowGrpcModel {
        partition_key: "new".to_string(),
        row_key: "r".to_string(),
        data: "y".to_string(),
    });
    e.delete_partition = Some(DeletePartitionGrpcModel { partition_key: "gone".to_string() });
    tables.handle_persist_events(vec![e], 2);
    let t = tables.get_table("t").unwrap();
    assert_eq!(t.meta_data.created, 42);
    assert_eq!(t.meta_data.max_partitions_amount, Some(10));
    assert_eq!(t.meta_data.max_rows_per_partition_amount, Some(20));
    assert_eq!(content_of(t, "old", "r"), None);
    assert_eq!(content_of(t, "new", "r"), Some("y".to_string()));
    let events = t.persist_queue.events();
    assert_eq!(events.len(), 5);
    assert!(matches!(&events[1], PersistEvent::PersistTableMetadata));
    assert!(matches!(&events[2], PersistEvent::PersistPartition { partition_key } if partition_key == "old"));
    assert!(matches!(&events[3], PersistEvent::PersistRow { partition_key, row_key } if partition_key == "new" && row_key == "r"));
    assert!(matches!(&events[4], PersistEvent::PersistPartition { partition_key } if partition_key == "gone"));
}

#[test]
fn write_then_delete_partition_in_one_event_leaves_nothing() {
    let mut tables = Tables::new("/data".to_string());
    let mut e = write("t", "p", "r", "y");
    e.delete_partition = Some(DeletePartitionGrpcModel { partition_key: "p".to_string() });
    tables.handle_persist_events(vec![e], 1);
    let t = tables.get_table("t").unwrap();
    assert_eq!(t.partitions.len(), 0);
    assert_eq!(t.persist_queue.events().len(), 2);
}

#[test]
fn delete_row_for_missing_table_is_dropped_before_write_creates_it() {
    let mut tables = Tables::new("/data".to_string());
    let mut e = write("t", "p", "r", "y");
    e.delete_row =
        Some(DeleteRowGrpcModel { partition_key: "q".to_string(), row_key: "r".to_string() });
    tables.handle_persist_events(vec![e], 1);
    let t = tables.get_table("t").unwrap();
    let events = t.persist_queue.events();
    assert_eq!(events.len(), 1);
    assert!(matches!(&events[0], PersistEvent::PersistRow { partition_key, row_key } if partition_key == "p" && row_key == "r"));
    assert_eq!(content_of(t, "p", "r"), Some("y".to_string()));
}

#[test]
fn attributes_create_table_before_row_deletion() {
    let mut tables = Tables::new("/data".to_string());
    let mut e = event("t");
    e.update_table_attributes = Some(UpdateTableAttributesGrpcModel {
        persist: true,
        max_partitions_amount: None,
        max_rows_per_partition: None,
        created: 3,
    });
    e.delete_row =
        Some(DeleteRowGrpcModel { partition_key: "q".to_string(), row_key: "r".to_string() });
    tables.handle_persist_events(vec![e], 1);
    let t = tables.get_table("t").unwrap();
    let events = t.persist_queue.events();
    assert_eq!(events.len(), 2);
    assert!(matches!(&events[0], PersistEvent::PersistTableMetadata));
    assert!(matches!(&events[1], PersistEvent::PersistPartition { partition_key } if partition_key == "q"));
}
