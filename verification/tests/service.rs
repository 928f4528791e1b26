use my_no_sql_persistence::api_controller::{ApiController, IS_ALIVE_ROUTE};
use my_no_sql_persistence::grpc_persist_process::{GrpcPersistProcess, GrpcPersistProcesses};
use my_no_sql_persistence::last_items::keep_last;
use my_no_sql_persistence::paths::{
    compile_sql_table_file_name, ends_with_str, get_table_name, select_db_files,
    with_trailing_separator, DB_FILE_EXTENSION,
};
use my_no_sql_persistence::persist_markers::PersistMarkers;
use my_no_sql_persistence::row_data::RawData;
use my_no_sql_persistence::str_key::{compare_keys, same_text, KeyOrder};
use my_no_sql_persistence::table_metrics::{
    get_table_metrics, persist_delay_seconds, DbTableMetrics, DbTableStats, TableModel,
};

fn metrics(last_update_time: i64, last_persist_time: Option<i64>) -> DbTableMetrics {
    DbTableMetrics {
        table_size: 0,
        partitions_amount: 0,
        records_amount: 0,
        last_update_time,
        last_persist_time,
        next_persist_time: None,
        persist_amount: 0,
        last_persist_duration: Vec::new(),
    }
}

#[test]
fn table_name_from_logs_path() {
    assert_eq!(get_table_name("/logs/table/my-table"), Some("my-table"));
    assert_eq!(get_table_name("/logs/table/"), Some(""));
    assert_eq!(get_table_name("/logs/table"), None);
    assert_eq!(get_table_name("/logs/table/a/b"), None);
    assert_eq!(get_table_name("x/y/z/w"), Some("w"));
}

#[test]
fn sql_table_file_name_has_one_separator() {
    let sep = std::path::MAIN_SEPARATOR;
    let expected = format!("{}{}{}.sqlite", "/data", sep, "orders");
    assert_eq!(compile_sql_table_file_name("/data", "orders"), expected);
    let dir = format!("/data{}", sep);
    assert_eq!(compile_sql_table_file_name(&dir, "orders"), expected);
    assert_eq!(with_trailing_separator("/data".to_string()), dir);
    assert_eq!(with_trailing_separator(dir.clone()), dir);
}

#[test]
fn table_files_are_selected() {
    let names = vec![
        "a.sqlite".to_string(),
        "b.txt".to_string(),
        ".sqlite".to_string(),
        "c.sqlite.bak".to_string(),
        compile_sql_table_file_name("/d", "t"),
    ];
    let selected = select_db_files(&names);
    assert_eq!(selected, vec!["a.sqlite".to_string(), ".sqlite".to_string(), names[4].clone()]);
    assert!(ends_with_str("x.sqlite", DB_FILE_EXTENSION));
    assert!(!ends_with_str("sqlite", DB_FILE_EXTENSION));
    assert!(ends_with_str("abc", ""));
}

#[test]
fn keys_compare_as_str() {
    assert!(matches!(compare_keys("a", "b"), KeyOrder::Less));
    assert!(matches!(compare_keys("ab", "a"), KeyOrder::Greater));
    assert!(matches!(compare_keys("é", "z"), KeyOrder::Greater));
    assert!(matches!(compare_keys("same", "same"), KeyOrder::Equal));
    assert!(same_text("x", "x"));
    assert!(!same_text("x", "X"));
}

#[test]
fn keep_last_drops_oldest() {
    let mut v = vec![1, 2, 3, 4, 5];
    keep_last(&mut v, 3);
    assert_eq!(v, vec![3, 4, 5]);
    keep_last(&mut v, 10);
    assert_eq!(v, vec![3, 4, 5]);
    keep_last(&mut v, 0);
    assert!(v.is_empty());
}

#[test]
fn persist_delay_in_whole_seconds() {
    assert_eq!(persist_delay_seconds(&metrics(5_500_000, Some(1_000_000))), 4);
    assert_eq!(persist_delay_seconds(&metrics(5_000_000, Some(6_000_000))), 0);
    assert_eq!(persist_delay_seconds(&metrics(5_000_000, None)), 0);
    assert_eq!(persist_delay_seconds(&metrics(i64::MAX, Some(i64::MIN))), (u64::MAX / 1_000_000) as i64);
}

#[test]
fn table_metrics_from_stats_and_markers() {
    let mut markers = PersistMarkers::new();
    markers.data_to_persist.mark_partition_to_persist("p", 100);
    markers.data_to_persist.mark_partition_to_persist("q", 50);
    markers.add_persist_duration(1234, 77);
    let stats = DbTableStats {
        table_size: 10,
        partitions_amount: 2,
        records_amount: 3,
        last_update_time: 99,
    };
    let m = get_table_metrics(&stats, &markers);
    assert_eq!(m.table_size, 10);
    assert_eq!(m.partitions_amount, 2);
    assert_eq!(m.records_amount, 3);
    assert_eq!(m.last_update_time, 99);
    assert_eq!(m.last_persist_time, Some(77));
    assert_eq!(m.next_persist_time, Some(50));
    assert_eq!(m.persist_amount, 2);
    assert_eq!(m.last_persist_duration, vec![1234]);
    let model = TableModel::from_metrics("t".to_string(), m);
    assert_eq!(model.name, "t");
    assert_eq!(model.partitions_count, 2);
    assert_eq!(model.data_size, 10);
    assert_eq!(model.next_persist_time, Some(50));
}

#[test]
fn grpc_processes_add_get_and_gc() {
    let mut processes: GrpcPersistProcesses<RawData> = GrpcPersistProcesses::new();
    processes.add(1, "t1".to_string(), 10, 1_000);
    processes.add(2, "t2".to_string(), 20, 5_000);
    processes.gc(3_000, 6_000);
    assert!(!processes.contains(1));
    assert!(processes.contains(2));
    let p = processes.get(2);
    assert_eq!(p.table_name, "t2");
    assert_eq!(p.persist_moment, 20);
    assert_eq!(p.created, 5_000);
    assert!(p.items.is_empty());
    assert!(!processes.contains(2));
}

#[test]
fn grpc_gc_keeps_process_at_the_timeout() {
    let mut processes: GrpcPersistProcesses<RawData> = GrpcPersistProcesses::new();
    processes.add(1, "t".to_string(), 0, 1_000);
    processes.gc(2_000, 3_000);
    assert!(processes.contains(1));
    processes.gc(1_999, 3_000);
    assert!(!processes.contains(1));
}

#[test]
fn grpc_add_replaces_process_with_same_number() {
    let mut processes: GrpcPersistProcesses<RawData> = GrpcPersistProcesses::new();
    processes.add(7, "a".to_string(), 1, 1);
    processes.add(7, "b".to_string(), 2, 2);
    let p = processes.get(7);
    assert_eq!(p.table_name, "b");
    assert!(!processes.contains(7));
}

#[test]
fn grpc_process_starts_empty() {
    let p: GrpcPersistProcess<RawData> = GrpcPersistProcess::new("t".to_string(), 3, 4);
    assert_eq!(p.created, 4);
    assert_eq!(p.persist_moment, 3);
    assert!(p.items.is_empty());
}

#[test]
fn api_controller_answers_is_alive() {
    let controller = ApiController::new();
    assert_eq!(controller.get_route(), "/Api/IsAlive");
    assert_eq!(IS_ALIVE_ROUTE, "/Api/IsAlive");
    let response = controller.is_alive_response(
        "1.0".to_string(),
        Some("prod".to_string()),
        "2024-01-01T00:00:00Z".to_string(),
    );
    assert_eq!(response.name, "MyNoSqlServer");
    assert_eq!(response.version, "1.0");
    assert_eq!(response.env_info.as_deref(), Some("prod"));
    assert_eq!(response.time, "2024-01-01T00:00:00Z");
}

#[test]
fn raw_data_keeps_key_and_content() {
    let r = RawData::new("k".to_string(), "c".to_string());
    assert_eq!(r.row_key, "k");
    assert_eq!(r.content, "c");
}
