use std::sync::Arc;

use my_no_sql_persistence::data_to_persist::PersistResult;
use my_no_sql_persistence::logs::{LogItem, LogLevel, Logs, SystemProcess};
use my_no_sql_persistence::logs_page::{
    logs_page, no_fatal_errors_text, no_table_records_text, select_table_page,
};
use my_no_sql_persistence::persist::{get_job_to_persist, persist_finished};
use my_no_sql_persistence::persist_markers::PersistMarkers;
use my_no_sql_persistence::status::{NonInitializedModel, StatusModel};
use my_no_sql_persistence::table_metrics::DbTableMetrics;

fn metrics(partitions_amount: usize) -> DbTableMetrics {
    DbTableMetrics {
        table_size: 10,
        partitions_amount,
        records_amount: 3,
        last_update_time: 5,
        last_persist_time: Some(4),
        next_persist_time: None,
        persist_amount: 1,
        last_persist_duration: vec![7],
    }
}

fn progress() -> NonInitializedModel {
    NonInitializedModel {
        tables_total: 4,
        tables_loaded: 1,
        files_total: 9,
        files_loaded: 2,
        loading_time: 12,
    }
}

#[test]
fn logs_page_renders_each_record() {
    let first = LogItem {
        date: 0,
        table: Some("t".to_string()),
        level: LogLevel::Error,
        process: SystemProcess::Init,
        process_name: "init".to_string(),
        message: "boom".to_string(),
        err_ctx: Some("a\"b".to_string()),
    };
    let second = LogItem {
        date: 0,
        table: None,
        level: LogLevel::Info,
        process: SystemProcess::Timer,
        process_name: "tick".to_string(),
        message: "ok".to_string(),
        err_ctx: None,
    };
    let items = vec![
        (Arc::new(first), "2024-01-01T00:00:00Z".to_string()),
        (Arc::new(second), "2024-01-02T00:00:00Z".to_string()),
    ];
    let page = logs_page(&items, "1.5ms".to_string());
    let expected = [
        "<a class='btn btn-outline-secondary btn-sm' href='/logs'>Show All Log records</a>",
        "<a class='btn btn-outline-secondary btn-sm' href='/logs/table'>Show Log records by table</a>",
        "<a class='btn btn-outline-secondary btn-sm' href='/logs/process'>Show Log records by process</a>",
        "<hr/>",
        "<b style='background:orange; color:white;'>Error:</b> 2024-01-01T00:00:00Z</br>",
        "<b>Table:</b> <a href='/logs/table/t'>t</a></br>",
        "<b>Process:</b> <a href='/logs/process/Init'>Init</a></br>",
        "<b>Process Name:</b> init</br>",
        "<b>Msg:</b> boom</br>",
        "<b>ErrCTX:</b> \"a\\\"b\"</br>",
        "<hr/>",
        "<b style='background:green; color:white;'>Info:</b> 2024-01-02T00:00:00Z</br>",
        "<b>Process:</b> <a href='/logs/process/Timer'>Timer</a></br>",
        "<b>Process Name:</b> tick</br>",
        "<b>Msg:</b> ok</br>",
        "<hr/>",
        "Rendered in 1.5ms",
    ];
    let mut text = String::new();
    for line in expected {
        text.push_str(line);
        text.push('\n');
    }
    assert_eq!(page, text);
}

#[test]
fn select_table_page_links_each_table() {
    let page = select_table_page(&vec!["a".to_string(), "b".to_string()]);
    assert_eq!(
        page,
        "<h1>Please, select table to show logs</h1><a class='btn btn-sm btn-outline-primary' href='/logs/table/a'>a</a><a class='btn btn-sm btn-outline-primary' href='/logs/table/b'>b</a>"
    );
}

#[test]
fn no_records_texts() {
    assert_eq!(
        no_table_records_text("2ms", "t"),
        "Result compiled in: 2ms. No log recods for the table 't'"
    );
    assert_eq!(no_fatal_errors_text("3ms"), "Result compiled in: 3ms. No fatal error records");
}

#[test]
fn status_of_started_server_lists_tables() {
    let status = StatusModel::new(
        vec![("a".to_string(), metrics(2)), ("b".to_string(), metrics(5))],
        true,
        progress(),
        "eu".to_string(),
        6,
    );
    assert!(status.not_initialized.is_none());
    let tables = status.initialized.unwrap().tables;
    assert_eq!(tables.len(), 2);
    assert_eq!(tables[0].name, "a");
    assert_eq!(tables[1].partitions_count, 5);
    assert_eq!(tables[1].last_persist_duration, vec![7]);
    assert_eq!(status.status_bar.location.id, "eu");
    assert_eq!(status.status_bar.persist_amount, 6);
    assert_eq!(status.status_bar.tables_amount, 2);
    assert!(status.status_bar.master_node.is_none());
}

#[test]
fn status_of_starting_server_shows_progress() {
    let status = StatusModel::new(vec![("a".to_string(), metrics(2))], false, progress(), "eu".to_string(), 0);
    assert!(status.initialized.is_none());
    let p = status.not_initialized.unwrap();
    assert_eq!(p.tables_total, 4);
    assert_eq!(p.loading_time, 12);
    assert_eq!(status.status_bar.tables_amount, 1);
}

#[test]
fn persist_job_then_success_records_duration() {
    let mut markers = PersistMarkers::new();
    let mut logs = Logs::new();
    markers.data_to_persist.mark_partition_to_persist("p", 10);
    assert!(get_job_to_persist(&mut markers, 5, false).is_none());
    let job = get_job_to_persist(&mut markers, 10, false);
    assert!(matches!(job, Some(PersistResult::PersistPartition(k)) if k == "p"));
    assert!(!persist_finished(&mut markers, &mut logs, "t".to_string(), Ok(250), 11));
    assert_eq!(markers.persist_duration, vec![250]);
    assert_eq!(markers.last_persist_time, Some(11));
    assert!(logs.get().is_empty());
}

#[test]
fn persist_failure_is_a_fatal_error() {
    let mut markers = PersistMarkers::new();
    let mut logs = Logs::new();
    assert!(persist_finished(&mut markers, &mut logs, "t".to_string(), Err("JoinError".to_string()), 3));
    assert!(markers.persist_duration.is_empty());
    assert!(markers.last_persist_time.is_none());
    assert_eq!(logs.get_fatal_errors_amount(), 1);
    let fatal = logs.get_fatal_errors().unwrap();
    assert_eq!(fatal[0].message, "Can not persist messages JoinError");
    assert_eq!(fatal[0].process_name, "PersistTimer");
    assert_eq!(fatal[0].table.as_deref(), Some("t"));
    assert!(matches!(fatal[0].process, SystemProcess::PersistOperation));
}
