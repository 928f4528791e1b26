use std::io::{Cursor, Write};

use my_no_sql_persistence::archive::{read_archive, split_entry_name_exec, ArchiveError};
use my_no_sql_persistence::files_to_download::{FilesToDownloadListInner, NextFileToDownload};
use my_no_sql_persistence::init_from_archive_state::{InitFromArchiveContent, InitFromArchiveState};
use my_no_sql_persistence::init_state_data::{InitStateData, NextFileToLoadResult};
use my_no_sql_persistence::load_table_task::LoadTableTask;
use my_no_sql_persistence::logs::{Logs, SystemProcess};

fn strings(items: &[&str]) -> Vec<String> {
    items.iter().map(|s| s.to_string()).collect()
}

fn accepted(items: &[&str]) -> Vec<(String, Result<(), String>)> {
    items.iter().map(|s| (s.to_string(), Ok(()))).collect()
}

fn next_file(state: &mut InitStateData<u32>) -> Option<(String, String)> {
    match state.get_next_file_to_load() {
        NextFileToLoadResult::FileToLoad { table_name, file_name } => Some((table_name, file_name)),
        _ => None,
    }
}

fn zip_bytes(entries: &[(&str, &[u8])]) -> Vec<u8> {
    let mut writer = zip::ZipWriter::new(Cursor::new(Vec::new()));
    let options = zip::write::SimpleFileOptions::default()
        .compression_method(zip::CompressionMethod::Stored);
    for (name, content) in entries {
        writer.start_file(*name, options).unwrap();
        writer.write_all(content).unwrap();
    }
    writer.finish().unwrap().into_inner()
}

#[test]
fn load_task_hands_out_files_in_order() {
    let mut task: LoadTableTask<u32> = LoadTableTask::new();
    assert!(!task.has_file_to_load());
    assert!(task.get_next_file_to_load_content().is_none());
    task.add_list_of_files(strings(&["f1", "f2"]));
    assert!(task.has_file_to_load());
    assert_eq!(task.get_next_file_to_load_content(), Some("f1".to_string()));
    assert_eq!(task.get_next_file_to_load_content(), Some("f2".to_string()));
    assert!(!task.has_file_to_load());
    assert!(!task.all_files_are_loaded());
    task.upload("f2".to_string(), 2);
    task.upload("f1".to_string(), 1);
    assert!(!task.all_files_are_loaded());
    assert!(!task.is_file_list_loaded());
    task.set_file_list_is_loaded();
    assert!(task.is_file_list_loaded());
    assert!(task.all_files_are_loaded());
    let loaded = task.into_loaded();
    assert_eq!(loaded, vec![("f2".to_string(), 2), ("f1".to_string(), 1)]);
}

#[test]
fn load_task_of_empty_listing_is_done_once_listed() {
    let mut task: LoadTableTask<u32> = LoadTableTask::new();
    assert!(!task.all_files_are_loaded());
    task.set_file_list_is_loaded();
    assert!(task.all_files_are_loaded());
}

#[test]
fn init_state_walks_tables_in_name_order() {
    let mut state: InitStateData<u32> = InitStateData::new();
    let mut logs = Logs::new();
    assert!(matches!(state.get_next_file_to_load(), NextFileToLoadResult::NothingToLoad));
    state.init_table_names(accepted(&["b", "a"]), &mut logs, 1);
    assert!(matches!(state.get_next_file_to_load(), NextFileToLoadResult::NotReadyYet));
    state.add_files_to_table("b", strings(&["b1"]));
    state.add_files_to_table("a", strings(&["a1", "a2"]));
    state.add_files_to_table("missing", strings(&["x"]));
    assert_eq!(next_file(&mut state), Some(("a".to_string(), "a1".to_string())));
    assert_eq!(next_file(&mut state), Some(("a".to_string(), "a2".to_string())));
    assert_eq!(next_file(&mut state), Some(("b".to_string(), "b1".to_string())));
    assert!(matches!(state.get_next_file_to_load(), NextFileToLoadResult::NotReadyYet));
    state.set_file_list_is_loaded("a");
    state.set_file_list_is_loaded("b");
    state.set_file_list_is_loaded("missing");
    assert!(matches!(state.get_next_file_to_load(), NextFileToLoadResult::NothingToLoad));

    assert!(!state.upload_table_file_content("a", "a1".to_string(), 1));
    assert!(state.upload_table_file_content("a", "a2".to_string(), 2));
    assert!(state.upload_table_file_content("b", "b1".to_string(), 3));
    assert!(!state.upload_table_file_content("missing", "x".to_string(), 4));

    let (name, task) = state.remove_next_task().unwrap();
    assert_eq!(name, "a");
    assert_eq!(task.into_loaded(), vec![("a1".to_string(), 1), ("a2".to_string(), 2)]);
    let (name, _) = state.remove_next_task().unwrap();
    assert_eq!(name, "b");
    assert!(state.remove_next_task().is_none());
}

#[test]
fn init_table_names_restarts_a_table() {
    let mut state: InitStateData<u32> = InitStateData::new();
    let mut logs = Logs::new();
    state.init_table_names(accepted(&["a"]), &mut logs, 1);
    state.add_files_to_table("a", strings(&["a1"]));
    state.init_table_names(accepted(&["a"]), &mut logs, 1);
    state.set_file_list_is_loaded("a");
    assert!(matches!(state.get_next_file_to_load(), NextFileToLoadResult::NothingToLoad));
}

#[test]
fn files_to_download_in_listing_order() {
    let mut list = FilesToDownloadListInner::new();
    assert!(matches!(list.get_next_file_to_download(), NextFileToDownload::Wait));
    list.add_files(strings(&["x", "y"]));
    assert!(matches!(list.get_next_file_to_download(), NextFileToDownload::File(f) if f == "x"));
    list.set_files_list_is_loaded();
    assert!(matches!(list.get_next_file_to_download(), NextFileToDownload::File(f) if f == "y"));
    assert!(matches!(list.get_next_file_to_download(), NextFileToDownload::Done));
}

#[test]
fn archive_state_groups_by_table() {
    let mut state = InitFromArchiveState::new();
    assert!(state.pop_first().is_none());
    state.add_content(
        "t2".to_string(),
        InitFromArchiveContent { file_name: "f".to_string(), content: vec![1] },
    );
    state.add_content(
        "t1".to_string(),
        InitFromArchiveContent { file_name: "g".to_string(), content: vec![2] },
    );
    state.add_content(
        "t2".to_string(),
        InitFromArchiveContent { file_name: "h".to_string(), content: vec![3] },
    );
    let (name, contents) = state.pop_first().unwrap();
    assert_eq!(name, "t1");
    assert_eq!(contents.len(), 1);
    assert_eq!(contents[0].content, vec![2]);
    state.mark_loaded(name);
    let (name, contents) = state.pop_first().unwrap();
    assert_eq!(name, "t2");
    assert_eq!(contents.len(), 2);
    assert_eq!(contents[0].file_name, "f");
    assert_eq!(contents[1].file_name, "h");
    assert!(state.pop_first().is_none());
    assert_eq!(state.loaded, vec!["t1".to_string()]);
}

#[test]
fn entry_names_split_at_their_one_slash() {
    assert_eq!(
        split_entry_name_exec("table/file"),
        Some(("table".to_string(), "file".to_string()))
    );
    assert_eq!(split_entry_name_exec("/file"), Some(("".to_string(), "file".to_string())));
    assert_eq!(split_entry_name_exec("table"), None);
    assert_eq!(split_entry_name_exec("a/b/c"), None);
}

#[test]
fn archive_is_read_by_table() {
    let bytes = zip_bytes(&[("t2/a", b"one"), ("t1/b", b"two"), ("t2/c", b"three")]);
    let mut state = match read_archive(bytes) {
        Ok(state) => state,
        Err(_) => panic!("the archive should be read"),
    };
    let (name, contents) = state.pop_first().unwrap();
    assert_eq!(name, "t1");
    assert_eq!(contents[0].file_name, "b");
    assert_eq!(contents[0].content, b"two".to_vec());
    let (name, contents) = state.pop_first().unwrap();
    assert_eq!(name, "t2");
    assert_eq!(contents.len(), 2);
    assert_eq!(contents[0].file_name, "a");
    assert_eq!(contents[1].content, b"three".to_vec());
    assert!(state.pop_first().is_none());
}

#[test]
fn archive_errors() {
    assert!(matches!(read_archive(b"not a zip".to_vec()), Err(ArchiveError::NotAnArchive)));
    let bytes = zip_bytes(&[("t/a", b"1"), ("loose", b"2")]);
    assert!(matches!(
        read_archive(bytes),
        Err(ArchiveError::NotATableFile { name }) if name == "loose"
    ));
}

#[test]
fn rejected_table_names_are_skipped_and_logged() {
    let mut state: InitStateData<u32> = InitStateData::new();
    let mut logs = Logs::new();
    let names = vec![
        ("good".to_string(), Ok(())),
        ("bad name".to_string(), Err("InvalidSymbol".to_string())),
    ];
    state.init_table_names(names, &mut logs, 77);
    let (name, _) = state.remove_next_task().unwrap();
    assert_eq!(name, "good");
    assert!(state.remove_next_task().is_none());
    let records = logs.get();
    assert_eq!(records.len(), 1);
    let record = &records[0];
    assert_eq!(record.table.as_deref(), Some("bad name"));
    assert!(matches!(record.process, SystemProcess::Init));
    assert!(matches!(record.level, my_no_sql_persistence::logs::LogLevel::Error));
    assert_eq!(record.process_name, "init_tables");
    assert_eq!(
        record.message,
        "Table name does not fit validation. Skipping loading it... Reason:InvalidSymbol"
    );
    assert_eq!(record.date, 77);
    assert!(record.err_ctx.is_none());
    assert_eq!(logs.get_by_table_name("bad name").unwrap().len(), 1);
}
