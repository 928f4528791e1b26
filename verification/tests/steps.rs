use my_no_sql_persistence::archive::{take_in_entries, ArchiveEntry, ArchiveError};
use my_no_sql_persistence::data_to_persist::PersistResult;
use my_no_sql_persistence::init_state_data::{file_loaded, InitStateData, LoadFileOutcome, NextFileToLoadResult};
use my_no_sql_persistence::logs::Logs;
use my_no_sql_persistence::persist::PersistPass;
use my_no_sql_persistence::persist_markers::PersistMarkers;
use my_no_sql_persistence::sorted_vec::SortedVecWithStrKey;
use my_no_sql_persistence::sync_plan::{sync_plan, BlobPartition, PartitionSync};
use my_no_sql_persistence::table_attributes::DbTableAttributes;
use my_no_sql_persistence::table_cache::DbRowDto;
use my_no_sql_persistence::tables::{TableFileContent, Tables};

fn entry(name: Option<&str>, content: Option<&[u8]>) -> ArchiveEntry {
    ArchiveEntry { name: name.map(|n| n.to_string()), content: content.map(|c| c.to_vec()) }
}

#[test]
fn entries_are_grouped_by_table() {
    let mut state = match take_in_entries(vec![
        entry(Some("b/1"), Some(b"x")),
        entry(Some("a/2"), Some(b"y")),
    ]) {
        Ok(state) => state,
        Err(_) => panic!("readable entries are taken in"),
    };
    let (name, contents) = state.pop_first().unwrap();
    assert_eq!(name, "a");
    assert_eq!(contents[0].file_name, "2");
    assert_eq!(contents[0].content, b"y".to_vec());
}

#[test]
fn first_bad_entry_gives_the_error() {
    let r = take_in_entries(vec![
        entry(Some("a/1"), Some(b"x")),
        entry(None, Some(b"y")),
        entry(Some("loose"), Some(b"z")),
    ]);
    assert!(matches!(r, Err(ArchiveError::UnreadableName { index: 1 })));
    let r = take_in_entries(vec![entry(Some("a/1"), None)]);
    assert!(matches!(r, Err(ArchiveError::UnreadableContent { name }) if name == "a/1"));
}

#[test]
fn persist_pass_stops_when_no_table_has_a_job() {
    let mut a = PersistMarkers::new();
    let mut b = PersistMarkers::new();
    a.data_to_persist.mark_persist_attrs();
    let mut pass = PersistPass::new();
    assert!(matches!(pass.take_job(&mut a, 0, false), Some(PersistResult::PersistAttrs)));
    assert!(pass.take_job(&mut b, 0, false).is_none());
    assert!(!pass.is_last());
    let mut pass = PersistPass::new();
    assert!(pass.take_job(&mut a, 0, false).is_none());
    assert!(pass.take_job(&mut b, 0, false).is_none());
    assert!(pass.is_last());
}

#[test]
fn loaded_files_reach_their_table_and_failures_are_logged() {
    let mut state: InitStateData<u32> = InitStateData::new();
    let mut logs = Logs::new();
    state.init_table_names(vec![("t".to_string(), Ok(()))], &mut logs, 0);
    state.add_files_to_table("t", vec!["f1".to_string(), "f2".to_string(), "f3".to_string()]);
    state.set_file_list_is_loaded("t");
    for _ in 0..3 {
        assert!(matches!(state.get_next_file_to_load(), NextFileToLoadResult::FileToLoad { .. }));
    }
    file_loaded(&mut state, &mut logs, "t".to_string(), "f1".to_string(), LoadFileOutcome::Loaded(7), 1);
    file_loaded(&mut state, &mut logs, "t".to_string(), "f2".to_string(), LoadFileOutcome::BadFileName("unknown".to_string()), 2);
    file_loaded(&mut state, &mut logs, "t".to_string(), "f3".to_string(), LoadFileOutcome::Undecodable("bad".to_string()), 3);
    file_loaded(&mut state, &mut logs, "t".to_string(), "f3".to_string(), LoadFileOutcome::NoContent, 4);
    let records = logs.get();
    assert_eq!(records.len(), 2);
    assert_eq!(records[0].message, "Error loading table file f2: unknown");
    assert_eq!(records[0].table.as_deref(), Some("f2"));
    assert_eq!(records[1].message, "Error parsing table file f3: bad");
    let (_, task) = state.remove_next_task().unwrap();
    assert_eq!(task.into_loaded(), vec![("f1".to_string(), 7)]);
}

#[test]
fn table_files_restore_settings_and_rows() {
    let mut tables = Tables::new("/d".to_string());
    tables.restore_table_file(
        "t",
        TableFileContent::Partition {
            partition_key: "p".to_string(),
            rows: Some(Ok(vec![DbRowDto {
                partition_key: "p".to_string(),
                row_key: "r".to_string(),
                content: "c".to_string(),
            }])),
        },
        false,
        5,
    );
    assert_eq!(tables.get_table("t").unwrap().partitions.len(), 1);
    tables.restore_table_file(
        "t",
        TableFileContent::Attributes(Some(DbTableAttributes {
            persist: false,
            max_partitions_amount: None,
            max_rows_per_partition_amount: None,
            created: 9,
        })),
        false,
        6,
    );
    assert_eq!(tables.get_table("t").unwrap().meta_data.created, 9);
    tables.restore_table_file(
        "t",
        TableFileContent::Partition { partition_key: "q".to_string(), rows: Some(Err("broken".to_string())) },
        true,
        7,
    );
    tables.restore_table_file("u", TableFileContent::Partition { partition_key: "q".to_string(), rows: None }, false, 7);
    assert!(tables.get_table("u").is_none());
    tables.restore_table_file("v", TableFileContent::Attributes(None), false, 8);
    assert_eq!(tables.get_table("v").unwrap().meta_data.created, 8);
    assert_eq!(tables.get_table("t").unwrap().partitions.len(), 1);
}

#[test]
fn sync_plan_uploads_compares_and_deletes() {
    let mut store: SortedVecWithStrKey<BlobPartition> = SortedVecWithStrKey::new();
    store.insert_or_replace(BlobPartition { partition_key: "a".to_string(), written: 10 });
    store.insert_or_replace(BlobPartition { partition_key: "z".to_string(), written: 20 });
    store.insert_or_replace(BlobPartition { partition_key: "m".to_string(), written: 30 });
    let plan = sync_plan(&vec!["a".to_string(), "b".to_string(), "a".to_string()], &store);
    assert_eq!(plan.len(), 5);
    assert!(matches!(&plan[0], PartitionSync::UploadIfChanged { partition_key, written_in_store: 10 } if partition_key == "a"));
    assert!(matches!(&plan[1], PartitionSync::Upload(k) if k == "b"));
    assert!(matches!(&plan[2], PartitionSync::Upload(k) if k == "a"));
    assert!(matches!(&plan[3], PartitionSync::Delete(k) if k == "m"));
    assert!(matches!(&plan[4], PartitionSync::Delete(k) if k == "z"));
}
