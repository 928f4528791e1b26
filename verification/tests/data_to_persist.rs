use my_no_sql_persistence::data_to_persist::{DataToPersist, PersistResult};
use my_no_sql_persistence::persist_markers::PersistMarkers;

#[test]
fn test_add_partition_with_later_date() {
    let mut data_to_persist = DataToPersist::new();

    data_to_persist.mark_partition_to_persist("test", 5);

    data_to_persist.mark_partition_to_persist("test", 6);

    let result = data_to_persist.get_what_to_persist(5, false).unwrap();

    if let PersistResult::PersistPartition(table_name) = result {
        assert_eq!("test", table_name);
    } else {
        panic!("Should not be here");
    }
}

#[test]
fn test_add_partition_with_table_later() {
    let mut data_to_persist = DataToPersist::new();

    data_to_persist.mark_partition_to_persist("test", 5);

    data_to_persist.mark_table_to_persist(6);

    let result = data_to_persist.get_what_to_persist(5, false).unwrap();

    if let PersistResult::PersistPartition(table_name) = result {
        assert_eq!("test", table_name);
    } else {
        panic!("Should not be here");
    }

    let result = data_to_persist.get_what_to_persist(5, false);

    assert_eq!(true, result.is_none());

    let result = data_to_persist.get_what_to_persist(6, false).unwrap();

    assert_eq!(true, result.is_table());
}

#[test]
fn earlier_mark_moves_partition_forward() {
    let mut data = DataToPersist::new();
    data.mark_partition_to_persist("p", 10);
    data.mark_partition_to_persist("p", 3);
    assert_eq!(Some(3), data.get_next_persist_time());
    assert!(data.get_what_to_persist(2, false).is_none());
    match data.get_what_to_persist(3, false) {
        Some(PersistResult::PersistPartition(key)) => assert_eq!("p", key),
        _ => panic!("the partition is due"),
    }
}

#[test]
fn table_mark_keeps_earliest_moment() {
    let mut data = DataToPersist::new();
    data.mark_table_to_persist(8);
    data.mark_table_to_persist(12);
    assert_eq!(Some(8), data.persisit_whole_table);
    data.mark_table_to_persist(4);
    assert_eq!(Some(4), data.persisit_whole_table);
}

#[test]
fn whole_table_covers_its_partitions() {
    let mut data = DataToPersist::new();
    data.mark_partition_to_persist("a", 1);
    data.mark_partition_to_persist("b", 2);
    data.mark_table_to_persist(1);
    assert_eq!(3, data.get_persist_amount());
    assert!(data.get_what_to_persist(1, false).unwrap().is_table());
    assert_eq!(0, data.get_persist_amount());
    assert!(data.get_what_to_persist(100, false).is_none());
}

#[test]
fn attributes_come_last() {
    let mut data = DataToPersist::new();
    data.mark_persist_attrs();
    data.mark_partition_to_persist("a", 1);
    match data.get_what_to_persist(1, false) {
        Some(PersistResult::PersistPartition(key)) => assert_eq!("a", key),
        _ => panic!("the partition goes first"),
    }
    assert!(matches!(data.get_what_to_persist(1, false), Some(PersistResult::PersistAttrs)));
    assert!(data.get_what_to_persist(1, false).is_none());
}

#[test]
fn shutting_down_drains_everything() {
    let mut data = DataToPersist::new();
    data.mark_partition_to_persist("x", 1_000);
    data.mark_partition_to_persist("y", 2_000);
    data.mark_persist_attrs();
    let mut handed_out = 0;
    while data.get_what_to_persist(0, true).is_some() {
        handed_out += 1;
    }
    assert_eq!(3, handed_out);
    assert_eq!(0, data.get_persist_amount());
}

#[test]
fn next_persist_time_is_earliest_partition() {
    let mut data = DataToPersist::new();
    assert_eq!(None, data.get_next_persist_time());
    data.mark_partition_to_persist("b", 30);
    data.mark_partition_to_persist("a", 20);
    data.mark_partition_to_persist("c", 40);
    assert_eq!(Some(20), data.get_next_persist_time());
    data.mark_table_to_persist(50);
    assert_eq!(Some(50), data.get_next_persist_time());
}

#[test]
fn persist_markers_keep_last_120_durations() {
    let mut markers = PersistMarkers::new();
    for i in 0..130u128 {
        markers.add_persist_duration(i, i as i64);
    }
    assert_eq!(120, markers.persist_duration.len());
    assert_eq!(10, markers.persist_duration[0]);
    assert_eq!(129, markers.persist_duration[119]);
    assert_eq!(Some(129), markers.last_persist_time);
}
