use my_no_sql_persistence::logs::{
    should_log_be_printed, LogItem, LogLevel, Logs, SystemProcess, LOGS_KEPT,
};

fn item(level: LogLevel, process: SystemProcess) -> LogItem {
    LogItem {
        date: 0,
        table: None,
        level,
        process,
        process_name: "p".to_string(),
        message: "m".to_string(),
        err_ctx: None,
    }
}

#[test]
fn iterate_lists_processes_by_number() {
    let all = SystemProcess::iterate();
    assert_eq!(all.len(), 6);
    for (i, p) in all.iter().enumerate() {
        assert_eq!(p.as_u8() as usize, i);
    }
    assert!(matches!(all[0], SystemProcess::System));
    assert!(matches!(all[5], SystemProcess::Timer));
}

#[test]
fn parse_ignores_ascii_case() {
    assert!(matches!(SystemProcess::parse("System"), Some(SystemProcess::System)));
    assert!(matches!(SystemProcess::parse("TCPSOCKET"), Some(SystemProcess::TcpSocket)));
    assert!(matches!(
        SystemProcess::parse("PersistOperation"),
        Some(SystemProcess::PersistOperation)
    ));
    assert!(matches!(SystemProcess::parse("tableoperation"), Some(SystemProcess::TableOperation)));
    assert!(matches!(SystemProcess::parse("iNiT"), Some(SystemProcess::Init)));
    assert!(matches!(SystemProcess::parse("Timer"), Some(SystemProcess::Timer)));
    assert!(SystemProcess::parse("timers").is_none());
    assert!(SystemProcess::parse("").is_none());
    assert!(SystemProcess::parse("tcp socket").is_none());
}

#[test]
fn as_u8_numbers() {
    assert_eq!(SystemProcess::System.as_u8(), 0);
    assert_eq!(SystemProcess::TcpSocket.as_u8(), 1);
    assert_eq!(SystemProcess::PersistOperation.as_u8(), 2);
    assert_eq!(SystemProcess::TableOperation.as_u8(), 3);
    assert_eq!(SystemProcess::Init.as_u8(), 4);
    assert_eq!(SystemProcess::Timer.as_u8(), 5);
}

#[test]
fn only_fatal_is_fatal() {
    assert!(LogLevel::FatalError.is_fatal_error());
    assert!(!LogLevel::Error.is_fatal_error());
    assert!(!LogLevel::Info.is_fatal_error());
}

#[test]
fn which_records_are_printed() {
    assert!(should_log_be_printed(&item(LogLevel::Info, SystemProcess::System)));
    assert!(should_log_be_printed(&item(LogLevel::Info, SystemProcess::Init)));
    assert!(!should_log_be_printed(&item(LogLevel::Info, SystemProcess::Timer)));
    assert!(!should_log_be_printed(&item(LogLevel::Info, SystemProcess::TcpSocket)));
    assert!(should_log_be_printed(&item(LogLevel::Error, SystemProcess::Timer)));
    assert!(should_log_be_printed(&item(LogLevel::FatalError, SystemProcess::TableOperation)));
}

#[test]
fn journals_by_table_and_process() {
    let mut logs = Logs::new();
    assert!(logs.get().is_empty());
    assert!(logs.last_item().is_none());
    assert!(logs.get_fatal_errors().is_none());
    assert!(!logs.add_info(
        Some("t1".to_string()),
        SystemProcess::Timer,
        "tick".to_string(),
        "first".to_string(),
        None,
        10,
    ));
    assert!(logs.add_error(
        Some("t2".to_string()),
        SystemProcess::PersistOperation,
        "persist".to_string(),
        "second".to_string(),
        Some("ctx".to_string()),
        20,
    ));
    assert!(logs.add_info(None, SystemProcess::System, "s".to_string(), "third".to_string(), None, 30));

    assert_eq!(logs.last_item().unwrap().message, "third");
    let all = logs.get();
    assert_eq!(all.len(), 3);
    assert_eq!(all[0].message, "first");
    assert_eq!(all[2].message, "third");
    assert_eq!(all[1].date, 20);
    assert_eq!(all[1].err_ctx.as_deref(), Some("ctx"));

    let t1 = logs.get_by_table_name("t1").unwrap();
    assert_eq!(t1.len(), 1);
    assert_eq!(t1[0].message, "first");
    assert!(logs.get_by_table_name("t3").is_none());

    let timer = logs.get_by_process(SystemProcess::Timer).unwrap();
    assert_eq!(timer.len(), 1);
    assert!(logs.get_by_process(SystemProcess::Init).is_none());
    assert_eq!(logs.get_fatal_errors_amount(), 0);
}

#[test]
fn fatal_errors_are_counted_and_kept() {
    let mut logs = Logs::new();
    assert!(logs.add_fatal_error(
        None,
        SystemProcess::Init,
        "init".to_string(),
        "boom".to_string(),
        None,
        5,
    ));
    assert!(logs.add_fatal_error(
        Some("t".to_string()),
        SystemProcess::Init,
        "init".to_string(),
        "bang".to_string(),
        None,
        6,
    ));
    assert_eq!(logs.get_fatal_errors_amount(), 2);
    let fatal = logs.get_fatal_errors().unwrap();
    assert_eq!(fatal.len(), 2);
    assert_eq!(fatal[0].message, "boom");
    assert!(fatal[1].level.is_fatal_error());
}

#[test]
fn journals_keep_the_last_hundred() {
    let mut logs = Logs::new();
    for i in 0..(LOGS_KEPT + 5) {
        logs.add_info(
            Some("t".to_string()),
            SystemProcess::TableOperation,
            "op".to_string(),
            format!("{}", i),
            None,
            i as i64,
        );
    }
    let all = logs.get();
    assert_eq!(all.len(), LOGS_KEPT);
    assert_eq!(all[0].message, "5");
    assert_eq!(all[LOGS_KEPT - 1].message, format!("{}", LOGS_KEPT + 4));
    let by_table = logs.get_by_table_name("t").unwrap();
    assert_eq!(by_table.len(), LOGS_KEPT);
    assert_eq!(by_table[0].message, "5");
    let by_process = logs.get_by_process(SystemProcess::TableOperation).unwrap();
    assert_eq!(by_process.len(), LOGS_KEPT);
}
