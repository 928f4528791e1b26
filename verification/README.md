# my_no_sql_persistence

The persistence side of a MyNoSql server, as a Verus-verified library with a
thin program around it.

- `src/` — the verified library: the table caches and how persistence
  requests change them (`table_cache`, `partition_data`, `persist_events`,
  `tables`), the persistence schedule of a table (`data_to_persist`,
  `persist_markers`), the log journal (`logs`), the start-up bookkeeping
  (`init_state_data`, `load_table_task`, `init_state`, `files_to_download`,
  `init_from_archive_state`, `archive`), paths of table files (`paths`),
  table figures and the status page (`table_metrics`, `status`), the
  steps of a persist and of bringing the store in line with a table
  (`persist`, `sync_plan`), the pages of log records (`logs_page`) and
  the monitoring endpoint's answer (`api_controller`). Keys are kept in `sorted_vec`, ordered as `str` is
  (`str_key`).
- `tests/` — tests of the library.
- `app/` — the program: settings, file reading, console
  output and Prometheus gauges.
