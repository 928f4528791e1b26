//! In-memory model of the MyNoSql persistence server: table caches, the
//! persistence scheduler, the log journal and the start-up bookkeeping.

pub mod str_key;

pub mod sorted_vec;
pub mod data_to_persist;
pub mod last_items;
pub mod persist_markers;
pub mod row_data;
pub mod persist_queue;
pub mod table_attributes;
pub mod partition_data;
pub mod table_cache;
pub mod persist_events;
pub mod logs;
pub mod load_table_task;
pub mod init_state_data;
pub mod files_to_download;
pub mod paths;
pub mod table_metrics;
pub mod init_from_archive_state;
pub mod archive;
pub mod grpc_persist_process;
pub mod api_controller;
pub mod init_state;
pub mod tables;
pub mod logs_page;
pub mod status;
pub mod persist;
pub mod sync_plan;
