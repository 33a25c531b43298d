pub mod cli;
pub mod config;
pub mod conn_retry;
pub mod href;
pub mod href_map;
pub mod laws;
pub mod old_version;
pub mod pass;
pub mod result;
pub mod sync_service;
pub mod text;
pub mod versions;
