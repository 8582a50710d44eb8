//! Logs: raw diagnostic exports, masked command log records and the
//! listing of log files.
pub mod history;
pub mod raw;
pub mod session;
