//! The logic of the iPet desktop companion's backend, with its contracts
//! proved: settings and their validation, the tool registry's rules and
//! request building, tool packages, the chat turn and tool loop, the
//! server-sent event decoder, secret envelopes, disk-scan aggregation,
//! foreground-usage parsing and the desktop tools' argument handling.
//! Everything that touches the file system, the network, processes or the
//! database lives in the host program under `app/`.

pub mod chat;
pub mod config;
pub mod desktop_tools;
pub mod disk_scanner;
pub mod error;
pub mod llm_client;
pub mod parse;
pub mod secret;
pub mod storage;
pub mod text;
pub mod tool_package;
pub mod tool_reports;
pub mod tools;
pub mod usage_tracker;
