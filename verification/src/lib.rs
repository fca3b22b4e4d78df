//! Analysis of diagnostic packages of network storage devices: rules, log
//! scanning, the boot timeline, system information tables and the state of the
//! desktop application around them.

pub mod desktop;
pub mod engine;
pub mod extract;
pub mod fault;
pub mod monitor;
pub mod monitor_laws;
pub mod notice_laws;
pub mod notify;
pub mod order;
pub mod order_laws;
pub mod outside;
pub mod progress_laws;
pub mod row;
pub mod rules;
pub mod select;
pub mod server_laws;
pub mod task_laws;
pub mod tasks;
pub mod text;
pub mod text_laws;
pub mod webdav;

pub use webdav::load_webdav_password;
