//! Detection of kernel out-of-memory kills and their correlation with the
//! command lines of recently seen processes.

pub mod cache;
pub mod config;
pub mod event;
pub mod text;
pub mod watcher;
