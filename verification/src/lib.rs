//! Verified core of the `hm` CLI: path handling, directory policy,
//! deployment planning, log multiplexing, build-event rendering, VM cache
//! orchestration decisions, and the parsing helpers behind `hm run`.

pub mod ansi;
pub mod cache;
pub mod cli;
pub mod config;
pub mod cow;
pub mod dev;
pub mod dirs;
pub mod fsplan;
pub mod digest;
pub mod idmap;
pub mod init;
pub mod path;
pub mod render;
pub mod run;
pub mod size;
pub mod smap;
pub mod text;
pub mod vm;
