//! TelSync: the decisions of a panel that syncs a TelDrive remote tree to a local folder
//! through aria2, each stated in a contract over the values it works on.

pub mod config;
pub mod outside;
pub mod text;
pub mod tree;
pub mod local_scan;
pub mod paths;
pub mod tasks;
pub mod update;
pub mod teldrive;
pub mod enqueue;
pub mod aria2_ctl;
pub mod install;
