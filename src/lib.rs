//! A membership directory for named campaigns: each campaign has a unique
//! channel identity, a unique display name, a leader and a set of members,
//! and the directory keeps a name index and a member index consistent with
//! its campaign table.

pub mod campaign;
pub mod directory;
pub mod name;
pub mod storage;
mod tables;
