//! Per-application backup vaults: a declarative list of games and their paths,
//! reconciled into a relational index, with versioned archive backups and
//! atomic restore.

pub mod backup;
pub mod cli;
pub mod config;
pub mod error;
pub mod hash;
pub mod index;
pub mod paths;
pub mod restore;
pub mod sync;
