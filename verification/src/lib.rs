//! Applies a directory of ordered SQL scripts to a database exactly once
//! each. This crate holds the decisions: which scripts are candidates, how
//! they are reconciled with the records of earlier runs, and what a run does
//! with each entry. Talking to the file system and to the database is left
//! to the program around it.

pub mod cli;
pub mod filesystem;
pub mod laws;
pub mod migrator;
pub mod names;
pub mod run;
pub mod sql;
pub mod util;
