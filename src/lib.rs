//! File classification and organization: the decisions of an organizer run,
//! stated and proved, with the process and file work left to its caller.
pub mod tier;
pub mod paths;
pub mod classify;
pub mod plan;
pub mod run;
pub mod report;
pub mod command;
pub mod retry;
pub mod ensemble;
pub mod cache;
