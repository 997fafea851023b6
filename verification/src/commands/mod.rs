//! The decisions of the commands: what each one reads, compares and writes,
//! apart from the reading and writing itself.
pub mod status;
pub mod add;
pub mod task;
pub mod burndown;
pub mod merge;
pub mod rm;
pub mod task_list;
pub mod commit;
pub mod init;
pub mod branch;
pub mod checkout;
pub mod sprint_advance;
pub mod sprint_view;
pub mod sprint_velocity;
pub mod sprint_commitmap;
pub mod reset;
pub mod revert;
pub mod diff;
pub mod validate;
