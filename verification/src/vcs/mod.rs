pub mod file_mode;
pub mod entry;
pub mod database;
pub mod refs;
pub mod branch_metadata;
pub mod sprint;
pub mod blob;
pub mod diff;
pub mod index;
pub mod merge;
pub mod inspector;
pub mod editor;
pub mod write_commit;
pub mod repository;
pub mod workspace;
pub mod metadata;
