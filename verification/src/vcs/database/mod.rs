pub mod entry;
pub mod tree;
pub mod author;
pub mod commit;
pub mod database;
pub mod tree_diff;
pub mod verify;
pub mod tree_build;
