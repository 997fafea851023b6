pub mod entry;
pub mod checksum;
pub mod index;
