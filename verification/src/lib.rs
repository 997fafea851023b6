//! AsheraFlow: a content-addressed version control core with sprint and task tracking.
pub mod cli;
pub mod text;
pub mod numeral;
pub mod stdtext;
pub mod clock;
pub mod vcs;
pub mod errors;
pub mod digest;
pub mod bytes;
pub mod order;
pub mod compression;
pub mod paths;
pub mod keyed;
pub mod commands;
