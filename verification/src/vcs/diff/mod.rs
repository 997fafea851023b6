pub mod myers;
pub mod diff;
