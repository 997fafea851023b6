//! Three-way merges: their inputs, the resolution of each path, and the
//! merge bases.
pub mod resolve;
pub mod inputs;
pub mod bases;
