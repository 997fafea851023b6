pub mod sprint;
pub mod manager;
pub mod record;
