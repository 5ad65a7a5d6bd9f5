pub mod laws;
pub mod step_laws;
pub mod types;
