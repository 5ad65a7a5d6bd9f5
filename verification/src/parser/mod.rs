pub mod bf5d;
pub mod types;
pub mod utils;
