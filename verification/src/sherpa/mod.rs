pub mod error;
pub mod model;
