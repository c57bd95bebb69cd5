pub mod cmvn;
pub mod decoder;
pub mod error;
pub mod frontend;
pub mod tokens;
