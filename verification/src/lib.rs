pub mod funasr;
pub mod providers;
pub mod sherpa;
pub mod text;
