//! Margin risk: figures, account and position state, and the engine.
pub mod calc;
pub mod engine;
pub mod exposure;
pub mod position;
pub mod types;
pub mod value;
