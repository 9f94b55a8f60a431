//! Decision logic for an NVIDIA GPU power and fan control console.
pub mod app;
pub mod decimal;
pub mod gpu;
pub mod layout;
pub mod laws;
pub mod number;
pub mod plan;
pub mod text;
