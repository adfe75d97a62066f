//! Manage Windows applications through `winget`: the verified core.
pub mod text;
pub mod display;
pub mod pattern;
pub mod types;
pub mod services;
pub mod order;
pub mod commands;
