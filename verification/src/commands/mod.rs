//! The commands of the tool: building presets, installing them, exporting and
//! showing what is installed.
pub mod matching;
pub mod keys;
pub mod progress;
pub mod create;
pub mod install;
pub mod export;
pub mod show;
