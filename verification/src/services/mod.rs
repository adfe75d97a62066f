//! The services that talk to `winget` and read its data.
pub mod table;
pub mod registry;
pub mod winget;
pub mod sqlite;
