//! Account and environment management for the Cursor editor on macOS:
//! the storage layout, the configuration model and its operations, the
//! saved-login snapshots, progress arithmetic, and version comparison.
pub mod text;
pub mod about;
pub mod paths;
pub mod folders;
pub mod auth;
pub mod updates;
pub mod copy_progress;
pub mod commands;
pub mod capture;
pub mod cursor;
