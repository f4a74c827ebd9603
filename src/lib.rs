//! A personal task list: dated entries grouped by category, stored one per
//! line in a plain-text file.

pub mod command;
pub mod config;
pub mod dates;
pub mod entry;
pub mod error;
pub mod persist;
pub mod render;
pub mod store;
pub mod text;
pub mod urgency;
pub mod util;
