//! Finds sensitive words in git commits before they are pushed.

pub mod batch;
pub mod check;
pub mod config;
pub mod hook;
pub mod matcher;
pub mod refs;
pub mod scan;
pub mod text;
