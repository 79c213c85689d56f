//! The puter: an old computer whose screen is a terminal.
pub mod chrome;
pub mod color;
pub mod keys;
pub mod press;
pub mod terminal;
