//! Keyboard input and the editing of a line of text.
pub mod center;
pub mod edit;
pub mod field;
pub mod font;
pub mod input;
