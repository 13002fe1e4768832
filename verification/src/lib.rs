//! Vim motions over a text buffer: where each motion moves the cursor, and
//! what range of text an operator combined with a motion acts on.

pub mod actions;
pub mod basic;
pub mod brackets;
pub mod buffer;
pub mod chars;
pub mod dispatch;
pub mod find;
pub mod lines;
pub mod motion;
pub mod movement;
pub mod words;
pub mod window;
