//! Inserts finalized history rows into terminal scrollback.

pub mod ansi;
pub mod command;
pub mod geometry;
pub mod indent;
pub mod insert;
pub mod outcome;
pub mod pen;
pub mod primitives;
pub mod rows;
pub mod screen;
pub mod spans;
pub mod style;
pub mod text;
