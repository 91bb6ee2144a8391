//! Startup entries: a record model for XDG autostart desktop files, a
//! fidelity-preserving parser and writer, a filter/sort view over records and
//! the decision logic of the guard that protects user-owned files.

pub mod text;
pub mod model;
pub mod parse;
pub mod render;
pub mod view;
pub mod slug;
pub mod guard;
pub mod ops;
pub mod laws;
