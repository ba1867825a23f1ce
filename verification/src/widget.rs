//! Widgets.

pub mod text;
