//! The core of a retained-mode widget toolkit.
//!
//! At its heart is the layout solver: widgets say how much space they ask
//! for along each axis, and the solver shares the space of a window out
//! among them, in rows, columns and grids. Around it stand geometry and
//! widget identity, the editing of text, the wake-ups of the event loop, and
//! the reading of widget declarations.

pub mod args;
pub mod data;
pub mod derive;
pub mod event_loop;
pub mod geom;
pub mod layout;
pub mod widget;
