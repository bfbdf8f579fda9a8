//! A model of a terminal screen.
//!
//! A [`Screen`] holds a grid of character cells, a cursor and the attributes
//! that newly printed text takes.  It is edited by a stream of [`Change`]
//! values, and it produces such streams again: to bring a remote display up to
//! date, or to turn one region of cells into another.
#![allow(unused_imports)]

pub mod canvas;
pub mod cell;
pub mod change;
pub mod color;
pub mod diff;
pub mod effects;
pub mod laws;
mod line;
pub mod paint;
pub mod rounds;
pub mod screen;
pub mod streams;

pub use crate::cell::{
    AttributeChange, Blink, Cell, CellAttributes, Hyperlink, Intensity, Underline,
};
pub use crate::change::{compute_position_change, Change, Position};
pub use crate::color::{AnsiColor, ColorAttribute, RgbColor};
pub use crate::screen::{Screen, SequenceNo};
