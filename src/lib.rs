//! The rendering and navigation core of a terminal text viewer: lines that
//! wrap at the window's width, a cursor that keeps its line, byte and screen
//! position consistent, a viewport that scrolls by rows, the decoding of key
//! sequences, and the bytes that redraw the window.

pub mod editor;
pub mod geometry;
pub mod input;
pub mod line;
pub mod nav;
pub mod probe;
pub mod screen;
pub mod status;
