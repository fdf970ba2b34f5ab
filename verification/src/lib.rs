//! A raster editing engine: a pixel buffer, shape and stroke rasterisers, a
//! seed fill, a bounded undo history and a floating selection.
//!
//! - [`raster`]: the buffer and its mathematical value, a grid of colours
//! - [`line`], [`shapes`], [`fill`]: what the drawing tools paint
//! - [`history`]: undo and redo over whole-buffer snapshots
//! - [`selection`]: lifting pixels off the canvas and setting them down
//! - [`clipboard`]: pixel data as flat bytes, in either channel order
//! - [`editor`]: the commands and pointer gestures on one canvas
//! - [`pixels`]: the calls into the `image` crate, which are not proved
//!
//! The engine works on whole numbers only. Window, dialogs, files, the
//! platform clipboard and all geometry with angles belong to the host.

pub mod clipboard;
pub mod color;
pub mod editor;
pub mod fill;
pub mod geometry;
pub mod history;
pub mod line;
pub mod pixels;
pub mod raster;
pub mod selection;
pub mod shapes;
