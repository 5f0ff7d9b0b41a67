//! Raster canvas engine for a small bitmap editor.
//!
//! The crate provides an in-memory RGBA pixel buffer together with the
//! drawing primitives (lines, circles, polygons, flood fill, brush strokes),
//! a bounded snapshot-based undo history, a mask layer that scopes edits,
//! a rectangular selection with a copy/paste buffer, whole-image and
//! sub-region transformations, and the two-click interaction state machine
//! that turns pointer gestures into committed edits.
//!
//! Everything is integer arithmetic: antialiased variants use fixed-point
//! coverage weights and the trigonometry behind regular polygons uses a
//! rational approximation in millidegrees, so the whole engine is verified.

pub mod buffer;
pub mod canvas;
pub mod color;
pub mod fill;
pub mod geom;
pub mod interact;
pub mod region;
pub mod toolbar;
pub mod tools;
pub mod transform;
pub mod undo;
