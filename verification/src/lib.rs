//! Rectangles on a character canvas.
//!
//! The `canvas` module owns a logical grid of bytes and renders it, upscaled
//! by an integer resolution factor, into a flat byte buffer with a line feed
//! terminating every row. The `physics` module moves axis-aligned rectangles
//! inside a bounded arena, bouncing them off the walls, and rejects insertions
//! whose bounding boxes overlap an existing rectangle.

pub mod canvas;
pub mod physics;
