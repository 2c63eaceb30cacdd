//! Core engine of a 2D vector-shape editor: integer geometry, an owned
//! pixel canvas with alpha compositing, scan-conversion rasterizers and
//! hit tests for the five shape kinds, and a history-backed shape store
//! with coalesced, bounded undo/redo.
//!
//! Every rasterizer carries an exact pixel-level specification: its
//! contract names the sequence of cells the algorithm composites, so
//! the canvas after a draw call is pinned completely. The store's
//! contracts pin every mutation, the coalescing push rule, and the
//! undo/redo semantics; the laws the engine is meant to obey — curve
//! endpoint evaluation, subdivision continuity, drag coalescing,
//! reorder round trips, the bounded history — are stated and proved as
//! lemmas next to the code they govern.

pub mod bezier;
pub mod canvas;
pub mod draw_state;
pub mod ellipse;
pub mod line;
pub mod point;
pub mod rectangle;
pub mod rgba;
pub mod select;
pub mod shape;
pub mod shape_core;
pub mod triangle;

pub use canvas::Canvas;
pub use draw_state::DrawState;
pub use point::Point;
pub use point::Ratio;
pub use rgba::RGBA;
pub use select::MouseEvent;
pub use select::ShapeSelected;
pub use shape::AnyShape;
pub use shape::new_shape_from_core;
pub use shape_core::Shape;
pub use shape_core::ShapeCore;
pub use shape_core::UpdateOp;
