//! Entity-relationship diagrams as box-drawing art on a character grid.
//!
//! The crate lays out database tables (entities) on a fixed-size canvas,
//! paints each one as a bordered box with a title and one row per column,
//! and routes orthogonal connector lines between foreign-key columns and
//! the primary-key columns they reference, stepping around the interiors
//! of other entities' boxes.

pub mod builder;
pub mod canvas;
pub mod engine;
pub mod finder;
pub mod layout;
pub mod models;
pub mod render;
pub mod renderer;
pub mod sync;
