//! A pattern-memory texture engine: it learns, from a sample image, a
//! mapping between small local color-neighborhood patterns and their center
//! color, then repeatedly rewrites a toroidal grid of colored cells by
//! distance-weighted retrieval over the learned exemplars.
//!
//! All numeric work is exact fixed-point arithmetic: color channels in
//! units of 1/255, retrieval weights in units of 1/65536.

pub mod cell;
pub mod grid;
pub mod kernel;
pub mod memory;
pub mod builder;
pub mod engine;
