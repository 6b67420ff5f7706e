//! A verified 2-D spatial index (a region quadtree) and the neighbor-based
//! flocking simulation it accelerates.
//!
//! All coordinates are plain signed integers; a caller that works in some
//! finer unit fixes its own scale.

pub mod flock;
pub mod geom;
pub mod num;
pub mod quadtree;
pub mod seqs;
mod rng;
