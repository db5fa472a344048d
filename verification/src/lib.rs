//! A verified 2-D spatial index (quadtree) and the simulation step built on
//! it: points take bounded random-walk steps on a torus, the index is rebuilt
//! from scratch each tick, and every point is classified as overlapping or
//! not by a circular range query against the index.

pub mod geometry;
pub mod point;
pub mod quadtree;
pub mod sim;
