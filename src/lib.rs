//! A weighted graph held in an arena, with a shortest-path query over it.

pub mod alg;
mod frontier;
pub mod graph;
