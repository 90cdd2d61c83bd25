//! Decision logic of the TipTop algorithm for influence maximization.
//!
//! TipTop picks seed nodes of a graph, within a budget, that influence as much of it as possible.
//! It draws reverse-reachable samples, solves an integer program for the seeds that cover the most
//! of them, and verifies the seeds on fresh samples; it draws more samples until the seeds pass.

pub mod call_laws;
pub mod coverage;
pub mod ilp;
pub mod ilp_laws;
pub mod input;
pub mod names;
pub mod nodes;
pub mod report;
pub mod sampling;
pub mod tiptop;
pub mod tiptop_laws;
pub mod verify;
pub mod verify_laws;
