//! Lazy generator of the Kolakoski sequence, one run at a time.
pub mod laws;
pub mod model;
pub mod seq;

pub use seq::{KolSeq, Run};
