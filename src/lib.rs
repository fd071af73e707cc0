//! A small tensor library: shapes, dense row-major tensors over a generic
//! element type, and an arena that records how derived tensors were computed.

pub mod error;
pub mod shape;
pub mod size;
pub mod tensor;
pub mod broadcast;
pub mod graph;
pub mod nn;
pub mod utils;
