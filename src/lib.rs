//! A dense multi-dimensional array engine with a verified coordinate codec,
//! odometer enumeration, contraction, extraction and insertion.
pub mod coordinate;
pub mod error;
pub mod general_type;
pub mod laws;
pub mod neural_network;
pub mod permutation;
pub mod tensor;
