//! A small feed-forward neural-network engine built on a hand-rolled,
//! shape-checked n-dimensional array.

pub mod activation;
pub mod layer;
pub mod mutating;
pub mod network;
pub mod scalar;
pub mod shape;
pub mod tensor;
