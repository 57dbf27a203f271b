//! Reverse-mode automatic differentiation over a graph of vertices kept in an arena, with the
//! element traits it is generic over and a dense tensor and linear layer built on them.

pub mod element;
pub mod lin_layer;
pub mod node;
pub mod tensor;
pub mod theorems;
