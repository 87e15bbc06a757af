//! Fixed-dimension matrices over a generic numeric element, the linear-algebra
//! operators on them, and a three-layer network trained by gradient descent.

pub mod matrix;
pub mod laws;
pub mod network;
pub mod text;
pub mod dataset;
