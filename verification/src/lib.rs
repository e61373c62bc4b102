//! Exact-arithmetic kernel for a small ray-tracer style renderer.
//!
//! Scalars are exact rational numbers, so every geometric operation has a
//! precise mathematical contract: tuples (points and vectors in homogeneous
//! coordinates), square matrices with determinants and inverses, parametric
//! rays, and a pixel canvas with plain-text PPM serialization.

pub mod canvas;
pub mod color;
pub mod matrix;
pub mod rational;
pub mod ray;
pub mod sim;
pub mod transform;
pub mod tuple;
pub mod util;
