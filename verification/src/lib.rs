//! The verified core of a stochastic ray tracer: the output image buffer and
//! the pixel scan order that the render scheduler hands out to its workers.
//!
//! The floating-point geometry (vectors, rays, spheres, materials, camera) is
//! inherently IEEE-754 arithmetic, which the verifier does not reason about;
//! it lives in the surrounding application together with the I/O adapters.

pub mod image;
