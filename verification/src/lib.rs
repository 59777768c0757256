//! A recursive ray tracer over fixed-point arithmetic.
//!
//! A scene holds spheres, planes and triangles, disc-shaped lights and a
//! camera. The color seen along a ray is the ambient light and the
//! soft-shadowed light of every light on the surface that the ray meets
//! first, mixed with what that surface mirrors, to a bounded depth. A picture
//! is rendered pixel by pixel, as independent tasks whose results are
//! collected in any order.
//!
//! Every number is an integer that counts millionths (see `numeric`), so
//! every operation is defined exactly and the same picture comes out on
//! every machine.

pub mod basics;
pub mod image;
pub mod material;
pub mod numeric;
pub mod plane_proofs;
pub mod raycast;
pub mod scene;
pub mod schedule;
pub mod shading;
pub mod shapes;
pub mod sphere_proofs;
