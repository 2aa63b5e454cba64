//! Core of a progressive GPU path tracer: the spatial acceleration
//! structure (a bounding volume hierarchy over spheres and triangles),
//! its flat, pointer-free encoding for upload to a GPU storage buffer,
//! and the per-frame sample-accumulation controller.
//!
//! Geometry is carried in fixed-point coordinates: every coordinate is a
//! plain `i64`, so that bounds, centroids and splits are exact integer
//! arithmetic.  The unverified shell around this crate quantizes its
//! floating-point scene into these coordinates before calling in.
//!
//! - [`vec3`], [`aabb`]: coordinates, boxes and their union operations;
//! - [`object`]: spheres, triangles, and the scene's object registry;
//! - [`bvh`]: the hierarchy builder and flattener, specified by
//!   [`bvh::bvh_represents`];
//! - [`bvh_laws`]: proved properties of the flat encoding;
//! - [`scene`]: the progressive-accumulation controller.

pub mod vec3;

pub mod aabb;

pub mod bvh;

pub mod bvh_laws;

pub mod object;

pub mod scene;
