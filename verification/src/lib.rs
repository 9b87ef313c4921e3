//! The verified core of a ray tracer: everything the engine decides on
//! ordered or discrete data.
//!
//! - [`intersection`]: ordering the intersections along a ray, merging
//!   those that coincide, and selecting the visible hit.
//! - [`primitives`]: which of the roots that a ray's equation has with a
//!   sphere, plane, cube, cylinder or cone count as intersections, and on
//!   which face of a shape a point lies.
//! - [`hierarchy`]: the registry of shapes and groups, kept free of
//!   cycles, and the order in which nested transforms apply.
//! - [`refraction`] and [`shading`]: the media on both sides of a hit,
//!   which of the light's contributions reach a point, and which
//!   secondary rays are traced with how many bounces left.
//! - [`patterns`], [`material`], [`world`], [`canvas`], [`matrix`]: the
//!   pattern shown at a point, the scene's data, the pixel grid with its
//!   text form, and tables of numbers as far as entries are only moved.
//!
//! Scalars are fixed-point integers (see [`scalar`]). The floating-point
//! geometry that produces them, and the colours that follow from the
//! decisions taken here, are the caller's business.

pub mod scalar;
pub mod intersection;
pub mod refraction;
pub mod hierarchy;
pub mod shading;
pub mod primitives;
pub mod patterns;
pub mod refractive_indices;
pub mod material;
pub mod canvas;
pub mod world;
pub mod matrix;
