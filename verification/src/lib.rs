//! A Monte Carlo path tracer over fixed-point arithmetic.
//!
//! Scenes are lists of implicit primitives (spheres and one-sided planes)
//! with a simple roughness-driven material model. Rendering casts one ray
//! per pixel sample, walks it through the scene with next-event light
//! sampling at each bounce, and tone-maps the accumulated radiance into
//! 8-bit channels. All geometry and radiometry is carried in signed
//! fixed-point numbers (see [`fixed`]), so every stage of the pipeline has
//! an exact arithmetic meaning.

pub mod fixed;
pub mod vec3;
pub mod intersections;
pub mod entropy;
pub mod object;
pub mod renderer;
