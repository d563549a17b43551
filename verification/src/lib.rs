//! Procedural noise generation: seedable gradient (Perlin-style) and
//! cellular (Worley-style) noise sources, a composable transformation
//! layer, and a volumetric scalar-field sampler.
//!
//! All values are carried in signed 64-bit fixed-point arithmetic with
//! [`fixed::UNIT`] standing for 1.0, so that every computation is exact
//! and verified.

pub mod fixed;
pub mod noise;
pub mod seeded;
pub mod gradient;
pub mod layers;
pub mod sampling;
pub mod perlin;
pub mod perlin_2d;
pub mod perlin_3d;
pub mod cellular;
pub mod functions;
pub mod mapped;
pub mod mapper;
pub mod scalar_field;
