//! A radiative view-factor engine for scenes of planar polygons.
//!
//! Given a catalog of vertices and 3- or 4-sided surfaces plus solver
//! options, the engine produces the dense matrix of view factors
//! `F(i,j)` — the fraction of diffusely emitted energy leaving surface
//! `i` that directly strikes surface `j` — corrected for obstruction
//! and, for closed enclosures, normalized so that each row of the
//! matrix carries unit energy.
//!
//! All geometry and all matrix entries are held in signed 64-bit
//! fixed-point form with 32 fractional bits, so that every arithmetic
//! step has an exact integer meaning that the contracts can state.

pub mod catalog;
pub mod engine;
pub mod fx;
pub mod geom;
pub mod laws;
pub mod quadrature;
pub mod subdivide;
pub mod vec3;
pub mod visibility;

pub use catalog::InData;
pub use catalog::InOptions;
pub use catalog::Surf;
pub use catalog::VFWarning;
pub use catalog::ViewError;
pub use engine::VFResults;
pub use engine::process_v3d;
pub use vec3::Vec3;
