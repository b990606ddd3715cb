//! Image inpainting by the fast-marching method.
//!
//! The library reconstructs a masked region of a raster image by
//! propagating known surrounding pixels inward: pixels are classified
//! Known / Band / Inside, a distance field to the mask boundary is
//! computed by a first-order Eikonal solver, a priority queue drives the
//! visitation order, and each reached pixel is filled by a weighted
//! average of nearby known pixels.
//!
//! All numeric work is done on IEEE binary32 values carried as `u32`
//! bit patterns, so the propagation, the ordering discipline and the
//! write-back are verified exactly; the four inexact arithmetic
//! operations are delegated to a software IEEE implementation.

pub mod error;
pub mod fbits;
pub mod sqrt;
pub mod grid;
pub mod queue;
pub mod eikonal;
pub mod paint;
pub mod telea;
pub mod laws;
