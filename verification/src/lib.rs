//! Integer core of a hybrid-image compositor: saturating channel arithmetic,
//! an owned raster type, and the per-pixel blends that merge filtered images.

pub mod arith;
pub mod compose;
pub mod convert;
pub mod error;
pub mod geometry;
pub mod pixel;
pub mod raster;
