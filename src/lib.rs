//! Raster remapping: patches of source images are resized, optionally warped
//! through a piecewise-bilinear lattice and masked, then composited onto a canvas.
use vstd::prelude::*;

pub mod fixed;
pub mod imaging;
pub mod lattice;
pub mod range;
pub mod raster;
pub mod remapper;

pub use fixed::UNIT;
pub use lattice::{Lattice, LatticeError, Point};
pub use range::{Range, Scaled};
pub use raster::Image;
pub use remapper::{RemapCommand, RemapQueue, Remapper, RemapperError};

verus! {

} // verus!
