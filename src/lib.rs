//! Boundary-layer peeling of binary rasters.
//!
//! A binary raster is peeled one outer layer at a time: every interior
//! foreground cell that touches a background cell (8-connectivity) is labeled
//! with the number of the pass that removes it, and then erased.

pub mod raster;
pub mod peel;
pub mod laws;
