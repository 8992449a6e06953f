//! Convert `3ddose` dose-grid files to Gmsh `msh` (version 2) meshes or to a
//! flat per-voxel table.
//!
//! The library parses the six-line `3ddose` text format into a validated
//! [`DoseBlock`], and serializes that block either as an indexed
//! node/hexahedron mesh or as a comma-separated table of voxel centroids.
//! Coordinates are held as exact decimal scalars, so the centroid of a voxel
//! is the exact arithmetic mean of its two bounding coordinates.

use vstd::prelude::*;

pub use block::DoseBlock;
pub use parse::{DoseError, Field};
pub use scalar::Scalar;

pub mod block;
pub mod csv;
pub mod digits;
pub mod gmsh;
pub mod parse;
pub mod scalar;
pub mod split;

verus! {

/// Resolved command line parameters for the converter.
///
/// Argument parsing and output-name defaulting live outside the library; this
/// struct only carries the resolved values.
pub struct Cli {
    /// Path of the input `3ddose` file.
    pub input_file: String,
    /// Path of the output file, if one was given.
    pub output_file: Option<String>,
}

} // verus!
