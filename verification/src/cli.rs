//! Run configuration: the output encoding format and the parsed command line.

use vstd::prelude::*;

verus! {

/// Output encoding, selected once per run and applied uniformly to every
/// pixel by the raster packer.
///
/// `Rgbm` keeps the per-pixel multiplier in the alpha byte; `Rgba` discards
/// it and writes a plain opaque low-dynamic-range approximation.
#[derive(Clone, Copy, PartialEq, Eq, Structural, Debug)]
pub enum Format {
    Rgba,
    Rgbm,
}

/// Command-line configuration: input path, optional output path, and the
/// output encoding format.
pub struct Cli {
    /// Path to the input HDR file.
    pub input: String,
    /// Path to the output PNG file, if given.
    pub output: Option<String>,
    /// The encoding format to use for the output raster.
    pub format: Format,
}

} // verus!
