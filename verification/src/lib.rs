//! Readers and writers for the content files of a classic first-person
//! shooter: the PAK archive that bundles a game's files into one container,
//! the LMP indexed image and the colour palette that goes with it.
//!
//! Every function works on bytes held in memory. Opening files, walking
//! directory trees and decoding other image formats are left to the caller.

pub mod error;
pub mod laws;
pub mod lmp;
pub mod model;
pub mod pak;
pub mod palette;
pub mod raster;
pub mod text;
pub mod wire;

pub use error::{IoErrorKind, QError, QResult};
pub use lmp::LmpImage;
pub use pak::{create_pak, PakFile};
pub use palette::{Color, Palette};
