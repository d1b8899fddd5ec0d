//! Conversion of Gaussian-splat scenes between interchange formats.
//!
//! Every scalar of a scene is held as the bit pattern of an IEEE-754
//! single-precision number, so that the byte layout of each format can be
//! stated and proved over integers.
//!
//! - [`scene`]: the scene, its splats, and the two capabilities of a codec.
//! - [`formats`]: the codecs of the four formats, and the tags that select
//!   them.
//! - [`encoding`]: little-endian words and decimal numerals.
//! - [`single`]: what can be read off the bits of a single-precision number.
//! - [`paths`]: the checks on file names.
//! - [`error`]: the errors of every codec.

pub mod encoding;
pub mod error;
pub mod formats;
pub mod paths;
pub mod scene;
pub mod single;

pub use error::ConversionError;
pub use scene::{Exporter, GaussianSplat, Importer, Scene, SplatText};
