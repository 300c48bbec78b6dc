//! # libavif Rust Implementation
//!
//! A memory-safe implementation of security-critical components of libavif:
//! the BMFF parser, decoder core, memory management, and stream handling.

pub mod error;
pub mod text;
pub mod io;
pub mod memory;
pub mod avif_image;
pub mod decoder;
pub mod bmff;

pub use bmff::{AvifMetadata, Box, BoxHeader, BoxType, Parser as BmffParser, parse_avif};
pub use bmff::{ColorPrimaries, ColorRange, MatrixCoefficients, TransferCharacteristics};
pub use error::{AvifResult, Error, Result};
pub use io::{BoxMarker, ReadStream, WriteStream};
pub use memory::{Buffer, RwData};
