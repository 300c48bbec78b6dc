//! BMFF parser: the ISO Base Media File Format boxes that make up AVIF files,
//! with proper error handling for malformed inputs.

pub mod children;
pub mod fourcc;
pub mod parser;
pub mod boxes;

pub use parser::{AvifMetadata, Box, BoxHeader, BoxType, Parser, parse_avif};

pub use boxes::av1c::AV1ConfigurationBox;
pub use boxes::colr::ColourInformationBox;
pub use boxes::ftyp::FileTypeBox;
pub use boxes::hdlr::HandlerBox;
pub use boxes::iinf::ItemInfoBox;
pub use boxes::iloc::ItemLocationBox;
pub use boxes::ispe::ImageSpatialExtentsBox;
pub use boxes::mdia::MediaBox;
pub use boxes::meta::MetaBox;
pub use boxes::minf::MediaInformationBox;
pub use boxes::moov::MovieBox;
pub use boxes::pitm::PrimaryItemBox;
pub use boxes::pixi::PixelInformationBox;
pub use boxes::stbl::SampleTableBox;
pub use boxes::trak::TrackBox;

pub use boxes::colr::{ColorPrimaries, ColorRange, MatrixCoefficients, TransferCharacteristics};
