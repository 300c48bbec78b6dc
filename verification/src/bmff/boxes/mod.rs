//! BMFF box type implementations.

pub mod av1c;
pub mod colr;
pub mod free;
pub mod ftyp;
pub mod hdlr;
pub mod idat;
pub mod iinf;
pub mod iloc;
pub mod ispe;
pub mod mdat;
pub mod mdia;
pub mod meta;
pub mod minf;
pub mod moov;
pub mod pitm;
pub mod pixi;
pub mod stbl;
pub mod trak;

pub use av1c::AV1ConfigurationBox;
pub use colr::ColourInformationBox;
pub use free::FreeSpaceBox;
pub use ftyp::FileTypeBox;
pub use hdlr::HandlerBox;
pub use idat::ItemDataBox;
pub use iinf::ItemInfoBox;
pub use iloc::ItemLocationBox;
pub use ispe::ImageSpatialExtentsBox;
pub use mdat::MediaDataBox;
pub use pitm::PrimaryItemBox;
pub use pixi::PixelInformationBox;
