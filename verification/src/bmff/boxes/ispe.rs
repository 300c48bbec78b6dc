//! Image Spatial Extents Box implementation.

use vstd::prelude::*;
use crate::error::{eof, Error, Result};
use crate::io::{be32, lemma_u32_at, u32_bytes, ReadStream};

verus! {

/// Image spatial extents box.
#[derive(Debug, Clone)]
pub struct ImageSpatialExtentsBox {
    /// Image width.
    pub width: u32,
    /// Image height.
    pub height: u32,
}

impl ImageSpatialExtentsBox {
    /// Whether `d` parses as an image spatial extents box, and else the error.
    pub open spec fn outcome(d: Seq<u8>) -> Result<()> {
        if d.len() < 12 { Err(eof()) } else { Ok(()) }
    }

    /// The fields are those that `d` holds: after version and flags, the
    /// 32-bit width and height.
    pub open spec fn parsed_from(&self, d: Seq<u8>) -> bool {
        &&& self.width == be32(d, 4)
        &&& self.height == be32(d, 8)
    }

    /// Parse an image spatial extents box from a buffer.
    pub fn parse(data: &[u8]) -> (r: Result<Self>)
        ensures
            match Self::outcome(data@) {
                Ok(_) => r matches Ok(b) && b.parsed_from(data@),
                Err(e) => r == Err::<Self, Error>(e),
            },
    {
        let mut stream = ReadStream::new(data);
        stream.skip(4)?;
        let width = stream.read_u32()?;
        let height = stream.read_u32()?;
        Ok(Self { width, height })
    }
}


/// The width stands before the height, each as four big-endian bytes after
/// the version and flags: an `ispe` box so written parses, whatever follows,
/// and gives back that width and that height.
pub proof fn lemma_ispe_read_back(header: Seq<u8>, width: u32, height: u32, rest: Seq<u8>, b: ImageSpatialExtentsBox)
    requires
        header.len() == 4,
    ensures
        ImageSpatialExtentsBox::outcome(header + u32_bytes(width as int) + u32_bytes(height as int) + rest) is Ok,
        b.parsed_from(header + u32_bytes(width as int) + u32_bytes(height as int) + rest) ==> {
            &&& b.width == width
            &&& b.height == height
        },
{
    let d = header + u32_bytes(width as int) + u32_bytes(height as int) + rest;
    assert(d.subrange(4, 8) =~= u32_bytes(width as int));
    assert(d.subrange(8, 12) =~= u32_bytes(height as int));
    lemma_u32_at(d, 4, width);
    lemma_u32_at(d, 8, height);
}

} // verus!
