//! Pixel Information Box implementation.

use vstd::prelude::*;
use crate::error::{bmff, eof, BmffError, Error, Result};
use crate::io::ReadStream;

verus! {

/// Pixel information box.
#[derive(Debug, Clone)]
pub struct PixelInformationBox {
    /// Bits per channel.
    pub bits_per_channel: Vec<u8>,
}

impl PixelInformationBox {
    /// Whether `d` parses as a pixel information box, and else the error.
    pub open spec fn outcome(d: Seq<u8>) -> Result<()> {
        if d.len() < 5 {
            Err(eof())
        } else if d[4] == 0 {
            Err(bmff(BmffError::InvalidChannelCount(d[4])))
        } else if d.len() < 5 + d[4] {
            Err(eof())
        } else {
            Ok(())
        }
    }

    /// The fields are those that `d` holds: after version and flags, a channel
    /// count and one bit depth per channel.
    pub open spec fn parsed_from(&self, d: Seq<u8>) -> bool {
        self.bits_per_channel@ == d.subrange(5, 5 + d[4])
    }

    /// Parse a pixel information box from a buffer.
    pub fn parse(data: &[u8]) -> (r: Result<Self>)
        ensures
            match Self::outcome(data@) {
                Ok(_) => r matches Ok(b) && b.parsed_from(data@),
                Err(e) => r == Err::<Self, Error>(e),
            },
    {
        let mut stream = ReadStream::new(data);
        stream.skip(4)?;
        let num_channels = stream.read_u8()?;
        if num_channels == 0 {
            return Err(Error::BmffParse(BmffError::InvalidChannelCount(num_channels)));
        }
        let mut bits_per_channel: Vec<u8> = Vec::new();
        let mut i: u8 = 0;
        while i < num_channels
            invariant
                stream.inv(),
                stream.bytes() == data@,
                num_channels == data@[4],
                i <= num_channels,
                stream.pos() == 5 + i,
                bits_per_channel@ == data@.subrange(5, 5 + i),
            decreases num_channels - i,
        {
            let b = stream.read_u8()?;
            bits_per_channel.push(b);
            i = i + 1;
            assert(bits_per_channel@ =~= data@.subrange(5, 5 + i));
        }
        Ok(Self { bits_per_channel })
    }

    /// Get the number of channels.
    pub fn num_channels(&self) -> (r: usize)
        ensures
            r == self.bits_per_channel@.len(),
    {
        self.bits_per_channel.len()
    }

    /// Check if this is a monochrome image: one channel.
    pub fn is_monochrome(&self) -> (r: bool)
        ensures
            r == (self.bits_per_channel@.len() == 1),
    {
        self.num_channels() == 1
    }

    /// Check if this is a color image with alpha: four channels.
    pub fn has_alpha(&self) -> (r: bool)
        ensures
            r == (self.bits_per_channel@.len() == 4),
    {
        self.num_channels() == 4
    }
}


/// After the version and flags a `pixi` box holds the channel count and then
/// one bit depth per channel: a box so written with at least one channel
/// parses, whatever follows, and gives back those bit depths in order; one
/// with no channel is refused.
pub proof fn lemma_pixi_read_back(header: Seq<u8>, bits: Seq<u8>, rest: Seq<u8>, b: PixelInformationBox)
    requires
        header.len() == 4,
        bits.len() <= u8::MAX,
    ensures
        bits.len() == 0 ==> PixelInformationBox::outcome(header + seq![0u8] + rest) == Err::<(), Error>(
            bmff(BmffError::InvalidChannelCount(0)),
        ),
        bits.len() > 0 ==> PixelInformationBox::outcome(header + seq![bits.len() as u8] + bits + rest) is Ok,
        b.parsed_from(header + seq![bits.len() as u8] + bits + rest) ==> b.bits_per_channel@ == bits,
{
    let d = header + seq![bits.len() as u8] + bits + rest;
    assert(d[4] == bits.len());
    assert(d.subrange(5, 5 + bits.len() as int) =~= bits);
    let z = header + seq![0u8] + rest;
    assert(z[4] == 0);
}

} // verus!
