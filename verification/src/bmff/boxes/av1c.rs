//! AV1 Configuration Box implementation.

use vstd::prelude::*;
use vstd::slice::slice_to_vec;
use crate::error::{bmff, eof, BmffError, Error, Result};
use crate::io::ReadStream;

verus! {

/// AV1 configuration box.
#[derive(Debug, Clone)]
pub struct AV1ConfigurationBox {
    /// Marker (must be 1).
    pub marker: u8,
    /// Version (must be 1).
    pub version: u8,
    /// Profile.
    pub profile: u8,
    /// Level.
    pub level: u8,
    /// Tier.
    pub tier: u8,
    /// High bit depth flag.
    pub high_bitdepth: bool,
    /// Twelve bit flag.
    pub twelve_bit: bool,
    /// Monochrome flag.
    pub monochrome: bool,
    /// Chroma subsampling X.
    pub chroma_subsampling_x: u8,
    /// Chroma subsampling Y.
    pub chroma_subsampling_y: u8,
    /// Chroma sample position.
    pub chroma_sample_position: u8,
    /// Initial presentation delay present flag.
    pub initial_presentation_delay_present: bool,
    /// Initial presentation delay minus one.
    pub initial_presentation_delay_minus_one: Option<u8>,
    /// Configuration OBUs.
    pub config_obus: Vec<u8>,
}

impl AV1ConfigurationBox {
    /// Whether `d` parses as an AV1 configuration box, and else the error.
    pub open spec fn outcome(d: Seq<u8>) -> Result<()> {
        if d.len() < 1 {
            Err(eof())
        } else if d[0] / 128 != 1 {
            Err(bmff(BmffError::InvalidAv1cMarker(d[0] / 128)))
        } else if d[0] % 128 != 1 {
            Err(bmff(BmffError::UnsupportedAv1cVersion(d[0] % 128)))
        } else if d.len() < 4 {
            Err(eof())
        } else {
            Ok(())
        }
    }

    /// The fields are those that `d` holds: marker and version, profile and
    /// level, the flag byte, the delay byte, then the configuration OBUs.
    pub open spec fn parsed_from(&self, d: Seq<u8>) -> bool {
        &&& self.marker == d[0] / 128
        &&& self.version == d[0] % 128
        &&& self.profile == d[1] / 32
        &&& self.level == d[1] % 32
        &&& self.tier == d[2] / 128
        &&& self.high_bitdepth == ((d[2] / 64) % 2 == 1)
        &&& self.twelve_bit == ((d[2] / 32) % 2 == 1)
        &&& self.monochrome == ((d[2] / 16) % 2 == 1)
        &&& self.chroma_subsampling_x == (d[2] / 8) % 2
        &&& self.chroma_subsampling_y == (d[2] / 4) % 2
        &&& self.chroma_sample_position == d[2] % 4
        &&& self.initial_presentation_delay_present == ((d[3] / 16) % 2 == 1)
        &&& self.initial_presentation_delay_minus_one == if (d[3] / 16) % 2 == 1 {
            Some((d[3] % 16) as u8)
        } else {
            None
        }
        &&& self.config_obus@ == d.subrange(4, d.len() as int)
    }

    /// Parse an AV1 configuration box from a buffer.
    pub fn parse(data: &[u8]) -> (r: Result<Self>)
        ensures
            match Self::outcome(data@) {
                Ok(_) => r matches Ok(b) && b.parsed_from(data@),
                Err(e) => r == Err::<Self, Error>(e),
            },
    {
        let mut stream = ReadStream::new(data);
        let marker_and_version = stream.read_u8()?;
        let marker = marker_and_version / 128;
        let version = marker_and_version % 128;
        if marker != 1 {
            return Err(Error::BmffParse(BmffError::InvalidAv1cMarker(marker)));
        }
        if version != 1 {
            return Err(Error::BmffParse(BmffError::UnsupportedAv1cVersion(version)));
        }
        let profile_and_level = stream.read_u8()?;
        let profile = profile_and_level / 32;
        let level = profile_and_level % 32;
        let flags = stream.read_u8()?;
        let tier = flags / 128;
        let high_bitdepth = (flags / 64) % 2 == 1;
        let twelve_bit = (flags / 32) % 2 == 1;
        let monochrome = (flags / 16) % 2 == 1;
        let chroma_subsampling_x = (flags / 8) % 2;
        let chroma_subsampling_y = (flags / 4) % 2;
        let chroma_sample_position = flags % 4;
        let delay = stream.read_u8()?;
        let initial_presentation_delay_present = (delay / 16) % 2 == 1;
        let initial_presentation_delay_minus_one = if initial_presentation_delay_present {
            Some(delay % 16)
        } else {
            None
        };
        let config_obus = slice_to_vec(stream.remaining());
        Ok(Self {
            marker,
            version,
            profile,
            level,
            tier,
            high_bitdepth,
            twelve_bit,
            monochrome,
            chroma_subsampling_x,
            chroma_subsampling_y,
            chroma_sample_position,
            initial_presentation_delay_present,
            initial_presentation_delay_minus_one,
            config_obus,
        })
    }

    /// Get the bit depth: 8, or with the high-bit-depth flag 10, or with the
    /// twelve-bit flag too 12.
    pub fn bit_depth(&self) -> (r: u8)
        ensures
            r == if self.high_bitdepth {
                if self.twelve_bit { 12u8 } else { 10u8 }
            } else {
                8u8
            },
    {
        if self.high_bitdepth {
            if self.twelve_bit {
                12
            } else {
                10
            }
        } else {
            8
        }
    }
}


/// The fields of an AV1 configuration box are the bit fields of its first four
/// bytes: the marker is the top bit of the first byte and the version its low
/// seven bits; the profile is the top three bits of the second byte and the
/// level its low five; in the third byte the tier is bit 7, the high-bit-depth
/// flag bit 6, the twelve-bit flag bit 5, the monochrome flag bit 4, the chroma
/// subsampling bits 3 and 2 and the sample position bits 1 and 0; in the fourth
/// byte bit 4 says whether the low four bits hold the presentation delay.
pub proof fn lemma_av1c_bit_fields(d: Seq<u8>, b: AV1ConfigurationBox)
    requires
        d.len() >= 4,
        b.parsed_from(d),
    ensures
        b.marker == d[0] >> 7u8,
        b.version == d[0] & 0x7fu8,
        b.profile == d[1] >> 5u8,
        b.level == d[1] & 0x1fu8,
        b.tier == d[2] >> 7u8,
        b.high_bitdepth == (d[2] & 0x40u8 != 0),
        b.twelve_bit == (d[2] & 0x20u8 != 0),
        b.monochrome == (d[2] & 0x10u8 != 0),
        b.chroma_subsampling_x == (d[2] >> 3u8) & 1u8,
        b.chroma_subsampling_y == (d[2] >> 2u8) & 1u8,
        b.chroma_sample_position == d[2] & 3u8,
        b.initial_presentation_delay_present == (d[3] & 0x10u8 != 0),
        b.initial_presentation_delay_minus_one == if d[3] & 0x10u8 != 0 {
            Some(d[3] & 0x0fu8)
        } else {
            None
        },
{
    let x0 = d[0];
    let x1 = d[1];
    let x2 = d[2];
    let x3 = d[3];
    assert(x0 / 128 == x0 >> 7u8 && x0 % 128 == x0 & 0x7fu8) by (bit_vector);
    assert(x1 / 32 == x1 >> 5u8 && x1 % 32 == x1 & 0x1fu8) by (bit_vector);
    assert(x2 / 128 == x2 >> 7u8) by (bit_vector);
    assert(((x2 / 64) % 2 == 1) == (x2 & 0x40u8 != 0)) by (bit_vector);
    assert(((x2 / 32) % 2 == 1) == (x2 & 0x20u8 != 0)) by (bit_vector);
    assert(((x2 / 16) % 2 == 1) == (x2 & 0x10u8 != 0)) by (bit_vector);
    assert((x2 / 8) % 2 == (x2 >> 3u8) & 1u8) by (bit_vector);
    assert((x2 / 4) % 2 == (x2 >> 2u8) & 1u8) by (bit_vector);
    assert(x2 % 4 == x2 & 3u8) by (bit_vector);
    assert(((x3 / 16) % 2 == 1) == (x3 & 0x10u8 != 0)) by (bit_vector);
    assert(x3 % 16 == x3 & 0x0fu8) by (bit_vector);
}

/// The bit depth that an AV1 configuration box gives is read from its third
/// byte: 8 without bit 6, 10 with bit 6 alone, 12 with bits 6 and 5.
pub proof fn lemma_av1c_depth_bits(d: Seq<u8>, b: AV1ConfigurationBox)
    requires
        d.len() >= 4,
        b.parsed_from(d),
    ensures
        b.high_bitdepth && b.twelve_bit <==> d[2] & 0x60u8 == 0x60u8,
        b.high_bitdepth && !b.twelve_bit <==> d[2] & 0x60u8 == 0x40u8,
        !b.high_bitdepth <==> d[2] & 0x40u8 == 0,
{
    lemma_av1c_bit_fields(d, b);
    let x2 = d[2];
    assert((x2 & 0x60u8 == 0x60u8) == (x2 & 0x40u8 != 0 && x2 & 0x20u8 != 0)) by (bit_vector);
    assert((x2 & 0x60u8 == 0x40u8) == (x2 & 0x40u8 != 0 && x2 & 0x20u8 == 0)) by (bit_vector);
}

} // verus!
