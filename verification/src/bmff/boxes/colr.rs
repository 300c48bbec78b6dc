//! Colour Information Box implementation.

use vstd::prelude::*;
use vstd::slice::{slice_subrange, slice_to_vec};
use crate::bmff::fourcc::{same_code, NCLX, PROF, RICC};
use crate::error::{bmff, eof, BmffError, Error, Result};
use crate::io::{be16, ReadStream};

verus! {

/// Color primaries.
#[derive(Debug, Clone, Copy, PartialEq, Eq, Structural)]
pub enum ColorPrimaries {
    /// Unknown color primaries.
    Unknown,
    /// BT.709 color primaries.
    BT709,
    /// Unspecified color primaries.
    Unspecified,
    /// Reserved color primaries.
    Reserved,
    /// BT.470M color primaries.
    BT470M,
    /// BT.470BG color primaries.
    BT470BG,
    /// BT.601 color primaries.
    BT601,
    /// SMPTE 240 color primaries.
    SMPTE240,
    /// Generic film color primaries.
    GenericFilm,
    /// BT.2020 color primaries.
    BT2020,
    /// XYZ color primaries.
    XYZ,
    /// SMPTE RP 431-2 color primaries.
    SMPTE431,
    /// SMPTE EG 432-1 color primaries.
    SMPTE432,
    /// EBU Tech 3213-E color primaries.
    EBU3213,
}

/// The color primaries that a code stands for; unknown codes give `Unknown`.
pub open spec fn color_primaries_of(value: u16) -> ColorPrimaries {
    match value {
        1 => ColorPrimaries::BT709,
        2 => ColorPrimaries::Unspecified,
        3 => ColorPrimaries::Reserved,
        4 => ColorPrimaries::BT470M,
        5 => ColorPrimaries::BT470BG,
        6 => ColorPrimaries::BT601,
        7 => ColorPrimaries::SMPTE240,
        8 => ColorPrimaries::GenericFilm,
        9 => ColorPrimaries::BT2020,
        10 => ColorPrimaries::XYZ,
        11 => ColorPrimaries::SMPTE431,
        12 => ColorPrimaries::SMPTE432,
        22 => ColorPrimaries::EBU3213,
        _ => ColorPrimaries::Unknown,
    }
}

impl From<u16> for ColorPrimaries {
    fn from(value: u16) -> (r: Self) {
        match value {
            1 => ColorPrimaries::BT709,
            2 => ColorPrimaries::Unspecified,
            3 => ColorPrimaries::Reserved,
            4 => ColorPrimaries::BT470M,
            5 => ColorPrimaries::BT470BG,
            6 => ColorPrimaries::BT601,
            7 => ColorPrimaries::SMPTE240,
            8 => ColorPrimaries::GenericFilm,
            9 => ColorPrimaries::BT2020,
            10 => ColorPrimaries::XYZ,
            11 => ColorPrimaries::SMPTE431,
            12 => ColorPrimaries::SMPTE432,
            22 => ColorPrimaries::EBU3213,
            _ => ColorPrimaries::Unknown,
        }
    }
}

impl vstd::std_specs::convert::FromSpecImpl<u16> for ColorPrimaries {
    open spec fn obeys_from_spec() -> bool {
        true
    }

    open spec fn from_spec(value: u16) -> Self {
        color_primaries_of(value)
    }
}

/// Transfer characteristics.
#[derive(Debug, Clone, Copy, PartialEq, Eq, Structural)]
pub enum TransferCharacteristics {
    /// Unknown transfer characteristics.
    Unknown,
    /// BT.709 transfer characteristics.
    BT709,
    /// Unspecified transfer characteristics.
    Unspecified,
    /// Reserved transfer characteristics.
    Reserved,
    /// BT.470M transfer characteristics.
    BT470M,
    /// BT.470BG transfer characteristics.
    BT470BG,
    /// BT.601 transfer characteristics.
    BT601,
    /// SMPTE 240 transfer characteristics.
    SMPTE240,
    /// Linear transfer characteristics.
    Linear,
    /// Logarithmic (100:1 range) transfer characteristics.
    Log100,
    /// Logarithmic (100 * sqrt(10):1 range) transfer characteristics.
    Log100Sqrt10,
    /// IEC 61966-2-4 transfer characteristics.
    IEC61966,
    /// BT.1361 transfer characteristics.
    BT1361,
    /// sRGB transfer characteristics.
    SRGB,
    /// BT.2020 10-bit transfer characteristics.
    BT2020_10Bit,
    /// BT.2020 12-bit transfer characteristics.
    BT2020_12Bit,
    /// SMPTE ST 2084 (PQ) transfer characteristics.
    SMPTE2084,
    /// SMPTE ST 428-1 transfer characteristics.
    SMPTE428,
    /// HLG transfer characteristics.
    HLG,
}

/// The transfer characteristics that a code stands for; unknown codes give `Unknown`.
pub open spec fn transfer_characteristics_of(value: u16) -> TransferCharacteristics {
    match value {
        1 => TransferCharacteristics::BT709,
        2 => TransferCharacteristics::Unspecified,
        3 => TransferCharacteristics::Reserved,
        4 => TransferCharacteristics::BT470M,
        5 => TransferCharacteristics::BT470BG,
        6 => TransferCharacteristics::BT601,
        7 => TransferCharacteristics::SMPTE240,
        8 => TransferCharacteristics::Linear,
        9 => TransferCharacteristics::Log100,
        10 => TransferCharacteristics::Log100Sqrt10,
        11 => TransferCharacteristics::IEC61966,
        12 => TransferCharacteristics::BT1361,
        13 => TransferCharacteristics::SRGB,
        14 => TransferCharacteristics::BT2020_10Bit,
        15 => TransferCharacteristics::BT2020_12Bit,
        16 => TransferCharacteristics::SMPTE2084,
        17 => TransferCharacteristics::SMPTE428,
        18 => TransferCharacteristics::HLG,
        _ => TransferCharacteristics::Unknown,
    }
}

impl From<u16> for TransferCharacteristics {
    fn from(value: u16) -> (r: Self) {
        match value {
            1 => TransferCharacteristics::BT709,
            2 => TransferCharacteristics::Unspecified,
            3 => TransferCharacteristics::Reserved,
            4 => TransferCharacteristics::BT470M,
            5 => TransferCharacteristics::BT470BG,
            6 => TransferCharacteristics::BT601,
            7 => TransferCharacteristics::SMPTE240,
            8 => TransferCharacteristics::Linear,
            9 => TransferCharacteristics::Log100,
            10 => TransferCharacteristics::Log100Sqrt10,
            11 => TransferCharacteristics::IEC61966,
            12 => TransferCharacteristics::BT1361,
            13 => TransferCharacteristics::SRGB,
            14 => TransferCharacteristics::BT2020_10Bit,
            15 => TransferCharacteristics::BT2020_12Bit,
            16 => TransferCharacteristics::SMPTE2084,
            17 => TransferCharacteristics::SMPTE428,
            18 => TransferCharacteristics::HLG,
            _ => TransferCharacteristics::Unknown,
        }
    }
}

impl vstd::std_specs::convert::FromSpecImpl<u16> for TransferCharacteristics {
    open spec fn obeys_from_spec() -> bool {
        true
    }

    open spec fn from_spec(value: u16) -> Self {
        transfer_characteristics_of(value)
    }
}

/// Matrix coefficients.
#[derive(Debug, Clone, Copy, PartialEq, Eq, Structural)]
pub enum MatrixCoefficients {
    /// Identity matrix coefficients.
    Identity,
    /// BT.709 matrix coefficients.
    BT709,
    /// Unspecified matrix coefficients.
    Unspecified,
    /// Reserved matrix coefficients.
    Reserved,
    /// FCC matrix coefficients.
    FCC,
    /// BT.470BG matrix coefficients.
    BT470BG,
    /// BT.601 matrix coefficients.
    BT601,
    /// SMPTE 240 matrix coefficients.
    SMPTE240,
    /// YCgCo matrix coefficients.
    YCgCo,
    /// BT.2020 non-constant luminance matrix coefficients.
    BT2020NCL,
    /// BT.2020 constant luminance matrix coefficients.
    BT2020CL,
    /// SMPTE ST 2085 matrix coefficients.
    SMPTE2085,
    /// Chromaticity-derived non-constant luminance matrix coefficients.
    ChromatNCL,
    /// Chromaticity-derived constant luminance matrix coefficients.
    ChromatCL,
    /// ICtCp matrix coefficients.
    ICtCp,
}

/// The matrix coefficients that a code stands for; unknown codes give `Unspecified`.
pub open spec fn matrix_coefficients_of(value: u16) -> MatrixCoefficients {
    match value {
        0 => MatrixCoefficients::Identity,
        1 => MatrixCoefficients::BT709,
        2 => MatrixCoefficients::Unspecified,
        3 => MatrixCoefficients::Reserved,
        4 => MatrixCoefficients::FCC,
        5 => MatrixCoefficients::BT470BG,
        6 => MatrixCoefficients::BT601,
        7 => MatrixCoefficients::SMPTE240,
        8 => MatrixCoefficients::YCgCo,
        9 => MatrixCoefficients::BT2020NCL,
        10 => MatrixCoefficients::BT2020CL,
        11 => MatrixCoefficients::SMPTE2085,
        12 => MatrixCoefficients::ChromatNCL,
        13 => MatrixCoefficients::ChromatCL,
        14 => MatrixCoefficients::ICtCp,
        _ => MatrixCoefficients::Unspecified,
    }
}

impl From<u16> for MatrixCoefficients {
    fn from(value: u16) -> (r: Self) {
        match value {
            0 => MatrixCoefficients::Identity,
            1 => MatrixCoefficients::BT709,
            2 => MatrixCoefficients::Unspecified,
            3 => MatrixCoefficients::Reserved,
            4 => MatrixCoefficients::FCC,
            5 => MatrixCoefficients::BT470BG,
            6 => MatrixCoefficients::BT601,
            7 => MatrixCoefficients::SMPTE240,
            8 => MatrixCoefficients::YCgCo,
            9 => MatrixCoefficients::BT2020NCL,
            10 => MatrixCoefficients::BT2020CL,
            11 => MatrixCoefficients::SMPTE2085,
            12 => MatrixCoefficients::ChromatNCL,
            13 => MatrixCoefficients::ChromatCL,
            14 => MatrixCoefficients::ICtCp,
            _ => MatrixCoefficients::Unspecified,
        }
    }
}

impl vstd::std_specs::convert::FromSpecImpl<u16> for MatrixCoefficients {
    open spec fn obeys_from_spec() -> bool {
        true
    }

    open spec fn from_spec(value: u16) -> Self {
        matrix_coefficients_of(value)
    }
}

/// Color range.
#[derive(Debug, Clone, Copy, PartialEq, Eq, Structural)]
pub enum ColorRange {
    /// Limited range (16-235 for 8-bit).
    Limited,
    /// Full range (0-255 for 8-bit).
    Full,
}

/// The color range that a code stands for: 0 is limited, anything else full.
pub open spec fn color_range_of(value: u16) -> ColorRange {
    match value {
        0 => ColorRange::Limited,
        1 => ColorRange::Full,
        _ => ColorRange::Full,
    }
}

impl From<u16> for ColorRange {
    fn from(value: u16) -> (r: Self) {
        match value {
            0 => ColorRange::Limited,
            1 => ColorRange::Full,
            _ => ColorRange::Full,
        }
    }
}

impl vstd::std_specs::convert::FromSpecImpl<u16> for ColorRange {
    open spec fn obeys_from_spec() -> bool {
        true
    }

    open spec fn from_spec(value: u16) -> Self {
        color_range_of(value)
    }
}

/// NCLX color information.
#[derive(Debug, Clone)]
pub struct NclxColorInformation {
    /// Color primaries.
    pub color_primaries: ColorPrimaries,
    /// Transfer characteristics.
    pub transfer_characteristics: TransferCharacteristics,
    /// Matrix coefficients.
    pub matrix_coefficients: MatrixCoefficients,
    /// Full range flag.
    pub full_range: bool,
}

/// Colour information box.
#[derive(Debug, Clone)]
pub struct ColourInformationBox {
    /// Color type.
    pub color_type: [u8; 4],
    /// ICC profile (if color_type is 'prof' or 'rICC').
    pub icc_profile: Option<Vec<u8>>,
    /// NCLX color information (if color_type is 'nclx').
    pub nclx: Option<NclxColorInformation>,
}

impl ColourInformationBox {
    /// Whether `d` parses as a colour information box, and else the error.
    pub open spec fn outcome(d: Seq<u8>) -> Result<()> {
        if d.len() < 4 {
            Err(eof())
        } else if d.subrange(0, 4) == NCLX@ {
            if d.len() < 11 { Err(eof()) } else { Ok(()) }
        } else if d.subrange(0, 4) == PROF@ || d.subrange(0, 4) == RICC@ {
            Ok(())
        } else {
            Err(bmff(BmffError::UnknownColorType([d[0], d[1], d[2], d[3]])))
        }
    }

    /// The fields are those that `d` holds: the color type, then for `nclx` three
    /// 16-bit codes and a byte whose top bit is the full-range flag, for `prof`
    /// and `rICC` the rest of the data as ICC profile.
    pub open spec fn parsed_from(&self, d: Seq<u8>) -> bool {
        &&& self.color_type@ == d.subrange(0, 4)
        &&& if d.subrange(0, 4) == NCLX@ {
            &&& self.icc_profile is None
            &&& self.nclx matches Some(n) && {
                &&& n.color_primaries == color_primaries_of(be16(d, 4) as u16)
                &&& n.transfer_characteristics == transfer_characteristics_of(be16(d, 6) as u16)
                &&& n.matrix_coefficients == matrix_coefficients_of(be16(d, 8) as u16)
                &&& n.full_range == (d[10] >= 128)
            }
        } else {
            &&& self.nclx is None
            &&& self.icc_profile matches Some(p) && p@ == d.subrange(4, d.len() as int)
        }
    }

    /// Parse a colour information box from a buffer.
    pub fn parse(data: &[u8]) -> (r: Result<Self>)
        ensures
            match Self::outcome(data@) {
                Ok(_) => r matches Ok(b) && b.parsed_from(data@),
                Err(e) => r == Err::<Self, Error>(e),
            },
    {
        let mut stream = ReadStream::new(data);
        let color_type = stream.read_code()?;
        if same_code(&color_type, &NCLX) {
            let color_primaries = stream.read_u16()?;
            let transfer_characteristics = stream.read_u16()?;
            let matrix_coefficients = stream.read_u16()?;
            let full_range_flag = stream.read_u8()?;
            let nclx = NclxColorInformation {
                color_primaries: ColorPrimaries::from(color_primaries),
                transfer_characteristics: TransferCharacteristics::from(transfer_characteristics),
                matrix_coefficients: MatrixCoefficients::from(matrix_coefficients),
                full_range: full_range_flag >= 128,
            };
            Ok(Self { color_type, icc_profile: None, nclx: Some(nclx) })
        } else if same_code(&color_type, &PROF) || same_code(&color_type, &RICC) {
            let icc_data = slice_to_vec(stream.remaining());
            Ok(Self { color_type, icc_profile: Some(icc_data), nclx: None })
        } else {
            Err(Error::BmffParse(BmffError::UnknownColorType([data[0], data[1], data[2], data[3]])))
        }
    }

    /// Check if this is an ICC profile (`prof` or `rICC`).
    pub fn is_icc(&self) -> (r: bool)
        ensures
            r == (self.color_type@ == PROF@ || self.color_type@ == RICC@),
    {
        same_code(&self.color_type, &PROF) || same_code(&self.color_type, &RICC)
    }

    /// Check if this is an NCLX profile.
    pub fn is_nclx(&self) -> (r: bool)
        ensures
            r == (self.color_type@ == NCLX@),
    {
        same_code(&self.color_type, &NCLX)
    }
}


// ---------------------------------------------------------------------------
// The codes of ISO/IEC 23091-2 (coding-independent code points).

impl ColorPrimaries {
    /// The code that ISO/IEC 23091-2 gives these primaries; `Unknown` has none and counts as 0.
    pub open spec fn code(self) -> int {
        match self {
            ColorPrimaries::Unknown => 0,
            ColorPrimaries::BT709 => 1,
            ColorPrimaries::Unspecified => 2,
            ColorPrimaries::Reserved => 3,
            ColorPrimaries::BT470M => 4,
            ColorPrimaries::BT470BG => 5,
            ColorPrimaries::BT601 => 6,
            ColorPrimaries::SMPTE240 => 7,
            ColorPrimaries::GenericFilm => 8,
            ColorPrimaries::BT2020 => 9,
            ColorPrimaries::XYZ => 10,
            ColorPrimaries::SMPTE431 => 11,
            ColorPrimaries::SMPTE432 => 12,
            ColorPrimaries::EBU3213 => 22,
        }
    }
}

impl TransferCharacteristics {
    /// The code that ISO/IEC 23091-2 gives these characteristics; `Unknown` has none and counts as 0.
    pub open spec fn code(self) -> int {
        match self {
            TransferCharacteristics::Unknown => 0,
            TransferCharacteristics::BT709 => 1,
            TransferCharacteristics::Unspecified => 2,
            TransferCharacteristics::Reserved => 3,
            TransferCharacteristics::BT470M => 4,
            TransferCharacteristics::BT470BG => 5,
            TransferCharacteristics::BT601 => 6,
            TransferCharacteristics::SMPTE240 => 7,
            TransferCharacteristics::Linear => 8,
            TransferCharacteristics::Log100 => 9,
            TransferCharacteristics::Log100Sqrt10 => 10,
            TransferCharacteristics::IEC61966 => 11,
            TransferCharacteristics::BT1361 => 12,
            TransferCharacteristics::SRGB => 13,
            TransferCharacteristics::BT2020_10Bit => 14,
            TransferCharacteristics::BT2020_12Bit => 15,
            TransferCharacteristics::SMPTE2084 => 16,
            TransferCharacteristics::SMPTE428 => 17,
            TransferCharacteristics::HLG => 18,
        }
    }
}

impl MatrixCoefficients {
    /// The code that ISO/IEC 23091-2 gives these coefficients.
    pub open spec fn code(self) -> int {
        match self {
            MatrixCoefficients::Identity => 0,
            MatrixCoefficients::BT709 => 1,
            MatrixCoefficients::Unspecified => 2,
            MatrixCoefficients::Reserved => 3,
            MatrixCoefficients::FCC => 4,
            MatrixCoefficients::BT470BG => 5,
            MatrixCoefficients::BT601 => 6,
            MatrixCoefficients::SMPTE240 => 7,
            MatrixCoefficients::YCgCo => 8,
            MatrixCoefficients::BT2020NCL => 9,
            MatrixCoefficients::BT2020CL => 10,
            MatrixCoefficients::SMPTE2085 => 11,
            MatrixCoefficients::ChromatNCL => 12,
            MatrixCoefficients::ChromatCL => 13,
            MatrixCoefficients::ICtCp => 14,
        }
    }
}

impl ColorRange {
    /// The value of the full-range flag: 0 for limited, 1 for full.
    pub open spec fn code(self) -> int {
        match self {
            ColorRange::Limited => 0,
            ColorRange::Full => 1,
        }
    }
}

/// Each known colour-primaries code (1 to 12, and 22) gives the primaries that
/// carry that code, and every other code gives `Unknown`; no two primaries share a code.
pub proof fn lemma_color_primaries_codes(v: u16, a: ColorPrimaries, b: ColorPrimaries)
    ensures
        color_primaries_of(v).code() == if 1 <= v <= 12 || v == 22 { v as int } else { 0 },
        a.code() == b.code() ==> a == b,
{
}

/// Each known transfer code (1 to 18) gives the characteristics that carry that
/// code, and every other code gives `Unknown`; no two characteristics share a code.
pub proof fn lemma_transfer_characteristics_codes(v: u16, a: TransferCharacteristics, b: TransferCharacteristics)
    ensures
        transfer_characteristics_of(v).code() == if 1 <= v <= 18 { v as int } else { 0 },
        a.code() == b.code() ==> a == b,
{
}

/// Each known matrix code (0 to 14) gives the coefficients that carry that code,
/// and every other code gives `Unspecified`; no two coefficients share a code.
pub proof fn lemma_matrix_coefficients_codes(v: u16, a: MatrixCoefficients, b: MatrixCoefficients)
    ensures
        matrix_coefficients_of(v).code() == if v <= 14 { v as int } else { MatrixCoefficients::Unspecified.code() },
        a.code() == b.code() ==> a == b,
{
}

/// The range code 0 gives limited range and every other code full range.
pub proof fn lemma_color_range_codes(v: u16)
    ensures
        color_range_of(v).code() == if v == 0 { 0int } else { 1int },
{
}

/// An `nclx` box gives the primaries, transfer characteristics and matrix
/// coefficients whose codes stand big-endian at bytes 4, 6 and 8, each known code
/// giving back itself, and full range exactly when the top bit of byte 10 is set.
pub proof fn lemma_nclx_codes(d: Seq<u8>, b: ColourInformationBox)
    requires
        d.len() >= 11,
        d.subrange(0, 4) == NCLX@,
        b.parsed_from(d),
    ensures
        b.nclx matches Some(n) && {
            let p = d[4] * 256 + d[5];
            let t = d[6] * 256 + d[7];
            let m = d[8] * 256 + d[9];
            &&& n.color_primaries.code() == if 1 <= p <= 12 || p == 22 { p } else { 0 }
            &&& n.transfer_characteristics.code() == if 1 <= t <= 18 { t } else { 0 }
            &&& n.matrix_coefficients.code() == if m <= 14 { m } else { 2 }
            &&& n.full_range == (d[10] & 0x80u8 != 0)
        },
{
    lemma_color_primaries_codes(be16(d, 4) as u16, ColorPrimaries::Unknown, ColorPrimaries::Unknown);
    lemma_transfer_characteristics_codes(be16(d, 6) as u16, TransferCharacteristics::Unknown, TransferCharacteristics::Unknown);
    lemma_matrix_coefficients_codes(be16(d, 8) as u16, MatrixCoefficients::Identity, MatrixCoefficients::Identity);
    let x = d[10];
    assert((x >= 128) == (x & 0x80u8 != 0)) by (bit_vector);
}

} // verus!
