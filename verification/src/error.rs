//! Error types shared by every part of the library.

use vstd::prelude::*;

verus! {

/// Why an I/O-style stream operation failed.
#[derive(Debug, Clone, Copy, PartialEq, Eq, Structural)]
pub enum IoErrorKind {
    /// The stream ended before the requested bytes or bits.
    UnexpectedEof,
    /// A requested position lies outside the stream.
    InvalidInput,
}

/// Why the bytes of a BMFF structure were rejected.
#[derive(Debug, Clone)]
pub enum BmffError {
    /// Fewer than eight bytes remain where a box header starts.
    NotEnoughDataForHeader,
    /// A 64-bit box size was announced but is not there.
    NotEnoughDataForExtendedSize,
    /// A `uuid` box lacks its sixteen-byte extended type.
    NotEnoughDataForUuid,
    /// A full box lacks its version and flags.
    NotEnoughDataForFullBox,
    /// The declared box size (first) is smaller than the size of the header
    /// that was read (second).
    BoxSmallerThanHeader(u64, usize),
    /// The declared box size runs past the end of the data.
    BoxBeyondEnd,
    /// A four-character code does not have exactly four bytes: it has this many.
    BoxTypeLength(usize),
    /// A box of another type (second) was found where a box of the type with
    /// these bytes (first) was expected.
    UnexpectedBoxType(Vec<u8>, [u8; 4]),
    /// A box of the type with these bytes was expected but the data has ended.
    NoMoreBoxes(Vec<u8>),
    /// Neither `avif` nor `avis` is among the brands of the file; its major
    /// brand is this one.
    NotAvif([u8; 4]),
    /// A box has another version (second) than the one that is enforced (first).
    VersionMismatch(u8, u8),
    /// The compatible-brand list of `ftyp`, of this many bytes, is not a whole
    /// number of brands.
    BrandsNotMultipleOfFour(usize),
    /// An item-info entry declares this size, below four bytes.
    EntrySizeTooSmall(u16),
    /// An item-info entry runs past the end of its box.
    EntryBeyondEnd,
    /// `iloc` has this version, above 2.
    UnsupportedIlocVersion(u8),
    /// An `iloc` field size is not 0, 4 or 8; the offset, length, base offset
    /// and index sizes are these.
    InvalidIlocFieldSize(u8, u8, u8, u8),
    /// An `iloc` construction method, this one, above 1.
    UnsupportedConstructionMethod(u8),
    /// The marker bit of `av1C` is not set: it is this value.
    InvalidAv1cMarker(u8),
    /// The version of `av1C` is not 1: it is this one.
    UnsupportedAv1cVersion(u8),
    /// A `colr` box of this type, other than `nclx`, `prof` or `rICC`.
    UnknownColorType([u8; 4]),
    /// A `pixi` box with this number of channels, zero.
    InvalidChannelCount(u8),
    /// A child box declares a size below eight bytes.
    InvalidBoxSize,
    /// A child box of this type occurs twice where only one is allowed.
    DuplicateBox([u8; 4]),
    /// A required child box of this type is absent.
    MissingBox([u8; 4]),
    /// A sample-description or data-reference entry declares too small a size.
    InvalidEntrySize,
    /// The length byte of a compressor name exceeds the 31 bytes that follow it.
    InvalidCompressorName,
}

/// Why a parameter handed to the library was refused.
#[derive(Debug, Clone, Copy, PartialEq, Eq, Structural)]
pub enum ParameterError {
    /// Width or height is zero.
    ZeroDimensions,
    /// Bit depth outside 1..=16.
    DepthOutOfRange,
    /// The decoder has no input.
    NoInputData,
    /// A position beyond the end of the data.
    PositionBeyondEnd,
    /// More bits were requested than the result type holds.
    TooManyBits,
}

/// Why decoding failed.
#[derive(Debug, Clone, Copy, PartialEq, Eq, Structural)]
pub enum DecodeError {
    /// Every image has already been returned.
    NoMoreImages,
}

/// Error type for libavif operations.
#[derive(Debug)]
pub enum Error {
    /// I/O error.
    Io(IoErrorKind),
    /// BMFF parsing error.
    BmffParse(BmffError),
    /// BMFF parsing error found by a box parser, with the parser's context: the
    /// path of box types that led to it.
    BmffParseIn(String, BmffError),
    /// Decoder error.
    Decode(DecodeError),
    /// Memory allocation error.
    OutOfMemory,
    /// Invalid parameter.
    InvalidParameter(ParameterError),
    /// Invalid parameter handed to a box parser, with the parser's context.
    InvalidParameterIn(String, ParameterError),
    /// Unsupported feature.
    Unsupported(String),
    /// Unknown error.
    Unknown(String),
}

/// Result type for libavif operations.
pub type Result<T> = core::result::Result<T, Error>;

/// The error every read past the end of a stream gives.
pub open spec fn eof() -> Error {
    Error::Io(IoErrorKind::UnexpectedEof)
}

/// An error as a specification describes it: a plain error, or an error of a
/// box parser together with the parser's context.
pub enum Failure {
    /// This error.
    Plain(Error),
    /// This error, reported by a parser with this context.
    In(Seq<char>, Error),
}

/// The error `x` reports the failure `f`: a BMFF or parameter error found by a
/// parser carries the parser's context; any other error is itself.
pub open spec fn reported(x: Error, f: Failure) -> bool {
    match f {
        Failure::Plain(e) => x == e,
        Failure::In(ctx, e) => match e {
            Error::BmffParse(k) => x matches Error::BmffParseIn(c, k2) && c@ == ctx && k2 == k,
            Error::InvalidParameter(k) => x matches Error::InvalidParameterIn(c, k2) && c@ == ctx && k2 == k,
            _ => x == e,
        },
    }
}

/// A BMFF parsing error, with or without a parser's context.
pub open spec fn is_bmff_error(x: Error) -> bool {
    x is BmffParse || x is BmffParseIn
}

/// A BMFF parse error of the given kind.
pub open spec fn bmff(e: BmffError) -> Error {
    Error::BmffParse(e)
}

/// Result codes of the C interface.
#[derive(Debug, Clone, Copy, PartialEq, Eq, Structural)]
pub enum AvifResult {
    /// Operation completed successfully.
    Success,
    /// Unknown error.
    Unknown,
    /// Invalid parameter.
    InvalidParameter,
    /// Out of memory.
    OutOfMemory,
    /// BMFF parsing failed.
    BmffParseFailed,
    /// Decoder failed.
    DecodeFailed,
    /// Encoder failed.
    EncodeFailed,
    /// I/O error.
    IoError,
    /// Unsupported feature.
    Unsupported,
}

/// The result code that stands for an error.
pub open spec fn result_code(error: Error) -> AvifResult {
    match error {
        Error::Io(_) => AvifResult::IoError,
        Error::BmffParse(_) => AvifResult::BmffParseFailed,
        Error::BmffParseIn(_, _) => AvifResult::BmffParseFailed,
        Error::Decode(_) => AvifResult::DecodeFailed,
        Error::OutOfMemory => AvifResult::OutOfMemory,
        Error::InvalidParameter(_) => AvifResult::InvalidParameter,
        Error::InvalidParameterIn(_, _) => AvifResult::InvalidParameter,
        Error::Unsupported(_) => AvifResult::Unsupported,
        Error::Unknown(_) => AvifResult::Unknown,
    }
}

impl From<Error> for AvifResult {
    fn from(error: Error) -> (r: Self) {
        match error {
            Error::Io(_) => AvifResult::IoError,
            Error::BmffParse(_) => AvifResult::BmffParseFailed,
            Error::BmffParseIn(_, _) => AvifResult::BmffParseFailed,
            Error::Decode(_) => AvifResult::DecodeFailed,
            Error::OutOfMemory => AvifResult::OutOfMemory,
            Error::InvalidParameter(_) => AvifResult::InvalidParameter,
            Error::InvalidParameterIn(_, _) => AvifResult::InvalidParameter,
            Error::Unsupported(_) => AvifResult::Unsupported,
            Error::Unknown(_) => AvifResult::Unknown,
        }
    }
}

impl vstd::std_specs::convert::FromSpecImpl<Error> for AvifResult {
    open spec fn obeys_from_spec() -> bool {
        true
    }

    open spec fn from_spec(error: Error) -> AvifResult {
        result_code(error)
    }
}

/// The result code of a library result: `Ok` for success, else the code of its error.
pub fn result_to_code<T>(r: Result<T>) -> (code: AvifResult)
    ensures
        code == (match r {
            Ok(_) => AvifResult::Success,
            Err(e) => result_code(e),
        }),
{
    match r {
        Ok(_) => AvifResult::Success,
        Err(e) => AvifResult::from(e),
    }
}

} // verus!
