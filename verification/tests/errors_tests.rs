//! One input for each error the library reports.

use rust_avif::avif_image::{AvifImage, PixelFormat};
use rust_avif::bmff::boxes::av1c::AV1ConfigurationBox;
use rust_avif::bmff::boxes::colr::ColourInformationBox;
use rust_avif::bmff::boxes::ftyp::FileTypeBox;
use rust_avif::bmff::boxes::iinf::ItemInfoBox;
use rust_avif::bmff::boxes::iloc::ItemLocationBox;
use rust_avif::bmff::boxes::meta::ItemPropertiesBox;
use rust_avif::bmff::boxes::minf::{DataInformationBox, DataReferenceBox};
use rust_avif::bmff::boxes::pixi::PixelInformationBox;
use rust_avif::bmff::boxes::stbl::{SampleDescriptionBox, SampleTableBox};
use rust_avif::bmff::{parse_avif, BoxType, Parser};
use rust_avif::decoder::Decoder;
use rust_avif::error::{BmffError, DecodeError, IoErrorKind, ParameterError};
use rust_avif::io::ReadStream;
use rust_avif::Error;

fn bmff_error<T>(r: rust_avif::Result<T>) -> BmffError {
    match r {
        Err(Error::BmffParse(e)) => e,
        Err(Error::BmffParseIn(_, e)) => e,
        Err(e) => panic!("another error: {:?}", e),
        Ok(_) => panic!("no error"),
    }
}

#[test]
fn header_errors() {
    let mut p = Parser::new(&[0, 0, 0, 8, b'f']);
    assert!(matches!(bmff_error(p.next_box()), BmffError::NotEnoughDataForHeader));
    let mut p = Parser::new(&[0, 0, 0, 1, b'f', b'r', b'e', b'e', 0, 0]);
    assert!(matches!(bmff_error(p.next_box()), BmffError::NotEnoughDataForExtendedSize));
    let mut p = Parser::new(&[0, 0, 0, 24, b'u', b'u', b'i', b'd', 0, 0, 0, 0]);
    assert!(matches!(bmff_error(p.next_box()), BmffError::NotEnoughDataForUuid));
    let mut p = Parser::new(&[0, 0, 0, 12, b'm', b'e', b't', b'a', 0, 0]);
    assert!(matches!(bmff_error(p.next_box()), BmffError::NotEnoughDataForFullBox));
    let mut p = Parser::new(&[0, 0, 0, 10, b'm', b'e', b't', b'a', 0, 0, 0, 0]);
    assert!(matches!(bmff_error(p.next_box()), BmffError::BoxSmallerThanHeader(10, 12)));
    let mut p = Parser::new(&[0, 0, 0, 20, b'f', b'r', b'e', b'e', 0, 0]);
    assert!(matches!(bmff_error(p.next_box()), BmffError::BoxBeyondEnd));
    // A refused header leaves the position where it was.
    assert_eq!(p.position(), 0);
}

#[test]
fn box_type_errors() {
    assert!(matches!(bmff_error(BoxType::from_str("abc")), BmffError::BoxTypeLength(3)));
    assert!(matches!(bmff_error(BoxType::try_from(&[1u8, 2, 3, 4, 5][..])), BmffError::BoxTypeLength(5)));
    let data = [0, 0, 0, 8, b'f', b'r', b'e', b'e'];
    let mut p = Parser::new(&data);
    assert!(matches!(bmff_error(p.parse_box("ftyp")), BmffError::UnexpectedBoxType(ref e, t) if e.as_slice() == b"ftyp" && &t == b"free"));
    assert!(matches!(bmff_error(p.parse_box("free")), BmffError::NoMoreBoxes(ref e) if e.as_slice() == b"free"));
}

#[test]
fn avif_errors() {
    let not_avif = [0, 0, 0, 16, b'f', b't', b'y', b'p', b'm', b'i', b'f', b'1', 0, 0, 0, 0];
    assert!(matches!(bmff_error(parse_avif(&not_avif)), BmffError::NotAvif(b) if &b == b"mif1"));
    let bad_meta = [
        0, 0, 0, 16, b'f', b't', b'y', b'p', b'a', b'v', b'i', b'f', 0, 0, 0, 0, //
        0, 0, 0, 16, b'm', b'e', b't', b'a', 0, 0, 0, 0, 1, 0, 0, 0,
    ];
    assert!(matches!(bmff_error(parse_avif(&bad_meta)), BmffError::VersionMismatch(0, 1)));
    let first_not_ftyp = [0, 0, 0, 8, b'f', b'r', b'e', b'e'];
    assert!(matches!(bmff_error(parse_avif(&first_not_ftyp)), BmffError::UnexpectedBoxType(_, _)));
    assert!(matches!(bmff_error(parse_avif(&[])), BmffError::NoMoreBoxes(ref e) if e.as_slice() == b"ftyp"));
    assert!(matches!(bmff_error(FileTypeBox::parse(&[b'a', b'v', b'i', b'f', 0, 0, 0, 0, 1])), BmffError::BrandsNotMultipleOfFour(1)));
}

#[test]
fn item_box_errors() {
    // Version 0, flags, one entry whose size is below four.
    let iinf = [0, 0, 0, 0, 0, 1, 0, 2, 0, 0];
    assert!(matches!(bmff_error(ItemInfoBox::parse(&iinf)), BmffError::EntrySizeTooSmall(2)));
    // One entry that declares 40 bytes where 10 follow.
    let iinf = [0, 0, 0, 0, 0, 1, 0, 40, 0, 1, 0, 0, b'a', b'v', b'0', b'1', 0, 0];
    assert!(matches!(bmff_error(ItemInfoBox::parse(&iinf)), BmffError::EntryBeyondEnd));
    assert!(matches!(bmff_error(ItemLocationBox::parse(&[3, 0, 0, 0, 0, 0])), BmffError::UnsupportedIlocVersion(3)));
    assert!(matches!(bmff_error(ItemLocationBox::parse(&[0, 0, 0, 0, 0x30, 0, 0, 0])), BmffError::InvalidIlocFieldSize(3, 0, 0, 0)));
    let iloc = [1, 0, 0, 0, 0x44, 0x40, 0, 1, 0, 1, 0, 2];
    assert!(matches!(bmff_error(ItemLocationBox::parse(&iloc)), BmffError::UnsupportedConstructionMethod(2)));
}

#[test]
fn property_errors() {
    assert!(matches!(bmff_error(AV1ConfigurationBox::parse(&[0x01, 0, 0, 0])), BmffError::InvalidAv1cMarker(0)));
    assert!(matches!(bmff_error(AV1ConfigurationBox::parse(&[0x82, 0, 0, 0])), BmffError::UnsupportedAv1cVersion(2)));
    assert!(matches!(bmff_error(ColourInformationBox::parse(b"abcd")), BmffError::UnknownColorType(t) if &t == b"abcd"));
    assert!(matches!(bmff_error(PixelInformationBox::parse(&[0, 0, 0, 0, 0])), BmffError::InvalidChannelCount(0)));
    // An item properties box without its property container.
    assert!(matches!(bmff_error(ItemPropertiesBox::parse(&[])), BmffError::MissingBox(t) if &t == b"ipco"));
}

#[test]
fn container_errors() {
    let tiny_child = [0, 0, 0, 4, b's', b't', b's', b'd'];
    assert!(matches!(bmff_error(SampleTableBox::parse(&tiny_child)), BmffError::InvalidBoxSize));
    let stss = [0, 0, 0, 16, b's', b't', b's', b's', 0, 0, 0, 0, 0, 0, 0, 0];
    let mut twice = stss.to_vec();
    twice.extend_from_slice(&stss);
    assert!(matches!(bmff_error(SampleTableBox::parse(&twice)), BmffError::DuplicateBox(t) if &t == b"stss"));
    assert!(matches!(bmff_error(DataInformationBox::parse(&[])), BmffError::MissingBox(t) if &t == b"dref"));
    let dref = [0, 0, 0, 0, 0, 0, 0, 1, 0, 0, 0, 4, b'u', b'r', b'l', b' '];
    assert!(matches!(bmff_error(DataReferenceBox::parse(&dref)), BmffError::InvalidEntrySize));
}

#[test]
fn sample_description_errors() {
    // An entry of unknown type whose size is below the sixteen bytes of its fields.
    let mut stsd = vec![0, 0, 0, 0, 0, 0, 0, 1, 0, 0, 0, 12, b'a', b'b', b'c', b'd'];
    stsd.extend_from_slice(&[0; 8]);
    assert!(matches!(bmff_error(SampleDescriptionBox::parse(&stsd)), BmffError::InvalidEntrySize));
    // A visual entry whose compressor name claims 32 bytes.
    let mut stsd = vec![0, 0, 0, 0, 0, 0, 0, 1, 0, 0, 0, 86, b'a', b'v', b'0', b'1'];
    stsd.extend_from_slice(&[0; 8]);
    stsd.extend_from_slice(&[0; 34]);
    stsd.push(32);
    stsd.extend_from_slice(&[0; 35]);
    assert!(matches!(bmff_error(SampleDescriptionBox::parse(&stsd)), BmffError::InvalidCompressorName));
}

#[test]
fn stream_and_parameter_errors() {
    let data = [1, 2, 3];
    let mut reader = ReadStream::new(&data);
    assert!(matches!(reader.read_u32(), Err(Error::Io(IoErrorKind::UnexpectedEof))));
    assert!(matches!(reader.set_position(4), Err(Error::Io(IoErrorKind::InvalidInput))));
    assert!(matches!(reader.read_bits_u32(33), Err(Error::InvalidParameter(ParameterError::TooManyBits))));
    let mut parser = Parser::new(&data);
    assert!(matches!(
        parser.set_position(4),
        Err(Error::InvalidParameterIn(ref c, ParameterError::PositionBeyondEnd)) if c == "BMFF"
    ));
    assert!(matches!(
        AvifImage::with_params(0, 4, 8, PixelFormat::Yuv420),
        Err(Error::InvalidParameter(ParameterError::ZeroDimensions))
    ));
    assert!(matches!(
        AvifImage::with_params(4, 4, 17, PixelFormat::Yuv420),
        Err(Error::InvalidParameter(ParameterError::DepthOutOfRange))
    ));
    let mut decoder = Decoder::new();
    assert!(matches!(decoder.parse(), Err(Error::InvalidParameter(ParameterError::NoInputData))));
    assert!(matches!(decoder.next_image(), Err(Error::Decode(DecodeError::NoMoreImages))));
}

#[test]
fn errors_carry_parser_context() {
    let mut p = Parser::with_context(&[0, 0, 0, 8, b'f'], "top");
    assert!(matches!(
        p.next_box(),
        Err(Error::BmffParseIn(ref c, BmffError::NotEnoughDataForHeader)) if c == "top"
    ));
    let data = [0, 0, 0, 8, b'f', b'r', b'e', b'e'];
    let mut p = Parser::new(&data);
    assert!(matches!(
        p.parse_box("ftyp"),
        Err(Error::BmffParseIn(ref c, BmffError::UnexpectedBoxType(_, _))) if c == "BMFF"
    ));
    // A meta box with the wrong version, and one whose child box is cut off.
    let bad_version = [
        0, 0, 0, 16, b'f', b't', b'y', b'p', b'a', b'v', b'i', b'f', 0, 0, 0, 0, //
        0, 0, 0, 16, b'm', b'e', b't', b'a', 0, 0, 0, 0, 1, 0, 0, 0,
    ];
    assert!(matches!(
        parse_avif(&bad_version),
        Err(Error::BmffParseIn(ref c, BmffError::VersionMismatch(0, 1))) if c == "BMFF.meta"
    ));
    let cut_child = [
        0, 0, 0, 16, b'f', b't', b'y', b'p', b'a', b'v', b'i', b'f', 0, 0, 0, 0, //
        0, 0, 0, 20, b'm', b'e', b't', b'a', 0, 0, 0, 0, 0, 0, 0, 0, 0, 0, 0, 9,
    ];
    assert!(matches!(
        parse_avif(&cut_child),
        Err(Error::BmffParseIn(ref c, BmffError::NotEnoughDataForHeader)) if c == "BMFF.meta"
    ));
    // Errors of the box parsers themselves carry no context.
    assert!(matches!(FileTypeBox::parse(&[0; 9]), Err(Error::BmffParse(BmffError::BrandsNotMultipleOfFour(1)))));
}
