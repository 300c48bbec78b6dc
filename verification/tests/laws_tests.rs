//! Concrete instances of the library's laws.

use rust_avif::bmff::Parser;
use rust_avif::error::Result;
use rust_avif::io::{ReadStream, WriteStream};
use rust_avif::Error;
use rust_avif::bmff::boxes::iinf::ItemInfoBox;
use rust_avif::bmff::boxes::iloc::ItemLocationBox;
use rust_avif::bmff::boxes::mdia::MediaBox;
use rust_avif::bmff::boxes::meta::ItemPropertyContainerBox;
use rust_avif::bmff::boxes::minf::MediaInformationBox;
use rust_avif::bmff::boxes::moov::MovieBox;
use rust_avif::bmff::boxes::stbl::SampleTableBox;
use rust_avif::bmff::boxes::trak::TrackBox;
use rust_avif::error::BmffError;

#[test]
fn integers_read_back_as_written() -> Result<()> {
    let mut writer = WriteStream::new();
    writer.write_u16(0xBEEF)?;
    writer.write_u32(0xDEADBEEF)?;
    writer.write_u64(0x0102030405060708)?;
    writer.set_position(2)?;
    writer.write_u32(0x0BADF00D)?;
    // What is handed out ends at the position.
    assert_eq!(writer.data().len(), 6);
    writer.set_position(14)?;
    let data = writer.into_data();
    assert_eq!(data.len(), 14);
    let mut reader = ReadStream::new(&data);
    assert_eq!(reader.read_u16()?, 0xBEEF);
    assert_eq!(reader.read_u32()?, 0x0BADF00D);
    assert_eq!(reader.read_u64()?, 0x0102030405060708);
    Ok(())
}

#[test]
fn bits_read_back_as_written() -> Result<()> {
    let mut writer = WriteStream::new();
    writer.write_bits_u32(5, 0b10110)?;
    writer.write_bits_u32(11, 0x5A3)?;
    writer.write_bits_u32(3, 0xFFFF_FFFD)?;
    writer.write_bits_u32(32, 0x89AB_CDEF)?;
    writer.flush_bits()?;
    let data = writer.into_data();
    assert_eq!(data.len(), 7);
    let mut reader = ReadStream::new(&data);
    assert_eq!(reader.read_bits_u32(5)?, 0b10110);
    assert_eq!(reader.read_bits_u32(11)?, 0x5A3);
    // Only the three low bits of the value were written.
    assert_eq!(reader.read_bits_u32(3)?, 0b101);
    assert_eq!(reader.read_bits_u32(32)?, 0x89AB_CDEF);
    Ok(())
}

#[test]
fn framed_box_parses_back() -> Result<()> {
    let mut writer = WriteStream::new();
    writer.write_u8(0xAA)?;
    let marker = writer.write_box(b"free")?;
    writer.write(&[1, 2, 3, 4, 5])?;
    writer.finish_box(marker)?;
    let data = writer.into_data();
    let mut parser = Parser::new(&data);
    parser.set_position(1)?;
    let b = parser.next_box()?.unwrap();
    assert_eq!(b.header.box_type.as_bytes(), b"free");
    assert_eq!(b.header.size, 13);
    assert_eq!(b.header.version, None);
    assert_eq!(b.data.as_slice(), &[1, 2, 3, 4, 5]);
    assert!(!parser.has_more());
    Ok(())
}

#[test]
fn framed_full_box_parses_back() -> Result<()> {
    let mut writer = WriteStream::new();
    let marker = writer.write_full_box(b"hdlr", 1, 0x0012_3456)?;
    writer.write(&[9, 8, 7])?;
    writer.finish_box(marker)?;
    let data = writer.into_data();
    let mut parser = Parser::new(&data);
    let b = parser.next_box()?.unwrap();
    assert_eq!(b.header.box_type.as_str(), "hdlr");
    assert_eq!(b.header.size, 15);
    assert_eq!(b.header.version, Some(1));
    assert_eq!(b.header.flags, Some(0x0012_3456));
    assert_eq!(b.data.as_slice(), &[9, 8, 7]);
    Ok(())
}

#[test]
fn parsed_box_lies_within_the_data() -> Result<()> {
    // A size of zero runs to the end of the data.
    let data = [0, 0, 0, 0, b'm', b'd', b'a', b't', 1, 2, 3];
    let mut parser = Parser::new(&data);
    let b = parser.next_box()?.unwrap();
    assert_eq!(b.header.size, 11);
    assert_eq!(b.data.len(), 3);
    assert_eq!(parser.position(), 11);
    assert!(parser.next_box()?.is_none());
    Ok(())
}

#[test]
fn brands_are_those_of_the_bytes() -> Result<()> {
    let data = [
        0, 0, 0, 20, b'f', b't', b'y', b'p', b'm', b'i', b'f', b'1', 0, 0, 0, 0, b'a', b'v', b'i', b's',
    ];
    let mut parser = Parser::new(&data);
    let ftyp = parser.parse_ftyp()?;
    assert!(ftyp.has_brand("avis"));
    assert!(ftyp.has_brand("mif1"));
    assert!(!ftyp.has_brand("avif"));
    assert!(!ftyp.has_brand("mif"));
    assert!(ftyp.is_avif());
    Ok(())
}

fn child(t: &[u8; 4], payload: &[u8]) -> Vec<u8> {
    let mut out = ((8 + payload.len()) as u32).to_be_bytes().to_vec();
    out.extend_from_slice(t);
    out.extend_from_slice(payload);
    out
}

#[test]
fn container_fields_follow_their_children() {

    let empty_table = [0u8, 0, 0, 0, 0, 0, 0, 0];
    let mut data = child(b"stss", &empty_table);
    data.extend_from_slice(&child(b"free", &[1, 2]));
    data.extend_from_slice(&child(b"stco", &empty_table));
    let t = SampleTableBox::parse(&data).unwrap();
    assert!(t.stss.is_some() && t.stco.is_some());
    assert!(t.stsd.is_none() && t.stts.is_none() && t.stsc.is_none() && t.stsz.is_none());
    data.extend_from_slice(&child(b"co64", &empty_table));
    assert!(matches!(
        SampleTableBox::parse(&data),
        Err(Error::BmffParse(BmffError::DuplicateBox(t))) if &t == b"co64"
    ));

    let m = MediaInformationBox::parse(&[]).unwrap();
    assert!(m.vmhd.is_none() && m.smhd.is_none() && m.dinf.is_none() && m.stbl.is_none());
    let vmhd = child(b"vmhd", &[0; 12]);
    let m = MediaInformationBox::parse(&vmhd).unwrap();
    assert!(m.vmhd.is_some() && m.smhd.is_none());
    let twice = [vmhd.clone(), vmhd].concat();
    assert!(MediaInformationBox::parse(&twice).is_err());

    assert!(matches!(TrackBox::parse(&[]), Err(Error::BmffParse(BmffError::MissingBox(t))) if &t == b"tkhd"));
    assert!(matches!(MediaBox::parse(&[]), Err(Error::BmffParse(BmffError::MissingBox(t))) if &t == b"mdhd"));
    assert!(matches!(MovieBox::parse(&[1, 2, 3]), Err(Error::BmffParse(BmffError::MissingBox(t))) if &t == b"mvhd"));

    let props = [child(b"abcd", &[1]), child(b"wxyz", &[])].concat();
    assert_eq!(ItemPropertyContainerBox::parse(&props).unwrap().properties.len(), 2);
}

#[test]
fn counts_follow_the_declared_counts() {

    // Version 1, sizes: offset 4, length 4, base 0, index 0; two items.
    let iloc = [
        1, 0, 0, 0, 0x44, 0x00, 0, 2, //
        0, 1, 0, 0, 0, 1, 0, 0, 0, 10, 0, 0, 0, 20, //
        0, 2, 0, 1, 0, 2, 0, 0, 0, 30, 0, 0, 0, 40, 0, 0, 0, 50, 0, 0, 0, 60,
    ];
    let b = ItemLocationBox::parse(&iloc).unwrap();
    assert_eq!(b.entries.len(), 2);
    assert_eq!(b.entries[0].extents.len(), 1);
    assert_eq!(b.entries[1].extents.len(), 2);
    assert_eq!(b.entries[1].construction_method, 1);
    assert!(b.entries[1].extents[1].extent_index.is_none());
    assert_eq!(b.entries[1].extents[1].extent_length, 60);

    // Version 0: a count of one entry.
    let iinf = [0, 0, 0, 0, 0, 1, 0, 9, 0, 7, 0, 0, b'a', b'v', b'0', b'1', 0];
    let b = ItemInfoBox::parse(&iinf).unwrap();
    assert_eq!(b.entries.len(), 1);
    assert_eq!(b.entries[0].item_id, 7);
}
