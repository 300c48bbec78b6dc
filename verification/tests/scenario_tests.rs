//! Scenarios over whole boxes, files and the decoder.

use rust_avif::avif_image::{AvifImage, PixelFormat};
use rust_avif::bmff::boxes::mdia::MediaHeaderBox;
use rust_avif::bmff::boxes::stbl::{SampleDescription, SampleDescriptionBox};
use rust_avif::bmff::boxes::trak::TrackReferenceBox;
use rust_avif::bmff::parse_avif;
use rust_avif::decoder::Decoder;
use rust_avif::error::Result;
use rust_avif::io::{ReadStream, WriteStream};
use rust_avif::memory::Buffer;
use rust_avif::error::result_to_code;
use rust_avif::{AvifResult, Error};

fn push_box(out: &mut Vec<u8>, t: &[u8; 4], payload: &[u8]) {
    out.extend_from_slice(&((8 + payload.len()) as u32).to_be_bytes());
    out.extend_from_slice(t);
    out.extend_from_slice(payload);
}

#[test]
fn avif_metadata_from_meta_boxes() -> Result<()> {
    let mut ispe = vec![0, 0, 0, 0];
    ispe.extend_from_slice(&640u32.to_be_bytes());
    ispe.extend_from_slice(&480u32.to_be_bytes());
    // The property boxes are full boxes: the parser takes their version and
    // flags, and the property parsers read the rest.
    let mut ispe_box = Vec::new();
    push_box(&mut ispe_box, b"ispe", &[&[0, 0, 0, 0][..], &ispe[..]].concat());
    let mut ipco = vec![0, 0, 0, 0];
    ipco.extend_from_slice(&ispe_box);
    let mut ipco_box = Vec::new();
    push_box(&mut ipco_box, b"ipco", &ipco);
    let mut iprp = vec![0, 0, 0, 0];
    iprp.extend_from_slice(&ipco_box);
    let mut pitm_box = Vec::new();
    push_box(&mut pitm_box, b"pitm", &[0, 0, 0, 0, 0, 0, 0, 0, 0, 7]);
    let mut meta = vec![0, 0, 0, 0, 0, 0, 0, 0];
    meta.extend_from_slice(&pitm_box);
    push_box(&mut meta, b"iprp", &iprp);
    let mut file = Vec::new();
    push_box(&mut file, b"ftyp", b"avif\0\0\0\0mif1");
    push_box(&mut file, b"meta", &meta);

    let m = parse_avif(&file)?;
    assert_eq!(m.primary_item_id, Some(7));
    let ispe = m.ispe.unwrap();
    assert_eq!(ispe.width, 640);
    assert_eq!(ispe.height, 480);
    assert!(m.pixi.is_none());
    assert!(m.hdlr.is_none());
    Ok(())
}

#[test]
fn media_header_language_letters() -> Result<()> {
    // "und": u = 0x15, n = 0x0e, d = 0x04.
    let code: u16 = (0x15 << 10) | (0x0e << 5) | 0x04;
    let mut w = WriteStream::new();
    w.write_u8(0)?;
    w.write_u8(0)?;
    w.write_u16(0)?;
    w.write_u32(1)?;
    w.write_u32(2)?;
    w.write_u32(90000)?;
    w.write_u32(450000)?;
    w.write_u16(code)?;
    w.write_u16(0)?;
    let mdhd = MediaHeaderBox::parse(&w.into_data())?;
    assert_eq!(mdhd.creation_time, 1);
    assert_eq!(mdhd.modification_time, 2);
    assert_eq!(mdhd.timescale, 90000);
    assert_eq!(mdhd.duration, 450000);
    assert_eq!(mdhd.language, "und");
    Ok(())
}

fn visual_entry(name: &[u8]) -> Vec<u8> {
    let mut e = vec![0, 0, 0, 0, b'a', b'v', b'0', b'1', 0, 0, 0, 0, 0, 0, 0, 1];
    e.extend_from_slice(&[0; 16]);
    e.extend_from_slice(&64u16.to_be_bytes());
    e.extend_from_slice(&48u16.to_be_bytes());
    e.extend_from_slice(&0x0048_0000u32.to_be_bytes());
    e.extend_from_slice(&0x0048_0000u32.to_be_bytes());
    e.extend_from_slice(&[0; 4]);
    e.extend_from_slice(&1u16.to_be_bytes());
    let mut cn = [0u8; 32];
    cn[0] = name.len() as u8;
    cn[1..1 + name.len()].copy_from_slice(name);
    e.extend_from_slice(&cn);
    e.extend_from_slice(&24u16.to_be_bytes());
    e.extend_from_slice(&[0xff, 0xff]);
    push_box(&mut e, b"av1C", &[0x81, 0, 0, 0]);
    let len = e.len() as u32;
    e[0..4].copy_from_slice(&len.to_be_bytes());
    e
}

#[test]
fn visual_sample_description() -> Result<()> {
    let mut stsd = vec![0, 0, 0, 0, 0, 0, 0, 1];
    stsd.extend_from_slice(&visual_entry(b"AOM Coding"));
    let b = SampleDescriptionBox::parse(&stsd)?;
    assert_eq!(b.entries.len(), 1);
    match &b.entries[0] {
        SampleDescription::Visual(v) => {
            assert_eq!(&v.sample_type, b"av01");
            assert_eq!(v.width, 64);
            assert_eq!(v.height, 48);
            assert_eq!(v.horizresolution, 0x0048_0000);
            assert_eq!(v.frame_count, 1);
            assert_eq!(v.compressorname, "AOM Coding");
            assert_eq!(v.depth, 24);
            assert_eq!(v.config_boxes.len(), 1);
            assert_eq!(&v.config_boxes[0].box_type, b"av1C");
            assert_eq!(v.config_boxes[0].data, vec![0x81, 0, 0, 0]);
        }
        other => panic!("not visual: {:?}", other),
    }
    Ok(())
}

#[test]
fn compressor_name_invalid_utf8_is_replaced() -> Result<()> {
    let mut stsd = vec![0, 0, 0, 0, 0, 0, 0, 1];
    stsd.extend_from_slice(&visual_entry(&[b'A', 0xff, b'B']));
    let b = SampleDescriptionBox::parse(&stsd)?;
    match &b.entries[0] {
        SampleDescription::Visual(v) => assert_eq!(v.compressorname, "A\u{fffd}B"),
        other => panic!("not visual: {:?}", other),
    }
    Ok(())
}

#[test]
fn track_reference_takes_all_ids() -> Result<()> {
    let data = [b'a', b'u', b'x', b'l', 0, 0, 0, 1, 0, 0, 0, 2];
    let b = TrackReferenceBox::parse(&data)?;
    assert_eq!(b.references.len(), 1);
    assert_eq!(&b.references[0].reference_type, b"auxl");
    assert_eq!(b.references[0].track_ids, vec![1, 2]);
    assert!(TrackReferenceBox::parse(&data[..10]).is_err());
    assert!(TrackReferenceBox::parse(&[])?.references.is_empty());
    Ok(())
}

#[test]
fn decoder_hands_out_one_image() -> Result<()> {
    let mut file = Vec::new();
    push_box(&mut file, b"ftyp", b"avif\0\0\0\0");
    let mut decoder = Decoder::new();
    decoder.set_io_data(&file)?;
    assert_eq!(decoder.image_count(), 0);
    decoder.parse()?;
    assert_eq!(decoder.image_count(), 1);
    let image = decoder.next_image()?;
    assert_eq!(decoder.current_image_index(), 1);
    assert_eq!((image.width, image.height, image.depth), (1, 1, 8));
    let y = image.y_plane.as_ref().unwrap();
    assert_eq!((y.width, y.height, y.row_bytes, y.data.len()), (1, 1, 1, 1));
    let u = image.u_plane.as_ref().unwrap();
    assert_eq!((u.width, u.height, u.data.len()), (0, 0, 0));
    assert!(image.alpha_plane.is_none());
    assert!(decoder.next_image().is_err());
    // A new input starts over.
    decoder.set_io_data(&file)?;
    assert_eq!(decoder.current_image_index(), 0);
    assert_eq!(decoder.image_count(), 0);
    // Malformed boxes stop the parse.
    decoder.set_io_data(&[0, 0, 0, 9, b'f'])?;
    assert!(decoder.parse().is_err());
    assert_eq!(decoder.image_count(), 0);
    Ok(())
}

#[test]
fn image_planes_follow_format_and_depth() -> Result<()> {
    let mut image = AvifImage::with_params(5, 3, 10, PixelFormat::Yuv422)?;
    image.allocate_planes(0xF)?;
    let y = image.y_plane.as_ref().unwrap();
    assert_eq!((y.width, y.height, y.row_bytes, y.data.len()), (5, 3, 10, 30));
    let v = image.v_plane.as_ref().unwrap();
    assert_eq!((v.width, v.height, v.row_bytes, v.data.len()), (2, 3, 4, 12));
    assert!(v.data.iter().all(|&b| b == 0));
    let a = image.alpha_plane.as_ref().unwrap();
    assert_eq!((a.width, a.height), (5, 3));

    let mut mono = AvifImage::with_params(4, 4, 8, PixelFormat::Monochrome)?;
    mono.allocate_planes(0x1)?;
    assert!(mono.y_plane.is_some());
    assert!(mono.u_plane.is_none());
    assert!(mono.alpha_plane.is_none());

    mono.set_icc_profile(&[1, 2, 3])?;
    mono.set_exif(&[4])?;
    assert_eq!(mono.icc.as_slice(), &[1, 2, 3]);
    assert_eq!(mono.exif.as_slice(), &[4]);
    assert!(mono.xmp.is_empty());
    Ok(())
}

#[test]
fn result_codes_of_errors() {
    assert_eq!(AvifResult::from(Error::OutOfMemory), AvifResult::OutOfMemory);
    assert_eq!(
        result_to_code(Err::<(), Error>(Error::Unsupported("x".to_string()))),
        AvifResult::Unsupported
    );
    assert_eq!(result_to_code(Ok::<u8, Error>(3)), AvifResult::Success);
}

#[test]
fn buffer_resize_and_strings() -> Result<()> {
    let mut b = Buffer::from_slice(&[1, 2, 3]);
    b.resize(5)?;
    assert_eq!(b.as_slice(), &[1, 2, 3, 0, 0]);
    b.resize(1)?;
    assert_eq!(b.as_slice(), &[1]);
    let data = [b'a', b'b', 0, 0xe9, b'c'];
    let mut r = ReadStream::new(&data);
    assert_eq!(r.read_string()?, "ab");
    assert_eq!(r.read_string()?, "\u{e9}c");
    Ok(())
}
