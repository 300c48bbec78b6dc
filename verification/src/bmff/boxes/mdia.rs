//! Media Box implementation.
//!
//! The Media Box (`mdia`) is a container box for the media information in a track.
//! It contains a Media Header Box (`mdhd`), a Handler Reference Box (`hdlr`),
//! and a Media Information Box (`minf`).

use vstd::prelude::*;
use crate::bmff::children::{child_count, headers_ok, is_code, lemma_walk_headers, lemma_walk_once, lemma_walk_presence, read_child_header, take_once, walk};
use crate::bmff::fourcc::{same_code, HDLR, MDHD, MINF};
use crate::error::{bmff, eof, BmffError, Error, Result};
use crate::io::{be16, be24, be32, be64, lemma_u16_at, lemma_u32_at, lemma_u64_at, u16_bytes, u32_bytes, u64_bytes, ReadStream};
use crate::text::push_char;
use super::hdlr::HandlerBox;
use super::minf::MediaInformationBox;

verus! {

/// Media Box.
#[derive(Debug)]
pub struct MediaBox {
    /// Media Header Box.
    pub mdhd: MediaHeaderBox,
    /// Handler Reference Box.
    pub hdlr: HandlerBox,
    /// Media Information Box.
    pub minf: Option<MediaInformationBox>,
}

/// Media Header Box.
#[derive(Debug)]
pub struct MediaHeaderBox {
    /// Version.
    pub version: u8,
    /// Flags.
    pub flags: u32,
    /// Creation time.
    pub creation_time: u64,
    /// Modification time.
    pub modification_time: u64,
    /// Timescale.
    pub timescale: u32,
    /// Duration.
    pub duration: u64,
    /// Language.
    pub language: String,
}

/// The letter that a five-bit field of a packed ISO-639-2/T language code
/// stands for: the field plus 0x60.
pub open spec fn language_letter(v: int) -> char {
    (v + 0x60) as char
}

/// The three letters of a packed language code, from the high field down.
pub open spec fn language_of(code: int) -> Seq<char> {
    seq![language_letter((code / 1024) % 32), language_letter((code / 32) % 32), language_letter(code % 32)]
}

impl MediaHeaderBox {
    /// Whether `d` parses as a media header box, and else the error. Version 1
    /// has 64-bit times and duration; the other versions 32-bit ones.
    pub open spec fn outcome(d: Seq<u8>) -> Result<()> {
        if d.len() < 4 {
            Err(eof())
        } else if d[0] == 1 && d.len() < 36 {
            Err(eof())
        } else if d[0] != 1 && d.len() < 24 {
            Err(eof())
        } else {
            Ok(())
        }
    }

    /// The fields are those that `d` holds.
    pub open spec fn parsed_from(&self, d: Seq<u8>) -> bool {
        &&& self.version == d[0]
        &&& self.flags == be24(d, 1)
        &&& if d[0] == 1 {
            &&& self.creation_time == be64(d, 4)
            &&& self.modification_time == be64(d, 12)
            &&& self.timescale == be32(d, 20)
            &&& self.duration == be64(d, 24)
            &&& self.language@ == language_of(be16(d, 32))
        } else {
            &&& self.creation_time == be32(d, 4)
            &&& self.modification_time == be32(d, 8)
            &&& self.timescale == be32(d, 12)
            &&& self.duration == be32(d, 16)
            &&& self.language@ == language_of(be16(d, 20))
        }
    }

    /// Parse a media header box from a buffer.
    pub fn parse(data: &[u8]) -> (r: Result<Self>)
        ensures
            match Self::outcome(data@) {
                Ok(_) => r matches Ok(b) && b.parsed_from(data@),
                Err(e) => r == Err::<Self, Error>(e),
            },
    {
        let mut stream = ReadStream::new(data);
        let version = stream.read_u8()?;
        let flags = stream.read_u24()?;
        let (creation_time, modification_time) = if version == 1 {
            let c = stream.read_u64()?;
            let m = stream.read_u64()?;
            (c, m)
        } else {
            let c = stream.read_u32()? as u64;
            let m = stream.read_u32()? as u64;
            (c, m)
        };
        let timescale = stream.read_u32()?;
        let duration = if version == 1 {
            stream.read_u64()?
        } else {
            stream.read_u32()? as u64
        };
        let language_code = stream.read_u16()?;
        let mut language = String::new();
        push_char(&mut language, ((language_code / 1024) % 32 + 0x60) as u8 as char);
        push_char(&mut language, ((language_code / 32) % 32 + 0x60) as u8 as char);
        push_char(&mut language, (language_code % 32 + 0x60) as u8 as char);
        assert(language@ =~= language_of(language_code as int));
        stream.skip(2)?;
        Ok(Self { version, flags, creation_time, modification_time, timescale, duration, language })
    }
}

/// The payloads of the child boxes of a media box that have been taken up.
pub struct MdiaAcc {
    /// Payload of `mdhd`.
    pub mdhd: Option<Seq<u8>>,
    /// Payload of `hdlr`.
    pub hdlr: Option<Seq<u8>>,
    /// Payload of the last `minf`.
    pub minf: Option<Seq<u8>>,
}

/// One child box of a media box. A later `minf` replaces an earlier one.
pub open spec fn mdia_step(a: MdiaAcc, t: Seq<u8>, pl: Seq<u8>) -> Result<MdiaAcc> {
    if t == MDHD@ {
        match take_once(a.mdhd, MDHD, MediaHeaderBox::outcome(pl), pl) {
            Err(e) => Err(e),
            Ok(s) => Ok(MdiaAcc { mdhd: s, ..a }),
        }
    } else if t == HDLR@ {
        match take_once(a.hdlr, HDLR, HandlerBox::outcome(pl), pl) {
            Err(e) => Err(e),
            Ok(s) => Ok(MdiaAcc { hdlr: s, ..a }),
        }
    } else if t == MINF@ {
        match MediaInformationBox::outcome(pl) {
            Err(e) => Err(e),
            Ok(_) => Ok(MdiaAcc { minf: Some(pl), ..a }),
        }
    } else {
        Ok(a)
    }
}

/// `mdia_step` as a value.
pub open spec fn mdia_step_fn() -> spec_fn(MdiaAcc, Seq<u8>, Seq<u8>) -> Result<MdiaAcc> {
    |a: MdiaAcc, t: Seq<u8>, pl: Seq<u8>| mdia_step(a, t, pl)
}

impl MediaBox {
    /// The child boxes of the media box in `d`, walked.
    pub open spec fn children(d: Seq<u8>) -> Result<MdiaAcc> {
        walk(d, 0, MdiaAcc { mdhd: None, hdlr: None, minf: None }, mdia_step_fn(), false)
    }

    /// Whether `d` parses as a media box, and else the error: `mdhd` and
    /// `hdlr` are required.
    pub open spec fn outcome(d: Seq<u8>) -> Result<()> {
        match Self::children(d) {
            Err(e) => Err(e),
            Ok(a) => if a.mdhd is None {
                Err(bmff(BmffError::MissingBox(MDHD)))
            } else if a.hdlr is None {
                Err(bmff(BmffError::MissingBox(HDLR)))
            } else {
                Ok(())
            },
        }
    }

    /// The fields are those that `d` holds.
    pub open spec fn parsed_from(&self, d: Seq<u8>) -> bool {
        &&& Self::children(d) matches Ok(a) && {
            &&& a.mdhd matches Some(pl) && self.mdhd.parsed_from(pl)
            &&& a.hdlr matches Some(pl) && self.hdlr.parsed_from(pl)
            &&& (self.minf is Some <==> a.minf is Some)
            &&& (self.minf matches Some(b) ==> b.parsed_from(a.minf->0))
        }
    }

    /// Parse a media box from a buffer.
    pub fn parse(data: &[u8]) -> (r: Result<Self>)
        ensures
            match Self::outcome(data@) {
                Ok(_) => r matches Ok(b) && b.parsed_from(data@),
                Err(e) => r == Err::<Self, Error>(e),
            },
    {
        let mut stream = ReadStream::new(data);
        let mut mdhd: Option<MediaHeaderBox> = None;
        let mut hdlr: Option<HandlerBox> = None;
        let mut minf: Option<MediaInformationBox> = None;
        let ghost d = data@;
        let ghost mut acc = MdiaAcc { mdhd: None, hdlr: None, minf: None };
        while stream.has_more()
            invariant
                stream.inv(),
                stream.bytes() == d,
                d == data@,
                Self::children(d) == walk(d, stream.pos(), acc, mdia_step_fn(), false),
                (mdhd is Some <==> acc.mdhd is Some),
                (mdhd matches Some(b) ==> b.parsed_from(acc.mdhd->0)),
                (hdlr is Some <==> acc.hdlr is Some),
                (hdlr matches Some(b) ==> b.parsed_from(acc.hdlr->0)),
                (minf is Some <==> acc.minf is Some),
                (minf matches Some(b) ==> b.parsed_from(acc.minf->0)),
            decreases d.len() - stream.pos(),
        {
            let ghost p = stream.pos();
            let (box_type, data_size) = read_child_header(&mut stream)?;
            let ghost pl = d.subrange(p + 8, p + 8 + data_size);
            if same_code(&box_type, &MDHD) {
                if mdhd.is_some() {
                    return Err(Error::BmffParse(BmffError::DuplicateBox(MDHD)));
                }
                let box_data = stream.read_exact_buffer(data_size)?;
                mdhd = Some(MediaHeaderBox::parse(box_data.as_slice())?);
                proof { acc = MdiaAcc { mdhd: Some(pl), ..acc }; }
            } else if same_code(&box_type, &HDLR) {
                if hdlr.is_some() {
                    return Err(Error::BmffParse(BmffError::DuplicateBox(HDLR)));
                }
                let box_data = stream.read_exact_buffer(data_size)?;
                hdlr = Some(HandlerBox::parse(box_data.as_slice())?);
                proof { acc = MdiaAcc { hdlr: Some(pl), ..acc }; }
            } else if same_code(&box_type, &MINF) {
                let box_data = stream.read_exact_buffer(data_size)?;
                minf = Some(MediaInformationBox::parse(box_data.as_slice())?);
                proof { acc = MdiaAcc { minf: Some(pl), ..acc }; }
            } else {
                stream.skip(data_size)?;
            }
        }
        let mdhd = match mdhd {
            Some(b) => b,
            None => { return Err(Error::BmffParse(BmffError::MissingBox(MDHD))); },
        };
        let hdlr = match hdlr {
            Some(b) => b,
            None => { return Err(Error::BmffParse(BmffError::MissingBox(HDLR))); },
        };
        Ok(Self { mdhd, hdlr, minf })
    }
}


/// A media box parses only with exactly one `mdhd` and one `hdlr` child and
/// well-formed child headers; its `minf` is present exactly when a `minf` child
/// occurs (the last one is kept).
pub proof fn lemma_media_children(d: Seq<u8>)
    ensures
        MediaBox::outcome(d) is Ok ==> {
            &&& headers_ok(d, 0, false)
            &&& child_count(d, 0, is_code(MDHD@), false) == 1
            &&& child_count(d, 0, is_code(HDLR@), false) == 1
        },
        forall|b: MediaBox| #[trigger] b.parsed_from(d) ==> (b.minf is Some <==> child_count(d, 0, is_code(MINF@), false) > 0),
{
    let f = mdia_step_fn();
    let s = MdiaAcc { mdhd: None, hdlr: None, minf: None };
    lemma_walk_headers(d, 0, s, f, false);
    lemma_walk_presence(d, 0, s, f, false, is_code(MDHD@), |a: MdiaAcc| a.mdhd is Some);
    lemma_walk_once(d, 0, s, f, false, is_code(MDHD@), |a: MdiaAcc| a.mdhd is Some);
    lemma_walk_presence(d, 0, s, f, false, is_code(HDLR@), |a: MdiaAcc| a.hdlr is Some);
    lemma_walk_once(d, 0, s, f, false, is_code(HDLR@), |a: MdiaAcc| a.hdlr is Some);
    lemma_walk_presence(d, 0, s, f, false, is_code(MINF@), |a: MdiaAcc| a.minf is Some);
}


/// The language letters are the three 5-bit groups of the packed code, from the
/// top down, each counted from the letter before `a`.
proof fn lemma_language_letters(code: u16)
    ensures
        language_of(code as int) == seq![
            (((code >> 10u16) & 0x1fu16) + 0x60) as char,
            (((code >> 5u16) & 0x1fu16) + 0x60) as char,
            ((code & 0x1fu16) + 0x60) as char,
        ],
{
    assert((code / 1024) % 32 == (code >> 10u16) & 0x1fu16) by (bit_vector);
    assert((code / 32) % 32 == (code >> 5u16) & 0x1fu16) by (bit_vector);
    assert(code % 32 == code & 0x1fu16) by (bit_vector);
    assert(language_of(code as int) =~= seq![
        (((code >> 10u16) & 0x1fu16) + 0x60) as char,
        (((code >> 5u16) & 0x1fu16) + 0x60) as char,
        ((code & 0x1fu16) + 0x60) as char,
    ]);
}

/// A version 0 media header holds, after the version and flags, the creation
/// time, the modification time, the timescale and the duration, four big-endian
/// bytes each, then the packed language code: a header so written parses and
/// gives back those fields and the language's three letters.
pub proof fn lemma_mdhd_v0_read_back(
    flags: Seq<u8>,
    creation: u32,
    modification: u32,
    timescale: u32,
    duration: u32,
    language: u16,
    rest: Seq<u8>,
    b: MediaHeaderBox,
)
    requires
        flags.len() == 3,
        rest.len() >= 2,
    ensures
        MediaHeaderBox::outcome(seq![0u8] + flags + u32_bytes(creation as int) + u32_bytes(modification as int)
            + u32_bytes(timescale as int) + u32_bytes(duration as int) + u16_bytes(language as int) + rest) is Ok,
        b.parsed_from(seq![0u8] + flags + u32_bytes(creation as int) + u32_bytes(modification as int)
            + u32_bytes(timescale as int) + u32_bytes(duration as int) + u16_bytes(language as int) + rest) ==> {
            &&& b.version == 0
            &&& b.creation_time == creation
            &&& b.modification_time == modification
            &&& b.timescale == timescale
            &&& b.duration == duration
            &&& b.language@ == seq![
                (((language >> 10u16) & 0x1fu16) + 0x60) as char,
                (((language >> 5u16) & 0x1fu16) + 0x60) as char,
                ((language & 0x1fu16) + 0x60) as char,
            ]
        },
{
    let d = seq![0u8] + flags + u32_bytes(creation as int) + u32_bytes(modification as int)
        + u32_bytes(timescale as int) + u32_bytes(duration as int) + u16_bytes(language as int) + rest;
    assert(d[0] == 0);
    assert(d.subrange(4, 8) =~= u32_bytes(creation as int));
    assert(d.subrange(8, 12) =~= u32_bytes(modification as int));
    assert(d.subrange(12, 16) =~= u32_bytes(timescale as int));
    assert(d.subrange(16, 20) =~= u32_bytes(duration as int));
    assert(d.subrange(20, 22) =~= u16_bytes(language as int));
    lemma_u32_at(d, 4, creation);
    lemma_u32_at(d, 8, modification);
    lemma_u32_at(d, 12, timescale);
    lemma_u32_at(d, 16, duration);
    lemma_u16_at(d, 20, language);
    lemma_language_letters(language);
}

/// A version 1 media header holds, after the version and flags, the creation
/// and modification times in eight big-endian bytes each, the timescale in
/// four, the duration in eight, then the packed language code: a header so
/// written parses and gives back those fields and the language's three letters.
pub proof fn lemma_mdhd_v1_read_back(
    flags: Seq<u8>,
    creation: u64,
    modification: u64,
    timescale: u32,
    duration: u64,
    language: u16,
    rest: Seq<u8>,
    b: MediaHeaderBox,
)
    requires
        flags.len() == 3,
        rest.len() >= 2,
    ensures
        MediaHeaderBox::outcome(seq![1u8] + flags + u64_bytes(creation as int) + u64_bytes(modification as int)
            + u32_bytes(timescale as int) + u64_bytes(duration as int) + u16_bytes(language as int) + rest) is Ok,
        b.parsed_from(seq![1u8] + flags + u64_bytes(creation as int) + u64_bytes(modification as int)
            + u32_bytes(timescale as int) + u64_bytes(duration as int) + u16_bytes(language as int) + rest) ==> {
            &&& b.version == 1
            &&& b.creation_time == creation
            &&& b.modification_time == modification
            &&& b.timescale == timescale
            &&& b.duration == duration
            &&& b.language@ == seq![
                (((language >> 10u16) & 0x1fu16) + 0x60) as char,
                (((language >> 5u16) & 0x1fu16) + 0x60) as char,
                ((language & 0x1fu16) + 0x60) as char,
            ]
        },
{
    let d = seq![1u8] + flags + u64_bytes(creation as int) + u64_bytes(modification as int)
        + u32_bytes(timescale as int) + u64_bytes(duration as int) + u16_bytes(language as int) + rest;
    assert(d[0] == 1);
    assert(d.subrange(4, 12) =~= u64_bytes(creation as int));
    assert(d.subrange(12, 20) =~= u64_bytes(modification as int));
    assert(d.subrange(20, 24) =~= u32_bytes(timescale as int));
    assert(d.subrange(24, 32) =~= u64_bytes(duration as int));
    assert(d.subrange(32, 34) =~= u16_bytes(language as int));
    lemma_u64_at(d, 4, creation);
    lemma_u64_at(d, 12, modification);
    lemma_u32_at(d, 20, timescale);
    lemma_u64_at(d, 24, duration);
    lemma_u16_at(d, 32, language);
    lemma_language_letters(language);
}

} // verus!
