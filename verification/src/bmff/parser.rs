//! BMFF parser implementation: box headers, the box-by-box parser, and the
//! walk over an AVIF file.

use vstd::prelude::*;
use vstd::slice::slice_subrange;
use vstd::slice::slice_to_vec;
use vstd::string::StringExecFns;
use vstd::string::StringSliceAdditionalSpecFns;
use vstd::utf8::{decode_utf8, valid_utf8};
use crate::bmff::boxes::av1c::AV1ConfigurationBox;
use crate::bmff::boxes::colr::ColourInformationBox;
use crate::bmff::boxes::ftyp::{brands_include, lemma_has_brand, FileTypeBox};
use crate::bmff::boxes::hdlr::HandlerBox;
use crate::bmff::boxes::iinf::ItemInfoBox;
use crate::bmff::boxes::iloc::ItemLocationBox;
use crate::bmff::boxes::ispe::ImageSpatialExtentsBox;
use crate::bmff::boxes::pitm::PrimaryItemBox;
use crate::bmff::boxes::pixi::PixelInformationBox;
use crate::bmff::fourcc::{same_code, AUXC, AV1C, AVIF, AVIS, COLR, FTYP, HDLR, IINF, ILOC, IPCO, IPRP, IREF, ISPE, MDHD, META, MVHD, PITM, PIXI, TKHD, UUID};
use crate::error::{bmff, eof, is_bmff_error, reported, BmffError, Error, Failure, IoErrorKind, ParameterError, Result};
use crate::io::{be16, be24, be32, be64, lemma_read_back_u32, lemma_u32_at, lemma_u64_at, overwrite, u32_bytes, u64_bytes, version_flags_bytes, ReadStream};
use crate::memory::Buffer;
use crate::text::str_from_utf8;

verus! {

/// BMFF box type.
#[derive(Debug, Clone, Copy)]
pub struct BoxType(pub [u8; 4]);

/// The text of a four-character code: its UTF-8 decoding, or `????` when it is
/// not valid UTF-8.
pub open spec fn code_text(code: Seq<u8>) -> Seq<char> {
    if valid_utf8(code) {
        decode_utf8(code)
    } else {
        "????"@
    }
}

impl BoxType {
    /// Create a new BoxType from a 4-byte array.
    pub fn new(type_code: [u8; 4]) -> (r: Self)
        ensures
            r.0 == type_code,
    {
        Self(type_code)
    }

    /// Create a new BoxType from a string of exactly four bytes.
    pub fn from_str(s: &str) -> (r: Result<Self>)
        ensures
            s.spec_bytes().len() == 4 ==> (r matches Ok(t) && t.0@ == s.spec_bytes()),
            s.spec_bytes().len() != 4 ==> (r matches Err(Error::BmffParse(BmffError::BoxTypeLength(n))) && n == s.spec_bytes().len()),
    {
        let b = s.as_bytes();
        if b.len() != 4 {
            return Err(Error::BmffParse(BmffError::BoxTypeLength(b.len())));
        }
        let code: [u8; 4] = [b[0], b[1], b[2], b[3]];
        assert(code@ =~= s.spec_bytes());
        Ok(Self(code))
    }

    /// Get the type code as a string (`????` when it is not valid UTF-8).
    pub fn as_str(&self) -> (r: &str)
        ensures
            r@ == code_text(self.0@),
    {
        match str_from_utf8(self.0.as_slice()) {
            Some(s) => s,
            None => "????",
        }
    }

    /// Check if this box type matches a string: the string has exactly these four bytes.
    pub fn matches(&self, s: &str) -> (r: bool)
        ensures
            r == (s.spec_bytes() == self.0@),
    {
        let b = s.as_bytes();
        if b.len() != 4 {
            return false;
        }
        let r = b[0] == self.0[0] && b[1] == self.0[1] && b[2] == self.0[2] && b[3] == self.0[3];
        proof {
            if r {
                assert(b@ =~= self.0@);
            }
        }
        r
    }

    /// Get the raw type code.
    pub fn as_bytes(&self) -> (r: &[u8; 4])
        ensures
            *r == self.0,
    {
        &self.0
    }
}

impl<'b> vstd::std_specs::convert::TryFromSpecImpl<&'b [u8]> for BoxType {
    open spec fn obeys_try_from_spec() -> bool {
        true
    }

    open spec fn try_from_spec(value: &'b [u8]) -> Result<Self> {
        if value@.len() == 4 {
            Ok(BoxType([value@[0], value@[1], value@[2], value@[3]]))
        } else {
            Err(Error::BmffParse(BmffError::BoxTypeLength(value@.len() as usize)))
        }
    }
}

impl<'b> TryFrom<&'b [u8]> for BoxType {
    type Error = Error;

    fn try_from(value: &'b [u8]) -> (r: Result<Self>) {
        if value.len() != 4 {
            return Err(Error::BmffParse(BmffError::BoxTypeLength(value.len())));
        }
        Ok(Self([value[0], value[1], value[2], value[3]]))
    }
}

/// BMFF box header.
#[derive(Debug, Clone)]
pub struct BoxHeader {
    /// Box size.
    pub size: u64,
    /// Box type.
    pub box_type: BoxType,
    /// Extended type (for 'uuid' boxes).
    pub extended_type: Option<[u8; 16]>,
    /// Version (for full boxes).
    pub version: Option<u8>,
    /// Flags (for full boxes).
    pub flags: Option<u32>,
}

/// BMFF box.
#[derive(Debug)]
pub struct Box {
    /// Box header.
    pub header: BoxHeader,
    /// Box data: the bytes after the header.
    pub data: Buffer,
}

/// Where and what a box is, as read from its header.
pub struct BoxLayout {
    /// The size of the whole box.
    pub size: int,
    /// The four-character type.
    pub box_type: Seq<u8>,
    /// The sixteen-byte extended type of a `uuid` box.
    pub extended_type: Option<Seq<u8>>,
    /// Version of a full box.
    pub version: Option<u8>,
    /// Flags of a full box.
    pub flags: Option<u32>,
    /// The size of the header, where the box data starts.
    pub header_size: int,
}

/// The types this parser reads as full boxes, with version and flags in the header.
pub open spec fn is_full_box_type(t: Seq<u8>) -> bool {
    ||| t == META@
    ||| t == HDLR@
    ||| t == PITM@
    ||| t == ILOC@
    ||| t == IINF@
    ||| t == IREF@
    ||| t == IPRP@
    ||| t == IPCO@
    ||| t == ISPE@
    ||| t == PIXI@
    ||| t == AUXC@
    ||| t == COLR@
    ||| t == AV1C@
    ||| t == TKHD@
    ||| t == MDHD@
    ||| t == MVHD@
}

fn is_full_box_code(t: &[u8; 4]) -> (r: bool)
    ensures
        r == is_full_box_type(t@),
{
    same_code(t, &META) || same_code(t, &HDLR) || same_code(t, &PITM) || same_code(t, &ILOC)
        || same_code(t, &IINF) || same_code(t, &IREF) || same_code(t, &IPRP) || same_code(t, &IPCO)
        || same_code(t, &ISPE) || same_code(t, &PIXI) || same_code(t, &AUXC) || same_code(t, &COLR)
        || same_code(t, &AV1C) || same_code(t, &TKHD) || same_code(t, &MDHD) || same_code(t, &MVHD)
}

/// The box whose header starts at `p` in `d`: `None` at the end of the data, an
/// error for a header that is cut off or a size that does not fit.
pub open spec fn box_at(d: Seq<u8>, p: int) -> Result<Option<BoxLayout>> {
    if p >= d.len() {
        Ok(None)
    } else if d.len() - p < 8 {
        Err(bmff(BmffError::NotEnoughDataForHeader))
    } else {
        let size32 = be32(d, p);
        let t = d.subrange(p + 4, p + 8);
        if size32 == 1 && d.len() - p < 16 {
            Err(bmff(BmffError::NotEnoughDataForExtendedSize))
        } else {
            let declared = if size32 == 1 { be64(d, p + 8) } else { size32 };
            let h1 = if size32 == 1 { 16int } else { 8int };
            if t == UUID@ && d.len() - p < h1 + 16 {
                Err(bmff(BmffError::NotEnoughDataForUuid))
            } else {
                let ext = if t == UUID@ { Some(d.subrange(p + h1, p + h1 + 16)) } else { None };
                let h2 = if t == UUID@ { h1 + 16 } else { h1 };
                if is_full_box_type(t) && d.len() - p < h2 + 4 {
                    Err(bmff(BmffError::NotEnoughDataForFullBox))
                } else {
                    let full = is_full_box_type(t);
                    let version = if full { Some(d[p + h2]) } else { None };
                    let flags = if full { Some(be24(d, p + h2 + 1) as u32) } else { None };
                    let h = if full { h2 + 4 } else { h2 };
                    if declared == 0 {
                        Ok(Some(BoxLayout { size: d.len() - p, box_type: t, extended_type: ext, version, flags, header_size: h }))
                    } else if declared < h {
                        Err(bmff(BmffError::BoxSmallerThanHeader(declared as u64, h as usize)))
                    } else if declared > d.len() - p {
                        Err(bmff(BmffError::BoxBeyondEnd))
                    } else {
                        Ok(Some(BoxLayout { size: declared, box_type: t, extended_type: ext, version, flags, header_size: h }))
                    }
                }
            }
        }
    }
}

/// The sixteen bytes of an optional extended type.
pub open spec fn ext_view(e: Option<[u8; 16]>) -> Option<Seq<u8>> {
    match e {
        Some(a) => Some(a@),
        None => None,
    }
}

impl Box {
    /// This box is the one laid out by `l` at `p` in `d`.
    pub open spec fn is_box_at(&self, l: BoxLayout, d: Seq<u8>, p: int) -> bool {
        &&& self.header.size == l.size
        &&& self.header.box_type.0@ == l.box_type
        &&& ext_view(self.header.extended_type) == l.extended_type
        &&& self.header.version == l.version
        &&& self.header.flags == l.flags
        &&& self.data@ == d.subrange(p + l.header_size, p + l.size)
    }
}

/// A layout that `box_at` gives lies within the data, header included.
pub proof fn lemma_box_at_bounds(d: Seq<u8>, p: int)
    requires
        0 <= p <= d.len(),
    ensures
        box_at(d, p) matches Ok(Some(l)) ==> {
            &&& 8 <= l.header_size <= l.size
            &&& p + l.size <= d.len()
            &&& l.box_type.len() == 4
        },
{
}

fn be32_at(d: &[u8], p: usize) -> (r: u32)
    requires
        p + 4 <= d@.len(),
    ensures
        r == be32(d@, p as int),
{
    (d[p] as u32) * 16777216 + (d[p + 1] as u32) * 65536 + (d[p + 2] as u32) * 256 + d[p + 3] as u32
}

fn be64_at(d: &[u8], p: usize) -> (r: u64)
    requires
        p + 8 <= d.len(),
    ensures
        r == be64(d@, p as int),
{
    let hi = be32_at(d, p);
    let lo = be32_at(d, p + 4);
    (hi as u64) * 4294967296 + lo as u64
}

/// What parsing the box at `p` as a box of type `code` gives, `r`, with the
/// position `new_pos` after it: the error of the header, `NoMoreBoxes` at the
/// end, `UnexpectedBoxType` for another type (these three reported with the
/// parser's context `ctx`), else what `outcome` and `parsed` say of the box data.
pub open spec fn typed_parse<T>(
    d: Seq<u8>,
    p: int,
    ctx: Seq<char>,
    code: Seq<u8>,
    outcome: spec_fn(Seq<u8>) -> Result<()>,
    parsed: spec_fn(T, Seq<u8>) -> bool,
    r: Result<T>,
    new_pos: int,
) -> bool {
    match box_at(d, p) {
        Err(e) => (r matches Err(x) && reported(x, Failure::In(ctx, e))) && new_pos == p,
        Ok(None) => (r matches Err(Error::BmffParseIn(c, BmffError::NoMoreBoxes(x))) && c@ == ctx && x@ == code)
            && new_pos == p,
        Ok(Some(l)) => new_pos == p + l.size && if l.box_type == code {
            let pl = d.subrange(p + l.header_size, p + l.size);
            match outcome(pl) {
                Ok(_) => r matches Ok(b) && parsed(b, pl),
                Err(e) => r == Err::<T, Error>(e),
            }
        } else {
            r matches Err(Error::BmffParseIn(c, BmffError::UnexpectedBoxType(x, t))) && c@ == ctx && x@ == code
                && t@ == l.box_type
        },
    }
}

/// BMFF parser.
#[derive(Debug)]
pub struct Parser<'a> {
    /// The data being parsed.
    data: &'a [u8],
    /// Current position in the data.
    position: usize,
    /// Diagnostic context: the path of box types that led here.
    context: String,
}

impl<'a> Parser<'a> {
    /// The data being parsed.
    pub closed spec fn bytes(&self) -> Seq<u8> {
        self.data@
    }

    /// The current position.
    pub closed spec fn pos(&self) -> int {
        self.position as int
    }

    /// The diagnostic context.
    pub closed spec fn context_text(&self) -> Seq<char> {
        self.context@
    }

    /// The parser's invariant: the position lies within the data.
    pub open spec fn inv(&self) -> bool {
        0 <= self.pos() <= self.bytes().len()
    }

    /// An error of this kind, reported with the parser's context.
    fn error_here<T>(&self, kind: BmffError) -> (r: Result<T>)
        ensures
            r matches Err(Error::BmffParseIn(c, k)) && c@ == self.context_text() && k == kind,
    {
        Err(Error::BmffParseIn(self.context.clone(), kind))
    }

    /// Create a new parser from the given data.
    pub fn new(data: &'a [u8]) -> (r: Self)
        ensures
            r.inv(),
            r.bytes() == data@,
            r.pos() == 0,
            r.context_text() == "BMFF"@,
    {
        Self { data, position: 0, context: String::from_str("BMFF") }
    }

    /// Create a new parser with a specific context.
    pub fn with_context(data: &'a [u8], context: &str) -> (r: Self)
        ensures
            r.inv(),
            r.bytes() == data@,
            r.pos() == 0,
            r.context_text() == context@,
    {
        Self { data, position: 0, context: String::from_str(context) }
    }

    /// Set the diagnostic context.
    pub fn set_context(&mut self, context: &str)
        ensures
            final(self).bytes() == old(self).bytes(),
            final(self).pos() == old(self).pos(),
            final(self).context_text() == context@,
    {
        self.context = String::from_str(context);
    }

    /// Parse the next box: `None` at the end of the data, else the box whose
    /// header starts at the position; the position moves past that box.
    pub fn next_box(&mut self) -> (r: Result<Option<Box>>)
        requires
            old(self).inv(),
        ensures
            final(self).inv(),
            final(self).bytes() == old(self).bytes(),
            final(self).context_text() == old(self).context_text(),
            match box_at(old(self).bytes(), old(self).pos()) {
                Err(e) => (r matches Err(x) && reported(x, Failure::In(old(self).context_text(), e)))
                    && final(self).pos() == old(self).pos(),
                Ok(None) => r matches Ok(None) && final(self).pos() == old(self).pos(),
                Ok(Some(l)) => (r matches Ok(Some(b)) && b.is_box_at(l, old(self).bytes(), old(self).pos()))
                    && final(self).pos() == old(self).pos() + l.size,
            },
    {
        let d = self.data;
        let p = self.position;
        let len = d.len();
        if p >= len {
            return Ok(None);
        }
        if len - p < 8 {
            return self.error_here(BmffError::NotEnoughDataForHeader);
        }
        let size = be32_at(d, p) as u64;
        let box_type = BoxType([d[p + 4], d[p + 5], d[p + 6], d[p + 7]]);
        assert(box_type.0@ =~= d@.subrange(p + 4, p + 8));
        let mut header_size: usize = 8;
        let mut extended_type: Option<[u8; 16]> = None;
        let mut version: Option<u8> = None;
        let mut flags: Option<u32> = None;
        let mut box_size = size;
        if size == 1 {
            if len - p < 16 {
                return self.error_here(BmffError::NotEnoughDataForExtendedSize);
            }
            box_size = be64_at(d, p + 8);
            header_size = 16;
        }
        if same_code(&box_type.0, &UUID) {
            if len - p < header_size + 16 {
                return self.error_here(BmffError::NotEnoughDataForUuid);
            }
            let q = p + header_size;
            let uuid: [u8; 16] = [
                d[q], d[q + 1], d[q + 2], d[q + 3], d[q + 4], d[q + 5], d[q + 6], d[q + 7],
                d[q + 8], d[q + 9], d[q + 10], d[q + 11], d[q + 12], d[q + 13], d[q + 14], d[q + 15],
            ];
            assert(uuid@ =~= d@.subrange(q as int, q + 16));
            extended_type = Some(uuid);
            header_size = header_size + 16;
        }
        if is_full_box_code(&box_type.0) {
            if len - p < header_size + 4 {
                return self.error_here(BmffError::NotEnoughDataForFullBox);
            }
            let q = p + header_size;
            let flags_value = (d[q + 1] as u32) * 65536 + (d[q + 2] as u32) * 256 + d[q + 3] as u32;
            version = Some(d[q]);
            flags = Some(flags_value);
            header_size = header_size + 4;
        }
        if box_size == 0 {
            box_size = (len - p) as u64;
        } else if box_size < header_size as u64 {
            return self.error_here(BmffError::BoxSmallerThanHeader(box_size, header_size));
        } else if box_size > (len - p) as u64 {
            return self.error_here(BmffError::BoxBeyondEnd);
        }
        let header = BoxHeader { size: box_size, box_type, extended_type, version, flags };
        let data_start = p + header_size;
        let data_end = p + box_size as usize;
        let data = Buffer::from_slice(slice_subrange(d, data_start, data_end));
        self.position = data_end;
        Ok(Some(Box { header, data }))
    }

    /// Parse the next box and check that it has the given four-character type.
    fn expect_box(&mut self, expected: &[u8; 4]) -> (r: Result<Box>)
        requires
            old(self).inv(),
        ensures
            final(self).inv(),
            final(self).bytes() == old(self).bytes(),
            final(self).context_text() == old(self).context_text(),
            match box_at(old(self).bytes(), old(self).pos()) {
                Err(e) => (r matches Err(x) && reported(x, Failure::In(old(self).context_text(), e)))
                    && final(self).pos() == old(self).pos(),
                Ok(None) => (r matches Err(Error::BmffParseIn(c, BmffError::NoMoreBoxes(x))) && c@ == old(
                    self,
                ).context_text() && x@ == expected@) && final(self).pos() == old(self).pos(),
                Ok(Some(l)) => final(self).pos() == old(self).pos() + l.size && if l.box_type
                    == expected@ {
                    r matches Ok(b) && b.is_box_at(l, old(self).bytes(), old(self).pos())
                } else {
                    r matches Err(Error::BmffParseIn(c, BmffError::UnexpectedBoxType(x, t))) && c@ == old(
                        self,
                    ).context_text() && x@ == expected@ && t@ == l.box_type
                },
            },
    {
        match self.next_box()? {
            Some(b) => {
                if !same_code(&b.header.box_type.0, expected) {
                    return self.error_here(BmffError::UnexpectedBoxType(slice_to_vec(expected.as_slice()), b.header.box_type.0));
                }
                Ok(b)
            },
            None => self.error_here(BmffError::NoMoreBoxes(slice_to_vec(expected.as_slice()))),
        }
    }

    /// Parse a specific box type.
    pub fn parse_box(&mut self, expected_type: &str) -> (r: Result<Box>)
        requires
            old(self).inv(),
        ensures
            final(self).inv(),
            final(self).bytes() == old(self).bytes(),
            final(self).context_text() == old(self).context_text(),
            match box_at(old(self).bytes(), old(self).pos()) {
                Err(e) => (r matches Err(x) && reported(x, Failure::In(old(self).context_text(), e)))
                    && final(self).pos() == old(self).pos(),
                Ok(None) => (r matches Err(Error::BmffParseIn(c, BmffError::NoMoreBoxes(x))) && c@ == old(
                    self,
                ).context_text() && x@ == expected_type.spec_bytes()) && final(self).pos() == old(self).pos(),
                Ok(Some(l)) => final(self).pos() == old(self).pos() + l.size && if l.box_type
                    == expected_type.spec_bytes() {
                    r matches Ok(b) && b.is_box_at(l, old(self).bytes(), old(self).pos())
                } else {
                    r matches Err(Error::BmffParseIn(c, BmffError::UnexpectedBoxType(x, t))) && c@ == old(
                        self,
                    ).context_text() && x@ == expected_type.spec_bytes() && t@ == l.box_type
                },
            },
    {
        match self.next_box()? {
            Some(b) => {
                if !b.header.box_type.matches(expected_type) {
                    return self.error_here(BmffError::UnexpectedBoxType(slice_to_vec(expected_type.as_bytes()), b.header.box_type.0));
                }
                Ok(b)
            },
            None => self.error_here(BmffError::NoMoreBoxes(slice_to_vec(expected_type.as_bytes()))),
        }
    }

    /// Parse a file type box.
    pub fn parse_ftyp(&mut self) -> (r: Result<FileTypeBox>)
        requires
            old(self).inv(),
        ensures
            final(self).inv(),
            final(self).bytes() == old(self).bytes(),
            final(self).context_text() == old(self).context_text(),
            typed_parse(old(self).bytes(), old(self).pos(), old(self).context_text(), FTYP@, |pl: Seq<u8>| FileTypeBox::outcome(pl),
                |b: FileTypeBox, pl: Seq<u8>| b.parsed_from(pl), r, final(self).pos()),
    {
        let b = self.expect_box(&FTYP)?;
        FileTypeBox::parse(b.data.as_slice())
    }

    /// Parse a handler box.
    pub fn parse_hdlr(&mut self) -> (r: Result<HandlerBox>)
        requires
            old(self).inv(),
        ensures
            final(self).inv(),
            final(self).bytes() == old(self).bytes(),
            final(self).context_text() == old(self).context_text(),
            typed_parse(old(self).bytes(), old(self).pos(), old(self).context_text(), HDLR@, |pl: Seq<u8>| HandlerBox::outcome(pl),
                |b: HandlerBox, pl: Seq<u8>| b.parsed_from(pl), r, final(self).pos()),
    {
        let b = self.expect_box(&HDLR)?;
        HandlerBox::parse(b.data.as_slice())
    }

    /// Parse an item info box.
    pub fn parse_iinf(&mut self) -> (r: Result<ItemInfoBox>)
        requires
            old(self).inv(),
        ensures
            final(self).inv(),
            final(self).bytes() == old(self).bytes(),
            final(self).context_text() == old(self).context_text(),
            typed_parse(old(self).bytes(), old(self).pos(), old(self).context_text(), IINF@, |pl: Seq<u8>| ItemInfoBox::outcome(pl),
                |b: ItemInfoBox, pl: Seq<u8>| b.parsed_from(pl), r, final(self).pos()),
    {
        let b = self.expect_box(&IINF)?;
        ItemInfoBox::parse(b.data.as_slice())
    }

    /// Parse an item location box.
    pub fn parse_iloc(&mut self) -> (r: Result<ItemLocationBox>)
        requires
            old(self).inv(),
        ensures
            final(self).inv(),
            final(self).bytes() == old(self).bytes(),
            final(self).context_text() == old(self).context_text(),
            typed_parse(old(self).bytes(), old(self).pos(), old(self).context_text(), ILOC@, |pl: Seq<u8>| ItemLocationBox::outcome(pl),
                |b: ItemLocationBox, pl: Seq<u8>| b.parsed_from(pl), r, final(self).pos()),
    {
        let b = self.expect_box(&ILOC)?;
        ItemLocationBox::parse(b.data.as_slice())
    }

    /// Parse an image spatial extents box.
    pub fn parse_ispe(&mut self) -> (r: Result<ImageSpatialExtentsBox>)
        requires
            old(self).inv(),
        ensures
            final(self).inv(),
            final(self).bytes() == old(self).bytes(),
            final(self).context_text() == old(self).context_text(),
            typed_parse(old(self).bytes(), old(self).pos(), old(self).context_text(), ISPE@, |pl: Seq<u8>| ImageSpatialExtentsBox::outcome(pl),
                |b: ImageSpatialExtentsBox, pl: Seq<u8>| b.parsed_from(pl), r, final(self).pos()),
    {
        let b = self.expect_box(&ISPE)?;
        ImageSpatialExtentsBox::parse(b.data.as_slice())
    }

    /// Parse a pixel information box.
    pub fn parse_pixi(&mut self) -> (r: Result<PixelInformationBox>)
        requires
            old(self).inv(),
        ensures
            final(self).inv(),
            final(self).bytes() == old(self).bytes(),
            final(self).context_text() == old(self).context_text(),
            typed_parse(old(self).bytes(), old(self).pos(), old(self).context_text(), PIXI@, |pl: Seq<u8>| PixelInformationBox::outcome(pl),
                |b: PixelInformationBox, pl: Seq<u8>| b.parsed_from(pl), r, final(self).pos()),
    {
        let b = self.expect_box(&PIXI)?;
        PixelInformationBox::parse(b.data.as_slice())
    }

    /// Parse a colour information box.
    pub fn parse_colr(&mut self) -> (r: Result<ColourInformationBox>)
        requires
            old(self).inv(),
        ensures
            final(self).inv(),
            final(self).bytes() == old(self).bytes(),
            final(self).context_text() == old(self).context_text(),
            typed_parse(old(self).bytes(), old(self).pos(), old(self).context_text(), COLR@, |pl: Seq<u8>| ColourInformationBox::outcome(pl),
                |b: ColourInformationBox, pl: Seq<u8>| b.parsed_from(pl), r, final(self).pos()),
    {
        let b = self.expect_box(&COLR)?;
        ColourInformationBox::parse(b.data.as_slice())
    }

    /// Parse an AV1 configuration box.
    pub fn parse_av1c(&mut self) -> (r: Result<AV1ConfigurationBox>)
        requires
            old(self).inv(),
        ensures
            final(self).inv(),
            final(self).bytes() == old(self).bytes(),
            final(self).context_text() == old(self).context_text(),
            typed_parse(old(self).bytes(), old(self).pos(), old(self).context_text(), AV1C@, |pl: Seq<u8>| AV1ConfigurationBox::outcome(pl),
                |b: AV1ConfigurationBox, pl: Seq<u8>| b.parsed_from(pl), r, final(self).pos()),
    {
        let b = self.expect_box(&AV1C)?;
        AV1ConfigurationBox::parse(b.data.as_slice())
    }

    /// Parse a primary item box.
    pub fn parse_pitm(&mut self) -> (r: Result<PrimaryItemBox>)
        requires
            old(self).inv(),
        ensures
            final(self).inv(),
            final(self).bytes() == old(self).bytes(),
            final(self).context_text() == old(self).context_text(),
            typed_parse(old(self).bytes(), old(self).pos(), old(self).context_text(), PITM@, |pl: Seq<u8>| PrimaryItemBox::outcome(pl),
                |b: PrimaryItemBox, pl: Seq<u8>| b.parsed_from(pl), r, final(self).pos()),
    {
        let b = self.expect_box(&PITM)?;
        PrimaryItemBox::parse(b.data.as_slice())
    }

    /// Reset the parser to the beginning of the data.
    pub fn reset(&mut self)
        ensures
            final(self).inv(),
            final(self).bytes() == old(self).bytes(),
            final(self).context_text() == old(self).context_text(),
            final(self).pos() == 0,
    {
        self.position = 0;
    }

    /// Get the current position of the parser.
    pub fn position(&self) -> (r: usize)
        ensures
            r == self.pos(),
    {
        self.position
    }

    /// Set the position of the parser.
    pub fn set_position(&mut self, position: usize) -> (r: Result<()>)
        requires
            old(self).inv(),
        ensures
            final(self).inv(),
            final(self).bytes() == old(self).bytes(),
            final(self).context_text() == old(self).context_text(),
            position <= old(self).bytes().len() ==> r is Ok && final(self).pos() == position,
            position > old(self).bytes().len() ==> (r matches Err(
                Error::InvalidParameterIn(c, ParameterError::PositionBeyondEnd),
            ) && c@ == old(self).context_text()) && final(self).pos() == old(self).pos(),
    {
        if position > self.data.len() {
            return Err(Error::InvalidParameterIn(self.context.clone(), ParameterError::PositionBeyondEnd));
        }
        self.position = position;
        Ok(())
    }

    /// Get the remaining data.
    pub fn remaining(&self) -> (r: &'a [u8])
        requires
            self.inv(),
        ensures
            r@ == self.bytes().subrange(self.pos(), self.bytes().len() as int),
    {
        slice_subrange(self.data, self.position, self.data.len())
    }

    /// Check if there is more data to parse.
    pub fn has_more(&self) -> (r: bool)
        ensures
            r == (self.pos() < self.bytes().len()),
    {
        self.position < self.data.len()
    }

    /// Create a sub-parser for a box's data, its context extended by the box type.
    pub fn sub_parser<'b>(&self, box_: &'b Box) -> (r: Parser<'b>)
        ensures
            r.inv(),
            r.bytes() == box_.data@,
            r.pos() == 0,
            r.context_text() == self.context_text() + "."@ + code_text(box_.header.box_type.0@),
    {
        let mut context = self.context.clone();
        context.append(".");
        context.append(box_.header.box_type.as_str());
        Parser { data: box_.data.as_slice(), position: 0, context }
    }

    /// Read version and flags at the position, and enforce that the version
    /// matches the expected value; the position moves past them only then.
    pub fn read_and_enforce_version(&mut self, enforced_version: u8) -> (r: Result<u32>)
        requires
            old(self).inv(),
        ensures
            final(self).inv(),
            final(self).bytes() == old(self).bytes(),
            final(self).context_text() == old(self).context_text(),
            ({
                let d = old(self).bytes();
                let p = old(self).pos();
                &&& p + 4 > d.len() ==> r == Err::<u32, Error>(eof()) && final(self).pos() == p
                &&& p + 4 <= d.len() && d[p] != enforced_version ==> (r matches Err(
                    Error::BmffParseIn(c, BmffError::VersionMismatch(e, f)),
                ) && c@ == old(self).context_text() && e == enforced_version && f == d[p]) && final(self).pos() == p
                &&& p + 4 <= d.len() && d[p] == enforced_version ==> (r matches Ok(f) && f == be24(d, p + 1))
                    && final(self).pos() == p + 4
            }),
    {
        let mut stream = ReadStream::new(self.data);
        stream.set_position(self.position)?;
        let (version, flags) = stream.read_version_and_flags()?;
        if version != enforced_version {
            return self.error_here(BmffError::VersionMismatch(enforced_version, version));
        }
        self.position = stream.position();
        Ok(flags)
    }
}

/// A box framed by a writer — a zero size and the type after `pre`, then the
/// payload, then the size set to the distance from the marker — parses back
/// from where it starts: the same type and payload, and the size it was given.
#[verifier::spinoff_prover]
#[verifier::rlimit(40)]
pub proof fn lemma_framed_box_parses(pre: Seq<u8>, t: Seq<u8>, payload: Seq<u8>)
    requires
        t.len() == 4,
        t != UUID@,
        !is_full_box_type(t),
        8 + payload.len() < 0x1_0000_0000,
    ensures
        ({
            let p = pre.len() as int;
            let d = overwrite(pre + u32_bytes(0) + t + payload, p, u32_bytes((8 + payload.len()) as int % 0x1_0000_0000));
            &&& box_at(d, p) == Ok::<Option<BoxLayout>, Error>(Some(BoxLayout {
                size: 8 + payload.len() as int,
                box_type: t,
                extended_type: None,
                version: None,
                flags: None,
                header_size: 8,
            }))
            &&& d.subrange(p + 8, p + 8 + payload.len()) == payload
        }),
{
    let p = pre.len() as int;
    let n: int = 8 + payload.len() as int;
    let w = pre + u32_bytes(0) + t + payload;
    let d = overwrite(w, p, u32_bytes(n % 0x1_0000_0000));
    lemma_read_back_u32(w, p, n as u32);
    assert(d =~= pre + u32_bytes(n) + t + payload);
    assert(d.subrange(p + 4, p + 8) =~= t);
    assert(d.subrange(p + 8, p + n) =~= payload);
}

/// The same for a full box: the version and the low 24 bits of the flags that
/// were written come back in the header, and the payload follows them.
#[verifier::spinoff_prover]
#[verifier::rlimit(40)]
pub proof fn lemma_framed_full_box_parses(pre: Seq<u8>, t: Seq<u8>, version: u8, flags: u32, payload: Seq<u8>)
    requires
        t.len() == 4,
        is_full_box_type(t),
        12 + payload.len() < 0x1_0000_0000,
    ensures
        ({
            let p = pre.len() as int;
            let n: int = 12 + payload.len() as int;
            let d = overwrite(pre + u32_bytes(0) + t + version_flags_bytes(version, flags) + payload, p, u32_bytes(n % 0x1_0000_0000));
            &&& box_at(d, p) == Ok::<Option<BoxLayout>, Error>(Some(BoxLayout {
                size: n,
                box_type: t,
                extended_type: None,
                version: Some(version),
                flags: Some((flags % 0x100_0000) as u32),
                header_size: 12,
            }))
            &&& d.subrange(p + 12, p + n) == payload
        }),
{
    let p = pre.len() as int;
    let n: int = 12 + payload.len() as int;
    let vf = version_flags_bytes(version, flags);
    let w = pre + u32_bytes(0) + t + vf + payload;
    let d = overwrite(w, p, u32_bytes(n % 0x1_0000_0000));
    lemma_read_back_u32(w, p, n as u32);
    assert(d =~= pre + u32_bytes(n) + t + vf + payload);
    assert(d.subrange(p + 4, p + 8) =~= t);
    assert(t != UUID@) by {
        assert(UUID@ =~= seq![0x75u8, 0x75u8, 0x69u8, 0x64u8]);
    }
    assert(d[p + 8] == version);
    assert(d[p + 9] == vf[1] && d[p + 10] == vf[2] && d[p + 11] == vf[3]);
    let f = flags as int;
    assert(((f / 65536) % 256) * 65536 + ((f / 256) % 256) * 256 + f % 256 == f % 0x100_0000) by (nonlinear_arith)
        requires 0 <= f;
    assert(d.subrange(p + 12, p + n) =~= payload);
}

/// A box whose 32-bit size is 1 carries its size in the eight big-endian bytes
/// after its type: such a box parses with that size and a 16-byte header, and
/// its payload follows the header.
pub proof fn lemma_large_size_box_parses(pre: Seq<u8>, t: Seq<u8>, payload: Seq<u8>, rest: Seq<u8>)
    requires
        t.len() == 4,
        t != UUID@,
        !is_full_box_type(t),
        16 + payload.len() <= u64::MAX,
    ensures
        ({
            let p = pre.len() as int;
            let n: int = 16 + payload.len() as int;
            let d = pre + u32_bytes(1) + t + u64_bytes(n) + payload + rest;
            &&& box_at(d, p) == Ok::<Option<BoxLayout>, Error>(Some(BoxLayout {
                size: n,
                box_type: t,
                extended_type: None,
                version: None,
                flags: None,
                header_size: 16,
            }))
            &&& d.subrange(p + 16, p + n) == payload
        }),
{
    let p = pre.len() as int;
    let n: int = 16 + payload.len() as int;
    let d = pre + u32_bytes(1) + t + u64_bytes(n) + payload + rest;
    assert(d.subrange(p, p + 4) =~= u32_bytes(1));
    lemma_u32_at(d, p, 1);
    assert(d.subrange(p + 4, p + 8) =~= t);
    assert(d.subrange(p + 8, p + 16) =~= u64_bytes(n));
    lemma_u64_at(d, p + 8, n as u64);
    assert(d.subrange(p + 16, p + n) =~= payload);
}

/// A `uuid` box carries its sixteen-byte extended type right after its type:
/// such a box parses with that extended type and a 24-byte header, and its
/// payload follows the header.
pub proof fn lemma_uuid_box_parses(pre: Seq<u8>, extended_type: Seq<u8>, payload: Seq<u8>, rest: Seq<u8>)
    requires
        extended_type.len() == 16,
        24 + payload.len() <= u32::MAX,
    ensures
        ({
            let p = pre.len() as int;
            let n: int = 24 + payload.len() as int;
            let d = pre + u32_bytes(n) + UUID@ + extended_type + payload + rest;
            &&& box_at(d, p) == Ok::<Option<BoxLayout>, Error>(Some(BoxLayout {
                size: n,
                box_type: UUID@,
                extended_type: Some(extended_type),
                version: None,
                flags: None,
                header_size: 24,
            }))
            &&& d.subrange(p + 24, p + n) == payload
        }),
{
    let p = pre.len() as int;
    let n: int = 24 + payload.len() as int;
    let d = pre + u32_bytes(n) + UUID@ + extended_type + payload + rest;
    assert(d.subrange(p, p + 4) =~= u32_bytes(n));
    lemma_u32_at(d, p, n as u32);
    assert(d.subrange(p + 4, p + 8) =~= UUID@);
    assert(!is_full_box_type(UUID@)) by {
        assert(UUID@ =~= seq![0x75u8, 0x75u8, 0x69u8, 0x64u8]);
    }
    assert(d.subrange(p + 8, p + 24) =~= extended_type);
    assert(d.subrange(p + 24, p + n) =~= payload);
}

/// AVIF file metadata.
#[derive(Debug)]
pub struct AvifMetadata {
    /// File type box.
    pub ftyp: FileTypeBox,
    /// Primary item ID.
    pub primary_item_id: Option<u32>,
    /// Handler box.
    pub hdlr: Option<HandlerBox>,
    /// Item information box.
    pub iinf: Option<ItemInfoBox>,
    /// Item location box.
    pub iloc: Option<ItemLocationBox>,
    /// Image spatial extents box.
    pub ispe: Option<ImageSpatialExtentsBox>,
    /// Pixel information box.
    pub pixi: Option<PixelInformationBox>,
    /// Colour information box.
    pub colr: Option<ColourInformationBox>,
    /// AV1 configuration box.
    pub av1c: Option<AV1ConfigurationBox>,
}

/// The boxes from `p` to the end of `d`, each read by `box_at` and folded with
/// `step` (which gets the box type and the box data): the first failure (a bad
/// header reported with the context `ctx` of the parser that reads these
/// boxes), else the final value.
pub open spec fn box_walk<A>(
    d: Seq<u8>,
    p: int,
    acc: A,
    step: spec_fn(A, Seq<u8>, Seq<u8>) -> core::result::Result<A, Failure>,
    ctx: Seq<char>,
) -> core::result::Result<A, Failure>
    decreases d.len() - p,
{
    if p < 0 || p >= d.len() {
        Ok(acc)
    } else {
        match box_at(d, p) {
            Err(e) => Err(Failure::In(ctx, e)),
            Ok(None) => Ok(acc),
            Ok(Some(l)) => match step(acc, l.box_type, d.subrange(p + l.header_size, p + l.size)) {
                Err(e) => Err(e),
                Ok(next) => box_walk(d, p + l.size, next, step, ctx),
            },
        }
    }
}

/// The context of a parser for the data of a box of type `t`, made by a parser
/// with context `ctx`.
pub open spec fn sub_context(ctx: Seq<char>, t: Seq<u8>) -> Seq<char> {
    ctx + "."@ + code_text(t)
}

/// The box data of the last box of each kind that an AVIF walk took up.
pub struct AvifAcc {
    /// Data of the last `hdlr` in `meta`.
    pub hdlr: Option<Seq<u8>>,
    /// Data of the last `pitm` in `meta`.
    pub pitm: Option<Seq<u8>>,
    /// Data of the last `iinf` in `meta`.
    pub iinf: Option<Seq<u8>>,
    /// Data of the last `iloc` in `meta`.
    pub iloc: Option<Seq<u8>>,
    /// Data of the last `ispe` property.
    pub ispe: Option<Seq<u8>>,
    /// Data of the last `pixi` property.
    pub pixi: Option<Seq<u8>>,
    /// Data of the last `colr` property.
    pub colr: Option<Seq<u8>>,
    /// Data of the last `av1C` property.
    pub av1c: Option<Seq<u8>>,
}

/// An AVIF walk before any box.
pub open spec fn avif_start() -> AvifAcc {
    AvifAcc { hdlr: None, pitm: None, iinf: None, iloc: None, ispe: None, pixi: None, colr: None, av1c: None }
}

/// Take up `pl` if it parses: a later box replaces an earlier one.
pub open spec fn keep_last(outcome: Result<()>, pl: Seq<u8>) -> core::result::Result<Option<Seq<u8>>, Failure> {
    match outcome {
        Err(e) => Err(Failure::Plain(e)),
        Ok(_) => Ok(Some(pl)),
    }
}

/// One property box in `ipco`.
pub open spec fn property_step(a: AvifAcc, t: Seq<u8>, pl: Seq<u8>) -> core::result::Result<AvifAcc, Failure> {
    if t == ISPE@ {
        match keep_last(ImageSpatialExtentsBox::outcome(pl), pl) {
            Err(e) => Err(e),
            Ok(s) => Ok(AvifAcc { ispe: s, ..a }),
        }
    } else if t == PIXI@ {
        match keep_last(PixelInformationBox::outcome(pl), pl) {
            Err(e) => Err(e),
            Ok(s) => Ok(AvifAcc { pixi: s, ..a }),
        }
    } else if t == COLR@ {
        match keep_last(ColourInformationBox::outcome(pl), pl) {
            Err(e) => Err(e),
            Ok(s) => Ok(AvifAcc { colr: s, ..a }),
        }
    } else if t == AV1C@ {
        match keep_last(AV1ConfigurationBox::outcome(pl), pl) {
            Err(e) => Err(e),
            Ok(s) => Ok(AvifAcc { av1c: s, ..a }),
        }
    } else {
        Ok(a)
    }
}

/// `property_step` as a value.
pub open spec fn property_step_fn() -> spec_fn(AvifAcc, Seq<u8>, Seq<u8>) -> core::result::Result<AvifAcc, Failure> {
    |a: AvifAcc, t: Seq<u8>, pl: Seq<u8>| property_step(a, t, pl)
}

/// The data of an `iprp` box, read by a parser with context `ctx`: only its
/// first box is read, and its properties are walked when it is an `ipco`.
pub open spec fn iprp_contents(pl: Seq<u8>, a: AvifAcc, ctx: Seq<char>) -> core::result::Result<AvifAcc, Failure> {
    match box_at(pl, 0) {
        Err(e) => Err(Failure::In(ctx, e)),
        Ok(None) => Ok(a),
        Ok(Some(l)) => if l.box_type == IPCO@ {
            box_walk(pl.subrange(l.header_size, l.size), 0, a, property_step_fn(), sub_context(ctx, IPCO@))
        } else {
            Ok(a)
        },
    }
}

/// One box in `meta`, read by a parser with context `ctx`.
pub open spec fn meta_item_step(a: AvifAcc, t: Seq<u8>, pl: Seq<u8>, ctx: Seq<char>) -> core::result::Result<AvifAcc, Failure> {
    if t == HDLR@ {
        match keep_last(HandlerBox::outcome(pl), pl) {
            Err(e) => Err(e),
            Ok(s) => Ok(AvifAcc { hdlr: s, ..a }),
        }
    } else if t == PITM@ {
        match keep_last(PrimaryItemBox::outcome(pl), pl) {
            Err(e) => Err(e),
            Ok(s) => Ok(AvifAcc { pitm: s, ..a }),
        }
    } else if t == ILOC@ {
        match keep_last(ItemLocationBox::outcome(pl), pl) {
            Err(e) => Err(e),
            Ok(s) => Ok(AvifAcc { iloc: s, ..a }),
        }
    } else if t == IINF@ {
        match keep_last(ItemInfoBox::outcome(pl), pl) {
            Err(e) => Err(e),
            Ok(s) => Ok(AvifAcc { iinf: s, ..a }),
        }
    } else if t == IPRP@ {
        iprp_contents(pl, a, sub_context(ctx, IPRP@))
    } else {
        Ok(a)
    }
}

/// `meta_item_step` as a value.
pub open spec fn meta_item_step_fn(ctx: Seq<char>) -> spec_fn(AvifAcc, Seq<u8>, Seq<u8>) -> core::result::Result<AvifAcc, Failure> {
    |a: AvifAcc, t: Seq<u8>, pl: Seq<u8>| meta_item_step(a, t, pl, ctx)
}

/// The data of a `meta` box, read by a parser with context `ctx`: a version
/// (which must be 0) and flags, then boxes.
pub open spec fn meta_contents(pl: Seq<u8>, a: AvifAcc, ctx: Seq<char>) -> core::result::Result<AvifAcc, Failure> {
    if pl.len() < 4 {
        Err(Failure::Plain(eof()))
    } else if pl[0] != 0 {
        Err(Failure::In(ctx, bmff(BmffError::VersionMismatch(0, pl[0]))))
    } else {
        box_walk(pl, 4, a, meta_item_step_fn(ctx), ctx)
    }
}

/// The context of the parser of a file.
pub open spec fn file_context() -> Seq<char> {
    "BMFF"@
}

/// One top-level box after `ftyp`: only `meta` is read.
pub open spec fn top_step(a: AvifAcc, t: Seq<u8>, pl: Seq<u8>) -> core::result::Result<AvifAcc, Failure> {
    if t == META@ {
        meta_contents(pl, a, sub_context(file_context(), META@))
    } else {
        Ok(a)
    }
}

/// `top_step` as a value.
pub open spec fn top_step_fn() -> spec_fn(AvifAcc, Seq<u8>, Seq<u8>) -> core::result::Result<AvifAcc, Failure> {
    |a: AvifAcc, t: Seq<u8>, pl: Seq<u8>| top_step(a, t, pl)
}

/// The item ID that a primary item box in `d` names.
pub open spec fn primary_item_of(d: Seq<u8>) -> int {
    if d[0] == 0 { be16(d, 4) } else { be32(d, 4) }
}

/// The file type box data `pl` names `avif` or `avis`.
pub open spec fn names_avif(pl: Seq<u8>) -> bool {
    brands_include(pl, AVIF@) || brands_include(pl, AVIS@)
}

impl AvifMetadata {
    /// The optional fields are those parsed from the data that `a` took up.
    pub open spec fn holds(&self, a: AvifAcc) -> bool {
        &&& (self.primary_item_id is Some <==> a.pitm is Some)
        &&& (self.primary_item_id matches Some(id) ==> id == primary_item_of(a.pitm->0))
        &&& (self.hdlr is Some <==> a.hdlr is Some)
        &&& (self.hdlr matches Some(b) ==> b.parsed_from(a.hdlr->0))
        &&& (self.iinf is Some <==> a.iinf is Some)
        &&& (self.iinf matches Some(b) ==> b.parsed_from(a.iinf->0))
        &&& (self.iloc is Some <==> a.iloc is Some)
        &&& (self.iloc matches Some(b) ==> b.parsed_from(a.iloc->0))
        &&& (self.ispe is Some <==> a.ispe is Some)
        &&& (self.ispe matches Some(b) ==> b.parsed_from(a.ispe->0))
        &&& (self.pixi is Some <==> a.pixi is Some)
        &&& (self.pixi matches Some(b) ==> b.parsed_from(a.pixi->0))
        &&& (self.colr is Some <==> a.colr is Some)
        &&& (self.colr matches Some(b) ==> b.parsed_from(a.colr->0))
        &&& (self.av1c is Some <==> a.av1c is Some)
        &&& (self.av1c matches Some(b) ==> b.parsed_from(a.av1c->0))
    }
}

/// What `parse_avif` gives for `d`: the error of the first box, which must be
/// a file type box naming `avif` or `avis` (else `NotAvif`); then the walk over
/// the remaining boxes, whose properties come from the `meta` boxes. Errors of
/// box headers and box types carry the context of the parser that found them.
pub open spec fn avif_parsed(d: Seq<u8>, r: Result<AvifMetadata>) -> bool {
    match box_at(d, 0) {
        Err(e) => r matches Err(x) && reported(x, Failure::In(file_context(), e)),
        Ok(None) => r matches Err(Error::BmffParseIn(c, BmffError::NoMoreBoxes(x))) && c@ == file_context() && x@ == FTYP@,
        Ok(Some(l)) => if l.box_type != FTYP@ {
            r matches Err(Error::BmffParseIn(c, BmffError::UnexpectedBoxType(x, t))) && c@ == file_context()
                && x@ == FTYP@ && t@ == l.box_type
        } else {
            let pl = d.subrange(l.header_size, l.size);
            match FileTypeBox::outcome(pl) {
                Err(e) => r == Err::<AvifMetadata, Error>(e),
                Ok(_) => if !names_avif(pl) {
                    r matches Err(Error::BmffParse(BmffError::NotAvif(b))) && b@ == pl.subrange(0, 4)
                } else {
                    match box_walk(d, l.size, avif_start(), top_step_fn(), file_context()) {
                        Err(f) => r matches Err(x) && reported(x, f),
                        Ok(a) => r matches Ok(m) && m.ftyp.parsed_from(pl) && m.holds(a),
                    }
                },
            }
        },
    }
}

/// Read the property boxes of an `ipco` box.
fn read_properties(parser: &mut Parser, m: &mut AvifMetadata, Ghost(acc): Ghost<AvifAcc>) -> (r: Result<()>)
    requires
        old(parser).inv(),
        old(m).holds(acc),
    ensures
        final(m).ftyp == old(m).ftyp,
        match box_walk(old(parser).bytes(), old(parser).pos(), acc, property_step_fn(), old(parser).context_text()) {
            Err(f) => r matches Err(x) && reported(x, f),
            Ok(a) => r is Ok && final(m).holds(a),
        },
{
    let ghost d = parser.bytes();
    let ghost mut a = acc;
    while parser.has_more()
        invariant
            parser.inv(),
            parser.bytes() == d,
            d == old(parser).bytes(),
            m.ftyp == old(m).ftyp,
            m.holds(a),
            parser.context_text() == old(parser).context_text(),
            box_walk(d, old(parser).pos(), acc, property_step_fn(), parser.context_text()) == box_walk(
                d,
                parser.pos(),
                a,
                property_step_fn(),
                parser.context_text(),
            ),
        decreases d.len() - parser.pos(),
    {
        let ghost p = parser.pos();
        proof { lemma_box_at_bounds(d, p); }
        let b = match parser.next_box()? {
            Some(b) => b,
            None => { return Ok(()); },
        };
        let t = b.header.box_type.0;
        let ghost pl = b.data@;
        if same_code(&t, &ISPE) {
            m.ispe = Some(ImageSpatialExtentsBox::parse(b.data.as_slice())?);
            proof { a = AvifAcc { ispe: Some(pl), ..a }; }
        } else if same_code(&t, &PIXI) {
            m.pixi = Some(PixelInformationBox::parse(b.data.as_slice())?);
            proof { a = AvifAcc { pixi: Some(pl), ..a }; }
        } else if same_code(&t, &COLR) {
            m.colr = Some(ColourInformationBox::parse(b.data.as_slice())?);
            proof { a = AvifAcc { colr: Some(pl), ..a }; }
        } else if same_code(&t, &AV1C) {
            m.av1c = Some(AV1ConfigurationBox::parse(b.data.as_slice())?);
            proof { a = AvifAcc { av1c: Some(pl), ..a }; }
        }
    }
    Ok(())
}

/// Read the boxes of a `meta` box after its version and flags.
fn read_meta_items(parser: &mut Parser, m: &mut AvifMetadata, Ghost(acc): Ghost<AvifAcc>) -> (r: Result<()>)
    requires
        old(parser).inv(),
        old(m).holds(acc),
    ensures
        final(m).ftyp == old(m).ftyp,
        match box_walk(
            old(parser).bytes(),
            old(parser).pos(),
            acc,
            meta_item_step_fn(old(parser).context_text()),
            old(parser).context_text(),
        ) {
            Err(f) => r matches Err(x) && reported(x, f),
            Ok(a) => r is Ok && final(m).holds(a),
        },
{
    let ghost d = parser.bytes();
    let ghost mut a = acc;
    while parser.has_more()
        invariant
            parser.inv(),
            parser.bytes() == d,
            d == old(parser).bytes(),
            m.ftyp == old(m).ftyp,
            m.holds(a),
            parser.context_text() == old(parser).context_text(),
            box_walk(d, old(parser).pos(), acc, meta_item_step_fn(parser.context_text()), parser.context_text())
                == box_walk(d, parser.pos(), a, meta_item_step_fn(parser.context_text()), parser.context_text()),
        decreases d.len() - parser.pos(),
    {
        let ghost p = parser.pos();
        proof { lemma_box_at_bounds(d, p); }
        let b = match parser.next_box()? {
            Some(b) => b,
            None => { return Ok(()); },
        };
        let t = b.header.box_type.0;
        let ghost pl = b.data@;
        if same_code(&t, &HDLR) {
            m.hdlr = Some(HandlerBox::parse(b.data.as_slice())?);
            proof { a = AvifAcc { hdlr: Some(pl), ..a }; }
        } else if same_code(&t, &PITM) {
            let pitm = PrimaryItemBox::parse(b.data.as_slice())?;
            m.primary_item_id = Some(pitm.item_id);
            proof { a = AvifAcc { pitm: Some(pl), ..a }; }
        } else if same_code(&t, &ILOC) {
            m.iloc = Some(ItemLocationBox::parse(b.data.as_slice())?);
            proof { a = AvifAcc { iloc: Some(pl), ..a }; }
        } else if same_code(&t, &IINF) {
            m.iinf = Some(ItemInfoBox::parse(b.data.as_slice())?);
            proof { a = AvifAcc { iinf: Some(pl), ..a }; }
        } else if same_code(&t, &IPRP) {
            let mut iprp_parser = parser.sub_parser(&b);
            proof { lemma_box_at_bounds(pl, 0); }
            if let Some(ipco_box) = iprp_parser.next_box()? {
                if same_code(&ipco_box.header.box_type.0, &IPCO) {
                    let mut ipco_parser = iprp_parser.sub_parser(&ipco_box);
                    read_properties(&mut ipco_parser, m, Ghost(a))?;
                    proof { a = iprp_contents(pl, a, sub_context(parser.context_text(), IPRP@))->Ok_0; }
                }
            }
        }
    }
    Ok(())
}

/// Read a `meta` box: version 0 is enforced, then its boxes are read.
fn read_meta(parser: &Parser, b: &Box, m: &mut AvifMetadata, Ghost(acc): Ghost<AvifAcc>) -> (r: Result<()>)
    requires
        old(m).holds(acc),
    ensures
        final(m).ftyp == old(m).ftyp,
        match meta_contents(b.data@, acc, sub_context(parser.context_text(), b.header.box_type.0@)) {
            Err(f) => r matches Err(x) && reported(x, f),
            Ok(a) => r is Ok && final(m).holds(a),
        },
{
    let mut meta_parser = parser.sub_parser(b);
    let _flags = meta_parser.read_and_enforce_version(0)?;
    read_meta_items(&mut meta_parser, m, Ghost(acc))
}

/// Parse an AVIF file.
///
/// This function parses an AVIF file and returns the metadata.
/// It also validates that the file is a valid AVIF file.
pub fn parse_avif(data: &[u8]) -> (r: Result<AvifMetadata>)
    ensures
        avif_parsed(data@, r),
{
    let ghost d = data@;
    let mut parser = Parser::new(data);
    proof { lemma_box_at_bounds(d, 0); }
    let ftyp = parser.parse_ftyp()?;
    let ghost l = box_at(d, 0)->Ok_0->Some_0;
    let ghost fpl = d.subrange(l.header_size, l.size);
    proof {
        lemma_has_brand(&ftyp, fpl, AVIF@);
        lemma_has_brand(&ftyp, fpl, AVIS@);
    }
    if !ftyp.is_avif() {
        return Err(Error::BmffParse(BmffError::NotAvif(ftyp.major_brand)));
    }
    let mut m = AvifMetadata {
        ftyp,
        primary_item_id: None,
        hdlr: None,
        iinf: None,
        iloc: None,
        ispe: None,
        pixi: None,
        colr: None,
        av1c: None,
    };
    let ghost mut a = avif_start();
    while parser.has_more()
        invariant
            parser.inv(),
            parser.bytes() == d,
            d == data@,
            box_at(d, 0) == Ok::<Option<BoxLayout>, Error>(Some(l)),
            l.box_type == FTYP@,
            fpl == d.subrange(l.header_size, l.size),
            FileTypeBox::outcome(fpl) is Ok,
            names_avif(fpl),
            m.ftyp.parsed_from(fpl),
            m.holds(a),
            parser.context_text() == file_context(),
            box_walk(d, l.size, avif_start(), top_step_fn(), file_context()) == box_walk(
                d,
                parser.pos(),
                a,
                top_step_fn(),
                file_context(),
            ),
        decreases d.len() - parser.pos(),
    {
        let ghost p = parser.pos();
        proof { lemma_box_at_bounds(d, p); }
        let b = match parser.next_box()? {
            Some(b) => b,
            None => { return Ok(m); },
        };
        let ghost pl = b.data@;
        if same_code(&b.header.box_type.0, &META) {
            read_meta(&parser, &b, &mut m, Ghost(a))?;
            proof { a = meta_contents(pl, a, sub_context(file_context(), META@))->Ok_0; }
        }
    }
    Ok(m)
}


/// Every box header from `p` to the end of `d` can be read and fits.
pub open spec fn boxes_ok(d: Seq<u8>, p: int) -> bool
    decreases d.len() - p,
{
    if p < 0 || p >= d.len() {
        true
    } else {
        match box_at(d, p) {
            Err(_) => false,
            Ok(None) => true,
            Ok(Some(l)) => boxes_ok(d, p + l.size),
        }
    }
}

/// A walk over boxes that succeeds has read only good box headers.
pub proof fn lemma_box_walk_headers<A>(
    d: Seq<u8>,
    p: int,
    acc: A,
    step: spec_fn(A, Seq<u8>, Seq<u8>) -> core::result::Result<A, Failure>,
    ctx: Seq<char>,
)
    ensures
        box_walk(d, p, acc, step, ctx) is Ok ==> boxes_ok(d, p),
    decreases d.len() - p,
{
    if 0 <= p < d.len() {
        lemma_box_at_bounds(d, p);
        if let Ok(Some(l)) = box_at(d, p) {
            if let Ok(next) = step(acc, l.box_type, d.subrange(p + l.header_size, p + l.size)) {
                lemma_box_walk_headers(d, p + l.size, next, step, ctx);
            }
        }
    }
}

/// What `parse_avif` accepts: a file whose first box is a file type box that
/// parses and names `avif` or `avis`, the metadata's file type box parsed from
/// it, and every later top-level box header good. A file without a first box,
/// or whose first box is not `ftyp`, is refused with a BMFF error; one whose
/// file type box parses but names neither brand with `NotAvif`; one with a bad
/// top-level box header is refused.
pub proof fn lemma_parse_avif_accepts(d: Seq<u8>, r: Result<AvifMetadata>)
    requires
        avif_parsed(d, r),
    ensures
        r matches Ok(m) ==> box_at(d, 0) matches Ok(Some(l)) && {
            let pl = d.subrange(l.header_size, l.size);
            &&& l.box_type == FTYP@
            &&& FileTypeBox::outcome(pl) is Ok
            &&& names_avif(pl)
            &&& m.ftyp.parsed_from(pl)
            &&& m.ftyp.spec_has_brand(AVIF@) || m.ftyp.spec_has_brand(AVIS@)
        },
        !boxes_ok(d, 0) ==> r is Err,
        !(box_at(d, 0) matches Ok(Some(l)) && l.box_type == FTYP@) ==> (r matches Err(x) && is_bmff_error(x)),
        box_at(d, 0) matches Ok(Some(l)) && l.box_type == FTYP@ && FileTypeBox::outcome(d.subrange(l.header_size, l.size)) is Ok
            && !names_avif(d.subrange(l.header_size, l.size)) ==> r matches Err(Error::BmffParse(BmffError::NotAvif(_))),
{
    lemma_box_at_bounds(d, 0);
    if let Ok(Some(l)) = box_at(d, 0) {
        let pl = d.subrange(l.header_size, l.size);
        lemma_box_walk_headers(d, l.size, avif_start(), top_step_fn(), file_context());
        if let Ok(m) = r {
            lemma_has_brand(&m.ftyp, pl, AVIF@);
            lemma_has_brand(&m.ftyp, pl, AVIS@);
        }
    }
}

} // verus!
