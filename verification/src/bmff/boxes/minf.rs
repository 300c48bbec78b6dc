//! Media Information Box implementation.
//!
//! The Media Information Box (`minf`) contains objects that declare characteristic
//! information about the media data within the track.

use vstd::prelude::*;
use crate::bmff::children::{child_count, headers_ok, is_code, lemma_walk_headers, lemma_walk_once, lemma_walk_presence, read_child_header, take_once, walk};
use crate::bmff::fourcc::{same_code, DINF, DREF, SMHD, STBL, VMHD};
use crate::error::{bmff, eof, BmffError, Error, Result};
use crate::io::{be16, be24, be32, lemma_u16_at, signed16, u16_bytes, ReadStream};
use super::stbl::SampleTableBox;

verus! {

/// Media Information Box.
#[derive(Debug)]
pub struct MediaInformationBox {
    /// Video Media Header Box.
    pub vmhd: Option<VideoMediaHeaderBox>,
    /// Sound Media Header Box.
    pub smhd: Option<SoundMediaHeaderBox>,
    /// Data Information Box.
    pub dinf: Option<DataInformationBox>,
    /// Sample Table Box.
    pub stbl: Option<SampleTableBox>,
}

/// Video Media Header Box.
#[derive(Debug)]
pub struct VideoMediaHeaderBox {
    /// Version.
    pub version: u8,
    /// Flags.
    pub flags: u32,
    /// Graphics mode.
    pub graphics_mode: u16,
    /// Opcolor.
    pub opcolor: [u16; 3],
}

/// Sound Media Header Box.
#[derive(Debug)]
pub struct SoundMediaHeaderBox {
    /// Version.
    pub version: u8,
    /// Flags.
    pub flags: u32,
    /// Balance.
    pub balance: i16,
}

/// Data Information Box.
#[derive(Debug)]
pub struct DataInformationBox {
    /// Data Reference Box.
    pub dref: DataReferenceBox,
}

/// Data Reference Box.
#[derive(Debug)]
pub struct DataReferenceBox {
    /// Version.
    pub version: u8,
    /// Flags.
    pub flags: u32,
    /// Data references.
    pub entries: Vec<DataReferenceEntry>,
}

/// Data Reference Entry.
#[derive(Debug)]
pub struct DataReferenceEntry {
    /// Entry type.
    pub entry_type: [u8; 4],
    /// Version.
    pub version: u8,
    /// Flags.
    pub flags: u32,
    /// Data.
    pub data: Vec<u8>,
}

impl VideoMediaHeaderBox {
    /// Whether `d` parses as a video media header box, and else the error.
    pub open spec fn outcome(d: Seq<u8>) -> Result<()> {
        if d.len() < 12 { Err(eof()) } else { Ok(()) }
    }

    /// The fields are those that `d` holds: version, flags, graphics mode and
    /// the three components of the opcolor.
    pub open spec fn parsed_from(&self, d: Seq<u8>) -> bool {
        &&& self.version == d[0]
        &&& self.flags == be24(d, 1)
        &&& self.graphics_mode == be16(d, 4)
        &&& self.opcolor@ == seq![be16(d, 6) as u16, be16(d, 8) as u16, be16(d, 10) as u16]
    }

    /// Parse a video media header box from a buffer.
    pub fn parse(data: &[u8]) -> (r: Result<Self>)
        ensures
            match Self::outcome(data@) {
                Ok(_) => r matches Ok(b) && b.parsed_from(data@),
                Err(e) => r == Err::<Self, Error>(e),
            },
    {
        let mut stream = ReadStream::new(data);
        let version = stream.read_u8()?;
        let flags = stream.read_u24()?;
        let graphics_mode = stream.read_u16()?;
        let red = stream.read_u16()?;
        let green = stream.read_u16()?;
        let blue = stream.read_u16()?;
        let opcolor = [red, green, blue];
        assert(opcolor@ =~= seq![red, green, blue]);
        Ok(Self { version, flags, graphics_mode, opcolor })
    }
}

impl SoundMediaHeaderBox {
    /// Whether `d` parses as a sound media header box, and else the error.
    pub open spec fn outcome(d: Seq<u8>) -> Result<()> {
        if d.len() < 8 { Err(eof()) } else { Ok(()) }
    }

    /// The fields are those that `d` holds: version, flags and the signed
    /// balance, which two reserved bytes follow.
    pub open spec fn parsed_from(&self, d: Seq<u8>) -> bool {
        &&& self.version == d[0]
        &&& self.flags == be24(d, 1)
        &&& self.balance == signed16(be16(d, 4))
    }

    /// Parse a sound media header box from a buffer.
    pub fn parse(data: &[u8]) -> (r: Result<Self>)
        ensures
            match Self::outcome(data@) {
                Ok(_) => r matches Ok(b) && b.parsed_from(data@),
                Err(e) => r == Err::<Self, Error>(e),
            },
    {
        let mut stream = ReadStream::new(data);
        let version = stream.read_u8()?;
        let flags = stream.read_u24()?;
        let balance = stream.read_i16()?;
        stream.skip(2)?;
        Ok(Self { version, flags, balance })
    }
}

/// The data reference entry at `p`, with where the next one starts. An entry
/// declares its size, then has a type, a version and flags, and `size - 8`
/// bytes of data after those: it spans `size + 4` bytes.
pub open spec fn dref_entry_at(d: Seq<u8>, p: int) -> Result<int> {
    if d.len() - p < 4 {
        Err(eof())
    } else if be32(d, p) < 8 {
        Err(bmff(BmffError::InvalidEntrySize))
    } else if d.len() - p < 12 {
        Err(eof())
    } else if d.len() - (p + 12) < be32(d, p) - 8 {
        Err(eof())
    } else {
        Ok(p + 4 + be32(d, p))
    }
}

/// The starts of `n` data reference entries from `p`.
pub open spec fn dref_entries(d: Seq<u8>, p: int, n: nat) -> Result<Seq<int>>
    decreases n,
{
    if n == 0 {
        Ok(Seq::empty())
    } else {
        match dref_entry_at(d, p) {
            Err(e) => Err(e),
            Ok(end) => match dref_entries(d, end, (n - 1) as nat) {
                Err(x) => Err(x),
                Ok(rest) => Ok(seq![p] + rest),
            },
        }
    }
}

impl DataReferenceEntry {
    /// This is the entry of `d` that starts at `p`.
    pub open spec fn is(&self, p: int, d: Seq<u8>) -> bool {
        &&& self.entry_type@ == d.subrange(p + 4, p + 8)
        &&& self.version == d[p + 8]
        &&& self.flags == be24(d, p + 9)
        &&& self.data@ == d.subrange(p + 12, p + 4 + be32(d, p))
    }
}

/// Read one data reference entry.
fn read_dref_entry(stream: &mut ReadStream) -> (r: Result<DataReferenceEntry>)
    requires
        old(stream).inv(),
    ensures
        final(stream).inv(),
        final(stream).bytes() == old(stream).bytes(),
        match dref_entry_at(old(stream).bytes(), old(stream).pos()) {
            Err(e) => r == Err::<DataReferenceEntry, Error>(e),
            Ok(end) => (r matches Ok(x) && x.is(old(stream).pos(), old(stream).bytes())) && final(stream).pos() == end,
        },
{
    let entry_size = stream.read_u32()?;
    if entry_size < 8 {
        return Err(Error::BmffParse(BmffError::InvalidEntrySize));
    }
    let entry_type = stream.read_code()?;
    let version = stream.read_u8()?;
    let flags = stream.read_u24()?;
    let data = stream.read_exact_buffer((entry_size - 8) as usize)?;
    Ok(DataReferenceEntry { entry_type, version, flags, data })
}

impl DataReferenceBox {
    /// Whether `d` parses as a data reference box, and else the error.
    pub open spec fn outcome(d: Seq<u8>) -> Result<()> {
        if d.len() < 8 {
            Err(eof())
        } else {
            match dref_entries(d, 8, be32(d, 4) as nat) {
                Err(e) => Err(e),
                Ok(_) => Ok(()),
            }
        }
    }

    /// The fields are those that `d` holds: version, flags and the entries.
    pub open spec fn parsed_from(&self, d: Seq<u8>) -> bool {
        &&& self.version == d[0]
        &&& self.flags == be24(d, 1)
        &&& dref_entries(d, 8, be32(d, 4) as nat) matches Ok(ps) && self.entries@.len() == ps.len()
            && forall|i: int| 0 <= i < ps.len() ==> #[trigger] self.entries@[i].is(ps[i], d)
    }

    /// Parse a data reference box from a buffer.
    pub fn parse(data: &[u8]) -> (r: Result<Self>)
        ensures
            match Self::outcome(data@) {
                Ok(_) => r matches Ok(b) && b.parsed_from(data@),
                Err(e) => r == Err::<Self, Error>(e),
            },
    {
        let mut stream = ReadStream::new(data);
        let version = stream.read_u8()?;
        let flags = stream.read_u24()?;
        let entry_count = stream.read_u32()?;
        let ghost d = data@;
        let ghost mut done: Seq<int> = Seq::empty();
        let mut entries: Vec<DataReferenceEntry> = Vec::new();
        let mut i: u32 = 0;
        while i < entry_count
            invariant
                stream.inv(),
                stream.bytes() == d,
                d == data@,
                d.len() >= 8,
                entry_count == be32(d, 4),
                i <= entry_count,
                dref_entries(d, 8, entry_count as nat) == match dref_entries(d, stream.pos(), (entry_count - i) as nat) {
                    Err(e) => Err(e),
                    Ok(rest) => Ok(done + rest),
                },
                entries@.len() == done.len(),
                forall|j: int| 0 <= j < done.len() ==> #[trigger] entries@[j].is(done[j], d),
            decreases entry_count - i,
        {
            let ghost p = stream.pos();
            let entry = read_dref_entry(&mut stream)?;
            proof {
                let end = dref_entry_at(d, p)->Ok_0;
                let rest = dref_entries(d, end, (entry_count - i - 1) as nat);
                match rest {
                    Ok(x) => {
                        assert(done + (seq![p] + x) =~= done.push(p) + x);
                    },
                    Err(_) => {},
                }
                done = done.push(p);
            }
            entries.push(entry);
            i = i + 1;
        }
        Ok(Self { version, flags, entries })
    }
}

/// One child box of a data information box.
pub open spec fn dinf_step(a: Option<Seq<u8>>, t: Seq<u8>, pl: Seq<u8>) -> Result<Option<Seq<u8>>> {
    if t == DREF@ {
        take_once(a, DREF, DataReferenceBox::outcome(pl), pl)
    } else {
        Ok(a)
    }
}

/// `dinf_step` as a value.
pub open spec fn dinf_step_fn() -> spec_fn(Option<Seq<u8>>, Seq<u8>, Seq<u8>) -> Result<Option<Seq<u8>>> {
    |a: Option<Seq<u8>>, t: Seq<u8>, pl: Seq<u8>| dinf_step(a, t, pl)
}

impl DataInformationBox {
    /// The payload of the `dref` child of the data information box in `d`.
    pub open spec fn children(d: Seq<u8>) -> Result<Option<Seq<u8>>> {
        walk(d, 0, None, dinf_step_fn(), false)
    }

    /// Whether `d` parses as a data information box, and else the error.
    pub open spec fn outcome(d: Seq<u8>) -> Result<()> {
        match Self::children(d) {
            Err(e) => Err(e),
            Ok(None) => Err(bmff(BmffError::MissingBox(DREF))),
            Ok(Some(_)) => Ok(()),
        }
    }

    /// The data reference box is the one its `dref` child holds.
    pub open spec fn parsed_from(&self, d: Seq<u8>) -> bool {
        Self::children(d) matches Ok(Some(pl)) && self.dref.parsed_from(pl)
    }

    /// Parse a data information box from a buffer.
    pub fn parse(data: &[u8]) -> (r: Result<Self>)
        ensures
            match Self::outcome(data@) {
                Ok(_) => r matches Ok(b) && b.parsed_from(data@),
                Err(e) => r == Err::<Self, Error>(e),
            },
    {
        let mut stream = ReadStream::new(data);
        let mut dref: Option<DataReferenceBox> = None;
        let ghost d = data@;
        let ghost mut acc: Option<Seq<u8>> = None;
        while stream.has_more()
            invariant
                stream.inv(),
                stream.bytes() == d,
                d == data@,
                Self::children(d) == walk(d, stream.pos(), acc, dinf_step_fn(), false),
                (dref is Some <==> acc is Some),
                (dref matches Some(b) ==> b.parsed_from(acc->0)),
            decreases d.len() - stream.pos(),
        {
            let ghost p = stream.pos();
            let (box_type, data_size) = read_child_header(&mut stream)?;
            let ghost pl = d.subrange(p + 8, p + 8 + data_size);
            if same_code(&box_type, &DREF) {
                if dref.is_some() {
                    return Err(Error::BmffParse(BmffError::DuplicateBox(DREF)));
                }
                let box_data = stream.read_exact_buffer(data_size)?;
                dref = Some(DataReferenceBox::parse(box_data.as_slice())?);
                proof { acc = Some(pl); }
            } else {
                stream.skip(data_size)?;
            }
        }
        match dref {
            Some(dref) => Ok(Self { dref }),
            None => Err(Error::BmffParse(BmffError::MissingBox(DREF))),
        }
    }
}

/// The payloads of the child boxes of a media information box that have been
/// taken up.
pub struct MinfAcc {
    /// Payload of `vmhd`.
    pub vmhd: Option<Seq<u8>>,
    /// Payload of `smhd`.
    pub smhd: Option<Seq<u8>>,
    /// Payload of `dinf`.
    pub dinf: Option<Seq<u8>>,
    /// Payload of `stbl`.
    pub stbl: Option<Seq<u8>>,
}

/// One child box of a media information box.
pub open spec fn minf_step(a: MinfAcc, t: Seq<u8>, pl: Seq<u8>) -> Result<MinfAcc> {
    if t == VMHD@ {
        match take_once(a.vmhd, VMHD, VideoMediaHeaderBox::outcome(pl), pl) {
            Err(e) => Err(e),
            Ok(s) => Ok(MinfAcc { vmhd: s, ..a }),
        }
    } else if t == SMHD@ {
        match take_once(a.smhd, SMHD, SoundMediaHeaderBox::outcome(pl), pl) {
            Err(e) => Err(e),
            Ok(s) => Ok(MinfAcc { smhd: s, ..a }),
        }
    } else if t == DINF@ {
        match take_once(a.dinf, DINF, DataInformationBox::outcome(pl), pl) {
            Err(e) => Err(e),
            Ok(s) => Ok(MinfAcc { dinf: s, ..a }),
        }
    } else if t == STBL@ {
        match take_once(a.stbl, STBL, SampleTableBox::outcome(pl), pl) {
            Err(e) => Err(e),
            Ok(s) => Ok(MinfAcc { stbl: s, ..a }),
        }
    } else {
        Ok(a)
    }
}

/// `minf_step` as a value.
pub open spec fn minf_step_fn() -> spec_fn(MinfAcc, Seq<u8>, Seq<u8>) -> Result<MinfAcc> {
    |a: MinfAcc, t: Seq<u8>, pl: Seq<u8>| minf_step(a, t, pl)
}

impl MediaInformationBox {
    /// The child boxes of the media information box in `d`, walked.
    pub open spec fn children(d: Seq<u8>) -> Result<MinfAcc> {
        walk(d, 0, MinfAcc { vmhd: None, smhd: None, dinf: None, stbl: None }, minf_step_fn(), false)
    }

    /// Whether `d` parses as a media information box, and else the error.
    pub open spec fn outcome(d: Seq<u8>) -> Result<()> {
        match Self::children(d) {
            Err(e) => Err(e),
            Ok(_) => Ok(()),
        }
    }

    /// The child boxes are those parsed from the payloads of `a`.
    pub open spec fn holds(&self, a: MinfAcc) -> bool {
        &&& (self.vmhd is Some <==> a.vmhd is Some)
        &&& (self.vmhd matches Some(b) ==> b.parsed_from(a.vmhd->0))
        &&& (self.smhd is Some <==> a.smhd is Some)
        &&& (self.smhd matches Some(b) ==> b.parsed_from(a.smhd->0))
        &&& (self.dinf is Some <==> a.dinf is Some)
        &&& (self.dinf matches Some(b) ==> b.parsed_from(a.dinf->0))
        &&& (self.stbl is Some <==> a.stbl is Some)
        &&& (self.stbl matches Some(b) ==> b.parsed_from(a.stbl->0))
    }

    /// The fields are those that `d` holds.
    pub open spec fn parsed_from(&self, d: Seq<u8>) -> bool {
        Self::children(d) matches Ok(a) && self.holds(a)
    }

    /// Parse a media information box from a buffer.
    pub fn parse(data: &[u8]) -> (r: Result<Self>)
        ensures
            match Self::outcome(data@) {
                Ok(_) => r matches Ok(b) && b.parsed_from(data@),
                Err(e) => r == Err::<Self, Error>(e),
            },
    {
        let mut stream = ReadStream::new(data);
        let mut m = MediaInformationBox { vmhd: None, smhd: None, dinf: None, stbl: None };
        let ghost d = data@;
        let ghost mut acc = MinfAcc { vmhd: None, smhd: None, dinf: None, stbl: None };
        while stream.has_more()
            invariant
                stream.inv(),
                stream.bytes() == d,
                d == data@,
                Self::children(d) == walk(d, stream.pos(), acc, minf_step_fn(), false),
                m.holds(acc),
            decreases d.len() - stream.pos(),
        {
            let ghost p = stream.pos();
            let (box_type, data_size) = read_child_header(&mut stream)?;
            let ghost pl = d.subrange(p + 8, p + 8 + data_size);
            if same_code(&box_type, &VMHD) {
                if m.vmhd.is_some() {
                    return Err(Error::BmffParse(BmffError::DuplicateBox(VMHD)));
                }
                let box_data = stream.read_exact_buffer(data_size)?;
                m.vmhd = Some(VideoMediaHeaderBox::parse(box_data.as_slice())?);
                proof { acc = MinfAcc { vmhd: Some(pl), ..acc }; }
            } else if same_code(&box_type, &SMHD) {
                if m.smhd.is_some() {
                    return Err(Error::BmffParse(BmffError::DuplicateBox(SMHD)));
                }
                let box_data = stream.read_exact_buffer(data_size)?;
                m.smhd = Some(SoundMediaHeaderBox::parse(box_data.as_slice())?);
                proof { acc = MinfAcc { smhd: Some(pl), ..acc }; }
            } else if same_code(&box_type, &DINF) {
                if m.dinf.is_some() {
                    return Err(Error::BmffParse(BmffError::DuplicateBox(DINF)));
                }
                let box_data = stream.read_exact_buffer(data_size)?;
                m.dinf = Some(DataInformationBox::parse(box_data.as_slice())?);
                proof { acc = MinfAcc { dinf: Some(pl), ..acc }; }
            } else if same_code(&box_type, &STBL) {
                if m.stbl.is_some() {
                    return Err(Error::BmffParse(BmffError::DuplicateBox(STBL)));
                }
                let box_data = stream.read_exact_buffer(data_size)?;
                m.stbl = Some(SampleTableBox::parse(box_data.as_slice())?);
                proof { acc = MinfAcc { stbl: Some(pl), ..acc }; }
            } else {
                stream.skip(data_size)?;
            }
        }
        Ok(m)
    }
}


/// The child boxes of a media information box decide its fields: each of
/// `vmhd`, `smhd`, `dinf` and `stbl` is present exactly when a child of its
/// type occurs; a second child of one of these types, or a malformed child
/// header, is refused.
pub proof fn lemma_media_information_children(d: Seq<u8>)
    ensures
        MediaInformationBox::outcome(d) is Ok ==> headers_ok(d, 0, false),
        child_count(d, 0, is_code(VMHD@), false) >= 2 ==> MediaInformationBox::outcome(d) is Err,
        child_count(d, 0, is_code(SMHD@), false) >= 2 ==> MediaInformationBox::outcome(d) is Err,
        child_count(d, 0, is_code(DINF@), false) >= 2 ==> MediaInformationBox::outcome(d) is Err,
        child_count(d, 0, is_code(STBL@), false) >= 2 ==> MediaInformationBox::outcome(d) is Err,
        forall|b: MediaInformationBox| #[trigger] b.parsed_from(d) ==> {
            &&& (b.vmhd is Some <==> child_count(d, 0, is_code(VMHD@), false) > 0)
            &&& (b.smhd is Some <==> child_count(d, 0, is_code(SMHD@), false) > 0)
            &&& (b.dinf is Some <==> child_count(d, 0, is_code(DINF@), false) > 0)
            &&& (b.stbl is Some <==> child_count(d, 0, is_code(STBL@), false) > 0)
        },
{
    let f = minf_step_fn();
    let s = MinfAcc { vmhd: None, smhd: None, dinf: None, stbl: None };
    lemma_walk_headers(d, 0, s, f, false);
    lemma_walk_presence(d, 0, s, f, false, is_code(VMHD@), |a: MinfAcc| a.vmhd is Some);
    lemma_walk_once(d, 0, s, f, false, is_code(VMHD@), |a: MinfAcc| a.vmhd is Some);
    lemma_walk_presence(d, 0, s, f, false, is_code(SMHD@), |a: MinfAcc| a.smhd is Some);
    lemma_walk_once(d, 0, s, f, false, is_code(SMHD@), |a: MinfAcc| a.smhd is Some);
    lemma_walk_presence(d, 0, s, f, false, is_code(DINF@), |a: MinfAcc| a.dinf is Some);
    lemma_walk_once(d, 0, s, f, false, is_code(DINF@), |a: MinfAcc| a.dinf is Some);
    lemma_walk_presence(d, 0, s, f, false, is_code(STBL@), |a: MinfAcc| a.stbl is Some);
    lemma_walk_once(d, 0, s, f, false, is_code(STBL@), |a: MinfAcc| a.stbl is Some);
}


/// A video media header holds, after the version and flags, the graphics mode
/// and then the red, green and blue of the operation colour, two big-endian
/// bytes each: a header so written parses and gives back those values.
pub proof fn lemma_vmhd_read_back(header: Seq<u8>, graphics_mode: u16, red: u16, green: u16, blue: u16, rest: Seq<u8>, b: VideoMediaHeaderBox)
    requires
        header.len() == 4,
    ensures
        VideoMediaHeaderBox::outcome(header + u16_bytes(graphics_mode as int) + u16_bytes(red as int)
            + u16_bytes(green as int) + u16_bytes(blue as int) + rest) is Ok,
        b.parsed_from(header + u16_bytes(graphics_mode as int) + u16_bytes(red as int)
            + u16_bytes(green as int) + u16_bytes(blue as int) + rest) ==> {
            &&& b.graphics_mode == graphics_mode
            &&& b.opcolor@ == seq![red, green, blue]
        },
{
    let d = header + u16_bytes(graphics_mode as int) + u16_bytes(red as int)
        + u16_bytes(green as int) + u16_bytes(blue as int) + rest;
    assert(d.subrange(4, 6) =~= u16_bytes(graphics_mode as int));
    assert(d.subrange(6, 8) =~= u16_bytes(red as int));
    assert(d.subrange(8, 10) =~= u16_bytes(green as int));
    assert(d.subrange(10, 12) =~= u16_bytes(blue as int));
    lemma_u16_at(d, 4, graphics_mode);
    lemma_u16_at(d, 6, red);
    lemma_u16_at(d, 8, green);
    lemma_u16_at(d, 10, blue);
}


/// A sound media header holds, after the version and flags, the balance as a
/// two's complement 16-bit number: a header so written parses and gives back
/// that balance, negative ones included.
pub proof fn lemma_smhd_read_back(header: Seq<u8>, balance: i16, rest: Seq<u8>, b: SoundMediaHeaderBox)
    requires
        header.len() == 4,
        rest.len() >= 2,
    ensures
        SoundMediaHeaderBox::outcome(header + u16_bytes(if balance < 0 { balance + 0x10000 } else { balance as int }) + rest) is Ok,
        b.parsed_from(header + u16_bytes(if balance < 0 { balance + 0x10000 } else { balance as int }) + rest)
            ==> b.balance == balance,
{
    let raw: int = if balance < 0 { balance + 0x10000 } else { balance as int };
    let d = header + u16_bytes(raw) + rest;
    assert(d.subrange(4, 6) =~= u16_bytes(raw));
    lemma_u16_at(d, 4, raw as u16);
}

} // verus!
