//! Track Box implementation.
//!
//! The Track Box (`trak`) is a container box for a single track of a presentation.
//! It contains a Track Header Box (`tkhd`) and a Media Box (`mdia`).

use vstd::prelude::*;
use crate::bmff::children::{child_count, headers_ok, is_code, lemma_walk_headers, lemma_walk_once, lemma_walk_presence, read_child_header, take_once, walk};
use crate::bmff::fourcc::{same_code, EDTS, ELST, MDIA, META, TKHD, TREF};
use crate::error::{bmff, eof, BmffError, Error, Result};
use crate::io::{be16, be24, be32, be64, lemma_u16_at, lemma_u32_at, lemma_u32s_bytes_len, lemma_u32s_read_back, lemma_u64_at, signed16, signed32, signed64, u16_bytes, u32_bytes, u32s_bytes, u64_bytes, ReadStream};
use super::mdia::MediaBox;
use super::meta::MetaBox;

verus! {

/// Track Box.
#[derive(Debug)]
pub struct TrackBox {
    /// Track Header Box.
    pub tkhd: TrackHeaderBox,
    /// Media Box.
    pub mdia: Option<MediaBox>,
    /// Edit Box.
    pub edts: Option<EditBox>,
    /// Track Reference Box.
    pub tref: Option<TrackReferenceBox>,
    /// Meta Box.
    pub meta: Option<MetaBox>,
}

/// Track Header Box.
#[derive(Debug)]
pub struct TrackHeaderBox {
    /// Version.
    pub version: u8,
    /// Flags.
    pub flags: u32,
    /// Creation time.
    pub creation_time: u64,
    /// Modification time.
    pub modification_time: u64,
    /// Track ID.
    pub track_id: u32,
    /// Duration.
    pub duration: u64,
    /// Width.
    pub width: u32,
    /// Height.
    pub height: u32,
}

/// Edit Box.
#[derive(Debug)]
pub struct EditBox {
    /// Edit List Box.
    pub elst: EditListBox,
}

/// Edit List Box.
#[derive(Debug)]
pub struct EditListBox {
    /// Version.
    pub version: u8,
    /// Flags.
    pub flags: u32,
    /// Entries.
    pub entries: Vec<EditListEntry>,
}

/// Edit List Entry.
#[derive(Debug)]
pub struct EditListEntry {
    /// Segment duration.
    pub segment_duration: u64,
    /// Media time.
    pub media_time: i64,
    /// Media rate.
    pub media_rate: i16,
    /// Media rate fraction.
    pub media_rate_fraction: i16,
}

/// Track Reference Box.
#[derive(Debug)]
pub struct TrackReferenceBox {
    /// References.
    pub references: Vec<TrackReference>,
}

/// Track Reference.
#[derive(Debug)]
pub struct TrackReference {
    /// Reference type.
    pub reference_type: [u8; 4],
    /// Track IDs.
    pub track_ids: Vec<u32>,
}

impl TrackHeaderBox {
    /// Whether `d` parses as a track header box, and else the error. Version 1
    /// has 64-bit times and duration and takes 96 bytes; the others 84.
    pub open spec fn outcome(d: Seq<u8>) -> Result<()> {
        if d.len() < 4 {
            Err(eof())
        } else if d[0] == 1 && d.len() < 96 {
            Err(eof())
        } else if d[0] != 1 && d.len() < 84 {
            Err(eof())
        } else {
            Ok(())
        }
    }

    /// The fields are those that `d` holds; width and height are the integer
    /// parts of 16.16 fixed-point numbers.
    pub open spec fn parsed_from(&self, d: Seq<u8>) -> bool {
        &&& self.version == d[0]
        &&& self.flags == be24(d, 1)
        &&& if d[0] == 1 {
            &&& self.creation_time == be64(d, 4)
            &&& self.modification_time == be64(d, 12)
            &&& self.track_id == be32(d, 20)
            &&& self.duration == be64(d, 28)
            &&& self.width == be32(d, 88) / 65536
            &&& self.height == be32(d, 92) / 65536
        } else {
            &&& self.creation_time == be32(d, 4)
            &&& self.modification_time == be32(d, 8)
            &&& self.track_id == be32(d, 12)
            &&& self.duration == be32(d, 20)
            &&& self.width == be32(d, 76) / 65536
            &&& self.height == be32(d, 80) / 65536
        }
    }

    /// Parse a track header box from a buffer.
    pub fn parse(data: &[u8]) -> (r: Result<Self>)
        ensures
            match Self::outcome(data@) {
                Ok(_) => r matches Ok(b) && b.parsed_from(data@),
                Err(e) => r == Err::<Self, Error>(e),
            },
    {
        let mut stream = ReadStream::new(data);
        let version = stream.read_u8()?;
        let flags = stream.read_u24()?;
        let (creation_time, modification_time) = if version == 1 {
            let c = stream.read_u64()?;
            let m = stream.read_u64()?;
            (c, m)
        } else {
            let c = stream.read_u32()? as u64;
            let m = stream.read_u32()? as u64;
            (c, m)
        };
        let track_id = stream.read_u32()?;
        stream.skip(4)?;
        let duration = if version == 1 {
            stream.read_u64()?
        } else {
            stream.read_u32()? as u64
        };
        stream.skip(16)?;
        stream.skip(36)?;
        let width_fixed = stream.read_u32()?;
        let height_fixed = stream.read_u32()?;
        let width = width_fixed / 65536;
        let height = height_fixed / 65536;
        Ok(Self { version, flags, creation_time, modification_time, track_id, duration, width, height })
    }
}

impl EditListEntry {
    /// This is entry `i` of an edit list of the given version in `d`: in
    /// version 1 a 64-bit duration and media time (20 bytes an entry), else
    /// 32-bit ones (12 bytes); then rate and rate fraction.
    pub open spec fn is(&self, d: Seq<u8>, version: u8, i: int) -> bool {
        if version == 1 {
            &&& self.segment_duration == be64(d, 8 + 20 * i)
            &&& self.media_time == signed64(be64(d, 16 + 20 * i))
            &&& self.media_rate == signed16(be16(d, 24 + 20 * i))
            &&& self.media_rate_fraction == signed16(be16(d, 26 + 20 * i))
        } else {
            &&& self.segment_duration == be32(d, 8 + 12 * i)
            &&& self.media_time == signed32(be32(d, 12 + 12 * i))
            &&& self.media_rate == signed16(be16(d, 16 + 12 * i))
            &&& self.media_rate_fraction == signed16(be16(d, 18 + 12 * i))
        }
    }
}

impl EditListBox {
    /// Whether `d` parses as an edit list box, and else the error.
    pub open spec fn outcome(d: Seq<u8>) -> Result<()> {
        if d.len() < 8 {
            Err(eof())
        } else if d[0] == 1 && d.len() < 8 + 20 * be32(d, 4) {
            Err(eof())
        } else if d[0] != 1 && d.len() < 8 + 12 * be32(d, 4) {
            Err(eof())
        } else {
            Ok(())
        }
    }

    /// The fields are those that `d` holds.
    pub open spec fn parsed_from(&self, d: Seq<u8>) -> bool {
        &&& self.version == d[0]
        &&& self.flags == be24(d, 1)
        &&& self.entries@.len() == be32(d, 4)
        &&& forall|i: int| 0 <= i < self.entries@.len() ==> #[trigger] self.entries@[i].is(d, d[0], i)
    }

    /// Parse an edit list box from a buffer.
    pub fn parse(data: &[u8]) -> (r: Result<Self>)
        ensures
            match Self::outcome(data@) {
                Ok(_) => r matches Ok(b) && b.parsed_from(data@),
                Err(e) => r == Err::<Self, Error>(e),
            },
    {
        let mut stream = ReadStream::new(data);
        let version = stream.read_u8()?;
        let flags = stream.read_u24()?;
        let entry_count = stream.read_u32()?;
        let ghost d = data@;
        let mut entries: Vec<EditListEntry> = Vec::new();
        let mut i: u32 = 0;
        while i < entry_count
            invariant
                stream.inv(),
                stream.bytes() == d,
                d == data@,
                d.len() >= 8,
                version == d[0],
                entry_count == be32(d, 4),
                i <= entry_count,
                stream.pos() == if version == 1 { 8 + 20 * i } else { 8 + 12 * i },
                entries@.len() == i,
                forall|j: int| 0 <= j < i ==> #[trigger] entries@[j].is(d, version, j),
            decreases entry_count - i,
        {
            let segment_duration = if version == 1 {
                stream.read_u64()?
            } else {
                stream.read_u32()? as u64
            };
            let media_time = if version == 1 {
                stream.read_i64()?
            } else {
                stream.read_i32()? as i64
            };
            let media_rate = stream.read_i16()?;
            let media_rate_fraction = stream.read_i16()?;
            let e = EditListEntry { segment_duration, media_time, media_rate, media_rate_fraction };
            assert(e.is(d, version, i as int));
            entries.push(e);
            i = i + 1;
        }
        Ok(Self { version, flags, entries })
    }
}

/// One child box of an edit box.
pub open spec fn edts_step(a: Option<Seq<u8>>, t: Seq<u8>, pl: Seq<u8>) -> Result<Option<Seq<u8>>> {
    if t == ELST@ {
        take_once(a, ELST, EditListBox::outcome(pl), pl)
    } else {
        Ok(a)
    }
}

/// `edts_step` as a value.
pub open spec fn edts_step_fn() -> spec_fn(Option<Seq<u8>>, Seq<u8>, Seq<u8>) -> Result<Option<Seq<u8>>> {
    |a: Option<Seq<u8>>, t: Seq<u8>, pl: Seq<u8>| edts_step(a, t, pl)
}

impl EditBox {
    /// The payload of the `elst` child of the edit box in `d`.
    pub open spec fn children(d: Seq<u8>) -> Result<Option<Seq<u8>>> {
        walk(d, 0, None, edts_step_fn(), false)
    }

    /// Whether `d` parses as an edit box, and else the error.
    pub open spec fn outcome(d: Seq<u8>) -> Result<()> {
        match Self::children(d) {
            Err(e) => Err(e),
            Ok(None) => Err(bmff(BmffError::MissingBox(ELST))),
            Ok(Some(_)) => Ok(()),
        }
    }

    /// The edit list is the one its `elst` child holds.
    pub open spec fn parsed_from(&self, d: Seq<u8>) -> bool {
        Self::children(d) matches Ok(Some(pl)) && self.elst.parsed_from(pl)
    }

    /// Parse an edit box from a buffer.
    pub fn parse(data: &[u8]) -> (r: Result<Self>)
        ensures
            match Self::outcome(data@) {
                Ok(_) => r matches Ok(b) && b.parsed_from(data@),
                Err(e) => r == Err::<Self, Error>(e),
            },
    {
        let mut stream = ReadStream::new(data);
        let mut elst: Option<EditListBox> = None;
        let ghost d = data@;
        let ghost mut acc: Option<Seq<u8>> = None;
        while stream.has_more()
            invariant
                stream.inv(),
                stream.bytes() == d,
                d == data@,
                Self::children(d) == walk(d, stream.pos(), acc, edts_step_fn(), false),
                (elst is Some <==> acc is Some),
                (elst matches Some(b) ==> b.parsed_from(acc->0)),
            decreases d.len() - stream.pos(),
        {
            let ghost p = stream.pos();
            let (box_type, data_size) = read_child_header(&mut stream)?;
            let ghost pl = d.subrange(p + 8, p + 8 + data_size);
            if same_code(&box_type, &ELST) {
                if elst.is_some() {
                    return Err(Error::BmffParse(BmffError::DuplicateBox(ELST)));
                }
                let box_data = stream.read_exact_buffer(data_size)?;
                elst = Some(EditListBox::parse(box_data.as_slice())?);
                proof { acc = Some(pl); }
            } else {
                stream.skip(data_size)?;
            }
        }
        match elst {
            Some(elst) => Ok(Self { elst }),
            None => Err(Error::BmffParse(BmffError::MissingBox(ELST))),
        }
    }
}

impl TrackReferenceBox {
    /// Whether `d` parses as a track reference box, and else the error. The
    /// first reference takes every track ID up to the end of the box, so the
    /// bytes after its type must be a whole number of IDs.
    pub open spec fn outcome(d: Seq<u8>) -> Result<()> {
        if d.len() == 0 {
            Ok(())
        } else if d.len() < 4 || (d.len() - 4) % 4 != 0 {
            Err(eof())
        } else {
            Ok(())
        }
    }

    /// The fields are those that `d` holds: no reference in an empty box, else
    /// one whose type is the first four bytes and whose IDs are the 32-bit
    /// numbers after them.
    pub open spec fn parsed_from(&self, d: Seq<u8>) -> bool {
        if d.len() == 0 {
            self.references@.len() == 0
        } else {
            &&& self.references@.len() == 1
            &&& self.references@[0].reference_type@ == d.subrange(0, 4)
            &&& self.references@[0].track_ids@.len() == (d.len() - 4) / 4
            &&& forall|i: int| 0 <= i < self.references@[0].track_ids@.len()
                ==> #[trigger] self.references@[0].track_ids@[i] == be32(d, 4 + 4 * i)
        }
    }

    /// Parse a track reference box from a buffer.
    pub fn parse(data: &[u8]) -> (r: Result<Self>)
        ensures
            match Self::outcome(data@) {
                Ok(_) => r matches Ok(b) && b.parsed_from(data@),
                Err(e) => r == Err::<Self, Error>(e),
            },
    {
        let mut stream = ReadStream::new(data);
        let mut references: Vec<TrackReference> = Vec::new();
        let ghost d = data@;
        while stream.has_more()
            invariant
                stream.inv(),
                stream.bytes() == d,
                d == data@,
                references@.len() == 0 ==> stream.pos() == 0,
                references@.len() > 0 ==> stream.pos() == d.len(),
                references@.len() > 0 ==> {
                    &&& references@.len() == 1
                    &&& d.len() >= 4
                    &&& (d.len() - 4) % 4 == 0
                    &&& references@[0].reference_type@ == d.subrange(0, 4)
                    &&& references@[0].track_ids@.len() == (d.len() - 4) / 4
                    &&& forall|i: int| 0 <= i < references@[0].track_ids@.len()
                        ==> #[trigger] references@[0].track_ids@[i] == be32(d, 4 + 4 * i)
                },
            decreases d.len() - stream.pos(),
        {
            let reference_type = stream.read_code()?;
            let mut track_ids: Vec<u32> = Vec::new();
            while stream.has_more()
                invariant
                    stream.inv(),
                    stream.bytes() == d,
                    d == data@,
                    d.len() >= 4,
                    stream.pos() == 4 + 4 * track_ids@.len(),
                    forall|i: int| 0 <= i < track_ids@.len() ==> #[trigger] track_ids@[i] == be32(d, 4 + 4 * i),
                decreases d.len() - stream.pos(),
            {
                let id = stream.read_u32()?;
                track_ids.push(id);
            }
            references.push(TrackReference { reference_type, track_ids });
        }
        Ok(Self { references })
    }
}

/// The payloads of the child boxes of a track box that have been taken up.
pub struct TrakAcc {
    /// Payload of `tkhd`.
    pub tkhd: Option<Seq<u8>>,
    /// Payload of the last `mdia`.
    pub mdia: Option<Seq<u8>>,
    /// Payload of the last `edts`.
    pub edts: Option<Seq<u8>>,
    /// Payload of the last `tref`.
    pub tref: Option<Seq<u8>>,
    /// Payload of the last `meta`.
    pub meta: Option<Seq<u8>>,
}

/// A child box of which a later one replaces an earlier one, if its payload parses.
pub open spec fn take_last(outcome: Result<()>, payload: Seq<u8>) -> Result<Option<Seq<u8>>> {
    match outcome {
        Err(e) => Err(e),
        Ok(_) => Ok(Some(payload)),
    }
}

/// One child box of a track box.
pub open spec fn trak_step(a: TrakAcc, t: Seq<u8>, pl: Seq<u8>) -> Result<TrakAcc> {
    if t == TKHD@ {
        match take_once(a.tkhd, TKHD, TrackHeaderBox::outcome(pl), pl) {
            Err(e) => Err(e),
            Ok(s) => Ok(TrakAcc { tkhd: s, ..a }),
        }
    } else if t == MDIA@ {
        match take_last(MediaBox::outcome(pl), pl) {
            Err(e) => Err(e),
            Ok(s) => Ok(TrakAcc { mdia: s, ..a }),
        }
    } else if t == EDTS@ {
        match take_last(EditBox::outcome(pl), pl) {
            Err(e) => Err(e),
            Ok(s) => Ok(TrakAcc { edts: s, ..a }),
        }
    } else if t == TREF@ {
        match take_last(TrackReferenceBox::outcome(pl), pl) {
            Err(e) => Err(e),
            Ok(s) => Ok(TrakAcc { tref: s, ..a }),
        }
    } else if t == META@ {
        match take_last(MetaBox::outcome(pl), pl) {
            Err(e) => Err(e),
            Ok(s) => Ok(TrakAcc { meta: s, ..a }),
        }
    } else {
        Ok(a)
    }
}

/// `trak_step` as a value.
pub open spec fn trak_step_fn() -> spec_fn(TrakAcc, Seq<u8>, Seq<u8>) -> Result<TrakAcc> {
    |a: TrakAcc, t: Seq<u8>, pl: Seq<u8>| trak_step(a, t, pl)
}

/// A track box before any child box.
pub open spec fn trak_start() -> TrakAcc {
    TrakAcc { tkhd: None, mdia: None, edts: None, tref: None, meta: None }
}

impl TrackBox {
    /// The child boxes of the track box in `d`, walked.
    pub open spec fn children(d: Seq<u8>) -> Result<TrakAcc> {
        walk(d, 0, trak_start(), trak_step_fn(), false)
    }

    /// Whether `d` parses as a track box, and else the error: `tkhd` is required.
    pub open spec fn outcome(d: Seq<u8>) -> Result<()> {
        match Self::children(d) {
            Err(e) => Err(e),
            Ok(a) => if a.tkhd is None {
                Err(bmff(BmffError::MissingBox(TKHD)))
            } else {
                Ok(())
            },
        }
    }

    /// The optional child boxes are those parsed from the payloads of `a`.
    pub open spec fn holds(
        mdia: Option<MediaBox>,
        edts: Option<EditBox>,
        tref: Option<TrackReferenceBox>,
        meta: Option<MetaBox>,
        a: TrakAcc,
    ) -> bool {
        &&& (mdia is Some <==> a.mdia is Some)
        &&& (mdia matches Some(b) ==> b.parsed_from(a.mdia->0))
        &&& (edts is Some <==> a.edts is Some)
        &&& (edts matches Some(b) ==> b.parsed_from(a.edts->0))
        &&& (tref is Some <==> a.tref is Some)
        &&& (tref matches Some(b) ==> b.parsed_from(a.tref->0))
        &&& (meta is Some <==> a.meta is Some)
        &&& (meta matches Some(b) ==> b.parsed_from(a.meta->0))
    }

    /// The fields are those that `d` holds.
    pub open spec fn parsed_from(&self, d: Seq<u8>) -> bool {
        Self::children(d) matches Ok(a) && a.tkhd matches Some(pl) && self.tkhd.parsed_from(pl)
            && Self::holds(self.mdia, self.edts, self.tref, self.meta, a)
    }

    /// Parse a track box from a buffer.
    #[verifier::spinoff_prover]
    pub fn parse(data: &[u8]) -> (r: Result<Self>)
        ensures
            match Self::outcome(data@) {
                Ok(_) => r matches Ok(b) && b.parsed_from(data@),
                Err(e) => r == Err::<Self, Error>(e),
            },
    {
        let mut stream = ReadStream::new(data);
        let mut tkhd: Option<TrackHeaderBox> = None;
        let mut mdia: Option<MediaBox> = None;
        let mut edts: Option<EditBox> = None;
        let mut tref: Option<TrackReferenceBox> = None;
        let mut meta: Option<MetaBox> = None;
        let ghost d = data@;
        let ghost mut acc = trak_start();
        while stream.has_more()
            invariant
                stream.inv(),
                stream.bytes() == d,
                d == data@,
                Self::children(d) == walk(d, stream.pos(), acc, trak_step_fn(), false),
                (tkhd is Some <==> acc.tkhd is Some),
                (tkhd matches Some(b) ==> b.parsed_from(acc.tkhd->0)),
                Self::holds(mdia, edts, tref, meta, acc),
            decreases d.len() - stream.pos(),
        {
            let ghost p = stream.pos();
            let (box_type, data_size) = read_child_header(&mut stream)?;
            let ghost pl = d.subrange(p + 8, p + 8 + data_size);
            if same_code(&box_type, &TKHD) {
                if tkhd.is_some() {
                    return Err(Error::BmffParse(BmffError::DuplicateBox(TKHD)));
                }
                let box_data = stream.read_exact_buffer(data_size)?;
                tkhd = Some(TrackHeaderBox::parse(box_data.as_slice())?);
                proof { acc = TrakAcc { tkhd: Some(pl), ..acc }; }
            } else if same_code(&box_type, &MDIA) {
                let box_data = stream.read_exact_buffer(data_size)?;
                mdia = Some(MediaBox::parse(box_data.as_slice())?);
                proof { acc = TrakAcc { mdia: Some(pl), ..acc }; }
            } else if same_code(&box_type, &EDTS) {
                let box_data = stream.read_exact_buffer(data_size)?;
                edts = Some(EditBox::parse(box_data.as_slice())?);
                proof { acc = TrakAcc { edts: Some(pl), ..acc }; }
            } else if same_code(&box_type, &TREF) {
                let box_data = stream.read_exact_buffer(data_size)?;
                tref = Some(TrackReferenceBox::parse(box_data.as_slice())?);
                proof { acc = TrakAcc { tref: Some(pl), ..acc }; }
            } else if same_code(&box_type, &META) {
                let box_data = stream.read_exact_buffer(data_size)?;
                meta = Some(MetaBox::parse(box_data.as_slice())?);
                proof { acc = TrakAcc { meta: Some(pl), ..acc }; }
            } else {
                stream.skip(data_size)?;
            }
        }
        match tkhd {
            Some(tkhd) => Ok(Self { tkhd, mdia, edts, tref, meta }),
            None => Err(Error::BmffParse(BmffError::MissingBox(TKHD))),
        }
    }
}


/// A track box parses only with exactly one `tkhd` child and well-formed child
/// headers; each of `mdia`, `edts`, `tref` and `meta` is present exactly when a
/// child of its type occurs (the last one is kept).
pub proof fn lemma_track_children(d: Seq<u8>)
    ensures
        TrackBox::outcome(d) is Ok ==> {
            &&& headers_ok(d, 0, false)
            &&& child_count(d, 0, is_code(TKHD@), false) == 1
        },
        forall|b: TrackBox| #[trigger] b.parsed_from(d) ==> {
            &&& (b.mdia is Some <==> child_count(d, 0, is_code(MDIA@), false) > 0)
            &&& (b.edts is Some <==> child_count(d, 0, is_code(EDTS@), false) > 0)
            &&& (b.tref is Some <==> child_count(d, 0, is_code(TREF@), false) > 0)
            &&& (b.meta is Some <==> child_count(d, 0, is_code(META@), false) > 0)
        },
{
    let f = trak_step_fn();
    let s = trak_start();
    lemma_walk_headers(d, 0, s, f, false);
    lemma_walk_presence(d, 0, s, f, false, is_code(TKHD@), |a: TrakAcc| a.tkhd is Some);
    lemma_walk_once(d, 0, s, f, false, is_code(TKHD@), |a: TrakAcc| a.tkhd is Some);
    lemma_walk_presence(d, 0, s, f, false, is_code(MDIA@), |a: TrakAcc| a.mdia is Some);
    lemma_walk_presence(d, 0, s, f, false, is_code(EDTS@), |a: TrakAcc| a.edts is Some);
    lemma_walk_presence(d, 0, s, f, false, is_code(TREF@), |a: TrakAcc| a.tref is Some);
    lemma_walk_presence(d, 0, s, f, false, is_code(META@), |a: TrakAcc| a.meta is Some);
}


/// A version 0 track header holds, after the version and flags, the creation
/// and modification times, the track ID, four reserved bytes and the duration,
/// four big-endian bytes each; 52 bytes later the width and the height, in
/// 16.16 fixed point: a header so written parses and gives back those fields,
/// the width and height as their integer parts.
pub proof fn lemma_tkhd_v0_read_back(
    flags: Seq<u8>,
    creation: u32,
    modification: u32,
    track_id: u32,
    reserved: Seq<u8>,
    duration: u32,
    middle: Seq<u8>,
    width: u32,
    height: u32,
    rest: Seq<u8>,
    b: TrackHeaderBox,
)
    requires
        flags.len() == 3,
        reserved.len() == 4,
        middle.len() == 52,
    ensures
        TrackHeaderBox::outcome(seq![0u8] + flags + u32_bytes(creation as int) + u32_bytes(modification as int)
            + u32_bytes(track_id as int) + reserved + u32_bytes(duration as int) + middle + u32_bytes(width as int)
            + u32_bytes(height as int) + rest) is Ok,
        b.parsed_from(seq![0u8] + flags + u32_bytes(creation as int) + u32_bytes(modification as int)
            + u32_bytes(track_id as int) + reserved + u32_bytes(duration as int) + middle + u32_bytes(width as int)
            + u32_bytes(height as int) + rest) ==> {
            &&& b.version == 0
            &&& b.creation_time == creation
            &&& b.modification_time == modification
            &&& b.track_id == track_id
            &&& b.duration == duration
            &&& b.width == width >> 16u32
            &&& b.height == height >> 16u32
        },
{
    let d = seq![0u8] + flags + u32_bytes(creation as int) + u32_bytes(modification as int)
        + u32_bytes(track_id as int) + reserved + u32_bytes(duration as int) + middle + u32_bytes(width as int)
        + u32_bytes(height as int) + rest;
    assert(d[0] == 0);
    assert(d.subrange(4, 8) =~= u32_bytes(creation as int));
    assert(d.subrange(8, 12) =~= u32_bytes(modification as int));
    assert(d.subrange(12, 16) =~= u32_bytes(track_id as int));
    assert(d.subrange(20, 24) =~= u32_bytes(duration as int));
    assert(d.subrange(76, 80) =~= u32_bytes(width as int));
    assert(d.subrange(80, 84) =~= u32_bytes(height as int));
    lemma_u32_at(d, 4, creation);
    lemma_u32_at(d, 8, modification);
    lemma_u32_at(d, 12, track_id);
    lemma_u32_at(d, 20, duration);
    lemma_u32_at(d, 76, width);
    lemma_u32_at(d, 80, height);
    assert(width / 65536 == width >> 16u32) by (bit_vector);
    assert(height / 65536 == height >> 16u32) by (bit_vector);
}

/// A version 1 track header holds, after the version and flags, the creation
/// and modification times in eight big-endian bytes each, the track ID in four,
/// four reserved bytes and the duration in eight; 52 bytes later the width and
/// the height, in 16.16 fixed point: a header so written parses and gives back
/// those fields, the width and height as their integer parts.
pub proof fn lemma_tkhd_v1_read_back(
    flags: Seq<u8>,
    creation: u64,
    modification: u64,
    track_id: u32,
    reserved: Seq<u8>,
    duration: u64,
    middle: Seq<u8>,
    width: u32,
    height: u32,
    rest: Seq<u8>,
    b: TrackHeaderBox,
)
    requires
        flags.len() == 3,
        reserved.len() == 4,
        middle.len() == 52,
    ensures
        TrackHeaderBox::outcome(seq![1u8] + flags + u64_bytes(creation as int) + u64_bytes(modification as int)
            + u32_bytes(track_id as int) + reserved + u64_bytes(duration as int) + middle + u32_bytes(width as int)
            + u32_bytes(height as int) + rest) is Ok,
        b.parsed_from(seq![1u8] + flags + u64_bytes(creation as int) + u64_bytes(modification as int)
            + u32_bytes(track_id as int) + reserved + u64_bytes(duration as int) + middle + u32_bytes(width as int)
            + u32_bytes(height as int) + rest) ==> {
            &&& b.version == 1
            &&& b.creation_time == creation
            &&& b.modification_time == modification
            &&& b.track_id == track_id
            &&& b.duration == duration
            &&& b.width == width >> 16u32
            &&& b.height == height >> 16u32
        },
{
    let d = seq![1u8] + flags + u64_bytes(creation as int) + u64_bytes(modification as int)
        + u32_bytes(track_id as int) + reserved + u64_bytes(duration as int) + middle + u32_bytes(width as int)
        + u32_bytes(height as int) + rest;
    assert(d[0] == 1);
    assert(d.subrange(4, 12) =~= u64_bytes(creation as int));
    assert(d.subrange(12, 20) =~= u64_bytes(modification as int));
    assert(d.subrange(20, 24) =~= u32_bytes(track_id as int));
    assert(d.subrange(28, 36) =~= u64_bytes(duration as int));
    assert(d.subrange(88, 92) =~= u32_bytes(width as int));
    assert(d.subrange(92, 96) =~= u32_bytes(height as int));
    lemma_u64_at(d, 4, creation);
    lemma_u64_at(d, 12, modification);
    lemma_u32_at(d, 20, track_id);
    lemma_u64_at(d, 28, duration);
    lemma_u32_at(d, 88, width);
    lemma_u32_at(d, 92, height);
    assert(width / 65536 == width >> 16u32) by (bit_vector);
    assert(height / 65536 == height >> 16u32) by (bit_vector);
}


/// A track reference box holds a reference type and then the referenced track
/// IDs, four big-endian bytes each: a box so written parses and gives back one
/// reference of that type with those IDs, in order.
pub proof fn lemma_tref_read_back(reference_type: Seq<u8>, track_ids: Seq<u32>, b: TrackReferenceBox)
    requires
        reference_type.len() == 4,
    ensures
        TrackReferenceBox::outcome(reference_type + u32s_bytes(track_ids)) is Ok,
        b.parsed_from(reference_type + u32s_bytes(track_ids)) ==> {
            &&& b.references@.len() == 1
            &&& b.references@[0].reference_type@ == reference_type
            &&& b.references@[0].track_ids@ == track_ids
        },
{
    lemma_u32s_bytes_len(track_ids);
    let n = track_ids.len() as int;
    let d = reference_type + u32s_bytes(track_ids);
    assert(d.len() == 4 + 4 * n);
    assert((4 * n) % 4 == 0 && (4 * n) / 4 == n) by (nonlinear_arith);
    assert(d.subrange(0, 4) =~= reference_type);
    assert(d.subrange(4, 4 + 4 * n) =~= u32s_bytes(track_ids));
    if b.parsed_from(d) {
        let ids = b.references@[0].track_ids@;
        assert forall|i: int| 0 <= i < n implies ids[i] == track_ids[i] by {
            lemma_u32s_read_back(d, 4, track_ids, i);
        }
        assert(ids =~= track_ids);
    }
}


/// A version 0 edit list with one entry holds, after the version and flags and
/// the entry count 1, the segment duration and the media time in four
/// big-endian bytes each, then the media rate and its fraction in two each,
/// signed numbers in two's complement: a list so written parses and gives back
/// that entry, negative values included.
pub proof fn lemma_elst_v0_one_entry(
    flags: Seq<u8>,
    duration: u32,
    media_time: i32,
    rate: i16,
    fraction: i16,
    rest: Seq<u8>,
    b: EditListBox,
)
    requires
        flags.len() == 3,
    ensures
        ({
            let d = seq![0u8] + flags + u32_bytes(1) + u32_bytes(duration as int)
                + u32_bytes(if media_time < 0 { media_time + 0x1_0000_0000 } else { media_time as int })
                + u16_bytes(if rate < 0 { rate + 0x10000 } else { rate as int })
                + u16_bytes(if fraction < 0 { fraction + 0x10000 } else { fraction as int }) + rest;
            &&& EditListBox::outcome(d) is Ok
            &&& b.parsed_from(d) ==> {
                &&& b.version == 0
                &&& b.entries@.len() == 1
                &&& b.entries@[0].segment_duration == duration
                &&& b.entries@[0].media_time == media_time
                &&& b.entries@[0].media_rate == rate
                &&& b.entries@[0].media_rate_fraction == fraction
            }
        }),
{
    let t: int = if media_time < 0 { media_time + 0x1_0000_0000 } else { media_time as int };
    let r: int = if rate < 0 { rate + 0x10000 } else { rate as int };
    let f: int = if fraction < 0 { fraction + 0x10000 } else { fraction as int };
    let d = seq![0u8] + flags + u32_bytes(1) + u32_bytes(duration as int) + u32_bytes(t) + u16_bytes(r)
        + u16_bytes(f) + rest;
    assert(d[0] == 0);
    assert(d.subrange(4, 8) =~= u32_bytes(1));
    assert(d.subrange(8, 12) =~= u32_bytes(duration as int));
    assert(d.subrange(12, 16) =~= u32_bytes(t));
    assert(d.subrange(16, 18) =~= u16_bytes(r));
    assert(d.subrange(18, 20) =~= u16_bytes(f));
    lemma_u32_at(d, 4, 1);
    lemma_u32_at(d, 8, duration);
    lemma_u32_at(d, 12, t as u32);
    lemma_u16_at(d, 16, r as u16);
    lemma_u16_at(d, 18, f as u16);
    if b.parsed_from(d) {
        assert(b.entries@[0].is(d, d[0], 0));
    }
}

/// A version 1 edit list with one entry holds, after the version and flags and
/// the entry count 1, the segment duration and the media time in eight
/// big-endian bytes each, then the media rate and its fraction in two each,
/// signed numbers in two's complement: a list so written parses and gives back
/// that entry, negative values included.
pub proof fn lemma_elst_v1_one_entry(
    flags: Seq<u8>,
    duration: u64,
    media_time: i64,
    rate: i16,
    fraction: i16,
    rest: Seq<u8>,
    b: EditListBox,
)
    requires
        flags.len() == 3,
    ensures
        ({
            let d = seq![1u8] + flags + u32_bytes(1) + u64_bytes(duration as int)
                + u64_bytes(if media_time < 0 { media_time + 0x1_0000_0000_0000_0000 } else { media_time as int })
                + u16_bytes(if rate < 0 { rate + 0x10000 } else { rate as int })
                + u16_bytes(if fraction < 0 { fraction + 0x10000 } else { fraction as int }) + rest;
            &&& EditListBox::outcome(d) is Ok
            &&& b.parsed_from(d) ==> {
                &&& b.version == 1
                &&& b.entries@.len() == 1
                &&& b.entries@[0].segment_duration == duration
                &&& b.entries@[0].media_time == media_time
                &&& b.entries@[0].media_rate == rate
                &&& b.entries@[0].media_rate_fraction == fraction
            }
        }),
{
    let t: int = if media_time < 0 { media_time + 0x1_0000_0000_0000_0000 } else { media_time as int };
    let r: int = if rate < 0 { rate + 0x10000 } else { rate as int };
    let f: int = if fraction < 0 { fraction + 0x10000 } else { fraction as int };
    let d = seq![1u8] + flags + u32_bytes(1) + u64_bytes(duration as int) + u64_bytes(t) + u16_bytes(r)
        + u16_bytes(f) + rest;
    assert(d[0] == 1);
    assert(d.subrange(4, 8) =~= u32_bytes(1));
    assert(d.subrange(8, 16) =~= u64_bytes(duration as int));
    assert(d.subrange(16, 24) =~= u64_bytes(t));
    assert(d.subrange(24, 26) =~= u16_bytes(r));
    assert(d.subrange(26, 28) =~= u16_bytes(f));
    lemma_u32_at(d, 4, 1);
    lemma_u64_at(d, 8, duration);
    lemma_u64_at(d, 16, t as u64);
    lemma_u16_at(d, 24, r as u16);
    lemma_u16_at(d, 26, f as u16);
    if b.parsed_from(d) {
        assert(b.entries@[0].is(d, d[0], 0));
    }
}

} // verus!
