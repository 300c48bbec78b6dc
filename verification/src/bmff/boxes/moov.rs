//! Movie Box implementation.
//!
//! The Movie Box (`moov`) is a container box for all the metadata related to a movie.
//! It contains a Movie Header Box (`mvhd`) and one or more Track Boxes (`trak`).

use vstd::prelude::*;
use crate::bmff::children::{child_count, headers_ok, is_code, lemma_walk_counts, lemma_walk_headers, lemma_walk_once, lemma_walk_presence, read_child_header, take_once, walk};
use crate::bmff::fourcc::{same_code, MVHD, TRAK};
use crate::error::{bmff, eof, BmffError, Error, Result};
use crate::io::{be24, be32, be64, lemma_u32_at, lemma_u64_at, u32_bytes, u64_bytes, ReadStream};
use super::trak::TrackBox;

verus! {

/// Movie Box.
#[derive(Debug)]
pub struct MovieBox {
    /// Movie Header Box.
    pub mvhd: MovieHeaderBox,
    /// Track Boxes.
    pub tracks: Vec<TrackBox>,
}

/// Movie Header Box.
#[derive(Debug)]
pub struct MovieHeaderBox {
    /// Version.
    pub version: u8,
    /// Flags.
    pub flags: u32,
    /// Creation time.
    pub creation_time: u64,
    /// Modification time.
    pub modification_time: u64,
    /// Timescale.
    pub timescale: u32,
    /// Duration.
    pub duration: u64,
    /// Next track ID.
    pub next_track_id: u32,
}

impl MovieHeaderBox {
    /// Whether `d` parses as a movie header box, and else the error. Version 1
    /// has 64-bit times and duration and takes 112 bytes; the others 100.
    pub open spec fn outcome(d: Seq<u8>) -> Result<()> {
        if d.len() < 4 {
            Err(eof())
        } else if d[0] == 1 && d.len() < 112 {
            Err(eof())
        } else if d[0] != 1 && d.len() < 100 {
            Err(eof())
        } else {
            Ok(())
        }
    }

    /// The fields are those that `d` holds; rate, volume, the matrix and the
    /// reserved and pre-defined words are passed over.
    pub open spec fn parsed_from(&self, d: Seq<u8>) -> bool {
        &&& self.version == d[0]
        &&& self.flags == be24(d, 1)
        &&& if d[0] == 1 {
            &&& self.creation_time == be64(d, 4)
            &&& self.modification_time == be64(d, 12)
            &&& self.timescale == be32(d, 20)
            &&& self.duration == be64(d, 24)
            &&& self.next_track_id == be32(d, 108)
        } else {
            &&& self.creation_time == be32(d, 4)
            &&& self.modification_time == be32(d, 8)
            &&& self.timescale == be32(d, 12)
            &&& self.duration == be32(d, 16)
            &&& self.next_track_id == be32(d, 96)
        }
    }

    /// Parse a movie header box from a buffer.
    pub fn parse(data: &[u8]) -> (r: Result<Self>)
        ensures
            match Self::outcome(data@) {
                Ok(_) => r matches Ok(b) && b.parsed_from(data@),
                Err(e) => r == Err::<Self, Error>(e),
            },
    {
        let mut stream = ReadStream::new(data);
        let version = stream.read_u8()?;
        let flags = stream.read_u24()?;
        let (creation_time, modification_time) = if version == 1 {
            let c = stream.read_u64()?;
            let m = stream.read_u64()?;
            (c, m)
        } else {
            let c = stream.read_u32()? as u64;
            let m = stream.read_u32()? as u64;
            (c, m)
        };
        let timescale = stream.read_u32()?;
        let duration = if version == 1 {
            stream.read_u64()?
        } else {
            stream.read_u32()? as u64
        };
        let _rate = stream.read_u32()?;
        let _volume = stream.read_u16()?;
        stream.skip(2)?;
        stream.skip(8)?;
        stream.skip(36)?;
        stream.skip(24)?;
        let next_track_id = stream.read_u32()?;
        Ok(Self { version, flags, creation_time, modification_time, timescale, duration, next_track_id })
    }
}

/// The payloads of the `mvhd` and `trak` children of a movie box taken up so far.
pub struct MoovAcc {
    /// Payload of `mvhd`.
    pub mvhd: Option<Seq<u8>>,
    /// Payloads of the `trak` boxes, in order.
    pub tracks: Seq<Seq<u8>>,
}

/// One child box of a movie box.
pub open spec fn moov_step(a: MoovAcc, t: Seq<u8>, pl: Seq<u8>) -> Result<MoovAcc> {
    if t == MVHD@ {
        match take_once(a.mvhd, MVHD, MovieHeaderBox::outcome(pl), pl) {
            Err(e) => Err(e),
            Ok(s) => Ok(MoovAcc { mvhd: s, ..a }),
        }
    } else if t == TRAK@ {
        match TrackBox::outcome(pl) {
            Err(e) => Err(e),
            Ok(_) => Ok(MoovAcc { tracks: a.tracks.push(pl), ..a }),
        }
    } else {
        Ok(a)
    }
}

/// `moov_step` as a value.
pub open spec fn moov_step_fn() -> spec_fn(MoovAcc, Seq<u8>, Seq<u8>) -> Result<MoovAcc> {
    |a: MoovAcc, t: Seq<u8>, pl: Seq<u8>| moov_step(a, t, pl)
}

impl MovieBox {
    /// The child boxes of the movie box in `d`, walked; fewer than eight bytes
    /// at the end are passed over.
    pub open spec fn children(d: Seq<u8>) -> Result<MoovAcc> {
        walk(d, 0, MoovAcc { mvhd: None, tracks: Seq::empty() }, moov_step_fn(), true)
    }

    /// Whether `d` parses as a movie box, and else the error: `mvhd` is required.
    pub open spec fn outcome(d: Seq<u8>) -> Result<()> {
        match Self::children(d) {
            Err(e) => Err(e),
            Ok(a) => if a.mvhd is None {
                Err(bmff(BmffError::MissingBox(MVHD)))
            } else {
                Ok(())
            },
        }
    }

    /// The tracks are those parsed from the payloads `ps`, in order.
    pub open spec fn tracks_are(tracks: Seq<TrackBox>, ps: Seq<Seq<u8>>) -> bool {
        tracks.len() == ps.len() && forall|i: int| 0 <= i < ps.len() ==> #[trigger] tracks[i].parsed_from(ps[i])
    }

    /// The fields are those that `d` holds: the movie header and every track.
    pub open spec fn parsed_from(&self, d: Seq<u8>) -> bool {
        Self::children(d) matches Ok(a) && a.mvhd matches Some(pl) && self.mvhd.parsed_from(pl)
            && Self::tracks_are(self.tracks@, a.tracks)
    }

    /// Parse a movie box from a buffer.
    pub fn parse(data: &[u8]) -> (r: Result<Self>)
        ensures
            match Self::outcome(data@) {
                Ok(_) => r matches Ok(b) && b.parsed_from(data@),
                Err(e) => r == Err::<Self, Error>(e),
            },
    {
        let mut stream = ReadStream::new(data);
        let mut mvhd: Option<MovieHeaderBox> = None;
        let mut tracks: Vec<TrackBox> = Vec::new();
        let ghost d = data@;
        let ghost mut acc = MoovAcc { mvhd: None, tracks: Seq::empty() };
        while stream.has_more() && stream.remaining_bytes() >= 8
            invariant
                stream.inv(),
                stream.bytes() == d,
                d == data@,
                Self::children(d) == walk(d, stream.pos(), acc, moov_step_fn(), true),
                (mvhd is Some <==> acc.mvhd is Some),
                (mvhd matches Some(b) ==> b.parsed_from(acc.mvhd->0)),
                Self::tracks_are(tracks@, acc.tracks),
            decreases d.len() - stream.pos(),
        {
            let ghost p = stream.pos();
            let (box_type, data_size) = read_child_header(&mut stream)?;
            let ghost pl = d.subrange(p + 8, p + 8 + data_size);
            if same_code(&box_type, &MVHD) {
                if mvhd.is_some() {
                    return Err(Error::BmffParse(BmffError::DuplicateBox(MVHD)));
                }
                let box_data = stream.read_exact_buffer(data_size)?;
                mvhd = Some(MovieHeaderBox::parse(box_data.as_slice())?);
                proof { acc = MoovAcc { mvhd: Some(pl), ..acc }; }
            } else if same_code(&box_type, &TRAK) {
                let box_data = stream.read_exact_buffer(data_size)?;
                let track = TrackBox::parse(box_data.as_slice())?;
                tracks.push(track);
                proof { acc = MoovAcc { tracks: acc.tracks.push(pl), ..acc }; }
            } else {
                stream.skip(data_size)?;
            }
        }
        match mvhd {
            Some(mvhd) => Ok(Self { mvhd, tracks }),
            None => Err(Error::BmffParse(BmffError::MissingBox(MVHD))),
        }
    }
}


/// A movie box parses only with exactly one `mvhd` child and well-formed child
/// headers (fewer than eight bytes at the end are passed over); it has one
/// track per `trak` child.
pub proof fn lemma_movie_children(d: Seq<u8>)
    ensures
        MovieBox::outcome(d) is Ok ==> {
            &&& headers_ok(d, 0, true)
            &&& child_count(d, 0, is_code(MVHD@), true) == 1
        },
        forall|b: MovieBox| #[trigger] b.parsed_from(d) ==> b.tracks@.len() == child_count(d, 0, is_code(TRAK@), true),
{
    let f = moov_step_fn();
    let s = MoovAcc { mvhd: None, tracks: Seq::empty() };
    lemma_walk_headers(d, 0, s, f, true);
    lemma_walk_presence(d, 0, s, f, true, is_code(MVHD@), |a: MoovAcc| a.mvhd is Some);
    lemma_walk_once(d, 0, s, f, true, is_code(MVHD@), |a: MoovAcc| a.mvhd is Some);
    lemma_walk_counts(d, 0, s, f, true, is_code(TRAK@), |a: MoovAcc| a.tracks.len() as int);
}


/// A version 0 movie header holds, after the version and flags, the creation
/// and modification times, the timescale and the duration, four big-endian
/// bytes each; 76 bytes later the next track ID: a header so written parses
/// and gives back those fields.
pub proof fn lemma_mvhd_v0_read_back(
    flags: Seq<u8>,
    creation: u32,
    modification: u32,
    timescale: u32,
    duration: u32,
    middle: Seq<u8>,
    next_track_id: u32,
    rest: Seq<u8>,
    b: MovieHeaderBox,
)
    requires
        flags.len() == 3,
        middle.len() == 76,
    ensures
        MovieHeaderBox::outcome(seq![0u8] + flags + u32_bytes(creation as int) + u32_bytes(modification as int)
            + u32_bytes(timescale as int) + u32_bytes(duration as int) + middle + u32_bytes(next_track_id as int) + rest) is Ok,
        b.parsed_from(seq![0u8] + flags + u32_bytes(creation as int) + u32_bytes(modification as int)
            + u32_bytes(timescale as int) + u32_bytes(duration as int) + middle + u32_bytes(next_track_id as int) + rest) ==> {
            &&& b.version == 0
            &&& b.creation_time == creation
            &&& b.modification_time == modification
            &&& b.timescale == timescale
            &&& b.duration == duration
            &&& b.next_track_id == next_track_id
        },
{
    let d = seq![0u8] + flags + u32_bytes(creation as int) + u32_bytes(modification as int)
        + u32_bytes(timescale as int) + u32_bytes(duration as int) + middle + u32_bytes(next_track_id as int) + rest;
    assert(d[0] == 0);
    assert(d.subrange(4, 8) =~= u32_bytes(creation as int));
    assert(d.subrange(8, 12) =~= u32_bytes(modification as int));
    assert(d.subrange(12, 16) =~= u32_bytes(timescale as int));
    assert(d.subrange(16, 20) =~= u32_bytes(duration as int));
    assert(d.subrange(96, 100) =~= u32_bytes(next_track_id as int));
    lemma_u32_at(d, 4, creation);
    lemma_u32_at(d, 8, modification);
    lemma_u32_at(d, 12, timescale);
    lemma_u32_at(d, 16, duration);
    lemma_u32_at(d, 96, next_track_id);
}

/// A version 1 movie header holds, after the version and flags, the creation
/// and modification times in eight big-endian bytes each, the timescale in
/// four and the duration in eight; 76 bytes later the next track ID: a header
/// so written parses and gives back those fields.
pub proof fn lemma_mvhd_v1_read_back(
    flags: Seq<u8>,
    creation: u64,
    modification: u64,
    timescale: u32,
    duration: u64,
    middle: Seq<u8>,
    next_track_id: u32,
    rest: Seq<u8>,
    b: MovieHeaderBox,
)
    requires
        flags.len() == 3,
        middle.len() == 76,
    ensures
        MovieHeaderBox::outcome(seq![1u8] + flags + u64_bytes(creation as int) + u64_bytes(modification as int)
            + u32_bytes(timescale as int) + u64_bytes(duration as int) + middle + u32_bytes(next_track_id as int) + rest) is Ok,
        b.parsed_from(seq![1u8] + flags + u64_bytes(creation as int) + u64_bytes(modification as int)
            + u32_bytes(timescale as int) + u64_bytes(duration as int) + middle + u32_bytes(next_track_id as int) + rest) ==> {
            &&& b.version == 1
            &&& b.creation_time == creation
            &&& b.modification_time == modification
            &&& b.timescale == timescale
            &&& b.duration == duration
            &&& b.next_track_id == next_track_id
        },
{
    let d = seq![1u8] + flags + u64_bytes(creation as int) + u64_bytes(modification as int)
        + u32_bytes(timescale as int) + u64_bytes(duration as int) + middle + u32_bytes(next_track_id as int) + rest;
    assert(d[0] == 1);
    assert(d.subrange(4, 12) =~= u64_bytes(creation as int));
    assert(d.subrange(12, 20) =~= u64_bytes(modification as int));
    assert(d.subrange(20, 24) =~= u32_bytes(timescale as int));
    assert(d.subrange(24, 32) =~= u64_bytes(duration as int));
    assert(d.subrange(108, 112) =~= u32_bytes(next_track_id as int));
    lemma_u64_at(d, 4, creation);
    lemma_u64_at(d, 12, modification);
    lemma_u32_at(d, 20, timescale);
    lemma_u64_at(d, 24, duration);
    lemma_u32_at(d, 108, next_track_id);
}

} // verus!
