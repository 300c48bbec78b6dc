//! Sample Table Box implementation.
//!
//! The Sample Table Box (`stbl`) contains all the time and data indexing of the
//! media samples in a track.

use vstd::prelude::*;
use crate::bmff::children::{child_count, headers_ok, is_code, lemma_walk_counts, lemma_walk_headers, lemma_walk_once, read_child_header, take_once, walk};
use crate::bmff::fourcc::{same_code, AV01, AVC1, CO64, HVC1, MP4A, STCO, STSC, STSD, STSS, STSZ, STTS};
use crate::error::{bmff, eof, BmffError, Error, IoErrorKind, Result};
use crate::io::{be16, be24, be32, be64, lemma_u16_at, lemma_u32_at, lemma_u32_roundtrip, lemma_u32s_bytes_len, lemma_u32s_read_back, lemma_u64s_bytes_len, lemma_u64s_read_back, u16_bytes, u32_bytes, u32s_bytes, u64s_bytes, ReadStream};
use crate::text::{lossy_utf8, utf8_lossy_string};
use vstd::slice::slice_subrange;
use vstd::utf8::{decode_utf8, valid_utf8};

verus! {

/// Sample Table Box.
#[derive(Debug)]
pub struct SampleTableBox {
    /// Sample Description Box.
    pub stsd: Option<SampleDescriptionBox>,
    /// Time to Sample Box.
    pub stts: Option<TimeToSampleBox>,
    /// Sample to Chunk Box.
    pub stsc: Option<SampleToChunkBox>,
    /// Sample Size Box.
    pub stsz: Option<SampleSizeBox>,
    /// Chunk Offset Box.
    pub stco: Option<ChunkOffsetBox>,
    /// Sync Sample Box.
    pub stss: Option<SyncSampleBox>,
}

/// Sample Description Box.
#[derive(Debug)]
pub struct SampleDescriptionBox {
    /// Version.
    pub version: u8,
    /// Flags.
    pub flags: u32,
    /// Sample descriptions.
    pub entries: Vec<SampleDescription>,
}

/// Sample Description.
#[derive(Debug)]
pub enum SampleDescription {
    /// Visual Sample Description.
    Visual(VisualSampleDescription),
    /// Audio Sample Description.
    Audio(AudioSampleDescription),
    /// Unknown Sample Description.
    Unknown {
        /// Sample description type.
        sample_type: [u8; 4],
        /// Sample description data.
        data: Vec<u8>,
    },
}

/// Visual Sample Description.
#[derive(Debug)]
pub struct VisualSampleDescription {
    /// Sample description type.
    pub sample_type: [u8; 4],
    /// Width.
    pub width: u16,
    /// Height.
    pub height: u16,
    /// Horizontal resolution.
    pub horizresolution: u32,
    /// Vertical resolution.
    pub vertresolution: u32,
    /// Frame count.
    pub frame_count: u16,
    /// Compressor name.
    pub compressorname: String,
    /// Depth.
    pub depth: u16,
    /// Configuration boxes.
    pub config_boxes: Vec<ConfigBox>,
}

/// Audio Sample Description.
#[derive(Debug)]
pub struct AudioSampleDescription {
    /// Sample description type.
    pub sample_type: [u8; 4],
    /// Channel count.
    pub channelcount: u16,
    /// Sample size.
    pub samplesize: u16,
    /// Sample rate.
    pub samplerate: u32,
    /// Configuration boxes.
    pub config_boxes: Vec<ConfigBox>,
}

/// Configuration Box.
#[derive(Debug)]
pub struct ConfigBox {
    /// Box type.
    pub box_type: [u8; 4],
    /// Box data.
    pub data: Vec<u8>,
}

/// Time to Sample Box.
#[derive(Debug)]
pub struct TimeToSampleBox {
    /// Version.
    pub version: u8,
    /// Flags.
    pub flags: u32,
    /// Entries.
    pub entries: Vec<TimeToSampleEntry>,
}

/// Time to Sample Entry.
#[derive(Debug)]
pub struct TimeToSampleEntry {
    /// Sample count.
    pub sample_count: u32,
    /// Sample delta.
    pub sample_delta: u32,
}

/// Sample to Chunk Box.
#[derive(Debug)]
pub struct SampleToChunkBox {
    /// Version.
    pub version: u8,
    /// Flags.
    pub flags: u32,
    /// Entries.
    pub entries: Vec<SampleToChunkEntry>,
}

/// Sample to Chunk Entry.
#[derive(Debug)]
pub struct SampleToChunkEntry {
    /// First chunk.
    pub first_chunk: u32,
    /// Samples per chunk.
    pub samples_per_chunk: u32,
    /// Sample description index.
    pub sample_description_index: u32,
}

/// Sample Size Box.
#[derive(Debug)]
pub struct SampleSizeBox {
    /// Version.
    pub version: u8,
    /// Flags.
    pub flags: u32,
    /// Sample size.
    pub sample_size: u32,
    /// Sample count.
    pub sample_count: u32,
    /// Entry sizes.
    pub entry_sizes: Vec<u32>,
}

/// Chunk Offset Box.
#[derive(Debug)]
pub enum ChunkOffsetBox {
    /// 32-bit chunk offsets.
    Stco {
        /// Version.
        version: u8,
        /// Flags.
        flags: u32,
        /// Entries.
        entries: Vec<u32>,
    },
    /// 64-bit chunk offsets.
    Co64 {
        /// Version.
        version: u8,
        /// Flags.
        flags: u32,
        /// Entries.
        entries: Vec<u64>,
    },
}

/// Sync Sample Box.
#[derive(Debug)]
pub struct SyncSampleBox {
    /// Version.
    pub version: u8,
    /// Flags.
    pub flags: u32,
    /// Entries.
    pub entries: Vec<u32>,
}

// ---------------------------------------------------------------------------
// Tables of fixed-size entries: version, flags, a 32-bit count, then the entries.

/// Whether a table of `width`-byte entries parses from `d`, and else the error.
pub open spec fn table_outcome(d: Seq<u8>, width: int) -> Result<()> {
    if d.len() < 8 {
        Err(eof())
    } else if d.len() < 8 + width * be32(d, 4) {
        Err(eof())
    } else {
        Ok(())
    }
}

/// Read `count` 32-bit numbers.
fn read_u32_table(stream: &mut ReadStream, count: u32) -> (r: Result<Vec<u32>>)
    requires
        old(stream).inv(),
    ensures
        final(stream).inv(),
        final(stream).bytes() == old(stream).bytes(),
        old(stream).pos() + 4 * count <= old(stream).bytes().len() ==> (r matches Ok(v) && v@.len() == count
            && forall|i: int| 0 <= i < count ==> #[trigger] v@[i] == be32(old(stream).bytes(), old(stream).pos() + 4 * i))
            && final(stream).pos() == old(stream).pos() + 4 * count,
        old(stream).pos() + 4 * count > old(stream).bytes().len() ==> r == Err::<Vec<u32>, Error>(eof()),
{
    let ghost d = stream.bytes();
    let ghost p0 = stream.pos();
    let mut entries: Vec<u32> = Vec::new();
    let mut i: u32 = 0;
    while i < count
        invariant
            stream.inv(),
            stream.bytes() == d,
            d == old(stream).bytes(),
            p0 == old(stream).pos(),
            i <= count,
            stream.pos() == p0 + 4 * i,
            entries@.len() == i,
            forall|j: int| 0 <= j < i ==> #[trigger] entries@[j] == be32(d, p0 + 4 * j),
        decreases count - i,
    {
        let v = stream.read_u32()?;
        entries.push(v);
        i = i + 1;
    }
    Ok(entries)
}

/// Read `count` 64-bit numbers.
fn read_u64_table(stream: &mut ReadStream, count: u32) -> (r: Result<Vec<u64>>)
    requires
        old(stream).inv(),
    ensures
        final(stream).inv(),
        final(stream).bytes() == old(stream).bytes(),
        old(stream).pos() + 8 * count <= old(stream).bytes().len() ==> (r matches Ok(v) && v@.len() == count
            && forall|i: int| 0 <= i < count ==> #[trigger] v@[i] == be64(old(stream).bytes(), old(stream).pos() + 8 * i))
            && final(stream).pos() == old(stream).pos() + 8 * count,
        old(stream).pos() + 8 * count > old(stream).bytes().len() ==> r == Err::<Vec<u64>, Error>(eof()),
{
    let ghost d = stream.bytes();
    let ghost p0 = stream.pos();
    let mut entries: Vec<u64> = Vec::new();
    let mut i: u32 = 0;
    while i < count
        invariant
            stream.inv(),
            stream.bytes() == d,
            d == old(stream).bytes(),
            p0 == old(stream).pos(),
            i <= count,
            stream.pos() == p0 + 8 * i,
            entries@.len() == i,
            forall|j: int| 0 <= j < i ==> #[trigger] entries@[j] == be64(d, p0 + 8 * j),
        decreases count - i,
    {
        let v = stream.read_u64()?;
        entries.push(v);
        i = i + 1;
    }
    Ok(entries)
}

impl TimeToSampleBox {
    /// Whether `d` parses as a time to sample box, and else the error.
    pub open spec fn outcome(d: Seq<u8>) -> Result<()> {
        table_outcome(d, 8)
    }

    /// The fields are those that `d` holds: version, flags, and pairs of
    /// sample count and sample delta.
    pub open spec fn parsed_from(&self, d: Seq<u8>) -> bool {
        &&& self.version == d[0]
        &&& self.flags == be24(d, 1)
        &&& self.entries@.len() == be32(d, 4)
        &&& forall|i: int| 0 <= i < self.entries@.len() ==> {
            &&& #[trigger] self.entries@[i].sample_count == be32(d, 8 + 8 * i)
            &&& self.entries@[i].sample_delta == be32(d, 12 + 8 * i)
        }
    }

    /// Parse a time to sample box from a buffer.
    pub fn parse(data: &[u8]) -> (r: Result<Self>)
        ensures
            match Self::outcome(data@) {
                Ok(_) => r matches Ok(b) && b.parsed_from(data@),
                Err(e) => r == Err::<Self, Error>(e),
            },
    {
        let mut stream = ReadStream::new(data);
        let version = stream.read_u8()?;
        let flags = stream.read_u24()?;
        let entry_count = stream.read_u32()?;
        let ghost d = data@;
        let mut entries: Vec<TimeToSampleEntry> = Vec::new();
        let mut i: u32 = 0;
        while i < entry_count
            invariant
                stream.inv(),
                stream.bytes() == d,
                d == data@,
                d.len() >= 8,
                entry_count == be32(d, 4),
                i <= entry_count,
                stream.pos() == 8 + 8 * i,
                entries@.len() == i,
                forall|j: int| 0 <= j < i ==> {
                    &&& #[trigger] entries@[j].sample_count == be32(d, 8 + 8 * j)
                    &&& entries@[j].sample_delta == be32(d, 12 + 8 * j)
                },
            decreases entry_count - i,
        {
            let sample_count = stream.read_u32()?;
            let sample_delta = stream.read_u32()?;
            entries.push(TimeToSampleEntry { sample_count, sample_delta });
            i = i + 1;
        }
        Ok(Self { version, flags, entries })
    }
}

/// The bytes of time-to-sample entries as ISO/IEC 14496-12 lays them out: for
/// each entry, in turn, its sample count and then its sample delta, each as four
/// big-endian bytes.
pub open spec fn stts_entry_bytes(entries: Seq<(u32, u32)>) -> Seq<u8> {
    Seq::new(
        (8 * entries.len()) as nat,
        |k: int|
            if k % 8 < 4 {
                u32_bytes(entries[k / 8].0 as int)[k % 8]
            } else {
                u32_bytes(entries[k / 8].1 as int)[k % 8 - 4]
            },
    )
}

/// Byte `8 * i + j` of the entry bytes is byte `j` of entry `i`.
proof fn lemma_stts_entry_byte(entries: Seq<(u32, u32)>, i: int, j: int)
    requires
        0 <= i < entries.len(),
        0 <= j < 8,
    ensures
        stts_entry_bytes(entries)[8 * i + j] == if j < 4 {
            u32_bytes(entries[i].0 as int)[j]
        } else {
            u32_bytes(entries[i].1 as int)[j - 4]
        },
{
    let k = 8 * i + j;
    assert(k / 8 == i && k % 8 == j) by (nonlinear_arith)
        requires k == 8 * i + j, 0 <= j < 8;
    assert(0 <= k < 8 * entries.len()) by (nonlinear_arith)
        requires k == 8 * i + j, 0 <= j < 8, 0 <= i < entries.len();
}

/// A time-to-sample box whose entries are written in order, each sample count
/// before its sample delta, after four bytes of version and flags and the
/// entry count, parses, whatever follows, and gives back those entries in that order.
pub proof fn lemma_stts_entries_read_back(
    header: Seq<u8>,
    entries: Seq<(u32, u32)>,
    rest: Seq<u8>,
    b: TimeToSampleBox,
)
    requires
        header.len() == 4,
        entries.len() <= u32::MAX,
    ensures
        TimeToSampleBox::outcome(
            header + u32_bytes(entries.len() as int) + stts_entry_bytes(entries) + rest,
        ) is Ok,
        b.parsed_from(header + u32_bytes(entries.len() as int) + stts_entry_bytes(entries) + rest) ==> {
            &&& b.entries@.len() == entries.len()
            &&& forall|i: int|
                0 <= i < entries.len() ==> {
                    &&& (#[trigger] b.entries@[i]).sample_count == entries[i].0
                    &&& b.entries@[i].sample_delta == entries[i].1
                }
        },
{
    let n = entries.len() as int;
    let cb = u32_bytes(n);
    let eb = stts_entry_bytes(entries);
    let d = header + cb + eb + rest;
    assert(d.len() == 8 + 8 * n + rest.len());
    assert(d[4] == cb[0] && d[5] == cb[1] && d[6] == cb[2] && d[7] == cb[3]);
    assert(be32(d, 4) == be32(cb, 0));
    lemma_u32_roundtrip(n as u32);
    assert(be32(d, 4) == n);
    assert forall|i: int| 0 <= i < n implies
        be32(d, 8 + 8 * i) == entries[i].0 && be32(d, 12 + 8 * i) == entries[i].1 by {
        assert forall|j: int| 0 <= j < 8 implies d[8 + 8 * i + j] == #[trigger] eb[8 * i + j] by {
            assert(8 * i + j < 8 * n) by (nonlinear_arith)
                requires 0 <= j < 8, 0 <= i < n;
        }
        lemma_stts_entry_byte(entries, i, 0);
        lemma_stts_entry_byte(entries, i, 1);
        lemma_stts_entry_byte(entries, i, 2);
        lemma_stts_entry_byte(entries, i, 3);
        lemma_stts_entry_byte(entries, i, 4);
        lemma_stts_entry_byte(entries, i, 5);
        lemma_stts_entry_byte(entries, i, 6);
        lemma_stts_entry_byte(entries, i, 7);
        let c = u32_bytes(entries[i].0 as int);
        let t = u32_bytes(entries[i].1 as int);
        assert(d[8 + 8 * i] == c[0] && d[8 + 8 * i + 1] == c[1] && d[8 + 8 * i + 2] == c[2] && d[8 + 8 * i + 3] == c[3]);
        assert(d[8 + 8 * i + 4] == t[0] && d[8 + 8 * i + 5] == t[1] && d[8 + 8 * i + 6] == t[2] && d[8 + 8 * i + 7] == t[3]);
        assert(be32(d, 8 + 8 * i) == be32(c, 0));
        assert(be32(d, 12 + 8 * i) == be32(t, 0));
        lemma_u32_roundtrip(entries[i].0);
        lemma_u32_roundtrip(entries[i].1);
    }
}

impl SampleToChunkBox {
    /// Whether `d` parses as a sample to chunk box, and else the error.
    pub open spec fn outcome(d: Seq<u8>) -> Result<()> {
        table_outcome(d, 12)
    }

    /// The fields are those that `d` holds: version, flags, and triples of first
    /// chunk, samples per chunk and sample description index.
    pub open spec fn parsed_from(&self, d: Seq<u8>) -> bool {
        &&& self.version == d[0]
        &&& self.flags == be24(d, 1)
        &&& self.entries@.len() == be32(d, 4)
        &&& forall|i: int| 0 <= i < self.entries@.len() ==> {
            &&& #[trigger] self.entries@[i].first_chunk == be32(d, 8 + 12 * i)
            &&& self.entries@[i].samples_per_chunk == be32(d, 12 + 12 * i)
            &&& self.entries@[i].sample_description_index == be32(d, 16 + 12 * i)
        }
    }

    /// Parse a sample to chunk box from a buffer.
    pub fn parse(data: &[u8]) -> (r: Result<Self>)
        ensures
            match Self::outcome(data@) {
                Ok(_) => r matches Ok(b) && b.parsed_from(data@),
                Err(e) => r == Err::<Self, Error>(e),
            },
    {
        let mut stream = ReadStream::new(data);
        let version = stream.read_u8()?;
        let flags = stream.read_u24()?;
        let entry_count = stream.read_u32()?;
        let ghost d = data@;
        let mut entries: Vec<SampleToChunkEntry> = Vec::new();
        let mut i: u32 = 0;
        while i < entry_count
            invariant
                stream.inv(),
                stream.bytes() == d,
                d == data@,
                d.len() >= 8,
                entry_count == be32(d, 4),
                i <= entry_count,
                stream.pos() == 8 + 12 * i,
                entries@.len() == i,
                forall|j: int| 0 <= j < i ==> {
                    &&& #[trigger] entries@[j].first_chunk == be32(d, 8 + 12 * j)
                    &&& entries@[j].samples_per_chunk == be32(d, 12 + 12 * j)
                    &&& entries@[j].sample_description_index == be32(d, 16 + 12 * j)
                },
            decreases entry_count - i,
        {
            let first_chunk = stream.read_u32()?;
            let samples_per_chunk = stream.read_u32()?;
            let sample_description_index = stream.read_u32()?;
            let e = SampleToChunkEntry { first_chunk, samples_per_chunk, sample_description_index };
            assert(e.first_chunk == be32(d, 8 + 12 * i) && e.samples_per_chunk == be32(d, 12 + 12 * i)
                && e.sample_description_index == be32(d, 16 + 12 * i));
            entries.push(e);
            i = i + 1;
        }
        Ok(Self { version, flags, entries })
    }
}

impl SampleSizeBox {
    /// Whether `d` parses as a sample size box, and else the error.
    pub open spec fn outcome(d: Seq<u8>) -> Result<()> {
        if d.len() < 12 {
            Err(eof())
        } else if be32(d, 4) == 0 && d.len() < 12 + 4 * be32(d, 8) {
            Err(eof())
        } else {
            Ok(())
        }
    }

    /// The fields are those that `d` holds: version, flags, the common sample
    /// size, the sample count and, when the common size is 0, one size per sample.
    pub open spec fn parsed_from(&self, d: Seq<u8>) -> bool {
        &&& self.version == d[0]
        &&& self.flags == be24(d, 1)
        &&& self.sample_size == be32(d, 4)
        &&& self.sample_count == be32(d, 8)
        &&& self.entry_sizes@.len() == if be32(d, 4) == 0 { be32(d, 8) } else { 0 }
        &&& forall|i: int| 0 <= i < self.entry_sizes@.len() ==> #[trigger] self.entry_sizes@[i] == be32(d, 12 + 4 * i)
    }

    /// Parse a sample size box from a buffer.
    pub fn parse(data: &[u8]) -> (r: Result<Self>)
        ensures
            match Self::outcome(data@) {
                Ok(_) => r matches Ok(b) && b.parsed_from(data@),
                Err(e) => r == Err::<Self, Error>(e),
            },
    {
        let mut stream = ReadStream::new(data);
        let version = stream.read_u8()?;
        let flags = stream.read_u24()?;
        let sample_size = stream.read_u32()?;
        let sample_count = stream.read_u32()?;
        let entry_sizes = if sample_size == 0 {
            read_u32_table(&mut stream, sample_count)?
        } else {
            Vec::new()
        };
        Ok(Self { version, flags, sample_size, sample_count, entry_sizes })
    }
}

impl ChunkOffsetBox {
    /// Whether `d` parses as a 32-bit chunk offset box, and else the error.
    pub open spec fn stco_outcome(d: Seq<u8>) -> Result<()> {
        table_outcome(d, 4)
    }

    /// Whether `d` parses as a 64-bit chunk offset box, and else the error.
    pub open spec fn co64_outcome(d: Seq<u8>) -> Result<()> {
        table_outcome(d, 8)
    }

    /// This is the 32-bit chunk offset box that `d` holds.
    pub open spec fn stco_from(&self, d: Seq<u8>) -> bool {
        match self {
            ChunkOffsetBox::Stco { version, flags, entries } => {
                &&& *version == d[0]
                &&& *flags == be24(d, 1)
                &&& entries@.len() == be32(d, 4)
                &&& forall|i: int| 0 <= i < entries@.len() ==> #[trigger] entries@[i] == be32(d, 8 + 4 * i)
            },
            _ => false,
        }
    }

    /// This is the 64-bit chunk offset box that `d` holds.
    pub open spec fn co64_from(&self, d: Seq<u8>) -> bool {
        match self {
            ChunkOffsetBox::Co64 { version, flags, entries } => {
                &&& *version == d[0]
                &&& *flags == be24(d, 1)
                &&& entries@.len() == be32(d, 4)
                &&& forall|i: int| 0 <= i < entries@.len() ==> #[trigger] entries@[i] == be64(d, 8 + 8 * i)
            },
            _ => false,
        }
    }

    /// Parse a 32-bit chunk offset box from a buffer.
    pub fn parse_stco(data: &[u8]) -> (r: Result<Self>)
        ensures
            match Self::stco_outcome(data@) {
                Ok(_) => r matches Ok(b) && b.stco_from(data@),
                Err(e) => r == Err::<Self, Error>(e),
            },
    {
        let mut stream = ReadStream::new(data);
        let version = stream.read_u8()?;
        let flags = stream.read_u24()?;
        let entry_count = stream.read_u32()?;
        let entries = read_u32_table(&mut stream, entry_count)?;
        Ok(Self::Stco { version, flags, entries })
    }

    /// Parse a 64-bit chunk offset box from a buffer.
    pub fn parse_co64(data: &[u8]) -> (r: Result<Self>)
        ensures
            match Self::co64_outcome(data@) {
                Ok(_) => r matches Ok(b) && b.co64_from(data@),
                Err(e) => r == Err::<Self, Error>(e),
            },
    {
        let mut stream = ReadStream::new(data);
        let version = stream.read_u8()?;
        let flags = stream.read_u24()?;
        let entry_count = stream.read_u32()?;
        let entries = read_u64_table(&mut stream, entry_count)?;
        Ok(Self::Co64 { version, flags, entries })
    }
}

impl SyncSampleBox {
    /// Whether `d` parses as a sync sample box, and else the error.
    pub open spec fn outcome(d: Seq<u8>) -> Result<()> {
        table_outcome(d, 4)
    }

    /// The fields are those that `d` holds: version, flags and the sample numbers.
    pub open spec fn parsed_from(&self, d: Seq<u8>) -> bool {
        &&& self.version == d[0]
        &&& self.flags == be24(d, 1)
        &&& self.entries@.len() == be32(d, 4)
        &&& forall|i: int| 0 <= i < self.entries@.len() ==> #[trigger] self.entries@[i] == be32(d, 8 + 4 * i)
    }

    /// Parse a sync sample box from a buffer.
    pub fn parse(data: &[u8]) -> (r: Result<Self>)
        ensures
            match Self::outcome(data@) {
                Ok(_) => r matches Ok(b) && b.parsed_from(data@),
                Err(e) => r == Err::<Self, Error>(e),
            },
    {
        let mut stream = ReadStream::new(data);
        let version = stream.read_u8()?;
        let flags = stream.read_u24()?;
        let entry_count = stream.read_u32()?;
        let entries = read_u32_table(&mut stream, entry_count)?;
        Ok(Self { version, flags, entries })
    }
}


/// A sample-to-chunk box whose table holds, entry after entry, the first chunk,
/// the samples per chunk and the sample description index (three numbers per
/// entry, big-endian), after four bytes of version and flags and the entry
/// count, parses, whatever follows, and gives back those entries in that order.
#[verifier::spinoff_prover]
#[verifier::rlimit(40)]
pub proof fn lemma_stsc_entries_read_back(header: Seq<u8>, count: u32, fields: Seq<u32>, rest: Seq<u8>, b: SampleToChunkBox)
    requires
        header.len() == 4,
        fields.len() == 3 * count,
    ensures
        SampleToChunkBox::outcome(header + u32_bytes(count as int) + u32s_bytes(fields) + rest) is Ok,
        b.parsed_from(header + u32_bytes(count as int) + u32s_bytes(fields) + rest) ==> {
            &&& b.entries@.len() == count
            &&& forall|i: int|
                0 <= i < count ==> {
                    &&& (#[trigger] b.entries@[i]).first_chunk == fields[3 * i]
                    &&& b.entries@[i].samples_per_chunk == fields[3 * i + 1]
                    &&& b.entries@[i].sample_description_index == fields[3 * i + 2]
                }
        },
{
    let n = count as int;
    lemma_u32s_bytes_len(fields);
    let d = header + u32_bytes(n) + u32s_bytes(fields) + rest;
    assert(d.len() == 8 + 12 * n + rest.len());
    assert(d.subrange(4, 8) =~= u32_bytes(n));
    lemma_u32_at(d, 4, count);
    assert(SampleToChunkBox::outcome(d) is Ok);
    assert(d.subrange(8, 8 + 12 * n) =~= u32s_bytes(fields));
    if b.parsed_from(d) {
        assert forall|i: int| 0 <= i < n implies {
            &&& (#[trigger] b.entries@[i]).first_chunk == fields[3 * i]
            &&& b.entries@[i].samples_per_chunk == fields[3 * i + 1]
            &&& b.entries@[i].sample_description_index == fields[3 * i + 2]
        } by {
            assert(3 * i + 2 < fields.len());
            assert(d.subrange(8, 8 + 4 * fields.len() as int) == u32s_bytes(fields));
            lemma_stsc_entry_read_back(d, fields, i);
            assert(b.entries@[i].first_chunk == be32(d, 8 + 12 * i));
        }
    }
}

/// The three numbers of entry `i` of a sample-to-chunk table read back from their places.
proof fn lemma_stsc_entry_read_back(d: Seq<u8>, fields: Seq<u32>, i: int)
    requires
        8 + 4 * fields.len() <= d.len(),
        d.subrange(8, 8 + 4 * fields.len() as int) == u32s_bytes(fields),
        0 <= i,
        3 * i + 2 < fields.len(),
    ensures
        be32(d, 8 + 12 * i) == fields[3 * i],
        be32(d, 12 + 12 * i) == fields[3 * i + 1],
        be32(d, 16 + 12 * i) == fields[3 * i + 2],
{
    lemma_u32s_read_back(d, 8, fields, 3 * i);
    lemma_u32s_read_back(d, 8, fields, 3 * i + 1);
    lemma_u32s_read_back(d, 8, fields, 3 * i + 2);
}

/// A sample size box with a common sample size other than 0 gives that size and
/// the sample count that follows it, and no sizes of its own, whatever follows.
pub proof fn lemma_stsz_common_size(header: Seq<u8>, size: u32, count: u32, rest: Seq<u8>, b: SampleSizeBox)
    requires
        header.len() == 4,
        size != 0,
    ensures
        SampleSizeBox::outcome(header + u32_bytes(size as int) + u32_bytes(count as int) + rest) is Ok,
        b.parsed_from(header + u32_bytes(size as int) + u32_bytes(count as int) + rest) ==> {
            &&& b.sample_size == size
            &&& b.sample_count == count
            &&& b.entry_sizes@.len() == 0
        },
{
    let d = header + u32_bytes(size as int) + u32_bytes(count as int) + rest;
    assert(d.subrange(4, 8) =~= u32_bytes(size as int));
    assert(d.subrange(8, 12) =~= u32_bytes(count as int));
    lemma_u32_at(d, 4, size);
    lemma_u32_at(d, 8, count);
}

/// A sample size box with common size 0 gives the sample count and then the
/// size of each sample, in order, as they are written, whatever follows.
pub proof fn lemma_stsz_sizes_read_back(header: Seq<u8>, sizes: Seq<u32>, rest: Seq<u8>, b: SampleSizeBox)
    requires
        header.len() == 4,
        sizes.len() <= u32::MAX,
    ensures
        SampleSizeBox::outcome(header + u32_bytes(0) + u32_bytes(sizes.len() as int) + u32s_bytes(sizes) + rest) is Ok,
        b.parsed_from(header + u32_bytes(0) + u32_bytes(sizes.len() as int) + u32s_bytes(sizes) + rest) ==> {
            &&& b.sample_size == 0
            &&& b.sample_count == sizes.len()
            &&& b.entry_sizes@ == sizes
        },
{
    let n = sizes.len() as int;
    lemma_u32s_bytes_len(sizes);
    let d = header + u32_bytes(0) + u32_bytes(n) + u32s_bytes(sizes) + rest;
    assert(d.subrange(4, 8) =~= u32_bytes(0));
    assert(d.subrange(8, 12) =~= u32_bytes(n));
    lemma_u32_at(d, 4, 0);
    lemma_u32_at(d, 8, n as u32);
    assert(d.subrange(12, 12 + 4 * n) =~= u32s_bytes(sizes));
    if b.parsed_from(d) {
        assert forall|i: int| 0 <= i < n implies b.entry_sizes@[i] == sizes[i] by {
            lemma_u32s_read_back(d, 12, sizes, i);
        }
        assert(b.entry_sizes@ =~= sizes);
    }
}

/// A 32-bit chunk offset box gives back the offsets written after its version,
/// flags and entry count, in order, whatever follows.
pub proof fn lemma_stco_offsets_read_back(header: Seq<u8>, offsets: Seq<u32>, rest: Seq<u8>, b: ChunkOffsetBox)
    requires
        header.len() == 4,
        offsets.len() <= u32::MAX,
    ensures
        ChunkOffsetBox::stco_outcome(header + u32_bytes(offsets.len() as int) + u32s_bytes(offsets) + rest) is Ok,
        b.stco_from(header + u32_bytes(offsets.len() as int) + u32s_bytes(offsets) + rest) ==> (
        b matches ChunkOffsetBox::Stco { entries, .. } && entries@ == offsets),
{
    let n = offsets.len() as int;
    lemma_u32s_bytes_len(offsets);
    let d = header + u32_bytes(n) + u32s_bytes(offsets) + rest;
    assert(d.subrange(4, 8) =~= u32_bytes(n));
    lemma_u32_at(d, 4, n as u32);
    assert(d.subrange(8, 8 + 4 * n) =~= u32s_bytes(offsets));
    if b.stco_from(d) {
        if let ChunkOffsetBox::Stco { entries, .. } = b {
            assert forall|i: int| 0 <= i < n implies entries@[i] == offsets[i] by {
                lemma_u32s_read_back(d, 8, offsets, i);
            }
            assert(entries@ =~= offsets);
        }
    }
}

/// A 64-bit chunk offset box gives back the offsets written after its version,
/// flags and entry count, in order, whatever follows.
pub proof fn lemma_co64_offsets_read_back(header: Seq<u8>, offsets: Seq<u64>, rest: Seq<u8>, b: ChunkOffsetBox)
    requires
        header.len() == 4,
        offsets.len() <= u32::MAX,
    ensures
        ChunkOffsetBox::co64_outcome(header + u32_bytes(offsets.len() as int) + u64s_bytes(offsets) + rest) is Ok,
        b.co64_from(header + u32_bytes(offsets.len() as int) + u64s_bytes(offsets) + rest) ==> (
        b matches ChunkOffsetBox::Co64 { entries, .. } && entries@ == offsets),
{
    let n = offsets.len() as int;
    lemma_u64s_bytes_len(offsets);
    let d = header + u32_bytes(n) + u64s_bytes(offsets) + rest;
    assert(d.subrange(4, 8) =~= u32_bytes(n));
    lemma_u32_at(d, 4, n as u32);
    assert(d.subrange(8, 8 + 8 * n) =~= u64s_bytes(offsets));
    if b.co64_from(d) {
        if let ChunkOffsetBox::Co64 { entries, .. } = b {
            assert forall|i: int| 0 <= i < n implies entries@[i] == offsets[i] by {
                lemma_u64s_read_back(d, 8, offsets, i);
            }
            assert(entries@ =~= offsets);
        }
    }
}

/// A sync sample box gives back the sample numbers written after its version,
/// flags and entry count, in order, whatever follows.
pub proof fn lemma_stss_entries_read_back(header: Seq<u8>, samples: Seq<u32>, rest: Seq<u8>, b: SyncSampleBox)
    requires
        header.len() == 4,
        samples.len() <= u32::MAX,
    ensures
        SyncSampleBox::outcome(header + u32_bytes(samples.len() as int) + u32s_bytes(samples) + rest) is Ok,
        b.parsed_from(header + u32_bytes(samples.len() as int) + u32s_bytes(samples) + rest) ==> b.entries@ == samples,
{
    let n = samples.len() as int;
    lemma_u32s_bytes_len(samples);
    let d = header + u32_bytes(n) + u32s_bytes(samples) + rest;
    assert(d.subrange(4, 8) =~= u32_bytes(n));
    lemma_u32_at(d, 4, n as u32);
    assert(d.subrange(8, 8 + 4 * n) =~= u32s_bytes(samples));
    if b.parsed_from(d) {
        assert forall|i: int| 0 <= i < n implies b.entries@[i] == samples[i] by {
            lemma_u32s_read_back(d, 8, samples, i);
        }
        assert(b.entries@ =~= samples);
    }
}

// ---------------------------------------------------------------------------
// Sample descriptions.

/// The sample types whose entries are read as visual sample descriptions.
pub open spec fn is_visual_type(t: Seq<u8>) -> bool {
    t == AVC1@ || t == HVC1@ || t == AV01@
}

/// One configuration box: every child box is kept as its type and payload.
pub open spec fn config_step(a: Seq<(Seq<u8>, Seq<u8>)>, t: Seq<u8>, pl: Seq<u8>) -> Result<Seq<(Seq<u8>, Seq<u8>)>> {
    Ok(a.push((t, pl)))
}

/// `config_step` as a value.
pub open spec fn config_step_fn() -> spec_fn(Seq<(Seq<u8>, Seq<u8>)>, Seq<u8>, Seq<u8>) -> Result<Seq<(Seq<u8>, Seq<u8>)>> {
    |a: Seq<(Seq<u8>, Seq<u8>)>, t: Seq<u8>, pl: Seq<u8>| config_step(a, t, pl)
}

/// The configuration boxes from `p` to the end of `d`.
pub open spec fn config_boxes_at(d: Seq<u8>, p: int) -> Result<Seq<(Seq<u8>, Seq<u8>)>> {
    walk(d, p, Seq::empty(), config_step_fn(), false)
}

/// A sample description entry as the bytes lay it out: where it starts, and for
/// visual and audio entries the configuration boxes that follow, which run to
/// the end of the sample description box.
pub enum SampleEntrySpec {
    /// A visual entry.
    Visual { start: int, configs: Seq<(Seq<u8>, Seq<u8>)> },
    /// An audio entry.
    Audio { start: int, configs: Seq<(Seq<u8>, Seq<u8>)> },
    /// An entry of another type, `size` bytes long.
    Unknown { start: int, size: int },
}

/// The sample description entry at `p`, with where the next one starts; or why
/// it cannot be read. The fixed fields of an entry take 16 bytes; a visual
/// description adds 70 and an audio one 20 before their configuration boxes.
pub open spec fn sample_entry_at(d: Seq<u8>, p: int) -> Result<(SampleEntrySpec, int)> {
    let q = p + 16;
    if d.len() - p < 4 {
        Err(eof())
    } else if be32(d, p) < 8 {
        Err(bmff(BmffError::InvalidEntrySize))
    } else if d.len() - p < 16 {
        Err(eof())
    } else if is_visual_type(d.subrange(p + 4, p + 8)) {
        if d.len() - q < 66 {
            Err(eof())
        } else if d[q + 34] > 31 {
            Err(bmff(BmffError::InvalidCompressorName))
        } else if d.len() - q < 70 {
            Err(eof())
        } else {
            match config_boxes_at(d, q + 70) {
                Err(e) => Err(e),
                Ok(cs) => Ok((SampleEntrySpec::Visual { start: p, configs: cs }, d.len() as int)),
            }
        }
    } else if d.subrange(p + 4, p + 8) == MP4A@ {
        if d.len() - q < 20 {
            Err(eof())
        } else {
            match config_boxes_at(d, q + 20) {
                Err(e) => Err(e),
                Ok(cs) => Ok((SampleEntrySpec::Audio { start: p, configs: cs }, d.len() as int)),
            }
        }
    } else if be32(d, p) < 16 {
        Err(bmff(BmffError::InvalidEntrySize))
    } else if d.len() - q < be32(d, p) - 16 {
        Err(eof())
    } else {
        Ok((SampleEntrySpec::Unknown { start: p, size: be32(d, p) }, p + be32(d, p)))
    }
}

/// `n` sample description entries from `p`.
pub open spec fn sample_entries(d: Seq<u8>, p: int, n: nat) -> Result<Seq<SampleEntrySpec>>
    decreases n,
{
    if n == 0 {
        Ok(Seq::empty())
    } else {
        match sample_entry_at(d, p) {
            Err(e) => Err(e),
            Ok((e, end)) => match sample_entries(d, end, (n - 1) as nat) {
                Err(x) => Err(x),
                Ok(rest) => Ok(seq![e] + rest),
            },
        }
    }
}

impl ConfigBox {
    /// This is the child box of type `c.0` with payload `c.1`.
    pub open spec fn is(&self, c: (Seq<u8>, Seq<u8>)) -> bool {
        self.box_type@ == c.0 && self.data@ == c.1
    }
}

/// The configuration boxes are those of `cs`, in order.
pub open spec fn configs_are(v: Seq<ConfigBox>, cs: Seq<(Seq<u8>, Seq<u8>)>) -> bool {
    v.len() == cs.len() && forall|i: int| 0 <= i < cs.len() ==> #[trigger] v[i].is(cs[i])
}

impl SampleDescription {
    /// This description is the entry `e` of `d`.
    pub open spec fn is(&self, e: SampleEntrySpec, d: Seq<u8>) -> bool {
        match self {
            SampleDescription::Visual(v) => e matches SampleEntrySpec::Visual { start, configs } && {
                let q = start + 16;
                &&& v.sample_type@ == d.subrange(start + 4, start + 8)
                &&& v.width == be16(d, q + 16)
                &&& v.height == be16(d, q + 18)
                &&& v.horizresolution == be32(d, q + 20)
                &&& v.vertresolution == be32(d, q + 24)
                &&& v.frame_count == be16(d, q + 32)
                &&& v.compressorname@ == lossy_utf8(d.subrange(q + 35, q + 35 + d[q + 34]))
                &&& valid_utf8(d.subrange(q + 35, q + 35 + d[q + 34])) ==> v.compressorname@ == decode_utf8(
                    d.subrange(q + 35, q + 35 + d[q + 34]),
                )
                &&& v.depth == be16(d, q + 66)
                &&& configs_are(v.config_boxes@, configs)
            },
            SampleDescription::Audio(a) => e matches SampleEntrySpec::Audio { start, configs } && {
                let q = start + 16;
                &&& a.sample_type@ == d.subrange(start + 4, start + 8)
                &&& a.channelcount == be16(d, q + 8)
                &&& a.samplesize == be16(d, q + 10)
                &&& a.samplerate == be32(d, q + 16)
                &&& configs_are(a.config_boxes@, configs)
            },
            SampleDescription::Unknown { sample_type, data } => e matches SampleEntrySpec::Unknown { start, size }
                && sample_type@ == d.subrange(start + 4, start + 8)
                && data@ == d.subrange(start + 16, start + size),
        }
    }
}

/// The bytes of a visual sample entry with no configuration boxes: its size and
/// type, six reserved bytes and the data reference index, sixteen pre-defined
/// and reserved bytes, the width and height (two big-endian bytes each), the
/// horizontal and vertical resolutions (four each), four reserved bytes, the
/// frame count (two), the 32-byte compressor name field, the depth (two) and
/// two pre-defined bytes.
pub open spec fn visual_entry_bytes(
    sample_type: Seq<u8>,
    reference: Seq<u8>,
    skipped: Seq<u8>,
    width: u16,
    height: u16,
    horizresolution: u32,
    vertresolution: u32,
    reserved: Seq<u8>,
    frame_count: u16,
    name: Seq<u8>,
    depth: u16,
    tail: Seq<u8>,
) -> Seq<u8> {
    u32_bytes(86) + sample_type + reference + skipped + u16_bytes(width as int) + u16_bytes(height as int)
        + u32_bytes(horizresolution as int) + u32_bytes(vertresolution as int) + reserved
        + u16_bytes(frame_count as int) + name + u16_bytes(depth as int) + tail
}

/// A sample description box with one visual entry laid out as ISO/IEC 14496-12
/// lays it out parses and gives back one visual description of that type, with
/// that width, height, resolutions, frame count and depth, and no
/// configuration boxes.
pub proof fn lemma_visual_entry_read_back(
    header: Seq<u8>,
    sample_type: Seq<u8>,
    reference: Seq<u8>,
    skipped: Seq<u8>,
    width: u16,
    height: u16,
    horizresolution: u32,
    vertresolution: u32,
    reserved: Seq<u8>,
    frame_count: u16,
    name: Seq<u8>,
    depth: u16,
    tail: Seq<u8>,
    b: SampleDescriptionBox,
)
    requires
        header.len() == 4,
        is_visual_type(sample_type),
        reference.len() == 8,
        skipped.len() == 16,
        reserved.len() == 4,
        name.len() == 32,
        name[0] <= 31,
        tail.len() == 2,
    ensures
        ({
            let d = header + u32_bytes(1) + visual_entry_bytes(sample_type, reference, skipped, width, height,
                horizresolution, vertresolution, reserved, frame_count, name, depth, tail);
            &&& SampleDescriptionBox::outcome(d) is Ok
            &&& b.parsed_from(d) ==> {
                &&& b.entries@.len() == 1
                &&& b.entries@[0] matches SampleDescription::Visual(v) && {
                    &&& v.sample_type@ == sample_type
                    &&& v.width == width
                    &&& v.height == height
                    &&& v.horizresolution == horizresolution
                    &&& v.vertresolution == vertresolution
                    &&& v.frame_count == frame_count
                    &&& v.depth == depth
                    &&& v.config_boxes@.len() == 0
                }
            }
        }),
{
    let e = visual_entry_bytes(sample_type, reference, skipped, width, height,
        horizresolution, vertresolution, reserved, frame_count, name, depth, tail);
    let d = header + u32_bytes(1) + e;
    assert(d.len() == 94);
    assert(d.subrange(4, 8) =~= u32_bytes(1));
    lemma_u32_at(d, 4, 1);
    assert(d.subrange(8, 12) =~= u32_bytes(86));
    lemma_u32_at(d, 8, 86);
    assert(d.subrange(12, 16) =~= sample_type);
    let q: int = 24;
    assert(d.subrange(q + 16, q + 18) =~= u16_bytes(width as int));
    assert(d.subrange(q + 18, q + 20) =~= u16_bytes(height as int));
    assert(d.subrange(q + 20, q + 24) =~= u32_bytes(horizresolution as int));
    assert(d.subrange(q + 24, q + 28) =~= u32_bytes(vertresolution as int));
    assert(d.subrange(q + 32, q + 34) =~= u16_bytes(frame_count as int));
    assert(d.subrange(q + 66, q + 68) =~= u16_bytes(depth as int));
    lemma_u16_at(d, q + 16, width);
    lemma_u16_at(d, q + 18, height);
    lemma_u32_at(d, q + 20, horizresolution);
    lemma_u32_at(d, q + 24, vertresolution);
    lemma_u16_at(d, q + 32, frame_count);
    lemma_u16_at(d, q + 66, depth);
    assert(d[q + 34] == name[0]);
    assert(config_boxes_at(d, q + 70) == Ok::<Seq<(Seq<u8>, Seq<u8>)>, Error>(Seq::<(Seq<u8>, Seq<u8>)>::empty()));
    let spec = SampleEntrySpec::Visual { start: 8, configs: Seq::<(Seq<u8>, Seq<u8>)>::empty() };
    assert(sample_entry_at(d, 8) == Ok::<(SampleEntrySpec, int), Error>((spec, 94int)));
    assert(sample_entries(d, 94, 0) == Ok::<Seq<SampleEntrySpec>, Error>(Seq::<SampleEntrySpec>::empty()));
    assert(sample_entries(d, 8, 1) == Ok::<Seq<SampleEntrySpec>, Error>(seq![spec] + Seq::<SampleEntrySpec>::empty()));
    assert(seq![spec] + Seq::<SampleEntrySpec>::empty() =~= seq![spec]);
    if b.parsed_from(d) {
        assert(sample_entries(d, 8, be32(d, 4) as nat) == Ok::<Seq<SampleEntrySpec>, Error>(seq![spec]));
        assert(b.entries@[0].is(seq![spec][0], d));
    }
}

/// A sample description box with one `mp4a` entry and no configuration boxes,
/// laid out as ISO/IEC 14496-12 lays it out (size and type, six reserved bytes
/// and the data reference index, eight reserved bytes, the channel count and
/// sample size in two big-endian bytes each, four pre-defined and reserved
/// bytes, then the sample rate in four), parses and gives back one audio
/// description with those values.
pub proof fn lemma_audio_entry_read_back(
    header: Seq<u8>,
    reference: Seq<u8>,
    skipped: Seq<u8>,
    channelcount: u16,
    samplesize: u16,
    reserved: Seq<u8>,
    samplerate: u32,
    b: SampleDescriptionBox,
)
    requires
        header.len() == 4,
        reference.len() == 8,
        skipped.len() == 8,
        reserved.len() == 4,
    ensures
        ({
            let d = header + u32_bytes(1) + u32_bytes(36) + MP4A@ + reference + skipped
                + u16_bytes(channelcount as int) + u16_bytes(samplesize as int) + reserved
                + u32_bytes(samplerate as int);
            &&& SampleDescriptionBox::outcome(d) is Ok
            &&& b.parsed_from(d) ==> {
                &&& b.entries@.len() == 1
                &&& b.entries@[0] matches SampleDescription::Audio(a) && {
                    &&& a.sample_type@ == MP4A@
                    &&& a.channelcount == channelcount
                    &&& a.samplesize == samplesize
                    &&& a.samplerate == samplerate
                    &&& a.config_boxes@.len() == 0
                }
            }
        }),
{
    let d = header + u32_bytes(1) + u32_bytes(36) + MP4A@ + reference + skipped
        + u16_bytes(channelcount as int) + u16_bytes(samplesize as int) + reserved + u32_bytes(samplerate as int);
    assert(d.len() == 44);
    assert(d.subrange(4, 8) =~= u32_bytes(1));
    lemma_u32_at(d, 4, 1);
    assert(d.subrange(8, 12) =~= u32_bytes(36));
    lemma_u32_at(d, 8, 36);
    assert(d.subrange(12, 16) =~= MP4A@);
    assert(!is_visual_type(MP4A@)) by {
        assert(MP4A@ =~= seq![0x6du8, 0x70u8, 0x34u8, 0x61u8]);
    }
    let q: int = 24;
    assert(d.subrange(q + 8, q + 10) =~= u16_bytes(channelcount as int));
    assert(d.subrange(q + 10, q + 12) =~= u16_bytes(samplesize as int));
    assert(d.subrange(q + 16, q + 20) =~= u32_bytes(samplerate as int));
    lemma_u16_at(d, q + 8, channelcount);
    lemma_u16_at(d, q + 10, samplesize);
    lemma_u32_at(d, q + 16, samplerate);
    assert(config_boxes_at(d, q + 20) == Ok::<Seq<(Seq<u8>, Seq<u8>)>, Error>(Seq::<(Seq<u8>, Seq<u8>)>::empty()));
    let spec = SampleEntrySpec::Audio { start: 8, configs: Seq::<(Seq<u8>, Seq<u8>)>::empty() };
    assert(sample_entry_at(d, 8) == Ok::<(SampleEntrySpec, int), Error>((spec, 44int)));
    assert(sample_entries(d, 44, 0) == Ok::<Seq<SampleEntrySpec>, Error>(Seq::<SampleEntrySpec>::empty()));
    assert(sample_entries(d, 8, 1) == Ok::<Seq<SampleEntrySpec>, Error>(seq![spec] + Seq::<SampleEntrySpec>::empty()));
    assert(seq![spec] + Seq::<SampleEntrySpec>::empty() =~= seq![spec]);
    if b.parsed_from(d) {
        assert(sample_entries(d, 8, be32(d, 4) as nat) == Ok::<Seq<SampleEntrySpec>, Error>(seq![spec]));
        assert(b.entries@[0].is(seq![spec][0], d));
    }
}

/// Read configuration boxes up to the end of the stream.
fn read_config_boxes(stream: &mut ReadStream) -> (r: Result<Vec<ConfigBox>>)
    requires
        old(stream).inv(),
    ensures
        final(stream).inv(),
        final(stream).bytes() == old(stream).bytes(),
        match config_boxes_at(old(stream).bytes(), old(stream).pos()) {
            Err(e) => r == Err::<Vec<ConfigBox>, Error>(e),
            Ok(cs) => (r matches Ok(v) && configs_are(v@, cs)) && final(stream).pos() == old(stream).bytes().len(),
        },
{
    let ghost d = stream.bytes();
    let ghost mut acc: Seq<(Seq<u8>, Seq<u8>)> = Seq::empty();
    let mut config_boxes: Vec<ConfigBox> = Vec::new();
    while stream.has_more()
        invariant
            stream.inv(),
            stream.bytes() == d,
            d == old(stream).bytes(),
            config_boxes_at(d, old(stream).pos()) == walk(d, stream.pos(), acc, config_step_fn(), false),
            configs_are(config_boxes@, acc),
        decreases d.len() - stream.pos(),
    {
        let ghost p = stream.pos();
        let (box_type, data_size) = read_child_header(stream)?;
        let ghost pl = d.subrange(p + 8, p + 8 + data_size);
        let data = stream.read_exact_buffer(data_size)?;
        let c = ConfigBox { box_type, data };
        proof {
            assert(c.is((box_type@, pl)));
            acc = acc.push((box_type@, pl));
        }
        config_boxes.push(c);
    }
    Ok(config_boxes)
}

/// Read one sample description entry.
fn read_sample_entry(stream: &mut ReadStream) -> (r: Result<SampleDescription>)
    requires
        old(stream).inv(),
    ensures
        final(stream).inv(),
        final(stream).bytes() == old(stream).bytes(),
        match sample_entry_at(old(stream).bytes(), old(stream).pos()) {
            Err(e) => r == Err::<SampleDescription, Error>(e),
            Ok((e, end)) => (r matches Ok(s) && s.is(e, old(stream).bytes())) && final(stream).pos() == end,
        },
{
    let ghost d = stream.bytes();
    let ghost p = stream.pos();
    let entry_size = stream.read_u32()?;
    if entry_size < 8 {
        return Err(Error::BmffParse(BmffError::InvalidEntrySize));
    }
    let sample_type = stream.read_code()?;
    stream.skip(6)?;
    let _data_reference_index = stream.read_u16()?;
    if same_code(&sample_type, &AVC1) || same_code(&sample_type, &HVC1) || same_code(&sample_type, &AV01) {
        stream.skip(16)?;
        let width = stream.read_u16()?;
        let height = stream.read_u16()?;
        let horizresolution = stream.read_u32()?;
        let vertresolution = stream.read_u32()?;
        stream.skip(4)?;
        let frame_count = stream.read_u16()?;
        let name_bytes = stream.read_exact_buffer(32)?;
        let name_len = name_bytes[0] as usize;
        if name_len > 31 {
            return Err(Error::BmffParse(BmffError::InvalidCompressorName));
        }
        let compressorname = utf8_lossy_string(slice_subrange(name_bytes.as_slice(), 1, name_len + 1));
        let depth = stream.read_u16()?;
        stream.skip(2)?;
        let config_boxes = read_config_boxes(stream)?;
        proof {
            assert(name_bytes@.subrange(1, name_len + 1) =~= d.subrange(p + 51, p + 51 + name_len));
        }
        Ok(SampleDescription::Visual(VisualSampleDescription {
            sample_type,
            width,
            height,
            horizresolution,
            vertresolution,
            frame_count,
            compressorname,
            depth,
            config_boxes,
        }))
    } else if same_code(&sample_type, &MP4A) {
        stream.skip(4)?;
        stream.skip(4)?;
        let channelcount = stream.read_u16()?;
        let samplesize = stream.read_u16()?;
        stream.skip(4)?;
        let samplerate = stream.read_u32()?;
        let config_boxes = read_config_boxes(stream)?;
        Ok(SampleDescription::Audio(AudioSampleDescription {
            sample_type,
            channelcount,
            samplesize,
            samplerate,
            config_boxes,
        }))
    } else {
        if entry_size < 16 {
            return Err(Error::BmffParse(BmffError::InvalidEntrySize));
        }
        let data = stream.read_exact_buffer((entry_size - 16) as usize)?;
        Ok(SampleDescription::Unknown { sample_type, data })
    }
}

impl SampleDescriptionBox {
    /// Whether `d` parses as a sample description box, and else the error.
    pub open spec fn outcome(d: Seq<u8>) -> Result<()> {
        if d.len() < 8 {
            Err(eof())
        } else {
            match sample_entries(d, 8, be32(d, 4) as nat) {
                Err(e) => Err(e),
                Ok(_) => Ok(()),
            }
        }
    }

    /// The fields are those that `d` holds: version, flags and one description
    /// per entry.
    pub open spec fn parsed_from(&self, d: Seq<u8>) -> bool {
        &&& self.version == d[0]
        &&& self.flags == be24(d, 1)
        &&& sample_entries(d, 8, be32(d, 4) as nat) matches Ok(es) && self.entries@.len() == es.len()
            && forall|i: int| 0 <= i < es.len() ==> #[trigger] self.entries@[i].is(es[i], d)
    }

    /// Parse a sample description box from a buffer.
    pub fn parse(data: &[u8]) -> (r: Result<Self>)
        ensures
            match Self::outcome(data@) {
                Ok(_) => r matches Ok(b) && b.parsed_from(data@),
                Err(e) => r == Err::<Self, Error>(e),
            },
    {
        let mut stream = ReadStream::new(data);
        let version = stream.read_u8()?;
        let flags = stream.read_u24()?;
        let entry_count = stream.read_u32()?;
        let ghost d = data@;
        let ghost mut done: Seq<SampleEntrySpec> = Seq::empty();
        let mut entries: Vec<SampleDescription> = Vec::new();
        let mut i: u32 = 0;
        while i < entry_count
            invariant
                stream.inv(),
                stream.bytes() == d,
                d == data@,
                d.len() >= 8,
                entry_count == be32(d, 4),
                i <= entry_count,
                sample_entries(d, 8, entry_count as nat) == match sample_entries(d, stream.pos(), (entry_count - i) as nat) {
                    Err(e) => Err(e),
                    Ok(rest) => Ok(done + rest),
                },
                entries@.len() == done.len(),
                forall|j: int| 0 <= j < done.len() ==> #[trigger] entries@[j].is(done[j], d),
            decreases entry_count - i,
        {
            let ghost p = stream.pos();
            let entry = read_sample_entry(&mut stream)?;
            proof {
                let (e, end) = sample_entry_at(d, p)->Ok_0;
                let rest = sample_entries(d, end, (entry_count - i - 1) as nat);
                match rest {
                    Ok(x) => {
                        assert(done + (seq![e] + x) =~= done.push(e) + x);
                    },
                    Err(_) => {},
                }
                done = done.push(e);
            }
            entries.push(entry);
            i = i + 1;
        }
        Ok(Self { version, flags, entries })
    }
}


// ---------------------------------------------------------------------------
// The sample table itself.

/// The payloads of the child boxes of a sample table that have been taken up;
/// the chunk offsets with whether they came from a 64-bit box.
pub struct StblAcc {
    /// Payload of `stsd`.
    pub stsd: Option<Seq<u8>>,
    /// Payload of `stts`.
    pub stts: Option<Seq<u8>>,
    /// Payload of `stsc`.
    pub stsc: Option<Seq<u8>>,
    /// Payload of `stsz`.
    pub stsz: Option<Seq<u8>>,
    /// Payload of `stco` or `co64`, and whether it was `co64`.
    pub offsets: Option<(Seq<u8>, bool)>,
    /// Payload of `stss`.
    pub stss: Option<Seq<u8>>,
}

/// One child box of a sample table. A second chunk offset box of either kind
/// is refused under the code of the second one.
pub open spec fn stbl_step(a: StblAcc, t: Seq<u8>, pl: Seq<u8>) -> Result<StblAcc> {
    if t == STSD@ {
        match take_once(a.stsd, STSD, SampleDescriptionBox::outcome(pl), pl) {
            Err(e) => Err(e),
            Ok(s) => Ok(StblAcc { stsd: s, ..a }),
        }
    } else if t == STTS@ {
        match take_once(a.stts, STTS, TimeToSampleBox::outcome(pl), pl) {
            Err(e) => Err(e),
            Ok(s) => Ok(StblAcc { stts: s, ..a }),
        }
    } else if t == STSC@ {
        match take_once(a.stsc, STSC, SampleToChunkBox::outcome(pl), pl) {
            Err(e) => Err(e),
            Ok(s) => Ok(StblAcc { stsc: s, ..a }),
        }
    } else if t == STSZ@ {
        match take_once(a.stsz, STSZ, SampleSizeBox::outcome(pl), pl) {
            Err(e) => Err(e),
            Ok(s) => Ok(StblAcc { stsz: s, ..a }),
        }
    } else if t == STCO@ || t == CO64@ {
        let wide = t == CO64@;
        if a.offsets is Some {
            Err(bmff(BmffError::DuplicateBox(if wide { CO64 } else { STCO })))
        } else {
            match if wide { ChunkOffsetBox::co64_outcome(pl) } else { ChunkOffsetBox::stco_outcome(pl) } {
                Err(e) => Err(e),
                Ok(_) => Ok(StblAcc { offsets: Some((pl, wide)), ..a }),
            }
        }
    } else if t == STSS@ {
        match take_once(a.stss, STSS, SyncSampleBox::outcome(pl), pl) {
            Err(e) => Err(e),
            Ok(s) => Ok(StblAcc { stss: s, ..a }),
        }
    } else {
        Ok(a)
    }
}

/// `stbl_step` as a value.
pub open spec fn stbl_step_fn() -> spec_fn(StblAcc, Seq<u8>, Seq<u8>) -> Result<StblAcc> {
    |a: StblAcc, t: Seq<u8>, pl: Seq<u8>| stbl_step(a, t, pl)
}

/// A sample table before any child box.
pub open spec fn stbl_start() -> StblAcc {
    StblAcc { stsd: None, stts: None, stsc: None, stsz: None, offsets: None, stss: None }
}

impl SampleTableBox {
    /// The child boxes of the sample table in `d`, walked.
    pub open spec fn children(d: Seq<u8>) -> Result<StblAcc> {
        walk(d, 0, stbl_start(), stbl_step_fn(), false)
    }

    /// Whether `d` parses as a sample table box, and else the error.
    pub open spec fn outcome(d: Seq<u8>) -> Result<()> {
        match Self::children(d) {
            Err(e) => Err(e),
            Ok(_) => Ok(()),
        }
    }

    /// The child boxes are those parsed from the payloads of `a`.
    pub open spec fn holds(&self, a: StblAcc) -> bool {
        &&& (self.stsd is Some <==> a.stsd is Some)
        &&& (self.stsd matches Some(b) ==> b.parsed_from(a.stsd->0))
        &&& (self.stts is Some <==> a.stts is Some)
        &&& (self.stts matches Some(b) ==> b.parsed_from(a.stts->0))
        &&& (self.stsc is Some <==> a.stsc is Some)
        &&& (self.stsc matches Some(b) ==> b.parsed_from(a.stsc->0))
        &&& (self.stsz is Some <==> a.stsz is Some)
        &&& (self.stsz matches Some(b) ==> b.parsed_from(a.stsz->0))
        &&& (self.stco is Some <==> a.offsets is Some)
        &&& (self.stco matches Some(b) ==> match a.offsets {
            Some((pl, true)) => b.co64_from(pl),
            Some((pl, false)) => b.stco_from(pl),
            None => false,
        })
        &&& (self.stss is Some <==> a.stss is Some)
        &&& (self.stss matches Some(b) ==> b.parsed_from(a.stss->0))
    }

    /// The fields are those that `d` holds: each child box parsed from the
    /// payload that the walk took up.
    pub open spec fn parsed_from(&self, d: Seq<u8>) -> bool {
        Self::children(d) matches Ok(a) && self.holds(a)
    }

    /// Parse a sample table box from a buffer.
    pub fn parse(data: &[u8]) -> (r: Result<Self>)
        ensures
            match Self::outcome(data@) {
                Ok(_) => r matches Ok(b) && b.parsed_from(data@),
                Err(e) => r == Err::<Self, Error>(e),
            },
    {
        let mut stream = ReadStream::new(data);
        let mut t = SampleTableBox { stsd: None, stts: None, stsc: None, stsz: None, stco: None, stss: None };
        let ghost d = data@;
        let ghost mut acc = stbl_start();
        while stream.has_more()
            invariant
                stream.inv(),
                stream.bytes() == d,
                d == data@,
                Self::children(d) == walk(d, stream.pos(), acc, stbl_step_fn(), false),
                t.holds(acc),
            decreases d.len() - stream.pos(),
        {
            let ghost p = stream.pos();
            let (box_type, data_size) = read_child_header(&mut stream)?;
            let ghost pl = d.subrange(p + 8, p + 8 + data_size);
            if same_code(&box_type, &STSD) {
                if t.stsd.is_some() {
                    return Err(Error::BmffParse(BmffError::DuplicateBox(STSD)));
                }
                let box_data = stream.read_exact_buffer(data_size)?;
                t.stsd = Some(SampleDescriptionBox::parse(box_data.as_slice())?);
                proof { acc = StblAcc { stsd: Some(pl), ..acc }; }
            } else if same_code(&box_type, &STTS) {
                if t.stts.is_some() {
                    return Err(Error::BmffParse(BmffError::DuplicateBox(STTS)));
                }
                let box_data = stream.read_exact_buffer(data_size)?;
                t.stts = Some(TimeToSampleBox::parse(box_data.as_slice())?);
                proof { acc = StblAcc { stts: Some(pl), ..acc }; }
            } else if same_code(&box_type, &STSC) {
                if t.stsc.is_some() {
                    return Err(Error::BmffParse(BmffError::DuplicateBox(STSC)));
                }
                let box_data = stream.read_exact_buffer(data_size)?;
                t.stsc = Some(SampleToChunkBox::parse(box_data.as_slice())?);
                proof { acc = StblAcc { stsc: Some(pl), ..acc }; }
            } else if same_code(&box_type, &STSZ) {
                if t.stsz.is_some() {
                    return Err(Error::BmffParse(BmffError::DuplicateBox(STSZ)));
                }
                let box_data = stream.read_exact_buffer(data_size)?;
                t.stsz = Some(SampleSizeBox::parse(box_data.as_slice())?);
                proof { acc = StblAcc { stsz: Some(pl), ..acc }; }
            } else if same_code(&box_type, &STCO) {
                if t.stco.is_some() {
                    return Err(Error::BmffParse(BmffError::DuplicateBox(STCO)));
                }
                let box_data = stream.read_exact_buffer(data_size)?;
                t.stco = Some(ChunkOffsetBox::parse_stco(box_data.as_slice())?);
                proof { acc = StblAcc { offsets: Some((pl, false)), ..acc }; }
            } else if same_code(&box_type, &CO64) {
                if t.stco.is_some() {
                    return Err(Error::BmffParse(BmffError::DuplicateBox(CO64)));
                }
                let box_data = stream.read_exact_buffer(data_size)?;
                t.stco = Some(ChunkOffsetBox::parse_co64(box_data.as_slice())?);
                proof { acc = StblAcc { offsets: Some((pl, true)), ..acc }; }
            } else if same_code(&box_type, &STSS) {
                if t.stss.is_some() {
                    return Err(Error::BmffParse(BmffError::DuplicateBox(STSS)));
                }
                let box_data = stream.read_exact_buffer(data_size)?;
                t.stss = Some(SyncSampleBox::parse(box_data.as_slice())?);
                proof { acc = StblAcc { stss: Some(pl), ..acc }; }
            } else {
                stream.skip(data_size)?;
            }
        }
        Ok(t)
    }
}


/// A chunk-offset box of either kind.
pub open spec fn is_offsets() -> spec_fn(Seq<u8>) -> bool {
    |t: Seq<u8>| t == STCO@ || t == CO64@
}

/// The child boxes of a sample table decide its fields: each field is present
/// exactly when a child of its type occurs (the chunk offsets when an `stco` or
/// a `co64` occurs); a second `stsd`, `stts`, `stsc`, `stsz` or `stss`, a second
/// chunk-offset box of either kind, or a malformed child header is refused.
pub proof fn lemma_sample_table_children(d: Seq<u8>)
    ensures
        SampleTableBox::outcome(d) is Ok ==> headers_ok(d, 0, false),
        child_count(d, 0, is_code(STSD@), false) >= 2 ==> SampleTableBox::outcome(d) is Err,
        child_count(d, 0, is_code(STTS@), false) >= 2 ==> SampleTableBox::outcome(d) is Err,
        child_count(d, 0, is_code(STSC@), false) >= 2 ==> SampleTableBox::outcome(d) is Err,
        child_count(d, 0, is_code(STSZ@), false) >= 2 ==> SampleTableBox::outcome(d) is Err,
        child_count(d, 0, is_code(STSS@), false) >= 2 ==> SampleTableBox::outcome(d) is Err,
        child_count(d, 0, is_offsets(), false) >= 2 ==> SampleTableBox::outcome(d) is Err,
        forall|b: SampleTableBox| #[trigger] b.parsed_from(d) ==> {
            &&& (b.stsd is Some <==> child_count(d, 0, is_code(STSD@), false) > 0)
            &&& (b.stts is Some <==> child_count(d, 0, is_code(STTS@), false) > 0)
            &&& (b.stsc is Some <==> child_count(d, 0, is_code(STSC@), false) > 0)
            &&& (b.stsz is Some <==> child_count(d, 0, is_code(STSZ@), false) > 0)
            &&& (b.stss is Some <==> child_count(d, 0, is_code(STSS@), false) > 0)
            &&& (b.stco is Some <==> child_count(d, 0, is_offsets(), false) > 0)
        },
{
    let f = stbl_step_fn();
    let s = stbl_start();
    lemma_walk_headers(d, 0, s, f, false);
    lemma_walk_counts(d, 0, s, f, false, is_code(STSD@), |a: StblAcc| if a.stsd is Some { 1int } else { 0int });
    lemma_walk_once(d, 0, s, f, false, is_code(STSD@), |a: StblAcc| a.stsd is Some);
    lemma_walk_counts(d, 0, s, f, false, is_code(STTS@), |a: StblAcc| if a.stts is Some { 1int } else { 0int });
    lemma_walk_once(d, 0, s, f, false, is_code(STTS@), |a: StblAcc| a.stts is Some);
    lemma_walk_counts(d, 0, s, f, false, is_code(STSC@), |a: StblAcc| if a.stsc is Some { 1int } else { 0int });
    lemma_walk_once(d, 0, s, f, false, is_code(STSC@), |a: StblAcc| a.stsc is Some);
    lemma_walk_counts(d, 0, s, f, false, is_code(STSZ@), |a: StblAcc| if a.stsz is Some { 1int } else { 0int });
    lemma_walk_once(d, 0, s, f, false, is_code(STSZ@), |a: StblAcc| a.stsz is Some);
    lemma_walk_counts(d, 0, s, f, false, is_code(STSS@), |a: StblAcc| if a.stss is Some { 1int } else { 0int });
    lemma_walk_once(d, 0, s, f, false, is_code(STSS@), |a: StblAcc| a.stss is Some);
    lemma_walk_counts(d, 0, s, f, false, is_offsets(), |a: StblAcc| if a.offsets is Some { 1int } else { 0int });
    lemma_walk_once(d, 0, s, f, false, is_offsets(), |a: StblAcc| a.offsets is Some);
}


/// `n` sample entries that parse are `n` entries.
pub proof fn lemma_sample_entries_count(d: Seq<u8>, p: int, n: nat)
    ensures
        sample_entries(d, p, n) matches Ok(es) ==> es.len() == n,
    decreases n,
{
    if n > 0 {
        if let Ok((e, end)) = sample_entry_at(d, p) {
            lemma_sample_entries_count(d, end, (n - 1) as nat);
        }
    }
}

impl SampleDescriptionBox {
    /// A sample description box that parses has one description per entry of
    /// its entry count, and each visual description's compressor name comes
    /// from at most the 31 bytes after its length byte.
    pub proof fn lemma_entry_count(&self, d: Seq<u8>)
        requires
            self.parsed_from(d),
        ensures
            self.entries@.len() == be32(d, 4),
            sample_entries(d, 8, be32(d, 4) as nat) matches Ok(es) && forall|i: int|
                0 <= i < es.len() ==> (#[trigger] es[i] matches SampleEntrySpec::Visual { start, .. } ==> d[start + 50] <= 31),
    {
        lemma_sample_entries_count(d, 8, be32(d, 4) as nat);
        lemma_sample_entries_names(d, 8, be32(d, 4) as nat);
    }
}

/// In `n` sample entries that parse, the length byte of each visual entry's
/// compressor name is at most 31.
pub proof fn lemma_sample_entries_names(d: Seq<u8>, p: int, n: nat)
    ensures
        sample_entries(d, p, n) matches Ok(es) ==> forall|i: int|
            0 <= i < es.len() ==> (#[trigger] es[i] matches SampleEntrySpec::Visual { start, .. } ==> d[start + 50] <= 31),
    decreases n,
{
    if n > 0 {
        if let Ok((e, end)) = sample_entry_at(d, p) {
            lemma_sample_entries_names(d, end, (n - 1) as nat);
            if let Ok(es) = sample_entries(d, p, n) {
                let rest = sample_entries(d, end, (n - 1) as nat)->Ok_0;
                assert forall|i: int| 0 <= i < es.len() implies (#[trigger] es[i] matches SampleEntrySpec::Visual { start, .. } ==> d[start + 50] <= 31) by {
                    if i > 0 {
                        assert(es[i] == rest[i - 1]);
                    }
                }
            }
        }
    }
}

} // verus!
