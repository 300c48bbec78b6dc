//! Item Information Box implementation.

use vstd::prelude::*;
use crate::bmff::fourcc::{same_code, AV01, AV02, AVIS, GRID, IDEN, IOVL};
use crate::error::{bmff, eof, BmffError, Error, Result};
use crate::io::{be16, be32, lemma_u16_at, lemma_u16_roundtrip, lemma_u32_at, nul_index, u16_bytes, u32_bytes, ReadStream};
use crate::text::latin1;

verus! {

/// Item information entry.
#[derive(Debug)]
pub struct ItemInfoEntry {
    /// Item ID.
    pub item_id: u32,
    /// Item type.
    pub item_type: [u8; 4],
    /// Item name.
    pub item_name: String,
    /// Content type.
    pub content_type: Option<String>,
}

/// Where the reading of a null-terminated string from `i` stops: past its
/// zero byte, or at the end of the data.
pub open spec fn after_string(d: Seq<u8>, i: int) -> int {
    if nul_index(d, i) < d.len() { nul_index(d, i) + 1 } else { d.len() as int }
}

/// `nul_index` lies between its start and the end of the data.
pub proof fn lemma_nul_index_bounds(d: Seq<u8>, i: int)
    requires
        0 <= i <= d.len(),
    ensures
        i <= nul_index(d, i) <= d.len(),
    decreases d.len() - i,
{
    if i < d.len() && d[i] != 0 {
        lemma_nul_index_bounds(d, i + 1);
    }
}

impl ItemInfoEntry {
    /// The size of the item ID in an entry of this version.
    pub open spec fn id_size(version: u8) -> int {
        if version == 0 { 2 } else { 4 }
    }

    /// Whether `d` parses as an item information entry, and else the error.
    pub open spec fn outcome(d: Seq<u8>, version: u8) -> Result<()> {
        if d.len() < Self::id_size(version) + 6 { Err(eof()) } else { Ok(()) }
    }

    /// The fields are those that `d` holds: item ID, two bytes of protection
    /// index, item type, a null-terminated name and, if bytes remain, a
    /// null-terminated content type.
    pub open spec fn parsed_from(&self, d: Seq<u8>, version: u8) -> bool {
        let s = Self::id_size(version);
        let name_start = s + 6;
        let rest = if name_start >= d.len() { name_start } else { after_string(d, name_start) };
        &&& self.item_id == if version == 0 { be16(d, 0) } else { be32(d, 0) }
        &&& self.item_type@ == d.subrange(s + 2, s + 6)
        &&& self.item_name@ == latin1(d.subrange(name_start, nul_index(d, name_start)))
        &&& if rest < d.len() {
            self.content_type matches Some(c) && c@ == latin1(d.subrange(rest, nul_index(d, rest)))
        } else {
            self.content_type is None
        }
    }

    /// Parse an item information entry from a buffer.
    pub fn parse(data: &[u8], version: u8) -> (r: Result<Self>)
        ensures
            match Self::outcome(data@, version) {
                Ok(_) => r matches Ok(b) && b.parsed_from(data@, version),
                Err(e) => r == Err::<Self, Error>(e),
            },
    {
        let mut stream = ReadStream::new(data);
        let item_id = if version == 0 {
            stream.read_u16()? as u32
        } else {
            stream.read_u32()?
        };
        stream.skip(2)?;
        let item_type = stream.read_code()?;
        let item_name = stream.read_string()?;
        let content_type = if stream.has_more() {
            Some(stream.read_string()?)
        } else {
            None
        };
        Ok(Self { item_id, item_type, item_name, content_type })
    }

    /// Check if this is an image item: `avis`, `av01`, `av02`, `grid`, `iden` or `iovl`.
    pub fn is_image(&self) -> (r: bool)
        ensures
            r == (self.item_type@ == AVIS@ || self.item_type@ == AV01@ || self.item_type@ == AV02@
                || self.item_type@ == GRID@ || self.item_type@ == IDEN@ || self.item_type@ == IOVL@),
    {
        same_code(&self.item_type, &AVIS) || same_code(&self.item_type, &AV01) || same_code(
            &self.item_type,
            &AV02,
        ) || same_code(&self.item_type, &GRID) || same_code(&self.item_type, &IDEN) || same_code(
            &self.item_type,
            &IOVL,
        )
    }
}

/// Item information box.
#[derive(Debug)]
pub struct ItemInfoBox {
    /// Version.
    pub version: u8,
    /// Entries.
    pub entries: Vec<ItemInfoEntry>,
}

/// Where `n` entries, each a 16-bit size and then the entry, start from `p`:
/// the list of the positions after their size fields, or the first error.
/// An entry is parsed from its start to the end of the box; the next entry
/// follows its declared size.
pub open spec fn iinf_entries(d: Seq<u8>, version: u8, p: int, n: nat) -> Result<Seq<int>>
    decreases n,
{
    if n == 0 {
        Ok(Seq::empty())
    } else if d.len() - p < 2 {
        Err(eof())
    } else if be16(d, p) < 4 {
        Err(bmff(BmffError::EntrySizeTooSmall(be16(d, p) as u16)))
    } else {
        match ItemInfoEntry::outcome(d.subrange(p + 2, d.len() as int), version) {
            Err(e) => Err(e),
            Ok(_) => if p + 2 + be16(d, p) > d.len() {
                Err(bmff(BmffError::EntryBeyondEnd))
            } else {
                match iinf_entries(d, version, p + 2 + be16(d, p), (n - 1) as nat) {
                    Err(e) => Err(e),
                    Ok(rest) => Ok(seq![p + 2] + rest),
                }
            },
        }
    }
}

/// `prefix` followed by what `r` holds.
pub open spec fn after_prefix(prefix: Seq<int>, r: Result<Seq<int>>) -> Result<Seq<int>> {
    match r {
        Err(e) => Err(e),
        Ok(rest) => Ok(prefix + rest),
    }
}

impl ItemInfoBox {
    /// The entry count field's size for this version.
    pub open spec fn count_size(version: u8) -> int {
        if version == 0 { 2 } else { 4 }
    }

    /// The entry count of the box in `d` (with at least its header present).
    pub open spec fn entry_count(d: Seq<u8>) -> int {
        if d[0] == 0 { be16(d, 4) } else { be32(d, 4) }
    }

    /// Whether `d` parses as an item information box, and else the error.
    pub open spec fn outcome(d: Seq<u8>) -> Result<()> {
        if d.len() < 4 {
            Err(eof())
        } else if d.len() < 4 + Self::count_size(d[0]) {
            Err(eof())
        } else {
            match iinf_entries(d, d[0], 4 + Self::count_size(d[0]), Self::entry_count(d) as nat) {
                Err(e) => Err(e),
                Ok(_) => Ok(()),
            }
        }
    }

    /// The fields are those that `d` holds: the version, and one entry for each
    /// position that `iinf_entries` gives.
    pub open spec fn parsed_from(&self, d: Seq<u8>) -> bool {
        &&& self.version == d[0]
        &&& iinf_entries(d, d[0], 4 + Self::count_size(d[0]), Self::entry_count(d) as nat) matches Ok(starts)
            && self.entries@.len() == starts.len() && forall|i: int|
            0 <= i < starts.len() ==> #[trigger] self.entries@[i].parsed_from(
                d.subrange(starts[i], d.len() as int),
                d[0],
            )
    }

    /// Parse an item information box from a buffer.
    pub fn parse(data: &[u8]) -> (r: Result<Self>)
        ensures
            match Self::outcome(data@) {
                Ok(_) => r matches Ok(b) && b.parsed_from(data@),
                Err(e) => r == Err::<Self, Error>(e),
            },
    {
        let mut stream = ReadStream::new(data);
        let (version, _) = stream.read_version_and_flags()?;
        let entry_count = if version == 0 {
            stream.read_u16()? as u32
        } else {
            stream.read_u32()?
        };
        let ghost d = data@;
        let ghost p0 = stream.pos();
        let ghost mut starts: Seq<int> = Seq::empty();
        let mut entries: Vec<ItemInfoEntry> = Vec::new();
        let mut i: u32 = 0;
        while i < entry_count
            invariant
                stream.inv(),
                stream.bytes() == d,
                d == data@,
                d.len() >= 4,
                version == d[0],
                entry_count == Self::entry_count(d),
                p0 == 4 + Self::count_size(d[0]),
                d.len() >= p0,
                i <= entry_count,
                iinf_entries(d, version, p0, entry_count as nat) == after_prefix(
                    starts,
                    iinf_entries(d, version, stream.pos(), (entry_count - i) as nat),
                ),
                entries@.len() == starts.len(),
                forall|j: int|
                    0 <= j < starts.len() ==> #[trigger] entries@[j].parsed_from(
                        d.subrange(starts[j], d.len() as int),
                        version,
                    ),
            decreases entry_count - i,
        {
            let ghost p = stream.pos();
            let ghost n = (entry_count - i) as nat;
            assert(n > 0);
            let entry_size = match stream.read_u16() {
                Ok(v) => v as usize,
                Err(e) => {
                    assert(iinf_entries(d, version, p, n) == Err::<Seq<int>, Error>(eof()));
                    return Err(e);
                },
            };
            if entry_size < 4 {
                assert(iinf_entries(d, version, p, n) == Err::<Seq<int>, Error>(bmff(BmffError::EntrySizeTooSmall(entry_size as u16))));
                return Err(Error::BmffParse(BmffError::EntrySizeTooSmall(entry_size as u16)));
            }
            let entry_start = stream.position();
            let entry = ItemInfoEntry::parse(stream.remaining(), version)?;
            entries.push(entry);
            if entry_size > stream.data().len() - entry_start {
                return Err(Error::BmffParse(BmffError::EntryBeyondEnd));
            }
            let entry_end = entry_start + entry_size;
            stream.set_position(entry_end)?;
            proof {
                let rest = iinf_entries(d, version, entry_end as int, (entry_count - i - 1) as nat);
                assert(iinf_entries(d, version, p, (entry_count - i) as nat) == after_prefix(
                    seq![p + 2],
                    rest,
                ));
                match rest {
                    Ok(x) => {
                        assert(starts + (seq![p + 2] + x) =~= starts.push(p + 2) + x);
                    },
                    Err(_) => {},
                }
                starts = starts.push(p + 2);
            }
            i = i + 1;
        }
        Ok(Self { version, entries })
    }

    /// Find an entry by item ID: the first with that ID.
    pub fn find_entry(&self, item_id: u32) -> (r: Option<&ItemInfoEntry>)
        ensures
            match r {
                Some(e) => exists|i: int|
                    0 <= i < self.entries@.len() && self.entries@[i] == *e && e.item_id == item_id
                        && forall|j: int| 0 <= j < i ==> #[trigger] self.entries@[j].item_id != item_id,
                None => forall|j: int| 0 <= j < self.entries@.len() ==> #[trigger] self.entries@[j].item_id != item_id,
            },
    {
        let mut i: usize = 0;
        while i < self.entries.len()
            invariant
                i <= self.entries@.len(),
                forall|j: int| 0 <= j < i ==> #[trigger] self.entries@[j].item_id != item_id,
            decreases self.entries@.len() - i,
        {
            if self.entries[i].item_id == item_id {
                return Some(&self.entries[i]);
            }
            i = i + 1;
        }
        None
    }
}


/// `n` item-info entries that parse are `n` entries.
pub proof fn lemma_iinf_entries_count(d: Seq<u8>, version: u8, p: int, n: nat)
    ensures
        iinf_entries(d, version, p, n) matches Ok(ps) ==> ps.len() == n,
    decreases n,
{
    if n > 0 && d.len() - p >= 2 {
        lemma_iinf_entries_count(d, version, p + 2 + be16(d, p), (n - 1) as nat);
    }
}

impl ItemInfoBox {
    /// An item information box that parses has one entry per item of its entry count.
    pub proof fn lemma_entry_count(&self, d: Seq<u8>)
        requires
            self.parsed_from(d),
        ensures
            self.entries@.len() == Self::entry_count(d),
    {
        lemma_iinf_entries_count(d, d[0], 4 + Self::count_size(d[0]), Self::entry_count(d) as nat);
    }
}


/// An item information entry holds the item ID (two big-endian bytes in
/// version 0, four in later versions), two bytes of protection index and then
/// the item type: an entry so written parses, whatever follows, and gives back
/// that ID and that type.
pub proof fn lemma_infe_read_back(
    short_id: u16,
    long_id: u32,
    version: u8,
    protection: Seq<u8>,
    item_type: Seq<u8>,
    rest: Seq<u8>,
    e: ItemInfoEntry,
)
    requires
        version != 0,
        protection.len() == 2,
        item_type.len() == 4,
    ensures
        ItemInfoEntry::outcome(u16_bytes(short_id as int) + protection + item_type + rest, 0) is Ok,
        ItemInfoEntry::outcome(u32_bytes(long_id as int) + protection + item_type + rest, version) is Ok,
        e.parsed_from(u16_bytes(short_id as int) + protection + item_type + rest, 0) ==> {
            &&& e.item_id == short_id
            &&& e.item_type@ == item_type
        },
        e.parsed_from(u32_bytes(long_id as int) + protection + item_type + rest, version) ==> {
            &&& e.item_id == long_id
            &&& e.item_type@ == item_type
        },
{
    let d0 = u16_bytes(short_id as int) + protection + item_type + rest;
    assert(d0[0] == u16_bytes(short_id as int)[0]);
    assert(d0[1] == u16_bytes(short_id as int)[1]);
    lemma_u16_roundtrip(short_id);
    assert(d0.subrange(4, 8) =~= item_type);
    let d1 = u32_bytes(long_id as int) + protection + item_type + rest;
    assert(d1.subrange(0, 4) =~= u32_bytes(long_id as int));
    lemma_u32_at(d1, 0, long_id);
    assert(d1.subrange(6, 10) =~= item_type);
}


/// A version 0 item information box with one entry holds, after the version
/// and flags, the entry count 1, then the entry's size in two big-endian bytes
/// and the entry itself: a box so written parses and gives back one entry,
/// with the entry's item ID and item type.
pub proof fn lemma_iinf_one_entry(
    flags: Seq<u8>,
    item_id: u16,
    protection: Seq<u8>,
    item_type: Seq<u8>,
    tail: Seq<u8>,
    b: ItemInfoBox,
)
    requires
        flags.len() == 3,
        protection.len() == 2,
        item_type.len() == 4,
        8 + tail.len() <= u16::MAX,
    ensures
        ({
            let e = u16_bytes(item_id as int) + protection + item_type + tail;
            ItemInfoBox::outcome(seq![0u8] + flags + u16_bytes(1) + u16_bytes(e.len() as int) + e) is Ok
        }),
        ({
            let e = u16_bytes(item_id as int) + protection + item_type + tail;
            b.parsed_from(seq![0u8] + flags + u16_bytes(1) + u16_bytes(e.len() as int) + e) ==> {
                &&& b.version == 0
                &&& b.entries@.len() == 1
                &&& b.entries@[0].item_id == item_id
                &&& b.entries@[0].item_type@ == item_type
            }
        }),
{
    let e = u16_bytes(item_id as int) + protection + item_type + tail;
    let n = e.len() as int;
    let d = seq![0u8] + flags + u16_bytes(1) + u16_bytes(n) + e;
    assert(d.len() == 8 + n);
    assert(d[0] == 0);
    assert(d.subrange(4, 6) =~= u16_bytes(1));
    assert(d.subrange(6, 8) =~= u16_bytes(n));
    lemma_u16_at(d, 4, 1);
    lemma_u16_at(d, 6, n as u16);
    assert(d.subrange(8, d.len() as int) =~= e);
    assert(ItemInfoEntry::outcome(e, 0) is Ok);
    assert(iinf_entries(d, 0, 8 + n, 0) == Ok::<Seq<int>, Error>(Seq::<int>::empty()));
    assert(iinf_entries(d, 0, 6, 1) == Ok::<Seq<int>, Error>(seq![8int] + Seq::<int>::empty()));
    assert(seq![8int] + Seq::<int>::empty() =~= seq![8int]);
    if b.parsed_from(d) {
        assert(b.entries@[0].parsed_from(d.subrange(seq![8int][0], d.len() as int), 0));
        lemma_infe_read_back(item_id, 0, 1, protection, item_type, tail, b.entries@[0]);
    }
}

} // verus!
