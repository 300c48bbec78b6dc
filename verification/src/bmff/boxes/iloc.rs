//! Item Location Box implementation.

use vstd::prelude::*;
use crate::error::{bmff, eof, BmffError, Error, Result};
use crate::io::{be16, be32, be64, lemma_u16_roundtrip, lemma_u32_at, u16_bytes, u32_bytes, ReadStream};

verus! {

/// Item extent.
#[derive(Debug, Clone)]
pub struct ItemExtent {
    /// Extent offset.
    pub extent_offset: u64,
    /// Extent length.
    pub extent_length: u64,
    /// Extent index (for construction method 1).
    pub extent_index: Option<u64>,
}

/// Item location entry.
#[derive(Debug)]
pub struct ItemLocationEntry {
    /// Item ID.
    pub item_id: u32,
    /// Construction method.
    pub construction_method: u8,
    /// Data reference index.
    pub data_reference_index: u16,
    /// Base offset.
    pub base_offset: u64,
    /// Extents.
    pub extents: Vec<ItemExtent>,
}

/// Item location box.
#[derive(Debug)]
pub struct ItemLocationBox {
    /// Version.
    pub version: u8,
    /// Offset size.
    pub offset_size: u8,
    /// Length size.
    pub length_size: u8,
    /// Base offset size.
    pub base_offset_size: u8,
    /// Index size (only used in version 1 and 2).
    pub index_size: u8,
    /// Entries.
    pub entries: Vec<ItemLocationEntry>,
}

/// The byte sizes of the variable-size fields of an item location box.
pub struct IlocSizes {
    /// Size of each extent offset.
    pub offset: int,
    /// Size of each extent length.
    pub length: int,
    /// Size of each base offset.
    pub base: int,
    /// Size of each extent index (0: absent).
    pub index: int,
}

/// An extent as the bytes describe it.
pub struct ExtentSpec {
    /// Extent offset.
    pub offset: int,
    /// Extent length.
    pub length: int,
    /// Extent index, where index fields are present.
    pub index: Option<int>,
}

/// An item location entry as the bytes describe it.
pub struct ItemSpec {
    /// Item ID.
    pub item_id: int,
    /// Construction method.
    pub construction_method: int,
    /// Data reference index.
    pub data_reference_index: int,
    /// Base offset.
    pub base_offset: int,
    /// Extent count.
    pub extent_count: int,
    /// Extents.
    pub extents: Seq<ExtentSpec>,
}

/// The value of a field of `size` bytes (0, 4 or 8) at `p`; a zero-size field is 0.
pub open spec fn sized(d: Seq<u8>, p: int, size: int) -> int {
    if size == 4 {
        be32(d, p)
    } else if size == 8 {
        be64(d, p)
    } else {
        0
    }
}

/// A field size that this box accepts.
pub open spec fn valid_size(s: int) -> bool {
    s == 0 || s == 4 || s == 8
}

/// `n` extents from `p`: each an optional index, an offset and a length; with
/// where they end.
pub open spec fn extents_at(d: Seq<u8>, p: int, n: nat, sz: IlocSizes) -> Result<(Seq<ExtentSpec>, int)>
    decreases n,
{
    if n == 0 {
        Ok((Seq::empty(), p))
    } else if d.len() - p < sz.index {
        Err(eof())
    } else {
        let index = if sz.index > 0 { Some(sized(d, p, sz.index)) } else { None };
        let p1 = p + sz.index;
        if d.len() - p1 < sz.offset {
            Err(eof())
        } else {
            let p2 = p1 + sz.offset;
            if d.len() - p2 < sz.length {
                Err(eof())
            } else {
                let e = ExtentSpec { offset: sized(d, p1, sz.offset), length: sized(d, p2, sz.length), index };
                match extents_at(d, p2 + sz.length, (n - 1) as nat, sz) {
                    Err(err) => Err(err),
                    Ok((rest, end)) => Ok((seq![e] + rest, end)),
                }
            }
        }
    }
}

/// The entry at `p` for this version: item ID, construction method and data
/// reference index, base offset and extents; with where it ends.
pub open spec fn item_at(d: Seq<u8>, p: int, version: u8, sz: IlocSizes) -> Result<(ItemSpec, int)> {
    let id_len = if version < 2 { 2int } else { 4int };
    if d.len() - p < id_len {
        Err(eof())
    } else {
        let id = if version < 2 { be16(d, p) } else { be32(d, p) };
        let p1 = p + id_len;
        if d.len() - p1 < 2 {
            Err(eof())
        } else {
            let r = be16(d, p1);
            if version != 0 && r % 16 > 1 {
                Err(bmff(BmffError::UnsupportedConstructionMethod((r % 16) as u8)))
            } else {
                let cm = if version == 0 { 0 } else { r % 16 };
                let dri = if version == 0 { r } else { (r / 16) % 4096 };
                let p2 = p1 + 2;
                if d.len() - p2 < sz.base {
                    Err(eof())
                } else {
                    let base = sized(d, p2, sz.base);
                    let p3 = p2 + sz.base;
                    if d.len() - p3 < 2 {
                        Err(eof())
                    } else {
                        match extents_at(d, p3 + 2, be16(d, p3) as nat, sz) {
                            Err(e) => Err(e),
                            Ok((es, end)) => Ok((ItemSpec { item_id: id, construction_method: cm, data_reference_index: dri, base_offset: base, extent_count: be16(d, p3), extents: es }, end)),
                        }
                    }
                }
            }
        }
    }
}

/// `n` entries from `p`.
pub open spec fn items_at(d: Seq<u8>, p: int, n: nat, version: u8, sz: IlocSizes) -> Result<Seq<ItemSpec>>
    decreases n,
{
    if n == 0 {
        Ok(Seq::empty())
    } else {
        match item_at(d, p, version, sz) {
            Err(e) => Err(e),
            Ok((it, end)) => match items_at(d, end, (n - 1) as nat, version, sz) {
                Err(e) => Err(e),
                Ok(rest) => Ok(seq![it] + rest),
            },
        }
    }
}

impl ItemExtent {
    /// This extent is the one the bytes describe.
    pub open spec fn is(&self, e: ExtentSpec) -> bool {
        &&& self.extent_offset == e.offset
        &&& self.extent_length == e.length
        &&& match self.extent_index {
            Some(i) => e.index == Some(i as int),
            None => e.index is None,
        }
    }
}

impl ItemLocationEntry {
    /// This entry is the one the bytes describe.
    pub open spec fn is(&self, it: ItemSpec) -> bool {
        &&& self.item_id == it.item_id
        &&& self.construction_method == it.construction_method
        &&& self.data_reference_index == it.data_reference_index
        &&& self.base_offset == it.base_offset
        &&& self.extents@.len() == it.extents.len()
        &&& forall|i: int| 0 <= i < it.extents.len() ==> #[trigger] self.extents@[i].is(it.extents[i])
    }
}

/// Read a field of `size` bytes (0, 4 or 8).
fn read_sized(stream: &mut ReadStream, size: u8) -> (r: Result<u64>)
    requires
        old(stream).inv(),
        valid_size(size as int),
    ensures
        final(stream).inv(),
        final(stream).bytes() == old(stream).bytes(),
        old(stream).can_read(size as int) ==> (r matches Ok(v) && v == sized(old(stream).bytes(), old(stream).pos(), size as int))
            && final(stream).pos() == old(stream).pos() + size,
        !old(stream).can_read(size as int) ==> r == Err::<u64, Error>(eof()),
{
    if size == 4 {
        Ok(stream.read_u32()? as u64)
    } else if size == 8 {
        stream.read_u64()
    } else {
        Ok(0)
    }
}

/// Read `count` extents.
fn read_extents(stream: &mut ReadStream, count: u16, sizes: &ItemLocationBox, Ghost(sz): Ghost<IlocSizes>) -> (r: Result<Vec<ItemExtent>>)
    requires
        old(stream).inv(),
        valid_size(sizes.offset_size as int),
        valid_size(sizes.length_size as int),
        valid_size(sizes.index_size as int),
        sz.offset == sizes.offset_size,
        sz.length == sizes.length_size,
        sz.index == sizes.index_size,
    ensures
        final(stream).inv(),
        final(stream).bytes() == old(stream).bytes(),
        match extents_at(old(stream).bytes(), old(stream).pos(), count as nat, sz) {
            Err(e) => r == Err::<Vec<ItemExtent>, Error>(e),
            Ok((es, end)) => (r matches Ok(v) && v@.len() == es.len() && forall|i: int| 0 <= i < es.len() ==> #[trigger] v@[i].is(es[i]))
                && final(stream).pos() == end,
        },
{
    let ghost d = stream.bytes();
    let ghost p0 = stream.pos();
    let ghost mut done: Seq<ExtentSpec> = Seq::empty();
    let mut extents: Vec<ItemExtent> = Vec::new();
    let mut i: u16 = 0;
    while i < count
        invariant
            stream.inv(),
            stream.bytes() == d,
            d == old(stream).bytes(),
            p0 == old(stream).pos(),
            valid_size(sizes.offset_size as int),
            valid_size(sizes.length_size as int),
            valid_size(sizes.index_size as int),
            sz.offset == sizes.offset_size,
            sz.length == sizes.length_size,
            sz.index == sizes.index_size,
            i <= count,
            extents_at(d, p0, count as nat, sz) == match extents_at(d, stream.pos(), (count - i) as nat, sz) {
                Err(e) => Err(e),
                Ok((rest, end)) => Ok((done + rest, end)),
            },
            extents@.len() == done.len(),
            forall|j: int| 0 <= j < done.len() ==> #[trigger] extents@[j].is(done[j]),
        decreases count - i,
    {
        let ghost p = stream.pos();
        let extent_index = if sizes.index_size > 0 {
            Some(read_sized(stream, sizes.index_size)?)
        } else {
            None
        };
        let extent_offset = read_sized(stream, sizes.offset_size)?;
        let extent_length = read_sized(stream, sizes.length_size)?;
        let ext = ItemExtent { extent_offset, extent_length, extent_index };
        extents.push(ext);
        proof {
            let e = ExtentSpec {
                offset: sized(d, p + sz.index, sz.offset),
                length: sized(d, p + sz.index + sz.offset, sz.length),
                index: if sz.index > 0 { Some(sized(d, p, sz.index)) } else { None },
            };
            assert(ext.is(e));
            let rest = extents_at(d, stream.pos(), (count - i - 1) as nat, sz);
            match rest {
                Ok((x, end)) => {
                    assert(done + (seq![e] + x) =~= done.push(e) + x);
                },
                Err(_) => {},
            }
            done = done.push(e);
        }
        i = i + 1;
    }
    Ok(extents)
}

/// Read one entry.
fn read_entry(stream: &mut ReadStream, version: u8, sizes: &ItemLocationBox, Ghost(sz): Ghost<IlocSizes>) -> (r: Result<ItemLocationEntry>)
    requires
        old(stream).inv(),
        valid_size(sizes.offset_size as int),
        valid_size(sizes.length_size as int),
        valid_size(sizes.index_size as int),
        valid_size(sizes.base_offset_size as int),
        sz.offset == sizes.offset_size,
        sz.length == sizes.length_size,
        sz.index == sizes.index_size,
        sz.base == sizes.base_offset_size,
    ensures
        final(stream).inv(),
        final(stream).bytes() == old(stream).bytes(),
        match item_at(old(stream).bytes(), old(stream).pos(), version, sz) {
            Err(e) => r == Err::<ItemLocationEntry, Error>(e),
            Ok((it, end)) => (r matches Ok(x) && x.is(it)) && final(stream).pos() == end,
        },
{
    let item_id = if version < 2 {
        stream.read_u16()? as u32
    } else {
        stream.read_u32()?
    };
    let reserved = stream.read_u16()?;
    let (construction_method, data_reference_index) = if version == 0 {
        (0u8, reserved)
    } else {
        let construction_method = (reserved % 16) as u8;
        let data_reference_index = (reserved / 16) % 4096;
        if construction_method > 1 {
            return Err(Error::BmffParse(BmffError::UnsupportedConstructionMethod(construction_method)));
        }
        (construction_method, data_reference_index)
    };
    let base_offset = read_sized(stream, sizes.base_offset_size)?;
    let extent_count = stream.read_u16()?;
    let extents = read_extents(stream, extent_count, sizes, Ghost(sz))?;
    Ok(ItemLocationEntry { item_id, construction_method, data_reference_index, base_offset, extents })
}

impl ItemLocationBox {
    /// The field sizes that `d` declares (with at least its six header bytes).
    pub open spec fn sizes_of(d: Seq<u8>) -> IlocSizes {
        IlocSizes {
            offset: (d[4] / 16) as int,
            length: (d[4] % 16) as int,
            base: (d[5] / 16) as int,
            index: if d[0] == 0 { 0 } else { (d[5] % 16) as int },
        }
    }

    /// Where the entries start.
    pub open spec fn items_start(d: Seq<u8>) -> int {
        if d[0] < 2 { 8 } else { 10 }
    }

    /// The entry count.
    pub open spec fn item_count(d: Seq<u8>) -> int {
        if d[0] < 2 { be16(d, 6) } else { be32(d, 6) }
    }

    /// Whether `d` parses as an item location box, and else the error.
    pub open spec fn outcome(d: Seq<u8>) -> Result<()> {
        if d.len() < 4 {
            Err(eof())
        } else if d[0] > 2 {
            Err(bmff(BmffError::UnsupportedIlocVersion(d[0])))
        } else if d.len() < 6 {
            Err(eof())
        } else {
            let sz = Self::sizes_of(d);
            if !(valid_size(sz.offset) && valid_size(sz.length) && valid_size(sz.base) && valid_size(sz.index)) {
                Err(bmff(BmffError::InvalidIlocFieldSize(sz.offset as u8, sz.length as u8, sz.base as u8, sz.index as u8)))
            } else if d.len() < Self::items_start(d) {
                Err(eof())
            } else {
                match items_at(d, Self::items_start(d), Self::item_count(d) as nat, d[0], sz) {
                    Err(e) => Err(e),
                    Ok(_) => Ok(()),
                }
            }
        }
    }

    /// The fields are those that `d` holds.
    pub open spec fn parsed_from(&self, d: Seq<u8>) -> bool {
        let sz = Self::sizes_of(d);
        &&& self.version == d[0]
        &&& self.offset_size == sz.offset
        &&& self.length_size == sz.length
        &&& self.base_offset_size == sz.base
        &&& self.index_size == sz.index
        &&& items_at(d, Self::items_start(d), Self::item_count(d) as nat, d[0], sz) matches Ok(items)
            && self.entries@.len() == items.len() && forall|i: int|
            0 <= i < items.len() ==> #[trigger] self.entries@[i].is(items[i])
    }

    /// Parse an item location box from a buffer.
    pub fn parse(data: &[u8]) -> (r: Result<Self>)
        ensures
            match Self::outcome(data@) {
                Ok(_) => r matches Ok(b) && b.parsed_from(data@),
                Err(e) => r == Err::<Self, Error>(e),
            },
    {
        let mut stream = ReadStream::new(data);
        let (version, _) = stream.read_version_and_flags()?;
        if version > 2 {
            return Err(Error::BmffParse(BmffError::UnsupportedIlocVersion(version)));
        }
        let sizes = stream.read_u8()?;
        let offset_size = sizes / 16;
        let length_size = sizes % 16;
        let sizes2 = stream.read_u8()?;
        let base_offset_size = sizes2 / 16;
        let index_size = if version == 0 {
            0
        } else {
            sizes2 % 16
        };
        if (offset_size != 0 && offset_size != 4 && offset_size != 8) || (length_size != 0
            && length_size != 4 && length_size != 8) || (base_offset_size != 0 && base_offset_size
            != 4 && base_offset_size != 8) || (index_size != 0 && index_size != 4 && index_size
            != 8) {
            return Err(Error::BmffParse(BmffError::InvalidIlocFieldSize(offset_size, length_size, base_offset_size, index_size)));
        }
        let item_count = if version < 2 {
            stream.read_u16()? as u32
        } else {
            stream.read_u32()?
        };
        let mut result = Self {
            version,
            offset_size,
            length_size,
            base_offset_size,
            index_size,
            entries: Vec::new(),
        };
        let ghost d = data@;
        let ghost sz = Self::sizes_of(d);
        let ghost p0 = stream.pos();
        let ghost mut done: Seq<ItemSpec> = Seq::empty();
        let mut i: u32 = 0;
        while i < item_count
            invariant
                stream.inv(),
                stream.bytes() == d,
                d == data@,
                d.len() >= 6,
                version == d[0],
                version <= 2,
                p0 == Self::items_start(d),
                d.len() >= p0,
                item_count == Self::item_count(d),
                result.version == version,
                result.offset_size == sz.offset,
                result.length_size == sz.length,
                result.base_offset_size == sz.base,
                result.index_size == sz.index,
                sz == Self::sizes_of(d),
                valid_size(sz.offset) && valid_size(sz.length) && valid_size(sz.base) && valid_size(sz.index),
                i <= item_count,
                items_at(d, p0, item_count as nat, version, sz) == match items_at(d, stream.pos(), (item_count - i) as nat, version, sz) {
                    Err(e) => Err(e),
                    Ok(rest) => Ok(done + rest),
                },
                result.entries@.len() == done.len(),
                forall|j: int| 0 <= j < done.len() ==> #[trigger] result.entries@[j].is(done[j]),
            decreases item_count - i,
        {
            let ghost p = stream.pos();
            let entry = read_entry(&mut stream, version, &result, Ghost(sz))?;
            proof {
                let (it, end) = item_at(d, p, version, sz)->Ok_0;
                assert(entry.is(it));
                let rest = items_at(d, end, (item_count - i - 1) as nat, version, sz);
                match rest {
                    Ok(x) => {
                        assert(done + (seq![it] + x) =~= done.push(it) + x);
                    },
                    Err(_) => {},
                }
                done = done.push(it);
            }
            result.entries.push(entry);
            i = i + 1;
        }
        Ok(result)
    }

    /// Find an entry by item ID: the first with that ID.
    pub fn find_entry(&self, item_id: u32) -> (r: Option<&ItemLocationEntry>)
        ensures
            match r {
                Some(e) => exists|i: int|
                    0 <= i < self.entries@.len() && self.entries@[i] == *e && e.item_id == item_id
                        && forall|j: int| 0 <= j < i ==> #[trigger] self.entries@[j].item_id != item_id,
                None => forall|j: int| 0 <= j < self.entries@.len() ==> #[trigger] self.entries@[j].item_id != item_id,
            },
    {
        let mut i: usize = 0;
        while i < self.entries.len()
            invariant
                i <= self.entries@.len(),
                forall|j: int| 0 <= j < i ==> #[trigger] self.entries@[j].item_id != item_id,
            decreases self.entries@.len() - i,
        {
            if self.entries[i].item_id == item_id {
                return Some(&self.entries[i]);
            }
            i = i + 1;
        }
        None
    }
}


/// `n` extents that parse are `n` extents, each with an index exactly when
/// index fields are present.
pub proof fn lemma_extents_count(d: Seq<u8>, p: int, n: nat, sz: IlocSizes)
    requires
        sz.index >= 0,
    ensures
        extents_at(d, p, n, sz) matches Ok((es, _)) ==> es.len() == n && forall|i: int|
            0 <= i < n ==> ((#[trigger] es[i]).index is Some <==> sz.index > 0),
    decreases n,
{
    if n > 0 {
        let p2 = p + sz.index + sz.offset;
        lemma_extents_count(d, p2 + sz.length, (n - 1) as nat, sz);
        if let Ok((es, _)) = extents_at(d, p, n, sz) {
            let rest = extents_at(d, p2 + sz.length, (n - 1) as nat, sz)->Ok_0.0;
            assert forall|i: int| 0 <= i < n implies ((#[trigger] es[i]).index is Some <==> sz.index > 0) by {
                if i > 0 {
                    assert(es[i] == rest[i - 1]);
                }
            }
        }
    }
}

/// `n` entries that parse are `n` entries, each with as many extents as its
/// extent count, a construction method of at most 1, and extent indexes
/// exactly when index fields are present.
pub proof fn lemma_items_count(d: Seq<u8>, p: int, n: nat, version: u8, sz: IlocSizes)
    requires
        sz.index >= 0,
    ensures
        items_at(d, p, n, version, sz) matches Ok(items) ==> items.len() == n && forall|i: int|
            0 <= i < n ==> {
                &&& (#[trigger] items[i]).extents.len() == items[i].extent_count
                &&& 0 <= items[i].construction_method <= 1
                &&& forall|j: int| 0 <= j < items[i].extents.len() ==> (items[i].extents[j].index is Some <==> sz.index > 0)
            },
    decreases n,
{
    if n > 0 {
        if let Ok((it, end)) = item_at(d, p, version, sz) {
            lemma_items_count(d, end, (n - 1) as nat, version, sz);
            let id_len = if version < 2 { 2int } else { 4int };
            let p3 = p + id_len + 2 + sz.base;
            lemma_extents_count(d, p3 + 2, be16(d, p3) as nat, sz);
            if let Ok(items) = items_at(d, p, n, version, sz) {
                let rest = items_at(d, end, (n - 1) as nat, version, sz)->Ok_0;
                assert forall|i: int| 0 <= i < n implies {
                    &&& (#[trigger] items[i]).extents.len() == items[i].extent_count
                    &&& 0 <= items[i].construction_method <= 1
                    &&& forall|j: int| 0 <= j < items[i].extents.len() ==> (items[i].extents[j].index is Some <==> sz.index > 0)
                } by {
                    if i > 0 {
                        assert(items[i] == rest[i - 1]);
                    }
                }
            }
        }
    }
}

impl ItemLocationBox {
    /// An item location box that parses has one entry per item of its item
    /// count, each with as many extents as its extent count and a construction
    /// method of at most 1; its extents have an index exactly when the index
    /// size is not 0, which it always is in version 0.
    pub proof fn lemma_counts(&self, d: Seq<u8>)
        requires
            self.parsed_from(d),
        ensures
            self.entries@.len() == Self::item_count(d),
            d[0] == 0 ==> self.index_size == 0,
            forall|i: int| 0 <= i < self.entries@.len() ==> {
                &&& (#[trigger] self.entries@[i]).construction_method <= 1
                &&& forall|j: int| 0 <= j < self.entries@[i].extents@.len() ==> (
                    self.entries@[i].extents@[j].extent_index is Some <==> self.index_size != 0)
            },
            items_at(d, Self::items_start(d), Self::item_count(d) as nat, d[0], Self::sizes_of(d)) matches Ok(items)
                && forall|i: int| 0 <= i < items.len() ==> #[trigger] self.entries@[i].extents@.len() == items[i].extent_count,
    {
        let sz = Self::sizes_of(d);
        lemma_items_count(d, Self::items_start(d), Self::item_count(d) as nat, d[0], sz);
        let items = items_at(d, Self::items_start(d), Self::item_count(d) as nat, d[0], sz)->Ok_0;
        assert forall|i: int| 0 <= i < self.entries@.len() implies {
            &&& (#[trigger] self.entries@[i]).construction_method <= 1
            &&& forall|j: int| 0 <= j < self.entries@[i].extents@.len() ==> (
                self.entries@[i].extents@[j].extent_index is Some <==> self.index_size != 0)
        } by {
            assert(self.entries@[i].is(items[i]));
            assert forall|j: int| 0 <= j < self.entries@[i].extents@.len() implies (
                self.entries@[i].extents@[j].extent_index is Some <==> self.index_size != 0) by {
                assert(self.entries@[i].extents@[j].is(items[i].extents[j]));
            }
        }
        assert forall|i: int| 0 <= i < items.len() implies #[trigger] self.entries@[i].extents@.len() == items[i].extent_count by {
            assert(self.entries@[i].is(items[i]));
        }
    }
}


/// The bytes of a version 1 item location box with 4-byte offsets and lengths,
/// no base offset and no extent index, holding one item with one extent: the
/// version and flags, the field sizes, the item count, then the item's ID, its
/// data reference index and construction method, its extent count, and the
/// extent's offset and length.
pub open spec fn one_extent_iloc_bytes(flags: Seq<u8>, item_id: u16, reference: u16, method: u8, offset: u32, length: u32) -> Seq<u8> {
    seq![1u8] + flags + seq![0x44u8, 0u8] + u16_bytes(1) + u16_bytes(item_id as int)
        + u16_bytes(reference * 16 + method) + u16_bytes(1) + u32_bytes(offset as int) + u32_bytes(length as int)
}

/// An item location box laid out as ISO/IEC 14496-12 lays it out, with one item
/// of one extent, parses and gives back that item: its ID, its construction
/// method and data reference index, no base offset, and the extent's offset
/// and length; a construction method other than 0 and 1 is refused.
pub proof fn lemma_iloc_one_extent(
    flags: Seq<u8>,
    item_id: u16,
    reference: u16,
    method: u8,
    offset: u32,
    length: u32,
    b: ItemLocationBox,
)
    requires
        flags.len() == 3,
        reference < 4096,
        method < 16,
    ensures
        method > 1 ==> ItemLocationBox::outcome(one_extent_iloc_bytes(flags, item_id, reference, method, offset, length))
            == Err::<(), Error>(bmff(BmffError::UnsupportedConstructionMethod(method))),
        method <= 1 ==> ItemLocationBox::outcome(one_extent_iloc_bytes(flags, item_id, reference, method, offset, length)) is Ok,
        method <= 1 && b.parsed_from(one_extent_iloc_bytes(flags, item_id, reference, method, offset, length)) ==> {
            &&& b.version == 1
            &&& b.offset_size == 4
            &&& b.length_size == 4
            &&& b.base_offset_size == 0
            &&& b.index_size == 0
            &&& b.entries@.len() == 1
            &&& b.entries@[0].item_id == item_id
            &&& b.entries@[0].construction_method == method
            &&& b.entries@[0].data_reference_index == reference
            &&& b.entries@[0].base_offset == 0
            &&& b.entries@[0].extents@.len() == 1
            &&& b.entries@[0].extents@[0].extent_offset == offset
            &&& b.entries@[0].extents@[0].extent_length == length
            &&& b.entries@[0].extents@[0].extent_index is None
        },
{
    let r = reference * 16 + method;
    assert(0 <= r < 65536);
    let d = one_extent_iloc_bytes(flags, item_id, reference, method, offset, length);
    assert(d.len() == 22);
    assert(d[0] == 1 && d[4] == 0x44 && d[5] == 0);
    assert(d[6] == u16_bytes(1)[0] && d[7] == u16_bytes(1)[1]);
    assert(d[8] == u16_bytes(item_id as int)[0] && d[9] == u16_bytes(item_id as int)[1]);
    assert(d[10] == u16_bytes(r)[0] && d[11] == u16_bytes(r)[1]);
    assert(d[12] == u16_bytes(1)[0] && d[13] == u16_bytes(1)[1]);
    lemma_u16_roundtrip(1);
    lemma_u16_roundtrip(item_id);
    lemma_u16_roundtrip(r as u16);
    assert(be16(d, 6) == 1);
    assert(be16(d, 8) == item_id);
    assert(be16(d, 10) == r);
    assert(be16(d, 12) == 1);
    assert(d.subrange(14, 18) =~= u32_bytes(offset as int));
    assert(d.subrange(18, 22) =~= u32_bytes(length as int));
    lemma_u32_at(d, 14, offset);
    lemma_u32_at(d, 18, length);
    assert(r % 16 == method && (r / 16) % 4096 == reference);
    let sz = ItemLocationBox::sizes_of(d);
    assert(sz.offset == 4 && sz.length == 4 && sz.base == 0 && sz.index == 0);
    assert(extents_at(d, 22, 0, sz) == Ok::<(Seq<ExtentSpec>, int), Error>((Seq::<ExtentSpec>::empty(), 22int)));
    assert(extents_at(d, 14, 1, sz) matches Ok((es, end)) && es.len() == 1 && end == 22 && es[0].offset == offset
        && es[0].length == length && es[0].index is None);
    assert(items_at(d, 22, 0, 1, sz) == Ok::<Seq<ItemSpec>, Error>(Seq::<ItemSpec>::empty()));
    if method <= 1 && b.parsed_from(d) {
        assert(ItemLocationBox::items_start(d) == 8);
        assert(ItemLocationBox::item_count(d) == 1);
        let (es, end) = extents_at(d, 14, 1, sz)->Ok_0;
        assert(item_at(d, 8, 1, sz) matches Ok((it, e)) && e == 22 && it.item_id == item_id
            && it.construction_method == method && it.data_reference_index == reference
            && it.base_offset == 0 && it.extents == es);
        let (it, e) = item_at(d, 8, 1, sz)->Ok_0;
        assert(items_at(d, 8, 1, 1, sz) == Ok::<Seq<ItemSpec>, Error>(seq![it] + Seq::<ItemSpec>::empty()));
        assert(seq![it] + Seq::<ItemSpec>::empty() =~= seq![it]);
        assert(items_at(d, ItemLocationBox::items_start(d), ItemLocationBox::item_count(d) as nat, d[0], sz)
            == Ok::<Seq<ItemSpec>, Error>(seq![it]));
        assert(seq![it][0] == it);
        assert(b.entries@[0].is(seq![it][0]));
        assert(b.entries@[0].extents@[0].is(es[0]));
    }
}

} // verus!
