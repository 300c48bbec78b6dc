//! Meta Box implementation.
//!
//! The Meta Box (`meta`) is a container box for metadata.

use vstd::prelude::*;
use vstd::slice::slice_to_vec;
use crate::bmff::children::{child_count, headers_ok, is_code, lemma_walk_counts, lemma_walk_headers, lemma_walk_once, lemma_walk_presence, child_at, read_child_header, take_once, walk};
use crate::bmff::fourcc::{same_code, AV1C, COLR, HDLR, IINF, ILOC, IPCO, IPMA, IPRP, ISPE, PITM, PIXI};
use crate::error::{bmff, eof, BmffError, Error, Result};
use crate::io::{be16, be24, be32, lemma_u16_at, lemma_u32_at, u16_bytes, u32_bytes, ReadStream};
use super::av1c::AV1ConfigurationBox;
use super::colr::ColourInformationBox;
use super::hdlr::HandlerBox;
use super::iinf::ItemInfoBox;
use super::iloc::ItemLocationBox;
use super::ispe::ImageSpatialExtentsBox;
use super::pitm::PrimaryItemBox;
use super::pixi::PixelInformationBox;

verus! {

/// Meta Box.
#[derive(Debug)]
pub struct MetaBox {
    /// Version.
    pub version: u8,
    /// Flags.
    pub flags: u32,
    /// Handler Reference Box.
    pub hdlr: Option<HandlerBox>,
    /// Primary Item Box.
    pub pitm: Option<PrimaryItemBox>,
    /// Item Location Box.
    pub iloc: Option<ItemLocationBox>,
    /// Item Information Box.
    pub iinf: Option<ItemInfoBox>,
    /// Item Properties Box.
    pub iprp: Option<ItemPropertiesBox>,
}

/// Item Properties Box.
#[derive(Debug)]
pub struct ItemPropertiesBox {
    /// Item Property Container.
    pub ipco: ItemPropertyContainerBox,
    /// Item Property Association.
    pub ipma: ItemPropertyAssociationBox,
}

/// Item Property Container Box.
#[derive(Debug)]
pub struct ItemPropertyContainerBox {
    /// Properties.
    pub properties: Vec<ItemProperty>,
}

/// Item Property.
#[derive(Debug)]
pub enum ItemProperty {
    /// Image Spatial Extents Property.
    Ispe(ImageSpatialExtentsBox),
    /// Pixel Information Property.
    Pixi(PixelInformationBox),
    /// Colour Information Property.
    Colr(ColourInformationBox),
    /// AV1 Configuration Property.
    Av1C(AV1ConfigurationBox),
    /// Unknown Property.
    Unknown {
        /// Property type.
        property_type: [u8; 4],
        /// Property data.
        data: Vec<u8>,
    },
}

/// Item Property Association Box.
#[derive(Debug)]
pub struct ItemPropertyAssociationBox {
    /// Version.
    pub version: u8,
    /// Flags.
    pub flags: u32,
    /// Entries.
    pub entries: Vec<ItemPropertyAssociationEntry>,
}

/// Item Property Association Entry.
#[derive(Debug)]
pub struct ItemPropertyAssociationEntry {
    /// Item ID.
    pub item_id: u32,
    /// Associations.
    pub associations: Vec<ItemPropertyAssociation>,
}

/// Item Property Association.
#[derive(Debug)]
pub struct ItemPropertyAssociation {
    /// Essential.
    pub essential: bool,
    /// Property index.
    pub property_index: u16,
}

/// The payloads of the child boxes of a meta box that have been taken up.
pub struct MetaAcc {
    /// Payload of `hdlr`.
    pub hdlr: Option<Seq<u8>>,
    /// Payload of `pitm`.
    pub pitm: Option<Seq<u8>>,
    /// Payload of `iloc`.
    pub iloc: Option<Seq<u8>>,
    /// Payload of `iinf`.
    pub iinf: Option<Seq<u8>>,
    /// Payload of `iprp`.
    pub iprp: Option<Seq<u8>>,
}

/// One child box of a meta box.
pub open spec fn meta_step(a: MetaAcc, t: Seq<u8>, pl: Seq<u8>) -> Result<MetaAcc> {
    if t == HDLR@ {
        match take_once(a.hdlr, HDLR, HandlerBox::outcome(pl), pl) {
            Err(e) => Err(e),
            Ok(s) => Ok(MetaAcc { hdlr: s, ..a }),
        }
    } else if t == PITM@ {
        match take_once(a.pitm, PITM, PrimaryItemBox::outcome(pl), pl) {
            Err(e) => Err(e),
            Ok(s) => Ok(MetaAcc { pitm: s, ..a }),
        }
    } else if t == ILOC@ {
        match take_once(a.iloc, ILOC, ItemLocationBox::outcome(pl), pl) {
            Err(e) => Err(e),
            Ok(s) => Ok(MetaAcc { iloc: s, ..a }),
        }
    } else if t == IINF@ {
        match take_once(a.iinf, IINF, ItemInfoBox::outcome(pl), pl) {
            Err(e) => Err(e),
            Ok(s) => Ok(MetaAcc { iinf: s, ..a }),
        }
    } else if t == IPRP@ {
        match take_once(a.iprp, IPRP, ItemPropertiesBox::outcome(pl), pl) {
            Err(e) => Err(e),
            Ok(s) => Ok(MetaAcc { iprp: s, ..a }),
        }
    } else {
        Ok(a)
    }
}

/// `meta_step` as a value.
pub open spec fn meta_step_fn() -> spec_fn(MetaAcc, Seq<u8>, Seq<u8>) -> Result<MetaAcc> {
    |a: MetaAcc, t: Seq<u8>, pl: Seq<u8>| meta_step(a, t, pl)
}

/// A meta box before any child box.
pub open spec fn meta_start() -> MetaAcc {
    MetaAcc { hdlr: None, pitm: None, iloc: None, iinf: None, iprp: None }
}

impl MetaBox {
    /// The child boxes of the meta box in `d`, walked.
    pub open spec fn children(d: Seq<u8>) -> Result<MetaAcc> {
        walk(d, 4, meta_start(), meta_step_fn(), false)
    }

    /// Whether `d` parses as a meta box, and else the error.
    pub open spec fn outcome(d: Seq<u8>) -> Result<()> {
        if d.len() < 4 {
            Err(eof())
        } else {
            match Self::children(d) {
                Err(e) => Err(e),
                Ok(_) => Ok(()),
            }
        }
    }

    /// The fields are those that `d` holds: version, flags, and each child box
    /// parsed from the payload that the walk took up.
    pub open spec fn parsed_from(&self, d: Seq<u8>) -> bool {
        &&& self.version == d[0]
        &&& self.flags == be24(d, 1)
        &&& Self::children(d) matches Ok(a) && self.holds(a)
    }

    /// The child boxes are those parsed from the payloads of `a`.
    pub open spec fn holds(&self, a: MetaAcc) -> bool {
        &&& (self.hdlr is Some <==> a.hdlr is Some)
        &&& (self.hdlr matches Some(b) ==> b.parsed_from(a.hdlr->0))
        &&& (self.pitm is Some <==> a.pitm is Some)
        &&& (self.pitm matches Some(b) ==> b.parsed_from(a.pitm->0))
        &&& (self.iloc is Some <==> a.iloc is Some)
        &&& (self.iloc matches Some(b) ==> b.parsed_from(a.iloc->0))
        &&& (self.iinf is Some <==> a.iinf is Some)
        &&& (self.iinf matches Some(b) ==> b.parsed_from(a.iinf->0))
        &&& (self.iprp is Some <==> a.iprp is Some)
        &&& (self.iprp matches Some(b) ==> b.parsed_from(a.iprp->0))
    }

    /// Parse a meta box from a buffer.
    pub fn parse(data: &[u8]) -> (r: Result<Self>)
        ensures
            match Self::outcome(data@) {
                Ok(_) => r matches Ok(b) && b.parsed_from(data@),
                Err(e) => r == Err::<Self, Error>(e),
            },
    {
        let mut stream = ReadStream::new(data);
        let version = stream.read_u8()?;
        let flags = stream.read_u24()?;
        let mut m = MetaBox { version, flags, hdlr: None, pitm: None, iloc: None, iinf: None, iprp: None };
        let ghost d = data@;
        let ghost mut acc = meta_start();
        while stream.has_more()
            invariant
                stream.inv(),
                stream.bytes() == d,
                d == data@,
                d.len() >= 4,
                4 <= stream.pos(),
                m.version == d[0],
                m.flags == be24(d, 1),
                Self::children(d) == walk(d, stream.pos(), acc, meta_step_fn(), false),
                m.holds(acc),
            decreases d.len() - stream.pos(),
        {
            let ghost p = stream.pos();
            let (box_type, data_size) = read_child_header(&mut stream)?;
            let ghost pl = d.subrange(p + 8, p + 8 + data_size);
            if same_code(&box_type, &HDLR) {
                if m.hdlr.is_some() {
                    return Err(Error::BmffParse(BmffError::DuplicateBox(HDLR)));
                }
                let box_data = stream.read_exact_buffer(data_size)?;
                m.hdlr = Some(HandlerBox::parse(box_data.as_slice())?);
                proof { acc = MetaAcc { hdlr: Some(pl), ..acc }; }
            } else if same_code(&box_type, &PITM) {
                if m.pitm.is_some() {
                    return Err(Error::BmffParse(BmffError::DuplicateBox(PITM)));
                }
                let box_data = stream.read_exact_buffer(data_size)?;
                m.pitm = Some(PrimaryItemBox::parse(box_data.as_slice())?);
                proof { acc = MetaAcc { pitm: Some(pl), ..acc }; }
            } else if same_code(&box_type, &ILOC) {
                if m.iloc.is_some() {
                    return Err(Error::BmffParse(BmffError::DuplicateBox(ILOC)));
                }
                let box_data = stream.read_exact_buffer(data_size)?;
                m.iloc = Some(ItemLocationBox::parse(box_data.as_slice())?);
                proof { acc = MetaAcc { iloc: Some(pl), ..acc }; }
            } else if same_code(&box_type, &IINF) {
                if m.iinf.is_some() {
                    return Err(Error::BmffParse(BmffError::DuplicateBox(IINF)));
                }
                let box_data = stream.read_exact_buffer(data_size)?;
                m.iinf = Some(ItemInfoBox::parse(box_data.as_slice())?);
                proof { acc = MetaAcc { iinf: Some(pl), ..acc }; }
            } else if same_code(&box_type, &IPRP) {
                if m.iprp.is_some() {
                    return Err(Error::BmffParse(BmffError::DuplicateBox(IPRP)));
                }
                let box_data = stream.read_exact_buffer(data_size)?;
                m.iprp = Some(ItemPropertiesBox::parse(box_data.as_slice())?);
                proof { acc = MetaAcc { iprp: Some(pl), ..acc }; }
            } else {
                stream.skip(data_size)?;
            }
        }
        Ok(m)
    }
}

/// The payloads of the `ipco` and `ipma` children of an item properties box.
pub struct IprpAcc {
    /// Payload of `ipco`.
    pub ipco: Option<Seq<u8>>,
    /// Payload of `ipma`.
    pub ipma: Option<Seq<u8>>,
}

/// One child box of an item properties box.
pub open spec fn iprp_step(a: IprpAcc, t: Seq<u8>, pl: Seq<u8>) -> Result<IprpAcc> {
    if t == IPCO@ {
        match take_once(a.ipco, IPCO, ItemPropertyContainerBox::outcome(pl), pl) {
            Err(e) => Err(e),
            Ok(s) => Ok(IprpAcc { ipco: s, ..a }),
        }
    } else if t == IPMA@ {
        match take_once(a.ipma, IPMA, ItemPropertyAssociationBox::outcome(pl), pl) {
            Err(e) => Err(e),
            Ok(s) => Ok(IprpAcc { ipma: s, ..a }),
        }
    } else {
        Ok(a)
    }
}

/// `iprp_step` as a value.
pub open spec fn iprp_step_fn() -> spec_fn(IprpAcc, Seq<u8>, Seq<u8>) -> Result<IprpAcc> {
    |a: IprpAcc, t: Seq<u8>, pl: Seq<u8>| iprp_step(a, t, pl)
}

impl ItemPropertiesBox {
    /// The child boxes of the item properties box in `d`, walked.
    pub open spec fn children(d: Seq<u8>) -> Result<IprpAcc> {
        walk(d, 0, IprpAcc { ipco: None, ipma: None }, iprp_step_fn(), false)
    }

    /// Whether `d` parses as an item properties box, and else the error.
    pub open spec fn outcome(d: Seq<u8>) -> Result<()> {
        match Self::children(d) {
            Err(e) => Err(e),
            Ok(a) => if a.ipco is None {
                Err(bmff(BmffError::MissingBox(IPCO)))
            } else if a.ipma is None {
                Err(bmff(BmffError::MissingBox(IPMA)))
            } else {
                Ok(())
            },
        }
    }

    /// The fields are those that `d` holds.
    pub open spec fn parsed_from(&self, d: Seq<u8>) -> bool {
        Self::children(d) matches Ok(a) && a.ipco matches Some(c) && a.ipma matches Some(m)
            && self.ipco.parsed_from(c) && self.ipma.parsed_from(m)
    }

    /// Parse an item properties box from a buffer.
    pub fn parse(data: &[u8]) -> (r: Result<Self>)
        ensures
            match Self::outcome(data@) {
                Ok(_) => r matches Ok(b) && b.parsed_from(data@),
                Err(e) => r == Err::<Self, Error>(e),
            },
    {
        let mut stream = ReadStream::new(data);
        let mut ipco: Option<ItemPropertyContainerBox> = None;
        let mut ipma: Option<ItemPropertyAssociationBox> = None;
        let ghost d = data@;
        let ghost mut acc = IprpAcc { ipco: None, ipma: None };
        while stream.has_more()
            invariant
                stream.inv(),
                stream.bytes() == d,
                d == data@,
                Self::children(d) == walk(d, stream.pos(), acc, iprp_step_fn(), false),
                (ipco is Some <==> acc.ipco is Some),
                (ipco matches Some(b) ==> b.parsed_from(acc.ipco->0)),
                (ipma is Some <==> acc.ipma is Some),
                (ipma matches Some(b) ==> b.parsed_from(acc.ipma->0)),
            decreases d.len() - stream.pos(),
        {
            let ghost p = stream.pos();
            let (box_type, data_size) = read_child_header(&mut stream)?;
            let ghost pl = d.subrange(p + 8, p + 8 + data_size);
            if same_code(&box_type, &IPCO) {
                if ipco.is_some() {
                    return Err(Error::BmffParse(BmffError::DuplicateBox(IPCO)));
                }
                let box_data = stream.read_exact_buffer(data_size)?;
                ipco = Some(ItemPropertyContainerBox::parse(box_data.as_slice())?);
                proof { acc = IprpAcc { ipco: Some(pl), ..acc }; }
            } else if same_code(&box_type, &IPMA) {
                if ipma.is_some() {
                    return Err(Error::BmffParse(BmffError::DuplicateBox(IPMA)));
                }
                let box_data = stream.read_exact_buffer(data_size)?;
                ipma = Some(ItemPropertyAssociationBox::parse(box_data.as_slice())?);
                proof { acc = IprpAcc { ipma: Some(pl), ..acc }; }
            } else {
                stream.skip(data_size)?;
            }
        }
        let ipco = match ipco {
            Some(b) => b,
            None => { return Err(Error::BmffParse(BmffError::MissingBox(IPCO))); },
        };
        let ipma = match ipma {
            Some(b) => b,
            None => { return Err(Error::BmffParse(BmffError::MissingBox(IPMA))); },
        };
        Ok(Self { ipco, ipma })
    }
}

/// The property types that a property container parses.
pub open spec fn is_known_property(t: Seq<u8>) -> bool {
    t == ISPE@ || t == PIXI@ || t == COLR@ || t == AV1C@
}

/// One child box of a property container: a known property must parse; every
/// child becomes a property.
pub open spec fn ipco_step(a: Seq<(Seq<u8>, Seq<u8>)>, t: Seq<u8>, pl: Seq<u8>) -> Result<Seq<(Seq<u8>, Seq<u8>)>> {
    let outcome = if t == ISPE@ {
        ImageSpatialExtentsBox::outcome(pl)
    } else if t == PIXI@ {
        PixelInformationBox::outcome(pl)
    } else if t == COLR@ {
        ColourInformationBox::outcome(pl)
    } else if t == AV1C@ {
        AV1ConfigurationBox::outcome(pl)
    } else {
        Ok(())
    };
    match outcome {
        Err(e) => Err(e),
        Ok(_) => Ok(a.push((t, pl))),
    }
}

/// `ipco_step` as a value.
pub open spec fn ipco_step_fn() -> spec_fn(Seq<(Seq<u8>, Seq<u8>)>, Seq<u8>, Seq<u8>) -> Result<Seq<(Seq<u8>, Seq<u8>)>> {
    |a: Seq<(Seq<u8>, Seq<u8>)>, t: Seq<u8>, pl: Seq<u8>| ipco_step(a, t, pl)
}

impl ItemProperty {
    /// This property is the child box of type `t` with payload `pl`.
    pub open spec fn is(&self, t: Seq<u8>, pl: Seq<u8>) -> bool {
        match self {
            ItemProperty::Ispe(b) => t == ISPE@ && b.parsed_from(pl),
            ItemProperty::Pixi(b) => t == PIXI@ && b.parsed_from(pl),
            ItemProperty::Colr(b) => t == COLR@ && b.parsed_from(pl),
            ItemProperty::Av1C(b) => t == AV1C@ && b.parsed_from(pl),
            ItemProperty::Unknown { property_type, data } => !is_known_property(t)
                && property_type@ == t && data@ == pl,
        }
    }
}

impl ItemPropertyContainerBox {
    /// The child boxes of the property container in `d`, as (type, payload) pairs.
    pub open spec fn children(d: Seq<u8>) -> Result<Seq<(Seq<u8>, Seq<u8>)>> {
        walk(d, 0, Seq::empty(), ipco_step_fn(), false)
    }

    /// Whether `d` parses as a property container, and else the error.
    pub open spec fn outcome(d: Seq<u8>) -> Result<()> {
        match Self::children(d) {
            Err(e) => Err(e),
            Ok(_) => Ok(()),
        }
    }

    /// One property for each child box, in order.
    pub open spec fn parsed_from(&self, d: Seq<u8>) -> bool {
        Self::children(d) matches Ok(cs) && self.properties@.len() == cs.len() && forall|i: int|
            0 <= i < cs.len() ==> #[trigger] self.properties@[i].is(cs[i].0, cs[i].1)
    }

    /// Parse an item property container box from a buffer.
    pub fn parse(data: &[u8]) -> (r: Result<Self>)
        ensures
            match Self::outcome(data@) {
                Ok(_) => r matches Ok(b) && b.parsed_from(data@),
                Err(e) => r == Err::<Self, Error>(e),
            },
    {
        let mut stream = ReadStream::new(data);
        let mut properties: Vec<ItemProperty> = Vec::new();
        let ghost d = data@;
        let ghost mut acc: Seq<(Seq<u8>, Seq<u8>)> = Seq::empty();
        while stream.has_more()
            invariant
                stream.inv(),
                stream.bytes() == d,
                d == data@,
                Self::children(d) == walk(d, stream.pos(), acc, ipco_step_fn(), false),
                properties@.len() == acc.len(),
                forall|i: int| 0 <= i < acc.len() ==> #[trigger] properties@[i].is(acc[i].0, acc[i].1),
            decreases d.len() - stream.pos(),
        {
            let ghost p = stream.pos();
            let (box_type, data_size) = read_child_header(&mut stream)?;
            let ghost pl = d.subrange(p + 8, p + 8 + data_size);
            let box_data = stream.read_exact_buffer(data_size)?;
            let property = if same_code(&box_type, &ISPE) {
                ItemProperty::Ispe(ImageSpatialExtentsBox::parse(box_data.as_slice())?)
            } else if same_code(&box_type, &PIXI) {
                ItemProperty::Pixi(PixelInformationBox::parse(box_data.as_slice())?)
            } else if same_code(&box_type, &COLR) {
                ItemProperty::Colr(ColourInformationBox::parse(box_data.as_slice())?)
            } else if same_code(&box_type, &AV1C) {
                ItemProperty::Av1C(AV1ConfigurationBox::parse(box_data.as_slice())?)
            } else {
                ItemProperty::Unknown { property_type: box_type, data: box_data }
            };
            proof {
                assert(property.is(box_type@, pl));
                acc = acc.push((box_type@, pl));
            }
            properties.push(property);
        }
        Ok(Self { properties })
    }
}

/// An association entry as the bytes describe it: the item ID and the raw
/// association values.
pub struct IpmaEntrySpec {
    /// Item ID.
    pub item_id: int,
    /// Raw association values.
    pub associations: Seq<int>,
}

/// `n` raw association values from `p`, each one byte in versions 0 and 1 and
/// two bytes otherwise; with where they end.
pub open spec fn ipma_assocs(d: Seq<u8>, p: int, n: nat, version: u8) -> Result<(Seq<int>, int)>
    decreases n,
{
    let w = if version < 2 { 1int } else { 2int };
    if n == 0 {
        Ok((Seq::empty(), p))
    } else if d.len() - p < w {
        Err(eof())
    } else {
        let v = if version < 2 { d[p] as int } else { be16(d, p) };
        match ipma_assocs(d, p + w, (n - 1) as nat, version) {
            Err(e) => Err(e),
            Ok((rest, end)) => Ok((seq![v] + rest, end)),
        }
    }
}

/// `n` association entries from `p`: an item ID of 32 bits when the low flag
/// bit is set and else 16, a count byte, and the associations.
pub open spec fn ipma_entries(d: Seq<u8>, p: int, n: nat, version: u8, flags: int) -> Result<Seq<IpmaEntrySpec>>
    decreases n,
{
    let w = if flags % 2 == 1 { 4int } else { 2int };
    if n == 0 {
        Ok(Seq::empty())
    } else if d.len() - p < w {
        Err(eof())
    } else if d.len() - (p + w) < 1 {
        Err(eof())
    } else {
        let id = if flags % 2 == 1 { be32(d, p) } else { be16(d, p) };
        match ipma_assocs(d, p + w + 1, d[p + w] as nat, version) {
            Err(e) => Err(e),
            Ok((vals, end)) => match ipma_entries(d, end, (n - 1) as nat, version, flags) {
                Err(e) => Err(e),
                Ok(rest) => Ok(seq![IpmaEntrySpec { item_id: id, associations: vals }] + rest),
            },
        }
    }
}

impl ItemPropertyAssociation {
    /// This association is the raw value `v` read in this version: the bit of
    /// value 0x80 marks it essential, the low 7 (versions 0 and 1) or 15 bits
    /// are the property index.
    pub open spec fn is(&self, v: int, version: u8) -> bool {
        &&& self.essential == ((v / 128) % 2 == 1)
        &&& self.property_index == if version < 2 { v % 128 } else { v % 32768 }
    }
}

impl ItemPropertyAssociationEntry {
    /// This entry is the one the bytes describe.
    pub open spec fn is(&self, e: IpmaEntrySpec, version: u8) -> bool {
        &&& self.item_id == e.item_id
        &&& self.associations@.len() == e.associations.len()
        &&& forall|i: int| 0 <= i < e.associations.len() ==> #[trigger] self.associations@[i].is(e.associations[i], version)
    }
}

/// Read `count` associations.
fn read_associations(stream: &mut ReadStream, count: u8, version: u8) -> (r: Result<Vec<ItemPropertyAssociation>>)
    requires
        old(stream).inv(),
    ensures
        final(stream).inv(),
        final(stream).bytes() == old(stream).bytes(),
        match ipma_assocs(old(stream).bytes(), old(stream).pos(), count as nat, version) {
            Err(e) => r == Err::<Vec<ItemPropertyAssociation>, Error>(e),
            Ok((vals, end)) => (r matches Ok(v) && v@.len() == vals.len() && forall|i: int| 0 <= i < vals.len() ==> #[trigger] v@[i].is(vals[i], version))
                && final(stream).pos() == end,
        },
{
    let ghost d = stream.bytes();
    let ghost p0 = stream.pos();
    let ghost mut done: Seq<int> = Seq::empty();
    let mut associations: Vec<ItemPropertyAssociation> = Vec::new();
    let mut i: u8 = 0;
    while i < count
        invariant
            stream.inv(),
            stream.bytes() == d,
            d == old(stream).bytes(),
            p0 == old(stream).pos(),
            i <= count,
            ipma_assocs(d, p0, count as nat, version) == match ipma_assocs(d, stream.pos(), (count - i) as nat, version) {
                Err(e) => Err(e),
                Ok((rest, end)) => Ok((done + rest, end)),
            },
            associations@.len() == done.len(),
            forall|j: int| 0 <= j < done.len() ==> #[trigger] associations@[j].is(done[j], version),
        decreases count - i,
    {
        let ghost p = stream.pos();
        let value: u16 = if version == 0 || version == 1 {
            stream.read_u8()? as u16
        } else {
            stream.read_u16()?
        };
        let essential = (value / 128) % 2 == 1;
        let property_index = if version == 0 || version == 1 {
            value % 128
        } else {
            value % 32768
        };
        let a = ItemPropertyAssociation { essential, property_index };
        proof {
            assert(a.is(value as int, version));
            let rest = ipma_assocs(d, stream.pos(), (count - i - 1) as nat, version);
            match rest {
                Ok((x, end)) => {
                    assert(done + (seq![value as int] + x) =~= done.push(value as int) + x);
                },
                Err(_) => {},
            }
            done = done.push(value as int);
        }
        associations.push(a);
        i = i + 1;
    }
    Ok(associations)
}

impl ItemPropertyAssociationBox {
    /// Whether `d` parses as an item property association box, and else the error.
    pub open spec fn outcome(d: Seq<u8>) -> Result<()> {
        if d.len() < 8 {
            Err(eof())
        } else {
            match ipma_entries(d, 8, be32(d, 4) as nat, d[0], be24(d, 1)) {
                Err(e) => Err(e),
                Ok(_) => Ok(()),
            }
        }
    }

    /// The fields are those that `d` holds.
    pub open spec fn parsed_from(&self, d: Seq<u8>) -> bool {
        &&& self.version == d[0]
        &&& self.flags == be24(d, 1)
        &&& ipma_entries(d, 8, be32(d, 4) as nat, d[0], be24(d, 1)) matches Ok(es)
            && self.entries@.len() == es.len() && forall|i: int|
            0 <= i < es.len() ==> #[trigger] self.entries@[i].is(es[i], d[0])
    }

    /// Parse an item property association box from a buffer.
    pub fn parse(data: &[u8]) -> (r: Result<Self>)
        ensures
            match Self::outcome(data@) {
                Ok(_) => r matches Ok(b) && b.parsed_from(data@),
                Err(e) => r == Err::<Self, Error>(e),
            },
    {
        let mut stream = ReadStream::new(data);
        let version = stream.read_u8()?;
        let flags = stream.read_u24()?;
        let entry_count = stream.read_u32()?;
        let ghost d = data@;
        let ghost mut done: Seq<IpmaEntrySpec> = Seq::empty();
        let mut entries: Vec<ItemPropertyAssociationEntry> = Vec::new();
        let mut i: u32 = 0;
        while i < entry_count
            invariant
                stream.inv(),
                stream.bytes() == d,
                d == data@,
                d.len() >= 8,
                version == d[0],
                flags == be24(d, 1),
                entry_count == be32(d, 4),
                i <= entry_count,
                ipma_entries(d, 8, entry_count as nat, version, flags as int) == match ipma_entries(d, stream.pos(), (entry_count - i) as nat, version, flags as int) {
                    Err(e) => Err(e),
                    Ok(rest) => Ok(done + rest),
                },
                entries@.len() == done.len(),
                forall|j: int| 0 <= j < done.len() ==> #[trigger] entries@[j].is(done[j], version),
            decreases entry_count - i,
        {
            let ghost p = stream.pos();
            let item_id = if flags % 2 == 1 {
                stream.read_u32()?
            } else {
                stream.read_u16()? as u32
            };
            let association_count = stream.read_u8()?;
            let associations = read_associations(&mut stream, association_count, version)?;
            let entry = ItemPropertyAssociationEntry { item_id, associations };
            proof {
                let w = if flags % 2 == 1 { 4int } else { 2int };
                let (vals, end) = ipma_assocs(d, p + w + 1, association_count as nat, version)->Ok_0;
                let e = IpmaEntrySpec { item_id: item_id as int, associations: vals };
                assert(entry.is(e, version));
                let rest = ipma_entries(d, end, (entry_count - i - 1) as nat, version, flags as int);
                match rest {
                    Ok(x) => {
                        assert(done + (seq![e] + x) =~= done.push(e) + x);
                    },
                    Err(_) => {},
                }
                done = done.push(e);
            }
            entries.push(entry);
            i = i + 1;
        }
        Ok(Self { version, flags, entries })
    }
}


/// The child boxes of a meta box decide its fields: each of `hdlr`, `pitm`,
/// `iloc`, `iinf` and `iprp` is present exactly when a child of its type
/// occurs; a second child of one of these types, or a malformed child header,
/// is refused.
pub proof fn lemma_meta_children(d: Seq<u8>)
    ensures
        MetaBox::outcome(d) is Ok ==> headers_ok(d, 4, false),
        child_count(d, 4, is_code(HDLR@), false) >= 2 ==> MetaBox::outcome(d) is Err,
        child_count(d, 4, is_code(PITM@), false) >= 2 ==> MetaBox::outcome(d) is Err,
        child_count(d, 4, is_code(ILOC@), false) >= 2 ==> MetaBox::outcome(d) is Err,
        child_count(d, 4, is_code(IINF@), false) >= 2 ==> MetaBox::outcome(d) is Err,
        child_count(d, 4, is_code(IPRP@), false) >= 2 ==> MetaBox::outcome(d) is Err,
        forall|b: MetaBox| #[trigger] b.parsed_from(d) ==> {
            &&& (b.hdlr is Some <==> child_count(d, 4, is_code(HDLR@), false) > 0)
            &&& (b.pitm is Some <==> child_count(d, 4, is_code(PITM@), false) > 0)
            &&& (b.iloc is Some <==> child_count(d, 4, is_code(ILOC@), false) > 0)
            &&& (b.iinf is Some <==> child_count(d, 4, is_code(IINF@), false) > 0)
            &&& (b.iprp is Some <==> child_count(d, 4, is_code(IPRP@), false) > 0)
        },
{
    let f = meta_step_fn();
    let s = meta_start();
    lemma_walk_headers(d, 4, s, f, false);
    lemma_walk_presence(d, 4, s, f, false, is_code(HDLR@), |a: MetaAcc| a.hdlr is Some);
    lemma_walk_once(d, 4, s, f, false, is_code(HDLR@), |a: MetaAcc| a.hdlr is Some);
    lemma_walk_presence(d, 4, s, f, false, is_code(PITM@), |a: MetaAcc| a.pitm is Some);
    lemma_walk_once(d, 4, s, f, false, is_code(PITM@), |a: MetaAcc| a.pitm is Some);
    lemma_walk_presence(d, 4, s, f, false, is_code(ILOC@), |a: MetaAcc| a.iloc is Some);
    lemma_walk_once(d, 4, s, f, false, is_code(ILOC@), |a: MetaAcc| a.iloc is Some);
    lemma_walk_presence(d, 4, s, f, false, is_code(IINF@), |a: MetaAcc| a.iinf is Some);
    lemma_walk_once(d, 4, s, f, false, is_code(IINF@), |a: MetaAcc| a.iinf is Some);
    lemma_walk_presence(d, 4, s, f, false, is_code(IPRP@), |a: MetaAcc| a.iprp is Some);
    lemma_walk_once(d, 4, s, f, false, is_code(IPRP@), |a: MetaAcc| a.iprp is Some);
}

/// An item properties box parses only with exactly one `ipco` and one `ipma`
/// child and well-formed child headers.
pub proof fn lemma_item_properties_children(d: Seq<u8>)
    ensures
        ItemPropertiesBox::outcome(d) is Ok ==> {
            &&& headers_ok(d, 0, false)
            &&& child_count(d, 0, is_code(IPCO@), false) == 1
            &&& child_count(d, 0, is_code(IPMA@), false) == 1
        },
{
    let f = iprp_step_fn();
    let s = IprpAcc { ipco: None, ipma: None };
    lemma_walk_headers(d, 0, s, f, false);
    lemma_walk_presence(d, 0, s, f, false, is_code(IPCO@), |a: IprpAcc| a.ipco is Some);
    lemma_walk_once(d, 0, s, f, false, is_code(IPCO@), |a: IprpAcc| a.ipco is Some);
    lemma_walk_presence(d, 0, s, f, false, is_code(IPMA@), |a: IprpAcc| a.ipma is Some);
    lemma_walk_once(d, 0, s, f, false, is_code(IPMA@), |a: IprpAcc| a.ipma is Some);
}

/// Any child box type.
pub open spec fn any_type() -> spec_fn(Seq<u8>) -> bool {
    |t: Seq<u8>| true
}

/// A property container has one property per child box, and parses only with
/// well-formed child headers.
pub proof fn lemma_property_container_children(d: Seq<u8>)
    ensures
        ItemPropertyContainerBox::outcome(d) is Ok ==> headers_ok(d, 0, false),
        forall|b: ItemPropertyContainerBox| #[trigger] b.parsed_from(d) ==> b.properties@.len() == child_count(d, 0, any_type(), false),
{
    let f = ipco_step_fn();
    let s: Seq<(Seq<u8>, Seq<u8>)> = Seq::empty();
    lemma_walk_headers(d, 0, s, f, false);
    lemma_walk_counts(d, 0, s, f, false, any_type(), |a: Seq<(Seq<u8>, Seq<u8>)>| a.len() as int);
}


/// An association value carries the essential flag in its bit of value 0x80,
/// and the property index in its low 7 bits (versions 0 and 1, one byte a
/// value) or its low 15 bits (later versions, two bytes a value).
pub proof fn lemma_association_bits(a: ItemPropertyAssociation, v: u16, version: u8)
    requires
        version < 2 ==> v < 256,
        a.is(v as int, version),
    ensures
        a.essential == (v & 0x80u16 != 0),
        version < 2 ==> a.property_index == v & 0x7fu16,
        version >= 2 ==> a.property_index == v & 0x7fffu16,
{
    assert(((v / 128) % 2 == 1) == (v & 0x80u16 != 0)) by (bit_vector);
    assert(v % 128 == v & 0x7fu16) by (bit_vector);
    assert(v % 32768 == v & 0x7fffu16) by (bit_vector);
}


/// A version 0 item property association box with one entry holds, after the
/// version and flags and the entry count 1, the item ID (two big-endian bytes,
/// or four when the low flag bit is set), the association count 1 and one
/// association byte: a box so written parses and gives back that item ID,
/// with the essential flag from bit 7 of the byte and the property index from
/// its low 7 bits.
pub proof fn lemma_ipma_one_association(short_id: u16, long_id: u32, value: u8, b: ItemPropertyAssociationBox, c: ItemPropertyAssociationBox)
    ensures
        ItemPropertyAssociationBox::outcome(seq![0u8, 0u8, 0u8, 0u8] + u32_bytes(1) + u16_bytes(short_id as int) + seq![1u8, value]) is Ok,
        ItemPropertyAssociationBox::outcome(seq![0u8, 0u8, 0u8, 1u8] + u32_bytes(1) + u32_bytes(long_id as int) + seq![1u8, value]) is Ok,
        b.parsed_from(seq![0u8, 0u8, 0u8, 0u8] + u32_bytes(1) + u16_bytes(short_id as int) + seq![1u8, value]) ==> {
            &&& b.entries@.len() == 1
            &&& b.entries@[0].item_id == short_id
            &&& b.entries@[0].associations@.len() == 1
            &&& b.entries@[0].associations@[0].essential == (value & 0x80u8 != 0)
            &&& b.entries@[0].associations@[0].property_index == (value & 0x7fu8)
        },
        c.parsed_from(seq![0u8, 0u8, 0u8, 1u8] + u32_bytes(1) + u32_bytes(long_id as int) + seq![1u8, value]) ==> {
            &&& c.entries@.len() == 1
            &&& c.entries@[0].item_id == long_id
            &&& c.entries@[0].associations@.len() == 1
            &&& c.entries@[0].associations@[0].essential == (value & 0x80u8 != 0)
            &&& c.entries@[0].associations@[0].property_index == (value & 0x7fu8)
        },
{
    assert(((value / 128) % 2 == 1) == (value & 0x80u8 != 0)) by (bit_vector);
    assert(value % 128 == value & 0x7fu8) by (bit_vector);
    let d = seq![0u8, 0u8, 0u8, 0u8] + u32_bytes(1) + u16_bytes(short_id as int) + seq![1u8, value];
    assert(d.len() == 12);
    assert(d.subrange(4, 8) =~= u32_bytes(1));
    lemma_u32_at(d, 4, 1);
    assert(d.subrange(8, 10) =~= u16_bytes(short_id as int));
    lemma_u16_at(d, 8, short_id);
    assert(be24(d, 1) == 0);
    assert(d[10] == 1 && d[11] == value);
    assert(ipma_assocs(d, 12, 0, 0) == Ok::<(Seq<int>, int), Error>((Seq::<int>::empty(), 12int)));
    assert(ipma_assocs(d, 11, 1, 0) == Ok::<(Seq<int>, int), Error>((seq![value as int] + Seq::<int>::empty(), 12int)));
    assert(seq![value as int] + Seq::<int>::empty() =~= seq![value as int]);
    let e = IpmaEntrySpec { item_id: short_id as int, associations: seq![value as int] };
    assert(ipma_entries(d, 12, 0, 0, 0) == Ok::<Seq<IpmaEntrySpec>, Error>(Seq::<IpmaEntrySpec>::empty()));
    assert(ipma_entries(d, 8, 1, 0, 0) == Ok::<Seq<IpmaEntrySpec>, Error>(seq![e] + Seq::<IpmaEntrySpec>::empty()));
    assert(seq![e] + Seq::<IpmaEntrySpec>::empty() =~= seq![e]);
    if b.parsed_from(d) {
        assert(b.entries@[0].is(seq![e][0], 0));
        assert(b.entries@[0].associations@[0].is(seq![value as int][0], 0));
    }
    let d1 = seq![0u8, 0u8, 0u8, 1u8] + u32_bytes(1) + u32_bytes(long_id as int) + seq![1u8, value];
    assert(d1.len() == 14);
    assert(d1.subrange(4, 8) =~= u32_bytes(1));
    lemma_u32_at(d1, 4, 1);
    assert(d1.subrange(8, 12) =~= u32_bytes(long_id as int));
    lemma_u32_at(d1, 8, long_id);
    assert(be24(d1, 1) == 1);
    assert(d1[12] == 1 && d1[13] == value);
    assert(ipma_assocs(d1, 14, 0, 0) == Ok::<(Seq<int>, int), Error>((Seq::<int>::empty(), 14int)));
    assert(ipma_assocs(d1, 13, 1, 0) == Ok::<(Seq<int>, int), Error>((seq![value as int] + Seq::<int>::empty(), 14int)));
    let e1 = IpmaEntrySpec { item_id: long_id as int, associations: seq![value as int] };
    assert(ipma_entries(d1, 14, 0, 0, 1) == Ok::<Seq<IpmaEntrySpec>, Error>(Seq::<IpmaEntrySpec>::empty()));
    assert(ipma_entries(d1, 8, 1, 0, 1) == Ok::<Seq<IpmaEntrySpec>, Error>(seq![e1] + Seq::<IpmaEntrySpec>::empty()));
    assert(seq![e1] + Seq::<IpmaEntrySpec>::empty() =~= seq![e1]);
    if c.parsed_from(d1) {
        assert(c.entries@[0].is(seq![e1][0], 0));
        assert(c.entries@[0].associations@[0].is(seq![value as int][0], 0));
    }
}

} // verus!
