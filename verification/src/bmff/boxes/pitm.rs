//! Primary Item Box implementation.

use vstd::prelude::*;
use crate::error::{eof, Error, Result};
use crate::io::{be16, be32, lemma_u16_roundtrip, lemma_u32_at, u16_bytes, u32_bytes, ReadStream};

verus! {

/// Primary item box.
#[derive(Debug, Clone)]
pub struct PrimaryItemBox {
    /// Version.
    pub version: u8,
    /// Item ID.
    pub item_id: u32,
}

impl PrimaryItemBox {
    /// Whether `d` parses as a primary item box, and else the error.
    pub open spec fn outcome(d: Seq<u8>) -> Result<()> {
        if d.len() < 4 {
            Err(eof())
        } else if d.len() < (if d[0] == 0 { 6int } else { 8int }) {
            Err(eof())
        } else {
            Ok(())
        }
    }

    /// The fields are those that `d` holds: the version, then after the flags
    /// a 16-bit item ID in version 0 and a 32-bit one otherwise.
    pub open spec fn parsed_from(&self, d: Seq<u8>) -> bool {
        &&& self.version == d[0]
        &&& self.item_id == if d[0] == 0 { be16(d, 4) } else { be32(d, 4) }
    }

    /// Parse a primary item box from a buffer.
    pub fn parse(data: &[u8]) -> (r: Result<Self>)
        ensures
            match Self::outcome(data@) {
                Ok(_) => r matches Ok(b) && b.parsed_from(data@),
                Err(e) => r == Err::<Self, Error>(e),
            },
    {
        let mut stream = ReadStream::new(data);
        let (version, _) = stream.read_version_and_flags()?;
        let item_id = if version == 0 {
            stream.read_u16()? as u32
        } else {
            stream.read_u32()?
        };
        Ok(Self { version, item_id })
    }
}


/// A version 0 `pitm` box holds the primary item's number as two big-endian
/// bytes after the version and flags, a later version as four: a box so
/// written parses, whatever follows, and gives back that number.
pub proof fn lemma_pitm_read_back(flags: Seq<u8>, short_id: u16, long_version: u8, long_id: u32, rest: Seq<u8>, b: PrimaryItemBox)
    requires
        flags.len() == 3,
        long_version != 0,
    ensures
        PrimaryItemBox::outcome(seq![0u8] + flags + u16_bytes(short_id as int) + rest) is Ok,
        PrimaryItemBox::outcome(seq![long_version] + flags + u32_bytes(long_id as int) + rest) is Ok,
        b.parsed_from(seq![0u8] + flags + u16_bytes(short_id as int) + rest) ==> {
            &&& b.version == 0
            &&& b.item_id == short_id
        },
        b.parsed_from(seq![long_version] + flags + u32_bytes(long_id as int) + rest) ==> {
            &&& b.version == long_version
            &&& b.item_id == long_id
        },
{
    let d0 = seq![0u8] + flags + u16_bytes(short_id as int) + rest;
    assert(d0[0] == 0);
    assert(d0[4] == u16_bytes(short_id as int)[0]);
    assert(d0[5] == u16_bytes(short_id as int)[1]);
    lemma_u16_roundtrip(short_id);
    let d1 = seq![long_version] + flags + u32_bytes(long_id as int) + rest;
    assert(d1[0] == long_version);
    assert(d1.subrange(4, 8) =~= u32_bytes(long_id as int));
    lemma_u32_at(d1, 4, long_id);
}

} // verus!
