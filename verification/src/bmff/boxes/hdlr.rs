//! Handler Box implementation.

use vstd::prelude::*;
use crate::bmff::fourcc::{same_code, PICT};
use crate::error::{eof, Error, Result};
use crate::io::{nul_index, ReadStream};
use crate::text::latin1;

verus! {

/// Handler box.
#[derive(Debug)]
pub struct HandlerBox {
    /// Handler type.
    pub handler_type: [u8; 4],
    /// Handler name.
    pub name: String,
}

impl HandlerBox {
    /// Whether `d` parses as a handler box, and else the error.
    pub open spec fn outcome(d: Seq<u8>) -> Result<()> {
        if d.len() < 24 { Err(eof()) } else { Ok(()) }
    }

    /// The fields are those that `d` holds: after version, flags and a
    /// pre-defined word the handler type, then twelve reserved bytes, then a
    /// null-terminated name.
    pub open spec fn parsed_from(&self, d: Seq<u8>) -> bool {
        &&& self.handler_type@ == d.subrange(8, 12)
        &&& self.name@ == latin1(d.subrange(24, nul_index(d, 24)))
    }

    /// Parse a handler box from a buffer.
    pub fn parse(data: &[u8]) -> (r: Result<Self>)
        ensures
            match Self::outcome(data@) {
                Ok(_) => r matches Ok(b) && b.parsed_from(data@),
                Err(e) => r == Err::<Self, Error>(e),
            },
    {
        let mut stream = ReadStream::new(data);
        stream.skip(4)?;
        stream.skip(4)?;
        let handler_type = stream.read_code()?;
        stream.skip(12)?;
        let name = stream.read_string()?;
        Ok(Self { handler_type, name })
    }

    /// Check if this is a picture handler (`pict`).
    pub fn is_picture(&self) -> (r: bool)
        ensures
            r == (self.handler_type@ == PICT@),
    {
        same_code(&self.handler_type, &PICT)
    }
}


/// The handler type stands after the version and flags word and the pre-defined
/// word, and before twelve reserved bytes: whatever those hold, a handler box
/// laid out so parses, with the four bytes in between as its handler type, and
/// it is a picture handler exactly when they spell `pict`.
pub proof fn lemma_handler_type_place(
    header: Seq<u8>,
    handler_type: Seq<u8>,
    reserved: Seq<u8>,
    rest: Seq<u8>,
    b: HandlerBox,
)
    requires
        header.len() == 8,
        handler_type.len() == 4,
        reserved.len() == 12,
    ensures
        HandlerBox::outcome(header + handler_type + reserved + rest) is Ok,
        b.parsed_from(header + handler_type + reserved + rest) ==> {
            &&& b.handler_type@ == handler_type
            &&& (b.handler_type@ == PICT@) == (handler_type == PICT@)
        },
{
    let d = header + handler_type + reserved + rest;
    assert(d.subrange(8, 12) =~= handler_type);
}

} // verus!
