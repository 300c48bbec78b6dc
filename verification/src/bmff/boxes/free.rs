//! Free Space Box implementation.

use vstd::prelude::*;
use vstd::slice::slice_to_vec;
use crate::error::Result;

verus! {

/// Free Space Box.
///
/// This box type is used to skip unused space in the file; the two variants, 'free' and 'skip', are functionally identical.
#[derive(Debug)]
pub struct FreeSpaceBox {
    /// Box type ('free' or 'skip').
    pub box_type: [u8; 4],
    /// Data.
    pub data: Vec<u8>,
}

impl FreeSpaceBox {
    /// Parse a free space box from a buffer: it keeps the type and a copy of the data.
    pub fn parse(box_type: [u8; 4], data: &[u8]) -> (r: Result<Self>)
        ensures
            r matches Ok(b) && b.box_type == box_type && b.data@ == data@,
    {
        Ok(Self { box_type, data: slice_to_vec(data) })
    }
}

} // verus!
