//! Media Data Box implementation.

use vstd::prelude::*;
use vstd::slice::slice_to_vec;
use crate::error::Result;

verus! {

/// Media Data Box.
///
/// The media data of a presentation.
#[derive(Debug)]
pub struct MediaDataBox {
    /// Data.
    pub data: Vec<u8>,
}

impl MediaDataBox {
    /// Parse the box from a buffer: it keeps a copy of the data.
    pub fn parse(data: &[u8]) -> (r: Result<Self>)
        ensures
            r matches Ok(b) && b.data@ == data@,
    {
        Ok(Self { data: slice_to_vec(data) })
    }
}

} // verus!
